//! The takes of the recorder: a take starts with the first message after a
//! rest and ends when the piano has come to rest again.

use vstd::prelude::*;
use crate::text::{append_str, chars_to_string, decimal, push_decimal, str_chars};

verus! {

broadcast use vstd::string::group_string_axioms;

/// Decimal representation of a signed integer.
pub open spec fn signed_decimal(n: int) -> Seq<char> {
    if n < 0 {
        seq!['-'] + decimal((-n) as nat)
    } else {
        decimal(n as nat)
    }
}

/// The name of a take that started at `stamp` seconds since the epoch.
pub open spec fn take_name(stamp: int) -> Seq<char> {
    "fp30x-"@ + signed_decimal(stamp)
}

/// The name of a take that started at `stamp` seconds since the epoch, which
/// is also its title.
pub fn session_name(stamp: i64) -> (r: String)
    ensures
        r@ == take_name(stamp as int),
{
    let mut v = str_chars("fp30x-");
    let ghost prefix = v@;
    if stamp < 0 {
        v.push('-');
        let magnitude: u64 = if stamp == i64::MIN {
            0x8000_0000_0000_0000u64
        } else {
            (-stamp) as u64
        };
        push_decimal(&mut v, magnitude);
        assert(v@ =~= prefix + (seq!['-'] + decimal((-(stamp as int)) as nat)));
    } else {
        push_decimal(&mut v, stamp as u64);
    }
    chars_to_string(&v)
}

/// The title under which a take is uploaded: its own name, or, for a take
/// without one, a name after the second `now` of the upload.
pub fn upload_title(title: Option<&str>, now: u64) -> (r: String)
    ensures
        r@ == match title {
            Some(t) => t@,
            None => take_name(now as int),
        },
{
    match title {
        Some(t) => {
            let v = str_chars(t);
            chars_to_string(&v)
        },
        None => {
            let mut v = str_chars("fp30x-");
            push_decimal(&mut v, now);
            chars_to_string(&v)
        },
    }
}

/// The file name of an uploaded take: its title with the extension `.mid`.
pub fn midi_file_name(title: &str) -> (r: String)
    ensures
        r@ == title@ + ".mid"@,
{
    let mut v = str_chars(title);
    append_str(&mut v, ".mid");
    chars_to_string(&v)
}

/// The recorder between and within takes: whether a take runs, the events
/// recorded in it, and its name.
pub struct TakeTracker<T> {
    recording: bool,
    events: Vec<T>,
    session_id: Option<String>,
}

/// What a take that came to an end hands over: its events and its name.
pub struct FinishedTake<T> {
    pub events: Vec<T>,
    pub session_id: Option<String>,
}

impl<T> TakeTracker<T> {
    /// Whether a take runs.
    pub closed spec fn is_recording(&self) -> bool {
        self.recording
    }

    /// The events of the running (or last) take.
    pub closed spec fn recorded(&self) -> Seq<T> {
        self.events@
    }

    /// The name of the running take.
    pub closed spec fn name(&self) -> Option<Seq<char>> {
        match self.session_id {
            Some(s) => Some(s@),
            None => None,
        }
    }

    /// A recorder waiting for the first take.
    pub fn new() -> (r: Self)
        ensures
            !r.is_recording(),
            r.recorded() == Seq::<T>::empty(),
            r.name() is None,
    {
        TakeTracker { recording: false, events: Vec::new(), session_id: None }
    }

    /// A message arrived at wall-clock second `stamp`. Outside a take it
    /// starts one, named after `stamp`, with no events yet, and returns the
    /// name; within a take it changes nothing.
    pub fn begin_if_resting(&mut self, stamp: i64) -> (r: Option<String>)
        ensures
            !old(self).is_recording() ==> {
                &&& r matches Some(id) && id@ == take_name(stamp as int)
                &&& final(self).is_recording()
                &&& final(self).recorded() == Seq::<T>::empty()
                &&& final(self).name() == Some(take_name(stamp as int))
            },
            old(self).is_recording() ==> r is None && final(self).is_recording() == old(self).is_recording()
                && final(self).recorded() == old(self).recorded() && final(self).name() == old(self).name(),
    {
        if self.recording {
            return None;
        }
        self.recording = true;
        self.events.clear();
        let id = session_name(stamp);
        let title = session_name(stamp);
        self.session_id = Some(title);
        Some(id)
    }

    /// The name of the running take, if one runs.
    pub fn session_id(&self) -> (r: Option<String>)
        ensures
            match r {
                Some(s) => self.name() == Some(s@),
                None => self.name() is None,
            },
    {
        match &self.session_id {
            Some(s) => Some(s.clone()),
            None => None,
        }
    }

    /// Adds an event to the take.
    pub fn record(&mut self, event: T)
        ensures
            final(self).recorded() == old(self).recorded().push(event),
            final(self).is_recording() == old(self).is_recording(),
            final(self).name() == old(self).name(),
    {
        self.events.push(event);
    }

    /// The take ends when it runs and the piano is idle: its events and
    /// name are handed over and the recorder waits for the next take.
    /// Otherwise nothing changes.
    pub fn finish_if_idle(&mut self, idle: bool) -> (r: Option<FinishedTake<T>>)
        ensures
            (old(self).is_recording() && idle) ==> {
                &&& r matches Some(t) && t.events@ == old(self).recorded() && match t.session_id {
                    Some(s) => old(self).name() == Some(s@),
                    None => old(self).name() is None,
                }
                &&& !final(self).is_recording()
                &&& final(self).name() is None
                &&& final(self).recorded() == Seq::<T>::empty()
            },
            !(old(self).is_recording() && idle) ==> r is None && final(self).is_recording() == old(self).is_recording()
                && final(self).recorded() == old(self).recorded() && final(self).name() == old(self).name(),
    {
        if !(self.recording && idle) {
            return None;
        }
        let mut events: Vec<T> = Vec::new();
        std::mem::swap(&mut events, &mut self.events);
        let mut session_id: Option<String> = None;
        std::mem::swap(&mut session_id, &mut self.session_id);
        self.recording = false;
        Some(FinishedTake { events, session_id })
    }
}

} // verus!
