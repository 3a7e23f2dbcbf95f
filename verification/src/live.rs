//! Live session events that the recorder streams and the backend relays
//! to the listeners of a session.

use vstd::prelude::*;
use crate::text::str_equal;

verus! {

/// An event of a live recording session.
#[derive(Debug, Clone)]
pub enum LiveSessionEvent {
    SessionStarted { session_id: String, title: String, started_at: String },
    MidiEvent { session_id: String, timestamp_ms: u64, bytes: Vec<u8> },
    SessionFinished { session_id: String, ended_at: String },
}

impl LiveSessionEvent {
    /// The session that the event belongs to.
    pub open spec fn id_of(&self) -> Seq<char> {
        match self {
            LiveSessionEvent::SessionStarted { session_id, .. } => session_id@,
            LiveSessionEvent::MidiEvent { session_id, .. } => session_id@,
            LiveSessionEvent::SessionFinished { session_id, .. } => session_id@,
        }
    }

    /// The id of the session that the event belongs to (`session_id`).
    pub fn session_id(&self) -> (r: &str)
        ensures
            r@ == self.id_of(),
    {
        match self {
            LiveSessionEvent::SessionStarted { session_id, .. } => session_id.as_str(),
            LiveSessionEvent::MidiEvent { session_id, .. } => session_id.as_str(),
            LiveSessionEvent::SessionFinished { session_id, .. } => session_id.as_str(),
        }
    }

    /// Whether the event belongs to the session `session_id`: a listener of
    /// that session receives exactly these events.
    pub fn belongs_to(&self, session_id: &str) -> (r: bool)
        ensures
            r == (self.id_of() == session_id@),
    {
        str_equal(self.session_id(), session_id)
    }
}

/// A frame that the recorder's socket delivers.
#[derive(Clone, Copy, Debug, PartialEq, Eq)]
pub enum RecorderFrame {
    Text,
    Binary,
    Close,
    Ping,
    Pong,
    Failed,
}

/// What the relay does with a frame from the recorder.
#[derive(Clone, Copy, Debug, PartialEq, Eq)]
pub enum RecorderAction {
    /// Parse the payload as an event and publish it to the listeners.
    Publish,
    /// Nothing to do; wait for the next frame.
    Skip,
    /// The recorder is gone: stop reading.
    Stop,
}

/// The relay's decision for a frame from the recorder: text and binary
/// frames carry events, control frames are skipped, a close or a socket
/// error ends the connection.
pub fn recorder_frame_action(frame: RecorderFrame) -> (r: RecorderAction)
    ensures
        (frame == RecorderFrame::Text || frame == RecorderFrame::Binary) <==> r == RecorderAction::Publish,
        (frame == RecorderFrame::Close || frame == RecorderFrame::Failed) <==> r == RecorderAction::Stop,
{
    match frame {
        RecorderFrame::Text => RecorderAction::Publish,
        RecorderFrame::Binary => RecorderAction::Publish,
        RecorderFrame::Close => RecorderAction::Stop,
        RecorderFrame::Ping => RecorderAction::Skip,
        RecorderFrame::Pong => RecorderAction::Skip,
        RecorderFrame::Failed => RecorderAction::Stop,
    }
}

/// What a listener's connection hears next: a published event, a gap in
/// the event stream, or something from the listener's own socket.
pub enum ListenerInput {
    Event(LiveSessionEvent),
    Lagged,
    ClientClosed,
    ClientFailed,
    ClientOther,
}

/// What the relay does for a listener.
pub enum ListenerAction {
    /// Send this event to the listener.
    Forward(LiveSessionEvent),
    /// Nothing to send; keep listening.
    Skip,
    /// The listener is gone: stop.
    Stop,
}

/// The relay's decision for a listener of `session`, as `listener_action`
/// makes it.
pub open spec fn listener_step(session: Seq<char>, input: ListenerInput) -> ListenerAction {
    match input {
        ListenerInput::Event(e) => if e.id_of() == session {
            ListenerAction::Forward(e)
        } else {
            ListenerAction::Skip
        },
        ListenerInput::Lagged => ListenerAction::Skip,
        ListenerInput::ClientOther => ListenerAction::Skip,
        ListenerInput::ClientClosed => ListenerAction::Stop,
        ListenerInput::ClientFailed => ListenerAction::Stop,
    }
}

/// Whether `input` ends a listener's connection.
pub open spec fn ends_listener(input: ListenerInput) -> bool {
    input is ClientClosed || input is ClientFailed
}

/// The events that the hub published among `inputs`, in order.
pub open spec fn published(inputs: Seq<ListenerInput>) -> Seq<LiveSessionEvent>
    decreases inputs.len(),
{
    if inputs.len() == 0 {
        Seq::empty()
    } else {
        published(inputs.drop_last()) + match inputs.last() {
            ListenerInput::Event(e) => seq![e],
            _ => Seq::empty(),
        }
    }
}

/// The events of `events` that belong to the session `session`, in order.
pub open spec fn of_session(events: Seq<LiveSessionEvent>, session: Seq<char>) -> Seq<LiveSessionEvent> {
    events.filter(|e: LiveSessionEvent| e.id_of() == session)
}

/// Where the first input that ends the connection stands among `inputs`
/// (their number where none does).
pub open spec fn first_end(inputs: Seq<ListenerInput>) -> int
    decreases inputs.len(),
{
    if inputs.len() == 0 {
        0
    } else {
        let f = first_end(inputs.drop_last());
        if f < inputs.len() - 1 {
            f
        } else if ends_listener(inputs.last()) {
            inputs.len() - 1
        } else {
            inputs.len() as int
        }
    }
}

/// The events sent to a listener of `session` as the relay follows its
/// decisions over `inputs`, and whether the connection has ended; nothing
/// is sent after the end.
pub open spec fn relayed(session: Seq<char>, inputs: Seq<ListenerInput>) -> (Seq<LiveSessionEvent>, bool)
    decreases inputs.len(),
{
    if inputs.len() == 0 {
        (Seq::empty(), false)
    } else {
        let prev = relayed(session, inputs.drop_last());
        if prev.1 {
            prev
        } else {
            match listener_step(session, inputs.last()) {
                ListenerAction::Forward(e) => (prev.0.push(e), false),
                ListenerAction::Skip => prev,
                ListenerAction::Stop => (prev.0, true),
            }
        }
    }
}

proof fn lemma_first_end_bounds(inputs: Seq<ListenerInput>)
    ensures
        0 <= first_end(inputs) <= inputs.len(),
        first_end(inputs) < inputs.len() ==> ends_listener(inputs[first_end(inputs)]),
    decreases inputs.len(),
{
    if inputs.len() > 0 {
        lemma_first_end_bounds(inputs.drop_last());
    }
}

/// Law: a listener of a session gets exactly the events of that session
/// that the hub published before its connection ended, in the order they
/// were published, and nothing else (events lost to a gap are skipped);
/// the connection ends at the first close or failure of the listener's
/// socket.
pub proof fn law_listener_gets_its_session(session: Seq<char>, inputs: Seq<ListenerInput>)
    ensures
        relayed(session, inputs).0 == of_session(published(inputs.take(first_end(inputs))), session),
        relayed(session, inputs).1 == (first_end(inputs) < inputs.len()),
    decreases inputs.len(),
{
    reveal(Seq::filter);
    lemma_first_end_bounds(inputs);
    if inputs.len() == 0 {
        assert(inputs.take(0) =~= Seq::<ListenerInput>::empty());
    } else {
        let before = inputs.drop_last();
        law_listener_gets_its_session(session, before);
        lemma_first_end_bounds(before);
        let f = first_end(before);
        if f < before.len() {
            assert(inputs.take(f) =~= before.take(f));
        } else {
            assert(before.take(f) =~= before);
            if ends_listener(inputs.last()) {
                assert(inputs.take(before.len() as int) =~= before);
            } else {
                assert(inputs.take(inputs.len() as int) =~= inputs);
                let pb = published(before);
                match inputs.last() {
                    ListenerInput::Event(e) => {
                        assert(published(inputs) == pb + seq![e]);
                        assert(pb + seq![e] =~= pb.push(e));
                        assert(pb.push(e).drop_last() =~= pb);
                    },
                    _ => {
                        assert(published(inputs) =~= pb);
                    },
                }
            }
        }
    }
}

/// The relay's decision for a listener of `session_id`: events of that
/// session are forwarded, other events and gaps are skipped, and the
/// listener closing or failing ends the connection.
pub fn listener_action(session_id: &str, input: ListenerInput) -> (r: ListenerAction)
    ensures
        r == listener_step(session_id@, input),
        match input {
            ListenerInput::Event(e) => if e.id_of() == session_id@ {
                r == ListenerAction::Forward(e)
            } else {
                r is Skip
            },
            ListenerInput::Lagged => r is Skip,
            ListenerInput::ClientOther => r is Skip,
            ListenerInput::ClientClosed => r is Stop,
            ListenerInput::ClientFailed => r is Stop,
        },
{
    match input {
        ListenerInput::Event(e) => if e.belongs_to(session_id) {
            ListenerAction::Forward(e)
        } else {
            ListenerAction::Skip
        },
        ListenerInput::Lagged => ListenerAction::Skip,
        ListenerInput::ClientOther => ListenerAction::Skip,
        ListenerInput::ClientClosed => ListenerAction::Stop,
        ListenerInput::ClientFailed => ListenerAction::Stop,
    }
}

} // verus!
