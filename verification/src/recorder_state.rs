//! What the recorder knows of the piano while it listens: the keys held
//! down, the sustain pedal, and when the last musical message came in.

use vstd::prelude::*;
use std::collections::HashSet;
use std::time::{Duration, Instant};

verus! {

broadcast use vstd::std_specs::hash::group_hash_axioms;

#[verifier::external_type_specification]
#[verifier::external_body]
pub struct ExInstant(Instant);

/// `Instant::now`: the current reading of the monotonic clock. Nothing is
/// stated of the value: it depends on the time of the call.
#[verifier::external_body]
fn clock_now() -> Instant {
    Instant::now()
}

/// The span from the instant `earlier` to the instant `later`, as
/// `Instant::duration_since` gives it (zero where `earlier` is the later
/// one).
pub uninterp spec fn instant_span(later: Instant, earlier: Instant) -> Duration;

/// `Instant::duration_since`: the time from `earlier` to `later`. Trusted:
/// the span is the one `instant_span` names for these two instants, in this
/// order; `Instant` and `Duration` are opaque here, so nothing more is said.
#[verifier::external_body]
fn span_between(later: Instant, earlier: Instant) -> (r: Duration)
    ensures
        r == instant_span(later, earlier),
{
    later.duration_since(earlier)
}

/// Whether the span `a` is longer than the span `b`, as `Duration`'s `>`
/// answers it.
pub uninterp spec fn duration_exceeds(a: Duration, b: Duration) -> bool;

/// `Duration`'s `>`: whether `a` is longer than `b`. Trusted: the answer is
/// the one `duration_exceeds` names for these two spans, in this order;
/// `Duration` is opaque here, so nothing more is said of it.
#[verifier::external_body]
fn longer_than(a: Duration, b: Duration) -> (r: bool)
    ensures
        r == duration_exceeds(a, b),
{
    a > b
}

/// State of the piano as the recorder follows it.
pub struct RecorderState {
    active_notes: HashSet<u8>,
    sustain_down: bool,
    last_activity: Instant,
}

/// The status nibble of a MIDI message.
pub open spec fn midi_status(msg: Seq<u8>) -> u8 {
    msg[0] & 0xF0
}

/// The first data byte of a message, 0 where it has none.
pub open spec fn midi_key(msg: Seq<u8>) -> u8 {
    if msg.len() > 1 { msg[1] } else { 0 }
}

/// The second data byte of a message, 0 where it has none.
pub open spec fn midi_value(msg: Seq<u8>) -> u8 {
    if msg.len() > 2 { msg[2] } else { 0 }
}

/// A note-on with a velocity above 0.
pub open spec fn is_note_press(msg: Seq<u8>) -> bool {
    midi_status(msg) == 0x90 && midi_value(msg) > 0
}

/// A note-off, or a note-on with velocity 0.
pub open spec fn is_note_release(msg: Seq<u8>) -> bool {
    !is_note_press(msg) && (midi_status(msg) == 0x80 || midi_status(msg) == 0x90)
}

/// A change of the sustain pedal (controller 64).
pub open spec fn is_sustain_change(msg: Seq<u8>) -> bool {
    midi_status(msg) == 0xB0 && midi_key(msg) == 64
}

/// The message is a note or sustain-pedal message, which counts as activity.
pub open spec fn is_musical(msg: Seq<u8>) -> bool {
    is_note_press(msg) || is_note_release(msg) || is_sustain_change(msg)
}

/// The held keys and the pedal after one MIDI message.
pub open spec fn midi_step(state: (Set<u8>, bool), msg: Seq<u8>) -> (Set<u8>, bool) {
    if is_note_press(msg) {
        (state.0.insert(midi_key(msg)), state.1)
    } else if is_note_release(msg) {
        (state.0.remove(midi_key(msg)), state.1)
    } else if is_sustain_change(msg) {
        (state.0, midi_value(msg) >= 64)
    } else {
        state
    }
}

impl View for RecorderState {
    type V = (Set<u8>, bool);

    /// The keys held down and whether the sustain pedal is down.
    closed spec fn view(&self) -> (Set<u8>, bool) {
        (self.active_notes@, self.sustain_down)
    }
}

impl RecorderState {
    /// When the last note or pedal message came in.
    pub closed spec fn last_activity(&self) -> Instant {
        self.last_activity
    }

    /// No key held and the pedal up.
    pub open spec fn at_rest(&self) -> bool {
        self@.0.is_empty() && !self@.1
    }

    /// A state with no keys held and the pedal up, whose idle clock starts
    /// at `now`.
    pub fn new_at(now: Instant) -> (r: Self)
        ensures
            r@ == (Set::<u8>::empty(), false),
            r.last_activity() == now,
    {
        RecorderState { active_notes: HashSet::new(), sustain_down: false, last_activity: now }
    }

    /// A state with no keys held and the pedal up, whose idle clock starts
    /// at the clock's current reading.
    pub fn new() -> (r: Self)
        ensures
            r@ == (Set::<u8>::empty(), false),
    {
        RecorderState::new_at(clock_now())
    }

    /// Follows one MIDI message that came in at `now`: a note press holds
    /// its key, a release lets it go, controller 64 sets the pedal; each of
    /// them makes `now` the time of the last activity. Other messages change
    /// nothing.
    pub fn handle_midi_at(&mut self, msg: &[u8], now: Instant)
        requires
            msg@.len() > 0,
        ensures
            final(self)@ == midi_step(old(self)@, msg@),
            is_musical(msg@) ==> final(self).last_activity() == now,
            !is_musical(msg@) ==> final(self).last_activity() == old(self).last_activity(),
    {
        let status = msg[0] & 0xF0;
        let key: u8 = if msg.len() > 1 { msg[1] } else { 0 };
        let val: u8 = if msg.len() > 2 { msg[2] } else { 0 };
        if status == 0x90 && val > 0 {
            self.active_notes.insert(key);
            self.last_activity = now;
        } else if status == 0x80 || status == 0x90 {
            self.active_notes.remove(&key);
            self.last_activity = now;
        } else if status == 0xB0 && key == 64 {
            self.sustain_down = val >= 64;
            self.last_activity = now;
        }
    }

    /// Follows one MIDI message as `handle_midi_at` does, at the clock's
    /// current reading.
    pub fn handle_midi(&mut self, msg: &[u8])
        requires
            msg@.len() > 0,
        ensures
            final(self)@ == midi_step(old(self)@, msg@),
            !is_musical(msg@) ==> final(self).last_activity() == old(self).last_activity(),
    {
        let now = clock_now();
        self.handle_midi_at(msg, now);
    }

    /// Whether the session has come to rest, given whether the idle timeout
    /// has passed since the last activity: no key held and the pedal up.
    pub fn is_idle_after(&self, timed_out: bool) -> (r: bool)
        ensures
            r == (self.at_rest() && timed_out),
    {
        self.active_notes.is_empty() && !self.sustain_down && timed_out
    }

    /// Whether the session has come to rest at the instant `now`: no key
    /// held, the pedal up, and more than `timeout` from the last activity to
    /// `now`.
    pub fn is_idle_at(&self, now: Instant, timeout: Duration) -> (r: bool)
        ensures
            r == (self.at_rest() && duration_exceeds(instant_span(now, self.last_activity()), timeout)),
    {
        let timed_out = longer_than(span_between(now, self.last_activity), timeout);
        self.is_idle_after(timed_out)
    }

    /// Whether the session has come to rest now, as `is_idle_at` answers it
    /// at the clock's current reading.
    pub fn is_idle(&self, timeout: Duration) -> (r: bool)
        ensures
            r ==> self.at_rest(),
            !self.at_rest() ==> !r,
            exists|now: Instant| r == (self.at_rest() && duration_exceeds(
                #[trigger] instant_span(now, self.last_activity()),
                timeout,
            )),
    {
        let now = clock_now();
        let r = self.is_idle_at(now, timeout);
        let ghost span = instant_span(now, self.last_activity());
        assert(r == (self.at_rest() && duration_exceeds(span, timeout)));
        r
    }

    /// Lets go of every key and raises the pedal, and restarts the idle
    /// clock at `now`.
    pub fn reset_at(&mut self, now: Instant)
        ensures
            final(self)@ == (Set::<u8>::empty(), false),
            final(self).last_activity() == now,
    {
        self.active_notes.clear();
        self.sustain_down = false;
        self.last_activity = now;
    }

    /// Lets go of every key and raises the pedal, and restarts the idle
    /// clock at the clock's current reading.
    pub fn reset(&mut self)
        ensures
            final(self)@ == (Set::<u8>::empty(), false),
    {
        let now = clock_now();
        self.reset_at(now);
    }
}


/// Law: a note press holds its key, whatever was held before.
pub proof fn law_press_holds_key(state: (Set<u8>, bool), msg: Seq<u8>)
    requires
        msg.len() > 0,
        is_note_press(msg),
    ensures
        midi_step(state, msg).0.contains(midi_key(msg)),
        midi_step(state, msg).1 == state.1,
{
}

/// Law: a note release (note-off, or note-on with velocity 0) lets its key
/// go and leaves the pedal as it was.
pub proof fn law_release_frees_key(state: (Set<u8>, bool), msg: Seq<u8>)
    requires
        msg.len() > 0,
        is_note_release(msg),
    ensures
        !midi_step(state, msg).0.contains(midi_key(msg)),
        midi_step(state, msg).1 == state.1,
{
}

/// Law: after a change of controller 64 the pedal is down exactly when its
/// value is 64 or more; the held keys stay as they were.
pub proof fn law_pedal_follows_controller(state: (Set<u8>, bool), msg: Seq<u8>)
    requires
        msg.len() > 0,
        is_sustain_change(msg),
    ensures
        midi_step(state, msg).1 == (midi_value(msg) >= 64),
        midi_step(state, msg).0 == state.0,
{
}

/// Law: messages that are neither notes nor sustain-pedal changes leave the
/// state as it was.
pub proof fn law_other_messages_ignored(state: (Set<u8>, bool), msg: Seq<u8>)
    requires
        msg.len() > 0,
        !is_musical(msg),
    ensures
        midi_step(state, msg) == state,
{
}

/// Law: a note-on (status nibble 9, on any channel) with a velocity above 0
/// holds its key and leaves the pedal as it was.
pub proof fn law_note_on_holds_key(state: (Set<u8>, bool), msg: Seq<u8>)
    requires
        msg.len() >= 3,
        msg[0] & 0xF0 == 0x90,
        msg[2] > 0,
    ensures
        midi_step(state, msg) == (state.0.insert(msg[1]), state.1),
{
}

/// Law: a note-off (status nibble 8), or a note-on with velocity 0 or none,
/// on any channel, lets its key go (key 0 where the message names none) and
/// leaves the pedal as it was.
pub proof fn law_note_off_releases_key(state: (Set<u8>, bool), msg: Seq<u8>)
    requires
        msg.len() >= 1,
        msg[0] & 0xF0 == 0x80 || (msg[0] & 0xF0 == 0x90 && (msg.len() < 3 || msg[2] == 0)),
    ensures
        midi_step(state, msg) == (state.0.remove(if msg.len() > 1 { msg[1] } else { 0u8 }), state.1),
{
}

/// Law: the channel (the low nibble of the status byte) has no effect: a
/// message on any other channel changes the held keys and the pedal alike.
pub proof fn law_channel_ignored(state: (Set<u8>, bool), msg: Seq<u8>, channel: u8)
    requires
        msg.len() >= 1,
        channel < 16,
    ensures
        midi_step(state, msg.update(0, ((msg[0] & 0xF0) | channel) as u8)) == midi_step(state, msg),
{
    let b = msg[0];
    let m2 = msg.update(0, ((b & 0xF0) | channel) as u8);
    assert((((b & 0xF0) | channel) as u8) & 0xF0 == b & 0xF0) by (bit_vector)
        requires
            channel < 16,
    ;
    assert(midi_status(m2) == midi_status(msg));
    assert(midi_key(m2) == midi_key(msg));
    assert(midi_value(m2) == midi_value(msg));
}

/// The state after a run of MIDI messages.
pub open spec fn midi_steps(state: (Set<u8>, bool), msgs: Seq<Seq<u8>>) -> (Set<u8>, bool)
    decreases msgs.len(),
{
    if msgs.len() == 0 {
        state
    } else {
        midi_step(midi_steps(state, msgs.drop_last()), msgs.last())
    }
}

/// Whether key `k` is held after the messages `msgs`, starting from `held`:
/// the last press or release of `k` among them decides.
pub open spec fn key_held_after(held: bool, msgs: Seq<Seq<u8>>, k: u8) -> bool
    decreases msgs.len(),
{
    if msgs.len() == 0 {
        held
    } else {
        let m = msgs.last();
        if (is_note_press(m) || is_note_release(m)) && midi_key(m) == k {
            is_note_press(m)
        } else {
            key_held_after(held, msgs.drop_last(), k)
        }
    }
}

/// Whether the pedal is down after the messages `msgs`, starting from
/// `down`: the last change of controller 64 among them decides.
pub open spec fn pedal_down_after_messages(down: bool, msgs: Seq<Seq<u8>>) -> bool
    decreases msgs.len(),
{
    if msgs.len() == 0 {
        down
    } else if is_sustain_change(msgs.last()) {
        midi_value(msgs.last()) >= 64
    } else {
        pedal_down_after_messages(down, msgs.drop_last())
    }
}

/// Law: over any run of messages, a key is held exactly when the last
/// press or release of that key was a press (or, with none, when it was held
/// before), and the pedal is down exactly when the last change of controller
/// 64 had a value of 64 or more (or, with none, when it was down before).
pub proof fn law_last_message_decides(state: (Set<u8>, bool), msgs: Seq<Seq<u8>>, k: u8)
    ensures
        midi_steps(state, msgs).0.contains(k) == key_held_after(state.0.contains(k), msgs, k),
        midi_steps(state, msgs).1 == pedal_down_after_messages(state.1, msgs),
    decreases msgs.len(),
{
    if msgs.len() > 0 {
        law_last_message_decides(state, msgs.drop_last(), k);
    }
}

} // verus!
