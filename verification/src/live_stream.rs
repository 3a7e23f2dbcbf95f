//! The recorder's stream of live events to the backend: one event at a time
//! is held until a send of it succeeds; a failed connection is retried after
//! a pause, and a failed send reconnects and sends the same event again.

use vstd::prelude::*;

verus! {

/// What the stream does next.
#[derive(Clone, Copy, Debug, PartialEq, Eq)]
pub enum StreamStep {
    /// Wait for the next event of the recorder (the stream ends when no
    /// more can come).
    Receive,
    /// Open the socket to the backend.
    Connect,
    /// Send the event that waits.
    Send,
}

/// What happened on the stream's last step.
pub enum StreamInput<E> {
    /// An event of the recorder arrived.
    Received(E),
    /// An attempt to open the socket succeeded (`true`) or failed.
    Connected(bool),
    /// A send of the waiting event succeeded (`true`) or failed.
    Sent(bool),
}

/// The state of the stream: the event that waits to be sent, if any, and
/// whether the socket is open.
pub struct LiveStream<E> {
    pending: Option<E>,
    connected: bool,
}

/// The step that a stream takes in the state (`waiting`, `connected`).
pub open spec fn step_of<E>(waiting: Option<E>, connected: bool) -> StreamStep {
    match waiting {
        None => StreamStep::Receive,
        Some(_) => if connected {
            StreamStep::Send
        } else {
            StreamStep::Connect
        },
    }
}

/// The state after `input` in the state (`waiting`, `connected`).
pub open spec fn apply<E>(state: (Option<E>, bool), input: StreamInput<E>) -> (Option<E>, bool) {
    match input {
        StreamInput::Received(e) => (Some(e), state.1),
        StreamInput::Connected(ok) => (state.0, ok),
        StreamInput::Sent(ok) => if ok {
            (None, state.1)
        } else {
            (state.0, false)
        },
    }
}

/// Whether `input` answers the step that the stream takes in `state`.
pub open spec fn fits<E>(state: (Option<E>, bool), input: StreamInput<E>) -> bool {
    match input {
        StreamInput::Received(_) => step_of(state.0, state.1) == StreamStep::Receive,
        StreamInput::Connected(_) => step_of(state.0, state.1) == StreamStep::Connect,
        StreamInput::Sent(_) => step_of(state.0, state.1) == StreamStep::Send,
    }
}

/// The state reached from a new stream through `inputs`.
pub open spec fn run<E>(inputs: Seq<StreamInput<E>>) -> (Option<E>, bool)
    decreases inputs.len(),
{
    if inputs.len() == 0 {
        (None, false)
    } else {
        apply(run(inputs.drop_last()), inputs.last())
    }
}

/// Whether each of `inputs` answers the step that the stream took.
pub open spec fn follows<E>(inputs: Seq<StreamInput<E>>) -> bool
    decreases inputs.len(),
{
    inputs.len() == 0 || (follows(inputs.drop_last()) && fits(run(inputs.drop_last()), inputs.last()))
}

/// The events of the recorder among `inputs`, in order.
pub open spec fn received<E>(inputs: Seq<StreamInput<E>>) -> Seq<E>
    decreases inputs.len(),
{
    if inputs.len() == 0 {
        Seq::empty()
    } else {
        received(inputs.drop_last()) + match inputs.last() {
            StreamInput::Received(e) => seq![e],
            _ => Seq::empty(),
        }
    }
}

/// The event that waits, as a sequence of at most one event.
pub open spec fn waiting_seq<E>(waiting: Option<E>) -> Seq<E> {
    match waiting {
        Some(e) => seq![e],
        None => Seq::empty(),
    }
}

/// The events that reached the backend through `inputs`, in order: the
/// waiting event at each successful send.
pub open spec fn delivered<E>(inputs: Seq<StreamInput<E>>) -> Seq<E>
    decreases inputs.len(),
{
    if inputs.len() == 0 {
        Seq::empty()
    } else {
        delivered(inputs.drop_last()) + match inputs.last() {
            StreamInput::Sent(true) => waiting_seq(run(inputs.drop_last()).0),
            _ => Seq::empty(),
        }
    }
}

/// No event is lost, doubled or reordered: on a stream that takes the steps
/// it is told, the events received are those delivered, in the same order,
/// followed by the one that waits.
pub proof fn law_stream_keeps_every_event<E>(inputs: Seq<StreamInput<E>>)
    requires
        follows(inputs),
    ensures
        received(inputs) == delivered(inputs) + waiting_seq(run(inputs).0),
    decreases inputs.len(),
{
    if inputs.len() > 0 {
        let before = inputs.drop_last();
        law_stream_keeps_every_event(before);
        match inputs.last() {
            StreamInput::Received(e) => {
                assert(received(inputs) =~= delivered(inputs) + waiting_seq(run(inputs).0));
            },
            StreamInput::Connected(ok) => {
                assert(received(inputs) =~= delivered(inputs) + waiting_seq(run(inputs).0));
            },
            StreamInput::Sent(ok) => {
                assert(received(inputs) =~= delivered(inputs) + waiting_seq(run(inputs).0));
            },
        }
    }
}

/// After a failed send the stream reconnects, and once connected it sends
/// the same event again before it receives another.
pub proof fn law_failed_send_is_retried<E>(event: E)
    ensures
        step_of(apply((Some(event), true), StreamInput::Sent(false)).0, apply(
            (Some(event), true),
            StreamInput::Sent(false),
        ).1) == StreamStep::Connect,
        apply(apply((Some(event), true), StreamInput::Sent(false)), StreamInput::Connected(true))
            == (Some(event), true),
        step_of(Some(event), true) == StreamStep::Send,
{
}

impl<E> LiveStream<E> {
    /// The event that waits to be sent.
    pub closed spec fn waiting(&self) -> Option<E> {
        self.pending
    }

    /// Whether the socket is open.
    pub closed spec fn is_connected(&self) -> bool {
        self.connected
    }

    /// The state as a pair (`waiting`, `is_connected`).
    pub open spec fn state(&self) -> (Option<E>, bool) {
        (self.waiting(), self.is_connected())
    }

    /// A stream with nothing to send and no socket.
    pub fn new() -> (r: Self)
        ensures
            r.state() == run(Seq::<StreamInput<E>>::empty()),
    {
        LiveStream { pending: None, connected: false }
    }

    /// The next step: receive when nothing waits, else connect when the
    /// socket is closed, else send.
    pub fn next_step(&self) -> (r: StreamStep)
        ensures
            r == step_of(self.waiting(), self.is_connected()),
    {
        match &self.pending {
            None => StreamStep::Receive,
            Some(_) => if self.connected {
                StreamStep::Send
            } else {
                StreamStep::Connect
            },
        }
    }

    /// The event that waits to be sent.
    pub fn pending(&self) -> (r: &Option<E>)
        ensures
            *r == self.waiting(),
    {
        &self.pending
    }

    /// An event of the recorder arrived; it waits to be sent.
    pub fn received(&mut self, event: E)
        ensures
            final(self).state() == apply(old(self).state(), StreamInput::Received(event)),
    {
        self.pending = Some(event);
    }

    /// An attempt to open the socket succeeded or failed. Returns whether
    /// the stream pauses before the next attempt: after a failure.
    pub fn connect_result(&mut self, ok: bool) -> (pause: bool)
        ensures
            final(self).state() == apply(old(self).state(), StreamInput::<E>::Connected(ok)),
            pause == !ok,
    {
        self.connected = ok;
        !ok
    }

    /// A send of the waiting event succeeded, and the event is done; or it
    /// failed, and the event waits while the socket is opened again.
    pub fn send_result(&mut self, ok: bool)
        ensures
            final(self).state() == apply(old(self).state(), StreamInput::<E>::Sent(ok)),
    {
        if ok {
            self.pending = None;
        } else {
            self.connected = false;
        }
    }
}

} // verus!
