//! What holds of a client connection over its whole life.
//!
//! A life is the sequence of inputs that the driver hands to one connection, in
//! the order of their arrival. [`ClientView::run`] replays it and collects every
//! effect; the lemmas below speak of all lives at once.

use crate::client::{ClientState, ClientView};
use crate::frame::{EffectView, FrameView};
use vstd::prelude::*;

verus! {

/// One call that the driver makes on a client connection.
pub enum ClientInput {
    /// The attempt to connect has ended, with the transport's cause on failure.
    Connected(Result<(), Seq<char>>),
    /// A frame arrives.
    Frame(FrameView),
    /// The fleet signals the connection to go away.
    Disconnect,
    /// The inbound stream ends.
    Finished,
}

impl ClientView {
    /// The connection and its effects after one input.
    pub open spec fn step(self, input: ClientInput) -> (ClientView, Seq<EffectView>) {
        match input {
            ClientInput::Connected(outcome) => self.on_connected(outcome),
            ClientInput::Frame(frame) => self.on_frame(frame),
            ClientInput::Disconnect => self.on_disconnect(),
            ClientInput::Finished => self.on_finished(),
        }
    }

    /// The connection after all of `inputs`, and every effect along the way, in order.
    pub open spec fn run(self, inputs: Seq<ClientInput>) -> (ClientView, Seq<EffectView>)
        decreases inputs.len(),
    {
        if inputs.len() == 0 {
            (self, Seq::empty())
        } else {
            let before = self.run(inputs.drop_last());
            let last = before.0.step(inputs.last());
            (last.0, before.1 + last.1)
        }
    }
}

/// The answers that the pings among `inputs` are owed: for each ping, in order
/// of arrival, a pong with the same payload.
pub open spec fn pongs_owed(inputs: Seq<ClientInput>) -> Seq<EffectView>
    decreases inputs.len(),
{
    if inputs.len() == 0 {
        Seq::empty()
    } else {
        let earlier = pongs_owed(inputs.drop_last());
        match inputs.last() {
            ClientInput::Frame(FrameView::Ping(payload)) => earlier.push(
                EffectView::Send(FrameView::Pong(payload)),
            ),
            _ => earlier,
        }
    }
}

/// A connection never goes back: over any life its state only advances from
/// `Connecting` towards `Closed`.
pub proof fn lemma_states_only_advance(c: ClientView, inputs: Seq<ClientInput>)
    ensures
        c.run(inputs).0.state.rank() >= c.state.rank(),
    decreases inputs.len(),
{
    if inputs.len() > 0 {
        lemma_states_only_advance(c, inputs.drop_last());
    }
}

/// Idempotent close: a closed connection is inert. A disconnect signal, a
/// transport error or any other input leaves it as it is and has no effect.
pub proof fn lemma_closed_connection_is_inert(c: ClientView, inputs: Seq<ClientInput>)
    requires
        c.state is Closed,
    ensures
        c.run(inputs) == (c, Seq::<EffectView>::empty()),
    decreases inputs.len(),
{
    if inputs.len() > 0 {
        lemma_closed_connection_is_inert(c, inputs.drop_last());
        assert(c.run(inputs).1 =~= Seq::<EffectView>::empty());
    }
}

/// A second disconnect signal does nothing, whatever the state at the first.
pub proof fn lemma_disconnect_is_idempotent(c: ClientView)
    ensures
        c.on_disconnect().0.on_disconnect() == (c.on_disconnect().0, Seq::<EffectView>::empty()),
{
}

/// A connection that failed to connect never opens, and never has a channel to
/// give up: every later input is a no-op.
pub proof fn lemma_failed_connection_never_opens(
    c: ClientView,
    cause: Seq<char>,
    inputs: Seq<ClientInput>,
)
    requires
        c.state is Connecting,
    ensures
        c.on_connected(Err(cause)).0.run(inputs) == (
            ClientView { state: ClientState::Closed },
            Seq::<EffectView>::empty(),
        ),
{
    lemma_closed_connection_is_inert(c.on_connected(Err(cause)).0, inputs);
}

/// The channel is given up at most once, and last of all: a release is the
/// final effect of a life and leaves the connection closed.
pub proof fn lemma_release_is_final(c: ClientView, inputs: Seq<ClientInput>)
    ensures
        forall|k: int|
            0 <= k < c.run(inputs).1.len() && #[trigger] c.run(inputs).1[k] == EffectView::Release
                ==> k == c.run(inputs).1.len() - 1 && c.run(inputs).0.state is Closed,
    decreases inputs.len(),
{
    if inputs.len() > 0 {
        let before = c.run(inputs.drop_last());
        let last = before.0.step(inputs.last());
        let effects = before.1 + last.1;
        lemma_release_is_final(c, inputs.drop_last());
        assert forall|k: int| 0 <= k < effects.len() && #[trigger] effects[k]
            == EffectView::Release implies k == effects.len() - 1 && last.0.state is Closed by {
            if k < before.1.len() {
                assert(before.1[k] == EffectView::Release);
                assert(before.0.state is Closed);
                assert(last.1 =~= Seq::<EffectView>::empty());
            } else {
                assert(effects[k] == last.1[k - before.1.len()]);
            }
        }
    }
}

/// An open connection that is closed in the end has given its channel up.
pub proof fn lemma_open_connection_is_released(c: ClientView, inputs: Seq<ClientInput>)
    requires
        c.state is Open,
        c.run(inputs).0.state is Closed,
    ensures
        c.run(inputs).1.len() > 0,
        c.run(inputs).1.last() == EffectView::Release,
    decreases inputs.len(),
{
    if inputs.len() > 0 {
        let before = c.run(inputs.drop_last());
        let last = before.0.step(inputs.last());
        lemma_states_only_advance(c, inputs.drop_last());
        if before.0.state is Closed {
            lemma_open_connection_is_released(c, inputs.drop_last());
            assert(last.1 =~= Seq::<EffectView>::empty());
            assert(before.1 + last.1 =~= before.1);
        }
    }
}

/// Ping reciprocity: an open connection answers every ping with one pong that
/// carries the same payload, and with nothing else, and stays open.
pub proof fn lemma_ping_is_answered(c: ClientView, payload: Seq<u8>)
    requires
        c.state is Open,
    ensures
        c.on_frame(FrameView::Ping(payload)) == (
            c,
            seq![EffectView::Send(FrameView::Pong(payload))],
        ),
{
}

/// As long as a connection stays open, its effects are the pongs that it owes
/// and nothing else: one for each ping, in order of arrival.
pub proof fn lemma_open_connection_only_answers_pings(c: ClientView, inputs: Seq<ClientInput>)
    requires
        c.state is Open,
        c.run(inputs).0.state is Open,
    ensures
        c.run(inputs).1 == pongs_owed(inputs),
    decreases inputs.len(),
{
    if inputs.len() > 0 {
        let before = c.run(inputs.drop_last());
        let last = before.0.step(inputs.last());
        lemma_states_only_advance(c, inputs.drop_last());
        assert(before.0.state is Open);
        lemma_open_connection_only_answers_pings(c, inputs.drop_last());
        assert(before.1 + last.1 =~= pongs_owed(inputs));
    } else {
        assert(c.run(inputs).1 =~= pongs_owed(inputs));
    }
}

} // verus!
