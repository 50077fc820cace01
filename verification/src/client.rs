//! The client side of one connection: it answers pings until it is told to
//! disconnect.
//!
//! A connection starts `Connecting`, while the driver establishes the
//! transport. It becomes `Open` when that succeeds and `Closed` when it fails,
//! and an open connection is closed by the disconnect signal, by a transport
//! error or by the end of the inbound stream, whichever comes first. Nothing
//! brings a closed connection back.

use crate::frame::{
    lemma_no_effect, lemma_one_effect, lemma_two_effects, Effect, EffectView, Failure,
    FailureView, Frame, FrameView,
};
use vstd::prelude::*;

verus! {

/// The signal by which the fleet tells one connection to go away.
#[derive(Clone, Copy, Debug, PartialEq, Eq, Structural)]
pub struct Disconnect;

/// Where a client connection stands in its life.
#[derive(Clone, Copy, Debug, PartialEq, Eq, Structural)]
pub enum ClientState {
    /// The transport is being established.
    Connecting,
    /// The transport is up and inbound frames are being consumed.
    Open,
    /// Terminal: there is no channel, and every later call is a no-op.
    Closed,
}

impl ClientState {
    /// Position in the only order in which states may follow each other.
    pub open spec fn rank(self) -> nat {
        match self {
            ClientState::Connecting => 0,
            ClientState::Open => 1,
            ClientState::Closed => 2,
        }
    }
}

/// Mathematical value of how an attempt to connect ended.
pub open spec fn outcome_view(outcome: Result<(), String>) -> Result<(), Seq<char>> {
    match outcome {
        Ok(_) => Ok(()),
        Err(cause) => Err(cause@),
    }
}

/// Mathematical value of a client connection.
pub struct ClientView {
    pub state: ClientState,
}

impl ClientView {
    /// The same connection in another state.
    pub open spec fn moved_to(self, state: ClientState) -> ClientView {
        ClientView { state }
    }

    /// Reaction to the end of the attempt to connect: open on success, closed
    /// with a report of the cause on failure.
    pub open spec fn on_connected(self, outcome: Result<(), Seq<char>>) -> (
        ClientView,
        Seq<EffectView>,
    ) {
        if !(self.state is Connecting) {
            (self, Seq::empty())
        } else {
            match outcome {
                Ok(_) => (self.moved_to(ClientState::Open), Seq::empty()),
                Err(cause) => (
                    self.moved_to(ClientState::Closed),
                    seq![EffectView::Report(FailureView::ConnectionEstablishment(cause))],
                ),
            }
        }
    }

    /// Reaction to one inbound frame.
    pub open spec fn on_frame(self, frame: FrameView) -> (ClientView, Seq<EffectView>) {
        if !(self.state is Open) {
            (self, Seq::empty())
        } else {
            match frame {
                FrameView::Ping(payload) => (
                    self,
                    seq![EffectView::Send(FrameView::Pong(payload))],
                ),
                FrameView::Error(cause) => (
                    self.moved_to(ClientState::Closed),
                    seq![EffectView::Report(FailureView::Protocol(cause)), EffectView::Release],
                ),
                _ => (self, Seq::empty()),
            }
        }
    }

    /// Reaction to the disconnect signal.
    pub open spec fn on_disconnect(self) -> (ClientView, Seq<EffectView>) {
        if self.state is Open {
            (self.moved_to(ClientState::Closed), seq![EffectView::Release])
        } else {
            (self, Seq::empty())
        }
    }

    /// Reaction to the end of the inbound stream: the peer has closed.
    pub open spec fn on_finished(self) -> (ClientView, Seq<EffectView>) {
        if self.state is Open {
            (self.moved_to(ClientState::Closed), seq![EffectView::Release])
        } else {
            (self, Seq::empty())
        }
    }
}

/// Client-side state of one connection.
#[derive(Debug)]
pub struct WsClient {
    state: ClientState,
}

impl View for WsClient {
    type V = ClientView;

    closed spec fn view(&self) -> ClientView {
        ClientView { state: self.state }
    }
}

impl WsClient {
    /// A connection whose transport is yet to be established.
    pub fn new() -> (client: Self)
        ensures
            client@ == (ClientView { state: ClientState::Connecting }),
    {
        WsClient { state: ClientState::Connecting }
    }

    /// The state of the connection.
    pub fn state(&self) -> (state: ClientState)
        ensures
            state == self@.state,
    {
        self.state
    }

    /// Takes note of how the attempt to connect ended.
    ///
    /// On success the connection is open. On failure it is closed, never to
    /// open, and the cause is reported. Only the first outcome counts: a
    /// connection that is not connecting ignores the call.
    pub fn connected(&mut self, outcome: Result<(), String>) -> (effects: Vec<Effect>)
        ensures
            final(self)@ == old(self)@.on_connected(outcome_view(outcome)).0,
            effects.deep_view() == old(self)@.on_connected(outcome_view(outcome)).1,
    {
        let mut effects: Vec<Effect> = Vec::new();
        match self.state {
            ClientState::Connecting => {},
            _ => {
                proof {
                    lemma_no_effect(effects);
                }
                return effects;
            },
        }
        match outcome {
            Ok(_) => {
                self.state = ClientState::Open;
                proof {
                    lemma_no_effect(effects);
                }
            },
            Err(cause) => {
                self.state = ClientState::Closed;
                effects.push(Effect::Report(Failure::ConnectionEstablishment(cause)));
                proof {
                    lemma_one_effect(
                        effects,
                        EffectView::Report(FailureView::ConnectionEstablishment(cause@)),
                    );
                }
            },
        }
        effects
    }

    /// Handles one inbound frame.
    ///
    /// An open connection answers a ping with a pong of the same payload, closes
    /// on a transport error, which it reports, and ignores every other frame.
    /// A connection that is not open ignores the frame.
    pub fn handle(&mut self, msg: Frame) -> (effects: Vec<Effect>)
        ensures
            final(self)@ == old(self)@.on_frame(msg@).0,
            effects.deep_view() == old(self)@.on_frame(msg@).1,
    {
        let mut effects: Vec<Effect> = Vec::new();
        match self.state {
            ClientState::Open => {},
            _ => {
                proof {
                    lemma_no_effect(effects);
                }
                return effects;
            },
        }
        match msg {
            Frame::Ping(payload) => {
                effects.push(Effect::Send(Frame::Pong(payload)));
                proof {
                    lemma_one_effect(effects, EffectView::Send(FrameView::Pong(payload@)));
                }
            },
            Frame::Error(cause) => {
                self.state = ClientState::Closed;
                effects.push(Effect::Report(Failure::Protocol(cause)));
                effects.push(Effect::Release);
                proof {
                    lemma_two_effects(
                        effects,
                        EffectView::Report(FailureView::Protocol(cause@)),
                        EffectView::Release,
                    );
                }
            },
            _ => {
                proof {
                    lemma_no_effect(effects);
                }
            },
        }
        effects
    }

    /// Handles the disconnect signal.
    ///
    /// An open connection gives its channel up and is closed. In any other
    /// state the signal is a no-op: a closed connection has given its channel
    /// up already, and one that is still connecting has none.
    pub fn disconnect(&mut self, _msg: Disconnect) -> (effects: Vec<Effect>)
        ensures
            final(self)@ == old(self)@.on_disconnect().0,
            effects.deep_view() == old(self)@.on_disconnect().1,
    {
        let mut effects: Vec<Effect> = Vec::new();
        match self.state {
            ClientState::Open => {
                self.state = ClientState::Closed;
                effects.push(Effect::Release);
                proof {
                    lemma_one_effect(effects, EffectView::Release);
                }
            },
            _ => {
                proof {
                    lemma_no_effect(effects);
                }
            },
        }
        effects
    }

    /// The inbound stream has ended: the peer has closed the connection.
    ///
    /// An open connection gives its channel up and is closed; in any other
    /// state nothing happens.
    pub fn finished(&mut self) -> (effects: Vec<Effect>)
        ensures
            final(self)@ == old(self)@.on_finished().0,
            effects.deep_view() == old(self)@.on_finished().1,
    {
        let mut effects: Vec<Effect> = Vec::new();
        match self.state {
            ClientState::Open => {
                self.state = ClientState::Closed;
                effects.push(Effect::Release);
                proof {
                    lemma_one_effect(effects, EffectView::Release);
                }
            },
            _ => {
                proof {
                    lemma_no_effect(effects);
                }
            },
        }
        effects
    }
}

} // verus!
