//! The server side of one connection: echo, heartbeat and close handshake.
//!
//! A session is `Active` from the moment the connection is accepted. It leaves
//! that state once and never returns to it. Whatever ends it, a close frame, a
//! failure of the channel, an unknown frame or a peer that stays silent for
//! longer than the timeout, the session is `Closed` when the call returns, and
//! the step that closes it is the one that gives the channel up. A close frame
//! takes the session through `Closing`, in which the peer's close is
//! acknowledged, on its way to `Closed`.
//!
//! All times are nanoseconds on a clock of the driver's choosing.

use crate::frame::{
    lemma_no_effect, lemma_one_effect, lemma_two_effects, Effect, EffectView, Failure,
    FailureView, Frame, FrameView,
};
use vstd::prelude::*;

verus! {

/// How often a session checks its peer's heartbeat, in nanoseconds (30 s).
pub const HEARTBEAT_INTERVAL: u64 = 30_000_000_000;

/// How long a peer may stay silent before the session gives up, in nanoseconds (60 s).
pub const CLIENT_TIMEOUT: u64 = 60_000_000_000;

/// Where a session stands in its life.
#[derive(Clone, Copy, Debug, PartialEq, Eq, Structural)]
pub enum SessionState {
    /// Normal operation.
    Active,
    /// The close handshake has begun: the peer's close is being acknowledged,
    /// and no further frame is processed. The channel is still held.
    Closing,
    /// Terminal: the channel is given up.
    Closed,
}

impl SessionState {
    /// Position in the only order in which states may follow each other.
    pub open spec fn rank(self) -> nat {
        match self {
            SessionState::Active => 0,
            SessionState::Closing => 1,
            SessionState::Closed => 2,
        }
    }
}

/// The two periods of the heartbeat protocol, in nanoseconds.
#[derive(Clone, Copy, Debug, PartialEq, Eq, Structural)]
pub struct HeartbeatConfig {
    /// Period of the heartbeat check.
    pub interval: u64,
    /// Longest silence that a check tolerates.
    pub timeout: u64,
}

impl Default for HeartbeatConfig {
    fn default() -> (config: Self)
        ensures
            config.interval == HEARTBEAT_INTERVAL,
            config.timeout == CLIENT_TIMEOUT,
    {
        HeartbeatConfig { interval: HEARTBEAT_INTERVAL, timeout: CLIENT_TIMEOUT }
    }
}

/// Time that has passed between `since` and `now`; zero when `now` is not later.
pub open spec fn elapsed(now: nat, since: nat) -> nat {
    if now >= since {
        (now - since) as nat
    } else {
        0
    }
}

/// Mathematical value of a session.
pub struct SessionView {
    /// When the peer last sent a ping or a pong; the time of creation before the first.
    pub last_heartbeat: nat,
    pub state: SessionState,
    pub interval: nat,
    pub timeout: nat,
}

impl SessionView {
    /// A session accepted at time `now`.
    pub open spec fn accepted(now: nat, interval: nat, timeout: nat) -> SessionView {
        SessionView { last_heartbeat: now, state: SessionState::Active, interval, timeout }
    }

    /// The same session in another state.
    pub open spec fn moved_to(self, state: SessionState) -> SessionView {
        SessionView { state, ..self }
    }

    /// The same session with liveness evidence seen at `now`.
    pub open spec fn refreshed(self, now: nat) -> SessionView {
        SessionView { last_heartbeat: now, ..self }
    }

    /// The peer has been silent for longer than the timeout.
    pub open spec fn timed_out(self, now: nat) -> bool {
        elapsed(now, self.last_heartbeat) > self.timeout
    }

    /// What the start of the session asks for: the periodic heartbeat check.
    pub open spec fn on_started(self) -> (SessionView, Seq<EffectView>) {
        if self.state is Active {
            (self, seq![EffectView::StartHeartbeat(self.interval)])
        } else {
            (self, Seq::empty())
        }
    }

    /// Reaction to one inbound frame that arrives at time `now`.
    pub open spec fn on_frame(self, frame: FrameView, now: nat) -> (SessionView, Seq<EffectView>) {
        if !(self.state is Active) {
            (self, Seq::empty())
        } else {
            match frame {
                FrameView::Ping(payload) => (
                    self.refreshed(now),
                    seq![EffectView::Send(FrameView::Pong(payload))],
                ),
                FrameView::Pong(_) => (self.refreshed(now), Seq::empty()),
                FrameView::Text(text) => (self, seq![EffectView::Send(FrameView::Text(text))]),
                FrameView::Binary(payload) => (
                    self,
                    seq![EffectView::Send(FrameView::Binary(payload))],
                ),
                FrameView::Close(reason) => (
                    self.moved_to(SessionState::Closing).moved_to(SessionState::Closed),
                    seq![EffectView::Send(FrameView::Close(reason)), EffectView::Release],
                ),
                FrameView::Error(cause) => (
                    self.moved_to(SessionState::Closed),
                    seq![EffectView::Report(FailureView::Protocol(cause)), EffectView::Release],
                ),
                FrameView::Other => (self.moved_to(SessionState::Closed), seq![EffectView::Release]),
            }
        }
    }

    /// Reaction to the heartbeat check that fires at time `now`.
    pub open spec fn on_tick(self, now: nat) -> (SessionView, Seq<EffectView>) {
        if !(self.state is Active) {
            (self, Seq::empty())
        } else if self.timed_out(now) {
            (
                self.moved_to(SessionState::Closed),
                seq![EffectView::Report(FailureView::LivenessTimeout), EffectView::Release],
            )
        } else {
            (self, seq![EffectView::Send(FrameView::Ping(Seq::empty()))])
        }
    }

    /// Reaction to the end of the inbound stream: a session that still holds its
    /// channel gives it up and is closed.
    pub open spec fn on_finished(self) -> (SessionView, Seq<EffectView>) {
        if self.state is Closed {
            (self, Seq::empty())
        } else {
            (self.moved_to(SessionState::Closed), seq![EffectView::Release])
        }
    }
}

/// Server-side state of one accepted connection.
#[derive(Debug)]
pub struct MyWebSocket {
    hb: u64,
    state: SessionState,
    config: HeartbeatConfig,
}

impl View for MyWebSocket {
    type V = SessionView;

    closed spec fn view(&self) -> SessionView {
        SessionView {
            last_heartbeat: self.hb as nat,
            state: self.state,
            interval: self.config.interval as nat,
            timeout: self.config.timeout as nat,
        }
    }
}

impl MyWebSocket {
    /// A session for a connection accepted at time `now`, with the default periods.
    pub fn new(now: u64) -> (session: Self)
        ensures
            session@ == SessionView::accepted(
                now as nat,
                HEARTBEAT_INTERVAL as nat,
                CLIENT_TIMEOUT as nat,
            ),
    {
        MyWebSocket {
            hb: now,
            state: SessionState::Active,
            config: HeartbeatConfig { interval: HEARTBEAT_INTERVAL, timeout: CLIENT_TIMEOUT },
        }
    }

    /// A session for a connection accepted at time `now`, with periods of the
    /// caller's choosing.
    pub fn with_config(now: u64, config: HeartbeatConfig) -> (session: Self)
        ensures
            session@ == SessionView::accepted(
                now as nat,
                config.interval as nat,
                config.timeout as nat,
            ),
    {
        MyWebSocket { hb: now, state: SessionState::Active, config }
    }

    /// The state of the session.
    pub fn state(&self) -> (state: SessionState)
        ensures
            state == self@.state,
    {
        self.state
    }

    /// When the peer last sent a ping or a pong; the time of creation before the first.
    pub fn last_heartbeat(&self) -> (at: u64)
        ensures
            at == self@.last_heartbeat,
    {
        self.hb
    }

    /// The periods that the session was made with.
    pub fn config(&self) -> (config: HeartbeatConfig)
        ensures
            config.interval == self@.interval,
            config.timeout == self@.timeout,
    {
        self.config
    }

    /// Called once when the driver starts serving the connection: asks for the
    /// periodic heartbeat check.
    pub fn started(&self) -> (effects: Vec<Effect>)
        ensures
            effects.deep_view() == self@.on_started().1,
    {
        let mut effects: Vec<Effect> = Vec::new();
        match self.state {
            SessionState::Active => {
                effects.push(Effect::StartHeartbeat(self.config.interval));
                proof {
                    lemma_one_effect(effects, EffectView::StartHeartbeat(self@.interval));
                }
            },
            _ => {
                proof {
                    lemma_no_effect(effects);
                }
            },
        }
        effects
    }

    /// Handles one inbound frame that arrives at time `now`.
    ///
    /// While the session is active, a ping is answered with a pong of the same
    /// payload and counts as liveness evidence, as does a pong; text and binary
    /// frames are sent back unchanged and are no evidence. Every other frame
    /// leaves the session closed and the channel given up: a close frame after
    /// it is acknowledged with the same reason, a transport error after it is
    /// reported, a frame of any other kind at once; the last two cause no
    /// further traffic. A session that is no longer active ignores the frame.
    pub fn handle(&mut self, msg: Frame, now: u64) -> (effects: Vec<Effect>)
        ensures
            final(self)@ == old(self)@.on_frame(msg@, now as nat).0,
            effects.deep_view() == old(self)@.on_frame(msg@, now as nat).1,
    {
        let mut effects: Vec<Effect> = Vec::new();
        match self.state {
            SessionState::Active => {},
            _ => {
                proof {
                    lemma_no_effect(effects);
                }
                return effects;
            },
        }
        match msg {
            Frame::Ping(payload) => {
                self.hb = now;
                effects.push(Effect::Send(Frame::Pong(payload)));
                proof {
                    lemma_one_effect(effects, EffectView::Send(FrameView::Pong(payload@)));
                }
            },
            Frame::Pong(_) => {
                self.hb = now;
                proof {
                    lemma_no_effect(effects);
                }
            },
            Frame::Text(text) => {
                effects.push(Effect::Send(Frame::Text(text)));
                proof {
                    lemma_one_effect(effects, EffectView::Send(FrameView::Text(text@)));
                }
            },
            Frame::Binary(payload) => {
                effects.push(Effect::Send(Frame::Binary(payload)));
                proof {
                    lemma_one_effect(effects, EffectView::Send(FrameView::Binary(payload@)));
                }
            },
            Frame::Close(reason) => {
                self.state = SessionState::Closing;
                effects.push(Effect::Send(Frame::Close(reason)));
                self.state = SessionState::Closed;
                effects.push(Effect::Release);
                proof {
                    lemma_two_effects(
                        effects,
                        EffectView::Send(Frame::Close(reason)@),
                        EffectView::Release,
                    );
                }
            },
            Frame::Error(cause) => {
                self.state = SessionState::Closed;
                effects.push(Effect::Report(Failure::Protocol(cause)));
                effects.push(Effect::Release);
                proof {
                    lemma_two_effects(
                        effects,
                        EffectView::Report(FailureView::Protocol(cause@)),
                        EffectView::Release,
                    );
                }
            },
            Frame::Other => {
                self.state = SessionState::Closed;
                effects.push(Effect::Release);
                proof {
                    lemma_one_effect(effects, EffectView::Release);
                }
            },
        }
        effects
    }

    /// The heartbeat check, run at time `now`.
    ///
    /// An active session whose peer has been silent for longer than the timeout
    /// reports the failure and gives the channel up without sending anything;
    /// otherwise it sends a ping with an empty payload. A session that is no
    /// longer active does nothing.
    pub fn hb(&mut self, now: u64) -> (effects: Vec<Effect>)
        ensures
            final(self)@ == old(self)@.on_tick(now as nat).0,
            effects.deep_view() == old(self)@.on_tick(now as nat).1,
    {
        let mut effects: Vec<Effect> = Vec::new();
        match self.state {
            SessionState::Active => {},
            _ => {
                proof {
                    lemma_no_effect(effects);
                }
                return effects;
            },
        }
        if now > self.hb && now - self.hb > self.config.timeout {
            self.state = SessionState::Closed;
            effects.push(Effect::Report(Failure::LivenessTimeout));
            effects.push(Effect::Release);
            proof {
                lemma_two_effects(
                    effects,
                    EffectView::Report(FailureView::LivenessTimeout),
                    EffectView::Release,
                );
            }
        } else {
            let empty: Vec<u8> = Vec::new();
            effects.push(Effect::Send(Frame::Ping(empty)));
            proof {
                lemma_one_effect(effects, EffectView::Send(FrameView::Ping(Seq::empty())));
            }
        }
        effects
    }

    /// The inbound stream has ended.
    ///
    /// A session that still holds its channel gives it up and is closed; a
    /// closed session does nothing.
    pub fn finished(&mut self) -> (effects: Vec<Effect>)
        ensures
            final(self)@ == old(self)@.on_finished().0,
            effects.deep_view() == old(self)@.on_finished().1,
    {
        let mut effects: Vec<Effect> = Vec::new();
        match self.state {
            SessionState::Closed => {
                proof {
                    lemma_no_effect(effects);
                }
            },
            _ => {
                self.state = SessionState::Closed;
                effects.push(Effect::Release);
                proof {
                    lemma_one_effect(effects, EffectView::Release);
                }
            },
        }
        effects
    }
}

} // verus!
