//! Frames that travel over one connection, and what a state machine asks its
//! driver to do with the connection.
//!
//! The state machines of this crate never touch a socket. They are handed each
//! inbound [`Frame`] and answer with a list of [`Effect`]s, which the driver
//! carries out in order.

use vstd::prelude::*;

verus! {

/// Why a peer closes the connection: a status code and an optional explanation.
#[derive(Clone, Debug, PartialEq, Eq)]
pub struct CloseReason {
    pub code: u16,
    pub description: Option<String>,
}

/// Mathematical value of a [`CloseReason`].
pub struct CloseReasonView {
    pub code: u16,
    pub description: Option<Seq<char>>,
}

impl View for CloseReason {
    type V = CloseReasonView;

    open spec fn view(&self) -> CloseReasonView {
        CloseReasonView {
            code: self.code,
            description: match self.description {
                Some(text) => Some(text@),
                None => None,
            },
        }
    }
}

/// One unit of inbound or outbound traffic, as the transport classifies it.
#[derive(Clone, Debug, PartialEq, Eq)]
pub enum Frame {
    /// Liveness probe; the payload is returned in the answering `Pong`.
    Ping(Vec<u8>),
    /// Answer to a liveness probe.
    Pong(Vec<u8>),
    /// Application data, textual.
    Text(String),
    /// Application data, raw bytes.
    Binary(Vec<u8>),
    /// The peer starts or acknowledges the close handshake.
    Close(Option<CloseReason>),
    /// The transport failed; the text says why. The channel is unusable afterwards.
    Error(String),
    /// Any kind of frame that the state machines do not handle.
    Other,
}

/// Mathematical value of a [`Frame`]: payloads as sequences.
pub enum FrameView {
    Ping(Seq<u8>),
    Pong(Seq<u8>),
    Text(Seq<char>),
    Binary(Seq<u8>),
    Close(Option<CloseReasonView>),
    Error(Seq<char>),
    Other,
}

impl View for Frame {
    type V = FrameView;

    open spec fn view(&self) -> FrameView {
        match self {
            Frame::Ping(payload) => FrameView::Ping(payload@),
            Frame::Pong(payload) => FrameView::Pong(payload@),
            Frame::Text(text) => FrameView::Text(text@),
            Frame::Binary(payload) => FrameView::Binary(payload@),
            Frame::Close(reason) => FrameView::Close(
                match reason {
                    Some(r) => Some(r@),
                    None => None,
                },
            ),
            Frame::Error(cause) => FrameView::Error(cause@),
            Frame::Other => FrameView::Other,
        }
    }
}

impl FrameView {
    /// Application data: the frames that a session echoes.
    pub open spec fn is_data(self) -> bool {
        self is Text || self is Binary
    }

    /// Liveness evidence: the frames that reset a session's heartbeat clock.
    pub open spec fn is_heartbeat(self) -> bool {
        self is Ping || self is Pong
    }
}

/// Why a state machine gave up its connection.
#[derive(Clone, Debug, PartialEq, Eq)]
pub enum Failure {
    /// The transport could not be established; the text is the transport's cause.
    ConnectionEstablishment(String),
    /// The inbound stream reported an error; the text is the transport's cause.
    Protocol(String),
    /// No liveness evidence arrived within the timeout.
    LivenessTimeout,
}

/// Mathematical value of a [`Failure`].
pub enum FailureView {
    ConnectionEstablishment(Seq<char>),
    Protocol(Seq<char>),
    LivenessTimeout,
}

impl View for Failure {
    type V = FailureView;

    open spec fn view(&self) -> FailureView {
        match self {
            Failure::ConnectionEstablishment(cause) => FailureView::ConnectionEstablishment(cause@),
            Failure::Protocol(cause) => FailureView::Protocol(cause@),
            Failure::LivenessTimeout => FailureView::LivenessTimeout,
        }
    }
}

impl FailureView {
    /// The text that tells the operator of the failure: for a failure with a
    /// cause, a fixed opening followed by the cause as the transport gave it.
    pub open spec fn message(self) -> Seq<char> {
        match self {
            FailureView::ConnectionEstablishment(cause) => "Failed to connect to Server: "@
                + cause,
            FailureView::Protocol(cause) => "Error while parsing WebSocket message: "@ + cause,
            FailureView::LivenessTimeout => "Websocket Client heartbeat failed, disconnecting!"@,
        }
    }
}

impl Failure {
    /// The text that tells the operator of the failure.
    pub fn message(&self) -> (text: String)
        ensures
            text@ == self@.message(),
    {
        match self {
            Failure::ConnectionEstablishment(cause) => String::from_str(
                "Failed to connect to Server: ",
            ).concat(cause.as_str()),
            Failure::Protocol(cause) => String::from_str(
                "Error while parsing WebSocket message: ",
            ).concat(cause.as_str()),
            Failure::LivenessTimeout => String::from_str(
                "Websocket Client heartbeat failed, disconnecting!",
            ),
        }
    }
}

/// One thing the driver must do for a state machine, on that machine's own channel.
#[derive(Clone, Debug, PartialEq, Eq)]
pub enum Effect {
    /// Run a heartbeat check at this interval, in nanoseconds, until the channel is released.
    StartHeartbeat(u64),
    /// Queue the frame for transmission to the peer.
    Send(Frame),
    /// Report the failure to the operator; the connection ends because of it.
    Report(Failure),
    /// Give the channel up. Nothing may be sent on it afterwards.
    Release,
}

/// Mathematical value of an [`Effect`].
pub enum EffectView {
    StartHeartbeat(nat),
    Send(FrameView),
    Report(FailureView),
    Release,
}

impl View for Effect {
    type V = EffectView;

    open spec fn view(&self) -> EffectView {
        match self {
            Effect::StartHeartbeat(every) => EffectView::StartHeartbeat(*every as nat),
            Effect::Send(frame) => EffectView::Send(frame@),
            Effect::Report(failure) => EffectView::Report(failure@),
            Effect::Release => EffectView::Release,
        }
    }
}

impl DeepView for Effect {
    type V = EffectView;

    open spec fn deep_view(&self) -> EffectView {
        self@
    }
}

/// The view of an effect list whose only member is `effect`.
pub(crate) proof fn lemma_one_effect(effects: Vec<Effect>, effect: EffectView)
    requires
        effects@.len() == 1,
        effects@[0]@ == effect,
    ensures
        effects.deep_view() == seq![effect],
{
    assert(effects.deep_view() =~= seq![effect]);
}

/// The view of an effect list of two members.
pub(crate) proof fn lemma_two_effects(effects: Vec<Effect>, first: EffectView, second: EffectView)
    requires
        effects@.len() == 2,
        effects@[0]@ == first,
        effects@[1]@ == second,
    ensures
        effects.deep_view() == seq![first, second],
{
    assert(effects.deep_view() =~= seq![first, second]);
}

/// The view of an empty effect list.
pub(crate) proof fn lemma_no_effect(effects: Vec<Effect>)
    requires
        effects@.len() == 0,
    ensures
        effects.deep_view() == Seq::<EffectView>::empty(),
{
    assert(effects.deep_view() =~= Seq::<EffectView>::empty());
}

} // verus!
