//! What holds of a session over its whole life.
//!
//! A life is the sequence of inputs that the driver hands to one session, in the
//! order of their arrival. [`SessionView::run`] replays it and collects every
//! effect; the lemmas below speak of all lives at once.

use crate::frame::{CloseReasonView, EffectView, FailureView, FrameView};
use crate::server::{elapsed, SessionState, SessionView};
use vstd::prelude::*;

verus! {

/// One call that the driver makes on a session.
pub enum SessionInput {
    /// The driver starts serving the connection.
    Started,
    /// A frame arrives at time `at`.
    Frame { frame: FrameView, at: nat },
    /// The heartbeat check fires at time `at`.
    Tick { at: nat },
    /// The inbound stream ends.
    Finished,
}

impl SessionView {
    /// The session and its effects after one input.
    pub open spec fn step(self, input: SessionInput) -> (SessionView, Seq<EffectView>) {
        match input {
            SessionInput::Started => self.on_started(),
            SessionInput::Frame { frame, at } => self.on_frame(frame, at),
            SessionInput::Tick { at } => self.on_tick(at),
            SessionInput::Finished => self.on_finished(),
        }
    }

    /// The session after all of `inputs`, and every effect along the way, in order.
    pub open spec fn run(self, inputs: Seq<SessionInput>) -> (SessionView, Seq<EffectView>)
        decreases inputs.len(),
    {
        if inputs.len() == 0 {
            (self, Seq::empty())
        } else {
            let before = self.run(inputs.drop_last());
            let last = before.0.step(inputs.last());
            (last.0, before.1 + last.1)
        }
    }
}

/// The data frames among `inputs`, in order of arrival.
pub open spec fn data_received(inputs: Seq<SessionInput>) -> Seq<FrameView>
    decreases inputs.len(),
{
    if inputs.len() == 0 {
        Seq::empty()
    } else {
        let earlier = data_received(inputs.drop_last());
        match inputs.last() {
            SessionInput::Frame { frame, at } => if frame.is_data() {
                earlier.push(frame)
            } else {
                earlier
            },
            _ => earlier,
        }
    }
}

/// The data frames that `effects` send to the peer, in order of sending.
pub open spec fn data_sent(effects: Seq<EffectView>) -> Seq<FrameView>
    decreases effects.len(),
{
    if effects.len() == 0 {
        Seq::empty()
    } else {
        let earlier = data_sent(effects.drop_last());
        match effects.last() {
            EffectView::Send(frame) => if frame.is_data() {
                earlier.push(frame)
            } else {
                earlier
            },
            _ => earlier,
        }
    }
}

/// When the peer last gave liveness evidence: the arrival of the latest ping or
/// pong among `inputs`, or `start` if there is none.
pub open spec fn latest_evidence(start: nat, inputs: Seq<SessionInput>) -> nat
    decreases inputs.len(),
{
    if inputs.len() == 0 {
        start
    } else {
        match inputs.last() {
            SessionInput::Frame { frame, at } => if frame.is_heartbeat() {
                at
            } else {
                latest_evidence(start, inputs.drop_last())
            },
            _ => latest_evidence(start, inputs.drop_last()),
        }
    }
}

/// Replaying one more input is one more step.
pub proof fn lemma_run_push(s: SessionView, inputs: Seq<SessionInput>, next: SessionInput)
    ensures
        s.run(inputs.push(next)).0 == s.run(inputs).0.step(next).0,
        s.run(inputs.push(next)).1 == s.run(inputs).1 + s.run(inputs).0.step(next).1,
{
    assert(inputs.push(next).drop_last() =~= inputs);
}

/// The data frames sent by two effect lists in a row are those of the first,
/// then those of the second.
proof fn lemma_data_sent_concat(a: Seq<EffectView>, b: Seq<EffectView>)
    ensures
        data_sent(a + b) == data_sent(a) + data_sent(b),
    decreases b.len(),
{
    if b.len() == 0 {
        assert(a + b =~= a);
        assert(data_sent(a) + data_sent(b) =~= data_sent(a));
    } else {
        lemma_data_sent_concat(a, b.drop_last());
        assert((a + b).drop_last() =~= a + b.drop_last());
        assert((a + b).last() == b.last());
        let earlier = data_sent(a) + data_sent(b.drop_last());
        match b.last() {
            EffectView::Send(frame) => {
                if frame.is_data() {
                    assert(earlier.push(frame) =~= data_sent(a) + data_sent(b.drop_last()).push(
                        frame,
                    ));
                }
            },
            _ => {},
        }
    }
}

/// A session never goes back: over any life its state only advances from
/// `Active` towards `Closed`, and its two periods stay as they were.
pub proof fn lemma_states_only_advance(s: SessionView, inputs: Seq<SessionInput>)
    ensures
        s.run(inputs).0.state.rank() >= s.state.rank(),
        s.run(inputs).0.interval == s.interval,
        s.run(inputs).0.timeout == s.timeout,
    decreases inputs.len(),
{
    if inputs.len() > 0 {
        lemma_states_only_advance(s, inputs.drop_last());
    }
}

/// A session that has left `Active` processes nothing: whatever arrives
/// afterwards, it sends nothing and reports nothing, and neither comes back to
/// life nor moves its heartbeat. All it may still do is give up a channel that
/// it holds.
pub proof fn lemma_nothing_is_processed_after_close(s: SessionView, inputs: Seq<SessionInput>)
    requires
        !(s.state is Active),
    ensures
        forall|k: int|
            0 <= k < s.run(inputs).1.len() ==> #[trigger] s.run(inputs).1[k]
                == EffectView::Release,
        !(s.run(inputs).0.state is Active),
        s.run(inputs).0.last_heartbeat == s.last_heartbeat,
    decreases inputs.len(),
{
    if inputs.len() > 0 {
        let before = s.run(inputs.drop_last());
        let last = before.0.step(inputs.last());
        let effects = before.1 + last.1;
        lemma_nothing_is_processed_after_close(s, inputs.drop_last());
        assert forall|k: int| 0 <= k < effects.len() implies #[trigger] effects[k]
            == EffectView::Release by {
            if k < before.1.len() {
                assert(effects[k] == before.1[k]);
            } else {
                assert(effects[k] == last.1[k - before.1.len()]);
            }
        }
    }
}

/// A closed session is inert: no input changes it or has any effect.
pub proof fn lemma_closed_session_is_inert(s: SessionView, inputs: Seq<SessionInput>)
    requires
        s.state is Closed,
    ensures
        s.run(inputs) == (s, Seq::<EffectView>::empty()),
    decreases inputs.len(),
{
    if inputs.len() > 0 {
        lemma_closed_session_is_inert(s, inputs.drop_last());
        assert(s.run(inputs).1 =~= Seq::<EffectView>::empty());
    }
}

/// The channel is given up exactly once, in the step that closes the session,
/// and last of all: as long as the session is active nothing releases the
/// channel; once it is not, it is closed, and the release is the final effect
/// of its life and the only one of its kind. No call leaves a session that
/// began active in `Closing`.
pub proof fn lemma_channel_released_once(s: SessionView, inputs: Seq<SessionInput>)
    requires
        s.state is Active,
    ensures
        ({
            let (end, effects) = s.run(inputs);
            if end.state is Active {
                !effects.contains(EffectView::Release)
            } else {
                &&& end.state is Closed
                &&& effects.len() > 0
                &&& effects.last() == EffectView::Release
                &&& !effects.drop_last().contains(EffectView::Release)
            }
        }),
    decreases inputs.len(),
{
    if inputs.len() > 0 {
        let before = s.run(inputs.drop_last());
        let last = before.0.step(inputs.last());
        let effects = before.1 + last.1;
        lemma_channel_released_once(s, inputs.drop_last());
        if before.0.state is Active {
            if last.0.state is Active {
                assert forall|k: int| 0 <= k < effects.len() implies effects[k]
                    != EffectView::Release by {
                    if k < before.1.len() {
                        assert(before.1.contains(effects[k]));
                    }
                }
            } else {
                assert(last.1.len() > 0 && last.1.last() == EffectView::Release);
                assert forall|k: int| 0 <= k < effects.len() - 1 implies effects.drop_last()[k]
                    != EffectView::Release by {
                    if k < before.1.len() {
                        assert(before.1.contains(effects[k]));
                    }
                }
            }
        } else {
            assert(last.1 =~= Seq::<EffectView>::empty());
            assert(effects =~= before.1);
        }
    }
}

/// Echo: while a session is active, the data frames it sends back are exactly
/// the text and binary frames it received, payloads unchanged and in the order
/// of arrival, whatever else arrives in between.
pub proof fn lemma_echo_in_order(s: SessionView, inputs: Seq<SessionInput>)
    requires
        s.run(inputs).0.state is Active,
    ensures
        data_sent(s.run(inputs).1) == data_received(inputs),
    decreases inputs.len(),
{
    if inputs.len() > 0 {
        let before = s.run(inputs.drop_last());
        let last = before.0.step(inputs.last());
        assert(before.0.state is Active);
        lemma_echo_in_order(s, inputs.drop_last());
        lemma_data_sent_concat(before.1, last.1);
        reveal_with_fuel(data_sent, 3);
        match inputs.last() {
            SessionInput::Frame { frame, at } => {
                if frame.is_data() {
                    assert(last.1.drop_last() =~= Seq::<EffectView>::empty());
                    assert(data_sent(last.1) =~= seq![frame]);
                    assert(data_received(inputs.drop_last()) + seq![frame] =~= data_received(
                        inputs.drop_last(),
                    ).push(frame));
                } else {
                    assert(data_sent(last.1) =~= Seq::<FrameView>::empty());
                    assert(data_sent(before.1) + data_sent(last.1) =~= data_sent(before.1));
                }
            },
            _ => {
                assert(data_sent(last.1) =~= Seq::<FrameView>::empty());
                assert(data_sent(before.1) + data_sent(last.1) =~= data_sent(before.1));
            },
        }
    }
}

/// A life of nothing but text and binary frames is answered frame for frame:
/// the effects are the same frames, sent back in order, and the session is
/// left as it was.
pub proof fn lemma_data_is_echoed_exactly(s: SessionView, frames: Seq<FrameView>, times: Seq<nat>)
    requires
        s.state is Active,
        frames.len() == times.len(),
        forall|i: int| 0 <= i < frames.len() ==> (#[trigger] frames[i]).is_data(),
    ensures
        s.run(
            Seq::new(
                frames.len(),
                |i: int| SessionInput::Frame { frame: frames[i], at: times[i] },
            ),
        ) == (s, Seq::new(frames.len(), |i: int| EffectView::Send(frames[i]))),
    decreases frames.len(),
{
    let inputs = Seq::new(
        frames.len(),
        |i: int| SessionInput::Frame { frame: frames[i], at: times[i] },
    );
    let effects = Seq::new(frames.len(), |i: int| EffectView::Send(frames[i]));
    if frames.len() == 0 {
        assert(effects =~= Seq::<EffectView>::empty());
    } else {
        let shorter = Seq::new(
            frames.drop_last().len(),
            |i: int| SessionInput::Frame { frame: frames.drop_last()[i], at: times.drop_last()[i] },
        );
        lemma_data_is_echoed_exactly(s, frames.drop_last(), times.drop_last());
        assert(inputs.drop_last() =~= shorter);
        assert(frames.last().is_data());
        assert(s.run(inputs).1 =~= effects);
    }
}

/// While a session is active, its heartbeat clock shows the arrival of the
/// latest ping or pong, or its starting value if none has arrived.
pub proof fn lemma_heartbeat_follows_evidence(s: SessionView, inputs: Seq<SessionInput>)
    requires
        s.run(inputs).0.state is Active,
    ensures
        s.run(inputs).0.last_heartbeat == latest_evidence(s.last_heartbeat, inputs),
    decreases inputs.len(),
{
    if inputs.len() > 0 {
        let before = s.run(inputs.drop_last());
        assert(before.0.state is Active);
        lemma_heartbeat_follows_evidence(s, inputs.drop_last());
    }
}

/// Heartbeat liveness: if at every heartbeat check the latest ping or pong (or
/// the start of the session) lies no further back than the timeout, then the
/// session never reports a liveness timeout.
pub proof fn lemma_heartbeat_liveness(s: SessionView, inputs: Seq<SessionInput>)
    requires
        s.state is Active,
        forall|i: int|
            0 <= i < inputs.len() ==> (#[trigger] inputs[i] matches SessionInput::Tick { at }
                ==> elapsed(at, latest_evidence(s.last_heartbeat, inputs.take(i))) <= s.timeout),
    ensures
        !s.run(inputs).1.contains(EffectView::Report(FailureView::LivenessTimeout)),
    decreases inputs.len(),
{
    let timeout = EffectView::Report(FailureView::LivenessTimeout);
    if inputs.len() > 0 {
        let earlier = inputs.drop_last();
        let before = s.run(earlier);
        let last = before.0.step(inputs.last());
        let effects = before.1 + last.1;
        assert forall|i: int| 0 <= i < earlier.len() implies (#[trigger] earlier[i] matches SessionInput::Tick {
            at,
        } ==> elapsed(at, latest_evidence(s.last_heartbeat, earlier.take(i))) <= s.timeout) by {
            assert(earlier.take(i) =~= inputs.take(i));
            assert(earlier[i] == inputs[i]);
        }
        lemma_heartbeat_liveness(s, earlier);
        lemma_states_only_advance(s, earlier);
        assert(before.0.timeout == s.timeout);
        assert forall|k: int| 0 <= k < last.1.len() implies last.1[k] != timeout by {
            if before.0.state is Active {
                lemma_heartbeat_follows_evidence(s, earlier);
                assert(inputs.take(inputs.len() - 1) =~= earlier);
                assert(inputs[inputs.len() - 1] == inputs.last());
            }
        }
        assert forall|k: int| 0 <= k < effects.len() implies effects[k] != timeout by {
            if k < before.1.len() {
                assert(before.1.contains(effects[k]));
            } else {
                assert(effects[k] == last.1[k - before.1.len()]);
            }
        }
    }
}

/// Heartbeat timeout: if the latest ping or pong (or the start of the session)
/// lies further back than the timeout when a heartbeat check fires on an active
/// session, then that check reports the timeout and gives the channel up,
/// sends no ping, and leaves the session closed.
pub proof fn lemma_heartbeat_timeout(s: SessionView, inputs: Seq<SessionInput>, at: nat)
    requires
        s.run(inputs).0.state is Active,
        elapsed(at, latest_evidence(s.last_heartbeat, inputs)) > s.timeout,
    ensures
        s.run(inputs.push(SessionInput::Tick { at })).0 == s.run(inputs).0.moved_to(
            SessionState::Closed,
        ),
        s.run(inputs.push(SessionInput::Tick { at })).1 == s.run(inputs).1 + seq![
            EffectView::Report(FailureView::LivenessTimeout),
            EffectView::Release,
        ],
{
    lemma_run_push(s, inputs, SessionInput::Tick { at });
    lemma_heartbeat_follows_evidence(s, inputs);
    lemma_states_only_advance(s, inputs);
}

/// Close handshake: an active session acknowledges a close frame with a close
/// frame of the same reason, then gives the channel up, and is closed when the
/// call returns, having passed through `Closing`. Its heartbeat is left as it was.
pub proof fn lemma_close_is_acknowledged(
    s: SessionView,
    reason: Option<CloseReasonView>,
    at: nat,
)
    requires
        s.state is Active,
    ensures
        s.on_frame(FrameView::Close(reason), at).0 == s.moved_to(SessionState::Closing).moved_to(
            SessionState::Closed,
        ),
        s.on_frame(FrameView::Close(reason), at).0.state is Closed,
        s.on_frame(FrameView::Close(reason), at).0.last_heartbeat == s.last_heartbeat,
        s.on_frame(FrameView::Close(reason), at).1 == seq![
            EffectView::Send(FrameView::Close(reason)),
            EffectView::Release,
        ],
{
}

/// An active session stays active on a ping, a pong, a text frame and a binary
/// frame, and on nothing else: after any other frame it is closed, and the last
/// thing it has done is to give the channel up.
pub proof fn lemma_frame_keeps_or_closes(s: SessionView, frame: FrameView, at: nat)
    requires
        s.state is Active,
    ensures
        s.on_frame(frame, at).0.state is Active <==> frame.is_heartbeat() || frame.is_data(),
        !(s.on_frame(frame, at).0.state is Active) ==> {
            &&& s.on_frame(frame, at).0.state is Closed
            &&& s.on_frame(frame, at).1.len() > 0
            &&& s.on_frame(frame, at).1.last() == EffectView::Release
        },
{
}

/// Ping reciprocity: an active session answers every ping with one pong that
/// carries the same payload, and with nothing else.
pub proof fn lemma_ping_is_answered(s: SessionView, payload: Seq<u8>, at: nat)
    requires
        s.state is Active,
    ensures
        s.on_frame(FrameView::Ping(payload), at).1 == seq![
            EffectView::Send(FrameView::Pong(payload)),
        ],
        s.on_frame(FrameView::Ping(payload), at).0.state is Active,
{
}

} // verus!
