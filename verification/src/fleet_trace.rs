//! What holds of an orchestrator over a whole load test.
//!
//! A load test is the sequence of events that the driver reports to one
//! orchestrator, in the order in which they happen. [`FleetView::run`] replays
//! it and collects every action; the lemmas below speak of all load tests at
//! once, whatever the order in which the attempts of a round end.

use crate::fleet::{connects, disconnects, ActionView, Attempt, FleetView, HandleView, Phase};
use vstd::prelude::*;

verus! {

/// One event that the driver reports to the orchestrator.
pub enum FleetInput {
    /// The order to start.
    Start,
    /// The attempt to connect under `handle` has ended.
    Resolved { handle: HandleView, opened: bool },
    /// The rest is over.
    Rested,
    /// The operator's interrupt.
    Interrupt,
}

impl FleetView {
    /// The orchestrator and its actions after one event.
    pub open spec fn step(self, input: FleetInput) -> (FleetView, Seq<ActionView>) {
        match input {
            FleetInput::Start => self.on_start(),
            FleetInput::Resolved { handle, opened } => self.on_resolved(handle, opened),
            FleetInput::Rested => self.on_rested(),
            FleetInput::Interrupt => self.on_interrupt(),
        }
    }

    /// The orchestrator after all of `inputs`, and every action along the way, in order.
    pub open spec fn run(self, inputs: Seq<FleetInput>) -> (FleetView, Seq<ActionView>)
        decreases inputs.len(),
    {
        if inputs.len() == 0 {
            (self, Seq::empty())
        } else {
            let before = self.run(inputs.drop_last());
            let last = before.0.step(inputs.last());
            (last.0, before.1 + last.1)
        }
    }
}

/// The rounds of `trace` do not overlap: a disconnect signal comes before every
/// connect request of a later round, and after every connect request of its own
/// round and of the rounds before.
pub open spec fn rounds_in_order(trace: Seq<ActionView>) -> bool {
    forall|i: int, j: int|
        #![trigger trace[i], trace[j]]
        0 <= i < trace.len() && 0 <= j < trace.len() && trace[i] is Disconnect
            && trace[j] is Connect ==> if trace[j]->Connect_0.round
            > trace[i]->Disconnect_0.round {
            i < j
        } else {
            j < i
        }
}

/// No action of `trace` is ahead of the orchestrator `f` that took it.
spec fn within(f: FleetView, trace: Seq<ActionView>) -> bool {
    &&& f.phase is Idle ==> trace.len() == 0
    &&& forall|j: int|
        0 <= j < trace.len() && (#[trigger] trace[j]) is Connect ==> trace[j]->Connect_0.round
            <= f.round
    &&& forall|i: int|
        0 <= i < trace.len() && (#[trigger] trace[i]) is Disconnect ==> {
            &&& trace[i]->Disconnect_0.round <= f.round
            &&& f.phase is Connecting ==> trace[i]->Disconnect_0.round < f.round
        }
}

/// Replaying one more event is one more step.
pub proof fn lemma_run_push(f: FleetView, inputs: Seq<FleetInput>, next: FleetInput)
    ensures
        f.run(inputs.push(next)).0 == f.run(inputs).0.step(next).0,
        f.run(inputs.push(next)).1 == f.run(inputs).1 + f.run(inputs).0.step(next).1,
{
    assert(inputs.push(next).drop_last() =~= inputs);
}

/// The disconnect signals of a round go to the connections that opened, to each
/// of them once, in slot order, and to no other: a failed attempt gets none and
/// takes none away.
pub proof fn lemma_disconnects_are_the_open_slots(round: nat, attempts: Seq<Attempt>)
    ensures
        disconnects(round, attempts).len() <= attempts.len(),
        forall|k: int|
            0 <= k < disconnects(round, attempts).len() ==> {
                let signal = #[trigger] disconnects(round, attempts)[k];
                &&& signal is Disconnect
                &&& signal->Disconnect_0.round == round
                &&& signal->Disconnect_0.slot < attempts.len()
                &&& attempts[signal->Disconnect_0.slot as int] is Open
            },
        forall|k: int, l: int|
            #![trigger disconnects(round, attempts)[k], disconnects(round, attempts)[l]]
            0 <= k < l < disconnects(round, attempts).len() ==> disconnects(
                round,
                attempts,
            )[k]->Disconnect_0.slot < disconnects(round, attempts)[l]->Disconnect_0.slot,
        forall|slot: int|
            0 <= slot < attempts.len() && (#[trigger] attempts[slot]) is Open ==> disconnects(
                round,
                attempts,
            ).contains(ActionView::Disconnect(HandleView { round, slot: slot as nat })),
    decreases attempts.len(),
{
    if attempts.len() > 0 {
        let earlier = disconnects(round, attempts.drop_last());
        let all = disconnects(round, attempts);
        lemma_disconnects_are_the_open_slots(round, attempts.drop_last());
        assert forall|slot: int|
            0 <= slot < attempts.len() && (#[trigger] attempts[slot]) is Open implies all.contains(
            ActionView::Disconnect(HandleView { round, slot: slot as nat }),
        ) by {
            let signal = ActionView::Disconnect(HandleView { round, slot: slot as nat });
            if slot < attempts.len() - 1 {
                assert(attempts.drop_last()[slot] is Open);
                assert(earlier.contains(signal));
                let at = choose|at: int| 0 <= at < earlier.len() && earlier[at] == signal;
                assert(all[at] == signal);
            } else {
                assert(all[all.len() - 1] == signal);
            }
        }
        assert forall|k: int| 0 <= k < all.len() implies {
            let signal = #[trigger] all[k];
            &&& signal is Disconnect
            &&& signal->Disconnect_0.round == round
            &&& signal->Disconnect_0.slot < attempts.len()
            &&& attempts[signal->Disconnect_0.slot as int] is Open
        } by {
            if k < earlier.len() {
                assert(all[k] == earlier[k]);
                assert(attempts.drop_last()[earlier[k]->Disconnect_0.slot as int] is Open);
            }
        }
        assert forall|k: int, l: int|
            #![trigger all[k], all[l]]
            0 <= k < l < all.len() implies all[k]->Disconnect_0.slot
            < all[l]->Disconnect_0.slot by {
            assert(all[k] == earlier[k]);
            if l < earlier.len() {
                assert(all[l] == earlier[l]);
            }
        }
    }
}

/// One step keeps the orchestrator well formed and the rounds of its trace in order.
proof fn lemma_step_keeps_order(before: FleetView, trace: Seq<ActionView>, input: FleetInput)
    requires
        before.wf(),
        within(before, trace),
        rounds_in_order(trace),
    ensures
        before.step(input).0.wf(),
        before.step(input).0.clients == before.clients,
        before.step(input).0.rounds == before.rounds,
        before.step(input).0.rest == before.rest,
        before.step(input).0.round >= before.round,
        within(before.step(input).0, trace + before.step(input).1),
        rounds_in_order(trace + before.step(input).1),
{
    let (after, actions) = before.step(input);
    let all = trace + actions;
    let pending = Seq::new(before.clients, |slot: int| Attempt::Pending);
    assert(pending.len() > 0 && pending[0] == Attempt::Pending);
    match input {
        FleetInput::Resolved { handle, opened } => {
            if before.awaits(handle) {
                lemma_disconnects_are_the_open_slots(before.round, after.attempts);
            }
        },
        _ => {},
    }
    // What the new actions are: connect requests of the round that begins, or
    // disconnect signals of the round that ends, never both.
    assert forall|k: int| 0 <= k < actions.len() && (#[trigger] actions[k]) is Connect implies {
        &&& after.phase is Connecting
        &&& actions[k]->Connect_0.round == after.round
        &&& before.phase is Idle || (before.phase is Resting && after.round == before.round + 1)
    } by {}
    assert forall|k: int|
        0 <= k < actions.len() && (#[trigger] actions[k]) is Disconnect implies {
        &&& before.phase is Connecting
        &&& after.phase is Resting
        &&& actions[k]->Disconnect_0.round == before.round
        &&& after.round == before.round
    } by {}
    assert(after.round >= before.round);
    assert forall|j: int| 0 <= j < all.len() && (#[trigger] all[j]) is Connect implies all[j]->Connect_0.round
        <= after.round by {
        if j < trace.len() {
            assert(all[j] == trace[j]);
        } else {
            assert(all[j] == actions[j - trace.len()]);
        }
    }
    assert forall|i: int| 0 <= i < all.len() && (#[trigger] all[i]) is Disconnect implies {
        &&& all[i]->Disconnect_0.round <= after.round
        &&& after.phase is Connecting ==> all[i]->Disconnect_0.round < after.round
    } by {
        if i < trace.len() {
            assert(all[i] == trace[i]);
        } else {
            assert(all[i] == actions[i - trace.len()]);
        }
    }
    assert forall|i: int, j: int|
        #![trigger all[i], all[j]]
        0 <= i < all.len() && 0 <= j < all.len() && all[i] is Disconnect
            && all[j] is Connect implies if all[j]->Connect_0.round > all[i]->Disconnect_0.round {
        i < j
    } else {
        j < i
    } by {
        if i < trace.len() {
            assert(all[i] == trace[i]);
        } else {
            assert(all[i] == actions[i - trace.len()]);
        }
        if j < trace.len() {
            assert(all[j] == trace[j]);
        } else {
            assert(all[j] == actions[j - trace.len()]);
        }
    }
}

/// Over a whole load test the orchestrator stays well formed, keeps its
/// configuration, and takes no action ahead of its round.
proof fn lemma_run_keeps_order(f: FleetView, inputs: Seq<FleetInput>)
    requires
        f.wf(),
    ensures
        f.run(inputs).0.wf(),
        f.run(inputs).0.clients == f.clients,
        f.run(inputs).0.rounds == f.rounds,
        f.run(inputs).0.rest == f.rest,
        f.run(inputs).0.round >= f.round,
        within(f.run(inputs).0, f.run(inputs).1),
        rounds_in_order(f.run(inputs).1),
    decreases inputs.len(),
{
    if inputs.len() > 0 {
        lemma_run_keeps_order(f, inputs.drop_last());
        let before = f.run(inputs.drop_last());
        lemma_step_keeps_order(before.0, before.1, inputs.last());
    }
}

/// The invariant of the orchestrator holds in every state of every load test,
/// the configuration never changes, and the round counter never goes back.
pub proof fn lemma_wf_is_kept(f: FleetView, inputs: Seq<FleetInput>)
    requires
        f.wf(),
    ensures
        f.run(inputs).0.wf(),
        f.run(inputs).0.clients == f.clients,
        f.run(inputs).0.rounds == f.rounds,
        f.run(inputs).0.rest == f.rest,
        f.run(inputs).0.round >= f.round,
{
    lemma_run_keeps_order(f, inputs);
}

/// Round completion ordering: in every load test, whatever the events and their
/// order, the rounds do not overlap. Every disconnect signal of a round is
/// issued before any connect request of a later round, and after all connect
/// requests of its own round.
pub proof fn lemma_rounds_are_sequential(f: FleetView, inputs: Seq<FleetInput>)
    requires
        f.wf(),
    ensures
        rounds_in_order(f.run(inputs).1),
{
    lemma_run_keeps_order(f, inputs);
}

/// The same for two rounds that follow each other: no connect request of round
/// `round + 1` is issued before a disconnect signal of round `round`.
pub proof fn lemma_next_round_waits(
    f: FleetView,
    inputs: Seq<FleetInput>,
    round: nat,
    signal: int,
    request: int,
)
    requires
        f.wf(),
        0 <= signal < f.run(inputs).1.len(),
        0 <= request < f.run(inputs).1.len(),
        f.run(inputs).1[signal] is Disconnect,
        f.run(inputs).1[signal]->Disconnect_0.round == round,
        f.run(inputs).1[request] is Connect,
        f.run(inputs).1[request]->Connect_0.round == round + 1,
    ensures
        signal < request,
{
    lemma_run_keeps_order(f, inputs);
}

/// A stopped orchestrator is inert: no event changes it or has any effect.
pub proof fn lemma_stopped_is_inert(f: FleetView, inputs: Seq<FleetInput>)
    requires
        f.phase is Stopped,
    ensures
        f.run(inputs) == (f, Seq::<ActionView>::empty()),
    decreases inputs.len(),
{
    if inputs.len() > 0 {
        lemma_stopped_is_inert(f, inputs.drop_last());
        assert(f.run(inputs).1 =~= Seq::<ActionView>::empty());
    }
}

/// No connection is asked for twice, and none is told twice to disconnect.
pub open spec fn no_handle_twice(trace: Seq<ActionView>) -> bool {
    forall|i: int, j: int|
        #![trigger trace[i], trace[j]]
        0 <= i < j < trace.len() && (trace[i] is Connect || trace[i] is Disconnect) ==> trace[i]
            != trace[j]
}

/// Every disconnect signal goes to a connection that was asked for before.
pub open spec fn signals_follow_requests(trace: Seq<ActionView>) -> bool {
    forall|i: int|
        0 <= i < trace.len() && (#[trigger] trace[i]) is Disconnect ==> exists|j: int|
            0 <= j < i && #[trigger] trace[j] == ActionView::Connect(trace[i]->Disconnect_0)
}

/// The connect request for one slot of one round.
pub open spec fn request(round: nat, slot: nat) -> ActionView {
    ActionView::Connect(HandleView { round, slot })
}

/// Every connection of the round that is running or resting has been asked for.
spec fn round_requested(f: FleetView, trace: Seq<ActionView>) -> bool {
    f.phase is Connecting || f.phase is Resting ==> forall|slot: nat|
        slot < f.clients ==> trace.contains(#[trigger] request(f.round, slot))
}

/// One step repeats no handle.
proof fn lemma_step_repeats_nothing(before: FleetView, trace: Seq<ActionView>, input: FleetInput)
    requires
        before.wf(),
        within(before, trace),
        no_handle_twice(trace),
    ensures
        no_handle_twice(trace + before.step(input).1),
{
    let (after, actions) = before.step(input);
    let all = trace + actions;
    match input {
        FleetInput::Resolved { handle, opened } => {
            if before.awaits(handle) {
                lemma_disconnects_are_the_open_slots(before.round, after.attempts);
            }
        },
        _ => {},
    }
    assert forall|i: int, j: int|
        #![trigger all[i], all[j]]
        0 <= i < j < all.len() && (all[i] is Connect || all[i] is Disconnect) implies all[i]
        != all[j] by {
        if j < trace.len() {
            assert(all[i] == trace[i] && all[j] == trace[j]);
        } else if i < trace.len() {
            assert(all[i] == trace[i]);
            assert(all[j] == actions[j - trace.len()]);
        } else {
            assert(all[i] == actions[i - trace.len()]);
            assert(all[j] == actions[j - trace.len()]);
        }
    }
}

/// In every load test, no connection is asked for twice, and none is told twice
/// to disconnect: each handle names one connection, which gets one signal at most.
pub proof fn lemma_no_handle_twice(f: FleetView, inputs: Seq<FleetInput>)
    requires
        f.wf(),
    ensures
        no_handle_twice(f.run(inputs).1),
    decreases inputs.len(),
{
    if inputs.len() > 0 {
        lemma_no_handle_twice(f, inputs.drop_last());
        lemma_run_keeps_order(f, inputs.drop_last());
        let before = f.run(inputs.drop_last());
        lemma_step_repeats_nothing(before.0, before.1, inputs.last());
    }
}

/// One step sends no signal to a connection that was not asked for.
proof fn lemma_step_keeps_requests(before: FleetView, trace: Seq<ActionView>, input: FleetInput)
    requires
        before.wf(),
        within(before, trace),
        round_requested(before, trace),
        signals_follow_requests(trace),
    ensures
        round_requested(before.step(input).0, trace + before.step(input).1),
        signals_follow_requests(trace + before.step(input).1),
{
    let (after, actions) = before.step(input);
    let all = trace + actions;
    match input {
        FleetInput::Resolved { handle, opened } => {
            if before.awaits(handle) {
                lemma_disconnects_are_the_open_slots(before.round, after.attempts);
            }
        },
        _ => {},
    }
    if after.phase is Connecting || after.phase is Resting {
        assert forall|slot: nat| slot < after.clients implies all.contains(
            #[trigger] request(after.round, slot),
        ) by {
            let wanted = request(after.round, slot);
            if (before.phase is Connecting || before.phase is Resting) && after.round
                == before.round {
                assert(trace.contains(request(before.round, slot)));
                let j = choose|j: int| 0 <= j < trace.len() && trace[j] == wanted;
                assert(all[j] == wanted);
            } else {
                assert(actions == connects(after.round, after.clients));
                assert(all[trace.len() as int + slot as int] == wanted);
            }
        }
    }
    assert forall|i: int| 0 <= i < all.len() && (#[trigger] all[i]) is Disconnect implies exists|
        j: int,
    |
        0 <= j < i && #[trigger] all[j] == ActionView::Connect(all[i]->Disconnect_0) by {
        if i < trace.len() {
            assert(all[i] == trace[i]);
            let j = choose|j: int|
                0 <= j < i && #[trigger] trace[j] == ActionView::Connect(trace[i]->Disconnect_0);
            assert(all[j] == trace[j]);
        } else {
            let signal = actions[i - trace.len()];
            assert(all[i] == signal);
            let slot = signal->Disconnect_0.slot;
            assert(slot < before.clients);
            assert(trace.contains(request(before.round, slot)));
            let j = choose|j: int| 0 <= j < trace.len() && trace[j] == request(before.round, slot);
            assert(all[j] == trace[j]);
        }
    }
}

proof fn lemma_run_keeps_requests(f: FleetView, inputs: Seq<FleetInput>)
    requires
        f.wf(),
        f.phase is Idle,
    ensures
        round_requested(f.run(inputs).0, f.run(inputs).1),
        signals_follow_requests(f.run(inputs).1),
    decreases inputs.len(),
{
    if inputs.len() > 0 {
        lemma_run_keeps_requests(f, inputs.drop_last());
        lemma_run_keeps_order(f, inputs.drop_last());
        let before = f.run(inputs.drop_last());
        lemma_step_keeps_requests(before.0, before.1, inputs.last());
    }
}

/// In every load test of an orchestrator that starts idle, every disconnect
/// signal goes to a connection that was asked for earlier in the same test.
pub proof fn lemma_signals_follow_requests(f: FleetView, inputs: Seq<FleetInput>)
    requires
        f.wf(),
        f.phase is Idle,
    ensures
        signals_follow_requests(f.run(inputs).1),
{
    lemma_run_keeps_requests(f, inputs);
}

/// Replaying two sequences of events one after the other is replaying them as one.
pub proof fn lemma_run_concat(f: FleetView, first: Seq<FleetInput>, then: Seq<FleetInput>)
    ensures
        f.run(first + then).0 == f.run(first).0.run(then).0,
        f.run(first + then).1 == f.run(first).1 + f.run(first).0.run(then).1,
    decreases then.len(),
{
    if then.len() == 0 {
        assert(first + then =~= first);
        assert(f.run(first).1 + f.run(first).0.run(then).1 =~= f.run(first).1);
    } else {
        lemma_run_concat(f, first, then.drop_last());
        assert((first + then).drop_last() =~= first + then.drop_last());
        assert((first + then).last() == then.last());
        let middle = f.run(first).0.run(then.drop_last());
        let last = middle.0.step(then.last());
        assert((f.run(first).1 + middle.1) + last.1 =~= f.run(first).1 + (middle.1 + last.1));
    }
}

/// The attempts of a round after its first `done` slots have ended as `opened`
/// says, while the others are pending.
pub open spec fn resolved_so_far(opened: Seq<bool>, done: nat) -> Seq<Attempt> {
    Seq::new(
        opened.len(),
        |slot: int|
            if slot >= done {
                Attempt::Pending
            } else if opened[slot] {
                Attempt::Open
            } else {
                Attempt::Failed
            },
    )
}

/// The events of one round in which the attempts end in slot order, as `opened` says.
pub open spec fn resolutions(round: nat, opened: Seq<bool>) -> Seq<FleetInput> {
    Seq::new(
        opened.len(),
        |slot: int|
            FleetInput::Resolved {
                handle: HandleView { round, slot: slot as nat },
                opened: opened[slot],
            },
    )
}

/// While attempts of a round are still pending, the orchestrator records the
/// outcomes and does nothing else.
proof fn lemma_round_in_progress(f: FleetView, opened: Seq<bool>, done: nat)
    requires
        f.wf(),
        f.phase is Connecting,
        f.attempts == resolved_so_far(opened, 0),
        done < opened.len(),
    ensures
        f.run(resolutions(f.round, opened).take(done as int)) == (
            FleetView { attempts: resolved_so_far(opened, done), ..f },
            Seq::<ActionView>::empty(),
        ),
    decreases done,
{
    let events = resolutions(f.round, opened).take(done as int);
    if done > 0 {
        lemma_round_in_progress(f, opened, (done - 1) as nat);
        assert(events.drop_last() =~= resolutions(f.round, opened).take(done - 1));
        let before = FleetView { attempts: resolved_so_far(opened, (done - 1) as nat), ..f };
        let outcome = if opened[done - 1] {
            Attempt::Open
        } else {
            Attempt::Failed
        };
        assert(before.attempts.update(done - 1, outcome) =~= resolved_so_far(opened, done));
        assert(resolved_so_far(opened, done)[done as int] == Attempt::Pending);
        assert(f.run(events).1 =~= Seq::<ActionView>::empty());
    } else {
        assert(f.attempts =~= resolved_so_far(opened, done));
    }
}

/// A round always completes, and failures do not stand in its way: once every
/// attempt has ended, the connections that opened, and only they, are told to
/// disconnect, and the rest begins.
pub proof fn lemma_round_completes(f: FleetView, opened: Seq<bool>)
    requires
        f.wf(),
        f.phase is Connecting,
        f.attempts == resolved_so_far(opened, 0),
    ensures
        f.run(resolutions(f.round, opened)) == (
            FleetView {
                phase: Phase::Resting,
                attempts: resolved_so_far(opened, opened.len()),
                ..f
            },
            disconnects(f.round, resolved_so_far(opened, opened.len())).push(
                ActionView::Rest(f.rest),
            ),
        ),
{
    let count = opened.len();
    let events = resolutions(f.round, opened);
    assert(count > 0);
    lemma_round_in_progress(f, opened, (count - 1) as nat);
    assert(events.drop_last() =~= events.take(count - 1));
    let before = FleetView { attempts: resolved_so_far(opened, (count - 1) as nat), ..f };
    let outcome = if opened[count - 1] {
        Attempt::Open
    } else {
        Attempt::Failed
    };
    let after = resolved_so_far(opened, count);
    assert(before.attempts.update(count - 1, outcome) =~= after);
    assert(!after.contains(Attempt::Pending));
    assert(f.run(events).1 =~= disconnects(f.round, after).push(ActionView::Rest(f.rest)));
}

/// The events of a load test that nothing interrupts: the order to start, then
/// for each round the ends of its attempts, in slot order and as `outcomes` says
/// for that round, and the end of its rest.
pub open spec fn uninterrupted(outcomes: Seq<Seq<bool>>) -> Seq<FleetInput>
    decreases outcomes.len(),
{
    if outcomes.len() == 0 {
        seq![FleetInput::Start]
    } else {
        uninterrupted(outcomes.drop_last()) + resolutions(
            (outcomes.len() - 1) as nat,
            outcomes.last(),
        ).push(FleetInput::Rested)
    }
}

/// The actions of the rounds that `outcomes` describes, round after round: the
/// connect requests of the round, its disconnect signals, its rest.
pub open spec fn rounds_done(clients: nat, rest: nat, outcomes: Seq<Seq<bool>>) -> Seq<ActionView>
    decreases outcomes.len(),
{
    if outcomes.len() == 0 {
        Seq::empty()
    } else {
        let round = (outcomes.len() - 1) as nat;
        rounds_done(clients, rest, outcomes.drop_last()) + connects(round, clients) + disconnects(
            round,
            resolved_so_far(outcomes.last(), outcomes.last().len()),
        ).push(ActionView::Rest(rest))
    }
}

/// The last round of `outcomes`, replayed from the point where it has begun:
/// its signals and its rest, then the next round or the wait for the interrupt.
proof fn lemma_one_more_round(f: FleetView, outcomes: Seq<Seq<bool>>)
    requires
        f.wf(),
        0 < outcomes.len() <= f.rounds,
        outcomes.last().len() == f.clients,
        f.run(uninterrupted(outcomes.drop_last())).0 == f.begin_round(
            (outcomes.len() - 1) as nat,
        ).0,
    ensures
        outcomes.len() < f.rounds ==> f.run(uninterrupted(outcomes)).0 == f.begin_round(
            outcomes.len(),
        ).0,
        outcomes.len() == f.rounds ==> f.run(uninterrupted(outcomes)).0.phase is Finished,
        f.run(uninterrupted(outcomes)).0.round == outcomes.len(),
        f.run(uninterrupted(outcomes)).1 == f.run(uninterrupted(outcomes.drop_last())).1
            + disconnects(
            (outcomes.len() - 1) as nat,
            resolved_so_far(outcomes.last(), outcomes.last().len()),
        ).push(ActionView::Rest(f.rest)) + if outcomes.len() < f.rounds {
            connects(outcomes.len(), f.clients)
        } else {
            seq![ActionView::AwaitInterrupt]
        },
{
    let round = (outcomes.len() - 1) as nat;
    let opened = outcomes.last();
    let earlier = uninterrupted(outcomes.drop_last());
    let begun = f.run(earlier);
    let ends = resolutions(round, opened);
    assert(begun.0.attempts =~= resolved_so_far(opened, 0));
    assert(begun.0.attempts[0] == Attempt::Pending);
    lemma_round_completes(begun.0, opened);
    lemma_run_push(begun.0, ends, FleetInput::Rested);
    lemma_run_concat(f, earlier, ends.push(FleetInput::Rested));
}

/// After the start and `outcomes.len()` whole rounds, with more rounds to come,
/// the next round has begun and nothing else has happened.
proof fn lemma_rounds_follow_each_other(f: FleetView, outcomes: Seq<Seq<bool>>)
    requires
        f.wf(),
        f.phase is Idle,
        outcomes.len() < f.rounds,
        forall|k: int| 0 <= k < outcomes.len() ==> (#[trigger] outcomes[k]).len() == f.clients,
    ensures
        f.run(uninterrupted(outcomes)).0 == f.begin_round(outcomes.len()).0,
        f.run(uninterrupted(outcomes)).1 == rounds_done(f.clients, f.rest, outcomes) + connects(
            outcomes.len(),
            f.clients,
        ),
    decreases outcomes.len(),
{
    let events = uninterrupted(outcomes);
    if outcomes.len() == 0 {
        assert(events =~= Seq::<FleetInput>::empty().push(FleetInput::Start));
        lemma_run_push(f, Seq::empty(), FleetInput::Start);
        assert(f.run(events).1 =~= rounds_done(f.clients, f.rest, outcomes) + connects(
            0,
            f.clients,
        ));
    } else {
        assert forall|k: int| 0 <= k < outcomes.drop_last().len() implies (
        #[trigger] outcomes.drop_last()[k]).len() == f.clients by {
            assert(outcomes.drop_last()[k] == outcomes[k]);
        }
        lemma_rounds_follow_each_other(f, outcomes.drop_last());
        assert(outcomes.last() == outcomes[outcomes.len() - 1]);
        lemma_one_more_round(f, outcomes);
        assert(f.run(events).1 =~= rounds_done(f.clients, f.rest, outcomes) + connects(
            outcomes.len(),
            f.clients,
        ));
    }
}

/// A load test that nothing interrupts runs to its end: round after round the
/// orchestrator asks for every connection, tells those that opened to
/// disconnect, and rests; after the last round it waits for the interrupt.
/// Attempts that fail change nothing but the signals of their own round.
pub proof fn lemma_load_test_completes(f: FleetView, outcomes: Seq<Seq<bool>>)
    requires
        f.wf(),
        f.phase is Idle,
        outcomes.len() == f.rounds,
        forall|k: int| 0 <= k < outcomes.len() ==> (#[trigger] outcomes[k]).len() == f.clients,
    ensures
        f.run(uninterrupted(outcomes)).0.phase is Finished,
        f.run(uninterrupted(outcomes)).0.round == f.rounds,
        f.run(uninterrupted(outcomes)).1 == rounds_done(f.clients, f.rest, outcomes).push(
            ActionView::AwaitInterrupt,
        ),
{
    let events = uninterrupted(outcomes);
    if outcomes.len() == 0 {
        assert(events =~= Seq::<FleetInput>::empty().push(FleetInput::Start));
        lemma_run_push(f, Seq::empty(), FleetInput::Start);
        assert(f.run(events).1 =~= rounds_done(f.clients, f.rest, outcomes).push(
            ActionView::AwaitInterrupt,
        ));
    } else {
        assert forall|k: int| 0 <= k < outcomes.drop_last().len() implies (
        #[trigger] outcomes.drop_last()[k]).len() == f.clients by {
            assert(outcomes.drop_last()[k] == outcomes[k]);
        }
        lemma_rounds_follow_each_other(f, outcomes.drop_last());
        assert(outcomes.last() == outcomes[outcomes.len() - 1]);
        lemma_one_more_round(f, outcomes);
        assert(f.run(events).1 =~= rounds_done(f.clients, f.rest, outcomes).push(
            ActionView::AwaitInterrupt,
        ));
    }
}

} // verus!
