//! The fleet orchestrator: rounds of connections that open together and close
//! together.
//!
//! A round asks for all its connections at once, waits until every attempt has
//! ended one way or the other, tells every connection that opened to
//! disconnect, and rests. The next round begins when the rest is over. After
//! the last round the orchestrator waits for the operator's interrupt, which
//! shuts everything down; an interrupt that comes earlier does the same.
//!
//! The orchestrator makes the decisions only. It is told what happened, one
//! event at a time, and answers with the actions to take, in order. All times
//! are nanoseconds.

use vstd::multiset::group_multiset_axioms;
use vstd::prelude::*;
use vstd::seq_lib::{to_multiset_build, to_multiset_contains, to_multiset_update};

verus! {

/// Connections per round, unless configured otherwise.
pub const DEFAULT_CLIENTS: usize = 200;

/// Number of rounds, unless configured otherwise.
pub const DEFAULT_ROUNDS: usize = 10;

/// Rest after each round, in nanoseconds (5 s), unless configured otherwise.
pub const DEFAULT_REST: u64 = 5_000_000_000;

/// What the operator can set.
#[derive(Clone, Copy, Debug, PartialEq, Eq, Structural)]
pub struct FleetConfig {
    /// Connections to open in each round; at least one.
    pub number_clients: usize,
    /// Rounds to run.
    pub number_rounds: usize,
    /// Rest after each round, in nanoseconds.
    pub rest: u64,
}

impl Default for FleetConfig {
    fn default() -> (config: Self)
        ensures
            config.number_clients == DEFAULT_CLIENTS,
            config.number_rounds == DEFAULT_ROUNDS,
            config.rest == DEFAULT_REST,
    {
        FleetConfig {
            number_clients: DEFAULT_CLIENTS,
            number_rounds: DEFAULT_ROUNDS,
            rest: DEFAULT_REST,
        }
    }
}

/// Names one connection of the fleet: the round that asked for it and its place
/// in that round.
#[derive(Clone, Copy, Debug, PartialEq, Eq, Structural)]
pub struct Handle {
    pub round: usize,
    pub slot: usize,
}

/// Mathematical value of a [`Handle`].
pub struct HandleView {
    pub round: nat,
    pub slot: nat,
}

impl View for Handle {
    type V = HandleView;

    open spec fn view(&self) -> HandleView {
        HandleView { round: self.round as nat, slot: self.slot as nat }
    }
}

/// One thing the driver must do for the orchestrator.
#[derive(Clone, Copy, Debug, PartialEq, Eq, Structural)]
pub enum FleetAction {
    /// Start an attempt to connect, without waiting for it, and report how it
    /// ended under this handle.
    Connect(Handle),
    /// Send the disconnect signal to this connection, without waiting for the
    /// peer's answer.
    Disconnect(Handle),
    /// Report back when this many nanoseconds have passed.
    Rest(u64),
    /// All rounds are done: report the operator's interrupt when it comes.
    AwaitInterrupt,
    /// Stop serving and exit.
    Shutdown,
}

/// Mathematical value of a [`FleetAction`].
pub enum ActionView {
    Connect(HandleView),
    Disconnect(HandleView),
    Rest(nat),
    AwaitInterrupt,
    Shutdown,
}

impl View for FleetAction {
    type V = ActionView;

    open spec fn view(&self) -> ActionView {
        match self {
            FleetAction::Connect(handle) => ActionView::Connect(handle@),
            FleetAction::Disconnect(handle) => ActionView::Disconnect(handle@),
            FleetAction::Rest(nanos) => ActionView::Rest(*nanos as nat),
            FleetAction::AwaitInterrupt => ActionView::AwaitInterrupt,
            FleetAction::Shutdown => ActionView::Shutdown,
        }
    }
}

impl DeepView for FleetAction {
    type V = ActionView;

    open spec fn deep_view(&self) -> ActionView {
        self@
    }
}

/// How one attempt to connect stands.
#[derive(Clone, Copy, Debug, PartialEq, Eq, Structural)]
pub enum Attempt {
    /// Not yet ended.
    Pending,
    /// The connection opened.
    Open,
    /// The connection could not be established.
    Failed,
}

/// What the orchestrator is waiting for.
#[derive(Clone, Copy, Debug, PartialEq, Eq, Structural)]
pub enum Phase {
    /// Not started.
    Idle,
    /// Some attempt of the current round has not ended.
    Connecting,
    /// The current round is over and its rest is running.
    Resting,
    /// All rounds are over; only the interrupt is awaited.
    Finished,
    /// Terminal: shut down.
    Stopped,
}

/// The connect requests of one round: one for each slot, in slot order.
pub open spec fn connects(round: nat, count: nat) -> Seq<ActionView> {
    Seq::new(count, |slot: int| ActionView::Connect(HandleView { round, slot: slot as nat }))
}

/// The disconnect signals of one round: one for each attempt that opened, in
/// slot order, and none for the others.
pub open spec fn disconnects(round: nat, attempts: Seq<Attempt>) -> Seq<ActionView>
    decreases attempts.len(),
{
    if attempts.len() == 0 {
        Seq::empty()
    } else {
        let earlier = disconnects(round, attempts.drop_last());
        if attempts.last() is Open {
            earlier.push(
                ActionView::Disconnect(
                    HandleView { round, slot: (attempts.len() - 1) as nat },
                ),
            )
        } else {
            earlier
        }
    }
}

/// Mathematical value of an orchestrator.
pub struct FleetView {
    /// Connections per round.
    pub clients: nat,
    /// Rounds to run.
    pub rounds: nat,
    /// Rest after each round.
    pub rest: nat,
    pub phase: Phase,
    /// The round that is running or resting; the number of rounds once all are over.
    pub round: nat,
    /// The attempts of that round, by slot.
    pub attempts: Seq<Attempt>,
}

impl FleetView {
    /// An orchestrator that has not started.
    pub open spec fn fresh(clients: nat, rounds: nat, rest: nat) -> FleetView {
        FleetView { clients, rounds, rest, phase: Phase::Idle, round: 0, attempts: Seq::empty() }
    }

    /// What every orchestrator satisfies at all times.
    pub open spec fn wf(self) -> bool {
        &&& self.clients > 0
        &&& match self.phase {
            Phase::Idle => self.round == 0,
            Phase::Connecting => {
                &&& self.round < self.rounds
                &&& self.attempts.len() == self.clients
                &&& self.attempts.contains(Attempt::Pending)
            },
            Phase::Resting => {
                &&& self.round < self.rounds
                &&& self.attempts.len() == self.clients
                &&& !self.attempts.contains(Attempt::Pending)
            },
            Phase::Finished => self.round == self.rounds,
            Phase::Stopped => true,
        }
    }

    /// Start of round `round`: every slot pending, every connect requested.
    pub open spec fn begin_round(self, round: nat) -> (FleetView, Seq<ActionView>) {
        (
            FleetView {
                phase: Phase::Connecting,
                round,
                attempts: Seq::new(self.clients, |slot: int| Attempt::Pending),
                ..self
            },
            connects(round, self.clients),
        )
    }

    /// End of the last round: only the interrupt is left to wait for.
    pub open spec fn finish(self) -> (FleetView, Seq<ActionView>) {
        (
            FleetView { phase: Phase::Finished, round: self.rounds, ..self },
            seq![ActionView::AwaitInterrupt],
        )
    }

    /// The attempt that `handle` names is one of the current round that has not ended.
    pub open spec fn awaits(self, handle: HandleView) -> bool {
        &&& self.phase is Connecting
        &&& handle.round == self.round
        &&& handle.slot < self.attempts.len()
        &&& self.attempts[handle.slot as int] is Pending
    }

    /// Reaction to the order to start.
    pub open spec fn on_start(self) -> (FleetView, Seq<ActionView>) {
        if !(self.phase is Idle) {
            (self, Seq::empty())
        } else if self.rounds == 0 {
            self.finish()
        } else {
            self.begin_round(0)
        }
    }

    /// Reaction to the end of one attempt to connect.
    ///
    /// The outcome is recorded. If it was the last one of the round to end, every
    /// connection that opened is told to disconnect, and the rest begins.
    pub open spec fn on_resolved(self, handle: HandleView, opened: bool) -> (
        FleetView,
        Seq<ActionView>,
    ) {
        if !self.awaits(handle) {
            (self, Seq::empty())
        } else {
            let attempts = self.attempts.update(
                handle.slot as int,
                if opened {
                    Attempt::Open
                } else {
                    Attempt::Failed
                },
            );
            if attempts.contains(Attempt::Pending) {
                (FleetView { attempts, ..self }, Seq::empty())
            } else {
                (
                    FleetView { phase: Phase::Resting, attempts, ..self },
                    disconnects(self.round, attempts).push(ActionView::Rest(self.rest)),
                )
            }
        }
    }

    /// Reaction to the end of the rest: the next round, or the wait for the
    /// interrupt after the last one.
    pub open spec fn on_rested(self) -> (FleetView, Seq<ActionView>) {
        if !(self.phase is Resting) {
            (self, Seq::empty())
        } else if self.round + 1 < self.rounds {
            self.begin_round(self.round + 1)
        } else {
            self.finish()
        }
    }

    /// Reaction to the operator's interrupt.
    pub open spec fn on_interrupt(self) -> (FleetView, Seq<ActionView>) {
        if self.phase is Stopped {
            (self, Seq::empty())
        } else {
            (FleetView { phase: Phase::Stopped, ..self }, seq![ActionView::Shutdown])
        }
    }
}

/// The part of an orchestrator that changes: where it stands in its rounds.
#[derive(Debug)]
struct Progress {
    phase: Phase,
    round: usize,
    attempts: Vec<Attempt>,
    pending: usize,
}

/// The view of an action list whose only member is `action`.
proof fn lemma_one_action(actions: Vec<FleetAction>, action: ActionView)
    requires
        actions@.len() == 1,
        actions@[0]@ == action,
    ensures
        actions.deep_view() == seq![action],
{
    assert(actions.deep_view() =~= seq![action]);
}

/// The view of an empty action list.
proof fn lemma_no_action(actions: Vec<FleetAction>)
    requires
        actions@.len() == 0,
    ensures
        actions.deep_view() == Seq::<ActionView>::empty(),
{
    assert(actions.deep_view() =~= Seq::<ActionView>::empty());
}

impl Progress {
    /// The orchestrator that stands here under `config`.
    spec fn under(self, config: FleetConfig) -> FleetView {
        FleetView {
            clients: config.number_clients as nat,
            rounds: config.number_rounds as nat,
            rest: config.rest as nat,
            phase: self.phase,
            round: self.round as nat,
            attempts: self.attempts@,
        }
    }

    /// The invariant: the one of the view, and a count of pending attempts that is right.
    spec fn wf(self, config: FleetConfig) -> bool {
        &&& self.under(config).wf()
        &&& self.pending == self.attempts@.to_multiset().count(Attempt::Pending)
    }

    fn idle() -> (progress: Self)
        ensures
            progress.phase == Phase::Idle,
            progress.round == 0,
            progress.attempts@ == Seq::<Attempt>::empty(),
            progress.pending == 0,
            progress.attempts@.to_multiset().count(Attempt::Pending) == 0,
    {
        let progress = Progress { phase: Phase::Idle, round: 0, attempts: Vec::new(), pending: 0 };
        proof {
            broadcast use to_multiset_contains;

            assert(!progress.attempts@.contains(Attempt::Pending));
        }
        progress
    }

    fn begin_round(&mut self, config: &FleetConfig, round: usize) -> (actions: Vec<FleetAction>)
        requires
            config.number_clients > 0,
            round < config.number_rounds,
        ensures
            final(self).wf(*config),
            final(self).under(*config) == old(self).under(*config).begin_round(round as nat).0,
            actions.deep_view() == old(self).under(*config).begin_round(round as nat).1,
    {
        let count = config.number_clients;
        let mut attempts: Vec<Attempt> = Vec::new();
        let mut actions: Vec<FleetAction> = Vec::new();
        let mut slot: usize = 0;
        proof {
            broadcast use to_multiset_contains;

            assert(!attempts@.contains(Attempt::Pending));
        }
        while slot < count
            invariant
                slot <= count,
                attempts@ =~= Seq::new(slot as nat, |i: int| Attempt::Pending),
                attempts@.to_multiset().count(Attempt::Pending) == slot,
                actions@.len() == slot,
                actions.deep_view() =~= connects(round as nat, slot as nat),
            decreases count - slot,
        {
            proof {
                broadcast use to_multiset_build, group_multiset_axioms;

            }
            let ghost asked = actions.deep_view();
            attempts.push(Attempt::Pending);
            actions.push(FleetAction::Connect(Handle { round, slot }));
            slot += 1;
            proof {
                assert forall|k: int| 0 <= k < slot implies actions.deep_view()[k] == connects(
                    round as nat,
                    slot as nat,
                )[k] by {
                    if k < slot - 1 {
                        assert(actions.deep_view()[k] == asked[k]);
                    }
                }
            }
        }
        self.attempts = attempts;
        self.pending = count;
        self.round = round;
        self.phase = Phase::Connecting;
        proof {
            assert(self.attempts@[0] == Attempt::Pending);
        }
        actions
    }

    fn finish(&mut self, config: &FleetConfig) -> (actions: Vec<FleetAction>)
        requires
            old(self).wf(*config),
        ensures
            final(self).wf(*config),
            final(self).under(*config) == old(self).under(*config).finish().0,
            actions.deep_view() == old(self).under(*config).finish().1,
    {
        let mut actions: Vec<FleetAction> = Vec::new();
        self.round = config.number_rounds;
        self.phase = Phase::Finished;
        actions.push(FleetAction::AwaitInterrupt);
        proof {
            lemma_one_action(actions, ActionView::AwaitInterrupt);
        }
        actions
    }

    fn start(&mut self, config: &FleetConfig) -> (actions: Vec<FleetAction>)
        requires
            old(self).wf(*config),
        ensures
            final(self).wf(*config),
            final(self).under(*config) == old(self).under(*config).on_start().0,
            actions.deep_view() == old(self).under(*config).on_start().1,
    {
        match self.phase {
            Phase::Idle => {},
            _ => {
                let actions: Vec<FleetAction> = Vec::new();
                proof {
                    lemma_no_action(actions);
                }
                return actions;
            },
        }
        if config.number_rounds == 0 {
            self.finish(config)
        } else {
            self.begin_round(config, 0)
        }
    }

    fn resolved(&mut self, config: &FleetConfig, handle: Handle, opened: bool) -> (actions: Vec<
        FleetAction,
    >)
        requires
            old(self).wf(*config),
        ensures
            final(self).wf(*config),
            final(self).under(*config) == old(self).under(*config).on_resolved(handle@, opened).0,
            actions.deep_view() == old(self).under(*config).on_resolved(handle@, opened).1,
    {
        let mut actions: Vec<FleetAction> = Vec::new();
        let connecting = match self.phase {
            Phase::Connecting => true,
            _ => false,
        };
        if !connecting || handle.round != self.round || handle.slot >= self.attempts.len() {
            proof {
                lemma_no_action(actions);
            }
            return actions;
        }
        match self.attempts[handle.slot] {
            Attempt::Pending => {},
            _ => {
                proof {
                    lemma_no_action(actions);
                }
                return actions;
            },
        }
        let outcome = if opened {
            Attempt::Open
        } else {
            Attempt::Failed
        };
        proof {
            broadcast use to_multiset_update, to_multiset_contains, group_multiset_axioms;

            assert(self.attempts@.contains(Attempt::Pending));
            assert(self.attempts@.update(handle.slot as int, outcome).to_multiset().count(
                Attempt::Pending,
            ) == self.pending - 1);
        }
        self.attempts[handle.slot] = outcome;
        self.pending = self.pending - 1;
        proof {
            broadcast use to_multiset_contains;

            assert(self.attempts@.contains(Attempt::Pending) <==> self.pending > 0);
        }
        if self.pending > 0 {
            proof {
                lemma_no_action(actions);
            }
            return actions;
        }
        let mut slot: usize = 0;
        while slot < self.attempts.len()
            invariant
                slot <= self.attempts.len(),
                actions.deep_view() =~= disconnects(
                    self.round as nat,
                    self.attempts@.take(slot as int),
                ),
            decreases self.attempts.len() - slot,
        {
            proof {
                assert(self.attempts@.take(slot + 1).drop_last() =~= self.attempts@.take(
                    slot as int,
                ));
            }
            match self.attempts[slot] {
                Attempt::Open => {
                    actions.push(FleetAction::Disconnect(Handle { round: self.round, slot }));
                },
                _ => {},
            }
            slot += 1;
        }
        proof {
            assert(self.attempts@.take(slot as int) =~= self.attempts@);
        }
        actions.push(FleetAction::Rest(config.rest));
        self.phase = Phase::Resting;
        proof {
            assert(actions.deep_view() =~= disconnects(self.round as nat, self.attempts@).push(
                ActionView::Rest(config.rest as nat),
            ));
        }
        actions
    }

    fn rested(&mut self, config: &FleetConfig) -> (actions: Vec<FleetAction>)
        requires
            old(self).wf(*config),
        ensures
            final(self).wf(*config),
            final(self).under(*config) == old(self).under(*config).on_rested().0,
            actions.deep_view() == old(self).under(*config).on_rested().1,
    {
        match self.phase {
            Phase::Resting => {},
            _ => {
                let actions: Vec<FleetAction> = Vec::new();
                proof {
                    lemma_no_action(actions);
                }
                return actions;
            },
        }
        let next = self.round + 1;
        if next < config.number_rounds {
            self.begin_round(config, next)
        } else {
            self.finish(config)
        }
    }

    fn interrupt(&mut self, config: &FleetConfig) -> (actions: Vec<FleetAction>)
        requires
            old(self).wf(*config),
        ensures
            final(self).wf(*config),
            final(self).under(*config) == old(self).under(*config).on_interrupt().0,
            actions.deep_view() == old(self).under(*config).on_interrupt().1,
    {
        let mut actions: Vec<FleetAction> = Vec::new();
        match self.phase {
            Phase::Stopped => {
                proof {
                    lemma_no_action(actions);
                }
            },
            _ => {
                self.phase = Phase::Stopped;
                actions.push(FleetAction::Shutdown);
                proof {
                    lemma_one_action(actions, ActionView::Shutdown);
                }
            },
        }
        actions
    }
}

/// Drives the rounds of one load test.
#[derive(Debug)]
pub struct Orchestrator {
    config: FleetConfig,
    progress: Progress,
}

impl View for Orchestrator {
    type V = FleetView;

    closed spec fn view(&self) -> FleetView {
        self.progress.under(self.config)
    }
}

impl Orchestrator {
    #[verifier::type_invariant]
    spec fn wf(self) -> bool {
        self.progress.wf(self.config)
    }

    /// An orchestrator that has not started, or `None` if the configuration asks
    /// for rounds without connections.
    pub fn new(config: FleetConfig) -> (made: Option<Self>)
        ensures
            made is Some <==> config.number_clients > 0,
            made matches Some(orchestrator) ==> orchestrator@ == FleetView::fresh(
                config.number_clients as nat,
                config.number_rounds as nat,
                config.rest as nat,
            ),
    {
        if config.number_clients == 0 {
            return None;
        }
        Some(Orchestrator { config, progress: Progress::idle() })
    }

    /// What the orchestrator is waiting for.
    pub fn phase(&self) -> (phase: Phase)
        ensures
            phase == self@.phase,
    {
        self.progress.phase
    }

    /// The round that is running or resting; the number of rounds once all are over.
    pub fn round(&self) -> (round: usize)
        ensures
            round == self@.round,
    {
        self.progress.round
    }

    /// The configuration that the orchestrator was made with.
    pub fn config(&self) -> (config: FleetConfig)
        ensures
            config.number_clients == self@.clients,
            config.number_rounds == self@.rounds,
            config.rest == self@.rest,
    {
        self.config
    }

    /// How the attempts of the current round stand, by slot.
    pub fn attempts(&self) -> (attempts: &Vec<Attempt>)
        ensures
            attempts@ == self@.attempts,
    {
        &self.progress.attempts
    }

    /// Starts the load test: the first round begins, or, without rounds, the
    /// wait for the interrupt. An orchestrator that was started before ignores
    /// the call.
    pub fn start(&mut self) -> (actions: Vec<FleetAction>)
        ensures
            final(self)@ == old(self)@.on_start().0,
            actions.deep_view() == old(self)@.on_start().1,
            final(self)@.wf(),
    {
        proof {
            use_type_invariant(&*self);
        }
        let mut progress = Progress::idle();
        std::mem::swap(&mut progress, &mut self.progress);
        let actions = progress.start(&self.config);
        self.progress = progress;
        actions
    }

    /// Takes note that the attempt to connect under `handle` has ended, with the
    /// connection open or not.
    ///
    /// A failed attempt does not hold the others up, and takes no part in what
    /// follows. When the last attempt of the round has ended, every connection
    /// of the round that opened is told to disconnect, in slot order, and the
    /// rest begins. A handle that names no pending attempt of the current round
    /// is ignored.
    pub fn resolved(&mut self, handle: Handle, opened: bool) -> (actions: Vec<FleetAction>)
        ensures
            final(self)@ == old(self)@.on_resolved(handle@, opened).0,
            actions.deep_view() == old(self)@.on_resolved(handle@, opened).1,
            final(self)@.wf(),
    {
        proof {
            use_type_invariant(&*self);
        }
        let mut progress = Progress::idle();
        std::mem::swap(&mut progress, &mut self.progress);
        let actions = progress.resolved(&self.config, handle, opened);
        self.progress = progress;
        actions
    }

    /// Takes note that the rest is over: the next round begins, or, after the
    /// last round, the wait for the interrupt. An orchestrator that is not
    /// resting ignores the call.
    pub fn rested(&mut self) -> (actions: Vec<FleetAction>)
        ensures
            final(self)@ == old(self)@.on_rested().0,
            actions.deep_view() == old(self)@.on_rested().1,
            final(self)@.wf(),
    {
        proof {
            use_type_invariant(&*self);
        }
        let mut progress = Progress::idle();
        std::mem::swap(&mut progress, &mut self.progress);
        let actions = progress.rested(&self.config);
        self.progress = progress;
        actions
    }

    /// Takes note of the operator's interrupt: everything is shut down, in
    /// whatever phase. A second interrupt does nothing.
    pub fn interrupt(&mut self) -> (actions: Vec<FleetAction>)
        ensures
            final(self)@ == old(self)@.on_interrupt().0,
            actions.deep_view() == old(self)@.on_interrupt().1,
            final(self)@.wf(),
    {
        proof {
            use_type_invariant(&*self);
        }
        let mut progress = Progress::idle();
        std::mem::swap(&mut progress, &mut self.progress);
        let actions = progress.interrupt(&self.config);
        self.progress = progress;
        actions
    }
}

} // verus!
