//! The bookkeeping of a run of concurrent timers.
//!
//! A run starts a number of workers that each sleep for the same target time
//! and then say how long they really slept. The run goes through four
//! phases: idle, running while workers are out, joined once every worker has
//! reported, and reported once the caller has passed the barrier and taken
//! the report. The report exists only after the barrier, so it always counts
//! every worker: there are no partial reports.
//!
//! Nothing here sleeps or starts a thread. The caller does, and tells the run
//! what happened, one event at a time under one lock; the run answers with
//! what to do next. Times are whole nanoseconds.

use vstd::prelude::*;

verus! {

/// Where a run stands.
#[derive(Clone, Copy, Debug, PartialEq, Eq, Structural)]
pub enum TimerPhase {
    /// Nothing has been started.
    Idle,
    /// Workers are out and at least one has not reported.
    Running,
    /// Every worker has reported; the barrier has not been passed.
    Joined,
    /// The report has been handed out.
    Reported,
}

/// What the caller tells the run.
#[derive(Clone, Copy, Debug, PartialEq, Eq, Structural)]
pub enum TimerEvent {
    /// Start a run of `timer_count` workers that sleep `target_nanos` each.
    Launch { timer_count: usize, target_nanos: u64 },
    /// One worker woke up `elapsed_nanos` after it went to sleep.
    WorkerFinished { elapsed_nanos: u64 },
    /// Every worker has been joined, `total_elapsed_nanos` after the launch.
    BarrierPassed { total_elapsed_nanos: u64 },
}

/// What a finished run comes to.
#[derive(Clone, Copy, Debug, PartialEq, Eq, Structural)]
pub struct TimerRunReport {
    /// The number of workers that reported.
    pub completed_timers: usize,
    /// The time from the launch to the barrier.
    pub total_elapsed_nanos: u64,
    /// The sum over the workers of how far each one's sleep was off the
    /// target, either way. Divided by `completed_timers` it is the average
    /// precision error.
    pub precision_error_sum_nanos: u128,
    /// The time that each worker was to sleep.
    pub target_nanos: u64,
}

/// What the run tells the caller to do.
#[derive(Clone, Copy, Debug, PartialEq, Eq, Structural)]
pub enum TimerAction {
    /// Start this many workers, each sleeping this long.
    Spawn { workers: usize, sleep_nanos: u64 },
    /// Workers are still out: wait for them.
    Wait,
    /// The last worker has reported: pass the barrier.
    Join,
    /// The run is over; this is its report.
    Report(TimerRunReport),
    /// The event does not fit the phase. Nothing has changed.
    Refuse,
}

/// The state of a run as plain values.
pub struct TimerState {
    pub phase: TimerPhase,
    pub timer_count: usize,
    pub target_nanos: u64,
    /// The precision error of each worker that has reported, in the order of
    /// the reports.
    pub errors: Seq<u64>,
}

/// How far an elapsed time is off the target, either way.
pub open spec fn precision_error(elapsed_nanos: u64, target_nanos: u64) -> u64 {
    if elapsed_nanos >= target_nanos {
        (elapsed_nanos - target_nanos) as u64
    } else {
        (target_nanos - elapsed_nanos) as u64
    }
}

/// The sum of a list of precision errors.
pub open spec fn error_sum(errors: Seq<u64>) -> nat
    decreases errors.len(),
{
    if errors.len() == 0 {
        0
    } else {
        error_sum(errors.drop_last()) + errors.last() as nat
    }
}

/// The report of a run with no worker: all zeros.
pub open spec fn zero_report() -> TimerRunReport {
    TimerRunReport {
        completed_timers: 0,
        total_elapsed_nanos: 0,
        precision_error_sum_nanos: 0,
        target_nanos: 0,
    }
}

impl TimerState {
    /// The state of a run before anything has been started.
    pub open spec fn idle() -> TimerState {
        TimerState {
            phase: TimerPhase::Idle,
            timer_count: 0,
            target_nanos: 0,
            errors: Seq::empty(),
        }
    }

    /// What holds of every state that a run can be in: while it is running
    /// fewer workers have reported than were started, and from the moment it
    /// is joined exactly as many.
    pub open spec fn wf(self) -> bool {
        match self.phase {
            TimerPhase::Idle => self.timer_count == 0 && self.errors.len() == 0,
            TimerPhase::Running => self.errors.len() < self.timer_count,
            TimerPhase::Joined => self.timer_count > 0 && self.errors.len() == self.timer_count,
            TimerPhase::Reported => self.errors.len() == self.timer_count,
        }
    }

    /// The report of a run in this state.
    pub open spec fn report(self, total_elapsed_nanos: u64) -> TimerRunReport {
        TimerRunReport {
            completed_timers: self.errors.len() as usize,
            total_elapsed_nanos,
            precision_error_sum_nanos: error_sum(self.errors) as u128,
            target_nanos: self.target_nanos,
        }
    }

    /// The state after an event, and what the caller is to do.
    ///
    /// An idle run is launched: with no worker it is over at once, with the
    /// zero report and nothing started. A running run takes the reports of
    /// its workers, and is joined with the last of them. A joined run hands
    /// out its report when the barrier is passed. Any other event is refused
    /// and changes nothing; so is the barrier while workers are out.
    pub open spec fn step(self, event: TimerEvent) -> (TimerState, TimerAction) {
        match (self.phase, event) {
            (TimerPhase::Idle, TimerEvent::Launch { timer_count, target_nanos }) => {
                if timer_count == 0 {
                    (TimerState { phase: TimerPhase::Reported, ..self }, TimerAction::Report(zero_report()))
                } else {
                    (
                        TimerState {
                            phase: TimerPhase::Running,
                            timer_count,
                            target_nanos,
                            errors: Seq::empty(),
                        },
                        TimerAction::Spawn { workers: timer_count, sleep_nanos: target_nanos },
                    )
                }
            },
            (TimerPhase::Running, TimerEvent::WorkerFinished { elapsed_nanos }) => {
                let errors = self.errors.push(precision_error(elapsed_nanos, self.target_nanos));
                if errors.len() == self.timer_count {
                    (TimerState { phase: TimerPhase::Joined, errors, ..self }, TimerAction::Join)
                } else {
                    (TimerState { errors, ..self }, TimerAction::Wait)
                }
            },
            (TimerPhase::Joined, TimerEvent::BarrierPassed { total_elapsed_nanos }) => (
                TimerState { phase: TimerPhase::Reported, ..self },
                TimerAction::Report(self.report(total_elapsed_nanos)),
            ),
            _ => (self, TimerAction::Refuse),
        }
    }
}

/// The sum of some precision errors is at most as many times the largest
/// value that one can have.
pub proof fn lemma_error_sum_bound(errors: Seq<u64>)
    ensures
        error_sum(errors) <= errors.len() * u64::MAX,
    decreases errors.len(),
{
    if errors.len() > 0 {
        lemma_error_sum_bound(errors.drop_last());
        assert(errors.len() * u64::MAX == (errors.len() - 1) * u64::MAX + u64::MAX)
            by (nonlinear_arith);
    }
}

/// Every step keeps a state well-formed, and a report is handed out only by
/// a state in which every worker has reported: it counts as many workers as
/// were launched, never fewer.
pub proof fn lemma_step_keeps_wf(state: TimerState, event: TimerEvent)
    requires
        state.wf(),
    ensures
        state.step(event).0.wf(),
        state.step(event).1 matches TimerAction::Report(report) ==> {
            &&& report.completed_timers == state.step(event).0.timer_count
            &&& state.step(event).0.phase == TimerPhase::Reported
            &&& state.phase == TimerPhase::Joined ==> report.completed_timers == state.timer_count
                && state.timer_count > 0
        },
        state.step(event).1 is Refuse ==> state.step(event).0 == state,
{
}

/// The state after a list of events, one after the other.
pub open spec fn after_events(state: TimerState, events: Seq<TimerEvent>) -> TimerState
    decreases events.len(),
{
    if events.len() == 0 {
        state
    } else {
        after_events(state, events.drop_last()).step(events.last()).0
    }
}

/// Whatever events come in whatever order, a run that started idle is in a
/// well-formed state.
pub proof fn lemma_always_wf(events: Seq<TimerEvent>)
    ensures
        after_events(TimerState::idle(), events).wf(),
    decreases events.len(),
{
    if events.len() > 0 {
        lemma_always_wf(events.drop_last());
        lemma_step_keeps_wf(after_events(TimerState::idle(), events.drop_last()), events.last());
    }
}

/// The number of workers that a list of events launches: that of its first
/// launch, which is the one that an idle run takes.
pub open spec fn launched_count(events: Seq<TimerEvent>) -> Option<usize>
    decreases events.len(),
{
    if events.len() == 0 {
        None
    } else {
        match launched_count(events.drop_last()) {
            Some(count) => Some(count),
            None => match events.last() {
                TimerEvent::Launch { timer_count, target_nanos } => Some(timer_count),
                _ => None,
            },
        }
    }
}

/// A run stays idle until it is launched, and from then on it is a run of
/// as many workers as it was launched with.
pub proof fn lemma_launch_sets_count(events: Seq<TimerEvent>)
    ensures
        match launched_count(events) {
            Some(count) => {
                &&& after_events(TimerState::idle(), events).phase != TimerPhase::Idle
                &&& after_events(TimerState::idle(), events).timer_count == count
            },
            None => after_events(TimerState::idle(), events) == TimerState::idle(),
        },
    decreases events.len(),
{
    if events.len() > 0 {
        lemma_launch_sets_count(events.drop_last());
    }
}

/// Whatever events come in whatever order, a report that is handed out
/// counts every worker that the run was launched with, never fewer.
pub proof fn lemma_report_counts_all(events: Seq<TimerEvent>)
    requires
        events.len() > 0,
    ensures
        ({
            let state = after_events(TimerState::idle(), events.drop_last());
            state.step(events.last()).1 matches TimerAction::Report(report) ==> launched_count(
                events,
            ) == Some(report.completed_timers)
        }),
{
    let before = events.drop_last();
    lemma_always_wf(before);
    lemma_launch_sets_count(before);
    lemma_launch_sets_count(events);
    lemma_step_keeps_wf(after_events(TimerState::idle(), before), events.last());
}

/// The events of a run up to the barrier: the launch, then one report for
/// each elapsed time.
pub open spec fn run_events(timer_count: usize, target_nanos: u64, elapsed: Seq<u64>) -> Seq<
    TimerEvent,
> {
    Seq::new(
        elapsed.len() + 1,
        |i: int|
            if i == 0 {
                TimerEvent::Launch { timer_count, target_nanos }
            } else {
                TimerEvent::WorkerFinished { elapsed_nanos: elapsed[i - 1] }
            },
    )
}

/// The precision errors of the workers that slept the given times.
pub open spec fn run_errors(target_nanos: u64, elapsed: Seq<u64>) -> Seq<u64> {
    Seq::new(elapsed.len(), |i: int| precision_error(elapsed[i], target_nanos))
}

/// A run of any number of workers holds the error of every worker that has
/// reported, in the order of the reports; it is running while workers are
/// out and joined when the last of them has reported.
pub proof fn lemma_run_of_any_size(timer_count: usize, target_nanos: u64, elapsed: Seq<u64>)
    requires
        0 < timer_count,
        elapsed.len() <= timer_count,
    ensures
        after_events(TimerState::idle(), run_events(timer_count, target_nanos, elapsed)) == (
        TimerState {
            phase: if elapsed.len() == timer_count {
                TimerPhase::Joined
            } else {
                TimerPhase::Running
            },
            timer_count,
            target_nanos,
            errors: run_errors(target_nanos, elapsed),
        }),
    decreases elapsed.len(),
{
    let events = run_events(timer_count, target_nanos, elapsed);
    let idle = TimerState::idle();
    if elapsed.len() == 0 {
        assert(events.drop_last().len() == 0);
        assert(after_events(idle, events.drop_last()) == idle);
        assert(run_errors(target_nanos, elapsed) =~= Seq::<u64>::empty());
    } else {
        let shorter = elapsed.drop_last();
        lemma_run_of_any_size(timer_count, target_nanos, shorter);
        assert(events.drop_last() =~= run_events(timer_count, target_nanos, shorter));
        assert(events.last() == TimerEvent::WorkerFinished { elapsed_nanos: elapsed.last() });
        assert(run_errors(target_nanos, shorter).push(
            precision_error(elapsed.last(), target_nanos),
        ) =~= run_errors(target_nanos, elapsed));
    }
}

/// Whatever the number of workers and however long each slept: once all of
/// them have reported, passing the barrier hands out a report that counts
/// them all; while one is out, it hands out none.
pub proof fn lemma_barrier_after_run(
    timer_count: usize,
    target_nanos: u64,
    elapsed: Seq<u64>,
    total_elapsed_nanos: u64,
)
    requires
        0 < timer_count,
        elapsed.len() <= timer_count,
    ensures
        ({
            let state = after_events(
                TimerState::idle(),
                run_events(timer_count, target_nanos, elapsed),
            );
            let action = state.step(TimerEvent::BarrierPassed { total_elapsed_nanos }).1;
            if elapsed.len() == timer_count {
                action == TimerAction::Report(
                    TimerRunReport {
                        completed_timers: timer_count,
                        total_elapsed_nanos,
                        precision_error_sum_nanos: error_sum(run_errors(target_nanos, elapsed)) as u128,
                        target_nanos,
                    },
                )
            } else {
                action == TimerAction::Refuse
            }
        }),
{
    lemma_run_of_any_size(timer_count, target_nanos, elapsed);
}

/// A run of concurrent timers.
pub struct TimerRun {
    phase: TimerPhase,
    timer_count: usize,
    target_nanos: u64,
    errors: Vec<u64>,
}

impl View for TimerRun {
    type V = TimerState;

    closed spec fn view(&self) -> TimerState {
        TimerState {
            phase: self.phase,
            timer_count: self.timer_count,
            target_nanos: self.target_nanos,
            errors: self.errors@,
        }
    }
}

/// Adds up a list of precision errors.
fn sum_errors(errors: &Vec<u64>) -> (sum: u128)
    ensures
        sum == error_sum(errors@),
{
    let mut sum: u128 = 0;
    let mut i: usize = 0;
    while i < errors.len()
        invariant
            i <= errors.len(),
            sum == error_sum(errors@.take(i as int)),
        decreases errors.len() - i,
    {
        proof {
            let longer = errors@.take(i + 1);
            assert(longer.drop_last() == errors@.take(i as int));
            lemma_error_sum_bound(errors@.take(i as int));
            assert(i * u64::MAX + u64::MAX <= usize::MAX * u64::MAX + u64::MAX) by (nonlinear_arith)
                requires
                    i <= usize::MAX,
            ;
        }
        sum = sum + errors[i] as u128;
        i += 1;
    }
    assert(errors@.take(i as int) == errors@);
    sum
}

impl TimerRun {
    #[verifier::type_invariant]
    spec fn well_formed(self) -> bool {
        self@.wf()
    }

    /// A run with nothing started.
    pub fn new() -> (run: TimerRun)
        ensures
            run@ == TimerState::idle(),
    {
        TimerRun { phase: TimerPhase::Idle, timer_count: 0, target_nanos: 0, errors: Vec::new() }
    }

    /// Where the run stands.
    pub fn phase(&self) -> (phase: TimerPhase)
        ensures
            phase == self@.phase,
    {
        self.phase
    }

    /// How many workers have reported so far.
    pub fn completed(&self) -> (count: usize)
        ensures
            count == self@.errors.len(),
            self@.wf(),
            count <= self@.timer_count,
    {
        proof {
            use_type_invariant(self);
        }
        self.errors.len()
    }

    /// Takes one event and says what to do next.
    pub fn step(&mut self, event: TimerEvent) -> (action: TimerAction)
        ensures
            (final(self)@, action) == old(self)@.step(event),
    {
        proof {
            use_type_invariant(&*self);
        }
        match (self.phase, event) {
            (TimerPhase::Idle, TimerEvent::Launch { timer_count, target_nanos }) => {
                if timer_count == 0 {
                    self.phase = TimerPhase::Reported;
                    TimerAction::Report(
                        TimerRunReport {
                            completed_timers: 0,
                            total_elapsed_nanos: 0,
                            precision_error_sum_nanos: 0,
                            target_nanos: 0,
                        },
                    )
                } else {
                    *self = TimerRun {
                        phase: TimerPhase::Running,
                        timer_count,
                        target_nanos,
                        errors: Vec::new(),
                    };
                    TimerAction::Spawn { workers: timer_count, sleep_nanos: target_nanos }
                }
            },
            (TimerPhase::Running, TimerEvent::WorkerFinished { elapsed_nanos }) => {
                let error = if elapsed_nanos >= self.target_nanos {
                    elapsed_nanos - self.target_nanos
                } else {
                    self.target_nanos - elapsed_nanos
                };
                let mut errors: Vec<u64> = Vec::new();
                core::mem::swap(&mut self.errors, &mut errors);
                errors.push(error);
                let all_in = errors.len() == self.timer_count;
                *self = TimerRun {
                    phase: if all_in {
                        TimerPhase::Joined
                    } else {
                        TimerPhase::Running
                    },
                    timer_count: self.timer_count,
                    target_nanos: self.target_nanos,
                    errors,
                };
                if all_in {
                    TimerAction::Join
                } else {
                    TimerAction::Wait
                }
            },
            (TimerPhase::Joined, TimerEvent::BarrierPassed { total_elapsed_nanos }) => {
                let sum = sum_errors(&self.errors);
                self.phase = TimerPhase::Reported;
                TimerAction::Report(
                    TimerRunReport {
                        completed_timers: self.errors.len(),
                        total_elapsed_nanos,
                        precision_error_sum_nanos: sum,
                        target_nanos: self.target_nanos,
                    },
                )
            },
            _ => TimerAction::Refuse,
        }
    }
}

} // verus!
