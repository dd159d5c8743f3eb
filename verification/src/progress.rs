//! Measures of how far a run has come and how far it still has to go. They are
//! what shows that every run ends, and with which cycle counts.

use vstd::prelude::*;
use crate::model::RingState;
use crate::ring::lemma_two_resources;
use crate::sums::{lemma_sum_differs_at, lemma_sum_monotone, sum};
use crate::worker::{Phase, Worker};

verus! {

/// The cycles that a worker at the top of its loop with `cycles` done will
/// still begin.
pub open spec fn cycles_owed(cycles: int, limit: u64, stop: bool) -> nat {
    if stop || cycles >= limit {
        0
    } else {
        (limit - cycles) as nat
    }
}

/// The steps that a worker will still take before it has stopped, with the
/// stop flag as it is. A cycle has six steps.
pub open spec fn steps_left(worker: Worker, stop: bool) -> nat {
    match worker.phase {
        Phase::Idle => 1 + 6 * cycles_owed(worker.cycles as int, worker.cycle_limit, stop),
        Phase::AcquiringFirst => 6 + 6 * cycles_owed(worker.cycles + 1, worker.cycle_limit, stop),
        Phase::AcquiringSecond => 5 + 6 * cycles_owed(worker.cycles + 1, worker.cycle_limit, stop),
        Phase::Using => 4 + 6 * cycles_owed(worker.cycles + 1, worker.cycle_limit, stop),
        Phase::Releasing => if worker.holds_first {
            3 + 6 * cycles_owed(worker.cycles as int, worker.cycle_limit, stop)
        } else {
            2 + 6 * cycles_owed(worker.cycles as int, worker.cycle_limit, stop)
        },
        Phase::Stopped => 0,
    }
}

/// The number of cycles that a worker will have completed when it has stopped,
/// with the stop flag as it is: a cycle under way is completed, and more are
/// begun only while the flag is down and the limit not reached.
pub open spec fn cycles_at_stop(worker: Worker, stop: bool) -> int {
    match worker.phase {
        Phase::Stopped => worker.cycles as int,
        Phase::Idle | Phase::Releasing => worker.cycles + cycles_owed(
            worker.cycles as int,
            worker.cycle_limit,
            stop,
        ),
        Phase::AcquiringFirst | Phase::AcquiringSecond | Phase::Using => worker.cycles + 1
            + cycles_owed(worker.cycles + 1, worker.cycle_limit, stop),
    }
}

/// The steps that a worker has taken since it started, give or take a
/// constant.
pub open spec fn steps_done(worker: Worker) -> nat {
    (6 * worker.cycles + match worker.phase {
        Phase::Releasing => if worker.holds_first {
            0int
        } else {
            1int
        },
        Phase::Idle => 2,
        Phase::AcquiringFirst | Phase::Stopped => 3,
        Phase::AcquiringSecond => 4,
        Phase::Using => 5,
    }) as nat
}

/// The steps that a worker can take at most before it falls asleep or stops,
/// if no time passes meanwhile.
pub open spec fn momentum(worker: Worker, awake: bool) -> nat {
    if !awake {
        0
    } else {
        match worker.phase {
            Phase::Using => 6,
            Phase::Releasing => if worker.holds_first {
                5
            } else {
                4
            },
            Phase::Idle => 3,
            Phase::AcquiringFirst => 2,
            Phase::AcquiringSecond => 1,
            Phase::Stopped => 0,
        }
    }
}

impl RingState {
    /// For each worker the steps it will still take.
    pub open spec fn steps_left(self) -> Seq<nat> {
        Seq::new(self.workers.len(), |i: int| steps_left(self.workers[i], self.stop))
    }

    /// For each worker the steps it has taken.
    pub open spec fn steps_done(self) -> Seq<nat> {
        Seq::new(self.workers.len(), |i: int| steps_done(self.workers[i]))
    }

    /// For each worker the steps it can take at this instant.
    pub open spec fn momentum(self) -> Seq<nat> {
        Seq::new(
            self.workers.len(),
            |i: int| momentum(self.workers[i], self.wake[i] <= self.clock),
        )
    }

    /// For each worker the cycles it has completed.
    pub open spec fn cycles(self) -> Seq<nat> {
        Seq::new(self.workers.len(), |i: int| self.workers[i].cycles as nat)
    }

    /// The cycles completed by all workers together.
    pub open spec fn total_cycles(self) -> nat {
        sum(self.cycles())
    }

    /// `later` is what a run can make of this state: the same ring, no
    /// earlier, with a trace that goes on from this one and no cycle undone.
    pub open spec fn leads_to(self, later: RingState) -> bool {
        &&& later.size() == self.size()
        &&& later.config == self.config
        &&& later.clock >= self.clock
        &&& self.log.is_prefix_of(later.log)
        &&& forall|i: int|
            0 <= i < self.size() ==> (#[trigger] later.workers[i]).cycles >= self.workers[i].cycles
    }

    /// With the stop flag as it is, every worker of `later` will stop with the
    /// cycle count with which it would have stopped in this state.
    pub open spec fn same_outcome(self, later: RingState) -> bool {
        &&& later.stop == self.stop
        &&& later.size() == self.size()
        &&& forall|i: int|
            0 <= i < self.size() ==> cycles_at_stop(#[trigger] later.workers[i], later.stop)
                == cycles_at_stop(self.workers[i], self.stop)
    }
}

/// A step is one step: it takes one from the steps left, adds one to the steps
/// done, and changes nobody's cycle count at the stop.
pub proof fn lemma_step_counts(s: RingState, i: int)
    requires
        s.inv(),
        s.runnable(i),
    ensures
        sum(s.step(i).steps_left()) + 1 == sum(s.steps_left()),
        sum(s.step(i).steps_done()) == sum(s.steps_done()) + 1,
        s.same_outcome(s.step(i)),
        s.leads_to(s.step(i)),
        s.step(i).total_cycles() <= s.total_cycles() + 1,
{
    let t = s.step(i);
    assert(s.worker_ok(i));
    crate::model::lemma_step_without_fault(s, i);
    lemma_sum_differs_at(s.steps_left(), t.steps_left(), i);
    lemma_sum_differs_at(s.steps_done(), t.steps_done(), i);
    lemma_sum_differs_at(s.cycles(), t.cycles(), i);
}

/// While the clock can still move on, a step uses up momentum: a worker that
/// begins to use its resources falls asleep for the use time.
pub proof fn lemma_step_spends_momentum(s: RingState, i: int)
    requires
        s.inv(),
        s.runnable(i),
        s.clock < u64::MAX,
    ensures
        sum(s.step(i).momentum()) < sum(s.momentum()),
{
    let t = s.step(i);
    assert(s.worker_ok(i));
    crate::model::lemma_step_without_fault(s, i);
    lemma_sum_differs_at(s.momentum(), t.momentum(), i);
}

/// When the clock moves on, the counts stay as they are.
pub proof fn lemma_at_counts(s: RingState, instant: u64)
    ensures
        s.at(instant).steps_left() == s.steps_left(),
        s.at(instant).steps_done() == s.steps_done(),
        s.at(instant).cycles() == s.cycles(),
        s.same_outcome(s.at(instant)),
        s.leads_to(s.at(instant)),
{
    let t = s.at(instant);
    assert(t.steps_left() =~= s.steps_left());
    assert(t.steps_done() =~= s.steps_done());
    assert(t.cycles() =~= s.cycles());
}

/// The steps done bound the cycles done from below: six steps make a cycle, and
/// each worker is at most five steps into its next one.
pub proof fn lemma_steps_done_bound(s: RingState)
    ensures
        sum(s.steps_done()) <= 6 * s.total_cycles() + 5 * s.size(),
{
    lemma_six_five(s.steps_done(), s.cycles());
}

proof fn lemma_six_five(done: Seq<nat>, cycles: Seq<nat>)
    requires
        done.len() == cycles.len(),
        forall|j: int| 0 <= j < done.len() ==> done[j] <= 6 * cycles[j] + 5,
    ensures
        sum(done) <= 6 * sum(cycles) + 5 * done.len(),
    decreases done.len(),
{
    if done.len() > 0 {
        lemma_six_five(done.drop_last(), cycles.drop_last());
    }
}

/// What leads on from a later state leads on from an earlier one.
pub proof fn lemma_leads_to_transitive(a: RingState, b: RingState, c: RingState)
    requires
        a.leads_to(b),
        b.leads_to(c),
    ensures
        a.leads_to(c),
{
    assert(a.log =~= c.log.subrange(0, a.log.len() as int)) by {
        assert(a.log =~= b.log.subrange(0, a.log.len() as int));
        assert(b.log =~= c.log.subrange(0, b.log.len() as int));
    }
    assert forall|i: int| 0 <= i < a.size() implies (#[trigger] c.workers[i]).cycles
        >= a.workers[i].cycles by {
        assert(b.workers[i].cycles >= a.workers[i].cycles);
    }
}

/// The same outcome as a state that has the same outcome.
pub proof fn lemma_same_outcome_transitive(a: RingState, b: RingState, c: RingState)
    requires
        a.same_outcome(b),
        b.same_outcome(c),
    ensures
        a.same_outcome(c),
{
    assert forall|i: int| 0 <= i < a.size() implies cycles_at_stop(
        #[trigger] c.workers[i],
        c.stop,
    ) == cycles_at_stop(a.workers[i], a.stop) by {
        assert(cycles_at_stop(b.workers[i], b.stop) == cycles_at_stop(a.workers[i], a.stop));
    }
}

/// No cycle undone means no fewer cycles in total.
pub proof fn lemma_total_cycles_monotone(s: RingState, t: RingState)
    requires
        s.leads_to(t),
    ensures
        s.total_cycles() <= t.total_cycles(),
{
    assert forall|j: int| 0 <= j < s.cycles().len() implies s.cycles()[j] <= t.cycles()[j] by {
        assert(t.workers[j].cycles >= s.workers[j].cycles);
    }
    lemma_sum_monotone(s.cycles(), t.cycles());
}

/// When the ring has finished, nothing is held: every resource is available.
pub proof fn lemma_finished_all_available(s: RingState, r: int)
    requires
        s.inv(),
        s.finished(),
        0 <= r < s.size(),
    ensures
        s.resources[r].state == crate::resource::ResourceState::Available,
{
    let n = s.size();
    assert(s.resource_ok(r));
    assert(s.worker_ok(r));
    assert(s.worker_ok(crate::ring::left_sharer(r, n)));
    lemma_two_resources(r, n);
}

/// When the clock moves on to the earliest wake-up, the worker that wakes up
/// is runnable: a sleeping worker never waits for a resource.
pub proof fn lemma_wake_makes_runnable(s: RingState, instant: u64)
    requires
        s.inv(),
        s.earliest_wake(instant),
    ensures
        !s.at(instant).none_runnable(),
        s.at(instant).clock == instant,
        instant > s.clock,
{
    let j = choose|j: int| #[trigger] s.sleeping(j) && s.wake[j] == instant;
    assert(s.worker_ok(j));
    assert(s.at(instant).runnable(j));
}

/// Raising the stop flag undoes nothing, and from then on no worker completes
/// more than the cycle that it has under way.
pub proof fn lemma_stop_outcome(s: RingState, t: RingState)
    requires
        s.inv(),
        t == (RingState { stop: true, ..s }),
    ensures
        s.leads_to(t),
        forall|i: int|
            0 <= i < s.size() ==> s.workers[i].cycles <= cycles_at_stop(
                #[trigger] t.workers[i],
                true,
            ) <= s.workers[i].cycles + 1,
{
    assert(s.log =~= t.log.subrange(0, s.log.len() as int));
    assert forall|i: int| 0 <= i < s.size() implies s.workers[i].cycles <= cycles_at_stop(
        #[trigger] t.workers[i],
        true,
    ) <= s.workers[i].cycles + 1 by {
        assert(s.worker_ok(i));
    }
}

/// When the ring has finished, the trace holds four events for every cycle:
/// two acquisitions and two releases.
pub proof fn lemma_finished_trace_length(s: RingState)
    requires
        s.inv(),
        s.finished(),
    ensures
        s.log.len() == 4 * s.total_cycles(),
{
    crate::sums::lemma_sum_fourfold(s.cycles(), s.recorded());
}

/// The latest of a sequence of instants, zero if there is none.
pub open spec fn latest(instants: Seq<u64>) -> int
    decreases instants.len(),
{
    if instants.len() == 0 {
        0
    } else if instants.last() > latest(instants.drop_last()) {
        instants.last() as int
    } else {
        latest(instants.drop_last())
    }
}

/// No instant of the sequence is later than the latest.
pub proof fn lemma_latest_is_upper(instants: Seq<u64>, i: int)
    requires
        0 <= i < instants.len(),
    ensures
        instants[i] <= latest(instants),
    decreases instants.len(),
{
    if i < instants.len() - 1 {
        lemma_latest_is_upper(instants.drop_last(), i);
    }
}

/// The latest is no later than any bound on the whole sequence.
pub proof fn lemma_latest_is_least(instants: Seq<u64>, bound: int)
    requires
        0 <= bound,
        forall|i: int| 0 <= i < instants.len() ==> instants[i] <= bound,
    ensures
        latest(instants) <= bound,
    decreases instants.len(),
{
    if instants.len() > 0 {
        lemma_latest_is_least(instants.drop_last(), bound);
    }
}

impl RingState {
    /// The latest instant that the state knows of: the clock or the latest
    /// wake-up.
    pub open spec fn horizon(self) -> int {
        if self.clock > latest(self.wake) {
            self.clock as int
        } else {
            latest(self.wake)
        }
    }

    /// The longer of the use time and the pause.
    pub open spec fn longest_wait(self) -> int {
        if self.config.use_ms > self.config.pause_ms {
            self.config.use_ms as int
        } else {
            self.config.pause_ms as int
        }
    }

    /// `later` is within the time budget of a run from this state: its
    /// horizon lies no further on than the longest wait for each event
    /// recorded since.
    pub open spec fn in_time(self, later: RingState) -> bool {
        later.horizon() <= self.horizon() + self.longest_wait() * (later.log.len()
            - self.log.len())
    }
}

/// A step records at most one event, and it moves the horizon only if it
/// records one, and then by no more than the longest wait.
pub proof fn lemma_step_horizon(s: RingState, i: int)
    requires
        s.inv(),
        s.runnable(i),
    ensures
        s.log.len() <= s.step(i).log.len() <= s.log.len() + 1,
        s.in_time(s.step(i)),
{
    let t = s.step(i);
    let added = t.log.len() - s.log.len();
    let bound = s.horizon() + s.longest_wait() * added;
    assert(s.longest_wait() * 0 == 0);
    assert(s.longest_wait() * 1 == s.longest_wait());
    assert forall|j: int| 0 <= j < t.wake.len() implies t.wake[j] <= bound by {
        lemma_latest_is_upper(s.wake, j);
    }
    lemma_latest_is_least(t.wake, bound);
}

/// When the clock moves on to a wake-up, the horizon stays where it is.
pub proof fn lemma_at_horizon(s: RingState, instant: u64)
    requires
        s.inv(),
        s.earliest_wake(instant),
    ensures
        s.at(instant).horizon() == s.horizon(),
        s.in_time(s.at(instant)),
{
    let j = choose|j: int| #[trigger] s.sleeping(j) && s.wake[j] == instant;
    lemma_latest_is_upper(s.wake, j);
}

/// What is in time after a state that is in time is in time.
pub proof fn lemma_in_time_transitive(a: RingState, b: RingState, c: RingState)
    requires
        a.in_time(b),
        b.in_time(c),
        a.config == b.config,
    ensures
        a.in_time(c),
{
    let wait = a.longest_wait();
    let first = b.log.len() - a.log.len();
    let second = c.log.len() - b.log.len();
    assert(wait * (first + second) == wait * first + wait * second) by (nonlinear_arith);
}

impl RingState {
    /// `later` is what a run with the stop flag as it is can make of this
    /// state: it leads there, in time, and without a change to the cycle
    /// counts at the stop.
    pub open spec fn runs_to(self, later: RingState) -> bool {
        self.leads_to(later) && self.same_outcome(later) && self.in_time(later)
    }
}

/// A run that has not moved yet.
pub proof fn lemma_run_begins(s: RingState)
    ensures
        s.runs_to(s),
{
    lemma_at_counts(s, s.clock);
    assert(s.longest_wait() * 0 == 0);
}

/// A run goes on by the step of a runnable worker.
pub proof fn lemma_run_steps(start: RingState, s: RingState, i: int)
    requires
        s.inv(),
        s.runnable(i),
        start.runs_to(s),
    ensures
        start.runs_to(s.step(i)),
{
    lemma_step_horizon(s, i);
    lemma_step_counts(s, i);
    lemma_in_time_transitive(start, s, s.step(i));
    lemma_leads_to_transitive(start, s, s.step(i));
    lemma_same_outcome_transitive(start, s, s.step(i));
}

/// A run goes on when the clock moves on to the earliest wake-up.
pub proof fn lemma_run_sleeps(start: RingState, s: RingState, instant: u64)
    requires
        s.inv(),
        s.earliest_wake(instant),
        start.runs_to(s),
    ensures
        start.runs_to(s.at(instant)),
{
    lemma_at_horizon(s, instant);
    lemma_at_counts(s, instant);
    lemma_in_time_transitive(start, s, s.at(instant));
    lemma_leads_to_transitive(start, s, s.at(instant));
    lemma_same_outcome_transitive(start, s, s.at(instant));
}

/// A run that raises the stop flag in the state `reached` and ends in `end`:
/// the end follows from the start, in time; no worker completes more than one
/// cycle after the flag was raised; and if every worker had stopped before,
/// the flag changed nothing.
pub proof fn lemma_run_stopped(start: RingState, reached: RingState, end: RingState)
    requires
        reached.inv(),
        start.runs_to(reached),
        (RingState { stop: true, ..reached }).leads_to(end),
        (RingState { stop: true, ..reached }).in_time(end),
        forall|i: int|
            0 <= i < reached.size() ==> (#[trigger] end.workers[i]).cycles == cycles_at_stop(
                reached.workers[i],
                true,
            ),
    ensures
        start.leads_to(end),
        start.in_time(end),
        reached.total_cycles() <= end.total_cycles() <= reached.total_cycles() + reached.size(),
        reached.finished() ==> forall|i: int|
            0 <= i < start.size() ==> (#[trigger] end.workers[i]).cycles == cycles_at_stop(
                start.workers[i],
                start.stop,
            ),
{
    let stopped = RingState { stop: true, ..reached };
    lemma_stop_outcome(reached, stopped);
    assert(reached.horizon() == stopped.horizon());
    lemma_in_time_transitive(start, reached, end);
    lemma_leads_to_transitive(start, reached, stopped);
    lemma_leads_to_transitive(start, stopped, end);
    lemma_leads_to_transitive(reached, stopped, end);
    lemma_total_cycles_monotone(reached, end);
    assert forall|j: int| 0 <= j < reached.cycles().len() implies end.cycles()[j]
        <= reached.cycles()[j] + 1 by {
        assert(end.workers[j].cycles == cycles_at_stop(stopped.workers[j], true));
    }
    crate::sums::lemma_sum_plus_one(reached.cycles(), end.cycles());
    if reached.finished() {
        assert forall|i: int| 0 <= i < start.size() implies (#[trigger] end.workers[i]).cycles
            == cycles_at_stop(start.workers[i], start.stop) by {
            assert(cycles_at_stop(reached.workers[i], reached.stop) == cycles_at_stop(
                start.workers[i],
                start.stop,
            ));
            assert(end.workers[i].cycles == cycles_at_stop(stopped.workers[i], true));
        }
    }
}

} // verus!
