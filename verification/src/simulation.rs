//! The ring on a simulated clock: model resources, the workers' state
//! machines, and a recorded trace.

use vstd::prelude::*;
use crate::model::{
    later,
    lemma_at_inv,
    lemma_initial_inv,
    lemma_step_inv,
    lemma_step_without_fault,
    lemma_stop_inv,
    Config,
    RingState,
};
use crate::progress::{
    cycles_at_stop,
    lemma_at_counts,
    lemma_finished_all_available,
    lemma_finished_trace_length,
    lemma_run_begins,
    lemma_run_sleeps,
    lemma_run_steps,
    lemma_run_stopped,
    lemma_step_counts,
    lemma_step_spends_momentum,
    lemma_steps_done_bound,
    lemma_wake_makes_runnable,
};
use crate::resource::{Resource, ResourceState};
use crate::ring::{lemma_two_resources, MIN_RING_SIZE};
use crate::sums::{lemma_sum_prefix, lemma_sum_take, sum};
use crate::trace::{Event, EventKind};
use crate::worker::{Action, Outcome, Phase, Worker};

verus! {

/// Why a simulation cannot be set up.
#[derive(Clone, Copy, PartialEq, Eq, Structural, Debug)]
pub enum SetupError {
    /// A ring has at least two workers.
    RingTooSmall,
    /// With a use time of zero a run would never move the clock.
    NoUseTime,
}

/// What one move of the scheduler did.
#[derive(Clone, Copy, PartialEq, Eq, Structural, Debug)]
pub enum Tick {
    /// The worker took a step.
    Stepped { worker: usize },
    /// Nobody could move, and the clock went on to the instant.
    Slept { until: u64 },
    /// Every worker has stopped.
    Finished,
}

/// A ring of model resources and the workers around it, on a simulated clock
/// that counts milliseconds.
pub struct Simulation {
    resources: Vec<Resource>,
    workers: Vec<Worker>,
    wake: Vec<u64>,
    clock: u64,
    stop: bool,
    config: Config,
    log: Vec<Event>,
}

impl View for Simulation {
    type V = RingState;

    closed spec fn view(&self) -> RingState {
        RingState {
            resources: self.resources@,
            workers: self.workers@,
            wake: self.wake@,
            clock: self.clock,
            stop: self.stop,
            config: self.config,
            log: self.log@,
        }
    }
}

impl Simulation {
    /// The state satisfies the invariant of the model.
    pub open spec fn wf(&self) -> bool {
        self@.inv()
    }

    /// A ring with one worker for each entry of `starts`; worker `i` enters
    /// its loop at the instant `starts[i]`.
    pub fn new(config: Config, starts: Vec<u64>) -> (made: Result<Simulation, SetupError>)
        ensures
            starts.len() < 2 ==> made == Err::<Simulation, SetupError>(SetupError::RingTooSmall),
            starts.len() >= 2 && config.use_ms == 0 ==> made == Err::<Simulation, SetupError>(
                SetupError::NoUseTime,
            ),
            starts.len() >= 2 && config.use_ms >= 1 ==> made is Ok,
            made matches Ok(simulation) ==> simulation.wf() && simulation@ == RingState::initial(
                config,
                starts@,
            ),
    {
        let n = starts.len();
        if n < MIN_RING_SIZE {
            return Err(SetupError::RingTooSmall);
        }
        if config.use_ms == 0 {
            return Err(SetupError::NoUseTime);
        }
        let mut resources: Vec<Resource> = Vec::new();
        let mut workers: Vec<Worker> = Vec::new();
        let mut i: usize = 0;
        while i < n
            invariant
                2 <= n,
                i <= n,
                resources.len() == i,
                workers.len() == i,
                forall|r: int|
                    0 <= r < i ==> #[trigger] resources[r] == (Resource {
                        state: ResourceState::Available,
                    }),
                forall|w: int|
                    0 <= w < i ==> #[trigger] workers[w] == crate::model::fresh_worker(
                        w,
                        n as int,
                        config.cycle_limit,
                    ),
            decreases n - i,
        {
            resources.push(Resource::new());
            workers.push(
                Worker {
                    index: i,
                    ring_size: n,
                    cycle_limit: config.cycle_limit,
                    phase: Phase::Idle,
                    holds_first: false,
                    holds_second: false,
                    cycles: 0,
                },
            );
            i += 1;
        }
        let simulation = Simulation {
            resources,
            workers,
            wake: starts,
            clock: 0,
            stop: false,
            config,
            log: Vec::new(),
        };
        proof {
            lemma_initial_inv(config, starts@);
            let initial = RingState::initial(config, starts@);
            assert(simulation@.resources =~= initial.resources);
            assert(simulation@.workers =~= initial.workers);
            assert(simulation@.log =~= initial.log);
        }
        Ok(simulation)
    }

    /// The number of workers, and of resources.
    pub fn size(&self) -> (n: usize)
        ensures
            n == self@.size(),
    {
        self.workers.len()
    }

    /// The simulated time.
    pub fn clock(&self) -> (now: u64)
        ensures
            now == self@.clock,
    {
        self.clock
    }

    /// The configuration the ring was made with.
    pub fn config(&self) -> (config: Config)
        ensures
            config == self@.config,
    {
        self.config
    }

    /// Whether the stop flag is raised.
    pub fn stop_requested(&self) -> (raised: bool)
        ensures
            raised == self@.stop,
    {
        self.stop
    }

    /// The state of resource `r`, if the ring has one.
    pub fn resource_state(&self, r: usize) -> (state: Option<ResourceState>)
        requires
            self.wf(),
        ensures
            state == if r < self@.size() {
                Some(self@.resources[r as int].state)
            } else {
                None
            },
    {
        if r < self.resources.len() {
            Some(self.resources[r].load())
        } else {
            None
        }
    }

    /// Worker `i`, if the ring has one.
    pub fn worker(&self, i: usize) -> (worker: Option<Worker>)
        ensures
            worker == if i < self@.size() {
                Some(self@.workers[i as int])
            } else {
                None
            },
    {
        if i < self.workers.len() {
            Some(self.workers[i])
        } else {
            None
        }
    }

    /// The trace so far.
    pub fn log(&self) -> (log: &Vec<Event>)
        ensures
            log@ == self@.log,
    {
        &self.log
    }

    /// Raises the stop flag: every worker stops when it next comes to the top
    /// of its loop.
    pub fn request_stop(&mut self)
        requires
            old(self).wf(),
        ensures
            final(self).wf(),
            final(self)@ == (RingState { stop: true, ..old(self)@ }),
    {
        proof {
            lemma_stop_inv(self@);
        }
        self.stop = true;
    }

    /// Moves the clock on to `instant`. The clock never moves back.
    pub fn advance_clock(&mut self, instant: u64)
        requires
            old(self).wf(),
        ensures
            final(self).wf(),
            final(self)@ == old(self)@.at(instant),
    {
        proof {
            lemma_at_inv(self@, instant);
        }
        if instant > self.clock {
            self.clock = instant;
        }
    }

    /// Lets worker `i` perform its action, atomically. Returns whether
    /// anything changed: nothing does if there is no worker `i`, if it is not
    /// awake yet, if it has stopped, or if the resource that it wants is held.
    pub fn step(&mut self, i: usize) -> (moved: bool)
        requires
            old(self).wf(),
        ensures
            final(self).wf(),
            moved == old(self)@.runnable(i as int),
            final(self)@ == old(self)@.step(i as int),
    {
        if i >= self.workers.len() {
            return false;
        }
        if self.wake[i] > self.clock {
            return false;
        }
        let ghost s = self@;
        let mut worker = self.workers[i];
        let now = self.clock;
        proof {
            assert(s.worker_ok(i as int));
            lemma_two_resources(i as int, s.size());
            assert(s.resource_ok(worker.first()));
            assert(s.resource_ok(worker.second()));
            lemma_step_inv(s, i as int);
            if s.runnable(i as int) {
                lemma_step_without_fault(s, i as int);
            }
        }
        match worker.next_action() {
            Action::CheckStop => {
                let _ = worker.advance(Outcome::StopFlag { raised: self.stop });
                self.workers.set(i, worker);
            },
            Action::Acquire { resource } => {
                let mut cell = self.resources[resource];
                let found = cell.compare_and_swap(ResourceState::Available, ResourceState::Held);
                if found == ResourceState::Held {
                    return false;
                }
                let second = worker.holds_first;
                let _ = worker.advance(Outcome::Found { state: found });
                self.resources.set(resource, cell);
                self.workers.set(i, worker);
                if second {
                    self.wake.set(i, now.saturating_add(self.config.use_ms));
                }
                self.log.push(Event { time: now, worker: i, resource, kind: EventKind::Acquired });
            },
            Action::Use => {
                let first = self.resources[worker.first_resource()].load();
                let second = self.resources[worker.second_resource()].load();
                let _ = worker.advance(Outcome::Used { first, second });
                self.workers.set(i, worker);
            },
            Action::Release { resource } => {
                let mut cell = self.resources[resource];
                let found = cell.compare_and_swap(ResourceState::Held, ResourceState::Available);
                let _ = worker.advance(Outcome::Found { state: found });
                self.resources.set(resource, cell);
                self.workers.set(i, worker);
                self.wake.set(i, now.saturating_add(self.config.pause_ms));
                self.log.push(Event { time: now, worker: i, resource, kind: EventKind::Released });
            },
            Action::Halt => {
                return false;
            },
        }
        assert(self@ =~= s.step(i as int));
        true
    }

    /// Whether the step of worker `i` would change anything now.
    pub fn is_runnable(&self, i: usize) -> (runnable: bool)
        requires
            self.wf(),
        ensures
            runnable == self@.runnable(i as int),
    {
        if i >= self.workers.len() || self.wake[i] > self.clock {
            return false;
        }
        let worker = self.workers[i];
        proof {
            assert(self@.worker_ok(i as int));
        }
        match worker.phase {
            Phase::Idle | Phase::Using | Phase::Releasing => true,
            Phase::AcquiringFirst => self.resources[worker.first_resource()].load()
                == ResourceState::Available,
            Phase::AcquiringSecond => self.resources[worker.second_resource()].load()
                == ResourceState::Available,
            Phase::Stopped => false,
        }
    }

    /// The runnable worker with the lowest index, if any worker is runnable.
    pub fn pick_runnable(&self) -> (pick: Option<usize>)
        requires
            self.wf(),
        ensures
            match pick {
                Some(i) => self@.first_runnable(i as int),
                None => self@.none_runnable(),
            },
    {
        let n = self.workers.len();
        let mut i: usize = 0;
        while i < n
            invariant
                self.wf(),
                n == self@.size(),
                i <= n,
                forall|j: int| 0 <= j < i ==> !#[trigger] self@.runnable(j),
            decreases n - i,
        {
            if self.is_runnable(i) {
                return Some(i);
            }
            i += 1;
        }
        None
    }

    /// The earliest instant at which a sleeping worker wakes up, if any worker
    /// sleeps.
    pub fn next_wake(&self) -> (instant: Option<u64>)
        requires
            self.wf(),
        ensures
            match instant {
                Some(t) => self@.earliest_wake(t),
                None => self@.none_sleeping(),
            },
    {
        let n = self.workers.len();
        let mut earliest: Option<u64> = None;
        let mut i: usize = 0;
        while i < n
            invariant
                self.wf(),
                n == self@.size(),
                i <= n,
                match earliest {
                    Some(t) => {
                        &&& exists|j: int| 0 <= j < i && #[trigger] self@.sleeping(j) && self@.wake[j] == t
                        &&& forall|j: int| 0 <= j < i && #[trigger] self@.sleeping(j) ==> self@.wake[j] >= t
                    },
                    None => forall|j: int| 0 <= j < i ==> !#[trigger] self@.sleeping(j),
                },
            decreases n - i,
        {
            let wake = self.wake[i];
            if self.workers[i].phase != Phase::Stopped && wake > self.clock {
                assert(self@.sleeping(i as int));
                earliest = match earliest {
                    Some(t) => if wake < t {
                        Some(wake)
                    } else {
                        Some(t)
                    },
                    None => Some(wake),
                };
            }
            i += 1;
        }
        earliest
    }

    /// One move of the scheduler. The runnable worker with the lowest index
    /// takes its step; if nobody is runnable, the clock moves on to the
    /// earliest wake-up; if nobody sleeps either, every worker has stopped.
    pub fn tick(&mut self) -> (tick: Tick)
        requires
            old(self).wf(),
        ensures
            final(self).wf(),
            match tick {
                Tick::Stepped { worker } => old(self)@.first_runnable(worker as int)
                    && final(self)@ == old(self)@.step(worker as int),
                Tick::Slept { until } => old(self)@.none_runnable() && old(self)@.earliest_wake(
                    until,
                ) && final(self)@ == old(self)@.at(until),
                Tick::Finished => old(self)@.finished() && final(self)@ == old(self)@,
            },
    {
        match self.pick_runnable() {
            Some(worker) => {
                self.step(worker);
                Tick::Stepped { worker }
            },
            None => match self.next_wake() {
                Some(until) => {
                    self.advance_clock(until);
                    Tick::Slept { until }
                },
                None => {
                    proof {
                        if !self@.finished() {
                            crate::laws::lemma_no_deadlock(self@);
                        }
                    }
                    Tick::Finished
                },
            },
        }
    }

    /// Whether every worker has stopped.
    pub fn is_finished(&self) -> (finished: bool)
        ensures
            finished == self@.finished(),
    {
        let n = self.workers.len();
        let mut i: usize = 0;
        while i < n
            invariant
                n == self@.size(),
                self.workers@ == self@.workers,
                i <= n,
                forall|j: int| 0 <= j < i ==> (#[trigger] self.workers[j]).phase == Phase::Stopped,
            decreases n - i,
        {
            if self.workers[i].phase != Phase::Stopped {
                return false;
            }
            i += 1;
        }
        true
    }

    /// The number of resources that are held now.
    pub fn held_count(&self) -> (count: usize)
        requires
            self.wf(),
        ensures
            count == self@.held_count(),
            count <= self@.size(),
    {
        let n = self.resources.len();
        let ghost held = self@.held();
        let mut count: usize = 0;
        let mut r: usize = 0;
        while r < n
            invariant
                n == self@.size(),
                n == self.resources.len(),
                self.resources@ == self@.resources,
                held == self@.held(),
                r <= n,
                count == sum(held.take(r as int)),
                count <= r,
            decreases n - r,
        {
            proof {
                lemma_sum_take(held, r as int);
            }
            if self.resources[r].load() == ResourceState::Held {
                count += 1;
            }
            r += 1;
        }
        assert(held.take(n as int) =~= held);
        count
    }

    /// Whether the workers have completed at least `total` cycles together.
    pub fn reached_total(&self, total: u64) -> (reached: bool)
        ensures
            reached == (self@.total_cycles() >= total),
    {
        let n = self.workers.len();
        let ghost cycles = self@.cycles();
        let mut done: u64 = 0;
        let mut i: usize = 0;
        while i < n
            invariant
                n == self@.size(),
                self.workers@ == self@.workers,
                cycles == self@.cycles(),
                i <= n,
                done == sum(cycles.take(i as int)),
                done < total || total == 0,
            decreases n - i,
        {
            proof {
                lemma_sum_take(cycles, i as int);
                lemma_sum_prefix(cycles, i + 1);
            }
            let more = self.workers[i].cycles;
            if total == 0 || more >= total - done {
                return true;
            }
            done = done + more;
            i += 1;
        }
        assert(cycles.take(n as int) =~= cycles);
        total == 0
    }

    /// Runs the scheduler until every worker has stopped: by the stop flag if
    /// it is raised, else by its cycle limit. Each worker ends with the cycle
    /// count that its state at the start determines, and the run ends within
    /// its time budget.
    pub fn run_to_completion(&mut self)
        requires
            old(self).wf(),
        ensures
            final(self).wf(),
            final(self)@.finished(),
            final(self)@.stop == old(self)@.stop,
            old(self)@.leads_to(final(self)@),
            old(self)@.in_time(final(self)@),
            forall|i: int|
                0 <= i < old(self)@.size() ==> (#[trigger] final(self)@.workers[i]).cycles
                    == cycles_at_stop(old(self)@.workers[i], old(self)@.stop),
            forall|r: int|
                0 <= r < old(self)@.size() ==> (#[trigger] final(self)@.resources[r]).state
                    == ResourceState::Available,
            final(self)@.log.len() == 4 * final(self)@.total_cycles(),
    {
        let ghost start = self@;
        proof {
            lemma_run_begins(start);
        }
        loop
            invariant
                self.wf(),
                start.runs_to(self@),
            ensures
                self@.finished(),
            decreases
                    sum(self@.steps_left()),
                    (if self@.none_runnable() {
                        1nat
                    } else {
                        0nat
                    }),
        {
            let ghost before = self@;
            match self.tick() {
                Tick::Stepped { worker } => {
                    proof {
                        lemma_run_steps(start, before, worker as int);
                        lemma_step_counts(before, worker as int);
                    }
                },
                Tick::Slept { until } => {
                    proof {
                        lemma_run_sleeps(start, before, until);
                        lemma_at_counts(before, until);
                        lemma_wake_makes_runnable(before, until);
                    }
                },
                Tick::Finished => {
                    break ;
                },
            }
        }
        proof {
            let end = self@;
            assert forall|i: int| 0 <= i < start.size() implies (#[trigger] end.workers[i]).cycles
                == cycles_at_stop(start.workers[i], start.stop) by {
                assert(cycles_at_stop(end.workers[i], end.stop) == cycles_at_stop(
                    start.workers[i],
                    start.stop,
                ));
            }
            assert forall|r: int| 0 <= r < start.size() implies (#[trigger] end.resources[r]).state
                == ResourceState::Available by {
                lemma_finished_all_available(end, r);
            }
            lemma_finished_trace_length(end);
        }
    }

    /// Runs until the workers have completed `total` cycles together, then
    /// raises the stop flag and runs on until every worker has stopped, which
    /// adds at most the one cycle that each worker has under way. If every
    /// worker reaches its own limit first, the run ends there.
    pub fn run_until_total(&mut self, total: u64)
        requires
            old(self).wf(),
        ensures
            final(self).wf(),
            final(self)@.finished(),
            final(self)@.stop,
            old(self)@.leads_to(final(self)@),
            old(self)@.in_time(final(self)@),
            final(self)@.total_cycles() >= total || forall|i: int|
                0 <= i < old(self)@.size() ==> (#[trigger] final(self)@.workers[i]).cycles
                    == cycles_at_stop(old(self)@.workers[i], old(self)@.stop),
            final(self)@.total_cycles() <= old(self)@.total_cycles() + old(self)@.size()
                || final(self)@.total_cycles() <= total + old(self)@.size(),
            forall|r: int|
                0 <= r < old(self)@.size() ==> (#[trigger] final(self)@.resources[r]).state
                    == ResourceState::Available,
            final(self)@.log.len() == 4 * final(self)@.total_cycles(),
    {
        let ghost start = self@;
        proof {
            lemma_run_begins(start);
        }
        loop
            invariant
                self.wf(),
                start.runs_to(self@),
                self@.total_cycles() <= start.total_cycles() || self@.total_cycles() <= total,
            ensures
                self@.total_cycles() >= total || self@.finished(),
            decreases
                    6 * total + 5 * self@.size() - sum(self@.steps_done()),
                    (if self@.none_runnable() {
                        1nat
                    } else {
                        0nat
                    }),
        {
            let ghost before = self@;
            proof {
                lemma_steps_done_bound(before);
            }
            if self.reached_total(total) {
                break ;
            }
            match self.tick() {
                Tick::Stepped { worker } => {
                    proof {
                        lemma_run_steps(start, before, worker as int);
                        lemma_step_counts(before, worker as int);
                    }
                },
                Tick::Slept { until } => {
                    proof {
                        lemma_run_sleeps(start, before, until);
                        lemma_at_counts(before, until);
                        lemma_wake_makes_runnable(before, until);
                    }
                },
                Tick::Finished => {
                    break ;
                },
            }
        }
        let ghost reached = self@;
        self.request_stop();
        self.run_to_completion();
        proof {
            lemma_run_stopped(start, reached, self@);
        }
    }

    /// Runs for `duration` milliseconds of simulated time, then raises the
    /// stop flag and runs on until every worker has stopped. If every worker
    /// reaches its own limit first, the run ends there.
    pub fn run_for(&mut self, duration: u64)
        requires
            old(self).wf(),
        ensures
            final(self).wf(),
            final(self)@.finished(),
            final(self)@.stop,
            old(self)@.leads_to(final(self)@),
            old(self)@.in_time(final(self)@),
            final(self)@.clock >= later(old(self)@.clock, duration) || forall|i: int|
                0 <= i < old(self)@.size() ==> (#[trigger] final(self)@.workers[i]).cycles
                    == cycles_at_stop(old(self)@.workers[i], old(self)@.stop),
            forall|r: int|
                0 <= r < old(self)@.size() ==> (#[trigger] final(self)@.resources[r]).state
                    == ResourceState::Available,
            final(self)@.log.len() == 4 * final(self)@.total_cycles(),
    {
        let ghost start = self@;
        let deadline = self.clock.saturating_add(duration);
        proof {
            lemma_run_begins(start);
        }
        while self.clock < deadline
            invariant
                self.wf(),
                start.runs_to(self@),
            ensures
                self@.clock >= deadline || self@.finished(),
            decreases
                    (if self@.clock < deadline {
                        deadline - self@.clock
                    } else {
                        0
                    }),
                    sum(self@.momentum()),
        {
            let ghost before = self@;
            match self.tick() {
                Tick::Stepped { worker } => {
                    proof {
                        lemma_run_steps(start, before, worker as int);
                        lemma_step_spends_momentum(before, worker as int);
                    }
                },
                Tick::Slept { until } => {
                    proof {
                        lemma_run_sleeps(start, before, until);
                        lemma_wake_makes_runnable(before, until);
                    }
                },
                Tick::Finished => {
                    break ;
                },
            }
        }
        let ghost reached = self@;
        self.request_stop();
        self.run_to_completion();
        proof {
            lemma_run_stopped(start, reached, self@);
        }
    }
}

} // verus!
