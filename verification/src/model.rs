//! The ring as a state machine: the state of all resources and workers at one
//! instant of simulated time, the step that one worker takes, and the
//! invariant that every step keeps.

use vstd::prelude::*;
use crate::resource::{Resource, ResourceState};
use crate::ring::left_sharer;
use crate::trace::{
    hands_after,
    in_ring,
    in_time_order,
    lemma_hands_after_push,
    lemma_resource_after_push,
    resource_after,
    sound,
    Event,
    EventKind,
};
use crate::sums::{lemma_sum_differs_at, lemma_sum_of_zeros, sum};
use crate::worker::{Outcome, Phase, Worker};

verus! {

/// The times that pace a run, in simulated milliseconds, and the number of
/// cycles after which a worker stops by itself.
#[derive(Clone, Copy, PartialEq, Eq, Structural, Debug)]
pub struct Config {
    /// How long a worker holds both resources.
    pub use_ms: u64,
    /// How long a worker pauses after each of its two releases.
    pub pause_ms: u64,
    /// The cycles that one worker performs at most.
    pub cycle_limit: u64,
}

/// One time unit, the use time and the pause of the classic table: a second.
pub const TIME_UNIT_MS: u64 = 1000;

/// A cycle limit that no run reaches.
pub const NO_LIMIT: u64 = 0xffff_ffff_ffff_ffff;

impl Default for Config {
    /// One time unit to use, one to pause, and no limit to the cycles.
    fn default() -> (config: Config)
        ensures
            config == (Config {
                use_ms: TIME_UNIT_MS,
                pause_ms: TIME_UNIT_MS,
                cycle_limit: NO_LIMIT,
            }),
    {
        Config { use_ms: TIME_UNIT_MS, pause_ms: TIME_UNIT_MS, cycle_limit: NO_LIMIT }
    }
}

/// The instant `delay` after `clock`, or the last instant there is.
pub open spec fn later(clock: u64, delay: u64) -> u64 {
    if clock + delay > u64::MAX {
        u64::MAX
    } else {
        (clock + delay) as u64
    }
}

/// A worker of a ring of `n` as it starts.
pub open spec fn fresh_worker(index: int, n: int, cycle_limit: u64) -> Worker {
    Worker {
        index: index as usize,
        ring_size: n as usize,
        cycle_limit,
        phase: Phase::Idle,
        holds_first: false,
        holds_second: false,
        cycles: 0,
    }
}

/// The events that a worker has left in the trace: four for each completed
/// cycle, two of which a releasing worker has yet to make, and those of the
/// acquisitions of a cycle under way.
pub open spec fn events_of(worker: Worker) -> nat {
    (4 * worker.cycles + match worker.phase {
        Phase::Idle | Phase::AcquiringFirst | Phase::Stopped => 0int,
        Phase::AcquiringSecond => 1,
        Phase::Using => 2,
        Phase::Releasing => if worker.holds_first {
            -2
        } else {
            -1
        },
    }) as nat
}

/// The state of a ring at one instant.
pub struct RingState {
    pub resources: Seq<Resource>,
    pub workers: Seq<Worker>,
    /// For each worker the instant before which it does nothing.
    pub wake: Seq<u64>,
    pub clock: u64,
    /// The shared stop flag.
    pub stop: bool,
    pub config: Config,
    /// Every acquisition and release so far, oldest first.
    pub log: Seq<Event>,
}

impl RingState {
    /// The ring in which worker `i` starts at `starts[i]`: every resource
    /// available, every worker idle, the clock at zero, nothing recorded.
    pub open spec fn initial(config: Config, starts: Seq<u64>) -> RingState {
        RingState {
            resources: Seq::new(starts.len(), |r: int| Resource { state: ResourceState::Available }),
            workers: Seq::new(
                starts.len(),
                |i: int| fresh_worker(i, starts.len() as int, config.cycle_limit),
            ),
            wake: starts,
            clock: 0,
            stop: false,
            config,
            log: Seq::empty(),
        }
    }

    /// The number of workers, and of resources.
    pub open spec fn size(self) -> int {
        self.workers.len() as int
    }

    /// A resource is held exactly when one of the two workers that share it
    /// holds it, never both do, and its state is the one the trace leads to.
    pub open spec fn resource_ok(self, r: int) -> bool {
        let left = self.workers[left_sharer(r, self.size())];
        let right = self.workers[r];
        &&& self.resources[r].state == ResourceState::Held <==> left.holds(r) || right.holds(r)
        &&& !(left.holds(r) && right.holds(r))
        &&& resource_after(self.log, r) == Some(self.resources[r].state)
    }

    /// A worker sits at its own index, has the cycle limit of the ring, is well
    /// formed, holds what the trace puts in its hands, and is awake while it
    /// spins.
    pub open spec fn worker_ok(self, i: int) -> bool {
        let worker = self.workers[i];
        &&& worker.wf()
        &&& worker.index == i
        &&& worker.ring_size == self.size()
        &&& worker.cycle_limit == self.config.cycle_limit
        &&& hands_after(self.log, i, self.size()) == Some((worker.holds_first, worker.holds_second))
        &&& worker.phase == Phase::AcquiringFirst || worker.phase == Phase::AcquiringSecond
            ==> self.wake[i] <= self.clock
    }

    /// For each worker the events that it has left in the trace.
    pub open spec fn recorded(self) -> Seq<nat> {
        Seq::new(self.workers.len(), |i: int| events_of(self.workers[i]))
    }

    /// What holds of every state that a run can reach.
    pub open spec fn inv(self) -> bool {
        &&& 2 <= self.size()
        &&& self.resources.len() == self.size()
        &&& self.wake.len() == self.size()
        &&& 1 <= self.config.use_ms
        &&& forall|i: int| 0 <= i < self.size() ==> #[trigger] self.worker_ok(i)
        &&& forall|r: int| 0 <= r < self.size() ==> #[trigger] self.resource_ok(r)
        &&& in_ring(self.log, self.size())
        &&& in_time_order(self.log)
        &&& forall|k: int| 0 <= k < self.log.len() ==> (#[trigger] self.log[k]).time <= self.clock
        &&& self.log.len() == sum(self.recorded())
    }

    /// Whether the step of worker `i` would change anything, were it awake:
    /// a stopped worker does nothing, and an acquiring worker spins for as
    /// long as the resource is held.
    pub open spec fn enabled(self, i: int) -> bool {
        let worker = self.workers[i];
        match worker.phase {
            Phase::Idle | Phase::Using | Phase::Releasing => true,
            Phase::AcquiringFirst => self.resources[worker.first()].state
                == ResourceState::Available,
            Phase::AcquiringSecond => self.resources[worker.second()].state
                == ResourceState::Available,
            Phase::Stopped => false,
        }
    }

    /// Worker `i` is awake and its step changes the state.
    pub open spec fn runnable(self, i: int) -> bool {
        0 <= i < self.size() && self.wake[i] <= self.clock && self.enabled(i)
    }

    /// Worker `i` has not stopped and waits for a later instant.
    pub open spec fn sleeping(self, i: int) -> bool {
        0 <= i < self.size() && self.workers[i].phase != Phase::Stopped && self.wake[i]
            > self.clock
    }

    /// Worker `i` is runnable and no worker before it is.
    pub open spec fn first_runnable(self, i: int) -> bool {
        self.runnable(i) && forall|j: int| 0 <= j < i ==> !#[trigger] self.runnable(j)
    }

    /// No worker is runnable.
    pub open spec fn none_runnable(self) -> bool {
        forall|j: int| 0 <= j < self.size() ==> !#[trigger] self.runnable(j)
    }

    /// Some sleeping worker wakes up at `instant` and none before.
    pub open spec fn earliest_wake(self, instant: u64) -> bool {
        &&& exists|j: int| #[trigger] self.sleeping(j) && self.wake[j] == instant
        &&& forall|j: int| #[trigger] self.sleeping(j) ==> self.wake[j] >= instant
    }

    /// No worker sleeps.
    pub open spec fn none_sleeping(self) -> bool {
        forall|j: int| 0 <= j < self.size() ==> !#[trigger] self.sleeping(j)
    }

    /// Every worker has stopped.
    pub open spec fn finished(self) -> bool {
        forall|i: int| 0 <= i < self.size() ==> (#[trigger] self.workers[i]).phase == Phase::Stopped
    }

    /// What worker `i` finds when it performs its action on the resources.
    pub open spec fn observed(self, i: int) -> Outcome {
        let worker = self.workers[i];
        match worker.phase {
            Phase::Idle | Phase::Stopped => Outcome::StopFlag { raised: self.stop },
            Phase::AcquiringFirst => Outcome::Found { state: self.resources[worker.first()].state },
            Phase::AcquiringSecond => Outcome::Found {
                state: self.resources[worker.second()].state,
            },
            Phase::Using => Outcome::Used {
                first: self.resources[worker.first()].state,
                second: self.resources[worker.second()].state,
            },
            Phase::Releasing => Outcome::Found {
                state: self.resources[worker.releasing()].state,
            },
        }
    }

    /// The event that records a transition of `resource` by worker `i` now.
    pub open spec fn event(self, i: int, resource: int, kind: EventKind) -> Event {
        Event { time: self.clock, worker: i as usize, resource: resource as usize, kind }
    }

    /// The state after worker `i` has performed its action, which happens
    /// atomically. Nothing changes unless the worker is runnable.
    pub open spec fn step(self, i: int) -> RingState {
        if !self.runnable(i) {
            self
        } else {
            let worker = self.workers[i];
            let moved = match worker.next(self.observed(i)) {
                Ok(moved) => moved,
                Err(_) => worker,
            };
            let workers = self.workers.update(i, moved);
            match worker.phase {
                Phase::AcquiringFirst => RingState {
                    workers,
                    resources: self.resources.update(
                        worker.first(),
                        Resource { state: ResourceState::Held },
                    ),
                    log: self.log.push(self.event(i, worker.first(), EventKind::Acquired)),
                    ..self
                },
                Phase::AcquiringSecond => RingState {
                    workers,
                    resources: self.resources.update(
                        worker.second(),
                        Resource { state: ResourceState::Held },
                    ),
                    wake: self.wake.update(i, later(self.clock, self.config.use_ms)),
                    log: self.log.push(self.event(i, worker.second(), EventKind::Acquired)),
                    ..self
                },
                Phase::Releasing => RingState {
                    workers,
                    resources: self.resources.update(
                        worker.releasing(),
                        Resource { state: ResourceState::Available },
                    ),
                    wake: self.wake.update(i, later(self.clock, self.config.pause_ms)),
                    log: self.log.push(self.event(i, worker.releasing(), EventKind::Released)),
                    ..self
                },
                _ => RingState { workers, ..self },
            }
        }
    }

    /// The state once the clock has moved on to `instant`; the clock never
    /// moves back.
    pub open spec fn at(self, instant: u64) -> RingState {
        if instant > self.clock {
            RingState { clock: instant, ..self }
        } else {
            self
        }
    }
}

/// A ring of at least two with a use time starts in a state that satisfies the
/// invariant.
pub proof fn lemma_initial_inv(config: Config, starts: Seq<u64>)
    requires
        2 <= starts.len() <= usize::MAX,
        1 <= config.use_ms,
    ensures
        RingState::initial(config, starts).inv(),
{
    let s = RingState::initial(config, starts);
    assert forall|i: int| 0 <= i < s.size() implies #[trigger] s.worker_ok(i) by {}
    assert forall|r: int| 0 <= r < s.size() implies #[trigger] s.resource_ok(r) by {}
    lemma_sum_of_zeros(s.recorded());
}

/// A runnable worker never meets a fault: what it finds in the resources is
/// what its own state lets it expect.
pub proof fn lemma_step_without_fault(s: RingState, i: int)
    requires
        s.inv(),
        s.runnable(i),
    ensures
        s.workers[i].next(s.observed(i)) is Ok,
{
    let worker = s.workers[i];
    assert(s.worker_ok(i));
    crate::ring::lemma_two_resources(i, s.size());
    assert(s.resource_ok(worker.first()));
    assert(s.resource_ok(worker.second()));
}

/// Every step keeps the invariant.
pub proof fn lemma_step_inv(s: RingState, i: int)
    requires
        s.inv(),
    ensures
        s.step(i).inv(),
{
    if s.runnable(i) {
        let t = s.step(i);
        let n = s.size();
        let worker = s.workers[i];
        lemma_step_without_fault(s, i);
        assert(s.worker_ok(i));
        crate::ring::lemma_two_resources(i, n);
        assert(s.resource_ok(worker.first()));
        assert(s.resource_ok(worker.second()));
        assert forall|j: int| 0 <= j < n implies #[trigger] t.worker_ok(j) by {
            assert(s.worker_ok(j));
            if t.log != s.log {
                lemma_hands_after_push(s.log, t.log.last(), j, n);
                assert(t.log =~= s.log.push(t.log.last()));
            }
        }
        assert forall|r: int| 0 <= r < n implies #[trigger] t.resource_ok(r) by {
            assert(s.resource_ok(r));
            assert(s.worker_ok(r));
            assert(s.worker_ok(left_sharer(r, n)));
            if t.log != s.log {
                lemma_resource_after_push(s.log, t.log.last(), r);
                assert(t.log =~= s.log.push(t.log.last()));
            }
        }
        assert forall|k: int| 0 <= k < t.log.len() implies (#[trigger] t.log[k]).time
            <= t.clock && t.log[k].worker < n && t.log[k].resource < n by {
            if k < s.log.len() {
                assert(t.log[k] == s.log[k]);
            }
        }
        assert forall|j: int, k: int| 0 <= j <= k < t.log.len() implies (#[trigger] t.log[j]).time
            <= (#[trigger] t.log[k]).time by {
            if k < s.log.len() {
                assert(t.log[j] == s.log[j] && t.log[k] == s.log[k]);
            } else if j < s.log.len() {
                assert(t.log[j] == s.log[j]);
            }
        }
        lemma_sum_differs_at(s.recorded(), t.recorded(), i);
    }
}

/// Moving the clock on keeps the invariant.
pub proof fn lemma_at_inv(s: RingState, instant: u64)
    requires
        s.inv(),
    ensures
        s.at(instant).inv(),
{
    let t = s.at(instant);
    assert forall|i: int| 0 <= i < t.size() implies #[trigger] t.worker_ok(i) by {
        assert(s.worker_ok(i));
    }
    assert forall|r: int| 0 <= r < t.size() implies #[trigger] t.resource_ok(r) by {
        assert(s.resource_ok(r));
    }
    assert(t.recorded() =~= s.recorded());
}

/// Raising the stop flag keeps the invariant.
pub proof fn lemma_stop_inv(s: RingState)
    requires
        s.inv(),
    ensures
        (RingState { stop: true, ..s }).inv(),
{
    let t = RingState { stop: true, ..s };
    assert forall|i: int| 0 <= i < t.size() implies #[trigger] t.worker_ok(i) by {
        assert(s.worker_ok(i));
    }
    assert forall|r: int| 0 <= r < t.size() implies #[trigger] t.resource_ok(r) by {
        assert(s.resource_ok(r));
    }
    assert(t.recorded() =~= s.recorded());
}

/// The trace of a reachable state is sound.
pub proof fn lemma_trace_sound(s: RingState)
    requires
        s.inv(),
    ensures
        sound(s.log, s.size()),
{
    assert forall|r: int| 0 <= r < s.size() implies (#[trigger] resource_after(s.log, r))
        is Some by {
        assert(s.resource_ok(r));
    }
    assert forall|w: int| 0 <= w < s.size() implies (#[trigger] hands_after(s.log, w, s.size()))
        is Some by {
        assert(s.worker_ok(w));
    }
}

} // verus!
