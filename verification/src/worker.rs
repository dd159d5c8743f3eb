//! The state machine of one worker.
//!
//! A worker never touches a resource itself. It asks for an [`Action`], whoever
//! drives it performs the action on the resources, and the worker is told the
//! [`Outcome`] and moves on. The same machine therefore runs against the model
//! resources of a simulation and against real atomic cells.

use vstd::prelude::*;
use crate::resource::ResourceState;
use crate::ring::{first_of, first_resource, second_of, second_resource, MIN_RING_SIZE};

verus! {

/// Where a worker stands in its cycle.
#[derive(Clone, Copy, PartialEq, Eq, Structural, Debug)]
pub enum Phase {
    /// At the top of the loop, about to look at the stop flag.
    Idle,
    /// Spinning on its first resource.
    AcquiringFirst,
    /// Holding the first resource, spinning on the second.
    AcquiringSecond,
    /// Holding both resources and using them.
    Using,
    /// Putting the resources back, the first one first.
    Releasing,
    /// Left the loop for good.
    Stopped,
}

/// What a worker asks its driver to do next.
#[derive(Clone, Copy, PartialEq, Eq, Structural, Debug)]
pub enum Action {
    /// Read the shared stop flag.
    CheckStop,
    /// Compare-and-swap the resource from `Available` to `Held`.
    Acquire { resource: usize },
    /// Hold both resources for the use time and observe them meanwhile.
    Use,
    /// Compare-and-swap the resource from `Held` to `Available`, then pause.
    Release { resource: usize },
    /// Nothing: the worker has stopped.
    Halt,
}

/// What the driver reports back after an action.
#[derive(Clone, Copy, PartialEq, Eq, Structural, Debug)]
pub enum Outcome {
    /// The value of the stop flag.
    StopFlag { raised: bool },
    /// The state that a compare-and-swap found in the resource.
    Found { state: ResourceState },
    /// The states of the first and the second resource as observed during use.
    Used { first: ResourceState, second: ResourceState },
}

/// A defect that ends a run.
#[derive(Clone, Copy, PartialEq, Eq, Structural, Debug)]
pub enum Fault {
    /// A resource that `worker` holds was found available: somebody else put it
    /// back, so mutual exclusion is broken.
    NotHeld { worker: usize, resource: usize },
    /// The outcome does not answer the action that `worker` asked for.
    OutOfTurn { worker: usize },
}

/// One worker of the ring.
#[derive(Clone, Copy, PartialEq, Eq, Structural, Debug)]
pub struct Worker {
    /// Position in the ring.
    pub index: usize,
    /// Number of workers, and of resources, in the ring.
    pub ring_size: usize,
    /// The worker stops at the top of its loop once it has completed this many
    /// cycles.
    pub cycle_limit: u64,
    pub phase: Phase,
    pub holds_first: bool,
    pub holds_second: bool,
    /// Completed uses.
    pub cycles: u64,
}

impl Worker {
    /// What the phase says about the resources held, that a cycle under way is
    /// still within the limit, and that a releasing worker has counted the
    /// cycle that it is ending.
    pub open spec fn wf(&self) -> bool {
        &&& 2 <= self.ring_size
        &&& self.index < self.ring_size
        &&& self.cycles <= self.cycle_limit
        &&& match self.phase {
            Phase::Idle | Phase::Stopped => !self.holds_first && !self.holds_second,
            Phase::AcquiringFirst => !self.holds_first && !self.holds_second && self.cycles
                < self.cycle_limit,
            Phase::AcquiringSecond => self.holds_first && !self.holds_second && self.cycles
                < self.cycle_limit,
            Phase::Using => self.holds_first && self.holds_second && self.cycles
                < self.cycle_limit,
            Phase::Releasing => self.holds_second && 1 <= self.cycles,
        }
    }

    /// The resource taken first.
    pub open spec fn first(&self) -> int {
        first_of(self.index as int, self.ring_size as int)
    }

    /// The resource taken second.
    pub open spec fn second(&self) -> int {
        second_of(self.index as int, self.ring_size as int)
    }

    /// Whether the worker holds `resource`.
    pub open spec fn holds(&self, resource: int) -> bool {
        (self.holds_first && resource == self.first()) || (self.holds_second && resource
            == self.second())
    }

    /// The resource that a releasing worker puts back next: the first one as
    /// long as it holds it, then the second.
    pub open spec fn releasing(&self) -> int {
        if self.holds_first {
            self.first()
        } else {
            self.second()
        }
    }

    /// The action that the phase calls for.
    pub open spec fn action(&self) -> Action {
        match self.phase {
            Phase::Idle => Action::CheckStop,
            Phase::AcquiringFirst => Action::Acquire { resource: self.first() as usize },
            Phase::AcquiringSecond => Action::Acquire { resource: self.second() as usize },
            Phase::Using => Action::Use,
            Phase::Releasing => Action::Release { resource: self.releasing() as usize },
            Phase::Stopped => Action::Halt,
        }
    }

    /// The worker after `outcome`, or the fault that `outcome` reveals.
    pub open spec fn next(&self, outcome: Outcome) -> Result<Worker, Fault> {
        match (self.phase, outcome) {
            (Phase::Idle, Outcome::StopFlag { raised }) => if raised || self.cycles
                >= self.cycle_limit {
                Ok(Worker { phase: Phase::Stopped, ..*self })
            } else {
                Ok(Worker { phase: Phase::AcquiringFirst, ..*self })
            },
            (Phase::AcquiringFirst, Outcome::Found { state }) => if state
                == ResourceState::Available {
                Ok(Worker { phase: Phase::AcquiringSecond, holds_first: true, ..*self })
            } else {
                Ok(*self)
            },
            (Phase::AcquiringSecond, Outcome::Found { state }) => if state
                == ResourceState::Available {
                Ok(Worker { phase: Phase::Using, holds_second: true, ..*self })
            } else {
                Ok(*self)
            },
            (Phase::Using, Outcome::Used { first, second }) => if first
                == ResourceState::Available {
                Err(Fault::NotHeld { worker: self.index, resource: self.first() as usize })
            } else if second == ResourceState::Available {
                Err(Fault::NotHeld { worker: self.index, resource: self.second() as usize })
            } else {
                Ok(Worker { phase: Phase::Releasing, cycles: (self.cycles + 1) as u64, ..*self })
            },
            (Phase::Releasing, Outcome::Found { state }) => if state == ResourceState::Available {
                Err(Fault::NotHeld { worker: self.index, resource: self.releasing() as usize })
            } else if self.holds_first {
                Ok(Worker { holds_first: false, ..*self })
            } else {
                Ok(Worker { phase: Phase::Idle, holds_second: false, ..*self })
            },
            _ => Err(Fault::OutOfTurn { worker: self.index }),
        }
    }

    /// A worker at the top of its loop, holding nothing, with no cycle done.
    /// There is none for a ring of fewer than two, nor for an index outside
    /// the ring.
    pub fn new(index: usize, ring_size: usize, cycle_limit: u64) -> (worker: Option<Worker>)
        ensures
            worker is Some <==> 2 <= ring_size && index < ring_size,
            worker matches Some(w) ==> w == (Worker {
                index,
                ring_size,
                cycle_limit,
                phase: Phase::Idle,
                holds_first: false,
                holds_second: false,
                cycles: 0,
            }) && w.wf(),
    {
        if ring_size < MIN_RING_SIZE || index >= ring_size {
            None
        } else {
            Some(
                Worker {
                    index,
                    ring_size,
                    cycle_limit,
                    phase: Phase::Idle,
                    holds_first: false,
                    holds_second: false,
                    cycles: 0,
                },
            )
        }
    }

    /// Whether the worker is well formed. A worker made by `new` and changed
    /// by `advance` alone always is.
    pub fn is_well_formed(&self) -> (well_formed: bool)
        ensures
            well_formed == self.wf(),
    {
        let in_ring = 2 <= self.ring_size && self.index < self.ring_size;
        let in_limit = self.cycles <= self.cycle_limit;
        let under_way = self.cycles < self.cycle_limit;
        let hands = match self.phase {
            Phase::Idle | Phase::Stopped => !self.holds_first && !self.holds_second,
            Phase::AcquiringFirst => !self.holds_first && !self.holds_second && under_way,
            Phase::AcquiringSecond => self.holds_first && !self.holds_second && under_way,
            Phase::Using => self.holds_first && self.holds_second && under_way,
            Phase::Releasing => self.holds_second && 1 <= self.cycles,
        };
        in_ring && in_limit && hands
    }

    /// The index of the resource that this worker takes first.
    pub fn first_resource(&self) -> (resource: usize)
        requires
            self.wf(),
        ensures
            resource == self.first(),
            resource < self.ring_size,
    {
        first_resource(self.index, self.ring_size)
    }

    /// The index of the resource that this worker takes second.
    pub fn second_resource(&self) -> (resource: usize)
        requires
            self.wf(),
        ensures
            resource == self.second(),
            resource < self.ring_size,
    {
        second_resource(self.index, self.ring_size)
    }

    /// What the driver is to do next.
    pub fn next_action(&self) -> (action: Action)
        requires
            self.wf(),
        ensures
            action == self.action(),
            action matches Action::Acquire { resource } ==> resource < self.ring_size
                && !self.holds(resource as int),
            action matches Action::Release { resource } ==> resource < self.ring_size
                && self.holds(resource as int),
    {
        match self.phase {
            Phase::Idle => Action::CheckStop,
            Phase::AcquiringFirst => Action::Acquire { resource: self.first_resource() },
            Phase::AcquiringSecond => Action::Acquire { resource: self.second_resource() },
            Phase::Using => Action::Use,
            Phase::Releasing => if self.holds_first {
                Action::Release { resource: self.first_resource() }
            } else {
                Action::Release { resource: self.second_resource() }
            },
            Phase::Stopped => Action::Halt,
        }
    }

    /// Takes in the outcome of the action last asked for. On a fault the worker
    /// stays as it was.
    pub fn advance(&mut self, outcome: Outcome) -> (result: Result<(), Fault>)
        requires
            old(self).wf(),
        ensures
            final(self).wf(),
            match old(self).next(outcome) {
                Ok(worker) => result is Ok && *final(self) == worker,
                Err(fault) => result == Err::<(), Fault>(fault) && *final(self) == *old(self),
            },
    {
        match (self.phase, outcome) {
            (Phase::Idle, Outcome::StopFlag { raised }) => {
                if raised || self.cycles >= self.cycle_limit {
                    self.phase = Phase::Stopped;
                } else {
                    self.phase = Phase::AcquiringFirst;
                }
                Ok(())
            },
            (Phase::AcquiringFirst, Outcome::Found { state }) => {
                if state == ResourceState::Available {
                    self.phase = Phase::AcquiringSecond;
                    self.holds_first = true;
                }
                Ok(())
            },
            (Phase::AcquiringSecond, Outcome::Found { state }) => {
                if state == ResourceState::Available {
                    self.phase = Phase::Using;
                    self.holds_second = true;
                }
                Ok(())
            },
            (Phase::Using, Outcome::Used { first, second }) => {
                if first == ResourceState::Available {
                    Err(Fault::NotHeld { worker: self.index, resource: self.first_resource() })
                } else if second == ResourceState::Available {
                    Err(Fault::NotHeld { worker: self.index, resource: self.second_resource() })
                } else {
                    self.phase = Phase::Releasing;
                    self.cycles = self.cycles + 1;
                    Ok(())
                }
            },
            (Phase::Releasing, Outcome::Found { state }) => {
                if state == ResourceState::Available {
                    let resource = if self.holds_first {
                        self.first_resource()
                    } else {
                        self.second_resource()
                    };
                    Err(Fault::NotHeld { worker: self.index, resource })
                } else if self.holds_first {
                    self.holds_first = false;
                    Ok(())
                } else {
                    self.phase = Phase::Idle;
                    self.holds_second = false;
                    Ok(())
                }
            },
            _ => Err(Fault::OutOfTurn { worker: self.index }),
        }
    }

    /// The sanity check on a resource that the worker has read: a resource that
    /// it holds must not be found available.
    pub fn verify_held(&self, resource: usize, observed: ResourceState) -> (result: Result<
        (),
        Fault,
    >)
        requires
            self.wf(),
        ensures
            result is Err <==> self.holds(resource as int) && observed == ResourceState::Available,
            result is Err ==> result == Err::<(), Fault>(
                Fault::NotHeld { worker: self.index, resource },
            ),
    {
        let held = (self.holds_first && resource == self.first_resource()) || (self.holds_second
            && resource == self.second_resource());
        if held && observed == ResourceState::Available {
            Err(Fault::NotHeld { worker: self.index, resource })
        } else {
            Ok(())
        }
    }
}

} // verus!
