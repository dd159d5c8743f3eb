//! The model of one resource: a cell with two states that changes only by
//! compare-and-swap.

use vstd::prelude::*;

verus! {

/// The state of a resource.
#[derive(Clone, Copy, PartialEq, Eq, Structural, Debug)]
pub enum ResourceState {
    /// On the table, free to be taken.
    Available,
    /// Taken by one of the two workers that share it.
    Held,
}

/// A resource of the ring.
#[derive(Clone, Copy, PartialEq, Eq, Structural, Debug)]
pub struct Resource {
    pub state: ResourceState,
}

impl Resource {
    /// A resource is created available.
    pub fn new() -> (resource: Resource)
        ensures
            resource.state == ResourceState::Available,
    {
        Resource { state: ResourceState::Available }
    }

    /// Reads the state.
    pub fn load(&self) -> (state: ResourceState)
        ensures
            state == self.state,
    {
        self.state
    }

    /// Writes `new` if the state is `current`, and returns the state that was
    /// found. The swap took place exactly when the result is `current`.
    pub fn compare_and_swap(&mut self, current: ResourceState, new: ResourceState) -> (found:
        ResourceState)
        ensures
            found == old(self).state,
            final(self).state == if old(self).state == current {
                new
            } else {
                old(self).state
            },
    {
        let found = self.state;
        if found == current {
            self.state = new;
        }
        found
    }
}

} // verus!
