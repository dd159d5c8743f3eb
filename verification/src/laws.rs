//! What the protocol guarantees in every reachable state: mutual exclusion,
//! and that the ring never deadlocks.

use vstd::prelude::*;
use crate::model::RingState;
use crate::resource::{Resource, ResourceState};
use crate::ring::{left_sharer, lemma_rank_climbs, lemma_two_resources, rank, right_of};
use crate::sums::{lemma_sum_added, lemma_sum_of_bits, lemma_sum_rotated, sum};
use crate::worker::{Phase, Worker};

verus! {

/// Mutual exclusion: two different workers never hold the same resource.
pub proof fn lemma_mutual_exclusion(s: RingState, i: int, j: int, resource: int)
    requires
        s.inv(),
        0 <= i < s.size(),
        0 <= j < s.size(),
        i != j,
    ensures
        !(s.workers[i].holds(resource) && s.workers[j].holds(resource)),
{
    let n = s.size();
    assert(s.worker_ok(i));
    assert(s.worker_ok(j));
    lemma_two_resources(i, n);
    lemma_two_resources(j, n);
    if s.workers[i].holds(resource) && s.workers[j].holds(resource) {
        assert(s.resource_ok(resource));
    }
}

/// Two workers that sit next to each other are never both using: they share a
/// resource, and a worker that uses holds both of its own.
pub proof fn lemma_neighbours_never_both_use(s: RingState, i: int)
    requires
        s.inv(),
        0 <= i < s.size(),
    ensures
        !(s.workers[i].phase == Phase::Using && s.workers[right_of(i, s.size())].phase
            == Phase::Using),
{
    let n = s.size();
    let j = right_of(i, n);
    assert(s.worker_ok(i));
    assert(s.worker_ok(j));
    lemma_mutual_exclusion(s, i, j, j);
}

/// The resource that an acquiring worker waits for.
pub open spec fn wanted(s: RingState, i: int) -> int {
    if s.workers[i].phase == Phase::AcquiringFirst {
        s.workers[i].first()
    } else {
        s.workers[i].second()
    }
}

/// Worker `i` can neither move now nor waits for a later instant.
pub open spec fn still(s: RingState, i: int) -> bool {
    !s.runnable(i) && !s.sleeping(i)
}

/// Nobody can move now and nobody waits for a later instant.
pub open spec fn stuck(s: RingState) -> bool {
    forall|i: int| 0 <= i < s.size() ==> #[trigger] still(s, i)
}

/// In a stuck state, a worker that has not stopped waits for a resource, and
/// the worker that holds that resource waits for one of higher rank.
proof fn lemma_blocked_by(s: RingState, i: int) -> (holder: int)
    requires
        s.inv(),
        stuck(s),
        0 <= i < s.size(),
        s.workers[i].phase != Phase::Stopped,
    ensures
        0 <= holder < s.size(),
        s.workers[holder].phase != Phase::Stopped,
        0 <= rank(wanted(s, i)) < rank(wanted(s, holder)) <= 2,
{
    let n = s.size();
    let x = wanted(s, i);
    assert(s.worker_ok(i));
    assert(still(s, i));
    lemma_two_resources(i, n);
    lemma_rank_climbs(i, n);
    assert(s.resources[x].state == ResourceState::Held);
    assert(s.resource_ok(x));
    let holder = if s.workers[x].holds(x) {
        x
    } else {
        left_sharer(x, n)
    };
    assert(s.worker_ok(holder));
    assert(still(s, holder));
    lemma_two_resources(holder, n);
    lemma_rank_climbs(holder, n);
    holder
}

/// No deadlock: as long as some worker has not stopped, some worker can move
/// now or will wake up at a later instant.
pub proof fn lemma_no_deadlock(s: RingState)
    requires
        s.inv(),
        !s.finished(),
    ensures
        exists|i: int| #[trigger] s.runnable(i) || s.sleeping(i),
{
    if stuck(s) {
        let i = choose|i: int| 0 <= i < s.size() && (#[trigger] s.workers[i]).phase != Phase::Stopped;
        let a = lemma_blocked_by(s, i);
        let b = lemma_blocked_by(s, a);
        let c = lemma_blocked_by(s, b);
    }
}

/// One for true, zero for false.
pub open spec fn bit(truth: bool) -> nat {
    if truth {
        1
    } else {
        0
    }
}

/// The number of resources that a worker holds: none, one or two.
pub open spec fn hands_full(worker: Worker) -> nat {
    bit(worker.holds_first) + bit(worker.holds_second)
}

/// One for a held resource, zero for an available one.
pub open spec fn held_bit(resource: Resource) -> nat {
    bit(resource.state == ResourceState::Held)
}

impl RingState {
    /// For each resource whether it is held, as one or zero.
    pub open spec fn held(self) -> Seq<nat> {
        Seq::new(self.resources.len(), |r: int| held_bit(self.resources[r]))
    }

    /// For each worker the number of resources that it holds.
    pub open spec fn holds(self) -> Seq<nat> {
        Seq::new(self.workers.len(), |i: int| hands_full(self.workers[i]))
    }

    /// The number of resources that are held.
    pub open spec fn held_count(self) -> nat {
        sum(self.held())
    }
}

/// Conservation: the holds of all workers together are as many as there are
/// held resources, and never more than the ring has resources.
pub proof fn lemma_conservation(s: RingState)
    requires
        s.inv(),
    ensures
        sum(s.holds()) == s.held_count(),
        s.held_count() <= s.size(),
{
    let n = s.size();
    let on_left = Seq::new(n as nat, |i: int| bit(s.workers[i].holds(i)));
    let on_right = Seq::new(n as nat, |i: int| bit(s.workers[i].holds(right_of(i, n))));
    let from_left = Seq::new(n as nat, |r: int| bit(s.workers[left_sharer(r, n)].holds(r)));
    assert forall|i: int| 0 <= i < n implies s.holds()[i] == on_left[i] + on_right[i] by {
        assert(s.worker_ok(i));
        lemma_two_resources(i, n);
    }
    assert forall|r: int| 0 <= r < n implies s.held()[r] == on_left[r] + from_left[r] by {
        assert(s.resource_ok(r));
    }
    assert forall|r: int| 1 <= r < n implies from_left[r] == on_right[r - 1] by {}
    lemma_sum_added(on_left, on_right, s.holds());
    lemma_sum_added(on_left, from_left, s.held());
    lemma_sum_rotated(on_right, from_left);
    lemma_sum_of_bits(s.held());
}

} // verus!
