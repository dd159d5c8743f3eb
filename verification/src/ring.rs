//! The topology of the ring: which resources a worker is bound to, in which
//! order it takes them, and which workers share a resource.

use vstd::prelude::*;

verus! {

/// The smallest ring: two workers that share both resources.
pub const MIN_RING_SIZE: usize = 2;

/// The size of the classic table: five workers around five resources.
pub const TABLE_SIZE: usize = 5;

/// The resource on the left of `worker`: the one at its own position.
pub open spec fn left_of(worker: int) -> int {
    worker
}

/// The resource on the right of `worker` in a ring of `n`: the next position,
/// wrapping around at the end.
pub open spec fn right_of(worker: int, n: int) -> int {
    if worker + 1 == n {
        0
    } else {
        worker + 1
    }
}

/// The worker on the left of `resource` in a ring of `n`: the one that has
/// `resource` on its right.
pub open spec fn left_sharer(resource: int, n: int) -> int {
    if resource == 0 {
        n - 1
    } else {
        resource - 1
    }
}

/// Odd workers start on their left, even workers on their right.
pub open spec fn starts_left(worker: int) -> bool {
    worker % 2 == 1
}

/// The resource that `worker` takes first.
pub open spec fn first_of(worker: int, n: int) -> int {
    if starts_left(worker) {
        left_of(worker)
    } else {
        right_of(worker, n)
    }
}

/// The resource that `worker` takes second.
pub open spec fn second_of(worker: int, n: int) -> int {
    if starts_left(worker) {
        right_of(worker, n)
    } else {
        left_of(worker)
    }
}

/// The place of a resource in the order in which every worker climbs: odd
/// resources come first, resource 0 next, the other even resources last.
pub open spec fn rank(resource: int) -> int {
    if resource % 2 == 1 {
        0
    } else if resource == 0 {
        1
    } else {
        2
    }
}

/// The right neighbour is the next position modulo the size of the ring.
pub proof fn lemma_right_is_successor_mod(worker: int, n: int)
    requires
        0 <= worker < n,
    ensures
        right_of(worker, n) == (worker + 1) % n,
        0 <= right_of(worker, n) < n,
{
    if worker + 1 == n {
        assert((worker + 1) % n == 0) by {
            vstd::arithmetic::div_mod::lemma_mod_self_0(n);
        }
    } else {
        assert((worker + 1) % n == worker + 1) by {
            vstd::arithmetic::div_mod::lemma_small_mod((worker + 1) as nat, n as nat);
        }
    }
}

/// A resource is the left one of the worker at its position and the right one
/// of that worker's left neighbour, and of no other worker.
pub proof fn lemma_sharers(worker: int, resource: int, n: int)
    requires
        2 <= n,
        0 <= worker < n,
        0 <= resource < n,
    ensures
        left_of(worker) == resource <==> worker == resource,
        right_of(worker, n) == resource <==> worker == left_sharer(resource, n),
        0 <= left_sharer(resource, n) < n,
        left_sharer(resource, n) != resource,
{
}

/// The two resources of a worker are different ones, and both lie in the ring.
pub proof fn lemma_two_resources(worker: int, n: int)
    requires
        2 <= n,
        0 <= worker < n,
    ensures
        first_of(worker, n) != second_of(worker, n),
        0 <= first_of(worker, n) < n,
        0 <= second_of(worker, n) < n,
{
}

/// Parity decides the order: an odd worker takes left then right, an even
/// worker right then left.
pub proof fn lemma_acquisition_order(worker: int, n: int)
    requires
        0 <= worker < n,
    ensures
        worker % 2 == 1 ==> first_of(worker, n) == left_of(worker) && second_of(worker, n)
            == right_of(worker, n),
        worker % 2 == 0 ==> first_of(worker, n) == right_of(worker, n) && second_of(worker, n)
            == left_of(worker),
{
}

/// Every worker takes its resources in climbing order of rank, so no circle of
/// workers can wait on one another.
pub proof fn lemma_rank_climbs(worker: int, n: int)
    requires
        2 <= n,
        0 <= worker < n,
    ensures
        0 <= rank(first_of(worker, n)) < rank(second_of(worker, n)) <= 2,
{
}

/// The index of the resource on the left of `worker`.
pub fn left_resource(worker: usize) -> (resource: usize)
    ensures
        resource == left_of(worker as int),
{
    worker
}

/// The index of the resource on the right of `worker` in a ring of `n`.
pub fn right_resource(worker: usize, n: usize) -> (resource: usize)
    requires
        worker < n,
    ensures
        resource == right_of(worker as int, n as int),
        resource == (worker + 1) % (n as int),
        resource < n,
{
    proof {
        lemma_right_is_successor_mod(worker as int, n as int);
    }
    if worker + 1 == n {
        0
    } else {
        worker + 1
    }
}

/// The index of the resource that `worker` takes first.
pub fn first_resource(worker: usize, n: usize) -> (resource: usize)
    requires
        worker < n,
    ensures
        resource == first_of(worker as int, n as int),
        resource < n,
{
    if worker % 2 == 1 {
        left_resource(worker)
    } else {
        right_resource(worker, n)
    }
}

/// The index of the resource that `worker` takes second.
pub fn second_resource(worker: usize, n: usize) -> (resource: usize)
    requires
        worker < n,
    ensures
        resource == second_of(worker as int, n as int),
        resource < n,
{
    if worker % 2 == 1 {
        right_resource(worker, n)
    } else {
        left_resource(worker)
    }
}

/// The two workers that share `resource`: the one that has it on its left and
/// the one that has it on its right.
pub fn sharers(resource: usize, n: usize) -> (pair: (usize, usize))
    requires
        resource < n,
    ensures
        pair.0 == resource,
        pair.1 == left_sharer(resource as int, n as int),
        pair.1 < n,
        left_of(pair.0 as int) == resource,
        right_of(pair.1 as int, n as int) == resource,
{
    if resource == 0 {
        (resource, n - 1)
    } else {
        (resource, resource - 1)
    }
}

} // verus!
