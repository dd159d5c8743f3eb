//! Recorded traces: the events of a run in the order in which they happened,
//! what it means for a trace to be sound, and an audit that finds the first
//! event at which a trace stops being sound.

use vstd::prelude::*;
use crate::resource::ResourceState;
use crate::ring::{first_of, first_resource, second_of, second_resource};

verus! {

/// The two transitions of a resource.
#[derive(Clone, Copy, PartialEq, Eq, Structural, Debug)]
pub enum EventKind {
    /// `Available` to `Held`.
    Acquired,
    /// `Held` to `Available`.
    Released,
}

/// One transition of one resource, made by one worker.
#[derive(Clone, Copy, PartialEq, Eq, Structural, Debug)]
pub struct Event {
    /// Simulated time in milliseconds.
    pub time: u64,
    pub worker: usize,
    pub resource: usize,
    pub kind: EventKind,
}

/// The state of `resource` after one more event, or `None` if the event
/// acquires it while it is held or releases it while it is available.
pub open spec fn resource_step(state: ResourceState, event: Event, resource: int) -> Option<
    ResourceState,
> {
    if event.resource != resource {
        Some(state)
    } else {
        match (event.kind, state) {
            (EventKind::Acquired, ResourceState::Available) => Some(ResourceState::Held),
            (EventKind::Released, ResourceState::Held) => Some(ResourceState::Available),
            _ => None,
        }
    }
}

/// The state in which `log` leaves `resource`, starting from `Available`, or
/// `None` if the events of `resource` do not alternate between acquired and
/// released.
pub open spec fn resource_after(log: Seq<Event>, resource: int) -> Option<ResourceState>
    decreases log.len(),
{
    if log.len() == 0 {
        Some(ResourceState::Available)
    } else {
        match resource_after(log.drop_last(), resource) {
            Some(state) => resource_step(state, log.last(), resource),
            None => None,
        }
    }
}

/// What `worker` holds after one more event, as the pair (first, second), or
/// `None` if the event is out of order. The order is: take the first resource
/// with empty hands, take the second, put back the first, put back the second.
pub open spec fn hands_step(hands: (bool, bool), event: Event, worker: int, n: int) -> Option<
    (bool, bool),
> {
    if event.worker != worker {
        Some(hands)
    } else {
        match event.kind {
            EventKind::Acquired => if event.resource == first_of(worker, n) && hands == (
                false,
                false,
            ) {
                Some((true, false))
            } else if event.resource == second_of(worker, n) && hands == (true, false) {
                Some((true, true))
            } else {
                None
            },
            EventKind::Released => if event.resource == first_of(worker, n) && hands == (
                true,
                true,
            ) {
                Some((false, true))
            } else if event.resource == second_of(worker, n) && hands == (false, true) {
                Some((false, false))
            } else {
                None
            },
        }
    }
}

/// What `log` leaves in the hands of `worker`, starting with empty hands, or
/// `None` if the worker's events are out of order.
pub open spec fn hands_after(log: Seq<Event>, worker: int, n: int) -> Option<(bool, bool)>
    decreases log.len(),
{
    if log.len() == 0 {
        Some((false, false))
    } else {
        match hands_after(log.drop_last(), worker, n) {
            Some(hands) => hands_step(hands, log.last(), worker, n),
            None => None,
        }
    }
}

/// Every event names a worker and a resource of the ring.
pub open spec fn in_ring(log: Seq<Event>, n: int) -> bool {
    forall|k: int| 0 <= k < log.len() ==> (#[trigger] log[k]).worker < n && log[k].resource < n
}

/// Time never runs backwards along the trace.
pub open spec fn in_time_order(log: Seq<Event>) -> bool {
    forall|j: int, k: int| 0 <= j <= k < log.len() ==> (#[trigger] log[j]).time <= (
    #[trigger] log[k]).time
}

/// A sound trace of a ring of `n`: every resource alternates between acquired
/// and released, so it is never acquired while held; every worker takes and
/// puts back its resources in its own order; time does not run backwards.
pub open spec fn sound(log: Seq<Event>, n: int) -> bool {
    &&& in_ring(log, n)
    &&& in_time_order(log)
    &&& forall|r: int| 0 <= r < n ==> (#[trigger] resource_after(log, r)) is Some
    &&& forall|w: int| 0 <= w < n ==> (#[trigger] hands_after(log, w, n)) is Some
}

/// One more event moves every resource by one step.
pub proof fn lemma_resource_after_push(log: Seq<Event>, event: Event, resource: int)
    ensures
        resource_after(log.push(event), resource) == match resource_after(log, resource) {
            Some(state) => resource_step(state, event, resource),
            None => None,
        },
{
    assert(log.push(event).drop_last() =~= log);
}

/// One more event moves every worker by one step.
pub proof fn lemma_hands_after_push(log: Seq<Event>, event: Event, worker: int, n: int)
    ensures
        hands_after(log.push(event), worker, n) == match hands_after(log, worker, n) {
            Some(hands) => hands_step(hands, event, worker, n),
            None => None,
        },
{
    assert(log.push(event).drop_last() =~= log);
}

/// Every prefix of a sound trace is sound.
pub proof fn lemma_sound_prefix(log: Seq<Event>, len: int, n: int)
    requires
        sound(log, n),
        0 <= len <= log.len(),
    ensures
        sound(log.take(len), n),
    decreases log.len() - len,
{
    if len == log.len() {
        assert(log.take(len) =~= log);
    } else {
        let shorter = log.drop_last();
        assert forall|j: int, k: int| 0 <= j <= k < shorter.len() implies (
        #[trigger] shorter[j]).time <= (#[trigger] shorter[k]).time by {
            assert(shorter[j] == log[j] && shorter[k] == log[k]);
        }
        assert forall|k: int| 0 <= k < shorter.len() implies (#[trigger] shorter[k]).worker < n
            && shorter[k].resource < n by {
            assert(shorter[k] == log[k]);
        }
        assert forall|r: int| 0 <= r < n implies (#[trigger] resource_after(shorter, r)) is Some by {
            assert(resource_after(log, r) is Some);
        }
        assert forall|w: int| 0 <= w < n implies (#[trigger] hands_after(shorter, w, n)) is Some by {
            assert(hands_after(log, w, n) is Some);
        }
        lemma_sound_prefix(shorter, len, n);
        assert(shorter.take(len) =~= log.take(len));
    }
}

/// Alternation: in a sound trace a resource is acquired only while it is
/// available and released only while it is held. Its states along the trace
/// are `Available`, `Held`, `Available` and so on, never `Held` twice in a row.
pub proof fn lemma_resource_alternates(log: Seq<Event>, n: int, k: int)
    requires
        sound(log, n),
        0 <= k < log.len(),
    ensures
        resource_after(log.take(k), log[k].resource as int) == Some(
            match log[k].kind {
                EventKind::Acquired => ResourceState::Available,
                EventKind::Released => ResourceState::Held,
            },
        ),
{
    let upto = log.take(k + 1);
    lemma_sound_prefix(log, k + 1, n);
    assert(upto.drop_last() =~= log.take(k));
    assert(upto.last() == log[k]);
    assert(upto[k] == log[k]);
    assert(resource_after(upto, log[k].resource as int) is Some);
}

/// Acquisition order: in a sound trace a worker takes its first resource with
/// empty hands and its second with only the first in hand, and it puts back
/// the first while it holds both and the second last. For an odd worker the
/// first resource is its left one, for an even worker its right one.
pub proof fn lemma_worker_in_order(log: Seq<Event>, n: int, k: int)
    requires
        sound(log, n),
        0 <= k < log.len(),
    ensures
        ({
            let worker = log[k].worker as int;
            let hands = hands_after(log.take(k), worker, n);
            match log[k].kind {
                EventKind::Acquired => (log[k].resource == first_of(worker, n) && hands == Some(
                    (false, false),
                )) || (log[k].resource == second_of(worker, n) && hands == Some((true, false))),
                EventKind::Released => (log[k].resource == first_of(worker, n) && hands == Some(
                    (true, true),
                )) || (log[k].resource == second_of(worker, n) && hands == Some((false, true))),
            }
        }),
{
    let upto = log.take(k + 1);
    lemma_sound_prefix(log, k + 1, n);
    assert(upto.drop_last() =~= log.take(k));
    assert(upto.last() == log[k]);
    assert(upto[k] == log[k]);
    assert(hands_after(upto, log[k].worker as int, n) is Some);
}

/// Replays `log` on a ring of `n` and returns the position of the first event
/// that breaks soundness, or `None` for a sound trace.
pub fn audit(log: &Vec<Event>, n: usize) -> (flaw: Option<usize>)
    ensures
        flaw is None <==> sound(log@, n as int),
        flaw matches Some(k) ==> k < log.len() && sound(log@.take(k as int), n as int) && !sound(
            log@.take(k + 1),
            n as int,
        ),
{
    let mut states: Vec<ResourceState> = Vec::new();
    let mut hands: Vec<(bool, bool)> = Vec::new();
    let mut i: usize = 0;
    while i < n
        invariant
            i <= n,
            states.len() == i,
            hands.len() == i,
            forall|r: int| 0 <= r < i ==> states[r] == ResourceState::Available,
            forall|w: int| 0 <= w < i ==> hands[w] == (false, false),
        decreases n - i,
    {
        states.push(ResourceState::Available);
        hands.push((false, false));
        i += 1;
    }
    let mut k: usize = 0;
    assert(log@.take(0) =~= Seq::<Event>::empty());
    while k < log.len()
        invariant
            k <= log.len(),
            states.len() == n,
            hands.len() == n,
            sound(log@.take(k as int), n as int),
            forall|r: int|
                0 <= r < n ==> resource_after(log@.take(k as int), r) == Some(#[trigger] states[r]),
            forall|w: int|
                0 <= w < n ==> hands_after(log@.take(k as int), w, n as int) == Some(
                    #[trigger] hands[w],
                ),
        decreases log.len() - k,
    {
        let event = log[k];
        let ghost before = log@.take(k as int);
        let ghost after = log@.take(k + 1);
        let ghost old_states = states@;
        let ghost old_hands = hands@;
        proof {
            assert(after =~= before.push(event));
            lemma_resource_after_push(before, event, event.resource as int);
            lemma_hands_after_push(before, event, event.worker as int, n as int);
            if sound(log@, n as int) {
                lemma_sound_prefix(log@, k + 1, n as int);
            }
        }
        if event.worker >= n || event.resource >= n {
            assert(after[k as int] == event);
            return Some(k);
        }
        if k > 0 && log[k - 1].time > event.time {
            assert(after[k - 1] == log[k - 1] && after[k as int] == event);
            return Some(k);
        }
        let state = states[event.resource];
        let next_state = match (event.kind, state) {
            (EventKind::Acquired, ResourceState::Available) => ResourceState::Held,
            (EventKind::Released, ResourceState::Held) => ResourceState::Available,
            _ => {
                assert(resource_after(after, event.resource as int) is None);
                return Some(k);
            },
        };
        let first = first_resource(event.worker, n);
        let second = second_resource(event.worker, n);
        let held = hands[event.worker];
        let next_hands = match event.kind {
            EventKind::Acquired => if event.resource == first && !held.0 && !held.1 {
                (true, false)
            } else if event.resource == second && held.0 && !held.1 {
                (true, true)
            } else {
                assert(hands_after(after, event.worker as int, n as int) is None);
                return Some(k);
            },
            EventKind::Released => if event.resource == first && held.0 && held.1 {
                (false, true)
            } else if event.resource == second && !held.0 && held.1 {
                (false, false)
            } else {
                assert(hands_after(after, event.worker as int, n as int) is None);
                return Some(k);
            },
        };
        states.set(event.resource, next_state);
        hands.set(event.worker, next_hands);
        proof {
            assert forall|r: int| 0 <= r < n implies resource_after(after, r) == Some(
                #[trigger] states[r],
            ) by {
                lemma_resource_after_push(before, event, r);
                assert(resource_after(before, r) == Some(old_states[r]));
            }
            assert forall|w: int| 0 <= w < n implies hands_after(after, w, n as int) == Some(
                #[trigger] hands[w],
            ) by {
                lemma_hands_after_push(before, event, w, n as int);
                assert(hands_after(before, w, n as int) == Some(old_hands[w]));
            }
            assert forall|j: int, m: int| 0 <= j <= m < after.len() implies (#[trigger] after[j]).time
                <= (#[trigger] after[m]).time by {
                if m < k {
                    assert(after[j] == before[j] && after[m] == before[m]);
                } else if j < k {
                    assert(after[j] == before[j]);
                    assert(before[k - 1] == log[k - 1]);
                }
            }
            assert forall|m: int| 0 <= m < after.len() implies (#[trigger] after[m]).worker < n
                && after[m].resource < n by {
                if m < k {
                    assert(after[m] == before[m]);
                }
            }
            assert forall|r: int| 0 <= r < n implies (#[trigger] resource_after(after, r))
                is Some by {
                assert(resource_after(after, r) == Some(states[r]));
            }
            assert forall|w: int| 0 <= w < n implies (#[trigger] hands_after(after, w, n as int))
                is Some by {
                assert(hands_after(after, w, n as int) == Some(hands[w]));
            }
        }
        k += 1;
    }
    assert(log@.take(k as int) =~= log@);
    None
}

} // verus!
