//! Sums of sequences of natural numbers.

use vstd::prelude::*;

verus! {

/// The sum of a sequence of natural numbers.
pub open spec fn sum(values: Seq<nat>) -> nat
    decreases values.len(),
{
    if values.len() == 0 {
        0
    } else {
        sum(values.drop_last()) + values.last()
    }
}

/// Two sequences that differ at one position only have sums that differ by as
/// much as the two entries there.
pub proof fn lemma_sum_differs_at(a: Seq<nat>, b: Seq<nat>, i: int)
    requires
        a.len() == b.len(),
        0 <= i < a.len(),
        forall|j: int| 0 <= j < a.len() && j != i ==> a[j] == b[j],
    ensures
        sum(a) - a[i] == sum(b) - b[i],
    decreases a.len(),
{
    if i == a.len() - 1 {
        assert(a.drop_last() =~= b.drop_last());
    } else {
        lemma_sum_differs_at(a.drop_last(), b.drop_last(), i);
    }
}

/// A sequence that is nowhere larger than another has no larger a sum.
pub proof fn lemma_sum_monotone(a: Seq<nat>, b: Seq<nat>)
    requires
        a.len() == b.len(),
        forall|j: int| 0 <= j < a.len() ==> a[j] <= b[j],
    ensures
        sum(a) <= sum(b),
    decreases a.len(),
{
    if a.len() > 0 {
        lemma_sum_monotone(a.drop_last(), b.drop_last());
    }
}

/// The sum of the first `k + 1` entries is the sum of the first `k` and the
/// entry at `k`.
pub proof fn lemma_sum_take(a: Seq<nat>, k: int)
    requires
        0 <= k < a.len(),
    ensures
        sum(a.take(k + 1)) == sum(a.take(k)) + a[k],
{
    assert(a.take(k + 1).drop_last() =~= a.take(k));
}

/// The sum of the first `k` entries is no more than the sum of all.
pub proof fn lemma_sum_prefix(a: Seq<nat>, k: int)
    requires
        0 <= k <= a.len(),
    ensures
        sum(a.take(k)) <= sum(a),
    decreases a.len() - k,
{
    if k == a.len() {
        assert(a.take(k) =~= a);
    } else {
        lemma_sum_take(a, k);
        lemma_sum_prefix(a, k + 1);
    }
}

/// Where no entry grows by more than one, the sum grows by no more than the
/// length.
pub proof fn lemma_sum_plus_one(a: Seq<nat>, b: Seq<nat>)
    requires
        a.len() == b.len(),
        forall|j: int| 0 <= j < a.len() ==> b[j] <= a[j] + 1,
    ensures
        sum(b) <= sum(a) + a.len(),
    decreases a.len(),
{
    if a.len() > 0 {
        lemma_sum_plus_one(a.drop_last(), b.drop_last());
    }
}

/// A sequence whose entries are the sums of the entries of two others has the
/// sum of their sums.
pub proof fn lemma_sum_added(a: Seq<nat>, b: Seq<nat>, both: Seq<nat>)
    requires
        a.len() == both.len(),
        b.len() == both.len(),
        forall|j: int| 0 <= j < both.len() ==> both[j] == a[j] + b[j],
    ensures
        sum(both) == sum(a) + sum(b),
    decreases both.len(),
{
    if both.len() > 0 {
        lemma_sum_added(a.drop_last(), b.drop_last(), both.drop_last());
    }
}

/// One entry in front adds itself to the sum.
pub proof fn lemma_sum_front(head: nat, rest: Seq<nat>)
    ensures
        sum(seq![head] + rest) == head + sum(rest),
    decreases rest.len(),
{
    let all = seq![head] + rest;
    if rest.len() == 0 {
        assert(all.drop_last() =~= Seq::<nat>::empty());
        assert(sum(all.drop_last()) == 0);
        assert(all.last() == head);
    } else {
        lemma_sum_front(head, rest.drop_last());
        assert(all.drop_last() =~= seq![head] + rest.drop_last());
        assert(all.last() == rest.last());
    }
}

/// Moving every entry one place on, and the last one to the front, keeps the
/// sum.
pub proof fn lemma_sum_rotated(a: Seq<nat>, turned: Seq<nat>)
    requires
        0 < a.len() == turned.len(),
        turned[0] == a.last(),
        forall|j: int| 1 <= j < a.len() ==> turned[j] == a[j - 1],
    ensures
        sum(turned) == sum(a),
{
    lemma_sum_front(a.last(), a.drop_last());
    assert(turned =~= seq![a.last()] + a.drop_last());
}

/// Zeros sum up to zero.
pub proof fn lemma_sum_of_zeros(a: Seq<nat>)
    requires
        forall|j: int| 0 <= j < a.len() ==> a[j] == 0,
    ensures
        sum(a) == 0,
    decreases a.len(),
{
    if a.len() > 0 {
        lemma_sum_of_zeros(a.drop_last());
    }
}

/// Entries that are four times those of another sequence sum up to four times
/// its sum.
pub proof fn lemma_sum_fourfold(a: Seq<nat>, four: Seq<nat>)
    requires
        a.len() == four.len(),
        forall|j: int| 0 <= j < a.len() ==> four[j] == 4 * a[j],
    ensures
        sum(four) == 4 * sum(a),
    decreases a.len(),
{
    if a.len() > 0 {
        lemma_sum_fourfold(a.drop_last(), four.drop_last());
    }
}

/// Entries that are zero or one sum up to no more than their number.
pub proof fn lemma_sum_of_bits(a: Seq<nat>)
    requires
        forall|j: int| 0 <= j < a.len() ==> a[j] <= 1,
    ensures
        sum(a) <= a.len(),
    decreases a.len(),
{
    if a.len() > 0 {
        lemma_sum_of_bits(a.drop_last());
    }
}

} // verus!
