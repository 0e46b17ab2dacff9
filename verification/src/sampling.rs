//! Weighted sampling, as mathematics.
//!
//! A pool is a sequence of entries. Laid end to end, the entries' weights
//! cover the numbers below the pool's total: the entry at `k` owns the numbers
//! from the weight before it up to, and not including, that weight plus its
//! own. A sample below the total is owned by exactly one entry.

use crate::pull::{PullType, PullView};
use vstd::prelude::*;
use vstd::set_lib::{lemma_int_range, set_int_range};

verus! {

/// The test that an entry has the tier `pull_type`.
pub open spec fn has_type(pull_type: PullType) -> spec_fn(PullView) -> bool {
    |p: PullView| p.pull_type == pull_type
}

/// The entries of `list` that have the tier `pull_type`, in their order.
pub open spec fn of_type(list: Seq<PullView>, pull_type: PullType) -> Seq<PullView> {
    list.filter(has_type(pull_type))
}

/// The sum of the weights of `pool`.
pub open spec fn total_chance(pool: Seq<PullView>) -> nat
    decreases pool.len(),
{
    if pool.len() == 0 {
        0
    } else {
        total_chance(pool.drop_last()) + pool.last().chance
    }
}

/// The sum of the weights of the first `k` entries of `pool`.
pub open spec fn chance_before(pool: Seq<PullView>, k: int) -> nat {
    total_chance(pool.take(k))
}

/// Whether the entry at `k` owns the sample `select`: the weights before it
/// do not exceed the sample, and together with its own they do.
pub open spec fn owns(pool: Seq<PullView>, k: int, select: nat) -> bool {
    &&& 0 <= k < pool.len()
    &&& chance_before(pool, k) <= select < chance_before(pool, k) + pool[k].chance
}

/// The position of the entry that owns `select`. It is the one such position
/// whenever `select` is below the pool's total (see [`lemma_owner`]).
pub open spec fn owner(pool: Seq<PullView>, select: nat) -> int {
    choose|k: int| owns(pool, k, select)
}

/// The samples that the entry at `k` owns.
pub open spec fn owned(pool: Seq<PullView>, k: int) -> Set<int> {
    Set::new(|select: int| select >= 0 && owns(pool, k, select as nat))
}

/// Whether every entry of `list` has a positive weight.
pub open spec fn all_positive(list: Seq<PullView>) -> bool {
    forall|i: int| 0 <= i < list.len() ==> (#[trigger] list[i]).chance > 0
}

/// Adding an entry at the end adds its weight to the total.
pub proof fn lemma_total_push(pool: Seq<PullView>, p: PullView)
    ensures
        total_chance(pool.push(p)) == total_chance(pool) + p.chance,
{
    assert(pool.push(p).drop_last() =~= pool);
}

/// The weight before a position grows by the entry at that position, starts
/// at nothing and ends at the total.
pub proof fn lemma_chance_before_step(pool: Seq<PullView>, k: int)
    requires
        0 <= k < pool.len(),
    ensures
        chance_before(pool, k + 1) == chance_before(pool, k) + pool[k].chance,
        chance_before(pool, 0) == 0,
        chance_before(pool, pool.len() as int) == total_chance(pool),
{
    assert(pool.take(k + 1).drop_last() =~= pool.take(k));
    assert(pool.take(pool.len() as int) =~= pool);
}

/// The weight before a position never shrinks as the position moves on.
pub proof fn lemma_chance_before_grows(pool: Seq<PullView>, j: int, k: int)
    requires
        0 <= j <= k <= pool.len(),
    ensures
        chance_before(pool, j) <= chance_before(pool, k),
    decreases k - j,
{
    if j < k {
        lemma_chance_before_grows(pool, j, k - 1);
        lemma_chance_before_step(pool, k - 1);
    }
}

/// No two entries own the same sample.
pub proof fn lemma_owns_unique(pool: Seq<PullView>, j: int, k: int, select: nat)
    requires
        owns(pool, j, select),
        owns(pool, k, select),
    ensures
        j == k,
{
    if j < k {
        lemma_chance_before_step(pool, j);
        lemma_chance_before_grows(pool, j + 1, k);
    } else if k < j {
        lemma_chance_before_step(pool, k);
        lemma_chance_before_grows(pool, k + 1, j);
    }
}

/// Every sample below the total is owned by some entry.
pub proof fn lemma_owns_exists(pool: Seq<PullView>, select: nat) -> (k: int)
    requires
        select < total_chance(pool),
    ensures
        owns(pool, k, select),
    decreases pool.len(),
{
    let last = pool.len() - 1;
    lemma_chance_before_step(pool, last);
    assert(pool.take(last) =~= pool.drop_last());
    if select < total_chance(pool.drop_last()) {
        let k = lemma_owns_exists(pool.drop_last(), select);
        assert(pool.drop_last().take(k) =~= pool.take(k));
        k
    } else {
        last
    }
}

/// A sample that some entry owns lies below the total.
pub proof fn lemma_owned_is_below_total(pool: Seq<PullView>, k: int, select: nat)
    requires
        owns(pool, k, select),
    ensures
        select < total_chance(pool),
{
    lemma_chance_before_step(pool, k);
    lemma_chance_before_grows(pool, k + 1, pool.len() as int);
}

/// The owner of a sample below the total owns it, carries a positive weight,
/// and is the only entry that owns it.
pub proof fn lemma_owner(pool: Seq<PullView>, select: nat)
    requires
        select < total_chance(pool),
    ensures
        owns(pool, owner(pool, select), select),
        pool[owner(pool, select)].chance > 0,
        forall|k: int| owns(pool, k, select) ==> k == owner(pool, select),
{
    let w = lemma_owns_exists(pool, select);
    assert forall|k: int| owns(pool, k, select) implies k == owner(pool, select) by {
        lemma_owns_unique(pool, k, owner(pool, select), select);
    }
}

/// An entry owns as many samples as its weight says, all of them below the
/// pool's total. So a sample drawn evenly from below the total falls to an
/// entry with the share that its weight has in the total.
pub proof fn law_owned_share(pool: Seq<PullView>, k: int)
    requires
        0 <= k < pool.len(),
    ensures
        owned(pool, k).finite(),
        owned(pool, k).len() == pool[k].chance,
        forall|select: int| #[trigger] owned(pool, k).contains(select) ==> 0 <= select < total_chance(pool),
{
    let low = chance_before(pool, k) as int;
    let high = low + pool[k].chance;
    lemma_int_range(low, high);
    assert(owned(pool, k) =~= set_int_range(low, high));
    assert forall|select: int| #[trigger] owned(pool, k).contains(select) implies 0 <= select
        < total_chance(pool) by {
        lemma_owned_is_below_total(pool, k, select as nat);
    }
}

/// A pool of positive weights has a positive total as soon as it holds an
/// entry.
pub proof fn lemma_total_positive(pool: Seq<PullView>)
    requires
        all_positive(pool),
        pool.len() > 0,
    ensures
        total_chance(pool) > 0,
{
    assert(pool.last().chance > 0);
}

/// A total is at most the number of entries times the largest weight.
pub proof fn lemma_total_bound(pool: Seq<PullView>, most: nat)
    requires
        forall|i: int| 0 <= i < pool.len() ==> (#[trigger] pool[i]).chance <= most,
    ensures
        total_chance(pool) <= pool.len() * most,
    decreases pool.len(),
{
    if pool.len() > 0 {
        lemma_total_bound(pool.drop_last(), most);
        assert(pool.last().chance <= most);
        assert((pool.len() - 1) * most + most == pool.len() * most) by (nonlinear_arith);
    }
}

/// The entries of one tier among the first `i + 1` of a list are those among
/// the first `i`, followed by the entry at `i` if it has that tier.
pub proof fn lemma_of_type_step(list: Seq<PullView>, pull_type: PullType, i: int)
    requires
        0 <= i < list.len(),
    ensures
        of_type(list.take(i + 1), pull_type) == if list[i].pull_type == pull_type {
            of_type(list.take(i), pull_type).push(list[i])
        } else {
            of_type(list.take(i), pull_type)
        },
{
    reveal(Seq::filter);
    assert(list.take(i + 1).drop_last() =~= list.take(i));
}

/// No entry of any tier is among the first none of a list.
pub proof fn lemma_of_type_none(list: Seq<PullView>, pull_type: PullType)
    ensures
        of_type(list.take(0), pull_type) == Seq::<PullView>::empty(),
        total_chance(of_type(list.take(0), pull_type)) == 0,
{
    reveal(Seq::filter);
    assert(list.take(0) =~= Seq::<PullView>::empty());
}

/// The entries of one tier among a prefix of a list are a prefix of the
/// entries of that tier in the whole list.
pub proof fn lemma_of_type_prefix(list: Seq<PullView>, pull_type: PullType, i: int)
    requires
        0 <= i <= list.len(),
    ensures
        of_type(list.take(i), pull_type).len() <= of_type(list, pull_type).len(),
        of_type(list.take(i), pull_type) == of_type(list, pull_type).take(
            of_type(list.take(i), pull_type).len() as int,
        ),
{
    let pred = has_type(pull_type);
    let head = list.take(i);
    let tail = list.skip(i);
    assert(head + tail =~= list);
    Seq::filter_distributes_over_add(head, tail, pred);
    assert((head.filter(pred) + tail.filter(pred)).take(head.filter(pred).len() as int)
        =~= head.filter(pred));
}

/// Every entry of a tier's pool has that tier and comes from the list; every
/// entry of the list with that tier is in the pool.
pub proof fn lemma_of_type_members(list: Seq<PullView>, pull_type: PullType)
    ensures
        forall|k: int|
            0 <= k < of_type(list, pull_type).len() ==> {
                &&& (#[trigger] of_type(list, pull_type)[k]).pull_type == pull_type
                &&& list.contains(of_type(list, pull_type)[k])
            },
        forall|i: int|
            0 <= i < list.len() && list[i].pull_type == pull_type ==> of_type(
                list,
                pull_type,
            ).contains(#[trigger] list[i]),
        of_type(list, pull_type).len() <= list.len(),
{
    let pred = has_type(pull_type);
    assert forall|k: int| 0 <= k < of_type(list, pull_type).len() implies {
        &&& (#[trigger] of_type(list, pull_type)[k]).pull_type == pull_type
        &&& list.contains(of_type(list, pull_type)[k])
    } by {
        list.lemma_filter_pred(pred, k);
        list.lemma_filter_contains_rev(pred, of_type(list, pull_type)[k]);
    }
    assert forall|i: int|
        0 <= i < list.len() && list[i].pull_type == pull_type implies of_type(
        list,
        pull_type,
    ).contains(#[trigger] list[i]) by {
        list.lemma_filter_contains(pred, i);
    }
    list.lemma_filter_len(pred);
}

} // verus!
