//! The guarantees of the regression, stated over the model that the engine's
//! contracts pin down. Pooled values are exact ratios, so every comparison of
//! two pooled values is written by cross-multiplication of `num / den` pairs,
//! which agrees with the rational comparison because every `den` is positive.

use vstd::prelude::*;

use crate::lemmas::{
    lemma_adjacent_pools, lemma_monotone_singletons, lemma_pava_props, lemma_pool_end_le,
    lemma_pool_in_bounds, lemma_pool_of_in_range, lemma_pool_of_unique, lemma_sum_containment,
    lemma_weight_conserved,
};
use crate::model::{
    dens_upto, max_val, min_val, monotone_input, pava_pools, pool_end, pool_index, pool_of,
    pooled_at, radial_pooled_at, singleton, valid_input, violation, wsum,
};
use crate::ordering::Ordering;

verus! {

/// Monotonicity: the pooled values at adjacent positions satisfy the required
/// direction non-strictly — for `Increasing` the earlier value is at most the
/// later one, for `Decreasing` at least it.
pub proof fn lemma_monotonicity(values: Seq<i64>, weights: Seq<u64>, d: Ordering, i: int)
    requires
        valid_input(values, weights),
        0 <= i,
        i + 1 < values.len(),
    ensures
        ({
            let a = pooled_at(values, weights, d, i);
            let b = pooled_at(values, weights, d, i + 1);
            &&& a.den > 0
            &&& b.den > 0
            &&& d == Ordering::Increasing ==> a.num * b.den <= b.num * a.den
            &&& d == Ordering::Decreasing ==> a.num * b.den >= b.num * a.den
        }),
{
    let n = values.len() as int;
    let pools = pava_pools(values, weights, d, n);
    lemma_pava_props(values, weights, d, n);
    lemma_pool_of_in_range(values, weights, pools, n, i);
    lemma_pool_of_in_range(values, weights, pools, n, i + 1);
    lemma_adjacent_pools(values, weights, pools, n, i);
    let k = pool_of(pools, i);
    let k2 = pool_of(pools, i + 1);
    lemma_pool_in_bounds(values, weights, pools, n, k);
    lemma_pool_in_bounds(values, weights, pools, n, k2);
    if k2 == k + 1 {
        assert(!violation(d, pools[k], pools[k + 1]));
    }
}

/// Weight conservation: the weight sums of the distinct pools add up to the
/// sum of all input weights — merging neither creates nor destroys weight.
pub proof fn lemma_weight_conservation(values: Seq<i64>, weights: Seq<u64>, d: Ordering)
    requires
        valid_input(values, weights),
        values.len() >= 1,
    ensures
        ({
            let pools = pava_pools(values, weights, d, values.len() as int);
            dens_upto(pools, pools.len() as int) == wsum(weights, 0, values.len() as int)
        }),
{
    let n = values.len() as int;
    lemma_pava_props(values, weights, d, n);
    lemma_weight_conserved(values, weights, pava_pools(values, weights, d, n), n);
}

/// Pool homogeneity: two positions covered by the same pool report the same
/// pooled value and the same pooled weight.
pub proof fn lemma_pool_homogeneity(values: Seq<i64>, weights: Seq<u64>, d: Ordering, i: int, j: int)
    requires
        valid_input(values, weights),
        0 <= i < values.len(),
        0 <= j < values.len(),
        pool_index(values, weights, d, i) == pool_index(values, weights, d, j),
    ensures
        pooled_at(values, weights, d, i) == pooled_at(values, weights, d, j),
{
}

/// Range containment: each pooled value lies between the smallest and the
/// largest original value of the range merged into it — scaled by the pool's
/// positive weight sum, since the pooled value is the ratio `num / den`.
pub proof fn lemma_range_containment(values: Seq<i64>, weights: Seq<u64>, d: Ordering, i: int)
    requires
        valid_input(values, weights),
        0 <= i < values.len(),
    ensures
        ({
            let pools = pava_pools(values, weights, d, values.len() as int);
            let k = pool_of(pools, i);
            let p = pools[k];
            let e = pool_end(pools, k, values.len() as int);
            &&& p.start <= i < e
            &&& e <= values.len()
            &&& p.den >= 1
            &&& min_val(values, p.start, e) * p.den <= p.num
            &&& p.num <= max_val(values, p.start, e) * p.den
        }),
{
    let n = values.len() as int;
    let pools = pava_pools(values, weights, d, n);
    lemma_pava_props(values, weights, d, n);
    lemma_pool_of_in_range(values, weights, pools, n, i);
    let k = pool_of(pools, i);
    lemma_pool_end_le(values, weights, pools, n, k);
    lemma_pool_in_bounds(values, weights, pools, n, k);
    lemma_sum_containment(values, weights, pools[k].start, pool_end(pools, k, n));
}

/// Idempotence on already-monotone input: when the input satisfies the
/// direction, no merge fires, every pool is a singleton, and every position
/// reports its own value and weight unchanged (as the ratio
/// `(w * x) / w == x`).
pub proof fn lemma_idempotent_on_monotone(values: Seq<i64>, weights: Seq<u64>, d: Ordering)
    requires
        valid_input(values, weights),
        values.len() >= 1,
        monotone_input(values, d),
    ensures
        pava_pools(values, weights, d, values.len() as int).len() == values.len(),
        forall|i: int|
            0 <= i < values.len() ==> pooled_at(values, weights, d, i) == singleton(
                values,
                weights,
                i,
            ),
{
    let n = values.len() as int;
    lemma_monotone_singletons(values, weights, d, n);
    lemma_pava_props(values, weights, d, n);
    let pools = pava_pools(values, weights, d, n);
    assert forall|i: int| 0 <= i < n implies pooled_at(values, weights, d, i) == singleton(
        values,
        weights,
        i,
    ) by {
        assert(pools[i] == singleton(values, weights, i));
        if i + 1 < n {
            assert(pools[i + 1] == singleton(values, weights, i + 1));
        }
        assert(pool_end(pools, i, n) == i + 1);
        lemma_pool_of_unique(values, weights, pools, n, i, i);
    }
}

/// Radial degenerate case: splitting at the lowest position makes the radial
/// fit a single plain fit of the whole input in the given direction.
pub proof fn lemma_radial_center_zero(values: Seq<i64>, weights: Seq<u64>, d: Ordering, i: int)
    requires
        valid_input(values, weights),
        0 <= i < values.len(),
    ensures
        radial_pooled_at(values, weights, 0, d, i) == pooled_at(values, weights, d, i),
{
    assert(values.subrange(0, values.len() as int) =~= values);
    assert(weights.subrange(0, weights.len() as int) =~= weights);
}

/// Radial degenerate case: splitting past the highest position makes the
/// radial fit a single plain fit of the whole input in the complement
/// direction.
pub proof fn lemma_radial_center_full(values: Seq<i64>, weights: Seq<u64>, d: Ordering, i: int)
    requires
        valid_input(values, weights),
        0 <= i < values.len(),
    ensures
        radial_pooled_at(values, weights, values.len() as int, d, i) == pooled_at(
            values,
            weights,
            d.complement_spec(),
            i,
        ),
{
    assert(values.subrange(0, values.len() as int) =~= values);
    assert(weights.subrange(0, weights.len() as int) =~= weights);
}

/// Radial shape: within the left arm the pooled values follow the complement
/// direction, within the right arm the given direction; nothing relates the
/// two values at the boundary, and the center position belongs to the right
/// arm only.
pub proof fn lemma_radial_shape(values: Seq<i64>, weights: Seq<u64>, c: int, d: Ordering, i: int)
    requires
        valid_input(values, weights),
        0 <= c <= values.len(),
        0 <= i,
        i + 1 < values.len(),
    ensures
        i + 1 < c ==> ({
            let a = radial_pooled_at(values, weights, c, d, i);
            let b = radial_pooled_at(values, weights, c, d, i + 1);
            &&& a.den > 0
            &&& b.den > 0
            &&& d == Ordering::Increasing ==> a.num * b.den >= b.num * a.den
            &&& d == Ordering::Decreasing ==> a.num * b.den <= b.num * a.den
        }),
        c <= i ==> ({
            let a = radial_pooled_at(values, weights, c, d, i);
            let b = radial_pooled_at(values, weights, c, d, i + 1);
            &&& a.den > 0
            &&& b.den > 0
            &&& d == Ordering::Increasing ==> a.num * b.den <= b.num * a.den
            &&& d == Ordering::Decreasing ==> a.num * b.den >= b.num * a.den
        }),
{
    if i + 1 < c {
        let lv = values.subrange(0, c);
        let lw = weights.subrange(0, c);
        assert(valid_input(lv, lw));
        lemma_monotonicity(lv, lw, d.complement_spec(), i);
    } else if c <= i {
        let rv = values.subrange(c, values.len() as int);
        let rw = weights.subrange(c, weights.len() as int);
        assert(valid_input(rv, rw));
        lemma_monotonicity(rv, rw, d, i - c);
    }
}

} // verus!
