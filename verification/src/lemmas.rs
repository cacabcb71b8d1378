//! Structural facts about the pool model: how the weighted sums split and how
//! they are bounded, and that the pool stack produced by `pava_pools` is well
//! formed and ordered. The laws exposed to callers build on these.

use vstd::prelude::*;

use crate::model::{
    dens_upto, max_val, merged, min_val, monotone_input, pava_pools, pool_end, pool_in_bounds,
    pool_of, pools_ordered, pools_wf, settle, singleton, valid_input, violation, wsum, wxsum, Pool,
    MAX_DEN, MAX_LEN, MAX_NUM, MAX_VALUE, MAX_WEIGHT,
};
use crate::ordering::Ordering;

verus! {

/// A product of two bounded factors is bounded by the product of the bounds.
pub proof fn lemma_abs_mul_le(x: int, y: int, a: int, b: int)
    by (nonlinear_arith)
    requires
        -a <= x <= a,
        0 <= y <= b,
    ensures
        -(a * b) <= x * y <= a * b,
        -(a * b) <= y * x <= a * b,
{
}

/// Splitting a weight sum at any point in the range adds the parts.
pub proof fn lemma_wsum_concat(weights: Seq<u64>, s: int, m: int, e: int)
    requires
        s <= m <= e,
    ensures
        wsum(weights, s, e) == wsum(weights, s, m) + wsum(weights, m, e),
    decreases m - s,
{
    if s < m {
        lemma_wsum_concat(weights, s + 1, m, e);
    }
}

/// Splitting a weighted value sum at any point in the range adds the parts.
pub proof fn lemma_wxsum_concat(values: Seq<i64>, weights: Seq<u64>, s: int, m: int, e: int)
    requires
        s <= m <= e,
    ensures
        wxsum(values, weights, s, e) == wxsum(values, weights, s, m) + wxsum(values, weights, m, e),
    decreases m - s,
{
    if s < m {
        lemma_wxsum_concat(values, weights, s + 1, m, e);
    }
}

/// Over valid input, a weight sum over `[s, e)` lies between the length of
/// the range and the length times the largest weight.
pub proof fn lemma_wsum_bounds(values: Seq<i64>, weights: Seq<u64>, s: int, e: int)
    requires
        valid_input(values, weights),
        0 <= s <= e <= weights.len(),
    ensures
        e - s <= wsum(weights, s, e) <= (e - s) * (MAX_WEIGHT as int),
    decreases e - s,
{
    if s < e {
        lemma_wsum_bounds(values, weights, s + 1, e);
    }
}

/// Over valid input, a weighted value sum over `[s, e)` is bounded in
/// magnitude by the range length times the largest weight times the largest
/// value magnitude.
pub proof fn lemma_wxsum_bounds(values: Seq<i64>, weights: Seq<u64>, s: int, e: int)
    requires
        valid_input(values, weights),
        0 <= s <= e <= weights.len(),
    ensures
        -((e - s) * (MAX_WEIGHT as int) * (MAX_VALUE as int)) <= wxsum(values, weights, s, e) <= (e
            - s) * (MAX_WEIGHT as int) * (MAX_VALUE as int),
    decreases e - s,
{
    if s < e {
        lemma_wxsum_bounds(values, weights, s + 1, e);
        lemma_abs_mul_le(values[s] as int, weights[s] as int, MAX_VALUE as int, MAX_WEIGHT as int);
    }
}

/// Every pool of a well-formed stack covers a range that ends by `n`.
pub proof fn lemma_pool_end_le(
    values: Seq<i64>,
    weights: Seq<u64>,
    pools: Seq<Pool>,
    n: int,
    k: int,
)
    requires
        pools_wf(values, weights, pools, n),
        0 <= k < pools.len(),
    ensures
        pool_end(pools, k, n) <= n,
        pools[k].start < n,
    decreases pools.len() - k,
{
    if k + 1 < pools.len() {
        lemma_pool_end_le(values, weights, pools, n, k + 1);
    }
}

/// In a well-formed stack every pool starts at or after its own index.
pub proof fn lemma_start_ge_index(
    values: Seq<i64>,
    weights: Seq<u64>,
    pools: Seq<Pool>,
    n: int,
    k: int,
)
    requires
        pools_wf(values, weights, pools, n),
        0 <= k < pools.len(),
    ensures
        pools[k].start >= k,
    decreases k,
{
    if k > 0 {
        lemma_start_ge_index(values, weights, pools, n, k - 1);
    }
}

/// Pool starts strictly increase along a well-formed stack.
#[verifier::rlimit(50)]
pub proof fn lemma_starts_increasing(
    values: Seq<i64>,
    weights: Seq<u64>,
    pools: Seq<Pool>,
    n: int,
    k1: int,
    k2: int,
)
    requires
        pools_wf(values, weights, pools, n),
        0 <= k1 < k2 < pools.len(),
    ensures
        pools[k1].start < pools[k2].start,
    decreases k2 - k1,
{
    if k1 + 1 < k2 {
        lemma_starts_increasing(values, weights, pools, n, k1 + 1, k2);
    }
}

/// Over valid input, every pool of a well-formed stack carries sums within
/// the fixed engine bounds.
pub proof fn lemma_pool_in_bounds(
    values: Seq<i64>,
    weights: Seq<u64>,
    pools: Seq<Pool>,
    n: int,
    k: int,
)
    requires
        valid_input(values, weights),
        pools_wf(values, weights, pools, n),
        0 <= n <= values.len(),
        0 <= k < pools.len(),
    ensures
        pool_in_bounds(pools[k]),
{
    let s = pools[k].start;
    let e = pool_end(pools, k, n);
    lemma_pool_end_le(values, weights, pools, n, k);
    lemma_wsum_bounds(values, weights, s, e);
    lemma_wxsum_bounds(values, weights, s, e);
    assert((e - s) * (MAX_WEIGHT as int) <= MAX_DEN as int) by {
        lemma_abs_mul_le(e - s, MAX_WEIGHT as int, MAX_LEN as int, MAX_WEIGHT as int);
    }
    assert((e - s) * (MAX_WEIGHT as int) * (MAX_VALUE as int) <= MAX_NUM as int) by {
        lemma_abs_mul_le(
            (e - s) * (MAX_WEIGHT as int),
            MAX_VALUE as int,
            MAX_LEN as int * MAX_WEIGHT as int,
            MAX_VALUE as int,
        );
    }
}

/// Pushing the singleton pool of observation `n` onto a stack that is well
/// formed for the first `n` observations gives a stack well formed for the
/// first `n + 1`.
pub proof fn lemma_push_wf(values: Seq<i64>, weights: Seq<u64>, st: Seq<Pool>, n: int)
    requires
        pools_wf(values, weights, st, n),
        0 <= n < values.len(),
        values.len() == weights.len(),
    ensures
        pools_wf(values, weights, st.push(singleton(values, weights, n)), n + 1),
{
    let t = st.push(singleton(values, weights, n));
    let l = st.len() as int;
    assert(wxsum(values, weights, n + 1, n + 1) == 0);
    assert(wsum(weights, n + 1, n + 1) == 0);
    assert(t[l].num == wxsum(values, weights, n, n + 1));
    assert(t[l].den == wsum(weights, n, n + 1));
    assert forall|k: int| 0 <= k < l implies {
        &&& pool_end(t, k, n + 1) == pool_end(st, k, n)
        &&& t[k] == st[k]
    } by {
        if k + 1 < l {
            assert(t[k + 1] == st[k + 1]);
        } else {
            assert(t[k + 1] == singleton(values, weights, n));
        }
    }
}

/// Merging the top two pools of a well-formed stack of at least two pools
/// keeps the stack well formed: the merged pool covers the union of the two
/// ranges, and the split sums add up to the sums over the union.
pub proof fn lemma_merge_wf(values: Seq<i64>, weights: Seq<u64>, st: Seq<Pool>, n: int)
    requires
        pools_wf(values, weights, st, n),
        st.len() >= 2,
    ensures
        pools_wf(
            values,
            weights,
            st.subrange(0, st.len() - 2).push(merged(st[st.len() - 2], st[st.len() - 1])),
            n,
        ),
{
    let l = st.len() as int;
    let m = merged(st[l - 2], st[l - 1]);
    let t = st.subrange(0, l - 2).push(m);
    assert(pool_end(st, l - 2, n) == st[l - 1].start);
    assert(pool_end(st, l - 1, n) == n);
    lemma_wxsum_concat(values, weights, st[l - 2].start, st[l - 1].start, n);
    lemma_wsum_concat(weights, st[l - 2].start, st[l - 1].start, n);
    assert(t[l - 2] == m);
    assert(m.num == wxsum(values, weights, m.start, n));
    assert(m.den == wsum(weights, m.start, n));
    assert forall|k: int| 0 <= k < l - 2 implies {
        &&& pool_end(t, k, n) == pool_end(st, k, n)
        &&& t[k] == st[k]
    } by {
        if k + 1 < l - 2 {
            assert(t[k + 1] == st[k + 1]);
        } else {
            assert(t[k + 1] == m);
        }
    }
}

/// Settling a well-formed stack whose pools below the top are already ordered
/// yields a well-formed, fully ordered stack of at least one pool (when the
/// input stack has one).
pub proof fn lemma_settle_props(
    values: Seq<i64>,
    weights: Seq<u64>,
    d: Ordering,
    st: Seq<Pool>,
    n: int,
)
    requires
        pools_wf(values, weights, st, n),
        pools_ordered(d, st.drop_last()),
    ensures
        pools_wf(values, weights, settle(d, st), n),
        pools_ordered(d, settle(d, st)),
    decreases st.len(),
{
    let l = st.len() as int;
    if l >= 2 && violation(d, st[l - 2], st[l - 1]) {
        let t = st.subrange(0, l - 2).push(merged(st[l - 2], st[l - 1]));
        lemma_merge_wf(values, weights, st, n);
        assert forall|k: int| 0 <= k && k + 1 < t.drop_last().len() implies !violation(
            d,
            #[trigger] t.drop_last()[k],
            t.drop_last()[k + 1],
        ) by {
            assert(t.drop_last()[k] == st.drop_last()[k]);
            assert(t.drop_last()[k + 1] == st.drop_last()[k + 1]);
            assert(!violation(d, st.drop_last()[k], st.drop_last()[k + 1]));
        }
        lemma_settle_props(values, weights, d, t, n);
        assert(settle(d, st) == settle(d, t));
    } else {
        assert(settle(d, st) == st);
        assert forall|k: int| 0 <= k && k + 1 < l implies !violation(
            d,
            #[trigger] st[k],
            st[k + 1],
        ) by {
            if k + 1 < l - 1 {
                assert(st.drop_last()[k] == st[k]);
                assert(st.drop_last()[k + 1] == st[k + 1]);
                assert(!violation(d, st.drop_last()[k], st.drop_last()[k + 1]));
            }
        }
    }
}

/// The stack `pava_pools` produces for any prefix of valid input is well
/// formed and ordered: its pools partition the prefix, carry the exact sums
/// of their ranges, and nowhere violate the required direction.
pub proof fn lemma_pava_props(values: Seq<i64>, weights: Seq<u64>, d: Ordering, n: int)
    requires
        valid_input(values, weights),
        0 <= n <= values.len(),
    ensures
        pools_wf(values, weights, pava_pools(values, weights, d, n), n),
        pools_ordered(d, pava_pools(values, weights, d, n)),
    decreases n,
{
    if n > 0 {
        lemma_pava_props(values, weights, d, n - 1);
        let prev = pava_pools(values, weights, d, n - 1);
        lemma_push_wf(values, weights, prev, n - 1);
        let pushed = prev.push(singleton(values, weights, n - 1));
        assert(pushed.drop_last() =~= prev);
        lemma_settle_props(values, weights, d, pushed, n);
    }
}

/// Dropping the last pool of a well-formed stack leaves a stack well formed
/// for the prefix that ends where the dropped pool started.
pub proof fn lemma_wf_drop_last(values: Seq<i64>, weights: Seq<u64>, pools: Seq<Pool>, n: int)
    requires
        pools_wf(values, weights, pools, n),
        pools.len() >= 2,
    ensures
        pools_wf(values, weights, pools.drop_last(), pools.last().start),
{
    let l = pools.len() as int;
    let t = pools.drop_last();
    let n2 = pools.last().start;
    lemma_start_ge_index(values, weights, pools, n, l - 1);
    assert forall|k: int| 0 <= k < l - 1 implies {
        &&& pool_end(t, k, n2) == pool_end(pools, k, n)
        &&& t[k] == pools[k]
    } by {
        if k + 1 < l - 1 {
            assert(t[k + 1] == pools[k + 1]);
        }
    }
}

/// `pool_of` finds a pool whose range really covers the position.
pub proof fn lemma_pool_of_in_range(
    values: Seq<i64>,
    weights: Seq<u64>,
    pools: Seq<Pool>,
    n: int,
    i: int,
)
    requires
        pools_wf(values, weights, pools, n),
        0 <= i < n,
    ensures
        0 <= pool_of(pools, i) < pools.len(),
        pools[pool_of(pools, i)].start <= i < pool_end(pools, pool_of(pools, i), n),
    decreases pools.len(),
{
    let l = pools.len() as int;
    if l >= 2 && i < pools[l - 1].start {
        lemma_wf_drop_last(values, weights, pools, n);
        lemma_pool_of_in_range(values, weights, pools.drop_last(), pools.last().start, i);
        let k = pool_of(pools.drop_last(), i);
        assert(pool_of(pools, i) == k);
        assert(pools.drop_last()[k] == pools[k]);
        if k + 1 < l - 1 {
            assert(pools.drop_last()[k + 1] == pools[k + 1]);
        }
    }
}

/// A position determines its pool: any pool whose range contains the
/// position is the one `pool_of` finds.
pub proof fn lemma_pool_of_unique(
    values: Seq<i64>,
    weights: Seq<u64>,
    pools: Seq<Pool>,
    n: int,
    k: int,
    i: int,
)
    requires
        pools_wf(values, weights, pools, n),
        0 <= k < pools.len(),
        pools[k].start <= i < pool_end(pools, k, n),
    ensures
        pool_of(pools, i) == k,
    decreases pools.len(),
{
    let l = pools.len() as int;
    if k == l - 1 {
        if l >= 2 {
            assert(!(i < pools[l - 1].start));
        }
    } else {
        assert(pool_end(pools, k, n) == pools[k + 1].start);
        if k + 1 < l - 1 {
            lemma_starts_increasing(values, weights, pools, n, k + 1, l - 1);
        }
        assert(i < pools[l - 1].start);
        lemma_wf_drop_last(values, weights, pools, n);
        assert(pools.drop_last()[k] == pools[k]);
        if k + 1 < l - 1 {
            assert(pools.drop_last()[k + 1] == pools[k + 1]);
            assert(pool_end(pools.drop_last(), k, pools.last().start) == pools[k + 1].start);
        } else {
            assert(pool_end(pools.drop_last(), k, pools.last().start) == pools.last().start);
        }
        lemma_pool_of_unique(values, weights, pools.drop_last(), pools.last().start, k, i);
    }
}

/// Adjacent positions fall in the same pool or in adjacent pools.
pub proof fn lemma_adjacent_pools(
    values: Seq<i64>,
    weights: Seq<u64>,
    pools: Seq<Pool>,
    n: int,
    i: int,
)
    requires
        pools_wf(values, weights, pools, n),
        0 <= i,
        i + 1 < n,
    ensures
        pool_of(pools, i + 1) == pool_of(pools, i) || pool_of(pools, i + 1) == pool_of(pools, i)
            + 1,
{
    let k = pool_of(pools, i);
    lemma_pool_of_in_range(values, weights, pools, n, i);
    if i + 1 < pool_end(pools, k, n) {
        lemma_pool_of_unique(values, weights, pools, n, k, i + 1);
    } else {
        assert(k + 1 < pools.len());
        assert(pools[k + 1].start == pool_end(pools, k, n) == i + 1);
        assert(pool_end(pools, k + 1, n) > i + 1);
        lemma_pool_of_unique(values, weights, pools, n, k + 1, i + 1);
    }
}

/// The weight sums of the first `k` pools add up to the input weight sum up
/// to where pool `k` starts (or to `n`, past the last pool).
pub proof fn lemma_dens_upto(values: Seq<i64>, weights: Seq<u64>, pools: Seq<Pool>, n: int, k: int)
    requires
        pools_wf(values, weights, pools, n),
        0 <= k <= pools.len(),
        n >= 1,
    ensures
        dens_upto(pools, k) == wsum(
            weights,
            0,
            if k < pools.len() {
                pools[k].start
            } else {
                n
            },
        ),
    decreases k,
{
    if k == 0 {
        assert(wsum(weights, 0, 0) == 0);
    } else {
        lemma_dens_upto(values, weights, pools, n, k - 1);
        let s = pools[k - 1].start;
        let e = pool_end(pools, k - 1, n);
        lemma_wsum_concat(weights, 0, s, e);
    }
}

/// Total weight is conserved: the pool weight sums of a well-formed stack add
/// up to the sum of all input weights over `[0, n)`.
pub proof fn lemma_weight_conserved(values: Seq<i64>, weights: Seq<u64>, pools: Seq<Pool>, n: int)
    requires
        pools_wf(values, weights, pools, n),
        n >= 1,
    ensures
        dens_upto(pools, pools.len() as int) == wsum(weights, 0, n),
{
    lemma_dens_upto(values, weights, pools, n, pools.len() as int);
}

/// One step of bounding a weighted sum by a bound on its values: adding one
/// term `w * x` to a partial sum already bounded by `m2` times its weight
/// keeps the whole bounded by any `m1` that dominates both `x` and `m2`.
proof fn lemma_weighted_step(w: int, x: int, m1: int, m2: int, q: int, t: int)
    by (nonlinear_arith)
    requires
        w >= 0,
        q >= 0,
    ensures
        x <= m1 && m2 <= m1 && t <= m2 * q ==> w * x + t <= m1 * (w + q),
        x >= m1 && m2 >= m1 && t >= m2 * q ==> w * x + t >= m1 * (w + q),
{
}

/// A weighted value sum over a nonempty range lies between the range's
/// smallest and largest value, each scaled by the weight sum: a weighted
/// mean never overshoots its inputs.
pub proof fn lemma_sum_containment(values: Seq<i64>, weights: Seq<u64>, s: int, e: int)
    requires
        valid_input(values, weights),
        0 <= s < e <= values.len(),
    ensures
        min_val(values, s, e) * wsum(weights, s, e) <= wxsum(values, weights, s, e),
        wxsum(values, weights, s, e) <= max_val(values, s, e) * wsum(weights, s, e),
    decreases e - s,
{
    let w = weights[s] as int;
    let x = values[s] as int;
    if s + 1 == e {
        assert(wxsum(values, weights, s + 1, e) == 0);
        assert(wsum(weights, s + 1, e) == 0);
        lemma_weighted_step(w, x, x, x, 0, 0);
    } else {
        lemma_sum_containment(values, weights, s + 1, e);
        lemma_wsum_bounds(values, weights, s + 1, e);
        let q = wsum(weights, s + 1, e);
        let t = wxsum(values, weights, s + 1, e);
        lemma_weighted_step(w, x, max_val(values, s, e), max_val(values, s + 1, e), q, t);
        lemma_weighted_step(w, x, min_val(values, s, e), min_val(values, s + 1, e), q, t);
    }
}

/// For singleton pools with positive weights, the cross-multiplied pooled
/// value comparison agrees with the plain comparison of the two values.
proof fn lemma_cross_singleton(w1: int, x1: int, w2: int, x2: int)
    by (nonlinear_arith)
    requires
        w1 >= 1,
        w2 >= 1,
    ensures
        ((w1 * x1) * w2 <= (w2 * x2) * w1) == (x1 <= x2),
        ((w1 * x1) * w2 >= (w2 * x2) * w1) == (x1 >= x2),
{
}

/// On input that already satisfies the direction, no merge ever fires: the
/// stack is exactly the singleton pool of every observation.
pub proof fn lemma_monotone_singletons(values: Seq<i64>, weights: Seq<u64>, d: Ordering, n: int)
    requires
        valid_input(values, weights),
        monotone_input(values, d),
        0 <= n <= values.len(),
    ensures
        pava_pools(values, weights, d, n).len() == n,
        forall|k: int|
            0 <= k < n ==> pava_pools(values, weights, d, n)[k] == singleton(values, weights, k),
    decreases n,
{
    if n > 0 {
        lemma_monotone_singletons(values, weights, d, n - 1);
        let prev = pava_pools(values, weights, d, n - 1);
        let pushed = prev.push(singleton(values, weights, n - 1));
        if n >= 2 {
            assert(pushed[n - 2] == singleton(values, weights, n - 2));
            lemma_cross_singleton(
                weights[n - 2] as int,
                values[n - 2] as int,
                weights[n - 1] as int,
                values[n - 1] as int,
            );
            assert(values[n - 2] <= values[n - 1] || values[n - 2] >= values[n - 1]);
            assert(!violation(d, pushed[n - 2], pushed[n - 1]));
        }
        assert(settle(d, pushed) == pushed);
        assert(pava_pools(values, weights, d, n) == pushed);
        assert forall|k: int| 0 <= k < n implies pava_pools(values, weights, d, n)[k] == singleton(
            values,
            weights,
            k,
        ) by {
            if k < n - 1 {
                assert(pushed[k] == prev[k]);
            }
        }
    }
}

} // verus!
