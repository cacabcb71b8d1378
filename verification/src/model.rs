//! Mathematical model of the pool-adjacent-violators procedure.
//!
//! A pool covers a half-open index range of the input and carries the weighted
//! sum of the values it merged (`num`) and the sum of their weights (`den`);
//! its pooled value is the exact ratio `num / den`. Two pooled values are
//! compared by cross-multiplication, which is exact because all weights are
//! positive. The procedure itself is the fold `pava_pools`: push each
//! observation as a singleton pool, then merge the top two pools of the stack
//! while they violate the required direction.

use vstd::prelude::*;

use crate::ordering::Ordering;

verus! {

/// Largest accepted number of observations.
pub const MAX_LEN: usize = 0x10_0000;

/// Largest accepted magnitude of an observation value.
pub const MAX_VALUE: i64 = 0x100_0000_0000;

/// Largest accepted observation weight.
pub const MAX_WEIGHT: u64 = 0x10_0000;

/// Largest magnitude a pool's weighted value sum can reach under
/// [`valid_input`]: `MAX_LEN * MAX_WEIGHT * MAX_VALUE`.
pub const MAX_NUM: i128 = 0x1_0000_0000_0000_0000_0000;

/// Largest value a pool's weight sum can reach under [`valid_input`]:
/// `MAX_LEN * MAX_WEIGHT`.
pub const MAX_DEN: u64 = 0x100_0000_0000;

/// A maximal run of adjacent observations merged together: it starts at input
/// position `start`, `num` is the weighted sum of its values, and `den` the
/// sum of its weights, so its pooled value is the ratio `num / den`.
pub struct Pool {
    pub num: int,
    pub den: int,
    pub start: int,
}

/// The inputs the engine accepts: equally many values and weights, not more
/// than `MAX_LEN` of them, every value within `MAX_VALUE` in magnitude and
/// every weight positive and at most `MAX_WEIGHT`. The bounds keep every
/// intermediate product within `i128`.
pub open spec fn valid_input(values: Seq<i64>, weights: Seq<u64>) -> bool {
    &&& values.len() == weights.len()
    &&& values.len() <= MAX_LEN
    &&& forall|i: int|
        0 <= i < values.len() ==> -(MAX_VALUE as int) <= #[trigger] values[i] <= MAX_VALUE as int
    &&& forall|i: int| 0 <= i < weights.len() ==> 1 <= #[trigger] weights[i] <= MAX_WEIGHT
}

/// Sum of `weights[s..e)`.
pub open spec fn wsum(weights: Seq<u64>, s: int, e: int) -> int
    decreases e - s,
{
    if s >= e {
        0
    } else {
        weights[s] as int + wsum(weights, s + 1, e)
    }
}

/// Sum of `weights[i] * values[i]` over `i` in `[s, e)`.
pub open spec fn wxsum(values: Seq<i64>, weights: Seq<u64>, s: int, e: int) -> int
    decreases e - s,
{
    if s >= e {
        0
    } else {
        weights[s] as int * values[s] as int + wxsum(values, weights, s + 1, e)
    }
}

/// Smallest value among `values[s..e)` (meaningful when `s < e`).
pub open spec fn min_val(values: Seq<i64>, s: int, e: int) -> int
    decreases e - s,
{
    if s + 1 >= e {
        values[s] as int
    } else {
        let m = min_val(values, s + 1, e);
        if values[s] as int <= m {
            values[s] as int
        } else {
            m
        }
    }
}

/// Largest value among `values[s..e)` (meaningful when `s < e`).
pub open spec fn max_val(values: Seq<i64>, s: int, e: int) -> int
    decreases e - s,
{
    if s + 1 >= e {
        values[s] as int
    } else {
        let m = max_val(values, s + 1, e);
        if values[s] as int >= m {
            values[s] as int
        } else {
            m
        }
    }
}

/// The adjacent pair `a`, `b` (in that order) contradicts the required
/// direction: for `Increasing` the pooled value of `a` is strictly greater
/// than that of `b`, for `Decreasing` strictly smaller. The comparison is by
/// cross-multiplication, exact whenever both `den`s are positive.
pub open spec fn violation(d: Ordering, a: Pool, b: Pool) -> bool {
    match d {
        Ordering::Increasing => a.num * b.den > b.num * a.den,
        Ordering::Decreasing => a.num * b.den < b.num * a.den,
    }
}

/// The pool obtained by merging adjacent pools `a` and `b` (with `a` earlier):
/// sums add, and the merged run starts where `a` started.
pub open spec fn merged(a: Pool, b: Pool) -> Pool {
    Pool { num: a.num + b.num, den: a.den + b.den, start: a.start }
}

/// The singleton pool of observation `i` alone.
pub open spec fn singleton(values: Seq<i64>, weights: Seq<u64>, i: int) -> Pool {
    Pool { num: weights[i] as int * values[i] as int, den: weights[i] as int, start: i }
}

/// Merges the top two pools of the stack while they violate the direction;
/// each merge may re-expose a violation one level down, hence the cascade.
pub open spec fn settle(d: Ordering, st: Seq<Pool>) -> Seq<Pool>
    decreases st.len(),
{
    if st.len() >= 2 && violation(d, st[st.len() - 2], st[st.len() - 1]) {
        settle(d, st.subrange(0, st.len() - 2).push(merged(st[st.len() - 2], st[st.len() - 1])))
    } else {
        st
    }
}

/// The pool stack after consuming the first `n` observations: push each
/// observation as a singleton pool, then settle the stack.
pub open spec fn pava_pools(values: Seq<i64>, weights: Seq<u64>, d: Ordering, n: int) -> Seq<Pool>
    decreases n,
{
    if n <= 0 {
        Seq::empty()
    } else {
        settle(d, pava_pools(values, weights, d, n - 1).push(singleton(values, weights, n - 1)))
    }
}

/// One past the last input position pool `k` covers: the next pool's start,
/// or `n` for the last pool.
pub open spec fn pool_end(pools: Seq<Pool>, k: int, n: int) -> int {
    if k + 1 < pools.len() {
        pools[k + 1].start
    } else {
        n
    }
}

/// Index of the pool that covers input position `i`.
pub open spec fn pool_of(pools: Seq<Pool>, i: int) -> int
    decreases pools.len(),
{
    if pools.len() <= 1 {
        0
    } else if i < pools[pools.len() - 1].start {
        pool_of(pools.drop_last(), i)
    } else {
        pools.len() - 1
    }
}

/// The stack of pools is well formed for the first `n` observations: the
/// pools' ranges partition `[0, n)` contiguously and in order, and each pool
/// carries exactly the weighted value sum and the weight sum of its range.
pub open spec fn pools_wf(values: Seq<i64>, weights: Seq<u64>, pools: Seq<Pool>, n: int) -> bool {
    &&& n > 0 ==> pools.len() >= 1
    &&& pools.len() <= n
    &&& pools.len() > 0 ==> pools[0].start == 0
    &&& forall|k: int| 0 <= k < pools.len() ==> 0 <= (#[trigger] pools[k]).start
    &&& forall|k: int| 0 <= k < pools.len() ==> (#[trigger] pools[k]).start < pool_end(pools, k, n)
    &&& forall|k: int|
        0 <= k < pools.len() ==> (#[trigger] pools[k]).num == wxsum(
            values,
            weights,
            pools[k].start,
            pool_end(pools, k, n),
        )
    &&& forall|k: int|
        0 <= k < pools.len() ==> (#[trigger] pools[k]).den == wsum(
            weights,
            pools[k].start,
            pool_end(pools, k, n),
        )
}

/// Adjacent pools nowhere violate the required direction: read through
/// [`violation`], the sequence of pooled values is non-decreasing for
/// `Increasing` and non-increasing for `Decreasing`.
pub open spec fn pools_ordered(d: Ordering, pools: Seq<Pool>) -> bool {
    forall|k: int| 0 <= k && k + 1 < pools.len() ==> !violation(d, #[trigger] pools[k], pools[k + 1])
}

/// The pool that covers position `i` after running the whole input.
pub open spec fn pooled_at(values: Seq<i64>, weights: Seq<u64>, d: Ordering, i: int) -> Pool {
    let pools = pava_pools(values, weights, d, values.len() as int);
    pools[pool_of(pools, i)]
}

/// Index of the pool that covers position `i` after running the whole input.
pub open spec fn pool_index(values: Seq<i64>, weights: Seq<u64>, d: Ordering, i: int) -> int {
    pool_of(pava_pools(values, weights, d, values.len() as int), i)
}

/// The pool covering position `i` of the radial composition split at `c`: the
/// left arm runs the complement direction on positions `[0, c)`, the right
/// arm runs `d` on positions `[c, len)`, and each arm is fit independently.
pub open spec fn radial_pooled_at(
    values: Seq<i64>,
    weights: Seq<u64>,
    c: int,
    d: Ordering,
    i: int,
) -> Pool {
    if i < c {
        pooled_at(values.subrange(0, c), weights.subrange(0, c), d.complement_spec(), i)
    } else {
        pooled_at(
            values.subrange(c, values.len() as int),
            weights.subrange(c, weights.len() as int),
            d,
            i - c,
        )
    }
}

/// The input itself already satisfies the direction, non-strictly.
pub open spec fn monotone_input(values: Seq<i64>, d: Ordering) -> bool {
    forall|i: int|
        0 <= i && i + 1 < values.len() ==> match d {
            Ordering::Increasing => #[trigger] values[i] <= values[i + 1],
            Ordering::Decreasing => #[trigger] values[i] >= values[i + 1],
        }
}

/// Sum of the weight sums of the first `k` pools.
pub open spec fn dens_upto(pools: Seq<Pool>, k: int) -> int
    decreases k,
{
    if k <= 0 {
        0
    } else {
        dens_upto(pools, k - 1) + pools[k - 1].den
    }
}

/// The pool's sums lie within the ranges the input bounds force.
pub open spec fn pool_in_bounds(p: Pool) -> bool {
    &&& -(MAX_NUM as int) <= p.num <= MAX_NUM as int
    &&& 1 <= p.den <= MAX_DEN as int
}

} // verus!
