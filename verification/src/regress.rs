//! The executable engine: a single left-to-right pass that pushes each
//! observation as a singleton pool and merges the top two pools of the stack
//! while they violate the required direction, then expands the surviving
//! pools back to one entry per input position.

use vstd::prelude::*;

use crate::lemmas::{
    lemma_abs_mul_le, lemma_merge_wf, lemma_pava_props, lemma_pool_end_le, lemma_pool_in_bounds,
    lemma_pool_of_in_range, lemma_pool_of_unique, lemma_push_wf,
};
use crate::model::{
    merged, pava_pools, pool_end, pool_of, pooled_at, pools_wf, radial_pooled_at, settle,
    singleton, valid_input, violation, Pool, MAX_DEN, MAX_NUM, MAX_VALUE, MAX_WEIGHT,
};
use crate::ordering::Ordering;
use vstd::slice::{slice_index_get, slice_subrange};

verus! {

/// An exact pooled value: the ratio `num / den` of a pool's weighted value
/// sum to its weight sum. `den` is always positive.
#[derive(Clone, Copy, Debug, PartialEq, Eq, Structural)]
pub struct Ratio {
    /// Weighted sum of the original values merged into the pool.
    pub num: i128,
    /// Sum of the original weights merged into the pool; always positive.
    pub den: u64,
}

/// Isotonic regression result: one entry per input position, every position
/// of the same pool carrying that pool's aggregated weight and value.
pub struct Regression {
    /// Aggregated weights, i.e., the number of points if all weights were one.
    pub weights: Vec<u64>,
    /// Aggregated values, as exact ratios.
    pub values: Vec<Ratio>,
}

/// One pool on the working stack.
#[derive(Clone, Copy)]
struct Run {
    num: i128,
    den: u64,
    start: usize,
}

spec fn run_view(r: Run) -> Pool {
    Pool { num: r.num as int, den: r.den as int, start: r.start as int }
}

spec fn stack_view(st: Seq<Run>) -> Seq<Pool> {
    st.map_values(|r: Run| run_view(r))
}

/// True when the stack still holds two pools whose values violate the
/// required direction, compared exactly by cross-multiplication.
fn should_merge(
    Ghost(vs): Ghost<Seq<i64>>,
    Ghost(ws): Ghost<Seq<u64>>,
    Ghost(m): Ghost<int>,
    ordering: Ordering,
    stack: &Vec<Run>,
) -> (r: bool)
    requires
        valid_input(vs, ws),
        0 <= m <= vs.len(),
        pools_wf(vs, ws, stack_view(stack@), m),
    ensures
        r == (stack@.len() >= 2 && violation(
            ordering,
            run_view(stack@[stack@.len() - 2]),
            run_view(stack@[stack@.len() - 1]),
        )),
{
    let l = stack.len();
    if l < 2 {
        return false;
    }
    proof {
        assert(stack_view(stack@)[l - 2] == run_view(stack@[l - 2]));
        assert(stack_view(stack@)[l - 1] == run_view(stack@[l - 1]));
        lemma_pool_in_bounds(vs, ws, stack_view(stack@), m, l - 2);
        lemma_pool_in_bounds(vs, ws, stack_view(stack@), m, l - 1);
        lemma_abs_mul_le(
            stack@[l - 2].num as int,
            stack@[l - 1].den as int,
            MAX_NUM as int,
            MAX_DEN as int,
        );
        lemma_abs_mul_le(
            stack@[l - 1].num as int,
            stack@[l - 2].den as int,
            MAX_NUM as int,
            MAX_DEN as int,
        );
    }
    let lhs: i128 = stack[l - 2].num * (stack[l - 1].den as i128);
    let rhs: i128 = stack[l - 1].num * (stack[l - 2].den as i128);
    match ordering {
        Ordering::Increasing => lhs > rhs,
        Ordering::Decreasing => lhs < rhs,
    }
}

impl Regression {
    /// Weighted isotonic regression of `values` under `weights` in the given
    /// direction, by pool-adjacent-violators merging.
    ///
    /// Mismatched lengths and empty input are caller contract violations and
    /// are excluded here, as are weights of zero, which would make a pooled
    /// mean undefined. Each output position carries exactly the weight sum
    /// and the weighted value sum of the pool that covers it in the settled
    /// stack the model describes.
    #[verifier::loop_isolation(false)]
    #[verifier::rlimit(100)]
    pub fn new(values: &[i64], weights: &[u64], ordering: Ordering) -> (r: Regression)
        requires
            valid_input(values@, weights@),
            values@.len() >= 1,
        ensures
            r.values@.len() == values@.len(),
            r.weights@.len() == values@.len(),
            forall|i: int|
                0 <= i < values@.len() ==> {
                    let p = pooled_at(values@, weights@, ordering, i);
                    &&& (#[trigger] r.values@[i]).num as int == p.num
                    &&& r.values@[i].den as int == p.den
                    &&& r.weights@[i] as int == p.den
                },
            forall|i: int| 0 <= i < values@.len() ==> #[trigger] r.weights@[i] >= 1,
            forall|i: int|
                #![trigger r.values@[i]]
                0 <= i && i + 1 < values@.len() ==> {
                    let a = r.values@[i];
                    let b = r.values@[i + 1];
                    &&& a.den > 0
                    &&& b.den > 0
                    &&& ordering == Ordering::Increasing ==> a.num as int * b.den as int
                        <= b.num as int * a.den as int
                    &&& ordering == Ordering::Decreasing ==> a.num as int * b.den as int
                        >= b.num as int * a.den as int
                },
    {
        let ghost vs = values@;
        let ghost ws = weights@;
        let n: usize = values.len();

        let mut stack: Vec<Run> = Vec::new();
        let x0: i64 = *slice_index_get(values, 0);
        let w0: u64 = *slice_index_get(weights, 0);
        proof {
            lemma_abs_mul_le(x0 as int, w0 as int, MAX_VALUE as int, MAX_WEIGHT as int);
        }
        let num0: i128 = (w0 as i128) * (x0 as i128);
        stack.push(Run { num: num0, den: w0, start: 0 });
        proof {
            let first = pava_pools(vs, ws, ordering, 0).push(singleton(vs, ws, 0));
            assert(stack_view(stack@) =~= first);
            assert(first.len() == 1);
            assert(settle(ordering, first) == first);
            assert(pava_pools(vs, ws, ordering, 1) == settle(ordering, first));
        }

        let mut i: usize = 1;
        while i < n
            invariant
                1 <= i <= n,
                stack_view(stack@) == pava_pools(vs, ws, ordering, i as int),
            decreases n - i,
        {
            proof {
                lemma_pava_props(vs, ws, ordering, i as int);
                lemma_push_wf(vs, ws, stack_view(stack@), i as int);
            }
            let xi: i64 = *slice_index_get(values, i);
            let wi: u64 = *slice_index_get(weights, i);
            proof {
                lemma_abs_mul_le(xi as int, wi as int, MAX_VALUE as int, MAX_WEIGHT as int);
            }
            let numi: i128 = (wi as i128) * (xi as i128);
            stack.push(Run { num: numi, den: wi, start: i });
            let ghost target = pava_pools(vs, ws, ordering, i as int + 1);
            proof {
                assert(stack_view(stack@) =~= pava_pools(vs, ws, ordering, i as int).push(
                    singleton(vs, ws, i as int),
                ));
                assert(target == settle(ordering, stack_view(stack@)));
            }
            while should_merge(Ghost(vs), Ghost(ws), Ghost(i as int + 1), ordering, &stack)
                invariant
                    stack@.len() >= 1,
                    pools_wf(vs, ws, stack_view(stack@), i as int + 1),
                    settle(ordering, stack_view(stack@)) == target,
                decreases stack@.len(),
            {
                let ghost st0 = stack_view(stack@);
                let l = stack.len();
                proof {
                    lemma_pool_in_bounds(vs, ws, st0, i as int + 1, l - 2);
                    lemma_pool_in_bounds(vs, ws, st0, i as int + 1, l - 1);
                    assert(st0[l - 2] == run_view(stack@[l - 2]));
                    assert(st0[l - 1] == run_view(stack@[l - 1]));
                }
                let top = stack.pop().unwrap();
                let below = stack.pop().unwrap();
                let mnum: i128 = below.num + top.num;
                let mden: u64 = below.den + top.den;
                stack.push(Run { num: mnum, den: mden, start: below.start });
                proof {
                    assert(stack_view(stack@) =~= st0.subrange(0, l - 2).push(
                        merged(st0[l - 2], st0[l - 1]),
                    ));
                    lemma_merge_wf(vs, ws, st0, i as int + 1);
                    assert(settle(ordering, st0) == settle(ordering, stack_view(stack@)));
                }
            }
            proof {
                assert(settle(ordering, stack_view(stack@)) == stack_view(stack@));
            }
            i = i + 1;
        }

        let ghost pools = pava_pools(vs, ws, ordering, n as int);
        proof {
            lemma_pava_props(vs, ws, ordering, n as int);
        }
        let mut out_values: Vec<Ratio> = Vec::new();
        let mut out_weights: Vec<u64> = Vec::new();
        let mut k: usize = 0;
        while k < stack.len()
            invariant
                stack_view(stack@) == pools,
                k <= stack@.len(),
                out_values@.len() == out_weights@.len(),
                out_values@.len() == (if k < stack@.len() {
                    pools[k as int].start
                } else {
                    n as int
                }),
                forall|j: int|
                    0 <= j < out_values@.len() ==> {
                        let p = pools[pool_of(pools, j)];
                        &&& (#[trigger] out_values@[j]).num as int == p.num
                        &&& out_values@[j].den as int == p.den
                        &&& out_weights@[j] as int == p.den
                    },
            decreases stack@.len() - k,
        {
            let p = stack[k];
            proof {
                assert(run_view(stack@[k as int]) == pools[k as int]);
                if k + 1 < stack@.len() {
                    assert(run_view(stack@[k as int + 1]) == pools[k as int + 1]);
                }
                lemma_pool_end_le(vs, ws, pools, n as int, k as int);
            }
            let e: usize = if k + 1 < stack.len() {
                stack[k + 1].start
            } else {
                n
            };
            let mut j: usize = p.start;
            while j < e
                invariant
                    k < stack@.len(),
                    run_view(p) == pools[k as int],
                    e as int == pool_end(pools, k as int, n as int),
                    e <= n,
                    pools[k as int].start <= j as int <= e as int,
                    out_values@.len() == j as int,
                    out_values@.len() == out_weights@.len(),
                    forall|j2: int|
                        0 <= j2 < out_values@.len() ==> {
                            let q = pools[pool_of(pools, j2)];
                            &&& (#[trigger] out_values@[j2]).num as int == q.num
                            &&& out_values@[j2].den as int == q.den
                            &&& out_weights@[j2] as int == q.den
                        },
                decreases e - j,
            {
                out_values.push(Ratio { num: p.num, den: p.den });
                out_weights.push(p.den);
                proof {
                    lemma_pool_of_unique(vs, ws, pools, n as int, k as int, j as int);
                }
                j = j + 1;
            }
            k = k + 1;
        }
        proof {
            assert forall|i2: int| 0 <= i2 < vs.len() implies #[trigger] out_weights@[i2] >= 1 by {
                lemma_pool_of_in_range(vs, ws, pools, n as int, i2);
                lemma_pool_in_bounds(vs, ws, pools, n as int, pool_of(pools, i2));
                assert(out_values@[i2].den as int == pools[pool_of(pools, i2)].den);
            }
            assert forall|i2: int| 0 <= i2 && i2 + 1 < vs.len() implies {
                let a = #[trigger] out_values@[i2];
                let b = out_values@[i2 + 1];
                &&& a.den > 0
                &&& b.den > 0
                &&& ordering == Ordering::Increasing ==> a.num as int * b.den as int <= b.num
                    as int * a.den as int
                &&& ordering == Ordering::Decreasing ==> a.num as int * b.den as int >= b.num
                    as int * a.den as int
            } by {
                crate::laws::lemma_monotonicity(vs, ws, ordering, i2);
            }
        }
        Regression { weights: out_weights, values: out_values }
    }

    /// Radial isotonic regression split at `center_index`: the left arm fits
    /// positions before the center with the complement direction, the right
    /// arm fits the center and everything after it with the given direction,
    /// and the two results are concatenated positionally. The arms are fit
    /// independently, so the two values at the boundary need not agree. A
    /// center of `0` degenerates to a single fit in the given direction, a
    /// center of the full length to a single fit in the complement.
    pub fn new_radial(
        values: &[i64],
        weights: &[u64],
        center_index: usize,
        ordering: Ordering,
    ) -> (r: Regression)
        requires
            valid_input(values@, weights@),
            values@.len() >= 1,
            center_index <= values@.len(),
        ensures
            r.values@.len() == values@.len(),
            r.weights@.len() == values@.len(),
            forall|i: int|
                0 <= i < values@.len() ==> {
                    let p = radial_pooled_at(values@, weights@, center_index as int, ordering, i);
                    &&& (#[trigger] r.values@[i]).num as int == p.num
                    &&& r.values@[i].den as int == p.den
                    &&& r.weights@[i] as int == p.den
                },
            forall|i: int| 0 <= i < values@.len() ==> #[trigger] r.weights@[i] >= 1,
            forall|i: int|
                #![trigger r.values@[i]]
                0 <= i && i + 1 < values@.len() && i + 1 < center_index ==> {
                    let a = r.values@[i];
                    let b = r.values@[i + 1];
                    &&& a.den > 0
                    &&& b.den > 0
                    &&& ordering == Ordering::Increasing ==> a.num as int * b.den as int >= b.num
                        as int * a.den as int
                    &&& ordering == Ordering::Decreasing ==> a.num as int * b.den as int <= b.num
                        as int * a.den as int
                },
            forall|i: int|
                #![trigger r.values@[i]]
                center_index <= i && i + 1 < values@.len() ==> {
                    let a = r.values@[i];
                    let b = r.values@[i + 1];
                    &&& a.den > 0
                    &&& b.den > 0
                    &&& ordering == Ordering::Increasing ==> a.num as int * b.den as int <= b.num
                        as int * a.den as int
                    &&& ordering == Ordering::Decreasing ==> a.num as int * b.den as int >= b.num
                        as int * a.den as int
                },
    {
        let n: usize = values.len();
        if center_index == 0 {
            let r = Self::new(values, weights, ordering);
            proof {
                assert(values@.subrange(0, n as int) =~= values@);
                assert(weights@.subrange(0, n as int) =~= weights@);
            }
            r
        } else if center_index == n {
            let r = Self::new(values, weights, ordering.complement());
            proof {
                assert(values@.subrange(0, n as int) =~= values@);
                assert(weights@.subrange(0, n as int) =~= weights@);
            }
            r
        } else {
            let lv = slice_subrange(values, 0, center_index);
            let lw = slice_subrange(weights, 0, center_index);
            let rv = slice_subrange(values, center_index, n);
            let rw = slice_subrange(weights, center_index, n);
            proof {
                assert(valid_input(lv@, lw@));
                assert(valid_input(rv@, rw@));
            }
            let mut a = Self::new(lv, lw, ordering.complement());
            let mut b = Self::new(rv, rw, ordering);
            let ghost left_vals = a.values@;
            let ghost right_vals = b.values@;
            let ghost left_w = a.weights@;
            let ghost right_w = b.weights@;
            a.values.append(&mut b.values);
            a.weights.append(&mut b.weights);
            proof {
                let c = center_index as int;
                assert(a.values@ == left_vals + right_vals);
                assert(a.weights@ == left_w + right_w);
                assert forall|i: int| 0 <= i < values@.len() implies #[trigger] a.weights@[i]
                    >= 1 by {
                    if i < c {
                        assert(a.weights@[i] == left_w[i]);
                    } else {
                        assert(a.weights@[i] == right_w[i - c]);
                    }
                }
                assert forall|i: int|
                    #![trigger a.values@[i]]
                    0 <= i < values@.len() implies {
                    let p = radial_pooled_at(values@, weights@, c, ordering, i);
                    &&& a.values@[i].num as int == p.num
                    &&& a.values@[i].den as int == p.den
                    &&& a.weights@[i] as int == p.den
                } by {
                    if i < c {
                        assert(a.values@[i] == left_vals[i]);
                    } else {
                        assert(a.values@[i] == right_vals[i - c]);
                    }
                }
                assert forall|i: int|
                    #![trigger a.values@[i]]
                    0 <= i && i + 1 < values@.len() && (i + 1 < c || c <= i) implies {
                    let x = a.values@[i];
                    let y = a.values@[i + 1];
                    &&& x.den > 0
                    &&& y.den > 0
                    &&& (i + 1 < c && ordering == Ordering::Increasing) ==> x.num as int * y.den
                        as int >= y.num as int * x.den as int
                    &&& (i + 1 < c && ordering == Ordering::Decreasing) ==> x.num as int * y.den
                        as int <= y.num as int * x.den as int
                    &&& (c <= i && ordering == Ordering::Increasing) ==> x.num as int * y.den
                        as int <= y.num as int * x.den as int
                    &&& (c <= i && ordering == Ordering::Decreasing) ==> x.num as int * y.den
                        as int >= y.num as int * x.den as int
                } by {
                    crate::laws::lemma_radial_shape(values@, weights@, c, ordering, i);
                }
            }
            a
        }
    }
}

} // verus!
