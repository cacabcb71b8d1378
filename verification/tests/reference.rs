//! Cross-checks against an independent, naive formulation: merge any
//! adjacent strictly violating pair, anywhere in the list, until none is
//! left. The finest monotone partition is unique, so the stack-based engine
//! must agree with it exactly, pool boundaries included.

use pava::{Ordering, Regression};

#[derive(Clone, Copy)]
struct NaivePool {
    num: i128,
    den: u64,
    count: usize,
}

fn violates(a: NaivePool, b: NaivePool, ordering: Ordering) -> bool {
    let lhs = a.num * (b.den as i128);
    let rhs = b.num * (a.den as i128);
    match ordering {
        Ordering::Increasing => lhs > rhs,
        Ordering::Decreasing => lhs < rhs,
    }
}

fn naive_regress(values: &[i64], weights: &[u64], ordering: Ordering) -> (Vec<i128>, Vec<u64>) {
    let mut pools: Vec<NaivePool> = values
        .iter()
        .zip(weights.iter())
        .map(|(&x, &w)| NaivePool {
            num: w as i128 * x as i128,
            den: w,
            count: 1,
        })
        .collect();
    loop {
        let mut merged_any = false;
        let mut i: usize = 0;
        while i + 1 < pools.len() {
            if violates(pools[i], pools[i + 1], ordering) {
                pools[i] = NaivePool {
                    num: pools[i].num + pools[i + 1].num,
                    den: pools[i].den + pools[i + 1].den,
                    count: pools[i].count + pools[i + 1].count,
                };
                pools.remove(i + 1);
                merged_any = true;
            } else {
                i += 1;
            }
        }
        if !merged_any {
            break;
        }
    }
    let mut nums: Vec<i128> = Vec::new();
    let mut dens: Vec<u64> = Vec::new();
    for p in &pools {
        for _ in 0..p.count {
            nums.push(p.num);
            dens.push(p.den);
        }
    }
    (nums, dens)
}

fn check_against_naive(values: &[i64], weights: &[u64], ordering: Ordering) {
    let res = Regression::new(values, weights, ordering);
    let (nums, dens) = naive_regress(values, weights, ordering);
    assert_eq!(res.values.len(), values.len());
    for i in 0..values.len() {
        assert_eq!(res.values[i].num, nums[i], "value at {} for {:?}", i, values);
        assert_eq!(res.values[i].den, dens[i], "den at {} for {:?}", i, values);
        assert_eq!(res.weights[i], dens[i], "weight at {} for {:?}", i, values);
    }
}

#[test]
fn matches_naive_exhaustive_small() {
    // Every value sequence over {0, 1, 2} up to length 5, unit weights, in
    // both directions.
    for len in 1..=5usize {
        let combos = 3usize.pow(len as u32);
        for mut code in 0..combos {
            let mut values: Vec<i64> = Vec::new();
            for _ in 0..len {
                values.push((code % 3) as i64);
                code /= 3;
            }
            let weights = vec![1u64; len];
            check_against_naive(&values, &weights, Ordering::Increasing);
            check_against_naive(&values, &weights, Ordering::Decreasing);
        }
    }
}

#[test]
fn matches_naive_weighted() {
    // A spread of weighted cases, including negative values and weight skew.
    let cases: Vec<(Vec<i64>, Vec<u64>)> = vec![
        (vec![3, -1, 4, -1, 5], vec![1, 2, 3, 4, 5]),
        (vec![10, 10, -10, -10], vec![7, 1, 1, 7]),
        (vec![-5, 0, 0, -5, 5], vec![2, 2, 2, 2, 2]),
        (vec![1000000, -1000000], vec![1000, 1]),
        (vec![0, 0, 0], vec![5, 1, 9]),
        (vec![8, 6, 7, 5, 3, 0, 9], vec![1, 3, 1, 3, 1, 3, 1]),
    ];
    for (values, weights) in &cases {
        check_against_naive(values, weights, Ordering::Increasing);
        check_against_naive(values, weights, Ordering::Decreasing);
    }
}

#[test]
fn radial_matches_split() {
    // The radial fit is, by definition, the two independent plain fits
    // concatenated: the left one in the complement direction.
    let values: Vec<i64> = vec![8, 6, 7, 5, 3, 0, 9, 2, 4];
    let weights: Vec<u64> = vec![1, 2, 1, 2, 1, 2, 1, 2, 1];
    for center in 1..values.len() {
        let radial = Regression::new_radial(&values, &weights, center, Ordering::Increasing);
        let left = Regression::new(
            &values[..center],
            &weights[..center],
            Ordering::Decreasing,
        );
        let right = Regression::new(&values[center..], &weights[center..], Ordering::Increasing);
        for i in 0..center {
            assert_eq!(radial.values[i], left.values[i]);
            assert_eq!(radial.weights[i], left.weights[i]);
        }
        for i in center..values.len() {
            assert_eq!(radial.values[i], right.values[i - center]);
            assert_eq!(radial.weights[i], right.weights[i - center]);
        }
    }
}
