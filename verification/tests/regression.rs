use pava::{Ordering, Ratio, Regression};

/// Exact comparison of two pooled values `a.num / a.den <= b.num / b.den`
/// by cross-multiplication (both denominators are positive).
fn mean_le(a: Ratio, b: Ratio) -> bool {
    a.num * (b.den as i128) <= b.num * (a.den as i128)
}

/// Deterministic noise in `-6..=6`, so the shape of a line survives.
fn noise(i: usize) -> i64 {
    ((i as i64 * 7919) % 13) - 6
}

fn noisy_line(rising: bool, n: usize) -> (Vec<i64>, Vec<u64>) {
    let values: Vec<i64> = (0..n)
        .map(|i| {
            let base = if rising { i as i64 } else { (n - i) as i64 };
            base * 10 + noise(i)
        })
        .collect();
    let weights = vec![1u64; n];
    (values, weights)
}

fn assert_monotone(values: &[Ratio], ordering: Ordering) {
    for i in 0..values.len().saturating_sub(1) {
        match ordering {
            Ordering::Increasing => assert!(mean_le(values[i], values[i + 1])),
            Ordering::Decreasing => assert!(mean_le(values[i + 1], values[i])),
        }
    }
}

#[test]
fn increasing() {
    let (values, weights) = noisy_line(true, 100);
    let res = Regression::new(&values, &weights, Ordering::Increasing);
    assert_eq!(res.values.len(), 100);
    assert_eq!(res.weights.len(), 100);
    assert_monotone(&res.values, Ordering::Increasing);
}

#[test]
fn decreasing() {
    let (values, weights) = noisy_line(false, 100);
    let res = Regression::new(&values, &weights, Ordering::Decreasing);
    assert_eq!(res.values.len(), 100);
    assert_monotone(&res.values, Ordering::Decreasing);
}

#[test]
fn single_point() {
    let res = Regression::new(&[5], &[2], Ordering::Increasing);
    assert_eq!(res.values, vec![Ratio { num: 10, den: 2 }]);
    assert_eq!(res.weights, vec![2]);
}

#[test]
fn two_point_merge() {
    // 3 then 2 violates the ascending order; their pool has weighted mean
    // (3 + 2) / 2 = 2.5 and weight 2.
    let res = Regression::new(&[1, 3, 2], &[1, 1, 1], Ordering::Increasing);
    assert_eq!(
        res.values,
        vec![
            Ratio { num: 1, den: 1 },
            Ratio { num: 5, den: 2 },
            Ratio { num: 5, den: 2 },
        ]
    );
    assert_eq!(res.weights, vec![1, 2, 2]);
}

#[test]
fn cascading_merge() {
    // 3 violates against 5 and merges to mean 4; the newly pushed 4 does not
    // violate against the merged pool, because the violation rule is strict.
    let res = Regression::new(&[5, 3, 4], &[1, 1, 1], Ordering::Increasing);
    assert_eq!(
        res.values,
        vec![
            Ratio { num: 8, den: 2 },
            Ratio { num: 8, den: 2 },
            Ratio { num: 4, den: 1 },
        ]
    );
    assert_eq!(res.weights, vec![2, 2, 1]);
}

#[test]
fn decreasing_merge() {
    // For the descending direction a rise is the violation.
    let res = Regression::new(&[1, 3], &[1, 1], Ordering::Decreasing);
    assert_eq!(
        res.values,
        vec![Ratio { num: 4, den: 2 }, Ratio { num: 4, den: 2 }]
    );
    assert_eq!(res.weights, vec![2, 2]);
}

#[test]
fn idempotent_on_monotone() {
    // Already ascending input comes back unchanged, every pool a singleton:
    // position i carries the ratio (w[i] * x[i]) / w[i] and weight w[i].
    let values: Vec<i64> = vec![1, 2, 2, 4];
    let weights: Vec<u64> = vec![2, 3, 4, 5];
    let res = Regression::new(&values, &weights, Ordering::Increasing);
    for i in 0..4 {
        assert_eq!(res.values[i].num, values[i] as i128 * weights[i] as i128);
        assert_eq!(res.values[i].den, weights[i]);
        assert_eq!(res.weights[i], weights[i]);
    }
}

#[test]
fn weight_conservation() {
    // Pools here are [9, 3, 4] (mean 16/3) and [10]: summing the pooled
    // weight once per pool gives back the total input weight.
    let res = Regression::new(&[9, 3, 4, 10], &[1, 1, 1, 1], Ordering::Increasing);
    assert_eq!(res.weights, vec![3, 3, 3, 1]);
    let mut total: u64 = 0;
    let mut i: usize = 0;
    while i < res.weights.len() {
        total += res.weights[i];
        let mut j: usize = i + 1;
        while j < res.weights.len() && res.values[j] == res.values[i] {
            j += 1;
        }
        i = j;
    }
    assert_eq!(total, 4);
}

#[test]
fn range_containment() {
    // The pool of the first three positions aggregates values 9, 3, 4: its
    // mean 16/3 lies between 3 and 9.
    let res = Regression::new(&[9, 3, 4, 10], &[1, 1, 1, 1], Ordering::Increasing);
    let pooled = res.values[0];
    assert_eq!(pooled, Ratio { num: 16, den: 3 });
    assert!(3 * (pooled.den as i128) <= pooled.num);
    assert!(pooled.num <= 9 * (pooled.den as i128));
}

#[test]
fn pool_homogeneity() {
    let res = Regression::new(&[7, 1, 4, 2], &[1, 2, 1, 3], Ordering::Increasing);
    // All four positions end up in one pool; each reports the same entries.
    for i in 1..4 {
        assert_eq!(res.values[i], res.values[0]);
        assert_eq!(res.weights[i], res.weights[0]);
    }
}

#[test]
fn weighted_merge() {
    // Weights matter: pooling 6 (weight 1) with 1 (weight 4) gives 10/5 = 2.
    let res = Regression::new(&[6, 1], &[1, 4], Ordering::Increasing);
    assert_eq!(
        res.values,
        vec![Ratio { num: 10, den: 5 }, Ratio { num: 10, den: 5 }]
    );
    assert_eq!(res.weights, vec![5, 5]);
}
