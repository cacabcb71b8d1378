use pava::{Ordering, Ratio, Regression};

fn mean_le(a: Ratio, b: Ratio) -> bool {
    a.num * (b.den as i128) <= b.num * (a.den as i128)
}

fn noise(i: usize) -> i64 {
    ((i as i64 * 7919) % 13) - 6
}

fn falling_then_rising(half: usize) -> (Vec<i64>, Vec<u64>) {
    let mut values: Vec<i64> = (0..half)
        .map(|i| (half - i) as i64 * 10 + noise(i))
        .collect();
    let mut rising: Vec<i64> = (0..half)
        .map(|i| i as i64 * 10 + noise(half + i))
        .collect();
    values.append(&mut rising);
    let weights = vec![1u64; values.len()];
    (values, weights)
}

fn rising_then_falling(half: usize) -> (Vec<i64>, Vec<u64>) {
    let mut values: Vec<i64> = (0..half)
        .map(|i| i as i64 * 10 + noise(i))
        .collect();
    let mut falling: Vec<i64> = (0..half)
        .map(|i| (half - i) as i64 * 10 + noise(half + i))
        .collect();
    values.append(&mut falling);
    let weights = vec![1u64; values.len()];
    (values, weights)
}

#[test]
fn radial_increasing() {
    // A valley: the left arm falls toward the center, the right arm rises.
    let (values, weights) = falling_then_rising(100);
    let center_index: usize = 100;
    let res = Regression::new_radial(&values, &weights, center_index, Ordering::Increasing);
    assert_eq!(res.values.len(), 200);
    assert_eq!(res.weights.len(), 200);
    for i in 0..center_index - 1 {
        assert!(mean_le(res.values[i + 1], res.values[i]));
    }
    for i in center_index..199 {
        assert!(mean_le(res.values[i], res.values[i + 1]));
    }
}

#[test]
fn radial_decreasing() {
    // A peak: the left arm rises toward the center, the right arm falls.
    let (values, weights) = rising_then_falling(100);
    let center_index: usize = 100;
    let res = Regression::new_radial(&values, &weights, center_index, Ordering::Decreasing);
    assert_eq!(res.values.len(), 200);
    for i in 0..center_index - 1 {
        assert!(mean_le(res.values[i], res.values[i + 1]));
    }
    for i in center_index..199 {
        assert!(mean_le(res.values[i + 1], res.values[i]));
    }
}

#[test]
fn radial_center_zero() {
    // A center of 0 degenerates to a single plain fit in the direction.
    let values: Vec<i64> = vec![4, 1, 3, 2, 5];
    let weights: Vec<u64> = vec![1, 2, 1, 1, 3];
    let radial = Regression::new_radial(&values, &weights, 0, Ordering::Increasing);
    let plain = Regression::new(&values, &weights, Ordering::Increasing);
    assert_eq!(radial.values, plain.values);
    assert_eq!(radial.weights, plain.weights);
}

#[test]
fn radial_center_full() {
    // A center of the full length degenerates to a single plain fit in the
    // complement direction.
    let values: Vec<i64> = vec![4, 1, 3, 2, 5];
    let weights: Vec<u64> = vec![1, 2, 1, 1, 3];
    let radial = Regression::new_radial(&values, &weights, values.len(), Ordering::Increasing);
    let plain = Regression::new(&values, &weights, Ordering::Decreasing);
    assert_eq!(radial.values, plain.values);
    assert_eq!(radial.weights, plain.weights);
}

#[test]
fn radial_shape_small() {
    // Falling then rising around center 2; both arms are already monotone,
    // so every position keeps its own value, and the center position belongs
    // to the right arm only.
    let res = Regression::new_radial(&[5, 3, 1, 2, 6], &[1, 1, 1, 1, 1], 2, Ordering::Increasing);
    let expected: Vec<i128> = vec![5, 3, 1, 2, 6];
    for i in 0..5 {
        assert_eq!(res.values[i], Ratio { num: expected[i], den: 1 });
        assert_eq!(res.weights[i], 1);
    }
}

#[test]
fn radial_arms_independent() {
    // The arms are fit independently: a jump across the boundary survives.
    let res = Regression::new_radial(&[9, 8, 1, 2], &[1, 1, 1, 1], 2, Ordering::Increasing);
    assert_eq!(res.values[1], Ratio { num: 8, den: 1 });
    assert_eq!(res.values[2], Ratio { num: 1, den: 1 });
}

#[test]
fn radial_complement_direction() {
    // With Increasing, the left arm uses Decreasing: the rise 1 then 3 on the
    // left violates and pools to mean 2, while the right arm is untouched.
    let res = Regression::new_radial(&[1, 3, 7], &[1, 1, 1], 2, Ordering::Increasing);
    assert_eq!(
        res.values,
        vec![
            Ratio { num: 4, den: 2 },
            Ratio { num: 4, den: 2 },
            Ratio { num: 7, den: 1 },
        ]
    );
    assert_eq!(res.weights, vec![2, 2, 1]);
}
