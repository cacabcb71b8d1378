//! Weighted isotonic regression by pool-adjacent-violators merging, with a
//! radial variant that fits two monotone arms around a chosen center index.
//!
//! Observations are integer-valued: a value is an `i64`, a weight a positive
//! `u64`, and every pooled value is returned as the exact ratio of the pool's
//! weighted value sum to its weight sum, so that all arithmetic is exact.

pub mod laws;
pub mod lemmas;
pub mod model;
pub mod ordering;
pub mod regress;

pub use ordering::Ordering;
pub use regress::Ratio;
pub use regress::Regression;
