use vstd::prelude::*;

verus! {

/// The relation required between consecutive pooled values: each value is at
/// most the next one (`Increasing`) or at least the next one (`Decreasing`).
#[derive(Clone, Copy, Debug, PartialEq, Eq, Structural)]
pub enum Ordering {
    Increasing,
    Decreasing,
}

impl Ordering {
    /// The opposite direction.
    pub open spec fn complement_spec(self) -> Ordering {
        match self {
            Ordering::Increasing => Ordering::Decreasing,
            Ordering::Decreasing => Ordering::Increasing,
        }
    }

    /// Swaps `Increasing` and `Decreasing`.
    #[verifier::when_used_as_spec(complement_spec)]
    pub fn complement(self) -> (r: Ordering)
        ensures
            r == self.complement_spec(),
    {
        match self {
            Ordering::Increasing => Ordering::Decreasing,
            Ordering::Decreasing => Ordering::Increasing,
        }
    }
}

} // verus!
