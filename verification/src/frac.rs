use vstd::prelude::*;

verus! {

/// An exact non-negative fraction of settlement units.
///
/// The steady per-round amount of a schedule is `remaining / total_rounds`,
/// which is in general not integral; it is carried exactly as a numerator
/// and denominator and only truncated to whole units at settlement time.
/// A zero denominator is the one non-finite value the type can hold.
#[derive(Clone, Copy, Debug, PartialEq, Eq, Structural)]
pub struct Frac {
    pub num: u64,
    pub den: u64,
}

impl Frac {
    /// A fraction is finite exactly when its denominator is non-zero.
    pub open spec fn is_finite(self) -> bool {
        self.den >= 1
    }

    /// The value truncated toward zero to whole settlement units.
    pub open spec fn trunc(self) -> int {
        self.num as int / self.den as int
    }

    /// Truncate to whole settlement units.
    pub fn floor_units(self) -> (r: u64)
        requires
            self.is_finite(),
        ensures
            r == self.trunc(),
    {
        self.num / self.den
    }
}

} // verus!
