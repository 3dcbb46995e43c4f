//! Complexity classes of the stand-alone analyzer.
use vstd::prelude::*;

verus! {

/// A complexity class.
#[derive(Debug, Clone, Copy, PartialEq, Eq, Structural)]
pub enum ComplexityLevel {
    Low,
    Medium,
    High,
    VeryHigh,
}

/// The class of a complexity: 1 to 5 low, 6 to 10 medium, 11 to 20 high,
/// anything else (0 too) very high.
pub open spec fn helper_level_of(c: nat) -> ComplexityLevel {
    if 1 <= c <= 5 {
        ComplexityLevel::Low
    } else if 6 <= c <= 10 {
        ComplexityLevel::Medium
    } else if 11 <= c <= 20 {
        ComplexityLevel::High
    } else {
        ComplexityLevel::VeryHigh
    }
}

impl ComplexityLevel {
    /// The class of a complexity (see `helper_level_of`).
    pub fn from_complexity(complexity: usize) -> (r: ComplexityLevel)
        ensures r == helper_level_of(complexity as nat),
    {
        if 1 <= complexity && complexity <= 5 {
            ComplexityLevel::Low
        } else if 6 <= complexity && complexity <= 10 {
            ComplexityLevel::Medium
        } else if 11 <= complexity && complexity <= 20 {
            ComplexityLevel::High
        } else {
            ComplexityLevel::VeryHigh
        }
    }
}

} // verus!
