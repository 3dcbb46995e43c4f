//! The stand-alone analyzer's result types and options.
use vstd::prelude::*;
use crate::complexity::helpers::ComplexityLevel;

verus! {

/// The complexity figures of one function.
#[derive(Debug, Clone)]
pub struct FunctionComplexity {
    pub cyclomatic_complexity: usize,
    pub cognitive_complexity: usize,
    pub lines_of_code: usize,
    pub decision_points: Vec<DecisionPoint>,
    pub complexity_level: ComplexityLevel,
    pub nesting_depth_max: usize,
}

/// A statement at which control flow branches.
#[derive(Debug, Clone)]
pub struct DecisionPoint {
    pub line: usize,
    pub stmt_type: String,
    pub nesting_level: usize,
}

/// How a complexity analysis runs.
#[derive(Debug, Clone)]
pub struct ComplexityOptions {
    pub verbose: bool,
    pub include_cognitive: bool,
    pub max_allowed_complexity: usize,
    pub fail_on_high_complexity: bool,
}

impl Default for ComplexityOptions {
    /// Quiet, with the cognitive score, complexity up to 10 allowed, and no
    /// failure on high complexity.
    fn default() -> (r: ComplexityOptions)
        ensures
            !r.verbose,
            r.include_cognitive,
            r.max_allowed_complexity == 10,
            !r.fail_on_high_complexity,
    {
        ComplexityOptions {
            verbose: false,
            include_cognitive: true,
            max_allowed_complexity: 10,
            fail_on_high_complexity: false,
        }
    }
}

} // verus!
