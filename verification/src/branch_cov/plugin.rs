//! The coverage plugin's instrumentation records.
use vstd::prelude::*;
use std::collections::HashMap;

verus! {

/// What is known of a branch the plugin instrumented.
#[derive(Debug)]
pub struct BranchMetadata {
    pub file_path: String,
    pub line: usize,
    pub branch_type: String,
    pub condition: String,
}

/// The plugin's branches by id and the files it instrumented.
#[derive(Debug)]
pub struct InstrumentationData {
    pub branch_map: HashMap<String, BranchMetadata>,
    pub instrumented_files: Vec<String>,
}

} // verus!
