//! The coverage a test run gives: for each instrumented function its
//! branches, which of them the run recorded, and the totals over the
//! project. Percentages are `covered_branches / total_branches` (100 when
//! there are no branches).
use vstd::prelude::*;
use std::collections::HashSet;
use crate::branch_cov::instrumentation::{FunctionInstrumentation, InstrumentedBranch};
use crate::branch_cov::{classify_branches, is_recorded, unrecorded, uncovered_count, uncovered_ids, BranchInfo, UncoveredBranch};
use crate::strs::str_matches;

verus! {

/// The coverage of one function.
#[derive(Debug)]
pub struct FunctionBranchCoverage {
    pub total_branches: usize,
    pub covered_branches: usize,
    pub branches: Vec<BranchInfo>,
    pub uncovered_branches: Vec<UncoveredBranch>,
    pub function_name: String,
    pub file_path: String,
}

/// The coverage of a project.
#[derive(Debug)]
pub struct ProjectBranchCoverage {
    pub functions: Vec<FunctionBranchCoverage>,
    pub total_branches: usize,
    pub covered_branches: usize,
    pub files_analyzed: Vec<String>,
    pub uncovered_branches: Vec<UncoveredBranch>,
    pub test_output: Option<String>,
}

/// What the coverage of function `name` holds: its branches in order,
/// each with whether the run recorded it, and the ones it did not record.
pub open spec fn describes(r: FunctionBranchCoverage, name: Seq<char>, f: FunctionInstrumentation, covered: Set<String>) -> bool {
    &&& r.function_name@ == name
    &&& r.file_path == f.file_path
    &&& r.total_branches == f.branches@.len()
    &&& r.covered_branches == f.branches@.len() - uncovered_count(covered, f.branches@)
    &&& r.branches@.len() == f.branches@.len()
    &&& forall|t: int| 0 <= t < r.branches@.len() ==> {
        let b = f.branches@[t];
        let info = #[trigger] r.branches@[t];
        &&& info.branch_id == b.branch_id
        &&& info.line == b.line
        &&& info.branch_type == b.branch_type
        &&& info.condition == b.condition
        &&& info.is_covered == is_recorded(covered, b.branch_id@)
    }
    &&& uncovered_ids(r.uncovered_branches@) == unrecorded(covered, f.branches@)
    &&& forall|t: int| 0 <= t < r.uncovered_branches@.len() ==> (#[trigger] r.uncovered_branches@[t]).file_path == f.file_path
}

proof fn lemma_uncovered_le(covered: Set<String>, bs: Seq<InstrumentedBranch>)
    ensures uncovered_count(covered, bs) <= bs.len(), unrecorded(covered, bs).len() == uncovered_count(covered, bs),
    decreases bs.len(),
{
    if bs.len() > 0 {
        lemma_uncovered_le(covered, bs.drop_last());
    }
}

/// The coverage of function `name` (see `describes`).
pub fn function_coverage(name: &String, func_inst: &FunctionInstrumentation, covered: &HashSet<String>)
    -> (r: FunctionBranchCoverage)
    ensures describes(r, name@, *func_inst, covered@),
{
    let (branches, uncovered) = classify_branches(func_inst, covered);
    proof { lemma_uncovered_le(covered@, func_inst.branches@); }
    let total = func_inst.branches.len();
    let missed = uncovered.len();
    FunctionBranchCoverage {
        total_branches: total,
        covered_branches: total - missed,
        branches,
        uncovered_branches: uncovered,
        function_name: name.clone(),
        file_path: func_inst.file_path.clone(),
    }
}

/// How many branches the functions have in all.
pub open spec fn branch_total(fs: Seq<(String, FunctionInstrumentation)>) -> nat
    decreases fs.len(),
{
    if fs.len() == 0 { 0 } else { branch_total(fs.drop_last()) + fs.last().1.branches@.len() }
}

/// How many branches of the functions the run recorded, in all.
pub open spec fn recorded_total(fs: Seq<(String, FunctionInstrumentation)>, covered: Set<String>) -> nat
    decreases fs.len(),
{
    if fs.len() == 0 {
        0
    } else {
        recorded_total(fs.drop_last(), covered)
            + (fs.last().1.branches@.len() - uncovered_count(covered, fs.last().1.branches@)) as nat
    }
}

/// The unrecorded branches of all the functions, function by function.
pub open spec fn all_unrecorded(fs: Seq<(String, FunctionInstrumentation)>, covered: Set<String>) -> Seq<(Seq<char>, usize)>
    decreases fs.len(),
{
    if fs.len() == 0 {
        Seq::empty()
    } else {
        all_unrecorded(fs.drop_last(), covered) + unrecorded(covered, fs.last().1.branches@)
    }
}

/// The texts of `s`, each once, in the order of their first occurrence.
pub open spec fn distinct_texts(s: Seq<Seq<char>>) -> Seq<Seq<char>>
    decreases s.len(),
{
    if s.len() == 0 {
        Seq::empty()
    } else {
        let d = distinct_texts(s.drop_last());
        if d.contains(s.last()) { d } else { d.push(s.last()) }
    }
}

/// The file paths of the functions, in order.
pub open spec fn file_paths(fs: Seq<(String, FunctionInstrumentation)>) -> Seq<Seq<char>> {
    fs.map_values(|x: (String, FunctionInstrumentation)| x.1.file_path@)
}

/// The texts of a list of strings.
pub open spec fn texts(v: Seq<String>) -> Seq<Seq<char>> {
    v.map_values(|x: String| x@)
}

fn copy_uncovered(u: &UncoveredBranch) -> (r: UncoveredBranch)
    ensures r == *u,
{
    UncoveredBranch {
        branch_id: u.branch_id.clone(),
        line: u.line,
        branch_type: u.branch_type.clone(),
        condition: u.condition.clone(),
        file_path: u.file_path.clone(),
    }
}

fn contains_text(v: &Vec<String>, t: &String) -> (r: bool)
    ensures r == texts(v@).contains(t@),
{
    let mut k: usize = 0;
    while k < v.len()
        invariant
            k <= v@.len(),
            forall|j: int| 0 <= j < k ==> (#[trigger] v@[j])@ != t@,
        decreases v@.len() - k,
    {
        if str_matches(v[k].as_str(), t.as_str()) {
            assert(texts(v@)[k as int] == t@);
            return true;
        }
        k += 1;
    }
    proof {
        if texts(v@).contains(t@) {
            let j = choose|j: int| 0 <= j < texts(v@).len() && texts(v@)[j] == t@;
            assert(v@[j]@ == t@);
        }
    }
    false
}

/// The coverage of the instrumented functions (name and instrumentation,
/// in the given order) for the branches a run recorded: each function's
/// coverage, the totals, every unrecorded branch function by function, and
/// the files of the functions, each once.
pub fn calculate_branch_coverage(functions: &Vec<(String, FunctionInstrumentation)>, covered: &HashSet<String>,
    test_output: Option<String>) -> (r: ProjectBranchCoverage)
    requires branch_total(functions@) <= usize::MAX,
    ensures
        r.functions@.len() == functions@.len(),
        forall|k: int| 0 <= k < functions@.len()
            ==> describes(#[trigger] r.functions@[k], functions@[k].0@, functions@[k].1, covered@),
        r.total_branches == branch_total(functions@),
        r.covered_branches == recorded_total(functions@, covered@),
        uncovered_ids(r.uncovered_branches@) == all_unrecorded(functions@, covered@),
        texts(r.files_analyzed@) == distinct_texts(file_paths(functions@)),
        r.test_output == test_output,
{
    let ghost fs = functions@;
    let mut out: Vec<FunctionBranchCoverage> = Vec::new();
    let mut total: usize = 0;
    let mut covered_count: usize = 0;
    let mut all_uncovered: Vec<UncoveredBranch> = Vec::new();
    let mut files: Vec<String> = Vec::new();
    let mut i: usize = 0;
    while i < functions.len()
        invariant
            fs == functions@,
            branch_total(fs) <= usize::MAX,
            i <= fs.len(),
            out@.len() == i,
            forall|k: int| 0 <= k < i ==> describes(#[trigger] out@[k], fs[k].0@, fs[k].1, covered@),
            total as nat == branch_total(fs.subrange(0, i as int)),
            covered_count as nat == recorded_total(fs.subrange(0, i as int), covered@),
            recorded_total(fs.subrange(0, i as int), covered@) <= branch_total(fs.subrange(0, i as int)),
            uncovered_ids(all_uncovered@) == all_unrecorded(fs.subrange(0, i as int), covered@),
            texts(files@) == distinct_texts(file_paths(fs.subrange(0, i as int))),
        decreases fs.len() - i,
    {
        let name = &functions[i].0;
        let func_inst = &functions[i].1;
        let ghost pre = fs.subrange(0, i as int);
        let ghost next = fs.subrange(0, i as int + 1);
        proof {
            assert(next.drop_last() =~= pre);
            lemma_branch_total_prefix(fs, i as int + 1);
            lemma_uncovered_le(covered@, func_inst.branches@);
        }
        let fc = function_coverage(name, func_inst, covered);
        total = total + fc.total_branches;
        covered_count = covered_count + fc.covered_branches;
        let mut j: usize = 0;
        let ghost all0 = uncovered_ids(all_uncovered@);
        while j < fc.uncovered_branches.len()
            invariant
                j <= fc.uncovered_branches@.len(),
                uncovered_ids(all_uncovered@) == all0 + uncovered_ids(fc.uncovered_branches@).subrange(0, j as int),
            decreases fc.uncovered_branches@.len() - j,
        {
            let u = copy_uncovered(&fc.uncovered_branches[j]);
            let ghost a0 = uncovered_ids(all_uncovered@);
            all_uncovered.push(u);
            proof {
                assert(uncovered_ids(all_uncovered@) =~= a0.push((u.branch_id@, u.line)));
                assert(uncovered_ids(fc.uncovered_branches@).subrange(0, j as int + 1)
                    =~= uncovered_ids(fc.uncovered_branches@).subrange(0, j as int).push((u.branch_id@, u.line)));
            }
            j += 1;
        }
        proof {
            assert(uncovered_ids(fc.uncovered_branches@).subrange(0, j as int) =~= uncovered_ids(fc.uncovered_branches@));
        }
        let ghost files0 = texts(files@);
        if !contains_text(&files, &func_inst.file_path) {
            files.push(func_inst.file_path.clone());
            proof { assert(texts(files@) =~= files0.push(func_inst.file_path@)); }
        }
        proof {
            assert(file_paths(next) =~= file_paths(pre).push(func_inst.file_path@));
            assert(file_paths(next).drop_last() =~= file_paths(pre));
            assert(file_paths(next).last() == func_inst.file_path@);
        }
        out.push(fc);
        proof {
            assert forall|k: int| 0 <= k < i + 1 implies describes(#[trigger] out@[k], fs[k].0@, fs[k].1, covered@) by {};
        }
        i += 1;
    }
    proof { assert(fs.subrange(0, i as int) =~= fs); }
    ProjectBranchCoverage {
        functions: out,
        total_branches: total,
        covered_branches: covered_count,
        files_analyzed: files,
        uncovered_branches: all_uncovered,
        test_output,
    }
}

/// A run never covers more branches than there are: coverage stays within
/// 100 percent.
pub proof fn lemma_covered_within_total(fs: Seq<(String, FunctionInstrumentation)>, covered: Set<String>)
    ensures recorded_total(fs, covered) <= branch_total(fs),
    decreases fs.len(),
{
    if fs.len() > 0 {
        lemma_covered_within_total(fs.drop_last(), covered);
        lemma_uncovered_le(covered, fs.last().1.branches@);
    }
}

proof fn lemma_branch_total_prefix(fs: Seq<(String, FunctionInstrumentation)>, i: int)
    requires 0 <= i <= fs.len(),
    ensures branch_total(fs.subrange(0, i)) <= branch_total(fs),
    decreases fs.len() - i,
{
    if i < fs.len() {
        lemma_branch_total_prefix(fs, i + 1);
        assert(fs.subrange(0, i + 1).drop_last() =~= fs.subrange(0, i));
    } else {
        assert(fs.subrange(0, i) =~= fs);
    }
}

} // verus!
