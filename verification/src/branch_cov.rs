//! Branch coverage of Go functions: the branches of their control flow
//! graphs, the instrumentation that records when a branch runs, and the
//! coverage those records give.
use vstd::prelude::*;
use std::collections::HashSet;
use crate::branch_cov::instrumentation::{FunctionInstrumentation, InstrumentedBranch};
use crate::strs::{str_to_chars, string_from_chars, chars_start_with, seq_starts_with, is_whitespace, char_is_whitespace};

pub mod helpers;
pub mod instrumentation;
pub mod plugin;
pub mod rewrite;
pub mod coverage;

verus! {

/// A branch and whether a run took it.
#[derive(Debug, Clone)]
pub struct BranchInfo {
    pub branch_id: String,
    pub line: usize,
    pub branch_type: String,
    pub condition: String,
    pub is_covered: bool,
}

/// A branch no run took.
#[derive(Debug, Clone)]
pub struct UncoveredBranch {
    pub branch_id: String,
    pub line: usize,
    pub branch_type: String,
    pub condition: String,
    pub file_path: String,
}

} // verus!

verus! {

/// Whether some branch id of the set has the same text as `id`
/// (`HashSet::contains`).
#[verifier::external_body]
fn recorded(covered: &HashSet<String>, id: &String) -> (r: bool)
    ensures r == is_recorded(covered@, id@),
{
    covered.contains(id)
}

/// Whether a run recorded branch `id`.
pub open spec fn is_recorded(covered: Set<String>, id: Seq<char>) -> bool {
    exists|x: String| #[trigger] covered.contains(x) && x@ == id
}

/// The branches of an instrumented function, each with whether the run
/// recorded it, and those it did not record (in the function's order,
/// with the function's file).
pub fn classify_branches(func_inst: &FunctionInstrumentation, covered: &HashSet<String>)
    -> (r: (Vec<BranchInfo>, Vec<UncoveredBranch>))
    ensures
        r.0@.len() == func_inst.branches@.len(),
        forall|t: int| 0 <= t < r.0@.len() ==> {
            let b = func_inst.branches@[t];
            let info = #[trigger] r.0@[t];
            &&& info.branch_id == b.branch_id
            &&& info.line == b.line
            &&& info.branch_type == b.branch_type
            &&& info.condition == b.condition
            &&& info.is_covered == is_recorded(covered@, b.branch_id@)
        },
        r.1@.len() == uncovered_count(covered@, func_inst.branches@),
        uncovered_ids(r.1@) == unrecorded(covered@, func_inst.branches@),
        forall|t: int| 0 <= t < r.1@.len() ==> (#[trigger] r.1@[t]).file_path == func_inst.file_path,
{
    let mut infos: Vec<BranchInfo> = Vec::new();
    let mut uncovered: Vec<UncoveredBranch> = Vec::new();
    let mut i: usize = 0;
    while i < func_inst.branches.len()
        invariant
            i <= func_inst.branches@.len(),
            infos@.len() == i,
            forall|t: int| 0 <= t < i ==> {
                let b = func_inst.branches@[t];
                let info = #[trigger] infos@[t];
                &&& info.branch_id == b.branch_id
                &&& info.line == b.line
                &&& info.branch_type == b.branch_type
                &&& info.condition == b.condition
                &&& info.is_covered == is_recorded(covered@, b.branch_id@)
            },
            uncovered@.len() == uncovered_count(covered@, func_inst.branches@.subrange(0, i as int)),
            uncovered_ids(uncovered@) == unrecorded(covered@, func_inst.branches@.subrange(0, i as int)),
            forall|t: int| 0 <= t < uncovered@.len() ==> (#[trigger] uncovered@[t]).file_path == func_inst.file_path,
        decreases func_inst.branches@.len() - i,
    {
        let branch = &func_inst.branches[i];
        let is_covered = recorded(covered, &branch.branch_id);
        proof {
            assert(func_inst.branches@.subrange(0, i + 1).drop_last() =~= func_inst.branches@.subrange(0, i as int));
        }
        let ghost unc0 = uncovered@;
        if !is_covered {
            uncovered.push(UncoveredBranch {
                branch_id: branch.branch_id.clone(),
                line: branch.line,
                branch_type: branch.branch_type.clone(),
                condition: branch.condition.clone(),
                file_path: func_inst.file_path.clone(),
            });
        }
        proof {
            if !is_covered {
                assert(uncovered_ids(uncovered@) =~= uncovered_ids(unc0).push((branch.branch_id@, branch.line)));
            }
        }
        let ghost infos0 = infos@;
        infos.push(BranchInfo {
            branch_id: branch.branch_id.clone(),
            line: branch.line,
            branch_type: branch.branch_type.clone(),
            condition: branch.condition.clone(),
            is_covered,
        });
        assert forall|t: int| 0 <= t < i + 1 implies {
            let b = func_inst.branches@[t];
            let info = #[trigger] infos@[t];
            &&& info.branch_id == b.branch_id
            &&& info.line == b.line
            &&& info.branch_type == b.branch_type
            &&& info.condition == b.condition
            &&& info.is_covered == is_recorded(covered@, b.branch_id@)
        } by {
            if t < i { assert(infos@[t] == infos0[t]); }
        };
        i += 1;
    }
    proof { assert(func_inst.branches@.subrange(0, i as int) =~= func_inst.branches@); }
    (infos, uncovered)
}

/// The ids and lines of the branches the run did not record, in order.
pub open spec fn unrecorded(covered: Set<String>, branches: Seq<InstrumentedBranch>) -> Seq<(Seq<char>, usize)>
    decreases branches.len(),
{
    if branches.len() == 0 {
        Seq::empty()
    } else {
        let rest = unrecorded(covered, branches.drop_last());
        if is_recorded(covered, branches.last().branch_id@) {
            rest
        } else {
            rest.push((branches.last().branch_id@, branches.last().line))
        }
    }
}

/// The ids and lines of uncovered branches.
pub open spec fn uncovered_ids(u: Seq<UncoveredBranch>) -> Seq<(Seq<char>, usize)> {
    u.map_values(|x: UncoveredBranch| (x.branch_id@, x.line))
}

/// How many of the branches the run did not record.
pub open spec fn uncovered_count(covered: Set<String>, branches: Seq<InstrumentedBranch>) -> nat
    decreases branches.len(),
{
    if branches.len() == 0 {
        0
    } else {
        uncovered_count(covered, branches.drop_last())
            + if is_recorded(covered, branches.last().branch_id@) { 0nat } else { 1nat }
    }
}

} // verus!

verus! {

/// `s` without white space at its start.
pub open spec fn trim_start_ws(s: Seq<char>) -> Seq<char>
    decreases s.len(),
{
    if s.len() > 0 && char_is_whitespace(s[0]) { trim_start_ws(s.drop_first()) } else { s }
}

/// `s` without white space at its end.
pub open spec fn trim_end_ws(s: Seq<char>) -> Seq<char>
    decreases s.len(),
{
    if s.len() > 0 && char_is_whitespace(s.last()) { trim_end_ws(s.drop_last()) } else { s }
}

/// The prefix of the lines a recorded branch prints.
pub open spec fn record_prefix() -> Seq<char> {
    "BRANCH_COV:"@
}

/// The branch id a line of test output records, if it is such a record:
/// the text after `BRANCH_COV:` without surrounding white space.
pub open spec fn recorded_branch(line: Seq<char>) -> Option<Seq<char>> {
    if seq_starts_with(line, record_prefix()) {
        Some(trim_end_ws(trim_start_ws(line.subrange(record_prefix().len() as int, line.len() as int))))
    } else {
        None
    }
}

/// The branch id a line of test output records, if it is such a record
/// (see `recorded_branch`).
pub fn parse_branch_record(line: &str) -> (r: Option<String>)
    ensures
        r is Some <==> recorded_branch(line@) is Some,
        r matches Some(id) ==> id@ == recorded_branch(line@)->0,
{
    let cs = str_to_chars(line);
    let prefix = str_to_chars("BRANCH_COV:");
    proof { reveal_strlit("BRANCH_COV:"); }
    if !chars_start_with(cs.as_slice(), prefix.as_slice()) {
        return None;
    }
    let n = cs.len();
    let mut a: usize = prefix.len();
    let ghost rest = cs@.subrange(prefix@.len() as int, n as int);
    assert(cs@.subrange(a as int, n as int) == rest);
    while a < n && is_whitespace(cs[a])
        invariant
            prefix@.len() <= a <= n,
            n == cs@.len(),
            trim_start_ws(rest) == trim_start_ws(cs@.subrange(a as int, n as int)),
        decreases n - a,
    {
        let ghost cur = cs@.subrange(a as int, n as int);
        assert(cur.drop_first() =~= cs@.subrange(a + 1, n as int));
        a += 1;
    }
    let ghost lead = cs@.subrange(a as int, n as int);
    let mut b: usize = n;
    assert(cs@.subrange(a as int, b as int) =~= lead);
    while b > a && is_whitespace(cs[b - 1])
        invariant
            a <= b <= n,
            n == cs@.len(),
            lead == cs@.subrange(a as int, n as int),
            trim_end_ws(lead) == trim_end_ws(cs@.subrange(a as int, b as int)),
        decreases b - a,
    {
        let ghost cur = cs@.subrange(a as int, b as int);
        assert(cur.drop_last() =~= cs@.subrange(a as int, b - 1));
        b -= 1;
    }
    let id = string_from_chars(&cs.as_slice()[a..b]);
    assert(id@ =~= cs@.subrange(a as int, b as int));
    Some(id)
}

} // verus!
