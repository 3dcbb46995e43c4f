//! The branches of a function's control flow graph and the code that
//! records when each runs: every block with more than one successor gives a
//! branch per successor, identified as `function:block:successor`.
use vstd::prelude::*;
use std::collections::HashMap;
use crate::ast::Stmt;
use crate::cfg::{BasicBlock, ControlFlowGraph, Statement, block_stmts_ok, map_stmts_ok};
use crate::cfg::optimization::{map_keys, sorted_unique, sorted_ids, lemma_sorted_ids};
use crate::branch_cov::helpers::SourceLocation;
use crate::position::{FileSet, line_at, column_at};
use crate::span::{stmt_ok, stmt_pos};
use crate::strs::{string_push_str, push_decimal, decimal};

verus! {

broadcast use vstd::std_specs::hash::group_hash_axioms;

/// The kind of a branch point.
#[derive(Debug, Clone, Copy, PartialEq, Eq, Structural)]
pub enum BranchType {
    If,
    Loop,
    Switch,
}

/// A branch point and which of its ways were taken.
#[derive(Debug, Clone)]
pub struct BranchPoint {
    pub id: u32,
    pub location: SourceLocation,
    pub branch_type: BranchType,
    pub true_taken: bool,
    pub false_taken: bool,
}

/// The branch points of a file and how many were covered.
#[derive(Debug, Clone)]
pub struct CoverageReport {
    pub file: String,
    pub branches: Vec<BranchPoint>,
    pub total_branches: usize,
    pub covered_branches: usize,
}

/// The instrumentation of a project: per function, per branch id, and the
/// number of branches.
#[derive(Debug, Clone)]
pub struct InstrumentationData {
    pub instrumented_functions: HashMap<String, FunctionInstrumentation>,
    pub branch_mapping: HashMap<String, BranchMapping>,
    pub total_branches: usize,
}

/// The instrumentation of one function.
#[derive(Debug, Clone)]
pub struct FunctionInstrumentation {
    pub function_name: String,
    pub file_path: String,
    pub branches: Vec<InstrumentedBranch>,
    pub instrumentation_points: Vec<InstrumentationPoint>,
}

/// One branch and the code that records it.
#[derive(Debug, Clone)]
pub struct InstrumentedBranch {
    pub branch_id: String,
    pub line: usize,
    pub branch_type: String,
    pub condition: String,
    pub instrumentation_code: String,
}

/// Where recording code goes.
#[derive(Debug, Clone)]
pub struct InstrumentationPoint {
    pub line: usize,
    pub column: usize,
    pub code: String,
    pub branch_id: String,
}

/// Where a branch is and what it is.
#[derive(Debug, Clone)]
pub struct BranchMapping {
    pub branch_id: String,
    pub function_name: String,
    pub file_path: String,
    pub line: usize,
    pub branch_type: String,
}

/// The statement branches: an `if`, `switch`, `for`, `range`, type switch
/// or `select`.
pub open spec fn is_branching(s: Stmt) -> bool {
    s is If || s is Switch || s is For || s is Range || s is TypeSwitch || s is Select
}

/// Whether the statement branches.
pub fn is_branching_statement(stmt: &Stmt) -> (r: bool)
    ensures r == is_branching(*stmt),
{
    matches!(stmt, Stmt::If(_) | Stmt::Switch(_) | Stmt::For(_) | Stmt::Range(_) | Stmt::TypeSwitch(_) | Stmt::Select(_))
}

/// The branch type and condition description of a branching statement.
pub open spec fn branch_detail(s: Stmt) -> Option<(Seq<char>, Seq<char>)> {
    match s {
        Stmt::If(_) => Some(("if"@, "if_condition"@)),
        Stmt::Switch(_) => Some(("switch"@, "switch_expression"@)),
        Stmt::TypeSwitch(_) => Some(("type_switch"@, "type_assertion"@)),
        Stmt::For(_) => Some(("for"@, "for_condition"@)),
        Stmt::Range(_) => Some(("range"@, "range_expression"@)),
        Stmt::Select(_) => Some(("select"@, "channel_operations"@)),
        _ => None,
    }
}

/// The branch type and condition description of a branching statement.
pub fn analyze_branch_statement_detailed(stmt: &Stmt) -> (r: Option<(String, String)>)
    ensures
        r is Some <==> branch_detail(*stmt) is Some,
        r matches Some(p) ==> (p.0@, p.1@) == branch_detail(*stmt)->0,
{
    let d: Option<(&str, &str)> = match stmt {
        Stmt::If(_) => Some(("if", "if_condition")),
        Stmt::Switch(_) => Some(("switch", "switch_expression")),
        Stmt::TypeSwitch(_) => Some(("type_switch", "type_assertion")),
        Stmt::For(_) => Some(("for", "for_condition")),
        Stmt::Range(_) => Some(("range", "range_expression")),
        Stmt::Select(_) => Some(("select", "channel_operations")),
        _ => None,
    };
    match d {
        Some((t, c)) => Some((String::from_str(t), String::from_str(c))),
        None => None,
    }
}

/// The detail of the first branching statement among `stmts`.
pub open spec fn first_detail(stmts: Seq<Statement>) -> Option<(Seq<char>, Seq<char>)>
    decreases stmts.len(),
{
    if stmts.len() == 0 {
        None
    } else if branch_detail(stmts[0].stmt) is Some {
        branch_detail(stmts[0].stmt)
    } else {
        first_detail(stmts.drop_first())
    }
}

/// The branch type and condition of a block: those of its first branching
/// statement, else by its number of successors.
pub open spec fn block_branch_info(b: BasicBlock) -> (Seq<char>, Seq<char>) {
    match first_detail(b.stmts@) {
        Some(d) => d,
        None => {
            let n = b.succs@.len();
            if n == 0 {
                ("terminal"@, "end_of_function"@)
            } else if n == 1 {
                ("sequential"@, "fall_through"@)
            } else if n == 2 {
                ("conditional"@, "binary_branch"@)
            } else {
                ("multi_way"@, "switch_or_select"@)
            }
        },
    }
}

/// The branch type and condition description of a block.
pub fn analyze_block_branch_info(block: &BasicBlock) -> (r: (String, String))
    ensures (r.0@, r.1@) == block_branch_info(*block),
{
    let mut i: usize = 0;
    assert(block.stmts@.subrange(0, block.stmts@.len() as int) =~= block.stmts@);
    while i < block.stmts.len()
        invariant
            i <= block.stmts@.len(),
            first_detail(block.stmts@) == first_detail(block.stmts@.subrange(i as int, block.stmts@.len() as int)),
        decreases block.stmts@.len() - i,
    {
        let ghost rest = block.stmts@.subrange(i as int, block.stmts@.len() as int);
        assert(rest[0] == block.stmts@[i as int]);
        match analyze_branch_statement_detailed(&block.stmts[i].stmt) {
            Some(info) => { return info; },
            None => {},
        }
        assert(rest.drop_first() =~= block.stmts@.subrange(i + 1, block.stmts@.len() as int));
        i += 1;
    }
    assert(block.stmts@.subrange(i as int, block.stmts@.len() as int).len() == 0);
    let n = block.succs.len();
    let (t, c) = if n == 0 {
        ("terminal", "end_of_function")
    } else if n == 1 {
        ("sequential", "fall_through")
    } else if n == 2 {
        ("conditional", "binary_branch")
    } else {
        ("multi_way", "switch_or_select")
    };
    (String::from_str(t), String::from_str(c))
}

/// The condition text of successor `k` of a branch: the case of a switch,
/// the channel of a select, true or false of an `if`, else the path taken.
pub open spec fn specific_condition(branch_type: Seq<char>, condition: Seq<char>, k: nat) -> Seq<char> {
    if branch_type == "switch"@ || branch_type == "type_switch"@ {
        condition + " (case "@ + decimal(k) + ")"@
    } else if branch_type == "select"@ {
        condition + " (channel "@ + decimal(k) + ")"@
    } else if branch_type == "if"@ {
        if k == 0 { condition + " (true)"@ } else { condition + " (false)"@ }
    } else if k == 0 {
        condition + " (path "@ + decimal(k) + ")"@
    } else {
        condition + " (alternative "@ + decimal(k) + ")"@
    }
}

/// The condition text of successor `succ_idx` of a branch (see
/// `specific_condition`).
pub fn create_specific_condition(branch_type: &str, condition: &str, succ_idx: usize) -> (r: String)
    ensures r@ == specific_condition(branch_type@, condition@, succ_idx as nat),
{
    let mut out = String::new();
    string_push_str(&mut out, condition);
    if crate::strs::str_matches(branch_type, "switch") || crate::strs::str_matches(branch_type, "type_switch") {
        string_push_str(&mut out, " (case ");
        push_decimal(&mut out, succ_idx);
        string_push_str(&mut out, ")");
    } else if crate::strs::str_matches(branch_type, "select") {
        string_push_str(&mut out, " (channel ");
        push_decimal(&mut out, succ_idx);
        string_push_str(&mut out, ")");
    } else if crate::strs::str_matches(branch_type, "if") {
        if succ_idx == 0 {
            string_push_str(&mut out, " (true)");
        } else {
            string_push_str(&mut out, " (false)");
        }
    } else if succ_idx == 0 {
        string_push_str(&mut out, " (path ");
        push_decimal(&mut out, succ_idx);
        string_push_str(&mut out, ")");
    } else {
        string_push_str(&mut out, " (alternative ");
        push_decimal(&mut out, succ_idx);
        string_push_str(&mut out, ")");
    }
    out
}

/// The Go statement that records branch `branch_id`.
pub open spec fn recording_code(branch_id: Seq<char>) -> Seq<char> {
    "fmt.Printf(\"BRANCH_COV:"@ + branch_id + "\\n\")"@
}

/// The Go statement that records the branch `branch_id` when it runs.
pub fn generate_branch_instrumentation(branch_id: &str) -> (r: String)
    ensures r@ == recording_code(branch_id@),
{
    let mut out = String::new();
    string_push_str(&mut out, "fmt.Printf(\"BRANCH_COV:");
    string_push_str(&mut out, branch_id);
    string_push_str(&mut out, "\\n\")");
    out
}

/// The line of the first branching statement among `stmts` whose position
/// the file set knows.
pub open spec fn first_branching_line(fset: FileSet, stmts: Seq<Statement>) -> Option<usize>
    decreases stmts.len(),
{
    if stmts.len() == 0 {
        None
    } else if is_branching(stmts[0].stmt) && line_at(fset, stmt_pos(stmts[0].stmt)) is Some {
        line_at(fset, stmt_pos(stmts[0].stmt))
    } else {
        first_branching_line(fset, stmts.drop_first())
    }
}

/// The line of the first statement among `stmts` whose position the file
/// set knows, on a line after 0.
pub open spec fn first_known_line(fset: FileSet, stmts: Seq<Statement>) -> Option<usize>
    decreases stmts.len(),
{
    if stmts.len() == 0 {
        None
    } else if line_at(fset, stmt_pos(stmts[0].stmt)) is Some && line_at(fset, stmt_pos(stmts[0].stmt))->0 > 0 {
        line_at(fset, stmt_pos(stmts[0].stmt))
    } else {
        first_known_line(fset, stmts.drop_first())
    }
}

/// The line of a branch block: that of its first branching statement,
/// else of its first statement with a known line, else the block's start
/// line if set, else its end line.
pub open spec fn branch_line(fset: FileSet, b: BasicBlock) -> usize {
    match first_branching_line(fset, b.stmts@) {
        Some(l) => l,
        None => match first_known_line(fset, b.stmts@) {
            Some(l) => l,
            None => if b.start_line > 0 { b.start_line } else { b.end_line },
        },
    }
}

/// The line of a branch block (see `branch_line`).
pub fn get_precise_branch_line(block: &BasicBlock, fset: &FileSet) -> (r: usize)
    requires fset.wf(), block_stmts_ok(*block),
    ensures r == branch_line(*fset, *block),
{
    let n = block.stmts.len();
    let mut i: usize = 0;
    assert(block.stmts@.subrange(0, n as int) =~= block.stmts@);
    while i < n
        invariant
            fset.wf(),
            block_stmts_ok(*block),
            n == block.stmts@.len(),
            i <= n,
            first_branching_line(*fset, block.stmts@) == first_branching_line(*fset, block.stmts@.subrange(i as int, n as int)),
        decreases n - i,
    {
        let ghost rest = block.stmts@.subrange(i as int, n as int);
        assert(rest[0] == block.stmts@[i as int]);
        assert(stmt_ok(block.stmts@[i as int].stmt));
        let stmt = &block.stmts[i].stmt;
        if is_branching_statement(stmt) {
            match fset.position(stmt.pos()) {
                Some(p) => { return p.line; },
                None => {},
            }
        }
        assert(rest.drop_first() =~= block.stmts@.subrange(i + 1, n as int));
        i += 1;
    }
    let mut i: usize = 0;
    assert(block.stmts@.subrange(0, n as int) =~= block.stmts@);
    while i < n
        invariant
            fset.wf(),
            block_stmts_ok(*block),
            n == block.stmts@.len(),
            i <= n,
            first_branching_line(*fset, block.stmts@) is None,
            first_known_line(*fset, block.stmts@) == first_known_line(*fset, block.stmts@.subrange(i as int, n as int)),
        decreases n - i,
    {
        let ghost rest = block.stmts@.subrange(i as int, n as int);
        assert(rest[0] == block.stmts@[i as int]);
        assert(stmt_ok(block.stmts@[i as int].stmt));
        let stmt = &block.stmts[i].stmt;
        match fset.position(stmt.pos()) {
            Some(p) => {
                if p.line > 0 {
                    return p.line;
                }
            },
            None => {},
        }
        assert(rest.drop_first() =~= block.stmts@.subrange(i + 1, n as int));
        i += 1;
    }
    if block.start_line > 0 {
        block.start_line
    } else {
        block.end_line
    }
}

/// The column of the first branching statement among `stmts` whose
/// position the file set knows.
pub open spec fn first_branching_column(fset: FileSet, stmts: Seq<Statement>) -> Option<usize>
    decreases stmts.len(),
{
    if stmts.len() == 0 {
        None
    } else if is_branching(stmts[0].stmt) && column_at(fset, stmt_pos(stmts[0].stmt)) is Some {
        column_at(fset, stmt_pos(stmts[0].stmt))
    } else {
        first_branching_column(fset, stmts.drop_first())
    }
}

/// The column for a block's recording code: that of its first branching
/// statement with a known position, else of its first statement, else 0.
pub open spec fn branch_column(fset: FileSet, b: BasicBlock) -> usize {
    match first_branching_column(fset, b.stmts@) {
        Some(c) => c,
        None => if b.stmts@.len() > 0 {
            match column_at(fset, stmt_pos(b.stmts@[0].stmt)) { Some(c) => c, None => 0 }
        } else {
            0
        },
    }
}

/// The column for a block's recording code (see `branch_column`).
pub fn get_precise_column(block: &BasicBlock, fset: &FileSet) -> (r: usize)
    requires fset.wf(), block_stmts_ok(*block),
    ensures r == branch_column(*fset, *block),
{
    let n = block.stmts.len();
    let mut i: usize = 0;
    assert(block.stmts@.subrange(0, n as int) =~= block.stmts@);
    while i < n
        invariant
            fset.wf(),
            block_stmts_ok(*block),
            n == block.stmts@.len(),
            i <= n,
            first_branching_column(*fset, block.stmts@) == first_branching_column(*fset, block.stmts@.subrange(i as int, n as int)),
        decreases n - i,
    {
        let ghost rest = block.stmts@.subrange(i as int, n as int);
        assert(rest[0] == block.stmts@[i as int]);
        assert(stmt_ok(block.stmts@[i as int].stmt));
        let stmt = &block.stmts[i].stmt;
        if is_branching_statement(stmt) {
            match fset.position(stmt.pos()) {
                Some(p) => { return p.column; },
                None => {},
            }
        }
        assert(rest.drop_first() =~= block.stmts@.subrange(i + 1, n as int));
        i += 1;
    }
    assert(block.stmts@.subrange(0, n as int) =~= block.stmts@);
    if n > 0 {
        assert(stmt_ok(block.stmts@[0].stmt));
        match fset.position(block.stmts[0].stmt.pos()) {
            Some(p) => p.column,
            None => 0,
        }
    } else {
        0
    }
}

/// The id of successor `k` of block `id` of function `f`: `f:id:k`.
pub open spec fn branch_id_text(f: Seq<char>, id: usize, k: nat) -> Seq<char> {
    f + ":"@ + decimal(id as nat) + ":"@ + decimal(k)
}

/// The branches of a block: one per successor when it has more than one.
pub open spec fn block_slots(id: usize, n: nat) -> Seq<(usize, nat)> {
    if n > 1 { Seq::new(n, |k: int| (id, k as nat)) } else { Seq::empty() }
}

/// The branches of the blocks `ids`, block after block, as (block, successor
/// index) pairs.
pub open spec fn branch_slots(m: Map<usize, BasicBlock>, ids: Seq<usize>) -> Seq<(usize, nat)>
    decreases ids.len(),
{
    if ids.len() == 0 {
        Seq::empty()
    } else {
        branch_slots(m, ids.drop_last()) + block_slots(ids.last(), m[ids.last()].succs@.len())
    }
}

/// `br` is the instrumented branch for successor `slot.1` of block
/// `slot.0` of function `f`.
pub open spec fn branch_matches(fset: FileSet, f: Seq<char>, m: Map<usize, BasicBlock>, slot: (usize, nat),
    br: InstrumentedBranch) -> bool {
    let b = m[slot.0];
    let info = block_branch_info(b);
    let id = branch_id_text(f, slot.0, slot.1);
    &&& br.branch_id@ == id
    &&& br.line == branch_line(fset, b)
    &&& br.branch_type@ == info.0
    &&& br.condition@ == specific_condition(info.0, info.1, slot.1)
    &&& br.instrumentation_code@ == recording_code(id)
}

/// `pt` is the recording point for successor `slot.1` of block `slot.0` of
/// function `f`.
pub open spec fn point_matches(fset: FileSet, f: Seq<char>, m: Map<usize, BasicBlock>, slot: (usize, nat),
    pt: InstrumentationPoint) -> bool {
    let b = m[slot.0];
    let id = branch_id_text(f, slot.0, slot.1);
    &&& pt.branch_id@ == id
    &&& pt.line == branch_line(fset, b)
    &&& pt.column == branch_column(fset, b)
    &&& pt.code@ == recording_code(id)
}

/// The instrumentation of a function: for each block with more than one
/// successor, by increasing block id, and each successor in order, a branch
/// `func_name:block:successor` with the block's line, branch type and the
/// successor's condition, and the recording point for it at the block's
/// line and column. The file is `main.go`.
pub fn instrument_function(func_name: &str, cfg: &ControlFlowGraph, fset: &FileSet) -> (r: FunctionInstrumentation)
    requires fset.wf(), map_stmts_ok(cfg.blocks@),
    ensures ({
        let slots = branch_slots(cfg.blocks@, sorted_ids(cfg.blocks@.dom()));
        &&& r.function_name@ == func_name@
        &&& r.file_path@ == "main.go"@
        &&& r.branches@.len() == slots.len()
        &&& r.instrumentation_points@.len() == slots.len()
        &&& forall|t: int| 0 <= t < slots.len() ==> branch_matches(*fset, func_name@, cfg.blocks@, slots[t], #[trigger] r.branches@[t])
        &&& forall|t: int| 0 <= t < slots.len() ==> point_matches(*fset, func_name@, cfg.blocks@, slots[t], #[trigger] r.instrumentation_points@[t])
    }),
{
    let keys = sorted_unique(&map_keys(&cfg.blocks));
    proof { lemma_sorted_ids(keys@, cfg.blocks@.dom()); }
    let ghost m = cfg.blocks@;
    let mut branches: Vec<InstrumentedBranch> = Vec::new();
    let mut points: Vec<InstrumentationPoint> = Vec::new();
    let mut i: usize = 0;
    while i < keys.len()
        invariant
            fset.wf(),
            m == cfg.blocks@,
            map_stmts_ok(m),
            keys@.to_set() == m.dom(),
            i <= keys@.len(),
            branches@.len() == branch_slots(m, keys@.subrange(0, i as int)).len(),
            points@.len() == branches@.len(),
            forall|t: int| 0 <= t < branches@.len() ==>
                branch_matches(*fset, func_name@, m, branch_slots(m, keys@.subrange(0, i as int))[t], #[trigger] branches@[t]),
            forall|t: int| 0 <= t < points@.len() ==>
                point_matches(*fset, func_name@, m, branch_slots(m, keys@.subrange(0, i as int))[t], #[trigger] points@[t]),
        decreases keys@.len() - i,
    {
        let id = keys[i];
        proof {
            assert(keys@.to_set().contains(id));
            assert(keys@.subrange(0, i + 1).drop_last() =~= keys@.subrange(0, i as int));
        }
        let block = cfg.blocks.get(&id).unwrap();
        let ghost before = branch_slots(m, keys@.subrange(0, i as int));
        let ghost mine = block_slots(id, block.succs@.len());
        assert(branch_slots(m, keys@.subrange(0, i + 1)) == before + mine);
        if block.succs.len() > 1 {
            let line = get_precise_branch_line(block, fset);
            let column = get_precise_column(block, fset);
            let (branch_type, condition) = analyze_block_branch_info(block);
            let mut k: usize = 0;
            while k < block.succs.len()
                invariant
                    m.contains_key(id),
                    *block == m[id],
                    block.succs@.len() > 1,
                    mine == block_slots(id, block.succs@.len()),
                    line == branch_line(*fset, *block),
                    column == branch_column(*fset, *block),
                    (branch_type@, condition@) == block_branch_info(*block),
                    k <= block.succs@.len(),
                    branches@.len() == before.len() + k,
                    points@.len() == branches@.len(),
                    forall|t: int| 0 <= t < branches@.len() ==>
                        branch_matches(*fset, func_name@, m, (before + mine)[t], #[trigger] branches@[t]),
                    forall|t: int| 0 <= t < points@.len() ==>
                        point_matches(*fset, func_name@, m, (before + mine)[t], #[trigger] points@[t]),
                decreases block.succs@.len() - k,
            {
                let mut branch_id = String::new();
                string_push_str(&mut branch_id, func_name);
                string_push_str(&mut branch_id, ":");
                push_decimal(&mut branch_id, id);
                string_push_str(&mut branch_id, ":");
                push_decimal(&mut branch_id, k);
                assert(branch_id@ =~= branch_id_text(func_name@, id, k as nat));
                let code = generate_branch_instrumentation(branch_id.as_str());
                let specific = create_specific_condition(branch_type.as_str(), condition.as_str(), k);
                let ghost slot = (id, k as nat);
                assert((before + mine)[before.len() + k] == slot);
                let ghost b0 = branches@;
                let ghost p0 = points@;
                branches.push(InstrumentedBranch {
                    branch_id: branch_id.clone(),
                    line,
                    branch_type: branch_type.clone(),
                    condition: specific,
                    instrumentation_code: code.clone(),
                });
                points.push(InstrumentationPoint { line, column, code, branch_id });
                assert forall|t: int| 0 <= t < branches@.len() implies
                    branch_matches(*fset, func_name@, m, (before + mine)[t], #[trigger] branches@[t]) by {
                    if t < b0.len() { assert(branches@[t] == b0[t]); }
                };
                assert forall|t: int| 0 <= t < points@.len() implies
                    point_matches(*fset, func_name@, m, (before + mine)[t], #[trigger] points@[t]) by {
                    if t < p0.len() { assert(points@[t] == p0[t]); }
                };
                k += 1;
            }
        } else {
            assert(mine =~= Seq::<(usize, nat)>::empty());
            assert(before + mine =~= before);
        }
        i += 1;
    }
    proof { assert(keys@.subrange(0, keys@.len() as int) =~= keys@); }
    FunctionInstrumentation {
        function_name: String::from_str(func_name),
        file_path: String::from_str("main.go"),
        branches,
        instrumentation_points: points,
    }
}

/// The number of branches of each of the graphs, added up.
pub open spec fn total_slots(cfgs: Seq<(String, ControlFlowGraph)>) -> nat
    decreases cfgs.len(),
{
    if cfgs.len() == 0 {
        0
    } else {
        total_slots(cfgs.drop_last())
            + branch_slots(cfgs.last().1.blocks@, sorted_ids(cfgs.last().1.blocks@.dom())).len()
    }
}

/// The instrumentation of several functions, given by name with their
/// graphs: each function's instrumentation (see `instrument_function`) by
/// name, each of its branches by id, and the number of branches of all of
/// them. A later function of the same name replaces an earlier one.
pub fn collect_instrumentation(cfgs: &Vec<(String, ControlFlowGraph)>, fset: &FileSet) -> (r: InstrumentationData)
    requires
        fset.wf(),
        forall|i: int| 0 <= i < cfgs@.len() ==> map_stmts_ok(#[trigger] cfgs@[i].1.blocks@),
        total_slots(cfgs@) <= usize::MAX,
    ensures
        r.total_branches == total_slots(cfgs@),
        forall|k: String| #[trigger] r.instrumented_functions@.contains_key(k)
            <==> exists|i: int| 0 <= i < cfgs@.len() && cfgs@[i].0 == k,
        forall|k: String| #[trigger] r.instrumented_functions@.contains_key(k)
            ==> r.instrumented_functions@[k].function_name@ == k@,
        forall|k: String| #[trigger] r.branch_mapping@.contains_key(k)
            ==> r.branch_mapping@[k].branch_id == k,
{
    let mut data = InstrumentationData {
        instrumented_functions: HashMap::new(),
        branch_mapping: HashMap::new(),
        total_branches: 0,
    };
    let mut i: usize = 0;
    while i < cfgs.len()
        invariant
            fset.wf(),
            i <= cfgs@.len(),
            forall|j: int| 0 <= j < cfgs@.len() ==> map_stmts_ok(#[trigger] cfgs@[j].1.blocks@),
            total_slots(cfgs@) <= usize::MAX,
            data.total_branches == total_slots(cfgs@.subrange(0, i as int)),
            forall|k: String| #[trigger] data.instrumented_functions@.contains_key(k)
                <==> exists|j: int| 0 <= j < i && cfgs@[j].0 == k,
            forall|k: String| #[trigger] data.instrumented_functions@.contains_key(k)
                ==> data.instrumented_functions@[k].function_name@ == k@,
            forall|k: String| #[trigger] data.branch_mapping@.contains_key(k)
                ==> data.branch_mapping@[k].branch_id == k,
        decreases cfgs@.len() - i,
    {
        let name = &cfgs[i].0;
        let cfg = &cfgs[i].1;
        proof {
            assert(cfgs@.subrange(0, i + 1).drop_last() =~= cfgs@.subrange(0, i as int));
            lemma_total_slots_prefix(cfgs@, i + 1);
        }
        let fi = instrument_function(name.as_str(), cfg, fset);
        assert(cfgs@.subrange(0, i + 1).last() == cfgs@[i as int]);
        data.total_branches = data.total_branches + fi.branches.len();
        let ghost funcs0 = data.instrumented_functions@;
        let ghost total0 = data.total_branches;
        let mut t: usize = 0;
        while t < fi.branches.len()
            invariant
                data.instrumented_functions@ == funcs0,
                data.total_branches == total0,
                t <= fi.branches@.len(),
                forall|k: String| #[trigger] data.branch_mapping@.contains_key(k)
                    ==> data.branch_mapping@[k].branch_id == k,
            decreases fi.branches@.len() - t,
        {
            let branch = &fi.branches[t];
            let key = branch.branch_id.clone();
            let mapping = BranchMapping {
                branch_id: branch.branch_id.clone(),
                function_name: name.clone(),
                file_path: fi.file_path.clone(),
                line: branch.line,
                branch_type: branch.branch_type.clone(),
            };
            crate::strs::string_map_insert(&mut data.branch_mapping, key, mapping);
            t += 1;
        }
        let ghost before = data.instrumented_functions@;
        crate::strs::string_map_insert(&mut data.instrumented_functions, name.clone(), fi);
        proof {
            assert forall|k: String| #[trigger] data.instrumented_functions@.contains_key(k)
                <==> exists|j: int| 0 <= j < i + 1 && cfgs@[j].0 == k by {
                if k == *name {
                    assert(cfgs@[i as int].0 == k);
                } else if before.contains_key(k) {
                }
            };
        }
        i += 1;
    }
    proof { assert(cfgs@.subrange(0, cfgs@.len() as int) =~= cfgs@); }
    data
}

proof fn lemma_total_slots_prefix(cfgs: Seq<(String, ControlFlowGraph)>, i: int)
    requires 0 <= i <= cfgs.len(),
    ensures total_slots(cfgs.subrange(0, i)) <= total_slots(cfgs),
    decreases cfgs.len() - i,
{
    if i < cfgs.len() {
        lemma_total_slots_prefix(cfgs, i + 1);
        assert(cfgs.subrange(0, i + 1).drop_last() =~= cfgs.subrange(0, i));
    } else {
        assert(cfgs.subrange(0, i) =~= cfgs);
    }
}

} // verus!
