//! Complexity of functions computed from their control flow graphs:
//! McCabe's cyclomatic complexity from the numbers of blocks and edges, the
//! decision points among the statements, and a simple cognitive score.
use vstd::prelude::*;
use std::collections::HashMap;
use crate::ast::Stmt;
use crate::cfg::optimization::{map_keys, sorted_unique, sorted_ids, lemma_sorted_ids};
use crate::strs::string_push_str;

pub use crate::cfg::{Statement, BasicBlock, ControlFlowGraph};

pub mod helpers;
pub mod analyzer;
pub mod summary;

verus! {

broadcast use vstd::std_specs::hash::group_hash_axioms;

/// A complexity class.
#[derive(Debug, Clone, Copy, PartialEq, Eq, Structural)]
pub enum ComplexityLevel {
    Low,
    Moderate,
    High,
    VeryHigh,
}

/// A statement at which control flow branches.
#[derive(Debug, Clone)]
pub struct DecisionPoint {
    pub line: usize,
    pub stmt_type: String,
    pub nesting_level: usize,
}

/// The complexity figures of one function.
#[derive(Debug, Clone)]
pub struct FunctionComplexity {
    pub cyclomatic_complexity: usize,
    pub cognitive_complexity: usize,
    pub lines_of_code: usize,
    pub decision_points: Vec<DecisionPoint>,
    pub complexity_level: ComplexityLevel,
    pub nesting_depth_max: usize,
}

/// Where a complexity report goes, and in which format.
#[derive(Debug, Clone)]
pub struct ReportResult {
    pub report_path: String,
    pub format: String,
}

/// The graphs of the functions of each file, by file name.
#[derive(Debug)]
pub struct CFGResult {
    pub cfgs: Vec<(String, Vec<ControlFlowGraph>)>,
}

/// The class of a cyclomatic complexity: 1 to 5 low, 6 to 10 moderate,
/// 11 to 20 high, anything else very high.
pub open spec fn level_of(c: nat) -> ComplexityLevel {
    if 1 <= c <= 5 {
        ComplexityLevel::Low
    } else if 6 <= c <= 10 {
        ComplexityLevel::Moderate
    } else if 11 <= c <= 20 {
        ComplexityLevel::High
    } else {
        ComplexityLevel::VeryHigh
    }
}

/// The kind of decision a statement makes, if it makes one.
pub open spec fn decision_kind(s: Stmt) -> Option<Seq<char>> {
    match s {
        Stmt::If(_) => Some("if"@),
        Stmt::For(_) => Some("for"@),
        Stmt::Switch(_) => Some("switch"@),
        Stmt::Range(_) => Some("range"@),
        Stmt::TypeSwitch(_) => Some("typeswitch"@),
        Stmt::Case(_) => Some("case"@),
        Stmt::Select(_) => Some("select"@),
        _ => None,
    }
}

/// The statement opens a nesting level for the cognitive score: an `if`,
/// a `for`, a `range` or a `switch`.
pub open spec fn is_nesting(s: Stmt) -> bool {
    s is If || s is For || s is Range || s is Switch
}

/// The statements that open a nesting level for the cognitive score are
/// exactly `if`, `for`, `range` and `switch`; each is a decision point.
pub proof fn lemma_nesting_statements(s: Stmt)
    ensures
        is_nesting(s) <==> (s is If || s is For || s is Range || s is Switch),
        is_nesting(s) ==> decision_kind(s) is Some,
{
}

/// A decision point for a statement that makes a decision, at line 0
/// (positions are not consulted) and the given nesting level.
pub fn analyze_statement_for_decision_point(stmt: &Stmt, nesting_level: usize) -> (r: Option<DecisionPoint>)
    ensures
        r is Some <==> decision_kind(*stmt) is Some,
        r matches Some(dp) ==> dp.line == 0 && dp.nesting_level == nesting_level
            && dp.stmt_type@ == decision_kind(*stmt)->0,
{
    let kind: Option<&str> = match stmt {
        Stmt::If(_) => Some("if"),
        Stmt::For(_) => Some("for"),
        Stmt::Switch(_) => Some("switch"),
        Stmt::Range(_) => Some("range"),
        Stmt::TypeSwitch(_) => Some("typeswitch"),
        Stmt::Case(_) => Some("case"),
        Stmt::Select(_) => Some("select"),
        _ => None,
    };
    match kind {
        Some(k) => Some(DecisionPoint { line: 0, stmt_type: String::from_str(k), nesting_level }),
        None => None,
    }
}

/// The cognitive score of a statement at a nesting level and the nesting
/// level it reaches: an `if`, `for`, `range` or `switch` scores one more
/// than the level and goes one level deeper; other statements score 0.
pub fn calculate_cognitive_complexity(stmt: &Stmt, nesting_level: usize) -> (r: (usize, usize))
    requires nesting_level < usize::MAX,
    ensures
        is_nesting(*stmt) ==> r.0 == nesting_level + 1 && r.1 == nesting_level + 1,
        !is_nesting(*stmt) ==> r == (0usize, nesting_level),
        *stmt is If || *stmt is For || *stmt is Range || *stmt is Switch
            ==> r.0 == nesting_level + 1 && r.1 == nesting_level + 1,
        r.0 > 0 ==> decision_kind(*stmt) is Some,
{
    match stmt {
        Stmt::If(_) | Stmt::For(_) | Stmt::Range(_) | Stmt::Switch(_) => (1 + nesting_level, nesting_level + 1),
        _ => (0, nesting_level),
    }
}

/// An implicit empty statement (the content of an empty block).
pub open spec fn implicit_empty(s: Stmt) -> bool {
    s matches Stmt::Empty(e) && e.implicit
}

/// The statements of a block that count as lines of code: all of them,
/// except implicit empty statements in a block without successors.
pub open spec fn counted(stmts: Seq<Statement>, is_exit: bool) -> Seq<Stmt>
    decreases stmts.len(),
{
    if stmts.len() == 0 {
        Seq::empty()
    } else {
        let rest = counted(stmts.drop_last(), is_exit);
        let s = stmts.last().stmt;
        if is_exit && implicit_empty(s) { rest } else { rest.push(s) }
    }
}

/// The counted statements of block `id`; none for the entry block and for
/// blocks without statements.
pub open spec fn block_counted(b: BasicBlock, id: usize, entry: usize) -> Seq<Stmt> {
    if id == entry || b.stmts@.len() == 0 { Seq::empty() } else { counted(b.stmts@, b.succs@.len() == 0) }
}

/// The counted statements of the blocks `ids`, block after block.
pub open spec fn all_counted(m: Map<usize, BasicBlock>, ids: Seq<usize>, entry: usize) -> Seq<Stmt>
    decreases ids.len(),
{
    if ids.len() == 0 {
        Seq::empty()
    } else {
        all_counted(m, ids.drop_last(), entry) + block_counted(m[ids.last()], ids.last(), entry)
    }
}

/// The number of edges of the blocks `ids`.
pub open spec fn edges_sum(m: Map<usize, BasicBlock>, ids: Seq<usize>) -> nat
    decreases ids.len(),
{
    if ids.len() == 0 { 0 } else { edges_sum(m, ids.drop_last()) + m[ids.last()].succs@.len() }
}

/// The decision kinds of the statements that make a decision, in order.
pub open spec fn decision_kinds(s: Seq<Stmt>) -> Seq<Seq<char>>
    decreases s.len(),
{
    if s.len() == 0 {
        Seq::empty()
    } else {
        let rest = decision_kinds(s.drop_last());
        match decision_kind(s.last()) { Some(k) => rest.push(k), None => rest }
    }
}

/// The kinds of a list of decision points.
pub open spec fn dp_kinds(v: Seq<DecisionPoint>) -> Seq<Seq<char>> {
    v.map_values(|d: DecisionPoint| d.stmt_type@)
}

/// Every decision point is at line 0 and nesting level 0.
pub open spec fn at_top_level(v: Seq<DecisionPoint>) -> bool {
    forall|i: int| 0 <= i < v.len() ==> #[trigger] v[i].line == 0 && v[i].nesting_level == 0
}

/// The number of statements that open a nesting level.
pub open spec fn nesting_count(s: Seq<Stmt>) -> nat
    decreases s.len(),
{
    if s.len() == 0 { 0 } else { nesting_count(s.drop_last()) + if is_nesting(s.last()) { 1nat } else { 0nat } }
}

/// McCabe's complexity E - N + 2 of a graph of `n` blocks and `e` edges,
/// at least 1 (and 1 for the bare entry-to-exit graph and the empty graph).
pub open spec fn cyclomatic(n: nat, e: nat) -> nat {
    if n == 0 || (n == 2 && e == 1) {
        1
    } else {
        let s = if e + 2 > usize::MAX { usize::MAX as nat } else { e + 2 };
        if s > n && s - n >= 1 { (s - n) as nat } else { 1 }
    }
}

/// The counts of a graph fit in a `usize`.
pub open spec fn sizes_fit(cfg: ControlFlowGraph) -> bool {
    let ids = sorted_ids(cfg.blocks@.dom());
    &&& edges_sum(cfg.blocks@, ids) <= usize::MAX
    &&& all_counted(cfg.blocks@, ids, cfg.entry).len() <= usize::MAX
}

impl ComplexityLevel {
    /// The class of a cyclomatic complexity (see `level_of`).
    pub fn from_complexity(c: usize) -> (r: ComplexityLevel)
        ensures r == level_of(c as nat),
    {
        if 1 <= c && c <= 5 {
            ComplexityLevel::Low
        } else if 6 <= c && c <= 10 {
            ComplexityLevel::Moderate
        } else if 11 <= c && c <= 20 {
            ComplexityLevel::High
        } else {
            ComplexityLevel::VeryHigh
        }
    }
}

/// The complexity of a function from its graph, visiting blocks by
/// increasing id: the cyclomatic complexity from its blocks and edges
/// (`cyclomatic`), and over the counted statements of the blocks other than
/// the entry (`block_counted`) their number, their decision points and,
/// with `include_cognitive`, the cognitive score and deepest nesting.
#[verifier::spinoff_prover]
pub fn analyze_function_complexity(cfg: &ControlFlowGraph, include_cognitive: bool) -> (r: FunctionComplexity)
    requires sizes_fit(*cfg),
    ensures ({
        let ids = sorted_ids(cfg.blocks@.dom());
        let stmts = all_counted(cfg.blocks@, ids, cfg.entry);
        &&& r.cyclomatic_complexity == cyclomatic(cfg.blocks@.len(), edges_sum(cfg.blocks@, ids))
        &&& r.complexity_level == level_of(r.cyclomatic_complexity as nat)
        &&& r.lines_of_code == stmts.len()
        &&& dp_kinds(r.decision_points@) == decision_kinds(stmts)
        &&& at_top_level(r.decision_points@)
        &&& r.cognitive_complexity == if include_cognitive { nesting_count(stmts) } else { 0 }
        &&& r.nesting_depth_max == if include_cognitive && nesting_count(stmts) > 0 { 1nat } else { 0nat }
    }),
{
    let keys = sorted_unique(&map_keys(&cfg.blocks));
    proof { lemma_sorted_ids(keys@, cfg.blocks@.dom()); }
    let ghost m = cfg.blocks@;
    let num_nodes = cfg.blocks.len();
    let mut num_edges: usize = 0;
    let mut decision_points: Vec<DecisionPoint> = Vec::new();
    let mut cognitive_complexity: usize = 0;
    let mut max_nesting_depth: usize = 0;
    let mut lines_of_code: usize = 0;
    let mut i: usize = 0;
    proof {
        lemma_all_counted_prefix_len(m, keys@, cfg.entry, 0);
        lemma_edges_sum_prefix(m, keys@, 0);
    }
    while i < keys.len()
        invariant
            keys@ == sorted_ids(m.dom()),
            m == cfg.blocks@,
            keys@.to_set() == m.dom(),
            sizes_fit(*cfg),
            i <= keys@.len(),
            num_edges == edges_sum(m, keys@.subrange(0, i as int)),
            lines_of_code == all_counted(m, keys@.subrange(0, i as int), cfg.entry).len(),
            dp_kinds(decision_points@) == decision_kinds(all_counted(m, keys@.subrange(0, i as int), cfg.entry)),
            at_top_level(decision_points@),
            cognitive_complexity == if include_cognitive { nesting_count(all_counted(m, keys@.subrange(0, i as int), cfg.entry)) } else { 0 },
            max_nesting_depth == if include_cognitive && nesting_count(all_counted(m, keys@.subrange(0, i as int), cfg.entry)) > 0 { 1nat } else { 0nat },
        decreases keys@.len() - i,
    {
        let id = keys[i];
        proof {
            assert(keys@.to_set().contains(id));
            assert(keys@.subrange(0, i + 1).drop_last() =~= keys@.subrange(0, i as int));
            lemma_all_counted_prefix_len(m, keys@, cfg.entry, i + 1);
            lemma_edges_sum_prefix(m, keys@, i + 1);
        }
        let block = cfg.blocks.get(&id).unwrap();
        num_edges = num_edges + block.succs.len();
        let ghost before = all_counted(m, keys@.subrange(0, i as int), cfg.entry);
        if id != cfg.entry && block.stmts.len() > 0 {
            let is_exit = block.succs.len() == 0;
            let mut j: usize = 0;
            while j < block.stmts.len()
                invariant
                    m == cfg.blocks@,
                    m.contains_key(id),
                    *block == m[id],
                    is_exit == (block.succs@.len() == 0),
                    j <= block.stmts@.len(),
                    before.len() + counted(block.stmts@, is_exit).len() <= usize::MAX,
                    lines_of_code == (before + counted(block.stmts@.subrange(0, j as int), is_exit)).len(),
                    dp_kinds(decision_points@) == decision_kinds(before + counted(block.stmts@.subrange(0, j as int), is_exit)),
                    at_top_level(decision_points@),
                    cognitive_complexity == if include_cognitive { nesting_count(before + counted(block.stmts@.subrange(0, j as int), is_exit)) } else { 0 },
                    max_nesting_depth == if include_cognitive && nesting_count(before + counted(block.stmts@.subrange(0, j as int), is_exit)) > 0 { 1nat } else { 0nat },
                decreases block.stmts@.len() - j,
            {
                let ghost pre = before + counted(block.stmts@.subrange(0, j as int), is_exit);
                proof {
                    assert(block.stmts@.subrange(0, j + 1).drop_last() =~= block.stmts@.subrange(0, j as int));
                    lemma_counted_prefix_len(block.stmts@, is_exit, j + 1);
                }
                let stmt = &block.stmts[j].stmt;
                let skip = is_exit && match stmt {
                    Stmt::Empty(e) => e.implicit,
                    _ => false,
                };
                if !skip {
                    let ghost post = pre.push(*stmt);
                    assert(before + counted(block.stmts@.subrange(0, j + 1), is_exit) =~= post);
                    assert(post.drop_last() =~= pre);
                    assert(post.last() == *stmt);
                    let ghost dps0 = decision_points@;
                    lines_of_code += 1;
                    match analyze_statement_for_decision_point(stmt, 0) {
                        Some(dp) => {
                            decision_points.push(dp);
                            assert(at_top_level(decision_points@)) by {
                                assert forall|t: int| 0 <= t < decision_points@.len() implies
                                    #[trigger] decision_points@[t].line == 0 && decision_points@[t].nesting_level == 0 by {
                                    if t < dps0.len() {
                                        assert(decision_points@[t] == dps0[t]);
                                    }
                                };
                            };
                            assert(decision_kinds(post) == decision_kinds(pre).push(decision_kind(*stmt)->0));
                            assert(dp_kinds(decision_points@) =~= dp_kinds(dps0).push(dp.stmt_type@));
                        },
                        None => {
                            assert(decision_kinds(post) == decision_kinds(pre));
                        },
                    }
                    if include_cognitive {
                        let (score, nesting) = calculate_cognitive_complexity(stmt, 0);
                        proof { lemma_nesting_count_le(post); }
                        cognitive_complexity += score;
                        if nesting > max_nesting_depth {
                            max_nesting_depth = nesting;
                        }
                    }
                } else {
                    assert(before + counted(block.stmts@.subrange(0, j + 1), is_exit) =~= pre);
                }
                j += 1;
            }
            proof {
                assert(block.stmts@.subrange(0, block.stmts@.len() as int) =~= block.stmts@);
                assert(before + counted(block.stmts@.subrange(0, block.stmts@.len() as int), is_exit)
                    == before + block_counted(m[id], id, cfg.entry));
            }
        } else {
            assert(before + block_counted(m[id], id, cfg.entry) =~= before);
        }
        proof {
            assert(all_counted(m, keys@.subrange(0, i + 1), cfg.entry)
                =~= before + block_counted(m[id], id, cfg.entry));
        }
        i += 1;
    }
    proof {
        assert(keys@.subrange(0, keys@.len() as int) =~= keys@);
    }
    let cyclomatic_complexity: usize = if num_nodes > 0 {
        if num_nodes == 2 && num_edges == 1 {
            1
        } else {
            let s = num_edges.saturating_add(2).saturating_sub(num_nodes);
            if s > 1 { s } else { 1 }
        }
    } else {
        1
    };
    let complexity_level = ComplexityLevel::from_complexity(cyclomatic_complexity);
    FunctionComplexity {
        cyclomatic_complexity,
        cognitive_complexity,
        lines_of_code,
        decision_points,
        complexity_level,
        nesting_depth_max: max_nesting_depth,
    }
}

proof fn lemma_counted_prefix_len(stmts: Seq<Statement>, is_exit: bool, j: int)
    requires 0 <= j <= stmts.len(),
    ensures counted(stmts.subrange(0, j), is_exit).len() <= counted(stmts, is_exit).len(),
    decreases stmts.len() - j,
{
    if j < stmts.len() {
        lemma_counted_prefix_len(stmts, is_exit, j + 1);
        assert(stmts.subrange(0, j + 1).drop_last() =~= stmts.subrange(0, j));
    } else {
        assert(stmts.subrange(0, j) =~= stmts);
    }
}

proof fn lemma_all_counted_prefix_len(m: Map<usize, BasicBlock>, ids: Seq<usize>, entry: usize, i: int)
    requires 0 <= i <= ids.len(),
    ensures all_counted(m, ids.subrange(0, i), entry).len() <= all_counted(m, ids, entry).len(),
    decreases ids.len() - i,
{
    if i < ids.len() {
        lemma_all_counted_prefix_len(m, ids, entry, i + 1);
        assert(ids.subrange(0, i + 1).drop_last() =~= ids.subrange(0, i));
    } else {
        assert(ids.subrange(0, i) =~= ids);
    }
}

proof fn lemma_edges_sum_prefix(m: Map<usize, BasicBlock>, ids: Seq<usize>, i: int)
    requires 0 <= i <= ids.len(),
    ensures edges_sum(m, ids.subrange(0, i)) <= edges_sum(m, ids),
    decreases ids.len() - i,
{
    if i < ids.len() {
        lemma_edges_sum_prefix(m, ids, i + 1);
        assert(ids.subrange(0, i + 1).drop_last() =~= ids.subrange(0, i));
    } else {
        assert(ids.subrange(0, i) =~= ids);
    }
}

proof fn lemma_nesting_count_le(s: Seq<Stmt>)
    ensures nesting_count(s) <= s.len(),
    decreases s.len(),
{
    if s.len() > 0 {
        lemma_nesting_count_le(s.drop_last());
    }
}


/// McCabe's complexity as computed here is never below 1.
pub proof fn lemma_cyclomatic_at_least_one(n: nat, e: nat)
    ensures cyclomatic(n, e) >= 1,
{
}

} // verus!

verus! {

/// Where a report in `format` goes under `output_path`:
/// `complexity_report.html` or `.csv` for those formats, `.json` for any
/// other.
pub open spec fn report_file(output_path: Seq<char>, format: Seq<char>) -> Seq<char> {
    output_path + if format == "html"@ {
        "/complexity_report.html"@
    } else if format == "csv"@ {
        "/complexity_report.csv"@
    } else {
        "/complexity_report.json"@
    }
}

/// The report's path and format (see `report_file`).
pub fn report_result(output_path: &str, format: &str) -> (r: ReportResult)
    ensures r.report_path@ == report_file(output_path@, format@), r.format@ == format@,
{
    let mut path = String::new();
    string_push_str(&mut path, output_path);
    if crate::strs::str_matches(format, "html") {
        string_push_str(&mut path, "/complexity_report.html");
    } else if crate::strs::str_matches(format, "csv") {
        string_push_str(&mut path, "/complexity_report.csv");
    } else {
        string_push_str(&mut path, "/complexity_report.json");
    }
    let mut f = String::new();
    string_push_str(&mut f, format);
    ReportResult { report_path: path, format: f }
}

} // verus!
