//! The modular control flow graph builder: a function body is built as a
//! chain of blocks, one statement after another, with `if`, `for`, `range`
//! and labeled statements handled by their own steps and `break`,
//! `continue` and `goto` resolved through the label table.
use vstd::prelude::*;
use std::collections::HashMap;
use crate::ast::{Stmt, FuncDecl, Decl, File};
use crate::span::{func_decl_spans_ok, file_ok, decl_ok};
use crate::cfg::{
    labels_kept, stmt_kind,
    BasicBlock, Statement, LabelMap, graph_ok, labels_below, add_block, add_empty_block, set_succs,
    push_succ, connect_if_empty, empty_stmt, stmt_kind_str, pending_below, lemma_pending_grow, append_pending, one,
    stmts_spans_ok, label_lookup,
};
use crate::position::{FileSet, line_at};
use crate::span::{stmt_ok, stmt_pos, stmt_end};
use crate::scope::AstObjects;
use crate::token::Token;
use crate::strs::string_map_insert;
use crate::cfg::builder::last_func_named;

pub mod statement_handlers;
pub mod loop_handlers;
pub mod export;

verus! {

broadcast use vstd::std_specs::hash::group_hash_axioms;

/// The control flow graph of one function: its blocks by id, the entry
/// block and the exit block.
#[derive(Debug, Clone)]
pub struct ControlFlowGraph {
    pub blocks: HashMap<usize, BasicBlock>,
    pub entry: usize,
    pub exit: usize,
}

/// What holds of the builder state before each building step: the blocks
/// are well formed, `next_id` is their number, and every id the step may
/// jump to exists.
pub open spec fn state_ok(blocks: Seq<BasicBlock>, next_id: usize, exit_id: usize,
    loop_cond: Option<usize>, loop_after: Option<usize>, labels: Seq<(String, usize)>) -> bool {
    &&& graph_ok(blocks)
    &&& next_id == blocks.len()
    &&& exit_id < blocks.len()
    &&& (loop_cond matches Some(c) ==> c < blocks.len())
    &&& (loop_after matches Some(a) ==> a < blocks.len())
    &&& labels_below(labels, blocks.len() as int)
}

/// What a building step leaves: the state is still well formed, blocks were
/// only added, and the given ids and pending jumps name existing blocks.
pub open spec fn step_ok(old_blocks: Seq<BasicBlock>, blocks: Seq<BasicBlock>, next_id: usize,
    labels: Seq<(String, usize)>, pending: Seq<(usize, String)>) -> bool {
    &&& graph_ok(blocks)
    &&& next_id == blocks.len()
    &&& blocks.len() >= old_blocks.len()
    &&& labels_below(labels, blocks.len() as int)
    &&& pending_below(pending, blocks.len() as int)
}

/// The first `n` blocks are as they were, blocks `x` and `y` aside, and no
/// block was taken away.
pub open spec fn keeps_below(a: Seq<BasicBlock>, b: Seq<BasicBlock>, n: int, x: int, y: int) -> bool {
    &&& b.len() >= a.len()
    &&& forall|i: int| 0 <= i < n && i != x && i != y ==> #[trigger] b[i] == a[i]
}

/// Keeping blocks composes: a later step that keeps the first `n2 >= n`
/// blocks, its exceptions among `x` and `y` or not below `n`, keeps them too.
pub(crate) proof fn lemma_keeps_step(a: Seq<BasicBlock>, b: Seq<BasicBlock>, c: Seq<BasicBlock>, n: int, x: int, y: int,
    n2: int, x2: int, y2: int)
    requires
        keeps_below(a, b, n, x, y),
        keeps_below(b, c, n2, x2, y2),
        n <= n2,
        0 <= x2 < n ==> x2 == x || x2 == y,
        0 <= y2 < n ==> y2 == x || y2 == y,
    ensures keeps_below(a, c, n, x, y),
{
    assert forall|i: int| 0 <= i < n && i != x && i != y implies #[trigger] c[i] == a[i] by {
        assert(c[i] == b[i]);
        assert(b[i] == a[i]);
    };
}

/// A chain built from `stmts` (the graph had the blocks `a`, has `b`):
/// statement `k` starts at block `f[k]`, which holds it unless it is an
/// `if` or a loop, and ends at block `e[k]`; the blocks of each statement
/// come after those of the one before; each statement's end leads to the
/// next statement's start unless it jumps on its own (`return`, `break`,
/// `continue`, `goto`) or is labelled (its label block already leads into
/// it); the first statement starts at the first new block and the last ends
/// at `last`, which has no successor unless that statement jumps or is
/// labelled.
#[verifier::opaque]
pub open spec fn chain_order(stmts: Seq<Stmt>, a: Seq<BasicBlock>, b: Seq<BasicBlock>, f: Seq<int>, e: Seq<int>,
    last: int) -> bool {
    &&& f.len() == stmts.len() && e.len() == stmts.len()
    &&& forall|k: int| 0 <= k < stmts.len() ==> a.len() <= #[trigger] f[k] <= e[k] < b.len()
    &&& forall|k1: int, k2: int| 0 <= k1 < k2 < stmts.len() ==> #[trigger] e[k1] < #[trigger] f[k2]
    &&& forall|k: int| 0 <= k < stmts.len() && !(stmts[k] is If || stmts[k] is For || stmts[k] is Range)
        ==> b[#[trigger] f[k]].stmts@.len() == 1 && b[f[k]].stmts@[0].stmt == stmts[k]
    &&& forall|k: int| 0 <= k < stmts.len() - 1
        ==> b[#[trigger] e[k]].succs@ == seq![f[k + 1] as usize] || stmts[k] is Return || stmts[k] is Branch
            || stmts[k] is Labeled
    &&& stmts.len() > 0 ==> f[0] == a.len() && e[stmts.len() - 1] == last
    &&& stmts.len() > 0 && !(stmts.last() is Return || stmts.last() is Branch || stmts.last() is Labeled)
        ==> b[last].succs@.len() == 0
}

/// Adding the blocks of statement `i` after the chain of the statements
/// before it extends the chain.
proof fn lemma_chain_order_step(stmts: Seq<Stmt>, i: int, a: Seq<BasicBlock>, b0: Seq<BasicBlock>, b1: Seq<BasicBlock>,
    fs: Seq<int>, es: Seq<int>, last: int, n0: int, after: int, exit_id: int)
    requires
        0 <= i < stmts.len(),
        chain_order(stmts.take(i), a, b0, fs, es, last),
        n0 == b0.len(),
        a.len() <= n0,
        exit_id < a.len(),
        i == 0 ==> n0 == a.len(),
        i > 0 ==> a.len() <= last < n0,
        keeps_below(b0, b1, n0, if i > 0 { last } else { -1 }, exit_id),
        i > 0 ==> b1[last].stmts == b0[last].stmts,
        i > 0 ==> (b0[last].succs@.len() == 0 ==> b1[last].succs@ == seq![n0 as usize]),
        n0 <= after < b1.len(),
        !(stmts[i] is If || stmts[i] is For || stmts[i] is Range)
            ==> b1[n0].stmts@.len() == 1 && b1[n0].stmts@[0].stmt == stmts[i],
        !(stmts[i] is Return || stmts[i] is Branch || stmts[i] is Labeled) ==> b1[after].succs@.len() == 0,
    ensures
        chain_order(stmts.take(i + 1), a, b1, fs.push(n0), es.push(after), after),
{
    reveal(chain_order);
    let t0 = stmts.take(i);
    let t1 = stmts.take(i + 1);
    assert(t1 =~= t0.push(stmts[i]));
    let f1 = fs.push(n0);
    let e1 = es.push(after);
    assert forall|k: int| 0 <= k < t1.len() && !(t1[k] is If || t1[k] is For || t1[k] is Range)
        implies b1[#[trigger] f1[k]].stmts@.len() == 1 && b1[f1[k]].stmts@[0].stmt == t1[k] by {
        if k < i {
            assert(f1[k] == fs[k]);
            assert(t1[k] == t0[k]);
            if fs[k] != last {
                assert(b1[fs[k]] == b0[fs[k]]);
            }
        }
    };
    assert forall|k: int| 0 <= k < t1.len() - 1
        implies b1[#[trigger] e1[k]].succs@ == seq![f1[k + 1] as usize] || t1[k] is Return || t1[k] is Branch
            || t1[k] is Labeled by {
        assert(t1[k] == t0[k]);
        if k < i - 1 {
            assert(es[k] < fs[k + 1]);
            assert(fs[k + 1] <= es[k + 1]);
            if k + 1 < i - 1 {
                assert(es[k + 1] < fs[i - 1]);
            }
            assert(es[k] < es[i - 1]);
            assert(b1[es[k]] == b0[es[k]]);
        } else {
            assert(e1[k] == last);
        }
    };
    assert forall|k1: int, k2: int| 0 <= k1 < k2 < t1.len() implies #[trigger] e1[k1] < #[trigger] f1[k2] by {
        if k2 < i {
            assert(e1[k1] == es[k1] && f1[k2] == fs[k2]);
        } else {
            assert(e1[k1] == es[k1]);
        }
    };
}

/// The then-list of an `if` is empty.
pub open spec fn then_list_empty(s: Stmt) -> bool {
    match s {
        Stmt::If(i) => i.body.list@.len() == 0,
        _ => false,
    }
}

/// The `else` of an `if` is a non-empty block or another `if`: it gets a
/// chain of its own.
pub open spec fn else_chain(s: Stmt) -> bool {
    match s {
        Stmt::If(i) => match i.els {
            Some(Stmt::Block(bs)) => bs.list@.len() > 0,
            Some(Stmt::If(_)) => true,
            _ => false,
        },
        _ => false,
    }
}

/// The blocks of an `if` added after block `prev` (the graph had `n`
/// blocks): block `n` holds the statement and leads to the then-chain (the
/// exit block for an empty then-list) and to the else-chain or, without
/// one, to the empty block `r` after the statement, which is the last
/// block and has no successor yet; `prev` leads to block `n` when it had
/// no successor.
pub open spec fn if_shape(stmt: Stmt, a: Seq<BasicBlock>, b: Seq<BasicBlock>, prev: int, exit_id: int, r: int) -> bool {
    let n = a.len() as int;
    &&& b[n].stmts@.len() == 1
    &&& b[n].stmts@[0].stmt == stmt
    &&& b[n].succs@.len() == 2
    &&& b[n].succs@[0] == if then_list_empty(stmt) { exit_id } else { n + 1 }
    &&& else_chain(stmt) ==> n < b[n].succs@[1] < r
    &&& !else_chain(stmt) ==> b[n].succs@[1] == r
    &&& r == b.len() - 1
    &&& b[r].succs@.len() == 0
    &&& prev != exit_id && a[prev].succs@.len() == 0 ==> b[prev].succs@ == seq![n as usize]
}

/// The body of a loop statement is empty.
pub open spec fn loop_body_empty(s: Stmt) -> bool {
    match s {
        Stmt::For(f) => f.body.list@.len() == 0,
        Stmt::Range(r) => r.body.list@.len() == 0,
        _ => false,
    }
}

/// A `for` statement with an init statement.
pub open spec fn for_has_init(s: Stmt) -> bool {
    s matches Stmt::For(f) && f.init is Some
}

/// The blocks of a loop added after block `prev` (the graph had `n`
/// blocks): an init block `n` first when the loop has one (holding the
/// init statement and leading to the condition), then the condition block
/// `c`, which leads to the body (the exit block for an empty body) and to
/// the empty block `r == c + 1` after the loop, which has no successor yet;
/// `prev` leads to the first new block when it had no successor.
pub open spec fn loop_shape(stmt: Stmt, a: Seq<BasicBlock>, b: Seq<BasicBlock>, prev: int, exit_id: int, r: int) -> bool {
    let n = a.len() as int;
    let c = if for_has_init(stmt) { n + 1 } else { n };
    &&& r == c + 1
    &&& b[c].succs@ == seq![(if loop_body_empty(stmt) { exit_id } else { c + 2 }) as usize, r as usize]
    &&& b[r].succs@.len() == 0
    &&& b[r].stmts@.len() == 1
    &&& for_has_init(stmt) ==> b[n].stmts@.len() == 1 && b[n].stmts@[0].stmt == stmt->For_0.init->Some_0
        && b[n].succs@ == seq![c as usize]
    &&& prev != exit_id && a[prev].succs@.len() == 0 ==> b[prev].succs@ == seq![n as usize]
}

/// Adding a block keeps all earlier ones.
pub(crate) proof fn lemma_keeps_push(a: Seq<BasicBlock>, b: Seq<BasicBlock>)
    requires b.len() == a.len() + 1, b.drop_last() == a,
    ensures keeps_below(a, b, a.len() as int, -1, -1),
{
    assert forall|i: int| 0 <= i < a.len() && i != -1 && i != -1 implies #[trigger] b[i] == a[i] by {
        assert(b.drop_last()[i] == b[i]);
    };
}

proof fn lemma_below_grow(labels: Seq<(String, usize)>, pending: Seq<(usize, String)>, n: int, m: int)
    requires labels_below(labels, n), pending_below(pending, n), n <= m,
    ensures labels_below(labels, m), pending_below(pending, m),
{
}

/// The lines on which a statement starts and ends; a position outside the
/// file set gives line 0 for the start and the start line for the end.
pub fn get_precise_line_info(fset: &FileSet, stmt: &Stmt) -> (r: (usize, usize))
    requires fset.wf(), stmt_ok(*stmt),
    ensures
        r.0 == match line_at(*fset, stmt_pos(*stmt)) { Some(l) => l, None => 0 },
        r.1 == match line_at(*fset, stmt_end(*stmt) as usize) { Some(l) => l, None => r.0 },
{
    let pos = stmt.pos();
    let end_pos = stmt.end();
    let start_line = match fset.position(pos) {
        Some(p) => p.line,
        None => 0,
    };
    let end_line = match fset.position(end_pos) {
        Some(p) => p.line,
        None => start_line,
    };
    (start_line, end_line)
}

/// Appends a block holding `stmt` with the lines it spans and the given
/// successors; returns its id.
pub fn push_single_with_lines(fset: &FileSet, blocks: &mut Vec<BasicBlock>, stmt: Stmt, succs: Vec<usize>) -> (id: usize)
    requires
        fset.wf(),
        stmt_ok(stmt),
        graph_ok(old(blocks)@),
        forall|j: int| 0 <= j < succs@.len() ==> #[trigger] succs@[j] <= old(blocks)@.len(),
    ensures
        id == old(blocks)@.len(),
        final(blocks)@.len() == old(blocks)@.len() + 1,
        graph_ok(final(blocks)@),
        final(blocks)@.drop_last() == old(blocks)@,
        forall|i: int| 0 <= i < old(blocks)@.len() ==> #[trigger] final(blocks)@[i] == old(blocks)@[i],
        final(blocks)@[id as int].succs == succs,
        final(blocks)@[id as int].stmts@.len() == 1,
        final(blocks)@[id as int].stmts@[0].stmt == stmt,
        (final(blocks)@[id as int].start_line, final(blocks)@[id as int].end_line) == get_lines(*fset, stmt),
        stmts_spans_ok(old(blocks)@) ==> stmts_spans_ok(final(blocks)@),
{
    let (start_line, end_line) = get_precise_line_info(fset, &stmt);
    let text = String::from_str(stmt_kind_str(&stmt));
    let id = add_block(blocks, stmt, text, succs, start_line, end_line);
    proof {
        assert forall|i: int| 0 <= i < old(blocks)@.len() implies #[trigger] blocks@[i] == old(blocks)@[i] by {
            assert(blocks@.drop_last()[i] == blocks@[i]);
        };
    }
    id
}

/// The start and end lines `push_single` records for a statement.
pub open spec fn get_lines(fset: FileSet, stmt: Stmt) -> (usize, usize) {
    let s = match line_at(fset, stmt_pos(stmt)) { Some(l) => l, None => 0usize };
    (s, match line_at(fset, stmt_end(stmt) as usize) { Some(l) => l, None => s })
}


/// Appends a block holding `stmt` (described by its kind, lines unknown) with
/// the given successors; returns its id.
pub fn push_single(blocks: &mut Vec<BasicBlock>, stmt: Stmt, succs: Vec<usize>) -> (id: usize)
    requires
        graph_ok(old(blocks)@),
        forall|j: int| 0 <= j < succs@.len() ==> #[trigger] succs@[j] <= old(blocks)@.len(),
    ensures
        id == old(blocks)@.len(),
        final(blocks)@.len() == old(blocks)@.len() + 1,
        graph_ok(final(blocks)@),
        final(blocks)@.drop_last() == old(blocks)@,
        forall|i: int| 0 <= i < old(blocks)@.len() ==> #[trigger] final(blocks)@[i] == old(blocks)@[i],
        final(blocks)@[id as int].succs == succs,
        final(blocks)@[id as int].stmts@.len() == 1,
        final(blocks)@[id as int].stmts@[0].stmt == stmt,
        final(blocks)@[id as int].stmts@[0].text@ == stmt_kind(stmt),
        final(blocks)@[id as int].start_line == 0 && final(blocks)@[id as int].end_line == 0,
    stmts_spans_ok(old(blocks)@) && stmt_ok(stmt) ==> stmts_spans_ok(final(blocks)@),
{
    let text = String::from_str(stmt_kind_str(&stmt));
    let id = add_block(blocks, stmt, text, succs, 0, 0);
    proof {
        assert forall|i: int| 0 <= i < old(blocks)@.len() implies #[trigger] blocks@[i] == old(blocks)@[i] by {
            assert(blocks@.drop_last()[i] == blocks@[i]);
        };
    }
    id
}

impl ControlFlowGraph {
    /// Builds the blocks of a statement list as a chain. Returns the first
    /// and last block of the chain and the jumps to labels not yet defined.
    /// An empty list is represented by the exit block itself.
    pub fn build_chain(
        blocks: &mut Vec<BasicBlock>,
        next_id: &mut usize,
        stmts: &[Stmt],
        exit_id: usize,
        loop_cond: Option<usize>,
        loop_after: Option<usize>,
        label_map: &mut LabelMap,
    ) -> (r: (usize, usize, Vec<(usize, String)>))
        requires
            state_ok(old(blocks)@, *old(next_id), exit_id, loop_cond, loop_after, old(label_map).entries@),
        ensures
            labels_kept(old(label_map).entries@, final(label_map).entries@),
            keeps_below(old(blocks)@, final(blocks)@, old(blocks)@.len() as int, -1, exit_id as int),
            step_ok(old(blocks)@, final(blocks)@, *final(next_id), final(label_map).entries@, r.2@),
            r.0 < final(blocks)@.len(),
            r.1 < final(blocks)@.len(),
            stmts@.len() == 0 ==> r.0 == exit_id && r.1 == exit_id && final(blocks)@ == old(blocks)@,
            stmts@.len() > 0 ==> r.0 == old(blocks)@.len() && final(blocks)@.len() > old(blocks)@.len()
                && r.1 >= old(blocks)@.len(),
            stmts@.len() > 0 && !(stmts@[0] is If || stmts@[0] is For || stmts@[0] is Range)
                ==> final(blocks)@[r.0 as int].stmts@.len() == 1 && final(blocks)@[r.0 as int].stmts@[0].stmt == stmts@[0],
            stmts@.len() > 0 ==> exists|f: Seq<int>, e: Seq<int>| chain_order(stmts@, old(blocks)@, final(blocks)@, f, e, r.1 as int),
        decreases stmts@, 3nat,
    {
        if stmts.len() == 0 {
            return (exit_id, exit_id, Vec::new());
        }
        let mut prev: Option<usize> = None;
        let entry = *next_id;
        let mut last_id = entry;
        let mut pending: Vec<(usize, String)> = Vec::new();
        let mut i: usize = 0;
        let ghost mut fs: Seq<int> = Seq::empty();
        let ghost mut es: Seq<int> = Seq::empty();
        proof {
            reveal(chain_order);
            assert(chain_order(stmts@.take(0), old(blocks)@, blocks@, fs, es, last_id as int));
        }
        while i < stmts.len()
            invariant
                state_ok(blocks@, *next_id, exit_id, loop_cond, loop_after, label_map.entries@),
                blocks@.len() >= old(blocks)@.len(),
                pending_below(pending@, blocks@.len() as int),
                entry == old(blocks)@.len(),
                keeps_below(old(blocks)@, blocks@, old(blocks)@.len() as int, -1, exit_id as int),
                i <= stmts@.len(),
                i == 0 ==> prev is None && blocks@.len() == old(blocks)@.len(),
                i > 0 ==> (prev matches Some(p) && p < blocks@.len() && last_id == p && blocks@.len() > old(blocks)@.len()),
                i > 0 ==> last_id >= old(blocks)@.len(),
                labels_kept(old(label_map).entries@, label_map.entries@),
                old(blocks)@.len() > exit_id,
                i > 0 && !(stmts@[0] is If || stmts@[0] is For || stmts@[0] is Range)
                    ==> blocks@[entry as int].stmts@.len() == 1 && blocks@[entry as int].stmts@[0].stmt == stmts@[0],
                chain_order(stmts@.take(i as int), old(blocks)@, blocks@, fs, es, last_id as int),
            decreases stmts@.len() - i,
        {
            let ghost n0 = blocks@.len();
            let ghost b0 = blocks@;
            let (after, more) = Self::build_chain_step(blocks, next_id, &stmts[i], prev, exit_id, loop_cond, loop_after, label_map);
            proof {
                lemma_keeps_step(old(blocks)@, b0, blocks@, old(blocks)@.len() as int, -1, exit_id as int, n0 as int,
                    match prev { Some(p) => p as int, None => -1 }, exit_id as int);
                if i > 0 && entry != prev->Some_0 {
                    assert(blocks@[entry as int] == b0[entry as int]);
                }
                assert(keeps_below(b0, blocks@, n0 as int, if i > 0 { last_id as int } else { -1 }, exit_id as int));
                lemma_chain_order_step(stmts@, i as int, old(blocks)@, b0, blocks@, fs, es, last_id as int,
                    n0 as int, after as int, exit_id as int);
                let ghost f1 = fs.push(n0 as int);
                let ghost e1 = es.push(after as int);
                fs = f1;
                es = e1;
            }
            proof { lemma_pending_grow(pending@, n0 as int, blocks@.len() as int); }
            append_pending(&mut pending, more, Ghost(blocks@.len() as int));
            prev = Some(after);
            last_id = after;
            i += 1;
        }
        proof {
            assert(stmts@.take(i as int) =~= stmts@);
        }
        (entry, last_id, pending)
    }

    /// `build_chain` on the single statement `stmt`.
    fn build_chain_single(
        blocks: &mut Vec<BasicBlock>,
        next_id: &mut usize,
        stmt: &Stmt,
        exit_id: usize,
        loop_cond: Option<usize>,
        loop_after: Option<usize>,
        label_map: &mut LabelMap,
    ) -> (r: (usize, usize, Vec<(usize, String)>))
        requires
            state_ok(old(blocks)@, *old(next_id), exit_id, loop_cond, loop_after, old(label_map).entries@),
        ensures
            labels_kept(old(label_map).entries@, final(label_map).entries@),
            keeps_below(old(blocks)@, final(blocks)@, old(blocks)@.len() as int, -1, exit_id as int),
            step_ok(old(blocks)@, final(blocks)@, *final(next_id), final(label_map).entries@, r.2@),
            r.0 == old(blocks)@.len(),
            r.0 < final(blocks)@.len(),
            r.1 < final(blocks)@.len(),
            r.1 >= old(blocks)@.len(),
        decreases *stmt, 2nat,
    {
        let entry = *next_id;
        let (last, pending) = Self::build_chain_step(blocks, next_id, stmt, None, exit_id, loop_cond, loop_after, label_map);
        (entry, last, pending)
    }

    /// One statement of a chain, after the block `prev` (None at the start
    /// of the chain). Returns the block that ends the statement and the jumps
    /// it leaves pending. Always adds at least one block.
    fn build_chain_step(
        blocks: &mut Vec<BasicBlock>,
        next_id: &mut usize,
        stmt: &Stmt,
        prev: Option<usize>,
        exit_id: usize,
        loop_cond: Option<usize>,
        loop_after: Option<usize>,
        label_map: &mut LabelMap,
    ) -> (r: (usize, Vec<(usize, String)>))
        requires
            state_ok(old(blocks)@, *old(next_id), exit_id, loop_cond, loop_after, old(label_map).entries@),
            prev matches Some(p) ==> p < old(blocks)@.len(),
        ensures
            labels_kept(old(label_map).entries@, final(label_map).entries@),
            r.0 >= old(blocks)@.len(),
            keeps_below(old(blocks)@, final(blocks)@, old(blocks)@.len() as int, match prev { Some(p) => p as int, None => -1 }, exit_id as int),
            prev matches Some(p) ==> (p != exit_id ==> final(blocks)@[p as int].stmts == old(blocks)@[p as int].stmts),
            !(*stmt is If || *stmt is For || *stmt is Range) ==> final(blocks)@[old(blocks)@.len() as int].stmts@.len() == 1
                && final(blocks)@[old(blocks)@.len() as int].stmts@[0].stmt == *stmt,
            prev matches Some(p) ==> (p != exit_id && old(blocks)@[p as int].succs@.len() == 0
                ==> final(blocks)@[p as int].succs@ == seq![old(blocks)@.len() as usize]),
            !(*stmt is Return || *stmt is Branch || *stmt is Labeled) ==> final(blocks)@[r.0 as int].succs@.len() == 0,
            step_ok(old(blocks)@, final(blocks)@, *final(next_id), final(label_map).entries@, r.1@),
            final(blocks)@.len() > old(blocks)@.len(),
            r.0 < final(blocks)@.len(),
        decreases *stmt, 1nat,
    {
        let mut pending: Vec<(usize, String)> = Vec::new();
        match stmt {
            Stmt::If(_) => {
                let prev_id = match prev {
                    Some(p) => p,
                    None => {
                        let id = add_empty_block(blocks);
                        *next_id = blocks.len();
                        id
                    },
                };
                let after = Self::handle_if_statement_in_chain(stmt, blocks, next_id, prev_id, exit_id, loop_cond, loop_after, label_map, &mut pending);
                (after, pending)
            },
            Stmt::For(_) => {
                let prev_id = Self::get_or_create_prev_block(prev, blocks, next_id);
                let after = Self::handle_for_statement_in_chain(stmt, blocks, next_id, prev_id, exit_id, loop_cond, loop_after, label_map, &mut pending);
                (after, pending)
            },
            Stmt::Range(_) => {
                let prev_id = Self::get_or_create_prev_block(prev, blocks, next_id);
                let after = Self::handle_range_statement_in_chain(stmt, blocks, next_id, prev_id, exit_id, label_map, &mut pending);
                (after, pending)
            },
            Stmt::Labeled(_) => {
                let id = add_block(blocks, stmt.duplicate(), String::from_str(stmt_kind_str(stmt)), Vec::new(), 0, 0);
                *next_id = blocks.len();
                match prev {
                    Some(p) => { connect_if_empty(blocks, p, id); },
                    None => {},
                }
                handle_labeled_statement_in_chain(stmt, blocks, next_id, id, exit_id, loop_cond, loop_after, label_map, &mut pending);
                (id, pending)
            },
            _ => {
                let id = *next_id;
                let mut succs: Vec<usize> = Vec::new();
                match stmt {
                    Stmt::Return(_) => { succs.push(exit_id); },
                    Stmt::Branch(_) => {
                        handle_branch_in_chain(stmt, &mut succs, exit_id, loop_cond, loop_after, label_map, &mut pending, id);
                    },
                    _ => {},
                }
                let id = add_block(blocks, stmt.duplicate(), String::from_str(stmt_kind_str(stmt)), succs, 0, 0);
                *next_id = blocks.len();
                match prev {
                    Some(p) => { connect_if_empty(blocks, p, id); },
                    None => {},
                }
                (id, pending)
            },
        }
    }

    /// The block before a loop: `prev`, or a new empty block at the start
    /// of a chain.
    pub fn get_or_create_prev_block(prev: Option<usize>, blocks: &mut Vec<BasicBlock>, next_id: &mut usize) -> (r: usize)
        requires
            graph_ok(old(blocks)@),
            *old(next_id) == old(blocks)@.len(),
            prev matches Some(p) ==> p < old(blocks)@.len(),
        ensures
            graph_ok(final(blocks)@),
            *final(next_id) == final(blocks)@.len(),
            r < final(blocks)@.len(),
            prev matches Some(p) ==> r == p && final(blocks)@ == old(blocks)@,
            prev is None ==> r == old(blocks)@.len() && final(blocks)@.len() == old(blocks)@.len() + 1
                && final(blocks)@.drop_last() == old(blocks)@
                && final(blocks)@[r as int].succs@.len() == 0,
    {
        match prev {
            Some(p) => p,
            None => {
                let id = add_empty_block(blocks);
                *next_id = blocks.len();
                id
            },
        }
    }

    /// An `if` after block `prev_id`: a condition block, the then-chain, the
    /// else-chain if there is one, and an empty block after them. Returns
    /// the block after.
    pub fn handle_if_statement_in_chain(
        stmt: &Stmt,
        blocks: &mut Vec<BasicBlock>,
        next_id: &mut usize,
        prev_id: usize,
        exit_id: usize,
        loop_cond: Option<usize>,
        loop_after: Option<usize>,
        label_map: &mut LabelMap,
        pending_gotos: &mut Vec<(usize, String)>,
    ) -> (r: usize)
        requires
            state_ok(old(blocks)@, *old(next_id), exit_id, loop_cond, loop_after, old(label_map).entries@),
            pending_below(old(pending_gotos)@, old(blocks)@.len() as int),
            prev_id < old(blocks)@.len(),
        ensures
            prev_id != exit_id ==> final(blocks)@[prev_id as int].stmts == old(blocks)@[prev_id as int].stmts,
            labels_kept(old(label_map).entries@, final(label_map).entries@),
            stmt is If ==> r >= old(blocks)@.len(),
            keeps_below(old(blocks)@, final(blocks)@, old(blocks)@.len() as int, prev_id as int, exit_id as int),
            step_ok(old(blocks)@, final(blocks)@, *final(next_id), final(label_map).entries@, final(pending_gotos)@),
            r < final(blocks)@.len(),
            stmt is If ==> final(blocks)@.len() > old(blocks)@.len(),
            !(stmt is If) ==> r == prev_id && final(blocks)@ == old(blocks)@,
            stmt is If ==> if_shape(*stmt, old(blocks)@, final(blocks)@, prev_id as int, exit_id as int, r as int),
        decreases *stmt, 0nat,
    {
        match stmt {
            Stmt::If(ifst) => {
                let cond_id = add_block(blocks, stmt.duplicate(), String::from_str(stmt_kind_str(stmt)), Vec::new(), 0, 0);
                *next_id = blocks.len();
                let ghost cb0 = blocks@[cond_id as int];
                assert(cb0.succs@.len() == 0);
                proof { assert(keeps_below(old(blocks)@, blocks@, old(blocks)@.len() as int, prev_id as int, exit_id as int)); }
                let ghost pb0 = blocks@[prev_id as int];
                connect_if_empty(blocks, prev_id, cond_id);
                proof { assert(keeps_below(old(blocks)@, blocks@, old(blocks)@.len() as int, prev_id as int, exit_id as int)); }
                let ghost pb = blocks@[prev_id as int];
                assert(blocks@[cond_id as int] == cb0);
                assert(prev_id != exit_id && old(blocks)@[prev_id as int].succs@.len() == 0 ==> pb.succs@ == seq![cond_id]);
                let ghost n0 = blocks@.len();
                let ghost bb = blocks@;
                proof { lemma_below_grow(label_map.entries@, pending_gotos@, old(blocks)@.len() as int, n0 as int); }
                let (then_entry, then_exit, then_gotos) = Self::build_chain(
                    blocks, next_id, ifst.body.list.as_slice(), exit_id, loop_cond, loop_after, label_map);
                proof { lemma_keeps_step(old(blocks)@, bb, blocks@, old(blocks)@.len() as int, prev_id as int, exit_id as int, n0 as int, -1, exit_id as int); }
                assert(blocks@[cond_id as int] == bb[cond_id as int]);
                assert(prev_id != exit_id ==> blocks@[prev_id as int] == bb[prev_id as int]);
                proof { lemma_pending_grow(pending_gotos@, n0 as int, blocks@.len() as int); }
                append_pending(pending_gotos, then_gotos, Ghost(blocks@.len() as int));
                let else_result: Option<(usize, usize)> = match &ifst.els {
                    Some(Stmt::Block(bs)) => {
                        if bs.list.len() == 0 {
                            None
                        } else {
                            let ghost n1 = blocks@.len();
                            let ghost b1 = blocks@;
                            let (e_entry, e_exit, else_gotos) = Self::build_chain(
                                blocks, next_id, bs.list.as_slice(), exit_id, loop_cond, loop_after, label_map);
                            proof { lemma_keeps_step(old(blocks)@, b1, blocks@, old(blocks)@.len() as int, prev_id as int, exit_id as int, n1 as int, -1, exit_id as int); }
                            assert(blocks@[cond_id as int] == b1[cond_id as int]);
                            assert(prev_id != exit_id ==> blocks@[prev_id as int] == b1[prev_id as int]);
                            assert(n1 <= e_entry);
                            proof { lemma_pending_grow(pending_gotos@, n1 as int, blocks@.len() as int); }
                            append_pending(pending_gotos, else_gotos, Ghost(blocks@.len() as int));
                            Some((e_entry, e_exit))
                        }
                    },
                    Some(els) => {
                        if matches!(els, Stmt::If(_)) {
                            let ghost n1 = blocks@.len();
                            let ghost b1 = blocks@;
                            let (e_entry, e_exit, else_gotos) = Self::build_chain_single(
                                blocks, next_id, els, exit_id, loop_cond, loop_after, label_map);
                            proof { lemma_keeps_step(old(blocks)@, b1, blocks@, old(blocks)@.len() as int, prev_id as int, exit_id as int, n1 as int, -1, exit_id as int); }
                            assert(blocks@[cond_id as int] == b1[cond_id as int]);
                            assert(prev_id != exit_id ==> blocks@[prev_id as int] == b1[prev_id as int]);
                            assert(n1 <= e_entry);
                            proof { lemma_pending_grow(pending_gotos@, n1 as int, blocks@.len() as int); }
                            append_pending(pending_gotos, else_gotos, Ghost(blocks@.len() as int));
                            Some((e_entry, e_exit))
                        } else {
                            None
                        }
                    },
                    None => None,
                };
                let ghost n2 = blocks@.len();
                let ghost b5 = blocks@;
                let after_id = add_empty_block(blocks);
                proof { lemma_keeps_push(b5, blocks@); lemma_keeps_step(old(blocks)@, b5, blocks@, old(blocks)@.len() as int, prev_id as int, exit_id as int, b5.len() as int, -1, -1); }
                assert(blocks@[cond_id as int] == cb0);
                assert(prev_id != exit_id && old(blocks)@[prev_id as int].succs@.len() == 0 ==> blocks@[prev_id as int].succs@ == seq![cond_id]);
                *next_id = blocks.len();
                proof { lemma_below_grow(label_map.entries@, pending_gotos@, n2 as int, blocks@.len() as int); }
                proof { assert(keeps_below(old(blocks)@, blocks@, old(blocks)@.len() as int, prev_id as int, exit_id as int)); }
                push_succ(blocks, cond_id, then_entry);
                proof { assert(keeps_below(old(blocks)@, blocks@, old(blocks)@.len() as int, prev_id as int, exit_id as int)); }
                let second = match else_result {
                    Some((e, _)) => e,
                    None => after_id,
                };
                push_succ(blocks, cond_id, second);
                let ghost cb = blocks@[cond_id as int];
                let ghost ab = blocks@[after_id as int];
                let ghost pbf = blocks@[prev_id as int];
                assert(cb.succs@ == seq![then_entry, second]);
                assert(ab.succs@.len() == 0);
                proof { assert(keeps_below(old(blocks)@, blocks@, old(blocks)@.len() as int, prev_id as int, exit_id as int)); }
                assert(then_exit == exit_id || then_exit > old(blocks)@.len());
                connect_if_empty(blocks, then_exit, after_id);
                proof { assert(keeps_below(old(blocks)@, blocks@, old(blocks)@.len() as int, prev_id as int, exit_id as int)); }
                assert(blocks@[cond_id as int] == cb);
                assert(blocks@[after_id as int] == ab);
                assert(prev_id != exit_id ==> blocks@[prev_id as int] == pbf);
                let ghost b7 = blocks@;
                match else_result {
                    Some((_, e_exit)) => {
                        assert(e_exit == exit_id || e_exit > cond_id);
                        connect_if_empty(blocks, e_exit, after_id);
                    },
                    None => {},
                }
                assert(blocks@[cond_id as int] == cb);
                assert(blocks@[after_id as int] == ab);
                assert(prev_id != exit_id ==> blocks@[prev_id as int] == pbf);
                after_id
            },
            _ => prev_id,
        }
    }

    /// A three-clause `for` after block `prev_id`: init, condition, body and
    /// post blocks, and an empty block after the loop. Returns the block after.
    #[verifier::spinoff_prover]
    #[verifier::rlimit(80)]
    pub fn handle_for_statement_in_chain(
        stmt: &Stmt,
        blocks: &mut Vec<BasicBlock>,
        next_id: &mut usize,
        prev_id: usize,
        exit_id: usize,
        loop_cond: Option<usize>,
        loop_after: Option<usize>,
        label_map: &mut LabelMap,
        pending_gotos: &mut Vec<(usize, String)>,
    ) -> (r: usize)
        requires
            state_ok(old(blocks)@, *old(next_id), exit_id, loop_cond, loop_after, old(label_map).entries@),
            pending_below(old(pending_gotos)@, old(blocks)@.len() as int),
            prev_id < old(blocks)@.len(),
        ensures
            prev_id != exit_id ==> final(blocks)@[prev_id as int].stmts == old(blocks)@[prev_id as int].stmts,
            labels_kept(old(label_map).entries@, final(label_map).entries@),
            stmt is For ==> r >= old(blocks)@.len(),
            keeps_below(old(blocks)@, final(blocks)@, old(blocks)@.len() as int, prev_id as int, exit_id as int),
            step_ok(old(blocks)@, final(blocks)@, *final(next_id), final(label_map).entries@, final(pending_gotos)@),
            r < final(blocks)@.len(),
            stmt is For ==> final(blocks)@.len() > old(blocks)@.len(),
            !(stmt is For) ==> r == prev_id && final(blocks)@ == old(blocks)@,
            stmt is For ==> loop_shape(*stmt, old(blocks)@, final(blocks)@, prev_id as int, exit_id as int, r as int),
        decreases *stmt, 0nat,
    {
        match stmt {
            Stmt::For(forst) => {
                let init_id = match &forst.init {
                    Some(init_stmt) => {
                        let ghost ba = blocks@;
                        let id = add_block(blocks, init_stmt.duplicate(), String::from_str(stmt_kind_str(init_stmt)), Vec::new(), 0, 0);
                        *next_id = blocks.len();
                        proof { lemma_keeps_push(ba, blocks@); lemma_keeps_step(old(blocks)@, ba, blocks@, old(blocks)@.len() as int, prev_id as int, exit_id as int, ba.len() as int, -1, -1); }
                        let ghost ib0 = blocks@[id as int];
                        connect_if_empty(blocks, prev_id, id);
                        proof { assert(keeps_below(old(blocks)@, blocks@, old(blocks)@.len() as int, prev_id as int, exit_id as int)); }
                        assert(blocks@[id as int] == ib0);
                        id
                    },
                    None => prev_id,
                };
                assert(init_id == prev_id || init_id >= old(blocks)@.len());
                let ghost L = old(blocks)@.len() as int;
                assert(for_has_init(*stmt) ==> init_id == L && blocks@.len() == L + 1 && blocks@[L].succs@.len() == 0
                    && blocks@[L].stmts@.len() == 1 && blocks@[L].stmts@[0].stmt == stmt->For_0.init->Some_0);
                assert(!for_has_init(*stmt) ==> init_id == prev_id && blocks@ == old(blocks)@);
                assert(prev_id != exit_id && old(blocks)@[prev_id as int].succs@.len() == 0 && for_has_init(*stmt)
                    ==> blocks@[prev_id as int].succs@ == seq![L as usize]);
                let cond_stmt = match &forst.cond {
                    Some(c) => Stmt::Expr(std::rc::Rc::new(c.duplicate())),
                    None => empty_stmt(),
                };
                let cond_text = String::from_str(stmt_kind_str(&cond_stmt));
                let ghost bc = blocks@;
                let cond_id = add_block(blocks, cond_stmt, cond_text, Vec::new(), 0, 0);
                *next_id = blocks.len();
                proof { lemma_keeps_push(bc, blocks@); lemma_keeps_step(old(blocks)@, bc, blocks@, old(blocks)@.len() as int, prev_id as int, exit_id as int, bc.len() as int, -1, -1); }
                let ghost cb0 = blocks@[cond_id as int];
                let ghost bi = blocks@;
                connect_if_empty(blocks, init_id, cond_id);
                proof { assert(keeps_below(old(blocks)@, blocks@, old(blocks)@.len() as int, prev_id as int, exit_id as int)); }
                assert(blocks@[cond_id as int] == cb0);
                assert(cb0.succs@.len() == 0);
                assert(for_has_init(*stmt) ==> blocks@[L].succs@ == seq![cond_id] && blocks@[L].stmts == bi[L].stmts);
                assert(prev_id != exit_id && old(blocks)@[prev_id as int].succs@.len() == 0
                    ==> blocks@[prev_id as int].succs@ == seq![L as usize]);
                let ghost ib = blocks@[L];
                let ghost pb = blocks@[prev_id as int];
                let ghost bd = blocks@;
                let after_id = add_empty_block(blocks);
                *next_id = blocks.len();
                proof { lemma_keeps_push(bd, blocks@); lemma_keeps_step(old(blocks)@, bd, blocks@, old(blocks)@.len() as int, prev_id as int, exit_id as int, bd.len() as int, -1, -1); }
                let ghost ab = blocks@[after_id as int];
                assert(ab.succs@.len() == 0 && ab.stmts@.len() == 1);
                assert(blocks@[cond_id as int] == cb0);
                assert(blocks@[L] == ib);
                assert(blocks@[prev_id as int] == pb);
                let ghost n0 = blocks@.len();
                let ghost be = blocks@;
                proof { lemma_below_grow(label_map.entries@, pending_gotos@, old(blocks)@.len() as int, n0 as int); }
                let (body_entry, body_exit, loop_gotos) = Self::build_chain(
                    blocks, next_id, forst.body.list.as_slice(), exit_id, Some(cond_id), Some(after_id), label_map);
                proof { lemma_keeps_step(old(blocks)@, be, blocks@, old(blocks)@.len() as int, prev_id as int, exit_id as int, n0 as int, -1, exit_id as int); }
                assert(body_exit == exit_id || body_exit > old(blocks)@.len());
                assert(body_exit == exit_id || body_exit >= n0);
                assert(blocks@[cond_id as int] == cb0);
                assert(blocks@[after_id as int] == ab);
                assert(for_has_init(*stmt) ==> blocks@[L] == ib);
                assert(prev_id != exit_id ==> blocks@[prev_id as int] == pb);
                proof { lemma_pending_grow(pending_gotos@, n0 as int, blocks@.len() as int); }
                append_pending(pending_gotos, loop_gotos, Ghost(blocks@.len() as int));
                match &forst.post {
                    Some(post_stmt) => {
                        let ghost n1 = blocks@.len();
                        let ghost bf = blocks@;
                        let post_id = add_block(blocks, post_stmt.duplicate(), String::from_str(stmt_kind_str(post_stmt)), one(cond_id), 0, 0);
                        *next_id = blocks.len();
                        proof { lemma_keeps_push(bf, blocks@); lemma_keeps_step(old(blocks)@, bf, blocks@, old(blocks)@.len() as int, prev_id as int, exit_id as int, bf.len() as int, -1, -1); }
                        proof { lemma_below_grow(label_map.entries@, pending_gotos@, n1 as int, blocks@.len() as int); }
                        connect_if_empty(blocks, body_exit, post_id);
                        proof { assert(keeps_below(old(blocks)@, blocks@, old(blocks)@.len() as int, prev_id as int, exit_id as int)); }
                        assert(blocks@[cond_id as int] == cb0);
                        assert(blocks@[after_id as int] == ab);
                        assert(for_has_init(*stmt) ==> blocks@[L] == ib);
                        assert(prev_id != exit_id ==> blocks@[prev_id as int] == pb);
                    },
                    None => {
                        connect_if_empty(blocks, body_exit, cond_id);
                        proof { assert(keeps_below(old(blocks)@, blocks@, old(blocks)@.len() as int, prev_id as int, exit_id as int)); }
                        assert(blocks@[cond_id as int] == cb0);
                        assert(blocks@[after_id as int] == ab);
                        assert(for_has_init(*stmt) ==> blocks@[L] == ib);
                        assert(prev_id != exit_id ==> blocks@[prev_id as int] == pb);
                    },
                }
                push_succ(blocks, cond_id, body_entry);
                proof { assert(keeps_below(old(blocks)@, blocks@, old(blocks)@.len() as int, prev_id as int, exit_id as int)); }
                push_succ(blocks, cond_id, after_id);
                proof { assert(keeps_below(old(blocks)@, blocks@, old(blocks)@.len() as int, prev_id as int, exit_id as int)); }
                assert(blocks@[cond_id as int].succs@ =~= seq![body_entry, after_id]);
                assert(blocks@[after_id as int] == ab);
                assert(for_has_init(*stmt) ==> blocks@[L] == ib);
                assert(prev_id != exit_id ==> blocks@[prev_id as int] == pb);
                after_id
            },
            _ => prev_id,
        }
    }

    /// A `range` loop after block `prev_id`: the range block, the body and
    /// an empty block after the loop. Returns the block after.
    #[verifier::spinoff_prover]
    #[verifier::rlimit(80)]
    pub fn handle_range_statement_in_chain(
        stmt: &Stmt,
        blocks: &mut Vec<BasicBlock>,
        next_id: &mut usize,
        prev_id: usize,
        exit_id: usize,
        label_map: &mut LabelMap,
        pending_gotos: &mut Vec<(usize, String)>,
    ) -> (r: usize)
        requires
            state_ok(old(blocks)@, *old(next_id), exit_id, None, None, old(label_map).entries@),
            pending_below(old(pending_gotos)@, old(blocks)@.len() as int),
            prev_id < old(blocks)@.len(),
        ensures
            prev_id != exit_id ==> final(blocks)@[prev_id as int].stmts == old(blocks)@[prev_id as int].stmts,
            labels_kept(old(label_map).entries@, final(label_map).entries@),
            stmt is Range ==> r >= old(blocks)@.len(),
            keeps_below(old(blocks)@, final(blocks)@, old(blocks)@.len() as int, prev_id as int, exit_id as int),
            step_ok(old(blocks)@, final(blocks)@, *final(next_id), final(label_map).entries@, final(pending_gotos)@),
            r < final(blocks)@.len(),
            stmt is Range ==> final(blocks)@.len() > old(blocks)@.len(),
            !(stmt is Range) ==> r == prev_id && final(blocks)@ == old(blocks)@,
            stmt is Range ==> loop_shape(*stmt, old(blocks)@, final(blocks)@, prev_id as int, exit_id as int, r as int),
        decreases *stmt, 0nat,
    {
        match stmt {
            Stmt::Range(rng) => {
                let ghost bc = blocks@;
                let cond_id = add_block(blocks, stmt.duplicate(), String::from_str(stmt_kind_str(stmt)), Vec::new(), 0, 0);
                *next_id = blocks.len();
                proof { lemma_keeps_push(bc, blocks@); lemma_keeps_step(old(blocks)@, bc, blocks@, old(blocks)@.len() as int, prev_id as int, exit_id as int, bc.len() as int, -1, -1); }
                let ghost cb0 = blocks@[cond_id as int];
                assert(cb0.succs@.len() == 0);
                connect_if_empty(blocks, prev_id, cond_id);
                proof { assert(keeps_below(old(blocks)@, blocks@, old(blocks)@.len() as int, prev_id as int, exit_id as int)); }
                assert(blocks@[cond_id as int] == cb0);
                assert(prev_id != exit_id && old(blocks)@[prev_id as int].succs@.len() == 0
                    ==> blocks@[prev_id as int].succs@ == seq![cond_id]);
                let ghost pb = blocks@[prev_id as int];
                let ghost bd = blocks@;
                let after_id = add_empty_block(blocks);
                *next_id = blocks.len();
                proof { lemma_keeps_push(bd, blocks@); lemma_keeps_step(old(blocks)@, bd, blocks@, old(blocks)@.len() as int, prev_id as int, exit_id as int, bd.len() as int, -1, -1); }
                let ghost ab = blocks@[after_id as int];
                assert(ab.succs@.len() == 0 && ab.stmts@.len() == 1);
                assert(blocks@[cond_id as int] == cb0);
                assert(blocks@[prev_id as int] == pb);
                let ghost n0 = blocks@.len();
                let ghost be = blocks@;
                proof { lemma_below_grow(label_map.entries@, pending_gotos@, old(blocks)@.len() as int, n0 as int); }
                let (body_entry, body_exit, nested_gotos) = Self::build_chain(
                    blocks, next_id, rng.body.list.as_slice(), exit_id, Some(cond_id), Some(after_id), label_map);
                proof { lemma_keeps_step(old(blocks)@, be, blocks@, old(blocks)@.len() as int, prev_id as int, exit_id as int, n0 as int, -1, exit_id as int); }
                assert(body_exit == exit_id || body_exit > old(blocks)@.len());
                assert(body_exit == exit_id || body_exit >= n0);
                assert(blocks@[cond_id as int] == cb0);
                assert(blocks@[after_id as int] == ab);
                assert(prev_id != exit_id ==> blocks@[prev_id as int] == pb);
                proof { lemma_pending_grow(pending_gotos@, n0 as int, blocks@.len() as int); }
                append_pending(pending_gotos, nested_gotos, Ghost(blocks@.len() as int));
                connect_if_empty(blocks, body_exit, cond_id);
                proof { assert(keeps_below(old(blocks)@, blocks@, old(blocks)@.len() as int, prev_id as int, exit_id as int)); }
                assert(blocks@[cond_id as int] == cb0);
                assert(blocks@[after_id as int] == ab);
                assert(prev_id != exit_id ==> blocks@[prev_id as int] == pb);
                push_succ(blocks, cond_id, body_entry);
                proof { assert(keeps_below(old(blocks)@, blocks@, old(blocks)@.len() as int, prev_id as int, exit_id as int)); }
                push_succ(blocks, cond_id, after_id);
                proof { assert(keeps_below(old(blocks)@, blocks@, old(blocks)@.len() as int, prev_id as int, exit_id as int)); }
                assert(blocks@[cond_id as int].succs@ =~= seq![body_entry, after_id]);
                assert(blocks@[after_id as int] == ab);
                assert(prev_id != exit_id ==> blocks@[prev_id as int] == pb);
                after_id
            },
            _ => prev_id,
        }
    }

    /// The graph of a function: an entry block, an exit block, and the chain
    /// of the body between them; jumps to labels are resolved at the end
    /// (to the exit block when the label does not exist).
    pub fn build(fset: &FileSet, func: &FuncDecl, objs: &AstObjects) -> (r: ControlFlowGraph)
        requires
            fset.wf(),
            func_decl_spans_ok(*func),
        ensures
            r.entry == 0,
            r.exit == 1,
            cfg_closed(r.blocks@),
            r.blocks@.contains_key(0),
            r.blocks@.contains_key(1),
            r.blocks@[0].stmts@.len() == 0,
            func.body is None ==> r.blocks@.dom() == set![0usize, 1usize] && r.blocks@[0].succs@ == seq![1usize],
            func.body matches Some(b) ==> (b.list@.len() == 0 ==> r.blocks@[0].succs@ == seq![1usize])
                && (b.list@.len() > 0 ==> r.blocks@[0].succs@ == seq![2usize] && r.blocks@.contains_key(2)),
            graph_for(*func, r),
    {
        let (mut blocks, exit_id, func_start_line, func_end_line) = start_graph(fset, func);
        let mut next_id: usize = 2;
        let entry: usize = 0;
        match &func.body {
            Some(body) => {
                let mut label_map = LabelMap::new();
                let (first_id, last_id, pending_gotos) = Self::build_chain(
                    &mut blocks, &mut next_id, body.list.as_slice(), exit_id, None, None, &mut label_map);
                assert(blocks@[0].stmts@.len() == 0);
                let ghost bf = blocks@;
                connect_to_exit_if_needed(&mut blocks, last_id, exit_id);
                assert(blocks@.len() == bf.len() && (bf.len() > 2 ==> blocks@[2].stmts == bf[2].stmts));
                let ghost bg = blocks@;
                resolve_pending_gotos(pending_gotos, &label_map, &mut blocks, exit_id);
                assert(bg.len() > 2 ==> blocks@[2].stmts == bg[2].stmts);
                let ghost bh = blocks@;
                set_succs(&mut blocks, entry, one(first_id));
                assert(bh.len() > 2 ==> blocks@[2].stmts == bh[2].stmts);
            },
            None => {
                set_succs(&mut blocks, entry, one(exit_id));
            },
        }
        let _ = (func_start_line, func_end_line);
        let m = blocks_to_map(blocks);
        proof {
            assert(m@[0] == blocks@[0]);
            if blocks@.len() > 2 {
                assert(m@[2] == blocks@[2]);
            }
            if func.body is None {
                assert(m@.dom() =~= set![0usize, 1usize]);
            }
        }
        ControlFlowGraph { blocks: m, entry, exit: exit_id }
    }
}

/// What `ControlFlowGraph::build` promises of the graph `g` of `func`: entry
/// 0 and exit 1, both in the graph, which is closed; the entry holds no
/// statement and leads to the exit when there is no statement to build,
/// else to block 2, where the body's chain begins.
pub open spec fn graph_for(func: FuncDecl, g: ControlFlowGraph) -> bool {
    &&& g.entry == 0
    &&& g.exit == 1
    &&& cfg_closed(g.blocks@)
    &&& g.blocks@.contains_key(0)
    &&& g.blocks@.contains_key(1)
    &&& g.blocks@[0].stmts@.len() == 0
    &&& func.body is None ==> g.blocks@.dom() == set![0usize, 1usize] && g.blocks@[0].succs@ == seq![1usize]
    &&& func.body matches Some(b) ==> (b.list@.len() == 0 ==> g.blocks@[0].succs@ == seq![1usize])
        && (b.list@.len() > 0 ==> g.blocks@[0].succs@ == seq![2usize] && g.blocks@.contains_key(2))
        && (b.list@.len() > 0 && !(b.list@[0] is If || b.list@[0] is For || b.list@[0] is Range)
            ==> g.blocks@[2].stmts@.len() == 1 && g.blocks@[2].stmts@[0].stmt == b.list@[0])
}

/// A graph in which every block is stored under its own id and every
/// successor is a block of the graph.
pub open spec fn cfg_closed(m: Map<usize, BasicBlock>) -> bool {
    forall|k: usize| #[trigger] m.contains_key(k) ==> {
        &&& m[k].id == k
        &&& forall|j: int| 0 <= j < m[k].succs@.len() ==> m.contains_key(#[trigger] m[k].succs@[j])
    }
}

/// The entry (0) and exit (1) blocks of a function, with the lines on which
/// the function starts and ends.
pub(crate) fn start_graph(fset: &FileSet, func: &FuncDecl) -> (r: (Vec<BasicBlock>, usize, usize, usize))
    requires fset.wf(), func_decl_spans_ok(*func),
    ensures graph_ok(r.0@), r.0@.len() == 2, r.1 == 1, r.0@[0].succs@.len() == 0, r.0@[1].succs@.len() == 0,
        r.0@[0].stmts@.len() == 0, r.0@[1].stmts@.len() == 0,
        stmts_spans_ok(r.0@),
{
    let func_start_line = match fset.position(func.pos()) {
        Some(p) => p.line,
        None => 0,
    };
    let func_end_line = match &func.body {
        Some(body) => match fset.position(body.end()) {
            Some(p) => p.line,
            None => func_start_line,
        },
        None => func_start_line,
    };
    let mut blocks: Vec<BasicBlock> = Vec::new();
    blocks.push(BasicBlock { id: 0, stmts: Vec::new(), succs: Vec::new(), start_line: func_start_line, end_line: func_start_line });
    blocks.push(BasicBlock { id: 1, stmts: Vec::new(), succs: Vec::new(), start_line: func_end_line, end_line: func_end_line });
    (blocks, 1, func_start_line, func_end_line)
}

/// The blocks, keyed by their ids.
pub fn blocks_to_map(blocks: Vec<BasicBlock>) -> (r: HashMap<usize, BasicBlock>)
    requires graph_ok(blocks@),
    ensures
        cfg_closed(r@),
        forall|k: usize| #[trigger] r@.contains_key(k) <==> k < blocks@.len(),
        forall|k: usize| k < blocks@.len() ==> #[trigger] r@[k] == blocks@[k as int],
{
    let ghost all = blocks@;
    let mut rest = blocks;
    let mut m: HashMap<usize, BasicBlock> = HashMap::new();
    while rest.len() > 0
        invariant
            graph_ok(all),
            rest@.len() <= all.len(),
            rest@ == all.subrange(0, rest@.len() as int),
            forall|k: usize| #[trigger] m@.contains_key(k) <==> (rest@.len() <= k < all.len()),
            forall|k: usize| rest@.len() <= k < all.len() ==> #[trigger] m@[k] == all[k as int],
        decreases rest@.len(),
    {
        let ghost before = rest@;
        let b = rest.pop().unwrap();
        let k = rest.len();
        assert(b == all[k as int]);
        assert(rest@ =~= all.subrange(0, k as int));
        m.insert(k, b);
    }
    proof {
        assert forall|k: usize| #[trigger] m@.contains_key(k) implies {
            &&& m@[k].id == k
            &&& forall|j: int| 0 <= j < m@[k].succs@.len() ==> m@.contains_key(#[trigger] m@[k].succs@[j])
        } by {
            assert(m@[k] == all[k as int]);
            assert(all[k as int].id == k);
            assert forall|j: int| 0 <= j < m@[k].succs@.len() implies m@.contains_key(#[trigger] m@[k].succs@[j]) by {
                assert(all[k as int].succs@[j] < all.len());
            };
        };
    }
    m
}

/// Makes the exit block the successor of `prev_id` if that block has none.
pub fn connect_to_exit_if_needed(blocks: &mut Vec<BasicBlock>, prev_id: usize, exit_id: usize)
    requires graph_ok(old(blocks)@), exit_id < old(blocks)@.len(),
    ensures
        graph_ok(final(blocks)@),
        final(blocks)@.len() == old(blocks)@.len(),
        (prev_id != exit_id && prev_id < old(blocks)@.len() && old(blocks)@[prev_id as int].succs@.len() == 0)
            ==> final(blocks)@[prev_id as int].succs@ == seq![exit_id]
                && final(blocks)@ == old(blocks)@.update(prev_id as int,
                    BasicBlock { succs: final(blocks)@[prev_id as int].succs, ..old(blocks)@[prev_id as int] }),
        !(prev_id != exit_id && prev_id < old(blocks)@.len() && old(blocks)@[prev_id as int].succs@.len() == 0)
            ==> final(blocks)@ == old(blocks)@,
        stmts_spans_ok(old(blocks)@) ==> stmts_spans_ok(final(blocks)@),
{
    if prev_id != exit_id {
        if prev_id < blocks.len() && blocks[prev_id].succs.len() == 0 {
            push_succ(blocks, prev_id, exit_id);
        }
    }
}

/// Points each pending jump at its label's block, or at the exit block if
/// the label is not defined.
pub fn resolve_pending_gotos(
    pending_gotos: Vec<(usize, String)>,
    label_map: &LabelMap,
    blocks: &mut Vec<BasicBlock>,
    exit_id: usize,
)
    requires
        graph_ok(old(blocks)@),
        exit_id < old(blocks)@.len(),
        labels_below(label_map.entries@, old(blocks)@.len() as int),
    ensures
        graph_ok(final(blocks)@),
        final(blocks)@.len() == old(blocks)@.len(),
        forall|b: int| 0 <= b < old(blocks)@.len()
            && (forall|t: int| 0 <= t < pending_gotos@.len() ==> #[trigger] pending_gotos@[t].0 != b)
            ==> #[trigger] final(blocks)@[b] == old(blocks)@[b],
        forall|t: int| 0 <= t < pending_gotos@.len() && #[trigger] pending_gotos@[t].0 < old(blocks)@.len()
            ==> final(blocks)@[pending_gotos@[t].0 as int].succs@.len() == 1,
        forall|b: int| 0 <= b < old(blocks)@.len() ==> #[trigger] final(blocks)@[b].stmts == old(blocks)@[b].stmts,
        stmts_spans_ok(old(blocks)@) ==> stmts_spans_ok(final(blocks)@),
{
    let mut i: usize = 0;
    while i < pending_gotos.len()
        invariant
            graph_ok(blocks@),
            blocks@.len() == old(blocks)@.len(),
            exit_id < blocks@.len(),
            labels_below(label_map.entries@, blocks@.len() as int),
            i <= pending_gotos@.len(),
            forall|b: int| 0 <= b < old(blocks)@.len()
                && (forall|t: int| 0 <= t < i ==> #[trigger] pending_gotos@[t].0 != b)
                ==> #[trigger] blocks@[b] == old(blocks)@[b],
            forall|t: int| 0 <= t < i && #[trigger] pending_gotos@[t].0 < old(blocks)@.len()
                ==> blocks@[pending_gotos@[t].0 as int].succs@.len() == 1,
            forall|b: int| 0 <= b < old(blocks)@.len() ==> #[trigger] blocks@[b].stmts == old(blocks)@[b].stmts,
            stmts_spans_ok(old(blocks)@) ==> stmts_spans_ok(blocks@),
        decreases pending_gotos@.len() - i,
    {
        let blk_id = pending_gotos[i].0;
        match label_map.get(pending_gotos[i].1.as_str()) {
            Some(target) => { set_succs(blocks, blk_id, one(target)); },
            None => { set_succs(blocks, blk_id, one(exit_id)); },
        }
        i += 1;
    }
}

/// A labeled statement whose label block `id` exists: the label is bound to
/// `id` and the labeled statement is built as a chain that `id` leads into.
pub fn handle_labeled_statement_in_chain(
    stmt: &Stmt,
    blocks: &mut Vec<BasicBlock>,
    next_id: &mut usize,
    id: usize,
    exit_id: usize,
    loop_cond: Option<usize>,
    loop_after: Option<usize>,
    label_map: &mut LabelMap,
    pending_gotos: &mut Vec<(usize, String)>,
)
    requires
        state_ok(old(blocks)@, *old(next_id), exit_id, loop_cond, loop_after, old(label_map).entries@),
        pending_below(old(pending_gotos)@, old(blocks)@.len() as int),
        id < old(blocks)@.len(),
    ensures
        id != exit_id ==> final(blocks)@[id as int].stmts == old(blocks)@[id as int].stmts,
        labels_kept(old(label_map).entries@, final(label_map).entries@),
        step_ok(old(blocks)@, final(blocks)@, *final(next_id), final(label_map).entries@, final(pending_gotos)@),
        keeps_below(old(blocks)@, final(blocks)@, old(blocks)@.len() as int, id as int, exit_id as int),
        !(*stmt is Labeled) ==> *final(blocks) == *old(blocks) && *final(next_id) == *old(next_id)
            && *final(label_map) == *old(label_map) && *final(pending_gotos) == *old(pending_gotos),
        *stmt is Labeled ==> final(blocks)@.len() > old(blocks)@.len()
            && final(pending_gotos)@.subrange(0, old(pending_gotos)@.len() as int) == old(pending_gotos)@,
        stmt matches Stmt::Labeled(l) ==> final(label_map).entries@.len() > old(label_map).entries@.len()
            && final(label_map).entries@[old(label_map).entries@.len() as int].0@ == l.label.name@
            && final(label_map).entries@[old(label_map).entries@.len() as int].1 == id,
        stmt is Labeled && id != exit_id && old(blocks)@[id as int].succs@.len() == 0
            ==> final(blocks)@[id as int].succs@ == seq![old(blocks)@.len() as usize],
    decreases *stmt, 0nat,
{
    match stmt {
        Stmt::Labeled(lbl) => {
            let name = lbl.label.name.clone();
            label_map.insert(name, id);
            let ghost n0 = blocks@.len();
            let (entry, _exit, inner_gotos) = ControlFlowGraph::build_chain_single(
                blocks, next_id, &lbl.stmt, exit_id, loop_cond, loop_after, label_map);
            proof { lemma_pending_grow(pending_gotos@, n0 as int, blocks@.len() as int); }
            let ghost pg0 = pending_gotos@;
            append_pending(pending_gotos, inner_gotos, Ghost(blocks@.len() as int));
            assert(pending_gotos@.subrange(0, pg0.len() as int) =~= pg0);
            connect_if_empty(blocks, id, entry);
        },
        _ => {},
    }
}

/// Where a branch statement jumps: the block it leads to, or the label it
/// waits for (not yet defined); neither for other statements.
pub open spec fn branch_jump(stmt: Stmt, exit_id: usize, loop_cond: Option<usize>, loop_after: Option<usize>,
    labels: Seq<(String, usize)>) -> (Option<usize>, Option<Seq<char>>) {
    match stmt {
        Stmt::Branch(bs) => {
            if bs.token is BREAK || bs.token is CONTINUE || bs.token is GOTO {
                match bs.label {
                    Some(l) => match label_lookup(labels, l.name@) {
                        Some(t) => (Some(t), None),
                        None => (None, Some(l.name@)),
                    },
                    None => if bs.token is GOTO {
                        (None, None)
                    } else {
                        let target = if bs.token is BREAK { loop_after } else { loop_cond };
                        match target {
                            Some(t) => (Some(t), None),
                            None => (Some(exit_id), None),
                        }
                    },
                }
            } else {
                (None, None)
            }
        },
        _ => (None, None),
    }
}

/// The successors of a branch statement's block `id`: `break` and
/// `continue` go to their label's block or to the enclosing loop's exit or
/// condition (the function exit outside loops); `goto` goes to its label.
/// Jumps to labels not yet defined are left pending.
pub fn handle_branch_in_chain(
    stmt: &Stmt,
    succs: &mut Vec<usize>,
    exit_id: usize,
    loop_cond: Option<usize>,
    loop_after: Option<usize>,
    label_map: &LabelMap,
    pending_gotos: &mut Vec<(usize, String)>,
    id: usize,
)
    requires
        forall|j: int| 0 <= j < old(succs)@.len() ==> #[trigger] old(succs)@[j] <= id,
        exit_id <= id,
        loop_cond matches Some(c) ==> c <= id,
        loop_after matches Some(a) ==> a <= id,
        labels_below(label_map.entries@, id as int),
        pending_below(old(pending_gotos)@, id as int + 1),
    ensures
        forall|j: int| 0 <= j < final(succs)@.len() ==> #[trigger] final(succs)@[j] <= id,
        pending_below(final(pending_gotos)@, id as int + 1),
        final(succs)@.len() <= old(succs)@.len() + 1,
        *stmt matches Stmt::Branch(bs) && bs.label is None && bs.token is CONTINUE
            ==> final(succs)@ == old(succs)@.push(match loop_cond { Some(c) => c, None => exit_id }),
        *stmt matches Stmt::Branch(bs) && bs.label is None && bs.token is BREAK
            ==> final(succs)@ == old(succs)@.push(match loop_after { Some(a) => a, None => exit_id }),
        final(pending_gotos)@.len() <= old(pending_gotos)@.len() + 1,
        final(succs)@ == match branch_jump(*stmt, exit_id, loop_cond, loop_after, label_map.entries@).0 {
            Some(t) => old(succs)@.push(t),
            None => old(succs)@,
        },
        branch_jump(*stmt, exit_id, loop_cond, loop_after, label_map.entries@).1 is None ==> final(pending_gotos)@ == old(pending_gotos)@,
        branch_jump(*stmt, exit_id, loop_cond, loop_after, label_map.entries@).1 matches Some(n) ==>
            final(pending_gotos)@.len() == old(pending_gotos)@.len() + 1
            && final(pending_gotos)@.drop_last() == old(pending_gotos)@
            && final(pending_gotos)@.last().0 == id && final(pending_gotos)@.last().1@ == n,
{
    match stmt {
        Stmt::Branch(bs) => {
            match &bs.token {
                Token::BREAK | Token::CONTINUE => {
                    let is_break = matches!(&bs.token, Token::BREAK);
                    match &bs.label {
                        Some(l) => {
                            match label_map.get(l.name.as_str()) {
                                Some(target) => { succs.push(target); },
                                None => { pending_gotos.push((id, l.name.clone())); },
                            }
                        },
                        None => {
                            let target = if is_break { loop_after } else { loop_cond };
                            match target {
                                Some(t) => { succs.push(t); },
                                None => { succs.push(exit_id); },
                            }
                        },
                    }
                },
                Token::GOTO => {
                    match &bs.label {
                        Some(l) => {
                            match label_map.get(l.name.as_str()) {
                                Some(target) => { succs.push(target); },
                                None => { pending_gotos.push((id, l.name.clone())); },
                            }
                        },
                        None => {},
                    }
                },
                _ => {},
            }
        },
        _ => {},
    }
}

/// The graphs of all functions declared in a file, by function name.
pub fn build_cfgs_for_file(fset: &FileSet, objs: &AstObjects, file: &File) -> (r: HashMap<String, ControlFlowGraph>)
    requires
        fset.wf(),
        file_ok(*file),
    ensures
        forall|k: String| #[trigger] r@.contains_key(k) ==> exists|i: int| 0 <= i < file.decls@.len()
            && (#[trigger] file.decls@[i] matches Decl::Func(f) && f.name.name == k),
        forall|i: int| 0 <= i < file.decls@.len() ==> (#[trigger] file.decls@[i] matches Decl::Func(f) ==> r@.contains_key(f.name.name)),
        forall|k: String| #[trigger] r@.contains_key(k) ==> exists|i: int|
            #[trigger] last_func_named(file.decls@, i, file.decls@.len() as int, k)
            && graph_for(*file.decls@[i]->Func_0, r@[k]),
{
    let mut out: HashMap<String, ControlFlowGraph> = HashMap::new();
    let mut i: usize = 0;
    while i < file.decls.len()
        invariant
            fset.wf(),
            i <= file.decls@.len(),
            forall|j: int| 0 <= j < file.decls@.len() ==> decl_ok(#[trigger] file.decls@[j]),
            forall|k: String| #[trigger] out@.contains_key(k) ==> exists|j: int| 0 <= j < i
                && (#[trigger] file.decls@[j] matches Decl::Func(f) && f.name.name == k),
            forall|j: int| 0 <= j < i ==> (#[trigger] file.decls@[j] matches Decl::Func(f) ==> out@.contains_key(f.name.name)),
            forall|k: String| #[trigger] out@.contains_key(k) ==> exists|j: int|
                #[trigger] last_func_named(file.decls@, j, i as int, k) && graph_for(*file.decls@[j]->Func_0, out@[k]),
        decreases file.decls@.len() - i,
    {
        let ghost o0 = out@;
        match &file.decls[i] {
            Decl::Func(fdecl) => {
                let name = fdecl.name.name.clone();
                let cfg = ControlFlowGraph::build(fset, fdecl, objs);
                string_map_insert(&mut out, name, cfg);
                proof {
                    assert forall|k: String| #[trigger] out@.contains_key(k) implies exists|j: int|
                        #[trigger] last_func_named(file.decls@, j, i + 1, k) && graph_for(*file.decls@[j]->Func_0, out@[k]) by {
                        if k == fdecl.name.name {
                            assert(last_func_named(file.decls@, i as int, i + 1, k));
                        } else {
                            let j = choose|j: int| #[trigger] last_func_named(file.decls@, j, i as int, k)
                                && graph_for(*file.decls@[j]->Func_0, o0[k]);
                            assert(last_func_named(file.decls@, j, i + 1, k));
                        }
                    };
                }
            },
            _ => {
                proof {
                    assert forall|k: String| #[trigger] out@.contains_key(k) implies exists|j: int|
                        #[trigger] last_func_named(file.decls@, j, i + 1, k) && graph_for(*file.decls@[j]->Func_0, out@[k]) by {
                        let j = choose|j: int| #[trigger] last_func_named(file.decls@, j, i as int, k)
                            && graph_for(*file.decls@[j]->Func_0, o0[k]);
                        assert(last_func_named(file.decls@, j, i + 1, k));
                    };
                }
            },
        }
        i += 1;
    }
    out
}

} // verus!

verus! {

/// The path as text, with any part that is not UTF-8 replaced
/// (`Path::to_string_lossy`).
#[verifier::external_body]
fn path_text(p: &std::path::PathBuf) -> (r: String)
{
    p.to_string_lossy().to_string()
}

/// The declaration at `j` is a function that no later declaration of the
/// file redeclares, and that passes the filter (if any).
pub open spec fn selected_function(decls: Seq<Decl>, j: int, filter: Option<Seq<char>>) -> bool {
    &&& decls[j] is Func
    &&& forall|k: int| j < k < decls.len() ==> !(#[trigger] decls[k] matches Decl::Func(g) && g.name.name@ == decls[j]->Func_0.name.name@)
    &&& (filter matches Some(f) ==> decls[j]->Func_0.name.name@ == f)
}

/// The filter as a sequence of characters.
pub open spec fn filter_view(function_filter: Option<&str>) -> Option<Seq<char>> {
    match function_filter { Some(f) => Some(f@), None => None }
}

/// An entry of the result for function `f`: one graph, as `build` makes it
/// for `f`, under a name ending in `::` and the function's name.
pub open spec fn cfg_entry_for(e: (String, Vec<ControlFlowGraph>), f: FuncDecl) -> bool {
    &&& e.1@.len() == 1
    &&& crate::strs::seq_ends_with(e.0@, "::"@ + f.name.name@)
    &&& graph_for(f, e.1@[0])
}

/// The entries of `cfgs` are each for a selected function of the project.
pub open spec fn entries_selected(project: crate::project::ParsedProjectResult, cfgs: Seq<(String, Vec<ControlFlowGraph>)>,
    filt: Option<Seq<char>>) -> bool {
    forall|t: int| 0 <= t < cfgs.len() ==> exists|a: int, b: int| 0 <= a < project.files@.len()
        && 0 <= b < project.files@[a].ast.decls@.len()
        && selected_function(project.files@[a].ast.decls@, b, filt)
        && cfg_entry_for(#[trigger] cfgs[t], *project.files@[a].ast.decls@[b]->Func_0)
}

/// Every selected function of file `a`, among its first `n` declarations,
/// has an entry in `cfgs`.
pub open spec fn file_covered(project: crate::project::ParsedProjectResult, cfgs: Seq<(String, Vec<ControlFlowGraph>)>,
    filt: Option<Seq<char>>, a: int, n: int) -> bool {
    forall|b: int| 0 <= b < n && b < project.files@[a].ast.decls@.len()
        && #[trigger] selected_function(project.files@[a].ast.decls@, b, filt)
        ==> exists|t: int| 0 <= t < cfgs.len() && cfg_entry_for(#[trigger] cfgs[t], *project.files@[a].ast.decls@[b]->Func_0)
}

/// The graphs of the functions of a parsed project, one entry per function
/// (the last of each name in a file) that passes the filter, named
/// `path::function`, file after file in declaration order.
#[verifier::spinoff_prover]
pub fn collect_cfgs(project: &crate::project::ParsedProjectResult, function_filter: Option<&str>) -> (r: export::CFGResult)
    requires
        project.file_set.wf(),
        forall|i: int| 0 <= i < project.files@.len() ==> file_ok(#[trigger] project.files@[i].ast),
    ensures
        entries_selected(*project, r.cfgs@, filter_view(function_filter)),
        forall|a: int| 0 <= a < project.files@.len()
            ==> #[trigger] file_covered(*project, r.cfgs@, filter_view(function_filter), a, project.files@[a].ast.decls@.len() as int),
{
    let ghost filt = filter_view(function_filter);
    let mut cfgs: Vec<(String, Vec<ControlFlowGraph>)> = Vec::new();
    let mut i: usize = 0;
    while i < project.files.len()
        invariant
            project.file_set.wf(),
            forall|q: int| 0 <= q < project.files@.len() ==> file_ok(#[trigger] project.files@[q].ast),
            filt == filter_view(function_filter),
            i <= project.files@.len(),
            entries_selected(*project, cfgs@, filt),
            forall|a: int| 0 <= a < i ==> #[trigger] file_covered(*project, cfgs@, filt, a, project.files@[a].ast.decls@.len() as int),
        decreases project.files@.len() - i,
    {
        let pf = &project.files[i];
        assert(file_ok(pf.ast));
        let path = path_text(&pf.path);
        let decls = &pf.ast.decls;
        let mut j: usize = 0;
        while j < decls.len()
            invariant
                project.file_set.wf(),
                i < project.files@.len(),
                *pf == project.files@[i as int],
                *decls == pf.ast.decls,
                file_ok(pf.ast),
                filt == filter_view(function_filter),
                j <= decls@.len(),
                entries_selected(*project, cfgs@, filt),
                forall|a: int| 0 <= a < i ==> #[trigger] file_covered(*project, cfgs@, filt, a, project.files@[a].ast.decls@.len() as int),
                file_covered(*project, cfgs@, filt, i as int, j as int),
            decreases decls@.len() - j,
        {
            assert(decl_ok(decls@[j as int]));
            let ghost c0 = cfgs@;
            match &decls[j] {
                Decl::Func(f) => {
                    let mut later = false;
                    let mut k: usize = j + 1;
                    while k < decls.len()
                        invariant
                            j < k <= decls@.len(),
                            decls@[j as int] matches Decl::Func(ff) && ff == *f,
                            !later ==> forall|q: int| j < q < k ==> !(#[trigger] decls@[q] matches Decl::Func(g) && g.name.name@ == f.name.name@),
                            later ==> exists|q: int| j < q < k && (#[trigger] decls@[q] matches Decl::Func(g) && g.name.name@ == f.name.name@),
                        decreases decls@.len() - k,
                    {
                        match &decls[k] {
                            Decl::Func(g) => {
                                if crate::strs::str_matches(g.name.name.as_str(), f.name.name.as_str()) {
                                    later = true;
                                }
                            },
                            _ => {},
                        }
                        k += 1;
                    }
                    let passes = match function_filter {
                        Some(flt) => crate::strs::str_matches(f.name.name.as_str(), flt),
                        None => true,
                    };
                    if !later && passes {
                        let graph = ControlFlowGraph::build(&project.file_set, f, &project.ast_objects);
                        let mut name = path.clone();
                        crate::strs::string_push_str(&mut name, "::");
                        crate::strs::string_push_str(&mut name, f.name.name.as_str());
                        let mut gs: Vec<ControlFlowGraph> = Vec::new();
                        gs.push(graph);
                        proof {
                            assert(selected_function(decls@, j as int, filt));
                            assert(crate::strs::seq_ends_with(name@, "::"@ + f.name.name@)) by {
                                assert(name@.subrange(name@.len() - ("::"@ + f.name.name@).len(), name@.len() as int)
                                    =~= "::"@ + f.name.name@);
                            };
                        }
                        cfgs.push((name, gs));
                        proof {
                            assert(project.files@[i as int].ast.decls@[j as int]->Func_0 == *f);
                            assert(cfg_entry_for(cfgs@[c0.len() as int], **f));
                            assert forall|t: int| 0 <= t < cfgs@.len() implies exists|a: int, b: int| 0 <= a < project.files@.len()
                                && 0 <= b < project.files@[a].ast.decls@.len()
                                && selected_function(project.files@[a].ast.decls@, b, filt)
                                && cfg_entry_for(#[trigger] cfgs@[t], *project.files@[a].ast.decls@[b]->Func_0) by {
                                if t < c0.len() {
                                    assert(cfgs@[t] == c0[t]);
                                } else {
                                    assert(selected_function(project.files@[i as int].ast.decls@, j as int, filt));
                                }
                            };
                            assert forall|a: int| 0 <= a < i implies #[trigger] file_covered(*project, cfgs@, filt, a,
                                project.files@[a].ast.decls@.len() as int) by {
                                assert(file_covered(*project, c0, filt, a, project.files@[a].ast.decls@.len() as int));
                                assert forall|b: int| 0 <= b < project.files@[a].ast.decls@.len()
                                    && #[trigger] selected_function(project.files@[a].ast.decls@, b, filt)
                                    implies exists|t: int| 0 <= t < cfgs@.len()
                                        && cfg_entry_for(#[trigger] cfgs@[t], *project.files@[a].ast.decls@[b]->Func_0) by {
                                    let t = choose|t: int| 0 <= t < c0.len() && cfg_entry_for(#[trigger] c0[t], *project.files@[a].ast.decls@[b]->Func_0);
                                    assert(cfgs@[t] == c0[t]);
                                };
                            };
                            assert forall|b: int| 0 <= b < j + 1 && b < project.files@[i as int].ast.decls@.len()
                                && #[trigger] selected_function(project.files@[i as int].ast.decls@, b, filt)
                                implies exists|t: int| 0 <= t < cfgs@.len()
                                    && cfg_entry_for(#[trigger] cfgs@[t], *project.files@[i as int].ast.decls@[b]->Func_0) by {
                                if b < j {
                                    let t = choose|t: int| 0 <= t < c0.len() && cfg_entry_for(#[trigger] c0[t], *project.files@[i as int].ast.decls@[b]->Func_0);
                                    assert(cfgs@[t] == c0[t]);
                                } else {
                                    assert(cfg_entry_for(cfgs@[c0.len() as int], *project.files@[i as int].ast.decls@[b]->Func_0));
                                }
                            };
                        }
                    } else {
                        proof {
                            assert(!selected_function(decls@, j as int, filt)) by {
                                if later {
                                    let q = choose|q: int| j < q < decls@.len() && (#[trigger] decls@[q] matches Decl::Func(g) && g.name.name@ == f.name.name@);
                                    assert(decls@[q] matches Decl::Func(g) && g.name.name@ == decls@[j as int]->Func_0.name.name@);
                                }
                            };
                            assert(file_covered(*project, cfgs@, filt, i as int, j + 1)) by {
                                assert forall|b: int| 0 <= b < j + 1 && b < project.files@[i as int].ast.decls@.len()
                                    && #[trigger] selected_function(project.files@[i as int].ast.decls@, b, filt)
                                    implies exists|t: int| 0 <= t < cfgs@.len()
                                        && cfg_entry_for(#[trigger] cfgs@[t], *project.files@[i as int].ast.decls@[b]->Func_0) by {
                                    if b == j {
                                        assert(project.files@[i as int].ast.decls@ == decls@);
                                    }
                                };
                            };
                        }
                    }
                },
                _ => {
                    proof {
                        assert(file_covered(*project, cfgs@, filt, i as int, j + 1)) by {
                            assert forall|b: int| 0 <= b < j + 1 && b < project.files@[i as int].ast.decls@.len()
                                && #[trigger] selected_function(project.files@[i as int].ast.decls@, b, filt)
                                implies exists|t: int| 0 <= t < cfgs@.len()
                                    && cfg_entry_for(#[trigger] cfgs@[t], *project.files@[i as int].ast.decls@[b]->Func_0) by {
                                if b == j {
                                    assert(project.files@[i as int].ast.decls@ == decls@);
                                }
                            };
                        };
                    }
                },
            }
            j += 1;
        }
        i += 1;
    }
    export::CFGResult { cfgs }
}


} // verus!
