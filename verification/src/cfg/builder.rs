//! The control flow graph builder for function bodies: every top-level
//! statement gets a block carrying its source lines, nested statement lists
//! are built as chains, jumps are resolved through the label and loop
//! tables, and the result is cleaned of unreachable and empty pass-through
//! blocks.
use vstd::prelude::*;
use std::collections::{HashMap, HashSet};
use std::rc::Rc;
use crate::ast::{Stmt, FuncDecl, Decl, File};
use crate::span::{stmt_ok, stmts_ok, block_ok, opt_stmt_ok, func_decl_spans_ok, file_ok, decl_ok, stmt_pos, stmt_end};
use crate::position::{FileSet, line_at};
use crate::scope::AstObjects;
use crate::token::Token;
use crate::cfg::{
    labels_kept,
    BasicBlock, Statement, LabelMap, LoopContext, ControlFlowGraph, graph_ok, labels_below, add_block, add_empty_block,
    set_succs, push_succ, connect_if_empty, empty_stmt, stmt_kind_str, one, label_lookup, reachable, stmts_spans_ok, map_stmts_ok, block_stmts_ok,
};
use crate::cfg::optimization::{clean_unreachable_blocks, optimize_empty_blocks, lemma_cleaned_all_reachable, kept_block,
    lemma_optimized_keeps_entry_edge, succ_view, empty_only, MAX_ITERATIONS};
use crate::cfg_plugin::{else_chain, keeps_below, lemma_keeps_step, lemma_keeps_push, get_precise_line_info, push_single_with_lines, push_single, get_lines, start_graph, blocks_to_map, connect_to_exit_if_needed, resolve_pending_gotos};
use crate::cfg::is_path;
use crate::strs::string_map_insert;

verus! {

broadcast use vstd::std_specs::hash::group_hash_axioms;

/// The id of the exit block of every graph the builder makes (the entry is 0).
pub const EXIT_ID: usize = 1;

/// Every pending jump is from a block made after the entry and exit blocks,
/// and below `hi`.
pub open spec fn pending_ok(p: Seq<(usize, String)>, hi: int) -> bool {
    forall|i: int| 0 <= i < p.len() ==> 2 <= #[trigger] p[i].0 < hi
}

/// The builder state before a step: blocks stored by id, the exit block
/// still without successors, and every id the step may jump to existing.
pub open spec fn build_state(blocks: Seq<BasicBlock>, next_id: usize, loop_cond: Option<usize>,
    loop_after: Option<usize>, labels: Seq<(String, usize)>) -> bool {
    &&& graph_ok(blocks)
    &&& stmts_spans_ok(blocks)
    &&& next_id == blocks.len()
    &&& blocks.len() >= 2
    &&& blocks[EXIT_ID as int].succs@.len() == 0
    &&& (loop_cond matches Some(c) ==> c < blocks.len())
    &&& (loop_after matches Some(a) ==> a < blocks.len())
    &&& labels_below(labels, blocks.len() as int)
}

/// What a step leaves: the state is still well formed, blocks were only
/// added, and the pending jumps are from blocks of the body.
pub open spec fn build_step(old_blocks: Seq<BasicBlock>, blocks: Seq<BasicBlock>, next_id: usize,
    labels: Seq<(String, usize)>, pending: Seq<(usize, String)>) -> bool {
    &&& graph_ok(blocks)
    &&& stmts_spans_ok(blocks)
    &&& next_id == blocks.len()
    &&& blocks.len() >= old_blocks.len()
    &&& blocks[EXIT_ID as int].succs@.len() == 0
    &&& labels_below(labels, blocks.len() as int)
    &&& pending_ok(pending, blocks.len() as int)
}

proof fn lemma_pending_ok_grow(p: Seq<(usize, String)>, n: int, m: int)
    requires pending_ok(p, n), n <= m,
    ensures pending_ok(p, m),
{
}

/// A chain built from `stmts` (the graph had the blocks `a`, has `b`):
/// statement `k` starts at block `f[k]`, which holds it (a `for` starts at
/// its init or condition block), and ends at block `e[k]`; the blocks of
/// each statement come after those of the one before; each statement's end
/// leads to the next statement's start unless it is a jump of its own
/// (`return`, `break`, `continue`, `goto`); the first statement starts at
/// the first new block and the last ends at `last`, which has no successor
/// unless that statement jumps.
pub open spec fn chain_links(stmts: Seq<Stmt>, a: Seq<BasicBlock>, b: Seq<BasicBlock>, f: Seq<int>, e: Seq<int>,
    last: int) -> bool {
    &&& f.len() == stmts.len() && e.len() == stmts.len()
    &&& forall|k: int| 0 <= k < stmts.len() ==> a.len() <= #[trigger] f[k] <= e[k] < b.len()
    &&& forall|k1: int, k2: int| 0 <= k1 < k2 < stmts.len() ==> #[trigger] e[k1] < #[trigger] f[k2]
    &&& forall|k: int| 0 <= k < stmts.len() && !(stmts[k] is For)
        ==> b[#[trigger] f[k]].stmts@.len() == 1 && b[f[k]].stmts@[0].stmt == stmts[k]
    &&& forall|k: int| 0 <= k < stmts.len() - 1
        ==> b[#[trigger] e[k]].succs@ == seq![f[k + 1] as usize] || stmts[k] is Return || stmts[k] is Branch
    &&& stmts.len() > 0 ==> f[0] == a.len() && e[stmts.len() - 1] == last
    &&& stmts.len() > 0 && !(stmts.last() is Return || stmts.last() is Branch) ==> b[last].succs@.len() == 0
}

/// Adding the blocks of statement `i` after the chain of the statements
/// before it extends the chain.
proof fn lemma_chain_links_step(stmts: Seq<Stmt>, i: int, a: Seq<BasicBlock>, b0: Seq<BasicBlock>, b1: Seq<BasicBlock>,
    fs: Seq<int>, es: Seq<int>, last: int, n0: int, after: int)
    requires
        0 <= i < stmts.len(),
        chain_links(stmts.take(i), a, b0, fs, es, last),
        n0 == b0.len(),
        a.len() <= n0,
        i == 0 ==> n0 == a.len(),
        i > 0 ==> a.len() <= last < n0,
        keeps_below(b0, b1, n0, if i > 0 { last } else { -1 }, -1),
        i > 0 ==> b1[last].stmts == b0[last].stmts,
        i > 0 ==> (b0[last].succs@.len() == 0 ==> b1[last].succs@ == seq![n0 as usize]),
        n0 <= after < b1.len(),
        !(stmts[i] is For) ==> b1[n0].stmts@.len() == 1 && b1[n0].stmts@[0].stmt == stmts[i],
        !(stmts[i] is Return || stmts[i] is Branch) ==> b1[after].succs@.len() == 0,
    ensures
        chain_links(stmts.take(i + 1), a, b1, fs.push(n0), es.push(after), after),
{
    let t0 = stmts.take(i);
    let t1 = stmts.take(i + 1);
    assert(t1 =~= t0.push(stmts[i]));
    let f1 = fs.push(n0);
    let e1 = es.push(after);
    assert forall|k: int| 0 <= k < t1.len() && !(t1[k] is For)
        implies b1[#[trigger] f1[k]].stmts@.len() == 1 && b1[f1[k]].stmts@[0].stmt == t1[k] by {
        if k < i {
            assert(f1[k] == fs[k]);
            assert(t1[k] == t0[k]);
            if fs[k] != last {
                assert(b1[fs[k]] == b0[fs[k]]);
            }
        }
    };
    assert forall|k: int| 0 <= k < t1.len() - 1
        implies b1[#[trigger] e1[k]].succs@ == seq![f1[k + 1] as usize] || t1[k] is Return || t1[k] is Branch by {
        assert(t1[k] == t0[k]);
        if k < i - 1 {
            assert(es[k] < fs[k + 1]);
            assert(fs[k + 1] <= es[k + 1]);
            if k + 1 < i - 1 {
                assert(es[k + 1] < fs[i - 1]);
            }
            assert(es[k] < es[i - 1]);
            assert(b1[es[k]] == b0[es[k]]);
        } else {
            assert(e1[k] == last);
        }
    };
    assert forall|k1: int, k2: int| 0 <= k1 < k2 < t1.len() implies #[trigger] e1[k1] < #[trigger] f1[k2] by {
        if k2 < i {
            assert(e1[k1] == es[k1] && f1[k2] == fs[k2]);
        } else {
            assert(e1[k1] == es[k1]);
        }
    };
}

fn append_pending_ok(pending: &mut Vec<(usize, String)>, more: Vec<(usize, String)>, Ghost(n): Ghost<int>)
    requires pending_ok(old(pending)@, n), pending_ok(more@, n),
    ensures pending_ok(final(pending)@, n), final(pending)@ == old(pending)@ + more@,
{
    let ghost m0 = more@;
    let mut more = more;
    pending.append(&mut more);
    proof {
        assert forall|i: int| 0 <= i < pending@.len() implies 2 <= #[trigger] pending@[i].0 < n by {
            if i < old(pending)@.len() {
                assert(pending@[i] == old(pending)@[i]);
            } else {
                assert(pending@[i] == m0[i - old(pending)@.len()]);
            }
        };
        assert(pending@ =~= old(pending)@ + m0);
    }
}

/// A table of labelled loops: the blocks a labelled `break` or `continue`
/// jumps to. Later bindings shadow earlier ones.
pub struct LoopMap {
    pub entries: Vec<(String, LoopContext)>,
}

/// The loop bound to `name` in a list of bindings (the latest binding).
pub open spec fn loop_lookup(e: Seq<(String, LoopContext)>, name: Seq<char>) -> Option<LoopContext>
    decreases e.len(),
{
    if e.len() == 0 {
        None
    } else if e.last().0@ == name {
        Some(e.last().1)
    } else {
        loop_lookup(e.drop_last(), name)
    }
}

/// Every loop in the table has its condition and after blocks below `n`.
pub open spec fn loops_below(e: Seq<(String, LoopContext)>, n: int) -> bool {
    forall|i: int| 0 <= i < e.len() ==> #[trigger] e[i].1.cond_id < n && e[i].1.after_id < n
}

proof fn lemma_loop_lookup_below(e: Seq<(String, LoopContext)>, name: Seq<char>, n: int)
    requires loops_below(e, n),
    ensures loop_lookup(e, name) matches Some(c) ==> c.cond_id < n && c.after_id < n,
    decreases e.len(),
{
    if e.len() > 0 {
        assert(loops_below(e.drop_last(), n)) by {
            assert forall|i: int| 0 <= i < e.drop_last().len() implies
                #[trigger] e.drop_last()[i].1.cond_id < n && e.drop_last()[i].1.after_id < n by {
                assert(e.drop_last()[i] == e[i]);
            };
        };
        lemma_loop_lookup_below(e.drop_last(), name, n);
    }
}

pub(crate) proof fn lemma_loops_below_grow(e: Seq<(String, LoopContext)>, n: int, m: int)
    requires loops_below(e, n), n <= m,
    ensures loops_below(e, m),
{
}

impl LoopMap {
    pub fn new() -> (r: LoopMap)
        ensures r.entries@.len() == 0,
    {
        LoopMap { entries: Vec::new() }
    }

    /// The loop labelled `name`, if any.
    pub fn get(&self, name: &str) -> (r: Option<LoopContext>)
        ensures
            r == loop_lookup(self.entries@, name@),
            forall|n: int| loops_below(self.entries@, n) ==> (r matches Some(c) ==> c.cond_id < n && c.after_id < n),
    {
        proof {
            assert forall|n: int| loops_below(self.entries@, n) implies
                (loop_lookup(self.entries@, name@) matches Some(c) ==> c.cond_id < n && c.after_id < n) by {
                lemma_loop_lookup_below(self.entries@, name@, n);
            };
        }
        let mut i = self.entries.len();
        assert(self.entries@.subrange(0, i as int) =~= self.entries@);
        while i > 0
            invariant
                i <= self.entries@.len(),
                loop_lookup(self.entries@, name@) == loop_lookup(self.entries@.subrange(0, i as int), name@),
            decreases i,
        {
            let ghost pre = self.entries@.subrange(0, i as int);
            assert(pre.drop_last() =~= self.entries@.subrange(0, i - 1));
            if crate::strs::str_matches(self.entries[i - 1].0.as_str(), name) {
                return Some(self.entries[i - 1].1);
            }
            i -= 1;
        }
        assert(self.entries@.subrange(0, 0) =~= Seq::<(String, LoopContext)>::empty());
        None
    }

    /// Binds `name` to the loop `ctx`.
    pub fn insert(&mut self, name: String, ctx: LoopContext)
        ensures
            final(self).entries@ == old(self).entries@.push((name, ctx)),
            forall|n: int| loops_below(old(self).entries@, n) && ctx.cond_id < n && ctx.after_id < n
                ==> loops_below(final(self).entries@, n),
    {
        let ghost e0 = self.entries@;
        self.entries.push((name, ctx));
        proof {
            assert forall|n: int| loops_below(e0, n) && ctx.cond_id < n && ctx.after_id < n
                implies loops_below(self.entries@, n) by {
                assert forall|i: int| 0 <= i < self.entries@.len()
                    implies #[trigger] self.entries@[i].1.cond_id < n && self.entries@[i].1.after_id < n by {
                    if i < e0.len() {
                        assert(self.entries@[i] == e0[i]);
                    }
                };
            };
        }
    }
}

/// Appends one empty block with no successor; returns its id.
fn push_empty(blocks: &mut Vec<BasicBlock>, next_id: &mut usize) -> (id: usize)
    requires
        graph_ok(old(blocks)@),
        *old(next_id) == old(blocks)@.len(),
    ensures
        id == old(blocks)@.len(),
        final(blocks)@.len() == old(blocks)@.len() + 1,
        graph_ok(final(blocks)@),
        final(blocks)@.drop_last() == old(blocks)@,
        forall|i: int| 0 <= i < old(blocks)@.len() ==> #[trigger] final(blocks)@[i] == old(blocks)@[i],
        final(blocks)@[id as int].succs@.len() == 0,
        *final(next_id) == final(blocks)@.len(),
        stmts_spans_ok(old(blocks)@) ==> stmts_spans_ok(final(blocks)@),
{
    let id = add_empty_block(blocks);
    *next_id = blocks.len();
    proof {
        assert forall|i: int| 0 <= i < old(blocks)@.len() implies #[trigger] blocks@[i] == old(blocks)@[i] by {
            assert(blocks@.drop_last()[i] == blocks@[i]);
        };
    }
    id
}

impl ControlFlowGraph {
    /// Builds a statement list as a chain of blocks. Returns the first and
    /// last block of the chain and the jumps to labels not yet defined. An
    /// empty list is one empty block.
    #[verifier::spinoff_prover]
    fn build_chain(
        objs: &AstObjects,
        blocks: &mut Vec<BasicBlock>,
        next_id: &mut usize,
        stmts: &[Stmt],
        exit_id: usize,
        loop_cond: Option<usize>,
        loop_after: Option<usize>,
        label_map: &mut LabelMap,
    ) -> (r: (usize, usize, Vec<(usize, String)>))
        requires
            exit_id == EXIT_ID,
            build_state(old(blocks)@, *old(next_id), loop_cond, loop_after, old(label_map).entries@),
            stmts_ok(stmts@),
        ensures
            labels_kept(old(label_map).entries@, final(label_map).entries@),
            build_step(old(blocks)@, final(blocks)@, *final(next_id), final(label_map).entries@, r.2@),
            r.0 == old(blocks)@.len(),
            old(blocks)@.len() <= r.1 < final(blocks)@.len(),
            keeps_below(old(blocks)@, final(blocks)@, old(blocks)@.len() as int, -1, -1),
            stmts@.len() == 0 ==> r.1 == r.0 && final(blocks)@.len() == old(blocks)@.len() + 1
                && final(blocks)@[r.0 as int].succs@.len() == 0 && r.2@.len() == 0,
            stmts@.len() > 0 && !(stmts@[0] is For) ==> final(blocks)@[r.0 as int].stmts@.len() == 1
                && final(blocks)@[r.0 as int].stmts@[0].stmt == stmts@[0],
            exists|f: Seq<int>, e: Seq<int>| chain_links(stmts@, old(blocks)@, final(blocks)@, f, e, r.1 as int),
        decreases stmts@, 3nat,
    {
        if stmts.len() == 0 {
            let id = push_empty(blocks, next_id);
            proof {
                assert(blocks@[EXIT_ID as int] == old(blocks)@[EXIT_ID as int]);
                lemma_keeps_push(old(blocks)@, blocks@);
                assert(chain_links(stmts@, old(blocks)@, blocks@, Seq::<int>::empty(), Seq::<int>::empty(), id as int));
            }
            return (id, id, Vec::new());
        }
        let mut prev: Option<usize> = None;
        let entry = *next_id;
        let mut last_id = entry;
        let mut pending: Vec<(usize, String)> = Vec::new();
        let mut i: usize = 0;
        let ghost mut fs: Seq<int> = Seq::empty();
        let ghost mut es: Seq<int> = Seq::empty();
        while i < stmts.len()
            invariant
                exit_id == EXIT_ID,
                build_state(blocks@, *next_id, loop_cond, loop_after, label_map.entries@),
                chain_links(stmts@.take(i as int), old(blocks)@, blocks@, fs, es, last_id as int),
                blocks@.len() >= old(blocks)@.len(),
                pending_ok(pending@, blocks@.len() as int),
                entry == old(blocks)@.len(),
                old(blocks)@.len() >= 2,
                stmts_ok(stmts@),
                i <= stmts@.len(),
                i == 0 ==> prev is None && blocks@.len() == old(blocks)@.len(),
                i > 0 ==> (prev matches Some(p) && old(blocks)@.len() <= p < blocks@.len() && last_id == p
                    && blocks@.len() > old(blocks)@.len()),
                labels_kept(old(label_map).entries@, label_map.entries@),
                keeps_below(old(blocks)@, blocks@, old(blocks)@.len() as int, -1, -1),
                i > 0 && !(stmts@[0] is For) ==> blocks@[entry as int].stmts@.len() == 1
                    && blocks@[entry as int].stmts@[0].stmt == stmts@[0],
            decreases stmts@.len() - i,
        {
            let ghost n0 = blocks@.len();
            let ghost b0 = blocks@;
            let (after, more) = Self::chain_step(objs, blocks, next_id, &stmts[i], prev, exit_id, loop_cond, loop_after, label_map);
            proof {
                lemma_keeps_step(old(blocks)@, b0, blocks@, old(blocks)@.len() as int, -1, -1, n0 as int,
                    match prev { Some(p) => p as int, None => -1 }, -1);
                if i > 0 && entry != prev->Some_0 {
                    assert(blocks@[entry as int] == b0[entry as int]);
                }
                assert(keeps_below(b0, blocks@, n0 as int, if i > 0 { last_id as int } else { -1 }, -1));
                lemma_chain_links_step(stmts@, i as int, old(blocks)@, b0, blocks@, fs, es, last_id as int,
                    n0 as int, after as int);
                let ghost f1 = fs.push(n0 as int);
                let ghost e1 = es.push(after as int);
                fs = f1;
                es = e1;
            }
            proof { lemma_pending_ok_grow(pending@, n0 as int, blocks@.len() as int); }
            append_pending_ok(&mut pending, more, Ghost(blocks@.len() as int));
            prev = Some(after);
            last_id = after;
            i += 1;
        }
        proof {
            assert(stmts@.take(i as int) =~= stmts@);
        }
        (entry, last_id, pending)
    }

    /// `build_chain` on a list holding the one statement `stmt`.
    fn build_chain_single(
        objs: &AstObjects,
        blocks: &mut Vec<BasicBlock>,
        next_id: &mut usize,
        stmt: &Stmt,
        exit_id: usize,
        loop_cond: Option<usize>,
        loop_after: Option<usize>,
        label_map: &mut LabelMap,
    ) -> (r: (usize, usize, Vec<(usize, String)>))
        requires
            exit_id == EXIT_ID,
            build_state(old(blocks)@, *old(next_id), loop_cond, loop_after, old(label_map).entries@),
            stmt_ok(*stmt),
        ensures
            labels_kept(old(label_map).entries@, final(label_map).entries@),
            build_step(old(blocks)@, final(blocks)@, *final(next_id), final(label_map).entries@, r.2@),
            r.0 == old(blocks)@.len(),
            old(blocks)@.len() <= r.1 < final(blocks)@.len(),
            keeps_below(old(blocks)@, final(blocks)@, old(blocks)@.len() as int, -1, -1),
            !(*stmt is For) ==> final(blocks)@[r.0 as int].stmts@.len() == 1
                && final(blocks)@[r.0 as int].stmts@[0].stmt == *stmt,
            !(*stmt is Return || *stmt is Branch) ==> final(blocks)@[r.1 as int].succs@.len() == 0,
        decreases *stmt, 2nat,
    {
        let entry = *next_id;
        let (last, pending) = Self::chain_step(objs, blocks, next_id, stmt, None, exit_id, loop_cond, loop_after, label_map);
        (entry, last, pending)
    }

    /// One statement of a chain, after block `prev` (None at the start of
    /// the chain). Returns the block that ends the statement and the jumps
    /// it leaves pending. The first block it makes has the next id.
    #[verifier::spinoff_prover]
    #[verifier::rlimit(100)]
    fn chain_step(
        objs: &AstObjects,
        blocks: &mut Vec<BasicBlock>,
        next_id: &mut usize,
        stmt: &Stmt,
        prev: Option<usize>,
        exit_id: usize,
        loop_cond: Option<usize>,
        loop_after: Option<usize>,
        label_map: &mut LabelMap,
    ) -> (r: (usize, Vec<(usize, String)>))
        requires
            exit_id == EXIT_ID,
            build_state(old(blocks)@, *old(next_id), loop_cond, loop_after, old(label_map).entries@),
            prev matches Some(p) ==> 2 <= p < old(blocks)@.len(),
            stmt_ok(*stmt),
        ensures
            labels_kept(old(label_map).entries@, final(label_map).entries@),
            build_step(old(blocks)@, final(blocks)@, *final(next_id), final(label_map).entries@, r.1@),
            final(blocks)@.len() > old(blocks)@.len(),
            old(blocks)@.len() <= r.0 < final(blocks)@.len(),
            keeps_below(old(blocks)@, final(blocks)@, old(blocks)@.len() as int,
                match prev { Some(p) => p as int, None => -1 }, -1),
            prev matches Some(p) ==> (old(blocks)@[p as int].succs@.len() == 0
                ==> final(blocks)@[p as int].succs@ == seq![old(blocks)@.len() as usize]),
            prev matches Some(p) ==> final(blocks)@[p as int].stmts == old(blocks)@[p as int].stmts,
            !(*stmt is For) ==> final(blocks)@[old(blocks)@.len() as int].stmts@.len() == 1
                && final(blocks)@[old(blocks)@.len() as int].stmts@[0].stmt == *stmt,
            *stmt is If ==> final(blocks)@[old(blocks)@.len() as int].succs@.len() == 2
                && final(blocks)@[old(blocks)@.len() as int].succs@[0] == old(blocks)@.len() + 1
                && final(blocks)@[old(blocks)@.len() as int].succs@[1] <= r.0,
            *stmt is If && else_chain(*stmt) ==> old(blocks)@.len() + 1 < final(blocks)@[old(blocks)@.len() as int].succs@[1] < r.0,
            *stmt is If && !else_chain(*stmt) ==> final(blocks)@[old(blocks)@.len() as int].succs@[1] == r.0,
            !(*stmt is Return || *stmt is Branch) ==> final(blocks)@[r.0 as int].succs@.len() == 0,
            *stmt matches Stmt::Branch(bs) && bs.label is None && bs.token is CONTINUE
                ==> final(blocks)@[old(blocks)@.len() as int].succs@ == seq![match loop_cond { Some(c) => c, None => exit_id }],
            *stmt matches Stmt::Branch(bs) && bs.label is None && bs.token is BREAK
                ==> final(blocks)@[old(blocks)@.len() as int].succs@ == seq![match loop_after { Some(a) => a, None => exit_id }],
            *stmt is Range ==> r.0 == old(blocks)@.len() + 1
                && final(blocks)@[old(blocks)@.len() as int].succs@ == seq![(old(blocks)@.len() + 2) as usize, r.0],
        decreases *stmt, 1nat,
    {
        proof { reveal_with_fuel(stmt_ok, 5); }
        let mut pending: Vec<(usize, String)> = Vec::new();
        match stmt {
            Stmt::If(ifst) => {
                let cond_id = push_single(blocks, stmt.duplicate(), Vec::new());
                *next_id = blocks.len();
                match prev {
                    Some(p) => { connect_if_empty(blocks, p, cond_id); },
                    None => {},
                }
                let ghost n0 = blocks@.len();
                let (then_entry, then_exit, then_gotos) = Self::build_chain(
                    objs, blocks, next_id, ifst.body.list.as_slice(), exit_id, loop_cond, loop_after, label_map);
                append_pending_ok(&mut pending, then_gotos, Ghost(blocks@.len() as int));
                let else_result: Option<(usize, usize)> = match &ifst.els {
                    Some(Stmt::Block(bs)) => {
                        if bs.list.len() == 0 {
                            None
                        } else {
                            let ghost n1 = blocks@.len();
                            let (e_entry, e_exit, else_gotos) = Self::build_chain(
                                objs, blocks, next_id, bs.list.as_slice(), exit_id, loop_cond, loop_after, label_map);
                            proof { lemma_pending_ok_grow(pending@, n1 as int, blocks@.len() as int); }
                            append_pending_ok(&mut pending, else_gotos, Ghost(blocks@.len() as int));
                            Some((e_entry, e_exit))
                        }
                    },
                    Some(els) => {
                        if matches!(els, Stmt::If(_)) {
                            let ghost n1 = blocks@.len();
                            let (e_entry, e_exit, else_gotos) = Self::build_chain_single(
                                objs, blocks, next_id, els, exit_id, loop_cond, loop_after, label_map);
                            proof { lemma_pending_ok_grow(pending@, n1 as int, blocks@.len() as int); }
                            append_pending_ok(&mut pending, else_gotos, Ghost(blocks@.len() as int));
                            Some((e_entry, e_exit))
                        } else {
                            None
                        }
                    },
                    None => None,
                };
                let ghost n2 = blocks@.len();
                let after_id = push_empty(blocks, next_id);
                proof { lemma_pending_ok_grow(pending@, n2 as int, blocks@.len() as int); }
                push_succ(blocks, cond_id, then_entry);
                let second = match else_result {
                    Some((e, _)) => e,
                    None => after_id,
                };
                push_succ(blocks, cond_id, second);
                connect_if_empty(blocks, then_exit, after_id);
                match else_result {
                    Some((_, e_exit)) => { connect_if_empty(blocks, e_exit, after_id); },
                    None => {},
                }
                (after_id, pending)
            },
            Stmt::For(forst) => {
                let init_id = match &forst.init {
                    Some(init_stmt) => {
                        let id = push_single(blocks, init_stmt.duplicate(), Vec::new());
                        *next_id = blocks.len();
                        match prev {
                            Some(p) => { connect_if_empty(blocks, p, id); },
                            None => {},
                        }
                        id
                    },
                    None => match prev {
                        Some(p) => p,
                        None => push_empty(blocks, next_id),
                    },
                };
                let cond_stmt = match &forst.cond {
                    Some(c) => Stmt::Expr(Rc::new(c.duplicate())),
                    None => empty_stmt(),
                };
                assert(2 <= init_id < blocks@.len());
                let cond_id = push_single(blocks, cond_stmt, Vec::new());
                *next_id = blocks.len();
                connect_if_empty(blocks, init_id, cond_id);
                let after_id = push_empty(blocks, next_id);
                assert(blocks@[EXIT_ID as int].succs@.len() == 0);
                assert(labels_below(label_map.entries@, blocks@.len() as int));
                let (body_entry, body_exit, loop_gotos) = Self::build_chain(
                    objs, blocks, next_id, forst.body.list.as_slice(), exit_id, Some(cond_id), Some(after_id), label_map);
                append_pending_ok(&mut pending, loop_gotos, Ghost(blocks@.len() as int));
                match &forst.post {
                    Some(post_stmt) => {
                        let ghost n1 = blocks@.len();
                        let post_id = push_single(blocks, post_stmt.duplicate(), one(cond_id));
                        *next_id = blocks.len();
                        proof { lemma_pending_ok_grow(pending@, n1 as int, blocks@.len() as int); }
                        connect_if_empty(blocks, body_exit, post_id);
                    },
                    None => {
                        connect_if_empty(blocks, body_exit, cond_id);
                    },
                }
                push_succ(blocks, cond_id, body_entry);
                push_succ(blocks, cond_id, after_id);
                (after_id, pending)
            },
            Stmt::Range(rng) => {
                let cond_id = push_single(blocks, stmt.duplicate(), Vec::new());
                *next_id = blocks.len();
                match prev {
                    Some(p) => { connect_if_empty(blocks, p, cond_id); },
                    None => {},
                }
                let after_id = push_empty(blocks, next_id);
                assert(blocks@[EXIT_ID as int].succs@.len() == 0);
                assert(labels_below(label_map.entries@, blocks@.len() as int));
                let (body_entry, body_exit, nested_gotos) = Self::build_chain(
                    objs, blocks, next_id, rng.body.list.as_slice(), exit_id, Some(cond_id), Some(after_id), label_map);
                append_pending_ok(&mut pending, nested_gotos, Ghost(blocks@.len() as int));
                connect_if_empty(blocks, body_exit, cond_id);
                push_succ(blocks, cond_id, body_entry);
                push_succ(blocks, cond_id, after_id);
                (after_id, pending)
            },
            Stmt::Labeled(lbl) => {
                let id = push_single(blocks, stmt.duplicate(), Vec::new());
                *next_id = blocks.len();
                match prev {
                    Some(p) => { connect_if_empty(blocks, p, id); },
                    None => {},
                }
                label_map.insert(lbl.label.name.clone(), id);
                if matches!(&lbl.stmt, Stmt::For(_) | Stmt::Range(_)) {
                    let (entry, exit, inner_gotos) = Self::build_chain_single(
                        objs, blocks, next_id, &lbl.stmt, exit_id, loop_cond, loop_after, label_map);
                    append_pending_ok(&mut pending, inner_gotos, Ghost(blocks@.len() as int));
                    connect_if_empty(blocks, id, entry);
                    (exit, pending)
                } else {
                    (id, pending)
                }
            },
            _ => {
                let id = *next_id;
                let mut succs: Vec<usize> = Vec::new();
                match stmt {
                    Stmt::Return(_) => { succs.push(exit_id); },
                    Stmt::Branch(bs) => {
                        match &bs.token {
                            Token::BREAK | Token::CONTINUE => {
                                let target = if matches!(&bs.token, Token::BREAK) { loop_after } else { loop_cond };
                                match &bs.label {
                                    Some(l) => {
                                        match label_map.get(l.name.as_str()) {
                                            Some(t) => { succs.push(t); },
                                            None => { pending.push((id, l.name.clone())); },
                                        }
                                    },
                                    None => {
                                        match target {
                                            Some(t) => { succs.push(t); },
                                            None => { succs.push(exit_id); },
                                        }
                                    },
                                }
                            },
                            Token::GOTO => {
                                match &bs.label {
                                    Some(l) => {
                                        match label_map.get(l.name.as_str()) {
                                            Some(t) => { succs.push(t); },
                                            None => { pending.push((id, l.name.clone())); },
                                        }
                                    },
                                    None => {},
                                }
                            },
                            _ => {},
                        }
                    },
                    _ => {},
                }
                let id = push_single(blocks, stmt.duplicate(), succs);
                *next_id = blocks.len();
                match prev {
                    Some(p) => { connect_if_empty(blocks, p, id); },
                    None => {},
                }
                (id, pending)
            },
        }
    }

    /// A top-level `if` after block `prev_id`: its condition block (which
    /// `prev_id` now leads to), the then and else chains, and an empty block
    /// after them, which is returned.
    fn top_if(
        fset: &FileSet,
        objs: &AstObjects,
        stmt: &Stmt,
        blocks: &mut Vec<BasicBlock>,
        next_id: &mut usize,
        prev_id: usize,
        exit_id: usize,
        label_map: &mut LabelMap,
        pending: &mut Vec<(usize, String)>,
    ) -> (r: usize)
        requires
            exit_id == EXIT_ID,
            fset.wf(),
            stmt_ok(*stmt),
            stmt is If,
            build_state(old(blocks)@, *old(next_id), None, None, old(label_map).entries@),
            pending_ok(old(pending)@, old(blocks)@.len() as int),
            prev_id == 0 || 2 <= prev_id < old(blocks)@.len(),
        ensures
            labels_kept(old(label_map).entries@, final(label_map).entries@),
            build_step(old(blocks)@, final(blocks)@, *final(next_id), final(label_map).entries@, final(pending)@),
            old(blocks)@.len() <= r < final(blocks)@.len(),
            keeps_below(old(blocks)@, final(blocks)@, old(blocks)@.len() as int, prev_id as int, -1),
            final(blocks)@[prev_id as int].stmts == old(blocks)@[prev_id as int].stmts,
    {
        proof { reveal_with_fuel(stmt_ok, 5); }
        match stmt {
            Stmt::If(ifst) => {
                let cond_id = push_single_with_lines(fset, blocks, stmt.duplicate(), Vec::new());
                *next_id = blocks.len();
                let ghost n0 = blocks@.len();
                proof { lemma_pending_ok_grow(pending@, old(blocks)@.len() as int, n0 as int); }
                let (then_entry, then_exit, then_gotos) = Self::build_chain(
                    objs, blocks, next_id, ifst.body.list.as_slice(), exit_id, None, None, label_map);
                proof { lemma_pending_ok_grow(pending@, n0 as int, blocks@.len() as int); }
                append_pending_ok(pending, then_gotos, Ghost(blocks@.len() as int));
                let else_result: Option<(usize, usize)> = match &ifst.els {
                    Some(Stmt::Block(bs)) => {
                        if bs.list.len() == 0 {
                            None
                        } else {
                            let ghost n1 = blocks@.len();
                            let (e_entry, e_exit, else_gotos) = Self::build_chain(
                                objs, blocks, next_id, bs.list.as_slice(), exit_id, None, None, label_map);
                            proof { lemma_pending_ok_grow(pending@, n1 as int, blocks@.len() as int); }
                            append_pending_ok(pending, else_gotos, Ghost(blocks@.len() as int));
                            Some((e_entry, e_exit))
                        }
                    },
                    Some(els) => {
                        if matches!(els, Stmt::If(_)) {
                            let ghost n1 = blocks@.len();
                            let (e_entry, e_exit, else_gotos) = Self::build_chain_single(
                                objs, blocks, next_id, els, exit_id, None, None, label_map);
                            proof { lemma_pending_ok_grow(pending@, n1 as int, blocks@.len() as int); }
                            append_pending_ok(pending, else_gotos, Ghost(blocks@.len() as int));
                            Some((e_entry, e_exit))
                        } else {
                            None
                        }
                    },
                    None => None,
                };
                let ghost n2 = blocks@.len();
                let after_id = push_empty(blocks, next_id);
                proof { lemma_pending_ok_grow(pending@, n2 as int, blocks@.len() as int); }
                set_succs(blocks, prev_id, one(cond_id));
                push_succ(blocks, cond_id, then_entry);
                let second = match else_result {
                    Some((e, _)) => e,
                    None => after_id,
                };
                push_succ(blocks, cond_id, second);
                connect_if_empty(blocks, then_exit, after_id);
                match else_result {
                    Some((_, e_exit)) => { connect_if_empty(blocks, e_exit, after_id); },
                    None => {},
                }
                after_id
            },
            _ => prev_id,
        }
    }

    /// A top-level `for` (also the loop of a labelled `for`) after block
    /// `prev_id`: init, condition, body and post blocks and the block after
    /// the loop, which is returned. Unlabelled, `prev_id` now leads into the
    /// loop; labelled (`label` holds the label's name and block), the label
    /// block leads into it if it has no successor yet, and the loop is
    /// recorded for labelled `break` and `continue`.
    #[verifier::spinoff_prover]
    fn top_for(
        fset: &FileSet,
        objs: &AstObjects,
        stmt: &Stmt,
        blocks: &mut Vec<BasicBlock>,
        next_id: &mut usize,
        prev_id: usize,
        exit_id: usize,
        label: Option<(String, usize)>,
        label_map: &mut LabelMap,
        loop_contexts: &mut LoopMap,
        pending: &mut Vec<(usize, String)>,
    ) -> (r: usize)
        requires
            exit_id == EXIT_ID,
            fset.wf(),
            stmt_ok(*stmt),
            stmt is For,
            build_state(old(blocks)@, *old(next_id), None, None, old(label_map).entries@),
            loops_below(old(loop_contexts).entries@, old(blocks)@.len() as int),
            pending_ok(old(pending)@, old(blocks)@.len() as int),
            prev_id == 0 || 2 <= prev_id < old(blocks)@.len(),
            label matches Some((_, l)) ==> l == prev_id,
        ensures
            labels_kept(old(label_map).entries@, final(label_map).entries@),
            build_step(old(blocks)@, final(blocks)@, *final(next_id), final(label_map).entries@, final(pending)@),
            loops_below(final(loop_contexts).entries@, final(blocks)@.len() as int),
            old(blocks)@.len() <= r < final(blocks)@.len(),
            keeps_below(old(blocks)@, final(blocks)@, old(blocks)@.len() as int, prev_id as int, -1),
            final(blocks)@[prev_id as int].stmts == old(blocks)@[prev_id as int].stmts,
    {
        let labelled = label.is_some();
        match stmt {
            Stmt::For(forst) => {
                proof { reveal_with_fuel(stmt_ok, 2); }
                let init_id = match &forst.init {
                    Some(init_stmt) => {
                        let id = push_single_with_lines(fset, blocks, init_stmt.duplicate(), Vec::new());
                        *next_id = blocks.len();
                        if labelled {
                            connect_if_empty(blocks, prev_id, id);
                        } else {
                            set_succs(blocks, prev_id, one(id));
                        }
                        id
                    },
                    None => prev_id,
                };
                let cond_stmt = match &forst.cond {
                    Some(c) => Stmt::Expr(Rc::new(c.duplicate())),
                    None => empty_stmt(),
                };
                assert(stmt_ok(cond_stmt));
                let cond_id = push_single_with_lines(fset, blocks, cond_stmt, Vec::new());
                *next_id = blocks.len();
                if labelled {
                    connect_if_empty(blocks, init_id, cond_id);
                } else {
                    set_succs(blocks, init_id, one(cond_id));
                }
                let after_id = push_empty(blocks, next_id);
                proof {
                    lemma_loops_below_grow(loop_contexts.entries@, old(blocks)@.len() as int, blocks@.len() as int);
                }
                match label {
                    Some((name, label_id)) => {
                        loop_contexts.insert(name, LoopContext { label_id, cond_id, after_id });
                    },
                    None => {},
                }
                assert(loops_below(loop_contexts.entries@, blocks@.len() as int));
                let ghost n0 = blocks@.len();
                proof { lemma_pending_ok_grow(pending@, old(blocks)@.len() as int, n0 as int); }
                let (body_entry, body_exit, body_gotos) = Self::build_chain(
                    objs, blocks, next_id, forst.body.list.as_slice(), exit_id, Some(cond_id), Some(after_id), label_map);
                proof { lemma_pending_ok_grow(pending@, n0 as int, blocks@.len() as int); }
                append_pending_ok(pending, body_gotos, Ghost(blocks@.len() as int));
                match &forst.post {
                    Some(post_stmt) => {
                        let ghost n1 = blocks@.len();
                        let post_id = push_single_with_lines(fset, blocks, post_stmt.duplicate(), Vec::new());
                        *next_id = blocks.len();
                        proof { lemma_pending_ok_grow(pending@, n1 as int, blocks@.len() as int); }
                        connect_if_empty(blocks, body_exit, post_id);
                        set_succs(blocks, post_id, one(cond_id));
                    },
                    None => {
                        connect_if_empty(blocks, body_exit, cond_id);
                    },
                }
                push_succ(blocks, cond_id, body_entry);
                push_succ(blocks, cond_id, after_id);
                proof { lemma_loops_below_grow(loop_contexts.entries@, n0 as int, blocks@.len() as int); }
                after_id
            },
            _ => prev_id,
        }
    }

    /// A top-level `range` loop after block `prev_id` (which now leads to
    /// it): the range block, the body chain and the block after the loop,
    /// which is returned.
    fn top_range(
        fset: &FileSet,
        objs: &AstObjects,
        stmt: &Stmt,
        blocks: &mut Vec<BasicBlock>,
        next_id: &mut usize,
        prev_id: usize,
        exit_id: usize,
        label_map: &mut LabelMap,
        pending: &mut Vec<(usize, String)>,
    ) -> (r: usize)
        requires
            exit_id == EXIT_ID,
            fset.wf(),
            stmt_ok(*stmt),
            stmt is Range,
            build_state(old(blocks)@, *old(next_id), None, None, old(label_map).entries@),
            pending_ok(old(pending)@, old(blocks)@.len() as int),
            prev_id == 0 || 2 <= prev_id < old(blocks)@.len(),
        ensures
            labels_kept(old(label_map).entries@, final(label_map).entries@),
            build_step(old(blocks)@, final(blocks)@, *final(next_id), final(label_map).entries@, final(pending)@),
            old(blocks)@.len() <= r < final(blocks)@.len(),
            keeps_below(old(blocks)@, final(blocks)@, old(blocks)@.len() as int, prev_id as int, -1),
            final(blocks)@[prev_id as int].stmts == old(blocks)@[prev_id as int].stmts,
    {
        proof { reveal_with_fuel(stmt_ok, 5); }
        match stmt {
            Stmt::Range(rng) => {
                let cond_id = push_single_with_lines(fset, blocks, stmt.duplicate(), Vec::new());
                *next_id = blocks.len();
                let after_id = push_empty(blocks, next_id);
                let ghost n0 = blocks@.len();
                proof { lemma_pending_ok_grow(pending@, old(blocks)@.len() as int, n0 as int); }
                let (body_entry, body_exit, range_gotos) = Self::build_chain(
                    objs, blocks, next_id, rng.body.list.as_slice(), exit_id, Some(cond_id), Some(after_id), label_map);
                proof { lemma_pending_ok_grow(pending@, n0 as int, blocks@.len() as int); }
                append_pending_ok(pending, range_gotos, Ghost(blocks@.len() as int));
                connect_if_empty(blocks, body_exit, cond_id);
                set_succs(blocks, prev_id, one(cond_id));
                push_succ(blocks, cond_id, body_entry);
                push_succ(blocks, cond_id, after_id);
                after_id
            },
            _ => prev_id,
        }
    }

    /// A top-level `switch` after block `prev_id` (which now leads to it):
    /// the switch block leads to each case's chain (or, with no case, to the
    /// block after); a case ending in `fallthrough` continues with the next
    /// case, the others with the block after, which is returned.
    fn top_switch(
        fset: &FileSet,
        objs: &AstObjects,
        stmt: &Stmt,
        blocks: &mut Vec<BasicBlock>,
        next_id: &mut usize,
        prev_id: usize,
        exit_id: usize,
        label_map: &mut LabelMap,
        pending: &mut Vec<(usize, String)>,
    ) -> (r: usize)
        requires
            exit_id == EXIT_ID,
            fset.wf(),
            stmt_ok(*stmt),
            stmt is Switch,
            build_state(old(blocks)@, *old(next_id), None, None, old(label_map).entries@),
            pending_ok(old(pending)@, old(blocks)@.len() as int),
            prev_id == 0 || 2 <= prev_id < old(blocks)@.len(),
        ensures
            labels_kept(old(label_map).entries@, final(label_map).entries@),
            build_step(old(blocks)@, final(blocks)@, *final(next_id), final(label_map).entries@, final(pending)@),
            old(blocks)@.len() <= r < final(blocks)@.len(),
            keeps_below(old(blocks)@, final(blocks)@, old(blocks)@.len() as int, prev_id as int, -1),
            final(blocks)@[prev_id as int].stmts == old(blocks)@[prev_id as int].stmts,
    {
        proof { reveal_with_fuel(stmt_ok, 5); }
        match stmt {
            Stmt::Switch(swtch) => {
                let sw_id = push_single_with_lines(fset, blocks, stmt.duplicate(), Vec::new());
                *next_id = blocks.len();
                let ghost n0 = blocks@.len();
                proof { lemma_pending_ok_grow(pending@, old(blocks)@.len() as int, n0 as int); }
                let mut case_info: Vec<(usize, usize, bool)> = Vec::new();
                let mut i: usize = 0;
                while i < swtch.body.list.len()
                    invariant
                        exit_id == EXIT_ID,
                        build_state(blocks@, *next_id, None, None, label_map.entries@),
                        blocks@.len() >= n0,
                        n0 == old(blocks)@.len() + 1,
                        sw_id == old(blocks)@.len(),
                        pending_ok(pending@, blocks@.len() as int),
                        forall|t: int| 0 <= t < case_info@.len() ==> n0 <= #[trigger] case_info@[t].0 < blocks@.len()
                            && n0 <= case_info@[t].1 < blocks@.len(),
                        stmts_ok(swtch.body.list@),
                        i <= swtch.body.list@.len(),
                        keeps_below(old(blocks)@, blocks@, old(blocks)@.len() as int, -1, -1),
                        labels_kept(old(label_map).entries@, label_map.entries@),
                    decreases swtch.body.list@.len() - i,
                {
                    let ghost b0 = blocks@;
                    assert(stmt_ok(swtch.body.list@[i as int]));
                    match &swtch.body.list[i] {
                        Stmt::Case(case) => {
                            let ghost n1 = blocks@.len();
                            let (entry, exit, case_gotos) = Self::build_chain(
                                objs, blocks, next_id, case.body.as_slice(), exit_id, None, None, label_map);
                            proof {
                                lemma_keeps_step(old(blocks)@, b0, blocks@, old(blocks)@.len() as int, -1, -1,
                                    n1 as int, -1, -1);
                            }
                            proof { lemma_pending_ok_grow(pending@, n1 as int, blocks@.len() as int); }
                            append_pending_ok(pending, case_gotos, Ghost(blocks@.len() as int));
                            let n = case.body.len();
                            let has_fallthrough = n > 0 && match &case.body[n - 1] {
                                Stmt::Branch(br) => matches!(br.token, Token::FALLTHROUGH),
                                _ => false,
                            };
                            case_info.push((entry, exit, has_fallthrough));
                        },
                        _ => {},
                    }
                    i += 1;
                }
                let ghost n2 = blocks@.len();
                let ghost b2 = blocks@;
                let after_id = push_empty(blocks, next_id);
                proof {
                    lemma_keeps_push(b2, blocks@);
                    lemma_keeps_step(old(blocks)@, b2, blocks@, old(blocks)@.len() as int, -1, -1,
                        n2 as int, -1, -1);
                }
                proof { lemma_pending_ok_grow(pending@, n2 as int, blocks@.len() as int); }
                set_succs(blocks, prev_id, one(sw_id));
                assert(keeps_below(old(blocks)@, blocks@, old(blocks)@.len() as int, prev_id as int, -1));
                let mut k: usize = 0;
                while k < case_info.len()
                    invariant
                        build_state(blocks@, *next_id, None, None, label_map.entries@),
                        pending_ok(pending@, blocks@.len() as int),
                        sw_id == old(blocks)@.len(),
                        blocks@.len() > after_id > sw_id,
                        forall|t: int| 0 <= t < case_info@.len() ==> n0 <= #[trigger] case_info@[t].0 < blocks@.len()
                            && n0 <= case_info@[t].1 < blocks@.len(),
                        k <= case_info@.len(),
                        blocks@.len() == n2 + 1,
                        sw_id >= 2,
                        keeps_below(old(blocks)@, blocks@, old(blocks)@.len() as int, prev_id as int, -1),
                        blocks@[prev_id as int].stmts == old(blocks)@[prev_id as int].stmts,
                        prev_id < sw_id,
                    decreases case_info@.len() - k,
                {
                    let ghost b0 = blocks@;
                    push_succ(blocks, sw_id, case_info[k].0);
                    assert(blocks@[EXIT_ID as int] == b0[EXIT_ID as int]);
                    k += 1;
                }
                if case_info.len() == 0 {
                    push_succ(blocks, sw_id, after_id);
                }
                let mut k: usize = 0;
                while k < case_info.len()
                    invariant
                        build_state(blocks@, *next_id, None, None, label_map.entries@),
                        pending_ok(pending@, blocks@.len() as int),
                        blocks@.len() > after_id,
                        forall|t: int| 0 <= t < case_info@.len() ==> n0 <= #[trigger] case_info@[t].0 < blocks@.len()
                            && n0 <= case_info@[t].1 < blocks@.len(),
                        k <= case_info@.len(),
                        blocks@.len() == n2 + 1,
                        n0 >= 2,
                        keeps_below(old(blocks)@, blocks@, old(blocks)@.len() as int, prev_id as int, -1),
                        blocks@[prev_id as int].stmts == old(blocks)@[prev_id as int].stmts,
                        prev_id < n0,
                        n0 == old(blocks)@.len() + 1,
                    decreases case_info@.len() - k,
                {
                    let ghost b0 = blocks@;
                    let (_, exit, has_fallthrough) = case_info[k];
                    assert(n0 <= case_info@[k as int].0);
                    assert(n0 <= case_info@[k as int].1);
                    assert(exit == case_info@[k as int].1);
                    if has_fallthrough && k + 1 < case_info.len() {
                        let next_entry = case_info[k + 1].0;
                        connect_if_empty(blocks, exit, next_entry);
                    } else {
                        connect_if_empty(blocks, exit, after_id);
                    }
                    assert(blocks@[EXIT_ID as int] == b0[EXIT_ID as int]);
                    k += 1;
                }
                after_id
            },
            _ => prev_id,
        }
    }

    /// A top-level labelled statement after block `prev_id`: the label's
    /// block (recorded as a label definition), then for a labelled `for` or
    /// `range` the loop; another labelled statement gets no block of its
    /// own. Returns the block the statement ends with.
    fn top_labeled(
        fset: &FileSet,
        objs: &AstObjects,
        stmt: &Stmt,
        blocks: &mut Vec<BasicBlock>,
        next_id: &mut usize,
        prev_id: usize,
        exit_id: usize,
        label_map: &mut LabelMap,
        loop_contexts: &mut LoopMap,
        label_def_ids: &mut HashSet<usize>,
        pending: &mut Vec<(usize, String)>,
    ) -> (r: usize)
        requires
            exit_id == EXIT_ID,
            fset.wf(),
            stmt_ok(*stmt),
            stmt is Labeled,
            build_state(old(blocks)@, *old(next_id), None, None, old(label_map).entries@),
            loops_below(old(loop_contexts).entries@, old(blocks)@.len() as int),
            pending_ok(old(pending)@, old(blocks)@.len() as int),
            prev_id == 0 || 2 <= prev_id < old(blocks)@.len(),
        ensures
            labels_kept(old(label_map).entries@, final(label_map).entries@),
            build_step(old(blocks)@, final(blocks)@, *final(next_id), final(label_map).entries@, final(pending)@),
            loops_below(final(loop_contexts).entries@, final(blocks)@.len() as int),
            old(blocks)@.len() <= r < final(blocks)@.len(),
            keeps_below(old(blocks)@, final(blocks)@, old(blocks)@.len() as int, prev_id as int, -1),
            final(blocks)@[prev_id as int].stmts == old(blocks)@[prev_id as int].stmts,
            stmt matches Stmt::Labeled(l) ==> final(label_map).entries@.len() > old(label_map).entries@.len()
                && final(label_map).entries@[old(label_map).entries@.len() as int].0@ == l.label.name@
                && final(label_map).entries@[old(label_map).entries@.len() as int].1 == old(blocks)@.len(),
    {
        proof { reveal_with_fuel(stmt_ok, 5); }
        match stmt {
            Stmt::Labeled(lbl) => {
                let id = push_single_with_lines(fset, blocks, stmt.duplicate(), Vec::new());
                *next_id = blocks.len();
                label_def_ids.insert(id);
                connect_if_empty(blocks, prev_id, id);
                let name = lbl.label.name.clone();
                label_map.insert(name.clone(), id);
                proof {
                    lemma_pending_ok_grow(pending@, old(blocks)@.len() as int, blocks@.len() as int);
                    assert(stmt_ok(lbl.stmt));
                }
                match &lbl.stmt {
                    Stmt::For(_) => {
                        Self::top_for(fset, objs, &lbl.stmt, blocks, next_id, id, exit_id, Some((name, id)),
                            label_map, loop_contexts, pending)
                    },
                    Stmt::Range(_) => {
                        let ghost n0 = blocks@.len();
                        let (entry, exit, rng_gotos) = Self::build_chain_single(
                            objs, blocks, next_id, &lbl.stmt, exit_id, None, None, label_map);
                        proof { lemma_pending_ok_grow(pending@, n0 as int, blocks@.len() as int); }
                        append_pending_ok(pending, rng_gotos, Ghost(blocks@.len() as int));
                        connect_if_empty(blocks, id, entry);
                        exit
                    },
                    _ => id,
                }
            },
            _ => prev_id,
        }
    }

    /// A top-level statement without nested statements after block
    /// `prev_id` (which leads to it if it has no successor yet): a `return`
    /// goes to the exit; `goto`, `break` and `continue` go to their label's
    /// block (a labelled loop's after or condition block for `break` and
    /// `continue`), to the exit when unlabelled, or wait for a label not yet
    /// defined. Returns the statement's block.
    fn top_simple(
        fset: &FileSet,
        stmt: &Stmt,
        blocks: &mut Vec<BasicBlock>,
        next_id: &mut usize,
        prev_id: usize,
        exit_id: usize,
        label_map: &LabelMap,
        loop_contexts: &LoopMap,
        pending: &mut Vec<(usize, String)>,
    ) -> (r: usize)
        requires
            exit_id == EXIT_ID,
            fset.wf(),
            stmt_ok(*stmt),
            build_state(old(blocks)@, *old(next_id), None, None, label_map.entries@),
            loops_below(loop_contexts.entries@, old(blocks)@.len() as int),
            pending_ok(old(pending)@, old(blocks)@.len() as int),
            prev_id == 0 || 2 <= prev_id < old(blocks)@.len(),
        ensures
            build_step(old(blocks)@, final(blocks)@, *final(next_id), label_map.entries@, final(pending)@),
            old(blocks)@.len() <= r < final(blocks)@.len(),
            keeps_below(old(blocks)@, final(blocks)@, old(blocks)@.len() as int, prev_id as int, -1),
            final(blocks)@[prev_id as int].stmts == old(blocks)@[prev_id as int].stmts,
            final(blocks)@[old(blocks)@.len() as int].stmts@.len() == 1,
            final(blocks)@[old(blocks)@.len() as int].stmts@[0].stmt == *stmt,
            old(blocks)@[prev_id as int].succs@.len() == 0 ==> final(blocks)@[prev_id as int].succs@ == seq![old(blocks)@.len() as usize],
            *stmt matches Stmt::Branch(bs) && bs.label is None && (bs.token is CONTINUE || bs.token is BREAK)
                ==> final(blocks)@[old(blocks)@.len() as int].succs@ == seq![exit_id],
            (*stmt is Branch && stmt->Branch_0.label is Some && stmt->Branch_0.token is CONTINUE
                && loop_lookup(loop_contexts.entries@, stmt->Branch_0.label->Some_0.name@) is Some)
                ==> final(blocks)@[old(blocks)@.len() as int].succs@
                    == seq![loop_lookup(loop_contexts.entries@, stmt->Branch_0.label->Some_0.name@)->Some_0.cond_id],
            (*stmt is Branch && stmt->Branch_0.label is Some && stmt->Branch_0.token is BREAK
                && loop_lookup(loop_contexts.entries@, stmt->Branch_0.label->Some_0.name@) is Some)
                ==> final(blocks)@[old(blocks)@.len() as int].succs@
                    == seq![loop_lookup(loop_contexts.entries@, stmt->Branch_0.label->Some_0.name@)->Some_0.after_id],
    {
        let id = *next_id;
        let mut succs: Vec<usize> = Vec::new();
        match stmt {
            Stmt::Return(_) => { succs.push(exit_id); },
            Stmt::Branch(bs) => {
                match &bs.token {
                    Token::GOTO => {
                        match &bs.label {
                            Some(l) => {
                                match label_map.get(l.name.as_str()) {
                                    Some(t) => { succs.push(t); },
                                    None => { pending.push((id, l.name.clone())); },
                                }
                            },
                            None => {},
                        }
                    },
                    Token::BREAK | Token::CONTINUE => {
                        let is_break = matches!(&bs.token, Token::BREAK);
                        match &bs.label {
                            Some(l) => {
                                match loop_contexts.get(l.name.as_str()) {
                                    Some(c) => { succs.push(if is_break { c.after_id } else { c.cond_id }); },
                                    None => {
                                        match label_map.get(l.name.as_str()) {
                                            Some(t) => { succs.push(t); },
                                            None => { pending.push((id, l.name.clone())); },
                                        }
                                    },
                                }
                            },
                            None => { succs.push(exit_id); },
                        }
                    },
                    _ => {},
                }
            },
            _ => {},
        }
        let ghost n0 = blocks@.len();
        let id = push_single_with_lines(fset, blocks, stmt.duplicate(), succs);
        *next_id = blocks.len();
        proof { lemma_pending_ok_grow(pending@, (n0 + 1) as int, blocks@.len() as int); }
        connect_if_empty(blocks, prev_id, id);
        id
    }
}

/// Clearing the successors of a block that has none keeps every block that
/// was reachable reachable.
proof fn lemma_clear_sink_reachable(before: Map<usize, BasicBlock>, after: Map<usize, BasicBlock>, x: usize, entry: usize, k: usize)
    requires
        before.contains_key(x),
        before[x].succs@.len() == 0,
        after.dom() == before.dom(),
        forall|y: usize| #[trigger] after.contains_key(y) && y != x ==> after[y] == before[y],
        reachable(before, entry, k),
    ensures
        reachable(after, entry, k),
{
    let p = choose|p: Seq<usize>| #[trigger] is_path(before, p) && p.len() > 0 && p[0] == entry && p.last() == k;
    assert forall|a: int, b: int| #![trigger p[a], p[b]] 0 <= a && b == a + 1 && b < p.len()
        implies after[p[a]].succs@.contains(p[b]) by {
        assert(before[p[a]].succs@.contains(p[b]));
        assert(p[a] != x);
    };
    assert forall|i: int| 0 <= i < p.len() implies after.contains_key(#[trigger] p[i]) by {
        assert(before.contains_key(p[i]));
    };
    assert(is_path(after, p));
}

/// A statement that the builder gives one block of its own, after the block
/// before it: not an `if`, a loop, a `switch` or a labelled statement, and
/// not an implicit empty statement.
pub open spec fn plain_stmt(s: Stmt) -> bool {
    &&& !(s is If || s is For || s is Range || s is Switch || s is Labeled)
    &&& !(s matches Stmt::Empty(e) && e.implicit)
}

impl ControlFlowGraph {
    /// The graph of a function. The entry block (0) carries the line the
    /// function starts on and the exit block (1) the line its body ends on;
    /// each top-level statement of the body gets its own block, nested
    /// statement lists become chains, and jumps are resolved (to the exit
    /// when a label is not defined). Then the blocks the entry cannot reach
    /// are dropped, empty pass-through blocks collapsed, unreachable blocks
    /// dropped again, and the exit block left without successors. Without a
    /// body the entry leads straight to the exit. The entry and exit blocks
    /// hold no statement, and a body that starts with a plain statement has
    /// the entry lead straight to that statement's block, 2.
    #[verifier::spinoff_prover]
    #[verifier::rlimit(60)]
    pub fn build(fset: &FileSet, func: &FuncDecl, objs: &AstObjects) -> (r: ControlFlowGraph)
        requires
            fset.wf(),
            func_decl_spans_ok(*func),
        ensures
            r.entry == 0,
            r.blocks@.contains_key(0),
            forall|k: usize| #[trigger] r.blocks@.contains_key(k) ==> reachable(r.blocks@, 0, k),
            r.blocks@.contains_key(EXIT_ID) ==> r.blocks@[EXIT_ID].succs@.len() == 0,
            map_stmts_ok(r.blocks@),
            func.body is None ==> r.blocks@.dom() == set![0usize, 1usize] && r.blocks@[0].succs@ == seq![1usize]
                && r.blocks@[1].succs@.len() == 0,
            r.blocks@[0].stmts@.len() == 0,
            r.blocks@.contains_key(EXIT_ID) ==> r.blocks@[EXIT_ID].stmts@.len() == 0,
            func.body matches Some(b) ==> (b.list@.len() > 0 && plain_stmt(b.list@[0]) ==> r.blocks@[0].succs@ == seq![2usize]
                && r.blocks@.contains_key(2) && r.blocks@[2].stmts@.len() == 1 && r.blocks@[2].stmts@[0].stmt == b.list@[0]),
            built_for(*func, r),
    {
        let (mut blocks, exit_id, _start, _end) = start_graph(fset, func);
        let entry: usize = 0;
        let mut next_id: usize = 2;
        let body = match &func.body {
            Some(b) => b,
            None => {
                set_succs(&mut blocks, entry, one(exit_id));
                let m = blocks_to_map(blocks);
                proof {
                    assert(m@.dom() =~= set![0usize, 1usize]);
                    assert(is_path(m@, seq![0usize]));
                    assert(m@[0].succs@[0] == 1);
                    assert(is_path(m@, seq![0usize, 1usize]));
                    assert(reachable(m@, 0, 0));
                    assert(reachable(m@, 0, 1));
                    assert(m@[0] == blocks@[0] && m@[1] == blocks@[1]);
                }
                return ControlFlowGraph { blocks: m, entry };
            },
        };
        let mut label_map = LabelMap::new();
        let mut loop_contexts = LoopMap::new();
        let mut label_def_ids: HashSet<usize> = HashSet::new();
        let mut pending: Vec<(usize, String)> = Vec::new();
        let mut prev_id: usize = entry;
        let mut i: usize = 0;
        proof {
            assert(block_ok(*body));
        }
        while i < body.list.len()
            invariant
                fset.wf(),
                exit_id == EXIT_ID,
                stmts_ok(body.list@),
                build_state(blocks@, next_id, None, None, label_map.entries@),
                loops_below(loop_contexts.entries@, blocks@.len() as int),
                pending_ok(pending@, blocks@.len() as int),
                prev_id == 0 || 2 <= prev_id < blocks@.len(),
                i <= body.list@.len(),
                i == 0 ==> prev_id == 0 && blocks@.len() == 2 && blocks@[0].succs@.len() == 0,
                i > 0 ==> prev_id >= 2,
                blocks@[0].stmts@.len() == 0,
                blocks@[EXIT_ID as int].stmts@.len() == 0,
                i > 0 && plain_stmt(body.list@[0]) ==> blocks@[0].succs@ == seq![2usize]
                    && blocks@[2].stmts@.len() == 1 && blocks@[2].stmts@[0].stmt == body.list@[0],
            decreases body.list@.len() - i,
        {
            let ghost bb = blocks@;
            let ghost pv = prev_id;
            let stmt = &body.list[i];
            assert(stmt_ok(*stmt));
            let ghost n0 = blocks@.len();
            prev_id = match stmt {
                Stmt::If(_) => Self::top_if(fset, objs, stmt, &mut blocks, &mut next_id, prev_id, exit_id,
                    &mut label_map, &mut pending),
                Stmt::For(_) => Self::top_for(fset, objs, stmt, &mut blocks, &mut next_id, prev_id, exit_id, None,
                    &mut label_map, &mut loop_contexts, &mut pending),
                Stmt::Range(_) => Self::top_range(fset, objs, stmt, &mut blocks, &mut next_id, prev_id, exit_id,
                    &mut label_map, &mut pending),
                Stmt::Switch(_) => Self::top_switch(fset, objs, stmt, &mut blocks, &mut next_id, prev_id, exit_id,
                    &mut label_map, &mut pending),
                Stmt::Labeled(_) => Self::top_labeled(fset, objs, stmt, &mut blocks, &mut next_id, prev_id, exit_id,
                    &mut label_map, &mut loop_contexts, &mut label_def_ids, &mut pending),
                _ => Self::top_simple(fset, stmt, &mut blocks, &mut next_id, prev_id, exit_id,
                    &label_map, &loop_contexts, &mut pending),
            };
            proof {
                if loops_below(loop_contexts.entries@, n0 as int) {
                    lemma_loops_below_grow(loop_contexts.entries@, n0 as int, blocks@.len() as int);
                }
                assert(blocks@[EXIT_ID as int] == bb[EXIT_ID as int]);
                if pv != 0 {
                    assert(blocks@[0] == bb[0]);
                }
                if i > 0 && pv != 2 {
                    assert(blocks@[2] == bb[2]);
                }
            }
            i += 1;
        }
        let ghost b0 = blocks@;
        let ghost pd = pending@;
        let ghost first_plain = body.list@.len() > 0 && plain_stmt(body.list@[0]);
        resolve_pending_gotos(pending, &label_map, &mut blocks, exit_id);
        assert(blocks@[EXIT_ID as int] == b0[EXIT_ID as int]);
        assert(blocks@[0] == b0[0]) by {
            assert forall|t: int| 0 <= t < pd.len() implies #[trigger] pd[t].0 != 0 by {
                assert(2 <= pd[t].0);
            };
        };
        assert(first_plain ==> blocks@[2].stmts == b0[2].stmts);
        let ghost b05 = blocks@;
        connect_to_exit_if_needed(&mut blocks, prev_id, exit_id);
        assert(blocks@[EXIT_ID as int].succs@.len() == 0);
        assert(blocks@[EXIT_ID as int].stmts@.len() == 0);
        assert(blocks@[0].stmts@.len() == 0);
        assert(first_plain ==> blocks@[0].succs@ == seq![2usize] && blocks@[2].stmts@.len() == 1
            && blocks@[2].stmts@[0].stmt == body.list@[0]) by {
            if first_plain {
                assert(blocks@[0] == b05[0]);
                assert(blocks@[2].stmts == b05[2].stmts);
            }
        };
        let ghost b1 = blocks@;
        let mut map = blocks_to_map(blocks);
        let ghost m0 = map@;
        assert(map_stmts_ok(m0)) by {
            assert forall|k: usize| #[trigger] m0.contains_key(k) implies block_stmts_ok(m0[k]) by {
                assert(m0[k] == b1[k as int]);
                assert(block_stmts_ok(b1[k as int]));
            };
        };
        proof {
            assert(is_path(m0, seq![0usize]));
            assert(reachable(m0, 0, 0));
        }
        proof {
            if first_plain {
                assert(2 < b1.len());
                assert(m0.contains_key(0) && m0.contains_key(2));
                assert(m0[0] == b1[0] && m0[2] == b1[2]);
                let pth = seq![0usize, 2usize];
                assert(m0[pth[0]].succs@.contains(pth[1])) by {
                    assert(m0[0].succs@[0] == 2);
                };
                assert(is_path(m0, pth));
                assert(reachable(m0, 0, 2));
            }
        }
        clean_unreachable_blocks(&mut map, entry);
        let ghost m1 = map@;
        assert(m1.contains_key(0));
        optimize_empty_blocks(&mut map, entry, exit_id, &label_def_ids);
        let ghost m2 = map@;
        proof {
            assert(kept_block(m1, 0, entry, exit_id, label_def_ids@));
            assert(m2.contains_key(0));
            assert(is_path(m2, seq![0usize]));
            assert(reachable(m2, 0, 0));
            assert(m2[0].stmts == m1[0].stmts);
            if first_plain {
                assert(reachable(m0, 0, 2));
                assert(m1.contains_key(2));
                assert(m1[2] == m0[2]);
                assert(m1[0] == m0[0]);
                assert(!empty_only(m1[2]));
                assert(kept_block(m1, 2, entry, exit_id, label_def_ids@));
                assert(m2.contains_key(2));
                assert(m2[2].stmts == m1[2].stmts);
                lemma_optimized_keeps_entry_edge(m1, succ_view(m1), MAX_ITERATIONS as nat, entry, exit_id,
                    label_def_ids@, 2);
                assert(succ_view(m2)[0] == m2[0].succs@);
                assert(m2[0].succs@ == seq![2usize]);
                let pth = seq![0usize, 2usize];
                assert(m2[pth[0]].succs@.contains(pth[1])) by {
                    assert(m2[0].succs@[0] == 2);
                };
                assert(is_path(m2, pth));
                assert(reachable(m2, 0, 2));
            }
            if m2.contains_key(EXIT_ID) {
                assert(m2[EXIT_ID].stmts == m1[EXIT_ID].stmts);
            }
        }
        clean_unreachable_blocks(&mut map, entry);
        let ghost m3 = map@;
        proof {
            assert(m1[0] == m0[0] && m0[0] == b1[0]);
            assert(reachable(m2, 0, 0));
            assert(m3.contains_key(0));
            assert(m3[0] == m2[0]);
            assert(m3[0].stmts@.len() == 0);
            if first_plain {
                assert(reachable(m2, 0, 2));
                assert(m3.contains_key(2));
                assert(m3[2] == m2[2]);
                assert(m2[2].stmts == m1[2].stmts && m1[2] == m0[2] && m0[2] == b1[2]);
            }
            if m3.contains_key(EXIT_ID) {
                assert(m3[EXIT_ID] == m2[EXIT_ID]);
                assert(m1[EXIT_ID] == m0[EXIT_ID] && m0[EXIT_ID] == b1[EXIT_ID as int]);
            }
        }
        assert(map_stmts_ok(m3)) by {
            assert forall|k: usize| #[trigger] m3.contains_key(k) implies block_stmts_ok(m3[k]) by {
                assert(m2.contains_key(k) && m3[k] == m2[k]);
                assert(m1.contains_key(k) && m2[k].stmts == m1[k].stmts);
                assert(m0.contains_key(k) && m1[k] == m0[k]);
            };
        };
        proof {
            lemma_cleaned_all_reachable(m2, m3, entry);
            if m3.contains_key(EXIT_ID) {
                assert(m2.contains_key(EXIT_ID));
                assert(m1.contains_key(EXIT_ID));
                assert(m1[EXIT_ID].succs@.len() == 0);
            }
        }
        match map.remove(&exit_id) {
            Some(b) => {
                let mut b = b;
                b.succs = Vec::new();
                map.insert(exit_id, b);
                proof {
                    assert(map@.dom() =~= m3.dom());
                    assert forall|k: usize| #[trigger] map@.contains_key(k) implies block_stmts_ok(map@[k]) by {
                        assert(map@[k].stmts == m3[k].stmts);
                    };
                    assert forall|k: usize| #[trigger] map@.contains_key(k) implies reachable(map@, 0, k) by {
                        lemma_clear_sink_reachable(m3, map@, EXIT_ID, 0, k);
                    };
                    assert(map@[0] == m3[0]);
                    assert(first_plain ==> map@[2] == m3[2]);
                }
            },
            None => {
                assert(map@ =~= m3);
            },
        }
        ControlFlowGraph { blocks: map, entry }
    }
}

/// A graph as `ControlFlowGraph::build` leaves it: the entry is block 0 and
/// a block of the graph, every block is reachable from it, and the exit
/// block, if kept, has no successor.
pub open spec fn built_graph_ok(g: ControlFlowGraph) -> bool {
    &&& g.entry == 0
    &&& g.blocks@.contains_key(0)
    &&& forall|k: usize| #[trigger] g.blocks@.contains_key(k) ==> reachable(g.blocks@, 0, k)
    &&& g.blocks@.contains_key(EXIT_ID) ==> g.blocks@[EXIT_ID].succs@.len() == 0
    &&& map_stmts_ok(g.blocks@)
}

/// What `ControlFlowGraph::build` promises of the graph `g` of `func`: a
/// well-formed graph whose entry and exit blocks hold no statement, the
/// entry leading straight to the exit without a body, and to the block of
/// the first statement when that statement is a plain one.
pub open spec fn built_for(func: FuncDecl, g: ControlFlowGraph) -> bool {
    &&& built_graph_ok(g)
    &&& g.blocks@[0].stmts@.len() == 0
    &&& g.blocks@.contains_key(EXIT_ID) ==> g.blocks@[EXIT_ID].stmts@.len() == 0
    &&& func.body is None ==> g.blocks@.dom() == set![0usize, 1usize] && g.blocks@[0].succs@ == seq![1usize]
    &&& func.body matches Some(b) ==> (b.list@.len() > 0 && plain_stmt(b.list@[0]) ==> g.blocks@[0].succs@ == seq![2usize]
        && g.blocks@.contains_key(2) && g.blocks@[2].stmts@.len() == 1 && g.blocks@[2].stmts@[0].stmt == b.list@[0])
}

/// Declaration `i` of `decls` is the last function named `k` among the
/// first `n`.
pub open spec fn last_func_named(decls: Seq<Decl>, i: int, n: int, k: String) -> bool {
    &&& 0 <= i < n
    &&& decls[i] matches Decl::Func(f) && f.name.name == k
    &&& forall|j: int| i < j < n ==> !(#[trigger] decls[j] matches Decl::Func(g) && g.name.name == k)
}

/// The graphs of all functions declared in a file, by function name (a
/// later function of the same name replaces an earlier one).
pub fn build_cfgs_for_file(fset: &FileSet, objs: &AstObjects, file: &File) -> (r: HashMap<String, ControlFlowGraph>)
    requires
        fset.wf(),
        file_ok(*file),
    ensures
        forall|k: String| #[trigger] r@.contains_key(k) ==> exists|i: int| 0 <= i < file.decls@.len()
            && (#[trigger] file.decls@[i] matches Decl::Func(f) && f.name.name == k),
        forall|i: int| 0 <= i < file.decls@.len() ==> (#[trigger] file.decls@[i] matches Decl::Func(f) ==> r@.contains_key(f.name.name)),
        forall|k: String| #[trigger] r@.contains_key(k) ==> built_graph_ok(r@[k]),
        forall|k: String| #[trigger] r@.contains_key(k) ==> exists|i: int|
            #[trigger] last_func_named(file.decls@, i, file.decls@.len() as int, k)
            && built_for(*file.decls@[i]->Func_0, r@[k]),
{
    let mut out: HashMap<String, ControlFlowGraph> = HashMap::new();
    let mut i: usize = 0;
    while i < file.decls.len()
        invariant
            fset.wf(),
            i <= file.decls@.len(),
            forall|j: int| 0 <= j < file.decls@.len() ==> decl_ok(#[trigger] file.decls@[j]),
            forall|k: String| #[trigger] out@.contains_key(k) ==> exists|j: int| 0 <= j < i
                && (#[trigger] file.decls@[j] matches Decl::Func(f) && f.name.name == k),
            forall|j: int| 0 <= j < i ==> (#[trigger] file.decls@[j] matches Decl::Func(f) ==> out@.contains_key(f.name.name)),
            forall|k: String| #[trigger] out@.contains_key(k) ==> built_graph_ok(out@[k]),
            forall|k: String| #[trigger] out@.contains_key(k) ==> exists|j: int|
                #[trigger] last_func_named(file.decls@, j, i as int, k) && built_for(*file.decls@[j]->Func_0, out@[k]),
        decreases file.decls@.len() - i,
    {
        let ghost o0 = out@;
        match &file.decls[i] {
            Decl::Func(fdecl) => {
                let name = fdecl.name.name.clone();
                let cfg = ControlFlowGraph::build(fset, fdecl, objs);
                string_map_insert(&mut out, name, cfg);
                proof {
                    assert forall|k: String| #[trigger] out@.contains_key(k) implies exists|j: int|
                        #[trigger] last_func_named(file.decls@, j, i + 1, k) && built_for(*file.decls@[j]->Func_0, out@[k]) by {
                        if k == fdecl.name.name {
                            assert(last_func_named(file.decls@, i as int, i + 1, k));
                        } else {
                            let j = choose|j: int| #[trigger] last_func_named(file.decls@, j, i as int, k)
                                && built_for(*file.decls@[j]->Func_0, o0[k]);
                            assert(last_func_named(file.decls@, j, i + 1, k));
                        }
                    };
                }
            },
            _ => {
                proof {
                    assert forall|k: String| #[trigger] out@.contains_key(k) implies exists|j: int|
                        #[trigger] last_func_named(file.decls@, j, i + 1, k) && built_for(*file.decls@[j]->Func_0, out@[k]) by {
                        let j = choose|j: int| #[trigger] last_func_named(file.decls@, j, i as int, k)
                            && built_for(*file.decls@[j]->Func_0, o0[k]);
                        assert(last_func_named(file.decls@, j, i + 1, k));
                    };
                }
            },
        }
        i += 1;
    }
    out
}

} // verus!
