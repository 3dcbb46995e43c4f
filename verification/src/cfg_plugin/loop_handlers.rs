//! Loop and label handlers for a function body's top level: each adds the
//! blocks of one statement after block `prev_id` and returns the block the
//! statement ends with (or `prev_id` when the statement is of another kind).
use vstd::prelude::*;
use std::collections::HashSet;
use std::rc::Rc;
use crate::ast::{Stmt, ForStmt};
use crate::cfg::{
    labels_kept,
    BasicBlock, LabelMap, LoopContext, add_block, add_empty_block, push_succ, set_succs, connect_if_empty,
    empty_stmt, stmt_kind_str, pending_below, lemma_pending_grow, append_pending, one,
};
use crate::cfg::builder::{LoopMap, loops_below, lemma_loops_below_grow};
use crate::cfg_plugin::{ControlFlowGraph, state_ok, step_ok, lemma_below_grow, keeps_below, lemma_keeps_step, lemma_keeps_push};

verus! {

/// The blocks of a three-clause `for` added after block `prev` (the graph
/// had `n` blocks): an init block `n` first when the loop has one (holding
/// the init statement and leading to the condition), then the condition
/// block `c`, which leads to the body (the exit block for an empty body)
/// and to the empty block `r == c + 1` after the loop, which has no
/// successor yet; `prev` leads to the first new block when it had no
/// successor.
pub open spec fn for_blocks_shape(f: ForStmt, a: Seq<BasicBlock>, b: Seq<BasicBlock>, prev: int, exit_id: int, r: int) -> bool {
    let n = a.len() as int;
    let c = if f.init is Some { n + 1 } else { n };
    &&& r == c + 1
    &&& b[c].succs@ == seq![(if f.body.list@.len() == 0 { exit_id } else { c + 2 }) as usize, r as usize]
    &&& b[r].succs@.len() == 0
    &&& f.init is Some ==> b[n].stmts@.len() == 1 && b[n].stmts@[0].stmt == f.init->Some_0 && b[n].succs@ == seq![c as usize]
    &&& prev != exit_id && a[prev].succs@.len() == 0 ==> b[prev].succs@ == seq![n as usize]
}

broadcast use vstd::std_specs::hash::group_hash_axioms;

impl ControlFlowGraph {
    /// The blocks of a three-clause `for` after block `prev_id` (which, like
    /// the init block, leads on only if it has no successor yet): init,
    /// condition, the body chain, post, and an empty block after the loop,
    /// which is returned; the condition leads to the body and to the block
    /// after. With `label` (its name and block), the loop is recorded for
    /// labelled `break` and `continue`.
    #[verifier::spinoff_prover]
    #[verifier::rlimit(100)]
    fn for_loop_blocks(
        forst: &ForStmt,
        blocks: &mut Vec<BasicBlock>,
        next_id: &mut usize,
        prev_id: usize,
        exit_id: usize,
        label: Option<(String, usize)>,
        label_map: &mut LabelMap,
        loop_contexts: &mut LoopMap,
        pending_gotos: &mut Vec<(usize, String)>,
    ) -> (r: usize)
        requires
            state_ok(old(blocks)@, *old(next_id), exit_id, None, None, old(label_map).entries@),
            loops_below(old(loop_contexts).entries@, old(blocks)@.len() as int),
            pending_below(old(pending_gotos)@, old(blocks)@.len() as int),
            prev_id < old(blocks)@.len(),
            label matches Some((_, l)) ==> l < old(blocks)@.len(),
        ensures
            labels_kept(old(label_map).entries@, final(label_map).entries@),
            step_ok(old(blocks)@, final(blocks)@, *final(next_id), final(label_map).entries@, final(pending_gotos)@),
            loops_below(final(loop_contexts).entries@, final(blocks)@.len() as int),
            old(blocks)@.len() <= r < final(blocks)@.len(),
            label is None ==> final(loop_contexts).entries@ == old(loop_contexts).entries@,
            for_blocks_shape(*forst, old(blocks)@, final(blocks)@, prev_id as int, exit_id as int, r as int),
            keeps_below(old(blocks)@, final(blocks)@, old(blocks)@.len() as int, prev_id as int, exit_id as int),
            prev_id != exit_id ==> final(blocks)@[prev_id as int].stmts == old(blocks)@[prev_id as int].stmts,
    {
        let init_id = match &forst.init {
            Some(init_stmt) => {
                let ghost ba = blocks@;
                let id = add_block(blocks, init_stmt.duplicate(), String::from_str(stmt_kind_str(init_stmt)), Vec::new(), 0, 0);
                *next_id = blocks.len();
                proof { lemma_keeps_push(ba, blocks@); lemma_keeps_step(old(blocks)@, ba, blocks@, old(blocks)@.len() as int, prev_id as int, exit_id as int, ba.len() as int, -1, -1); }
                let ghost ib0 = blocks@[id as int];
                connect_if_empty(blocks, prev_id, id);
                proof { assert(keeps_below(old(blocks)@, blocks@, old(blocks)@.len() as int, prev_id as int, exit_id as int)); }
                assert(blocks@[id as int] == ib0);
                id
            },
            None => prev_id,
        };
        let ghost L = old(blocks)@.len() as int;
        assert(forst.init is Some ==> init_id == L && blocks@.len() == L + 1 && blocks@[L].succs@.len() == 0
            && blocks@[L].stmts@.len() == 1 && blocks@[L].stmts@[0].stmt == forst.init->Some_0);
        assert(forst.init is None ==> init_id == prev_id && blocks@ == old(blocks)@);
        assert(prev_id != exit_id && old(blocks)@[prev_id as int].succs@.len() == 0 && forst.init is Some
            ==> blocks@[prev_id as int].succs@ == seq![L as usize]);
        let cond_stmt = match &forst.cond {
            Some(c) => Stmt::Expr(Rc::new(c.duplicate())),
            None => empty_stmt(),
        };
        let cond_text = String::from_str(stmt_kind_str(&cond_stmt));
        let ghost bc = blocks@;
        let cond_id = add_block(blocks, cond_stmt, cond_text, Vec::new(), 0, 0);
        *next_id = blocks.len();
        proof { lemma_keeps_push(bc, blocks@); lemma_keeps_step(old(blocks)@, bc, blocks@, old(blocks)@.len() as int, prev_id as int, exit_id as int, bc.len() as int, -1, -1); }
        let ghost cb0 = blocks@[cond_id as int];
        let ghost bi = blocks@;
        connect_if_empty(blocks, init_id, cond_id);
        proof { assert(keeps_below(old(blocks)@, blocks@, old(blocks)@.len() as int, prev_id as int, exit_id as int)); }
        assert(blocks@[cond_id as int] == cb0);
        assert(cb0.succs@.len() == 0);
        assert(forst.init is Some ==> blocks@[L].succs@ == seq![cond_id] && blocks@[L].stmts == bi[L].stmts);
        assert(prev_id != exit_id && old(blocks)@[prev_id as int].succs@.len() == 0
            ==> blocks@[prev_id as int].succs@ == seq![L as usize]);
        let ghost ib = blocks@[L];
        let ghost pb = blocks@[prev_id as int];
        assert(pb.stmts == old(blocks)@[prev_id as int].stmts);
        let ghost bd = blocks@;
        let after_id = add_empty_block(blocks);
        *next_id = blocks.len();
        proof { lemma_keeps_push(bd, blocks@); lemma_keeps_step(old(blocks)@, bd, blocks@, old(blocks)@.len() as int, prev_id as int, exit_id as int, bd.len() as int, -1, -1); }
        let ghost ab = blocks@[after_id as int];
        assert(ab.succs@.len() == 0);
        assert(blocks@[cond_id as int] == cb0);
        assert(blocks@[L] == ib);
        assert(blocks@[prev_id as int] == pb);
        match label {
            Some((name, label_id)) => {
                loop_contexts.insert(name, LoopContext { label_id, cond_id, after_id });
            },
            None => {},
        }
        let ghost n0 = blocks@.len();
        let ghost be = blocks@;
        proof { lemma_below_grow(label_map.entries@, pending_gotos@, old(blocks)@.len() as int, n0 as int); }
        let (body_entry, body_exit, body_gotos) = Self::build_chain(
            blocks, next_id, forst.body.list.as_slice(), exit_id, Some(cond_id), Some(after_id), label_map);
        proof { lemma_keeps_step(old(blocks)@, be, blocks@, old(blocks)@.len() as int, prev_id as int, exit_id as int, n0 as int, -1, exit_id as int); }
        assert(body_exit == exit_id || body_exit >= n0);
        assert(blocks@[cond_id as int] == cb0);
        assert(blocks@[after_id as int] == ab);
        assert(forst.init is Some ==> blocks@[L] == ib);
        assert(prev_id != exit_id ==> blocks@[prev_id as int] == pb);
        proof { lemma_pending_grow(pending_gotos@, n0 as int, blocks@.len() as int); }
        append_pending(pending_gotos, body_gotos, Ghost(blocks@.len() as int));
        match &forst.post {
            Some(post_stmt) => {
                let ghost n1 = blocks@.len();
                let ghost bf = blocks@;
                let post_id = add_block(blocks, post_stmt.duplicate(), String::from_str(stmt_kind_str(post_stmt)), Vec::new(), 0, 0);
                *next_id = blocks.len();
                proof { lemma_keeps_push(bf, blocks@); lemma_keeps_step(old(blocks)@, bf, blocks@, old(blocks)@.len() as int, prev_id as int, exit_id as int, bf.len() as int, -1, -1); }
                proof { lemma_below_grow(label_map.entries@, pending_gotos@, n1 as int, blocks@.len() as int); }
                connect_if_empty(blocks, body_exit, post_id);
                proof { assert(keeps_below(old(blocks)@, blocks@, old(blocks)@.len() as int, prev_id as int, exit_id as int)); }
                set_succs(blocks, post_id, one(cond_id));
                proof { assert(keeps_below(old(blocks)@, blocks@, old(blocks)@.len() as int, prev_id as int, exit_id as int)); }
                assert(blocks@[cond_id as int] == cb0);
                assert(blocks@[after_id as int] == ab);
                assert(forst.init is Some ==> blocks@[L] == ib);
                assert(prev_id != exit_id ==> blocks@[prev_id as int] == pb);
            },
            None => {
                connect_if_empty(blocks, body_exit, cond_id);
                proof { assert(keeps_below(old(blocks)@, blocks@, old(blocks)@.len() as int, prev_id as int, exit_id as int)); }
                assert(blocks@[cond_id as int] == cb0);
                assert(blocks@[after_id as int] == ab);
                assert(forst.init is Some ==> blocks@[L] == ib);
                assert(prev_id != exit_id ==> blocks@[prev_id as int] == pb);
            },
        }
        push_succ(blocks, cond_id, body_entry);
        proof { assert(keeps_below(old(blocks)@, blocks@, old(blocks)@.len() as int, prev_id as int, exit_id as int)); }
        push_succ(blocks, cond_id, after_id);
        proof { assert(keeps_below(old(blocks)@, blocks@, old(blocks)@.len() as int, prev_id as int, exit_id as int)); }
        assert(blocks@[cond_id as int].succs@ =~= seq![body_entry, after_id]);
        assert(blocks@[after_id as int] == ab);
        assert(forst.init is Some ==> blocks@[L] == ib);
        assert(prev_id != exit_id ==> blocks@[prev_id as int] == pb);
        after_id
    }

    /// A three-clause `for` after block `prev_id`: see `for_loop_blocks`.
    /// Returns the block after the loop.
    pub fn handle_for_statement(
        stmt: &Stmt,
        blocks: &mut Vec<BasicBlock>,
        next_id: &mut usize,
        prev_id: usize,
        exit_id: usize,
        label_map: &mut LabelMap,
        pending_gotos: &mut Vec<(usize, String)>,
    ) -> (r: usize)
        requires
            state_ok(old(blocks)@, *old(next_id), exit_id, None, None, old(label_map).entries@),
            pending_below(old(pending_gotos)@, old(blocks)@.len() as int),
            prev_id < old(blocks)@.len(),
        ensures
            labels_kept(old(label_map).entries@, final(label_map).entries@),
            step_ok(old(blocks)@, final(blocks)@, *final(next_id), final(label_map).entries@, final(pending_gotos)@),
            r < final(blocks)@.len(),
            stmt is For ==> old(blocks)@.len() <= r,
            !(stmt is For) ==> r == prev_id && final(blocks)@ == old(blocks)@,
            *stmt matches Stmt::For(f) ==> for_blocks_shape(*f, old(blocks)@, final(blocks)@, prev_id as int, exit_id as int, r as int),
    {
        match stmt {
            Stmt::For(forst) => {
                let mut no_loops = LoopMap::new();
                Self::for_loop_blocks(forst, blocks, next_id, prev_id, exit_id, None, label_map, &mut no_loops, pending_gotos)
            },
            _ => prev_id,
        }
    }

    /// A `range` loop after block `prev_id` (which leads to it if it has no
    /// successor yet): the range block leads to the body chain and to an
    /// empty block after the loop, which is returned; the body leads back
    /// to the range block.
    pub fn handle_range_statement(
        stmt: &Stmt,
        blocks: &mut Vec<BasicBlock>,
        next_id: &mut usize,
        prev_id: usize,
        exit_id: usize,
        label_map: &mut LabelMap,
        pending_gotos: &mut Vec<(usize, String)>,
    ) -> (r: usize)
        requires
            state_ok(old(blocks)@, *old(next_id), exit_id, None, None, old(label_map).entries@),
            pending_below(old(pending_gotos)@, old(blocks)@.len() as int),
            prev_id < old(blocks)@.len(),
        ensures
            labels_kept(old(label_map).entries@, final(label_map).entries@),
            step_ok(old(blocks)@, final(blocks)@, *final(next_id), final(label_map).entries@, final(pending_gotos)@),
            r < final(blocks)@.len(),
            stmt is Range ==> r == old(blocks)@.len() + 1,
            !(stmt is Range) ==> r == prev_id && final(blocks)@ == old(blocks)@,
    {
        match stmt {
            Stmt::Range(rng) => {
                let cond_id = add_block(blocks, stmt.duplicate(), String::from_str(stmt_kind_str(stmt)), Vec::new(), 0, 0);
                *next_id = blocks.len();
                let after_id = add_empty_block(blocks);
                *next_id = blocks.len();
                let ghost n0 = blocks@.len();
                proof { lemma_below_grow(label_map.entries@, pending_gotos@, old(blocks)@.len() as int, n0 as int); }
                let (body_entry, body_exit, range_gotos) = Self::build_chain(
                    blocks, next_id, rng.body.list.as_slice(), exit_id, Some(cond_id), Some(after_id), label_map);
                proof { lemma_pending_grow(pending_gotos@, n0 as int, blocks@.len() as int); }
                append_pending(pending_gotos, range_gotos, Ghost(blocks@.len() as int));
                connect_if_empty(blocks, body_exit, cond_id);
                connect_if_empty(blocks, prev_id, cond_id);
                push_succ(blocks, cond_id, body_entry);
                push_succ(blocks, cond_id, after_id);
                after_id
            },
            _ => prev_id,
        }
    }

    /// A labelled statement after block `prev_id` (which leads to it if it
    /// has no successor yet): the label's block, recorded as a label
    /// definition and bound to the label's name; a labelled `for` follows it
    /// as a loop recorded for labelled `break` and `continue`, any other
    /// statement as a chain of its own that the label block leads into.
    /// Returns the block the statement ends with.
    pub fn handle_labeled_statement(
        stmt: &Stmt,
        blocks: &mut Vec<BasicBlock>,
        next_id: &mut usize,
        prev_id: usize,
        exit_id: usize,
        loop_cond: Option<usize>,
        loop_after: Option<usize>,
        label_map: &mut LabelMap,
        loop_contexts: &mut LoopMap,
        label_def_ids: &mut HashSet<usize>,
        pending_gotos: &mut Vec<(usize, String)>,
    ) -> (r: usize)
        requires
            state_ok(old(blocks)@, *old(next_id), exit_id, loop_cond, loop_after, old(label_map).entries@),
            loops_below(old(loop_contexts).entries@, old(blocks)@.len() as int),
            pending_below(old(pending_gotos)@, old(blocks)@.len() as int),
            prev_id < old(blocks)@.len(),
        ensures
            labels_kept(old(label_map).entries@, final(label_map).entries@),
            step_ok(old(blocks)@, final(blocks)@, *final(next_id), final(label_map).entries@, final(pending_gotos)@),
            loops_below(final(loop_contexts).entries@, final(blocks)@.len() as int),
            r < final(blocks)@.len(),
            stmt is Labeled ==> final(label_def_ids)@ == old(label_def_ids)@.insert(old(blocks)@.len() as usize),
            stmt is Labeled ==> ({
                let n = old(blocks)@.len() as int;
                &&& final(blocks)@[n].stmts@.len() == 1
                &&& final(blocks)@[n].stmts@[0].stmt == *stmt
                &&& final(blocks)@[n].succs@ == seq![(n + 1) as usize]
                &&& prev_id != exit_id && old(blocks)@[prev_id as int].succs@.len() == 0
                    ==> final(blocks)@[prev_id as int].succs@ == seq![n as usize]
            }),
            !(stmt is Labeled) ==> r == prev_id && final(blocks)@ == old(blocks)@
                && final(label_def_ids)@ == old(label_def_ids)@,
            stmt matches Stmt::Labeled(l) ==> final(label_map).entries@.len() > old(label_map).entries@.len()
                && final(label_map).entries@[old(label_map).entries@.len() as int].0@ == l.label.name@
                && final(label_map).entries@[old(label_map).entries@.len() as int].1 == old(blocks)@.len(),
    {
        match stmt {
            Stmt::Labeled(lbl) => {
                let ghost ba = blocks@;
                let id = add_block(blocks, stmt.duplicate(), String::from_str(stmt_kind_str(stmt)), Vec::new(), 0, 0);
                *next_id = blocks.len();
                proof { lemma_keeps_push(ba, blocks@); }
                label_def_ids.insert(id);
                let ghost lb0 = blocks@[id as int];
                assert(blocks@[prev_id as int] == old(blocks)@[prev_id as int]);
                connect_if_empty(blocks, prev_id, id);
                assert(blocks@[id as int] == lb0);
                let ghost pb = blocks@[prev_id as int];
                assert(prev_id != exit_id && old(blocks)@[prev_id as int].succs@.len() == 0 ==> pb.succs@ == seq![id]);
                let ghost bl = blocks@;
                proof { lemma_below_grow(label_map.entries@, pending_gotos@, old(blocks)@.len() as int, blocks@.len() as int); }
                let name = lbl.label.name.clone();
                label_map.insert(name.clone(), id);
                match &lbl.stmt {
                    Stmt::For(forst) => {
                        let r = Self::for_loop_blocks(forst, blocks, next_id, id, exit_id, Some((name, id)),
                            label_map, loop_contexts, pending_gotos);
                        assert(blocks@[id as int].stmts == lb0.stmts);
                        assert(prev_id != exit_id ==> blocks@[prev_id as int] == pb);
                        r
                    },
                    _ => {
                        let ghost n0 = blocks@.len();
                        let (entry, exit, inner_gotos) = Self::build_chain_single(
                            blocks, next_id, &lbl.stmt, exit_id, loop_cond, loop_after, label_map);
                        assert(blocks@[id as int] == lb0);
                        assert(prev_id != exit_id ==> blocks@[prev_id as int] == pb);
                        proof { lemma_pending_grow(pending_gotos@, n0 as int, blocks@.len() as int); }
                        append_pending(pending_gotos, inner_gotos, Ghost(blocks@.len() as int));
                        connect_if_empty(blocks, id, entry);
                        assert(prev_id != exit_id ==> blocks@[prev_id as int] == pb);
                        proof { lemma_loops_below_grow(loop_contexts.entries@, old(blocks)@.len() as int, blocks@.len() as int); }
                        exit
                    },
                }
            },
            _ => prev_id,
        }
    }
}

} // verus!
