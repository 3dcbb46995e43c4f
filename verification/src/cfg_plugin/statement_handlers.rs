//! Statement handlers for a function body's top level: each adds the blocks
//! of one statement after block `prev_id` and returns the block the
//! statement ends with (or `prev_id` when the statement is of another kind).
use vstd::prelude::*;
use crate::ast::Stmt;
use crate::cfg::{
    labels_kept,
    BasicBlock, LabelMap, add_block, add_empty_block, push_succ, set_succs, connect_if_empty,
    stmt_kind_str, pending_below, lemma_pending_grow, append_pending, one,
};
use crate::cfg::builder::{LoopMap, loops_below, loop_lookup};
use crate::cfg_plugin::{ControlFlowGraph, state_ok, step_ok, lemma_below_grow, keeps_below, lemma_keeps_step, lemma_keeps_push, if_shape, then_list_empty, else_chain};
use crate::token::Token;

verus! {

/// How many case clauses the statements hold.
pub open spec fn case_count(list: Seq<Stmt>) -> nat
    decreases list.len(),
{
    if list.len() == 0 { 0 } else { case_count(list.drop_last()) + if list.last() is Case { 1nat } else { 0nat } }
}

/// The blocks of a `switch` added after block `prev` (the graph had `n`
/// blocks): block `n` holds the statement and leads to one block per case
/// clause, in order (a case's first block, or the exit block for an empty
/// case), or, with no case, to the empty block `r` after the statement,
/// which is the last block and has no successor; `prev` leads to block `n`
/// when it had no successor.
pub open spec fn switch_shape(stmt: Stmt, a: Seq<BasicBlock>, b: Seq<BasicBlock>, prev: int, exit_id: int, r: int) -> bool {
    let n = a.len() as int;
    let m = case_count(stmt->Switch_0.body.list@);
    &&& b[n].stmts@.len() == 1
    &&& b[n].stmts@[0].stmt == stmt
    &&& m == 0 ==> b[n].succs@ == seq![r as usize]
    &&& m > 0 ==> b[n].succs@.len() == m
    &&& forall|t: int| 0 <= t < m ==> #[trigger] b[n].succs@[t] == exit_id || n < b[n].succs@[t] < r
    &&& r == b.len() - 1
    &&& b[r].succs@.len() == 0
    &&& prev != exit_id && a[prev].succs@.len() == 0 ==> b[prev].succs@ == seq![n as usize]
}

broadcast use vstd::std_specs::hash::group_hash_axioms;

impl ControlFlowGraph {
    /// An `if`: its condition block leads to the then-chain and to the
    /// else-chain (or the block after); both chains continue with an empty
    /// block after the statement, which is returned. `prev_id` leads to the
    /// condition if it has no successor yet.
    #[verifier::spinoff_prover]
    #[verifier::rlimit(80)]
    pub fn handle_if_statement(
        stmt: &Stmt,
        blocks: &mut Vec<BasicBlock>,
        next_id: &mut usize,
        prev_id: usize,
        exit_id: usize,
        loop_cond: Option<usize>,
        loop_after: Option<usize>,
        label_map: &mut LabelMap,
        pending_gotos: &mut Vec<(usize, String)>,
    ) -> (r: usize)
        requires
            state_ok(old(blocks)@, *old(next_id), exit_id, loop_cond, loop_after, old(label_map).entries@),
            pending_below(old(pending_gotos)@, old(blocks)@.len() as int),
            prev_id < old(blocks)@.len(),
        ensures
            labels_kept(old(label_map).entries@, final(label_map).entries@),
            step_ok(old(blocks)@, final(blocks)@, *final(next_id), final(label_map).entries@, final(pending_gotos)@),
            r < final(blocks)@.len(),
            stmt is If ==> final(blocks)@.len() > old(blocks)@.len() && r == final(blocks)@.len() - 1,
            !(stmt is If) ==> r == prev_id && final(blocks)@ == old(blocks)@,
            stmt is If ==> if_shape(*stmt, old(blocks)@, final(blocks)@, prev_id as int, exit_id as int, r as int),
    {
        match stmt {
            Stmt::If(ifst) => {
                let ghost ba = blocks@;
                let cond_id = add_block(blocks, stmt.duplicate(), String::from_str(stmt_kind_str(stmt)), Vec::new(), 0, 0);
                *next_id = blocks.len();
                proof { lemma_keeps_push(ba, blocks@); }
                let ghost cb0 = blocks@[cond_id as int];
                let ghost pb0 = blocks@[prev_id as int];
                assert(pb0 == old(blocks)@[prev_id as int]);
                let ghost n0 = blocks@.len();
                let ghost bb = blocks@;
                proof { lemma_below_grow(label_map.entries@, pending_gotos@, old(blocks)@.len() as int, n0 as int); }
                let (then_entry, then_exit, then_gotos) = Self::build_chain(
                    blocks, next_id, ifst.body.list.as_slice(), exit_id, loop_cond, loop_after, label_map);
                proof { lemma_keeps_step(old(blocks)@, bb, blocks@, old(blocks)@.len() as int, prev_id as int, exit_id as int, n0 as int, -1, exit_id as int); }
                assert(blocks@[cond_id as int] == cb0);
                assert(prev_id != exit_id ==> blocks@[prev_id as int] == pb0);
                proof { lemma_pending_grow(pending_gotos@, n0 as int, blocks@.len() as int); }
                append_pending(pending_gotos, then_gotos, Ghost(blocks@.len() as int));
                let else_result: Option<(usize, usize)> = match &ifst.els {
                    Some(Stmt::Block(bs)) => {
                        if bs.list.len() == 0 {
                            None
                        } else {
                            let ghost n1 = blocks@.len();
                            let ghost b1 = blocks@;
                            let (e_entry, e_exit, else_gotos) = Self::build_chain(
                                blocks, next_id, bs.list.as_slice(), exit_id, loop_cond, loop_after, label_map);
                            proof { lemma_keeps_step(old(blocks)@, b1, blocks@, old(blocks)@.len() as int, prev_id as int, exit_id as int, n1 as int, -1, exit_id as int); }
                            assert(blocks@[cond_id as int] == b1[cond_id as int]);
                            assert(prev_id != exit_id ==> blocks@[prev_id as int] == b1[prev_id as int]);
                            proof { lemma_pending_grow(pending_gotos@, n1 as int, blocks@.len() as int); }
                            append_pending(pending_gotos, else_gotos, Ghost(blocks@.len() as int));
                            Some((e_entry, e_exit))
                        }
                    },
                    Some(els) => {
                        if matches!(els, Stmt::If(_)) {
                            let ghost n1 = blocks@.len();
                            let ghost b1 = blocks@;
                            let (e_entry, e_exit, else_gotos) = Self::build_chain_single(
                                blocks, next_id, els, exit_id, loop_cond, loop_after, label_map);
                            proof { lemma_keeps_step(old(blocks)@, b1, blocks@, old(blocks)@.len() as int, prev_id as int, exit_id as int, n1 as int, -1, exit_id as int); }
                            assert(blocks@[cond_id as int] == b1[cond_id as int]);
                            assert(prev_id != exit_id ==> blocks@[prev_id as int] == b1[prev_id as int]);
                            proof { lemma_pending_grow(pending_gotos@, n1 as int, blocks@.len() as int); }
                            append_pending(pending_gotos, else_gotos, Ghost(blocks@.len() as int));
                            Some((e_entry, e_exit))
                        } else {
                            None
                        }
                    },
                    None => None,
                };
                let ghost n2 = blocks@.len();
                let ghost b5 = blocks@;
                let after_id = add_empty_block(blocks);
                *next_id = blocks.len();
                proof { lemma_below_grow(label_map.entries@, pending_gotos@, n2 as int, blocks@.len() as int); }
                proof { lemma_keeps_push(b5, blocks@); lemma_keeps_step(old(blocks)@, b5, blocks@, old(blocks)@.len() as int, prev_id as int, exit_id as int, b5.len() as int, -1, -1); }
                assert(blocks@[cond_id as int] == cb0);
                assert(prev_id != exit_id ==> blocks@[prev_id as int] == pb0);
                connect_if_empty(blocks, prev_id, cond_id);
                proof { assert(keeps_below(old(blocks)@, blocks@, old(blocks)@.len() as int, prev_id as int, exit_id as int)); }
                assert(blocks@[cond_id as int] == cb0);
                push_succ(blocks, cond_id, then_entry);
                proof { assert(keeps_below(old(blocks)@, blocks@, old(blocks)@.len() as int, prev_id as int, exit_id as int)); }
                let second = match else_result {
                    Some((e, _)) => e,
                    None => after_id,
                };
                push_succ(blocks, cond_id, second);
                proof { assert(keeps_below(old(blocks)@, blocks@, old(blocks)@.len() as int, prev_id as int, exit_id as int)); }
                let ghost cb = blocks@[cond_id as int];
                let ghost ab = blocks@[after_id as int];
                let ghost pbf = blocks@[prev_id as int];
                assert(cb.succs@ == seq![then_entry, second]);
                assert(ab.succs@.len() == 0);
                assert(prev_id != exit_id && old(blocks)@[prev_id as int].succs@.len() == 0 ==> pbf.succs@ == seq![cond_id]);
                assert(then_exit == exit_id || then_exit > old(blocks)@.len());
                connect_if_empty(blocks, then_exit, after_id);
                proof { assert(keeps_below(old(blocks)@, blocks@, old(blocks)@.len() as int, prev_id as int, exit_id as int)); }
                assert(blocks@[cond_id as int] == cb);
                assert(blocks@[after_id as int] == ab);
                assert(prev_id != exit_id ==> blocks@[prev_id as int] == pbf);
                match else_result {
                    Some((_, e_exit)) => {
                        assert(e_exit == exit_id || e_exit > cond_id);
                        connect_if_empty(blocks, e_exit, after_id);
                    },
                    None => {},
                }
                assert(blocks@[cond_id as int] == cb);
                assert(blocks@[after_id as int] == ab);
                assert(prev_id != exit_id ==> blocks@[prev_id as int] == pbf);
                after_id
            },
            _ => prev_id,
        }
    }

    /// A `switch`: its block leads to the entry of each case's chain (to the
    /// block after when there is no case); a case ending in `fallthrough`
    /// continues with the next case, the others with an empty block after
    /// the statement, which is returned. `prev_id` leads to the switch block
    /// if it has no successor yet.
    #[verifier::spinoff_prover]
    #[verifier::rlimit(80)]
    pub fn handle_switch_statement(
        stmt: &Stmt,
        blocks: &mut Vec<BasicBlock>,
        next_id: &mut usize,
        prev_id: usize,
        exit_id: usize,
        loop_cond: Option<usize>,
        loop_after: Option<usize>,
        label_map: &mut LabelMap,
        pending_gotos: &mut Vec<(usize, String)>,
    ) -> (r: usize)
        requires
            state_ok(old(blocks)@, *old(next_id), exit_id, loop_cond, loop_after, old(label_map).entries@),
            pending_below(old(pending_gotos)@, old(blocks)@.len() as int),
            prev_id < old(blocks)@.len(),
        ensures
            labels_kept(old(label_map).entries@, final(label_map).entries@),
            step_ok(old(blocks)@, final(blocks)@, *final(next_id), final(label_map).entries@, final(pending_gotos)@),
            r < final(blocks)@.len(),
            stmt is Switch ==> final(blocks)@.len() > old(blocks)@.len() && r == final(blocks)@.len() - 1,
            !(stmt is Switch) ==> r == prev_id && final(blocks)@ == old(blocks)@,
            stmt is Switch ==> switch_shape(*stmt, old(blocks)@, final(blocks)@, prev_id as int, exit_id as int, r as int),
    {
        match stmt {
            Stmt::Switch(swtch) => {
                let ghost ba = blocks@;
                let sw_id = add_block(blocks, stmt.duplicate(), String::from_str(stmt_kind_str(stmt)), Vec::new(), 0, 0);
                *next_id = blocks.len();
                proof { lemma_keeps_push(ba, blocks@); }
                let ghost sb0 = blocks@[sw_id as int];
                let ghost pb0 = blocks@[prev_id as int];
                assert(pb0 == old(blocks)@[prev_id as int]);
                let ghost n0 = blocks@.len();
                let ghost bs = blocks@;
                let ghost list = swtch.body.list@;
                assert(list == stmt->Switch_0.body.list@);
                proof { lemma_below_grow(label_map.entries@, pending_gotos@, old(blocks)@.len() as int, n0 as int); }
                let mut case_info: Vec<(usize, usize, bool)> = Vec::new();
                let mut i: usize = 0;
                while i < swtch.body.list.len()
                    invariant
                        state_ok(blocks@, *next_id, exit_id, loop_cond, loop_after, label_map.entries@),
                        blocks@.len() >= n0,
                        sw_id < n0,
                        prev_id < n0,
                        pending_below(pending_gotos@, blocks@.len() as int),
                        forall|t: int| 0 <= t < case_info@.len() ==> #[trigger] case_info@[t].0 < blocks@.len()
                            && case_info@[t].1 < blocks@.len(),
                        i <= swtch.body.list@.len(),
                        list == swtch.body.list@,
                        case_info@.len() == case_count(list.subrange(0, i as int)),
                        forall|t: int| 0 <= t < case_info@.len() ==> (#[trigger] case_info@[t].0 == exit_id || n0 <= case_info@[t].0)
                            && (case_info@[t].1 == exit_id || n0 <= case_info@[t].1),
                        keeps_below(bs, blocks@, n0 as int, -1, exit_id as int),
                        labels_kept(old(label_map).entries@, label_map.entries@),
                        bs[sw_id as int] == sb0,
                        bs[prev_id as int] == pb0,
                        exit_id < sw_id,
                        sw_id == ba.len(),
                        n0 == ba.len() + 1,
                        ba == old(blocks)@,
                    decreases swtch.body.list@.len() - i,
                {
                    proof { assert(list.subrange(0, i as int + 1).drop_last() =~= list.subrange(0, i as int)); }
                    match &swtch.body.list[i] {
                        Stmt::Case(case) => {
                            let ghost n1 = blocks@.len();
                            let ghost b1 = blocks@;
                            let (entry, exit, case_gotos) = Self::build_chain(
                                blocks, next_id, case.body.as_slice(), exit_id, loop_cond, loop_after, label_map);
                            proof { lemma_keeps_step(bs, b1, blocks@, n0 as int, -1, exit_id as int, n1 as int, -1, exit_id as int); }
                            proof { lemma_pending_grow(pending_gotos@, n1 as int, blocks@.len() as int); }
                            append_pending(pending_gotos, case_gotos, Ghost(blocks@.len() as int));
                            let n = case.body.len();
                            let has_fallthrough = n > 0 && match &case.body[n - 1] {
                                Stmt::Branch(br) => matches!(br.token, Token::FALLTHROUGH),
                                _ => false,
                            };
                            let ghost ci0 = case_info@;
                            case_info.push((entry, exit, has_fallthrough));
                            proof {
                                assert forall|t: int| 0 <= t < case_info@.len() implies (#[trigger] case_info@[t].0 == exit_id || n0 <= case_info@[t].0)
                                    && (case_info@[t].1 == exit_id || n0 <= case_info@[t].1) by {
                                    if t < ci0.len() { assert(case_info@[t] == ci0[t]); }
                                };
                            }
                        },
                        _ => {},
                    }
                    i += 1;
                }
                proof { assert(list.subrange(0, i as int) =~= list); }
                assert(blocks@[sw_id as int] == bs[sw_id as int]);
                assert(blocks@[sw_id as int] == sb0);
                assert(prev_id != exit_id ==> blocks@[prev_id as int] == pb0);
                let ghost n2 = blocks@.len();
                let ghost b5 = blocks@;
                let after_id = add_empty_block(blocks);
                *next_id = blocks.len();
                proof { lemma_below_grow(label_map.entries@, pending_gotos@, n2 as int, blocks@.len() as int); }
                proof { lemma_keeps_push(b5, blocks@); }
                assert(blocks@[sw_id as int] == sb0);
                assert(prev_id != exit_id ==> blocks@[prev_id as int] == pb0);
                let ghost ab = blocks@[after_id as int];
                assert(ab.succs@.len() == 0);
                assert forall|t: int| 0 <= t < case_info@.len() implies #[trigger] case_info@[t].1 < after_id by {
                    assert(case_info@[t].0 < b5.len() && case_info@[t].1 < b5.len());
                };
                connect_if_empty(blocks, prev_id, sw_id);
                assert(blocks@[sw_id as int] == sb0);
                assert(blocks@[after_id as int] == ab);
                let ghost pbf = blocks@[prev_id as int];
                assert(prev_id != exit_id && old(blocks)@[prev_id as int].succs@.len() == 0 ==> pbf.succs@ == seq![sw_id]);
                let mut k: usize = 0;
                while k < case_info.len()
                    invariant
                        state_ok(blocks@, *next_id, exit_id, loop_cond, loop_after, label_map.entries@),
                        pending_below(pending_gotos@, blocks@.len() as int),
                        sw_id < blocks@.len(),
                        after_id == blocks@.len() - 1,
                        forall|t: int| 0 <= t < case_info@.len() ==> #[trigger] case_info@[t].0 < blocks@.len()
                            && case_info@[t].1 < blocks@.len(),
                        k <= case_info@.len(),
                        blocks@.len() == n2 + 1,
                        sw_id == ba.len(),
                        prev_id < sw_id,
                        sw_id < after_id,
                        n0 == sw_id + 1,
                        forall|t: int| 0 <= t < case_info@.len() ==> #[trigger] case_info@[t].1 < after_id,
                        forall|t: int| 0 <= t < case_info@.len() ==> (#[trigger] case_info@[t].0 == exit_id || n0 <= case_info@[t].0)
                            && (case_info@[t].1 == exit_id || n0 <= case_info@[t].1),
                        blocks@[after_id as int] == ab,
                        prev_id != exit_id ==> blocks@[prev_id as int] == pbf,
                        blocks@[sw_id as int].stmts == sb0.stmts,
                        blocks@[sw_id as int].succs@.len() == k,
                        forall|t: int| 0 <= t < k ==> #[trigger] blocks@[sw_id as int].succs@[t] == case_info@[t].0,
                    decreases case_info@.len() - k,
                {
                    let ghost sk = blocks@[sw_id as int];
                    push_succ(blocks, sw_id, case_info[k].0);
                    proof {
                        assert forall|t: int| 0 <= t < k + 1 implies #[trigger] blocks@[sw_id as int].succs@[t] == case_info@[t].0 by {
                            if t < k { assert(blocks@[sw_id as int].succs@[t] == sk.succs@[t]); }
                        };
                    }
                    k += 1;
                }
                if case_info.len() == 0 {
                    push_succ(blocks, sw_id, after_id);
                    assert(blocks@[sw_id as int].succs@ =~= seq![after_id]);
                }
                let ghost sb = blocks@[sw_id as int];
                let mut k: usize = 0;
                while k < case_info.len()
                    invariant
                        state_ok(blocks@, *next_id, exit_id, loop_cond, loop_after, label_map.entries@),
                        pending_below(pending_gotos@, blocks@.len() as int),
                        after_id == blocks@.len() - 1,
                        forall|t: int| 0 <= t < case_info@.len() ==> #[trigger] case_info@[t].0 < blocks@.len()
                            && case_info@[t].1 < blocks@.len(),
                        k <= case_info@.len(),
                        blocks@.len() == n2 + 1,
                        sw_id == ba.len(),
                        prev_id < sw_id,
                        exit_id < sw_id,
                        sw_id < after_id,
                        forall|t: int| 0 <= t < case_info@.len() ==> #[trigger] case_info@[t].1 < after_id,
                        n0 == sw_id + 1,
                        forall|t: int| 0 <= t < case_info@.len() ==> (#[trigger] case_info@[t].0 == exit_id || n0 <= case_info@[t].0)
                            && (case_info@[t].1 == exit_id || n0 <= case_info@[t].1),
                        blocks@[after_id as int] == ab,
                        prev_id != exit_id ==> blocks@[prev_id as int] == pbf,
                        blocks@[sw_id as int] == sb,
                    decreases case_info@.len() - k,
                {
                    let (_, exit, has_fallthrough) = case_info[k];
                    assert(case_info@[k as int].1 == exit);
                    assert((case_info@[k as int].0 == exit_id || n0 <= case_info@[k as int].0)
                        && (case_info@[k as int].1 == exit_id || n0 <= case_info@[k as int].1));
                    assert(exit == exit_id || n0 <= exit);
                    assert(exit < after_id);
                    if has_fallthrough && k + 1 < case_info.len() {
                        let next_entry = case_info[k + 1].0;
                        connect_if_empty(blocks, exit, next_entry);
                    } else {
                        connect_if_empty(blocks, exit, after_id);
                    }
                    k += 1;
                }
                after_id
            },
            _ => prev_id,
        }
    }

    /// A branch statement: its block, which `prev_id` leads to if it has no
    /// successor yet. `goto` goes to its label's block; `break` and
    /// `continue` go to their labelled loop's after or condition block, else
    /// to the label's block, and unlabelled to the enclosing loop's after or
    /// condition block (the exit outside loops). Jumps to labels not yet
    /// defined are left pending. Returns the new block.
    pub fn handle_branch_statement(
        stmt: &Stmt,
        blocks: &mut Vec<BasicBlock>,
        next_id: &mut usize,
        prev_id: usize,
        exit_id: usize,
        loop_cond: Option<usize>,
        loop_after: Option<usize>,
        loop_contexts: &LoopMap,
        label_map: &LabelMap,
        pending_gotos: &mut Vec<(usize, String)>,
    ) -> (r: usize)
        requires
            state_ok(old(blocks)@, *old(next_id), exit_id, loop_cond, loop_after, label_map.entries@),
            loops_below(loop_contexts.entries@, old(blocks)@.len() as int),
            pending_below(old(pending_gotos)@, old(blocks)@.len() as int),
            prev_id < old(blocks)@.len(),
        ensures
            step_ok(old(blocks)@, final(blocks)@, *final(next_id), label_map.entries@, final(pending_gotos)@),
            r < final(blocks)@.len(),
            stmt is Branch ==> final(blocks)@.len() == old(blocks)@.len() + 1 && r == old(blocks)@.len(),
            !(stmt is Branch) ==> r == prev_id && final(blocks)@ == old(blocks)@
                && final(pending_gotos)@ == old(pending_gotos)@,
            *stmt matches Stmt::Branch(bs) && bs.label is None && bs.token is CONTINUE
                ==> final(blocks)@[old(blocks)@.len() as int].succs@ == seq![match loop_cond { Some(c) => c, None => exit_id }],
            *stmt matches Stmt::Branch(bs) && bs.label is None && bs.token is BREAK
                ==> final(blocks)@[old(blocks)@.len() as int].succs@ == seq![match loop_after { Some(a) => a, None => exit_id }],
            (*stmt is Branch && stmt->Branch_0.label is Some && stmt->Branch_0.token is CONTINUE
                && loop_lookup(loop_contexts.entries@, stmt->Branch_0.label->Some_0.name@) is Some)
                ==> final(blocks)@[old(blocks)@.len() as int].succs@
                    == seq![loop_lookup(loop_contexts.entries@, stmt->Branch_0.label->Some_0.name@)->Some_0.cond_id],
            (*stmt is Branch && stmt->Branch_0.label is Some && stmt->Branch_0.token is BREAK
                && loop_lookup(loop_contexts.entries@, stmt->Branch_0.label->Some_0.name@) is Some)
                ==> final(blocks)@[old(blocks)@.len() as int].succs@
                    == seq![loop_lookup(loop_contexts.entries@, stmt->Branch_0.label->Some_0.name@)->Some_0.after_id],
    {
        match stmt {
            Stmt::Branch(bs) => {
                let id = *next_id;
                let mut succs: Vec<usize> = Vec::new();
                match &bs.token {
                    Token::GOTO => {
                        match &bs.label {
                            Some(l) => {
                                match label_map.get(l.name.as_str()) {
                                    Some(t) => { succs.push(t); },
                                    None => { pending_gotos.push((id, l.name.clone())); },
                                }
                            },
                            None => {},
                        }
                    },
                    Token::BREAK | Token::CONTINUE => {
                        let is_break = matches!(&bs.token, Token::BREAK);
                        match &bs.label {
                            Some(l) => {
                                match loop_contexts.get(l.name.as_str()) {
                                    Some(c) => { succs.push(if is_break { c.after_id } else { c.cond_id }); },
                                    None => {
                                        match label_map.get(l.name.as_str()) {
                                            Some(t) => { succs.push(t); },
                                            None => { pending_gotos.push((id, l.name.clone())); },
                                        }
                                    },
                                }
                            },
                            None => {
                                let target = if is_break { loop_after } else { loop_cond };
                                match target {
                                    Some(t) => { succs.push(t); },
                                    None => { succs.push(exit_id); },
                                }
                            },
                        }
                    },
                    _ => {},
                }
                let id = add_block(blocks, stmt.duplicate(), String::from_str(stmt_kind_str(stmt)), succs, 0, 0);
                *next_id = blocks.len();
                connect_if_empty(blocks, prev_id, id);
                id
            },
            _ => prev_id,
        }
    }

    /// A `return`: its block leads to the exit, and `prev_id` leads to it
    /// if it has no successor yet. Returns the new block.
    pub fn handle_return_statement(
        stmt: &Stmt,
        blocks: &mut Vec<BasicBlock>,
        next_id: &mut usize,
        prev_id: usize,
        exit_id: usize,
    ) -> (r: usize)
        requires
            graph_ok_state(old(blocks)@, *old(next_id), exit_id),
            prev_id < old(blocks)@.len(),
        ensures
            graph_ok_state(final(blocks)@, *final(next_id), exit_id),
            r < final(blocks)@.len(),
            stmt is Return ==> r == old(blocks)@.len() && final(blocks)@.len() == old(blocks)@.len() + 1
                && final(blocks)@[r as int].succs@ == seq![exit_id],
            !(stmt is Return) ==> r == prev_id && final(blocks)@ == old(blocks)@,
    {
        match stmt {
            Stmt::Return(_) => {
                let id = add_block(blocks, stmt.duplicate(), String::from_str(stmt_kind_str(stmt)), Vec::new(), 0, 0);
                *next_id = blocks.len();
                connect_if_empty(blocks, prev_id, id);
                set_succs(blocks, id, one(exit_id));
                id
            },
            _ => prev_id,
        }
    }
}

/// The blocks are well formed, `next_id` is their number and the exit block
/// exists.
pub open spec fn graph_ok_state(blocks: Seq<BasicBlock>, next_id: usize, exit_id: usize) -> bool {
    &&& crate::cfg::graph_ok(blocks)
    &&& next_id == blocks.len()
    &&& exit_id < blocks.len()
}

} // verus!
