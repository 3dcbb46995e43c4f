//! Consistency checks of a built graph.
use vstd::prelude::*;
use std::collections::HashMap;
use crate::cfg::BasicBlock;
use crate::cfg::optimization::{map_keys, sorted_unique, sorted_ids, lemma_sorted_ids};
use crate::strs::{string_push_str, push_decimal, decimal};

verus! {

broadcast use vstd::std_specs::hash::group_hash_axioms;

/// Something wrong with a graph: a block other than the exit without any
/// successor, or a successor that is not a block of the graph.
#[derive(Debug, Clone, Copy, PartialEq, Eq, Structural)]
pub enum GraphIssue {
    NoSuccessors(usize),
    MissingSuccessor(usize, usize),
}

/// The issues a block has: first whether it lacks successors, then each
/// successor that is missing from the graph, in the block's order.
pub open spec fn block_issues(m: Map<usize, BasicBlock>, k: usize, exit_id: usize) -> Seq<GraphIssue> {
    let succs = m[k].succs@;
    let head = if succs.len() == 0 && k != exit_id { seq![GraphIssue::NoSuccessors(k)] } else { Seq::empty() };
    head + missing_succs(m, k, succs)
}

/// The missing successors among `succs` of block `k`, in order.
pub open spec fn missing_succs(m: Map<usize, BasicBlock>, k: usize, succs: Seq<usize>) -> Seq<GraphIssue>
    decreases succs.len(),
{
    if succs.len() == 0 {
        Seq::empty()
    } else {
        let rest = missing_succs(m, k, succs.drop_last());
        if m.contains_key(succs.last()) { rest } else { rest.push(GraphIssue::MissingSuccessor(k, succs.last())) }
    }
}

/// The issues of the blocks `ids`, block after block.
pub open spec fn issues_of(m: Map<usize, BasicBlock>, ids: Seq<usize>, exit_id: usize) -> Seq<GraphIssue>
    decreases ids.len(),
{
    if ids.len() == 0 {
        Seq::empty()
    } else {
        issues_of(m, ids.drop_last(), exit_id) + block_issues(m, ids.last(), exit_id)
    }
}

/// The issues of a graph, block by block in increasing id order: a block
/// other than `exit_id` with no successor, and each successor that is not a
/// block of the graph.
pub fn validate_graph(blocks: &HashMap<usize, BasicBlock>, exit_id: usize) -> (r: Vec<GraphIssue>)
    ensures
        r@ == issues_of(blocks@, sorted_ids(blocks@.dom()), exit_id),
{
    let keys = sorted_unique(&map_keys(blocks));
    proof { lemma_sorted_ids(keys@, blocks@.dom()); }
    let mut out: Vec<GraphIssue> = Vec::new();
    let mut i: usize = 0;
    while i < keys.len()
        invariant
            i <= keys@.len(),
            keys@.to_set() == blocks@.dom(),
            out@ == issues_of(blocks@, keys@.subrange(0, i as int), exit_id),
        decreases keys@.len() - i,
    {
        let k = keys[i];
        proof { assert(keys@.to_set().contains(k)); }
        let b = blocks.get(&k).unwrap();
        let ghost before = out@;
        if b.succs.len() == 0 && k != exit_id {
            out.push(GraphIssue::NoSuccessors(k));
        }
        let ghost head = out@;
        let mut j: usize = 0;
        while j < b.succs.len()
            invariant
                j <= b.succs@.len(),
                out@ == head + missing_succs(blocks@, k, b.succs@.subrange(0, j as int)),
            decreases b.succs@.len() - j,
        {
            let s = b.succs[j];
            proof {
                assert(b.succs@.subrange(0, j + 1).drop_last() =~= b.succs@.subrange(0, j as int));
            }
            if !blocks.contains_key(&s) {
                out.push(GraphIssue::MissingSuccessor(k, s));
            }
            j += 1;
        }
        proof {
            assert(b.succs@.subrange(0, b.succs@.len() as int) =~= b.succs@);
            assert(keys@.subrange(0, i + 1).drop_last() =~= keys@.subrange(0, i as int));
            assert(out@ =~= before + block_issues(blocks@, k, exit_id));
        }
        i += 1;
    }
    proof { assert(keys@.subrange(0, keys@.len() as int) =~= keys@); }
    out
}

impl GraphIssue {
    /// The issue as a warning line.
    pub fn message(&self) -> (r: String)
        ensures
            r@ == match *self {
                GraphIssue::NoSuccessors(k) => "Warning: block "@ + decimal(k as nat) + " has no successors"@,
                GraphIssue::MissingSuccessor(k, s) => "Warning: block "@ + decimal(k as nat)
                    + " references non-existent successor "@ + decimal(s as nat),
            },
    {
        let mut out = String::new();
        string_push_str(&mut out, "Warning: block ");
        match self {
            GraphIssue::NoSuccessors(k) => {
                push_decimal(&mut out, *k);
                string_push_str(&mut out, " has no successors");
            },
            GraphIssue::MissingSuccessor(k, s) => {
                push_decimal(&mut out, *k);
                string_push_str(&mut out, " references non-existent successor ");
                push_decimal(&mut out, *s);
            },
        }
        proof {
            reveal_strlit("Warning: block ");
            reveal_strlit(" has no successors");
            reveal_strlit(" references non-existent successor ");
        }
        out
    }
}

} // verus!
