//! Control flow graphs of Go functions: basic blocks with their successor
//! edges, the shared block-building steps, and label tables.
use vstd::prelude::*;
use std::rc::Rc;
use std::collections::HashMap;
use crate::ast::{Stmt, EmptyStmt};
use crate::strs::str_matches;
use crate::span::stmt_ok;

pub mod optimization;
pub mod builder;
pub mod validation;

pub use builder::build_cfgs_for_file;


verus! {

/// A statement placed in a basic block, with a short description of it.
#[derive(Debug, Clone)]
pub struct Statement {
    pub text: String,
    pub stmt: Stmt,
}

/// A basic block: its id, its statements, the ids of its successors and the
/// source lines it spans.
#[derive(Debug, Clone)]
pub struct BasicBlock {
    pub id: usize,
    pub stmts: Vec<Statement>,
    pub succs: Vec<usize>,
    pub start_line: usize,
    pub end_line: usize,
}

/// The control flow graph of one function: its blocks by id and the entry
/// block.
#[derive(Debug, Clone)]
pub struct ControlFlowGraph {
    pub blocks: HashMap<usize, BasicBlock>,
    pub entry: usize,
}

/// The blocks of a loop labelled `label`: the label block, the loop condition
/// and the block after the loop.
#[derive(Debug, Clone, Copy)]
pub struct LoopContext {
    pub label_id: usize,
    pub cond_id: usize,
    pub after_id: usize,
}

/// Blocks under construction are stored by id: block `i` sits at index `i`,
/// and every successor names a block that exists.
pub open spec fn graph_ok(b: Seq<BasicBlock>) -> bool {
    forall|i: int| 0 <= i < b.len() ==> {
        &&& #[trigger] b[i].id == i
        &&& forall|j: int| 0 <= j < b[i].succs@.len() ==> #[trigger] b[i].succs@[j] < b.len()
    }
}

/// Every statement placed in the block has defined spans.
pub open spec fn block_stmts_ok(b: BasicBlock) -> bool {
    forall|j: int| 0 <= j < b.stmts@.len() ==> stmt_ok(#[trigger] b.stmts@[j].stmt)
}

/// Every statement placed in a block of the list has defined spans.
pub open spec fn stmts_spans_ok(b: Seq<BasicBlock>) -> bool {
    forall|i: int| 0 <= i < b.len() ==> block_stmts_ok(#[trigger] b[i])
}

/// Every statement placed in a block of the graph has defined spans.
pub open spec fn map_stmts_ok(m: Map<usize, BasicBlock>) -> bool {
    forall|k: usize| #[trigger] m.contains_key(k) ==> block_stmts_ok(m[k])
}

/// A label table: names bound to block ids, later bindings shadowing earlier
/// ones.
#[derive(Debug, Clone)]
pub struct LabelMap {
    pub entries: Vec<(String, usize)>,
}

/// The block id bound to `name` in a list of bindings (the latest binding).
pub open spec fn label_lookup(e: Seq<(String, usize)>, name: Seq<char>) -> Option<usize>
    decreases e.len(),
{
    if e.len() == 0 {
        None
    } else if e.last().0@ == name {
        Some(e.last().1)
    } else {
        label_lookup(e.drop_last(), name)
    }
}

/// The bindings `a` of a label table are all still there, first, in `b`.
pub open spec fn labels_kept(a: Seq<(String, usize)>, b: Seq<(String, usize)>) -> bool {
    &&& a.len() <= b.len()
    &&& forall|i: int| 0 <= i < a.len() ==> #[trigger] b[i] == a[i]
}

/// Every id a label table binds is below `n`.
pub open spec fn labels_below(e: Seq<(String, usize)>, n: int) -> bool {
    forall|i: int| 0 <= i < e.len() ==> #[trigger] e[i].1 < n
}

proof fn lemma_lookup_below(e: Seq<(String, usize)>, name: Seq<char>, n: int)
    requires labels_below(e, n),
    ensures label_lookup(e, name) matches Some(v) ==> v < n,
    decreases e.len(),
{
    if e.len() > 0 {
        assert(labels_below(e.drop_last(), n)) by {
            assert forall|i: int| 0 <= i < e.drop_last().len() implies #[trigger] e.drop_last()[i].1 < n by {
                assert(e.drop_last()[i] == e[i]);
            };
        };
        lemma_lookup_below(e.drop_last(), name, n);
    }
}

impl LabelMap {
    pub fn new() -> (r: LabelMap)
        ensures r.entries@.len() == 0,
    {
        LabelMap { entries: Vec::new() }
    }

    /// The block bound to `name`, if any.
    pub fn get(&self, name: &str) -> (r: Option<usize>)
        ensures
            r == label_lookup(self.entries@, name@),
            forall|n: int| labels_below(self.entries@, n) ==> (r matches Some(v) ==> v < n),
    {
        let mut i = self.entries.len();
        assert(self.entries@.subrange(0, i as int) =~= self.entries@);
        while i > 0
            invariant
                i <= self.entries@.len(),
                label_lookup(self.entries@, name@) == label_lookup(self.entries@.subrange(0, i as int), name@),
            decreases i,
        {
            let ghost pre = self.entries@.subrange(0, i as int);
            assert(pre.drop_last() =~= self.entries@.subrange(0, i - 1));
            if str_matches(self.entries[i - 1].0.as_str(), name) {
                proof {
                    assert forall|n: int| labels_below(self.entries@, n) implies (label_lookup(self.entries@, name@) matches Some(v) ==> v < n) by {
                        lemma_lookup_below(self.entries@, name@, n);
                    };
                }
                return Some(self.entries[i - 1].1);
            }
            i -= 1;
        }
        assert(self.entries@.subrange(0, 0) =~= Seq::<(String, usize)>::empty());
        None
    }

    /// Binds `name` to `id`.
    pub fn insert(&mut self, name: String, id: usize)
        ensures
            final(self).entries@ == old(self).entries@.push((name, id)),
            forall|n: int| labels_below(old(self).entries@, n) && id < n ==> labels_below(final(self).entries@, n),
    {
        self.entries.push((name, id));
    }
}

/// The statement that stands for an empty block.
pub fn empty_stmt() -> (r: Stmt)
    ensures r matches Stmt::Empty(e) && e.semi == 0 && e.implicit,
{
    Stmt::Empty(Rc::new(EmptyStmt { semi: 0, implicit: true }))
}

/// The kind of a statement, as a short word.
pub open spec fn stmt_kind(s: Stmt) -> Seq<char> {
    match s {
        Stmt::Bad(_) => "Bad"@,
        Stmt::Decl(_) => "Decl"@,
        Stmt::Empty(_) => "Empty"@,
        Stmt::Labeled(_) => "Labeled"@,
        Stmt::Expr(_) => "Expr"@,
        Stmt::Send(_) => "Send"@,
        Stmt::IncDec(_) => "IncDec"@,
        Stmt::Assign(_) => "Assign"@,
        Stmt::Go(_) => "Go"@,
        Stmt::Defer(_) => "Defer"@,
        Stmt::Return(_) => "Return"@,
        Stmt::Branch(_) => "Branch"@,
        Stmt::Block(_) => "Block"@,
        Stmt::If(_) => "If"@,
        Stmt::Case(_) => "Case"@,
        Stmt::Switch(_) => "Switch"@,
        Stmt::TypeSwitch(_) => "TypeSwitch"@,
        Stmt::Comm(_) => "Comm"@,
        Stmt::Select(_) => "Select"@,
        Stmt::For(_) => "For"@,
        Stmt::Range(_) => "Range"@,
    }
}

pub fn stmt_kind_str(s: &Stmt) -> (r: &'static str)
    ensures r@ == stmt_kind(*s),
{
    match s {
        Stmt::Bad(_) => "Bad",
        Stmt::Decl(_) => "Decl",
        Stmt::Empty(_) => "Empty",
        Stmt::Labeled(_) => "Labeled",
        Stmt::Expr(_) => "Expr",
        Stmt::Send(_) => "Send",
        Stmt::IncDec(_) => "IncDec",
        Stmt::Assign(_) => "Assign",
        Stmt::Go(_) => "Go",
        Stmt::Defer(_) => "Defer",
        Stmt::Return(_) => "Return",
        Stmt::Branch(_) => "Branch",
        Stmt::Block(_) => "Block",
        Stmt::If(_) => "If",
        Stmt::Case(_) => "Case",
        Stmt::Switch(_) => "Switch",
        Stmt::TypeSwitch(_) => "TypeSwitch",
        Stmt::Comm(_) => "Comm",
        Stmt::Select(_) => "Select",
        Stmt::For(_) => "For",
        Stmt::Range(_) => "Range",
    }
}

/// Appends a block holding `stmt` (with the given description and lines) and
/// the given successors; returns its id.
#[verifier::spinoff_prover]
pub fn add_block(blocks: &mut Vec<BasicBlock>, stmt: Stmt, text: String, succs: Vec<usize>, start_line: usize, end_line: usize) -> (id: usize)
    requires
        graph_ok(old(blocks)@),
        forall|j: int| 0 <= j < succs@.len() ==> #[trigger] succs@[j] <= old(blocks)@.len(),
    ensures
        id == old(blocks)@.len(),
        final(blocks)@.len() == old(blocks)@.len() + 1,
        graph_ok(final(blocks)@),
        final(blocks)@.drop_last() == old(blocks)@,
        final(blocks)@[id as int].succs == succs,
        final(blocks)@[id as int].stmts@.len() == 1,
        final(blocks)@[id as int].stmts@[0].stmt == stmt,
        final(blocks)@[id as int].stmts@[0].text@ == text@,
        final(blocks)@[id as int].start_line == start_line,
        final(blocks)@[id as int].end_line == end_line,
        stmts_spans_ok(old(blocks)@) && stmt_ok(stmt) ==> stmts_spans_ok(final(blocks)@),
{
    let id = blocks.len();
    let mut stmts: Vec<Statement> = Vec::new();
    stmts.push(Statement { text, stmt });
    blocks.push(BasicBlock { id, stmts, succs, start_line, end_line });
    proof {
        assert(final(blocks)@.drop_last() =~= old(blocks)@);
        assert forall|i: int| 0 <= i < blocks@.len() implies {
            &&& #[trigger] blocks@[i].id == i
            &&& forall|j: int| 0 <= j < blocks@[i].succs@.len() ==> #[trigger] blocks@[i].succs@[j] < blocks@.len()
        } by {
            if i < id {
                assert(blocks@[i] == old(blocks)@[i]);
            }
        };
        if stmts_spans_ok(old(blocks)@) && stmt_ok(blocks@[id as int].stmts@[0].stmt) {
            assert forall|i: int| 0 <= i < blocks@.len() implies block_stmts_ok(#[trigger] blocks@[i]) by {
                if i < id {
                    assert(blocks@[i] == old(blocks)@[i]);
                }
            };
        }
    }
    id
}

/// Appends an empty block (one implicit empty statement, no successors).
pub fn add_empty_block(blocks: &mut Vec<BasicBlock>) -> (id: usize)
    requires graph_ok(old(blocks)@),
    ensures
        id == old(blocks)@.len(),
        final(blocks)@.len() == old(blocks)@.len() + 1,
        graph_ok(final(blocks)@),
        final(blocks)@.drop_last() == old(blocks)@,
        final(blocks)@[id as int].succs@.len() == 0,
        final(blocks)@[id as int].stmts@.len() == 1,
        final(blocks)@[id as int].stmts@[0].stmt matches Stmt::Empty(e) && e.implicit,
        stmts_spans_ok(old(blocks)@) ==> stmts_spans_ok(final(blocks)@),
{
    add_block(blocks, empty_stmt(), String::from_str("<empty>"), Vec::new(), 0, 0)
}

/// Sets the successors of block `id` (if it exists).
#[verifier::spinoff_prover]
pub fn set_succs(blocks: &mut Vec<BasicBlock>, id: usize, succs: Vec<usize>)
    requires
        graph_ok(old(blocks)@),
        forall|j: int| 0 <= j < succs@.len() ==> #[trigger] succs@[j] < old(blocks)@.len(),
    ensures
        graph_ok(final(blocks)@),
        final(blocks)@.len() == old(blocks)@.len(),
        id < old(blocks)@.len() ==> final(blocks)@ == old(blocks)@.update(id as int, BasicBlock { succs, ..old(blocks)@[id as int] }),
        id >= old(blocks)@.len() ==> final(blocks)@ == old(blocks)@,
        stmts_spans_ok(old(blocks)@) ==> stmts_spans_ok(final(blocks)@),
{
    if id < blocks.len() {
        blocks[id].succs = succs;
        proof {
            assert forall|i: int| 0 <= i < blocks@.len() implies {
                &&& #[trigger] blocks@[i].id == i
                &&& forall|j: int| 0 <= j < blocks@[i].succs@.len() ==> #[trigger] blocks@[i].succs@[j] < blocks@.len()
            } by {
                if i != id {
                    assert(blocks@[i] == old(blocks)@[i]);
                }
            };
            assert(blocks@ =~= old(blocks)@.update(id as int, BasicBlock { succs, ..old(blocks)@[id as int] }));
            if stmts_spans_ok(old(blocks)@) {
                assert forall|i: int| 0 <= i < blocks@.len() implies block_stmts_ok(#[trigger] blocks@[i]) by {
                    assert(blocks@[i].stmts == old(blocks)@[i].stmts);
                };
            }
        }
    }
}

/// Appends one successor to block `id` (if it exists).
#[verifier::spinoff_prover]
pub fn push_succ(blocks: &mut Vec<BasicBlock>, id: usize, s: usize)
    requires
        graph_ok(old(blocks)@),
        s < old(blocks)@.len(),
    ensures
        graph_ok(final(blocks)@),
        final(blocks)@.len() == old(blocks)@.len(),
        id < old(blocks)@.len() ==> final(blocks)@ == old(blocks)@.update(id as int,
            BasicBlock { succs: final(blocks)@[id as int].succs, ..old(blocks)@[id as int] })
            && final(blocks)@[id as int].succs@ == old(blocks)@[id as int].succs@.push(s),
        id >= old(blocks)@.len() ==> final(blocks)@ == old(blocks)@,
        stmts_spans_ok(old(blocks)@) ==> stmts_spans_ok(final(blocks)@),
{
    if id < blocks.len() {
        blocks[id].succs.push(s);
        proof {
            assert forall|i: int| 0 <= i < blocks@.len() implies {
                &&& #[trigger] blocks@[i].id == i
                &&& forall|j: int| 0 <= j < blocks@[i].succs@.len() ==> #[trigger] blocks@[i].succs@[j] < blocks@.len()
            } by {
                if i != id {
                    assert(blocks@[i] == old(blocks)@[i]);
                } else {
                    assert forall|j: int| 0 <= j < blocks@[i].succs@.len() implies #[trigger] blocks@[i].succs@[j] < blocks@.len() by {
                        if j < old(blocks)@[i].succs@.len() {
                            assert(blocks@[i].succs@[j] == old(blocks)@[i].succs@[j]);
                        }
                    };
                }
            };
            assert(blocks@ =~= old(blocks)@.update(id as int, BasicBlock { succs: blocks@[id as int].succs, ..old(blocks)@[id as int] }));
            if stmts_spans_ok(old(blocks)@) {
                assert forall|i: int| 0 <= i < blocks@.len() implies block_stmts_ok(#[trigger] blocks@[i]) by {
                    assert(blocks@[i].stmts == old(blocks)@[i].stmts);
                };
            }
        }
    }
}

/// Makes `to` the only successor of block `from` if `from` exists and has no
/// successor yet.
pub fn connect_if_empty(blocks: &mut Vec<BasicBlock>, from: usize, to: usize)
    requires
        graph_ok(old(blocks)@),
        to < old(blocks)@.len(),
    ensures
        graph_ok(final(blocks)@),
        final(blocks)@.len() == old(blocks)@.len(),
        from < old(blocks)@.len() && old(blocks)@[from as int].succs@.len() == 0
            ==> final(blocks)@ == old(blocks)@.update(from as int,
                BasicBlock { succs: final(blocks)@[from as int].succs, ..old(blocks)@[from as int] })
                && final(blocks)@[from as int].succs@ == seq![to],
        !(from < old(blocks)@.len() && old(blocks)@[from as int].succs@.len() == 0) ==> final(blocks)@ == old(blocks)@,
        stmts_spans_ok(old(blocks)@) ==> stmts_spans_ok(final(blocks)@),
{
    if from < blocks.len() && blocks[from].succs.len() == 0 {
        let mut v: Vec<usize> = Vec::new();
        v.push(to);
        set_succs(blocks, from, v);
    }
}

/// `p` is a path of the graph: its ids are blocks of the graph, and each
/// one is followed by one of its successors.
pub open spec fn is_path(m: Map<usize, BasicBlock>, p: Seq<usize>) -> bool {
    &&& forall|i: int| 0 <= i < p.len() ==> m.contains_key(#[trigger] p[i])
    &&& forall|i: int, j: int| #![trigger p[i], p[j]] 0 <= i && j == i + 1 && j < p.len()
        ==> m[p[i]].succs@.contains(p[j])
}

/// `k` is a block that the entry reaches by a path of the graph.
pub open spec fn reachable(m: Map<usize, BasicBlock>, entry: usize, k: usize) -> bool {
    exists|p: Seq<usize>| #[trigger] is_path(m, p) && p.len() > 0 && p[0] == entry && p.last() == k
}

/// Every pending jump names a block below `n`.
pub open spec fn pending_below(p: Seq<(usize, String)>, n: int) -> bool {
    forall|i: int| 0 <= i < p.len() ==> #[trigger] p[i].0 < n
}

pub proof fn lemma_pending_grow(pending: Seq<(usize, String)>, n: int, m: int)
    requires pending_below(pending, n), n <= m,
    ensures pending_below(pending, m),
{
}

pub fn append_pending(pending: &mut Vec<(usize, String)>, more: Vec<(usize, String)>, Ghost(n): Ghost<int>)
    requires pending_below(old(pending)@, n), pending_below(more@, n),
    ensures pending_below(final(pending)@, n), final(pending)@ == old(pending)@ + more@,
{
    let ghost m0 = more@;
    let mut more = more;
    pending.append(&mut more);
    proof {
        assert forall|i: int| 0 <= i < pending@.len() implies #[trigger] pending@[i].0 < n by {
            if i < old(pending)@.len() {
                assert(pending@[i] == old(pending)@[i]);
            } else {
                assert(pending@[i] == m0[i - old(pending)@.len()]);
            }
        };
    }
}

pub fn one(x: usize) -> (r: Vec<usize>)
    ensures r@ == seq![x],
{
    let mut v: Vec<usize> = Vec::new();
    v.push(x);
    v
}

} // verus!
