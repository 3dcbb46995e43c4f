//! Graphviz DOT text of control flow graphs: one node per block, labelled
//! with the kind of its first statement, and one edge per successor.
use vstd::prelude::*;
use std::collections::HashMap;
use crate::ast::Stmt;
use crate::cfg::{BasicBlock, ControlFlowGraph};
use crate::cfg::optimization::{map_keys, sorted_unique, sorted_ids, lemma_sorted_ids};
use crate::strs::{string_push, string_push_str, push_decimal, decimal, is_alphabetic, is_numeric,
    char_is_alphabetic, char_is_numeric};

verus! {

broadcast use vstd::std_specs::hash::group_hash_axioms;

/// Letters and digits (`char::is_alphanumeric`: alphabetic or numeric).
pub open spec fn char_is_alphanumeric(c: char) -> bool {
    char_is_alphabetic(c) || char_is_numeric(c)
}

/// `name` with every character other than a letter, a digit or `_`
/// replaced by `_`.
pub open spec fn sanitized(name: Seq<char>) -> Seq<char> {
    Seq::new(name.len(), |i: int| if char_is_alphanumeric(name[i]) || name[i] == '_' { name[i] } else { '_' })
}

/// The name with every character other than a letter, a digit or `_`
/// replaced by `_`, for use as a DOT identifier.
pub fn sanitize(name: &str) -> (r: String)
    ensures r@ == sanitized(name@),
{
    let n = name.unicode_len();
    let mut out = String::new();
    let mut i: usize = 0;
    while i < n
        invariant
            n == name@.len(),
            i <= n,
            out@ == sanitized(name@).subrange(0, i as int),
        decreases n - i,
    {
        let c = name.get_char(i);
        let keep = is_alphabetic(c) || is_numeric(c) || c == '_';
        string_push(&mut out, if keep { c } else { '_' });
        assert(out@ =~= sanitized(name@).subrange(0, i + 1));
        i += 1;
    }
    assert(out@ =~= sanitized(name@));
    out
}

/// The label of a block whose first statement is `s`.
pub open spec fn stmt_label(s: Stmt) -> Seq<char> {
    match s {
        Stmt::If(_) => "If"@,
        Stmt::For(_) => "For"@,
        Stmt::Range(_) => "Range"@,
        Stmt::Switch(_) => "Switch"@,
        Stmt::Select(_) => "Select"@,
        Stmt::Return(_) => "Return"@,
        Stmt::Decl(_) => "Decl"@,
        Stmt::Assign(_) => "Assign"@,
        Stmt::Go(_) => "Go"@,
        Stmt::Defer(_) => "Defer"@,
        Stmt::Branch(_) => "Branch"@,
        Stmt::Empty(_) => "Empty"@,
        Stmt::Labeled(_) => "Labeled"@,
        Stmt::Send(_) => "Send"@,
        Stmt::IncDec(_) => "IncDec"@,
        Stmt::Comm(_) => "Comm"@,
        Stmt::Block(_) => "Block"@,
        Stmt::Expr(_) => "Expr"@,
        _ => "Stmt"@,
    }
}

fn stmt_label_str(s: &Stmt) -> (r: &'static str)
    ensures r@ == stmt_label(*s),
{
    match s {
        Stmt::If(_) => "If",
        Stmt::For(_) => "For",
        Stmt::Range(_) => "Range",
        Stmt::Switch(_) => "Switch",
        Stmt::Select(_) => "Select",
        Stmt::Return(_) => "Return",
        Stmt::Decl(_) => "Decl",
        Stmt::Assign(_) => "Assign",
        Stmt::Go(_) => "Go",
        Stmt::Defer(_) => "Defer",
        Stmt::Branch(_) => "Branch",
        Stmt::Empty(_) => "Empty",
        Stmt::Labeled(_) => "Labeled",
        Stmt::Send(_) => "Send",
        Stmt::IncDec(_) => "IncDec",
        Stmt::Comm(_) => "Comm",
        Stmt::Block(_) => "Block",
        Stmt::Expr(_) => "Expr",
        _ => "Stmt",
    }
}

/// The label of block `id`: `entry` or `exit` for a block without
/// statements, else the kind of its first statement.
pub open spec fn block_label(b: BasicBlock, id: usize, entry: usize) -> Seq<char> {
    if b.stmts@.len() == 0 {
        if id == entry { "entry"@ } else { "exit"@ }
    } else {
        stmt_label(b.stmts@[0].stmt)
    }
}

/// A label with `\` and `"` escaped by a backslash.
pub open spec fn dot_escape(s: Seq<char>) -> Seq<char>
    decreases s.len(),
{
    if s.len() == 0 {
        Seq::empty()
    } else {
        let c = s.last();
        dot_escape(s.drop_last()) + if c == '\\' { seq!['\\', '\\'] } else if c == '"' { seq!['\\', '"'] } else { seq![c] }
    }
}

/// The node line and the edge lines of block `id`, each line starting with
/// `indent`.
pub open spec fn block_text(indent: Seq<char>, id: usize, b: BasicBlock, entry: usize) -> Seq<char> {
    indent + "n"@ + decimal(id as nat) + " [label=\""@ + dot_escape(block_label(b, id, entry)) + "\"];\n"@
        + edges_text(indent, id, b.succs@)
}

/// One edge line from `id` to each of `succs`, in order.
pub open spec fn edges_text(indent: Seq<char>, id: usize, succs: Seq<usize>) -> Seq<char>
    decreases succs.len(),
{
    if succs.len() == 0 {
        Seq::empty()
    } else {
        edges_text(indent, id, succs.drop_last()) + indent + "n"@ + decimal(id as nat) + " -> n"@
            + decimal(succs.last() as nat) + ";\n"@
    }
}

/// The DOT line of one edge, from block `id` to block `to`.
pub open spec fn edge_line(indent: Seq<char>, id: usize, to: usize) -> Seq<char> {
    indent + "n"@ + decimal(id as nat) + " -> n"@ + decimal(to as nat) + ";\n"@
}

/// The edge lines of the first `k` successors begin the edge lines of all.
proof fn lemma_edges_text_prefix(indent: Seq<char>, id: usize, succs: Seq<usize>, k: int)
    requires 0 <= k <= succs.len(),
    ensures
        edges_text(indent, id, succs.take(k)).len() <= edges_text(indent, id, succs).len(),
        edges_text(indent, id, succs).subrange(0, edges_text(indent, id, succs.take(k)).len() as int)
            == edges_text(indent, id, succs.take(k)),
    decreases succs.len(),
{
    if k == succs.len() {
        assert(succs.take(k) =~= succs);
        assert(edges_text(indent, id, succs).subrange(0, edges_text(indent, id, succs).len() as int)
            =~= edges_text(indent, id, succs));
    } else {
        let d = succs.drop_last();
        assert(d.take(k) =~= succs.take(k));
        lemma_edges_text_prefix(indent, id, d, k);
        let a = edges_text(indent, id, d);
        let t = edges_text(indent, id, succs.take(k));
        assert(edges_text(indent, id, succs) == a + edge_line(indent, id, succs.last()));
        assert((a + edge_line(indent, id, succs.last())).subrange(0, t.len() as int) =~= a.subrange(0, t.len() as int));
    }
}

/// The DOT text of a block's edges holds one line per successor, in order:
/// the lines of the first `j + 1` successors are those of the first `j`
/// followed by the line of successor `j`, and that line stands in the text
/// of all the edges right after the lines of the first `j`.
pub proof fn lemma_edges_text_lines(indent: Seq<char>, id: usize, succs: Seq<usize>)
    ensures
        edges_text(indent, id, Seq::<usize>::empty()) == Seq::<char>::empty(),
        forall|j: int| 0 <= j < succs.len() ==> #[trigger] edges_text(indent, id, succs.take(j + 1))
            == edges_text(indent, id, succs.take(j)) + edge_line(indent, id, succs[j]),
        forall|j: int| 0 <= j < succs.len() ==> edges_text(indent, id, succs).subrange(
            edges_text(indent, id, succs.take(j)).len() as int,
            (edges_text(indent, id, succs.take(j)).len() + edge_line(indent, id, succs[j]).len()) as int)
            == #[trigger] edge_line(indent, id, succs[j]),
{
    assert forall|j: int| 0 <= j < succs.len() implies #[trigger] edges_text(indent, id, succs.take(j + 1))
        == edges_text(indent, id, succs.take(j)) + edge_line(indent, id, succs[j]) by {
        assert(succs.take(j + 1).drop_last() =~= succs.take(j));
        assert(succs.take(j + 1).last() == succs[j]);
    };
    assert forall|j: int| 0 <= j < succs.len() implies edges_text(indent, id, succs).subrange(
        edges_text(indent, id, succs.take(j)).len() as int,
        (edges_text(indent, id, succs.take(j)).len() + edge_line(indent, id, succs[j]).len()) as int)
        == #[trigger] edge_line(indent, id, succs[j]) by {
        let t0 = edges_text(indent, id, succs.take(j));
        let t1 = edges_text(indent, id, succs.take(j + 1));
        let l = edge_line(indent, id, succs[j]);
        assert(succs.take(j + 1).drop_last() =~= succs.take(j));
        assert(t1 == t0 + l);
        lemma_edges_text_prefix(indent, id, succs, j + 1);
        let all = edges_text(indent, id, succs);
        assert(all.subrange(0, t1.len() as int) == t1);
        assert(all.subrange(t0.len() as int, (t0.len() + l.len()) as int) =~= t1.subrange(t0.len() as int, t1.len() as int));
        assert(t1.subrange(t0.len() as int, t1.len() as int) =~= l);
    };
}

/// The text of the blocks `ids` of a graph, block after block.
pub open spec fn blocks_text(indent: Seq<char>, m: Map<usize, BasicBlock>, ids: Seq<usize>, entry: usize) -> Seq<char>
    decreases ids.len(),
{
    if ids.len() == 0 {
        Seq::empty()
    } else {
        blocks_text(indent, m, ids.drop_last(), entry) + block_text(indent, ids.last(), m[ids.last()], entry)
    }
}

/// Appends `s` with `\` and `"` escaped.
fn push_escaped(out: &mut String, s: &str)
    ensures final(out)@ == old(out)@ + dot_escape(s@),
{
    let n = s.unicode_len();
    let mut i: usize = 0;
    while i < n
        invariant
            n == s@.len(),
            i <= n,
            out@ == old(out)@ + dot_escape(s@.subrange(0, i as int)),
        decreases n - i,
    {
        let c = s.get_char(i);
        proof { assert(s@.subrange(0, i + 1).drop_last() =~= s@.subrange(0, i as int)); }
        if c == '\\' {
            string_push_str(out, "\\\\");
            proof { reveal_strlit("\\\\"); }
        } else if c == '"' {
            string_push_str(out, "\\\"");
            proof { reveal_strlit("\\\""); }
        } else {
            string_push(out, c);
        }
        assert(out@ =~= old(out)@ + dot_escape(s@.subrange(0, i + 1)));
        i += 1;
    }
    assert(s@.subrange(0, n as int) =~= s@);
}

/// Appends the lines of block `id` (its node, then an edge per successor).
pub fn push_block_text(out: &mut String, indent: &str, id: usize, b: &BasicBlock, entry: usize)
    ensures final(out)@ == old(out)@ + block_text(indent@, id, *b, entry),
{
    let label: &str = if b.stmts.len() == 0 {
        if id == entry { "entry" } else { "exit" }
    } else {
        stmt_label_str(&b.stmts[0].stmt)
    };
    proof {
        reveal_strlit("entry");
        reveal_strlit("exit");
    }
    assert(label@ == block_label(*b, id, entry));
    string_push_str(out, indent);
    string_push_str(out, "n");
    push_decimal(out, id);
    string_push_str(out, " [label=\"");
    push_escaped(out, label);
    string_push_str(out, "\"];\n");
    let ghost head = out@;
    let mut j: usize = 0;
    while j < b.succs.len()
        invariant
            j <= b.succs@.len(),
            out@ == head + edges_text(indent@, id, b.succs@.subrange(0, j as int)),
        decreases b.succs@.len() - j,
    {
        proof { assert(b.succs@.subrange(0, j + 1).drop_last() =~= b.succs@.subrange(0, j as int)); }
        string_push_str(out, indent);
        string_push_str(out, "n");
        push_decimal(out, id);
        string_push_str(out, " -> n");
        push_decimal(out, b.succs[j]);
        string_push_str(out, ";\n");
        assert(out@ =~= head + edges_text(indent@, id, b.succs@.subrange(0, j + 1)));
        j += 1;
    }
    assert(b.succs@.subrange(0, b.succs@.len() as int) =~= b.succs@);
    assert(out@ =~= old(out)@ + block_text(indent@, id, *b, entry));
}

/// Appends the text of every block of `blocks`, by increasing id.
pub fn push_blocks_text(out: &mut String, indent: &str, blocks: &HashMap<usize, BasicBlock>, entry: usize)
    ensures
        final(out)@ == old(out)@ + blocks_text(indent@, blocks@, sorted_ids(blocks@.dom()), entry),
{
    let keys = sorted_unique(&map_keys(blocks));
    proof { lemma_sorted_ids(keys@, blocks@.dom()); }
    let mut i: usize = 0;
    while i < keys.len()
        invariant
            i <= keys@.len(),
            keys@.to_set() == blocks@.dom(),
            out@ == old(out)@ + blocks_text(indent@, blocks@, keys@.subrange(0, i as int), entry),
        decreases keys@.len() - i,
    {
        let k = keys[i];
        proof {
            assert(keys@.to_set().contains(k));
            assert(keys@.subrange(0, i + 1).drop_last() =~= keys@.subrange(0, i as int));
        }
        let b = blocks.get(&k).unwrap();
        push_block_text(out, indent, k, b, entry);
        assert(out@ =~= old(out)@ + blocks_text(indent@, blocks@, keys@.subrange(0, i + 1), entry));
        i += 1;
    }
    assert(keys@.subrange(0, keys@.len() as int) =~= keys@);
}

/// The DOT text of a function's graph: a `digraph` named after the
/// function (sanitized), the layout settings, then each block by increasing
/// id with its edges.
pub fn to_dot(cfg: &ControlFlowGraph, name: &str) -> (r: String)
    ensures
        r@ == "digraph "@ + sanitized(name@) + " {\n"@ + dot_settings()
            + blocks_text("  "@, cfg.blocks@, sorted_ids(cfg.blocks@.dom()), cfg.entry) + "}\n"@,
{
    let mut out = String::new();
    string_push_str(&mut out, "digraph ");
    let graph_name = sanitize(name);
    string_push_str(&mut out, graph_name.as_str());
    string_push_str(&mut out, " {\n");
    string_push_str(&mut out, "  rankdir=TB;\n");
    string_push_str(&mut out, "  node [shape=box, style=rounded, fontsize=10];\n");
    string_push_str(&mut out, "  splines=true;\n");
    string_push_str(&mut out, "  ranksep=1.0;\n");
    string_push_str(&mut out, "  nodesep=1.0;\n");
    string_push_str(&mut out, "  concentrate=false;\n");
    let ghost head = out@;
    push_blocks_text(&mut out, "  ", &cfg.blocks, cfg.entry);
    string_push_str(&mut out, "}\n");
    proof {
        assert(head =~= "digraph "@ + sanitized(name@) + " {\n"@ + dot_settings());
    }
    out
}

/// The layout settings lines of a DOT graph.
pub open spec fn dot_settings() -> Seq<char> {
    "  rankdir=TB;\n"@ + "  node [shape=box, style=rounded, fontsize=10];\n"@ + "  splines=true;\n"@
        + "  ranksep=1.0;\n"@ + "  nodesep=1.0;\n"@ + "  concentrate=false;\n"@
}

} // verus!
