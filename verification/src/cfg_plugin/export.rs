//! DOT text of the modular builder's graphs, and DOT-safe function names.
use vstd::prelude::*;
use crate::cfg_plugin::ControlFlowGraph;
use crate::cfg::optimization::sorted_ids;
use crate::export::{blocks_text, push_blocks_text};
use crate::strs::{string_push, string_push_str, push_decimal, decimal,
    str_to_chars, string_from_chars, chars_contain, seq_contains};

verus! {

/// An ASCII letter.
pub open spec fn ascii_letter(c: char) -> bool {
    ('a' <= c && c <= 'z') || ('A' <= c && c <= 'Z')
}

/// An ASCII digit.
pub open spec fn ascii_digit(c: char) -> bool {
    '0' <= c && c <= '9'
}

/// What the first character of a function name becomes: itself if it is a
/// letter or `_`, `_` followed by it if it is a digit, else `_`.
pub open spec fn first_char_text(c: char) -> Seq<char> {
    if ascii_letter(c) || c == '_' {
        seq![c]
    } else if ascii_digit(c) {
        seq!['_', c]
    } else {
        seq!['_']
    }
}

/// The characters after the first: letters, digits and `_` kept, any other
/// character made `_`.
pub open spec fn dot_rest(name: Seq<char>) -> Seq<char> {
    Seq::new(name.len(), |i: int| if ascii_letter(name[i]) || ascii_digit(name[i]) || name[i] == '_' { name[i] } else { '_' })
}

/// A function name as a valid DOT identifier (`[a-zA-Z_][a-zA-Z0-9_]*`);
/// `unnamed` for the empty name.
pub open spec fn dot_function_name(name: Seq<char>) -> Seq<char> {
    if name.len() == 0 {
        "unnamed"@
    } else {
        first_char_text(name[0]) + dot_rest(name.drop_first())
    }
}

fn is_ascii_letter(c: char) -> (r: bool)
    ensures r == ascii_letter(c),
{
    ('a' <= c && c <= 'z') || ('A' <= c && c <= 'Z')
}

/// The function name as a DOT identifier `[a-zA-Z_][a-zA-Z0-9_]*`: the
/// first character must be a letter or `_` (a `_` is put before a digit,
/// and any other character is replaced by `_`), the others letters, digits
/// or `_` (others are replaced by `_`); the empty name becomes `unnamed`.
pub fn sanitize_function_name(name: &str) -> (r: String)
    ensures r@ == dot_function_name(name@),
{
    let n = name.unicode_len();
    let mut result = String::new();
    let mut i: usize = 0;
    while i < n
        invariant
            n == name@.len(),
            i <= n,
            i == 0 ==> result@.len() == 0,
            i > 0 ==> result@ == first_char_text(name@[0]) + dot_rest(name@.drop_first()).subrange(0, i - 1),
        decreases n - i,
    {
        let c = name.get_char(i);
        let alpha = is_ascii_letter(c);
        let alnum = alpha || ('0' <= c && c <= '9');
        if i == 0 {
            if alpha || c == '_' {
                string_push(&mut result, c);
            } else {
                string_push(&mut result, '_');
                if alnum {
                    string_push(&mut result, c);
                }
            }
            assert(result@ =~= first_char_text(name@[0]) + dot_rest(name@.drop_first()).subrange(0, 0));
        } else {
            string_push(&mut result, if alnum || c == '_' { c } else { '_' });
            assert(name@.drop_first()[i - 1] == c);
            assert(result@ =~= first_char_text(name@[0]) + dot_rest(name@.drop_first()).subrange(0, i as int));
        }
        i += 1;
    }
    if n == 0 {
        result = String::from_str("unnamed");
        proof { reveal_strlit("unnamed"); }
    } else {
        assert(dot_rest(name@.drop_first()).subrange(0, n - 1) =~= dot_rest(name@.drop_first()));
    }
    result
}

/// The DOT node and edge lines of a graph (no `digraph` header): each block
/// by increasing id, labelled `entry` or `exit` when it has no statement,
/// else with the kind of its first statement, followed by one edge line per
/// successor.
pub fn to_dot(cfg: &ControlFlowGraph) -> (r: String)
    ensures
        r@ == blocks_text("    "@, cfg.blocks@, sorted_ids(cfg.blocks@.dom()), cfg.entry),
{
    let mut out = String::new();
    push_blocks_text(&mut out, "    ", &cfg.blocks, cfg.entry);
    out
}

/// A function name made DOT-safe is a valid identifier
/// `[a-zA-Z_][a-zA-Z0-9_]*`; the empty name becomes `unnamed`, and a name
/// that already is such an identifier stays as it is.
pub proof fn lemma_dot_function_name_valid(name: Seq<char>)
    ensures
        name.len() == 0 ==> dot_function_name(name) == "unnamed"@,
        name.len() > 0 ==> ({
            let r = dot_function_name(name);
            &&& r.len() > 0
            &&& ascii_letter(r[0]) || r[0] == '_'
            &&& forall|i: int| 0 <= i < r.len() ==> ascii_letter(#[trigger] r[i]) || ascii_digit(r[i]) || r[i] == '_'
        }),
        name.len() > 0 && (ascii_letter(name[0]) || name[0] == '_')
            && (forall|i: int| 0 <= i < name.len() ==> ascii_letter(#[trigger] name[i]) || ascii_digit(name[i]) || name[i] == '_')
            ==> dot_function_name(name) == name,
{
    if name.len() > 0 {
        let r = dot_function_name(name);
        let f = first_char_text(name[0]);
        assert forall|i: int| 0 <= i < r.len() implies ascii_letter(#[trigger] r[i]) || ascii_digit(r[i]) || r[i] == '_' by {
            if i >= f.len() {
                assert(r[i] == dot_rest(name.drop_first())[i - f.len()]);
            } else {
                assert(r[i] == f[i]);
            }
        };
        if (ascii_letter(name[0]) || name[0] == '_')
            && (forall|i: int| 0 <= i < name.len() ==> ascii_letter(#[trigger] name[i]) || ascii_digit(name[i]) || name[i] == '_') {
            assert forall|i: int| 0 <= i < name.len() implies r[i] == name[i] by {
                if i > 0 {
                    assert(r[i] == dot_rest(name.drop_first())[i - 1]);
                    assert(name.drop_first()[i - 1] == name[i]);
                }
            };
            assert(r =~= name);
        }
    }
}

} // verus!

verus! {

/// `s` with each `::` (from the left, not overlapping) replaced by `_`.
pub open spec fn replace_path_sep(s: Seq<char>) -> Seq<char>
    decreases s.len(),
{
    if s.len() == 0 {
        Seq::empty()
    } else if s.len() >= 2 && s[0] == ':' && s[1] == ':' {
        seq!['_'] + replace_path_sep(s.subrange(2, s.len() as int))
    } else {
        seq![s[0]] + replace_path_sep(s.drop_first())
    }
}

/// `s` with each `"` escaped by a backslash.
pub open spec fn escape_quotes(s: Seq<char>) -> Seq<char>
    decreases s.len(),
{
    if s.len() == 0 {
        Seq::empty()
    } else {
        escape_quotes(s.drop_last()) + if s.last() == '"' { seq!['\\', '"'] } else { seq![s.last()] }
    }
}

fn replaced_path_sep(s: &[char]) -> (r: Vec<char>)
    ensures r@ == replace_path_sep(s@),
{
    let n = s.len();
    let mut out: Vec<char> = Vec::new();
    let mut i: usize = 0;
    assert(s@.subrange(0, n as int) =~= s@);
    while i < n
        invariant
            n == s@.len(),
            i <= n,
            replace_path_sep(s@) == out@ + replace_path_sep(s@.subrange(i as int, n as int)),
        decreases n - i,
    {
        let ghost rest = s@.subrange(i as int, n as int);
        if i + 1 < n && s[i] == ':' && s[i + 1] == ':' {
            assert(rest.subrange(2, rest.len() as int) =~= s@.subrange(i + 2, n as int));
            out.push('_');
            assert(replace_path_sep(s@) =~= out@ + replace_path_sep(s@.subrange(i + 2, n as int)));
            i += 2;
        } else {
            assert(rest.drop_first() =~= s@.subrange(i + 1, n as int));
            out.push(s[i]);
            assert(replace_path_sep(s@) =~= out@ + replace_path_sep(s@.subrange(i + 1, n as int)));
            i += 1;
        }
    }
    assert(replace_path_sep(s@.subrange(n as int, n as int)) =~= Seq::<char>::empty());
    assert(out@ =~= out@ + Seq::<char>::empty());
    out
}

fn push_escaped_quotes(out: &mut String, s: &[char])
    ensures final(out)@ == old(out)@ + escape_quotes(s@),
{
    let mut i: usize = 0;
    while i < s.len()
        invariant
            i <= s@.len(),
            out@ == old(out)@ + escape_quotes(s@.subrange(0, i as int)),
        decreases s@.len() - i,
    {
        proof { assert(s@.subrange(0, i + 1).drop_last() =~= s@.subrange(0, i as int)); }
        if s[i] == '"' {
            string_push(out, '\\');
            string_push(out, '"');
        } else {
            string_push(out, s[i]);
        }
        assert(out@ =~= old(out)@ + escape_quotes(s@.subrange(0, i + 1)));
        i += 1;
    }
    assert(s@.subrange(0, s@.len() as int) =~= s@);
}

/// The graphs of each file's functions, by `path::function` name.
#[derive(Debug)]
pub struct CFGResult {
    pub cfgs: Vec<(String, Vec<ControlFlowGraph>)>,
}

/// The DOT text of graph `i` listed under `name`: a cluster named after the
/// sanitized name (its `::` made `_`) and `i`, labelled with the name
/// (with `::i` added when it has no `::`), holding the graph's nodes and
/// edges.
pub open spec fn cluster_text(name: Seq<char>, i: nat, g: ControlFlowGraph) -> Seq<char> {
    let display = if seq_contains(name, "::"@) { name } else { name + "::"@ + decimal(i) };
    "  subgraph cluster_"@ + dot_function_name(replace_path_sep(name)) + "_"@ + decimal(i) + " {\n"@
        + "    label=\""@ + escape_quotes(display) + "\";\n"@
        + blocks_text("    "@, g.blocks@, sorted_ids(g.blocks@.dom()), g.entry) + "  }\n"@
}

/// The clusters of the first `k` graphs listed under `name`.
pub open spec fn clusters_text(name: Seq<char>, gs: Seq<ControlFlowGraph>, k: nat) -> Seq<char>
    decreases k,
{
    if k == 0 { Seq::empty() } else { clusters_text(name, gs, (k - 1) as nat) + cluster_text(name, (k - 1) as nat, gs[k - 1]) }
}

/// The clusters of every entry of a graph list, entry after entry.
pub open spec fn entries_text(cfgs: Seq<(String, Vec<ControlFlowGraph>)>) -> Seq<char>
    decreases cfgs.len(),
{
    if cfgs.len() == 0 {
        Seq::empty()
    } else {
        entries_text(cfgs.drop_last()) + clusters_text(cfgs.last().0@, cfgs.last().1@, cfgs.last().1@.len())
    }
}


/// Appends the cluster of graph `i` listed under `name` (see
/// `cluster_text`), given the name's characters, whether it holds `::`
/// and its sanitized form.
fn push_cluster(out: &mut String, name: &String, name_chars: &Vec<char>, has_sep: bool, safe_id: &String, i: usize,
    g: &ControlFlowGraph)
    requires
        name_chars@ == name@,
        has_sep == seq_contains(name@, "::"@),
        safe_id@ == dot_function_name(replace_path_sep(name@)),
    ensures final(out)@ == old(out)@ + cluster_text(name@, i as nat, *g),
{
    let mut display: Vec<char> = name_chars.clone();
    if !has_sep {
        let mut suffix = String::new();
        string_push_str(&mut suffix, "::");
        push_decimal(&mut suffix, i);
        let mut sc = str_to_chars(suffix.as_str());
        display.append(&mut sc);
    }
    let ghost d = if seq_contains(name@, "::"@) { name@ } else { name@ + "::"@ + decimal(i as nat) };
    assert(display@ =~= d);
    string_push_str(out, "  subgraph cluster_");
    string_push_str(out, safe_id.as_str());
    string_push_str(out, "_");
    push_decimal(out, i);
    string_push_str(out, " {\n");
    string_push_str(out, "    label=\"");
    push_escaped_quotes(out, display.as_slice());
    string_push_str(out, "\";\n");
    push_blocks_text(out, "    ", &g.blocks, g.entry);
    string_push_str(out, "  }\n");
    assert(out@ =~= old(out)@ + cluster_text(name@, i as nat, *g));
}

/// One DOT graph `G` holding a cluster for every graph of the result (see
/// `cluster_text`), in order.
pub fn combined_dot(cfg_data: &CFGResult) -> (r: String)
    ensures r@ == "digraph G {\n"@ + entries_text(cfg_data.cfgs@) + "}\n"@,
{
    let mut out = String::new();
    string_push_str(&mut out, "digraph G {\n");
    let ghost head = out@;
    let mut e: usize = 0;
    while e < cfg_data.cfgs.len()
        invariant
            e <= cfg_data.cfgs@.len(),
            out@ == head + entries_text(cfg_data.cfgs@.subrange(0, e as int)),
        decreases cfg_data.cfgs@.len() - e,
    {
        let name = &cfg_data.cfgs[e].0;
        let graphs = &cfg_data.cfgs[e].1;
        proof { assert(cfg_data.cfgs@.subrange(0, e + 1).drop_last() =~= cfg_data.cfgs@.subrange(0, e as int)); }
        let name_chars = str_to_chars(name.as_str());
        let sep = str_to_chars("::");
        let has_sep = chars_contain(name_chars.as_slice(), sep.as_slice());
        let replaced = replaced_path_sep(name_chars.as_slice());
        let replaced_str = string_from_chars(replaced.as_slice());
        let safe_id = sanitize_function_name(replaced_str.as_str());
        let ghost entry_head = out@;
        let mut i: usize = 0;
        while i < graphs.len()
            invariant
                i <= graphs@.len(),
                name_chars@ == name@,
                has_sep == seq_contains(name@, "::"@),
                safe_id@ == dot_function_name(replace_path_sep(name@)),
                out@ == entry_head + clusters_text(name@, graphs@, i as nat),
            decreases graphs@.len() - i,
        {
            push_cluster(&mut out, name, &name_chars, has_sep, &safe_id, i, &graphs[i]);
            assert(out@ =~= entry_head + clusters_text(name@, graphs@, (i + 1) as nat));
            i += 1;
        }
        assert(out@ =~= head + entries_text(cfg_data.cfgs@.subrange(0, e + 1)));
        e += 1;
    }
    proof { assert(cfg_data.cfgs@.subrange(0, cfg_data.cfgs@.len() as int) =~= cfg_data.cfgs@); }
    string_push_str(&mut out, "}\n");
    out
}

} // verus!
