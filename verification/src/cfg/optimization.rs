//! Clean-up passes over a built graph: dropping the blocks the entry cannot
//! reach, and collapsing empty pass-through blocks.
use vstd::prelude::*;
use std::collections::{HashMap, HashSet};
use vstd::std_specs::hash::spec_keys_iter;
use crate::cfg::{BasicBlock, is_path, reachable};
use crate::ast::Stmt;

verus! {

broadcast use vstd::std_specs::hash::group_hash_axioms;

/// A set that holds the entry and is closed under successor edges between
/// blocks holds every block on a path from the entry.
proof fn lemma_closed_holds_path(m: Map<usize, BasicBlock>, entry: usize, vis: Set<usize>, p: Seq<usize>, t: int)
    requires
        m.contains_key(entry) ==> vis.contains(entry),
        forall|v: usize, j: int| #![trigger vis.contains(v), m[v].succs@[j]]
            vis.contains(v) && m.contains_key(v) && 0 <= j < m[v].succs@.len() && m.contains_key(m[v].succs@[j])
                ==> vis.contains(m[v].succs@[j]),
        is_path(m, p),
        p.len() > 0,
        p[0] == entry,
        0 <= t < p.len(),
    ensures vis.contains(p[t]),
    decreases t,
{
    assert(m.contains_key(p[t]));
    if t > 0 {
        lemma_closed_holds_path(m, entry, vis, p, t - 1);
        let a = p[t - 1];
        assert(m[p[t - 1]].succs@.contains(p[t]));
        let j = choose|j: int| 0 <= j < m[a].succs@.len() && m[a].succs@[j] == p[t];
        assert(vis.contains(m[a].succs@[j]));
    }
}

/// The ids of the blocks of a graph, each once.
pub(crate) fn map_keys(m: &HashMap<usize, BasicBlock>) -> (r: Vec<usize>)
    ensures r@.to_set() == m@.dom(), r@.no_duplicates(),
{
    let mut keys: Vec<usize> = Vec::new();
    for k in it: m.keys()
        invariant
            keys@.len() == it.index(),
            forall|i: int| 0 <= i < keys@.len() ==> keys@[i] == *it.seq()[i],
    {
        keys.push(*k);
    }
    assert(keys@ =~= vstd::std_specs::iter::IteratorSpec::remaining(&spec_keys_iter(m)).unref());
    keys
}

/// Removes every block that the entry cannot reach (through blocks of the
/// graph); the remaining blocks are unchanged.
pub fn clean_unreachable_blocks(blocks: &mut HashMap<usize, BasicBlock>, entry: usize)
    ensures
        forall|k: usize| #[trigger] final(blocks)@.contains_key(k) <==> reachable(old(blocks)@, entry, k),
        forall|k: usize| #[trigger] final(blocks)@.contains_key(k) ==> final(blocks)@[k] == old(blocks)@[k],
{
    let ghost m = blocks@;
    let mut visited: HashSet<usize> = HashSet::new();
    let mut stack: Vec<usize> = Vec::new();
    if blocks.contains_key(&entry) {
        stack.push(entry);
        proof {
            assert(is_path(m, seq![entry]));
            assert(stack@[0] == entry);
        }
    }
    while stack.len() > 0
        invariant
            blocks@ == m,
            forall|v: usize| #[trigger] visited@.contains(v) ==> m.contains_key(v) && reachable(m, entry, v),
            forall|i: int| 0 <= i < stack@.len() ==> m.contains_key(#[trigger] stack@[i]) && reachable(m, entry, stack@[i]),
            m.contains_key(entry) ==> visited@.contains(entry) || stack@.contains(entry),
            forall|v: usize, j: int| #![trigger visited@.contains(v), m[v].succs@[j]]
                visited@.contains(v) && 0 <= j < m[v].succs@.len() && m.contains_key(m[v].succs@[j])
                    ==> visited@.contains(m[v].succs@[j]) || stack@.contains(m[v].succs@[j]),
            visited@.finite(),
            visited@.subset_of(m.dom()),
        decreases m.dom().len() - visited@.len(), stack@.len(),
    {
        let ghost stack0 = stack@;
        let id = stack.pop().unwrap();
        assert(stack0 == stack@.push(id));
        assert(m.contains_key(id) && reachable(m, entry, id));
        if visited.contains(&id) {
            proof {
                assert forall|x: usize| stack0.contains(x) && x != id implies stack@.contains(x) by {
                    let i = choose|i: int| 0 <= i < stack0.len() && stack0[i] == x;
                    assert(stack@[i] == x);
                };
                vstd::set_lib::lemma_len_subset(visited@, m.dom());
            }
            continue;
        }
        let ghost vis0 = visited@;
        visited.insert(id);
        proof {
            vstd::set_lib::lemma_len_subset(vis0, m.dom());
            assert(visited@.len() == vis0.len() + 1);
            vstd::set_lib::lemma_len_subset(visited@, m.dom());
        }
        let block = blocks.get(&id).unwrap();
        let ghost path_id = choose|p: Seq<usize>| #[trigger] is_path(m, p) && p.len() > 0 && p[0] == entry && p.last() == id;
        let ghost stack1 = stack@;
        let mut j: usize = 0;
        while j < block.succs.len()
            invariant
                blocks@ == m,
                m.contains_key(id),
                *block == m[id],
                is_path(m, path_id) && path_id.len() > 0 && path_id[0] == entry && path_id.last() == id,
                j <= block.succs@.len(),
                visited@.contains(id),
                forall|v: usize| #[trigger] visited@.contains(v) ==> m.contains_key(v) && reachable(m, entry, v),
                forall|i: int| 0 <= i < stack@.len() ==> m.contains_key(#[trigger] stack@[i]) && reachable(m, entry, stack@[i]),
                forall|x: usize| stack1.contains(x) ==> #[trigger] stack@.contains(x),
                forall|jj: int| 0 <= jj < j && m.contains_key(#[trigger] m[id].succs@[jj])
                    ==> visited@.contains(m[id].succs@[jj]) || stack@.contains(m[id].succs@[jj]),
            decreases block.succs@.len() - j,
        {
            let s = block.succs[j];
            if blocks.contains_key(&s) && !visited.contains(&s) {
                proof {
                    assert(m[id].succs@.contains(s)) by { assert(m[id].succs@[j as int] == s); };
                    let q = path_id.push(s);
                    assert forall|a: int, b: int| #![trigger q[a], q[b]] 0 <= a && b == a + 1 && b < q.len()
                        implies m[q[a]].succs@.contains(q[b]) by {
                        if b < path_id.len() {
                            assert(q[a] == path_id[a] && q[b] == path_id[b]);
                        } else {
                            assert(q[a] == id && q[b] == s);
                        }
                    };
                    assert forall|a: int| 0 <= a < q.len() implies m.contains_key(#[trigger] q[a]) by {
                        if a < path_id.len() {
                            assert(q[a] == path_id[a]);
                        }
                    };
                    assert(is_path(m, q) && q.len() > 0 && q[0] == entry && q.last() == s);
                }
                let ghost st = stack@;
                stack.push(s);
                proof {
                    assert forall|x: usize| st.contains(x) implies #[trigger] stack@.contains(x) by {
                        let i = choose|i: int| 0 <= i < st.len() && st[i] == x;
                        assert(stack@[i] == x);
                    };
                    assert(stack@[stack@.len() - 1] == s);
                }
            }
            j += 1;
        }
        proof {
            assert forall|x: usize| stack0.contains(x) && x != id implies stack@.contains(x) by {
                let i = choose|i: int| 0 <= i < stack0.len() && stack0[i] == x;
                assert(stack1[i] == x);
            };
        }
    }
    proof {
        assert forall|k: usize| reachable(m, entry, k) implies visited@.contains(k) by {
            let p = choose|p: Seq<usize>| #[trigger] is_path(m, p) && p.len() > 0 && p[0] == entry && p.last() == k;
            lemma_closed_holds_path(m, entry, visited@, p, p.len() - 1);
        };
    }
    let keys = map_keys(blocks);
    let mut i: usize = 0;
    while i < keys.len()
        invariant
            i <= keys@.len(),
            keys@.to_set() == m.dom(),
            keys@.no_duplicates(),
            forall|k: usize| #[trigger] visited@.contains(k) ==> m.contains_key(k),
            forall|k: usize| reachable(m, entry, k) ==> #[trigger] visited@.contains(k),
            forall|k: usize| #[trigger] blocks@.contains_key(k) <==>
                (m.contains_key(k) && (visited@.contains(k) || !keys@.subrange(0, i as int).contains(k))),
            forall|k: usize| #[trigger] blocks@.contains_key(k) ==> blocks@[k] == m[k],
        decreases keys@.len() - i,
    {
        let k = keys[i];
        proof {
            assert(keys@.to_set().contains(k));
            assert forall|x: usize| #[trigger] keys@.subrange(0, i + 1).contains(x) <==> (keys@.subrange(0, i as int).contains(x) || x == k) by {
                if keys@.subrange(0, i + 1).contains(x) {
                    let t = choose|t: int| 0 <= t < i + 1 && #[trigger] keys@.subrange(0, i + 1)[t] == x;
                    if t < i {
                        assert(keys@.subrange(0, i as int)[t] == x);
                    }
                }
                if keys@.subrange(0, i as int).contains(x) {
                    let t = choose|t: int| 0 <= t < i && #[trigger] keys@.subrange(0, i as int)[t] == x;
                    assert(keys@.subrange(0, i + 1)[t] == x);
                }
                if x == k {
                    assert(keys@.subrange(0, i + 1)[i as int] == x);
                }
            };
        }
        if !visited.contains(&k) {
            blocks.remove(&k);
        }
        i += 1;
    }
    proof {
        assert(keys@.subrange(0, keys@.len() as int) == keys@);
        assert forall|k: usize| #[trigger] blocks@.contains_key(k) <==> reachable(m, entry, k) by {
            if m.contains_key(k) {
                assert(keys@.to_set().contains(k));
            }
        };
    }
}


/// A block that only passes control on: a single implicit empty statement
/// and a single successor.
pub open spec fn trivial_empty(b: BasicBlock) -> bool {
    &&& b.stmts@.len() == 1
    &&& b.stmts@[0].stmt matches Stmt::Empty(e) && e.implicit
    &&& b.succs@.len() == 1
}

fn is_trivial_empty(b: &BasicBlock) -> (r: bool)
    ensures r == trivial_empty(*b),
{
    b.stmts.len() == 1 && b.succs.len() == 1 && match &b.stmts[0].stmt {
        Stmt::Empty(e) => e.implicit,
        _ => false,
    }
}

/// A sequence in strictly increasing order (so without repeats).
pub open spec fn strictly_increasing(s: Seq<usize>) -> bool {
    forall|i: int, j: int| 0 <= i < j < s.len() ==> s[i] < s[j]
}

/// Two strictly increasing sequences with the same elements are equal.
pub proof fn lemma_strictly_increasing_unique(a: Seq<usize>, b: Seq<usize>)
    requires
        strictly_increasing(a),
        strictly_increasing(b),
        a.to_set() == b.to_set(),
    ensures
        a == b,
    decreases a.len(),
{
    if a.len() == 0 {
        if b.len() > 0 {
            assert(b.to_set().contains(b[0]));
        }
        assert(a =~= b);
    } else {
        assert(a.to_set().contains(a.last()));
        assert(b.to_set().contains(a.last()));
        assert(b.len() > 0);
        assert(b.to_set().contains(b.last()));
        assert(a.to_set().contains(b.last()));
        let i = choose|i: int| 0 <= i < b.len() && b[i] == a.last();
        let j = choose|j: int| 0 <= j < a.len() && a[j] == b.last();
        assert(a.last() == b.last()) by {
            if i < b.len() - 1 { assert(b[i] < b.last()); }
            if j < a.len() - 1 { assert(a[j] < a.last()); }
        };
        let x = a.last();
        assert(a.drop_last().to_set() == b.drop_last().to_set()) by {
            assert forall|y: usize| a.drop_last().to_set().contains(y) <==> b.drop_last().to_set().contains(y) by {
                if a.drop_last().to_set().contains(y) {
                    let k = choose|k: int| 0 <= k < a.drop_last().len() && a.drop_last()[k] == y;
                    assert(a.to_set().contains(y));
                    assert(y < x);
                    let t = choose|t: int| 0 <= t < b.len() && b[t] == y;
                    assert(t != b.len() - 1);
                    assert(b.drop_last()[t] == y);
                }
                if b.drop_last().to_set().contains(y) {
                    let k = choose|k: int| 0 <= k < b.drop_last().len() && b.drop_last()[k] == y;
                    assert(b.to_set().contains(y));
                    assert(y < x);
                    let t = choose|t: int| 0 <= t < a.len() && a[t] == y;
                    assert(t != a.len() - 1);
                    assert(a.drop_last()[t] == y);
                }
            };
        };
        lemma_strictly_increasing_unique(a.drop_last(), b.drop_last());
        assert(a =~= a.drop_last().push(x));
        assert(b =~= b.drop_last().push(x));
    }
}

/// The ids of a finite set of blocks in increasing order.
pub open spec fn sorted_ids(keys: Set<usize>) -> Seq<usize> {
    choose|ids: Seq<usize>| strictly_increasing(ids) && ids.to_set() == keys
}

/// The keys of a map as `sorted_unique(map_keys(..))` gives them are its
/// `sorted_ids`.
pub proof fn lemma_sorted_ids(ids: Seq<usize>, keys: Set<usize>)
    requires
        strictly_increasing(ids),
        ids.to_set() == keys,
    ensures
        sorted_ids(keys) == ids,
{
    let s = sorted_ids(keys);
    assert(strictly_increasing(s) && s.to_set() == keys);
    lemma_strictly_increasing_unique(s, ids);
}

/// The ids of `v`, sorted, each once.
pub fn sorted_unique(v: &Vec<usize>) -> (r: Vec<usize>)
    ensures
        strictly_increasing(r@),
        r@.to_set() == v@.to_set(),
        v@.len() == 0 ==> r@.len() == 0,
{
    let mut out: Vec<usize> = Vec::new();
    let mut i: usize = 0;
    while i < v.len()
        invariant
            i <= v@.len(),
            strictly_increasing(out@),
            out@.to_set() == v@.subrange(0, i as int).to_set(),
            out@.len() <= i,
        decreases v@.len() - i,
    {
        let x = v[i];
        let mut k: usize = 0;
        while k < out.len() && out[k] < x
            invariant
                k <= out@.len(),
                forall|t: int| 0 <= t < k ==> out@[t] < x,
            decreases out@.len() - k,
        {
            k += 1;
        }
        let ghost before = out@;
        if k == out.len() || out[k] != x {
            out.insert(k, x);
            proof {
                assert forall|a: int, b: int| 0 <= a < b < out@.len() implies out@[a] < out@[b] by {
                    if b < k {
                    } else if a < k && b == k {
                    } else if a < k {
                        assert(out@[b] == before[b - 1]);
                    } else if a == k {
                        assert(out@[b] == before[b - 1]);
                        assert(x < before[b - 1]) by {
                            assert(before[k as int] > x || before[k as int] == x);
                            if b - 1 > k {
                                assert(before[k as int] < before[b - 1]);
                            }
                        };
                    } else {
                        assert(out@[a] == before[a - 1] && out@[b] == before[b - 1]);
                    }
                };
            }
        }
        proof {
            assert(v@.subrange(0, i + 1) == v@.subrange(0, i as int).push(x));
            v@.subrange(0, i as int).lemma_push_to_set_commute(x);
            assert(out@.to_set() == before.to_set().insert(x)) by {
                assert forall|y: usize| out@.to_set().contains(y) <==> before.to_set().insert(x).contains(y) by {
                    if out@.contains(y) {
                        let t = choose|t: int| 0 <= t < out@.len() && out@[t] == y;
                        if out@.len() > before.len() {
                            if t < k { assert(before[t] == y); }
                            else if t > k { assert(before[t - 1] == y); }
                        }
                    }
                    if before.contains(y) {
                        let t = choose|t: int| 0 <= t < before.len() && before[t] == y;
                        if out@.len() > before.len() {
                            if t < k { assert(out@[t] == y); } else { assert(out@[t + 1] == y); }
                        }
                    }
                    if y == x {
                        if out@.len() > before.len() { assert(out@[k as int] == x); } else { assert(before[k as int] == x); }
                    }
                };
            };
        }
        i += 1;
    }
    assert(v@.subrange(0, v@.len() as int) == v@);
    out
}


/// After `clean_unreachable_blocks`, every block left is reachable from the
/// entry within the cleaned graph itself.
pub proof fn lemma_cleaned_all_reachable(before: Map<usize, BasicBlock>, after: Map<usize, BasicBlock>, entry: usize)
    requires
        forall|k: usize| #[trigger] after.contains_key(k) <==> reachable(before, entry, k),
        forall|k: usize| #[trigger] after.contains_key(k) ==> after[k] == before[k],
    ensures
        forall|k: usize| #[trigger] after.contains_key(k) ==> reachable(after, entry, k),
{
    assert forall|k: usize| #[trigger] after.contains_key(k) implies reachable(after, entry, k) by {
        assert(reachable(before, entry, k));
        let p = choose|p: Seq<usize>| #[trigger] is_path(before, p) && p.len() > 0 && p[0] == entry && p.last() == k;
        assert forall|i: int| 0 <= i < p.len() implies after.contains_key(#[trigger] p[i]) by {
            let q = p.take(i + 1);
            assert forall|a: int, b: int| #![trigger q[a], q[b]] 0 <= a && b == a + 1 && b < q.len()
                implies before[q[a]].succs@.contains(q[b]) by {
                assert(q[a] == p[a] && q[b] == p[b]);
            };
            assert(is_path(before, q));
            assert(q.last() == p[i]);
            assert(reachable(before, entry, p[i]));
        };
        assert forall|a: int, b: int| #![trigger p[a], p[b]] 0 <= a && b == a + 1 && b < p.len()
            implies after[p[a]].succs@.contains(p[b]) by {
            assert(after.contains_key(p[a]));
        };
        assert(is_path(after, p));
    };
}

/// A block whose only statement is an implicit empty one.
pub open spec fn empty_only(b: BasicBlock) -> bool {
    &&& b.stmts@.len() == 1
    &&& b.stmts@[0].stmt matches Stmt::Empty(e) && e.implicit
}

/// A block that the empty-block pass must keep: the entry, the exit, a
/// label's block, or a block with a real statement.
pub open spec fn kept_block(m: Map<usize, BasicBlock>, k: usize, entry: usize, exit_id: usize, labels: Set<usize>) -> bool {
    k == entry || k == exit_id || labels.contains(k) || !empty_only(m[k])
}

/// `b` is block `a` with (possibly) other successors.
pub open spec fn same_but_succs(a: BasicBlock, b: BasicBlock) -> bool {
    b == (BasicBlock { succs: b.succs, ..a })
}

/// `succs` with every `from` replaced by `to`.
fn redirect(succs: &Vec<usize>, from: usize, to: usize) -> (r: Vec<usize>)
    ensures
        r@.len() == succs@.len(),
        forall|i: int| 0 <= i < succs@.len() ==> #[trigger] r@[i] == if succs@[i] == from { to } else { succs@[i] },
{
    let mut out: Vec<usize> = Vec::new();
    let mut i: usize = 0;
    while i < succs.len()
        invariant
            i <= succs@.len(),
            out@.len() == i,
            forall|t: int| 0 <= t < i ==> #[trigger] out@[t] == if succs@[t] == from { to } else { succs@[t] },
        decreases succs@.len() - i,
    {
        let s = succs[i];
        out.push(if s == from { to } else { s });
        i += 1;
    }
    out
}

/// Block `k` exists and has `bid` as a successor.
pub open spec fn enters(blocks: Map<usize, BasicBlock>, k: usize, bid: usize) -> bool {
    blocks.contains_key(k) && blocks[k].succs@.contains(bid)
}

/// Whether some block among `keys` has `bid` as a successor.
fn has_incoming(blocks: &HashMap<usize, BasicBlock>, keys: &Vec<usize>, bid: usize) -> (r: bool)
    ensures
        r ==> exists|k: usize| #[trigger] blocks@.contains_key(k) && blocks@[k].succs@.contains(bid),
        r == exists|i: int| 0 <= i < keys@.len() && #[trigger] enters(blocks@, keys@[i], bid),
{
    let mut i: usize = 0;
    while i < keys.len()
        invariant
            i <= keys@.len(),
            forall|t: int| 0 <= t < i ==> !#[trigger] enters(blocks@, keys@[t], bid),
        decreases keys@.len() - i,
    {
        match blocks.get(&keys[i]) {
            Some(b) => {
                let mut j: usize = 0;
                while j < b.succs.len()
                    invariant
                        j <= b.succs@.len(),
                        i < keys@.len(),
                        blocks@.contains_key(keys@[i as int]) && blocks@[keys@[i as int]] == *b,
                        forall|t: int| 0 <= t < j ==> b.succs@[t] != bid,
                    decreases b.succs@.len() - j,
                {
                    if b.succs[j] == bid {
                        proof {
                            assert(b.succs@[j as int] == bid);
                            assert(enters(blocks@, keys@[i as int], bid));
                        }
                        return true;
                    }
                    j += 1;
                }
                proof {
                    if b.succs@.contains(bid) {
                        let t = choose|t: int| 0 <= t < b.succs@.len() && b.succs@[t] == bid;
                    }
                }
            },
            None => {},
        }
        i += 1;
    }
    false
}

/// `k` is among the first `n` entries of `s`.
pub open spec fn among(s: Seq<usize>, n: int, k: usize) -> bool {
    exists|t: int| 0 <= t < n && #[trigger] s[t] == k
}

/// The successor lists of a graph, by block id.
pub open spec fn succ_view(m: Map<usize, BasicBlock>) -> Map<usize, Seq<usize>> {
    Map::new(|k: usize| m.contains_key(k), |k: usize| m[k].succs@)
}

/// Block `bid` of graph `g` (whose statements are those of `m0`) is an
/// empty pass-through that the pass removes: not the entry, the exit or a
/// label's block; only an implicit empty statement; one successor, another
/// existing block; and entered from some block.
pub open spec fn removable(m0: Map<usize, BasicBlock>, g: Map<usize, Seq<usize>>, bid: usize, entry: usize,
    exit_id: usize, labels: Set<usize>) -> bool {
    &&& bid != entry
    &&& bid != exit_id
    &&& empty_only(m0[bid])
    &&& g[bid].len() == 1
    &&& !labels.contains(bid)
    &&& g[bid][0] != bid
    &&& g.contains_key(g[bid][0])
    &&& exists|k: usize| g.contains_key(k) && #[trigger] g[k].contains(bid)
}

/// The blocks among `ids` that a pass removes, each with its successor.
pub open spec fn pass_pairs(m0: Map<usize, BasicBlock>, g: Map<usize, Seq<usize>>, ids: Seq<usize>, entry: usize,
    exit_id: usize, labels: Set<usize>) -> Seq<(usize, usize)>
    decreases ids.len(),
{
    if ids.len() == 0 {
        Seq::empty()
    } else {
        let rest = pass_pairs(m0, g, ids.drop_last(), entry, exit_id, labels);
        if removable(m0, g, ids.last(), entry, exit_id, labels) { rest.push((ids.last(), g[ids.last()][0])) } else { rest }
    }
}

/// `s` with every `from` replaced by `to`.
pub open spec fn redirected(s: Seq<usize>, from: usize, to: usize) -> Seq<usize> {
    s.map_values(|x: usize| if x == from { to } else { x })
}

/// Block `rid` removed, and every jump to it sent to `succ` (successor
/// lists sorted, without repeats).
pub open spec fn apply_pair(g: Map<usize, Seq<usize>>, rid: usize, succ: usize) -> Map<usize, Seq<usize>> {
    Map::new(|k: usize| g.contains_key(k) && k != rid, |k: usize| sorted_ids(redirected(g[k], rid, succ).to_set()))
}

/// The first `n` removals applied in order.
pub open spec fn apply_pairs(g: Map<usize, Seq<usize>>, ps: Seq<(usize, usize)>, n: nat) -> Map<usize, Seq<usize>>
    decreases n,
{
    if n == 0 || n > ps.len() { g } else { let h = apply_pairs(g, ps, (n - 1) as nat); apply_pair(h, ps[n - 1].0, ps[n - 1].1) }
}

/// Passes over the graph (blocks by increasing id) until one removes
/// nothing or `fuel` passes were made.
pub open spec fn optimized(m0: Map<usize, BasicBlock>, g: Map<usize, Seq<usize>>, fuel: nat, entry: usize,
    exit_id: usize, labels: Set<usize>) -> Map<usize, Seq<usize>>
    decreases fuel,
{
    if fuel == 0 {
        g
    } else {
        let ps = pass_pairs(m0, g, sorted_ids(g.dom()), entry, exit_id, labels);
        if ps.len() == 0 { g } else { optimized(m0, apply_pairs(g, ps, ps.len()), (fuel - 1) as nat, entry, exit_id, labels) }
    }
}

/// Every block a pass removes is removable.
proof fn lemma_pass_pairs_removable(m0: Map<usize, BasicBlock>, g: Map<usize, Seq<usize>>, ids: Seq<usize>,
    entry: usize, exit_id: usize, labels: Set<usize>)
    ensures
        forall|t: int| 0 <= t < pass_pairs(m0, g, ids, entry, exit_id, labels).len()
            ==> removable(m0, g, #[trigger] pass_pairs(m0, g, ids, entry, exit_id, labels)[t].0, entry, exit_id, labels),
    decreases ids.len(),
{
    if ids.len() > 0 {
        lemma_pass_pairs_removable(m0, g, ids.drop_last(), entry, exit_id, labels);
        let rest = pass_pairs(m0, g, ids.drop_last(), entry, exit_id, labels);
        let all = pass_pairs(m0, g, ids, entry, exit_id, labels);
        assert forall|t: int| 0 <= t < all.len() implies removable(m0, g, #[trigger] all[t].0, entry, exit_id, labels) by {
            if t < rest.len() {
                assert(all[t] == rest[t]);
            }
        };
    }
}

/// Removals of blocks other than `a` and `x` keep the edge list `[x]` of `a`.
proof fn lemma_pairs_keep_edge(g: Map<usize, Seq<usize>>, ps: Seq<(usize, usize)>, n: nat, a: usize, x: usize)
    requires
        g.contains_key(a),
        g.contains_key(x),
        g[a] == seq![x],
        n <= ps.len(),
        forall|t: int| 0 <= t < ps.len() ==> #[trigger] ps[t].0 != a && ps[t].0 != x,
    ensures
        apply_pairs(g, ps, n).contains_key(a),
        apply_pairs(g, ps, n).contains_key(x),
        apply_pairs(g, ps, n)[a] == seq![x],
    decreases n,
{
    if n > 0 {
        lemma_pairs_keep_edge(g, ps, (n - 1) as nat, a, x);
        let h = apply_pairs(g, ps, (n - 1) as nat);
        let rid = ps[n - 1].0;
        let succ = ps[n - 1].1;
        assert(ps[n - 1].0 != a && ps[n - 1].0 != x);
        assert(redirected(h[a], rid, succ) =~= seq![x]);
        assert(seq![x].to_set() =~= set![x]) by {
            assert forall|y: usize| seq![x].to_set().contains(y) <==> set![x].contains(y) by {
                if y == x {
                    assert(seq![x][0] == x);
                }
            };
        };
        lemma_sorted_ids(seq![x], set![x]);
        assert(apply_pairs(g, ps, n) == apply_pair(h, rid, succ));
    }
}

/// The passes keep the entry's one edge to a block `x` that holds a real
/// statement: such a block is never removed, nor is the entry.
pub proof fn lemma_optimized_keeps_entry_edge(m0: Map<usize, BasicBlock>, g: Map<usize, Seq<usize>>, fuel: nat,
    entry: usize, exit_id: usize, labels: Set<usize>, x: usize)
    requires
        g.contains_key(entry),
        g.contains_key(x),
        g[entry] == seq![x],
        !empty_only(m0[x]),
    ensures
        optimized(m0, g, fuel, entry, exit_id, labels).contains_key(entry),
        optimized(m0, g, fuel, entry, exit_id, labels)[entry] == seq![x],
    decreases fuel,
{
    if fuel > 0 {
        let ps = pass_pairs(m0, g, sorted_ids(g.dom()), entry, exit_id, labels);
        if ps.len() > 0 {
            lemma_pass_pairs_removable(m0, g, sorted_ids(g.dom()), entry, exit_id, labels);
            assert forall|t: int| 0 <= t < ps.len() implies #[trigger] ps[t].0 != entry && ps[t].0 != x by {
                assert(removable(m0, g, ps[t].0, entry, exit_id, labels));
            };
            lemma_pairs_keep_edge(g, ps, ps.len(), entry, x);
            lemma_optimized_keeps_entry_edge(m0, apply_pairs(g, ps, ps.len()), (fuel - 1) as nat, entry, exit_id,
                labels, x);
        }
    }
}

/// Collapses empty pass-through blocks: a block other than the entry, the
/// exit and the label blocks, holding only an implicit empty statement and
/// one successor (another existing block), and entered from some block, is
/// removed and its predecessors jump to its successor; successor lists are
/// then kept sorted without repeats. Repeated until nothing changes, at most
/// `MAX_ITERATIONS` times. Blocks are visited by increasing id.
pub fn optimize_empty_blocks(
    blocks: &mut HashMap<usize, BasicBlock>,
    entry: usize,
    exit_id: usize,
    label_def_ids: &HashSet<usize>,
)
    ensures
        forall|k: usize| #[trigger] final(blocks)@.contains_key(k) ==> old(blocks)@.contains_key(k)
            && same_but_succs(old(blocks)@[k], final(blocks)@[k]),
        forall|k: usize| old(blocks)@.contains_key(k) && #[trigger] kept_block(old(blocks)@, k, entry, exit_id, label_def_ids@)
            ==> final(blocks)@.contains_key(k),
        forall|k: usize| #[trigger] final(blocks)@.contains_key(k) && old(blocks)@[k].succs@.len() == 0
            ==> final(blocks)@[k].succs@.len() == 0,
        succ_view(final(blocks)@) == optimized(old(blocks)@, succ_view(old(blocks)@), MAX_ITERATIONS as nat, entry,
            exit_id, label_def_ids@),
{
    let ghost m0 = blocks@;
    let ghost labels = label_def_ids@;
    let ghost target = optimized(m0, succ_view(m0), MAX_ITERATIONS as nat, entry, exit_id, labels);
    let mut changed = true;
    let mut iterations: usize = 0;
    while changed && iterations < MAX_ITERATIONS
        invariant
            m0 == old(blocks)@,
            labels == label_def_ids@,
            target == optimized(m0, succ_view(m0), MAX_ITERATIONS as nat, entry, exit_id, labels),
            iterations <= MAX_ITERATIONS,
            changed ==> optimized(m0, succ_view(blocks@), (MAX_ITERATIONS - iterations) as nat, entry, exit_id, labels) == target,
            !changed ==> succ_view(blocks@) == target,
            forall|k: usize| #[trigger] blocks@.contains_key(k) ==> m0.contains_key(k) && same_but_succs(m0[k], blocks@[k]),
            forall|k: usize| #[trigger] blocks@.contains_key(k) && m0[k].succs@.len() == 0 ==> blocks@[k].succs@.len() == 0,
            forall|k: usize| m0.contains_key(k) && #[trigger] kept_block(m0, k, entry, exit_id, label_def_ids@)
                ==> blocks@.contains_key(k),
        decreases MAX_ITERATIONS - iterations,
    {
        let ghost g = succ_view(blocks@);
        let ghost fuel = (MAX_ITERATIONS - iterations) as nat;
        changed = false;
        iterations += 1;
        let keys = sorted_unique(&map_keys(blocks));
        proof { lemma_sorted_ids(keys@, blocks@.dom()); }
        let mut pairs: Vec<(usize, usize)> = Vec::new();
        let mut i: usize = 0;
        while i < keys.len()
            invariant
                i <= keys@.len(),
                keys@.to_set() == blocks@.dom(),
                keys@ == sorted_ids(blocks@.dom()),
                g == succ_view(blocks@),
                labels == label_def_ids@,
                pairs@ == pass_pairs(m0, g, keys@.subrange(0, i as int), entry, exit_id, labels),
                forall|k: usize| #[trigger] blocks@.contains_key(k) ==> m0.contains_key(k) && same_but_succs(m0[k], blocks@[k]),
                forall|k: usize| #[trigger] blocks@.contains_key(k) && m0[k].succs@.len() == 0 ==> blocks@[k].succs@.len() == 0,
                forall|t: int| 0 <= t < pairs@.len() ==> m0.contains_key(#[trigger] pairs@[t].0)
                    && !kept_block(m0, pairs@[t].0, entry, exit_id, label_def_ids@),
            decreases keys@.len() - i,
        {
            let bid = keys[i];
            let ghost pre = keys@.subrange(0, i as int);
            proof {
                assert(keys@.to_set().contains(bid));
                assert(keys@.subrange(0, i as int + 1).drop_last() =~= pre);
                assert(keys@.subrange(0, i as int + 1).last() == bid);
                assert(same_but_succs(m0[bid], blocks@[bid]));
                assert(g[bid] == blocks@[bid].succs@);
            }
            let mut take = false;
            let mut target_succ: usize = 0;
            if bid != entry && bid != exit_id {
                let blk = blocks.get(&bid).unwrap();
                let is_trivial = is_trivial_empty(blk);
                let is_label_def = label_def_ids.contains(&bid);
                if is_trivial && !is_label_def {
                    let succ = blk.succs[0];
                    if succ != bid && blocks.contains_key(&succ) {
                        let inc = has_incoming(blocks, &keys, bid);
                        proof {
                            if inc {
                                let t = choose|t: int| 0 <= t < keys@.len() && #[trigger] enters(blocks@, keys@[t], bid);
                                let k = keys@[t];
                                assert(g.contains_key(k) && g[k].contains(bid));
                            } else {
                                assert forall|k: usize| g.contains_key(k) implies !#[trigger] g[k].contains(bid) by {
                                    assert(keys@.to_set().contains(k));
                                    let t = choose|t: int| 0 <= t < keys@.len() && keys@[t] == k;
                                    assert(!enters(blocks@, keys@[t], bid));
                                };
                            }
                        }
                        if inc {
                            take = true;
                            target_succ = succ;
                        }
                    }
                }
            }
            proof {
                assert(take == removable(m0, g, bid, entry, exit_id, labels));
                if take { assert(target_succ == g[bid][0]); }
            }
            if take {
                proof {
                    assert(!kept_block(m0, bid, entry, exit_id, label_def_ids@));
                }
                pairs.push((bid, target_succ));
            }
            i += 1;
        }
        proof {
            assert(keys@.subrange(0, i as int) =~= keys@);
            assert(g.dom() =~= blocks@.dom());
            assert(fuel > 0);
        }
        let ghost ps = pairs@;
        assert(ps == pass_pairs(m0, g, sorted_ids(g.dom()), entry, exit_id, labels));
        if pairs.len() > 0 {
            changed = true;
            let mut p: usize = 0;
            while p < pairs.len()
                invariant
                    p <= pairs@.len(),
                    ps == pairs@,
                    succ_view(blocks@) == apply_pairs(g, ps, p as nat),
                    forall|k: usize| #[trigger] blocks@.contains_key(k) ==> m0.contains_key(k) && same_but_succs(m0[k], blocks@[k]),
                    forall|k: usize| #[trigger] blocks@.contains_key(k) && m0[k].succs@.len() == 0 ==> blocks@[k].succs@.len() == 0,
                    forall|k: usize| m0.contains_key(k) && #[trigger] kept_block(m0, k, entry, exit_id, label_def_ids@)
                        ==> blocks@.contains_key(k),
                    forall|t: int| 0 <= t < pairs@.len() ==> m0.contains_key(#[trigger] pairs@[t].0)
                        && !kept_block(m0, pairs@[t].0, entry, exit_id, label_def_ids@),
                decreases pairs@.len() - p,
            {
                let (rid, succ) = pairs[p];
                let ghost h = succ_view(blocks@);
                let ghost b0 = blocks@;
                let all = map_keys(blocks);
                let mut q: usize = 0;
                while q < all.len()
                    invariant
                        q <= all@.len(),
                        all@.to_set() == b0.dom(),
                        all@.no_duplicates(),
                        blocks@.dom() == b0.dom(),
                        h == succ_view(b0),
                        forall|k: usize| #[trigger] blocks@.contains_key(k) ==> (
                            if among(all@, q as int, k) {
                                blocks@[k].succs@ == sorted_ids(redirected(h[k], rid, succ).to_set())
                            } else {
                                blocks@[k] == b0[k]
                            }),
                        forall|k: usize| #[trigger] blocks@.contains_key(k) ==> m0.contains_key(k) && same_but_succs(m0[k], blocks@[k]),
                        forall|k: usize| #[trigger] blocks@.contains_key(k) && m0[k].succs@.len() == 0 ==> blocks@[k].succs@.len() == 0,
                        forall|k: usize| m0.contains_key(k) && #[trigger] kept_block(m0, k, entry, exit_id, label_def_ids@)
                            ==> blocks@.contains_key(k),
                    decreases all@.len() - q,
                {
                    let k = all[q];
                    let ghost bq = blocks@;
                    proof {
                        assert(all@.to_set().contains(k));
                        assert(!among(all@, q as int, k)) by {
                            if among(all@, q as int, k) {
                                let t = choose|t: int| 0 <= t < q && #[trigger] all@[t] == k;
                                assert(all@[t] == all@[q as int]);
                            }
                        };
                        assert forall|x: usize| among(all@, q as int + 1, x) <==> (among(all@, q as int, x) || x == k) by {
                            if among(all@, q as int + 1, x) {
                                let t = choose|t: int| 0 <= t < q + 1 && #[trigger] all@[t] == x;
                                if t < q { assert(among(all@, q as int, x)); }
                            }
                            if x == k {
                                assert(all@[q as int] == x);
                            }
                        };
                    }
                    match blocks.remove(&k) {
                        Some(b) => {
                            let mut b = b;
                            let ghost s0 = b.succs@;
                            let redirected_v = redirect(&b.succs, rid, succ);
                            assert(redirected_v@ =~= redirected(s0, rid, succ));
                            b.succs = sorted_unique(&redirected_v);
                            proof { lemma_sorted_ids(b.succs@, redirected(s0, rid, succ).to_set()); }
                            blocks.insert(k, b);
                            proof {
                                assert(bq[k] == b0[k]);
                                assert(h[k] == s0);
                                if s0.len() == 0 {
                                    assert(redirected(s0, rid, succ) =~= Seq::<usize>::empty());
                                    assert(b.succs@.to_set() =~= Set::<usize>::empty());
                                    if b.succs@.len() > 0 { assert(b.succs@.to_set().contains(b.succs@[0])); }
                                }
                            }
                        },
                        None => {},
                    }
                    q += 1;
                }
                proof {
                    assert(!kept_block(m0, rid, entry, exit_id, label_def_ids@));
                }
                blocks.remove(&rid);
                proof {
                    assert(succ_view(blocks@) =~= apply_pair(h, rid, succ)) by {
                        assert forall|k: usize| succ_view(blocks@).contains_key(k) implies
                            succ_view(blocks@)[k] == apply_pair(h, rid, succ)[k] by {
                            assert(all@.to_set().contains(k));
                            let t = choose|t: int| 0 <= t < all@.len() && all@[t] == k;
                            assert(among(all@, all@.len() as int, k));
                        };
                    };
                }
                p += 1;
            }
            proof {
                assert(optimized(m0, g, fuel, entry, exit_id, labels)
                    == optimized(m0, apply_pairs(g, ps, ps.len()), (fuel - 1) as nat, entry, exit_id, labels));
            }
        } else {
            proof {
                assert(ps =~= Seq::<(usize, usize)>::empty());
                assert(optimized(m0, g, fuel, entry, exit_id, labels) == g);
            }
        }
    }
    proof {
        if changed {
            assert(iterations == MAX_ITERATIONS);
        }
    }
}

/// The most passes `optimize_empty_blocks` makes.
pub const MAX_ITERATIONS: usize = 10;

} // verus!
