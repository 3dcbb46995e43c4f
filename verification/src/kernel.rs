//! The order in which plugin functions run: each function is a node, with
//! an edge from a function to each function that depends on it, and the
//! functions are ordered by depth-first search (reverse finishing order).
use vstd::prelude::*;
use vstd::set_lib::FiniteRange;

verus! {

/// Every edge of the adjacency list leads to a node of the graph.
pub open spec fn adj_ok(adj: Seq<Vec<usize>>) -> bool {
    forall|u: int, j: int| 0 <= u < adj.len() && 0 <= j < adj[u]@.len() ==> #[trigger] adj[u]@[j] < adj.len()
}

/// How many nodes are not yet visited.
pub open spec fn unvisited(vis: Seq<bool>) -> nat
    decreases vis.len(),
{
    if vis.len() == 0 { 0 } else { unvisited(vis.drop_last()) + if vis.last() { 0nat } else { 1nat } }
}

proof fn lemma_unvisited_update(vis: Seq<bool>, v: int)
    requires 0 <= v < vis.len(), !vis[v],
    ensures unvisited(vis.update(v, true)) + 1 == unvisited(vis),
    decreases vis.len(),
{
    if v < vis.len() - 1 {
        lemma_unvisited_update(vis.drop_last(), v);
        assert(vis.update(v, true).drop_last() =~= vis.drop_last().update(v, true));
    } else {
        assert(vis.update(v, true).drop_last() =~= vis.drop_last());
    }
}

proof fn lemma_unvisited_mono(a: Seq<bool>, b: Seq<bool>)
    requires a.len() == b.len(), forall|x: int| 0 <= x < a.len() && #[trigger] a[x] ==> b[x],
    ensures unvisited(b) <= unvisited(a),
    decreases a.len(),
{
    if a.len() > 0 {
        lemma_unvisited_mono(a.drop_last(), b.drop_last());
    }
}

/// Step `i` of `p` follows an edge of the graph.
pub open spec fn linked(adj: Seq<Vec<usize>>, p: Seq<usize>, i: int) -> bool {
    p[i] < adj.len() && adj[p[i] as int]@.contains(p[i + 1])
}

/// `p` is a non-empty walk along the edges of the graph.
pub open spec fn is_path(adj: Seq<Vec<usize>>, p: Seq<usize>) -> bool {
    p.len() > 0 && forall|i: int| 0 <= i < p.len() - 1 ==> #[trigger] linked(adj, p, i)
}

/// Some walk leads from `a` to `b` (every node reaches itself).
pub open spec fn reaches(adj: Seq<Vec<usize>>, a: usize, b: usize) -> bool {
    exists|p: Seq<usize>| #[trigger] is_path(adj, p) && p[0] == a && p.last() == b
}

/// No edge closes a cycle: the target of an edge never reaches its source.
pub open spec fn acyclic(adj: Seq<Vec<usize>>) -> bool {
    forall|u: int, j: int| 0 <= u < adj.len() && 0 <= j < adj[u]@.len() ==> !reaches(adj, #[trigger] adj[u]@[j], u as usize)
}

/// Successor `w` of the node at position `i` of `order` is listed before
/// it, or reaches it, or was on the search path (visited, unfinished)
/// before the search began.
pub open spec fn succ_placed(adj: Seq<Vec<usize>>, order: Seq<usize>, i: int, w: usize, vis0: Seq<bool>, topo0: Seq<usize>) -> bool {
    order.subrange(0, i).contains(w) || reaches(adj, w, order[i]) || (vis0[w as int] && !topo0.contains(w))
}

/// Every successor of the node at position `i` of `order` is placed.
pub open spec fn placed(adj: Seq<Vec<usize>>, order: Seq<usize>, i: int, vis0: Seq<bool>, topo0: Seq<usize>) -> bool {
    forall|j: int| 0 <= j < adj[order[i] as int]@.len() ==> #[trigger] succ_placed(adj, order, i, adj[order[i] as int]@[j], vis0, topo0)
}

/// Every successor of the node at position `i` of `order` is listed
/// before it, or reaches it.
pub open spec fn ordered_at(adj: Seq<Vec<usize>>, order: Seq<usize>, i: int) -> bool {
    forall|j: int| 0 <= j < adj[order[i] as int]@.len() ==>
        order.subrange(0, i).contains(#[trigger] adj[order[i] as int]@[j]) || reaches(adj, adj[order[i] as int]@[j], order[i])
}

proof fn lemma_reach_self(adj: Seq<Vec<usize>>, a: usize)
    ensures reaches(adj, a, a),
{
    let p = seq![a];
    assert(is_path(adj, p));
}

proof fn lemma_reach_prepend(adj: Seq<Vec<usize>>, v: usize, u: usize, x: usize)
    requires v < adj.len(), adj[v as int]@.contains(u), reaches(adj, u, x),
    ensures reaches(adj, v, x),
{
    let p = choose|p: Seq<usize>| #[trigger] is_path(adj, p) && p[0] == u && p.last() == x;
    let q = seq![v] + p;
    assert forall|i: int| 0 <= i < q.len() - 1 implies #[trigger] linked(adj, q, i) by {
        if i > 0 {
            assert(linked(adj, p, i - 1));
            assert(q[i] == p[i - 1] && q[i + 1] == p[i]);
        } else {
            assert(q[1] == p[0]);
        }
    };
    assert(is_path(adj, q));
    assert(q.last() == p.last());
}

/// What the search keeps: the finished nodes are visited, each listed once.
pub open spec fn finished_ok(vis: Seq<bool>, order: Seq<usize>) -> bool {
    &&& order.no_duplicates()
    &&& forall|i: int| 0 <= i < order.len() ==> #[trigger] order[i] < vis.len() && vis[order[i] as int]
}

/// Depth-first search from the unvisited node `v`: visits every node
/// reachable from it through unvisited nodes and lists each newly visited
/// node after all the nodes it leads to that this search visits, `v` last.
pub fn dfs(v: usize, adj_list: &Vec<Vec<usize>>, vis: &mut Vec<bool>, toposort: &mut Vec<usize>)
    requires
        adj_ok(adj_list@),
        old(vis)@.len() == adj_list@.len(),
        v < adj_list@.len(),
        !old(vis)@[v as int],
        finished_ok(old(vis)@, old(toposort)@),
    ensures
        final(vis)@.len() == old(vis)@.len(),
        final(vis)@[v as int],
        forall|x: int| 0 <= x < old(vis)@.len() && old(vis)@[x] ==> #[trigger] final(vis)@[x],
        finished_ok(final(vis)@, final(toposort)@),
        final(toposort)@.len() > old(toposort)@.len(),
        final(toposort)@.subrange(0, old(toposort)@.len() as int) == old(toposort)@,
        final(toposort)@.last() == v,
        forall|x: int| 0 <= x < final(vis)@.len() && final(vis)@[x] && !old(vis)@[x]
            ==> #[trigger] final(toposort)@.contains(x as usize),
        forall|i: int| old(toposort)@.len() <= i < final(toposort)@.len() ==> !old(vis)@[#[trigger] final(toposort)@[i] as int],
        forall|i: int| old(toposort)@.len() <= i < final(toposort)@.len() ==> reaches(adj_list@, v, #[trigger] final(toposort)@[i]),
        forall|i: int| old(toposort)@.len() <= i < final(toposort)@.len()
            ==> #[trigger] placed(adj_list@, final(toposort)@, i, old(vis)@, old(toposort)@),
    decreases unvisited(old(vis)@),
{
    let ghost vis0 = vis@;
    let ghost topo0 = toposort@;
    vis.set(v, true);
    proof { lemma_unvisited_update(vis0, v as int); }
    let mut k: usize = 0;
    while k < adj_list[v].len()
        invariant
            adj_ok(adj_list@),
            v < adj_list@.len(),
            vis@.len() == vis0.len(),
            vis0 == old(vis)@,
            vis0.len() == adj_list@.len(),
            vis@[v as int],
            !vis0[v as int],
            unvisited(vis@) < unvisited(vis0),
            forall|x: int| 0 <= x < vis0.len() && vis0[x] ==> #[trigger] vis@[x],
            finished_ok(vis@, toposort@),
            toposort@.len() >= topo0.len(),
            toposort@.subrange(0, topo0.len() as int) == topo0,
            forall|x: int| 0 <= x < vis@.len() && vis@[x] && !vis0[x] && x != v ==> #[trigger] toposort@.contains(x as usize),
            forall|i: int| topo0.len() <= i < toposort@.len() ==> !vis0[#[trigger] toposort@[i] as int],
            !toposort@.contains(v),
            k <= adj_list@[v as int]@.len(),
            forall|i: int| topo0.len() <= i < toposort@.len() ==> reaches(adj_list@, v, #[trigger] toposort@[i]),
            forall|i: int| topo0.len() <= i < toposort@.len() ==> #[trigger] placed(adj_list@, toposort@, i, vis0, topo0),
            forall|j: int| 0 <= j < k ==> vis@[#[trigger] adj_list@[v as int]@[j] as int],
        decreases adj_list@[v as int]@.len() - k,
    {
        let u = adj_list[v][k];
        assert(u < adj_list@.len());
        if !vis[u] {
            let ghost vis1 = vis@;
            let ghost topo1 = toposort@;
            proof {
                assert forall|x: int| 0 <= x < vis0.len() && #[trigger] vis0[x] implies vis1[x] by {};
                lemma_unvisited_mono(vis0.update(v as int, true), vis1);
                assert(vis0.update(v as int, true).len() == vis1.len());
            }
            dfs(u, adj_list, vis, toposort);
            proof {
                assert(toposort@.subrange(0, topo0.len() as int) =~= topo0) by {
                    assert(toposort@.subrange(0, topo1.len() as int) == topo1);
                    assert forall|i: int| 0 <= i < topo0.len() implies toposort@[i] == topo0[i] by {
                        assert(toposort@[i] == toposort@.subrange(0, topo1.len() as int)[i]);
                        assert(topo1[i] == topo1.subrange(0, topo0.len() as int)[i]);
                    };
                };
                assert forall|x: int| 0 <= x < vis@.len() && vis@[x] && !vis0[x] && x != v implies #[trigger] toposort@.contains(x as usize) by {
                    if vis1[x] {
                        assert(topo1.contains(x as usize));
                        let j = choose|j: int| 0 <= j < topo1.len() && topo1[j] == x as usize;
                        assert(toposort@[j] == toposort@.subrange(0, topo1.len() as int)[j]);
                    }
                };
                assert forall|i: int| topo0.len() <= i < toposort@.len() implies !vis0[#[trigger] toposort@[i] as int] by {
                    if i < topo1.len() {
                        assert(toposort@[i] == toposort@.subrange(0, topo1.len() as int)[i]);
                    }
                };
                assert(!toposort@.contains(v)) by {
                    if toposort@.contains(v) {
                        let j = choose|j: int| 0 <= j < toposort@.len() && toposort@[j] == v;
                        if j < topo1.len() {
                            assert(toposort@[j] == toposort@.subrange(0, topo1.len() as int)[j]);
                        }
                    }
                };
                lemma_unvisited_mono(vis1, vis@);
                lemma_after_child(adj_list@, v, k as int, vis0, topo0, vis1, topo1, toposort@);
            }
        }
        assert forall|j: int| 0 <= j < k + 1 implies vis@[#[trigger] adj_list@[v as int]@[j] as int] by {};
        k += 1;
    }
    let ghost topo2 = toposort@;
    toposort.push(v);
    proof {
        assert(toposort@.subrange(0, topo0.len() as int) =~= topo0) by {
            assert forall|i: int| 0 <= i < topo0.len() implies toposort@[i] == topo0[i] by {
                assert(toposort@[i] == topo2[i]);
                assert(topo2[i] == topo2.subrange(0, topo0.len() as int)[i]);
            };
        };
        assert(toposort@.no_duplicates()) by {
            assert forall|i: int, j: int| 0 <= i < j < toposort@.len() implies toposort@[i] != toposort@[j] by {
                if j == toposort@.len() - 1 {
                    assert(toposort@[i] == topo2[i]);
                    assert(topo2.contains(toposort@[i]));
                } else {
                    assert(toposort@[i] == topo2[i] && toposort@[j] == topo2[j]);
                }
            };
        };
        assert forall|x: int| 0 <= x < vis@.len() && vis@[x] && !vis0[x] implies #[trigger] toposort@.contains(x as usize) by {
            if x == v {
                assert(toposort@[toposort@.len() - 1] == v);
            } else {
                assert(topo2.contains(x as usize));
                let j = choose|j: int| 0 <= j < topo2.len() && topo2[j] == x as usize;
                assert(toposort@[j] == topo2[j]);
            }
        };
        lemma_finish_node(adj_list@, v, vis0, topo0, vis@, topo2);
    }
}

/// After the search from child `adj[v][k]` (which ran on `vis1`/`topo1`
/// and left `topo`), what the search from `v` keeps still holds.
proof fn lemma_after_child(adj: Seq<Vec<usize>>, v: usize, k: int, vis0: Seq<bool>, topo0: Seq<usize>,
    vis1: Seq<bool>, topo1: Seq<usize>, topo: Seq<usize>)
    requires
        adj_ok(adj),
        forall|i: int| 0 <= i < topo.len() ==> #[trigger] topo[i] < adj.len(),
        v < adj.len(),
        0 <= k < adj[v as int]@.len(),
        vis0.len() == adj.len(),
        vis1.len() == adj.len(),
        topo1.len() >= topo0.len(),
        topo1.subrange(0, topo0.len() as int) == topo0,
        topo.len() >= topo1.len(),
        topo.subrange(0, topo1.len() as int) == topo1,
        forall|x: int| 0 <= x < vis0.len() && vis0[x] ==> #[trigger] vis1[x],
        forall|x: int| 0 <= x < vis1.len() && vis1[x] && !vis0[x] && x != v ==> #[trigger] topo1.contains(x as usize),
        forall|i: int| topo0.len() <= i < topo1.len() ==> reaches(adj, v, #[trigger] topo1[i]),
        forall|i: int| topo0.len() <= i < topo1.len() ==> #[trigger] placed(adj, topo1, i, vis0, topo0),
        forall|i: int| topo1.len() <= i < topo.len() ==> reaches(adj, adj[v as int]@[k], #[trigger] topo[i]),
        forall|i: int| topo1.len() <= i < topo.len() ==> #[trigger] placed(adj, topo, i, vis1, topo1),
    ensures
        forall|i: int| topo0.len() <= i < topo.len() ==> reaches(adj, v, #[trigger] topo[i]),
        forall|i: int| topo0.len() <= i < topo.len() ==> #[trigger] placed(adj, topo, i, vis0, topo0),
{
    let u = adj[v as int]@[k];
    assert(adj[v as int]@.contains(u));
    assert forall|i: int| topo0.len() <= i < topo.len() implies reaches(adj, v, #[trigger] topo[i]) by {
        if i < topo1.len() {
            assert(topo[i] == topo.subrange(0, topo1.len() as int)[i]);
        } else {
            lemma_reach_prepend(adj, v, u, topo[i]);
        }
    };
    assert forall|i: int| topo0.len() <= i < topo.len() implies #[trigger] placed(adj, topo, i, vis0, topo0) by {
        if i < topo1.len() {
            assert(topo[i] == topo.subrange(0, topo1.len() as int)[i]);
            assert(topo.subrange(0, i) =~= topo1.subrange(0, i));
            assert forall|j: int| 0 <= j < adj[topo[i] as int]@.len() implies
                #[trigger] succ_placed(adj, topo, i, adj[topo[i] as int]@[j], vis0, topo0) by {
                assert(placed(adj, topo1, i, vis0, topo0));
                assert(succ_placed(adj, topo1, i, adj[topo1[i] as int]@[j], vis0, topo0));
            };
        } else {
            assert forall|j: int| 0 <= j < adj[topo[i] as int]@.len() implies
                #[trigger] succ_placed(adj, topo, i, adj[topo[i] as int]@[j], vis0, topo0) by {
                let w = adj[topo[i] as int]@[j];
                assert(placed(adj, topo, i, vis1, topo1));
                assert(succ_placed(adj, topo, i, w, vis1, topo1));
                if !topo.subrange(0, i).contains(w) && !reaches(adj, w, topo[i]) {
                    assert(vis1[w as int] && !topo1.contains(w));
                    if topo0.contains(w) {
                        let m = choose|m: int| 0 <= m < topo0.len() && topo0[m] == w;
                        assert(topo1[m] == topo1.subrange(0, topo0.len() as int)[m]);
                    }
                    if !vis0[w as int] {
                        let x = w as int;
                        if x != v {
                            assert(topo1.contains(x as usize));
                        }
                        assert(reaches(adj, v, topo[i]));
                    }
                }
            };
        }
    };
}

/// Once every successor of `v` is visited, listing `v` (after `topo`)
/// keeps what the search from `v` promises.
proof fn lemma_finish_node(adj: Seq<Vec<usize>>, v: usize, vis0: Seq<bool>, topo0: Seq<usize>,
    vis: Seq<bool>, topo: Seq<usize>)
    requires
        adj_ok(adj),
        v < adj.len(),
        vis0.len() == adj.len(),
        vis.len() == adj.len(),
        topo.len() >= topo0.len(),
        topo.subrange(0, topo0.len() as int) == topo0,
        forall|x: int| 0 <= x < vis.len() && vis[x] && !vis0[x] && x != v ==> #[trigger] topo.contains(x as usize),
        forall|j: int| 0 <= j < adj[v as int]@.len() ==> vis[#[trigger] adj[v as int]@[j] as int],
        forall|i: int| topo0.len() <= i < topo.len() ==> reaches(adj, v, #[trigger] topo[i]),
        forall|i: int| topo0.len() <= i < topo.len() ==> #[trigger] placed(adj, topo, i, vis0, topo0),
    ensures
        forall|i: int| topo0.len() <= i < topo.push(v).len() ==> reaches(adj, v, #[trigger] topo.push(v)[i]),
        forall|i: int| topo0.len() <= i < topo.push(v).len() ==> #[trigger] placed(adj, topo.push(v), i, vis0, topo0),
{
    let t = topo.push(v);
    lemma_reach_self(adj, v);
    assert forall|i: int| topo0.len() <= i < t.len() implies reaches(adj, v, #[trigger] t[i]) by {
        if i < topo.len() {
            assert(t[i] == topo[i]);
        }
    };
    assert forall|i: int| topo0.len() <= i < t.len() implies #[trigger] placed(adj, t, i, vis0, topo0) by {
        if i < topo.len() {
            assert(t[i] == topo[i]);
            assert(t.subrange(0, i) =~= topo.subrange(0, i));
            assert forall|j: int| 0 <= j < adj[t[i] as int]@.len() implies
                #[trigger] succ_placed(adj, t, i, adj[t[i] as int]@[j], vis0, topo0) by {
                assert(placed(adj, topo, i, vis0, topo0));
                assert(succ_placed(adj, topo, i, adj[topo[i] as int]@[j], vis0, topo0));
            };
        } else {
            assert(t.subrange(0, i) =~= topo);
            assert forall|j: int| 0 <= j < adj[t[i] as int]@.len() implies
                #[trigger] succ_placed(adj, t, i, adj[t[i] as int]@[j], vis0, topo0) by {
                let w = adj[v as int]@[j];
                assert(vis[w as int]);
                if !topo.contains(w) {
                    if topo0.contains(w) {
                        let m = choose|m: int| 0 <= m < topo0.len() && topo0[m] == w;
                        assert(topo[m] == topo.subrange(0, topo0.len() as int)[m]);
                    }
                    if !vis0[w as int] {
                        let x = w as int;
                        if x != v {
                            assert(topo.contains(x as usize));
                        }
                        assert(reaches(adj, v, t[i]));
                    }
                }
            };
        }
    };
}

/// Every dependency of every function is a function of the list.
pub open spec fn deps_ok(deps: Seq<Vec<usize>>) -> bool {
    forall|i: int, j: int| 0 <= i < deps.len() && 0 <= j < deps[i]@.len() ==> #[trigger] deps[i]@[j] < deps.len()
}

/// The graph of the functions: function `i` depends on the functions
/// `deps[i]`; the list of node `d` holds, in ascending order, each function
/// that depends on `d`, as often as `d` occurs among its dependencies.
pub fn dependency_graph(deps: &Vec<Vec<usize>>) -> (adj: Vec<Vec<usize>>)
    requires deps_ok(deps@),
    ensures
        adj@.len() == deps@.len(),
        adj_ok(adj@),
        forall|d: int, i: int| 0 <= d < adj@.len() && 0 <= i < adj@.len()
            ==> #[trigger] adj@[d]@.to_multiset().count(i as usize) == #[trigger] deps@[i]@.to_multiset().count(d as usize),
        forall|d: int, a: int, b: int| 0 <= d < adj@.len() && 0 <= a <= b < adj@[d]@.len()
            ==> #[trigger] adj@[d]@[a] <= #[trigger] adj@[d]@[b],
{
    broadcast use vstd::seq_lib::group_to_multiset_ensures, vstd::multiset::group_multiset_axioms;
    let n = deps.len();
    let mut adj: Vec<Vec<usize>> = Vec::new();
    let mut k: usize = 0;
    while k < n
        invariant
            k <= n,
            adj@.len() == k,
            forall|d: int| 0 <= d < k ==> (#[trigger] adj@[d])@.len() == 0,
        decreases n - k,
    {
        adj.push(Vec::new());
        k += 1;
    }
    let mut i: usize = 0;
    while i < n
        invariant
            n == deps@.len(),
            deps_ok(deps@),
            i <= n,
            adj@.len() == n,
            forall|d: int, x: int| 0 <= d < n && 0 <= x < i
                ==> #[trigger] adj@[d]@.to_multiset().count(x as usize) == #[trigger] deps@[x]@.to_multiset().count(d as usize),
            forall|d: int, p: int| 0 <= d < n && 0 <= p < adj@[d]@.len() ==> #[trigger] adj@[d]@[p] < i,
            forall|d: int, a: int, b: int| 0 <= d < n && 0 <= a <= b < adj@[d]@.len()
                ==> #[trigger] adj@[d]@[a] <= #[trigger] adj@[d]@[b],
        decreases n - i,
    {
        let ghost before = adj@;
        proof {
            assert forall|d: int| 0 <= d < n implies #[trigger] deps@[i as int]@.subrange(0, 0).to_multiset().count(d as usize) == 0 by {
                vstd::seq_lib::to_multiset_contains(deps@[i as int]@.subrange(0, 0), d as usize);
            };
            assert forall|d: int| 0 <= d < n implies (#[trigger] adj@[d])@.to_multiset().count(i) == 0 by {
                vstd::seq_lib::to_multiset_contains(adj@[d]@, i);
                if adj@[d]@.contains(i) {
                    let p = choose|p: int| 0 <= p < adj@[d]@.len() && adj@[d]@[p] == i;
                    assert(adj@[d]@[p] < i);
                }
            };
        }
        let mut j: usize = 0;
        while j < deps[i].len()
            invariant
                n == deps@.len(),
                deps_ok(deps@),
                i < n,
                adj@.len() == n,
                j <= deps@[i as int]@.len(),
                forall|d: int, x: int| 0 <= d < n && 0 <= x < i
                    ==> #[trigger] adj@[d]@.to_multiset().count(x as usize) == #[trigger] before[d]@.to_multiset().count(x as usize),
                forall|d: int| 0 <= d < n ==> (#[trigger] adj@[d])@.to_multiset().count(i)
                    == deps@[i as int]@.subrange(0, j as int).to_multiset().count(d as usize),
                forall|d: int, p: int| 0 <= d < n && 0 <= p < adj@[d]@.len() ==> #[trigger] adj@[d]@[p] <= i,
                forall|d: int, a: int, b: int| 0 <= d < n && 0 <= a <= b < adj@[d]@.len()
                    ==> #[trigger] adj@[d]@[a] <= #[trigger] adj@[d]@[b],
            decreases deps@[i as int]@.len() - j,
        {
            let d = deps[i][j];
            assert(d < n);
            let ghost a0 = adj@;
            let mut row = adj[d].clone();
            assert(row@ =~= a0[d as int]@);
            row.push(i);
            adj.set(d, row);
            proof {
                let s0 = deps@[i as int]@.subrange(0, j as int);
                assert(deps@[i as int]@.subrange(0, j + 1) =~= s0.push(d));
                vstd::seq_lib::to_multiset_build(s0, d);
                vstd::seq_lib::to_multiset_build(a0[d as int]@, i);
                assert(deps@[i as int]@.subrange(0, j + 1).to_multiset() =~= s0.to_multiset().insert(d));
                assert(adj@[d as int]@ == a0[d as int]@.push(i));
                assert(adj@[d as int]@.to_multiset() =~= a0[d as int]@.to_multiset().insert(i));
                assert forall|e: int| 0 <= e < n implies (#[trigger] adj@[e])@.to_multiset().count(i)
                    == deps@[i as int]@.subrange(0, j + 1).to_multiset().count(e as usize) by {
                    assert(a0[e]@.to_multiset().count(i) == s0.to_multiset().count(e as usize));
                    if e != d as int {
                        assert(adj@[e] == a0[e]);
                    }
                };
                assert forall|e: int, x: int| 0 <= e < n && 0 <= x < i
                    implies #[trigger] adj@[e]@.to_multiset().count(x as usize) == #[trigger] before[e]@.to_multiset().count(x as usize) by {
                    assert(a0[e]@.to_multiset().count(x as usize) == before[e]@.to_multiset().count(x as usize));
                    if e != d as int {
                        assert(adj@[e] == a0[e]);
                    }
                };
                assert forall|e: int, p: int| 0 <= e < n && 0 <= p < adj@[e]@.len() implies #[trigger] adj@[e]@[p] <= i by {
                    if e == d as int && p < a0[e]@.len() {
                        assert(adj@[e]@[p] == a0[e]@[p]);
                    } else if e != d as int {
                        assert(adj@[e] == a0[e]);
                    }
                };
                assert forall|e: int, a: int, b: int| 0 <= e < n && 0 <= a <= b < adj@[e]@.len()
                    implies #[trigger] adj@[e]@[a] <= #[trigger] adj@[e]@[b] by {
                    if e == d as int {
                        if b < a0[e]@.len() {
                            assert(adj@[e]@[a] == a0[e]@[a] && adj@[e]@[b] == a0[e]@[b]);
                        } else if a < a0[e]@.len() {
                            assert(adj@[e]@[a] == a0[e]@[a]);
                            assert(a0[e]@[a] <= i);
                        }
                    } else {
                        assert(adj@[e] == a0[e]);
                    }
                };
            }
            j += 1;
        }
        proof {
            assert(deps@[i as int]@.subrange(0, deps@[i as int]@.len() as int) =~= deps@[i as int]@);
            assert forall|d: int, x: int| 0 <= d < n && 0 <= x < i + 1
                implies #[trigger] adj@[d]@.to_multiset().count(x as usize) == #[trigger] deps@[x]@.to_multiset().count(d as usize) by {
                if x < i {
                    assert(before[d]@.to_multiset().count(x as usize) == deps@[x]@.to_multiset().count(d as usize));
                } else {
                    assert(adj@[d]@.to_multiset().count(i) == deps@[i as int]@.to_multiset().count(d as usize));
                }
            };
        }
        i += 1;
    }
    proof {
        assert forall|u: int, j: int| 0 <= u < adj@.len() && 0 <= j < adj@[u]@.len() implies #[trigger] adj@[u]@[j] < adj@.len() by {
            assert(adj@[u]@[j] < i);
        };
    }
    adj
}

/// The order in which the nodes run: depth-first searches from each
/// unvisited node in turn, listed in reverse finishing order. Every node
/// appears exactly once, and every edge leads forward in the order unless
/// its target reaches its source; so in a graph without cycles each
/// function runs after all the functions it depends on.
pub fn topo_order(adj_list: &Vec<Vec<usize>>) -> (r: Vec<usize>)
    requires adj_ok(adj_list@),
    ensures
        r@.len() == adj_list@.len(),
        r@.no_duplicates(),
        forall|i: int| 0 <= i < r@.len() ==> #[trigger] r@[i] < adj_list@.len(),
        forall|a: int, b: int| #![trigger r@[a], r@[b]] 0 <= a < r@.len() && 0 <= b < r@.len()
            && adj_list@[r@[a] as int]@.contains(r@[b]) ==> a < b || reaches(adj_list@, r@[b], r@[a]),
        acyclic(adj_list@) ==> forall|a: int, b: int| #![trigger r@[a], r@[b]] 0 <= a < r@.len() && 0 <= b < r@.len()
            && adj_list@[r@[a] as int]@.contains(r@[b]) ==> a < b,
{
    let n = adj_list.len();
    let mut vis: Vec<bool> = Vec::new();
    let mut i: usize = 0;
    while i < n
        invariant
            i <= n,
            vis@.len() == i,
            forall|x: int| 0 <= x < i ==> !#[trigger] vis@[x],
        decreases n - i,
    {
        vis.push(false);
        i += 1;
    }
    let mut order: Vec<usize> = Vec::new();
    let mut i: usize = 0;
    while i < n
        invariant
            adj_ok(adj_list@),
            n == adj_list@.len(),
            vis@.len() == n,
            i <= n,
            finished_ok(vis@, order@),
            forall|x: int| 0 <= x < i ==> #[trigger] vis@[x],
            forall|x: int| 0 <= x < n && #[trigger] vis@[x] ==> order@.contains(x as usize),
            forall|k: int| 0 <= k < order@.len() ==> #[trigger] ordered_at(adj_list@, order@, k),
        decreases n - i,
    {
        if !vis[i] {
            let ghost v0 = vis@;
            let ghost o0 = order@;
            dfs(i, adj_list, &mut vis, &mut order);
            proof {
                lemma_after_search(adj_list@, v0, o0, order@);
                assert forall|x: int| 0 <= x < n && #[trigger] vis@[x] implies order@.contains(x as usize) by {
                    if v0[x] {
                        assert(o0.contains(x as usize));
                        let j = choose|j: int| 0 <= j < o0.len() && o0[j] == x as usize;
                        assert(order@[j] == order@.subrange(0, o0.len() as int)[j]);
                    }
                };
            }
        }
        i += 1;
    }
    proof {
        assert forall|x: usize| x < n implies #[trigger] order@.contains(x) by {
            assert(vis@[x as int]);
        };
        lemma_all_listed(order@, n);
    }
    let mut r: Vec<usize> = Vec::new();
    let mut k: usize = order.len();
    while k > 0
        invariant
            k <= order@.len(),
            r@.len() == order@.len() - k,
            forall|j: int| 0 <= j < r@.len() ==> #[trigger] r@[j] == order@[order@.len() - 1 - j],
        decreases k,
    {
        k -= 1;
        r.push(order[k]);
    }
    proof {
        assert forall|a: int, b: int| 0 <= a < b < r@.len() implies r@[a] != r@[b] by {
            assert(r@[a] == order@[order@.len() - 1 - a]);
            assert(r@[b] == order@[order@.len() - 1 - b]);
        };
        assert forall|j: int| 0 <= j < r@.len() implies #[trigger] r@[j] < adj_list@.len() by {
            assert(r@[j] == order@[order@.len() - 1 - j]);
        };
        lemma_reversed_order(adj_list@, order@, r@);
    }
    r
}

/// A search that began with every visited node finished leaves the whole
/// list ordered.
proof fn lemma_after_search(adj: Seq<Vec<usize>>, v0: Seq<bool>, o0: Seq<usize>, order: Seq<usize>)
    requires
        adj_ok(adj),
        v0.len() == adj.len(),
        forall|k: int| 0 <= k < order.len() ==> #[trigger] order[k] < adj.len(),
        forall|x: int| 0 <= x < v0.len() && #[trigger] v0[x] ==> o0.contains(x as usize),
        order.len() >= o0.len(),
        order.subrange(0, o0.len() as int) == o0,
        forall|k: int| 0 <= k < o0.len() ==> #[trigger] ordered_at(adj, o0, k),
        forall|k: int| o0.len() <= k < order.len() ==> #[trigger] placed(adj, order, k, v0, o0),
    ensures
        forall|k: int| 0 <= k < order.len() ==> #[trigger] ordered_at(adj, order, k),
{
    assert forall|k: int| 0 <= k < order.len() implies #[trigger] ordered_at(adj, order, k) by {
        if k < o0.len() {
            assert(order[k] == order.subrange(0, o0.len() as int)[k]);
            assert(order.subrange(0, k) =~= o0.subrange(0, k));
            assert(ordered_at(adj, o0, k));
        } else {
            assert(placed(adj, order, k, v0, o0));
            assert forall|j: int| 0 <= j < adj[order[k] as int]@.len() implies
                order.subrange(0, k).contains(#[trigger] adj[order[k] as int]@[j])
                || reaches(adj, adj[order[k] as int]@[j], order[k]) by {
                let w = adj[order[k] as int]@[j];
                assert(succ_placed(adj, order, k, w, v0, o0));
                if v0[w as int] && !o0.contains(w) {
                    let x = w as int;
                    if 0 <= x < v0.len() {
                        assert(o0.contains(x as usize));
                    }
                }
            };
        }
    };
}

/// In the reversed list every edge leads forward, unless its target
/// reaches its source.
proof fn lemma_reversed_order(adj: Seq<Vec<usize>>, order: Seq<usize>, r: Seq<usize>)
    requires
        forall|j: int| 0 <= j < r.len() ==> #[trigger] r[j] < adj.len(),
        order.no_duplicates(),
        r.len() == order.len(),
        forall|j: int| 0 <= j < r.len() ==> #[trigger] r[j] == order[order.len() - 1 - j],
        forall|k: int| 0 <= k < order.len() ==> #[trigger] ordered_at(adj, order, k),
    ensures
        forall|a: int, b: int| #![trigger r[a], r[b]] 0 <= a < r.len() && 0 <= b < r.len()
            && adj[r[a] as int]@.contains(r[b]) ==> a < b || reaches(adj, r[b], r[a]),
        acyclic(adj) ==> forall|a: int, b: int| #![trigger r[a], r[b]] 0 <= a < r.len() && 0 <= b < r.len()
            && adj[r[a] as int]@.contains(r[b]) ==> a < b,
{
    let n = order.len() as int;
    assert forall|a: int, b: int| #![trigger r[a], r[b]] 0 <= a < r.len() && 0 <= b < r.len()
        && adj[r[a] as int]@.contains(r[b]) implies a < b || reaches(adj, r[b], r[a]) by {
        let ka = n - 1 - a;
        let kb = n - 1 - b;
        assert(r[a] == order[ka] && r[b] == order[kb]);
        let j = choose|j: int| 0 <= j < adj[order[ka] as int]@.len() && adj[order[ka] as int]@[j] == order[kb];
        assert(ordered_at(adj, order, ka));
        if !reaches(adj, r[b], r[a]) {
            assert(order.subrange(0, ka).contains(adj[order[ka] as int]@[j]));
            let m = choose|m: int| 0 <= m < ka && order.subrange(0, ka)[m] == order[kb];
            assert(order[m] == order[kb]);
        }
    };
    if acyclic(adj) {
        assert forall|a: int, b: int| #![trigger r[a], r[b]] 0 <= a < r.len() && 0 <= b < r.len()
            && adj[r[a] as int]@.contains(r[b]) implies a < b by {
            if !(a < b) {
                let ka = n - 1 - a;
                assert(r[a] == order[ka]);
                let j = choose|j: int| 0 <= j < adj[r[a] as int]@.len() && adj[r[a] as int]@[j] == r[b];
                assert(!reaches(adj, adj[r[a] as int]@[j], r[a]));
            }
        };
    }
}

/// A list without repeats of nodes below `n` that holds every node below
/// `n` has exactly `n` entries.
proof fn lemma_all_listed(order: Seq<usize>, n: usize)
    requires
        order.no_duplicates(),
        forall|i: int| 0 <= i < order.len() ==> #[trigger] order[i] < n,
        forall|x: usize| x < n ==> #[trigger] order.contains(x),
    ensures order.len() == n,
{
    order.unique_seq_to_set();
    <usize as FiniteRange>::range_properties(0usize, n);
    assert(order.to_set() =~= <usize as FiniteRange>::range_set(0usize, n)) by {
        assert forall|x: usize| order.to_set().contains(x) <==> 0 <= x < n by {
            if order.to_set().contains(x) {
                let k = choose|k: int| 0 <= k < order.len() && order[k] == x;
            }
            if x < n {
                assert(order.contains(x));
            }
        };
    };
}

} // verus!
