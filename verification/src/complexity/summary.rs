//! The complexity of every function of a project, summed up: one entry per
//! function name (a later graph with the same name replaces the earlier
//! one), the most complex function, totals and how many functions fall in
//! each complexity class.
use vstd::prelude::*;
use crate::cfg::ControlFlowGraph;
use crate::cfg::optimization::sorted_ids;
use crate::strs::{decimal, push_decimal, str_matches, string_push_str};
use crate::complexity::{
    analyze_function_complexity, cyclomatic, edges_sum, level_of, sizes_fit, CFGResult, ComplexityLevel,
    FunctionComplexity,
};

verus! {

/// How many functions fall in each complexity class.
#[derive(Debug, Clone, Copy, PartialEq, Eq)]
pub struct ComplexityDistribution {
    pub low: usize,
    pub moderate: usize,
    pub high: usize,
    pub very_high: usize,
}

/// The complexity of the functions of a project. The average is
/// `total_complexity / total_functions` (0 without functions).
#[derive(Debug)]
pub struct ComplexityAnalysisResult {
    pub functions: Vec<(String, FunctionComplexity)>,
    pub total_functions: usize,
    pub total_complexity: usize,
    pub max_complexity: usize,
    pub max_complexity_function: String,
    pub complexity_distribution: ComplexityDistribution,
}

/// A function's name, cyclomatic complexity and class.
pub type Figure = (Seq<char>, nat, ComplexityLevel);

/// The figures of named complexity results.
pub open spec fn figures(items: Seq<(String, FunctionComplexity)>) -> Seq<Figure> {
    items.map_values(|x: (String, FunctionComplexity)| (x.0@, x.1.cyclomatic_complexity as nat, x.1.complexity_level))
}

/// The first position at or after `k` of a figure named `n`, or -1.
pub open spec fn first_named(s: Seq<Figure>, n: Seq<char>, k: int) -> int
    decreases s.len() - k,
{
    if k < 0 || k >= s.len() { -1 } else if s[k].0 == n { k } else { first_named(s, n, k + 1) }
}

/// The figures with one entry per name, in the order in which the names
/// first occur, each holding the last figure of that name.
pub open spec fn merged(s: Seq<Figure>) -> Seq<Figure>
    decreases s.len(),
{
    if s.len() == 0 {
        Seq::empty()
    } else {
        let m = merged(s.drop_last());
        let p = first_named(m, s.last().0, 0);
        if p >= 0 { m.update(p, s.last()) } else { m.push(s.last()) }
    }
}

/// The greatest complexity and the name of the first function that has
/// it; (0, empty) without functions.
pub open spec fn running_max(s: Seq<Figure>) -> (nat, Seq<char>)
    decreases s.len(),
{
    if s.len() == 0 {
        (0, Seq::empty())
    } else {
        let m = running_max(s.drop_last());
        if s.last().1 > m.0 { (s.last().1, s.last().0) } else { m }
    }
}

/// The sum of the complexities.
pub open spec fn cc_sum(s: Seq<Figure>) -> nat
    decreases s.len(),
{
    if s.len() == 0 { 0 } else { cc_sum(s.drop_last()) + s.last().1 }
}

/// How many figures are of class `l`.
pub open spec fn level_count(s: Seq<Figure>, l: ComplexityLevel) -> nat
    decreases s.len(),
{
    if s.len() == 0 { 0 } else { level_count(s.drop_last(), l) + if s.last().2 == l { 1nat } else { 0nat } }
}

/// What a summary of figures `s` holds.
pub open spec fn summarizes(r: ComplexityAnalysisResult, s: Seq<Figure>) -> bool {
    let m = merged(s);
    &&& figures(r.functions@) == m
    &&& r.total_functions == m.len()
    &&& r.total_complexity == cc_sum(m)
    &&& r.max_complexity == running_max(s).0
    &&& r.max_complexity_function@ == running_max(s).1
    &&& r.complexity_distribution.low == level_count(m, ComplexityLevel::Low)
    &&& r.complexity_distribution.moderate == level_count(m, ComplexityLevel::Moderate)
    &&& r.complexity_distribution.high == level_count(m, ComplexityLevel::High)
    &&& r.complexity_distribution.very_high == level_count(m, ComplexityLevel::VeryHigh)
}

proof fn lemma_first_named_skip(s: Seq<Figure>, n: Seq<char>, k: int)
    requires 0 <= k < s.len(), s[k].0 != n,
    ensures first_named(s, n, k) == first_named(s, n, k + 1),
{
}

proof fn lemma_first_named_range(s: Seq<Figure>, n: Seq<char>, k: int)
    requires 0 <= k,
    ensures
        first_named(s, n, k) == -1 || (k <= first_named(s, n, k) < s.len() && s[first_named(s, n, k)].0 == n),
        first_named(s, n, k) == -1 ==> forall|j: int| k <= j < s.len() ==> s[j].0 != n,
    decreases s.len() - k,
{
    if k < s.len() && s[k].0 != n {
        lemma_first_named_range(s, n, k + 1);
    }
}

/// Where the entry named `name` stands among `out`, if it does.
fn position_named(out: &Vec<(String, FunctionComplexity)>, name: &String) -> (r: Option<usize>)
    ensures
        match r {
            Some(p) => p as int == first_named(figures(out@), name@, 0),
            None => first_named(figures(out@), name@, 0) == -1,
        },
{
    let ghost s = figures(out@);
    let mut k: usize = 0;
    while k < out.len()
        invariant
            s == figures(out@),
            k <= out@.len(),
            first_named(s, name@, 0) == first_named(s, name@, k as int),
        decreases out@.len() - k,
    {
        if str_matches(out[k].0.as_str(), name.as_str()) {
            assert(s[k as int].0 == name@);
            return Some(k);
        }
        proof { lemma_first_named_skip(s, name@, k as int); }
        k += 1;
    }
    None
}

proof fn lemma_merged_len(s: Seq<Figure>)
    ensures merged(s).len() <= s.len(),
    decreases s.len(),
{
    if s.len() > 0 {
        lemma_merged_len(s.drop_last());
        lemma_first_named_range(merged(s.drop_last()), s.last().0, 0);
    }
}

proof fn lemma_level_count_le(s: Seq<Figure>, l: ComplexityLevel)
    ensures level_count(s, l) <= s.len(),
    decreases s.len(),
{
    if s.len() > 0 {
        lemma_level_count_le(s.drop_last(), l);
    }
}

/// Sums up named complexity results in their order (see `summarizes`).
pub fn summarize(items: Vec<(String, FunctionComplexity)>) -> (r: ComplexityAnalysisResult)
    requires cc_sum(merged(figures(items@))) <= usize::MAX,
    ensures summarizes(r, figures(items@)),
{
    let ghost all = figures(items@);
    let mut items = items;
    let mut out: Vec<(String, FunctionComplexity)> = Vec::new();
    let mut max_complexity: usize = 0;
    let mut max_complexity_function = String::new();
    let ghost mut done: nat = 0;
    while items.len() > 0
        invariant
            done + items@.len() == all.len(),
            figures(items@) == all.subrange(done as int, all.len() as int),
            figures(out@) == merged(all.subrange(0, done as int)),
            max_complexity as nat == running_max(all.subrange(0, done as int)).0,
            max_complexity_function@ == running_max(all.subrange(0, done as int)).1,
        decreases items@.len(),
    {
        let ghost pre = all.subrange(0, done as int);
        let ghost next = all.subrange(0, done as int + 1);
        let ghost items0 = items@;
        let item = items.remove(0);
        proof {
            assert(items@ =~= items0.subrange(1, items0.len() as int));
            assert(figures(items0)[0] == all.subrange(done as int, all.len() as int)[0]);
            assert forall|j: int| 0 <= j < items@.len() implies #[trigger] figures(items@)[j] == all[done + 1 + j] by {
                assert(figures(items0)[j + 1] == all.subrange(done as int, all.len() as int)[j + 1]);
                assert(items@[j] == items0[j + 1]);
            };
            assert(figures(items@) =~= all.subrange(done as int + 1, all.len() as int));
            assert(next.drop_last() =~= pre);
            assert(next.last() == (item.0@, item.1.cyclomatic_complexity as nat, item.1.complexity_level));
        }
        if item.1.cyclomatic_complexity > max_complexity {
            max_complexity = item.1.cyclomatic_complexity;
            max_complexity_function = item.0.clone();
        }
        let ghost out0 = figures(out@);
        proof { lemma_first_named_range(out0, item.0@, 0); }
        match position_named(&out, &item.0) {
            Some(p) => {
                out.set(p, item);
                proof { assert(figures(out@) =~= out0.update(p as int, next.last())); }
            },
            None => {
                out.push(item);
                proof { assert(figures(out@) =~= out0.push(next.last())); }
            },
        }
        proof { done = done + 1; }
    }
    proof {
        assert(all.subrange(0, done as int) =~= all);
        lemma_merged_len(all);
    }
    let ghost m = figures(out@);
    let mut total_complexity: usize = 0;
    let mut dist = ComplexityDistribution { low: 0, moderate: 0, high: 0, very_high: 0 };
    let mut k: usize = 0;
    while k < out.len()
        invariant
            m == figures(out@),
            m == merged(all),
            cc_sum(m) <= usize::MAX,
            k <= out@.len(),
            total_complexity as nat == cc_sum(m.subrange(0, k as int)),
            dist.low == level_count(m.subrange(0, k as int), ComplexityLevel::Low),
            dist.moderate == level_count(m.subrange(0, k as int), ComplexityLevel::Moderate),
            dist.high == level_count(m.subrange(0, k as int), ComplexityLevel::High),
            dist.very_high == level_count(m.subrange(0, k as int), ComplexityLevel::VeryHigh),
        decreases out@.len() - k,
    {
        let ghost p = m.subrange(0, k as int);
        let ghost q = m.subrange(0, k + 1);
        proof {
            assert(q.drop_last() =~= p);
            lemma_cc_sum_prefix(m, k + 1);
            lemma_level_count_le(p, ComplexityLevel::Low);
            lemma_level_count_le(p, ComplexityLevel::Moderate);
            lemma_level_count_le(p, ComplexityLevel::High);
            lemma_level_count_le(p, ComplexityLevel::VeryHigh);
        }
        let f = &out[k].1;
        total_complexity = total_complexity + f.cyclomatic_complexity;
        match f.complexity_level {
            ComplexityLevel::Low => { dist.low = dist.low + 1; },
            ComplexityLevel::Moderate => { dist.moderate = dist.moderate + 1; },
            ComplexityLevel::High => { dist.high = dist.high + 1; },
            ComplexityLevel::VeryHigh => { dist.very_high = dist.very_high + 1; },
        }
        k += 1;
    }
    proof { assert(m.subrange(0, k as int) =~= m); }
    ComplexityAnalysisResult {
        total_functions: out.len(),
        functions: out,
        total_complexity,
        max_complexity,
        max_complexity_function,
        complexity_distribution: dist,
    }
}

proof fn lemma_cc_sum_prefix(s: Seq<Figure>, i: int)
    requires 0 <= i <= s.len(),
    ensures cc_sum(s.subrange(0, i)) <= cc_sum(s),
    decreases s.len() - i,
{
    if i < s.len() {
        lemma_cc_sum_prefix(s, i + 1);
        assert(s.subrange(0, i + 1).drop_last() =~= s.subrange(0, i));
    } else {
        assert(s.subrange(0, i) =~= s);
    }
}

} // verus!

verus! {

/// The cyclomatic complexity of a graph (see `cyclomatic`).
pub open spec fn graph_cc(g: ControlFlowGraph) -> nat {
    cyclomatic(g.blocks@.len(), edges_sum(g.blocks@, sorted_ids(g.blocks@.dom())))
}

/// The figures of the graphs of one file, each named by the file and its
/// entry block: `file::entry`.
pub open spec fn file_figures(fname: Seq<char>, gs: Seq<ControlFlowGraph>) -> Seq<Figure> {
    Seq::new(gs.len(), |k: int| (fname + "::"@ + decimal(gs[k].entry as nat), graph_cc(gs[k]), level_of(graph_cc(gs[k]))))
}

/// The figures of the graphs of all files, file by file.
pub open spec fn project_figures(cfgs: Seq<(String, Vec<ControlFlowGraph>)>) -> Seq<Figure>
    decreases cfgs.len(),
{
    if cfgs.len() == 0 {
        Seq::empty()
    } else {
        project_figures(cfgs.drop_last()) + file_figures(cfgs.last().0@, cfgs.last().1@)
    }
}

/// The counts of every graph fit in a `usize` (see `sizes_fit`).
pub open spec fn all_fit(cfgs: Seq<(String, Vec<ControlFlowGraph>)>) -> bool {
    forall|i: int, k: int| 0 <= i < cfgs.len() && 0 <= k < cfgs[i].1@.len() ==> sizes_fit(#[trigger] cfgs[i].1@[k])
}

/// The complexity of each graph of each file, named `file::entry`, in
/// order.
pub fn function_figures(cfg_data: &CFGResult, include_cognitive: bool) -> (r: Vec<(String, FunctionComplexity)>)
    requires all_fit(cfg_data.cfgs@),
    ensures figures(r@) == project_figures(cfg_data.cfgs@),
{
    let ghost cfgs = cfg_data.cfgs@;
    let mut out: Vec<(String, FunctionComplexity)> = Vec::new();
    let mut i: usize = 0;
    while i < cfg_data.cfgs.len()
        invariant
            cfgs == cfg_data.cfgs@,
            all_fit(cfgs),
            i <= cfgs.len(),
            figures(out@) == project_figures(cfgs.subrange(0, i as int)),
        decreases cfgs.len() - i,
    {
        let fname = &cfg_data.cfgs[i].0;
        let graphs = &cfg_data.cfgs[i].1;
        let ghost before = figures(out@);
        let ghost ff = file_figures(fname@, graphs@);
        let mut k: usize = 0;
        while k < graphs.len()
            invariant
                cfgs == cfg_data.cfgs@,
                all_fit(cfgs),
                i < cfgs.len(),
                *fname == cfgs[i as int].0,
                *graphs == cfgs[i as int].1,
                ff == file_figures(fname@, graphs@),
                k <= graphs@.len(),
                figures(out@) == before + ff.subrange(0, k as int),
            decreases graphs@.len() - k,
        {
            let g = &graphs[k];
            assert(sizes_fit(cfgs[i as int].1@[k as int]));
            let mut name = String::new();
            string_push_str(&mut name, fname.as_str());
            string_push_str(&mut name, "::");
            push_decimal(&mut name, g.entry);
            let fc = analyze_function_complexity(g, include_cognitive);
            let ghost out0 = figures(out@);
            out.push((name, fc));
            proof {
                assert(figures(out@) =~= out0.push(ff[k as int]));
                assert(ff.subrange(0, k as int + 1) =~= ff.subrange(0, k as int).push(ff[k as int]));
            }
            k += 1;
        }
        proof {
            assert(ff.subrange(0, k as int) =~= ff);
            assert(cfgs.subrange(0, i as int + 1).drop_last() =~= cfgs.subrange(0, i as int));
        }
        i += 1;
    }
    proof { assert(cfgs.subrange(0, i as int) =~= cfgs); }
    out
}

/// The complexity of every function of a project, summed up (see
/// `summarizes`): the graphs' figures in order, one entry per name.
pub fn analyze_complexity(cfg_data: &CFGResult, include_cognitive: bool) -> (r: ComplexityAnalysisResult)
    requires
        all_fit(cfg_data.cfgs@),
        cc_sum(merged(project_figures(cfg_data.cfgs@))) <= usize::MAX,
    ensures summarizes(r, project_figures(cfg_data.cfgs@)),
{
    let items = function_figures(cfg_data, include_cognitive);
    summarize(items)
}

} // verus!

verus! {

/// Every summed-up function falls in exactly one complexity class: the
/// class counts add up to the number of functions.
pub proof fn lemma_distribution_partitions(s: Seq<Figure>)
    ensures
        level_count(s, ComplexityLevel::Low) + level_count(s, ComplexityLevel::Moderate)
            + level_count(s, ComplexityLevel::High) + level_count(s, ComplexityLevel::VeryHigh) == s.len(),
    decreases s.len(),
{
    if s.len() > 0 {
        lemma_distribution_partitions(s.drop_last());
    }
}

/// The greatest complexity is at least that of every function, and, when
/// above zero, is that of the function it names.
pub proof fn lemma_running_max_bounds(s: Seq<Figure>)
    ensures
        forall|k: int| 0 <= k < s.len() ==> (#[trigger] s[k]).1 <= running_max(s).0,
        running_max(s).0 > 0 ==> exists|k: int| 0 <= k < s.len() && (#[trigger] s[k]).1 == running_max(s).0
            && s[k].0 == running_max(s).1,
    decreases s.len(),
{
    if s.len() > 0 {
        let t = s.drop_last();
        lemma_running_max_bounds(t);
        assert forall|k: int| 0 <= k < s.len() implies (#[trigger] s[k]).1 <= running_max(s).0 by {
            if k < t.len() {
                assert(s[k] == t[k]);
            }
        };
        if running_max(s).0 > 0 {
            if s.last().1 > running_max(t).0 {
                assert(s[s.len() - 1] == s.last());
            } else {
                let k = choose|k: int| 0 <= k < t.len() && (#[trigger] t[k]).1 == running_max(t).0 && t[k].0 == running_max(t).1;
                assert(s[k] == t[k]);
            }
        }
    }
}

/// Each name occurs once among the summed-up functions, and every
/// function's name occurs there.
pub proof fn lemma_merged_names(s: Seq<Figure>)
    ensures
        forall|a: int, b: int| 0 <= a < b < merged(s).len() ==> (#[trigger] merged(s)[a]).0 != (#[trigger] merged(s)[b]).0,
        forall|k: int| 0 <= k < s.len() ==> first_named(merged(s), (#[trigger] s[k]).0, 0) >= 0,
    decreases s.len(),
{
    if s.len() > 0 {
        let t = s.drop_last();
        let m = merged(t);
        let x = s.last();
        lemma_merged_names(t);
        lemma_first_named_range(m, x.0, 0);
        let p = first_named(m, x.0, 0);
        let ms = merged(s);
        assert forall|a: int, b: int| 0 <= a < b < ms.len() implies (#[trigger] ms[a]).0 != (#[trigger] ms[b]).0 by {
            if p >= 0 {
                assert(ms == m.update(p, x));
                assert(m[a].0 != m[b].0);
            } else {
                assert(ms == m.push(x));
                if b == m.len() {
                    assert(m[a].0 != x.0);
                } else {
                    assert(m[a].0 != m[b].0);
                }
            }
        };
        assert forall|k: int| 0 <= k < s.len() implies first_named(ms, (#[trigger] s[k]).0, 0) >= 0 by {
            let n = s[k].0;
            lemma_first_named_range(ms, n, 0);
            if k < t.len() {
                assert(t[k] == s[k]);
                lemma_first_named_range(m, n, 0);
                let q = first_named(m, n, 0);
                if p >= 0 && q == p {
                    assert(ms[q].0 == x.0);
                    assert(x.0 == m[p].0);
                } else {
                    assert(ms[q] == m[q]);
                }
            } else {
                if p >= 0 {
                    assert(ms[p].0 == n);
                } else {
                    assert(ms[m.len() as int].0 == n);
                }
            }
        };
    }
}

} // verus!
