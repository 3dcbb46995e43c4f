use skan_uj_kod::branch_cov::instrumentation::{FunctionInstrumentation, InstrumentedBranch};
use skan_uj_kod::branch_cov::rewrite::{
    add_branch_specific_tracking, add_instrumentation_to_file, add_simplified_branch_tracking, join_with_newlines,
    lines_of, parse_usize_or_zero, replaced, tracking_is_defined, try_add_instrumentation_to_file,
};
use skan_uj_kod::kernel::{dependency_graph, dfs, topo_order};

fn chars(s: &str) -> Vec<char> {
    s.chars().collect()
}

fn branch(id: &str, line: usize, kind: &str) -> InstrumentedBranch {
    InstrumentedBranch {
        branch_id: id.to_string(),
        line,
        branch_type: kind.to_string(),
        condition: String::new(),
        instrumentation_code: String::new(),
    }
}

fn instrumentation(branches: Vec<InstrumentedBranch>) -> FunctionInstrumentation {
    FunctionInstrumentation {
        function_name: "f".to_string(),
        file_path: "main.go".to_string(),
        branches,
        instrumentation_points: Vec::new(),
    }
}

#[test]
fn lines_split_like_str_lines() {
    let ls = lines_of(&chars("a\nbb\r\n\nc\n"));
    let got: Vec<String> = ls.iter().map(|l| l.iter().collect()).collect();
    let want: Vec<String> = "a\nbb\r\n\nc\n".lines().map(|s| s.to_string()).collect();
    assert_eq!(got, want);
    assert!(lines_of(&chars("")).is_empty());
}

#[test]
fn join_puts_newlines_between() {
    let ls = vec![chars("x"), chars(""), chars("yz")];
    assert_eq!(join_with_newlines(&ls), "x\n\nyz");
    assert_eq!(join_with_newlines(&Vec::new()), "");
}

#[test]
fn replaced_swaps_every_occurrence() {
    let r: String = replaced(&chars("aXbXXc"), &chars("X"), &chars("--")).iter().collect();
    assert_eq!(r, "a--b----c");
    let r: String = replaced(&chars("no match"), &chars("zz"), &chars("y")).iter().collect();
    assert_eq!(r, "no match");
}

#[test]
fn parse_usize_reads_digits_or_zero() {
    assert_eq!(parse_usize_or_zero(&chars("42")), 42);
    assert_eq!(parse_usize_or_zero(&chars("+7")), 7);
    assert_eq!(parse_usize_or_zero(&chars("")), 0);
    assert_eq!(parse_usize_or_zero(&chars("4a")), 0);
    assert_eq!(parse_usize_or_zero(&chars("-1")), 0);
}

#[test]
fn tracking_after_if_line() {
    let src = "package main\nfunc f(x int) {\n\tif x > 0 {\n\t\tx++\n\t} else {\n\t\tx--\n\t}\n}";
    let r = add_branch_specific_tracking(src, "f", "if", 3, 0, "f:3:0");
    assert_eq!(
        r,
        "package main\nfunc f(x int) {\n\tif x > 0 {\n    fmt.Printf(\"BRANCH_COV:f:3:0\\n\")\n\t\tx++\n\t} else {\n\t\tx--\n\t}\n}"
    );
    let r = add_branch_specific_tracking(src, "f", "if", 3, 1, "f:3:1");
    assert_eq!(
        r,
        "package main\nfunc f(x int) {\n\tif x > 0 {\n\t\tx++\n\t} else {\n    fmt.Printf(\"BRANCH_COV:f:3:1\\n\")\n\t\tx--\n\t}\n}"
    );
}

#[test]
fn tracking_outside_function_is_unchanged() {
    let src = "package main\nfunc g() {\n\tif true {\n\t}\n}";
    let r = add_branch_specific_tracking(src, "f", "if", 3, 0, "f:3:0");
    assert_eq!(r, src);
}

#[test]
fn instrumentation_adds_fmt_import_and_tracking() {
    let src = "package main\n\nfunc f(x int) {\n\tfor i := 0; i < x; i++ {\n\t}\n}";
    // the import moves the loop from line 4 to line 6
    let ins = instrumentation(vec![branch("f:6:0", 6, "for")]);
    let r = add_instrumentation_to_file(src, &ins);
    assert_eq!(
        r,
        "package main\n\nimport \"fmt\"\n\nfunc f(x int) {\n\tfor i := 0; i < x; i++ {\n    fmt.Printf(\"BRANCH_COV:f:6:0\\n\")\n\t}\n}"
    );
}

#[test]
fn instrumentation_extends_import_list() {
    let src = "package main\n\nimport (\n\t\"os\"\n)\n";
    let ins = instrumentation(Vec::new());
    let r = add_instrumentation_to_file(src, &ins);
    assert_eq!(r, "package main\n\nimport (\n\t\"fmt\"\n\t\"os\"\n)\n");
}

#[test]
fn instrumented_file_is_left_alone() {
    let src = "package main\n// BRANCH_COV: already\n";
    let ins = instrumentation(vec![branch("f:1:0", 1, "if")]);
    assert_eq!(add_instrumentation_to_file(src, &ins), src);
}

#[test]
fn simplified_tracking_skips_short_ids() {
    let src = "package main\nfunc f() {\n\tif true {\n\t}\n}";
    let ins = instrumentation(vec![branch("bad", 3, "if")]);
    assert_eq!(add_simplified_branch_tracking(src, &ins), src);
}

#[test]
fn topo_order_lists_each_node_once() {
    let adj: Vec<Vec<usize>> = vec![vec![1, 2], vec![2], vec![], vec![0]];
    let r = topo_order(&adj);
    assert_eq!(r, vec![3, 0, 1, 2]);
    let mut seen = r.clone();
    seen.sort();
    assert_eq!(seen, vec![0, 1, 2, 3]);
}

#[test]
fn topo_order_puts_dependencies_first() {
    let adj: Vec<Vec<usize>> = vec![vec![], vec![0], vec![1]];
    let r = topo_order(&adj);
    assert_eq!(r, vec![2, 1, 0]);
    assert!(topo_order(&Vec::new()).is_empty());
}

#[test]
fn dfs_finishes_reachable_nodes() {
    let adj: Vec<Vec<usize>> = vec![vec![1], vec![2], vec![], vec![]];
    let mut vis = vec![false; 4];
    let mut order = Vec::new();
    dfs(0, &adj, &mut vis, &mut order);
    assert_eq!(order, vec![2, 1, 0]);
    assert_eq!(vis, vec![true, true, true, false]);
}

#[test]
fn dependency_graph_points_from_dependency_to_dependent() {
    // function 0 depends on 2, function 1 on 0 and 2, function 2 on nothing
    let deps: Vec<Vec<usize>> = vec![vec![2], vec![0, 2], vec![]];
    let adj = dependency_graph(&deps);
    assert_eq!(adj, vec![vec![1], vec![], vec![0, 1]]);
    let order = topo_order(&adj);
    assert_eq!(order, vec![2, 0, 1]);
}

#[test]
fn dependency_graph_keeps_repeated_dependencies() {
    let deps: Vec<Vec<usize>> = vec![vec![1, 1], vec![]];
    assert_eq!(dependency_graph(&deps), vec![vec![], vec![0, 0]]);
}

#[test]
fn a_switch_near_the_top_is_undefined() {
    let src = "package main\nfunc f(x int) {\n\tswitch x {\n\tcase 1:\n\t}\n}";
    assert!(!tracking_is_defined(src, "f", "switch", 3, 0));
    assert!(tracking_is_defined(src, "f", "switch", 5, 0));
    assert!(tracking_is_defined(src, "g", "switch", 3, 0));
    let ins = instrumentation(vec![branch("f:3:0", 3, "switch")]);
    assert_eq!(try_add_instrumentation_to_file("package main\nimport \"fmt\"\nfunc f(x int) {\n\tswitch x {\n\tcase 1:\n\t}\n}", &ins), None);
}

#[test]
fn try_instrumentation_matches_when_defined() {
    let src = "package main\n\nimport (\n\t\"os\"\n)\n";
    let ins = instrumentation(Vec::new());
    assert_eq!(try_add_instrumentation_to_file(src, &ins), Some(add_instrumentation_to_file(src, &ins)));
}
