use skan_uj_kod::complexity::report_result;
use skan_uj_kod::project::{count_funcs, parse_sources};
use std::path::PathBuf;
use skan_uj_kod::ast::File;
use skan_uj_kod::branch_cov::coverage::{calculate_branch_coverage, function_coverage};
use skan_uj_kod::branch_cov::instrumentation::instrument_function;
use skan_uj_kod::cfg::{build_cfgs_for_file, ControlFlowGraph};
use skan_uj_kod::complexity::summary::{analyze_complexity, function_figures, summarize};
use skan_uj_kod::complexity::{analyze_function_complexity, CFGResult, ComplexityLevel};
use skan_uj_kod::errors::ErrorList;
use skan_uj_kod::parser::parse_file;
use skan_uj_kod::position::FileSet;
use skan_uj_kod::scope::AstObjects;
use std::collections::HashSet;

fn parse(src: &str) -> (FileSet, AstObjects, File) {
    let mut fset = FileSet::new();
    let mut objs = AstObjects::new();
    let mut errs = ErrorList::new();
    let file = parse_file(&mut objs, &mut fset, &mut errs, "main.go", src, false).expect("parse failed");
    (fset, objs, file)
}

fn graph_of(src: &str, name: &str) -> (FileSet, ControlFlowGraph) {
    let (fset, objs, file) = parse(src);
    let cfgs = build_cfgs_for_file(&fset, &objs, &file);
    let g = cfgs.get(name).expect("function not found").clone();
    (fset, g)
}

const IF_ELSE: &str = "package main\n\nfunc Sign(x int) int {\n\tif x > 0 {\n\t\treturn 1\n\t} else {\n\t\treturn -1\n\t}\n}\n";
const STRAIGHT: &str = "package main\n\nfunc F() int {\n\tx := 10\n\treturn x\n}\n";

#[test]
fn figures_are_named_by_file_and_entry() {
    let (_, a) = graph_of(STRAIGHT, "F");
    let (_, b) = graph_of(IF_ELSE, "Sign");
    let data = CFGResult { cfgs: vec![("a.go".to_string(), vec![a]), ("b.go".to_string(), vec![b])] };
    let figs = function_figures(&data, true);
    assert_eq!(figs.len(), 2);
    assert_eq!(figs[0].0, "a.go::0");
    assert_eq!(figs[0].1.cyclomatic_complexity, 1);
    assert_eq!(figs[1].0, "b.go::0");
    assert_eq!(figs[1].1.cyclomatic_complexity, 2);
}

#[test]
fn summary_counts_classes_and_finds_the_maximum() {
    let (_, a) = graph_of(STRAIGHT, "F");
    let (_, b) = graph_of(IF_ELSE, "Sign");
    let data = CFGResult { cfgs: vec![("a.go".to_string(), vec![a]), ("b.go".to_string(), vec![b])] };
    let r = analyze_complexity(&data, true);
    assert_eq!(r.total_functions, 2);
    assert_eq!(r.total_complexity, 3);
    assert_eq!(r.max_complexity, 2);
    assert_eq!(r.max_complexity_function, "b.go::0");
    assert_eq!(r.complexity_distribution.low, 2);
    assert_eq!(r.complexity_distribution.moderate, 0);
    assert_eq!(r.complexity_distribution.high, 0);
    assert_eq!(r.complexity_distribution.very_high, 0);
}

#[test]
fn a_later_function_of_the_same_name_replaces_the_earlier() {
    let (_, a) = graph_of(IF_ELSE, "Sign");
    let (_, b) = graph_of(STRAIGHT, "F");
    // both graphs start at block 0 of the same file, so both are "m.go::0"
    let data = CFGResult { cfgs: vec![("m.go".to_string(), vec![a, b])] };
    let r = analyze_complexity(&data, false);
    assert_eq!(r.total_functions, 1);
    assert_eq!(r.functions[0].0, "m.go::0");
    assert_eq!(r.functions[0].1.cyclomatic_complexity, 1);
    assert_eq!(r.total_complexity, 1);
    // the maximum is taken over every graph, the replaced one too
    assert_eq!(r.max_complexity, 2);
    assert_eq!(r.max_complexity_function, "m.go::0");
}

#[test]
fn empty_project_summary() {
    let r = summarize(Vec::new());
    assert_eq!(r.total_functions, 0);
    assert_eq!(r.total_complexity, 0);
    assert_eq!(r.max_complexity, 0);
    assert_eq!(r.max_complexity_function, "");
    let (_, g) = graph_of(STRAIGHT, "F");
    let r = summarize(vec![("x".to_string(), analyze_function_complexity(&g, true))]);
    assert_eq!(r.functions[0].1.complexity_level, ComplexityLevel::Low);
}

#[test]
fn coverage_of_functions_and_project() {
    let (fset, g) = graph_of(IF_ELSE, "Sign");
    let fi = instrument_function("Sign", &g, &fset);
    let mut covered = HashSet::new();
    covered.insert(fi.branches[1].branch_id.clone());
    let fc = function_coverage(&"Sign".to_string(), &fi, &covered);
    assert_eq!(fc.total_branches, 2);
    assert_eq!(fc.covered_branches, 1);
    assert_eq!(fc.uncovered_branches.len(), 1);
    assert_eq!(fc.uncovered_branches[0].branch_id, fi.branches[0].branch_id);
    let functions = vec![("Sign".to_string(), fi.clone()), ("Other".to_string(), fi.clone())];
    let p = calculate_branch_coverage(&functions, &covered, Some("out".to_string()));
    assert_eq!(p.functions.len(), 2);
    assert_eq!(p.total_branches, 4);
    assert_eq!(p.covered_branches, 2);
    assert_eq!(p.uncovered_branches.len(), 2);
    assert_eq!(p.files_analyzed, vec!["main.go".to_string()]);
    assert_eq!(p.test_output, Some("out".to_string()));
}

#[test]
fn no_branches_no_coverage_counts() {
    let p = calculate_branch_coverage(&Vec::new(), &HashSet::new(), None);
    assert_eq!(p.total_branches, 0);
    assert_eq!(p.covered_branches, 0);
    assert!(p.files_analyzed.is_empty());
}

#[test]
fn report_paths_follow_the_format() {
    let r = report_result("./reports", "csv");
    assert_eq!(r.report_path, "./reports/complexity_report.csv");
    assert_eq!(r.format, "csv");
    assert_eq!(report_result("out", "html").report_path, "out/complexity_report.html");
    assert_eq!(report_result("out", "yaml").report_path, "out/complexity_report.json");
}

#[test]
fn functions_are_counted_over_files() {
    let sources = vec![
        (PathBuf::from("a.go"), "a.go".to_string(), "package main\nvar x = 1\nfunc A() {}\nfunc B() {}\n".to_string()),
        (PathBuf::from("b.go"), "b.go".to_string(), "package main\nfunc C() {}\n".to_string()),
    ];
    let (project, _) = parse_sources(sources);
    assert_eq!(count_funcs(&project.files), 3);
}
