use skan_uj_kod::ast::{File, Stmt};
use skan_uj_kod::branch_cov::helpers::{is_test_file, should_exclude_file};
use skan_uj_kod::branch_cov::instrumentation::{
    analyze_block_branch_info, collect_instrumentation, create_specific_condition, generate_branch_instrumentation,
    instrument_function,
};
use skan_uj_kod::branch_cov::{classify_branches, parse_branch_record};
use skan_uj_kod::cfg::{build_cfgs_for_file, BasicBlock, ControlFlowGraph};
use skan_uj_kod::cfg_plugin;
use skan_uj_kod::cfg_plugin::export::{combined_dot, sanitize_function_name, CFGResult};
use skan_uj_kod::complexity::helpers::ComplexityLevel as HelperLevel;
use skan_uj_kod::complexity::analyzer::ComplexityOptions;
use skan_uj_kod::complexity::{analyze_function_complexity, calculate_cognitive_complexity, ComplexityLevel};
use skan_uj_kod::errors::ErrorList;
use skan_uj_kod::export::{sanitize, to_dot};
use skan_uj_kod::parser::parse_file;
use skan_uj_kod::position::FileSet;
use skan_uj_kod::project::{keep_file, parse_file_result, parse_sources, ParseOptions};
use skan_uj_kod::scope::{AstObjects, Scope};
use skan_uj_kod::token::Token;
use std::collections::HashSet;
use std::path::PathBuf;

fn parse(src: &str) -> (FileSet, AstObjects, File) {
    let mut fset = FileSet::new();
    let mut objs = AstObjects::new();
    let mut errs = ErrorList::new();
    let file = parse_file(&mut objs, &mut fset, &mut errs, "main.go", src, false).expect("parse failed");
    (fset, objs, file)
}

fn graph_of(src: &str, name: &str) -> (FileSet, ControlFlowGraph) {
    let (fset, objs, file) = parse(src);
    let cfgs = build_cfgs_for_file(&fset, &objs, &file);
    let g = cfgs.get(name).expect("function not found").clone();
    (fset, g)
}

const IF_ELSE: &str = "package main\n\nfunc Sign(x int) int {\n\tif x > 0 {\n\t\treturn 1\n\t} else {\n\t\treturn -1\n\t}\n}\n";

#[test]
fn keywords_read_back_as_themselves() {
    for t in [Token::BREAK, Token::FUNC, Token::VAR, Token::FALLTHROUGH, Token::RANGE] {
        let text = t.text().to_string();
        assert_eq!(Token::ident_token(text), t);
    }
    assert!(matches!(Token::ident_token("funky".to_string()), Token::IDENT(_)));
}

#[test]
fn scope_gives_back_what_was_declared() {
    let mut s = Scope::new(None);
    assert_eq!(s.insert("x".to_string(), 3), None);
    assert_eq!(s.insert("y".to_string(), 4), None);
    assert_eq!(s.look_up(&"x".to_string()), Some(3));
    assert_eq!(s.insert("x".to_string(), 5), Some(3));
    assert_eq!(s.look_up(&"x".to_string()), Some(5));
    assert_eq!(s.look_up(&"y".to_string()), Some(4));
    assert_eq!(s.look_up(&"z".to_string()), None);
}

#[test]
fn errors_sort_by_position_keeping_order_of_ties() {
    let mut errs = ErrorList::new();
    let at = |offset: usize| skan_uj_kod::position::FilePos {
        filename: "a.go".to_string(),
        offset,
        line: 1,
        column: offset + 1,
    };
    errs.add(Some(at(9)), "late".to_string(), false, true);
    errs.add(Some(at(2)), "early".to_string(), false, true);
    errs.add(Some(at(9)), "late again".to_string(), false, true);
    errs.sort();
    let msgs: Vec<String> = errs.borrow().iter().map(|e| e.msg.clone()).collect();
    assert_eq!(msgs, vec!["early", "late", "late again"]);
}

#[test]
fn a_syntax_error_gives_no_file() {
    let mut fset = FileSet::new();
    let mut objs = AstObjects::new();
    let mut errs = ErrorList::new();
    let file = parse_file(&mut objs, &mut fset, &mut errs, "bad.go", "package main\nfunc (\n", false);
    assert!(file.is_none());
    assert!(errs.len() > 0);
}

#[test]
fn complexity_of_a_straight_function_is_one() {
    let (_, g) = graph_of("package main\n\nfunc F() int {\n\tx := 10\n\treturn x\n}\n", "F");
    let c = analyze_function_complexity(&g, true);
    assert_eq!(c.cyclomatic_complexity, 1);
    assert_eq!(c.complexity_level, ComplexityLevel::Low);
    assert_eq!(c.lines_of_code, 2);
    assert!(c.decision_points.is_empty());
    assert_eq!(c.cognitive_complexity, 0);
    assert_eq!(c.nesting_depth_max, 0);
}

#[test]
fn an_if_adds_a_decision() {
    let (_, g) = graph_of(IF_ELSE, "Sign");
    let edges: usize = g.blocks.values().map(|b| b.succs.len()).sum();
    let c = analyze_function_complexity(&g, true);
    assert_eq!(c.cyclomatic_complexity, edges + 2 - g.blocks.len());
    assert_eq!(c.cyclomatic_complexity, 2);
    assert_eq!(c.decision_points.len(), 1);
    assert_eq!(c.decision_points[0].stmt_type, "if");
    assert_eq!(c.cognitive_complexity, 1);
    assert_eq!(c.nesting_depth_max, 1);
    let without = analyze_function_complexity(&g, false);
    assert_eq!(without.cognitive_complexity, 0);
    assert_eq!(without.nesting_depth_max, 0);
}

#[test]
fn complexity_levels_follow_their_bounds() {
    assert_eq!(ComplexityLevel::from_complexity(0), ComplexityLevel::VeryHigh);
    assert_eq!(ComplexityLevel::from_complexity(5), ComplexityLevel::Low);
    assert_eq!(ComplexityLevel::from_complexity(6), ComplexityLevel::Moderate);
    assert_eq!(ComplexityLevel::from_complexity(20), ComplexityLevel::High);
    assert_eq!(ComplexityLevel::from_complexity(21), ComplexityLevel::VeryHigh);
    assert_eq!(HelperLevel::from_complexity(1), HelperLevel::Low);
    assert_eq!(HelperLevel::from_complexity(10), HelperLevel::Medium);
    assert_eq!(HelperLevel::from_complexity(11), HelperLevel::High);
    assert_eq!(HelperLevel::from_complexity(100), HelperLevel::VeryHigh);
    let o = ComplexityOptions::default();
    assert!(!o.verbose && o.include_cognitive && !o.fail_on_high_complexity);
    assert_eq!(o.max_allowed_complexity, 10);
}

#[test]
fn cognitive_score_grows_with_nesting() {
    let (_, g) = graph_of(IF_ELSE, "Sign");
    let if_stmt = g
        .blocks
        .values()
        .flat_map(|b| b.stmts.iter())
        .find(|s| matches!(s.stmt, Stmt::If(_)))
        .unwrap()
        .stmt
        .clone();
    assert_eq!(calculate_cognitive_complexity(&if_stmt, 0), (1, 1));
    assert_eq!(calculate_cognitive_complexity(&if_stmt, 2), (3, 3));
}

#[test]
fn dot_text_of_an_empty_function() {
    let (_, g) = graph_of("package main\n\nfunc Empty() {\n}\n", "Empty");
    let text = to_dot(&g, "Empty-fn");
    assert_eq!(
        text,
        "digraph Empty_fn {\n  rankdir=TB;\n  node [shape=box, style=rounded, fontsize=10];\n  splines=true;\n  \
         ranksep=1.0;\n  nodesep=1.0;\n  concentrate=false;\n  n0 [label=\"entry\"];\n  n0 -> n1;\n  \
         n1 [label=\"exit\"];\n}\n"
    );
}

#[test]
fn names_are_made_dot_safe() {
    assert_eq!(sanitize("a-b c_d"), "a_b_c_d");
    assert_eq!(sanitize_function_name("9lives"), "_9lives");
    assert_eq!(sanitize_function_name("-x"), "_x");
    assert_eq!(sanitize_function_name("a.b"), "a_b");
    assert_eq!(sanitize_function_name(""), "unnamed");
    assert_eq!(sanitize_function_name("Main_1"), "Main_1");
}

#[test]
fn plugin_graphs_export_as_clusters() {
    let (fset, objs, file) = parse("package main\n\nfunc Empty() {\n}\n");
    let cfgs = cfg_plugin::build_cfgs_for_file(&fset, &objs, &file);
    let g = cfgs["Empty"].clone();
    let body = cfg_plugin::export::to_dot(&g);
    assert_eq!(body, "    n0 [label=\"entry\"];\n    n0 -> n1;\n    n1 [label=\"exit\"];\n");
    let all = combined_dot(&CFGResult { cfgs: vec![("main.go::Empty".to_string(), vec![g])] });
    assert_eq!(
        all,
        format!(
            "digraph G {{\n  subgraph cluster_main_go_Empty_0 {{\n    label=\"main.go::Empty\";\n{}  }}\n}}\n",
            body
        )
    );
}

#[test]
fn branches_are_found_per_successor() {
    let (fset, g) = graph_of(IF_ELSE, "Sign");
    let fi = instrument_function("Sign", &g, &fset);
    assert_eq!(fi.function_name, "Sign");
    assert_eq!(fi.file_path, "main.go");
    let (id, block) = g.blocks.iter().find(|(_, b)| b.succs.len() > 1).unwrap();
    assert_eq!(fi.branches.len(), block.succs.len());
    assert_eq!(fi.branches[0].branch_id, format!("Sign:{}:0", id));
    assert_eq!(fi.branches[1].branch_id, format!("Sign:{}:1", id));
    assert_eq!(fi.branches[0].branch_type, "if");
    assert_eq!(fi.branches[0].condition, "if_condition (true)");
    assert_eq!(fi.branches[1].condition, "if_condition (false)");
    assert_eq!(fi.branches[0].line, 4);
    assert_eq!(fi.instrumentation_points[0].column, 2);
    assert_eq!(fi.branches[0].instrumentation_code, format!("fmt.Printf(\"BRANCH_COV:Sign:{}:0\\n\")", id));
    let data = collect_instrumentation(&vec![("Sign".to_string(), g.clone())], &fset);
    assert_eq!(data.total_branches, 2);
    assert!(data.instrumented_functions.contains_key("Sign"));
    assert_eq!(data.branch_mapping[&format!("Sign:{}:1", id)].function_name, "Sign");
}

#[test]
fn branch_descriptions() {
    assert_eq!(create_specific_condition("switch", "switch_expression", 2), "switch_expression (case 2)");
    assert_eq!(create_specific_condition("select", "channel_operations", 0), "channel_operations (channel 0)");
    assert_eq!(create_specific_condition("for", "for_condition", 0), "for_condition (path 0)");
    assert_eq!(create_specific_condition("for", "for_condition", 1), "for_condition (alternative 1)");
    assert_eq!(generate_branch_instrumentation("f:3:1"), "fmt.Printf(\"BRANCH_COV:f:3:1\\n\")");
    let bare = BasicBlock { id: 7, stmts: Vec::new(), succs: vec![1, 2, 3], start_line: 0, end_line: 0 };
    assert_eq!(analyze_block_branch_info(&bare), ("multi_way".to_string(), "switch_or_select".to_string()));
    let two = BasicBlock { id: 7, stmts: Vec::new(), succs: vec![1, 2], start_line: 0, end_line: 0 };
    assert_eq!(analyze_block_branch_info(&two), ("conditional".to_string(), "binary_branch".to_string()));
}

#[test]
fn coverage_records_are_read_and_counted() {
    assert_eq!(parse_branch_record("BRANCH_COV: f:3:0 \t"), Some("f:3:0".to_string()));
    assert_eq!(parse_branch_record("ok  \tmain 0.01s"), None);
    let (fset, g) = graph_of(IF_ELSE, "Sign");
    let fi = instrument_function("Sign", &g, &fset);
    let mut covered = HashSet::new();
    covered.insert(fi.branches[0].branch_id.clone());
    let (infos, uncovered) = classify_branches(&fi, &covered);
    assert_eq!(infos.len(), 2);
    assert!(infos[0].is_covered);
    assert!(!infos[1].is_covered);
    assert_eq!(uncovered.len(), 1);
    assert_eq!(uncovered[0].branch_id, fi.branches[1].branch_id);
    assert_eq!(uncovered[0].file_path, "main.go");
}

#[test]
fn test_files_and_exclusions() {
    assert!(is_test_file("pkg/a_test.go"));
    assert!(!is_test_file("pkg/a.go"));
    let patterns = vec!["*_test.go".to_string(), "vendor/*".to_string()];
    assert!(should_exclude_file("vendor/lib/x.go", &patterns));
    assert!(!should_exclude_file("cmd/main.go", &patterns));
    assert!(should_exclude_file("anything", &vec!["**".to_string()]));
    let opts = ParseOptions { exclude_patterns: patterns.clone(), include_test_files: false };
    assert!(!keep_file("a_test.go", "src/a_test.go", &opts));
    assert!(!keep_file("x.go", "vendor/x.go", &opts));
    assert!(keep_file("main.go", "src/main.go", &opts));
    let with_tests = ParseOptions { exclude_patterns: patterns, include_test_files: true };
    assert!(keep_file("a_test.go", "src/a_test.go", &with_tests));
    assert!(keep_file("b.go", "b.go", &ParseOptions::default()));
}

#[test]
fn sources_are_parsed_in_order_and_graphs_collected() {
    let (project, errs) = parse_sources(vec![
        (PathBuf::from("a.go"), "a.go".to_string(), "package main\n\nfunc A() {\n}\n".to_string()),
        (PathBuf::from("bad.go"), "bad.go".to_string(), "package main\nfunc (\n".to_string()),
        (PathBuf::from("b.go"), "b.go".to_string(), "package main\n\nfunc B() {\n}\nfunc C() {\n}\n".to_string()),
    ]);
    assert_eq!(project.files.len(), 2);
    assert!(errs.len() > 0);
    let all = cfg_plugin::collect_cfgs(&project, None);
    let names: Vec<String> = all.cfgs.iter().map(|(n, _)| n.clone()).collect();
    assert_eq!(names, vec!["a.go::A", "b.go::B", "b.go::C"]);
    let only = cfg_plugin::collect_cfgs(&project, Some("C"));
    assert_eq!(only.cfgs.len(), 1);
    assert_eq!(only.cfgs[0].0, "b.go::C");
    assert!(parse_file_result("x.go", "package main\n").is_some());
    assert!(parse_file_result("x.go", "package\n").is_none());
}

#[test]
fn every_function_of_a_file_gets_a_verified_graph() {
    let src = "package main\n\nfunc A(n int) int {\n\tfor i := 0; i < n; i++ {\n\t\tif i == 2 {\n\t\t\tbreak\n\t\t}\n\t}\n\treturn n\n}\n\nfunc B() {\n}\n";
    let (fset, objs, file) = parse(src);
    let cfgs = build_cfgs_for_file(&fset, &objs, &file);
    let mut names: Vec<&String> = cfgs.keys().collect();
    names.sort();
    assert_eq!(names, vec!["A", "B"]);
    let g = &cfgs["A"];
    let mut seen = HashSet::new();
    let mut stack = vec![g.entry];
    while let Some(id) = stack.pop() {
        if seen.insert(id) {
            for s in &g.blocks[&id].succs {
                stack.push(*s);
            }
        }
    }
    assert_eq!(seen.len(), g.blocks.len());
}

#[test]
fn identifiers_end_after_their_characters() {
    use_ident_end();
}

fn use_ident_end() {
    let a = skan_uj_kod::ast::Ident::with_str(10, "abc");
    assert_eq!(a.end(), 13);
    let b = skan_uj_kod::ast::Ident::with_str(10, "π");
    assert_eq!(b.end(), 11);
}

#[test]
fn dot_names_keep_to_ascii() {
    assert_eq!(sanitize_function_name("π"), "_");
    assert_eq!(sanitize_function_name("aπb"), "a_b");
    assert_eq!(sanitize_function_name("1abc"), "_1abc");
    assert_eq!(sanitize_function_name("a-b"), "a_b");
}
