use skan_uj_kod::branch_cov::UncoveredBranch;
use std::collections::HashMap;

#[test]
fn test_uncovered_branch() {
    let uncovered = UncoveredBranch {
        branch_id: "test_func:2:1".to_string(),
        line: 15,
        branch_type: "else".to_string(),
        condition: "x <= 0".to_string(),
        file_path: "main.go".to_string(),
    };

    assert_eq!(uncovered.branch_id, "test_func:2:1");
    assert_eq!(uncovered.line, 15);
    assert_eq!(uncovered.branch_type, "else");
    assert_eq!(uncovered.condition, "x <= 0");
    assert_eq!(uncovered.file_path, "main.go");
}

#[test]
fn branch_cov_tests_test_branch_coverage_options() {
    // Test default branch coverage options
    let min_threshold = 80.0;
    let verbose = false;
    let include_test_files = false;
    let fail_on_low_coverage = false;
    let exclude_patterns = vec!["*_test.go".to_string(), "vendor/*".to_string()];

    assert_eq!(min_threshold, 80.0);
    assert!(!verbose);
    assert!(!include_test_files);
    assert!(!fail_on_low_coverage);
    assert_eq!(exclude_patterns.len(), 2);
}

#[test]
fn test_branch_info_structure() {
    // Test branch info data structure
    let branch_id = "test_func:1:0".to_string();
    let line = 10;
    let branch_type = "if".to_string();
    let condition = "x > 0".to_string();
    let is_covered = true;

    assert_eq!(branch_id, "test_func:1:0");
    assert_eq!(line, 10);
    assert_eq!(branch_type, "if");
    assert_eq!(condition, "x > 0");
    assert!(is_covered);
}

#[test]
fn test_project_branch_coverage_structure() {
    let mut functions = HashMap::new();
    
    let function_coverage = (
        4,  // total_branches
        3,  // covered_branches
        75.0,  // coverage_percentage
        "test_func".to_string(),  // function_name
        "main.go".to_string(),  // file_path
    );

    functions.insert("test_func".to_string(), function_coverage);

    let total_branches = 4;
    let covered_branches = 3;
    let overall_coverage_percentage = 75.0;
    let files_analyzed = vec!["main.go".to_string()];

    assert_eq!(total_branches, 4);
    assert_eq!(covered_branches, 3);
    assert_eq!(overall_coverage_percentage, 75.0);
    assert_eq!(files_analyzed.len(), 1);
}

#[test]
fn test_uncovered_branch_structure() {
    let branch_id = "test_func:2:1".to_string();
    let line = 15;
    let branch_type = "else".to_string();
    let condition = "x <= 0".to_string();
    let file_path = "main.go".to_string();

    assert_eq!(branch_id, "test_func:2:1");
    assert_eq!(line, 15);
    assert_eq!(branch_type, "else");
    assert_eq!(condition, "x <= 0");
    assert_eq!(file_path, "main.go");
}

#[test]
fn test_branch_coverage_calculation() {
    let total_branches = 10;
    let covered_branches = 7;
    let expected_percentage = 70.0;
    
    let actual_percentage = (covered_branches as f64 / total_branches as f64) * 100.0;
    
    assert_eq!(actual_percentage, expected_percentage);
    assert!(actual_percentage >= 0.0);
    assert!(actual_percentage <= 100.0);
}

#[test]
fn test_branch_coverage_edge_cases() {
    // Test edge case: no branches
    let total_branches = 0;
    let covered_branches = 0;
    
    if total_branches == 0 {
        // Should handle division by zero
        assert_eq!(covered_branches, 0);
    }

    // Test edge case: 100% coverage
    let total_branches = 5;
    let covered_branches = 5;
    let percentage = (covered_branches as f64 / total_branches as f64) * 100.0;
    
    assert_eq!(percentage, 100.0);

    // Test edge case: 0% coverage
    let total_branches = 5;
    let covered_branches = 0;
    let percentage = (covered_branches as f64 / total_branches as f64) * 100.0;
    
    assert_eq!(percentage, 0.0);
}

#[test]
fn test_file_path_handling() {
    let file_paths = vec![
        "main.go".to_string(),
        "src/utils.go".to_string(),
        "pkg/handler.go".to_string(),
    ];

    for path in &file_paths {
        assert!(path.ends_with(".go"));
        assert!(!path.is_empty());
    }

    assert_eq!(file_paths.len(), 3);
}

#[test]
fn test_branch_type_validation() {
    let valid_branch_types = vec![
        "if".to_string(),
        "else".to_string(),
        "else if".to_string(),
        "for".to_string(),
        "switch".to_string(),
        "case".to_string(),
        "default".to_string(),
    ];

    for branch_type in &valid_branch_types {
        assert!(!branch_type.is_empty());
        assert!(branch_type.len() > 0);
    }

    assert_eq!(valid_branch_types.len(), 7);
}

#[test]
fn test_coverage_threshold_validation() {
    let valid_thresholds = vec![0.0, 25.0, 50.0, 75.0, 80.0, 90.0, 100.0];
    
    for threshold in &valid_thresholds {
        assert!(*threshold >= 0.0);
        assert!(*threshold <= 100.0);
    }

    // Test invalid thresholds
    let invalid_thresholds = vec![-1.0, 101.0, 150.0];
    
    for threshold in &invalid_thresholds {
        assert!(*threshold < 0.0 || *threshold > 100.0);
    }
}
