#[test]
fn test_complexity_levels() {
    // Test complexity level classification
    struct TestCase {
        complexity: i32,
        expected_level: &'static str,
    }

    let test_cases = vec![
        TestCase { complexity: 1, expected_level: "Low" },
        TestCase { complexity: 5, expected_level: "Low" },
        TestCase { complexity: 10, expected_level: "Low" },
        TestCase { complexity: 11, expected_level: "Moderate" },
        TestCase { complexity: 15, expected_level: "Moderate" },
        TestCase { complexity: 20, expected_level: "Moderate" },
        TestCase { complexity: 21, expected_level: "High" },
        TestCase { complexity: 30, expected_level: "High" },
        TestCase { complexity: 31, expected_level: "Very High" },
        TestCase { complexity: 50, expected_level: "Very High" },
    ];

    for test_case in test_cases {
        let level = match test_case.complexity {
            1..=10 => "Low",
            11..=20 => "Moderate", 
            21..=30 => "High",
            _ => "Very High",
        };
        assert_eq!(level, test_case.expected_level);
    }
}

#[test]
fn test_complexity_options() {
    // Test different complexity analysis options
    let include_test_files = false;
    let max_complexity_threshold = 10;
    let exclude_patterns = vec!["*_test.go".to_string(), "vendor/*".to_string()];

    assert!(!include_test_files);
    assert_eq!(max_complexity_threshold, 10);
    assert_eq!(exclude_patterns.len(), 2);
    assert!(exclude_patterns.contains(&"*_test.go".to_string()));
    assert!(exclude_patterns.contains(&"vendor/*".to_string()));
}
