use repo_agents::feature::{Complexity, FeatureSpec, FeatureType};
use repo_agents::implementer::{
    generate_basic_test, generate_implementation_code, generate_test_code, generate_tests,
    sanitize_name,
};

#[test]
fn test_sanitize_name() {
    assert_eq!(sanitize_name("Add User Login"), "add_user_login");
    assert_eq!(sanitize_name("API Endpoint"), "api_endpoint");
    assert_eq!(sanitize_name("  spaces  "), "spaces");
}

#[test]
fn test_generate_tests_with_criteria() {
    let spec = FeatureSpec {
        description: "Test feature".to_string(),
        feature_type: FeatureType::NewFunction,
        complexity: Complexity::Simple,
        affected_files: vec![],
        dependencies: vec![],
        acceptance_criteria: vec!["Must work".to_string(), "Must be fast".to_string()],
    };

    let tests = generate_tests(&spec).unwrap();
    assert_eq!(tests.len(), 2);
}

#[test]
fn test_generate_tests_without_criteria() {
    let spec = FeatureSpec {
        description: "Test feature".to_string(),
        feature_type: FeatureType::NewFunction,
        complexity: Complexity::Simple,
        affected_files: vec![],
        dependencies: vec![],
        acceptance_criteria: vec![],
    };

    let tests = generate_tests(&spec).unwrap();
    assert_eq!(tests.len(), 1);
    assert_eq!(tests[0].name, "test_basic_functionality");
}

#[test]
fn test_generate_test_code() {
    let code = generate_test_code("handles errors");
    assert!(code.contains("test_handles_errors"));
    assert!(code.contains("todo!"));
}

#[test]
fn generated_test_cases_are_numbered_in_order() {
    let spec = FeatureSpec {
        description: "Search box".to_string(),
        feature_type: FeatureType::UiComponent,
        complexity: Complexity::Simple,
        affected_files: vec![],
        dependencies: vec![],
        acceptance_criteria: vec!["first".to_string(), "second".to_string()],
    };
    let tests = generate_tests(&spec).unwrap();
    assert_eq!(tests[0].name, "test_criterion_1");
    assert_eq!(tests[1].name, "test_criterion_2");
    assert_eq!(tests[0].test_file, "tests/search_box_test.rs");
    assert!(tests[1].test_code.contains("test_second"));
}

#[test]
fn basic_test_names_the_description() {
    let code = generate_basic_test("do the thing");
    assert!(code.contains("test_basic_functionality"));
    assert!(code.contains("do the thing"));
}

#[test]
fn implementation_code_names_type_and_complexity() {
    let spec = FeatureSpec {
        description: "Cache layer".to_string(),
        feature_type: FeatureType::Integration,
        complexity: Complexity::Complex,
        affected_files: vec![],
        dependencies: vec![],
        acceptance_criteria: vec![],
    };
    let code = generate_implementation_code(&spec);
    assert!(code.contains("// Feature: Cache layer"));
    assert!(code.contains("// Type: Integration"));
    assert!(code.contains("// Complexity: Complex"));
}
