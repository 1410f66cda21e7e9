use repo_agents::feature::{
    analyze_feature, determine_complexity, determine_feature_type, extract_acceptance_criteria,
    extract_file_mentions, parse_issue_number, Complexity, FeatureType,
};

#[test]
fn test_parse_issue_number() {
    assert_eq!(parse_issue_number("#42"), Some(42));
    assert_eq!(parse_issue_number("42"), Some(42));
    assert_eq!(parse_issue_number("123"), Some(123));
    assert_eq!(parse_issue_number("not-a-number"), None);
}

#[test]
fn test_determine_feature_type() {
    assert_eq!(
        determine_feature_type("Add a new function to calculate sum"),
        FeatureType::NewFunction
    );
    assert_eq!(
        determine_feature_type("Create API endpoint for users"),
        FeatureType::ApiEndpoint
    );
    assert_eq!(
        determine_feature_type("Build UI component for login"),
        FeatureType::UiComponent
    );
    assert_eq!(
        determine_feature_type("Add database model for products"),
        FeatureType::DataModel
    );
}

#[test]
fn test_determine_complexity() {
    let simple = "Add button";
    let moderate = "Add user authentication with email validation checks and password hashing with bcrypt for secure login and account recovery features across the application";
    let complex = "Build complex multi-tenant integration system with real-time sync";

    assert_eq!(
        determine_complexity(simple, ".").unwrap(),
        Complexity::Simple
    );
    assert_eq!(
        determine_complexity(moderate, ".").unwrap(),
        Complexity::Moderate
    );
    assert_eq!(
        determine_complexity(complex, ".").unwrap(),
        Complexity::Complex
    );
}

#[test]
fn test_extract_acceptance_criteria() {
    let description = "Feature:\n- Must handle errors\n- Should validate input\n* Return proper status";
    let criteria = extract_acceptance_criteria(description);

    assert_eq!(criteria.len(), 3);
    assert!(criteria.contains(&"Must handle errors".to_string()));
    assert!(criteria.contains(&"Should validate input".to_string()));
}

#[test]
fn test_extract_numbered_criteria() {
    let description = "Requirements:\n1. Fast response\n2. Secure\n3) Scalable";
    let criteria = extract_acceptance_criteria(description);

    assert!(criteria.len() >= 2);
}

#[test]
fn issue_reference_is_analyzed_as_an_enhancement() {
    let spec = analyze_feature("#7", vec![]).unwrap();
    assert_eq!(spec.description, "Feature from issue #7");
    assert_eq!(spec.feature_type, FeatureType::Enhancement);
    assert_eq!(spec.complexity, Complexity::Moderate);
    assert!(spec.acceptance_criteria.is_empty());
}

#[test]
fn description_is_analyzed_with_supplied_files() {
    let spec = analyze_feature(
        "Add a new function\n- must be fast",
        vec!["src/lib.rs".to_string()],
    )
    .unwrap();
    assert_eq!(spec.feature_type, FeatureType::NewFunction);
    assert_eq!(spec.affected_files, vec!["src/lib.rs".to_string()]);
    assert_eq!(spec.acceptance_criteria, vec!["must be fast".to_string()]);
}

#[test]
fn file_mentions_are_collected_in_order() {
    let mentions = extract_file_mentions("touch src/lib.rs and docs/a.b.md please");
    assert_eq!(
        mentions,
        vec!["src/lib.rs".to_string(), "docs/a.b".to_string()]
    );
    assert!(extract_file_mentions("no files here").is_empty());
}
