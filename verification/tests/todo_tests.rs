use repo_agents::todo::{
    determine_complexity, determine_type, estimate_implementation_size, parse_patterns,
    select_todo_automatically, should_have_tests, suggest_approach, todo_in_line, TodoItem,
};

#[test]
fn test_determine_complexity_high() {
    let complexity = determine_complexity("fn something()", "TODO: Refactor this entire module");
    assert_eq!(complexity, "high");
}

#[test]
fn test_determine_complexity_medium() {
    let complexity = determine_complexity("pub fn api()", "TODO: Add parameter validation");
    assert_eq!(complexity, "medium");
}

#[test]
fn test_determine_complexity_low() {
    let complexity = determine_complexity("let x = 1;", "TODO: Update variable name");
    assert_eq!(complexity, "low");
}

#[test]
fn test_determine_type_testing() {
    let todo_type = determine_type("Add tests for this function");
    assert_eq!(todo_type, "testing");
}

#[test]
fn test_determine_type_implementation() {
    let todo_type = determine_type("Implement caching layer");
    assert_eq!(todo_type, "implementation");
}

#[test]
fn test_determine_type_bugfix() {
    let todo_type = determine_type("Fix memory leak here");
    assert_eq!(todo_type, "bugfix");
}

#[test]
fn test_should_have_tests_for_public_function() {
    assert!(should_have_tests("pub fn calculate() -> i32 {"));
    assert!(should_have_tests("pub struct Data {"));
    assert!(!should_have_tests("let x = 1;"));
}

#[test]
fn test_estimate_implementation_size() {
    assert_eq!(estimate_implementation_size("high"), 100);
    assert_eq!(estimate_implementation_size("medium"), 30);
    assert_eq!(estimate_implementation_size("low"), 10);
}

#[test]
fn approach_follows_the_todo_kind() {
    assert_eq!(
        suggest_approach("bugfix", "anything"),
        "Write failing test first, then fix the bug"
    );
    assert_eq!(
        suggest_approach("mystery", "polish the knobs"),
        "Implement: polish the knobs"
    );
}

#[test]
fn shortest_todo_is_selected_earliest_first() {
    let item = |content: &str| TodoItem {
        file: "a.rs".to_string(),
        line: 1,
        content: content.to_string(),
        issue_number: None,
    };
    let todos = vec![item("long long long"), item("tie"), item("tie"), item("longer")];
    let picked = select_todo_automatically(&todos).unwrap();
    assert_eq!(picked.content, "tie");
    assert_eq!(picked.line, 1);
    assert!(select_todo_automatically(&vec![]).is_err());
}

#[test]
fn pattern_lists_are_split_and_trimmed() {
    assert_eq!(
        parse_patterns(" **/*.rs , **/*.py ,, "),
        vec!["**/*.rs".to_string(), "**/*.py".to_string()]
    );
    assert_eq!(parse_patterns(""), Vec::<String>::new());
}

#[test]
fn todo_comments_are_read_from_lines() {
    assert_eq!(todo_in_line("let x = 1; // TODO: tidy this up"), Some("tidy this up".to_string()));
    assert_eq!(todo_in_line("//todo fix me"), Some("fix me".to_string()));
    assert_eq!(todo_in_line("// nothing here"), None);
    assert_eq!(todo_in_line("let todo = 3;"), None);
}
