use repo_agents::refactor::{
    analyze_function, analyze_source, calculate_complexity, calculate_nesting_depth,
    count_parameters, find_function_end, is_excluded,
};

#[test]
fn test_calculate_complexity() {
    let simple = "fn test() { return 42; }";
    let complex = "fn test() { if x { for y in z { if a || b { while c { } } } } }";

    assert_eq!(calculate_complexity(simple), 1);
    assert!(calculate_complexity(complex) >= 5);
}

#[test]
fn test_calculate_nesting_depth() {
    let flat = "fn test() { let x = 1; }";
    let nested = "fn test() { { { { } } } }";

    assert_eq!(calculate_nesting_depth(flat), 1);
    assert_eq!(calculate_nesting_depth(nested), 4);
}

#[test]
fn test_find_function_end() {
    let code = "fn test() { let x = 1; { nested(); } }";
    let end = find_function_end(code);
    assert_eq!(&code[..end], "fn test() { let x = 1; { nested(); } }");
}

#[test]
fn complexity_is_capped_at_ten() {
    let code = "if if if if if if if if if if if if";
    assert_eq!(calculate_complexity(code), 10);
}

#[test]
fn unclosed_body_ends_at_the_text_end() {
    let code = "fn test() { let x = 1;";
    assert_eq!(find_function_end(code), code.len());
}

#[test]
fn refactor_exclusion_list_has_no_vendor() {
    assert!(is_excluded("target/debug/app"));
    assert!(!is_excluded("vendor/lib/x.rs"));
}

#[test]
fn test_count_parameters() {
    let no_params = "fn test() { }";
    let three_params = "fn test(a: i32, b: String, c: bool) { }";

    assert_eq!(count_parameters(no_params), 0);
    assert_eq!(count_parameters(three_params), 3);
}

#[test]
fn analysis_reports_metrics_and_issues() {
    let content = "\npub fn busy(a: u8, b: u8) {\n    if a > b { while b > 0 { } }\n    if b > a { }\n    if a == b { }\n    if a != b { }\n    if a < b { }\n    if a <= b { }\n    if a >= b { }\n}\n";
    let cand = analyze_function("m.rs", content, "busy", 5).unwrap();
    assert_eq!(cand.function, "busy");
    assert_eq!(cand.file, "m.rs");
    assert_eq!(cand.line_start, 3);
    assert!(cand.complexity_score >= 8);
    assert!(cand.issues.iter().any(|i| i.starts_with("High cyclomatic complexity:")));
    assert!(analyze_function("m.rs", content, "absent", 5).is_none());
    assert!(analyze_function("m.rs", content, "busy", 10).is_none());
}

#[test]
fn source_analysis_visits_each_declared_function() {
    let content = "fn quiet() { }\npub fn busy(x: u8) {\n    if x > 0 { } if x > 1 { } if x > 2 { } if x > 3 { }\n}\n";
    let found = analyze_source("m.rs", content, 3);
    assert_eq!(found.len(), 1);
    assert_eq!(found[0].function, "busy");
    assert_eq!(found[0].num_parameters, 1);
}
