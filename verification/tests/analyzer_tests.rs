use repo_agents::architecture::{
    detect_circular_dependencies, detect_patterns, detect_tight_coupling, extract_dependencies,
    get_module_name, is_excluded, parse_severity, Severity,
};

#[test]
fn analyzer_test_parse_severity() {
    assert_eq!(parse_severity("low").unwrap(), Severity::Low);
    assert_eq!(parse_severity("medium").unwrap(), Severity::Medium);
    assert_eq!(parse_severity("high").unwrap(), Severity::High);
}

#[test]
fn test_get_module_name() {
    assert_eq!(get_module_name("src/analyzer.rs"), "analyzer");
}

#[test]
fn test_detect_patterns() {
    let code_with_singleton = "lazy_static! { static ref INSTANCE: MyStruct = MyStruct::new(); }";
    let patterns = detect_patterns("test.rs", code_with_singleton);
    assert!(!patterns.is_empty());
}

#[test]
fn test_is_excluded() {
    assert!(is_excluded("target/debug/app"));
    assert!(is_excluded("node_modules/package"));
    assert!(!is_excluded("src/main.rs"));
}

#[test]
fn circular_dependencies_are_detected_in_listing_order() {
    let deps = vec![
        (
            "src/a.rs".to_string(),
            vec!["src/b.rs".to_string()],
        ),
        (
            "src/b.rs".to_string(),
            vec!["crate::src/a.rs::thing".to_string()],
        ),
    ];
    let issues = detect_circular_dependencies(&deps);
    assert_eq!(issues.len(), 1);
    assert_eq!(issues[0].title, "Circular dependency detected");
    assert_eq!(
        issues[0].description,
        "Circular dependency between src/a.rs and src/b.rs"
    );
    assert_eq!(issues[0].severity, Severity::High);
    assert_eq!(issues[0].locations, vec!["src/a.rs", "src/b.rs"]);
}

#[test]
fn tight_coupling_flags_more_than_fifteen_dependencies() {
    let many: Vec<String> = (0..16).map(|i| format!("dep{}", i)).collect();
    let deps = vec![
        ("big.rs".to_string(), many),
        ("small.rs".to_string(), vec!["one".to_string()]),
    ];
    let issues = detect_tight_coupling(&deps, &vec![]);
    assert_eq!(issues.len(), 1);
    assert_eq!(issues[0].description, "big.rs depends on 16 modules");
    assert_eq!(issues[0].severity, Severity::Medium);
}

#[test]
fn module_name_edge_cases() {
    assert_eq!(get_module_name("a/b/c.tar.gz"), "c.tar");
    assert_eq!(get_module_name(".gitignore"), ".gitignore");
    assert_eq!(get_module_name(""), "unknown");
    assert_eq!(get_module_name("src/.."), "unknown");
    assert_eq!(get_module_name("src/"), "src");
}

#[test]
fn test_extract_dependencies() {
    let code = "use std::fs;\nuse anyhow::Result;\nuse crate::module;";
    let deps = extract_dependencies(code);
    assert_eq!(deps.len(), 3);
    assert!(deps.contains(&"std::fs".to_string()));
}

#[test]
fn dependency_names_stop_at_separators() {
    let deps = extract_dependencies("use a::b; use   c_d::e;");
    assert_eq!(deps, vec!["a::b".to_string(), "c_d::e".to_string()]);
}
