use repo_agents::notes::{
    determine_severity, filter_by_severity, is_code_file, is_excluded, parse_severity, scan_text,
    truncate, Note, Severity,
};

#[test]
fn scanner_test_parse_severity() {
    assert_eq!(parse_severity("low").unwrap(), Severity::Low);
    assert_eq!(parse_severity("medium").unwrap(), Severity::Medium);
    assert_eq!(parse_severity("high").unwrap(), Severity::High);
    assert!(parse_severity("invalid").is_err());
}

#[test]
fn test_determine_severity_keywords() {
    assert_eq!(
        determine_severity("NOTE", "This is a critical security issue"),
        Severity::High
    );
    assert_eq!(
        determine_severity("NOTE", "This might crash the app"),
        Severity::High
    );
    assert_eq!(
        determine_severity("NOTE", "Regular observation"),
        Severity::Low
    );
}

#[test]
fn test_determine_severity_by_type() {
    assert_eq!(determine_severity("WARNING", "Be careful"), Severity::High);
    assert_eq!(
        determine_severity("IMPORTANT", "Need to address"),
        Severity::Medium
    );
    assert_eq!(determine_severity("NOTE", "Just a note"), Severity::Low);
}

#[test]
fn test_filter_by_severity() {
    let notes = vec![
        Note {
            file: "test.rs".to_string(),
            line: 1,
            note_type: "NOTE".to_string(),
            content: "Low".to_string(),
            severity: Severity::Low,
            category: "doc".to_string(),
        },
        Note {
            file: "test.rs".to_string(),
            line: 2,
            note_type: "WARNING".to_string(),
            content: "High".to_string(),
            severity: Severity::High,
            category: "safety".to_string(),
        },
    ];

    let filtered = filter_by_severity(&notes, Severity::Medium);
    assert_eq!(filtered.len(), 1);
    assert_eq!(filtered[0].severity, Severity::High);
}

#[test]
fn test_is_code_file() {
    assert!(is_code_file("rs"));
    assert!(is_code_file("py"));
    assert!(is_code_file("js"));
    assert!(!is_code_file("txt"));
    assert!(!is_code_file("md"));
}

#[test]
fn test_truncate() {
    assert_eq!(truncate("short", 10), "short");
    assert_eq!(truncate("this is a very long string", 10), "this is...");
}

#[test]
fn notes_exclusion_list_covers_vendor() {
    assert!(is_excluded("vendor/lib/x.rs"));
    assert!(!is_excluded("src/vendored_names.rs"));
}

#[test]
fn scanning_finds_annotated_comments() {
    let content = "// NOTE: This is a test note\n// WARNING: Be careful here\n// PERF: Could be optimized\n";
    let notes = scan_text("test_notes.rs", content);
    assert_eq!(notes.len(), 3);
    assert!(notes.iter().any(|n| n.note_type == "NOTE"));
    assert!(notes.iter().any(|n| n.note_type == "WARNING"));
    assert!(notes.iter().any(|n| n.note_type == "PERF"));
}

#[test]
fn scanned_notes_carry_line_numbers_and_trimmed_text() {
    let content = "fn x() {} // NOTE:   padded note   \nplain line\n  // WARNING: danger\n";
    let notes = scan_text("a.rs", content);
    assert_eq!(notes.len(), 2);
    assert_eq!(notes[0].note_type, "NOTE");
    assert_eq!(notes[0].line, 1);
    assert_eq!(notes[0].content, "padded note");
    assert_eq!(notes[0].category, "documentation");
    assert_eq!(notes[1].note_type, "WARNING");
    assert_eq!(notes[1].line, 3);
    assert_eq!(notes[1].severity, Severity::High);
}
