use repo_agents::checklist::{ChecklistConfig, ChecklistItem};
use repo_agents::quality::{build_analysis_prompt, check_run_guidelines, AnalysisResult, Finding};
use repo_agents::report::{calculate_summary, generate_report};
use repo_agents::scan::{filter_by_patterns, FileToAnalyze, ProjectContext};
use repo_agents::text::render_template;

fn config(kept: Vec<&str>, exclude: Vec<&str>, items: Vec<ChecklistItem>) -> ChecklistConfig {
    ChecklistConfig {
        name: "review".to_string(),
        description: "checks".to_string(),
        file_patterns: kept.into_iter().map(|s| s.to_string()).collect(),
        exclude_patterns: exclude.into_iter().map(|s| s.to_string()).collect(),
        items,
    }
}

fn file(path: &str) -> FileToAnalyze {
    FileToAnalyze {
        content: "fn main() {}".to_string(),
        relative_path: path.to_string(),
    }
}

#[test]
fn glob_patterns_select_and_exclude_files() {
    let cfg = config(vec!["**/*.rs"], vec!["**/target/**"], vec![]);
    let files = vec![
        file("src/lib.rs"),
        file("README.md"),
        file("x/target/gen.rs"),
    ];
    let kept = filter_by_patterns(files, &cfg);
    let paths: Vec<&str> = kept.iter().map(|f| f.relative_path.as_str()).collect();
    assert_eq!(paths, vec!["src/lib.rs"]);
}

#[test]
fn no_valid_include_pattern_keeps_everything_not_excluded() {
    let cfg = config(vec![], vec!["*.md"], vec![]);
    let files = vec![file("src/lib.rs"), file("README.md")];
    let kept = filter_by_patterns(files, &cfg);
    assert_eq!(kept.len(), 1);
    assert_eq!(kept[0].relative_path, "src/lib.rs");
}

#[test]
fn summary_counts_by_severity_word() {
    let finding = |sev: &str, passed: bool| Finding {
        category: "cat".to_string(),
        rule: "rule".to_string(),
        severity: sev.to_string(),
        passed,
        message: "m".to_string(),
        line_number: None,
    };
    let results = vec![
        AnalysisResult {
            file_path: "a.rs".to_string(),
            findings: vec![
                finding("error", false),
                finding("warning", false),
                finding("error", true),
            ],
        },
        AnalysisResult {
            file_path: "b.rs".to_string(),
            findings: vec![finding("style", false)],
        },
    ];
    let summary = calculate_summary(&results);
    assert_eq!(summary.total_files, 2);
    assert_eq!(summary.total_findings, 4);
    assert_eq!(summary.errors, 1);
    assert_eq!(summary.warnings, 1);
    assert_eq!(summary.info, 1);
    assert_eq!(summary.passed_checks, 1);
}

#[test]
fn reports_render_in_each_format() {
    let results = vec![AnalysisResult {
        file_path: "a.rs".to_string(),
        findings: vec![Finding {
            category: "style".to_string(),
            rule: "naming".to_string(),
            severity: "error".to_string(),
            passed: false,
            message: "bad \"name\"".to_string(),
            line_number: Some(3),
        }],
    }];
    let md = generate_report(&results, "markdown").unwrap();
    assert!(md.contains("# DevOps Agent Analysis Report"));
    assert!(md.contains("- **Errors**: 1"));
    assert!(md.contains("### `a.rs`"));
    assert!(md.contains("[ERROR] **style**: naming"));
    assert!(md.contains("   - Line: 3"));

    let console = generate_report(&results, "console").unwrap();
    assert!(console.contains("DevOps Agent ANALYSIS REPORT"));
    assert!(console.contains("Errors:         1"));

    let json = generate_report(&results, "json").unwrap();
    assert!(json.contains("\"total_findings\":1"));
    assert!(json.contains("\"message\":\"bad \\\"name\\\"\""));
    assert!(json.contains("\"line_number\":3"));
}

#[test]
fn guideline_check_reads_the_recorded_exit_code() {
    let items = vec![
        ChecklistItem {
            category: "process".to_string(),
            rule: "follow run-guidelines".to_string(),
            description: "run them".to_string(),
            severity: "error".to_string(),
        },
    ];
    let cfg = config(vec![], vec![], items);
    let ctx = ProjectContext {
        has_run_guidelines: true,
        run_guidelines_output: Some("Exit code: 0\nStdout:\nok".to_string()),
    };
    let result = check_run_guidelines(&ctx, &cfg);
    assert_eq!(result.file_path, "PROJECT_ROOT");
    assert_eq!(result.findings.len(), 1);
    assert!(result.findings[0].passed);

    let ctx_bad = ProjectContext {
        has_run_guidelines: true,
        run_guidelines_output: Some("Exit code: 2\nStderr:\nboom".to_string()),
    };
    let result_bad = check_run_guidelines(&ctx_bad, &cfg);
    assert!(!result_bad.findings[0].passed);
    assert!(result_bad.findings[0].message.contains("failed"));
}

#[test]
fn prompt_lists_the_numbered_rules() {
    let items = vec![
        ChecklistItem {
            category: "style".to_string(),
            rule: "naming".to_string(),
            description: "names are clear".to_string(),
            severity: "warning".to_string(),
        },
        ChecklistItem {
            category: "safety".to_string(),
            rule: "no-unwrap".to_string(),
            description: "avoid unwrap".to_string(),
            severity: "error".to_string(),
        },
    ];
    let cfg = config(vec![], vec![], items);
    let prompt = build_analysis_prompt(&file("src/lib.rs"), &cfg);
    assert!(prompt.contains("File: src/lib.rs"));
    assert!(prompt.contains("1. [style] naming - names are clear (severity: warning)"));
    assert!(prompt.contains("2. [safety] no-unwrap - avoid unwrap (severity: error)"));
    assert!(prompt.contains("Respond ONLY with the JSON array, no other text."));
}

#[test]
fn templates_replace_each_placeholder() {
    let vars = vec![
        ("name".to_string(), "world".to_string()),
        ("greeting".to_string(), "hello".to_string()),
    ];
    assert_eq!(
        render_template("{{greeting}}, {{name}}! {{name}} again", &vars),
        "hello, world! world again"
    );
}
