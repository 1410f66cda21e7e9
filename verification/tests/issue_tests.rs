use repo_agents::issues::{IssueError, IssueRequest};

fn bare(title: &str) -> IssueRequest {
    IssueRequest {
        title: title.to_string(),
        body: None,
        labels: None,
        assignees: None,
        milestone: None,
        priority: None,
    }
}

#[test]
fn test_issue_validation_requires_title() {
    let issue = bare("");
    assert!(issue.validate().is_err());
}

#[test]
fn test_issue_validation_title_length() {
    let issue = bare(&"a".repeat(300));
    assert!(issue.validate().is_err());
}

#[test]
fn test_enhanced_labels_adds_priority() {
    let issue = IssueRequest {
        title: "Test".to_string(),
        body: None,
        labels: Some(vec!["bug".to_string()]),
        assignees: None,
        milestone: None,
        priority: Some("high".to_string()),
    };

    let labels = issue.enhanced_labels();
    assert!(labels.contains(&"bug".to_string()));
    assert!(labels.contains(&"priority-high".to_string()));
}

#[test]
fn test_valid_issue_passes_validation() {
    let issue = IssueRequest {
        title: "Valid title".to_string(),
        body: Some("Valid body".to_string()),
        labels: None,
        assignees: None,
        milestone: None,
        priority: None,
    };

    assert!(issue.validate().is_ok());
}

#[test]
fn validation_errors_name_their_cause() {
    assert_eq!(bare("").validate(), Err(IssueError::EmptyTitle));
    assert_eq!(
        bare(&"x".repeat(257)).validate(),
        Err(IssueError::TitleTooLong)
    );
    assert_eq!(bare(&"x".repeat(256)).validate(), Ok(()));
}

#[test]
fn unknown_priority_adds_no_label() {
    let issue = IssueRequest {
        title: "Test".to_string(),
        body: None,
        labels: None,
        assignees: None,
        milestone: None,
        priority: Some("urgent-ish".to_string()),
    };
    assert!(issue.enhanced_labels().is_empty());
}

#[test]
fn priority_word_is_case_insensitive() {
    let issue = IssueRequest {
        title: "Test".to_string(),
        body: None,
        labels: None,
        assignees: None,
        milestone: None,
        priority: Some("CRITICAL".to_string()),
    };
    assert_eq!(issue.enhanced_labels(), vec!["priority-critical".to_string()]);
}
