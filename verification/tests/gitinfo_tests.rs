use repo_agents::gitinfo::{main_branch_name, parse_repository_info};

#[test]
fn main_branch_follows_the_listing() {
    assert_eq!(main_branch_name("  origin/HEAD\n  origin/main\n"), "main");
    assert_eq!(main_branch_name("  origin/master\n"), "master");
}

#[test]
fn remote_urls_yield_owner_and_repository() {
    assert_eq!(
        parse_repository_info("git@github.com:octo/widgets.git"),
        Ok(("octo".to_string(), "widgets".to_string()))
    );
    assert_eq!(
        parse_repository_info("https://github.com/octo/widgets"),
        Ok(("octo".to_string(), "widgets".to_string()))
    );
    assert!(parse_repository_info("https://example.com/x/y").is_err());
    assert!(parse_repository_info("https://github.com/loneword").is_err());
}
