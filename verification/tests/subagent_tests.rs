use repo_agents::subagent::{categorize_by_path, group_by_module};

#[test]
fn titles_are_categorized_by_their_rust_path() {
    assert_eq!(categorize_by_path("Add tests for `foo::bar::baz`"), "bar-baz");
    assert_eq!(categorize_by_path("Cover util::parse_id please"), "util-parse-id");
    assert_eq!(categorize_by_path("No path in here"), "misc");
}

#[test]
fn batches_keep_arrival_order_and_sort_by_size() {
    let issues = vec![
        (1u32, "Fix a::b::one".to_string()),
        (2u32, "Fix c::d::two".to_string()),
        (3u32, "Also fix c::d::two".to_string()),
        (4u32, "Unrelated title".to_string()),
        (5u32, "More of c::d::two".to_string()),
    ];
    let batches = group_by_module(&issues);
    assert_eq!(batches.len(), 3);
    assert_eq!(batches[0].0, "d-two");
    assert_eq!(batches[0].1.len(), 3);
    assert_eq!(batches[0].1[0].0, 2);
    assert_eq!(batches[0].1[2].0, 5);
    // ties keep first-gathered order
    assert_eq!(batches[1].0, "b-one");
    assert_eq!(batches[2].0, "misc");
}
