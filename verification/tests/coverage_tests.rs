use repo_agents::coverage::{
    parse_cobertura, find_uncovered, CoverageData, FileCoverage, FunctionCoverage, UncoveredItem,
    UncoveredType,
};
use repo_agents::percent::Percent;

#[test]
fn test_parse_cobertura_extracts_overall_percentage() {
    let xml = r#"<?xml version="1.0" ?>
<coverage line-rate="0.85" branch-rate="0.75">
</coverage>"#;

    let coverage = parse_cobertura(xml).unwrap();
    assert_eq!(coverage.overall_percentage, Percent::from_whole(85));
}

#[test]
fn test_find_uncovered_filters_by_threshold() {
    let coverage = CoverageData {
        overall_percentage: Percent::from_whole(70),
        files: vec![FileCoverage {
            path: "src/lib.rs".to_string(),
            coverage_percentage: Percent::from_whole(60),
            lines_covered: 60,
            lines_total: 100,
            uncovered_lines: vec![10, 20, 30],
            functions: vec![
                FunctionCoverage {
                    name: "pub covered_func".to_string(),
                    line: 1,
                    coverage_percentage: Percent::from_whole(95),
                    is_covered: true,
                },
                FunctionCoverage {
                    name: "uncovered_func".to_string(),
                    line: 10,
                    coverage_percentage: Percent::from_whole(50),
                    is_covered: false,
                },
            ],
        }],
    };

    let uncovered = find_uncovered(&coverage, Percent::from_whole(80));
    assert_eq!(uncovered.len(), 1);
    assert_eq!(uncovered[0].function, "uncovered_func");
}

#[test]
fn test_uncovered_item_title_generation() {
    let item = UncoveredItem {
        file: "src/lib.rs".to_string(),
        function: "process_data".to_string(),
        line: 42,
        coverage_percentage: Percent::from_whole(30),
        item_type: UncoveredType::PublicFunction,
    };

    assert_eq!(
        item.title(),
        "test: Add tests for public function `process_data`"
    );
}

#[test]
fn test_public_function_has_error_severity() {
    let item = UncoveredItem {
        file: "src/lib.rs".to_string(),
        function: "api_func".to_string(),
        line: 1,
        coverage_percentage: Percent::from_whole(0),
        item_type: UncoveredType::PublicFunction,
    };

    assert_eq!(item.severity(), "error");
}

#[test]
fn overall_rate_scales_fractional_digits_exactly() {
    let xml = r#"<coverage line-rate="0.8534"></coverage>"#;
    let coverage = parse_cobertura(xml).unwrap();
    assert_eq!(coverage.overall_percentage.micros, 85_340_000);
}

#[test]
fn unparseable_rate_degrades_to_zero() {
    let xml = r#"<coverage line-rate="abc"></coverage>"#;
    let coverage = parse_cobertura(xml).unwrap();
    assert_eq!(coverage.overall_percentage.micros, 0);
}

#[test]
fn class_with_method_is_kept_and_class_without_methods_is_dropped() {
    let xml = r#"<coverage line-rate="0.7">
  <class filename="a.rs" line-rate="0.5"><method name="f" line-rate="1.0"/></class>
  <class filename="b.rs" line-rate="0.4"></class>
</coverage>"#;
    let coverage = parse_cobertura(xml).unwrap();
    assert_eq!(coverage.files.len(), 1);
    assert_eq!(coverage.files[0].path, "a.rs");
    assert_eq!(coverage.files[0].functions.len(), 1);
    assert_eq!(coverage.files[0].functions[0].name, "f");
}

#[test]
fn class_with_empty_filename_is_never_opened() {
    let xml = r#"<coverage line-rate="0.7">
  <class filename="" line-rate="0.5"><method name="f" line-rate="1.0"/></class>
</coverage>"#;
    let coverage = parse_cobertura(xml).unwrap();
    assert_eq!(coverage.files.len(), 0);
}

#[test]
fn method_names_are_unescaped_and_closure_marker_is_stripped() {
    let xml = r#"<coverage line-rate="1.0">
  <class filename="a.rs" line-rate="1.0">
    <method name="Foo&lt;T&gt;::bar" line-rate="1.0"/>
    <method name="baz::{closure#0}x" line-rate="1.0"/>
  </class>
</coverage>"#;
    let coverage = parse_cobertura(xml).unwrap();
    assert_eq!(coverage.files[0].functions[0].name, "Foo<T>::bar");
    assert_eq!(coverage.files[0].functions[1].name, "bazx");
}

#[test]
fn method_coverage_is_binarized() {
    let xml = r#"<coverage line-rate="1.0">
  <class filename="a.rs" line-rate="1.0">
    <method name="partially" line-rate="0.5"/>
    <method name="missed" line-rate="0.0"/>
    <method name="unrated"/>
  </class>
</coverage>"#;
    let coverage = parse_cobertura(xml).unwrap();
    let fns = &coverage.files[0].functions;
    assert_eq!(fns[0].coverage_percentage, Percent::full());
    assert!(fns[0].is_covered);
    assert_eq!(fns[1].coverage_percentage, Percent::zero());
    assert!(!fns[1].is_covered);
    assert_eq!(fns[2].coverage_percentage, Percent::zero());
    assert!(!fns[2].is_covered);
}

#[test]
fn last_line_element_wins_for_method_line() {
    let xml = r#"<coverage line-rate="1.0">
  <class filename="a.rs" line-rate="1.0">
    <method name="f" line-rate="1.0"><line number="3"/><line number="9"/></method>
  </class>
</coverage>"#;
    let coverage = parse_cobertura(xml).unwrap();
    assert_eq!(coverage.files[0].functions[0].line, 9);
}

#[test]
fn lower_threshold_returns_a_subset_in_the_same_order() {
    let file = |path: &str, pct: u64, fns: Vec<(&str, u64)>| FileCoverage {
        path: path.to_string(),
        coverage_percentage: Percent::from_whole(pct),
        lines_covered: 0,
        lines_total: 0,
        uncovered_lines: vec![],
        functions: fns
            .into_iter()
            .map(|(n, p)| FunctionCoverage {
                name: n.to_string(),
                line: 1,
                coverage_percentage: Percent::from_whole(p),
                is_covered: p > 0,
            })
            .collect(),
    };
    let report = CoverageData {
        overall_percentage: Percent::from_whole(50),
        files: vec![
            file("a.rs", 40, vec![("f1", 0), ("f2", 60)]),
            file("b.rs", 70, vec![("g1", 0)]),
        ],
    };
    let low = find_uncovered(&report, Percent::from_whole(50));
    let high = find_uncovered(&report, Percent::from_whole(90));
    let low_names: Vec<&str> = low.iter().map(|i| i.function.as_str()).collect();
    let high_names: Vec<&str> = high.iter().map(|i| i.function.as_str()).collect();
    assert_eq!(low_names, vec!["f1"]);
    assert_eq!(high_names, vec!["f1", "f2", "g1"]);
    let mut pos = 0;
    for n in &low_names {
        while pos < high_names.len() && &high_names[pos] != n {
            pos += 1;
        }
        assert!(pos < high_names.len(), "ordered subset violated");
        pos += 1;
    }
}

#[test]
fn classification_follows_name_prefixes_regardless_of_threshold() {
    let mk = |name: &str| FunctionCoverage {
        name: name.to_string(),
        line: 1,
        coverage_percentage: Percent::zero(),
        is_covered: false,
    };
    let report = CoverageData {
        overall_percentage: Percent::zero(),
        files: vec![FileCoverage {
            path: "a.rs".to_string(),
            coverage_percentage: Percent::zero(),
            lines_covered: 0,
            lines_total: 0,
            uncovered_lines: vec![],
            functions: vec![mk("test_foo"), mk("pub bar"), mk("baz")],
        }],
    };
    for threshold in [10u64, 90u64] {
        let items = find_uncovered(&report, Percent::from_whole(threshold));
        assert_eq!(items[0].item_type, UncoveredType::TestFunction);
        assert_eq!(items[1].item_type, UncoveredType::PublicFunction);
        assert_eq!(items[2].item_type, UncoveredType::Function);
    }
}

#[test]
fn output_order_is_file_order_then_function_order() {
    let mk = |name: &str| FunctionCoverage {
        name: name.to_string(),
        line: 1,
        coverage_percentage: Percent::zero(),
        is_covered: false,
    };
    let file = |path: &str, fns: Vec<FunctionCoverage>| FileCoverage {
        path: path.to_string(),
        coverage_percentage: Percent::zero(),
        lines_covered: 0,
        lines_total: 0,
        uncovered_lines: vec![],
        functions: fns,
    };
    let report = CoverageData {
        overall_percentage: Percent::zero(),
        files: vec![
            file("z.rs", vec![mk("z1"), mk("z2")]),
            file("a.rs", vec![mk("a1"), mk("a2")]),
        ],
    };
    let items = find_uncovered(&report, Percent::from_whole(50));
    let got: Vec<(&str, &str)> = items
        .iter()
        .map(|i| (i.file.as_str(), i.function.as_str()))
        .collect();
    assert_eq!(
        got,
        vec![("z.rs", "z1"), ("z.rs", "z2"), ("a.rs", "a1"), ("a.rs", "a2")]
    );
}

#[test]
fn end_to_end_scenario_matches_the_expected_report() {
    let xml = r#"<coverage line-rate="0.70">
  <class filename="src/lib.rs" line-rate="0.60">
    <method name="pub covered_func" line-rate="0.95"><line number="1"/></method>
    <method name="uncovered_func" line-rate="0.0"><line number="10"/></method>
  </class>
</coverage>"#;
    let report = parse_cobertura(xml).unwrap();
    assert_eq!(report.overall_percentage, Percent::from_whole(70));
    assert_eq!(report.files.len(), 1);
    assert_eq!(report.files[0].coverage_percentage, Percent::from_whole(60));
    assert_eq!(report.files[0].functions.len(), 2);

    let items = find_uncovered(&report, Percent::from_whole(80));
    assert_eq!(items.len(), 1);
    assert_eq!(items[0].file, "src/lib.rs");
    assert_eq!(items[0].function, "uncovered_func");
    assert_eq!(items[0].line, 10);
    assert_eq!(items[0].coverage_percentage, Percent::zero());
    assert_eq!(items[0].item_type, UncoveredType::Function);
}

#[test]
fn malformed_input_reports_a_byte_offset() {
    let xml = r#"<coverage line-rate="0.70">"#;
    let err = parse_cobertura(xml).unwrap_err();
    assert_eq!(err.byte_offset, xml.len());

    let mismatched = "<coverage><class></coverage></class>";
    assert!(parse_cobertura(mismatched).is_err());
}
