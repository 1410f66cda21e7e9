use repo_agents::testgen::{
    find_eq_implementation, generate_clone_tests, generate_constructor_tests,
    generate_default_eq_tests, generate_field_based_tests, generate_generic_tests,
    generate_instance_literal, generate_partialeq_tests, generate_test_value_for_type,
    parse_struct_fields, scaffold_for_function,
};

const SOURCE: &str = "pub struct Point {\n    pub x: i32,\n    pub label: String,\n    private: u8,\n}\n\nimpl PartialEq for Point {\n    fn eq(&self, other: &Self) -> bool { self.x == other.x }\n}\n";

#[test]
fn example_values_follow_the_field_type() {
    assert_eq!(
        generate_test_value_for_type("i32", 0),
        ("1".to_string(), "2".to_string())
    );
    assert_eq!(
        generate_test_value_for_type("f64", 2),
        ("3.0".to_string(), "4.0".to_string())
    );
    assert_eq!(
        generate_test_value_for_type("bool", 5),
        ("true".to_string(), "false".to_string())
    );
    assert_eq!(
        generate_test_value_for_type("String", 1),
        (
            "String::from(\"test1\")".to_string(),
            "String::from(\"different1\")".to_string()
        )
    );
    assert_eq!(
        generate_test_value_for_type("Option<u8>", 0),
        ("None".to_string(), "Some(Default::default())".to_string())
    );
    assert_eq!(
        generate_test_value_for_type("Expr", 0),
        ("Expr::default()".to_string(), "Expr::default()".to_string())
    );
}

#[test]
fn struct_fields_are_read_from_the_source() {
    let fields = parse_struct_fields(SOURCE, "Point");
    assert_eq!(
        fields,
        vec![
            ("x".to_string(), "i32".to_string()),
            ("label".to_string(), "String".to_string()),
        ]
    );
    assert!(parse_struct_fields(SOURCE, "Absent").is_empty());
}

#[test]
fn equality_bodies_are_located() {
    let body = find_eq_implementation(SOURCE, "Point");
    assert!(body.starts_with('{'));
    assert!(body.contains("self.x == other.x"));
    assert_eq!(find_eq_implementation(SOURCE, "Absent"), "");
}

#[test]
fn instance_literals_place_alternate_values() {
    let fields = vec![
        ("x".to_string(), "i32".to_string()),
        ("ok".to_string(), "bool".to_string()),
    ];
    let plain = generate_instance_literal("Point", &fields, &vec![false, false]);
    assert_eq!(plain, "Point { x: 1, ok: true }");
    let alt = generate_instance_literal("Point", &fields, &vec![false, true]);
    assert_eq!(alt, "Point { x: 1, ok: false }");
}

#[test]
fn field_based_tests_cover_each_field() {
    let fields = parse_struct_fields(SOURCE, "Point");
    let eq_impl = find_eq_implementation(SOURCE, "Point");
    let code = generate_field_based_tests("Point", &fields, &eq_impl);
    assert!(code.contains("fn test_point_eq_identical()"));
    assert!(code.contains("fn test_point_ne_diff_x()"));
    assert!(code.contains("fn test_point_ne_diff_label()"));
}

#[test]
fn partialeq_scaffold_uses_the_struct_when_it_is_found() {
    let code = generate_partialeq_tests(SOURCE, "<Point as PartialEq>::eq").unwrap();
    assert!(code.contains("test_point_ne_diff_x"));

    let fallback = generate_partialeq_tests("no struct here", "<Ghost as PartialEq>::eq").unwrap();
    assert!(fallback.contains("create_test_ghost_instance"));
    assert_eq!(
        fallback,
        generate_default_eq_tests("Ghost")
    );
}

#[test]
fn scaffolds_follow_the_function_name() {
    let ctor = scaffold_for_function(SOURCE, "Point::new").unwrap();
    assert_eq!(ctor, generate_constructor_tests(SOURCE, "Point::new").unwrap());
    assert!(ctor.contains("fn test_new_creates_valid_instance()"));

    let clone = scaffold_for_function(SOURCE, "<Point as Clone>::clone").unwrap();
    assert_eq!(clone, generate_clone_tests(SOURCE, "ignored").unwrap());

    let generic = scaffold_for_function(SOURCE, "util::frob").unwrap();
    assert_eq!(generic, generate_generic_tests(SOURCE, "util::frob").unwrap());
    assert!(generic.contains("fn test_frob_happy_path()"));
}
