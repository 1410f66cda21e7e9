use repo_agents::coverage::parse_cobertura;
use repo_agents::percent::Percent;

#[test]
fn percent_comparison_is_by_micros() {
    assert!(Percent::from_whole(79).below(&Percent::from_whole(80)));
    assert!(!Percent::from_whole(80).below(&Percent::from_whole(80)));
    assert!(Percent::from_micros(79_999_999).below(&Percent::from_whole(80)));
}

#[test]
fn rates_with_many_digits_truncate_past_the_eighth() {
    // eight fractional digits are exact; the ninth is truncated
    let xml = r#"<coverage line-rate="0.12345678"></coverage>"#;
    let c = parse_cobertura(xml).unwrap();
    assert_eq!(c.overall_percentage.micros, 12_345_678);

    let xml9 = r#"<coverage line-rate="0.123456789"></coverage>"#;
    let c9 = parse_cobertura(xml9).unwrap();
    assert_eq!(c9.overall_percentage.micros, 12_345_678);
}

#[test]
fn whole_and_pointless_rates_parse() {
    let one = parse_cobertura(r#"<coverage line-rate="1"></coverage>"#).unwrap();
    assert_eq!(one.overall_percentage, Percent::full());

    let tail = parse_cobertura(r#"<coverage line-rate="1."></coverage>"#).unwrap();
    assert_eq!(tail.overall_percentage, Percent::full());

    let head = parse_cobertura(r#"<coverage line-rate=".5"></coverage>"#).unwrap();
    assert_eq!(head.overall_percentage, Percent::from_whole(50));
}

#[test]
fn negative_and_exponent_forms_degrade_to_zero() {
    let neg = parse_cobertura(r#"<coverage line-rate="-0.5"></coverage>"#).unwrap();
    assert_eq!(neg.overall_percentage, Percent::zero());

    let exp = parse_cobertura(r#"<coverage line-rate="1e-3"></coverage>"#).unwrap();
    assert_eq!(exp.overall_percentage, Percent::zero());
}
