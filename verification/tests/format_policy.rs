use qanfmt::record::{candidate_line, render_measurement, reserved_line, transform_line};
use qanfmt::text::tokenize;
use qanfmt::value::{format_value, ValueFacts};

fn facts(v: f64) -> ValueFacts {
    ValueFacts {
        below_hundredth: v < 0.01,
        below_two: v < 2.0,
        fixed_two: format!("{:.2}", v),
        fixed_one: format!("{:.1}", v),
        shortest: format!("{}", v),
    }
}

#[test]
fn percent_small_values_collapse() {
    assert_eq!(format_value(&facts(0.0), "%"), "<0.01");
    assert_eq!(format_value(&facts(0.009999), "%"), "<0.01");
}

#[test]
fn percent_two_decimals_from_threshold() {
    assert_eq!(format_value(&facts(0.01), "%"), "0.01");
    assert_eq!(format_value(&facts(12.3456), "%"), "12.35");
}

#[test]
fn ppm_small_values_collapse() {
    assert_eq!(format_value(&facts(1.9999), "ppm"), "<2");
}

#[test]
fn ppm_one_decimal_from_threshold() {
    assert_eq!(format_value(&facts(2.0), "ppm"), "2.0");
    assert_eq!(format_value(&facts(15.0), "ppm"), "15.0");
}

#[test]
fn other_unit_shortest_round_trip() {
    assert_eq!(format_value(&facts(3.14159), "mg/l"), "3.14159");
    assert_eq!(format_value(&facts(2.0), "mg/l"), "2");
}

#[test]
fn render_columns_17_and_33() {
    let line = render_measurement("Fe", "<0.01", "%");
    assert_eq!(line, format!("{:<17}{:<16}{}", "Fe", "<0.01", "%"));
    assert_eq!(line.find("<0.01"), Some(17));
    assert_eq!(line.find('%'), Some(33));
}

#[test]
fn render_without_room_adds_no_padding() {
    let line = render_measurement("Molybdenumcarbide99", "1.5", "ppm");
    assert_eq!(line, format!("{:<33}{}", "Molybdenumcarbide991.5", "ppm"));
    let line = render_measurement("Fe", "123456789012345678", "ppm");
    assert_eq!(line, format!("{:<17}{}{}", "Fe", "123456789012345678", "ppm"));
}

#[test]
fn tokenize_splits_on_whitespace_runs() {
    let toks = tokenize("Fe  0.005\t% extra");
    assert_eq!(toks, vec!["Fe", "0.005", "%", "extra"]);
    assert_eq!(tokenize(""), Vec::<&str>::new());
    assert_eq!(tokenize("   "), Vec::<&str>::new());
}

#[test]
fn transform_line_renders_candidates_and_passes_the_rest() {
    let f = facts(4.5);
    assert_eq!(
        transform_line("K 4.5 ppm extra", Some(&f)),
        format!("{:<17}{:<16}{}", "K", "4.5", "ppm")
    );
    assert_eq!(transform_line("K 4.5 ppm", None), "K 4.5 ppm");
    assert_eq!(transform_line("Sample 4.5 ppm", Some(&f)), "Sample 4.5 ppm");
    assert_eq!(transform_line("K 4.5", Some(&f)), "K 4.5");
}

#[test]
fn reserved_words_match_as_prefixes() {
    assert!(reserved_line("Sample: 17"));
    assert!(reserved_line("Application note"));
    assert!(reserved_line("Measurements 1 2 3"));
    assert!(reserved_line("Initial weight 3.2 g"));
    assert!(reserved_line("Finality 1 2 3"));
    assert!(!reserved_line(" Sample indented"));
    assert!(!reserved_line("Fe 0.005 %"));
}

#[test]
fn candidate_needs_three_tokens_and_no_reserved_prefix() {
    assert!(candidate_line("Fe 0.005 %"));
    assert!(candidate_line("Fe abc def extra"));
    assert!(!candidate_line("Fe 0.005"));
    assert!(!candidate_line(""));
    assert!(!candidate_line("Sample 0.005 %"));
}
