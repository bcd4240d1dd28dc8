use qanfmt::transform::{candidate_value_tokens, transform};
use qanfmt::value::ValueFacts;

fn parse_outcome(token: &str) -> Option<ValueFacts> {
    match token.parse::<f64>() {
        Ok(v) if v.is_finite() => Some(ValueFacts {
            below_hundredth: v < 0.01,
            below_two: v < 2.0,
            fixed_two: format!("{:.2}", v),
            fixed_one: format!("{:.1}", v),
            shortest: format!("{}", v),
        }),
        _ => None,
    }
}

fn run(content: &str) -> String {
    let tokens = candidate_value_tokens(content);
    let vals: Vec<Option<ValueFacts>> = tokens.iter().map(|t| parse_outcome(t)).collect();
    transform(content, &vals)
}

#[test]
fn scenario_extra_token_dropped() {
    let out = run("Fe 0.005 %  extra\n");
    let expected = format!("{:<17}{:<16}{}\n", "Fe", "<0.01", "%");
    assert_eq!(out, expected);
}

#[test]
fn scenario_crlf_without_trailing_terminator_round_trips() {
    let out = run("Fe 0.005 %\r\nSample line here");
    let expected = format!("{:<17}{:<16}{}\r\nSample line here", "Fe", "<0.01", "%");
    assert_eq!(out, expected);
}

#[test]
fn crlf_trailing_terminator_kept() {
    let out = run("Fe 2.5 ppm\r\n");
    assert_eq!(out, format!("{:<17}{:<16}{}\r\n", "Fe", "2.5", "ppm"));
}

#[test]
fn reserved_header_lines_never_reformatted() {
    for line in [
        "Sample 12.5 mg extra",
        "Application 3.2 %",
        "Measurement 1 2 3",
        "Initial 0.005 %",
        "Final 7.0 ppm",
    ] {
        let content = format!("{}\n", line);
        assert_eq!(run(&content), content);
    }
}

#[test]
fn blank_lines_keep_their_positions() {
    let out = run("Fe 2.5 ppm\n\nCu 3.0 ppm\n");
    let expected = format!(
        "{:<17}{:<16}{}\n\n{:<17}{:<16}{}\n",
        "Fe", "2.5", "ppm", "Cu", "3.0", "ppm"
    );
    assert_eq!(out, expected);
}

#[test]
fn two_token_line_unchanged() {
    assert_eq!(run("Fe 0.005\n"), "Fe 0.005\n");
}

#[test]
fn unparseable_value_token_passes_through() {
    assert_eq!(run("Fe abc %\n"), "Fe abc %\n");
}

#[test]
fn non_finite_value_token_passes_through() {
    assert_eq!(run("Fe inf %\n"), "Fe inf %\n");
    assert_eq!(run("Fe NaN ppm\n"), "Fe NaN ppm\n");
}

#[test]
fn transforming_twice_is_byte_identical() {
    let content = "Sample: ore batch 7\nFe 0.005 %  extra\nCu 12.3456 %\nZn 1.9999 ppm\nPb 15.0 ppm\nAg 3.14159 mg/l\n\nshort line\nFinal 1 2 3";
    let once = run(content);
    let twice = run(&once);
    assert_eq!(twice, once);
}

#[test]
fn transforming_twice_is_byte_identical_crlf() {
    let content = "Fe 0.005 %\r\nCu 2.0 ppm\r\nNotes follow\r\n";
    let once = run(content);
    let twice = run(&once);
    assert_eq!(twice, once);
}

#[test]
fn empty_content_stays_empty() {
    assert_eq!(run(""), "");
}

#[test]
fn crlf_file_with_stray_bare_linefeed_stabilises() {
    // A CRLF file whose last terminator is a bare linefeed: the first
    // pass rewrites it with CRLF terminators, and a second pass leaves
    // those bytes alone.
    let once = run("a b c\r\n\n");
    assert_eq!(once, "a b c\r\n");
    assert_eq!(run(&once), once);
}

#[test]
fn blank_only_file_keeps_its_blank_lines() {
    assert_eq!(run("\n\n"), "\n\n");
    assert_eq!(run("\r\n"), "\r\n");
}

#[test]
fn lf_trailing_terminator_preserved_either_way() {
    assert_eq!(run("Fe 2.5 ppm\n"), format!("{:<17}{:<16}{}\n", "Fe", "2.5", "ppm"));
    assert_eq!(run("Fe 2.5 ppm"), format!("{:<17}{:<16}{}", "Fe", "2.5", "ppm"));
}

#[test]
fn candidate_tokens_come_in_line_order() {
    let toks = candidate_value_tokens("Fe 0.005 % extra\nSample 1 2 3\nCu 15.0 ppm\nshort one\n");
    assert_eq!(toks, vec!["0.005".to_string(), "15.0".to_string()]);
}

#[test]
fn transform_uses_supplied_outcomes_in_candidate_order() {
    let vals = vec![parse_outcome("4.5"), None];
    let out = transform("K 4.5 ppm\nNa what units\n", &vals);
    assert_eq!(
        out,
        format!("{:<17}{:<16}{}\nNa what units\n", "K", "4.5", "ppm")
    );
}

#[test]
fn missing_outcomes_leave_candidates_unchanged() {
    let out = transform("K 4.5 ppm\n", &Vec::new());
    assert_eq!(out, "K 4.5 ppm\n");
}
