use exconman::codec::{extract, render};
use exconman::lines::{join_lines, split_lines};
use exconman::parse::{
    evaluate_setting, from_hash, is_valid_i32, merge, parse, split_sections, trim_str,
};
use exconman::util::color;

#[test]
fn split_and_join_lines_round_trip() {
    let lines = split_lines("a\nb\n\nc");
    assert_eq!(lines, vec!["a", "b", "", "c"]);
    assert_eq!(join_lines(&lines), "a\nb\n\nc");
    assert_eq!(split_lines(""), vec![String::new()]);
    assert_eq!(split_lines("x\n"), vec![String::from("x"), String::new()]);
}

#[test]
fn render_replaces_first_placeholder() {
    assert_eq!(render("x={value}", "5"), "x=5");
    assert_eq!(render("no placeholder", "5"), "no placeholder");
    assert_eq!(render("{value}{value}", "5"), "5{value}");
}

#[test]
fn extract_recovers_rendered_value() {
    assert_eq!(extract("x={value}", "x=5"), Some(String::from("5")));
    assert_eq!(extract("x={value}", "  x=5"), Some(String::from("5")));
    assert_eq!(extract("x={value}", "y=5"), None);
    assert_eq!(extract("no placeholder", "no placeholder"), None);
}

#[test]
fn extract_handles_non_ascii_text() {
    assert_eq!(
        extract("größe = {value};", "  größe = münchen;"),
        Some(String::from("münchen"))
    );
}

#[test]
fn parse_reads_key_value_lines() {
    let pairs = parse("a = 1\n  b =  \"two\" \n\nc=3").unwrap();
    assert_eq!(
        pairs,
        vec![
            (String::from("a"), String::from("1")),
            (String::from("b"), String::from("two")),
            (String::from("c"), String::from("3")),
        ]
    );
}

#[test]
fn parse_overrides_repeated_keys() {
    let pairs = parse("a = 1\na = 2").unwrap();
    assert_eq!(pairs, vec![(String::from("a"), String::from("2"))]);
}

#[test]
fn parse_reports_lines_missing_assignment() {
    let errs = parse("a = 1\nbad line\nalso bad").unwrap_err();
    assert_eq!(errs, vec![1, 2]);
}

#[test]
fn from_hash_renders_pairs() {
    let pairs = vec![
        (String::from("k"), String::from("v")),
        (String::from("x"), String::from("y")),
    ];
    assert_eq!(from_hash(pairs), "k = v\nx = y\n");
}

#[test]
fn merge_overrides_and_appends() {
    let base = vec![
        (String::from("a"), String::from("1")),
        (String::from("b"), String::from("2")),
    ];
    let extra = vec![
        (String::from("b"), String::from("20")),
        (String::from("c"), String::from("3")),
    ];
    assert_eq!(
        merge(base, extra),
        vec![
            (String::from("a"), String::from("1")),
            (String::from("b"), String::from("20")),
            (String::from("c"), String::from("3")),
        ]
    );
}

#[test]
fn trim_strips_unicode_whitespace() {
    assert_eq!(trim_str("  x\t"), "x");
    assert_eq!(trim_str("\u{00A0}y\u{2003}"), "y");
    assert_eq!(trim_str("   "), "");
}

#[test]
fn i32_validity_matches_std_parse() {
    for s in [
        "0",
        "42",
        "+42",
        "-42",
        "2147483647",
        "2147483648",
        "-2147483648",
        "-2147483649",
        "",
        "+",
        "-",
        "1.5",
        "12a",
        "99999999999999999999",
    ] {
        assert_eq!(is_valid_i32(s), s.parse::<i32>().is_ok(), "input {:?}", s);
    }
}

fn attrs(pairs: &[(&str, &str)]) -> Vec<(String, String)> {
    pairs
        .iter()
        .map(|(k, v)| (String::from(*k), String::from(*v)))
        .collect()
}

fn complete_setting() -> Vec<(String, String)> {
    attrs(&[
        ("name", "s"),
        ("file", "f"),
        ("value_type", "text"),
        ("replace_at", "3"),
        ("replace_with", "w"),
        ("match_pattern", "p"),
        ("match_type", "line"),
    ])
}

#[test]
fn evaluate_accepts_complete_setting() {
    let s = complete_setting();
    assert_eq!(evaluate_setting(s.clone(), 0), Ok(s));
}

#[test]
fn evaluate_rejects_missing_attribute() {
    let mut s = complete_setting();
    s.retain(|p| p.0 != "file");
    assert_eq!(evaluate_setting(s, 0), Err(()));
}

#[test]
fn evaluate_rejects_bad_replace_at() {
    let mut s = complete_setting();
    s[3].1 = String::from("soon");
    assert_eq!(evaluate_setting(s, 0), Err(()));
}

#[test]
fn evaluate_checks_boolean_markers() {
    let mut s = complete_setting();
    s[2].1 = String::from("boolean");
    assert_eq!(evaluate_setting(s.clone(), 0), Err(()));
    s[4].1 = String::from("<|true_begin|>a<|true_end|><|false_begin|>b<|false_end|>");
    assert_eq!(evaluate_setting(s.clone(), 0), Ok(s));
}

#[test]
fn evaluate_checks_region_markers() {
    let mut s = complete_setting();
    s[6].1 = String::from("region");
    assert_eq!(evaluate_setting(s.clone(), 0), Err(()));
    s[5].1 = String::from(
        "<|first_pattern_begin|>a<|first_pattern_end|><|second_pattern_begin|>b<|second_pattern_end|>",
    );
    assert_eq!(evaluate_setting(s.clone(), 0), Ok(s));
}

#[test]
fn evaluate_rejects_unknown_kinds() {
    let mut s = complete_setting();
    s[2].1 = String::from("number");
    assert_eq!(evaluate_setting(s, 0), Err(()));
    let mut s = complete_setting();
    s[6].1 = String::from("block");
    assert_eq!(evaluate_setting(s, 0), Err(()));
}

#[test]
fn split_sections_cuts_on_separator_lines() {
    let sections = split_sections("--\na = 1\nb = 2\n--\nc = 3\n--");
    assert_eq!(sections.len(), 2);
    assert_eq!(sections[0], (0, String::from("a = 1\nb = 2")));
    assert_eq!(sections[1], (3, String::from("c = 3")));
}

#[test]
fn split_sections_without_separators_is_empty() {
    assert!(split_sections("a = 1\nb = 2").is_empty());
}

#[test]
fn color_codes_look_up_by_name_and_ground() {
    assert_eq!(color("green", "fg"), "\x1b[0;32m");
    assert_eq!(color("green", "bg"), "\x1b[0;42m");
    assert_eq!(color("anything", "clear"), "\x1b[0m");
    assert_eq!(color("no_such_color", "fg"), "");
    assert_eq!(color("green", "nowhere"), "");
}
