use exconman::engine::{get_content, get_setting, set_content, SettingError};
use exconman::jsonio::{parse_load_file, render_dump};
use exconman::setting::{Pattern, Replace, Setting};

fn line_setting(pattern: &str, substitute: &str) -> Setting {
    Setting {
        name: String::from("s"),
        file: String::from("target"),
        pattern: Pattern::Line(String::from(pattern)),
        substitute: String::from(substitute),
        replace: None,
        read_value_path: None,
        multiple: None,
        before: None,
        after: None,
    }
}

fn region_setting(start: &str, end: &str, substitute: &str) -> Setting {
    Setting {
        name: String::from("s"),
        file: String::from("target"),
        pattern: Pattern::Region([String::from(start), String::from(end)]),
        substitute: String::from(substitute),
        replace: None,
        read_value_path: None,
        multiple: None,
        before: None,
        after: None,
    }
}

#[test]
fn set_replaces_matched_line() {
    let setting = line_setting("set tabstop=\\d+", "set tabstop={value}");
    let out = set_content(&setting, "8", "foo\nset tabstop=4\nbar").unwrap();
    assert_eq!(out, "foo\nset tabstop=8\nbar");
}

#[test]
fn get_reads_value_back() {
    let setting = line_setting("set tabstop=\\d+", "set tabstop={value}");
    let v = get_content(&setting, "foo\nset tabstop=8\nbar").unwrap();
    assert_eq!(v, "8");
}

#[test]
fn set_then_get_round_trips() {
    let setting = line_setting("set tabstop=\\d+", "set tabstop={value}");
    let out = set_content(&setting, "12", "foo\nset tabstop=4\nbar").unwrap();
    assert_eq!(get_content(&setting, &out).unwrap(), "12");
}

#[test]
fn set_twice_is_idempotent() {
    let setting = line_setting("set tabstop=\\d+", "set tabstop={value}");
    let once = set_content(&setting, "8", "foo\nset tabstop=4\nbar").unwrap();
    let twice = set_content(&setting, "8", &once).unwrap();
    assert_eq!(once, twice);
}

#[test]
fn region_set_splices_interior() {
    let setting = region_setting("^start$", "^end$", "new");
    let out = set_content(&setting, "ignored", "start\nold1\nold2\nend").unwrap();
    assert_eq!(out, "start\nnew\nend");
}

#[test]
fn region_set_leaves_outside_untouched() {
    let setting = region_setting("^start$", "^end$", "new");
    let out = set_content(&setting, "x", "keep0\nstart\nold1\nold2\nend\nkeep1").unwrap();
    assert_eq!(out, "keep0\nstart\nnew\nend\nkeep1");
}

#[test]
fn region_get_reads_interior_value() {
    let setting = region_setting("^start$", "^end$", "value is {value} here");
    let out = set_content(&setting, "42", "start\nold\nend").unwrap();
    assert_eq!(out, "start\nvalue is 42 here\nend");
    assert_eq!(get_content(&setting, &out).unwrap(), "42");
}

#[test]
fn empty_region_interior_gains_one_line() {
    let setting = region_setting("^start$", "^end$", "new");
    let out = set_content(&setting, "x", "start\nend").unwrap();
    assert_eq!(out, "start\nnew\nend");
}

#[test]
fn region_get_without_placeholder_fails_decode() {
    let setting = region_setting("^start$", "^end$", "new");
    let out = set_content(&setting, "x", "start\nold\nend").unwrap();
    assert_eq!(get_content(&setting, &out), Err(SettingError::DecodeFailure));
}

#[test]
fn line_above_writes_previous_line() {
    let mut setting = line_setting("trigger", "{value}");
    setting.replace = Some(Replace::LineAbove);
    let out = set_content(&setting, "X", "a\ntrigger\nb").unwrap();
    assert_eq!(out, "X\ntrigger\nb");
}

#[test]
fn line_above_on_first_line_is_noop() {
    let mut setting = line_setting("trigger", "{value}");
    setting.replace = Some(Replace::LineAbove);
    let out = set_content(&setting, "X", "trigger\nb").unwrap();
    assert_eq!(out, "trigger\nb");
}

#[test]
fn line_below_writes_next_line() {
    let mut setting = line_setting("trigger", "{value}");
    setting.replace = Some(Replace::LineBelow);
    let out = set_content(&setting, "X", "a\ntrigger\nb").unwrap();
    assert_eq!(out, "a\ntrigger\nX");
}

#[test]
fn line_below_on_last_line_is_noop() {
    let mut setting = line_setting("trigger", "{value}");
    setting.replace = Some(Replace::LineBelow);
    let out = set_content(&setting, "X", "a\ntrigger").unwrap();
    assert_eq!(out, "a\ntrigger");
}

#[test]
fn single_match_touches_only_first() {
    let setting = line_setting("n=\\d+", "n={value}");
    let out = set_content(&setting, "9", "n=1\nmid\nn=2").unwrap();
    assert_eq!(out, "n=9\nmid\nn=2");
}

#[test]
fn multiple_touches_every_match() {
    let mut setting = line_setting("n=\\d+", "n={value}");
    setting.multiple = Some(true);
    let out = set_content(&setting, "9", "n=1\nmid\nn=2").unwrap();
    assert_eq!(out, "n=9\nmid\nn=9");
}

#[test]
fn multiple_region_uses_last_pair() {
    let mut setting = region_setting("^start$", "^end$", "new");
    setting.multiple = Some(true);
    let out = set_content(&setting, "x", "start\na\nend\nstart\nb\nend").unwrap();
    assert_eq!(out, "start\na\nend\nstart\nnew\nend");
}

#[test]
fn first_completed_pair_wins_without_multiple() {
    // The single-pass scan records an end seen before any start; the first
    // moment both are recorded wins, even though the pair is out of order.
    let setting = region_setting("^start$", "^end$", "new");
    assert_eq!(
        set_content(&setting, "x", "end\nstart\nend"),
        Err(SettingError::InvalidRegion)
    );
}

#[test]
fn multiple_region_scans_to_file_end() {
    let mut setting = region_setting("^start$", "^end$", "new");
    setting.multiple = Some(true);
    let out = set_content(&setting, "x", "end\nstart\nend").unwrap();
    assert_eq!(out, "end\nstart\nnew\nend");
}

#[test]
fn escaped_template_extracts_from_indented_line() {
    let setting = line_setting("width", "width = {value};");
    let v = get_content(&setting, "  width = 100;").unwrap();
    assert_eq!(v, "100");
}

#[test]
fn greedy_extraction_runs_to_last_suffix() {
    let setting = line_setting("v=", "v={value};");
    let v = get_content(&setting, "v=1;2;").unwrap();
    assert_eq!(v, "1;2");
}

#[test]
fn bad_pattern_is_compile_error() {
    let setting = line_setting("(", "x={value}");
    assert_eq!(
        set_content(&setting, "1", "anything"),
        Err(SettingError::RegexCompileError)
    );
    assert_eq!(
        get_content(&setting, "anything"),
        Err(SettingError::RegexCompileError)
    );
}

#[test]
fn missing_region_bound_is_invalid_region() {
    let setting = region_setting("^start$", "^end$", "new");
    assert_eq!(
        set_content(&setting, "x", "start\nonly"),
        Err(SettingError::InvalidRegion)
    );
}

#[test]
fn out_of_order_region_is_invalid_region() {
    let setting = region_setting("^start$", "^end$", "new");
    assert_eq!(
        set_content(&setting, "x", "end\nstart"),
        Err(SettingError::InvalidRegion)
    );
}

#[test]
fn unmatched_line_pattern_is_no_match_on_get() {
    let setting = line_setting("absent", "x={value}");
    assert_eq!(get_content(&setting, "a\nb"), Err(SettingError::NoMatch));
}

#[test]
fn missing_scaffolding_is_decode_failure() {
    let setting = line_setting("present", "absent = {value}");
    assert_eq!(
        get_content(&setting, "present"),
        Err(SettingError::DecodeFailure)
    );
}

#[test]
fn unmatched_set_rewrites_content_unchanged() {
    let setting = line_setting("absent", "x={value}");
    assert_eq!(set_content(&setting, "1", "a\nb").unwrap(), "a\nb");
}

#[test]
fn get_setting_finds_first_by_name() {
    let registry = vec![
        line_setting("a", "a={value}"),
        {
            let mut s = line_setting("b", "b={value}");
            s.name = String::from("other");
            s
        },
    ];
    let found = get_setting(String::from("other"), &registry).unwrap();
    assert_eq!(found.name, "other");
    assert!(get_setting(String::from("nobody"), &registry).is_none());
}

#[test]
fn load_file_parses_flat_mapping() {
    let entries = parse_load_file("{\"tabstop\": \"2\"}").unwrap();
    assert_eq!(entries, vec![(String::from("tabstop"), String::from("2"))]);
}

#[test]
fn load_entry_equals_direct_set() {
    let setting = line_setting("set tabstop=\\d+", "set tabstop={value}");
    let entries = parse_load_file("{\"tabstop\": \"2\"}").unwrap();
    assert_eq!(entries.len(), 1);
    let via_load = set_content(&setting, &entries[0].1, "foo\nset tabstop=4\nbar").unwrap();
    let direct = set_content(&setting, "2", "foo\nset tabstop=4\nbar").unwrap();
    assert_eq!(via_load, direct);
}

#[test]
fn malformed_load_file_is_reported() {
    assert_eq!(
        parse_load_file("not json at all"),
        Err(SettingError::MalformedLoadFile)
    );
    assert_eq!(
        parse_load_file("[1, 2]"),
        Err(SettingError::MalformedLoadFile)
    );
}

#[test]
fn dump_omits_failing_settings() {
    let with_failure = vec![
        (String::from("alpha"), Some(String::from("1"))),
        (String::from("broken"), None),
        (String::from("zeta"), Some(String::from("26"))),
    ];
    let without = vec![
        (String::from("alpha"), Some(String::from("1"))),
        (String::from("zeta"), Some(String::from("26"))),
    ];
    let a = render_dump(&with_failure);
    let b = render_dump(&without);
    assert_eq!(a, b);
    assert_eq!(a, "{\n  \"alpha\": \"1\",\n  \"zeta\": \"26\"\n}");
}

#[test]
fn dump_sorts_keys() {
    let results = vec![
        (String::from("zeta"), Some(String::from("26"))),
        (String::from("alpha"), Some(String::from("1"))),
    ];
    let out = render_dump(&results);
    assert_eq!(out, "{\n  \"alpha\": \"1\",\n  \"zeta\": \"26\"\n}");
}
