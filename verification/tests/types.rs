use exconman::modifier::ValueType;
use exconman::registry;

fn registry_setting() -> registry::Setting {
    registry::Setting {
        file: String::from("f"),
        value_type: registry::ValueType::Text,
        replace_with: String::from("w"),
        replace_line: registry::ReplaceLine::Matched,
        match_pattern: String::from("p"),
        match_type: registry::MatchType::Line,
    }
}

#[test]
fn registry_settings_compare_by_fields() {
    let a = registry_setting();
    let b = registry_setting();
    assert!(a == b);
    let mut c = registry_setting();
    c.match_type = registry::MatchType::Region;
    assert!(a != c);
}

#[test]
fn modifier_values_compare_by_variant() {
    assert!(ValueType::Bool(true) == ValueType::Bool(true));
    assert!(ValueType::Bool(true) != ValueType::Bool(false));
    assert!(ValueType::Text(String::from("x")) == ValueType::Text(String::from("x")));
    assert!(ValueType::Bool(true) != ValueType::Text(String::from("true")));
}
