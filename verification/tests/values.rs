use lemonyde::keyed_map::KeyedMap;
use lemonyde::text::trim_text;
use lemonyde::value::{
    as_bool, coerce_value, config_value_to_string, value_to_string, Coerced, ConfigValue,
    FlagValue,
};

fn coerced_int(text: &str) -> Option<i128> {
    match coerce_value(text) {
        Coerced::Value(FlagValue::Int(i)) => Some(i),
        _ => None,
    }
}

fn coerced_text(text: &str) -> Option<String> {
    match coerce_value(text) {
        Coerced::Value(FlagValue::Text(t)) => Some(t),
        _ => None,
    }
}

#[test]
fn coerce_booleans_ignore_case_and_spaces() {
    assert!(matches!(coerce_value("true"), Coerced::Value(FlagValue::Bool(true))));
    assert!(matches!(coerce_value("  TrUe \n"), Coerced::Value(FlagValue::Bool(true))));
    assert!(matches!(coerce_value("FALSE"), Coerced::Value(FlagValue::Bool(false))));
    assert_eq!(coerced_text("truee"), Some("truee".to_string()));
}

#[test]
fn coerce_integers_like_i64_from_str() {
    assert_eq!(coerced_int("400"), Some(400));
    assert_eq!(coerced_int(" -17 "), Some(-17));
    assert_eq!(coerced_int("+5"), Some(5));
    assert_eq!(coerced_int("007"), Some(7));
    assert_eq!(coerced_int("9223372036854775807"), Some(9223372036854775807));
    assert_eq!(coerced_int("-9223372036854775808"), Some(-9223372036854775808));
    assert_eq!(coerced_int("-"), None);
    assert_eq!(coerced_int("+"), None);
    assert_eq!(coerced_int("1_000"), None);
}

#[test]
fn coerce_out_of_range_integer_is_a_decimal() {
    match coerce_value("9223372036854775808") {
        Coerced::Decimal(t) => assert_eq!(t, "9223372036854775808"),
        other => panic!("unexpected {:?}", other),
    }
}

#[test]
fn coerce_decimals_follow_the_float_grammar() {
    for text in ["1.5", ".5", "5.", "1e5", "1E-3", "-2.5e+10", "inf", "-Infinity", "NaN", "+nan"] {
        match coerce_value(text) {
            Coerced::Decimal(t) => assert_eq!(t, text),
            other => panic!("{} gave {:?}", text, other),
        }
    }
    for text in [".", "e5", "1e", "1.2.3", "infinit", "0x10", "1e+", "--1"] {
        assert_eq!(coerced_text(text), Some(text.to_string()), "{}", text);
    }
}

#[test]
fn coerce_keeps_other_text_trimmed() {
    assert_eq!(coerced_text("  hello world  "), Some("hello world".to_string()));
    assert_eq!(coerced_text(""), Some(String::new()));
    assert_eq!(coerced_text("\u{a0}x\u{3000}"), Some("x".to_string()));
}

#[test]
fn trim_removes_unicode_white_space() {
    assert_eq!(trim_text(" \t a b \r\n"), "a b");
    assert_eq!(trim_text("\u{2003}z\u{85}"), "z");
    assert_eq!(trim_text("   "), "");
}

#[test]
fn shown_values() {
    assert_eq!(value_to_string(&FlagValue::Null), "null");
    assert_eq!(value_to_string(&FlagValue::Bool(true)), "true");
    assert_eq!(value_to_string(&FlagValue::Bool(false)), "false");
    assert_eq!(value_to_string(&FlagValue::Int(-42)), "-42");
    assert_eq!(value_to_string(&FlagValue::Int(18446744073709551615)), "18446744073709551615");
    assert_eq!(value_to_string(&FlagValue::Int(0)), "0");
    assert_eq!(value_to_string(&FlagValue::Float("1.5".to_string())), "1.5");
    assert_eq!(value_to_string(&FlagValue::Text("a \"b\"".to_string())), "a \"b\"");
    assert_eq!(value_to_string(&FlagValue::Nested("[1,2]".to_string())), "[1,2]");
}

#[test]
fn shown_integers_read_back() {
    for i in [0i64, 1, -1, 400, i64::MAX, i64::MIN, 1234567890] {
        let shown = value_to_string(&FlagValue::Int(i as i128));
        assert_eq!(coerced_int(&shown), Some(i as i128));
        assert_eq!(shown, i.to_string());
    }
}

#[test]
fn shown_booleans_read_back() {
    for b in [true, false] {
        let shown = value_to_string(&FlagValue::Bool(b));
        assert!(matches!(coerce_value(&shown), Coerced::Value(FlagValue::Bool(x)) if x == b));
    }
}

#[test]
fn objects_are_shown_as_compact_json() {
    let mut m: KeyedMap<FlagValue> = KeyedMap::new();
    m.insert("b".to_string(), FlagValue::Int(2));
    m.insert("a".to_string(), FlagValue::Text("x\"y\\z\n\u{1}".to_string()));
    m.insert("c".to_string(), FlagValue::Null);
    let shown = config_value_to_string(&ConfigValue::Table(m));
    assert_eq!(shown, "{\"a\":\"x\\\"y\\\\z\\n\\u0001\",\"b\":2,\"c\":null}");
    let empty: KeyedMap<FlagValue> = KeyedMap::new();
    assert_eq!(config_value_to_string(&ConfigValue::Table(empty)), "{}");
    assert_eq!(config_value_to_string(&ConfigValue::Value(FlagValue::Text("t".to_string()))), "t");
}

#[test]
fn only_stored_booleans_are_booleans() {
    assert_eq!(as_bool(&ConfigValue::Value(FlagValue::Bool(true))), Some(true));
    assert_eq!(as_bool(&ConfigValue::Value(FlagValue::Int(1))), None);
    assert_eq!(as_bool(&ConfigValue::Value(FlagValue::Text("true".to_string()))), None);
}

#[test]
fn keyed_map_keeps_keys_sorted_and_unique() {
    let mut m: KeyedMap<FlagValue> = KeyedMap::new();
    m.insert("zeta".to_string(), FlagValue::Int(1));
    m.insert("alpha".to_string(), FlagValue::Int(2));
    m.insert("Beta".to_string(), FlagValue::Int(3));
    m.insert("alpha".to_string(), FlagValue::Int(4));
    assert_eq!(m.len(), 3);
    let keys: Vec<String> = (0..m.len()).map(|i| m.entry(i).0.clone()).collect();
    assert_eq!(keys, vec!["Beta", "alpha", "zeta"]);
    assert!(matches!(m.get("alpha"), Some(FlagValue::Int(4))));
    assert!(m.get("gamma").is_none());
    assert!(matches!(m.remove("zeta"), Some(FlagValue::Int(1))));
    assert!(m.remove("zeta").is_none());
    assert!(!m.contains_key("zeta"));
    assert_eq!(m.len(), 2);
    m.clear();
    assert_eq!(m.len(), 0);
}

#[test]
fn shown_decimal_comes_back_as_the_same_decimal() {
    for shown in ["1.5", "-0.25", "1e300", "2.0"] {
        let text = value_to_string(&FlagValue::Float(shown.to_string()));
        match coerce_value(&text) {
            Coerced::Decimal(t) => assert_eq!(t, shown),
            other => panic!("{} gave {:?}", shown, other),
        }
    }
}
