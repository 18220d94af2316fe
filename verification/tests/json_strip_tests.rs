use mtg_forge_rs::json_strip::{is_excluded_key, strip_metadata, JsonValue};

fn num(n: &str) -> JsonValue {
    JsonValue::Number(n.to_string())
}

fn obj(entries: Vec<(&str, JsonValue)>) -> JsonValue {
    JsonValue::Object(entries.into_iter().map(|(k, v)| (k.to_string(), v)).collect())
}

#[test]
fn test_strip_metadata() {
    let json = obj(vec![
        ("turn_number", num("5")),
        ("choice_id", num("42")),
        (
            "undo_log",
            JsonValue::Array(vec![JsonValue::Str("action1".to_string()), JsonValue::Str("action2".to_string())]),
        ),
        ("player", obj(vec![("life", num("20")), ("lands_played_this_turn", num("1"))])),
    ]);

    let cleaned = strip_metadata(json);

    assert_eq!(cleaned, obj(vec![("turn_number", num("5")), ("player", obj(vec![("life", num("20"))]))]));
}

#[test]
fn strip_reaches_into_arrays() {
    let json = JsonValue::Array(vec![
        obj(vec![("logger", JsonValue::Null), ("name", JsonValue::Str("Bolt".to_string()))]),
        JsonValue::Bool(true),
        JsonValue::Array(vec![obj(vec![("output_mode", num("1")), ("tapped", JsonValue::Bool(false))])]),
    ]);
    let expected = JsonValue::Array(vec![
        obj(vec![("name", JsonValue::Str("Bolt".to_string()))]),
        JsonValue::Bool(true),
        JsonValue::Array(vec![obj(vec![("tapped", JsonValue::Bool(false))])]),
    ]);
    assert_eq!(strip_metadata(json), expected);
}

#[test]
fn strip_leaves_plain_values() {
    assert_eq!(strip_metadata(JsonValue::Null), JsonValue::Null);
    assert_eq!(strip_metadata(num("-3.5")), num("-3.5"));
    assert_eq!(strip_metadata(JsonValue::Str("choice_id".to_string())), JsonValue::Str("choice_id".to_string()));
}

#[test]
fn strip_twice_same_as_once() {
    let make = || {
        obj(vec![
            ("numeric_choices", JsonValue::Bool(true)),
            ("zones", obj(vec![("step_header_printed", JsonValue::Bool(false)), ("hand", JsonValue::Array(vec![]))])),
        ])
    };
    let once = strip_metadata(make());
    let twice = strip_metadata(strip_metadata(make()));
    assert_eq!(once, twice);
    assert_eq!(once, obj(vec![("zones", obj(vec![("hand", JsonValue::Array(vec![]))]))]));
}

#[test]
fn excluded_keys_listed() {
    for k in [
        "choice_id",
        "undo_log",
        "logger",
        "show_choice_menu",
        "output_mode",
        "output_format",
        "numeric_choices",
        "step_header_printed",
        "lands_played_this_turn",
    ] {
        assert!(is_excluded_key(k));
    }
    assert!(!is_excluded_key("life"));
    assert!(!is_excluded_key("Choice_id"));
}
