use mcp_agent::json::{parse_json, ser_value, JsonValue};

fn parse(s: &str) -> Option<JsonValue> {
    parse_json(&s.as_bytes().to_vec())
}

#[test]
fn parses_literals() {
    assert_eq!(parse("null"), Some(JsonValue::Null));
    assert_eq!(parse(" true "), Some(JsonValue::Bool(true)));
    assert_eq!(parse("false"), Some(JsonValue::Bool(false)));
    assert_eq!(parse("nul"), None);
    assert_eq!(parse("truex"), None);
}

#[test]
fn parses_numbers_keeping_their_token() {
    assert_eq!(parse("42"), Some(JsonValue::Num(b"42".to_vec())));
    assert_eq!(parse("-32600"), Some(JsonValue::Num(b"-32600".to_vec())));
    assert_eq!(parse("3.14e+2"), Some(JsonValue::Num(b"3.14e+2".to_vec())));
    assert_eq!(parse("0"), Some(JsonValue::Num(b"0".to_vec())));
    // Leading zeros and bare signs are not numbers.
    assert_eq!(parse("01"), None);
    assert_eq!(parse("-"), None);
    assert_eq!(parse("1."), None);
    assert_eq!(parse("1e"), None);
}

#[test]
fn parses_strings_and_escapes() {
    assert_eq!(parse(r#""hi""#), Some(JsonValue::Str(b"hi".to_vec())));
    assert_eq!(
        parse(r#""a\nb\t\"c\"\\""#),
        Some(JsonValue::Str(b"a\nb\t\"c\"\\".to_vec()))
    );
    assert_eq!(parse(r#""A""#), Some(JsonValue::Str(b"A".to_vec())));
    // A surrogate pair encodes one four-byte scalar.
    assert_eq!(
        parse(r#""😀""#),
        Some(JsonValue::Str(vec![0xF0, 0x9F, 0x98, 0x80]))
    );
    // A lone surrogate is rejected, as is a raw control byte.
    assert_eq!(parse(r#""\ud83d""#), None);
    assert_eq!(parse("\"a\nb\""), None);
    assert_eq!(parse(r#""unterminated"#), None);
}

#[test]
fn parses_arrays_and_objects() {
    assert_eq!(parse("[]"), Some(JsonValue::Arr(vec![])));
    assert_eq!(parse("{ }"), Some(JsonValue::Obj(vec![])));
    assert_eq!(
        parse(r#"[1, "x", [true]]"#),
        Some(JsonValue::Arr(vec![
            JsonValue::Num(b"1".to_vec()),
            JsonValue::Str(b"x".to_vec()),
            JsonValue::Arr(vec![JsonValue::Bool(true)]),
        ]))
    );
    assert_eq!(
        parse(r#"{"a": 1, "b": {"c": null}}"#),
        Some(JsonValue::Obj(vec![
            (b"a".to_vec(), JsonValue::Num(b"1".to_vec())),
            (
                b"b".to_vec(),
                JsonValue::Obj(vec![(b"c".to_vec(), JsonValue::Null)])
            ),
        ]))
    );
    assert_eq!(parse("[1,]"), None);
    assert_eq!(parse("[1 2]"), None);
    assert_eq!(parse(r#"{"a" 1}"#), None);
    assert_eq!(parse(r#"{"a":1"#), None);
}

#[test]
fn strict_parsing_rejects_surrounding_text() {
    assert_eq!(parse("{} trailing"), None);
    assert_eq!(parse("leading {}"), None);
    assert_eq!(parse(""), None);
    assert_eq!(parse("   "), None);
}

#[test]
fn serializes_compactly() {
    let v = JsonValue::Obj(vec![
        (b"a".to_vec(), JsonValue::Num(b"1".to_vec())),
        (
            b"b".to_vec(),
            JsonValue::Arr(vec![JsonValue::Null, JsonValue::Bool(false)]),
        ),
        (b"s".to_vec(), JsonValue::Str(b"x\"y\\z\n".to_vec())),
    ]);
    let out = ser_value(&v);
    assert_eq!(
        String::from_utf8(out).unwrap(),
        r#"{"a":1,"b":[null,false],"s":"x\"y\\z\u000a"}"#
    );
}

#[test]
fn serializer_output_round_trips() {
    let v = JsonValue::Obj(vec![
        (b"k".to_vec(), JsonValue::Str(b"line1\nline2".to_vec())),
        (b"n".to_vec(), JsonValue::Num(b"-7.5e3".to_vec())),
        (b"l".to_vec(), JsonValue::Arr(vec![JsonValue::Obj(vec![])])),
    ]);
    let out = ser_value(&v);
    assert_eq!(parse_json(&out), Some(v));
}

#[test]
fn serializer_output_agrees_with_serde_json() {
    let v = JsonValue::Obj(vec![
        (b"name".to_vec(), JsonValue::Str(b"with \"quotes\"".to_vec())),
        (b"count".to_vec(), JsonValue::Num(b"12".to_vec())),
        (b"flag".to_vec(), JsonValue::Bool(true)),
    ]);
    let out = ser_value(&v);
    let decoded: serde_json::Value = serde_json::from_slice(&out).unwrap();
    assert_eq!(decoded["name"], serde_json::Value::String("with \"quotes\"".to_string()));
    assert_eq!(decoded["count"], serde_json::Value::Number(serde_json::Number::from(12)));
    assert_eq!(decoded["flag"], serde_json::Value::Bool(true));
}

#[test]
fn parser_agrees_with_serde_json_on_acceptance() {
    let cases = [
        r#"{"a": [1, 2.5, -3], "b": "xé"}"#,
        "[true, false, null]",
        r#""just a string""#,
        "{,}",
        "[1,,2]",
        r#"{"a"}"#,
    ];
    for c in cases {
        let mine = parse(c).is_some();
        let serde = serde_json::from_str::<serde_json::Value>(c).is_ok();
        assert_eq!(mine, serde, "disagreement on {c:?}");
    }
}
