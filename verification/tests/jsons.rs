use sentinel::json::{parse_json, to_json_bytes, JsonValue};

#[test]
fn parse_simple_object() {
    let v = parse_json(br#"{"a":1,"b":[true,null],"c":"x"}"#).unwrap();
    match v {
        JsonValue::Object(m) => {
            assert_eq!(m.len(), 3);
            assert_eq!(m[0].0, "a");
            assert!(matches!(&m[0].1, JsonValue::Number(lex) if lex == "1"));
            assert!(matches!(&m[2].1, JsonValue::Text(s) if s == "x"));
        },
        _ => panic!("expected object"),
    }
}

#[test]
fn parse_accepts_whitespace() {
    let v = parse_json(b" { \"a\" : [ 1 , 2 ] } ").unwrap();
    assert!(matches!(v, JsonValue::Object(_)));
}

#[test]
fn parse_rejects_trailing_garbage() {
    assert!(parse_json(b"{} x").is_none());
    assert!(parse_json(b"1 2").is_none());
}

#[test]
fn parse_rejects_bad_numbers() {
    assert!(parse_json(b"01").is_none());
    assert!(parse_json(b"1.").is_none());
    assert!(parse_json(b"+1").is_none());
    assert!(parse_json(b"1e").is_none());
    assert!(parse_json(b"-").is_none());
}

#[test]
fn parse_accepts_number_forms() {
    assert!(matches!(parse_json(b"0").unwrap(), JsonValue::Number(lex) if lex == "0"));
    assert!(matches!(parse_json(b"-0").unwrap(), JsonValue::Number(lex) if lex == "-0"));
    assert!(
        matches!(parse_json(b"12.50e-3").unwrap(), JsonValue::Number(lex) if lex == "12.50e-3")
    );
}

#[test]
fn parse_unescapes_strings() {
    let v = parse_json(br#""a\nb\t\"\\A""#).unwrap();
    assert!(matches!(v, JsonValue::Text(s) if s == "a\nb\t\"\\A"));
}

#[test]
fn parse_decodes_surrogate_pairs() {
    let v = parse_json("\"𝄞\"".as_bytes()).unwrap();
    assert!(matches!(v, JsonValue::Text(s) if s == "\u{1D11E}"));
}

#[test]
fn parse_decodes_escaped_surrogate_pair() {
    let v = parse_json(br#""\ud834\udd1e""#).unwrap();
    assert!(matches!(v, JsonValue::Text(s) if s == "\u{1D11E}"));
}

#[test]
fn parse_decodes_unicode_escape() {
    let v = parse_json(br#""\u0041\u00e9""#).unwrap();
    assert!(matches!(v, JsonValue::Text(s) if s == "A\u{e9}"));
}

#[test]
fn parse_rejects_lone_surrogate() {
    assert!(parse_json(br#""\ud834""#).is_none());
}

#[test]
fn parse_rejects_raw_control_byte() {
    assert!(parse_json(b"\"a\x01b\"").is_none());
}

#[test]
fn parse_rejects_unterminated_string() {
    assert!(parse_json(br#""abc"#).is_none());
}

#[test]
fn parse_preserves_utf8_content() {
    let v = parse_json("\"caf\u{e9} \u{1F600}\"".as_bytes()).unwrap();
    assert!(matches!(v, JsonValue::Text(s) if s == "caf\u{e9} \u{1F600}"));
}

#[test]
fn serialize_escapes_and_round_trips() {
    let v = JsonValue::Object(vec![
        ("k\"ey".to_string(), JsonValue::Text("a\\b\n\u{7}".to_string())),
        ("nested".to_string(), JsonValue::Array(vec![
            JsonValue::Bool(false),
            JsonValue::Object(Vec::new()),
            JsonValue::Array(Vec::new()),
        ])),
    ]);
    let bytes = to_json_bytes(&v);
    let parsed = parse_json(&bytes).unwrap();
    let reserialized = to_json_bytes(&parsed);
    assert_eq!(bytes, reserialized);
    match parsed {
        JsonValue::Object(m) => {
            assert_eq!(m[0].0, "k\"ey");
            assert!(matches!(&m[0].1, JsonValue::Text(s) if s == "a\\b\n\u{7}"));
        },
        _ => panic!("expected object"),
    }
}

#[test]
fn serializer_output_is_plain() {
    let v = JsonValue::Array(vec![
        JsonValue::Number("7".to_string()),
        JsonValue::Text("x".to_string()),
    ]);
    assert_eq!(to_json_bytes(&v), br#"[7,"x"]"#.to_vec());
}

#[test]
fn first_duplicate_key_wins() {
    let json = br#"{"type":"error","type":"other","id":"t","error":"e","exit_code":0}"#;
    let msg = sentinel::protocol::parse_operative_message(json).unwrap();
    assert!(matches!(msg, sentinel::protocol::OperativeMessage::Error { .. }));
}
