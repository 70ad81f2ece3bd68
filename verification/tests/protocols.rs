use sentinel::json::JsonValue;
use sentinel::protocol::{
    encode_operative_message, encode_sentinel_message, parse_operative_message,
    parse_sentinel_message, OperativeMessage, SentinelMessage,
};

fn members(v: &JsonValue) -> &Vec<(String, JsonValue)> {
    match v {
        JsonValue::Object(m) => m,
        _ => panic!("expected object"),
    }
}

fn field<'a>(v: &'a JsonValue, key: &str) -> &'a JsonValue {
    for (k, val) in members(v) {
        if k == key {
            return val;
        }
    }
    panic!("missing field");
}

#[test]
fn parse_progress_message() {
    let json = r#"{"type":"progress","id":"t1","step":"compile","status":"running"}"#;
    let msg = parse_operative_message(json.as_bytes()).unwrap();
    assert!(matches!(msg, OperativeMessage::Progress { ref id, .. } if id == "t1"));
}

#[test]
fn parse_progress_with_data() {
    let json = r#"{"type":"progress","id":"t1","step":"s","status":"ok","data":{"pct":50}}"#;
    let msg = parse_operative_message(json.as_bytes()).unwrap();
    if let OperativeMessage::Progress { data, .. } = msg {
        let data = data.unwrap();
        match field(&data, "pct") {
            JsonValue::Number(lex) => assert_eq!(lex, "50"),
            _ => panic!("expected number"),
        }
    } else {
        panic!("expected Progress");
    }
}

#[test]
fn parse_result_message() {
    let json = r#"{"type":"result","id":"t2","output":{"key":"val"},"exit_code":0}"#;
    let msg = parse_operative_message(json.as_bytes()).unwrap();
    if let OperativeMessage::Result { id, exit_code, .. } = msg {
        assert_eq!(id, "t2");
        assert_eq!(exit_code, 0);
    } else {
        panic!("expected Result");
    }
}

#[test]
fn parse_error_message() {
    let json = r#"{"type":"error","id":"t3","error":"boom","exit_code":1}"#;
    let msg = parse_operative_message(json.as_bytes()).unwrap();
    if let OperativeMessage::Error { error, exit_code, .. } = msg {
        assert_eq!(error, "boom");
        assert_eq!(exit_code, 1);
    } else {
        panic!("expected Error");
    }
}

#[test]
fn parse_tool_call_message() {
    let json = r#"{"type":"tool_call","id":"t4","call_id":"c1","tool":"grep","params":{"q":"x"}}"#;
    let msg = parse_operative_message(json.as_bytes()).unwrap();
    if let OperativeMessage::ToolCall { tool, call_id, .. } = msg {
        assert_eq!(tool, "grep");
        assert_eq!(call_id, "c1");
    } else {
        panic!("expected ToolCall");
    }
}

#[test]
fn oversized_message_rejected() {
    let big = vec![b' '; 1_048_576 + 1];
    let err = parse_operative_message(&big).unwrap_err();
    assert!(err.message().contains("too large"));
}

#[test]
fn exactly_max_size_accepted() {
    let json = r#"{"type":"error","id":"x","error":"e","exit_code":0}"#;
    assert!(json.len() <= 1_048_576);
    assert!(parse_operative_message(json.as_bytes()).is_ok());
}

#[test]
fn max_size_frame_parses_when_valid() {
    let prefix = r#"{"type":"error","id":"x","error":""#;
    let suffix = r#"","exit_code":0}"#;
    let filler = 1_048_576 - prefix.len() - suffix.len();
    let json = format!("{}{}{}", prefix, "a".repeat(filler), suffix);
    assert_eq!(json.len(), 1_048_576);
    let msg = parse_operative_message(json.as_bytes()).unwrap();
    if let OperativeMessage::Error { error, .. } = msg {
        assert_eq!(error.len(), filler);
    } else {
        panic!("expected Error");
    }
}

#[test]
fn one_byte_over_max_rejected_even_when_valid() {
    let prefix = r#"{"type":"error","id":"x","error":""#;
    let suffix = r#"","exit_code":0}"#;
    let filler = 1_048_576 + 1 - prefix.len() - suffix.len();
    let json = format!("{}{}{}", prefix, "a".repeat(filler), suffix);
    assert_eq!(json.len(), 1_048_577);
    let err = parse_operative_message(json.as_bytes()).unwrap_err();
    assert!(err.message().contains("too large"));
}

#[test]
fn malformed_json_rejected() {
    let err = parse_operative_message(b"not json").unwrap_err();
    assert!(err.message().contains("invalid message"));
}

#[test]
fn unknown_type_tag_rejected() {
    let json = r#"{"type":"unknown","id":"t1"}"#;
    assert!(parse_operative_message(json.as_bytes()).is_err());
}

#[test]
fn empty_payload_rejected() {
    assert!(parse_operative_message(b"").is_err());
}

#[test]
fn missing_required_field_rejected() {
    let json = r#"{"type":"result","id":"t2","exit_code":0}"#;
    assert!(parse_operative_message(json.as_bytes()).is_err());
}

#[test]
fn fractional_exit_code_rejected() {
    let json = r#"{"type":"error","id":"t3","error":"boom","exit_code":1.5}"#;
    assert!(parse_operative_message(json.as_bytes()).is_err());
}

#[test]
fn sentinel_message_task_round_trip() {
    let msg = SentinelMessage::Task {
        id: "t1".to_string(),
        payload: JsonValue::Object(
            vec![("cmd".to_string(), JsonValue::Text("echo hi".to_string()))],
        ),
        tools: vec!["grep".to_string(), "curl".to_string()],
    };
    let bytes = encode_sentinel_message(&msg);
    let parsed = parse_sentinel_message(&bytes).unwrap();
    if let SentinelMessage::Task { id, tools, .. } = parsed {
        assert_eq!(id, "t1");
        assert_eq!(tools.len(), 2);
        assert_eq!(tools[0], "grep");
        assert_eq!(tools[1], "curl");
    } else {
        panic!("expected Task");
    }
}

#[test]
fn sentinel_message_tool_result_round_trip() {
    let msg = SentinelMessage::ToolResult {
        id: "t1".to_string(),
        call_id: "c1".to_string(),
        result: JsonValue::Object(vec![("found".to_string(), JsonValue::Bool(true))]),
    };
    let bytes = encode_sentinel_message(&msg);
    let parsed = parse_sentinel_message(&bytes).unwrap();
    assert!(matches!(parsed, SentinelMessage::ToolResult { .. }));
    if let SentinelMessage::ToolResult { result, .. } = parsed {
        assert!(matches!(field(&result, "found"), JsonValue::Bool(true)));
    }
}

#[test]
fn sentinel_task_round_trip_preserves_payload() {
    let msg = SentinelMessage::Task {
        id: "t9".to_string(),
        payload: JsonValue::Array(
            vec![
                JsonValue::Null,
                JsonValue::Number("-3.5e2".to_string()),
                JsonValue::Text("line\nbreak \"quoted\"".to_string()),
            ],
        ),
        tools: Vec::new(),
    };
    let bytes = encode_sentinel_message(&msg);
    let parsed = parse_sentinel_message(&bytes).unwrap();
    if let SentinelMessage::Task { payload, .. } = parsed {
        match payload {
            JsonValue::Array(items) => {
                assert!(matches!(items[0], JsonValue::Null));
                assert!(matches!(&items[1], JsonValue::Number(lex) if lex == "-3.5e2"));
                assert!(
                    matches!(&items[2], JsonValue::Text(s) if s == "line\nbreak \"quoted\"")
                );
            },
            _ => panic!("expected array payload"),
        }
    } else {
        panic!("expected Task");
    }
}

#[test]
fn operative_result_round_trip() {
    let msg = OperativeMessage::Result {
        id: "t7".to_string(),
        output: JsonValue::Object(vec![("k".to_string(), JsonValue::Text("val".to_string()))]),
        exit_code: -17,
    };
    let bytes = encode_operative_message(&msg);
    let parsed = parse_operative_message(&bytes).unwrap();
    if let OperativeMessage::Result { id, output, exit_code } = parsed {
        assert_eq!(id, "t7");
        assert_eq!(exit_code, -17);
        assert!(matches!(field(&output, "k"), JsonValue::Text(s) if s == "val"));
    } else {
        panic!("expected Result");
    }
}

#[test]
fn operative_progress_without_data_round_trip() {
    let msg = OperativeMessage::Progress {
        id: "t8".to_string(),
        step: "build".to_string(),
        status: "running".to_string(),
        data: None,
    };
    let bytes = encode_operative_message(&msg);
    let parsed = parse_operative_message(&bytes).unwrap();
    if let OperativeMessage::Progress { data, .. } = parsed {
        assert!(data.is_none());
    } else {
        panic!("expected Progress");
    }
}
