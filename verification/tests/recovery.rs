use serde_json::Value;
use xxgate::codex::recovery::{clean, has_recoverable_input, prepare, rejection};
use xxgate::codex::upstream_error::error_body_of;
use xxgate::json::{Json, JsonNumber};
use xxgate::protocol::{EncryptedContentError, RequestKind};

const ERROR: &[u8] = br#"{"error":{"code":"invalid_encrypted_content","message":"PRIVATE_ERROR"}}"#;

fn doc(v: &Value) -> Json {
    match v {
        Value::Null => Json::Null,
        Value::Bool(b) => Json::Bool(*b),
        Value::Number(n) => Json::Number(JsonNumber { text: n.to_string(), unsigned: n.as_u64() }),
        Value::String(s) => Json::Text(s.clone()),
        Value::Array(a) => Json::Array(a.iter().map(doc).collect()),
        Value::Object(o) => Json::Object(o.iter().map(|(k, v)| (k.clone(), doc(v))).collect()),
    }
}

/// The document as serde_json holds it, members in key order.
fn value_of(j: &Json) -> Value {
    match j {
        Json::Null => Value::Null,
        Json::Bool(b) => Value::Bool(*b),
        Json::Number(n) => serde_json::from_str(&n.text).unwrap(),
        Json::Text(s) => Value::String(s.clone()),
        Json::Array(a) => Value::Array(a.iter().map(value_of).collect()),
        Json::Object(o) => Value::Object(o.iter().map(|(k, v)| (k.clone(), value_of(v))).collect()),
    }
}

fn v(text: &str) -> Value {
    serde_json::from_str(text).unwrap()
}

fn request_value(input: Value) -> Value {
    let mut body: Value = serde_json::from_str(
        r#"{"model":"test","tools":[{"type":"function","name":"test"}],"client_metadata":{"session_id":"s"}}"#,
    )
    .unwrap();
    body["input"] = input;
    body
}

fn request(input: Value) -> Json {
    doc(&request_value(input))
}

#[test]
fn removes_only_encrypted_reasoning_and_retains_other_history() {
    let input = v(r#"[
        {"type":"reasoning","id":"rs_1","encrypted_content":"PRIVATE_CIPHER","content":null,"summary":[{"type":"summary_text","text":"PRIVATE_SUMMARY"}],"extension":{"keep":true}},
        {"type":"reasoning","encrypted_content":"PRIVATE_EMPTY","content":null},
        {"type":"compaction","encrypted_content":"PRIVATE_COMPACTION"},
        {"type":"function_call","encrypted_function_args":"PRIVATE_ARGS","call_id":"call_a"},
        {"type":"function_call_output","call_id":"call_a","output":"PRIVATE_RESULT"},
        {"type":"reasoning","summary":[],"content":null},
        {"role":"user","content":"PRIVATE_PROMPT"}
    ]"#);
    let original = request_value(input);
    let mut req = doc(&original);
    let changes = prepare(RequestKind::Responses, &mut req, 400, ERROR).unwrap();
    assert_eq!(changes.encrypted_fields_removed, 2);
    assert_eq!(changes.null_content_fields_removed, 2);
    assert_eq!(changes.empty_reasoning_items_removed, 1);
    assert!(!format!("{changes:?}").contains("PRIVATE_"));
    let mut expected = original;
    expected["input"].as_array_mut().unwrap().remove(1);
    expected["input"][0].as_object_mut().unwrap().remove("encrypted_content");
    expected["input"][0].as_object_mut().unwrap().remove("content");
    assert_eq!(value_of(&req), expected);
    assert!(prepare(RequestKind::Responses, &mut req, 400, ERROR).is_none());
}

#[test]
fn strict_error_gate_never_changes_unrelated_requests() {
    for (kind, status, error) in [
        (RequestKind::Responses, 200, ERROR),
        (RequestKind::Responses, 429, ERROR),
        (RequestKind::Responses, 500, ERROR),
        (RequestKind::Compact, 400, ERROR),
        (RequestKind::Search, 400, ERROR),
        (RequestKind::Responses, 400, br#"{"error":{"message":"invalid_encrypted_content"}}"#.as_slice()),
        (RequestKind::Responses, 400, br#"{"error":{"code":"invalid_request_error"}}"#.as_slice()),
        (RequestKind::Responses, 400, b"invalid JSON".as_slice()),
    ] {
        let mut req = request(v(r#"[{"type":"reasoning","encrypted_content":"PRIVATE"}]"#));
        let before = req.duplicate();
        assert!(prepare(kind, &mut req, status, error).is_none());
        assert_eq!(req, before);
    }
    let mut req = request(v(r#"[{"type":"compaction","encrypted_content":"PRIVATE"},{"type":"reasoning","content":null}]"#));
    let before = req.duplicate();
    assert!(prepare(RequestKind::Responses, &mut req, 400, ERROR).is_none());
    assert_eq!(req, before);
}

#[test]
fn single_reasoning_object_keeps_summary_and_nonnull_content() {
    let mut req = request(v(r#"{"type":"reasoning","encrypted_content":"PRIVATE","summary":[],"content":[{"text":"retained"}]}"#));
    prepare(RequestKind::Responses, &mut req, 400, ERROR).unwrap();
    assert_eq!(
        value_of(req.get("input").unwrap()),
        v(r#"{"type":"reasoning","summary":[],"content":[{"text":"retained"}]}"#)
    );
}

#[test]
fn tool_recovery_marks_unavailable_parts_and_preserves_call_identity_and_plaintext() {
    let original = v(r#"[
        {"type":"function_call","id":"fc_a","call_id":"a","encrypted_function_args":["PRIVATE_ARGS"],"arguments":"{}"},
        {"type":"function_call_output","call_id":"a","id":"fco_a","output":[{"type":"input_text","text":"PRIVATE_TEXT"},{"type":"encrypted_content","encrypted_content":"PRIVATE_CIPHER"},{"type":"input_image","image_url":"PRIVATE_IMAGE"}]},
        {"type":"custom_tool_call_output","call_id":"b","output":[{"type":"encrypted_content","encrypted_content":"PRIVATE_ONLY_CIPHER"}],"extension":true},
        {"type":"reasoning","encrypted_content":"PRIVATE_REASONING","summary":[]},
        {"type":"compaction","encrypted_content":"PRIVATE_COMPACTION"},
        {"type":"function_call_output","call_id":"c","output":"PRIVATE_PLAIN_STRING"}
    ]"#);
    let mut req = request(original.clone());
    assert!(has_recoverable_input(&req));
    let changes = prepare(
        RequestKind::Responses,
        &mut req,
        400,
        br#"{"error":{"code":"invalid_encrypted_content","message":"Encrypted function output content could not be decrypted or decoded."}}"#,
    )
    .unwrap();
    assert_eq!(changes.tool_outputs_changed, 2);
    assert_eq!(changes.encrypted_tool_parts_replaced, 2);
    assert_eq!(changes.encrypted_fields_removed, 0);
    let after = value_of(req.get("input").unwrap());
    let marker = after[1]["output"][1].clone();
    assert_eq!(marker["type"], "input_text");
    assert!(marker["text"].as_str().unwrap().contains("may already have executed"));
    let mut expected = original;
    expected[1]["output"][1] = marker.clone();
    expected[2]["output"][0] = marker;
    assert_eq!(after, expected);
    assert!(!format!("{changes:?}").contains("PRIVATE_"));
    assert!(clean(&mut req, EncryptedContentError::ToolOutput).is_none());
}

#[test]
fn exact_error_code_and_specific_tool_error_select_cleanup_without_guessing() {
    assert!(rejection(&error_body_of(&doc(&v(r#"{"error":{"message":"invalid_encrypted_content"}}"#)))).is_none());
    assert!(matches!(
        rejection(&error_body_of(&doc(
            &v(r#"{"code":"invalid_encrypted_content","message":"Encrypted function output content could not be decrypted or decoded."}"#)
        ))),
        Some(EncryptedContentError::ToolOutput)
    ));
    let mut req = request(v(r#"[{"type":"function_call_output","output":"ordinary"},{"type":"message","content":[{"type":"encrypted_content","encrypted_content":"KEEP"}]}]"#));
    let before = req.duplicate();
    assert!(!has_recoverable_input(&req));
    assert!(clean(&mut req, EncryptedContentError::ToolOutput).is_none());
    assert_eq!(req, before);
}
