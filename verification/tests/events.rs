use serde_json::Value;
use xxgate::codex::events::{compact_response, CodexDecoder, GatewayEvent};
use xxgate::identity::{Binding, IdentityMap, SessionKey};
use xxgate::ids::random_uuid;
use xxgate::json::{Json, JsonNumber};
use xxgate::protocol::EncryptedContentError;
use xxgate::types::ModelRef;

fn doc(v: &Value) -> Json {
    match v {
        Value::Null => Json::Null,
        Value::Bool(b) => Json::Bool(*b),
        Value::Number(n) => Json::Number(JsonNumber { text: n.to_string(), unsigned: n.as_u64() }),
        Value::String(s) => Json::Text(s.clone()),
        Value::Array(a) => Json::Array(a.iter().map(doc).collect()),
        Value::Object(o) => Json::Object(o.iter().map(|(k, v)| (k.clone(), doc(v))).collect()),
    }
}

fn value_of(j: &Json) -> Value {
    match j {
        Json::Null => Value::Null,
        Json::Bool(b) => Value::Bool(*b),
        Json::Number(n) => serde_json::from_str(&n.text).unwrap(),
        Json::Text(s) => Value::String(s.clone()),
        Json::Array(a) => Value::Array(a.iter().map(value_of).collect()),
        Json::Object(o) => Value::Object(o.iter().map(|(k, v)| (k.clone(), value_of(v))).collect()),
    }
}

fn v(text: &str) -> Value {
    serde_json::from_str(text).unwrap()
}

/// Feeds bytes to the decoder as the gateway does: each completed event is
/// parsed and observed, up to the terminal one.
fn push(decoder: &mut CodexDecoder, bytes: &[u8], limit: usize) -> Vec<GatewayEvent> {
    let mut out = vec![];
    for data in decoder.frames(bytes, limit).ok().unwrap() {
        let value: Value = serde_json::from_str(&data).unwrap();
        out.push(decoder.observe(doc(&value)).ok().unwrap());
        if decoder.terminal {
            break;
        }
    }
    out
}

fn ids() -> IdentityMap {
    IdentityMap::new(
        Binding::new(
            SessionKey { key_id: random_uuid(), client_session_id: "s".into() },
            random_uuid(),
            &ModelRef::codex("m"),
            1,
        ),
        vec![],
    )
}

#[test]
fn response_models_are_bounded_metadata_from_response_objects_only() {
    for kind in [
        "response.created",
        "response.in_progress",
        "response.completed",
        "response.failed",
        "response.incomplete",
    ] {
        let mut decoder = CodexDecoder::new();
        let mut input = v(r#"{"response":{"model":"gpt-returned-2026-09-17","output":[]}}"#);
        input["type"] = Value::String(kind.to_string());
        let events = push(&mut decoder, format!("data: {input}\n\n").as_bytes(), 4096);
        assert_eq!(events[0].observation.response_model.as_deref(), Some("gpt-returned-2026-09-17"));
        assert_eq!(value_of(&events[0].document)["response"]["model"], input["response"]["model"]);
    }
    for model in [
        Value::Null,
        v("42"),
        v(r#"{"name":"m"}"#),
        Value::String(String::new()),
        Value::String("x".repeat(161)),
        Value::String("model\nsecret".to_string()),
        Value::String("<script>".to_string()),
        Value::String("PRIVATE MODEL TEXT".to_string()),
    ] {
        let mut decoder = CodexDecoder::new();
        let mut input = v(r#"{"type":"response.completed","response":{"output":[]}}"#);
        input["response"]["model"] = model.clone();
        let events = push(&mut decoder, format!("data: {input}\n\n").as_bytes(), 4096);
        assert!(events[0].observation.response_model.is_none());
        assert_eq!(value_of(&events[0].document)["response"]["model"], model);
    }
    let mut decoder = CodexDecoder::new();
    for input in [
        v(r#"{"type":"response.output_item.done","item":{"model":"tool-model"},"response":{"model":"nested-model"}}"#),
        v(r#"{"type":"response.completed","model":"top-level-event-model","response":{"output":[{"model":"tool-model"}]}}"#),
    ] {
        let events = push(&mut decoder, format!("data: {input}\n\n").as_bytes(), 4096);
        assert!(events[0].observation.response_model.is_none());
    }
    for model in [Some("ft:gpt-model:org:custom"), None] {
        let mut value = v(r#"{"object":"response.compaction","output":[{"model":"history-model"}]}"#);
        value["model"] = match model {
            Some(m) => Value::String(m.to_string()),
            None => Value::Null,
        };
        let observation = compact_response(Some(&doc(&value))).ok().unwrap();
        assert_eq!(observation.response_model.as_deref(), model);
    }
}

#[test]
fn cumulative_usage_is_replaced_and_events_preserve_response_ids() {
    let mut decoder = CodexDecoder::new();
    let mut ids = ids();
    let a = push(
        &mut decoder,
        b"data: {\"type\":\"response.created\",\"response\":{\"id\":\"resp_original\",\"usage\":{\"input_tokens\":10,\"output_tokens\":0}}}\n\n",
        4096,
    );
    let b = push(
        &mut decoder,
        b"data: {\"type\":\"response.completed\",\"response\":{\"id\":\"resp_original\",\"service_tier\":\"default\",\"usage\":{\"input_tokens\":10,\"output_tokens\":20},\"output\":[]}}\n\n",
        4096,
    );
    assert_eq!(value_of(&a[0].document)["response"]["id"], value_of(&b[0].document)["response"]["id"]);
    assert_eq!(b[0].observation.usage.as_ref().unwrap().input_tokens, Some(10));
    assert!(b[0].observation.terminal);
    assert!(decoder.finish().is_ok());
    assert_eq!(value_of(&b[0].document)["response"]["id"], "resp_original");
    assert!(ids.take_pending().is_empty());
}

#[test]
fn failures_are_classified_and_set_on_the_forwarded_response() {
    let mut decoder = CodexDecoder::new();
    let events = push(
        &mut decoder,
        b"data: {\"type\":\"error\",\"error\":{\"code\":\"invalid_encrypted_content\",\"message\":\"PRIVATE_DETAIL\"}}\n\n",
        4096,
    );
    let o = &events[0].observation;
    assert!(o.terminal);
    assert_eq!(o.encrypted_rejection, Some(EncryptedContentError::Reasoning));
    let error = o.error.as_ref().unwrap();
    assert_eq!((error.status, error.code.as_str()), (502, "upstream_error"));
    assert_eq!(error.upstream.as_ref().unwrap().reason.as_deref(), Some("invalid_encrypted_content"));
    let forwarded = value_of(&events[0].document);
    assert_eq!(forwarded["type"], "response.failed");
    assert_eq!(forwarded["response"]["id"], "upstream_error");
    assert_eq!(forwarded["response"]["error"]["code"], "upstream_error");
    assert_eq!(forwarded["response"]["error"]["message"], "PRIVATE_DETAIL");
    // Nothing after the terminal event is decoded.
    assert!(decoder.frames(b"data: {\"type\":\"response.created\"}\n\n", 4096).ok().unwrap().is_empty());
    assert!(decoder.finish().is_ok());
}

#[test]
fn interrupted_streams_and_untyped_events_fail() {
    let mut decoder = CodexDecoder::new();
    let events = push(&mut decoder, b"data: {\"type\":\"response.created\",\"response\":{}}\n\n", 4096);
    assert!(events[0].observation.recovery_preamble);
    assert_eq!(decoder.finish().err().unwrap().code, "stream_interrupted");
    let e = decoder.observe(doc(&v(r#"{"delta":"x"}"#))).err().unwrap();
    assert_eq!((e.status, e.code.as_str()), (502, "invalid_upstream_event"));
}

#[test]
fn images_are_counted_once_with_their_tool_usage() {
    let mut decoder = CodexDecoder::new();
    let item = r#"{"type":"response.output_item.done","item":{"type":"image_generation_call","id":"ig_1","result":"AAAA","usage":{"input_tokens":5,"output_tokens":7}}}"#;
    push(&mut decoder, format!("data: {item}\n\ndata: {item}\n\n").as_bytes(), 4096);
    let events = push(
        &mut decoder,
        b"data: {\"type\":\"response.output_text.delta\",\"delta\":\"hi\"}\n\n",
        4096,
    );
    let o = &events[0].observation;
    assert!(o.content);
    let usage = o.usage.as_ref().unwrap();
    assert_eq!(usage.image_count, 1);
    assert!(usage.image_tool_usage_reported);
    assert_eq!((usage.image_input_tokens, usage.image_output_tokens), (Some(5), Some(7)));
}

#[test]
fn usage_keeps_only_numeric_facts_and_headers_only_known_names() {
    let mut decoder = CodexDecoder::new();
    let event = r#"{"type":"response.completed","headers":{"OpenAI-Model":"m","set-cookie":"PRIVATE"},"response":{"headers":{"x-reasoning-included":"true","authorization":"PRIVATE"},"output":[{"type":"compaction"}],"usage":{"input_tokens":3,"output_tokens":4,"note":"PRIVATE","input_tokens_details":{"cached_tokens":2},"bad-key":1}}}"#;
    let events = push(&mut decoder, format!("data: {event}\n\n").as_bytes(), 4096);
    let o = &events[0].observation;
    let usage = o.usage.as_ref().unwrap();
    assert!(usage.complete);
    assert_eq!(usage.cached_input_tokens, Some(2));
    assert_eq!(usage.source, "upstream_response");
    assert_eq!(value_of(&usage.raw_usage), v(r#"{"input_tokens":3,"output_tokens":4,"input_tokens_details":{"cached_tokens":2}}"#));
    assert_eq!(o.compaction_output, Some(true));
    let forwarded = value_of(&events[0].document);
    assert_eq!(forwarded["headers"], v(r#"{"OpenAI-Model":"m"}"#));
    assert_eq!(forwarded["response"]["headers"], v(r#"{"x-reasoning-included":"true"}"#));
}

#[test]
fn a_read_stops_after_the_terminal_event_and_never_reads_what_follows() {
    let mut decoder = CodexDecoder::new();
    let events = vec![
        Some(doc(&v(r#"{"type":"response.created","response":{"id":"r"}}"#))),
        Some(doc(&v(r#"{"type":"response.completed","response":{"id":"r","usage":{"input_tokens":1,"output_tokens":2,"total_tokens":3}}}"#))),
        None,
        Some(doc(&v(r#"{"type":"response.created"}"#))),
    ];
    let observed = decoder.observe_all(&events).ok().unwrap();
    assert_eq!(observed.len(), 2);
    assert!(decoder.terminal);
    assert!(observed[1].observation.terminal);
    assert!(!observed[0].observation.terminal);

    let mut decoder = CodexDecoder::new();
    let err = decoder.observe_all(&vec![Some(doc(&v(r#"{"type":"response.created"}"#))), None]).err().unwrap();
    assert_eq!(err.code, "invalid_upstream_event");
    assert_eq!(err.message, "Upstream SSE event is not valid JSON");

    let mut decoder = CodexDecoder::new();
    let err = decoder.observe_all(&vec![Some(doc(&v(r#"{"id":"x"}"#)))]).err().unwrap();
    assert_eq!(err.message, "Upstream event has no type");
}
