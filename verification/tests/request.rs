use serde_json::Value;
use xxgate::codex::request::{cache_partition, request_body, responses_url, CachePartition};
use xxgate::identity::{Binding, IdentityMap, SessionKey};
use xxgate::ids::{hyphenated, random_uuid, v5};
use xxgate::json::{Json, JsonNumber};
use xxgate::protocol::RequestKind;
use xxgate::types::ModelRef;

fn doc(v: &Value) -> Json {
    match v {
        Value::Null => Json::Null,
        Value::Bool(b) => Json::Bool(*b),
        Value::Number(n) => Json::Number(JsonNumber { text: n.to_string(), unsigned: n.as_u64() }),
        Value::String(s) => Json::Text(s.clone()),
        Value::Array(a) => Json::Array(a.iter().map(doc).collect()),
        Value::Object(o) => Json::Object(o.iter().map(|(k, v)| (k.clone(), doc(v))).collect()),
    }
}

fn value_of(j: &Json) -> Value {
    match j {
        Json::Null => Value::Null,
        Json::Bool(b) => Value::Bool(*b),
        Json::Number(n) => serde_json::from_str(&n.text).unwrap(),
        Json::Text(s) => Value::String(s.clone()),
        Json::Array(a) => Value::Array(a.iter().map(value_of).collect()),
        Json::Object(o) => Value::Object(o.iter().map(|(k, v)| (k.clone(), value_of(v))).collect()),
    }
}

fn v(text: &str) -> Value {
    serde_json::from_str(text).unwrap()
}

fn ids() -> IdentityMap {
    IdentityMap::new(
        Binding::new(
            SessionKey { key_id: random_uuid(), client_session_id: "s".into() },
            random_uuid(),
            &ModelRef::codex("m"),
            1,
        ),
        vec![],
    )
}

#[test]
fn responses_body_forwards_known_fields_and_sets_transport_fields() {
    let source = doc(&v(
        r#"{"model":"alias","input":"hello","max_output_tokens":10,"temperature":0.5,"metadata":{"a":"b"},"service_tier":"priority"}"#,
    ));
    let body = request_body(&source, "gpt-5.5", RequestKind::Responses, Some("priority"), &ids()).ok().unwrap();
    assert_eq!(
        value_of(&body),
        v(r#"{"input":[{"role":"user","content":"hello"}],"temperature":0.5,"instructions":"","model":"gpt-5.5","store":false,"stream":true,"service_tier":"priority"}"#)
    );
}

#[test]
fn compact_body_keeps_instructions_and_does_not_stream() {
    let source = doc(&v(
        r#"{"input":[{"role":"system","content":"be brief"},{"role":"user","content":"hi"}],"instructions":"x"}"#,
    ));
    let body = request_body(&source, "m", RequestKind::Compact, Some("auto"), &ids()).ok().unwrap();
    assert_eq!(
        value_of(&body),
        v(r#"{"input":[{"role":"developer","content":"be brief"},{"role":"user","content":"hi"}],"instructions":"x","model":"m"}"#)
    );
}

#[test]
fn stored_references_fail_the_body() {
    let source = doc(&v(r#"{"input":[{"type":"item_reference","id":"x"}]}"#));
    let e = request_body(&source, "m", RequestKind::Responses, None, &ids()).err().unwrap();
    assert_eq!((e.status, e.code.as_str()), (409, "context_reference_unsupported"));
}

#[test]
fn cache_partitions_keep_sessions_and_scope_everything_else() {
    let source = doc(&v(r#"{"prompt_cache_key":" thread-1 "}"#));
    match cache_partition(&source, false, "session-1", "thread-1", 7, 9) {
        Some(CachePartition::Session(s)) => assert_eq!(s, "thread-1"),
        _ => panic!("a session key keeps its mapping"),
    }
    let key_id = 0x1234u128;
    let installation = 0x5678u128;
    let expected = hyphenated(v5(installation, format!("prompt_cache\0{}\0thread-1", hyphenated(key_id)).as_bytes()));
    match cache_partition(&source, true, "session-1", "thread-1", key_id, installation) {
        Some(CachePartition::Scoped(s)) => {
            assert_eq!(s, expected);
            assert_eq!(
                s,
                uuid::Uuid::new_v5(
                    &uuid::Uuid::from_u128(installation),
                    format!("prompt_cache\0{}\0thread-1", uuid::Uuid::from_u128(key_id)).as_bytes()
                )
                .to_string()
            );
        }
        _ => panic!("a stateless request scopes its partition"),
    }
    assert!(cache_partition(&doc(&v(r#"{"prompt_cache_key":"  "}"#)), false, "a", "b", 1, 2).is_none());
    assert!(cache_partition(&doc(&v(r#"{"prompt_cache_key":3}"#)), false, "a", "b", 1, 2).is_none());
}

#[test]
fn responses_url_joins_the_base_without_trailing_slashes() {
    assert_eq!(responses_url("https://chatgpt.com/backend-api/codex//", RequestKind::Responses), "https://chatgpt.com/backend-api/codex/responses");
    assert_eq!(responses_url("https://x.test", RequestKind::Compact), "https://x.test/responses/compact");
}
