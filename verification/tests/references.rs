use serde_json::Value;
use xxgate::codex::events::filter_event_headers;
use xxgate::codex::references::rewrite_input;
use xxgate::identity::{Binding, IdentityMap, SessionKey};
use xxgate::ids::random_uuid;
use xxgate::json::{Json, JsonNumber};
use xxgate::types::ModelRef;

fn doc(v: &Value) -> Json {
    match v {
        Value::Null => Json::Null,
        Value::Bool(b) => Json::Bool(*b),
        Value::Number(n) => Json::Number(JsonNumber { text: n.to_string(), unsigned: n.as_u64() }),
        Value::String(s) => Json::Text(s.clone()),
        Value::Array(a) => Json::Array(a.iter().map(doc).collect()),
        Value::Object(o) => Json::Object(o.iter().map(|(k, v)| (k.clone(), doc(v))).collect()),
    }
}

fn value_of(j: &Json) -> Value {
    match j {
        Json::Null => Value::Null,
        Json::Bool(b) => Value::Bool(*b),
        Json::Number(n) => serde_json::from_str(&n.text).unwrap(),
        Json::Text(s) => Value::String(s.clone()),
        Json::Array(a) => Value::Array(a.iter().map(value_of).collect()),
        Json::Object(o) => Value::Object(o.iter().map(|(k, v)| (k.clone(), value_of(v))).collect()),
    }
}

fn v(text: &str) -> Value {
    serde_json::from_str(text).unwrap()
}

fn ids() -> IdentityMap {
    IdentityMap::new(
        Binding::new(
            SessionKey { key_id: random_uuid(), client_session_id: "s".into() },
            random_uuid(),
            &ModelRef::codex("m"),
            1,
        ),
        vec![],
    )
}

#[test]
fn tool_calls_and_results_keep_original_identifiers_and_content() {
    let mut ids = ids();
    let original = v(r#"[
        {"type":"function_call","id":"fc_original","call_id":"call_original","arguments":"call_original"},
        {"type":"function_call_output","id":"fco_original","call_id":"call_original","output":"done"},
        {"type":"custom_tool_call","id":"ctc_original","call_id":"custom_original","input":"patch"},
        {"type":"custom_tool_call_output","id":"ctco_original","call_id":"custom_original","output":"done"}
    ]"#);
    let mut input = doc(&original);
    rewrite_input(&mut input, &ids).ok().unwrap();
    assert_eq!(value_of(&input), original);
    assert!(ids.take_pending().is_empty());
}

#[test]
fn response_objects_and_delta_references_keep_their_original_ids() {
    let item = r#"{"type":"reasoning","id":"rs_upstream","encrypted_content":"PRIVATE_REASONING","summary":[],"internal_chat_message_metadata_passthrough":{"opaque":"PRIVATE_METADATA"}}"#;
    for original in [
        v(r#"{"type":"response.output_item.added","item":{"type":"reasoning","id":"rs_upstream","summary":[]}}"#),
        v(r#"{"type":"response.reasoning_summary_text.delta","item_id":"rs_upstream","delta":"summary"}"#),
        v(&format!(r#"{{"type":"response.output_item.done","item":{item}}}"#)),
        v(&format!(r#"{{"type":"response.completed","response":{{"id":"resp_upstream","output":[{item}]}}}}"#)),
    ] {
        let mut event = doc(&original);
        filter_event_headers(&mut event);
        assert_eq!(value_of(&event), original);
    }
}

#[test]
fn encrypted_history_and_bound_ids_pass_through_every_generation() {
    let original = v(r#"[
        {"type":"reasoning","id":"rs_old","encrypted_content":"PRIVATE_OLD_REASONING","summary":[],"internal_chat_message_metadata_passthrough":{"opaque":"PRIVATE_METADATA"}},
        {"type":"compaction","id":"cmp_old","encrypted_content":"PRIVATE_OLD_COMPACTION"},
        {"type":"function_call","id":"fc_old","call_id":"call_old","encrypted_function_args":"PRIVATE_OLD_ARGS","arguments":"{}"},
        {"type":"function_call_output","id":"fco_old","call_id":"call_old","output":"existing result"}
    ]"#);
    let mut prior = ids();
    // Reproduce the bad outbound mapping already saved by the old gateway.
    assert_ne!(prior.outbound("item", "rs_old").ok().unwrap(), "rs_old");
    let saved = prior.take_pending();
    for generation in [1, 2, 3] {
        let mut ids = IdentityMap::new(prior.binding.clone(), saved.clone());
        ids.binding.generation = generation;
        let mut rewritten = doc(&original);
        rewrite_input(&mut rewritten, &ids).ok().unwrap();
        assert_eq!(value_of(&rewritten), original);
        assert!(ids.take_pending().is_empty());
    }
}

#[test]
fn old_client_aliases_are_restored_for_signed_history_and_tool_pairs() {
    let mut previous = ids();
    let item_alias = previous.inbound("item", "rs_upstream").ok().unwrap();
    let call_alias = previous.inbound("call", "call_upstream").ok().unwrap();
    let mappings = previous.take_pending();
    let mut binding = previous.binding.clone();
    binding.id = random_uuid();
    binding.account_id = random_uuid();
    binding.namespace = random_uuid();
    binding.generation = 2;
    let mut ids = IdentityMap::new(binding, vec![]);
    ids.import_legacy_aliases(&previous.binding, &mappings);
    let mut input = doc(&v(&format!(
        r#"[
            {{"type":"reasoning","id":"{item_alias}","encrypted_content":"PRIVATE_SIGNED_FOR_rs_upstream"}},
            {{"type":"function_call","call_id":"{call_alias}","arguments":"{{}}"}},
            {{"type":"function_call_output","call_id":"{call_alias}","output":"done"}}
        ]"#
    )));
    rewrite_input(&mut input, &ids).ok().unwrap();
    let input = value_of(&input);
    assert_eq!(input[0]["id"], "rs_upstream");
    assert_eq!(input[0]["encrypted_content"], "PRIVATE_SIGNED_FOR_rs_upstream");
    assert_eq!(input[1]["call_id"], "call_upstream");
    assert_eq!(input[2]["call_id"], "call_upstream");
    assert!(ids.take_pending().is_empty());
}

#[test]
fn stored_references_are_refused_before_anything_is_rewritten() {
    let ids = ids();
    let mut input = doc(&v(r#"[{"type":"message","content":[{"type":"input_image","file_id":"file_1"}]},{"type":"item_reference","id":"x"}]"#));
    let e = rewrite_input(&mut input, &ids).err().unwrap();
    assert_eq!((e.status, e.code.as_str()), (409, "image_reference_unsupported"));
    let mut input = doc(&v(r#"[{"type":"item_reference","id":"x"}]"#));
    let e = rewrite_input(&mut input, &ids).err().unwrap();
    assert_eq!(e.code, "context_reference_unsupported");
    let mut text = doc(&v(r#""plain input""#));
    assert!(rewrite_input(&mut text, &ids).is_ok());
    assert_eq!(value_of(&text), v(r#""plain input""#));
}
