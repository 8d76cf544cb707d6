use xxgate::types::Error;
use xxgate::dispatch::{after_attempt, after_begin_send, AttemptAction, AttemptFailure, SendStep};
use serde_json::Value;
use xxgate::accounts::{Account, ClientProfile, Credentials};
use xxgate::codex::capabilities::validate;
use xxgate::codex::request::auth_headers;
use xxgate::codex::wire::{FORMAT, SEARCH_FORMAT};
use xxgate::delivery::Delivery;
use xxgate::dispatch::{completion_status, configured_model, dispatch_model};
use xxgate::groups::DEFAULT_GROUP_ID;
use xxgate::ids::random_uuid;
use xxgate::json::{Json, JsonNumber};
use xxgate::providers::{Capabilities, ModelSpec};
use xxgate::time::Timestamp;
use xxgate::types::ModelRef;
use xxgate::codex::projection::normalized_metadata;
use xxgate::identity::{Binding, IdentityMap, SessionKey};
use xxgate::json_text::to_json_text;

fn doc(v: &Value) -> Json {
    match v {
        Value::Null => Json::Null,
        Value::Bool(b) => Json::Bool(*b),
        Value::Number(n) => Json::Number(JsonNumber { text: n.to_string(), unsigned: n.as_u64() }),
        Value::String(s) => Json::Text(s.clone()),
        Value::Array(a) => Json::Array(a.iter().map(doc).collect()),
        Value::Object(o) => Json::Object(o.iter().map(|(k, v)| (k.clone(), doc(v))).collect()),
    }
}

fn j(text: &str) -> Json {
    doc(&serde_json::from_str::<Value>(text).unwrap())
}

fn none() -> Capabilities {
    Capabilities { image_input: false, image_generation: false, tools: false, reasoning: false, fast: false }
}

fn message(r: Result<(), xxgate::types::Error>) -> String {
    r.err().map(|e| e.message).unwrap_or_default()
}

#[test]
fn capabilities_refuse_what_the_model_does_not_support() {
    let all = Capabilities::default();
    let body = j(r#"{"reasoning":{"effort":"high"},"tools":[{"type":"image_generation"}],
        "input":[{"role":"user","content":[{"type":"input_image","image_url":"x"}]}]}"#);
    assert!(validate(FORMAT, Some("priority"), &body, &all).is_ok());
    assert!(validate(SEARCH_FORMAT, None, &j("{}"), &none()).is_ok());
    let e = validate("anthropic.messages", None, &j("{}"), &all).err().unwrap();
    assert_eq!((e.status, e.code.as_str()), (400, "unsupported_conversion"));
    assert_eq!(message(validate(FORMAT, Some("fast"), &body, &none())), "Fast mode is not enabled for this model");
    assert_eq!(message(validate(FORMAT, Some("auto"), &body, &none())), "Reasoning is not enabled for this model");
    let caps = Capabilities { reasoning: true, ..none() };
    assert_eq!(message(validate(FORMAT, None, &body, &caps)), "Tools are not enabled for this model");
    let caps = Capabilities { reasoning: true, tools: true, ..none() };
    assert_eq!(message(validate(FORMAT, None, &body, &caps)), "Image generation is not enabled for this model");
    let caps = Capabilities { reasoning: true, tools: true, image_generation: true, ..none() };
    assert_eq!(message(validate(FORMAT, None, &body, &caps)), "Image input is not enabled for this model");
    assert_eq!(message(validate(FORMAT, None, &j(r#"{"tools":{}}"#), &all)), "tools must be an array");
    assert!(validate(FORMAT, None, &j(r#"{"reasoning":null,"tools":[],"input":"text"}"#), &none()).is_ok());
    let nested = j(r#"{"input":[[{"content":{"content":{"type":"input_image"}}}]]}"#);
    assert_eq!(message(validate(FORMAT, None, &nested, &none())), "Image input is not enabled for this model");
    let keyed = j(r#"{"input":[{"image":{"type":"input_image"}}]}"#);
    assert!(validate(FORMAT, None, &keyed, &none()).is_ok());
}

fn stamp() -> Timestamp {
    Timestamp { secs: 1_700_000_000, nanos: 0 }
}

fn account(user_agent: &str) -> Account {
    Account {
        id: random_uuid(),
        group_ids: vec![DEFAULT_GROUP_ID],
        name: "test".into(),
        provider: "openai".into(),
        access_kind: "codex_oauth".into(),
        enabled: true,
        codex_only: false,
        disable_reason: None,
        max_inflight: 1,
        upstream_account_id: "acct".into(),
        upstream_base_url: "https://chatgpt.com/backend-api/codex".into(),
        models: vec![],
        models_restricted: false,
        model_catalog: None,
        profile: ClientProfile {
            installation_id: random_uuid(),
            codex_version: "0.153.4".into(),
            user_agent: user_agent.into(),
            tls_backend: "native".into(),
        },
        version: 1,
        credential_version: 1,
        credential_expires_at: None,
        created_at: stamp(),
        updated_at: stamp(),
    }
}

#[test]
fn account_headers_carry_token_account_and_profile() {
    let c = Credentials { access_token: "tok".into(), refresh_token: String::new(), id_token: String::new(), expires_at: None };
    let h = auth_headers(&account("codex_cli_rs/0.153.4"), &c).ok().unwrap();
    let expected: Vec<(String, String)> = vec![
        ("authorization".into(), "Bearer tok".into()),
        ("chatgpt-account-id".into(), "acct".into()),
        ("originator".into(), "codex_cli_rs".into()),
        ("user-agent".into(), "codex_cli_rs/0.153.4".into()),
    ];
    assert_eq!(h, expected);
    let e = auth_headers(&account("bad\nagent"), &c).err().unwrap();
    assert_eq!(e.message, "Invalid account header");
}

#[test]
fn held_preamble_is_released_in_order_by_the_first_other_event() {
    let mut d = Delivery::new(true, true);
    assert!(d.heartbeat_due());
    assert!(d.accept(b"created".to_vec(), true, false).is_empty());
    assert!(d.accept(b"in_progress".to_vec(), true, false).is_empty());
    assert!(d.may_recover(true));
    let out = d.accept(b"delta".to_vec(), false, false);
    assert_eq!(out, vec![b"created".to_vec(), b"in_progress".to_vec(), b"delta".to_vec()]);
    assert!(!d.holding());
    assert!(!d.may_recover(true));
    assert_eq!(d.accept(b"more".to_vec(), true, false), vec![b"more".to_vec()]);
    assert_eq!(d.accept(b"done".to_vec(), false, true), vec![b"done".to_vec()]);
}

#[test]
fn preamble_bounds_release_the_held_events() {
    let mut d = Delivery::new(true, true);
    for _ in 0..16 {
        assert!(d.accept(vec![b'x'], true, false).is_empty());
    }
    assert_eq!(d.accept(vec![b'y'], true, false).len(), 17);
    let mut d = Delivery::new(true, true);
    assert!(d.accept(vec![0; 65536], true, false).is_empty());
    assert_eq!(d.accept(vec![1], true, false).len(), 2);
}

#[test]
fn unary_and_unrecoverable_attempts_do_not_hold() {
    let mut unary = Delivery::new(false, true);
    assert!(!unary.heartbeat_due());
    assert!(unary.accept(b"a".to_vec(), true, false).is_empty());
    assert!(unary.accept(b"b".to_vec(), false, true).is_empty());
    let mut direct = Delivery::new(true, false);
    assert!(!direct.heartbeat_due());
    assert_eq!(direct.accept(b"a".to_vec(), true, false), vec![b"a".to_vec()]);
    let mut held_terminal = Delivery::new(true, true);
    assert_eq!(held_terminal.accept(b"t".to_vec(), true, true), vec![b"t".to_vec()]);
}

fn spec(id: &str, enabled: bool, upstream: &str) -> ModelSpec {
    ModelSpec { id: id.into(), upstream: ModelRef::codex(upstream), enabled, capabilities: Capabilities::default(), version: 1 }
}

#[test]
fn models_are_checked_when_accepted_and_again_before_dispatch() {
    let models = vec![spec("m", false, "a"), spec("m", true, "b"), spec("n", true, "c")];
    assert_eq!(configured_model(&models, "m").ok(), Some(1));
    assert_eq!(configured_model(&models, "x").err().unwrap().code, "model_not_configured");
    let accepted = spec("m", true, "b");
    assert_eq!(dispatch_model(&models, &accepted).ok(), Some(1));
    let moved = vec![spec("m", true, "other")];
    let e = dispatch_model(&moved, &accepted).err().unwrap();
    assert_eq!((e.status, e.code.as_str()), (409, "model_route_changed"));
    let e = dispatch_model(&vec![spec("m", false, "b")], &accepted).err().unwrap();
    assert_eq!((e.status, e.code.as_str()), (400, "model_disabled"));
}

#[test]
fn completion_status_prefers_passed_through_upstream_status() {
    assert_eq!(completion_status(None, false, Some(201)), 200);
    assert_eq!(completion_status(None, true, Some(201)), 201);
    assert_eq!(completion_status(None, true, None), 200);
    assert_eq!(completion_status(Some(429), false, Some(500)), 429);
    assert_eq!(completion_status(Some(700), false, None), 599);
    assert_eq!(completion_status(Some(502), true, Some(403)), 403);
    assert_eq!(completion_status(Some(502), true, None), 502);
}

fn readings(entries: Vec<(&str, Option<Json>)>) -> xxgate::codex::projection::Readings {
    xxgate::codex::projection::Readings { entries: entries.into_iter().map(|(t, j)| (t.to_string(), j)).collect() }
}

#[test]
fn client_metadata_is_projected_onto_the_account() {
    let binding = Binding::new(
        SessionKey { key_id: random_uuid(), client_session_id: "s".into() },
        random_uuid(),
        &ModelRef::codex("m"),
        1,
    );
    let mut ids = IdentityMap::new(binding, vec![]);
    let a = account("codex_cli_rs/0.153.4");
    let nested_text = r#"{"thread_id":"t"}"#;
    let meta = j(&format!(
        r#"{{"installation_id":"old","notes":"kept","session_id":" s ","x-codex-turn-metadata":{}}}"#,
        Value::String(nested_text.into())
    ));
    let out = normalized_metadata(&meta, &a, &mut ids, &readings(vec![(nested_text, Some(j(nested_text)))]), usize::MAX)
        .ok()
        .unwrap();
    let session = ids.outbound("thread", "s").ok().unwrap();
    let thread = ids.outbound("thread", "t").ok().unwrap();
    assert_eq!(out.get_str("installation_id"), Some(xxgate::ids::hyphenated(a.profile.installation_id).as_str()));
    assert_eq!(out.get_str("notes"), Some("kept"));
    assert_eq!(out.get_str("session_id"), Some(session.as_str()));
    assert_ne!(session, "s");
    assert_eq!(out.get_str("x-codex-turn-metadata"), Some(format!(r#"{{"thread_id":"{thread}"}}"#).as_str()));
    let unreadable = j(r#"{"x-codex-turn-metadata":"not json"}"#);
    assert!(normalized_metadata(&unreadable, &a, &mut ids, &readings(vec![("not json", None)]), usize::MAX).is_err());
    assert!(normalized_metadata(&j("[]"), &a, &mut ids, &readings(vec![]), usize::MAX).is_err());
}

#[test]
fn json_text_escapes_as_serde_json_writes() {
    let v = j(r#"{"a":[1,true,null,"q\"\\\n\u0001é"],"b":{}}"#);
    let text = to_json_text(&v);
    assert_eq!(text, serde_json::to_string(&serde_json::from_str::<Value>(r#"{"a":[1,true,null,"q\"\\\n\u0001é"],"b":{}}"#).unwrap()).unwrap());
}

#[test]
fn an_attempt_is_resent_once_and_only_after_a_recoverable_rejection() {
    let failure = |recoverable: bool| AttemptFailure {
        error: Error::new(400, "invalid_encrypted_content", "m"),
        disable: None,
        recoverable,
    };
    assert!(matches!(after_attempt(1, false, failure(true)), AttemptAction::Retry));
    assert!(matches!(after_attempt(2, false, failure(true)), AttemptAction::Fail { remember_safety: false, .. }));
    assert!(matches!(after_attempt(1, false, failure(false)), AttemptAction::Fail { .. }));
    let safety = AttemptFailure {
        error: Error::new(403, "upstream_content_policy_violation", "m"),
        disable: None,
        recoverable: false,
    };
    assert!(matches!(after_attempt(1, false, safety), AttemptAction::Fail { remember_safety: true, disable: None, .. }));
    let safety = AttemptFailure {
        error: Error::new(403, "upstream_content_policy_violation", "m"),
        disable: None,
        recoverable: false,
    };
    assert!(matches!(after_attempt(1, true, safety), AttemptAction::Fail { remember_safety: false, .. }));
    assert!(matches!(after_begin_send(Ok(())), Ok(SendStep::Send)));
    assert!(matches!(after_begin_send(Err(Error::new(409, "reservation_invalidated", "m"))), Ok(SendStep::Reserve)));
    assert!(matches!(after_begin_send(Err(Error::new(409, "attempt_already_consumed", "m"))), Err(e) if e.code == "attempt_already_consumed"));
}
