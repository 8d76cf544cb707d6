use serde_json::Value;
use xxgate::codex::compaction::{operation, turn_metadata};
use xxgate::codex::identity_input::resolve;
use xxgate::codex::inbound::{inspect, parse, Inspection, ParsedRequest, RequestHeaders};
use xxgate::types::Error;
use xxgate::codex::search::parse_search;
use xxgate::codex::headers::{normalized_headers, outbound_parts, IdentityHeader};
use xxgate::codex::identifiers::{client_identifiers, compare};
use xxgate::codex::projection::Readings;
use xxgate::codex::trace::MAX_ENTRIES;
use xxgate::codex::ingress::{metadata, reasoning_effort, request_head, requested_tier, HeaderMetadata};
use xxgate::json::{Json, JsonNumber};
use xxgate::protocol::{CompactionMethod, RequestKind};

fn doc(v: &Value) -> Json {
    match v {
        Value::Null => Json::Null,
        Value::Bool(b) => Json::Bool(*b),
        Value::Number(n) => Json::Number(JsonNumber { text: n.to_string(), unsigned: n.as_u64() }),
        Value::String(s) => Json::Text(s.clone()),
        Value::Array(a) => Json::Array(a.iter().map(doc).collect()),
        Value::Object(o) => Json::Object(o.iter().map(|(k, v)| (k.clone(), doc(v))).collect()),
    }
}

fn value_of(j: &Json) -> Value {
    match j {
        Json::Null => Value::Null,
        Json::Bool(b) => Value::Bool(*b),
        Json::Number(n) => serde_json::from_str(&n.text).unwrap(),
        Json::Text(s) => Value::String(s.clone()),
        Json::Array(a) => Value::Array(a.iter().map(value_of).collect()),
        Json::Object(o) => Value::Object(o.iter().map(|(k, v)| (k.clone(), value_of(v))).collect()),
    }
}

fn v(text: &str) -> Value {
    serde_json::from_str(text).unwrap()
}

/// The metadata sources as the gateway gathers them: the nested turn
/// metadata and the header are parsed first.
fn sources(body: &Value, header: Option<&str>) -> Result<Vec<Json>, String> {
    let nested = body["client_metadata"]["x-codex-turn-metadata"]
        .as_str()
        .and_then(|t| serde_json::from_str::<Value>(t).ok())
        .map(|n| doc(&n));
    let header = match header {
        None => HeaderMetadata::Absent,
        Some(text) => HeaderMetadata::Present(serde_json::from_str::<Value>(text).ok().map(|h| doc(&h))),
    };
    metadata(&doc(body), nested, header).map_err(|e| e.code)
}

#[test]
fn identifies_current_v2_operations_without_misclassifying_history_or_local_summary() {
    for (input, meta, expected) in [
        (v(r#"[{"type":"compaction_trigger"}]"#), v("{}"), true),
        (
            v("[]"),
            v(r#"{"request_kind":"compaction","compaction":{"implementation":"responses_compaction_v2"}}"#),
            true,
        ),
        (v(r#"[{"type":"compaction","encrypted_content":"PRIVATE_HISTORY"}]"#), v("{}"), false),
        (v(r#"[{"type":"message","content":[{"type":"compaction_trigger"}]}]"#), v("{}"), false),
        (v("[]"), v(r#"{"request_kind":"compaction","compaction":{"implementation":"responses"}}"#), false),
        (v("[]"), v(r#"{"request_kind":"compaction"}"#), false),
    ] {
        for header_only in [false, true] {
            let mut body = v(r#"{"model":"m"}"#);
            body["input"] = input.clone();
            let header = meta.to_string();
            if !header_only {
                body["client_metadata"] = v("{}");
                body["client_metadata"]["x-codex-turn-metadata"] = Value::String(meta.to_string());
            }
            let document = doc(&body);
            let (_, stream) = request_head(&document, RequestKind::Responses).ok().unwrap();
            assert!(!stream);
            let sources = sources(&body, if header_only { Some(&header) } else { None }).unwrap();
            let compaction = operation(&document, &sources, RequestKind::Responses).ok().unwrap();
            assert_eq!(compaction.is_some(), expected);
            assert_eq!(value_of(&document), body);
        }
    }
}

#[test]
fn compact_rejects_streaming_and_response_only_options() {
    for extra in [
        r#"{"stream":true}"#,
        r#"{"previous_response_id":"resp_old"}"#,
        r#"{"background":true}"#,
        r#"{"context_management":[]}"#,
    ] {
        let mut body = v(r#"{"model":"m","input":[]}"#);
        body.as_object_mut().unwrap().extend(v(extra).as_object().unwrap().clone());
        assert!(request_head(&doc(&body), RequestKind::Compact).is_err());
    }
    let body = doc(&v(r#"{"model":"m","input":[],"stream":false,"access_programs":[]}"#));
    let (model, stream) = request_head(&body, RequestKind::Compact).ok().unwrap();
    assert_eq!(model, "m");
    assert!(!stream);
    let compaction = operation(&body, &vec![], RequestKind::Compact).ok().unwrap().unwrap();
    assert_eq!(compaction.method, CompactionMethod::Compact);
    // No identity signal: the request is stateless.
    assert!(resolve(&vec![]).ok().unwrap().is_none());
}

#[test]
fn conflicting_operation_metadata_is_rejected() {
    let sources = vec![
        doc(&v(r#"{"request_kind":"compaction","compaction":{"implementation":"responses_compaction_v2"}}"#)),
        doc(&v(r#"{"request_kind":"compaction","compaction":{"implementation":"responses"}}"#)),
    ];
    assert_eq!(turn_metadata(&sources).err().unwrap().code, "compaction_metadata_conflict");
}

#[test]
fn request_head_reports_the_first_fault() {
    let head = |text: &str| request_head(&doc(&v(text)), RequestKind::Responses).map(|x| x.0).map_err(|e| e.code);
    assert_eq!(head("[]"), Err("invalid_request".to_string()));
    assert_eq!(head(r#"{"model":"m","input":[],"unknown":1}"#), Err("unsupported_parameter".to_string()));
    assert_eq!(head(r#"{"model":"m","input":[],"background":true}"#), Err("unsupported_background".to_string()));
    assert_eq!(head(r#"{"model":"m","input":[],"previous_response_id":"r"}"#), Err("unsupported_reference".to_string()));
    assert!(head(r#"{"model":"m","input":[],"previous_response_id":null}"#).is_ok());
    assert_eq!(head(r#"{"model":"","input":[]}"#), Err("invalid_request".to_string()));
    assert_eq!(head(&format!(r#"{{"model":"{}","input":[]}}"#, "m".repeat(161))), Err("invalid_request".to_string()));
    assert_eq!(head(r#"{"model":"m","input":3}"#), Err("invalid_request".to_string()));
    assert_eq!(head(r#"{"model":"m","input":"hi","stream":"yes"}"#), Err("invalid_request".to_string()));
    assert_eq!(head(r#"{"model":"gpt","input":"hi","stream":true}"#), Ok("gpt".to_string()));
}

#[test]
fn tier_and_effort_are_known_values_only() {
    let tier = |text: &str| requested_tier(&doc(&v(text))).map_err(|e| e.message);
    assert_eq!(tier("{}"), Ok(None));
    assert_eq!(tier(r#"{"service_tier":null}"#), Ok(None));
    assert_eq!(tier(r#"{"service_tier":"priority"}"#), Ok(Some("priority".to_string())));
    assert_eq!(tier(r#"{"service_tier":"turbo"}"#), Err("Unsupported service_tier".to_string()));
    assert_eq!(tier(r#"{"service_tier":1}"#), Err("Invalid service_tier".to_string()));
    assert_eq!(reasoning_effort(&doc(&v(r#"{"reasoning":{"effort":"high","summary":"PRIVATE"}}"#))), Some("high".to_string()));
    assert_eq!(reasoning_effort(&doc(&v(r#"{"reasoning":{"effort":"PRIVATE"}}"#))), None);
}

#[test]
fn metadata_sources_are_objects_with_canonical_aliases() {
    let body = v(r#"{"client_metadata":{"x-codex-window-id":"w","session_id":"s"}}"#);
    let s = sources(&body, Some(r#"{"x-codex-installation-id":"i"}"#)).unwrap();
    let values: Vec<Value> = s.iter().map(value_of).collect();
    assert_eq!(
        values,
        vec![
            v(r#"{"x-codex-window-id":"w","session_id":"s"}"#),
            v(r#"{"x-codex-installation-id":"i"}"#),
            v(r#"{"window_id":"w"}"#),
            v(r#"{"installation_id":"i"}"#),
        ]
    );
    assert_eq!(sources(&v(r#"{"client_metadata":[]}"#), None), Err("invalid_request".to_string()));
    assert_eq!(sources(&v("{}"), Some("[1]")), Err("invalid_request".to_string()));
    assert_eq!(sources(&v("{}"), Some("not json")), Err("invalid_request".to_string()));
    let err = metadata(&doc(&v("{}")), None, HeaderMetadata::Repeated).err().unwrap();
    assert_eq!(err.message, "Duplicate Codex metadata headers");
    let nested = v(r#"{"client_metadata":{"x-codex-turn-metadata":"{\"turn_id\":\"t\"}"}}"#);
    assert_eq!(sources(&nested, None).unwrap().len(), 2);
}

fn hdrs(values: &[(&str, &str)]) -> RequestHeaders {
    RequestHeaders { entries: values.iter().map(|(k, v)| (k.to_string(), v.as_bytes().to_vec())).collect() }
}

/// The turn metadata texts of a request, read as JSON as the gateway reads them.
fn metadata_json(h: &RequestHeaders, body: &Value) -> (Option<Json>, Option<Json>) {
    let nested = body["client_metadata"]["x-codex-turn-metadata"]
        .as_str()
        .and_then(|t| serde_json::from_str::<Value>(t).ok())
        .map(|n| doc(&n));
    let headers: Vec<&Vec<u8>> =
        h.entries.iter().filter(|(k, _)| k == "x-codex-turn-metadata").map(|(_, v)| v).collect();
    let header = match headers.as_slice() {
        [one] => serde_json::from_slice::<Value>(one).ok().map(|v| doc(&v)),
        _ => None,
    };
    (nested, header)
}

fn parse_request(h: &RequestHeaders, body: Value) -> Result<ParsedRequest, Error> {
    let (nested, header) = metadata_json(h, &body);
    parse(h, doc(&body), nested, header, RequestKind::Responses)
}

fn inspect_request(h: &RequestHeaders, body: &Value) -> Inspection {
    let (nested, header) = metadata_json(h, body);
    inspect(h, &doc(body), nested.as_ref(), header.as_ref(), RequestKind::Responses)
}

#[test]
fn reasoning_effort_is_recorded_without_retaining_arbitrary_content() {
    let headers = hdrs(&[("session-id", "s"), ("thread-id", "t")]);
    for (effort, expected) in [("high", Some("high")), ("PRIVATE_CONTENT", None)] {
        let mut body = v(r#"{"model":"m","input":"hi"}"#);
        body["reasoning"] = v(r#"{}"#);
        body["reasoning"]["effort"] = Value::String(effort.into());
        let parsed = parse_request(&headers, body).ok().unwrap();
        assert_eq!(parsed.reasoning_effort.as_deref(), expected);
        assert_eq!(value_of(&parsed.document)["reasoning"]["effort"], effort);
    }
}

#[test]
fn metadata_conflicts_are_rejected() {
    let headers = hdrs(&[("session-id", "a"), ("thread-id", "t")]);
    assert_eq!(
        parse_request(&headers, v(r#"{"model":"m","input":"hi","client_metadata":{"session_id":"b"}}"#))
            .err()
            .unwrap()
            .code,
        "identity_conflict"
    );
    assert!(parse_request(&headers, v(r#"{"model":"m","input":"hi"}"#)).is_ok());
    assert!(parse_request(&hdrs(&[]), v(r#"{"model":"m","input":"hi"}"#)).ok().unwrap().stateless);
}

#[test]
fn nested_parent_and_window_projections_must_agree() {
    let headers = hdrs(&[("session-id", "s"), ("thread-id", "t"), ("x-codex-parent-thread-id", "p1")]);
    let mut body = v(r#"{"model":"m","input":"hi","client_metadata":{}}"#);
    body["client_metadata"]["x-codex-turn-metadata"] = Value::String(r#"{"parent_thread_id":"p2"}"#.into());
    assert_eq!(parse_request(&headers, body).err().unwrap().code, "identity_conflict");
    let mut body = v(r#"{"model":"m","input":"hi","client_metadata":{"x-codex-window-id":"w1"}}"#);
    body["client_metadata"]["x-codex-turn-metadata"] = Value::String(r#"{"window_id":"w2"}"#.into());
    assert_eq!(parse_request(&headers, body).err().unwrap().code, "identity_conflict");
}

#[test]
fn aliases_and_fallbacks_preserve_stable_session_and_thread_identity() {
    for h in [
        hdrs(&[("session_id", "s")]),
        hdrs(&[("session-id", "s")]),
        hdrs(&[("conversation_id", "s")]),
        hdrs(&[("conversation-id", "s")]),
        hdrs(&[("thread_id", "s")]),
        hdrs(&[("thread-id", "s")]),
    ] {
        let resolved = inspect_request(&h, &v("{}")).resolved.ok().unwrap().unwrap();
        assert_eq!(resolved.session_id, "s");
        assert_eq!(resolved.thread_id, "s");
    }
    for body in [
        v(r#"{"client_metadata":{"session-id":"s"}}"#),
        v(r#"{"client_metadata":{"conversation_id":"s"}}"#),
        v(r#"{"client_metadata":{"x-codex-turn-metadata":"{\"session_id\":\"s\"}"}}"#),
    ] {
        assert_eq!(inspect_request(&hdrs(&[]), &body).resolved.ok().unwrap().unwrap().session_id, "s");
    }
    let h = hdrs(&[
        ("session-id", "root"),
        ("session_id", " root "),
        ("conversation_id", "conversation"),
        ("thread_id", "child"),
    ]);
    let resolved = inspect_request(&h, &v(r#"{"prompt_cache_key":"cache"}"#)).resolved.ok().unwrap().unwrap();
    assert_eq!(resolved.session_id, "root");
    assert_eq!(resolved.thread_id, "child");
    let h = hdrs(&[("session-id", " "), ("thread_id", "thread")]);
    assert_eq!(
        inspect_request(&h, &v(r#"{"prompt_cache_key":"shared-cache"}"#)).resolved.ok().unwrap().unwrap().session_id,
        "thread"
    );
}

/// Everything an inspection records of its candidates, as a report would.
fn fields_text(i: &Inspection) -> String {
    i.fields
        .iter()
        .map(|c| format!("{} {} {} {:?} {}", c.field, c.source, c.status, c.value, c.bytes))
        .collect::<Vec<_>>()
        .join("\n")
}

#[test]
fn conflicts_and_invalid_metadata_have_bounded_diagnostics_without_content() {
    let h = hdrs(&[
        ("session-id", "a"),
        ("session_id", "b"),
        ("authorization", "Bearer PRIVATE_TOKEN"),
        ("cookie", "PRIVATE_COOKIE"),
        ("x-api-key", "PRIVATE_KEY"),
    ]);
    let body = v(r#"{"input":"PRIVATE_PROMPT","client_metadata":{"notes":"PRIVATE_NOTE"},"tools":[{"description":"PRIVATE_TOOL"}],"reasoning":{"encrypted_content":"PRIVATE_CIPHER"}}"#);
    let inspection = inspect_request(&h, &body);
    assert_eq!(fields_text(&inspection).contains("PRIVATE_"), false);
    assert_eq!(inspection.fields[0].value.as_deref(), Some("a"));
    assert_eq!(inspection.fields[1].value.as_deref(), Some("b"));
    assert_eq!(inspection.resolved.err().unwrap().code, "identity_conflict");
    let mut body = v("{}");
    body["prompt_cache_key"] = Value::String("PRIVATE_".repeat(1000));
    let inspection = inspect_request(&hdrs(&[]), &body);
    assert_eq!(inspection.fields[0].status, "too_long");
    assert!(fields_text(&inspection).len() < 1024);
    assert!(!fields_text(&inspection).contains("PRIVATE_"));
    let inspection =
        inspect_request(&hdrs(&[]), &v(r#"{"client_metadata":{"x-codex-turn-metadata":"PRIVATE_INVALID_JSON"}}"#));
    assert!(!fields_text(&inspection).contains("PRIVATE_"));
    let e = inspection.resolved.err().unwrap();
    assert!(!e.message.contains("PRIVATE_"));
}

#[test]
fn missing_identity_is_stateless_but_invalid_supplied_identity_still_fails() {
    let inspection = inspect_request(&hdrs(&[]), &v("{}"));
    assert!(inspection.resolved.ok().unwrap().is_none());
    let mut long = v(r#"{"client_metadata":{}}"#);
    long["client_metadata"]["session_id"] = Value::String("x".repeat(513));
    for body in [v(r#"{"prompt_cache_key": 1}"#), long] {
        assert!(inspect_request(&hdrs(&[]), &body).resolved.is_err());
    }
    let body = v(r#"{"model":"gpt-5.5","input":"ordinary Responses input"}"#);
    let first = parse_request(&hdrs(&[]), body.clone()).ok().unwrap();
    let second = parse_request(&hdrs(&[]), body).ok().unwrap();
    assert!(first.stateless && second.stateless);
    assert_ne!(first.session_id, second.session_id);
    assert_eq!(first.session_id, first.thread_id);
}

#[test]
fn cache_partition_is_not_a_client_session() {
    let result = inspect_request(&hdrs(&[]), &v(r#"{"prompt_cache_key":"shared-cache"}"#));
    assert_eq!(result.fields[0].field, "prompt_cache_key");
    assert!(result.resolved.ok().unwrap().is_none());
}

#[test]
fn header_faults_and_encodings_are_reported_in_order() {
    let many = hdrs(&[("thread-id", "a"), ("thread-id", "a"), ("thread-id", "a"), ("thread-id", "a"), ("thread-id", "a")]);
    assert_eq!(inspect_request(&many, &v("{}")).resolved.err().unwrap().message, "Too many occurrences of thread-id");
    let binary = RequestHeaders { entries: vec![("session-id".into(), vec![0xe2, 0x82, 0xac])] };
    let inspection = inspect_request(&binary, &v("{}"));
    assert_eq!(inspection.fields[0].status, "invalid_encoding");
    assert_eq!(inspection.fields[0].bytes, 3);
    assert_eq!(inspection.fields[0].source, "headers.session-id[0]");
    let twice = hdrs(&[("x-codex-turn-metadata", "{}"), ("x-codex-turn-metadata", "{}")]);
    let e = parse_request(&twice, v(r#"{"model":"m","input":"hi"}"#)).err().unwrap();
    assert_eq!(e.message, "Duplicate Codex metadata headers");
    let ok = parse_request(
        &hdrs(&[("user-agent", "codex_cli_rs/0.153.4"), ("x-codex-turn-state", "ts")]),
        v(r#"{"model":"m","input":"hi","stream":true,"service_tier":"priority"}"#),
    )
    .ok()
    .unwrap();
    assert!(ok.stream);
    assert_eq!(ok.requested_tier.as_deref(), Some("priority"));
    assert!(ok.client_turn_state.present);
    assert_eq!(ok.model, "m");
}

fn search(h: &RequestHeaders, body: &Value, query: Option<&str>) -> Result<ParsedRequest, Error> {
    let (nested, header) = metadata_json(h, body);
    parse_search(h, doc(body), nested, header, query.map(str::to_owned)).map(|(p, _)| p)
}

#[test]
fn search_identity_falls_back_to_id_and_keeps_opaque_commands() {
    let body = v(r#"{"id":"opaque-search-session","model":"m","commands":{"search_query":[{"q":"PRIVATE_QUERY"}]},"future":true}"#);
    let (nested, header) = metadata_json(&hdrs(&[]), &body);
    let (request, options) =
        parse_search(&hdrs(&[]), doc(&body), nested, header, Some("feature=1".into())).ok().unwrap();
    assert_eq!(request.kind, RequestKind::Search);
    assert!(!request.stream);
    assert_eq!(request.session_id, "opaque-search-session");
    assert_eq!(request.thread_id, "opaque-search-session");
    assert_eq!(value_of(&request.document)["commands"], body["commands"]);
    assert_eq!(value_of(&request.document)["future"], true);
    assert_eq!(options.query.as_deref(), Some("feature=1"));
    let headers = hdrs(&[("session-id", "session"), ("thread-id", "thread")]);
    let request = search(&headers, &body, None).ok().unwrap();
    assert_eq!(request.session_id, "session");
    assert_eq!(request.thread_id, "thread");
    let mut bad = body.clone();
    bad["client_metadata"] = v(r#"{"session_id":"other"}"#);
    assert_eq!(search(&headers, &bad, None).err().unwrap().code, "identity_conflict");
    for bad in [
        v(r#"{"model":"m"}"#),
        v(r#"{"id":"s","model":"m","stream":true}"#),
        v(r#"{"id":"s","model":"m","input":7}"#),
    ] {
        assert!(search(&hdrs(&[]), &bad, None).is_err());
    }
}

#[test]
fn search_faults_are_reported_in_order() {
    let body = v(r#"{"id":"s","model":"m"}"#);
    assert_eq!(search(&hdrs(&[]), &v("[]"), None).err().unwrap().message, "Search request must be a JSON object");
    assert_eq!(
        search(&hdrs(&[]), &v(r#"{"id":"  "}"#), None).err().unwrap().message,
        "Search requires a nonempty id of at most 512 bytes"
    );
    assert!(search(&hdrs(&[]), &v(r#"{"id":"s","model":"m","stream":false}"#), None).is_ok());
    let long = "q".repeat(8193);
    assert_eq!(search(&hdrs(&[]), &body, Some(&long)).err().unwrap().message, "Search query string is too long");
    let two = hdrs(&[("openai-beta", "a"), ("openai-beta", "b")]);
    assert_eq!(search(&two, &body, None).err().unwrap().message, "Duplicate OpenAI-Beta headers");
    let one = hdrs(&[("openai-beta", "a")]);
    let (nested, header) = metadata_json(&one, &body);
    let (_, options) = parse_search(&one, doc(&body), nested, header, None).ok().unwrap();
    assert_eq!(options.beta, Some(b"a".to_vec()));
}

fn request_account() -> xxgate::accounts::Account {
    xxgate::accounts::Account {
        id: xxgate::ids::random_uuid(),
        group_ids: vec![xxgate::groups::DEFAULT_GROUP_ID],
        name: "test".into(),
        provider: "openai".into(),
        access_kind: "codex_oauth".into(),
        enabled: true,
        codex_only: false,
        disable_reason: None,
        max_inflight: 1,
        upstream_account_id: "acct".into(),
        upstream_base_url: "https://chatgpt.com/backend-api/codex".into(),
        models: vec![],
        models_restricted: false,
        model_catalog: None,
        profile: xxgate::accounts::ClientProfile {
            installation_id: xxgate::ids::random_uuid(),
            codex_version: "0.153.4".into(),
            user_agent: "codex_cli_rs/0.153.4".into(),
            tls_backend: "native".into(),
        },
        version: 1,
        credential_version: 1,
        credential_expires_at: None,
        created_at: xxgate::time::Timestamp { secs: 1_700_000_000, nanos: 0 },
        updated_at: xxgate::time::Timestamp { secs: 1_700_000_000, nanos: 0 },
    }
}

fn binding_ids() -> xxgate::identity::IdentityMap {
    xxgate::identity::IdentityMap::new(
        xxgate::identity::Binding::new(
            xxgate::identity::SessionKey { key_id: xxgate::ids::random_uuid(), client_session_id: "s".into() },
            xxgate::ids::random_uuid(),
            &xxgate::types::ModelRef::codex("m"),
            1,
        ),
        vec![],
    )
}

fn identity_header(name: &str, text: &str) -> IdentityHeader {
    IdentityHeader {
        name: name.into(),
        text: text.into(),
        parsed: None,
        readings: Readings { entries: vec![] },
    }
}

fn header<'a>(hs: &'a [(String, String)], name: &str) -> Option<&'a str> {
    hs.iter().rev().find(|(n, _)| n == name).map(|(_, v)| v.as_str())
}

#[test]
fn identity_headers_are_sent_under_canonical_names_and_the_session_wins_over_a_conversation() {
    let h = hdrs(&[("session_id", "s"), ("conversation_id", "c"), ("thread_id", "t")]);
    let parsed = parse_request(&h, v(r#"{"model":"m","input":"hi"}"#)).ok().unwrap();
    let identity = vec![
        identity_header("session_id", "s"),
        identity_header("conversation_id", "c"),
        identity_header("thread_id", "t"),
    ];
    let account = request_account();
    let creds = xxgate::accounts::Credentials {
        access_token: "tok".into(),
        refresh_token: String::new(),
        id_token: String::new(),
        expires_at: None,
    };
    let mut ids = binding_ids();
    let (hs, meta) = normalized_headers(&parsed, &identity, None, &Readings { entries: vec![] }, &account, &creds, &mut ids)
        .ok()
        .unwrap();
    let session = ids.existing("thread", "s").unwrap().to_owned();
    let thread = ids.existing("thread", "t").unwrap().to_owned();
    assert!(ids.existing("thread", "c").is_some());
    assert_eq!(header(&hs, "session-id"), Some(session.as_str()));
    assert_eq!(header(&hs, "thread-id"), Some(thread.as_str()));
    assert_eq!(header(&hs, "x-client-request-id"), Some(thread.as_str()));
    assert_eq!(header(&hs, "authorization"), Some("Bearer tok"));
    assert_eq!(header(&hs, "chatgpt-account-id"), Some("acct"));
    assert_eq!(header(&hs, "content-type"), Some("application/json"));
    assert_eq!(header(&hs, "accept"), Some("text/event-stream"));
    for alias in ["session_id", "thread_id", "conversation_id", "conversation-id"] {
        assert!(header(&hs, alias).is_none());
    }
    assert!(meta.is_none());
}

#[test]
fn a_conversation_header_names_the_session_when_no_session_header_does() {
    let h = hdrs(&[("conversation_id", "c"), ("thread_id", "t")]);
    let parsed = parse_request(&h, v(r#"{"model":"m","input":"hi"}"#)).ok().unwrap();
    let identity = vec![identity_header("conversation_id", "c"), identity_header("thread_id", "t")];
    let account = request_account();
    let creds = xxgate::accounts::Credentials {
        access_token: "tok".into(),
        refresh_token: String::new(),
        id_token: String::new(),
        expires_at: None,
    };
    let mut ids = binding_ids();
    let (hs, _) = normalized_headers(&parsed, &identity, None, &Readings { entries: vec![] }, &account, &creds, &mut ids)
        .ok()
        .unwrap();
    let conversation = ids.existing("thread", "c").unwrap().to_owned();
    assert_eq!(header(&hs, "session-id"), Some(conversation.as_str()));
    assert!(header(&hs, "conversation_id").is_none());
}

#[test]
fn compares_exact_identifier_locations_without_collecting_user_content() {
    let turn_text = r#"{"thread_id":"client-thread","notes":"PRIVATE_METADATA"}"#;
    let incoming_headers = vec![
        ("session-id".to_string(), "client-session".to_string()),
        ("authorization".to_string(), "Bearer PRIVATE_TOKEN".to_string()),
        ("x-codex-turn-metadata".to_string(), turn_text.to_string()),
    ];
    let mut source_value = v(r#"{"input":[{"id":"rs_alias","encrypted_content":"PRIVATE_CIPHERTEXT","content":"PRIVATE_TEXT","arguments":{"id":"PRIVATE_TOOL_ID"}}],"prompt_cache_key":"old-cache","client_metadata":{"thread_id":"client-thread","notes":"PRIVATE_METADATA"}}"#);
    source_value["client_metadata"]["x-codex-turn-metadata"] = Value::String(turn_text.into());
    let source = doc(&source_value);
    let turn = doc(&v(turn_text));
    let mut body_value = source_value.clone();
    body_value["input"][0]["id"] = Value::String("rs_original".into());
    body_value["prompt_cache_key"] = Value::String("upstream-session".into());
    body_value["client_metadata"] = v(r#"{"thread_id":"upstream-thread","installation_id":"account-installation"}"#);
    let body = doc(&body_value);
    let outgoing_headers = vec![("session-id".to_string(), "upstream-session".to_string())];
    let incoming = client_identifiers(&incoming_headers, Some(turn.duplicate()), &source, Some(turn));
    let trace = compare(&incoming, &source, &outgoing_headers, None, &body, None);
    let rows = &trace.entries;
    let session = rows.iter().find(|r| r.field == "headers.session-id").unwrap();
    assert_eq!(session.before.as_deref(), Some("client-session"));
    assert_eq!(session.after.as_deref(), Some("upstream-session"));
    assert_eq!(session.action, "rewritten");
    let alias = rows.iter().find(|r| r.field == "body.input[0].id").unwrap();
    assert_eq!(alias.before.as_deref(), Some("rs_alias"));
    assert_eq!(alias.after.as_deref(), Some("rs_original"));
    assert_eq!(alias.action, "alias_restored");
    assert!(rows.iter().any(|r| r.field == "body.client_metadata.installation_id" && r.action == "added"));
    assert!(rows.iter().any(|r| r.field == "headers.x-codex-turn-metadata.thread_id" && r.action == "removed"));
    assert_eq!(trace.omitted, 0);
    let saved = format!("{:?}", trace);
    for forbidden in ["PRIVATE_", "authorization", "encrypted_content", "arguments", "notes"] {
        assert!(!saved.contains(forbidden));
    }
}

#[test]
fn oversized_and_excess_identifiers_are_counted_without_altering_forwarded_data() {
    let input: Vec<Value> = (0..MAX_ENTRIES + 3)
        .map(|i| {
            let mut item = v("{}");
            item["id"] = Value::String(format!("msg_{i}"));
            item
        })
        .collect();
    let mut body_value = v("{}");
    body_value["input"] = Value::Array(input);
    let body = doc(&body_value);
    let trace = compare(&vec![], &body, &vec![], None, &body, None);
    assert_eq!(trace.entries.len(), MAX_ENTRIES);
    assert_eq!(trace.omitted, 3);
    assert!(trace.entries.iter().all(|r| r.action == "unchanged"));
    let mut body_value = v(r#"{"input":[{}]}"#);
    body_value["input"][0]["id"] = Value::String("x".repeat(513));
    let body = doc(&body_value);
    let trace = compare(&vec![], &body, &vec![], None, &body, None);
    assert!(trace.entries.is_empty());
    assert_eq!(trace.omitted, 1);
    assert_eq!(body_value["input"][0]["id"].as_str().unwrap().len(), 513);
}

#[test]
fn identifiers_are_sorted_by_location_and_keep_only_recordable_values() {
    let headers = vec![
        ("x-codex-window-id".to_string(), "w".to_string()),
        ("session-id".to_string(), "first".to_string()),
        ("session-id".to_string(), "second".to_string()),
        ("thread-id".to_string(), "a\u{7}b".to_string()),
    ];
    let body = doc(&v(r#"{"prompt_cache_key":"k","client_metadata":{"turn_id":"t","other":"x"}}"#));
    let ids = client_identifiers(&headers, None, &body, None);
    let fields: Vec<&str> = ids.iter().map(|(k, _)| k.as_str()).collect();
    assert_eq!(
        fields,
        vec!["body.client_metadata.turn_id", "body.prompt_cache_key", "headers.session-id", "headers.x-codex-window-id"]
    );
    assert!(matches!(&ids[2].1, Json::Text(t) if t == "first"));
}

#[test]
fn a_stateless_request_without_identity_headers_sends_the_account_headers_only() {
    let parsed = parse_request(&hdrs(&[]), v(r#"{"model":"m","input":"hi"}"#)).ok().unwrap();
    assert!(parsed.stateless);
    let account = request_account();
    let creds = xxgate::accounts::Credentials {
        access_token: "tok".into(),
        refresh_token: String::new(),
        id_token: String::new(),
        expires_at: None,
    };
    let mut ids = binding_ids();
    let (hs, meta) = normalized_headers(&parsed, &vec![], None, &Readings { entries: vec![] }, &account, &creds, &mut ids)
        .ok()
        .unwrap();
    let names: Vec<&str> = hs.iter().map(|(n, _)| n.as_str()).collect();
    assert_eq!(names, vec!["authorization", "chatgpt-account-id", "originator", "user-agent", "content-type", "accept"]);
    assert_eq!(header(&hs, "originator"), Some("codex_cli_rs"));
    assert!(meta.is_none());
}

#[test]
fn a_cache_partition_gives_a_stateless_request_session_headers_and_a_compaction_asks_for_json() {
    let account = request_account();
    let creds = xxgate::accounts::Credentials {
        access_token: "tok".into(),
        refresh_token: String::new(),
        id_token: String::new(),
        expires_at: None,
    };
    let key_id = xxgate::ids::random_uuid();
    let parsed = parse_request(&hdrs(&[]), v(r#"{"model":"m","input":"hi","prompt_cache_key":"k"}"#)).ok().unwrap();
    assert!(parsed.stateless);
    let mut ids = binding_ids();
    let (hs, body) = outbound_parts(&parsed, &vec![], None, &Readings { entries: vec![] }, "gpt-5.5", &account, &creds, &mut ids, key_id)
        .ok()
        .unwrap();
    let name = format!("prompt_cache\0{}\0k", xxgate::ids::hyphenated(key_id));
    let expected = xxgate::ids::hyphenated(xxgate::ids::v5(account.profile.installation_id, name.as_bytes()));
    assert_eq!(header(&hs, "session_id"), Some(expected.as_str()));
    assert_eq!(header(&hs, "conversation_id"), Some(expected.as_str()));
    assert_eq!(value_of(&body)["prompt_cache_key"], Value::String(expected.clone()));
    assert_eq!(header(&hs, "accept"), Some("text/event-stream"));

    let h = hdrs(&[]);
    let body = v(r#"{"model":"m","input":"hi"}"#);
    let (nested, header_json) = metadata_json(&h, &body);
    let compact = parse(&h, doc(&body), nested, header_json, RequestKind::Compact).ok().unwrap();
    let mut ids = binding_ids();
    let (hs, _) = outbound_parts(&compact, &vec![], None, &Readings { entries: vec![] }, "gpt-5.5", &account, &creds, &mut ids, key_id)
        .ok()
        .unwrap();
    assert_eq!(header(&hs, "accept"), Some("application/json"));
    assert!(header(&hs, "session_id").is_none());
}
