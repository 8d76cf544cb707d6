use std::collections::HashMap;
use xxgate::clients::ClientSource;
use xxgate::codex::client_source::{detect, recognizes_user_agent, ClientSignals, MetadataFields};
use xxgate::codex::credits::accept_credits;
use xxgate::codex::identity_input::{candidate, coherent, resolve, Candidate, RawValue};
use xxgate::codex::ingress;
use xxgate::codex::oauth_browser::{BrowserAuthorization, REDIRECT_URI};
use xxgate::codex::request::identity_kind;
use xxgate::codex::trace::{identifier, push};
use xxgate::codex::wire::{frame, SseDecoder};
use xxgate::identity::RequestRewrite;
use xxgate::queries::{list_usage, request_report_query};
use xxgate::resets::{ResetCredit, ResetCredits};
use xxgate::time::Timestamp;

fn fields(pairs: &[(&str, &str)]) -> MetadataFields {
    let get = |k: &str| pairs.iter().find(|(n, _)| *n == k).map(|(_, v)| v.to_string());
    MetadataFields {
        session_id: get("session_id"),
        thread_id: get("thread_id"),
        turn_id: get("turn_id"),
        installation_id: get("installation_id"),
        x_codex_installation_id: get("x-codex-installation-id"),
        window_id: get("window_id"),
        x_codex_window_id: get("x-codex-window-id"),
    }
}

fn signals(ua: Option<&str>) -> ClientSignals {
    ClientSignals {
        user_agent: ua.map(str::to_owned),
        header_turn_metadata: None,
        body_turn_metadata: None,
        client_metadata: None,
    }
}

#[test]
fn only_specific_inbound_signatures_identify_codex() {
    for ua in ["Go-http-client/1.1", "opencode/1.0", "pi/0.1", "not-codex_cli_rs/1", "codex_cli_rs/"] {
        let mut s = signals(Some(ua));
        s.client_metadata = Some(fields(&[("session_id", "s"), ("thread_id", "t")]));
        assert_eq!(detect(&s).source, ClientSource::Unknown);
    }
    for ua in [
        "codex_cli_rs/0.153.4 (Mac OS)",
        "codex_vscode/0.153.4",
        "codex-tui/0.153.4",
        "Codex Desktop/26.1 (Mac OS)",
    ] {
        assert_eq!(detect(&signals(Some(ua))).source, ClientSource::Codex);
    }
    let meta = r#"{"session_id":"s","thread_id":"t","turn_id":"turn","installation_id":"installation"}"#;
    let mut s = signals(Some("Go-http-client/1.1"));
    s.body_turn_metadata = Some(meta.into());
    assert_eq!(detect(&s).source, ClientSource::Codex);
    let mut s = signals(Some("Go-http-client/1.1"));
    s.header_turn_metadata = Some(meta.into());
    assert_eq!(detect(&s).source, ClientSource::Codex);
}

#[test]
fn recognition_is_bounded_and_records_no_content() {
    let mut s = signals(None);
    s.body_turn_metadata = Some("PRIVATE_BAD_JSON".into());
    s.client_metadata = Some(fields(&[]));
    let detected = detect(&s);
    assert_eq!(detected.source, ClientSource::Unknown);
    assert!(!detected.rule.contains("PRIVATE_"));
    assert!(detected.evidence.iter().all(|e| !e.contains("PRIVATE_")));
    let long = format!("codex_cli_rs/{}", "1".repeat(600));
    assert!(!recognizes_user_agent(&long));
}

#[test]
fn client_metadata_needs_an_installation_identity() {
    let mut s = signals(None);
    s.client_metadata = Some(fields(&[("session_id", "s"), ("thread_id", "t"), ("turn_id", "u"), ("window_id", "w")]));
    assert_eq!(detect(&s).source, ClientSource::Unknown);
    s.client_metadata = Some(fields(&[
        ("session_id", "s"),
        ("thread_id", "t"),
        ("turn_id", "u"),
        ("x-codex-installation-id", "i"),
    ]));
    let d = detect(&s);
    assert_eq!(d.source, ClientSource::Codex);
    assert_eq!(d.rule, "codex_client_metadata");
    assert_eq!(d.evidence, vec!["body.client_metadata".to_string()]);
}

#[test]
fn pkce_uses_s256_and_verifier_is_not_in_authorization_url() {
    let verifier = "dBjftJeZ4CVP-mB92K27uhbUJU1p1r_wW1gFWFOEjXk";
    let auth = BrowserAuthorization::with_secrets("test-state", verifier);
    let link = auth.authorization_url().ok().unwrap();
    let url = url::Url::parse(&link).unwrap();
    let query = url.query_pairs().collect::<HashMap<_, _>>();
    assert_eq!(query["code_challenge"], "E9Melhoa2OwvFrEMTJguCHaoeK1t8URWbuGJSstw-cM");
    assert!(!link.contains(verifier));
    assert_eq!(query["redirect_uri"], REDIRECT_URI);
    let code = auth
        .callback_code(&format!("{REDIRECT_URI}?code=code%2Bvalue&state=test-state"))
        .ok()
        .unwrap();
    assert_eq!(code, "code+value");
    let exchange = auth.exchange_request(&code);
    assert_eq!(exchange.method, "POST");
    assert_eq!(exchange.url, "https://auth.openai.com/oauth/token");
    assert_eq!(exchange.headers, vec![("content-type".to_string(), "application/x-www-form-urlencoded".to_string())]);
    let body = url::form_urlencoded::parse(exchange.body.as_bytes()).collect::<HashMap<_, _>>();
    assert_eq!(body["code"], "code+value");
    assert_eq!(body["code_verifier"], verifier);
    assert_eq!(body["redirect_uri"], REDIRECT_URI);
}

#[test]
fn callbacks_are_bound_to_the_flow_and_expected_redirect() {
    let auth = BrowserAuthorization::with_secrets("expected", "verifier");
    for url in [
        "https://example.com/auth/callback?state=expected&code=secret",
        "http://localhost:1455/other?state=expected&code=secret",
        "http://localhost:1455/auth/callback?state=wrong&code=secret",
        "http://localhost:1455/auth/callback?state=expected&state=expected&code=secret",
        "http://localhost:1455/auth/callback?state=expected&code=secret&code=other",
        "http://localhost:1455/auth/callback?state=expected&error=PRIVATE_ERROR",
    ] {
        let error = auth.callback_code(url).err().unwrap();
        assert!(!error.message.contains("PRIVATE_ERROR"));
        assert!(!error.message.contains("secret"));
    }
    assert_eq!(
        auth.callback_code("http://localhost:1455/auth/callback?state=expected").err().unwrap().code,
        "oauth_code_missing"
    );
    assert_eq!(
        auth.callback_code("  http://localhost:1455/auth/callback?code=c  ").err().unwrap().code,
        "oauth_state_missing"
    );
}

#[test]
fn handles_fragmented_utf8_crlf_and_comment_heartbeats() {
    let mut s = SseDecoder::default();
    let data = "\u{feff}: ping\r\n\r\nevent: test\r\ndata: {\"type\":\"test\",\"text\":\"你好\"}\r\n\r\n".as_bytes();
    let mut events = vec![];
    for byte in data {
        events.extend(s.push(&[*byte], 4096).ok().unwrap());
    }
    assert_eq!(events.len(), 1);
    assert!(events[0].contains("你好"));
}

#[test]
fn event_limit_does_not_accumulate_framing_or_comment_bytes() {
    let mut decoder = SseDecoder::default();
    for _ in 0..1000 {
        assert!(decoder.push(b": ping\n\n", 100).ok().unwrap().is_empty());
        assert_eq!(decoder.push(b"data: {}\n\n", 100).ok().unwrap(), vec!["{}"]);
        assert_eq!(decoder.buffered_bytes(), 0);
    }
    assert!(decoder.push(&[b'a'; 101], 100).is_err());
}

#[test]
fn done_markers_are_dropped_and_frames_check_the_type() {
    let mut decoder = SseDecoder::new();
    assert!(decoder.push(b"data: [DONE]\n\n", 100).ok().unwrap().is_empty());
    assert_eq!(frame(Some("response.done"), "{}").ok().unwrap(), "event: response.done\ndata: {}\n\n");
    assert_eq!(frame(None, "{}").err().unwrap().message, "SSE event has no type");
    assert_eq!(frame(Some("bad type"), "{}").err().unwrap().message, "SSE event type is invalid");
}

fn credit(id: &str, status: &str, kind: &str, granted: Timestamp, expires: Option<Timestamp>) -> ResetCredit {
    ResetCredit {
        id: id.into(),
        reset_type: kind.into(),
        status: status.into(),
        granted_at: granted,
        expires_at: expires,
        title: None,
        description: None,
    }
}

#[test]
fn unknown_or_malformed_credits_cannot_be_spent() {
    let now = Timestamp { secs: 1_700_000_000, nanos: 0 };
    let days = |n: i64| Timestamp { secs: now.secs + n * 86_400, nanos: 0 };
    let list = || {
        vec![
            credit("infinite", "available", "codex_rate_limits", now, None),
            credit("later", "available", "codex_rate_limits", now, Some(days(2))),
            credit("soon", "available", "codex_rate_limits", now, Some(days(1))),
            credit("expired", "available", "codex_rate_limits", now, Some(now)),
            credit("new-status", "new", "codex_rate_limits", now, Some(now)),
            credit("new-type", "available", "new", now, Some(now)),
        ]
    };
    let parsed = accept_credits(ResetCredits { available_count: 6, credits: list(), observed_at: now }, now)
        .ok()
        .unwrap();
    assert_eq!(parsed.credits.len(), 6);
    assert_eq!(parsed.next(now).unwrap().id, "soon");
    assert_eq!(parsed.next(days(1)).unwrap().id, "later");
    assert_eq!(parsed.next(days(3)).unwrap().id, "infinite");
    let duplicate = vec![
        credit("infinite", "available", "codex_rate_limits", now, None),
        credit("infinite", "available", "codex_rate_limits", now, None),
    ];
    let refused = accept_credits(ResetCredits { available_count: 2, credits: duplicate, observed_at: now }, now);
    assert_eq!(refused.err().unwrap().code, "invalid_reset_response");
    let blank = vec![credit("  ", "available", "codex_rate_limits", now, None)];
    assert!(accept_credits(ResetCredits { available_count: 1, credits: blank, observed_at: now }, now).is_err());
    let empty = accept_credits(ResetCredits { available_count: 0, credits: vec![], observed_at: now }, now);
    assert_eq!(empty.ok().unwrap().credits.len(), 0);
}

fn cand(field: &str, source: &str, value: RawValue) -> Candidate {
    candidate(field, source.into(), &value)
}

#[test]
fn candidates_are_classified_without_keeping_bad_values() {
    let c = cand("session_id", "body.client_metadata.session_id", RawValue::Text("  s1 ".into()));
    assert_eq!((c.status.as_str(), c.value.as_deref(), c.bytes), ("valid", Some("s1"), 5));
    let c = cand("session_id", "x", RawValue::Text("a\u{7}".into()));
    assert_eq!((c.status.as_str(), c.value), ("invalid_characters", None));
    let c = cand("session_id", "x", RawValue::Text("x".repeat(513)));
    assert_eq!(c.status, "too_long");
    assert_eq!(cand("session_id", "x", RawValue::Null).status, "empty");
    assert_eq!(cand("session_id", "x", RawValue::Other).status, "invalid_type");
    assert_eq!(cand("session_id", "x", RawValue::Undecodable(3)).bytes, 3);
}

#[test]
fn signals_resolve_by_precedence_and_refuse_conflicts() {
    let cs = vec![
        cand("thread_id", "headers.thread-id[0]", RawValue::Text("t".into())),
        cand("conversation_id", "body.client_metadata.conversation_id", RawValue::Text("c".into())),
    ];
    let r = resolve(&cs).ok().unwrap().unwrap();
    assert_eq!((r.session_id.as_str(), r.thread_id.as_str()), ("c", "t"));
    let cs = vec![cand("search_id", "body.id", RawValue::Text("q".into()))];
    let r = resolve(&cs).ok().unwrap().unwrap();
    assert_eq!((r.session_id.as_str(), r.thread_id.as_str()), ("q", "q"));
    assert_eq!(r.thread_sources, vec!["resolved.session_id".to_string()]);
    assert!(resolve(&vec![]).ok().unwrap().is_none());
    let cs = vec![
        cand("session_id", "a", RawValue::Text("x".into())),
        cand("session_id", "b", RawValue::Text("y".into())),
    ];
    let e = coherent(&cs, "session_id").err().unwrap();
    assert_eq!(e.code, "identity_conflict");
    assert_eq!(e.message, "Conflicting session_id values in a, b");
    let cs = vec![cand("prompt_cache_key", "body.prompt_cache_key", RawValue::Other)];
    assert_eq!(
        resolve(&cs).err().unwrap().message,
        "Invalid identity at body.prompt_cache_key (invalid_type)"
    );
}

#[test]
fn ingress_identity_fields_must_agree() {
    let ok = ingress::coherent(&vec![Some("s".into())], &vec![RawValue::Null, RawValue::Text("s".into())]);
    assert_eq!(ok.ok().unwrap(), Some("s".to_string()));
    let conflict = ingress::coherent(&vec![Some("s".into())], &vec![RawValue::Text("t".into())]);
    assert_eq!(conflict.err().unwrap().code, "identity_conflict");
    assert!(ingress::coherent(&vec![None], &vec![]).is_err());
    assert!(ingress::coherent(&vec![], &vec![RawValue::Other]).is_err());
    assert!(ingress::coherent(&vec![Some("".into())], &vec![]).is_err());
    assert_eq!(ingress::coherent(&vec![], &vec![]).ok().unwrap(), None);
}

#[test]
fn identity_traces_are_bounded_and_name_their_action() {
    let mut trace = RequestRewrite { entries: vec![], omitted: 0 };
    push(&mut trace, "headers.session_id".into(), Some("a"), Some("b"), false);
    push(&mut trace, "body.input[0].id".into(), Some("a"), Some("b"), true);
    push(&mut trace, "x".into(), None, Some("b"), false);
    push(&mut trace, "y".into(), Some("a"), None, false);
    push(&mut trace, "z".into(), Some("a"), Some("a"), false);
    let actions: Vec<_> = trace.entries.iter().map(|e| e.action.as_str()).collect();
    assert_eq!(actions, ["rewritten", "alias_restored", "added", "removed", "unchanged"]);
    let long = "x".repeat(513);
    push(&mut trace, "w".into(), Some(&long), None, false);
    assert_eq!(trace.omitted, 1);
    assert_eq!(identifier("ok"), Some("ok"));
    assert_eq!(identifier("bad\u{0}"), None);
    assert_eq!(identity_kind("conversation-id"), Some("thread"));
    assert_eq!(identity_kind("x-client-request-id"), Some("request"));
    assert_eq!(identity_kind("installation_id"), None);
}

#[test]
fn report_queries_whitelist_usage_fields() {
    let usage = list_usage("d");
    assert!(usage.starts_with("jsonb_build_object('input_tokens',d->'input_tokens',"));
    assert!(usage.ends_with("'search_calls',d->'search_calls')"));
    let detail = request_report_query(false);
    assert!(detail.starts_with("SELECT requests.data || jsonb_build_object("));
    assert!(detail.ends_with("AS data FROM requests requests"));
    let summary = request_report_query(true);
    assert!(summary.contains(&list_usage("requests.data->'usage'")));
    assert!(summary.ends_with("AS data FROM page requests"));
}
