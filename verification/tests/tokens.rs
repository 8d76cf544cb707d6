use base64::Engine;
use serde_json::Value;
use xxgate::accounts::{Account, ClientProfile, Credentials};
use xxgate::codex::oauth::{
    account_details, exchange_device, refreshed, tokens, tokens_at, DeviceCode,
};
use xxgate::groups::DEFAULT_GROUP_ID;
use xxgate::ids::random_uuid;
use xxgate::json::{Json, JsonNumber};
use xxgate::time::Timestamp;

fn doc(v: &Value) -> Json {
    match v {
        Value::Null => Json::Null,
        Value::Bool(b) => Json::Bool(*b),
        Value::Number(n) => Json::Number(JsonNumber { text: n.to_string(), unsigned: n.as_u64() }),
        Value::String(s) => Json::Text(s.clone()),
        Value::Array(a) => Json::Array(a.iter().map(doc).collect()),
        Value::Object(o) => Json::Object(o.iter().map(|(k, v)| (k.clone(), doc(v))).collect()),
    }
}

fn j(text: &str) -> Json {
    doc(&serde_json::from_str::<Value>(text).unwrap())
}

/// A token whose payload segment carries the claims, as an issuer writes it.
fn token(claims: &str) -> String {
    let value: Value = serde_json::from_str(claims).unwrap();
    format!(
        "header.{}.signature",
        base64::engine::general_purpose::URL_SAFE_NO_PAD.encode(value.to_string())
    )
}

fn credentials(id_token: String, access_token: String) -> Credentials {
    Credentials { access_token, refresh_token: String::new(), id_token, expires_at: None }
}

fn stamp() -> Timestamp {
    Timestamp { secs: 1_700_000_000, nanos: 0 }
}

fn account(upstream: &str) -> Account {
    Account {
        id: random_uuid(),
        group_ids: vec![DEFAULT_GROUP_ID],
        name: "test".into(),
        provider: "openai".into(),
        access_kind: "codex_oauth".into(),
        enabled: true,
        codex_only: false,
        disable_reason: None,
        max_inflight: 1,
        upstream_account_id: upstream.into(),
        upstream_base_url: "https://chatgpt.com/backend-api/codex".into(),
        models: vec![],
        models_restricted: false,
        model_catalog: None,
        profile: ClientProfile {
            installation_id: random_uuid(),
            codex_version: "0.153.4".into(),
            user_agent: "codex_cli_rs/0.153.4".into(),
            tls_backend: "native".into(),
        },
        version: 1,
        credential_version: 1,
        credential_expires_at: None,
        created_at: stamp(),
        updated_at: stamp(),
    }
}

#[test]
fn plan_claims_cover_subscriptions_without_guessing_missing_or_unknown_plans() {
    for (claim, expected) in [
        (r#""free""#, Some("free")),
        (r#""plus""#, Some("plus")),
        (r#""Pro""#, Some("pro")),
        ("null", None),
        (r#""<script>""#, None),
        (r#""future_plan""#, None),
    ] {
        let c = credentials(
            token(&format!(
                r#"{{"email":"a@example.com","https://api.openai.com/auth":{{"chatgpt_account_id":"account-a","chatgpt_plan_type":{claim}}}}}"#
            )),
            "opaque".into(),
        );
        let d = account_details(&c).ok().unwrap();
        assert_eq!(d.plan_type.as_deref(), expected);
        assert_eq!(d.email.as_deref(), Some("a@example.com"));
    }
}

#[test]
fn refreshed_plan_uses_matching_access_claims_and_preserves_identity_email() {
    let mut c = credentials(
        token(r#"{"chatgpt_account_id":"a","email":"a@example.com","chatgpt_plan_type":"free"}"#),
        token(r#"{"chatgpt_account_id":"a","chatgpt_plan_type":"pro"}"#),
    );
    let d = account_details(&c).ok().unwrap();
    assert_eq!(d.account_id, "a");
    assert_eq!(d.email.as_deref(), Some("a@example.com"));
    assert_eq!(d.plan_type.as_deref(), Some("pro"));
    c.access_token = token(r#"{"chatgpt_account_id":"b","chatgpt_plan_type":"plus"}"#);
    assert_eq!(account_details(&c).ok().unwrap().plan_type.as_deref(), Some("free"));
    c.access_token = token(r#"{"chatgpt_account_id":"a","chatgpt_plan_type":"future_plan"}"#);
    assert_eq!(account_details(&c).ok().unwrap().plan_type, None);
    c.id_token = "invalid".into();
    c.access_token = "opaque".into();
    assert!(account_details(&c).is_err());
}

#[test]
fn account_claim_falls_back_to_the_access_token_and_needs_text() {
    let c = credentials(
        token(r#"{"chatgpt_account_id":"","email":"id@example.com"}"#),
        token(r#"{"https://api.openai.com/auth":{"chatgpt_account_id":"acct"},"email":"access@example.com"}"#),
    );
    let d = account_details(&c).ok().unwrap();
    assert_eq!(d.account_id, "acct");
    assert_eq!(d.email.as_deref(), Some("access@example.com"));
    assert_eq!(d.plan_type, None);
    let nested_number = credentials(
        token(r#"{"https://api.openai.com/auth":{"chatgpt_account_id":7},"chatgpt_account_id":"top"}"#),
        "opaque".into(),
    );
    let e = account_details(&nested_number).err().unwrap();
    assert_eq!(e.status, 400);
    assert_eq!(e.message, "Credential claims do not contain a ChatGPT account ID");
}

#[test]
fn token_response_sets_expiry_from_lifetime_or_access_claim() {
    let now = stamp();
    let c = tokens_at(&j(r#"{"access_token":"at","expires_in":3600,"refresh_token":"rt"}"#), None, now)
        .ok()
        .unwrap();
    assert_eq!(c.access_token, "at");
    assert_eq!(c.refresh_token, "rt");
    assert_eq!(c.id_token, "");
    assert_eq!(c.expires_at, Some(Timestamp { secs: 1_700_003_600, nanos: 0 }));
    let access = token(r#"{"exp":1800000000}"#);
    let c = tokens_at(
        &j(&format!(r#"{{"access_token":"{access}","expires_in":31536000}}"#)),
        None,
        now,
    )
    .ok()
    .unwrap();
    assert_eq!(c.expires_at, Some(Timestamp { secs: 1_800_000_000, nanos: 0 }));
    let c = tokens_at(&j(r#"{"access_token":"opaque","expires_in":0}"#), None, now).ok().unwrap();
    assert_eq!(c.expires_at, None);
}

#[test]
fn token_response_keeps_earlier_tokens_it_omits() {
    let previous = Credentials {
        access_token: "old-at".into(),
        refresh_token: "old-rt".into(),
        id_token: "old-id".into(),
        expires_at: None,
    };
    let c = tokens_at(&j(r#"{"access_token":"at","id_token":"id"}"#), Some(&previous), stamp())
        .ok()
        .unwrap();
    assert_eq!(c.refresh_token, "old-rt");
    assert_eq!(c.id_token, "id");
    for missing in [r#"{}"#, r#"{"access_token":""}"#, r#"{"access_token":5}"#, "null"] {
        let e = tokens(&j(missing), Some(&previous)).err().unwrap();
        assert_eq!(e.status, 502);
        assert_eq!(e.code, "invalid_oauth_response");
        assert_eq!(e.message, "OAuth response omitted access_token");
    }
    let now = tokens(&j(r#"{"access_token":"at","expires_in":60}"#), None).ok().unwrap();
    assert!(now.expires_at.unwrap().secs > 1_700_000_000);
}

#[test]
fn refresh_failures_distinguish_revoked_grants_from_temporary_errors() {
    let previous = credentials(String::new(), "old".into());
    let a = account("acct");
    for (status, body) in [
        (401, "null"),
        (400, r#"{"error":"invalid_grant"}"#),
        (400, r#"{"error":{"code":"refresh_token_reused"}}"#),
        (400, r#"{"code":"refresh_token_expired"}"#),
    ] {
        let e = refreshed(status, &j(body), &previous, &a).err().unwrap();
        assert_eq!((e.status, e.code.as_str()), (401, "oauth_invalid"));
    }
    for (status, body) in [
        (500, "null"),
        (400, r#"{"error":{"message":"invalid_grant"}}"#),
        (429, r#"{"error":"rate_limited"}"#),
    ] {
        let e = refreshed(status, &j(body), &previous, &a).err().unwrap();
        assert_eq!((e.status, e.code.as_str()), (502, "oauth_refresh_failed"));
    }
}

#[test]
fn refresh_is_bound_to_the_same_upstream_account() {
    let previous = credentials(token(r#"{"chatgpt_account_id":"acct"}"#), "old".into());
    let body = j(&format!(
        r#"{{"access_token":"{}","refresh_token":"new-rt"}}"#,
        token(r#"{"chatgpt_account_id":"other"}"#)
    ));
    let ok = refreshed(200, &body, &previous, &account("acct")).ok().unwrap();
    assert_eq!(ok.refresh_token, "new-rt");
    assert_eq!(ok.id_token, previous.id_token);
    let e = refreshed(200, &body, &previous, &account("someone-else")).err().unwrap();
    assert_eq!(e.status, 401);
    assert_eq!(e.message, "Refreshed credentials belong to a different upstream account");
}

#[test]
fn device_poll_interval_is_bounded() {
    let code = |interval: &str| DeviceCode {
        device_auth_id: "id".into(),
        user_code: "code".into(),
        interval: j(interval),
    };
    assert_eq!(code("7").poll_seconds(), 7);
    assert_eq!(code(r#""12""#).poll_seconds(), 12);
    assert_eq!(code(r#""+9""#).poll_seconds(), 9);
    assert_eq!(code("1").poll_seconds(), 3);
    assert_eq!(code("600").poll_seconds(), 60);
    assert_eq!(code(r#""soon""#).poll_seconds(), 5);
    assert_eq!(code(r#""99999999999999999999""#).poll_seconds(), 5);
    assert_eq!(code("null").poll_seconds(), 5);
    assert_eq!(code("2.5").poll_seconds(), 5);
}

#[test]
fn device_exchange_posts_code_and_verifier_as_a_form() {
    let form = exchange_device(&j(r#"{"authorization_code":"c d","code_verifier":"v"}"#)).ok().unwrap();
    assert_eq!(
        form,
        "grant_type=authorization_code&code=c+d&redirect_uri=https%3A%2F%2Fauth.openai.com%2Fdeviceauth%2Fcallback&client_id=app_EMoamEEZ73f0CkXaXp7hrann&code_verifier=v"
    );
    let e = exchange_device(&j(r#"{"code_verifier":"v"}"#)).err().unwrap();
    assert_eq!(e.message, "Device authorization omitted authorization code");
    let e = exchange_device(&j(r#"{"authorization_code":"c"}"#)).err().unwrap();
    assert_eq!(e.message, "Device authorization omitted PKCE verifier");
}
