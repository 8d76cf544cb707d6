use xxgate::codex::oauth_response::{OAuthDiagnostics, OAuthHeaders, OAuthResponse};

fn no_headers() -> OAuthHeaders {
    OAuthHeaders { request_id: None, cf_ray: None, content_type: None, cf_mitigated: None }
}

/// Every field of the diagnostics, as they would be written to an audit log.
fn diagnostics_text(d: &OAuthDiagnostics) -> String {
    format!(
        "{} {:?} {:?} {:?} {} {}",
        d.upstream_status, d.upstream_error_code, d.upstream_request_id, d.cf_ray, d.content_kind, d.challenge
    )
}

#[test]
fn region_rejection_is_not_reported_as_disabled_device_auth() {
    let response = OAuthResponse::decode(
        403,
        &no_headers(),
        br#"{"error":{"code":"unsupported_country_region_territory","message":"PRIVATE_DATA"}}"#,
    );
    assert_eq!(response.error().code, "oauth_region_unsupported");
    assert!(!response.pending());
    assert!(!diagnostics_text(&response.diagnostics).contains("PRIVATE_DATA"));
}

#[test]
fn pending_statuses_do_not_hide_challenges_or_known_errors() {
    assert!(OAuthResponse::decode(403, &no_headers(), b"{}").pending());
    assert!(OAuthResponse::decode(404, &no_headers(), br#"{"error":"authorization_pending"}"#).pending());
    let headers = OAuthHeaders {
        request_id: None,
        cf_ray: None,
        content_type: Some("text/html".to_string()),
        cf_mitigated: Some("challenge".to_string()),
    };
    let response = OAuthResponse::decode(403, &headers, b"<html>challenge</html>");
    assert!(!response.pending());
    assert_eq!(response.error().code, "oauth_network_challenge");
}

#[test]
fn diagnostics_never_include_tokens_or_arbitrary_error_values() {
    for body in [
        r#"{"access_token":"PRIVATE_TOKEN","device_auth_id":"PRIVATE_ID","user_code":"PRIVATE_CODE"}"#,
        r#"{"error":{"code":"PRIVATE_TOKEN","message":"PRIVATE_PROMPT"}}"#,
    ] {
        let r = OAuthResponse::decode(400, &no_headers(), body.as_bytes());
        assert!(!diagnostics_text(&r.diagnostics).contains("PRIVATE_"));
        assert!(!r.error().message.contains("PRIVATE_"));
    }
}

#[test]
fn unknown_codes_are_recorded_as_unrecognized_and_the_body_is_kept() {
    let r = OAuthResponse::decode(400, &no_headers(), br#"{"error":{"code":"PRIVATE_TOKEN"},"access_token":"t"}"#);
    assert_eq!(r.diagnostics.upstream_error_code, Some("unrecognized"));
    assert_eq!(r.body["access_token"], "t");
    let r = OAuthResponse::decode(400, &no_headers(), br#"{"error":"slow_down"}"#);
    assert_eq!(r.diagnostics.upstream_error_code, Some("slow_down"));
    let r = OAuthResponse::decode(400, &no_headers(), br#"{"error":{"message":"x"},"code":"expired_token"}"#);
    // `/error` is present but not a string, so `/code` decides.
    assert_eq!(r.diagnostics.upstream_error_code, Some("expired_token"));
    let r = OAuthResponse::decode(400, &no_headers(), b"not json");
    assert_eq!(r.diagnostics.upstream_error_code, None);
    assert_eq!(r.diagnostics.content_kind, "other");
    assert!(r.body.is_null());
}

#[test]
fn request_identifiers_are_kept_only_when_safe() {
    let headers = OAuthHeaders {
        request_id: Some("req-1_a.b:c".to_string()),
        cf_ray: Some("bad ray".to_string()),
        content_type: Some("text/html; charset=utf-8".to_string()),
        cf_mitigated: None,
    };
    let r = OAuthResponse::decode(403, &headers, b"<html></html>");
    assert_eq!(r.diagnostics.upstream_request_id.as_deref(), Some("req-1_a.b:c"));
    assert_eq!(r.diagnostics.cf_ray, None);
    assert_eq!(r.diagnostics.content_kind, "html");
    assert!(!r.diagnostics.challenge);
    let e = r.error();
    assert_eq!((e.status, e.code.as_str()), (502, "oauth_network_challenge"));
    assert!(e.message.ends_with("（HTTP 403）"));
    let long = OAuthHeaders { request_id: Some("a".repeat(257)), ..no_headers() };
    assert_eq!(OAuthResponse::decode(200, &long, b"[]").diagnostics.upstream_request_id, None);
}

#[test]
fn errors_explain_the_rejection_with_its_status() {
    let e = OAuthResponse::decode(429, &no_headers(), b"{}").error();
    assert_eq!(e.code, "oauth_rate_limited");
    assert_eq!(e.message, "OpenAI 授权接口暂时限流，请稍后再试。（HTTP 429）");
    let e = OAuthResponse::decode(200, &no_headers(), b"{}").error();
    assert_eq!(e.code, "invalid_oauth_response");
    let e = OAuthResponse::decode(400, &no_headers(), br#"{"error":{"code":"device_auth_disabled"}}"#).error();
    assert_eq!(e.code, "oauth_device_disabled");
    let e = OAuthResponse::decode(500, &no_headers(), b"{}").error();
    assert_eq!(e.code, "oauth_upstream_rejected");
    assert!(e.message.ends_with("（HTTP 500）"));
}
