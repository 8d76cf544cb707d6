use xxgate::accounts::DisableReason;
use xxgate::codex::upstream_error::{classify_error, classify_parsed_error, error_facts, ErrorBody, JsonField};
use xxgate::types::Error;

/// The fields an error keeps when it is stored: everything but the caller's
/// own client message.
fn stored_text(e: &Error) -> String {
    let mut s = format!("{} {} {}", e.code, e.message, e.status);
    if let Some(u) = &e.upstream {
        s.push_str(&format!(" {:?} {:?} {:?}", u.code, u.reason, u.param));
    }
    s
}

#[test]
fn upstream_facts_preserve_known_causes_without_free_text() {
    let (error, _) = classify_error(400, br#"{"detail":"Unsupported parameter: max_output_tokens"}"#);
    let facts = error.upstream.unwrap();
    assert_eq!(facts.reason.as_deref(), Some("unsupported_parameter"));
    assert_eq!(facts.param.as_deref(), Some("max_output_tokens"));
    let (error, _) = classify_error(
        400,
        br#"{"error":{"code":"invalid_encrypted_content","param":"input","message":"PRIVATE_REQUEST_CONTENT"}}"#,
    );
    assert_eq!(error.upstream.as_ref().unwrap().reason.as_deref(), Some("invalid_encrypted_content"));
    assert_eq!(error.client_message(), "PRIVATE_REQUEST_CONTENT");
    assert!(!stored_text(&error).contains("PRIVATE_"));
    let (error, _) = classify_error(
        400,
        br#"{"error":{"code":"PRIVATE_CODE","param":"PRIVATE_PARAM","message":"PRIVATE_TEXT"}}"#,
    );
    assert!(error.upstream.is_none());
}

#[test]
fn upstream_error_detail_is_returned_only_to_the_requesting_client() {
    for body in [
        r#"{"error":{"code":"invalid_encrypted_content","message":"PRIVATE_HISTORY: encrypted_content is invalid"}}"#,
        r#"{"detail":"PRIVATE_HISTORY: encrypted_content is invalid"}"#,
        r#"{"message":"PRIVATE_HISTORY: encrypted_content is invalid"}"#,
    ] {
        let (error, disable) = classify_error(400, body.as_bytes());
        assert_eq!(error.status, 400);
        assert_eq!(error.code, "upstream_invalid_request");
        assert_eq!(error.client_message(), "PRIVATE_HISTORY: encrypted_content is invalid");
        assert!(disable.is_none());
        assert!(!error.message.contains("PRIVATE_"));
        assert!(!stored_text(&error).contains("PRIVATE_"));
        let restored = Error::new(error.status, &error.code, &error.message);
        assert_eq!(restored.client_message(), restored.message);
    }
    let (error, _) = classify_error(502, b"<html>PRIVATE_PROXY_RESPONSE</html>");
    assert_eq!(error.client_message(), error.message);
}

#[test]
fn revoked_authorization_disables_the_account() {
    let (error, disable) = classify_error(401, b"{}");
    assert_eq!((error.status, error.code.as_str()), (502, "oauth_invalid"));
    assert_eq!(disable, Some(DisableReason::OauthInvalid));
    let (error, disable) = classify_error(400, br#"{"error":{"code":"token_revoked"}}"#);
    assert_eq!(error.code, "oauth_invalid");
    assert_eq!(disable, Some(DisableReason::OauthInvalid));
    assert_eq!(error.upstream.as_ref().unwrap().code.as_deref(), Some("token_revoked"));
    assert_eq!(error.client_message(), "The upstream account authorization is invalid");
}

#[test]
fn exhausted_quota_is_a_rate_limit_that_disables_the_account() {
    let (error, disable) = classify_error(403, br#"{"code":"usage_limit_reached"}"#);
    assert_eq!((error.status, error.code.as_str()), (429, "upstream_quota_exhausted"));
    assert_eq!(disable, Some(DisableReason::QuotaExhausted));
    let (error, disable) = classify_error(400, br#"{"error":{"type":"quota_exhausted"}}"#);
    assert_eq!(error.status, 429);
    assert_eq!(disable, Some(DisableReason::QuotaExhausted));
    assert!(error.upstream.is_none());
}

#[test]
fn statuses_map_to_gateway_codes() {
    for (status, out, code) in [
        (429u16, 429u16, "upstream_rate_limited"),
        (422, 422, "upstream_invalid_request"),
        (403, 403, "upstream_forbidden"),
        (404, 404, "upstream_not_found"),
        (418, 418, "upstream_error"),
        (500, 502, "upstream_error"),
        (200, 502, "upstream_error"),
    ] {
        let (error, disable) = classify_error(status, b"not json");
        assert_eq!((error.status, error.code.as_str()), (out, code));
        assert!(disable.is_none());
        assert!(error.upstream.is_none());
    }
}

#[test]
fn the_first_present_code_decides_even_when_it_is_not_text() {
    // `/error/code` is present but a number: `/code` is not consulted.
    let (error, disable) = classify_error(400, br#"{"error":{"code":7},"code":"invalid_grant"}"#);
    assert_eq!(error.code, "upstream_invalid_request");
    assert!(disable.is_none());
    // The caller's text is the first string among the three message fields.
    let (error, _) = classify_error(400, br#"{"error":{"message":3},"detail":"why"}"#);
    assert_eq!(error.client_message(), "why");
}

#[test]
fn facts_name_overload_tool_output_and_trimmed_parameters() {
    let (error, _) = classify_error(
        503,
        br#"{"error":{"message":"Our servers are currently overloaded. Please try again later."}}"#,
    );
    let facts = error.upstream.unwrap();
    assert_eq!(facts.reason.as_deref(), Some("upstream_overloaded"));
    assert_eq!(facts.code, None);
    let (error, _) = classify_error(
        400,
        br#"{"error":{"code":"invalid_encrypted_content","message":"Encrypted function output content could not be decrypted or decoded."}}"#,
    );
    assert_eq!(error.upstream.unwrap().reason.as_deref(), Some("invalid_encrypted_tool_output"));
    let (error, _) = classify_error(400, br#"{"message":"Unknown parameter: 'top_p'."}"#);
    let facts = error.upstream.unwrap();
    assert_eq!(facts.param.as_deref(), Some("top_p"));
    assert_eq!(facts.reason.as_deref(), Some("unsupported_parameter"));
    let (error, _) = classify_error(400, br#"{"error":{"code":"context_length_exceeded","param":" \"input\" "}}"#);
    let facts = error.upstream.unwrap();
    assert_eq!(facts.reason.as_deref(), Some("context_length_exceeded"));
    assert_eq!(facts.param.as_deref(), Some("input"));
}

#[test]
fn parsed_fields_classify_without_reparsing() {
    let body = ErrorBody {
        error_code: JsonField::Absent,
        error_type: JsonField::Text("rate_limit_exceeded".to_string()),
        code: JsonField::Other,
        error_message: JsonField::Absent,
        detail: JsonField::Text("slow down".to_string()),
        message: JsonField::Absent,
        error_param: JsonField::Absent,
    };
    let parsed = Some(body);
    let (error, disable) = classify_parsed_error(429, &parsed);
    assert_eq!(error.code, "upstream_rate_limited");
    assert_eq!(error.client_message(), "slow down");
    assert!(disable.is_none());
    let facts = error_facts(&parsed).unwrap();
    assert_eq!(facts.code.as_deref(), Some("rate_limit_exceeded"));
    assert_eq!(facts.reason.as_deref(), Some("rate_limit_exceeded"));
    assert!(error_facts(&None).is_none());
}

#[test]
fn content_policy_rejection_is_refused_without_disabling_the_account() {
    let (e, d) = xxgate::codex::upstream_error::classify_error(
        400,
        br#"{"error":{"code":"content_policy_violation","message":"refused by policy"}}"#,
    );
    assert_eq!(e.status, 403);
    assert_eq!(e.code, "upstream_content_policy_violation");
    assert!(d.is_none());
}
