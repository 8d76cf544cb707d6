//! Classification of an upstream error response: the gateway error and status
//! the caller sees, the account state it implies, and the allowlisted facts
//! kept for diagnostics. Free-form upstream text is only ever attached as the
//! caller's own client message.
use vstd::prelude::*;
use crate::accounts::DisableReason;
use crate::json::{Json, JsonView, member};
use crate::text::{
    str_eq, string_of, strip_prefix, trim, trim_quotes, trim_quotes_spec, trim_spec,
};
use crate::types::{Error, UpstreamError, client_text, error_is, plain_error};

verus! {

/// What a JSON pointer finds in a document: nothing, a string, or a value of
/// another kind.
#[derive(Debug)]
pub enum JsonField {
    Absent,
    Text(String),
    Other,
}

/// `None` when absent, `Some(None)` for a value that is not a string.
pub type FieldView = Option<Option<Seq<char>>>;

pub open spec fn field_view(f: JsonField) -> FieldView {
    match f {
        JsonField::Absent => None,
        JsonField::Text(s) => Some(Some(s@)),
        JsonField::Other => Some(None),
    }
}

/// The fields of an upstream error document that classification reads:
/// `/error/code`, `/error/type`, `/code`, `/error/message`, `/detail`,
/// `/message` and `/error/param`.
#[derive(Debug)]
pub struct ErrorBody {
    pub error_code: JsonField,
    pub error_type: JsonField,
    pub code: JsonField,
    pub error_message: JsonField,
    pub detail: JsonField,
    pub message: JsonField,
    pub error_param: JsonField,
}

pub type ErrorFieldsView = (
    FieldView,
    FieldView,
    FieldView,
    FieldView,
    FieldView,
    FieldView,
    FieldView,
);

pub open spec fn body_view(b: ErrorBody) -> ErrorFieldsView {
    (
        field_view(b.error_code),
        field_view(b.error_type),
        field_view(b.code),
        field_view(b.error_message),
        field_view(b.detail),
        field_view(b.message),
        field_view(b.error_param),
    )
}

pub open spec fn parsed_view(p: Option<ErrorBody>) -> Option<ErrorFieldsView> {
    match p {
        Some(b) => Some(body_view(b)),
        None => None,
    }
}

/// The error fields of `body` read as JSON, or `None` when it is not JSON.
pub uninterp spec fn json_error_fields(body: Seq<u8>) -> Option<ErrorFieldsView>;

/// `serde_json::from_slice` of an error response, keeping the fields that
/// classification reads, each by `serde_json::Value::pointer`.
#[verifier::external_body]
pub(crate) fn parse_error_body(body: &[u8]) -> (r: Option<ErrorBody>)
    ensures
        parsed_view(r) == json_error_fields(body@),
{
    let f = |v: &serde_json::Value, p: &str| match v.pointer(p) {
        None => JsonField::Absent,
        Some(serde_json::Value::String(s)) => JsonField::Text(s.clone()),
        Some(_) => JsonField::Other,
    };
    let v = serde_json::from_slice::<serde_json::Value>(body).ok()?;
    Some(ErrorBody {
        error_code: f(&v, "/error/code"), error_type: f(&v, "/error/type"), code: f(&v, "/code"),
        error_message: f(&v, "/error/message"), detail: f(&v, "/detail"),
        message: f(&v, "/message"), error_param: f(&v, "/error/param"),
    })
}

/// The first of two lookups that found something.
pub open spec fn or_present(a: FieldView, b: FieldView) -> FieldView {
    if a is Some {
        a
    } else {
        b
    }
}

/// The string a lookup found, if it found one.
pub open spec fn text_of(f: FieldView) -> Option<Seq<char>> {
    match f {
        Some(Some(s)) => Some(s),
        _ => None,
    }
}

pub open spec fn or_text(a: Option<Seq<char>>, b: Option<Seq<char>>) -> Option<Seq<char>> {
    if a is Some {
        a
    } else {
        b
    }
}

/// The upstream code: the first of `/error/code`, `/error/type` and `/code`
/// that is present, when it is a string.
pub open spec fn raw_code(v: ErrorFieldsView) -> Option<Seq<char>> {
    text_of(or_present(v.0, or_present(v.1, v.2)))
}

/// The code classification compares, empty when there is none.
pub open spec fn compared_code(p: Option<ErrorFieldsView>) -> Seq<char> {
    match p {
        Some(v) => match raw_code(v) {
            Some(c) => c,
            None => Seq::empty(),
        },
        None => Seq::empty(),
    }
}

/// The text offered to the caller: the first string among `/error/message`,
/// `/detail` and `/message`.
pub open spec fn caller_text(p: Option<ErrorFieldsView>) -> Option<Seq<char>> {
    match p {
        Some(v) => or_text(text_of(v.3), or_text(text_of(v.4), text_of(v.5))),
        None => None,
    }
}

pub open spec fn revoked_code(c: Seq<char>) -> bool {
    ||| c == "invalid_grant"@
    ||| c == "token_revoked"@
    ||| c == "account_deactivated"@
    ||| c == "invalid_token"@
}

pub open spec fn exhausted_code(c: Seq<char>) -> bool {
    ||| c == "insufficient_quota"@
    ||| c == "usage_limit_reached"@
    ||| c == "quota_exhausted"@
}

/// An explicit upstream content-policy rejection.
pub open spec fn content_policy_code(c: Seq<char>) -> bool {
    c == "content_policy_violation"@
}

/// Gateway code and message for an upstream status that names no account
/// condition.
pub open spec fn status_class(status: u16) -> (Seq<char>, Seq<char>) {
    if status == 429 {
        ("upstream_rate_limited"@, "The upstream temporarily rate-limited this request"@)
    } else if status == 400 || status == 422 {
        ("upstream_invalid_request"@, "The upstream rejected the request parameters or context"@)
    } else if status == 403 {
        ("upstream_forbidden"@, "The upstream account cannot access this capability"@)
    } else if status == 404 {
        ("upstream_not_found"@, "The upstream model or endpoint was not found"@)
    } else {
        ("upstream_error"@, "The upstream could not complete this request"@)
    }
}

/// Client errors keep their status; anything else is a bad gateway.
pub open spec fn gateway_status(status: u16) -> u16 {
    if 400 <= status < 500 {
        status
    } else {
        502
    }
}

/// What `classify_parsed_error` yields for `status` and the parsed fields:
/// the error, whether it carries the caller's text, and the account state.
pub open spec fn classified(e: Error, d: Option<DisableReason>, status: u16, p: Option<ErrorFieldsView>) -> bool {
    let code = compared_code(p);
    if status == 401 || revoked_code(code) {
        plain_error(e, 502, "oauth_invalid"@, "The upstream account authorization is invalid"@)
            && d == Some(DisableReason::OauthInvalid)
    } else if exhausted_code(code) {
        plain_error(e, 429, "upstream_quota_exhausted"@, "The upstream account quota is exhausted"@)
            && d == Some(DisableReason::QuotaExhausted)
    } else if content_policy_code(code) {
        &&& error_is(
            e,
            403,
            "upstream_content_policy_violation"@,
            "The upstream rejected this request under its content policy"@,
        )
        &&& e.upstream is None
        &&& e.attached_message() == client_text(caller_text(p))
        &&& d is None
    } else {
        &&& error_is(e, gateway_status(status), status_class(status).0, status_class(status).1)
        &&& e.upstream is None
        &&& e.attached_message() == client_text(caller_text(p))
        &&& d is None
    }
}

fn present<'a>(a: &'a JsonField, b: &'a JsonField) -> (r: &'a JsonField)
    ensures
        field_view(*r) == or_present(field_view(*a), field_view(*b)),
{
    match a {
        JsonField::Absent => b,
        _ => a,
    }
}

fn text<'a>(f: &'a JsonField) -> (r: Option<&'a str>)
    ensures
        match r {
            Some(s) => text_of(field_view(*f)) == Some(s@),
            None => text_of(field_view(*f)) is None,
        },
{
    match f {
        JsonField::Text(s) => Some(s.as_str()),
        _ => None,
    }
}

fn code_of(parsed: &Option<ErrorBody>) -> (r: &str)
    ensures
        r@ == compared_code(parsed_view(*parsed)),
{
    match parsed {
        Some(b) => match text(present(&b.error_code, present(&b.error_type, &b.code))) {
            Some(s) => s,
            None => {
                proof {
                    reveal_strlit("");
                    assert(""@ =~= Seq::<char>::empty());
                }
                ""
            },
        },
        None => {
            proof {
                reveal_strlit("");
                assert(""@ =~= Seq::<char>::empty());
            }
            ""
        },
    }
}

/// The gateway error and the account state an upstream failure implies.
/// Revoked authorization disables the account as `OauthInvalid`, an
/// exhausted quota as `QuotaExhausted`; an explicit content-policy rejection
/// is refused with 403 and leaves the account enabled; otherwise the status is classified
/// and the upstream's own explanation is attached for the caller only.
pub fn classify_parsed_error(status: u16, parsed: &Option<ErrorBody>) -> (r: (Error, Option<DisableReason>))
    ensures
        classified(r.0, r.1, status, parsed_view(*parsed)),
{
    let code = code_of(parsed);
    if status == 401 || str_eq(code, "invalid_grant") || str_eq(code, "token_revoked") || str_eq(
        code,
        "account_deactivated",
    ) || str_eq(code, "invalid_token") {
        return (
            Error::new(502, "oauth_invalid", "The upstream account authorization is invalid"),
            Some(DisableReason::OauthInvalid),
        );
    }
    if str_eq(code, "insufficient_quota") || str_eq(code, "usage_limit_reached") || str_eq(
        code,
        "quota_exhausted",
    ) {
        return (
            Error::new(429, "upstream_quota_exhausted", "The upstream account quota is exhausted"),
            Some(DisableReason::QuotaExhausted),
        );
    }
    let policy = str_eq(code, "content_policy_violation");
    let (code, message) = if policy {
        ("upstream_content_policy_violation", "The upstream rejected this request under its content policy")
    } else if status == 429 {
        ("upstream_rate_limited", "The upstream temporarily rate-limited this request")
    } else if status == 400 || status == 422 {
        ("upstream_invalid_request", "The upstream rejected the request parameters or context")
    } else if status == 403 {
        ("upstream_forbidden", "The upstream account cannot access this capability")
    } else if status == 404 {
        ("upstream_not_found", "The upstream model or endpoint was not found")
    } else {
        ("upstream_error", "The upstream could not complete this request")
    };
    let caller: Option<&str> = match parsed {
        Some(b) => {
            let m = text(&b.error_message);
            if m.is_some() {
                m
            } else {
                let d = text(&b.detail);
                if d.is_some() {
                    d
                } else {
                    text(&b.message)
                }
            }
        },
        None => None,
    };
    let out_status = if policy {
        403
    } else if 400 <= status && status < 500 {
        status
    } else {
        502
    };
    (Error::new(out_status, code, message).with_client_message(caller), None)
}

pub open spec fn known_code(c: Seq<char>) -> bool {
    ||| c == "unsupported_parameter"@
    ||| c == "unknown_parameter"@
    ||| c == "invalid_value"@
    ||| c == "invalid_request_error"@
    ||| c == "invalid_encrypted_content"@
    ||| c == "context_length_exceeded"@
    ||| c == "rate_limit_exceeded"@
    ||| c == "insufficient_quota"@
    ||| c == "usage_limit_reached"@
    ||| c == "invalid_token"@
    ||| c == "token_revoked"@
    ||| c == "account_deactivated"@
    ||| c == "server_error"@
}

pub open spec fn known_param(p: Seq<char>) -> bool {
    ||| p == "model"@
    ||| p == "input"@
    ||| p == "instructions"@
    ||| p == "tools"@
    ||| p == "tool_choice"@
    ||| p == "parallel_tool_calls"@
    ||| p == "max_output_tokens"@
    ||| p == "max_completion_tokens"@
    ||| p == "temperature"@
    ||| p == "top_p"@
    ||| p == "stream_options"@
    ||| p == "service_tier"@
    ||| p == "reasoning"@
    ||| p == "text"@
    ||| p == "store"@
    ||| p == "stream"@
    ||| p == "previous_response_id"@
    ||| p == "background"@
    ||| p == "client_metadata"@
    ||| p == "prompt_cache_key"@
    ||| p == "context_management"@
    ||| p == "truncation"@
}

/// The message facts are read from: the first of `/error/message`, `/detail`
/// and `/message` that is present, when it is a string; else empty.
pub open spec fn facts_message(v: ErrorFieldsView) -> Seq<char> {
    match text_of(or_present(v.3, or_present(v.4, v.5))) {
        Some(m) => m,
        None => Seq::empty(),
    }
}

/// The parameter named by an "Unsupported parameter: " or "Unknown
/// parameter: " message.
pub open spec fn named_parameter(m: Seq<char>) -> Option<Seq<char>> {
    if "Unsupported parameter: "@.is_prefix_of(m) {
        Some(m.skip("Unsupported parameter: "@.len() as int))
    } else if "Unknown parameter: "@.is_prefix_of(m) {
        Some(m.skip("Unknown parameter: "@.len() as int))
    } else {
        None
    }
}

pub open spec fn facts_code(v: ErrorFieldsView) -> Option<Seq<char>> {
    match raw_code(v) {
        Some(c) => if known_code(c) {
            Some(c)
        } else {
            None
        },
        None => None,
    }
}

/// `/error/param` when it is a string, else the parameter the message names;
/// trimmed of white space, then of quotes and full stops; kept only when it
/// is a known request parameter.
pub open spec fn facts_param(v: ErrorFieldsView) -> Option<Seq<char>> {
    match or_text(text_of(v.6), named_parameter(facts_message(v))) {
        Some(p) => {
            let t = trim_quotes_spec(trim_spec(p));
            if known_param(t) {
                Some(t)
            } else {
                None
            }
        },
        None => None,
    }
}

pub open spec fn facts_reason(v: ErrorFieldsView) -> Option<Seq<char>> {
    let m = facts_message(v);
    let code = facts_code(v);
    if m == "Our servers are currently overloaded. Please try again later."@ {
        Some("upstream_overloaded"@)
    } else if code == Some("invalid_encrypted_content"@) && m
        == "Encrypted function output content could not be decrypted or decoded."@ {
        Some("invalid_encrypted_tool_output"@)
    } else if named_parameter(m) is Some || code == Some("unsupported_parameter"@) || code == Some(
        "unknown_parameter"@,
    ) {
        Some("unsupported_parameter"@)
    } else if code == Some("invalid_encrypted_content"@) {
        Some("invalid_encrypted_content"@)
    } else if code == Some("context_length_exceeded"@) {
        Some("context_length_exceeded"@)
    } else if code == Some("rate_limit_exceeded"@) {
        Some("rate_limit_exceeded"@)
    } else {
        None
    }
}

/// The allowlisted facts of a parsed error: code, reason and parameter, or
/// nothing when none of them is known.
pub open spec fn facts_of(p: Option<ErrorFieldsView>) -> Option<
    (Option<Seq<char>>, Option<Seq<char>>, Option<Seq<char>>),
> {
    match p {
        Some(v) => if facts_code(v) is None && facts_reason(v) is None && facts_param(v) is None {
            None
        } else {
            Some((facts_code(v), facts_reason(v), facts_param(v)))
        },
        None => None,
    }
}

pub open spec fn ov(v: Option<String>) -> Option<Seq<char>> {
    match v {
        Some(s) => Some(s@),
        None => None,
    }
}

pub open spec fn facts_are(u: Option<UpstreamError>, f: Option<(Option<Seq<char>>, Option<Seq<char>>, Option<Seq<char>>)>) -> bool {
    match f {
        Some(f) => u matches Some(x) && ov(x.code) == f.0 && ov(x.reason) == f.1 && ov(x.param)
            == f.2,
        None => u is None,
    }
}

fn known_code_text(c: &str) -> (r: bool)
    ensures
        r == known_code(c@),
{
    str_eq(c, "unsupported_parameter") || str_eq(c, "unknown_parameter") || str_eq(
        c,
        "invalid_value",
    ) || str_eq(c, "invalid_request_error") || str_eq(c, "invalid_encrypted_content") || str_eq(
        c,
        "context_length_exceeded",
    ) || str_eq(c, "rate_limit_exceeded") || str_eq(c, "insufficient_quota") || str_eq(
        c,
        "usage_limit_reached",
    ) || str_eq(c, "invalid_token") || str_eq(c, "token_revoked") || str_eq(
        c,
        "account_deactivated",
    ) || str_eq(c, "server_error")
}

fn known_param_text(p: &str) -> (r: bool)
    ensures
        r == known_param(p@),
{
    str_eq(p, "model") || str_eq(p, "input") || str_eq(p, "instructions") || str_eq(p, "tools")
        || str_eq(p, "tool_choice") || str_eq(p, "parallel_tool_calls") || str_eq(
        p,
        "max_output_tokens",
    ) || str_eq(p, "max_completion_tokens") || str_eq(p, "temperature") || str_eq(p, "top_p")
        || str_eq(p, "stream_options") || str_eq(p, "service_tier") || str_eq(p, "reasoning")
        || str_eq(p, "text") || str_eq(p, "store") || str_eq(p, "stream") || str_eq(
        p,
        "previous_response_id",
    ) || str_eq(p, "background") || str_eq(p, "client_metadata") || str_eq(
        p,
        "prompt_cache_key",
    ) || str_eq(p, "context_management") || str_eq(p, "truncation")
}

fn opt_string(s: Option<&str>) -> (r: Option<String>)
    ensures
        ov(r) == match s {
            Some(x) => Some(x@),
            None => None,
        },
{
    match s {
        Some(x) => Some(string_of(x)),
        None => None,
    }
}

fn code_is(c: Option<&str>, want: &str) -> (r: bool)
    ensures
        r == (c matches Some(x) && x@ == want@),
{
    match c {
        Some(x) => str_eq(x, want),
        None => false,
    }
}

/// The allowlisted facts of an upstream error: a known code, a reason, and a
/// known request parameter. No other upstream text is kept.
pub fn error_facts(parsed: &Option<ErrorBody>) -> (r: Option<UpstreamError>)
    ensures
        facts_are(r, facts_of(parsed_view(*parsed))),
{
    let b = match parsed {
        Some(b) => b,
        None => return None,
    };
    let ghost v = body_view(*b);
    let raw = text(present(&b.error_code, present(&b.error_type, &b.code)));
    let code: Option<&str> = match raw {
        Some(c) => if known_code_text(c) {
            Some(c)
        } else {
            None
        },
        None => None,
    };
    assert(match code {
        Some(c) => facts_code(v) == Some(c@),
        None => facts_code(v) is None,
    });
    let message: &str = match text(present(&b.error_message, present(&b.detail, &b.message))) {
        Some(m) => m,
        None => {
            proof {
                reveal_strlit("");
                assert(""@ =~= Seq::<char>::empty());
            }
            ""
        },
    };
    assert(message@ == facts_message(v));
    let unsupported = match strip_prefix(message, "Unsupported parameter: ") {
        Some(rest) => Some(rest),
        None => strip_prefix(message, "Unknown parameter: "),
    };
    assert(match unsupported {
        Some(u) => named_parameter(message@) == Some(u@),
        None => named_parameter(message@) is None,
    });
    let candidate = match text(&b.error_param) {
        Some(p) => Some(p),
        None => unsupported,
    };
    let param: Option<&str> = match candidate {
        Some(p) => {
            let t = trim_quotes(trim(p));
            if known_param_text(t) {
                Some(t)
            } else {
                None
            }
        },
        None => None,
    };
    assert(match param {
        Some(p) => facts_param(v) == Some(p@),
        None => facts_param(v) is None,
    });
    let reason: Option<&str> = if str_eq(
        message,
        "Our servers are currently overloaded. Please try again later.",
    ) {
        Some("upstream_overloaded")
    } else if code_is(code, "invalid_encrypted_content") && str_eq(
        message,
        "Encrypted function output content could not be decrypted or decoded.",
    ) {
        Some("invalid_encrypted_tool_output")
    } else if unsupported.is_some() || code_is(code, "unsupported_parameter") || code_is(
        code,
        "unknown_parameter",
    ) {
        Some("unsupported_parameter")
    } else if code_is(code, "invalid_encrypted_content") {
        Some("invalid_encrypted_content")
    } else if code_is(code, "context_length_exceeded") {
        Some("context_length_exceeded")
    } else if code_is(code, "rate_limit_exceeded") {
        Some("rate_limit_exceeded")
    } else {
        None
    };
    assert(match reason {
        Some(x) => facts_reason(v) == Some(x@),
        None => facts_reason(v) is None,
    });
    if code.is_none() && reason.is_none() && param.is_none() {
        return None;
    }
    Some(UpstreamError { code: opt_string(code), reason: opt_string(reason), param: opt_string(param) })
}

/// Classifies an upstream error response: `classify_parsed_error` of its
/// parsed fields (nothing when the body is not JSON), with the allowlisted
/// facts attached.
pub fn classify_error(status: u16, body: &[u8]) -> (r: (Error, Option<DisableReason>))
    ensures
        classified_with_facts(r.0, r.1, status, json_error_fields(body@)),
{
    let parsed = parse_error_body(body);
    let (error, disable) = classify_parsed_error(status, &parsed);
    let facts = error_facts(&parsed);
    (error.with_upstream(facts), disable)
}

/// `classified`, except that the allowlisted facts are attached.
pub open spec fn classified_with_facts(e: Error, d: Option<DisableReason>, status: u16, p: Option<ErrorFieldsView>) -> bool {
    let code = compared_code(p);
    &&& facts_are(crate::types::unbox_upstream(e.upstream), facts_of(p))
    &&& if status == 401 || revoked_code(code) {
        error_is(e, 502, "oauth_invalid"@, "The upstream account authorization is invalid"@)
            && e.attached_message() is None && d == Some(DisableReason::OauthInvalid)
    } else if exhausted_code(code) {
        error_is(e, 429, "upstream_quota_exhausted"@, "The upstream account quota is exhausted"@)
            && e.attached_message() is None && d == Some(DisableReason::QuotaExhausted)
    } else if content_policy_code(code) {
        &&& error_is(
            e,
            403,
            "upstream_content_policy_violation"@,
            "The upstream rejected this request under its content policy"@,
        )
        &&& e.attached_message() == client_text(caller_text(p))
        &&& d is None
    } else {
        &&& error_is(e, gateway_status(status), status_class(status).0, status_class(status).1)
        &&& e.attached_message() == client_text(caller_text(p))
        &&& d is None
    }
}


/// Revoked authorization disables the account: a 401, or an error whose code
/// says the grant or token was revoked or the account deactivated, is
/// answered 502 `oauth_invalid` and disables the account for `OauthInvalid`.
pub proof fn law_revoked_authorization_disables_the_account(
    e: Error,
    d: Option<DisableReason>,
    status: u16,
    p: Option<ErrorFieldsView>,
)
    requires
        status == 401 || compared_code(p) == "invalid_grant"@ || compared_code(p) == "token_revoked"@
            || compared_code(p) == "account_deactivated"@ || compared_code(p) == "invalid_token"@,
    ensures
        classified(e, d, status, p) ==> e.status == 502 && e.code@ == "oauth_invalid"@ && d == Some(
            DisableReason::OauthInvalid,
        ),
        classified_with_facts(e, d, status, p) ==> e.status == 502 && e.code@ == "oauth_invalid"@ && d
            == Some(DisableReason::OauthInvalid),
{
}

/// Only an account condition disables an account: an error that is neither
/// a 401 nor carries a revoked-authorization or exhausted-quota code leaves
/// the account enabled.
pub proof fn law_other_errors_leave_the_account_enabled(
    e: Error,
    d: Option<DisableReason>,
    status: u16,
    p: Option<ErrorFieldsView>,
)
    requires
        status != 401,
        !revoked_code(compared_code(p)),
        !exhausted_code(compared_code(p)),
    ensures
        classified(e, d, status, p) ==> d is None,
        classified_with_facts(e, d, status, p) ==> d is None,
{
}

/// An exhausted upstream quota disables the account: whatever the status
/// (short of an authorization failure), an error whose code is
/// `insufficient_quota`, `usage_limit_reached` or `quota_exhausted` is
/// answered 429 `upstream_quota_exhausted` and disables the account for
/// `QuotaExhausted`, with or without the upstream facts attached.
pub proof fn law_exhausted_quota_disables_the_account(
    e: Error,
    d: Option<DisableReason>,
    status: u16,
    p: Option<ErrorFieldsView>,
)
    requires
        status != 401,
        compared_code(p) == "insufficient_quota"@ || compared_code(p) == "usage_limit_reached"@
            || compared_code(p) == "quota_exhausted"@,
    ensures
        classified(e, d, status, p) ==> e.status == 429 && e.code@ == "upstream_quota_exhausted"@ && d
            == Some(DisableReason::QuotaExhausted),
        classified_with_facts(e, d, status, p) ==> e.status == 429 && e.code@
            == "upstream_quota_exhausted"@ && d == Some(DisableReason::QuotaExhausted),
{
    reveal_strlit("insufficient_quota");
    reveal_strlit("usage_limit_reached");
    reveal_strlit("quota_exhausted");
    reveal_strlit("invalid_grant");
    reveal_strlit("token_revoked");
    reveal_strlit("account_deactivated");
    reveal_strlit("invalid_token");
    let c = compared_code(p);
    assert(!revoked_code(c)) by {
        assert("insufficient_quota"@.len() != "invalid_grant"@.len());
        assert("insufficient_quota"@.len() != "token_revoked"@.len());
        assert("insufficient_quota"@.len() != "account_deactivated"@.len());
        assert("insufficient_quota"@.len() != "invalid_token"@.len());
        assert("usage_limit_reached"@.len() != "invalid_grant"@.len());
        assert("usage_limit_reached"@.len() != "token_revoked"@.len());
        assert("usage_limit_reached"@[0] != "account_deactivated"@[0]);
        assert("usage_limit_reached"@.len() != "invalid_token"@.len());
        assert("quota_exhausted"@.len() != "invalid_grant"@.len());
        assert("quota_exhausted"@.len() != "token_revoked"@.len());
        assert("quota_exhausted"@.len() != "account_deactivated"@.len());
        assert("quota_exhausted"@.len() != "invalid_token"@.len());
    }
    assert(exhausted_code(c));
}

/// The reasons a fact can name.
pub open spec fn known_reason(r: Seq<char>) -> bool {
    ||| r == "upstream_overloaded"@
    ||| r == "invalid_encrypted_tool_output"@
    ||| r == "unsupported_parameter"@
    ||| r == "invalid_encrypted_content"@
    ||| r == "context_length_exceeded"@
    ||| r == "rate_limit_exceeded"@
}

/// Upstream facts never carry free-form upstream text: every code, reason and
/// parameter they hold is drawn from a fixed allowlist.
pub proof fn law_facts_are_allowlisted(p: Option<ErrorFieldsView>)
    ensures
        facts_of(p) is Some && facts_of(p).unwrap().0 is Some ==> known_code(
            facts_of(p).unwrap().0.unwrap(),
        ),
        facts_of(p) is Some && facts_of(p).unwrap().1 is Some ==> known_reason(
            facts_of(p).unwrap().1.unwrap(),
        ),
        facts_of(p) is Some && facts_of(p).unwrap().2 is Some ==> known_param(
            facts_of(p).unwrap().2.unwrap(),
        ),
{
}

/// The classified message a failure is stored and logged with is one of the
/// fixed gateway texts, whatever the upstream body says: upstream text reaches
/// only the requesting caller, as its client message.
pub proof fn law_stored_message_is_fixed(e: Error, d: Option<DisableReason>, status: u16, p: Option<ErrorFieldsView>)
    requires
        classified_with_facts(e, d, status, p),
    ensures
        e.message@ == "The upstream account authorization is invalid"@ || e.message@
            == "The upstream account quota is exhausted"@ || e.message@
            == "The upstream rejected this request under its content policy"@ || e.message@
            == status_class(status).1,
{
}


/// What a lookup in a parsed document found, as a field.
pub open spec fn field_of(o: Option<JsonView>) -> FieldView {
    match o {
        Some(JsonView::Text(s)) => Some(Some(s)),
        Some(_) => Some(None),
        None => None,
    }
}

/// The error fields of a parsed document.
pub open spec fn fields_of_json(v: JsonView) -> ErrorFieldsView {
    let e = v.get("error"@);
    (
        field_of(member(e, "code"@)),
        field_of(member(e, "type"@)),
        field_of(v.get("code"@)),
        field_of(member(e, "message"@)),
        field_of(v.get("detail"@)),
        field_of(v.get("message"@)),
        field_of(member(e, "param"@)),
    )
}

fn field(o: Option<&Json>) -> (r: JsonField)
    ensures
        field_view(r) == field_of(
            match o {
                Some(j) => Some(j@),
                None => None,
            },
        ),
{
    match o {
        Some(Json::Text(s)) => JsonField::Text(s.clone()),
        Some(_) => JsonField::Other,
        None => JsonField::Absent,
    }
}

fn member_of<'a>(o: Option<&'a Json>, key: &str) -> (r: Option<&'a Json>)
    ensures
        match r {
            Some(j) => member(
                match o {
                    Some(x) => Some(x@),
                    None => None,
                },
                key@,
            ) == Some(j@),
            None => member(
                match o {
                    Some(x) => Some(x@),
                    None => None,
                },
                key@,
            ) is None,
        },
{
    match o {
        Some(x) => x.get(key),
        None => None,
    }
}

/// The error fields of a document that is already parsed.
pub fn error_body_of(value: &Json) -> (r: ErrorBody)
    ensures
        body_view(r) == fields_of_json(value@),
{
    let e = value.get("error");
    ErrorBody {
        error_code: field(member_of(e, "code")),
        error_type: field(member_of(e, "type")),
        code: field(value.get("code")),
        error_message: field(member_of(e, "message")),
        detail: field(value.get("detail")),
        message: field(value.get("message")),
        error_param: field(member_of(e, "param")),
    }
}

} // verus!
