//! Decoding of OAuth endpoint responses into allowlisted diagnostics. Only
//! known error codes, sanitized request identifiers and the response's kind
//! leave the decoder; the body itself may hold authorization codes or tokens.
use vstd::prelude::*;
use vstd::string::StringExecFns;
use crate::codex::upstream_error::{FieldView, JsonField, field_view, or_present, text_of};
use crate::text::{byte_len, decimal, decimal_text, len_bytes, str_eq, strip_prefix};
use crate::types::{Error, error_is};

verus! {

#[verifier::external_type_specification]
#[verifier::external_body]
pub struct ExJsonValue(serde_json::Value);

/// The response headers the decoder reads, each as its first value's text
/// (`None` when the header is missing or its value is not visible ASCII).
pub struct OAuthHeaders {
    pub request_id: Option<String>,
    pub cf_ray: Option<String>,
    pub content_type: Option<String>,
    pub cf_mitigated: Option<String>,
}

/// Only allowlisted diagnostics can leave the OAuth response decoder.
pub struct OAuthDiagnostics {
    pub upstream_status: u16,
    pub upstream_error_code: Option<&'static str>,
    pub upstream_request_id: Option<String>,
    pub cf_ray: Option<String>,
    pub content_kind: &'static str,
    pub challenge: bool,
}

pub struct OAuthResponse {
    pub body: serde_json::Value,
    pub diagnostics: OAuthDiagnostics,
}

/// The fields of an OAuth response body the decoder reads: `/error/code`,
/// `/error/type`, `/error`, `/code`, and whether the body is a JSON object or
/// a JSON array.
pub struct OAuthBodyFields {
    pub error_code: JsonField,
    pub error_type: JsonField,
    pub error: JsonField,
    pub code: JsonField,
    pub object: bool,
    pub array: bool,
}

pub type OAuthFieldsView = (FieldView, FieldView, FieldView, FieldView, bool, bool);

pub open spec fn oauth_fields_view(f: OAuthBodyFields) -> OAuthFieldsView {
    (
        field_view(f.error_code),
        field_view(f.error_type),
        field_view(f.error),
        field_view(f.code),
        f.object,
        f.array,
    )
}

/// The fields of an OAuth response body read as JSON; a body that is not
/// JSON reads as JSON `null`.
pub uninterp spec fn json_oauth_fields(bytes: Seq<u8>) -> OAuthFieldsView;

/// `serde_json::from_slice` of an OAuth response (JSON `null` when the bytes
/// are not JSON) and the fields the decoder reads, each by
/// `serde_json::Value::pointer`. The parsed document is handed back as it is;
/// nothing is stated of it.
#[verifier::external_body]
fn parse_oauth_body(bytes: &[u8]) -> (r: (serde_json::Value, OAuthBodyFields))
    ensures
        oauth_fields_view(r.1) == json_oauth_fields(bytes@),
{
    let body: serde_json::Value = serde_json::from_slice(bytes).unwrap_or(serde_json::Value::Null);
    let f = |p: &str| match body.pointer(p) {
        None => JsonField::Absent,
        Some(serde_json::Value::String(s)) => JsonField::Text(s.clone()),
        Some(_) => JsonField::Other,
    };
    let fields = OAuthBodyFields {
        error_code: f("/error/code"),
        error_type: f("/error/type"),
        error: f("/error"),
        code: f("/code"),
        object: body.is_object(),
        array: body.is_array(),
    };
    (body, fields)
}

/// A lookup that counts only when it found a string.
pub open spec fn string_only(f: FieldView) -> FieldView {
    if f matches Some(Some(_)) {
        f
    } else {
        None
    }
}

/// The upstream's code: the first present of `/error/code`, `/error/type`,
/// `/error` (when it is a string) and `/code`, when it is a string.
pub open spec fn oauth_raw_code(v: OAuthFieldsView) -> Option<Seq<char>> {
    text_of(or_present(v.0, or_present(v.1, or_present(string_only(v.2), v.3))))
}

pub open spec fn known_oauth_code(c: Seq<char>) -> bool {
    ||| c == "unsupported_country_region_territory"@
    ||| c == "device_authentication_disabled"@
    ||| c == "device_auth_disabled"@
    ||| c == "authorization_pending"@
    ||| c == "slow_down"@
    ||| c == "access_denied"@
    ||| c == "expired_token"@
    ||| c == "invalid_client"@
    ||| c == "invalid_grant"@
    ||| c == "rate_limit_exceeded"@
}

/// The recorded code: a known code as it is, any other as "unrecognized".
pub open spec fn recorded_code(v: OAuthFieldsView) -> Option<Seq<char>> {
    match oauth_raw_code(v) {
        Some(c) => Some(
            if known_oauth_code(c) {
                c
            } else {
                "unrecognized"@
            },
        ),
        None => None,
    }
}

pub open spec fn id_char(c: char) -> bool {
    ||| ('a' <= c && c <= 'z')
    ||| ('A' <= c && c <= 'Z')
    ||| ('0' <= c && c <= '9')
    ||| c == '-'
    ||| c == '_'
    ||| c == '.'
    ||| c == ':'
}

/// A header value kept as a request identifier: non-empty, at most 256
/// bytes, and made of ASCII letters, digits and `-_.:` only.
pub open spec fn safe_identifier(h: Option<Seq<char>>) -> Option<Seq<char>> {
    match h {
        Some(s) => if s.len() > 0 && byte_len(s) <= 256 && forall|i: int|
            0 <= i < s.len() ==> id_char(#[trigger] s[i]) {
            Some(s)
        } else {
            None
        },
        None => None,
    }
}

pub open spec fn ov(v: Option<String>) -> Option<Seq<char>> {
    match v {
        Some(s) => Some(s@),
        None => None,
    }
}

pub open spec fn sv(v: Option<&'static str>) -> Option<Seq<char>> {
    match v {
        Some(s) => Some(s@),
        None => None,
    }
}

/// "json" for a JSON object or array, "html" for a `text/html` response,
/// else "other".
pub open spec fn content_kind_of(v: OAuthFieldsView, content_type: Option<Seq<char>>) -> Seq<char> {
    if v.4 || v.5 {
        "json"@
    } else if content_type matches Some(t) && "text/html"@.is_prefix_of(t) {
        "html"@
    } else {
        "other"@
    }
}

/// The diagnostics `decode` reports for a response.
pub open spec fn decoded(d: OAuthDiagnostics, status: u16, h: OAuthHeaders, v: OAuthFieldsView) -> bool {
    &&& d.upstream_status == status
    &&& sv(d.upstream_error_code) == recorded_code(v)
    &&& ov(d.upstream_request_id) == safe_identifier(ov(h.request_id))
    &&& ov(d.cf_ray) == safe_identifier(ov(h.cf_ray))
    &&& d.content_kind@ == content_kind_of(v, ov(h.content_type))
    &&& d.challenge == (ov(h.cf_mitigated) == Some("challenge"@))
}

fn id_char_exec(c: char) -> (r: bool)
    ensures
        r == id_char(c),
{
    ('a' <= c && c <= 'z') || ('A' <= c && c <= 'Z') || ('0' <= c && c <= '9') || c == '-' || c
        == '_' || c == '.' || c == ':'
}

#[verifier::loop_isolation(false)]
fn safe_header(h: &Option<String>) -> (r: Option<String>)
    ensures
        ov(r) == safe_identifier(ov(*h)),
{
    let s = match h {
        Some(s) => s.as_str(),
        None => return None,
    };
    let n = s.unicode_len();
    if n == 0 || len_bytes(s) > 256 {
        return None;
    }
    let mut i: usize = 0;
    while i < n
        invariant
            n == s@.len(),
            i <= n,
            forall|j: int| 0 <= j < i ==> id_char(#[trigger] s@[j]),
        decreases n - i,
    {
        if !id_char_exec(s.get_char(i)) {
            assert(!id_char(s@[i as int]));
            return None;
        }
        i = i + 1;
    }
    Some(s.to_owned())
}

fn present<'a>(a: &'a JsonField, b: &'a JsonField) -> (r: &'a JsonField)
    ensures
        field_view(*r) == or_present(field_view(*a), field_view(*b)),
{
    match a {
        JsonField::Absent => b,
        _ => a,
    }
}

fn string_or_absent(f: &JsonField) -> (r: &JsonField)
    ensures
        field_view(*r) == string_only(field_view(*f)),
{
    match f {
        JsonField::Text(_) => f,
        _ => &JsonField::Absent,
    }
}

fn known_code(c: &str) -> (r: &'static str)
    ensures
        known_oauth_code(c@) ==> r@ == c@,
        !known_oauth_code(c@) ==> r@ == "unrecognized"@,
{
    if str_eq(c, "unsupported_country_region_territory") {
        "unsupported_country_region_territory"
    } else if str_eq(c, "device_authentication_disabled") {
        "device_authentication_disabled"
    } else if str_eq(c, "device_auth_disabled") {
        "device_auth_disabled"
    } else if str_eq(c, "authorization_pending") {
        "authorization_pending"
    } else if str_eq(c, "slow_down") {
        "slow_down"
    } else if str_eq(c, "access_denied") {
        "access_denied"
    } else if str_eq(c, "expired_token") {
        "expired_token"
    } else if str_eq(c, "invalid_client") {
        "invalid_client"
    } else if str_eq(c, "invalid_grant") {
        "invalid_grant"
    } else if str_eq(c, "rate_limit_exceeded") {
        "rate_limit_exceeded"
    } else {
        "unrecognized"
    }
}

fn opt_eq(h: &Option<String>, want: &str) -> (r: bool)
    ensures
        r == (ov(*h) == Some(want@)),
{
    match h {
        Some(s) => str_eq(s.as_str(), want),
        None => false,
    }
}

/// Whether the decoder is waiting for the user: a JSON 403 or 404 without a
/// challenge, carrying no code or "authorization_pending".
pub open spec fn pending_spec(d: OAuthDiagnostics) -> bool {
    &&& !d.challenge
    &&& d.content_kind@ == "json"@
    &&& (d.upstream_status == 403 || d.upstream_status == 404)
    &&& (d.upstream_error_code is None || sv(d.upstream_error_code) == Some(
        "authorization_pending"@,
    ))
}

/// The gateway code and explanation for a rejected OAuth exchange.
pub open spec fn oauth_error_class(d: OAuthDiagnostics) -> (Seq<char>, Seq<char>) {
    let code = sv(d.upstream_error_code);
    if code == Some("unsupported_country_region_territory"@) {
        (
            "oauth_region_unsupported"@,
            "OpenAI 拒绝了当前网络出口所在地区的授权请求（unsupported_country_region_territory）。这不是账户未开启设备授权。"@,
        )
    } else if d.challenge || d.content_kind@ == "html"@ && d.upstream_status == 403 {
        ("oauth_network_challenge"@, "OpenAI 授权接口返回了网络安全验证页面，网关无法继续设备授权。"@)
    } else if code == Some("device_authentication_disabled"@) || code == Some(
        "device_auth_disabled"@,
    ) {
        ("oauth_device_disabled"@, "OpenAI 明确报告设备授权未开启，请检查账户或工作区的设备授权设置。"@)
    } else if d.upstream_status == 429 {
        ("oauth_rate_limited"@, "OpenAI 授权接口暂时限流，请稍后再试。"@)
    } else if d.upstream_status == 200 {
        ("invalid_oauth_response"@, "OpenAI 授权接口返回了无法识别的响应。"@)
    } else {
        ("oauth_upstream_rejected"@, "OpenAI 授权接口拒绝了请求。可在操作审计中查看脱敏诊断信息。"@)
    }
}

fn code_is(c: Option<&'static str>, want: &str) -> (r: bool)
    ensures
        r == (sv(c) == Some(want@)),
{
    match c {
        Some(x) => str_eq(x, want),
        None => false,
    }
}

impl OAuthResponse {
    /// Decodes a response of the OAuth endpoints. The body is parsed as JSON
    /// (JSON `null` when it is not) and kept as it is.
    pub fn decode(status: u16, headers: &OAuthHeaders, bytes: &[u8]) -> (r: Self)
        ensures
            decoded(r.diagnostics, status, *headers, json_oauth_fields(bytes@)),
    {
        let (body, fields) = parse_oauth_body(bytes);
        let raw = match present(
            &fields.error_code,
            present(&fields.error_type, present(string_or_absent(&fields.error), &fields.code)),
        ) {
            JsonField::Text(s) => Some(s.as_str()),
            _ => None,
        };
        let upstream_error_code = match raw {
            Some(c) => Some(known_code(c)),
            None => None,
        };
        let html = match &headers.content_type {
            Some(t) => strip_prefix(t.as_str(), "text/html").is_some(),
            None => false,
        };
        let content_kind = if fields.object || fields.array {
            "json"
        } else if html {
            "html"
        } else {
            "other"
        };
        OAuthResponse {
            body,
            diagnostics: OAuthDiagnostics {
                upstream_status: status,
                upstream_error_code,
                upstream_request_id: safe_header(&headers.request_id),
                cf_ray: safe_header(&headers.cf_ray),
                content_kind,
                challenge: opt_eq(&headers.cf_mitigated, "challenge"),
            },
        }
    }

    pub fn status(&self) -> (r: u16)
        ensures
            r == self.diagnostics.upstream_status,
    {
        self.diagnostics.upstream_status
    }

    /// Whether the authorization is still pending at the upstream.
    pub fn pending(&self) -> (r: bool)
        ensures
            r == pending_spec(self.diagnostics),
    {
        let d = &self.diagnostics;
        if d.challenge || !str_eq(d.content_kind, "json") {
            return false;
        }
        (d.upstream_status == 403 || d.upstream_status == 404) && (d.upstream_error_code.is_none()
            || code_is(d.upstream_error_code, "authorization_pending"))
    }

    /// The gateway error for a failed exchange: a 502 whose message explains
    /// the rejection and ends with the upstream status.
    pub fn error(&self) -> (r: Error)
        ensures
            error_is(
                r,
                502,
                oauth_error_class(self.diagnostics).0,
                oauth_error_class(self.diagnostics).1 + "（HTTP "@ + decimal(
                    self.diagnostics.upstream_status as nat,
                ) + "）"@,
            ),
            r.upstream is None,
            r.client_message is None,
    {
        let d = &self.diagnostics;
        let (code, message) = if code_is(d.upstream_error_code, "unsupported_country_region_territory") {
            (
                "oauth_region_unsupported",
                "OpenAI 拒绝了当前网络出口所在地区的授权请求（unsupported_country_region_territory）。这不是账户未开启设备授权。",
            )
        } else if d.challenge || str_eq(d.content_kind, "html") && d.upstream_status == 403 {
            ("oauth_network_challenge", "OpenAI 授权接口返回了网络安全验证页面，网关无法继续设备授权。")
        } else if code_is(d.upstream_error_code, "device_authentication_disabled") || code_is(
            d.upstream_error_code,
            "device_auth_disabled",
        ) {
            ("oauth_device_disabled", "OpenAI 明确报告设备授权未开启，请检查账户或工作区的设备授权设置。")
        } else if d.upstream_status == 429 {
            ("oauth_rate_limited", "OpenAI 授权接口暂时限流，请稍后再试。")
        } else if d.upstream_status == 200 {
            ("invalid_oauth_response", "OpenAI 授权接口返回了无法识别的响应。")
        } else {
            ("oauth_upstream_rejected", "OpenAI 授权接口拒绝了请求。可在操作审计中查看脱敏诊断信息。")
        };
        let text = String::from_str(message).concat("（HTTP ").concat(
            decimal_text(d.upstream_status).as_str(),
        ).concat("）");
        Error::new(502, code, text.as_str())
    }
}


/// The recorded code never carries upstream free text: it is one of the known
/// codes or "unrecognized".
pub proof fn law_recorded_code_is_allowlisted(v: OAuthFieldsView)
    ensures
        recorded_code(v) is Some ==> known_oauth_code(recorded_code(v).unwrap())
            || recorded_code(v).unwrap() == "unrecognized"@,
{
}

} // verus!
