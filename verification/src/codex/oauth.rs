//! Codex account tokens: the credentials a token response yields, the account,
//! e-mail address and plan that the JWT claims of the tokens name, the refresh
//! outcome, and the device sign-in exchange.
use vstd::prelude::*;
use crate::accounts::{Account, Credentials};
use crate::codex::events::{named_ignoring_case, named_ignoring_case_exec};
use crate::codex::model_version::{digits_value, is_digit, lemma_digits_nonneg};
use crate::codex::oauth_browser::{CLIENT_ID, form_body, form_encoded, pair, pairs_of};
use crate::codex::oauth_response::ov;
use crate::codex::upstream_error::{FieldView, JsonField, field_view, or_present, text_of};
use crate::json::{Json, JsonView, member, text_in, unsigned_in};
use crate::text::{str_eq, string_of};
use crate::time::{MAX_SECS, Timestamp, chrono_instant, chrono_shift, clock_reading, in_range, utc_now};
use crate::types::{Error, Result, plain_error};

verus! {

/// Where the device sign-in returns its authorization code.
pub const DEVICE_REDIRECT_URI: &'static str = "https://auth.openai.com/deviceauth/callback";

// ---------------------------------------------------------------------------
// JWT claims
// ---------------------------------------------------------------------------

/// `a` is the first `.` of `t` at or after `from`, or `t.len()` when none follows.
pub open spec fn dot_at(t: Seq<char>, from: int, a: int) -> bool {
    &&& from <= a <= t.len()
    &&& a < t.len() ==> t[a] == '.'
    &&& forall|k: int| from <= k < a ==> t[k] != '.'
}

/// The first `.` of `t` at or after `from`, or `t.len()`.
pub open spec fn dot_from_spec(t: Seq<char>, from: int) -> int {
    choose|a: int| dot_at(t, from, a)
}

/// `token.split('.').nth(1)`: the text between the first `.` and the next one.
pub open spec fn jwt_payload(t: Seq<char>) -> Option<Seq<char>> {
    let a = dot_from_spec(t, 0);
    if a >= t.len() {
        None
    } else {
        Some(t.subrange(a + 1, dot_from_spec(t, a + 1)))
    }
}

proof fn lemma_dot_unique(t: Seq<char>, from: int, a: int, b: int)
    requires
        dot_at(t, from, a),
        dot_at(t, from, b),
    ensures
        a == b,
{
    if a < b {
        assert(t[a] == '.');
    } else if b < a {
        assert(t[b] == '.');
    }
}

fn dot_from(t: &str, from: usize) -> (r: usize)
    requires
        from <= t@.len(),
    ensures
        dot_at(t@, from as int, r as int),
{
    let n = t.unicode_len();
    let mut i = from;
    while i < n && t.get_char(i) != '.'
        invariant
            n == t@.len(),
            from <= i <= n,
            forall|k: int| from <= k < i ==> t@[k] != '.',
        decreases n - i,
    {
        i = i + 1;
    }
    i
}

/// The payload segment of a token.
fn payload_of(t: &str) -> (r: Option<&str>)
    ensures
        match r {
            Some(p) => jwt_payload(t@) == Some(p@),
            None => jwt_payload(t@) is None,
        },
{
    let n = t.unicode_len();
    let a = dot_from(t, 0);
    proof {
        lemma_dot_unique(t@, 0, a as int, dot_from_spec(t@, 0));
    }
    if a >= n {
        return None;
    }
    let b = dot_from(t, a + 1);
    proof {
        lemma_dot_unique(t@, a + 1, b as int, dot_from_spec(t@, a + 1));
    }
    Some(t.substring_char(a + 1, b))
}

/// What `URL_SAFE_NO_PAD` decodes `text` to, `None` where `text` is not
/// unpadded URL-safe base64.
pub uninterp spec fn base64_url_decoded(text: Seq<char>) -> Option<Seq<u8>>;

/// `base64::engine::general_purpose::URL_SAFE_NO_PAD.decode(text)`.
#[verifier::external_body]
fn decode_base64_url(text: &str) -> (r: Option<Vec<u8>>)
    ensures
        match r {
            Some(b) => base64_url_decoded(text@) == Some(b@),
            None => base64_url_decoded(text@) is None,
        },
{
    base64::Engine::decode(&base64::engine::general_purpose::URL_SAFE_NO_PAD, text).ok()
}

/// The claims of a token payload that the gateway reads: the account and the
/// plan under `https://api.openai.com/auth` and at the top level, the e-mail
/// address and the expiry.
pub struct ClaimFields {
    pub auth_account_id: JsonField,
    pub account_id: JsonField,
    pub email: JsonField,
    pub auth_plan_type: JsonField,
    pub plan_type: JsonField,
    pub exp: Option<i64>,
}

pub type ClaimsView = (FieldView, FieldView, FieldView, FieldView, FieldView, Option<i64>);

pub open spec fn claims_view(c: ClaimFields) -> ClaimsView {
    (
        field_view(c.auth_account_id),
        field_view(c.account_id),
        field_view(c.email),
        field_view(c.auth_plan_type),
        field_view(c.plan_type),
        c.exp,
    )
}

pub open spec fn parsed_claims(p: Option<ClaimFields>) -> Option<ClaimsView> {
    match p {
        Some(c) => Some(claims_view(c)),
        None => None,
    }
}

/// The claims of `payload` read as JSON, `None` where it is not JSON.
pub uninterp spec fn json_claims(payload: Seq<u8>) -> Option<ClaimsView>;

/// `serde_json::from_slice` of a token payload, keeping the claims that
/// `ClaimFields` names, each by `serde_json::Value::pointer`, and `exp` by
/// `serde_json::Value::as_i64`.
#[verifier::external_body]
fn read_claims(payload: &[u8]) -> (r: Option<ClaimFields>)
    ensures
        parsed_claims(r) == json_claims(payload@),
{
    let f = |v: &serde_json::Value, p: &str| match v.pointer(p) {
        None => JsonField::Absent,
        Some(serde_json::Value::String(s)) => JsonField::Text(s.clone()),
        Some(_) => JsonField::Other,
    };
    let v = serde_json::from_slice::<serde_json::Value>(payload).ok()?;
    Some(ClaimFields {
        auth_account_id: f(&v, "/https:~1~1api.openai.com~1auth/chatgpt_account_id"),
        account_id: f(&v, "/chatgpt_account_id"), email: f(&v, "/email"),
        auth_plan_type: f(&v, "/https:~1~1api.openai.com~1auth/chatgpt_plan_type"),
        plan_type: f(&v, "/chatgpt_plan_type"), exp: v.pointer("/exp").and_then(|e| e.as_i64()),
    })
}

/// The claims of a token: its payload segment, decoded, read as JSON.
pub open spec fn token_claims(token: Seq<char>) -> Option<ClaimsView> {
    match jwt_payload(token) {
        Some(p) => match base64_url_decoded(p) {
            Some(b) => json_claims(b),
            None => None,
        },
        None => None,
    }
}

fn claims_of(token: &str) -> (r: Option<ClaimFields>)
    ensures
        parsed_claims(r) == token_claims(token@),
{
    match payload_of(token) {
        Some(p) => match decode_base64_url(p) {
            Some(b) => read_claims(b.as_slice()),
            None => None,
        },
        None => None,
    }
}

/// The ChatGPT account that claims name: the nested claim when present, else
/// the top-level one; only a non-empty string counts.
pub open spec fn claimed_account(c: Option<ClaimsView>) -> Option<Seq<char>> {
    match c {
        Some(v) => match text_of(or_present(v.0, v.1)) {
            Some(s) => if s.len() > 0 {
                Some(s)
            } else {
                None
            },
            None => None,
        },
        None => None,
    }
}

pub open spec fn claimed_email(c: Option<ClaimsView>) -> Option<Seq<char>> {
    match c {
        Some(v) => text_of(v.2),
        None => None,
    }
}

/// The plan that claims name: the nested claim when present, else the
/// top-level one, when it is a string.
pub open spec fn claimed_plan(c: Option<ClaimsView>) -> Option<Seq<char>> {
    match c {
        Some(v) => text_of(or_present(v.3, v.4)),
        None => None,
    }
}

pub open spec fn claimed_expiry(c: Option<ClaimsView>) -> Option<i64> {
    match c {
        Some(v) => v.5,
        None => None,
    }
}

/// The subscription plan that `p` names in any letter case.
pub open spec fn plan_name(p: Seq<char>) -> Option<Seq<char>> {
    if named_ignoring_case(p, "free"@) {
        Some("free"@)
    } else if named_ignoring_case(p, "plus"@) {
        Some("plus"@)
    } else if named_ignoring_case(p, "pro"@) {
        Some("pro"@)
    } else if named_ignoring_case(p, "go"@) {
        Some("go"@)
    } else if named_ignoring_case(p, "team"@) {
        Some("team"@)
    } else if named_ignoring_case(p, "business"@) {
        Some("business"@)
    } else if named_ignoring_case(p, "enterprise"@) {
        Some("enterprise"@)
    } else if named_ignoring_case(p, "edu"@) {
        Some("edu"@)
    } else {
        None
    }
}

fn plan_name_exec(p: &str) -> (r: Option<&'static str>)
    ensures
        match r {
            Some(n) => plan_name(p@) == Some(n@),
            None => plan_name(p@) is None,
        },
{
    if named_ignoring_case_exec(p, "free") {
        Some("free")
    } else if named_ignoring_case_exec(p, "plus") {
        Some("plus")
    } else if named_ignoring_case_exec(p, "pro") {
        Some("pro")
    } else if named_ignoring_case_exec(p, "go") {
        Some("go")
    } else if named_ignoring_case_exec(p, "team") {
        Some("team")
    } else if named_ignoring_case_exec(p, "business") {
        Some("business")
    } else if named_ignoring_case_exec(p, "enterprise") {
        Some("enterprise")
    } else if named_ignoring_case_exec(p, "edu") {
        Some("edu")
    } else {
        None
    }
}

/// The upstream metadata of an account that its tokens' claims give.
pub struct AccountDetails {
    pub account_id: String,
    pub email: Option<String>,
    pub plan_type: Option<String>,
}

/// The account that the ID token's claims name, else the access token's.
pub open spec fn details_account(id: Option<ClaimsView>, access: Option<ClaimsView>) -> Option<
    Seq<char>,
> {
    if claimed_account(id) is Some {
        claimed_account(id)
    } else {
        claimed_account(access)
    }
}

/// The e-mail address of the first token whose claims name `account` and
/// carry one.
pub open spec fn details_email(
    id: Option<ClaimsView>,
    access: Option<ClaimsView>,
    account: Seq<char>,
) -> Option<Seq<char>> {
    if claimed_account(id) == Some(account) && claimed_email(id) is Some {
        claimed_email(id)
    } else if claimed_account(access) == Some(account) && claimed_email(access) is Some {
        claimed_email(access)
    } else {
        None
    }
}

/// The plan of the last token whose claims name `account` and carry one (a
/// refresh can replace the access token and keep an older ID token), kept
/// only when it is a known plan.
pub open spec fn details_plan(
    id: Option<ClaimsView>,
    access: Option<ClaimsView>,
    account: Seq<char>,
) -> Option<Seq<char>> {
    let raw = if claimed_account(access) == Some(account) && claimed_plan(access) is Some {
        claimed_plan(access)
    } else if claimed_account(id) == Some(account) && claimed_plan(id) is Some {
        claimed_plan(id)
    } else {
        None
    };
    match raw {
        Some(p) => plan_name(p),
        None => None,
    }
}

/// What `account_details` gives for tokens with these claims.
pub open spec fn details_of(
    r: Result<AccountDetails>,
    id: Option<ClaimsView>,
    access: Option<ClaimsView>,
) -> bool {
    match details_account(id, access) {
        None => r matches Err(e) && plain_error(
            e,
            400,
            "invalid_request"@,
            "Credential claims do not contain a ChatGPT account ID"@,
        ),
        Some(a) => r matches Ok(d) && d.account_id@ == a && ov(d.email) == details_email(
            id,
            access,
            a,
        ) && ov(d.plan_type) == details_plan(id, access, a),
    }
}

fn text_field(f: &JsonField) -> (r: Option<&str>)
    ensures
        match r {
            Some(s) => text_of(field_view(*f)) == Some(s@),
            None => text_of(field_view(*f)) is None,
        },
{
    match f {
        JsonField::Text(s) => Some(s.as_str()),
        _ => None,
    }
}

fn first_present<'a>(a: &'a JsonField, b: &'a JsonField) -> (r: &'a JsonField)
    ensures
        field_view(*r) == or_present(field_view(*a), field_view(*b)),
{
    match a {
        JsonField::Absent => b,
        _ => a,
    }
}

fn account_claim(c: &Option<ClaimFields>) -> (r: Option<&str>)
    ensures
        match r {
            Some(s) => claimed_account(parsed_claims(*c)) == Some(s@),
            None => claimed_account(parsed_claims(*c)) is None,
        },
{
    match c {
        Some(f) => match text_field(first_present(&f.auth_account_id, &f.account_id)) {
            Some(s) => if s.unicode_len() > 0 {
                Some(s)
            } else {
                None
            },
            None => None,
        },
        None => None,
    }
}

fn email_claim(c: &Option<ClaimFields>) -> (r: Option<&str>)
    ensures
        match r {
            Some(s) => claimed_email(parsed_claims(*c)) == Some(s@),
            None => claimed_email(parsed_claims(*c)) is None,
        },
{
    match c {
        Some(f) => text_field(&f.email),
        None => None,
    }
}

fn plan_claim(c: &Option<ClaimFields>) -> (r: Option<&str>)
    ensures
        match r {
            Some(s) => claimed_plan(parsed_claims(*c)) == Some(s@),
            None => claimed_plan(parsed_claims(*c)) is None,
        },
{
    match c {
        Some(f) => text_field(first_present(&f.auth_plan_type, &f.plan_type)),
        None => None,
    }
}

fn names_account(c: &Option<ClaimFields>, account: &str) -> (r: bool)
    ensures
        r == (claimed_account(parsed_claims(*c)) == Some(account@)),
{
    match account_claim(c) {
        Some(x) => str_eq(x, account),
        None => false,
    }
}

fn owned(s: Option<&str>) -> (r: Option<String>)
    ensures
        ov(r) == match s {
            Some(x) => Some(x@),
            None => None,
        },
{
    match s {
        Some(x) => Some(string_of(x)),
        None => None,
    }
}

/// The account, e-mail address and plan that the claims of the ID token and
/// the access token name. Claims are upstream metadata only, never an
/// authorization for the administrator API.
pub fn account_details(c: &Credentials) -> (r: Result<AccountDetails>)
    ensures
        details_of(r, token_claims(c.id_token@), token_claims(c.access_token@)),
{
    let id = claims_of(c.id_token.as_str());
    let access = claims_of(c.access_token.as_str());
    let account: &str = match account_claim(&id) {
        Some(a) => a,
        None => match account_claim(&access) {
            Some(a) => a,
            None => {
                return Err(Error::invalid("Credential claims do not contain a ChatGPT account ID"));
            },
        },
    };
    let id_matches = names_account(&id, account);
    let access_matches = names_account(&access, account);
    let email = if id_matches && email_claim(&id).is_some() {
        email_claim(&id)
    } else if access_matches && email_claim(&access).is_some() {
        email_claim(&access)
    } else {
        None
    };
    let raw_plan = if access_matches && plan_claim(&access).is_some() {
        plan_claim(&access)
    } else if id_matches && plan_claim(&id).is_some() {
        plan_claim(&id)
    } else {
        None
    };
    let plan = match raw_plan {
        Some(p) => plan_name_exec(p),
        None => None,
    };
    Ok(AccountDetails { account_id: string_of(account), email: owned(email), plan_type: owned(plan) })
}

// ---------------------------------------------------------------------------
// Token responses
// ---------------------------------------------------------------------------

/// The access token of a token response: `access_token` when it is a
/// non-empty string.
pub open spec fn response_access_token(v: JsonView) -> Option<Seq<char>> {
    match text_in(v.get("access_token"@)) {
        Some(s) => if s.len() > 0 {
            Some(s)
        } else {
            None
        },
        None => None,
    }
}

/// `expires_in` when it is a whole number of seconds above zero and below a
/// year.
pub open spec fn response_lifetime(v: JsonView) -> Option<u64> {
    match unsigned_in(v.get("expires_in"@)) {
        Some(n) => if 0 < n < 31_536_000 {
            Some(n)
        } else {
            None
        },
        None => None,
    }
}

/// The string member `key` of the response, else the earlier token, else empty.
pub open spec fn kept_token(v: JsonView, key: Seq<char>, earlier: Option<Seq<char>>) -> Seq<char> {
    match text_in(v.get(key)) {
        Some(s) => s,
        None => match earlier {
            Some(p) => p,
            None => Seq::empty(),
        },
    }
}

/// The refresh and ID tokens held before.
pub open spec fn earlier_tokens(previous: Option<&Credentials>) -> Option<(Seq<char>, Seq<char>)> {
    match previous {
        Some(p) => Some((p.refresh_token@, p.id_token@)),
        None => None,
    }
}

pub open spec fn earlier_refresh(e: Option<(Seq<char>, Seq<char>)>) -> Option<Seq<char>> {
    match e {
        Some(p) => Some(p.0),
        None => None,
    }
}

pub open spec fn earlier_id(e: Option<(Seq<char>, Seq<char>)>) -> Option<Seq<char>> {
    match e {
        Some(p) => Some(p.1),
        None => None,
    }
}

/// The expiry: `now` plus the lifetime the response gives, else the `exp`
/// claim of the access token when chrono represents that second.
pub open spec fn token_expiry(v: JsonView, access: Seq<char>, now: Timestamp) -> Option<Timestamp> {
    match response_lifetime(v) {
        Some(n) => Some(Timestamp { secs: (now.secs + n) as i64, nanos: now.nanos }),
        None => match claimed_expiry(token_claims(access)) {
            Some(e) => if in_range(e as int) {
                Some(Timestamp { secs: e, nanos: 0 })
            } else {
                None
            },
            None => None,
        },
    }
}

/// The lifetime the response gives, added to `now`, stays within chrono's range.
pub open spec fn lifetime_fits(v: JsonView, now: Timestamp) -> bool {
    response_lifetime(v) matches Some(n) ==> in_range(now.secs + n)
}

/// The credentials a token response yields at `now`, given the tokens held
/// before.
pub open spec fn issued(
    r: Result<Credentials>,
    v: JsonView,
    earlier: Option<(Seq<char>, Seq<char>)>,
    now: Timestamp,
) -> bool {
    match response_access_token(v) {
        None => r matches Err(e) && plain_error(
            e,
            502,
            "invalid_oauth_response"@,
            "OAuth response omitted access_token"@,
        ),
        Some(a) => r matches Ok(c) && c.access_token@ == a && c.refresh_token@ == kept_token(
            v,
            "refresh_token"@,
            earlier_refresh(earlier),
        ) && c.id_token@ == kept_token(v, "id_token"@, earlier_id(earlier)) && c.expires_at
            == token_expiry(v, a, now),
    }
}

/// What a token response yields at a clock reading: the credentials where the
/// lifetime fits chrono's range, an error where it runs past it.
pub open spec fn issued_at_clock(
    r: Result<Credentials>,
    v: JsonView,
    earlier: Option<(Seq<char>, Seq<char>)>,
    now: Timestamp,
) -> bool {
    if response_access_token(v) is Some && !lifetime_fits(v, now) {
        r matches Err(e) && plain_error(
            e,
            502,
            "invalid_oauth_response"@,
            "OAuth token lifetime runs past the representable time range"@,
        )
    } else {
        issued(r, v, earlier, now)
    }
}

fn response_lifetime_of(v: &Json) -> (r: Option<u64>)
    ensures
        r == response_lifetime(v@),
{
    match v.get_u64("expires_in") {
        Some(n) => if 0 < n && n < 31_536_000 {
            Some(n)
        } else {
            None
        },
        None => None,
    }
}

fn lifetime_fits_exec(v: &Json, now: Timestamp) -> (r: bool)
    requires
        clock_reading(now),
    ensures
        r == lifetime_fits(v@, now),
{
    match response_lifetime_of(v) {
        Some(n) => now.secs + (n as i64) <= MAX_SECS,
        None => true,
    }
}

fn kept(v: &Json, key: &str, earlier: Option<&String>) -> (r: String)
    ensures
        r@ == kept_token(
            v@,
            key@,
            match earlier {
                Some(p) => Some(p@),
                None => None,
            },
        ),
{
    match v.get_str(key) {
        Some(s) => string_of(s),
        None => match earlier {
            Some(p) => p.clone(),
            None => String::new(),
        },
    }
}

fn expiry(v: &Json, access: &str, now: Timestamp) -> (r: Option<Timestamp>)
    requires
        clock_reading(now),
        lifetime_fits(v@, now),
    ensures
        r == token_expiry(v@, access@, now),
{
    match response_lifetime_of(v) {
        Some(n) => chrono_shift(now, n as i64),
        None => match claims_of(access) {
            Some(f) => match f.exp {
                Some(e) => chrono_instant(e),
                None => None,
            },
            None => None,
        },
    }
}

/// The credentials a token response yields when the clock reads `now`:
/// refresh and ID tokens that the response omits are kept from `previous`.
pub fn tokens_at(value: &Json, previous: Option<&Credentials>, now: Timestamp) -> (r: Result<
    Credentials,
>)
    requires
        clock_reading(now),
        lifetime_fits(value@, now),
    ensures
        issued(r, value@, earlier_tokens(previous), now),
{
    let access_token = match value.get_str("access_token") {
        Some(s) => if s.unicode_len() > 0 {
            string_of(s)
        } else {
            return Err(
                Error::new(502, "invalid_oauth_response", "OAuth response omitted access_token"),
            );
        },
        None => {
            return Err(
                Error::new(502, "invalid_oauth_response", "OAuth response omitted access_token"),
            );
        },
    };
    let expires_at = expiry(value, access_token.as_str(), now);
    let refresh_token = kept(
        value,
        "refresh_token",
        match previous {
            Some(p) => Some(&p.refresh_token),
            None => None,
        },
    );
    let id_token = kept(
        value,
        "id_token",
        match previous {
            Some(p) => Some(&p.id_token),
            None => None,
        },
    );
    Ok(Credentials { access_token, refresh_token, id_token, expires_at })
}

/// The credentials a token response yields now.
pub fn tokens(value: &Json, previous: Option<&Credentials>) -> (r: Result<Credentials>)
    ensures
        exists|now: Timestamp|
            clock_reading(now) && issued_at_clock(r, value@, earlier_tokens(previous), now),
{
    let now = utc_now();
    if lifetime_fits_exec(value, now) {
        let r = tokens_at(value, previous, now);
        assert(issued_at_clock(r, value@, earlier_tokens(previous), now));
        r
    } else {
        let r = match value.get_str("access_token") {
            Some(s) => if s.unicode_len() > 0 {
                Err(
                    Error::new(
                        502,
                        "invalid_oauth_response",
                        "OAuth token lifetime runs past the representable time range",
                    ),
                )
            } else {
                Err(
                    Error::new(
                        502,
                        "invalid_oauth_response",
                        "OAuth response omitted access_token",
                    ),
                )
            },
            None => Err(
                Error::new(502, "invalid_oauth_response", "OAuth response omitted access_token"),
            ),
        };
        assert(issued_at_clock(r, value@, earlier_tokens(previous), now));
        r
    }
}

// ---------------------------------------------------------------------------
// Refresh responses
// ---------------------------------------------------------------------------

/// The code of a failed refresh: `/error/code`, else `error`, else `code`,
/// when the value found is a string; empty otherwise.
pub open spec fn refresh_code(v: JsonView) -> Seq<char> {
    let e = v.get("error"@);
    let found = if member(e, "code"@) is Some {
        member(e, "code"@)
    } else if e is Some {
        e
    } else {
        v.get("code"@)
    };
    match text_in(found) {
        Some(s) => s,
        None => Seq::empty(),
    }
}

/// Refresh codes that mean the refresh token can no longer be used.
pub open spec fn revoked_code(c: Seq<char>) -> bool {
    c == "invalid_grant"@ || c == "refresh_token_expired"@ || c == "refresh_token_reused"@ || c
        == "refresh_token_invalidated"@
}

fn refresh_code_of(v: &Json) -> (r: &str)
    ensures
        r@ == refresh_code(v@),
{
    let e = v.get("error");
    let found = match e {
        Some(x) => match x.get("code") {
            Some(c) => Some(c),
            None => Some(x),
        },
        None => v.get("code"),
    };
    proof {
        reveal_strlit("");
        assert(""@ =~= Seq::<char>::empty());
    }
    match found {
        Some(f) => match f.as_str() {
            Some(s) => s,
            None => "",
        },
        None => "",
    }
}

fn revoked(c: &str) -> (r: bool)
    ensures
        r == revoked_code(c@),
{
    str_eq(c, "invalid_grant") || str_eq(c, "refresh_token_expired") || str_eq(
        c,
        "refresh_token_reused",
    ) || str_eq(c, "refresh_token_invalidated")
}

/// What a refresh answered with `status` and the document `v` yields at a
/// clock reading, for an account whose upstream identifier is `upstream`.
pub open spec fn refresh_outcome(
    r: Result<Credentials>,
    status: u16,
    v: JsonView,
    previous: &Credentials,
    upstream: Seq<char>,
    now: Timestamp,
) -> bool {
    if !(200 <= status < 300) {
        if status == 401 || revoked_code(refresh_code(v)) {
            r matches Err(e) && plain_error(
                e,
                401,
                "oauth_invalid"@,
                "OAuth refresh authorization is no longer valid"@,
            )
        } else {
            r matches Err(e) && plain_error(
                e,
                502,
                "oauth_refresh_failed"@,
                "OAuth refresh failed temporarily"@,
            )
        }
    } else {
        match response_access_token(v) {
            None => issued(r, v, earlier_tokens(Some(previous)), now),
            Some(a) => if !lifetime_fits(v, now) {
                issued_at_clock(r, v, earlier_tokens(Some(previous)), now)
            } else {
                let id = kept_token(v, "id_token"@, Some(previous.id_token@));
                match details_account(token_claims(id), token_claims(a)) {
                    None => r matches Err(e) && plain_error(
                        e,
                        400,
                        "invalid_request"@,
                        "Credential claims do not contain a ChatGPT account ID"@,
                    ),
                    Some(account) => if account != upstream {
                        r matches Err(e) && plain_error(
                            e,
                            401,
                            "oauth_invalid"@,
                            "Refreshed credentials belong to a different upstream account"@,
                        )
                    } else {
                        issued(r, v, earlier_tokens(Some(previous)), now)
                    },
                }
            },
        }
    }
}

/// The credentials a refresh yields. `body` is the response document, or
/// `Json::Null` where the response was not JSON.
pub fn refreshed(status: u16, body: &Json, previous: &Credentials, account: &Account) -> (r: Result<
    Credentials,
>)
    ensures
        exists|now: Timestamp|
            clock_reading(now) && refresh_outcome(
                r,
                status,
                body@,
                previous,
                account.upstream_account_id@,
                now,
            ),
{
    if !(200 <= status && status < 300) {
        let r = if status == 401 || revoked(refresh_code_of(body)) {
            Err(Error::new(401, "oauth_invalid", "OAuth refresh authorization is no longer valid"))
        } else {
            Err(Error::new(502, "oauth_refresh_failed", "OAuth refresh failed temporarily"))
        };
        let ghost epoch = Timestamp { secs: 0, nanos: 0 };
        assert(clock_reading(epoch));
        assert(refresh_outcome(r, status, body@, previous, account.upstream_account_id@, epoch));
        return r;
    }
    let issued_now = tokens(body, Some(previous));
    let ghost now = choose|now: Timestamp|
        clock_reading(now) && issued_at_clock(
            issued_now,
            body@,
            earlier_tokens(Some(previous)),
            now,
        );
    let credentials = match issued_now {
        Ok(c) => c,
        Err(e) => {
            let r: Result<Credentials> = Err(e);
            assert(refresh_outcome(r, status, body@, previous, account.upstream_account_id@, now));
            return r;
        },
    };
    let details = match account_details(&credentials) {
        Ok(d) => d,
        Err(e) => {
            let r: Result<Credentials> = Err(e);
            assert(refresh_outcome(r, status, body@, previous, account.upstream_account_id@, now));
            return r;
        },
    };
    if !str_eq(details.account_id.as_str(), account.upstream_account_id.as_str()) {
        let r: Result<Credentials> = Err(
            Error::new(
                401,
                "oauth_invalid",
                "Refreshed credentials belong to a different upstream account",
            ),
        );
        assert(refresh_outcome(r, status, body@, previous, account.upstream_account_id@, now));
        return r;
    }
    let r: Result<Credentials> = Ok(credentials);
    assert(refresh_outcome(r, status, body@, previous, account.upstream_account_id@, now));
    r
}

// ---------------------------------------------------------------------------
// Device sign-in
// ---------------------------------------------------------------------------

pub open spec fn all_digits(d: Seq<char>) -> bool {
    forall|i: int| 0 <= i < d.len() ==> is_digit(#[trigger] d[i])
}

/// `s.parse::<u64>()`: an optional `+`, then one or more ASCII digits whose
/// value fits in a `u64`.
pub open spec fn parsed_u64(s: Seq<char>) -> Option<u64> {
    let d = if s.len() > 0 && s[0] == '+' {
        s.skip(1)
    } else {
        s
    };
    if d.len() > 0 && all_digits(d) && digits_value(d) <= u64::MAX {
        Some(digits_value(d) as u64)
    } else {
        None
    }
}

fn parse_u64(s: &str) -> (r: Option<u64>)
    ensures
        r == parsed_u64(s@),
{
    let n = s.unicode_len();
    let start: usize = if n > 0 && s.get_char(0) == '+' {
        1
    } else {
        0
    };
    let ghost d = if s@.len() > 0 && s@[0] == '+' {
        s@.skip(1)
    } else {
        s@
    };
    assert(d =~= s@.subrange(start as int, n as int));
    if start == n {
        return None;
    }
    let mut value: u64 = 0;
    let mut overflow = false;
    let mut i: usize = start;
    proof {
        assert(d.take(0) =~= Seq::<char>::empty());
    }
    while i < n
        invariant
            n == s@.len(),
            start < n,
            start <= i <= n,
            d == (if s@.len() > 0 && s@[0] == '+' {
                s@.skip(1)
            } else {
                s@
            }),
            d =~= s@.subrange(start as int, n as int),
            forall|k: int| 0 <= k < i - start ==> is_digit(#[trigger] d[k]),
            !overflow ==> value == digits_value(d.take(i - start)),
            overflow ==> digits_value(d.take(i - start)) > u64::MAX,
        decreases n - i,
    {
        let c = s.get_char(i);
        if !('0' <= c && c <= '9') {
            assert(!is_digit(d[i - start]));
            assert(!all_digits(d));
            return None;
        }
        proof {
            let j = i - start;
            assert(d.take(j + 1).drop_last() =~= d.take(j));
            assert(forall|k: int| 0 <= k < j ==> is_digit(#[trigger] d.take(j)[k]));
            lemma_digits_nonneg(d.take(j));
        }
        if !overflow {
            let digit = (c as u32 - '0' as u32) as u64;
            match value.checked_mul(10) {
                Some(m) => match m.checked_add(digit) {
                    Some(v) => {
                        value = v;
                    },
                    None => {
                        overflow = true;
                    },
                },
                None => {
                    overflow = true;
                },
            }
        }
        i = i + 1;
    }
    assert(d.take(n - start) =~= d);
    if overflow {
        None
    } else {
        Some(value)
    }
}

/// A device sign-in started upstream: the identifiers to poll with and the
/// poll interval upstream asked for.
pub struct DeviceCode {
    pub device_auth_id: String,
    pub user_code: String,
    pub interval: Json,
}

/// The poll interval in seconds: the interval given as a number or as
/// decimal text, else five, kept between three and sixty.
pub open spec fn poll_seconds_spec(interval: JsonView) -> u64 {
    let asked: u64 = match interval.unsigned() {
        Some(n) => n,
        None => match interval.text() {
            Some(t) => match parsed_u64(t) {
                Some(n) => n,
                None => 5,
            },
            None => 5,
        },
    };
    if asked < 3 {
        3
    } else if asked > 60 {
        60
    } else {
        asked
    }
}

impl DeviceCode {
    pub fn poll_seconds(&self) -> (r: u64)
        ensures
            r == poll_seconds_spec(self.interval@),
    {
        let asked: u64 = match self.interval.as_u64() {
            Some(n) => n,
            None => match self.interval.as_str() {
                Some(t) => match parse_u64(t) {
                    Some(n) => n,
                    None => 5,
                },
                None => 5,
            },
        };
        if asked < 3 {
            3
        } else if asked > 60 {
            60
        } else {
            asked
        }
    }
}

/// The token form for a completed device sign-in.
pub open spec fn device_exchange_form(code: Seq<char>, verifier: Seq<char>) -> Seq<char> {
    form_encoded(
        seq![
            ("grant_type"@, "authorization_code"@),
            ("code"@, code),
            ("redirect_uri"@, DEVICE_REDIRECT_URI@),
            ("client_id"@, CLIENT_ID@),
            ("code_verifier"@, verifier),
        ],
    )
}

/// The form that exchanges a completed device sign-in for tokens: the
/// authorization code and the PKCE verifier upstream returned, as strings.
pub fn exchange_device(value: &Json) -> (r: Result<String>)
    ensures
        match (text_in(value@.get("authorization_code"@)), text_in(value@.get("code_verifier"@))) {
            (None, _) => r matches Err(e) && plain_error(
                e,
                502,
                "invalid_oauth_response"@,
                "Device authorization omitted authorization code"@,
            ),
            (Some(_), None) => r matches Err(e) && plain_error(
                e,
                502,
                "invalid_oauth_response"@,
                "Device authorization omitted PKCE verifier"@,
            ),
            (Some(code), Some(verifier)) => r matches Ok(form) && form@ == device_exchange_form(
                code,
                verifier,
            ),
        },
{
    let code = match value.get_str("authorization_code") {
        Some(c) => c,
        None => {
            return Err(
                Error::new(
                    502,
                    "invalid_oauth_response",
                    "Device authorization omitted authorization code",
                ),
            );
        },
    };
    let verifier = match value.get_str("code_verifier") {
        Some(v) => v,
        None => {
            return Err(
                Error::new(
                    502,
                    "invalid_oauth_response",
                    "Device authorization omitted PKCE verifier",
                ),
            );
        },
    };
    let mut pairs: Vec<(String, String)> = Vec::new();
    pairs.push(pair("grant_type", "authorization_code"));
    pairs.push(pair("code", code));
    pairs.push(pair("redirect_uri", DEVICE_REDIRECT_URI));
    pairs.push(pair("client_id", CLIENT_ID));
    pairs.push(pair("code_verifier", verifier));
    proof {
        assert(pairs_of(pairs@) =~= seq![
            ("grant_type"@, "authorization_code"@),
            ("code"@, code@),
            ("redirect_uri"@, DEVICE_REDIRECT_URI@),
            ("client_id"@, CLIENT_ID@),
            ("code_verifier"@, verifier@),
        ]);
    }
    Ok(form_body(&pairs))
}

} // verus!
