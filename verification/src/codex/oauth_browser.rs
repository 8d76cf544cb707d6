//! The browser sign-in flow of a Codex account (OAuth with PKCE): the
//! authorization link, the callback the user pastes back, and the token
//! exchange form.
use vstd::prelude::*;
use vstd::utf8::encode_utf8;
use vstd::string::StringExecFns;
use crate::access::{base64_url, encode_base64_url, random_secret, sha256, sha256_digest};
use crate::scheduling::lemma_filter_take;
use crate::text::{byte_len, has_control, has_control_spec, len_bytes, str_eq, trim, trim_spec};
use crate::types::{Error, Result, plain_error};
use crate::urls::{OriginView, parse_url, url_parse};

verus! {

pub const CLIENT_ID: &'static str = "app_EMoamEEZ73f0CkXaXp7hrann";

pub const ISSUER: &'static str = "https://auth.openai.com";

pub const REDIRECT_URI: &'static str = "http://localhost:1455/auth/callback";

/// What `url::Url` serializes after appending the pairs, form-encoded, to the
/// query of `base`; `None` where `base` is not a URL.
pub uninterp spec fn url_with_query(base: Seq<char>, pairs: Seq<(Seq<char>, Seq<char>)>) -> Option<Seq<char>>;

/// What `url::form_urlencoded::Serializer` makes of the pairs.
pub uninterp spec fn form_encoded(pairs: Seq<(Seq<char>, Seq<char>)>) -> Seq<char>;

pub open spec fn pairs_of(p: Seq<(String, String)>) -> Seq<(Seq<char>, Seq<char>)> {
    p.map_values(|x: (String, String)| (x.0@, x.1@))
}

/// `url::Url::parse(base)` and `query_pairs_mut().append_pair(..)` for each
/// pair, serialized.
#[verifier::external_body]
fn url_with_pairs(base: &str, pairs: &Vec<(String, String)>) -> (r: Option<String>)
    ensures
        match r {
            Some(s) => url_with_query(base@, pairs_of(pairs@)) == Some(s@),
            None => url_with_query(base@, pairs_of(pairs@)) is None,
        },
{
    let mut url = url::Url::parse(base).ok()?;
    url.query_pairs_mut().extend_pairs(pairs.iter().map(|(k, v)| (k.as_str(), v.as_str())));
    Some(url.into())
}

/// `url::form_urlencoded::Serializer::new(String::new())` with the pairs appended.
#[verifier::external_body]
pub(crate) fn form_body(pairs: &Vec<(String, String)>) -> (r: String)
    ensures
        r@ == form_encoded(pairs_of(pairs@)),
{
    url::form_urlencoded::Serializer::new(String::new()).extend_pairs(pairs.iter().map(|(k, v)| (k.as_str(), v.as_str()))).finish()
}

/// One browser sign-in. The verifier stays in server memory: it is never
/// sent to the browser.
pub struct BrowserAuthorization {
    state: String,
    verifier: String,
}

impl Default for BrowserAuthorization {
    fn default() -> (r: Self) {
        Self::new()
    }
}

pub open spec fn authorize_pairs(challenge: Seq<char>, state: Seq<char>) -> Seq<(Seq<char>, Seq<char>)> {
    seq![
        ("response_type"@, "code"@),
        ("client_id"@, CLIENT_ID@),
        ("redirect_uri"@, REDIRECT_URI@),
        ("scope"@, "openid profile email offline_access api.connectors.read api.connectors.invoke"@),
        ("code_challenge"@, challenge),
        ("code_challenge_method"@, "S256"@),
        ("id_token_add_organizations"@, "true"@),
        ("codex_cli_simplified_flow"@, "true"@),
        ("state"@, state),
        ("originator"@, "codex_cli_rs"@),
    ]
}

pub(crate) fn pair(k: &str, v: &str) -> (r: (String, String))
    ensures
        r.0@ == k@ && r.1@ == v@,
{
    (k.to_owned(), v.to_owned())
}

pub open spec fn key_is(key: Seq<char>) -> spec_fn((Seq<char>, Seq<char>)) -> bool {
    |p: (Seq<char>, Seq<char>)| p.0 == key
}

/// The single value of a query parameter: refused when it occurs twice.
pub open spec fn unique_spec(pairs: Seq<(Seq<char>, Seq<char>)>, key: Seq<char>) -> core::result::Result<Option<Seq<char>>, ()> {
    let v = pairs.filter(key_is(key));
    if v.len() > 1 {
        Err(())
    } else if v.len() == 1 {
        Ok(Some(v[0].1))
    } else {
        Ok(None)
    }
}

pub open spec fn invalid(m: Seq<char>) -> (u16, Seq<char>, Seq<char>) {
    (400, "invalid_request"@, m)
}

pub open spec fn code_ok(c: Seq<char>) -> bool {
    byte_len(c) > 0 && byte_len(c) <= 8192 && !has_control_spec(c)
}

/// The authorization code of a pasted callback link: the link must be the
/// registered redirect with no credentials or fragment, carry this flow's
/// state once, carry no error, and carry one code of 1 to 8192 bytes without
/// control characters.
pub open spec fn callback_spec(state: Seq<char>, callback: Seq<char>) -> core::result::Result<Seq<char>, (u16, Seq<char>, Seq<char>)> {
    let c = trim_spec(callback);
    if byte_len(c) > 16384 {
        Err(invalid("回调链接过长，请粘贴浏览器地址栏中的完整链接。"@))
    } else if url_parse(c) is None {
        Err(invalid("请粘贴完整的回调链接。"@))
    } else if url_parse(REDIRECT_URI@) is None {
        Err(invalid("Invalid OAuth redirect URI"@))
    } else {
        let u = url_parse(c).unwrap();
        let e = url_parse(REDIRECT_URI@).unwrap();
        if !(u.7 is Some && u.7 == e.7) || u.2 != e.2 || u.3 != Seq::<char>::empty() || u.4 is Some
            || u.6 is Some {
            Err(invalid("回调地址不匹配，应为 http://localhost:1455/auth/callback 开头的完整链接。"@))
        } else if unique_spec(u.8, "state"@) is Err {
            Err(invalid("回调链接包含重复的授权参数。"@))
        } else if unique_spec(u.8, "state"@) == Ok::<Option<Seq<char>>, ()>(None) {
            Err((400, "oauth_state_missing"@, "回调链接缺少 state，请复制完整链接。"@))
        } else if unique_spec(u.8, "state"@) != Ok::<Option<Seq<char>>, ()>(Some(state)) {
            Err(
                (
                    400,
                    "oauth_state_mismatch"@,
                    "此回调链接不属于本次授权，请使用当前生成的授权链接。"@,
                ),
            )
        } else if unique_spec(u.8, "error"@) is Err {
            Err(invalid("回调链接包含重复的授权参数。"@))
        } else if unique_spec(u.8, "error"@) is Ok && unique_spec(u.8, "error"@)->Ok_0 is Some {
            Err(
                (
                    400,
                    "oauth_authorization_denied"@,
                    "OpenAI 未完成授权，请重新生成链接并完成授权。"@,
                ),
            )
        } else if unique_spec(u.8, "code"@) is Err {
            Err(invalid("回调链接包含重复的授权参数。"@))
        } else {
            match unique_spec(u.8, "code"@)->Ok_0 {
                Some(code) => if code_ok(code) {
                    Ok(code)
                } else {
                    Err(
                        (
                            400,
                            "oauth_code_missing"@,
                            "回调链接缺少有效的 code，请完成授权后复制完整链接。"@,
                        ),
                    )
                },
                None => Err(
                    (
                        400,
                        "oauth_code_missing"@,
                        "回调链接缺少有效的 code，请完成授权后复制完整链接。"@,
                    ),
                ),
            }
        }
    }
}

#[verifier::loop_isolation(false)]
fn unique(pairs: &Vec<(String, String)>, key: &str) -> (r: Result<Option<String>>)
    ensures
        match unique_spec(pairs_of(pairs@), key@) {
            Err(()) => r matches Err(e) && plain_error(
                e,
                400,
                "invalid_request"@,
                "回调链接包含重复的授权参数。"@,
            ),
            Ok(v) => r matches Ok(x) && match (x, v) {
                (Some(a), Some(b)) => a@ == b,
                (None, None) => true,
                _ => false,
            },
        },
{
    let ghost p = pairs_of(pairs@);
    let mut count: usize = 0;
    let mut first: Option<String> = None;
    let mut i: usize = 0;
    while i < pairs.len()
        invariant
            i <= pairs@.len(),
            count as int == p.take(i as int).filter(key_is(key@)).len(),
            count <= i,
            count == 0 <==> first is None,
            count > 0 ==> (first matches Some(f) && f@ == p.take(i as int).filter(key_is(key@))[0].1),
        decreases pairs@.len() - i,
    {
        proof {
            assert(p.take(i + 1) =~= p.take(i as int).push(p[i as int]));
            lemma_filter_take(p, i as int, key_is(key@));
        }
        if str_eq(pairs[i].0.as_str(), key) {
            if count == 0 {
                first = Some(pairs[i].1.clone());
            }
            count = count + 1;
        }
        i = i + 1;
    }
    proof {
        assert(p.take(p.len() as int) =~= p);
    }
    if count > 1 {
        return Err(Error::invalid("回调链接包含重复的授权参数。"));
    }
    Ok(first)
}

impl BrowserAuthorization {
    /// A new flow with a random state of 32 bytes and a random verifier of 64
    /// bytes, each in URL-safe Base64.
    pub fn new() -> (r: Self)
        ensures
            exists|b: Seq<u8>| b.len() == 32 && r.state_view() == base64_url(b),
            exists|b: Seq<u8>| b.len() == 64 && r.verifier_view() == base64_url(b),
    {
        BrowserAuthorization { state: random_secret(32), verifier: random_secret(64) }
    }

    /// A flow with a known state and verifier.
    pub fn with_secrets(state: &str, verifier: &str) -> (r: Self)
        ensures
            r.state_view() == state@,
            r.verifier_view() == verifier@,
    {
        BrowserAuthorization { state: state.to_owned(), verifier: verifier.to_owned() }
    }

    pub closed spec fn state_view(self) -> Seq<char> {
        self.state@
    }

    pub closed spec fn verifier_view(self) -> Seq<char> {
        self.verifier@
    }

    /// The authorization link: the issuer's authorize endpoint with the S256
    /// challenge of the verifier (never the verifier itself) and the state.
    pub fn authorization_url(&self) -> (r: Result<String>)
        ensures
            match url_with_query(
                ISSUER@ + "/oauth/authorize"@,
                authorize_pairs(base64_url(sha256(encode_utf8(self.verifier_view()))), self.state_view()),
            ) {
                Some(u) => r matches Ok(s) && s@ == u,
                None => r matches Err(e) && plain_error(e, 400, "invalid_request"@, "Invalid OAuth issuer"@),
            },
    {
        let challenge = encode_base64_url(sha256_digest(self.verifier.as_str().as_bytes()).as_slice());
        let mut pairs: Vec<(String, String)> = Vec::new();
        pairs.push(pair("response_type", "code"));
        pairs.push(pair("client_id", CLIENT_ID));
        pairs.push(pair("redirect_uri", REDIRECT_URI));
        pairs.push(pair("scope", "openid profile email offline_access api.connectors.read api.connectors.invoke"));
        pairs.push(pair("code_challenge", challenge.as_str()));
        pairs.push(pair("code_challenge_method", "S256"));
        pairs.push(pair("id_token_add_organizations", "true"));
        pairs.push(pair("codex_cli_simplified_flow", "true"));
        pairs.push(pair("state", self.state.as_str()));
        pairs.push(pair("originator", "codex_cli_rs"));
        proof {
            assert(pairs_of(pairs@) =~= authorize_pairs(challenge@, self.state@));
        }
        let base = String::from_str(ISSUER).concat("/oauth/authorize");
        match url_with_pairs(base.as_str(), &pairs) {
            Some(u) => Ok(u),
            None => Err(Error::invalid("Invalid OAuth issuer")),
        }
    }

    /// The authorization code of the callback link the user pasted; see
    /// `callback_spec`.
    #[verifier::rlimit(30)]
    pub fn callback_code(&self, callback: &str) -> (r: Result<String>)
        ensures
            match callback_spec(self.state_view(), callback@) {
                Ok(c) => r matches Ok(s) && s@ == c,
                Err(f) => r matches Err(e) && plain_error(e, f.0, f.1, f.2),
            },
    {
        proof {
            reveal_strlit("");
            assert(""@ =~= Seq::<char>::empty());
        }
        let callback = trim(callback);
        if len_bytes(callback) > 16384 {
            return Err(Error::invalid("回调链接过长，请粘贴浏览器地址栏中的完整链接。"));
        }
        let url = match parse_url(callback) {
            Some(u) => u,
            None => {
                return Err(Error::invalid("请粘贴完整的回调链接。"));
            },
        };
        let expected = match parse_url(REDIRECT_URI) {
            Some(u) => u,
            None => {
                return Err(Error::invalid("Invalid OAuth redirect URI"));
            },
        };
        let same_origin = match (&url.origin, &expected.origin) {
            (Some((s1, h1, p1)), Some((s2, h2, p2))) => str_eq(s1.as_str(), s2.as_str()) && str_eq(
                h1.as_str(),
                h2.as_str(),
            ) && *p1 == *p2,
            _ => false,
        };
        if !same_origin || !str_eq(url.path.as_str(), expected.path.as_str()) || !str_eq(
            url.username.as_str(),
            "",
        ) || url.password.is_some() || url.fragment.is_some() {
            return Err(
                Error::invalid("回调地址不匹配，应为 http://localhost:1455/auth/callback 开头的完整链接。"),
            );
        }
        proof {
            assert(pairs_of(url.pairs@) == crate::urls::pairs_view(url.pairs@));
            reveal_strlit("state");
            reveal_strlit("error");
            reveal_strlit("code");
        }
        let state = match unique(&url.pairs, "state")? {
            Some(s) => s,
            None => {
                return Err(Error::new(400, "oauth_state_missing", "回调链接缺少 state，请复制完整链接。"));
            },
        };
        if !str_eq(state.as_str(), self.state.as_str()) {
            return Err(
                Error::new(
                    400,
                    "oauth_state_mismatch",
                    "此回调链接不属于本次授权，请使用当前生成的授权链接。",
                ),
            );
        }
        if unique(&url.pairs, "error")?.is_some() {
            return Err(
                Error::new(
                    400,
                    "oauth_authorization_denied",
                    "OpenAI 未完成授权，请重新生成链接并完成授权。",
                ),
            );
        }
        match unique(&url.pairs, "code")? {
            Some(c) => {
                if len_bytes(c.as_str()) > 0 && len_bytes(c.as_str()) <= 8192 && !has_control(c.as_str()) {
                    Ok(c)
                } else {
                    Err(
                        Error::new(
                            400,
                            "oauth_code_missing",
                            "回调链接缺少有效的 code，请完成授权后复制完整链接。",
                        ),
                    )
                }
            },
            None => Err(
                Error::new(
                    400,
                    "oauth_code_missing",
                    "回调链接缺少有效的 code，请完成授权后复制完整链接。",
                ),
            ),
        }
    }

    /// The form that exchanges the code for tokens, with this flow's verifier.
    pub fn exchange_body(&self, code: &str) -> (r: String)
        ensures
            r@ == form_encoded(
                seq![
                    ("grant_type"@, "authorization_code"@),
                    ("code"@, code@),
                    ("redirect_uri"@, REDIRECT_URI@),
                    ("client_id"@, CLIENT_ID@),
                    ("code_verifier"@, self.verifier_view()),
                ],
            ),
    {
        let mut pairs: Vec<(String, String)> = Vec::new();
        pairs.push(pair("grant_type", "authorization_code"));
        pairs.push(pair("code", code));
        pairs.push(pair("redirect_uri", REDIRECT_URI));
        pairs.push(pair("client_id", CLIENT_ID));
        pairs.push(pair("code_verifier", self.verifier.as_str()));
        proof {
            assert(pairs_of(pairs@) =~= seq![
                ("grant_type"@, "authorization_code"@),
                ("code"@, code@),
                ("redirect_uri"@, REDIRECT_URI@),
                ("client_id"@, CLIENT_ID@),
                ("code_verifier"@, self.verifier@),
            ]);
        }
        form_body(&pairs)
    }

    /// The request that exchanges the code for tokens: a form POST to the
    /// issuer's token endpoint.
    pub fn exchange_request(&self, code: &str) -> (r: TokenRequest)
        ensures
            r.method@ == "POST"@,
            r.url@ == ISSUER@ + "/oauth/token"@,
            pairs_of(r.headers@) == seq![("content-type"@, "application/x-www-form-urlencoded"@)],
            r.body@ == form_encoded(
                seq![
                    ("grant_type"@, "authorization_code"@),
                    ("code"@, code@),
                    ("redirect_uri"@, REDIRECT_URI@),
                    ("client_id"@, CLIENT_ID@),
                    ("code_verifier"@, self.verifier_view()),
                ],
            ),
    {
        let mut headers: Vec<(String, String)> = Vec::new();
        headers.push(pair("content-type", "application/x-www-form-urlencoded"));
        proof {
            assert(pairs_of(headers@) =~= seq![("content-type"@, "application/x-www-form-urlencoded"@)]);
        }
        TokenRequest {
            method: String::from_str("POST"),
            url: String::from_str(ISSUER).concat("/oauth/token"),
            headers,
            body: self.exchange_body(code),
        }
    }
}

/// A request to the OAuth issuer.
pub struct TokenRequest {
    pub method: String,
    pub url: String,
    pub headers: Vec<(String, String)>,
    pub body: String,
}

} // verus!
