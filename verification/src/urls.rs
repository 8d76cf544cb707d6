//! URLs as the `url` crate parses them, and header values as `http` accepts them.
use vstd::prelude::*;
use vstd::utf8::encode_utf8;

verus! {

/// The parts of a parsed URL that the gateway checks. `origin` is the
/// scheme, host and port of a tuple origin (`None` for an opaque one);
/// `pairs` are the decoded query pairs in order.
pub struct UrlParts {
    pub scheme: String,
    pub host: Option<String>,
    pub path: String,
    pub username: String,
    pub password: Option<String>,
    pub query: Option<String>,
    pub fragment: Option<String>,
    pub origin: Option<(String, String, u16)>,
    pub pairs: Vec<(String, String)>,
}

pub open spec fn ov(v: Option<String>) -> Option<Seq<char>> {
    match v {
        Some(x) => Some(x@),
        None => None,
    }
}

pub type OriginView = Option<(Seq<char>, Seq<char>, u16)>;

pub open spec fn origin_view(o: Option<(String, String, u16)>) -> OriginView {
    match o {
        Some((s, h, p)) => Some((s@, h@, p)),
        None => None,
    }
}

pub open spec fn pairs_view(p: Seq<(String, String)>) -> Seq<(Seq<char>, Seq<char>)> {
    p.map_values(|x: (String, String)| (x.0@, x.1@))
}

/// Scheme, host, path, user name, password, query, fragment, origin
/// and decoded query pairs.
pub type UrlView = (
    Seq<char>,
    Option<Seq<char>>,
    Seq<char>,
    Seq<char>,
    Option<Seq<char>>,
    Option<Seq<char>>,
    Option<Seq<char>>,
    OriginView,
    Seq<(Seq<char>, Seq<char>)>,
);

pub open spec fn url_view(u: UrlParts) -> UrlView {
    (
        u.scheme@,
        ov(u.host),
        u.path@,
        u.username@,
        ov(u.password),
        ov(u.query),
        ov(u.fragment),
        origin_view(u.origin),
        pairs_view(u.pairs@),
    )
}

/// What `url::Url::parse` makes of a text, or `None` where it refuses it.
pub uninterp spec fn url_parse(text: Seq<char>) -> Option<UrlView>;

/// `url::Url::parse`, with the parts the gateway reads.
#[verifier::external_body]
pub fn parse_url(text: &str) -> (r: Option<UrlParts>)
    ensures
        match r {
            Some(u) => url_parse(text@) == Some(url_view(u)),
            None => url_parse(text@) is None,
        },
{
    let u = url::Url::parse(text).ok()?;
    let origin = match u.origin() {
        url::Origin::Tuple(s, h, p) => Some((s, h.to_string(), p)),
        url::Origin::Opaque(_) => None,
    };
    let own = |s: Option<&str>| s.map(str::to_owned);
    let pairs = u.query_pairs().into_owned().collect();
    Some(UrlParts { scheme: u.scheme().into(), host: own(u.host_str()), path: u.path().into(), username: u.username().into(), password: own(u.password()), query: own(u.query()), fragment: own(u.fragment()), origin, pairs })
}

/// The bytes `http::HeaderValue` accepts: tab, and everything from space
/// upward except DEL.
pub open spec fn header_bytes_ok(b: Seq<u8>) -> bool {
    forall|i: int| 0 <= i < b.len() ==> ((#[trigger] b[i]) >= 32 && b[i] != 127) || b[i] == 9
}

/// `http::HeaderValue::from_str` succeeds.
#[verifier::external_body]
pub fn header_value_ok(s: &str) -> (r: bool)
    ensures
        r == header_bytes_ok(encode_utf8(s@)),
{
    http::HeaderValue::from_str(s).is_ok()
}

} // verus!
