//! Recognizes the inbound Codex client before any outbound profile is applied.
//! Unknown callers remain valid; only specific signatures identify Codex.
use vstd::prelude::*;
use vstd::string::StrSliceExecFns;
use crate::clients::{ClientOrigin, ClientSource};
use crate::text::{blank, byte_len, has_control, has_control_spec, is_blank, len_bytes, str_eq};

verus! {

/// The identity fields of a metadata object that recognition reads, each the
/// field's text when it is a JSON string.
pub struct MetadataFields {
    pub session_id: Option<String>,
    pub thread_id: Option<String>,
    pub turn_id: Option<String>,
    pub installation_id: Option<String>,
    pub x_codex_installation_id: Option<String>,
    pub window_id: Option<String>,
    pub x_codex_window_id: Option<String>,
}

/// What the recognizers read of a request: the user agent header, the turn
/// metadata header and body field as text, and the body's client metadata.
pub struct ClientSignals {
    pub user_agent: Option<String>,
    pub header_turn_metadata: Option<String>,
    pub body_turn_metadata: Option<String>,
    pub client_metadata: Option<MetadataFields>,
}

pub open spec fn ov(v: Option<String>) -> Option<Seq<char>> {
    match v {
        Some(x) => Some(x@),
        None => None,
    }
}

/// The fields in a fixed order: session, thread, turn, installation,
/// x-codex-installation, window, x-codex-window.
pub open spec fn fields_view(m: MetadataFields) -> Seq<Option<Seq<char>>> {
    seq![
        ov(m.session_id),
        ov(m.thread_id),
        ov(m.turn_id),
        ov(m.installation_id),
        ov(m.x_codex_installation_id),
        ov(m.window_id),
        ov(m.x_codex_window_id),
    ]
}

/// The identity fields of the JSON text `text` in that order, or `None` when
/// the text is not JSON.
pub uninterp spec fn json_metadata(text: Seq<char>) -> Option<Seq<Option<Seq<char>>>>;

/// `serde_json::from_str` of turn metadata, keeping the string-valued
/// identity fields (a JSON value that is not an object has none).
#[verifier::external_body]
fn parse_metadata(text: &str) -> (r: Option<MetadataFields>)
    ensures
        match r {
            Some(m) => json_metadata(text@) == Some(fields_view(m)),
            None => json_metadata(text@) is None,
        },
{
    let s = |v: &serde_json::Value, k: &str| v.get(k).and_then(serde_json::Value::as_str).map(str::to_owned);
    match serde_json::from_str::<serde_json::Value>(text) {
        Ok(v) => Some(MetadataFields {
            session_id: s(&v, "session_id"),
            thread_id: s(&v, "thread_id"),
            turn_id: s(&v, "turn_id"),
            installation_id: s(&v, "installation_id"),
            x_codex_installation_id: s(&v, "x-codex-installation-id"),
            window_id: s(&v, "window_id"),
            x_codex_window_id: s(&v, "x-codex-window-id"),
        }),
        Err(_) => None,
    }
}

/// An identity: a string that is not blank, of at most 512 bytes, without
/// control characters.
pub open spec fn identity_ok(v: Option<Seq<char>>) -> bool {
    v matches Some(s) && !blank(s) && byte_len(s) <= 512 && !has_control_spec(s)
}

/// Session, thread and turn identities, and an installation or window one.
pub open spec fn turn_signature(f: Seq<Option<Seq<char>>>) -> bool {
    identity_ok(f[0]) && identity_ok(f[1]) && identity_ok(f[2]) && (identity_ok(f[3])
        || identity_ok(f[4]) || identity_ok(f[5]) || identity_ok(f[6]))
}

fn identity(v: &Option<String>) -> (r: bool)
    ensures
        r == identity_ok(ov(*v)),
{
    match v {
        Some(s) => !is_blank(s.as_str()) && len_bytes(s.as_str()) <= 512 && !has_control(s.as_str()),
        None => false,
    }
}

fn signature(m: &MetadataFields) -> (r: bool)
    ensures
        r == turn_signature(fields_view(*m)),
{
    identity(&m.session_id) && identity(&m.thread_id) && identity(&m.turn_id) && (identity(
        &m.installation_id,
    ) || identity(&m.x_codex_installation_id) || identity(&m.window_id) || identity(
        &m.x_codex_window_id,
    ))
}

/// ` (` starts at `i`.
pub open spec fn paren_at(s: Seq<char>, i: int) -> bool {
    0 <= i < s.len() - 1 && s[i] == ' ' && s[i + 1] == '('
}

/// The user agent before its first ` (`, the platform comment.
pub open spec fn product_part(s: Seq<char>) -> Seq<char> {
    if exists|i: int| #[trigger] paren_at(s, i) {
        s.take(choose|i: int| #[trigger] paren_at(s, i) && forall|k: int| 0 <= k < i ==> !paren_at(s, k))
    } else {
        s
    }
}

pub open spec fn version_char(c: char) -> bool {
    ('0' <= c <= '9') || ('a' <= c <= 'z') || ('A' <= c <= 'Z') || c == '.' || c == '-' || c == '_'
        || c == '+'
}

/// A product known to be Codex: one of its command-line, terminal and editor
/// clients, or `Codex ` followed by a name of 1 to 80 bytes.
pub open spec fn codex_product(p: Seq<char>) -> bool {
    p == "codex_cli_rs"@ || p == "codex-tui"@ || p == "codex_vscode"@ || (p.len() > 6 && p.take(6)
        == "Codex "@ && byte_len(p.skip(6)) <= 80)
}

/// `product/version` at the last `/` of the product part, with a known product
/// and a version of 1 to 64 bytes of letters, digits and `.-_+`.
pub open spec fn codex_user_agent(ua: Seq<char>) -> bool {
    let p = product_part(ua);
    &&& byte_len(ua) <= 512
    &&& exists|j: int| 0 <= j < p.len() && p[j] == '/' && forall|k: int| j < k < p.len() ==> p[k] != '/'
    &&& {
        let j = choose|j: int| 0 <= j < p.len() && p[j] == '/' && forall|k: int| j < k < p.len() ==> p[k] != '/';
        let version = p.skip(j + 1);
        &&& codex_product(p.take(j))
        &&& version.len() > 0
        &&& version.len() <= 64
        &&& forall|k: int| 0 <= k < version.len() ==> version_char(#[trigger] version[k])
    }
}

fn product_end(s: &str) -> (r: usize)
    ensures
        r <= s@.len(),
        s@.take(r as int) == product_part(s@),
{
    let n = s.unicode_len();
    let mut i: usize = 0;
    while i < n
        invariant
            n == s@.len(),
            forall|k: int| 0 <= k < i ==> !paren_at(s@, k),
        decreases n - i,
    {
        if i + 1 < n && s.get_char(i) == ' ' && s.get_char(i + 1) == '(' {
            proof {
                assert(paren_at(s@, i as int));
                let c = choose|c: int| #[trigger] paren_at(s@, c) && forall|k: int| 0 <= k < c ==> !paren_at(s@, k);
                assert(paren_at(s@, c) && forall|k: int| 0 <= k < c ==> !paren_at(s@, k));
                if c < i {
                } else if i < c {
                }
                assert(c == i);
            }
            return i;
        }
        i = i + 1;
    }
    proof {
        assert(s@.take(n as int) =~= s@);
        assert forall|k: int| !paren_at(s@, k) by {
            if 0 <= k < i {
            }
        }
    }
    n
}

fn is_version_char(c: char) -> (r: bool)
    ensures
        r == version_char(c),
{
    ('0' <= c && c <= '9') || ('a' <= c && c <= 'z') || ('A' <= c && c <= 'Z') || c == '.' || c == '-'
        || c == '_' || c == '+'
}

/// Whether the user agent names a Codex client.
#[verifier::loop_isolation(false)]
pub fn recognizes_user_agent(ua: &str) -> (r: bool)
    ensures
        r == codex_user_agent(ua@),
{
    if len_bytes(ua) > 512 {
        return false;
    }
    let end = product_end(ua);
    let p = ua.substring_char(0, end);
    let n = p.unicode_len();
    let mut j: usize = n;
    while j > 0 && p.get_char(j - 1) != '/'
        invariant
            n == p@.len(),
            j <= n,
            forall|k: int| j <= k < n ==> p@[k] != '/',
        decreases j,
    {
        j = j - 1;
    }
    if j == 0 {
        proof {
            assert(!exists|x: int| 0 <= x < p@.len() && p@[x] == '/' && forall|k: int| x < k < p@.len() ==> p@[k] != '/') by {
                if exists|x: int| 0 <= x < p@.len() && p@[x] == '/' && forall|k: int| x < k < p@.len() ==> p@[k] != '/' {
                    let x = choose|x: int| 0 <= x < p@.len() && p@[x] == '/' && forall|k: int| x < k < p@.len() ==> p@[k] != '/';
                    assert(p@[x] != '/');
                }
            }
        }
        return false;
    }
    let slash = j - 1;
    proof {
        let x = choose|x: int| 0 <= x < p@.len() && p@[x] == '/' && forall|k: int| x < k < p@.len() ==> p@[k] != '/';
        assert(0 <= slash < p@.len() && p@[slash as int] == '/' && forall|k: int| slash < k < p@.len() ==> p@[k] != '/');
        if x < slash {
            assert(p@[slash as int] != '/');
        } else if slash < x {
            assert(p@[x] != '/');
        }
    }
    let product = p.substring_char(0, slash);
    let version = p.substring_char(slash + 1, n);
    proof {
        assert(p@ =~= ua@.take(end as int));
        assert(version@ =~= p@.skip(slash + 1));
        assert(product@ =~= p@.take(slash as int));
    }
    proof {
        reveal_strlit("codex_cli_rs");
        reveal_strlit("codex-tui");
        reveal_strlit("codex_vscode");
        reveal_strlit("Codex ");
    }
    let pn = product.unicode_len();
    let named = if pn > 6 && str_eq(product.substring_char(0, 6), "Codex ") {
        len_bytes(product.substring_char(6, pn)) <= 80
    } else {
        false
    };
    let known = str_eq(product, "codex_cli_rs") || str_eq(product, "codex-tui") || str_eq(
        product,
        "codex_vscode",
    ) || named;
    proof {
        if pn > 6 {
            assert(product@.take(6) =~= product@.subrange(0, 6));
            assert(product@.skip(6) =~= product@.subrange(6, pn as int));
        }
        assert(known == codex_product(product@));
    }
    if !known {
        return false;
    }
    let vn = version.unicode_len();
    if vn == 0 || vn > 64 {
        return false;
    }
    let mut k: usize = 0;
    while k < vn
        invariant
            vn == version@.len(),
            k <= vn,
            forall|i: int| 0 <= i < k ==> version_char(#[trigger] version@[i]),
        decreases vn - k,
    {
        if !is_version_char(version.get_char(k)) {
            return false;
        }
        k = k + 1;
    }
    proof {
        assert(version@ =~= p@.skip(slash + 1));
        assert(product@ =~= p@.take(slash as int));
    }
    true
}

/// Turn metadata text of at most 128 KiB that is JSON with a turn signature.
pub open spec fn turn_text_ok(text: Option<String>) -> bool {
    match text {
        Some(t) => byte_len(t@) <= 128 * 1024 && match json_metadata(t@) {
            Some(f) => turn_signature(f),
            None => false,
        },
        None => false,
    }
}

/// The rule that identifies a request as Codex and where its evidence was
/// found, in order: the user agent, then turn metadata in a header or in the
/// body, then the body's client metadata.
pub open spec fn recognized(s: ClientSignals) -> Option<(Seq<char>, Seq<char>)> {
    if s.user_agent matches Some(ua) && codex_user_agent(ua@) {
        Some(("codex_user_agent"@, "headers.user-agent"@))
    } else if turn_text_ok(s.header_turn_metadata) {
        Some(("codex_turn_metadata"@, "headers.x-codex-turn-metadata"@))
    } else if turn_text_ok(s.body_turn_metadata) {
        Some(("codex_turn_metadata"@, "body.client_metadata.x-codex-turn-metadata"@))
    } else if s.client_metadata matches Some(m) && turn_signature(fields_view(m)) && identity_ok(ov(m.x_codex_installation_id)) {
        Some(("codex_client_metadata"@, "body.client_metadata"@))
    } else {
        None
    }
}

/// A Codex origin found by `rule` with one piece of evidence.
pub fn known(rule: &str, evidence: Vec<String>) -> (r: ClientOrigin)
    ensures
        r.source == ClientSource::Codex,
        r.evidence == evidence,
        r.rule@ == rule@,
        r.version == 1,
{
    ClientOrigin { source: ClientSource::Codex, evidence, rule: rule.to_owned(), version: 1 }
}

fn one(s: &str) -> (r: Vec<String>)
    ensures
        r@.len() == 1 && r@[0]@ == s@,
{
    let mut v: Vec<String> = Vec::new();
    v.push(s.to_owned());
    v
}

fn turn_metadata_matches(text: &Option<String>) -> (r: bool)
    ensures
        r == turn_text_ok(*text),
{
    match text {
        Some(t) => {
            if len_bytes(t.as_str()) > 128 * 1024 {
                return false;
            }
            match parse_metadata(t.as_str()) {
                Some(m) => signature(&m),
                None => false,
            }
        },
        None => false,
    }
}

/// The origin of a request: the first recognizer that matches, else unknown.
/// Only field locations are recorded, never their content.
pub fn detect(signals: &ClientSignals) -> (r: ClientOrigin)
    ensures
        match recognized(*signals) {
            Some((rule, path)) => r.source == ClientSource::Codex && r.rule@ == rule && r.evidence@.len()
                == 1 && r.evidence@[0]@ == path && r.version == 1,
            None => r.source == ClientSource::Unknown && r.evidence@.len() == 0 && r.rule@
                == "unrecognized"@ && r.version == 1,
        },
{
    proof {
        reveal_strlit("codex_user_agent");
        reveal_strlit("headers.user-agent");
        reveal_strlit("codex_turn_metadata");
        reveal_strlit("headers.x-codex-turn-metadata");
        reveal_strlit("body.client_metadata.x-codex-turn-metadata");
        reveal_strlit("codex_client_metadata");
        reveal_strlit("body.client_metadata");
    }
    if let Some(ua) = &signals.user_agent {
        if recognizes_user_agent(ua.as_str()) {
            return known("codex_user_agent", one("headers.user-agent"));
        }
    }
    if turn_metadata_matches(&signals.header_turn_metadata) {
        return known("codex_turn_metadata", one("headers.x-codex-turn-metadata"));
    }
    if turn_metadata_matches(&signals.body_turn_metadata) {
        return known("codex_turn_metadata", one("body.client_metadata.x-codex-turn-metadata"));
    }
    if let Some(m) = &signals.client_metadata {
        if signature(m) && identity(&m.x_codex_installation_id) {
            return known("codex_client_metadata", one("body.client_metadata"));
        }
    }
    ClientOrigin::default()
}

} // verus!
