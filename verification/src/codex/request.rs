//! The outbound Codex request: its body, its cache partition, its address,
//! and the identity fields it carries with the upstream values the binding
//! maps them to.
use vstd::prelude::*;
use crate::accounts::{Account, Credentials};
use crate::codex::oauth_browser::{pair, pairs_of};
use crate::urls::{header_bytes_ok, header_value_ok};
use crate::identity::IdentityMap;
use crate::ids::{hyphenated, hyphenated_spec};
use crate::text::{byte_len, str_eq, trim, trim_spec};
use crate::types::{Error, Result, plain_error};
use crate::codex::references::{first_fault, item_restored, rewrite_input};
use crate::json::{Json, JsonView, lemma_view_items, lookup, set_key, text_in, view_items};
use crate::protocol::RequestKind;
use crate::ids::{uuid_v5, v5};
use vstd::string::StringExecFns;
use vstd::utf8::encode_utf8;

verus! {

/// The identifier kind of a Codex identity field, by its name.
pub open spec fn identity_kind_spec(name: Seq<char>) -> Option<Seq<char>> {
    if name == "session-id"@ || name == "session_id"@ || name == "conversation-id"@ || name
        == "conversation_id"@ || name == "thread-id"@ || name == "thread_id"@ || name
        == "parent_thread_id"@ || name == "forked_from_thread_id"@ || name
        == "x-codex-parent-thread-id"@ {
        Some("thread"@)
    } else if name == "turn_id"@ || name == "parent_turn_id"@ || name == "root_turn_id"@ {
        Some("turn"@)
    } else if name == "window_id"@ || name == "x-codex-window-id"@ {
        Some("window"@)
    } else if name == "context_window_id"@ {
        Some("context_window"@)
    } else if name == "x-client-request-id"@ {
        Some("request"@)
    } else {
        None
    }
}

pub open spec fn opt_text(s: Option<&str>) -> Option<Seq<char>> {
    match s {
        Some(x) => Some(x@),
        None => None,
    }
}

pub fn identity_kind(name: &str) -> (r: Option<&'static str>)
    ensures
        opt_text(r) == identity_kind_spec(name@),
{
    proof {
        reveal_strlit("session-id");
        reveal_strlit("session_id");
        reveal_strlit("conversation-id");
        reveal_strlit("conversation_id");
        reveal_strlit("thread-id");
        reveal_strlit("thread_id");
        reveal_strlit("parent_thread_id");
        reveal_strlit("forked_from_thread_id");
        reveal_strlit("x-codex-parent-thread-id");
        reveal_strlit("turn_id");
        reveal_strlit("parent_turn_id");
        reveal_strlit("root_turn_id");
        reveal_strlit("window_id");
        reveal_strlit("x-codex-window-id");
        reveal_strlit("context_window_id");
        reveal_strlit("x-client-request-id");
        reveal_strlit("thread");
        reveal_strlit("turn");
        reveal_strlit("window");
        reveal_strlit("context_window");
        reveal_strlit("request");
    }
    if str_eq(name, "session-id") || str_eq(name, "session_id") || str_eq(name, "conversation-id")
        || str_eq(name, "conversation_id") || str_eq(name, "thread-id") || str_eq(name, "thread_id")
        || str_eq(name, "parent_thread_id") || str_eq(name, "forked_from_thread_id") || str_eq(
        name,
        "x-codex-parent-thread-id",
    ) {
        Some("thread")
    } else if str_eq(name, "turn_id") || str_eq(name, "parent_turn_id") || str_eq(
        name,
        "root_turn_id",
    ) {
        Some("turn")
    } else if str_eq(name, "window_id") || str_eq(name, "x-codex-window-id") {
        Some("window")
    } else if str_eq(name, "context_window_id") {
        Some("context_window")
    } else if str_eq(name, "x-client-request-id") {
        Some("request")
    } else {
        None
    }
}

/// The binding maps the client identifier `client` of kind `kind` to `v`.
pub open spec fn maps_to(ids: IdentityMap, kind: Seq<char>, client: Seq<char>, v: Seq<char>) -> bool {
    ids.forward().contains_key((kind, client)) && ids.forward()[(kind, client)] == v
}

pub open spec fn is_installation_field(name: Seq<char>) -> bool {
    name == "installation_id"@ || name == "x-codex-installation-id"@
}

/// The outbound value of an identity field: the account's own installation
/// identifier for installation fields, the binding's mapping of the trimmed
/// value for identifier fields, and the value itself otherwise.
pub fn mapped_identity(name: &str, value: &str, account: &Account, ids: &mut IdentityMap) -> (r: Result<String>)
    requires
        old(ids).wf(),
    ensures
        final(ids).wf(),
        is_installation_field(name@) ==> (r matches Ok(v) && v@ == hyphenated_spec(
            account.profile.installation_id,
        ) && *final(ids) == *old(ids)),
        !is_installation_field(name@) && identity_kind_spec(name@) is None ==> (r matches Ok(v)
            && v@ == value@ && *final(ids) == *old(ids)),
        !is_installation_field(name@) && identity_kind_spec(name@) is Some ==> final(ids).binding_of()
            == old(ids).binding_of(),
        old(ids).forward().submap_of(final(ids).forward()),
        final(ids).binding_of() == old(ids).binding_of(),
        r is Err ==> *final(ids) == *old(ids),
        !is_installation_field(name@) && identity_kind_spec(name@) is Some ==> (r is Ok ==> trim_spec(
            value@,
        ).len() > 0 && byte_len(trim_spec(value@)) <= 512),
        !is_installation_field(name@) && identity_kind_spec(name@) is Some ==> (r is Err ==> (trim_spec(
            value@,
        ).len() == 0 || byte_len(trim_spec(value@)) > 512 || !old(ids).forward().contains_key(
            (identity_kind_spec(name@).unwrap(), trim_spec(value@)),
        ))),
        !is_installation_field(name@) && identity_kind_spec(name@) is Some ==> (r matches Ok(v)
            ==> maps_to(*final(ids), identity_kind_spec(name@).unwrap(), trim_spec(value@), v@)),
{
    proof {
        reveal_strlit("installation_id");
        reveal_strlit("x-codex-installation-id");
    }
    if str_eq(name, "installation_id") || str_eq(name, "x-codex-installation-id") {
        return Ok(hyphenated(account.profile.installation_id));
    }
    match identity_kind(name) {
        Some(kind) => ids.outbound(kind, trim(value)),
        None => Ok(value.to_owned()),
    }
}


/// The body fields a Responses request forwards to Codex, in order. Codex
/// refuses `max_output_tokens`, so it is not forwarded.
pub open spec fn forwarded_names() -> Seq<Seq<char>> {
    seq!["input"@, "instructions"@, "tools"@, "tool_choice"@, "parallel_tool_calls"@, "reasoning"@, "stream_options"@, "include"@, "text"@, "temperature"@, "top_p"@, "truncation"@, "access_programs"@]
}

fn forwarded_name(k: usize) -> (r: &'static str)
    requires
        k < 13,
    ensures
        r@ == forwarded_names()[k as int],
{
    if k == 0 {
        "input"
    } else if k == 1 {
        "instructions"
    } else if k == 2 {
        "tools"
    } else if k == 3 {
        "tool_choice"
    } else if k == 4 {
        "parallel_tool_calls"
    } else if k == 5 {
        "reasoning"
    } else if k == 6 {
        "stream_options"
    } else if k == 7 {
        "include"
    } else if k == 8 {
        "text"
    } else if k == 9 {
        "temperature"
    } else if k == 10 {
        "top_p"
    } else if k == 11 {
        "truncation"
    } else {
        "access_programs"
    }
}

pub type Members = Seq<(Seq<char>, JsonView)>;

/// The forwarded fields among the first `k` names that the source carries.
pub open spec fn forwarded_members(source: JsonView, k: int) -> Members
    decreases k,
{
    if k <= 0 {
        Seq::empty()
    } else {
        let rest = forwarded_members(source, k - 1);
        let name = forwarded_names()[k - 1];
        match source.get(name) {
            Some(v) => rest.push((name, v)),
            None => rest,
        }
    }
}

/// A system message becomes a developer message.
pub open spec fn developer_role(item: JsonView) -> JsonView {
    match item {
        JsonView::Object(m) => if text_in(lookup(m, "role"@)) == Some("system"@) {
            JsonView::Object(set_key(m, "role"@, JsonView::Text("developer"@)))
        } else {
            item
        },
        _ => item,
    }
}

/// The input as Codex takes it: text becomes one user message, and system
/// messages become developer messages.
pub open spec fn normalized_input(v: JsonView) -> JsonView {
    match v {
        JsonView::Text(t) => JsonView::Array(
            seq![JsonView::Object(seq![("role"@, JsonView::Text("user"@)), ("content"@, JsonView::Text(t))])],
        ),
        JsonView::Array(items) => JsonView::Array(items.map_values(|i: JsonView| developer_role(i))),
        _ => v,
    }
}

/// The body fields after the input: instructions default to empty text; the
/// model is set; a Responses request is not stored and is streamed; a
/// requested tier other than "auto" is forwarded.
pub open spec fn finished_body(m: Members, model: Seq<char>, kind: RequestKind, tier: Option<Seq<char>>) -> Members {
    let a = if lookup(m, "instructions"@) is None {
        set_key(m, "instructions"@, JsonView::Text(Seq::empty()))
    } else {
        m
    };
    let b = set_key(a, "model"@, JsonView::Text(model));
    let c = if kind != RequestKind::Compact {
        set_key(set_key(b, "store"@, JsonView::Bool(false)), "stream"@, JsonView::Bool(true))
    } else {
        b
    };
    match tier {
        Some(t) => if t != "auto"@ {
            set_key(c, "service_tier"@, JsonView::Text(t))
        } else {
            c
        },
        None => c,
    }
}

/// The Codex request body, or the fault of its input: see `forwarded_members`,
/// `normalized_input`, `rewrite_input` and `finished_body`.
pub open spec fn request_body_spec(source: JsonView, model: Seq<char>, kind: RequestKind, tier: Option<Seq<char>>, ids: IdentityMap) -> core::result::Result<Members, (u16, Seq<char>, Seq<char>)> {
    let m = forwarded_members(source, 13);
    match lookup(m, "input"@) {
        None => Ok(finished_body(m, model, kind, tier)),
        Some(input) => match normalized_input(input) {
            JsonView::Array(items) => match first_fault(items) {
                Some(f) => Err((409, f.0, f.1)),
                None => Ok(
                    finished_body(
                        set_key(m, "input"@, JsonView::Array(items.map_values(|i: JsonView| item_restored(ids, i)))),
                        model,
                        kind,
                        tier,
                    ),
                ),
            },
            n => Ok(finished_body(set_key(m, "input"@, n), model, kind, tier)),
        },
    }
}

fn text_json(s: &str) -> (r: Json)
    ensures
        r@ == JsonView::Text(s@),
{
    Json::Text(s.to_owned())
}

fn normalize_input(v: Json) -> (r: Json)
    ensures
        r@ == normalized_input(v@),
{
    match v {
        Json::Text(t) => {
            let message = vec![("role".to_owned(), text_json("user")), ("content".to_owned(), Json::Text(t))];
            proof {
                crate::json::lemma_view_members(message@);
                assert(crate::json::view_members(message@) =~= seq![("role"@, JsonView::Text("user"@)), ("content"@, JsonView::Text(t@))]);
            }
            let items = vec![Json::Object(message)];
            proof {
                lemma_view_items(items@);
                assert(view_items(items@) =~= seq![crate::json::view_json(Json::Object(message))]);
            }
            Json::Array(items)
        },
        Json::Array(items) => {
            let mut items = items;
            let ghost before = view_items(items@);
            proof {
                lemma_view_items(items@);
            }
            let mut i: usize = 0;
            while i < items.len()
                invariant
                    i <= items@.len(),
                    before.len() == items@.len(),
                    forall|k: int| 0 <= k < i ==> crate::json::view_json(#[trigger] items@[k]) == developer_role(before[k]),
                    forall|k: int| i <= k < items@.len() ==> crate::json::view_json(#[trigger] items@[k]) == before[k],
                decreases items.len() - i,
            {
                let system = match items[i].get_str("role") {
                    Some(r) => str_eq(r, "system"),
                    None => false,
                };
                if system {
                    let mut item = crate::json::take_item(&mut items, i);
                    item.insert("role", text_json("developer"));
                    items.set(i, item);
                }
                i = i + 1;
            }
            proof {
                lemma_view_items(items@);
                assert(view_items(items@) =~= before.map_values(|i: JsonView| developer_role(i)));
            }
            Json::Array(items)
        },
        other => other,
    }
}

/// The Codex request body built from a Responses request body; see
/// `request_body_spec`.
pub fn request_body(source: &Json, model: &str, kind: RequestKind, tier: Option<&str>, ids: &IdentityMap) -> (r: Result<Json>)
    requires
        ids.wf(),
    ensures
        match request_body_spec(source@, model@, kind, opt_text(tier), *ids) {
            Ok(m) => r matches Ok(b) && b@ == JsonView::Object(m),
            Err(f) => r matches Err(e) && plain_error(e, f.0, f.1, f.2),
        },
{
    let mut m: Vec<(String, Json)> = Vec::new();
    let mut k: usize = 0;
    while k < 13
        invariant
            k <= 13,
            crate::json::view_members(m@) == forwarded_members(source@, k as int),
        decreases 13 - k,
    {
        let name = forwarded_name(k);
        if let Some(v) = source.get(name) {
            let e = (name.to_owned(), v.duplicate());
            proof {
                crate::json::lemma_members_push(m@, e);
            }
            m.push(e);
        }
        k = k + 1;
    }
    let ghost m0 = m@;
    proof {
        crate::json::lemma_view_members(m0);
        crate::json::lemma_find_key(crate::json::view_members(m0), "input"@);
    }
    let i = crate::json::find_member(&m, "input");
    if i < m.len() {
        let v = crate::json::take_member_value(&mut m, i);
        let mut n = normalize_input(v);
        match rewrite_input(&mut n, ids) {
            Ok(()) => {},
            Err(e) => return Err(e),
        }
        let e = ("input".to_owned(), n);
        m.set(i, e);
        proof {
            assert(m@ =~= m0.update(i as int, e));
            crate::json::lemma_members_update(m0, i as int, e);
        }
    }
    let mut body = Json::Object(m);
    if body.get("instructions").is_none() {
        proof {
            reveal_strlit("");
            assert(""@ =~= Seq::<char>::empty());
        }
        body.insert("instructions", text_json(""));
    }
    body.insert("model", text_json(model));
    if kind != RequestKind::Compact {
        body.insert("store", Json::Bool(false));
        body.insert("stream", Json::Bool(true));
    }
    if let Some(t) = tier {
        if !str_eq(t, "auto") {
            body.insert("service_tier", text_json(t));
        }
    }
    Ok(body)
}


/// How a request's cache partition reaches Codex.
pub enum CachePartition {
    /// The client's session or thread identifier, sent as the binding maps it.
    Session(String),
    /// A partition scoped by the gateway key and the account.
    Scoped(String),
}

/// The request's cache partition key, trimmed, when it is not empty.
pub open spec fn cache_text(source: JsonView) -> Option<Seq<char>> {
    match text_in(source.get("prompt_cache_key"@)) {
        Some(t) => if trim_spec(t).len() > 0 {
            Some(trim_spec(t))
        } else {
            None
        },
        None => None,
    }
}

/// The name a scoped partition is derived from.
pub open spec fn scoped_name(key_id: u128, cache: Seq<char>) -> Seq<u8> {
    encode_utf8("prompt_cache\0"@ + hyphenated_spec(key_id) + "\0"@ + cache)
}

/// The cache partition of a request. Partitions are independent of session
/// tracing: a key equal to the request's session or thread keeps that
/// identity's mapping; any other is scoped by gateway key and account, so it
/// creates no session and stays the same across requests.
pub fn cache_partition(
    source: &Json,
    stateless: bool,
    session_id: &str,
    thread_id: &str,
    key_id: u128,
    installation_id: u128,
) -> (r: Option<CachePartition>)
    ensures
        match cache_text(source@) {
            None => r is None,
            Some(c) => if !stateless && (c == session_id@ || c == thread_id@) {
                r matches Some(CachePartition::Session(s)) && s@ == c
            } else {
                r matches Some(CachePartition::Scoped(s)) && s@ == hyphenated_spec(
                    uuid_v5(installation_id, scoped_name(key_id, c)),
                )
            },
        },
{
    let cache = match source.get_str("prompt_cache_key") {
        Some(t) => trim(t),
        None => return None,
    };
    if cache.unicode_len() == 0 {
        return None;
    }
    if !stateless && (str_eq(cache, session_id) || str_eq(cache, thread_id)) {
        return Some(CachePartition::Session(cache.to_owned()));
    }
    let name = String::from_str("prompt_cache\0").concat(hyphenated(key_id).as_str()).concat("\0").concat(cache);
    let id = v5(installation_id, name.as_str().as_bytes());
    Some(CachePartition::Scoped(hyphenated(id)))
}

/// `s` without trailing slashes.
pub open spec fn without_trailing_slashes(s: Seq<char>) -> Seq<char>
    decreases s.len(),
{
    if s.len() > 0 && s.last() == '/' {
        without_trailing_slashes(s.drop_last())
    } else {
        s
    }
}

/// The address of the Codex responses endpoint under an account's base URL,
/// or of its compaction endpoint.
pub fn responses_url(base: &str, kind: RequestKind) -> (r: String)
    ensures
        r@ == without_trailing_slashes(base@) + "/responses"@ + if kind == RequestKind::Compact {
            "/compact"@
        } else {
            Seq::empty()
        },
{
    let mut n = base.unicode_len();
    proof {
        assert(base@.subrange(0, n as int) =~= base@);
    }
    while n > 0 && base.get_char(n - 1) == '/'
        invariant
            n <= base@.len(),
            without_trailing_slashes(base@.subrange(0, n as int)) == without_trailing_slashes(base@),
        decreases n,
    {
        proof {
            assert(base@.subrange(0, n as int).drop_last() =~= base@.subrange(0, n - 1));
        }
        n = n - 1;
    }
    assert(without_trailing_slashes(base@.subrange(0, n as int)) == base@.subrange(0, n as int));
    let url = String::from_str(base.substring_char(0, n)).concat("/responses");
    if kind == RequestKind::Compact {
        url.concat("/compact")
    } else {
        proof {
            assert(url@ + Seq::<char>::empty() =~= url@);
        }
        url
    }
}


/// The headers that authenticate a request as the account: its bearer token,
/// its ChatGPT account, the Codex originator and its User-Agent.
pub open spec fn auth_header_pairs(a: Account, c: Credentials) -> Seq<(Seq<char>, Seq<char>)> {
    seq![
        ("authorization"@, "Bearer "@ + c.access_token@),
        ("chatgpt-account-id"@, a.upstream_account_id@),
        ("originator"@, "codex_cli_rs"@),
        ("user-agent"@, a.profile.user_agent@),
    ]
}

pub open spec fn auth_headers_ok(a: Account, c: Credentials) -> bool {
    forall|i: int| 0 <= i < 4 ==> header_bytes_ok(encode_utf8(#[trigger] auth_header_pairs(a, c)[i].1))
}

/// The authentication headers, each checked to be a valid header value. The
/// bearer token is to be marked sensitive where it is sent.
pub fn auth_headers(a: &Account, c: &Credentials) -> (r: Result<Vec<(String, String)>>)
    ensures
        auth_headers_ok(*a, *c) ==> (r matches Ok(h) && pairs_of(h@) == auth_header_pairs(*a, *c)),
        !auth_headers_ok(*a, *c) ==> (r matches Err(e) && plain_error(
            e,
            400,
            "invalid_request"@,
            "Invalid account header"@,
        )),
{
    let bearer = String::from_str("Bearer ").concat(c.access_token.as_str());
    let mut headers: Vec<(String, String)> = Vec::new();
    headers.push(pair("authorization", bearer.as_str()));
    headers.push(pair("chatgpt-account-id", a.upstream_account_id.as_str()));
    headers.push(pair("originator", "codex_cli_rs"));
    headers.push(pair("user-agent", a.profile.user_agent.as_str()));
    proof {
        assert(pairs_of(headers@) =~= auth_header_pairs(*a, *c));
    }
    let mut i: usize = 0;
    while i < headers.len()
        invariant
            headers@.len() == 4,
            pairs_of(headers@) == auth_header_pairs(*a, *c),
            i <= 4,
            forall|j: int| 0 <= j < i ==> header_bytes_ok(encode_utf8(#[trigger] auth_header_pairs(*a, *c)[j].1)),
        decreases 4 - i,
    {
        if !header_value_ok(headers[i].1.as_str()) {
            assert(headers@[i as int].1@ == auth_header_pairs(*a, *c)[i as int].1);
            return Err(Error::invalid("Invalid account header"));
        }
        assert(headers@[i as int].1@ == auth_header_pairs(*a, *c)[i as int].1);
        i = i + 1;
    }
    Ok(headers)
}

} // verus!
