//! Accepting a web search request: a JSON object with a search identifier,
//! no streaming, a bounded query string, at most one `OpenAI-Beta` header and
//! a stated identity. Its identity and metadata go through the same checks
//! as a Responses request; its commands and context stay opaque.
use vstd::prelude::*;
use vstd::string::{StrSliceExecFns, StringExecFns};
use vstd::utf8::encode_utf8;
use crate::clients::ClientOrigin;
use crate::codex::client_source::{ClientSignals, detect};
use crate::codex::identity_input::{Candidate, candidates_view, resolve_spec};
use crate::codex::inbound::{
    CandidateView, Fault, ParsedRequest, RequestHeaders, collect_spec, early_checks, effort_of, headers_view,
    inspect, late_checks, opt_text, origin_for, parse, ref_view, signals, signals_spec, turn_state_of,
    values_named, outcome_after, accepted, opt_view, ref_of,
};
use crate::codex::inbound::signals_view;
use crate::json::{Json, JsonView, lemma_members_push, lemma_view_members, view_members};
use crate::protocol::{CompactionMethod, RequestKind};
use crate::text::{blank, byte_len, has_control, has_control_spec, is_blank, len_bytes, str_eq};
use crate::types::{Error, Result, plain_error};
use crate::urls::{header_bytes_ok, header_value_ok};

verus! {

/// The first rule a search request breaks before its identity is read.
pub open spec fn search_fault(h: Seq<(Seq<char>, Seq<u8>)>, body: JsonView, query: Option<Seq<char>>) -> Option<Seq<char>> {
    if !(body is Object) {
        Some("Search request must be a JSON object"@)
    } else if !(body.get("id"@) matches Some(JsonView::Text(id)) && !blank(id) && byte_len(id) <= 512
        && !has_control_spec(id)) {
        Some("Search requires a nonempty id of at most 512 bytes"@)
    } else if body.get("stream"@) matches Some(v) && v != JsonView::Bool(false) {
        Some("Search returns a single JSON response; streaming is not supported"@)
    } else if query matches Some(q) && byte_len(q) > 8192 {
        Some("Search query string is too long"@)
    } else if values_named(h, "openai-beta"@).len() > 1 {
        Some("Duplicate OpenAI-Beta headers"@)
    } else {
        None
    }
}

/// The headers with the session and thread identifiers given.
pub open spec fn with_identity(h: Seq<(Seq<char>, Seq<u8>)>, session: Seq<char>, thread: Seq<char>) -> Seq<(Seq<char>, Seq<u8>)> {
    without_identity(h).push(("session-id"@, encode_utf8(session))).push(("thread-id"@, encode_utf8(thread)))
}

/// The headers without session and thread identifiers.
pub open spec fn without_identity(h: Seq<(Seq<char>, Seq<u8>)>) -> Seq<(Seq<char>, Seq<u8>)>
    decreases h.len(),
{
    if h.len() == 0 {
        Seq::empty()
    } else if h.last().0 == "session-id"@ || h.last().0 == "thread-id"@ {
        without_identity(h.drop_last())
    } else {
        without_identity(h.drop_last()).push(h.last())
    }
}

pub open spec fn pick(body: JsonView, k: Seq<char>) -> Seq<(Seq<char>, JsonView)> {
    match body.get(k) {
        Some(v) => seq![(k, v)],
        None => Seq::empty(),
    }
}

/// The fields of a search body that the Responses checks read, over an
/// empty input.
pub open spec fn search_projection(body: JsonView) -> JsonView {
    JsonView::Object(
        seq![("input"@, match body.get("input"@) {
            Some(v) => v,
            None => JsonView::Text(Seq::empty()),
        })] + pick(body, "model"@) + pick(body, "reasoning"@) + pick(body, "service_tier"@) + pick(
            body,
            "client_metadata"@,
        ) + pick(body, "prompt_cache_key"@),
    )
}

/// What the gateway keeps of a search request.
pub struct SearchOptions {
    pub query: Option<String>,
    pub beta: Option<Vec<u8>>,
}

/// An accepted search request: what the Responses checks kept of its
/// projection, as a search, with the search body as its document.
pub open spec fn accepted_search(
    p: ParsedRequest,
    h: Seq<(Seq<char>, Seq<u8>)>,
    body: JsonView,
    eh: Seq<(Seq<char>, Seq<u8>)>,
    head: (Seq<char>, bool),
    resolved: Option<(Seq<char>, Seq<char>, Seq<Seq<char>>, Seq<Seq<char>>)>,
    late: (Option<Seq<char>>, Option<Seq<char>>),
) -> bool {
    &&& p.model@ == head.0
    &&& p.stream == head.1
    &&& p.kind == RequestKind::Search
    &&& p.document@ == body
    &&& p.client_metadata_present == body.get("client_metadata"@) is Some
    &&& p.compaction is None
    &&& p.stateless == resolved is None
    &&& match resolved {
        Some(x) => p.session_id@ == x.0 && p.thread_id@ == x.1,
        None => p.session_id@ == p.thread_id@,
    }
    &&& opt_text(p.turn_id) == late.0
    &&& opt_text(p.requested_tier) == late.1
    &&& opt_text(p.reasoning_effort) == effort_of(search_projection(body))
    &&& turn_state_of(p.client_turn_state, values_named(eh, "x-codex-turn-state"@))
    &&& exists|s: ClientSignals|
        signals_view(s) == signals_spec(h, body) && #[trigger] origin_for(p.client_origin, s)
}


/// What a search request yields once its projection passed the early
/// checks, given how the projection's identity resolved.
pub open spec fn search_after(
    r: Result<ParsedRequest>,
    resolution: core::result::Result<Option<(Seq<char>, Seq<char>, Seq<Seq<char>>, Seq<Seq<char>>)>, Fault>,
    h: Seq<(Seq<char>, Seq<u8>)>,
    body: JsonView,
    eh: Seq<(Seq<char>, Seq<u8>)>,
    head: (Seq<char>, bool),
    sources: Seq<JsonView>,
) -> bool {
    match resolution {
        Err(f) => r matches Err(e) && plain_error(e, f.0, f.1, f.2),
        Ok(resolved) => match late_checks(eh, search_projection(body), sources) {
            Err(f) => r matches Err(e) && plain_error(e, f.0, f.1, f.2),
            Ok(late) => r matches Ok(p) && accepted_search(p, h, body, eh, head, resolved, late),
        },
    }
}

/// The outcome of the Responses checks on the projection with the effective
/// headers.
pub open spec fn search_checked(
    r: Result<ParsedRequest>,
    h: Seq<(Seq<char>, Seq<u8>)>,
    body: JsonView,
    eh: Seq<(Seq<char>, Seq<u8>)>,
    nested: Option<Json>,
    header_json: Option<Json>,
) -> bool {
    match early_checks(eh, search_projection(body), nested, header_json, RequestKind::Responses) {
        Err(f) => r matches Err(e) && plain_error(e, f.0, f.1, f.2),
        Ok((head, sources, method, cands)) => exists|c: Seq<Candidate>|
            candidates_view(c) == cands && #[trigger] search_after(
                r,
                resolve_spec(c),
                h,
                body,
                eh,
                head,
                sources,
            ),
    }
}


pub open spec fn parsed_part(r: Result<(ParsedRequest, SearchOptions)>) -> Result<ParsedRequest> {
    match r {
        Ok(x) => Ok(x.0),
        Err(e) => Err(e),
    }
}

/// What a search request yields once its own identity has resolved.
pub open spec fn search_resolved(
    r: Result<(ParsedRequest, SearchOptions)>,
    resolution: core::result::Result<Option<(Seq<char>, Seq<char>, Seq<Seq<char>>, Seq<Seq<char>>)>, Fault>,
    h: Seq<(Seq<char>, Seq<u8>)>,
    body: JsonView,
    nested: Option<Json>,
    header_json: Option<Json>,
    query: Option<Seq<char>>,
) -> bool {
    match resolution {
        Err(f) => r matches Err(e) && plain_error(e, f.0, f.1, f.2),
        Ok(None) => r matches Err(e) && plain_error(e, 400, "invalid_request"@, "Search identity is missing"@),
        Ok(Some(x)) => if !(header_bytes_ok(encode_utf8(x.0)) && header_bytes_ok(encode_utf8(x.1))) {
            r matches Err(e) && plain_error(e, 400, "invalid_request"@, "Invalid search identity"@)
        } else {
            &&& search_checked(parsed_part(r), h, body, with_identity(h, x.0, x.1), nested, header_json)
            &&& r matches Ok(p) ==> opt_text(p.1.query) == query && match p.1.beta {
                Some(b) => values_named(h, "openai-beta"@).len() > 0 && b@ == values_named(h, "openai-beta"@)[0],
                None => values_named(h, "openai-beta"@).len() == 0,
            }
        },
    }
}

pub open spec fn entries_view(s: Seq<(String, Vec<u8>)>) -> Seq<(Seq<char>, Seq<u8>)> {
    s.map_values(|e: (String, Vec<u8>)| (e.0@, e.1@))
}

fn without_identity_exec(h: &RequestHeaders, session: &str, thread: &str) -> (r: RequestHeaders)
    ensures
        headers_view(r) == with_identity(headers_view(*h), session@, thread@),
{
    let ghost hv = headers_view(*h);
    let mut entries: Vec<(String, Vec<u8>)> = Vec::new();
    let mut i: usize = 0;
    while i < h.entries.len()
        invariant
            hv == headers_view(*h),
            i <= h.entries@.len(),
            entries_view(entries@) == without_identity(hv.take(i as int)),
        decreases h.entries@.len() - i,
    {
        proof {
            assert(hv.take(i + 1).drop_last() =~= hv.take(i as int));
            assert(hv.take(i + 1).last() == hv[i as int]);
        }
        let name = h.entries[i].0.as_str();
        if !str_eq(name, "session-id") && !str_eq(name, "thread-id") {
            let e = (h.entries[i].0.clone(), h.entries[i].1.clone());
            let ghost before = entries@;
            proof {
                assert(e.1@ =~= h.entries@[i as int].1@);
            }
            entries.push(e);
            proof {
                assert(entries_view(entries@) =~= entries_view(before).push(hv[i as int]));
            }
        }
        i = i + 1;
    }
    proof {
        assert(hv.take(h.entries@.len() as int) =~= hv);
    }
    let ghost before = entries@;
    let s = (String::from_str("session-id"), session.as_bytes_vec());
    entries.push(s);
    let t = (String::from_str("thread-id"), thread.as_bytes_vec());
    entries.push(t);
    let r = RequestHeaders { entries };
    proof {
        assert(headers_view(r) =~= entries_view(before).push(("session-id"@, encode_utf8(session@))).push(("thread-id"@, encode_utf8(thread@))));
    }
    r
}

fn push_picked(m: &mut Vec<(String, Json)>, body: &Json, k: &str)
    ensures
        view_members(final(m)@) == view_members(old(m)@) + pick(body@, k@),
{
    match body.get(k) {
        Some(v) => {
            let e = (k.to_owned(), v.duplicate());
            proof {
                lemma_members_push(m@, e);
            }
            m.push(e);
            assert(view_members(m@) =~= view_members(old(m)@) + pick(body@, k@));
        },
        None => {
            assert(view_members(m@) =~= view_members(old(m)@) + pick(body@, k@));
        },
    }
}

fn projection_of(body: &Json) -> (r: Json)
    ensures
        r@ == search_projection(body@),
{
    let input = match body.get("input") {
        Some(v) => v.duplicate(),
        None => Json::Text(String::new()),
    };
    let mut m: Vec<(String, Json)> = Vec::new();
    let e = (String::from_str("input"), input);
    proof {
        lemma_members_push(m@, e);
        assert(view_members(m@) =~= Seq::<(Seq<char>, JsonView)>::empty());
    }
    m.push(e);
    push_picked(&mut m, body, "model");
    push_picked(&mut m, body, "reasoning");
    push_picked(&mut m, body, "service_tier");
    push_picked(&mut m, body, "client_metadata");
    push_picked(&mut m, body, "prompt_cache_key");
    let r = Json::Object(m);
    assert(r@ =~= search_projection(body@));
    r
}


fn first_value(vs: &Vec<Vec<u8>>) -> (r: Option<Vec<u8>>)
    ensures
        match r {
            Some(b) => vs@.len() > 0 && b@ == vs@[0]@,
            None => vs@.len() == 0,
        },
{
    if vs.len() == 0 {
        None
    } else {
        let b = vs[0].clone();
        assert(b@ =~= vs@[0]@);
        Some(b)
    }
}

/// Accepts a web search request: the faults of `search_fault` first, then
/// those of resolving its identity (which it must state), then the
/// Responses checks of its projection with that identity as its headers;
/// see `search_resolved`. `nested` and `header_json` are what the texts of the
/// nested turn metadata and of the turn metadata header read as JSON.
#[verifier::loop_isolation(false)]
#[verifier::rlimit(80)]
#[verifier::spinoff_prover]
pub fn parse_search(
    h: &RequestHeaders,
    body: Json,
    nested: Option<Json>,
    header_json: Option<Json>,
    query: Option<String>,
) -> (r: Result<(ParsedRequest, SearchOptions)>)
    ensures
        match search_fault(headers_view(*h), body@, opt_text(query)) {
            Some(m) => r matches Err(e) && plain_error(e, 400, "invalid_request"@, m),
            None => match collect_spec(
                headers_view(*h),
                body@,
                opt_view(nested),
                opt_view(header_json),
                RequestKind::Search,
            ) {
                Err(m) => r matches Err(e) && plain_error(e, 400, "invalid_request"@, m),
                Ok(cs) => exists|c: Seq<Candidate>|
                    candidates_view(c) == cs && #[trigger] search_resolved(
                        r,
                        resolve_spec(c),
                        headers_view(*h),
                        body@,
                        nested,
                        header_json,
                        opt_text(query),
                    ),
            },
        },
{
    let ghost hv = headers_view(*h);
    let ghost bv = body@;
    let ghost nested_in = nested;
    let ghost header_in = header_json;
    let ghost qv = opt_text(query);
    if !body.is_object() {
        return Err(Error::invalid("Search request must be a JSON object"));
    }
    let id_ok = match body.get("id") {
        Some(Json::Text(id)) => !is_blank(id.as_str()) && len_bytes(id.as_str()) <= 512 && !has_control(
            id.as_str(),
        ),
        _ => false,
    };
    if !id_ok {
        return Err(Error::invalid("Search requires a nonempty id of at most 512 bytes"));
    }
    let streams = match body.get("stream") {
        Some(Json::Bool(b)) => *b,
        Some(_) => true,
        None => false,
    };
    if streams {
        return Err(Error::invalid("Search returns a single JSON response; streaming is not supported"));
    }
    let long = match &query {
        Some(q) => len_bytes(q.as_str()) > 8192,
        None => false,
    };
    if long {
        return Err(Error::invalid("Search query string is too long"));
    }
    let betas = h.values("openai-beta");
    if betas.len() > 1 {
        return Err(Error::invalid("Duplicate OpenAI-Beta headers"));
    }
    assert(search_fault(hv, bv, qv) is None);
    let inspection = inspect(h, &body, ref_of(&nested), ref_of(&header_json), RequestKind::Search);
    let ghost c = inspection.fields@;
    let resolved = match inspection.resolved {
        Ok(Some(x)) => x,
        Ok(None) => {
            let r: Result<(ParsedRequest, SearchOptions)> = Err(Error::invalid("Search identity is missing"));
            assert(search_resolved(r, resolve_spec(c), hv, bv, nested_in, header_in, qv));
            return r;
        },
        Err(e) => {
            let r: Result<(ParsedRequest, SearchOptions)> = Err(e);
            assert(collect_spec(hv, bv, opt_view(nested_in), opt_view(header_in), RequestKind::Search) is Err
                || search_resolved(r, resolve_spec(c), hv, bv, nested_in, header_in, qv));
            return r;
        },
    };
    if !header_value_ok(resolved.session_id.as_str()) || !header_value_ok(resolved.thread_id.as_str()) {
        let r: Result<(ParsedRequest, SearchOptions)> = Err(Error::invalid("Invalid search identity"));
        assert(search_resolved(r, resolve_spec(c), hv, bv, nested_in, header_in, qv));
        return r;
    }
    let eh = without_identity_exec(h, resolved.session_id.as_str(), resolved.thread_id.as_str());
    let ghost ehv = headers_view(eh);
    let projection = projection_of(&body);
    let ghost pv = projection@;
    let inner = parse(&eh, projection, nested, header_json, RequestKind::Responses);
    let ghost inner_r = inner;
    let beta = first_value(&betas);
    let sig = signals(h, &body);
    let origin = detect(&sig);
    assert(origin_for(origin, sig));
    let present = body.get("client_metadata").is_some();
    let r: Result<(ParsedRequest, SearchOptions)> = match inner {
        Err(e) => Err(e),
        Ok(p) => {
            let mut p = p;
            p.kind = RequestKind::Search;
            p.compaction = None;
            p.client_origin = origin;
            p.client_metadata_present = present;
            p.document = body;
            assert(origin_for(p.client_origin, sig));
            Ok((p, SearchOptions { query, beta }))
        },
    };
    proof {
        assert(pv == search_projection(bv));
        lemma_search_after(inner_r, r, hv, bv, ehv, nested_in, header_in);
        assert(search_resolved(r, resolve_spec(c), hv, bv, nested_in, header_in, qv));
    }
    r
}

proof fn lemma_search_after(
    inner: Result<ParsedRequest>,
    r: Result<(ParsedRequest, SearchOptions)>,
    h: Seq<(Seq<char>, Seq<u8>)>,
    body: JsonView,
    eh: Seq<(Seq<char>, Seq<u8>)>,
    nested: Option<Json>,
    header_json: Option<Json>,
)
    requires
        match early_checks(eh, search_projection(body), nested, header_json, RequestKind::Responses) {
            Err(f) => inner matches Err(e) && plain_error(e, f.0, f.1, f.2),
            Ok((head, sources, method, cands)) => exists|c: Seq<Candidate>|
                candidates_view(c) == cands && #[trigger] outcome_after(
                    inner,
                    resolve_spec(c),
                    eh,
                    search_projection(body),
                    RequestKind::Responses,
                    head,
                    method,
                    sources,
                ),
        },
        inner is Err ==> r == match inner {
            Err(e) => Err::<(ParsedRequest, SearchOptions), Error>(e),
            Ok(_) => r,
        },
        inner matches Ok(p) ==> (r matches Ok(q) && q.0.model == p.model && q.0.stream == p.stream
            && q.0.stateless == p.stateless && q.0.session_id == p.session_id && q.0.thread_id
            == p.thread_id && q.0.turn_id == p.turn_id && q.0.requested_tier == p.requested_tier
            && q.0.reasoning_effort == p.reasoning_effort && q.0.client_turn_state
            == p.client_turn_state && q.0.kind == RequestKind::Search && q.0.compaction is None
            && q.0.document@ == body && q.0.client_metadata_present == body.get("client_metadata"@) is Some
            && exists|s: ClientSignals|
            signals_view(s) == signals_spec(h, body) && #[trigger] origin_for(q.0.client_origin, s)),
    ensures
        search_checked(parsed_part(r), h, body, eh, nested, header_json),
{
    let proj = search_projection(body);
    match early_checks(eh, proj, nested, header_json, RequestKind::Responses) {
        Err(f) => {},
        Ok((head, sources, method, cands)) => {
            let c = choose|c: Seq<Candidate>|
                candidates_view(c) == cands && #[trigger] outcome_after(
                    inner,
                    resolve_spec(c),
                    eh,
                    proj,
                    RequestKind::Responses,
                    head,
                    method,
                    sources,
                );
            assert(search_after(parsed_part(r), resolve_spec(c), h, body, eh, head, sources));
        },
    }
}

} // verus!
