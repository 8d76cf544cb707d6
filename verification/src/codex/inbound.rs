//! Accepting an inbound Responses or compaction request: its headers as they
//! arrived, its JSON body, and what the gateway keeps of it once every check
//! has passed. Turn metadata given as JSON text arrives already read as JSON.
use vstd::prelude::*;
use vstd::string::StringExecFns;
use vstd::utf8::{decode_utf8, encode_utf8, encode_utf8_decode_utf8};
use crate::clients::{ClientOrigin, ClientSource};
use crate::codex::client_source::{ClientSignals, MetadataFields, detect, fields_view, recognized};
use crate::codex::compaction::{operation, operation_spec};
use crate::codex::identity_input::{
    Candidate, RawValue, ResolvedIdentity, candidate, candidates_view, classify, classify_text,
    header_picks, metadata_candidates, metadata_picks, raw_json, raw_of, resolve, resolve_spec,
    resolved_view,
};
use crate::codex::ingress::{
    HeaderMetadata, RawView, coherent, ingress_spec, known_effort, metadata, metadata_spec,
    raw_views, reasoning_effort, request_head, request_head_spec, requested_tier,
    requested_tier_spec, text_views,
};
use crate::ids::{hyphenated, random_uuid};
use crate::json::{Json, JsonView, lemma_view_items, member, text_in, view_items};
use crate::protocol::{Compaction, CompactionMethod, RequestKind};
use crate::turn_state::{TurnStateHeader, TurnStateValue, MAX_BYTES, captured, value_view};
use crate::text::{byte_len, decimal, len_bytes, str_eq};
use crate::types::{Error, Result, plain_error};

verus! {

pub type CandidateView = (Seq<char>, Seq<char>, Seq<char>, Option<Seq<char>>, nat);

/// The headers of a request as they arrived: each name in lower case with
/// the bytes of one of its values, in order.
pub struct RequestHeaders {
    pub entries: Vec<(String, Vec<u8>)>,
}

pub open spec fn headers_view(h: RequestHeaders) -> Seq<(Seq<char>, Seq<u8>)> {
    h.entries@.map_values(|e: (String, Vec<u8>)| (e.0@, e.1@))
}

/// The values of the header `name`, in order.
pub open spec fn values_named(h: Seq<(Seq<char>, Seq<u8>)>, name: Seq<char>) -> Seq<Seq<u8>>
    decreases h.len(),
{
    if h.len() == 0 {
        Seq::empty()
    } else if h.last().0 == name {
        values_named(h.drop_last(), name).push(h.last().1)
    } else {
        values_named(h.drop_last(), name)
    }
}

pub open spec fn bytes_seq(v: Seq<Vec<u8>>) -> Seq<Seq<u8>> {
    v.map_values(|b: Vec<u8>| b@)
}

impl RequestHeaders {
    /// The values of the header `name`, in order.
    pub fn values(&self, name: &str) -> (r: Vec<Vec<u8>>)
        ensures
            bytes_seq(r@) == values_named(headers_view(*self), name@),
    {
        let ghost h = headers_view(*self);
        let mut out: Vec<Vec<u8>> = Vec::new();
        let mut i: usize = 0;
        while i < self.entries.len()
            invariant
                h == headers_view(*self),
                i <= self.entries@.len(),
                bytes_seq(out@) == values_named(h.take(i as int), name@),
            decreases self.entries@.len() - i,
        {
            proof {
                assert(h.take(i + 1).drop_last() =~= h.take(i as int));
                assert(h.take(i + 1).last() == h[i as int]);
            }
            if str_eq(self.entries[i].0.as_str(), name) {
                let b = self.entries[i].1.clone();
                proof {
                    assert(b@ =~= self.entries@[i as int].1@);
                    assert(bytes_seq(out@.push(b)) =~= bytes_seq(out@).push(b@));
                }
                out.push(b);
            }
            i = i + 1;
        }
        proof {
            assert(h.take(self.entries@.len() as int) =~= h);
        }
        out
    }
}

/// Bytes that `http::HeaderValue::to_str` accepts: visible ASCII and tabs.
pub open spec fn visible_ascii(b: Seq<u8>) -> bool {
    forall|i: int| 0 <= i < b.len() ==> (32 <= #[trigger] b[i] < 127 || b[i] == 9)
}

/// A header value as text, when it is visible ASCII.
pub open spec fn header_text(b: Seq<u8>) -> Option<Seq<char>> {
    if visible_ascii(b) {
        Some(decode_utf8(b))
    } else {
        None
    }
}

/// `http::HeaderValue::to_str` of a value's bytes: the same bytes as text
/// when each is visible ASCII or a tab.
#[verifier::external_body]
fn header_str(bytes: &[u8]) -> (r: Option<String>)
    ensures
        match r {
            Some(s) => visible_ascii(bytes@) && encode_utf8(s@) == bytes@,
            None => !visible_ascii(bytes@),
        },
{
    Some(http::HeaderValue::from_bytes(bytes).ok()?.to_str().ok()?.to_owned())
}

pub open spec fn ov(v: Option<String>) -> Option<Seq<char>> {
    match v {
        Some(x) => Some(x@),
        None => None,
    }
}

pub fn text_value(b: &Vec<u8>) -> (r: Option<String>)
    ensures
        ov(r) == header_text(b@),
{
    let r = header_str(b.as_slice());
    proof {
        if r is Some {
            encode_utf8_decode_utf8(r->0@);
        }
    }
    r
}

/// A header value read as an identity signal.
pub open spec fn classify_bytes(b: Seq<u8>) -> (Seq<char>, Option<Seq<char>>, nat) {
    match header_text(b) {
        Some(t) => classify_text(t),
        None => ("invalid_encoding"@, None, b.len()),
    }
}

fn raw_header(b: &Vec<u8>) -> (r: RawValue)
    ensures
        classify(r) == classify_bytes(b@),
{
    match text_value(b) {
        Some(t) => RawValue::Text(t),
        None => RawValue::Undecodable(b.len()),
    }
}

/// The candidates of a header's first `k` values, each read as `field`, its
/// source written as `headers.name[index]`.
pub open spec fn header_byte_picks(field: Seq<char>, name: Seq<char>, values: Seq<Seq<u8>>, k: int) -> Seq<
    CandidateView,
>
    decreases k,
{
    if k <= 0 {
        Seq::empty()
    } else {
        let c = classify_bytes(values[k - 1]);
        header_byte_picks(field, name, values, k - 1).push(
            (field, "headers."@ + name + "["@ + decimal((k - 1) as nat) + "]"@, c.0, c.1, c.2),
        )
    }
}

proof fn lemma_picks_agree(field: Seq<char>, name: Seq<char>, raws: Seq<RawValue>, values: Seq<Seq<u8>>, k: int)
    requires
        0 <= k <= raws.len(),
        k <= values.len(),
        forall|i: int| 0 <= i < k ==> #[trigger] classify(raws[i]) == classify_bytes(values[i]),
    ensures
        header_picks(field, name, raws, k) == header_byte_picks(field, name, values, k),
    decreases k,
{
    if k > 0 {
        lemma_picks_agree(field, name, raws, values, k - 1);
        assert(classify(raws[k - 1]) == classify_bytes(values[k - 1]));
    }
}

/// The header names that carry identity signals, each with its field.
pub open spec fn identity_header_names() -> Seq<(Seq<char>, Seq<char>)> {
    seq![
        ("session_id"@, "session-id"@),
        ("session_id"@, "session_id"@),
        ("thread_id"@, "thread-id"@),
        ("thread_id"@, "thread_id"@),
        ("conversation_id"@, "conversation-id"@),
        ("conversation_id"@, "conversation_id"@),
        ("window_id"@, "x-codex-window-id"@),
        ("installation_id"@, "x-codex-installation-id"@),
        ("parent_thread_id"@, "x-codex-parent-thread-id"@)
    ]
}

fn identity_header_name(k: usize) -> (r: (&'static str, &'static str))
    requires
        k < 9,
    ensures
        (r.0@, r.1@) == identity_header_names()[k as int],
{
    if k == 0 {
        ("session_id", "session-id")
    } else if k == 1 {
        ("session_id", "session_id")
    } else if k == 2 {
        ("thread_id", "thread-id")
    } else if k == 3 {
        ("thread_id", "thread_id")
    } else if k == 4 {
        ("conversation_id", "conversation-id")
    } else if k == 5 {
        ("conversation_id", "conversation_id")
    } else if k == 6 {
        ("window_id", "x-codex-window-id")
    } else if k == 7 {
        ("installation_id", "x-codex-installation-id")
    } else {
        ("parent_thread_id", "x-codex-parent-thread-id")
    }
}

/// The candidates of the first `k` identity headers, or the first header
/// that occurs more than four times.
pub open spec fn header_stage(h: Seq<(Seq<char>, Seq<u8>)>, k: int) -> core::result::Result<
    Seq<CandidateView>,
    Seq<char>,
>
    decreases k,
{
    if k <= 0 {
        Ok(Seq::empty())
    } else {
        match header_stage(h, k - 1) {
            Err(m) => Err(m),
            Ok(out) => {
                let (field, name) = identity_header_names()[k - 1];
                let vs = values_named(h, name);
                if vs.len() <= 4 {
                    Ok(out + header_byte_picks(field, name, vs, vs.len() as int))
                } else {
                    Err("Too many occurrences of "@ + name)
                }
            },
        }
    }
}

proof fn lemma_header_stage_stops(h: Seq<(Seq<char>, Seq<u8>)>, k: int, j: int)
    requires
        0 <= k <= j,
        header_stage(h, k) is Err,
    ensures
        header_stage(h, j) == header_stage(h, k),
    decreases j - k,
{
    if k < j {
        lemma_header_stage_stops(h, k, j - 1);
    }
}

pub const NESTED_SOURCE: &'static str = "body.client_metadata.x-codex-turn-metadata";

pub const HEADER_SOURCE: &'static str = "headers.x-codex-turn-metadata";

pub open spec fn opt_view(o: Option<Json>) -> Option<JsonView> {
    match o {
        Some(j) => Some(j@),
        None => None,
    }
}

/// The turn metadata of a source: JSON text of at most 128 KiB that `parsed`
/// holds the JSON of, which must be an object.
pub open spec fn turn_metadata_picks(
    out: Seq<CandidateView>,
    text: Seq<char>,
    parsed: Option<JsonView>,
    source: Seq<char>,
) -> core::result::Result<Seq<CandidateView>, Seq<char>> {
    if byte_len(text) > 128 * 1024 {
        Err(source + " exceeds 128 KiB"@)
    } else {
        match parsed {
            None => Err(source + " is not valid JSON"@),
            Some(j) => if j is Object {
                Ok(out + metadata_picks(j, source, 17))
            } else {
                Err(source + " must be a JSON object"@)
            },
        }
    }
}

/// The candidates of the body's client metadata and of the turn metadata
/// nested in it, whose text `nested` holds the JSON of.
pub open spec fn body_metadata_stage(
    out: Seq<CandidateView>,
    body: JsonView,
    nested: Option<JsonView>,
) -> core::result::Result<Seq<CandidateView>, Seq<char>> {
    match body.get("client_metadata"@) {
        None => Ok(out),
        Some(meta) => if !(meta is Object) {
            Err("body.client_metadata"@ + " must be a JSON object"@)
        } else {
            let with_meta = out + metadata_picks(meta, "body.client_metadata"@, 17);
            match meta.get("x-codex-turn-metadata"@) {
                None => Ok(with_meta),
                Some(JsonView::Text(t)) => turn_metadata_picks(with_meta, t, nested, NESTED_SOURCE@),
                Some(_) => Err(NESTED_SOURCE@ + " must be a JSON string"@),
            }
        },
    }
}

/// The candidates of the turn metadata header, whose text `parsed` holds the
/// JSON of.
pub open spec fn header_metadata_stage(
    out: Seq<CandidateView>,
    h: Seq<(Seq<char>, Seq<u8>)>,
    parsed: Option<JsonView>,
) -> core::result::Result<Seq<CandidateView>, Seq<char>> {
    let vs = values_named(h, "x-codex-turn-metadata"@);
    if vs.len() == 0 {
        Ok(out)
    } else if vs.len() != 1 {
        Err("Duplicate x-codex-turn-metadata headers"@)
    } else {
        match header_text(vs[0]) {
            None => Err("Invalid x-codex-turn-metadata encoding"@),
            Some(t) => turn_metadata_picks(out, t, parsed, HEADER_SOURCE@),
        }
    }
}

/// The prompt cache key, and for a search the search identifier.
pub open spec fn body_signal_stage(out: Seq<CandidateView>, body: JsonView, kind: RequestKind) -> Seq<
    CandidateView,
> {
    let with_cache = match body.get("prompt_cache_key"@) {
        Some(v) => {
            let c = raw_json(v);
            out.push(("prompt_cache_key"@, "body.prompt_cache_key"@, c.0, c.1, c.2))
        },
        None => out,
    };
    match (kind, body.get("id"@)) {
        (RequestKind::Search, Some(v)) => {
            let c = raw_json(v);
            with_cache.push(("search_id"@, "body.id"@, c.0, c.1, c.2))
        },
        _ => with_cache,
    }
}

/// The identity candidates of a request, in the order they are reported, or
/// the first fault.
pub open spec fn collect_spec(
    h: Seq<(Seq<char>, Seq<u8>)>,
    body: JsonView,
    nested: Option<JsonView>,
    header_json: Option<JsonView>,
    kind: RequestKind,
) -> core::result::Result<Seq<CandidateView>, Seq<char>> {
    match header_stage(h, 9) {
        Err(m) => Err(m),
        Ok(a) => match body_metadata_stage(a, body, nested) {
            Err(m) => Err(m),
            Ok(b) => match header_metadata_stage(b, h, header_json) {
                Err(m) => Err(m),
                Ok(c) => Ok(body_signal_stage(c, body, kind)),
            },
        },
    }
}


pub open spec fn ref_view(o: Option<&Json>) -> Option<JsonView> {
    match o {
        Some(j) => Some(j@),
        None => None,
    }
}

fn invalid_at(source: &str, what: &str) -> (r: Error)
    ensures
        plain_error(r, 400, "invalid_request"@, source@ + what@),
{
    let m = String::from_str(source).concat(what);
    Error::invalid(m.as_str())
}

fn push_candidate(out: &mut Vec<Candidate>, c: Candidate)
    ensures
        candidates_view(final(out)@) == candidates_view(old(out)@).push(
            (c.field@, c.source@, c.status@, crate::codex::identity_input::ov(c.value), c.bytes as nat),
        ),
{
    proof {
        assert(candidates_view(old(out)@.push(c)) =~= candidates_view(old(out)@).push(
            (c.field@, c.source@, c.status@, crate::codex::identity_input::ov(c.value), c.bytes as nat),
        ));
    }
    out.push(c);
}

fn header_values_as_signals(vs: &Vec<Vec<u8>>) -> (r: Vec<RawValue>)
    ensures
        r@.len() == vs@.len(),
        forall|j: int| 0 <= j < vs@.len() ==> #[trigger] classify(r@[j]) == classify_bytes(vs@[j]@),
{
    let mut raws: Vec<RawValue> = Vec::new();
    let mut i: usize = 0;
    while i < vs.len()
        invariant
            i <= vs@.len(),
            raws@.len() == i,
            forall|j: int| 0 <= j < i ==> #[trigger] classify(raws@[j]) == classify_bytes(vs@[j]@),
        decreases vs@.len() - i,
    {
        raws.push(raw_header(&vs[i]));
        i = i + 1;
    }
    raws
}

fn header_stage_exec(out: &mut Vec<Candidate>, h: &RequestHeaders) -> (r: Result<()>)
    requires
        old(out)@.len() == 0,
    ensures
        match header_stage(headers_view(*h), 9) {
            Ok(cs) => r is Ok && candidates_view(final(out)@) == cs,
            Err(m) => r matches Err(e) && plain_error(e, 400, "invalid_request"@, m),
        },
{
    let ghost hv = headers_view(*h);
    proof {
        assert(candidates_view(out@) =~= Seq::<CandidateView>::empty());
    }
    let mut k: usize = 0;
    while k < 9
        invariant
            hv == headers_view(*h),
            k <= 9,
            header_stage(hv, k as int) == Ok::<Seq<CandidateView>, Seq<char>>(candidates_view(out@)),
        decreases 9 - k,
    {
        let (field, name) = identity_header_name(k);
        let vs = h.values(name);
        let raws = header_values_as_signals(&vs);
        proof {
            let bs = bytes_seq(vs@);
            assert(forall|j: int| 0 <= j < raws@.len() ==> #[trigger] classify(raws@[j]) == classify_bytes(bs[j]));
            lemma_picks_agree(field@, name@, raws@, bs, raws@.len() as int);
        }
        match crate::codex::identity_input::header_candidates(out, field, name, &raws) {
            Ok(()) => {},
            Err(e) => {
                proof {
                    assert(header_stage(hv, k + 1) is Err);
                    lemma_header_stage_stops(hv, k + 1, 9);
                }
                return Err(e);
            },
        }
        k = k + 1;
    }
    Ok(())
}

fn turn_metadata_exec(out: &mut Vec<Candidate>, text: &str, parsed: Option<&Json>, source: &str) -> (r: Result<()>)
    ensures
        match turn_metadata_picks(candidates_view(old(out)@), text@, ref_view(parsed), source@) {
            Ok(cs) => r is Ok && candidates_view(final(out)@) == cs,
            Err(m) => r matches Err(e) && plain_error(e, 400, "invalid_request"@, m),
        },
{
    if len_bytes(text) > 128 * 1024 {
        return Err(invalid_at(source, " exceeds 128 KiB"));
    }
    match parsed {
        None => Err(invalid_at(source, " is not valid JSON")),
        Some(j) => metadata_candidates(out, j, source),
    }
}

/// The identity candidates of a request; see `collect_spec`. `nested` and
/// `header_json` are what the texts of the nested turn metadata and of the
/// turn metadata header read as JSON.
pub fn collect(
    h: &RequestHeaders,
    body: &Json,
    nested: Option<&Json>,
    header_json: Option<&Json>,
    kind: RequestKind,
) -> (r: Result<Vec<Candidate>>)
    ensures
        match collect_spec(headers_view(*h), body@, ref_view(nested), ref_view(header_json), kind) {
            Ok(cs) => r matches Ok(v) && candidates_view(v@) == cs,
            Err(m) => r matches Err(e) && plain_error(e, 400, "invalid_request"@, m),
        },
{
    let mut out: Vec<Candidate> = Vec::new();
    match header_stage_exec(&mut out, h) {
        Ok(()) => {},
        Err(e) => {
            return Err(e);
        },
    }
    let ghost a = candidates_view(out@);
    match body.get("client_metadata") {
        None => {},
        Some(meta) => {
            match metadata_candidates(&mut out, meta, "body.client_metadata") {
                Ok(()) => {},
                Err(e) => {
                    return Err(e);
                },
            }
            match meta.get("x-codex-turn-metadata") {
                None => {},
                Some(Json::Text(t)) => {
                    match turn_metadata_exec(&mut out, t.as_str(), nested, NESTED_SOURCE) {
                        Ok(()) => {},
                        Err(e) => {
                            return Err(e);
                        },
                    }
                },
                Some(_) => {
                    return Err(invalid_at(NESTED_SOURCE, " must be a JSON string"));
                },
            }
        },
    }
    assert(body_metadata_stage(a, body@, ref_view(nested)) == Ok::<Seq<CandidateView>, Seq<char>>(candidates_view(out@)));
    let ghost b = candidates_view(out@);
    let vs = h.values("x-codex-turn-metadata");
    if vs.len() > 0 {
        if vs.len() != 1 {
            return Err(Error::invalid("Duplicate x-codex-turn-metadata headers"));
        }
        match text_value(&vs[0]) {
            None => {
                return Err(Error::invalid("Invalid x-codex-turn-metadata encoding"));
            },
            Some(t) => {
                match turn_metadata_exec(&mut out, t.as_str(), header_json, HEADER_SOURCE) {
                    Ok(()) => {},
                    Err(e) => {
                        return Err(e);
                    },
                }
            },
        }
    }
    assert(header_metadata_stage(b, headers_view(*h), ref_view(header_json)) == Ok::<Seq<CandidateView>, Seq<char>>(candidates_view(out@)));
    let ghost c = candidates_view(out@);
    match body.get("prompt_cache_key") {
        Some(v) => {
            let x = candidate("prompt_cache_key", String::from_str("body.prompt_cache_key"), &raw_of(v));
            push_candidate(&mut out, x);
        },
        None => {},
    }
    if kind == RequestKind::Search {
        match body.get("id") {
            Some(v) => {
                let x = candidate("search_id", String::from_str("body.id"), &raw_of(v));
                push_candidate(&mut out, x);
            },
            None => {},
        }
    }
    assert(body_signal_stage(c, body@, kind) == candidates_view(out@));
    Ok(out)
}


// ---------------------------------------------------------------------------
// The whole request
// ---------------------------------------------------------------------------

/// The texts of the values of a header, `None` for a value that is not
/// visible ASCII.
pub open spec fn header_texts(h: Seq<(Seq<char>, Seq<u8>)>, name: Seq<char>) -> Seq<Option<Seq<char>>> {
    values_named(h, name).map_values(|b: Seq<u8>| header_text(b))
}

/// The text of the first value of a header.
pub open spec fn first_text(h: Seq<(Seq<char>, Seq<u8>)>, name: Seq<char>) -> Option<Seq<char>> {
    let vs = values_named(h, name);
    if vs.len() == 0 {
        None
    } else {
        header_text(vs[0])
    }
}

impl RequestHeaders {
    pub fn texts(&self, name: &str) -> (r: Vec<Option<String>>)
        ensures
            text_views(r@) == header_texts(headers_view(*self), name@),
    {
        let vs = self.values(name);
        let ghost bs = bytes_seq(vs@);
        let mut out: Vec<Option<String>> = Vec::new();
        let mut i: usize = 0;
        while i < vs.len()
            invariant
                bs == bytes_seq(vs@),
                i <= vs@.len(),
                text_views(out@) =~= bs.take(i as int).map_values(|b: Seq<u8>| header_text(b)),
            decreases vs@.len() - i,
        {
            let t = text_value(&vs[i]);
            proof {
                assert(text_views(out@.push(t)) =~= text_views(out@).push(ov(t)));
                assert(bs.take(i + 1).map_values(|b: Seq<u8>| header_text(b)) =~= bs.take(i as int).map_values(
                    |b: Seq<u8>| header_text(b),
                ).push(header_text(bs[i as int])));
            }
            out.push(t);
            i = i + 1;
        }
        proof {
            assert(bs.take(vs@.len() as int) =~= bs);
        }
        out
    }

    /// The text of the first value of a header.
    pub fn first_text(&self, name: &str) -> (r: Option<String>)
        ensures
            ov(r) == first_text(headers_view(*self), name@),
    {
        let vs = self.values(name);
        if vs.len() == 0 {
            None
        } else {
            text_value(&vs[0])
        }
    }
}

/// The string members of a client metadata object that client recognition
/// reads.
pub open spec fn metadata_fields_spec(m: JsonView) -> Seq<Option<Seq<char>>> {
    seq![
        text_in(m.get("session_id"@)),
        text_in(m.get("thread_id"@)),
        text_in(m.get("turn_id"@)),
        text_in(m.get("installation_id"@)),
        text_in(m.get("x-codex-installation-id"@)),
        text_in(m.get("window_id"@)),
        text_in(m.get("x-codex-window-id"@)),
    ]
}

fn text_member(m: &Json, key: &str) -> (r: Option<String>)
    ensures
        ov(r) == text_in(m@.get(key@)),
{
    match m.get_str(key) {
        Some(s) => Some(s.to_owned()),
        None => None,
    }
}

/// The views of what the client recognizers read.
pub open spec fn signals_view(s: ClientSignals) -> (
    Option<Seq<char>>,
    Option<Seq<char>>,
    Option<Seq<char>>,
    Option<Seq<Option<Seq<char>>>>,
) {
    (
        ov(s.user_agent),
        ov(s.header_turn_metadata),
        ov(s.body_turn_metadata),
        match s.client_metadata {
            Some(m) => Some(fields_view(m)),
            None => None,
        },
    )
}

/// What the client recognizers read of a request: the first user agent and
/// turn metadata header values as text, the turn metadata nested in the
/// body's client metadata when it is a string, and the client metadata when
/// it is an object.
pub open spec fn signals_spec(h: Seq<(Seq<char>, Seq<u8>)>, body: JsonView) -> (
    Option<Seq<char>>,
    Option<Seq<char>>,
    Option<Seq<char>>,
    Option<Seq<Option<Seq<char>>>>,
) {
    (
        first_text(h, "user-agent"@),
        first_text(h, "x-codex-turn-metadata"@),
        text_in(member(body.get("client_metadata"@), "x-codex-turn-metadata"@)),
        match body.get("client_metadata"@) {
            Some(m) => if m is Object {
                Some(metadata_fields_spec(m))
            } else {
                None
            },
            None => None,
        },
    )
}

pub fn signals(h: &RequestHeaders, body: &Json) -> (r: ClientSignals)
    ensures
        signals_view(r) == signals_spec(headers_view(*h), body@),
{
    let meta = body.get("client_metadata");
    let body_turn_metadata = match meta {
        Some(m) => text_member(m, "x-codex-turn-metadata"),
        None => None,
    };
    let client_metadata = match meta {
        Some(m) => if m.is_object() {
            let f = MetadataFields {
                session_id: text_member(m, "session_id"),
                thread_id: text_member(m, "thread_id"),
                turn_id: text_member(m, "turn_id"),
                installation_id: text_member(m, "installation_id"),
                x_codex_installation_id: text_member(m, "x-codex-installation-id"),
                window_id: text_member(m, "window_id"),
                x_codex_window_id: text_member(m, "x-codex-window-id"),
            };
            assert(fields_view(f) =~= metadata_fields_spec(m@));
            Some(f)
        } else {
            None
        },
        None => None,
    };
    ClientSignals {
        user_agent: h.first_text("user-agent"),
        header_turn_metadata: h.first_text("x-codex-turn-metadata"),
        body_turn_metadata,
        client_metadata,
    }
}

/// The origin that recognition gives for these signals.
pub open spec fn origin_for(o: ClientOrigin, s: ClientSignals) -> bool {
    match recognized(s) {
        Some((rule, path)) => o.source == ClientSource::Codex && o.rule@ == rule && o.evidence@.len()
            == 1 && o.evidence@[0]@ == path && o.version == 1,
        None => o.source == ClientSource::Unknown && o.evidence@.len() == 0 && o.rule@
            == "unrecognized"@ && o.version == 1,
    }
}

/// A JSON value read as an identity signal.
pub open spec fn json_raw(v: JsonView) -> RawView {
    match v {
        JsonView::Null => RawView::Null,
        JsonView::Text(t) => RawView::Text(t),
        _ => RawView::Other,
    }
}

/// The values that the metadata sources give `field`, in order.
pub open spec fn field_raws(sources: Seq<JsonView>, field: Seq<char>) -> Seq<RawView>
    decreases sources.len(),
{
    if sources.len() == 0 {
        Seq::empty()
    } else {
        match sources.last().get(field) {
            Some(v) => field_raws(sources.drop_last(), field).push(json_raw(v)),
            None => field_raws(sources.drop_last(), field),
        }
    }
}

fn field_raws_exec(sources: &Vec<Json>, field: &str) -> (r: Vec<RawValue>)
    ensures
        raw_views(r@) == field_raws(view_items(sources@), field@),
{
    proof {
        lemma_view_items(sources@);
    }
    let ghost all = view_items(sources@);
    let mut out: Vec<RawValue> = Vec::new();
    let mut i: usize = 0;
    while i < sources.len()
        invariant
            all == view_items(sources@),
            all.len() == sources@.len(),
            forall|k: int| 0 <= k < all.len() ==> #[trigger] all[k] == sources@[k]@,
            i <= sources@.len(),
            raw_views(out@) == field_raws(all.take(i as int), field@),
        decreases sources@.len() - i,
    {
        proof {
            assert(all.take(i + 1).drop_last() =~= all.take(i as int));
            assert(all.take(i + 1).last() == sources@[i as int]@);
        }
        match sources[i].get(field) {
            Some(v) => {
                let ghost before = out@;
                out.push(match v {
                    Json::Null => RawValue::Null,
                    Json::Text(t) => RawValue::Text(t.clone()),
                    _ => RawValue::Other,
                });
                proof {
                    assert(raw_views(out@) =~= raw_views(before).push(json_raw(v@)));
                }
            },
            None => {},
        }
        i = i + 1;
    }
    proof {
        assert(all.take(sources@.len() as int) =~= all);
    }
    out
}

/// The identity fields that must agree between their headers and the
/// request's metadata, each with its header.
pub open spec fn agreement_fields() -> Seq<(Seq<char>, Option<Seq<char>>)> {
    seq![
        ("window_id"@, Some("x-codex-window-id"@)),
        ("installation_id"@, Some("x-codex-installation-id"@)),
        ("parent_thread_id"@, Some("x-codex-parent-thread-id"@)),
        ("context_window_id"@, None),
        ("forked_from_thread_id"@, None),
        ("parent_turn_id"@, None),
        ("root_turn_id"@, None)
    ]
}

fn agreement_field(k: usize) -> (r: (&'static str, Option<&'static str>))
    requires
        k < 7,
    ensures
        (r.0@, match r.1 {
            Some(n) => Some(n@),
            None => None,
        }) == agreement_fields()[k as int],
{
    if k == 0 {
        ("window_id", Some("x-codex-window-id"))
    } else if k == 1 {
        ("installation_id", Some("x-codex-installation-id"))
    } else if k == 2 {
        ("parent_thread_id", Some("x-codex-parent-thread-id"))
    } else if k == 3 {
        ("context_window_id", None)
    } else if k == 4 {
        ("forked_from_thread_id", None)
    } else if k == 5 {
        ("parent_turn_id", None)
    } else {
        ("root_turn_id", None)
    }
}

pub type Fault = (u16, Seq<char>, Seq<char>);

/// The first of the first `k` agreement fields whose values do not agree.
pub open spec fn agreement_fault(h: Seq<(Seq<char>, Seq<u8>)>, sources: Seq<JsonView>, k: int) -> Option<Fault>
    decreases k,
{
    if k <= 0 {
        None
    } else {
        match agreement_fault(h, sources, k - 1) {
            Some(f) => Some(f),
            None => {
                let (field, header) = agreement_fields()[k - 1];
                let hv = match header {
                    Some(n) => header_texts(h, n),
                    None => Seq::empty(),
                };
                match ingress_spec(hv, field_raws(sources, field)) {
                    Err(f) => Some(f),
                    Ok(_) => None,
                }
            },
        }
    }
}

proof fn lemma_agreement_stops(h: Seq<(Seq<char>, Seq<u8>)>, sources: Seq<JsonView>, k: int, j: int)
    requires
        0 <= k <= j,
        agreement_fault(h, sources, k) is Some,
    ensures
        agreement_fault(h, sources, j) == agreement_fault(h, sources, k),
    decreases j - k,
{
    if k < j {
        lemma_agreement_stops(h, sources, k, j - 1);
    }
}

/// The turn metadata header as the metadata sources read it.
pub open spec fn header_metadata_of(h: Seq<(Seq<char>, Seq<u8>)>, header_json: Option<Json>) -> HeaderMetadata {
    let n = values_named(h, "x-codex-turn-metadata"@).len();
    if n == 0 {
        HeaderMetadata::Absent
    } else if n > 1 {
        HeaderMetadata::Repeated
    } else {
        HeaderMetadata::Present(header_json)
    }
}

/// What the gateway keeps of an accepted request.
pub struct ParsedRequest {
    pub client_turn_state: TurnStateHeader,
    pub client_origin: ClientOrigin,
    pub client_metadata_present: bool,
    pub stateless: bool,
    pub kind: RequestKind,
    pub compaction: Option<Compaction>,
    pub session_id: String,
    pub thread_id: String,
    pub turn_id: Option<String>,
    pub model: String,
    pub stream: bool,
    pub requested_tier: Option<String>,
    pub reasoning_effort: Option<String>,
    pub document: Json,
}

/// The turn state header as it is recorded.
pub open spec fn turn_state_of(t: TurnStateHeader, raw: Seq<Seq<u8>>) -> bool {
    &&& t.present == (raw.len() != 0)
    &&& t.total_values == raw.len()
    &&& t.values@.map_values(|v: TurnStateValue| value_view(v)) == captured(raw, 0, MAX_BYTES as int)
    &&& t.omitted_values == raw.len() - t.values@.len()
}

/// The reasoning effort kept: a known effort level, never other content.
pub open spec fn effort_of(body: JsonView) -> Option<Seq<char>> {
    match text_in(member(body.get("reasoning"@), "effort"@)) {
        Some(e) => if known_effort(e) {
            Some(e)
        } else {
            None
        },
        None => None,
    }
}

/// The checks of a request before its identity is resolved: the body's
/// parameters, its metadata sources, its compaction operation and its
/// identity candidates. Gives the model, the stream flag, the sources, the
/// compaction method and the candidates.
pub open spec fn early_checks(
    h: Seq<(Seq<char>, Seq<u8>)>,
    body: JsonView,
    nested: Option<Json>,
    header_json: Option<Json>,
    kind: RequestKind,
) -> core::result::Result<
    ((Seq<char>, bool), Seq<JsonView>, Option<CompactionMethod>, Seq<CandidateView>),
    Fault,
> {
    match request_head_spec(body, kind) {
        Err(f) => Err(f),
        Ok(head) => match metadata_spec(body, opt_view(nested), header_metadata_of(h, header_json)) {
            Err(m) => Err((400, "invalid_request"@, m)),
            Ok(sources) => match operation_spec(body, sources, kind) {
                Err(f) => Err(f),
                Ok(method) => match collect_spec(h, body, opt_view(nested), opt_view(header_json), kind) {
                    Err(m) => Err((400, "invalid_request"@, m)),
                    Ok(cands) => Ok((head, sources, method, cands)),
                },
            },
        },
    }
}

/// The checks after the identity is resolved: the turn identifier, the
/// agreement of the other identity fields, and the service tier. Gives the
/// turn identifier and the tier.
pub open spec fn late_checks(
    h: Seq<(Seq<char>, Seq<u8>)>,
    body: JsonView,
    sources: Seq<JsonView>,
) -> core::result::Result<(Option<Seq<char>>, Option<Seq<char>>), Fault> {
    match ingress_spec(Seq::empty(), field_raws(sources, "turn_id"@)) {
        Err(f) => Err(f),
        Ok(turn) => match agreement_fault(h, sources, 7) {
            Some(f) => Err(f),
            None => match requested_tier_spec(body) {
                Err(m) => Err((400, "invalid_request"@, m)),
                Ok(tier) => Ok((turn, tier)),
            },
        },
    }
}

pub open spec fn opt_text(o: Option<String>) -> Option<Seq<char>> {
    match o {
        Some(s) => Some(s@),
        None => None,
    }
}

/// What an accepted request keeps, given the outcome of its checks.
pub open spec fn accepted(
    p: ParsedRequest,
    h: Seq<(Seq<char>, Seq<u8>)>,
    body: JsonView,
    kind: RequestKind,
    head: (Seq<char>, bool),
    method: Option<CompactionMethod>,
    resolved: Option<(Seq<char>, Seq<char>, Seq<Seq<char>>, Seq<Seq<char>>)>,
    late: (Option<Seq<char>>, Option<Seq<char>>),
) -> bool {
    &&& p.model@ == head.0
    &&& p.stream == head.1
    &&& p.kind == kind
    &&& p.document@ == body
    &&& p.client_metadata_present == body.get("client_metadata"@) is Some
    &&& match (p.compaction, method) {
        (Some(c), Some(m)) => c.method == m && c.output_observed is None,
        (None, None) => true,
        _ => false,
    }
    &&& p.stateless == resolved is None
    &&& match resolved {
        Some(x) => p.session_id@ == x.0 && p.thread_id@ == x.1,
        None => p.session_id@ == p.thread_id@,
    }
    &&& opt_text(p.turn_id) == late.0
    &&& opt_text(p.requested_tier) == late.1
    &&& opt_text(p.reasoning_effort) == effort_of(body)
    &&& turn_state_of(p.client_turn_state, values_named(h, "x-codex-turn-state"@))
    &&& exists|s: ClientSignals|
        signals_view(s) == signals_spec(h, body) && #[trigger] origin_for(p.client_origin, s)
}



/// What a request yields once its early checks passed, given how its
/// identity resolved.
pub open spec fn outcome_after(
    r: Result<ParsedRequest>,
    resolution: core::result::Result<Option<(Seq<char>, Seq<char>, Seq<Seq<char>>, Seq<Seq<char>>)>, Fault>,
    h: Seq<(Seq<char>, Seq<u8>)>,
    body: JsonView,
    kind: RequestKind,
    head: (Seq<char>, bool),
    method: Option<CompactionMethod>,
    sources: Seq<JsonView>,
) -> bool {
    match resolution {
        Err(f) => r matches Err(e) && plain_error(e, f.0, f.1, f.2),
        Ok(resolved) => match late_checks(h, body, sources) {
            Err(f) => r matches Err(e) && plain_error(e, f.0, f.1, f.2),
            Ok(late) => r matches Ok(p) && accepted(p, h, body, kind, head, method, resolved, late),
        },
    }
}

pub(crate) fn ref_of(o: &Option<Json>) -> (r: Option<&Json>)
    ensures
        ref_view(r) == opt_view(*o),
{
    match o {
        Some(j) => Some(j),
        None => None,
    }
}

/// Accepts a Responses or compaction request: the faults of `early_checks`
/// first, then those of resolving its identity, then those of `late_checks`;
/// an accepted request keeps what `accepted` states. `nested` and
/// `header_json` are what the texts of the turn metadata nested in the body
/// and of the turn metadata header read as JSON. A request that states no
/// identity is stateless and gets a fresh one.
#[verifier::loop_isolation(false)]
#[verifier::rlimit(60)]
pub fn parse(
    h: &RequestHeaders,
    body: Json,
    nested: Option<Json>,
    header_json: Option<Json>,
    kind: RequestKind,
) -> (r: Result<ParsedRequest>)
    ensures
        match early_checks(headers_view(*h), body@, nested, header_json, kind) {
            Err(f) => r matches Err(e) && plain_error(e, f.0, f.1, f.2),
            Ok((head, sources, method, cands)) => exists|c: Seq<Candidate>|
                candidates_view(c) == cands && #[trigger] outcome_after(
                    r,
                    resolve_spec(c),
                    headers_view(*h),
                    body@,
                    kind,
                    head,
                    method,
                    sources,
                ),
        },
{
    let ghost hv = headers_view(*h);
    let ghost bv = body@;
    let ghost nested_in = nested;
    let ghost header_in = header_json;
    let sig = signals(h, &body);
    let client_origin = detect(&sig);
    let client_metadata_present = body.get("client_metadata").is_some();
    let (model, stream) = match request_head(&body, kind) {
        Ok(x) => x,
        Err(e) => {
            return Err(e);
        },
    };
    let collected = collect(h, &body, ref_of(&nested), ref_of(&header_json), kind);
    let turn_values = h.values("x-codex-turn-metadata");
    let header = if turn_values.len() == 0 {
        HeaderMetadata::Absent
    } else if turn_values.len() > 1 {
        HeaderMetadata::Repeated
    } else {
        HeaderMetadata::Present(header_json)
    };
    assert(header == header_metadata_of(hv, header_json));
    let sources = match metadata(&body, nested, header) {
        Ok(s) => s,
        Err(e) => {
            return Err(e);
        },
    };
    let ghost sv = view_items(sources@);
    let compaction = match operation(&body, &sources, kind) {
        Ok(c) => c,
        Err(e) => {
            return Err(e);
        },
    };
    let cands = match collected {
        Ok(c) => c,
        Err(e) => {
            return Err(e);
        },
    };
    let ghost head = (model@, stream);
    let ghost method = operation_spec(bv, sv, kind)->Ok_0;
    proof {
        let ec = early_checks(hv, bv, nested_in, header_in, kind);
        assert(ec is Ok);
        assert(ec->Ok_0.0 == head);
        assert(ec->Ok_0.1 =~= sv);
        assert(ec->Ok_0.2 == method);
        assert(ec->Ok_0.3 =~= candidates_view(cands@));
    }
    let resolved = match resolve(&cands) {
        Ok(x) => x,
        Err(e) => {
            let r: Result<ParsedRequest> = Err(e);
            assert(outcome_after(r, resolve_spec(cands@), hv, bv, kind, head, method, sv));
            return r;
        },
    };
    let stateless = resolved.is_none();
    let (session_id, thread_id) = match resolved {
        Some(x) => (x.session_id, x.thread_id),
        None => {
            let id = hyphenated(random_uuid());
            (id.clone(), id)
        },
    };
    let no_headers: Vec<Option<String>> = Vec::new();
    proof {
        assert(text_views(no_headers@) =~= Seq::<Option<Seq<char>>>::empty());
    }
    let turn_id = match coherent(&no_headers, &field_raws_exec(&sources, "turn_id")) {
        Ok(t) => t,
        Err(e) => {
            let r: Result<ParsedRequest> = Err(e);
            assert(outcome_after(r, resolve_spec(cands@), hv, bv, kind, head, method, sv));
            return r;
        },
    };
    let mut k: usize = 0;
    while k < 7
        invariant
            k <= 7,
            agreement_fault(hv, sv, k as int) is None,
        decreases 7 - k,
    {
        let (field, header_name) = agreement_field(k);
        let texts = match header_name {
            Some(n) => h.texts(n),
            None => {
                let v: Vec<Option<String>> = Vec::new();
                assert(text_views(v@) =~= Seq::<Option<Seq<char>>>::empty());
                v
            },
        };
        match coherent(&texts, &field_raws_exec(&sources, field)) {
            Ok(_) => {},
            Err(e) => {
                proof {
                    assert(agreement_fault(hv, sv, k + 1) is Some);
                    lemma_agreement_stops(hv, sv, k + 1, 7);
                }
                let r: Result<ParsedRequest> = Err(e);
                assert(outcome_after(r, resolve_spec(cands@), hv, bv, kind, head, method, sv));
                return r;
            },
        }
        k = k + 1;
    }
    let tier = match requested_tier(&body) {
        Ok(t) => t,
        Err(e) => {
            let r: Result<ParsedRequest> = Err(e);
            assert(outcome_after(r, resolve_spec(cands@), hv, bv, kind, head, method, sv));
            return r;
        },
    };
    let effort = reasoning_effort(&body);
    let states = h.values("x-codex-turn-state");
    let client_turn_state = TurnStateHeader::capture(&states);
    proof {
        assert(states@.map_values(|b: Vec<u8>| b@) =~= bytes_seq(states@));
    }
    let p = ParsedRequest {
        client_turn_state,
        client_origin,
        client_metadata_present,
        stateless,
        kind,
        compaction,
        session_id,
        thread_id,
        turn_id,
        model,
        stream,
        requested_tier: tier,
        reasoning_effort: effort,
        document: body,
    };
    let r: Result<ParsedRequest> = Ok(p);
    assert(origin_for(p.client_origin, sig));
    assert(outcome_after(r, resolve_spec(cands@), hv, bv, kind, head, method, sv));
    r
}


/// The identity a request states, with the candidates it was resolved from.
/// Where the candidates cannot be gathered, `fields` is empty.
pub struct Inspection {
    pub resolved: Result<Option<ResolvedIdentity>>,
    pub fields: Vec<Candidate>,
}

/// Gathers the identity candidates of a request and resolves them.
pub fn inspect(
    h: &RequestHeaders,
    body: &Json,
    nested: Option<&Json>,
    header_json: Option<&Json>,
    kind: RequestKind,
) -> (r: Inspection)
    ensures
        match collect_spec(headers_view(*h), body@, ref_view(nested), ref_view(header_json), kind) {
            Err(m) => r.fields@.len() == 0 && (r.resolved matches Err(e) && plain_error(
                e,
                400,
                "invalid_request"@,
                m,
            )),
            Ok(cs) => candidates_view(r.fields@) == cs && match resolve_spec(r.fields@) {
                Ok(x) => r.resolved matches Ok(v) && resolved_view(v) == x,
                Err(f) => r.resolved matches Err(e) && plain_error(e, f.0, f.1, f.2),
            },
        },
{
    match collect(h, body, nested, header_json, kind) {
        Ok(fields) => Inspection { resolved: resolve(&fields), fields },
        Err(e) => Inspection { resolved: Err(e), fields: Vec::new() },
    }
}

} // verus!
