//! Ingress checks of a Responses request: the body's parameters, the
//! metadata sources it carries, and agreement between identity headers and
//! the same fields in that metadata.
use vstd::prelude::*;
use crate::codex::identity_input::RawValue;
use crate::text::{byte_len, has_control, has_control_spec, len_bytes, str_eq};
use crate::types::{Error, Result, plain_error};
use crate::json::{Json, JsonView, lemma_view_members, lemma_view_items, text_in, member, view_json, view_members, view_items};
use crate::protocol::RequestKind;

verus! {

/// A signal as the view of what was read.
pub enum RawView {
    Null,
    Text(Seq<char>),
    Other,
    Undecodable(nat),
}

pub open spec fn raw_view(v: RawValue) -> RawView {
    match v {
        RawValue::Null => RawView::Null,
        RawValue::Text(t) => RawView::Text(t@),
        RawValue::Other => RawView::Other,
        RawValue::Undecodable(n) => RawView::Undecodable(n as nat),
    }
}

pub open spec fn raw_views(s: Seq<RawValue>) -> Seq<RawView> {
    s.map_values(|v: RawValue| raw_view(v))
}

pub open spec fn text_views(h: Seq<Option<String>>) -> Seq<Option<Seq<char>>> {
    h.map_values(|x: Option<String>| match x {
        Some(t) => Some(t@),
        None => None,
    })
}

pub open spec fn texts_of(s: Seq<RawView>) -> Seq<Seq<char>>
    decreases s.len(),
{
    if s.len() == 0 {
        Seq::empty()
    } else {
        match s.last() {
            RawView::Text(t) => texts_of(s.drop_last()).push(t),
            _ => texts_of(s.drop_last()),
        }
    }
}

/// The values of an identity field: every header value (each must be text),
/// then every metadata value that is not null (each must be a string).
pub open spec fn ingress_values(h: Seq<Option<Seq<char>>>, s: Seq<RawView>) -> core::result::Result<Seq<Seq<char>>, Seq<char>> {
    if exists|i: int| 0 <= i < h.len() && (#[trigger] h[i]) is None {
        Err("Invalid identity header"@)
    } else if exists|i: int| 0 <= i < s.len() && ((#[trigger] s[i]) is Other || s[i] is Undecodable) {
        Err("Identity fields must be strings"@)
    } else {
        Ok(h.map_values(|x: Option<Seq<char>>| x.unwrap()) + texts_of(s))
    }
}

pub open spec fn bad_identity(v: Seq<char>) -> bool {
    v.len() == 0 || byte_len(v) > 512 || has_control_spec(v)
}

/// The field's value when every value is a non-empty identity of at most 512
/// bytes without control characters and all of them agree.
pub open spec fn ingress_spec(h: Seq<Option<Seq<char>>>, s: Seq<RawView>) -> core::result::Result<
    Option<Seq<char>>,
    (u16, Seq<char>, Seq<char>),
> {
    match ingress_values(h, s) {
        Err(m) => Err((400, "invalid_request"@, m)),
        Ok(v) => if exists|i: int| 0 <= i < v.len() && bad_identity(#[trigger] v[i]) {
            Err((400, "invalid_request"@, "Invalid identity field length or characters"@))
        } else if exists|i: int| 0 <= i < v.len() && #[trigger] v[i] != v[0] {
            Err(
                (
                    400,
                    "identity_conflict"@,
                    "Identity fields disagree between headers and request metadata"@,
                ),
            )
        } else if v.len() == 0 {
            Ok(None)
        } else {
            Ok(Some(v[0]))
        },
    }
}

/// The agreed value of an identity field given the values of its header
/// (`None` for a value that is not text) and its values in the request's
/// metadata sources.
#[verifier::loop_isolation(false)]
pub fn coherent(header_values: &Vec<Option<String>>, sources: &Vec<RawValue>) -> (r: Result<Option<String>>)
    ensures
        match ingress_spec(text_views(header_values@), raw_views(sources@)) {
            Ok(v) => r matches Ok(x) && match (x, v) {
                (Some(a), Some(b)) => a@ == b,
                (None, None) => true,
                _ => false,
            },
            Err(f) => r matches Err(e) && plain_error(e, f.0, f.1, f.2),
        },
{
    let ghost h = text_views(header_values@);
    let ghost s = raw_views(sources@);
    let mut values: Vec<String> = Vec::new();
    let mut i: usize = 0;
    while i < header_values.len()
        invariant
            h == text_views(header_values@),
            h.len() == header_values@.len(),
            i <= h.len(),
            forall|k: int| 0 <= k < i ==> (#[trigger] h[k]) is Some,
            values@.map_values(|x: String| x@) =~= h.take(i as int).map_values(
                |x: Option<Seq<char>>| x.unwrap(),
            ),
        decreases h.len() - i,
    {
        let ghost before = values@;
        match &header_values[i] {
            Some(v) => {
                values.push(v.clone());
                proof {
                    lemma_views_push(before, *v);
                    assert(h[i as int] == Some(v@));
                    assert(h.take(i + 1) =~= h.take(i as int).push(h[i as int]));
                    assert(h.take(i + 1).map_values(|x: Option<Seq<char>>| x.unwrap()) =~= h.take(
                        i as int,
                    ).map_values(|x: Option<Seq<char>>| x.unwrap()).push(v@));
                }
            },
            None => {
                assert(h[i as int] is None);
                return Err(Error::invalid("Invalid identity header"));
            },
        }
        i = i + 1;
    }
    proof {
        assert(h.take(h.len() as int) =~= h);
    }
    let ghost hv = values@.map_values(|x: String| x@);
    let mut j: usize = 0;
    while j < sources.len()
        invariant
            s == raw_views(sources@),
            s.len() == sources@.len(),
            j <= s.len(),
            forall|k: int| 0 <= k < j ==> !((#[trigger] s[k]) is Other || s[k] is Undecodable),
            values@.map_values(|x: String| x@) =~= hv + texts_of(s.take(j as int)),
        decreases s.len() - j,
    {
        proof {
            assert(s.take(j + 1).drop_last() =~= s.take(j as int));
        }
        match &sources[j] {
            RawValue::Null => {},
            RawValue::Text(t) => {
                let ghost before = values@;
                values.push(t.clone());
                proof {
                    lemma_views_push(before, *t);
                }
            },
            _ => {
                assert(s[j as int] is Other || s[j as int] is Undecodable);
                return Err(Error::invalid("Identity fields must be strings"));
            },
        }
        j = j + 1;
    }
    proof {
        assert(s.take(s.len() as int) =~= s);
        assert(!exists|k: int| 0 <= k < h.len() && (#[trigger] h[k]) is None);
    }
    let ghost v = values@.map_values(|x: String| x@);
    let mut k: usize = 0;
    while k < values.len()
        invariant
            v == values@.map_values(|x: String| x@),
            k <= values@.len(),
            forall|x: int| 0 <= x < k ==> !bad_identity(#[trigger] v[x]),
        decreases values@.len() - k,
    {
        let t = values[k].as_str();
        if len_bytes(t) == 0 || len_bytes(t) > 512 || has_control(t) {
            proof {
                assert(bad_identity(v[k as int]));
            }
            return Err(Error::invalid("Invalid identity field length or characters"));
        }
        k = k + 1;
    }
    if values.len() == 0 {
        return Ok(None);
    }
    let mut m: usize = 0;
    while m < values.len()
        invariant
            v == values@.map_values(|x: String| x@),
            values@.len() > 0,
            m <= values@.len(),
            forall|x: int| 0 <= x < m ==> #[trigger] v[x] == v[0],
        decreases values@.len() - m,
    {
        if !str_eq(values[m].as_str(), values[0].as_str()) {
            proof {
                assert(v[m as int] != v[0]);
            }
            return Err(
                Error::new(
                    400,
                    "identity_conflict",
                    "Identity fields disagree between headers and request metadata",
                ),
            );
        }
        m = m + 1;
    }
    Ok(Some(values[0].clone()))
}


pub proof fn lemma_views_push(a: Seq<String>, x: String)
    ensures
        a.push(x).map_values(|s: String| s@) =~= a.map_values(|s: String| s@).push(x@),
{
    let l = a.push(x).map_values(|s: String| s@);
    let r = a.map_values(|s: String| s@).push(x@);
    assert forall|k: int| 0 <= k < l.len() implies l[k] == r[k] by {
        if k < a.len() {
            assert(a.push(x)[k] == a[k]);
        }
    }
}

/// The parameters a request may carry: fewer for a compaction.
pub open spec fn allowed_parameter(kind: RequestKind, k: Seq<char>) -> bool {
    if kind == RequestKind::Compact {
        ||| k == "model"@
        ||| k == "input"@
        ||| k == "instructions"@
        ||| k == "tools"@
        ||| k == "parallel_tool_calls"@
        ||| k == "reasoning"@
        ||| k == "service_tier"@
        ||| k == "prompt_cache_key"@
        ||| k == "text"@
        ||| k == "client_metadata"@
        ||| k == "access_programs"@
        ||| k == "stream"@
    } else {
        ||| k == "model"@
        ||| k == "input"@
        ||| k == "instructions"@
        ||| k == "tools"@
        ||| k == "tool_choice"@
        ||| k == "parallel_tool_calls"@
        ||| k == "reasoning"@
        ||| k == "store"@
        ||| k == "stream"@
        ||| k == "stream_options"@
        ||| k == "include"@
        ||| k == "service_tier"@
        ||| k == "prompt_cache_key"@
        ||| k == "text"@
        ||| k == "client_metadata"@
        ||| k == "max_output_tokens"@
        ||| k == "temperature"@
        ||| k == "top_p"@
        ||| k == "truncation"@
        ||| k == "previous_response_id"@
        ||| k == "background"@
        ||| k == "metadata"@
    }
}

/// The model and the stream flag of a request body, or the first rule it
/// breaks: an object of allowed parameters, not in the background, without
/// a previous response, with a model name of at most 160 bytes, an input
/// that is a string or an array, and a boolean stream flag that is not set
/// for a compaction.
pub open spec fn request_head_spec(body: JsonView, kind: RequestKind) -> core::result::Result<(Seq<char>, bool), (u16, Seq<char>, Seq<char>)> {
    if !(body is Object) {
        Err((400, "invalid_request"@, "Request body must be an object"@))
    } else if exists|i: int| 0 <= i < body->Object_0.len() && !allowed_parameter(kind, (#[trigger] body->Object_0[i]).0) {
        Err((400, "unsupported_parameter"@, "The request contains a parameter this gateway does not support"@))
    } else if body.get("background"@) == Some(JsonView::Bool(true)) {
        Err((400, "unsupported_background"@, "Background responses are not supported"@))
    } else if body.get("previous_response_id"@) matches Some(p) && !(p is Null) {
        Err((400, "unsupported_reference"@, "This HTTP gateway requires explicit conversation history instead of previous_response_id"@))
    } else if !(text_in(body.get("model"@)) matches Some(m) && m.len() > 0 && crate::text::byte_len(m) <= 160) {
        Err((400, "invalid_request"@, "A model name is required"@))
    } else if !(body.get("input"@) matches Some(i) && (i is Array || i is Text)) {
        Err((400, "invalid_request"@, "input must be a string or an array"@))
    } else if body.get("stream"@) matches Some(s) && !(s is Bool) {
        Err((400, "invalid_request"@, "stream must be a boolean"@))
    } else if kind == RequestKind::Compact && body.get("stream"@) == Some(JsonView::Bool(true)) {
        Err((400, "invalid_request"@, "Compact returns a single JSON response; streaming is not supported"@))
    } else {
        Ok((text_in(body.get("model"@)).unwrap(), body.get("stream"@) == Some(JsonView::Bool(true))))
    }
}

fn allowed_parameter_exec(kind: RequestKind, k: &str) -> (r: bool)
    ensures
        r == allowed_parameter(kind, k@),
{
    let common = str_eq(k, "model") || str_eq(k, "input") || str_eq(k, "instructions") || str_eq(k, "tools")
        || str_eq(k, "parallel_tool_calls") || str_eq(k, "reasoning") || str_eq(k, "service_tier")
        || str_eq(k, "prompt_cache_key") || str_eq(k, "text") || str_eq(k, "client_metadata")
        || str_eq(k, "stream");
    match kind {
        RequestKind::Compact => common || str_eq(k, "access_programs"),
        _ => common || str_eq(k, "tool_choice") || str_eq(k, "store") || str_eq(k, "stream_options")
            || str_eq(k, "include") || str_eq(k, "max_output_tokens") || str_eq(k, "temperature")
            || str_eq(k, "top_p") || str_eq(k, "truncation") || str_eq(k, "previous_response_id")
            || str_eq(k, "background") || str_eq(k, "metadata"),
    }
}

/// Checks a request body in the order the gateway reports its faults and
/// returns its model and whether it asks for a stream.
#[verifier::loop_isolation(false)]
pub fn request_head(body: &Json, kind: RequestKind) -> (r: Result<(String, bool)>)
    ensures
        match request_head_spec(body@, kind) {
            Ok((m, s)) => r matches Ok(x) && x.0@ == m && x.1 == s,
            Err(f) => r matches Err(e) && plain_error(e, f.0, f.1, f.2),
        },
{
    let m = match body {
        Json::Object(m) => m,
        _ => return Err(Error::invalid("Request body must be an object")),
    };
    proof {
        lemma_view_members(m@);
    }
    let mut i: usize = 0;
    while i < m.len()
        invariant
            i <= m@.len(),
            view_members(m@).len() == m@.len(),
            forall|k: int| 0 <= k < m@.len() ==> #[trigger] view_members(m@)[k] == (m@[k].0@, view_json(m@[k].1)),
            forall|k: int| 0 <= k < i ==> allowed_parameter(kind, (#[trigger] view_members(m@)[k]).0),
        decreases m.len() - i,
    {
        if !allowed_parameter_exec(kind, m[i].0.as_str()) {
            assert(!allowed_parameter(kind, view_members(m@)[i as int].0));
            return Err(Error::new(400, "unsupported_parameter", "The request contains a parameter this gateway does not support"));
        }
        i = i + 1;
    }
    if let Some(Json::Bool(true)) = body.get("background") {
        return Err(Error::new(400, "unsupported_background", "Background responses are not supported"));
    }
    match body.get("previous_response_id") {
        Some(p) => if !p.is_null() {
            return Err(Error::new(400, "unsupported_reference", "This HTTP gateway requires explicit conversation history instead of previous_response_id"));
        },
        None => {},
    }
    let model = match body.get_str("model") {
        Some(s) => if s.unicode_len() > 0 && crate::text::len_bytes(s) <= 160 {
            s
        } else {
            return Err(Error::invalid("A model name is required"));
        },
        None => return Err(Error::invalid("A model name is required")),
    };
    match body.get("input") {
        Some(Json::Array(_)) | Some(Json::Text(_)) => {},
        _ => return Err(Error::invalid("input must be a string or an array")),
    }
    let stream = match body.get("stream") {
        Some(Json::Bool(b)) => *b,
        Some(_) => return Err(Error::invalid("stream must be a boolean")),
        None => false,
    };
    if stream && kind == RequestKind::Compact {
        return Err(Error::invalid("Compact returns a single JSON response; streaming is not supported"));
    }
    Ok((model.to_owned(), stream))
}

pub open spec fn known_requested_tier(t: Seq<char>) -> bool {
    t == "default"@ || t == "auto"@ || t == "fast"@ || t == "priority"@
}

/// The requested service tier: none when absent or null; otherwise it must
/// be one of the known tiers.
pub open spec fn requested_tier_spec(body: JsonView) -> core::result::Result<Option<Seq<char>>, Seq<char>> {
    match body.get("service_tier"@) {
        None => Ok(None),
        Some(JsonView::Null) => Ok(None),
        Some(JsonView::Text(t)) => if known_requested_tier(t) {
            Ok(Some(t))
        } else {
            Err("Unsupported service_tier"@)
        },
        Some(_) => Err("Invalid service_tier"@),
    }
}

pub fn requested_tier(body: &Json) -> (r: Result<Option<String>>)
    ensures
        match requested_tier_spec(body@) {
            Ok(t) => r matches Ok(x) && match (x, t) {
                (Some(a), Some(b)) => a@ == b,
                (None, None) => true,
                _ => false,
            },
            Err(m) => r matches Err(e) && plain_error(e, 400, "invalid_request"@, m),
        },
{
    match body.get("service_tier") {
        None => Ok(None),
        Some(Json::Null) => Ok(None),
        Some(Json::Text(t)) => {
            let t = t.as_str();
            if str_eq(t, "default") || str_eq(t, "auto") || str_eq(t, "fast") || str_eq(t, "priority") {
                Ok(Some(t.to_owned()))
            } else {
                Err(Error::invalid("Unsupported service_tier"))
            }
        },
        Some(_) => Err(Error::invalid("Invalid service_tier")),
    }
}

pub open spec fn known_effort(e: Seq<char>) -> bool {
    ||| e == "none"@
    ||| e == "minimal"@
    ||| e == "low"@
    ||| e == "medium"@
    ||| e == "high"@
    ||| e == "xhigh"@
    ||| e == "max"@
    ||| e == "ultra"@
}

/// The requested reasoning effort, when it is one of the known levels; never
/// any other reasoning content.
pub fn reasoning_effort(body: &Json) -> (r: Option<String>)
    ensures
        match text_in(member(body@.get("reasoning"@), "effort"@)) {
            Some(e) => if known_effort(e) {
                r matches Some(x) && x@ == e
            } else {
                r is None
            },
            None => r is None,
        },
{
    let effort = match body.get("reasoning") {
        Some(r) => r.get_str("effort"),
        None => None,
    };
    match effort {
        Some(e) => if str_eq(e, "none") || str_eq(e, "minimal") || str_eq(e, "low") || str_eq(e, "medium")
            || str_eq(e, "high") || str_eq(e, "xhigh") || str_eq(e, "max") || str_eq(e, "ultra") {
            Some(e.to_owned())
        } else {
            None
        },
        None => None,
    }
}


/// The `x-codex-turn-metadata` header of a request: absent, repeated, or one
/// value and what its bytes parse to as JSON (`None` when they are not JSON).
pub enum HeaderMetadata {
    Absent,
    Repeated,
    Present(Option<Json>),
}

pub open spec fn opt_view(o: Option<Json>) -> Option<JsonView> {
    match o {
        Some(j) => Some(j@),
        None => None,
    }
}

/// The flat aliases of canonical identity fields.
pub open spec fn metadata_aliases() -> Seq<(Seq<char>, Seq<char>)> {
    seq![
        ("x-codex-window-id"@, "window_id"@),
        ("x-codex-parent-thread-id"@, "parent_thread_id"@),
        ("x-codex-installation-id"@, "installation_id"@),
    ]
}

/// The alias sources of one source: for each alias it carries, an object
/// holding its value under the canonical name.
pub open spec fn aliases_of(source: JsonView) -> Seq<JsonView> {
    let a = metadata_aliases();
    let one = |i: int| match source.get(a[i].0) {
        Some(v) => seq![JsonView::Object(seq![(a[i].1, v)])],
        None => Seq::empty(),
    };
    one(0) + one(1) + one(2)
}

pub open spec fn all_aliases(sources: Seq<JsonView>) -> Seq<JsonView>
    decreases sources.len(),
{
    if sources.len() == 0 {
        Seq::empty()
    } else {
        all_aliases(sources.drop_last()) + aliases_of(sources.last())
    }
}

/// The metadata sources of a request, or the first fault: the body's client
/// metadata object, the turn metadata nested in it (a JSON string of at most
/// 128 KiB, parsed as `nested`), the turn metadata header (one at most); all
/// objects; then the flat aliases they carry, as canonical fields.
pub open spec fn body_sources(body: JsonView, nested: Option<JsonView>) -> core::result::Result<Seq<JsonView>, Seq<char>> {
    match body.get("client_metadata"@) {
        None => Ok(Seq::empty()),
        Some(meta) => if !(meta is Object) {
            Err("client_metadata must be an object"@)
        } else {
            match meta.get("x-codex-turn-metadata"@) {
                None => Ok(seq![meta]),
                Some(JsonView::Text(text)) => if byte_len(text) > 128 * 1024 {
                    Err("Codex turn metadata is too large"@)
                } else {
                    match nested {
                        Some(n) => Ok(seq![meta, n]),
                        None => Err("Codex turn metadata is invalid JSON"@),
                    }
                },
                Some(_) => Err("Codex turn metadata must be a JSON string"@),
            }
        },
    }
}

/// The metadata documents of a request before their aliases: those of the
/// body, then the turn metadata header.
pub open spec fn metadata_sources(body: JsonView, nested: Option<JsonView>, header: HeaderMetadata) -> core::result::Result<Seq<JsonView>, Seq<char>> {
    match body_sources(body, nested) {
        Err(m) => Err(m),
        Ok(s) => match header {
            HeaderMetadata::Absent => Ok(s),
            HeaderMetadata::Repeated => Err("Duplicate Codex metadata headers"@),
            HeaderMetadata::Present(None) => Err("Codex metadata header is invalid JSON"@),
            HeaderMetadata::Present(Some(h)) => Ok(s.push(h@)),
        },
    }
}

/// The metadata sources of a request, or the first fault: the body's client
/// metadata object, the turn metadata nested in it (a JSON string of at most
/// 128 KiB, parsed as `nested`), the turn metadata header (one at most); all
/// objects; then the flat aliases they carry, as canonical fields.
pub open spec fn metadata_spec(body: JsonView, nested: Option<JsonView>, header: HeaderMetadata) -> core::result::Result<Seq<JsonView>, Seq<char>> {
    match metadata_sources(body, nested, header) {
        Err(m) => Err(m),
        Ok(all) => if exists|i: int| 0 <= i < all.len() && !((#[trigger] all[i]) is Object) {
            Err("Codex metadata must be a JSON object"@)
        } else {
            Ok(all + all_aliases(all))
        },
    }
}

fn push_alias(out: &mut Vec<Json>, source: &Json, alias: &str, canonical: &str)
    ensures
        view_items(final(out)@) == view_items(old(out)@) + match source@.get(alias@) {
            Some(v) => seq![JsonView::Object(seq![(canonical@, v)])],
            None => Seq::empty(),
        },
{
    match source.get(alias) {
        Some(v) => {
            let m = vec![(canonical.to_owned(), v.duplicate())];
            proof {
                lemma_view_members(m@);
                assert(view_members(m@) =~= seq![(canonical@, v@)]);
                crate::json::lemma_items_push(out@, Json::Object(m));
            }
            out.push(Json::Object(m));
        },
        None => {
            assert(view_items(out@) + Seq::<JsonView>::empty() =~= view_items(out@));
        },
    }
}

fn body_sources_of(body: &Json, nested: Option<Json>) -> (r: Result<Vec<Json>>)
    ensures
        match body_sources(body@, opt_view(nested)) {
            Ok(s) => r matches Ok(v) && view_items(v@) == s,
            Err(m) => r matches Err(e) && plain_error(e, 400, "invalid_request"@, m),
        },
{
    let mut result: Vec<Json> = Vec::new();
    let meta = match body.get("client_metadata") {
        Some(meta) => meta,
        None => return Ok(result),
    };
    if !meta.is_object() {
        return Err(Error::invalid("client_metadata must be an object"));
    }
    let d = meta.duplicate();
    proof {
        crate::json::lemma_items_push(result@, d);
    }
    result.push(d);
    let n = match meta.get("x-codex-turn-metadata") {
        Some(n) => n,
        None => {
            assert(view_items(result@) =~= seq![meta@]);
            return Ok(result);
        },
    };
    let text = match n.as_str() {
        Some(t) => t,
        None => return Err(Error::invalid("Codex turn metadata must be a JSON string")),
    };
    if len_bytes(text) > 128 * 1024 {
        return Err(Error::invalid("Codex turn metadata is too large"));
    }
    match nested {
        Some(v) => {
            proof {
                crate::json::lemma_items_push(result@, v);
            }
            result.push(v);
            assert(view_items(result@) =~= seq![meta@, v@]);
            Ok(result)
        },
        None => Err(Error::invalid("Codex turn metadata is invalid JSON")),
    }
}

fn sources_of(body: &Json, nested: Option<Json>, header: HeaderMetadata) -> (r: Result<Vec<Json>>)
    ensures
        match metadata_sources(body@, opt_view(nested), header) {
            Ok(s) => r matches Ok(v) && view_items(v@) == s,
            Err(m) => r matches Err(e) && plain_error(e, 400, "invalid_request"@, m),
        },
{
    let mut result = match body_sources_of(body, nested) {
        Ok(r) => r,
        Err(e) => return Err(e),
    };
    match header {
        HeaderMetadata::Absent => Ok(result),
        HeaderMetadata::Repeated => Err(Error::invalid("Duplicate Codex metadata headers")),
        HeaderMetadata::Present(None) => Err(Error::invalid("Codex metadata header is invalid JSON")),
        HeaderMetadata::Present(Some(h)) => {
            proof {
                crate::json::lemma_items_push(result@, h);
            }
            result.push(h);
            Ok(result)
        },
    }
}

/// The metadata sources of a request; see `metadata_spec`. `nested` is what
/// the text of the body's nested turn metadata parses to as JSON.
#[verifier::loop_isolation(false)]
#[verifier::spinoff_prover]
#[verifier::rlimit(40)]
pub fn metadata(body: &Json, nested: Option<Json>, header: HeaderMetadata) -> (r: Result<Vec<Json>>)
    ensures
        match metadata_spec(body@, opt_view(nested), header) {
            Ok(s) => r matches Ok(v) && view_items(v@) == s,
            Err(m) => r matches Err(e) && plain_error(e, 400, "invalid_request"@, m),
        },
{
    let mut result = match sources_of(body, nested, header) {
        Ok(r) => r,
        Err(e) => return Err(e),
    };
    proof {
        lemma_view_items(result@);
    }
    let ghost all = view_items(result@);
    let n = result.len();
    let mut i: usize = 0;
    while i < n
        invariant
            n == result@.len(),
            all == view_items(result@),
            all.len() == n,
            forall|k: int| 0 <= k < n ==> #[trigger] all[k] == view_json(result@[k]),
            i <= n,
            forall|k: int| 0 <= k < i ==> (#[trigger] all[k]) is Object,
        decreases n - i,
    {
        if !result[i].is_object() {
            assert(!(all[i as int] is Object));
            return Err(Error::invalid("Codex metadata must be a JSON object"));
        }
        i = i + 1;
    }
    let mut aliases: Vec<Json> = Vec::new();
    let mut j: usize = 0;
    while j < n
        invariant
            n == result@.len(),
            all == view_items(result@),
            all.len() == n,
            forall|k: int| 0 <= k < n ==> #[trigger] all[k] == view_json(result@[k]),
            j <= n,
            view_items(aliases@) == all_aliases(all.subrange(0, j as int)),
        decreases n - j,
    {
        proof {
            assert(all.subrange(0, j + 1).drop_last() =~= all.subrange(0, j as int));
        }
        let ghost before = view_items(aliases@);
        push_alias(&mut aliases, &result[j], "x-codex-window-id", "window_id");
        push_alias(&mut aliases, &result[j], "x-codex-parent-thread-id", "parent_thread_id");
        push_alias(&mut aliases, &result[j], "x-codex-installation-id", "installation_id");
        proof {
            assert(view_items(aliases@) =~= before + aliases_of(all[j as int]));
        }
        j = j + 1;
    }
    proof {
        assert(all.subrange(0, n as int) =~= all);
        crate::json::lemma_items_concat(result@, aliases@);
    }
    result.append(&mut aliases);
    Ok(result)
}

} // verus!
