//! Observation of the upstream's Responses event stream: what each event says
//! about the response (its model, usage, output, errors) without keeping its
//! content.
use vstd::prelude::*;
use crate::codex::recovery::rejection_spec;
use crate::codex::upstream_error::{
    classified_with_facts, classify_parsed_error, error_body_of, error_facts, fields_of_json,
};
use crate::accounts::DisableReason;
use crate::types::{Error, Result, plain_error};
use crate::json::{
    Json, JsonView, lemma_view_items, lemma_view_members, lookup, member, set_key, text_in,
    unsigned_in, view_items, view_json, view_members,
};
use crate::protocol::EncryptedContentError;
use crate::text::{byte_len, len_bytes};
use crate::usage::{Usage, UsageView, empty_usage};
use crate::codex::wire::SseDecoder;
use crate::text::str_eq;

verus! {

/// Usage that reports no work: null, a zero count, or an object of such.
pub open spec fn no_usage(v: JsonView) -> bool
    decreases v, 1int,
{
    match v {
        JsonView::Null => true,
        JsonView::Number(_, u) => u == Some(0u64),
        JsonView::Object(m) => no_usage_members(m),
        _ => false,
    }
}

pub open spec fn no_usage_members(m: Seq<(Seq<char>, JsonView)>) -> bool
    decreases m, 0int,
{
    if m.len() == 0 {
        true
    } else {
        no_usage_members(m.drop_last()) && no_usage(m.last().1)
    }
}

/// A response object without output or reported usage.
pub open spec fn no_reported_work(v: JsonView) -> bool {
    &&& v is Object
    &&& match v.get("output"@) {
        None => true,
        Some(JsonView::Null) => true,
        Some(JsonView::Array(s)) => s.len() == 0,
        Some(_) => false,
    }
    &&& match v.get("usage"@) {
        None => true,
        Some(u) => no_usage(u),
    }
}

pub open spec fn model_char(c: char) -> bool {
    ||| ('a' <= c && c <= 'z')
    ||| ('A' <= c && c <= 'Z')
    ||| ('0' <= c && c <= '9')
    ||| c == '-'
    ||| c == '.'
    ||| c == '_'
    ||| c == ':'
    ||| c == '/'
}

/// The model a response names, when it is a short identifier: at most 160
/// bytes of ASCII letters, digits and `-._:/`.
pub open spec fn response_model(r: JsonView) -> Option<Seq<char>> {
    match text_in(r.get("model"@)) {
        Some(name) => if name.len() > 0 && byte_len(name) <= 160 && forall|i: int|
            0 <= i < name.len() ==> model_char(#[trigger] name[i]) {
            Some(name)
        } else {
            None
        },
        None => None,
    }
}

pub open spec fn usage_key_char(c: char) -> bool {
    ||| ('a' <= c && c <= 'z')
    ||| ('A' <= c && c <= 'Z')
    ||| ('0' <= c && c <= '9')
    ||| c == '_'
}

/// A key kept in numeric usage: at most 80 bytes of ASCII letters, digits
/// and underscores.
pub open spec fn usage_key(k: Seq<char>) -> bool {
    byte_len(k) <= 80 && forall|i: int| 0 <= i < k.len() ==> usage_key_char(#[trigger] k[i])
}

/// The numeric facts of a usage value: numbers and booleans, and objects of
/// them to a depth of six, keeping of each object's first 64 members those
/// with a plain key and a numeric value. Anything else is dropped.
pub open spec fn numeric_usage(v: JsonView, depth: nat) -> Option<JsonView>
    decreases v, 0int, 0int,
{
    if depth > 6 {
        None
    } else {
        match v {
            JsonView::Number(_, _) => Some(v),
            JsonView::Bool(_) => Some(v),
            JsonView::Object(m) => Some(
                JsonView::Object(
                    numeric_members(m, if m.len() < 64 {
                        m.len() as int
                    } else {
                        64
                    }, depth),
                ),
            ),
            _ => None,
        }
    }
}

/// The kept members among the first `n` of `m`.
pub open spec fn numeric_members(m: Seq<(Seq<char>, JsonView)>, n: int, depth: nat) -> Seq<(Seq<char>, JsonView)>
    decreases m, 1int, n,
{
    if n <= 0 || n > m.len() {
        Seq::empty()
    } else {
        let rest = numeric_members(m, n - 1, depth);
        let (k, x) = m[n - 1];
        if usage_key(k) {
            match numeric_usage(x, depth + 1) {
                Some(y) => rest.push((k, y)),
                None => rest,
            }
        } else {
            rest
        }
    }
}


/// The decoder's state: whether a terminal event was seen, whether compaction
/// output was seen, the generated images counted so far, and the usage.
pub struct DecoderState {
    pub terminal: bool,
    pub compaction_output: bool,
    pub image_ids: Seq<Seq<char>>,
    pub usage: UsageView,
}

pub open spec fn sat_add(a: u64, b: u64) -> u64 {
    if a + b > u64::MAX {
        u64::MAX
    } else {
        (a + b) as u64
    }
}

pub open spec fn or_else(a: Option<u64>, b: Option<u64>) -> Option<u64> {
    if a is Some {
        a
    } else {
        b
    }
}

/// A count added to an optional total.
pub open spec fn added(total: Option<u64>, n: Option<u64>) -> Option<u64> {
    match n {
        Some(x) => Some(
            sat_add(
                match total {
                    Some(t) => t,
                    None => 0,
                },
                x,
            ),
        ),
        None => total,
    }
}

/// A generated image counted once by its id, with the image tool's usage.
pub open spec fn item_observed(s: DecoderState, item: JsonView) -> DecoderState {
    let id = text_in(item.get("id"@));
    if text_in(item.get("type"@)) != Some("image_generation_call"@) {
        s
    } else if !(text_in(item.get("result"@)) matches Some(r) && r.len() > 0) {
        s
    } else if id is None || s.image_ids.contains(id.unwrap()) {
        s
    } else {
        let ids = s.image_ids.push(id.unwrap());
        match item.get("usage"@) {
            None => DecoderState { image_ids: ids, ..s },
            Some(u) => DecoderState {
                image_ids: ids,
                usage: UsageView {
                    image_tool_usage_reported: true,
                    image_input_tokens: added(s.usage.image_input_tokens, unsigned_in(u.get("input_tokens"@))),
                    image_output_tokens: added(s.usage.image_output_tokens, unsigned_in(u.get("output_tokens"@))),
                    ..s.usage
                },
                ..s
            },
        }
    }
}

pub open spec fn items_observed(s: DecoderState, items: Seq<JsonView>) -> DecoderState
    decreases items.len(),
{
    if items.len() == 0 {
        s
    } else {
        item_observed(items_observed(s, items.drop_last()), items.last())
    }
}

/// A usage object's counts, each replacing the previous one when present.
pub open spec fn usage_observed(u: UsageView, v: JsonView) -> UsageView {
    UsageView {
        raw_usage: match numeric_usage(v, 0) {
            Some(x) => x,
            None => JsonView::Null,
        },
        input_tokens: or_else(unsigned_in(v.get("input_tokens"@)), u.input_tokens),
        output_tokens: or_else(unsigned_in(v.get("output_tokens"@)), u.output_tokens),
        cached_input_tokens: or_else(
            unsigned_in(member(v.get("input_tokens_details"@), "cached_tokens"@)),
            u.cached_input_tokens,
        ),
        reasoning_output_tokens: or_else(
            unsigned_in(member(v.get("output_tokens_details"@), "reasoning_tokens"@)),
            u.reasoning_output_tokens,
        ),
        source: "upstream_response"@,
        ..u
    }
}

pub open spec fn known_tier(t: Seq<char>) -> bool {
    t == "default"@ || t == "priority"@ || t == "fast"@
}

/// Whether output holds a compaction item.
pub open spec fn has_output(items: Seq<JsonView>) -> bool {
    exists|i: int| 0 <= i < items.len() && text_in((#[trigger] items[i]).get("type"@)) == Some("compaction"@)
}

/// What a response object adds: its output items, whether they hold
/// compaction output, its served tier, and its usage.
pub open spec fn response_observed(s: DecoderState, r: JsonView) -> DecoderState {
    let s1 = match r.get("output"@) {
        Some(JsonView::Array(items)) => items_observed(
            DecoderState { compaction_output: s.compaction_output || has_output(items), ..s },
            items,
        ),
        _ => s,
    };
    let s2 = match text_in(r.get("service_tier"@)) {
        Some(t) => if known_tier(t) {
            DecoderState { usage: UsageView { service_tier: Some(t), ..s1.usage }, ..s1 }
        } else {
            s1
        },
        None => s1,
    };
    match r.get("usage"@) {
        Some(JsonView::Object(m)) => DecoderState {
            usage: usage_observed(s2.usage, JsonView::Object(m)),
            ..s2
        },
        _ => s2,
    }
}

pub open spec fn preamble_kind(k: Seq<char>) -> bool {
    k == "response.created"@ || k == "response.queued"@ || k == "response.in_progress"@
}

pub open spec fn response_kind(k: Seq<char>) -> bool {
    preamble_kind(k) || k == "response.completed"@ || k == "response.failed"@ || k
        == "response.incomplete"@
}

pub open spec fn terminal_kind(k: Seq<char>) -> bool {
    k == "response.completed"@ || k == "response.failed"@ || k == "response.incomplete"@ || k
        == "error"@
}

pub open spec fn delta_kind(k: Seq<char>) -> bool {
    ||| k == "response.output_text.delta"@
    ||| k == "response.reasoning_text.delta"@
    ||| k == "response.reasoning_summary_text.delta"@
    ||| k == "response.function_call_arguments.delta"@
    ||| k == "response.custom_tool_call_input.delta"@
    ||| k == "response.image_generation_call.partial_image"@
}

/// The body an error event describes: its response, else the event itself.
pub open spec fn error_body(v: JsonView) -> JsonView {
    match v.get("response"@) {
        Some(r) => r,
        None => v,
    }
}

/// A control event: neither an item nor a delta.
pub open spec fn bare(v: JsonView) -> bool {
    v.get("item"@) is None && v.get("delta"@) is None
}

/// The state after an event of kind `k`.
pub open spec fn event_state(s: DecoderState, k: Seq<char>, v: JsonView) -> DecoderState {
    let s1 = if k == "response.output_item.done"@ && text_in(member(v.get("item"@), "type"@))
        == Some("compaction"@) {
        DecoderState { compaction_output: true, ..s }
    } else {
        s
    };
    let s2 = match v.get("item"@) {
        Some(item) => item_observed(s1, item),
        None => s1,
    };
    let s3 = match v.get("response"@) {
        Some(r) => response_observed(s2, r),
        None => s2,
    };
    let s4 = if terminal_kind(k) {
        DecoderState {
            terminal: true,
            usage: UsageView {
                complete: s3.usage.input_tokens is Some && s3.usage.output_tokens is Some,
                ..s3.usage
            },
            ..s3
        }
    } else {
        s3
    };
    DecoderState { usage: UsageView { image_count: s4.image_ids.len() as u32, ..s4.usage }, ..s4 }
}

/// A non-empty string member.
pub open spec fn nonempty_text(o: Option<JsonView>) -> bool {
    text_in(o) matches Some(t) && t.len() > 0
}

pub open spec fn content_event(k: Seq<char>, v: JsonView) -> bool {
    delta_kind(k) && (nonempty_text(v.get("delta"@)) || nonempty_text(v.get("partial_image_b64"@)))
}

pub open spec fn preamble_event(k: Seq<char>, v: JsonView) -> bool {
    preamble_kind(k) && (v.get("response"@) matches Some(r) && no_reported_work(r)) && bare(v)
}

/// An explicit encrypted-content rejection without output or reported work.
pub open spec fn rejection_event(k: Seq<char>, v: JsonView) -> Option<EncryptedContentError> {
    if (k == "response.failed"@ || k == "error"@) && no_reported_work(error_body(v)) && bare(v) {
        rejection_spec(fields_of_json(error_body(v)))
    } else {
        None
    }
}

/// The failed response that stands in for an upstream error event.
pub open spec fn failed_document() -> JsonView {
    JsonView::Object(
        seq![
            ("type"@, JsonView::Text("response.failed"@)),
            (
                "response"@,
                JsonView::Object(
                    seq![
                        ("id"@, JsonView::Text("upstream_error"@)),
                        ("status"@, JsonView::Text("failed"@)),
                        ("output"@, JsonView::Array(Seq::empty())),
                    ],
                ),
            ),
        ],
    )
}

/// The classified error set on a failed response object.
pub open spec fn with_error(doc: JsonView, code: Seq<char>, message: Seq<char>) -> JsonView {
    match doc {
        JsonView::Object(m) => match lookup(m, "response"@) {
            Some(JsonView::Object(r)) => JsonView::Object(
                set_key(
                    m,
                    "response"@,
                    JsonView::Object(
                        set_key(
                            r,
                            "error"@,
                            JsonView::Object(
                                seq![
                                    ("type"@, JsonView::Text("upstream_error"@)),
                                    ("code"@, JsonView::Text(code)),
                                    ("message"@, JsonView::Text(message)),
                                ],
                            ),
                        ),
                    ),
                ),
            ),
            _ => doc,
        },
        _ => doc,
    }
}

/// `c.to_ascii_lowercase()` is `n`.
pub open spec fn lower_is(c: char, n: char) -> bool {
    if 'A' <= c && c <= 'Z' {
        (c as u32) + 32 == (n as u32)
    } else {
        c == n
    }
}

/// `k.to_ascii_lowercase()` is `name`.
pub open spec fn named_ignoring_case(k: Seq<char>, name: Seq<char>) -> bool {
    k.len() == name.len() && forall|i: int| 0 <= i < k.len() ==> lower_is(#[trigger] k[i], name[i])
}

/// A response header that events may carry to clients.
pub open spec fn forwarded_header(k: Seq<char>) -> bool {
    named_ignoring_case(k, "openai-model"@) || named_ignoring_case(k, "x-reasoning-included"@)
}

pub open spec fn forwarded_members(m: Seq<(Seq<char>, JsonView)>) -> Seq<(Seq<char>, JsonView)>
    decreases m.len(),
{
    if m.len() == 0 {
        m
    } else if forwarded_header(m.last().0) {
        forwarded_members(m.drop_last()).push(m.last())
    } else {
        forwarded_members(m.drop_last())
    }
}

/// An object's `headers` member reduced to the forwarded headers.
pub open spec fn headers_filtered(v: JsonView) -> JsonView {
    match v {
        JsonView::Object(m) => match lookup(m, "headers"@) {
            Some(JsonView::Object(h)) => JsonView::Object(
                set_key(m, "headers"@, JsonView::Object(forwarded_members(h))),
            ),
            _ => v,
        },
        _ => v,
    }
}

/// An event with only forwarded headers, in its response and in itself.
pub open spec fn event_headers_filtered(v: JsonView) -> JsonView {
    let v1 = match v {
        JsonView::Object(m) => match lookup(m, "response"@) {
            Some(r) => JsonView::Object(set_key(m, "response"@, headers_filtered(r))),
            None => v,
        },
        _ => v,
    };
    headers_filtered(v1)
}


pub proof fn lemma_no_usage_members(m: Seq<(Seq<char>, JsonView)>)
    ensures
        no_usage_members(m) == forall|k: int| 0 <= k < m.len() ==> no_usage(#[trigger] m[k].1),
    decreases m.len(),
{
    if m.len() > 0 {
        lemma_no_usage_members(m.drop_last());
        if no_usage_members(m) {
            assert forall|k: int| 0 <= k < m.len() implies no_usage(#[trigger] m[k].1) by {
                if k < m.len() - 1 {
                    assert(m.drop_last()[k] == m[k]);
                }
            }
        }
        if forall|k: int| 0 <= k < m.len() ==> no_usage(#[trigger] m[k].1) {
            assert forall|k: int| 0 <= k < m.drop_last().len() implies no_usage(
                #[trigger] m.drop_last()[k].1,
            ) by {
                assert(m.drop_last()[k] == m[k]);
            }
            assert(no_usage(m[m.len() - 1].1));
        }
    }
}

#[verifier::loop_isolation(false)]
fn no_usage_exec(v: &Json) -> (r: bool)
    ensures
        r == no_usage(v@),
    decreases v,
{
    match v {
        Json::Null => true,
        Json::Number(n) => match n.unsigned {
            Some(x) => x == 0,
            None => false,
        },
        Json::Object(m) => {
            proof {
                lemma_view_members(m@);
                lemma_no_usage_members(view_members(m@));
            }
            let mut i: usize = 0;
            while i < m.len()
                invariant
                    i <= m@.len(),
                    view_members(m@).len() == m@.len(),
                    forall|k: int| 0 <= k < m@.len() ==> #[trigger] view_members(m@)[k] == (m@[k].0@, view_json(m@[k].1)),
                    forall|k: int| 0 <= k < i ==> no_usage(#[trigger] view_members(m@)[k].1),
                decreases m.len() - i,
            {
                if !no_usage_exec(&m[i].1) {
                    assert(!no_usage(view_members(m@)[i as int].1));
                    return false;
                }
                i = i + 1;
            }
            true
        },
        _ => false,
    }
}

fn no_reported_work_exec(v: &Json) -> (r: bool)
    ensures
        r == no_reported_work(v@),
{
    if !v.is_object() {
        return false;
    }
    let output_ok = match v.get("output") {
        None => true,
        Some(Json::Null) => true,
        Some(Json::Array(items)) => {
            proof {
                lemma_view_items(items@);
            }
            items.len() == 0
        },
        Some(_) => false,
    };
    if !output_ok {
        return false;
    }
    match v.get("usage") {
        None => true,
        Some(u) => no_usage_exec(u),
    }
}

fn model_char_exec(c: char) -> (r: bool)
    ensures
        r == model_char(c),
{
    ('a' <= c && c <= 'z') || ('A' <= c && c <= 'Z') || ('0' <= c && c <= '9') || c == '-' || c
        == '.' || c == '_' || c == ':' || c == '/'
}

/// The model a response names, when it is a short identifier.
#[verifier::loop_isolation(false)]
pub fn response_model_of(r: &Json) -> (m: Option<String>)
    ensures
        match m {
            Some(s) => response_model(r@) == Some(s@),
            None => response_model(r@) is None,
        },
{
    let name = match r.get_str("model") {
        Some(n) => n,
        None => return None,
    };
    let n = name.unicode_len();
    if n == 0 || len_bytes(name) > 160 {
        return None;
    }
    let mut i: usize = 0;
    while i < n
        invariant
            n == name@.len(),
            i <= n,
            forall|j: int| 0 <= j < i ==> model_char(#[trigger] name@[j]),
        decreases n - i,
    {
        if !model_char_exec(name.get_char(i)) {
            assert(!model_char(name@[i as int]));
            return None;
        }
        i = i + 1;
    }
    Some(name.to_owned())
}

fn usage_key_exec(k: &str) -> (r: bool)
    ensures
        r == usage_key(k@),
{
    if len_bytes(k) > 80 {
        return false;
    }
    let n = k.unicode_len();
    let mut i: usize = 0;
    while i < n
        invariant
            n == k@.len(),
            i <= n,
            forall|j: int| 0 <= j < i ==> usage_key_char(#[trigger] k@[j]),
        decreases n - i,
    {
        let c = k.get_char(i);
        if !(('a' <= c && c <= 'z') || ('A' <= c && c <= 'Z') || ('0' <= c && c <= '9') || c == '_') {
            assert(!usage_key_char(k@[i as int]));
            return false;
        }
        i = i + 1;
    }
    true
}

/// The numeric facts of a usage value; see `numeric_usage`.
#[verifier::loop_isolation(false)]
pub fn numeric_usage_of(v: &Json, depth: usize) -> (r: Option<Json>)
    ensures
        match r {
            Some(x) => numeric_usage(v@, depth as nat) == Some(x@),
            None => numeric_usage(v@, depth as nat) is None,
        },
    decreases v,
{
    if depth > 6 {
        return None;
    }
    match v {
        Json::Number(_) | Json::Bool(_) => Some(v.duplicate()),
        Json::Object(m) => {
            let ghost mv = view_members(m@);
            proof {
                lemma_view_members(m@);
            }
            let n: usize = if m.len() < 64 {
                m.len()
            } else {
                64
            };
            let mut out: Vec<(String, Json)> = Vec::new();
            let mut i: usize = 0;
            while i < n
                invariant
                    n <= m@.len(),
                    depth <= 6,
                    i <= n,
                    mv == view_members(m@),
                    mv.len() == m@.len(),
                    forall|k: int| 0 <= k < m@.len() ==> #[trigger] mv[k] == (m@[k].0@, view_json(m@[k].1)),
                    view_members(out@) == numeric_members(mv, i as int, depth as nat),
                decreases n - i,
            {
                if usage_key_exec(m[i].0.as_str()) {
                    match numeric_usage_of(&m[i].1, depth + 1) {
                        Some(x) => {
                            let e = (m[i].0.clone(), x);
                            proof {
                                crate::json::lemma_members_push(out@, e);
                            }
                            out.push(e);
                        },
                        None => {},
                    }
                }
                i = i + 1;
            }
            Some(Json::Object(out))
        },
        _ => None,
    }
}


/// The decoder of one upstream response stream.
pub struct CodexDecoder {
    pub sse: SseDecoder,
    pub terminal: bool,
    pub usage: Usage,
    pub image_ids: Vec<String>,
    pub compaction_output: bool,
}

pub open spec fn ids_view(v: Seq<String>) -> Seq<Seq<char>> {
    v.map_values(|s: String| s@)
}

impl CodexDecoder {
    pub open spec fn state(self) -> DecoderState {
        DecoderState {
            terminal: self.terminal,
            compaction_output: self.compaction_output,
            image_ids: ids_view(self.image_ids@),
            usage: self.usage@,
        }
    }

    pub open spec fn wf(self) -> bool {
        self.sse.wf()
    }

    pub fn new() -> (r: Self)
        ensures
            r.wf(),
            r.state() == (DecoderState {
                terminal: false,
                compaction_output: false,
                image_ids: Seq::empty(),
                usage: empty_usage(),
            }),
    {
        let r = CodexDecoder {
            sse: SseDecoder::new(),
            terminal: false,
            usage: Usage::default(),
            image_ids: Vec::new(),
            compaction_output: false,
        };
        assert(ids_view(r.image_ids@) =~= Seq::<Seq<char>>::empty());
        r
    }

    fn seen_image(&self, id: &str) -> (r: bool)
        ensures
            r == ids_view(self.image_ids@).contains(id@),
    {
        let mut i: usize = 0;
        while i < self.image_ids.len()
            invariant
                i <= self.image_ids@.len(),
                forall|k: int| 0 <= k < i ==> (#[trigger] self.image_ids@[k])@ != id@,
            decreases self.image_ids.len() - i,
        {
            if str_eq(self.image_ids[i].as_str(), id) {
                assert(ids_view(self.image_ids@)[i as int] == id@);
                return true;
            }
            i = i + 1;
        }
        proof {
            if ids_view(self.image_ids@).contains(id@) {
                let k = choose|k: int| 0 <= k < ids_view(self.image_ids@).len() && ids_view(self.image_ids@)[k] == id@;
                assert(self.image_ids@[k]@ == id@);
            }
        }
        false
    }

    /// Counts a generated image once by its id, with its tool usage.
    fn observe_item(&mut self, item: &Json)
        ensures
            final(self).state() == item_observed(old(self).state(), item@),
            final(self).sse == old(self).sse,
    {
        match item.get_str("type") {
            Some(t) => if !str_eq(t, "image_generation_call") {
                return;
            },
            None => return,
        }
        match item.get_str("result") {
            Some(r) => if r.unicode_len() == 0 {
                return;
            },
            None => return,
        }
        let id = match item.get_str("id") {
            Some(id) => id,
            None => return,
        };
        if self.seen_image(id) {
            return;
        }
        let ghost before = self.image_ids@;
        self.image_ids.push(id.to_owned());
        assert(ids_view(self.image_ids@) =~= ids_view(before).push(id@));
        if let Some(usage) = item.get("usage") {
            self.usage.image_tool_usage_reported = true;
            if let Some(input) = usage.get_u64("input_tokens") {
                let total = match self.usage.image_input_tokens {
                    Some(t) => t,
                    None => 0,
                };
                self.usage.image_input_tokens = Some(total.saturating_add(input));
            }
            if let Some(output) = usage.get_u64("output_tokens") {
                let total = match self.usage.image_output_tokens {
                    Some(t) => t,
                    None => 0,
                };
                self.usage.image_output_tokens = Some(total.saturating_add(output));
            }
        }
    }

    /// Takes a usage object's counts, each replacing the previous one when
    /// present.
    fn observe_usage(&mut self, v: &Json)
        ensures
            final(self).state() == (DecoderState {
                usage: usage_observed(old(self).state().usage, v@),
                ..old(self).state()
            }),
            final(self).sse == old(self).sse,
    {
        self.usage.raw_usage = match numeric_usage_of(v, 0) {
            Some(x) => x,
            None => Json::Null,
        };
        if let Some(n) = v.get_u64("input_tokens") {
            self.usage.input_tokens = Some(n);
        }
        if let Some(n) = v.get_u64("output_tokens") {
            self.usage.output_tokens = Some(n);
        }
        let cached = match v.get("input_tokens_details") {
            Some(d) => d.get_u64("cached_tokens"),
            None => None,
        };
        if cached.is_some() {
            self.usage.cached_input_tokens = cached;
        }
        let reasoning = match v.get("output_tokens_details") {
            Some(d) => d.get_u64("reasoning_tokens"),
            None => None,
        };
        if reasoning.is_some() {
            self.usage.reasoning_output_tokens = reasoning;
        }
        self.usage.source = "upstream_response".to_owned();
    }
}


/// Whether output holds a compaction item.
pub fn has_output_of(items: &Vec<Json>) -> (r: bool)
    ensures
        r == has_output(view_items(items@)),
{
    proof {
        lemma_view_items(items@);
    }
    let mut i: usize = 0;
    while i < items.len()
        invariant
            i <= items@.len(),
            view_items(items@).len() == items@.len(),
            forall|k: int| 0 <= k < items@.len() ==> #[trigger] view_items(items@)[k] == view_json(items@[k]),
            forall|k: int| 0 <= k < i ==> text_in((#[trigger] view_items(items@)[k]).get("type"@)) != Some("compaction"@),
        decreases items.len() - i,
    {
        let is = match items[i].get_str("type") {
            Some(t) => str_eq(t, "compaction"),
            None => false,
        };
        if is {
            assert(text_in(view_items(items@)[i as int].get("type"@)) == Some("compaction"@));
            return true;
        }
        i = i + 1;
    }
    false
}

impl CodexDecoder {
    /// Takes what a response object says: its output items, its served tier
    /// and its usage.
    #[verifier::loop_isolation(false)]
    fn observe_response(&mut self, r: &Json)
        ensures
            final(self).state() == response_observed(old(self).state(), r@),
            final(self).sse == old(self).sse,
    {
        let ghost s0 = self.state();
        if let Some(Json::Array(items)) = r.get("output") {
            if has_output_of(items) {
                self.compaction_output = true;
            }
            proof {
                lemma_view_items(items@);
            }
            let ghost start = self.state();
            assert(start == (DecoderState { compaction_output: s0.compaction_output || has_output(view_items(items@)), ..s0 }));
            let mut i: usize = 0;
            while i < items.len()
                invariant
                    i <= items@.len(),
                    view_items(items@).len() == items@.len(),
                    forall|k: int| 0 <= k < items@.len() ==> #[trigger] view_items(items@)[k] == view_json(items@[k]),
                    self.state() == items_observed(start, view_items(items@).subrange(0, i as int)),
                    self.sse == old(self).sse,
                decreases items.len() - i,
            {
                proof {
                    assert(view_items(items@).subrange(0, i + 1).drop_last() =~= view_items(items@).subrange(0, i as int));
                }
                self.observe_item(&items[i]);
                i = i + 1;
            }
            proof {
                assert(view_items(items@).subrange(0, items@.len() as int) =~= view_items(items@));
            }
        }
        if let Some(tier) = r.get_str("service_tier") {
            if str_eq(tier, "default") || str_eq(tier, "priority") || str_eq(tier, "fast") {
                self.usage.service_tier = Some(tier.to_owned());
            }
        }
        if let Some(u) = r.get("usage") {
            if u.is_object() {
                self.observe_usage(u);
            }
        }
    }
}

fn lower_is_exec(c: char, n: char) -> (r: bool)
    ensures
        r == lower_is(c, n),
{
    if 'A' <= c && c <= 'Z' {
        (c as u32) + 32 == (n as u32)
    } else {
        c == n
    }
}

pub(crate) fn named_ignoring_case_exec(k: &str, name: &str) -> (r: bool)
    ensures
        r == named_ignoring_case(k@, name@),
{
    let n = k.unicode_len();
    if n != name.unicode_len() {
        return false;
    }
    let mut i: usize = 0;
    while i < n
        invariant
            n == k@.len(),
            n == name@.len(),
            i <= n,
            forall|j: int| 0 <= j < i ==> lower_is(#[trigger] k@[j], name@[j]),
        decreases n - i,
    {
        if !lower_is_exec(k.get_char(i), name.get_char(i)) {
            assert(!lower_is(k@[i as int], name@[i as int]));
            return false;
        }
        i = i + 1;
    }
    true
}

/// Keeps only the forwarded headers of an object's `headers` member.
#[verifier::loop_isolation(false)]
fn filter_headers(v: &mut Json)
    ensures
        final(v)@ == headers_filtered(old(v)@),
{
    let m = match v {
        Json::Object(m) => m,
        _ => return,
    };
    let ghost m0 = m@;
    proof {
        lemma_view_members(m0);
        crate::json::lemma_find_key(view_members(m0), "headers"@);
    }
    let i = crate::json::find_member(m, "headers");
    if i == m.len() {
        return;
    }
    let is_object = match &m[i].1 {
        Json::Object(_) => true,
        _ => false,
    };
    if !is_object {
        return;
    }
    let h = crate::json::take_member_value(m, i);
    let mut h = match h {
        Json::Object(h) => h,
        _ => Vec::new(),
    };
    let ghost hv = view_members(h@);
    proof {
        lemma_view_members(h@);
    }
    let mut out: Vec<(String, Json)> = Vec::new();
    let mut j: usize = 0;
    while j < h.len()
        invariant
            j <= h@.len(),
            hv.len() == h@.len(),
            forall|k: int| j <= k < h@.len() ==> (#[trigger] hv[k]) == (h@[k].0@, view_json(h@[k].1)),
            view_members(out@) == forwarded_members(hv.subrange(0, j as int)),
        decreases h.len() - j,
    {
        let mut e = (String::new(), Json::Null);
        std::mem::swap(&mut h[j], &mut e);
        proof {
            assert(hv.subrange(0, j + 1).drop_last() =~= hv.subrange(0, j as int));
        }
        if named_ignoring_case_exec(e.0.as_str(), "openai-model") || named_ignoring_case_exec(
            e.0.as_str(),
            "x-reasoning-included",
        ) {
            proof {
                crate::json::lemma_members_push(out@, e);
            }
            out.push(e);
        }
        j = j + 1;
    }
    proof {
        assert(hv.subrange(0, hv.len() as int) =~= hv);
    }
    let e = ("headers".to_owned(), Json::Object(out));
    m.set(i, e);
    proof {
        assert(m@ =~= m0.update(i as int, e));
        crate::json::lemma_members_update(m0, i as int, e);
    }
}

/// Keeps only forwarded headers in an event and in its response.
pub fn filter_event_headers(v: &mut Json)
    ensures
        final(v)@ == event_headers_filtered(old(v)@),
{
    if let Json::Object(m) = v {
        let ghost m0 = m@;
        proof {
            lemma_view_members(m0);
            crate::json::lemma_find_key(view_members(m0), "response"@);
        }
        let i = crate::json::find_member(m, "response");
        if i < m.len() {
            let mut r = crate::json::take_member_value(m, i);
            filter_headers(&mut r);
            let e = ("response".to_owned(), r);
            m.set(i, e);
            proof {
                assert(m@ =~= m0.update(i as int, e));
                crate::json::lemma_members_update(m0, i as int, e);
            }
        }
    }
    filter_headers(v);
}


fn text_json(s: &str) -> (r: Json)
    ensures
        r@ == JsonView::Text(s@),
{
    Json::Text(s.to_owned())
}

fn failed_document_of() -> (r: Json)
    ensures
        r@ == failed_document(),
{
    let response = vec![
        ("id".to_owned(), text_json("upstream_error")),
        ("status".to_owned(), text_json("failed")),
        ("output".to_owned(), Json::Array(Vec::new())),
    ];
    proof {
        lemma_view_members(response@);
        assert(view_items(Seq::<Json>::empty()) =~= Seq::<JsonView>::empty());
    }
    let m = vec![("type".to_owned(), text_json("response.failed")), ("response".to_owned(), Json::Object(response))];
    proof {
        lemma_view_members(m@);
        assert(view_members(response@) =~= seq![
            ("id"@, JsonView::Text("upstream_error"@)),
            ("status"@, JsonView::Text("failed"@)),
            ("output"@, JsonView::Array(Seq::empty())),
        ]);
        assert(view_members(m@) =~= seq![
            ("type"@, JsonView::Text("response.failed"@)),
            ("response"@, view_json(Json::Object(response))),
        ]);
    }
    Json::Object(m)
}

/// Sets the classified error on a failed response object.
fn set_error(doc: &mut Json, code: &str, message: &str)
    ensures
        final(doc)@ == with_error(old(doc)@, code@, message@),
{
    let m = match doc {
        Json::Object(m) => m,
        _ => return,
    };
    let ghost m0 = m@;
    proof {
        lemma_view_members(m0);
        crate::json::lemma_find_key(view_members(m0), "response"@);
    }
    let i = crate::json::find_member(m, "response");
    if i == m.len() {
        return;
    }
    let is_object = match &m[i].1 {
        Json::Object(_) => true,
        _ => false,
    };
    if !is_object {
        return;
    }
    let mut r = crate::json::take_member_value(m, i);
    let fields = vec![
        ("type".to_owned(), text_json("upstream_error")),
        ("code".to_owned(), text_json(code)),
        ("message".to_owned(), text_json(message)),
    ];
    proof {
        lemma_view_members(fields@);
        assert(view_members(fields@) =~= seq![
            ("type"@, JsonView::Text("upstream_error"@)),
            ("code"@, JsonView::Text(code@)),
            ("message"@, JsonView::Text(message@)),
        ]);
    }
    r.insert("error", Json::Object(fields));
    let e = ("response".to_owned(), r);
    m.set(i, e);
    proof {
        assert(m@ =~= m0.update(i as int, e));
        crate::json::lemma_members_update(m0, i as int, e);
    }
}

/// What the gateway keeps of one event. Upstream quota windows are read from
/// the document by the caller.
pub struct Observation {
    /// Control-only event that can be held before exposing a response identity.
    pub recovery_preamble: bool,
    /// An explicit encrypted-content rejection without output or reported work.
    pub encrypted_rejection: Option<EncryptedContentError>,
    pub response_model: Option<String>,
    pub compaction_output: Option<bool>,
    pub usage: Option<Usage>,
    pub terminal: bool,
    pub error: Option<Error>,
    pub disable_reason: Option<DisableReason>,
    pub content: bool,
}

/// One event as it is forwarded, and what was observed of it.
pub struct GatewayEvent {
    pub document: Json,
    pub observation: Observation,
}

/// The text an error shows its caller.
pub open spec fn shown_text(e: Error) -> Seq<char> {
    match e.attached_message() {
        Some(m) => m,
        None => e.message@,
    }
}

pub open spec fn opt_string(o: Option<String>) -> Option<Seq<char>> {
    match o {
        Some(s) => Some(s@),
        None => None,
    }
}

/// What `observe` reports for an event of kind `k` from state `s`, given the
/// state `after` it leaves.
pub open spec fn observed(s: DecoderState, k: Seq<char>, v: JsonView, after: DecoderState, ev: GatewayEvent) -> bool {
    let o = ev.observation;
    &&& after == event_state(s, k, v)
    &&& o.recovery_preamble == preamble_event(k, v)
    &&& o.encrypted_rejection == rejection_event(k, v)
    &&& opt_string(o.response_model) == (if response_kind(k) && v.get("response"@) is Some {
        response_model(v.get("response"@).unwrap())
    } else {
        None
    })
    &&& o.compaction_output == (if after.compaction_output {
        Some(true)
    } else if k == "response.completed"@ {
        Some(false)
    } else {
        None
    })
    &&& o.usage matches Some(u) && u@ == after.usage
    &&& o.terminal == terminal_kind(k)
    &&& o.content == content_event(k, v)
    &&& if terminal_kind(k) && k != "response.completed"@ {
        &&& o.error matches Some(e) && classified_with_facts(
            e,
            o.disable_reason,
            502,
            Some(fields_of_json(error_body(v))),
        ) && ev.document@ == event_headers_filtered(
            with_error(
                if k == "error"@ {
                    failed_document()
                } else {
                    v
                },
                e.code@,
                shown_text(e),
            ),
        )
    } else {
        &&& o.error is None
        &&& o.disable_reason is None
        &&& ev.document@ == event_headers_filtered(v)
    }
}

fn kind_is(k: &str, want: &str) -> (r: bool)
    ensures
        r == (k@ == want@),
{
    str_eq(k, want)
}

impl CodexDecoder {
    /// The data of the events that `bytes` complete; none once the response
    /// has ended.
    pub fn frames(&mut self, bytes: &[u8], limit: usize) -> (r: Result<Vec<String>>)
        requires
            old(self).wf(),
        ensures
            final(self).wf(),
            final(self).state() == old(self).state(),
            old(self).terminal ==> (r matches Ok(v) && v@.len() == 0) && final(self).sse
                == old(self).sse,
            !old(self).terminal ==> final(self).sse.view() == crate::codex::wire::push_spec(
                old(self).sse.view(),
                bytes@,
                limit as nat,
            ).0 && match crate::codex::wire::push_spec(old(self).sse.view(), bytes@, limit as nat).1 {
                Ok(e) => r matches Ok(v) && crate::codex::wire::strings(v@) == e,
                Err(f) => r matches Err(x) && plain_error(x, f.0, f.1, f.2),
            },
    {
        if self.terminal {
            return Ok(Vec::new());
        }
        self.sse.push(bytes, limit)
    }

    /// Advances the state past an event of kind `k` and returns the model its
    /// response names, for the kinds that carry a response.
    fn advance(&mut self, k: &str, value: &Json) -> (model: Option<String>)
        ensures
            final(self).sse == old(self).sse,
            final(self).state() == event_state(old(self).state(), k@, value@),
            opt_string(model) == (if response_kind(k@) && value@.get("response"@) is Some {
                response_model(value@.get("response"@).unwrap())
            } else {
                None
            }),
    {
        if kind_is(k, "response.output_item.done") {
            let compaction = match value.get("item") {
                Some(item) => match item.get_str("type") {
                    Some(t) => str_eq(t, "compaction"),
                    None => false,
                },
                None => false,
            };
            if compaction {
                self.compaction_output = true;
            }
        }
        if let Some(item) = value.get("item") {
            self.observe_item(item);
        }
        let mut model = None;
        if let Some(response) = value.get("response") {
            if kind_is(k, "response.created") || kind_is(k, "response.queued") || kind_is(
                k,
                "response.in_progress",
            ) || kind_is(k, "response.completed") || kind_is(k, "response.failed") || kind_is(
                k,
                "response.incomplete",
            ) {
                model = response_model_of(response);
            }
            self.observe_response(response);
        }
        if terminal_kind_exec(k) {
            self.terminal = true;
            self.usage.complete = self.usage.input_tokens.is_some() && self.usage.output_tokens.is_some();
        }
        self.usage.image_count = self.image_ids.len() as u32;
        model
    }

    /// Observes one parsed event: updates the response's state and returns
    /// the event to forward with what was observed of it. An event without a
    /// type is an invalid upstream event.
    #[verifier::spinoff_prover]
    pub fn observe(&mut self, value: Json) -> (r: Result<GatewayEvent>)
        ensures
            final(self).sse == old(self).sse,
            match text_in(value@.get("type"@)) {
                None => (r matches Err(e) && plain_error(
                    e,
                    502,
                    "invalid_upstream_event"@,
                    "Upstream event has no type"@,
                )) && final(self).state() == old(self).state(),
                Some(k) => r matches Ok(ev) && observed(old(self).state(), k, value@, final(self).state(), ev),
            },
    {
        let kind = match value.get_str("type") {
            Some(k) => k.to_owned(),
            None => return Err(Error::new(502, "invalid_upstream_event", "Upstream event has no type")),
        };
        let k = kind.as_str();
        let (recovery_preamble, encrypted_rejection, content) = event_flags(k, &value);
        let response_model = self.advance(k, &value);
        let terminal = terminal_kind_exec(k);
        let (document, error, disable_reason) = forwarded(k, value);
        let compaction_output = if self.compaction_output {
            Some(true)
        } else if kind_is(k, "response.completed") {
            Some(false)
        } else {
            None
        };
        Ok(GatewayEvent {
            document,
            observation: Observation {
                recovery_preamble,
                encrypted_rejection,
                response_model,
                compaction_output,
                usage: Some(self.usage.duplicate()),
                terminal,
                error,
                disable_reason,
                content,
            },
        })
    }

}

/// Usage counts are cumulative: whatever the decoder had seen before, an
/// event whose response reports a numeric `output_tokens` in its usage leaves
/// exactly that count, and likewise for `input_tokens`.
pub proof fn law_reported_usage_replaces_the_count(s: DecoderState, k: Seq<char>, v: JsonView, n: u64)
    requires
        v.get("response"@) matches Some(r) && r.get("usage"@) matches Some(u) && u is Object,
    ensures
        unsigned_in(v.get("response"@).unwrap().get("usage"@).unwrap().get("output_tokens"@)) == Some(n)
            ==> event_state(s, k, v).usage.output_tokens == Some(n),
        unsigned_in(v.get("response"@).unwrap().get("usage"@).unwrap().get("input_tokens"@)) == Some(n)
            ==> event_state(s, k, v).usage.input_tokens == Some(n),
        unsigned_in(member(v.get("response"@).unwrap().get("usage"@).unwrap().get("input_tokens_details"@), "cached_tokens"@))
            == Some(n) ==> event_state(s, k, v).usage.cached_input_tokens == Some(n),
        unsigned_in(member(v.get("response"@).unwrap().get("usage"@).unwrap().get("output_tokens_details"@), "reasoning_tokens"@))
            == Some(n) ==> event_state(s, k, v).usage.reasoning_output_tokens == Some(n),
{
}

/// The values of the first `k` events of a read, each known to be JSON.
pub open spec fn seen(events: Seq<Option<Json>>, k: int) -> Seq<JsonView> {
    Seq::new(k as nat, |i: int| events[i].unwrap()@)
}

pub open spec fn kind_of(v: JsonView) -> Seq<char> {
    text_in(v.get("type"@)).unwrap()
}

/// The decoder's state after a run of events.
pub open spec fn run(s: DecoderState, vs: Seq<JsonView>) -> DecoderState
    decreases vs.len(),
{
    if vs.len() == 0 {
        s
    } else {
        event_state(run(s, vs.drop_last()), kind_of(vs.last()), vs.last())
    }
}

impl CodexDecoder {
    /// Observes the events of one read of the stream in order, each given as
    /// its data read as JSON (`None` where it is not JSON), and stops after
    /// the event that ends the stream: what follows it is never read. An
    /// event that is not JSON, or has no type, is an invalid upstream event.
    pub fn observe_all(&mut self, events: &Vec<Option<Json>>) -> (r: Result<Vec<GatewayEvent>>)
        ensures
            final(self).sse == old(self).sse,
            r matches Ok(evs) ==> {
                &&& evs@.len() <= events@.len()
                &&& forall|i: int| 0 <= i < evs@.len() ==> ((#[trigger] events@[i]) matches Some(v) && text_in(v@.get("type"@)) is Some)
                &&& forall|i: int| 0 <= i < evs@.len() ==> observed(
                    run(old(self).state(), seen(events@, i)),
                    kind_of(events@[i].unwrap()@),
                    events@[i].unwrap()@,
                    run(old(self).state(), seen(events@, i + 1)),
                    #[trigger] evs@[i],
                )
                &&& final(self).state() == run(old(self).state(), seen(events@, evs@.len() as int))
                &&& forall|i: int| 0 <= i < evs@.len() - 1 ==> !(#[trigger] run(old(self).state(), seen(events@, i + 1))).terminal
                &&& evs@.len() < events@.len() ==> final(self).state().terminal
            },
            r is Err ==> exists|i: int| 0 <= i < events@.len() && ((#[trigger] events@[i]) matches Some(v) ==> text_in(v@.get("type"@)) is None),
            (forall|i: int| 0 <= i < events@.len() ==> ((#[trigger] events@[i]) matches Some(v) && text_in(v@.get("type"@)) is Some)) ==> r is Ok,
    {
        let ghost s0 = self.state();
        let mut out: Vec<GatewayEvent> = Vec::new();
        let mut stop = false;
        let mut i: usize = 0;
        proof {
            assert(seen(events@, 0) =~= Seq::<JsonView>::empty());
        }
        while i < events.len() && !stop
            invariant
                i <= events@.len(),
                out@.len() == i,
                self.sse == old(self).sse,
                s0 == old(self).state(),
                self.state() == run(s0, seen(events@, i as int)),
                forall|j: int| 0 <= j < i ==> ((#[trigger] events@[j]) matches Some(v) && text_in(v@.get("type"@)) is Some),
                forall|j: int| 0 <= j < i ==> observed(
                    run(s0, seen(events@, j)),
                    kind_of(events@[j].unwrap()@),
                    events@[j].unwrap()@,
                    run(s0, seen(events@, j + 1)),
                    #[trigger] out@[j],
                ),
                forall|j: int| 0 <= j < i - 1 ==> !(#[trigger] run(s0, seen(events@, j + 1))).terminal,
                stop ==> self.state().terminal,
                !stop ==> forall|j: int| 0 <= j < i ==> !(#[trigger] run(s0, seen(events@, j + 1))).terminal,
            decreases events@.len() - i,
        {
            let value = match &events[i] {
                Some(v) => v.duplicate(),
                None => {
                    return Err(Error::new(502, "invalid_upstream_event", "Upstream SSE event is not valid JSON"));
                },
            };
            let ghost before = self.state();
            let ev = match self.observe(value) {
                Ok(ev) => ev,
                Err(e) => {
                    return Err(e);
                },
            };
            proof {
                let v = events@[i as int].unwrap()@;
                assert(seen(events@, i + 1).drop_last() =~= seen(events@, i as int));
                assert(seen(events@, i + 1).last() == v);
                assert(run(s0, seen(events@, i + 1)) == event_state(before, kind_of(v), v));
            }
            out.push(ev);
            stop = self.terminal;
            i = i + 1;
        }
        Ok(out)
    }
}

fn terminal_kind_exec(k: &str) -> (r: bool)
    ensures
        r == terminal_kind(k@),
{
    kind_is(k, "response.completed") || kind_is(k, "response.failed") || kind_is(
        k,
        "response.incomplete",
    ) || kind_is(k, "error")
}

/// Whether an event is a preamble, the rejection it names, and whether it
/// carries content.
fn event_flags(k: &str, value: &Json) -> (r: (bool, Option<EncryptedContentError>, bool))
    ensures
        r.0 == preamble_event(k@, value@),
        r.1 == rejection_event(k@, value@),
        r.2 == content_event(k@, value@),
{
    let bare = value.get("item").is_none() && value.get("delta").is_none();
    let preamble = (kind_is(k, "response.created") || kind_is(k, "response.queued") || kind_is(
        k,
        "response.in_progress",
    )) && match value.get("response") {
        Some(r) => no_reported_work_exec(r),
        None => false,
    } && bare;
    let mut rejection = None;
    if kind_is(k, "response.failed") || kind_is(k, "error") {
        let body = match value.get("response") {
            Some(r) => r,
            None => value,
        };
        if no_reported_work_exec(body) && bare {
            rejection = crate::codex::recovery::rejection(&error_body_of(body));
        }
    }
    let delta = match value.get_str("delta") {
        Some(d) => d.unicode_len() > 0,
        None => false,
    };
    let image = match value.get_str("partial_image_b64") {
        Some(d) => d.unicode_len() > 0,
        None => false,
    };
    let content = (kind_is(k, "response.output_text.delta") || kind_is(
        k,
        "response.reasoning_text.delta",
    ) || kind_is(k, "response.reasoning_summary_text.delta") || kind_is(
        k,
        "response.function_call_arguments.delta",
    ) || kind_is(k, "response.custom_tool_call_input.delta") || kind_is(
        k,
        "response.image_generation_call.partial_image",
    )) && (delta || image);
    (preamble, rejection, content)
}

/// The document forwarded for an event of kind `k`, and for a failure its
/// classified error and the account state it implies.
fn forwarded(k: &str, value: Json) -> (r: (Json, Option<Error>, Option<DisableReason>))
    ensures
        if terminal_kind(k@) && k@ != "response.completed"@ {
            &&& r.1 matches Some(e) && classified_with_facts(
                e,
                r.2,
                502,
                Some(fields_of_json(error_body(value@))),
            ) && r.0@ == event_headers_filtered(
                with_error(
                    if k@ == "error"@ {
                        failed_document()
                    } else {
                        value@
                    },
                    e.code@,
                    shown_text(e),
                ),
            )
        } else {
            &&& r.1 is None
            &&& r.2 is None
            &&& r.0@ == event_headers_filtered(value@)
        },
{
    let mut document = value;
    if !terminal_kind_exec(k) || kind_is(k, "response.completed") {
        filter_event_headers(&mut document);
        return (document, None, None);
    }
    let fields = {
        let body = match document.get("response") {
            Some(r) => r,
            None => &document,
        };
        Some(error_body_of(body))
    };
    let (e, d) = classify_parsed_error(502, &fields);
    let e = e.with_upstream(error_facts(&fields));
    if kind_is(k, "error") {
        document = failed_document_of();
    }
    set_error(&mut document, e.code.as_str(), e.client_message());
    filter_event_headers(&mut document);
    (document, Some(e), d)
}

impl CodexDecoder {
    /// A stream that ends before a terminal event was interrupted.
    pub fn finish(&self) -> (r: Result<()>)
        ensures
            self.terminal ==> r is Ok,
            !self.terminal ==> (r matches Err(e) && plain_error(
                e,
                502,
                "stream_interrupted"@,
                "Upstream stream ended before a terminal response"@,
            )),
    {
        if self.terminal {
            Ok(())
        } else {
            Err(Error::new(502, "stream_interrupted", "Upstream stream ended before a terminal response"))
        }
    }

    /// The bytes the event reader holds back.
    pub fn buffered_bytes(&self) -> (r: usize)
        requires
            self.sse.view().0.len() + self.sse.view().3.len() <= usize::MAX,
        ensures
            r == self.sse.view().0.len() + self.sse.view().3.len(),
    {
        self.sse.buffered_bytes()
    }
}


/// The usage a compaction response reports: its usage object's counts, its
/// served tier when known, and complete when both token counts are present.
pub open spec fn compacted_usage(v: JsonView) -> UsageView {
    let u = match v.get("usage"@) {
        Some(JsonView::Object(m)) => usage_observed(empty_usage(), JsonView::Object(m)),
        _ => empty_usage(),
    };
    UsageView {
        source: "upstream_compaction"@,
        complete: u.input_tokens is Some && u.output_tokens is Some,
        service_tier: match text_in(v.get("service_tier"@)) {
            Some(t) => if known_tier(t) {
                Some(t)
            } else {
                None
            },
            None => None,
        },
        ..u
    }
}

/// A compaction response: an object "response.compaction" with an output
/// array.
pub open spec fn compaction_items(v: JsonView) -> Option<Seq<JsonView>> {
    if text_in(v.get("object"@)) == Some("response.compaction"@) {
        match v.get("output"@) {
            Some(JsonView::Array(items)) => Some(items),
            _ => None,
        }
    } else {
        None
    }
}

/// What a compaction response reports; `None` when the body is not JSON.
/// Output includes retained history, so its old tool calls are not counted
/// again.
pub fn compact_response(parsed: Option<&Json>) -> (r: Result<Observation>)
    ensures
        match parsed {
            Some(v) => match compaction_items(v@) {
                Some(items) => r matches Ok(o) && {
                    &&& opt_string(o.response_model) == response_model(v@)
                    &&& o.usage matches Some(u) && u@ == compacted_usage(v@)
                    &&& o.compaction_output == Some(has_output(items))
                    &&& o.terminal
                    &&& !o.recovery_preamble && !o.content
                    &&& o.encrypted_rejection is None && o.error is None && o.disable_reason is None
                },
                None => r matches Err(e) && plain_error(
                    e,
                    502,
                    "invalid_compact_response"@,
                    "Upstream returned an invalid compact response"@,
                ),
            },
            None => r matches Err(e) && plain_error(
                e,
                502,
                "invalid_compact_response"@,
                "Upstream returned an invalid compact response"@,
            ),
        },
{
    let v = match parsed {
        Some(v) => v,
        None => return Err(Error::new(502, "invalid_compact_response", "Upstream returned an invalid compact response")),
    };
    let compaction = match v.get_str("object") {
        Some(o) => str_eq(o, "response.compaction"),
        None => false,
    };
    if !compaction {
        return Err(Error::new(502, "invalid_compact_response", "Upstream returned an invalid compact response"));
    }
    let output = match v.get("output") {
        Some(Json::Array(items)) => items,
        _ => return Err(Error::new(502, "invalid_compact_response", "Upstream returned an invalid compact response")),
    };
    let mut decoder = CodexDecoder::new();
    if let Some(usage) = v.get("usage") {
        if usage.is_object() {
            decoder.observe_usage(usage);
        }
    }
    let mut usage = decoder.usage;
    usage.source = "upstream_compaction".to_owned();
    usage.complete = usage.input_tokens.is_some() && usage.output_tokens.is_some();
    usage.service_tier = match v.get_str("service_tier") {
        Some(t) => if str_eq(t, "default") || str_eq(t, "priority") || str_eq(t, "fast") {
            Some(t.to_owned())
        } else {
            None
        },
        None => None,
    };
    Ok(Observation {
        recovery_preamble: false,
        encrypted_rejection: None,
        response_model: response_model_of(v),
        compaction_output: Some(has_output_of(output)),
        usage: Some(usage),
        terminal: true,
        error: None,
        disable_reason: None,
        content: false,
    })
}

} // verus!
