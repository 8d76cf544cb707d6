//! The identifier fields of a request by location, as the rewrite trace
//! compares them: the identity headers, the identity fields of each turn
//! metadata and of the client metadata, and the prompt cache key. Never
//! arbitrary headers, metadata, tool arguments, encrypted content or text.
use vstd::prelude::*;
use vstd::string::StringExecFns;
use crate::codex::trace::{MAX_ENTRIES, action_spec, identifier, owned_view, push, recordable};
use crate::identity::{IdentifierRewrite, RequestRewrite};
use crate::json::{Json, JsonView, lemma_view_items, lemma_view_members, lookup, text_in, view_items, view_members};
use crate::sorted_members::{put_member, put_sorted, sorted_keys};
use crate::text::{decimal, decimal_usize, str_eq};

verus! {

/// The identity headers a trace records, in order.
pub open spec fn traced_headers() -> Seq<Seq<char>> {
    seq![
        "session-id"@,
        "session_id"@,
        "conversation-id"@,
        "conversation_id"@,
        "thread-id"@,
        "thread_id"@,
        "x-client-request-id"@,
        "x-codex-installation-id"@,
        "x-codex-window-id"@,
        "x-codex-parent-thread-id"@,
    ]
}

/// The identity fields of a metadata object a trace records, in order.
pub open spec fn traced_fields() -> Seq<Seq<char>> {
    seq![
        "session_id"@,
        "session-id"@,
        "conversation_id"@,
        "conversation-id"@,
        "thread_id"@,
        "thread-id"@,
        "turn_id"@,
        "window_id"@,
        "context_window_id"@,
        "installation_id"@,
        "parent_thread_id"@,
        "forked_from_thread_id"@,
        "parent_turn_id"@,
        "root_turn_id"@,
        "x-codex-installation-id"@,
        "x-codex-window-id"@,
        "x-codex-parent-thread-id"@,
    ]
}

/// The first value a header list gives a name (`HeaderMap::get`).
pub open spec fn first_value(hs: Seq<(Seq<char>, Seq<char>)>, n: Seq<char>) -> Option<Seq<char>>
    decreases hs.len(),
{
    if hs.len() == 0 {
        None
    } else if hs[0].0 == n {
        Some(hs[0].1)
    } else {
        first_value(hs.drop_first(), n)
    }
}

proof fn lemma_first_at(hs: Seq<(Seq<char>, Seq<char>)>, n: Seq<char>, i: int)
    requires
        0 <= i <= hs.len(),
        forall|j: int| 0 <= j < i ==> (#[trigger] hs[j]).0 != n,
        i < hs.len() ==> hs[i].0 == n,
    ensures
        first_value(hs, n) == if i < hs.len() {
            Some(hs[i].1)
        } else {
            None
        },
    decreases i,
{
    if i > 0 {
        let d = hs.drop_first();
        assert forall|j: int| 0 <= j < i - 1 implies (#[trigger] d[j]).0 != n by {
            assert(d[j] == hs[j + 1]);
        }
        lemma_first_at(d, n, i - 1);
    }
}

pub open spec fn pairs_view(p: Seq<(String, String)>) -> Seq<(Seq<char>, Seq<char>)> {
    p.map_values(|x: (String, String)| (x.0@, x.1@))
}

/// The recorded identity headers among the first `k` traced names.
pub open spec fn header_ids(hs: Seq<(Seq<char>, Seq<char>)>, k: nat) -> Seq<(Seq<char>, Seq<char>)>
    decreases k,
{
    if k == 0 {
        Seq::empty()
    } else {
        let before = header_ids(hs, (k - 1) as nat);
        let n = traced_headers()[k - 1];
        match first_value(hs, n) {
            Some(v) => if recordable(v) {
                before.push(("headers."@ + n, v))
            } else {
                before
            },
            None => before,
        }
    }
}

/// The recorded identity fields of a metadata object among the first `k`
/// traced fields, each under `prefix`.
pub open spec fn metadata_ids(prefix: Seq<char>, meta: JsonView, k: nat) -> Seq<(Seq<char>, Seq<char>)>
    decreases k,
{
    if k == 0 {
        Seq::empty()
    } else {
        let before = metadata_ids(prefix, meta, (k - 1) as nat);
        let n = traced_fields()[k - 1];
        match text_in(meta.get(n)) {
            Some(v) => if recordable(v) {
                before.push((prefix + "."@ + n, v))
            } else {
                before
            },
            None => before,
        }
    }
}

/// Every identifier of a request by location, in the order they are read.
pub open spec fn identifier_list(
    hs: Seq<(Seq<char>, Seq<char>)>,
    header_turn: Option<JsonView>,
    body: JsonView,
    body_turn: Option<JsonView>,
) -> Seq<(Seq<char>, Seq<char>)> {
    let headers = header_ids(hs, 10);
    let turn = match header_turn {
        Some(t) => metadata_ids("headers.x-codex-turn-metadata"@, t, 17),
        None => Seq::empty(),
    };
    let client = match body.get("client_metadata"@) {
        Some(m) => metadata_ids("body.client_metadata"@, m, 17) + match body_turn {
            Some(t) => metadata_ids("body.client_metadata.x-codex-turn-metadata"@, t, 17),
            None => Seq::empty(),
        },
        None => Seq::empty(),
    };
    let cache = match text_in(body.get("prompt_cache_key"@)) {
        Some(v) => if recordable(v) {
            seq![("body.prompt_cache_key"@, v)]
        } else {
            Seq::empty()
        },
        None => Seq::empty(),
    };
    headers + turn + client + cache
}

/// Identifiers set one by one into a map sorted by location.
pub open spec fn put_all(m: Seq<(Seq<char>, JsonView)>, ids: Seq<(Seq<char>, Seq<char>)>) -> Seq<(Seq<char>, JsonView)>
    decreases ids.len(),
{
    if ids.len() == 0 {
        m
    } else {
        put_member(put_all(m, ids.drop_last()), ids.last().0, JsonView::Text(ids.last().1), true)
    }
}

fn record(out: &mut Vec<(String, Json)>, field: String, value: &str, Ghost(done): Ghost<Seq<(Seq<char>, Seq<char>)>>)
    requires
        sorted_keys(view_members(old(out)@)),
        view_members(old(out)@) == put_all(Seq::empty(), done),
    ensures
        sorted_keys(view_members(final(out)@)),
        final(out)@.len() <= old(out)@.len() + 1,
        view_members(final(out)@) == put_all(Seq::empty(), done.push((field@, value@))),
{
    assert(done.push((field@, value@)).drop_last() =~= done);
    put_sorted(out, field.as_str(), Json::Text(String::from_str(value)), true);
}

fn first_header<'a>(hs: &'a Vec<(String, String)>, name: &str) -> (r: Option<&'a str>)
    ensures
        match r {
            Some(v) => first_value(pairs_view(hs@), name@) == Some(v@),
            None => first_value(pairs_view(hs@), name@) is None,
        },
{
    let ghost all = pairs_view(hs@);
    let mut i: usize = 0;
    while i < hs.len()
        invariant
            i <= hs.len(),
            all == pairs_view(hs@),
            forall|j: int| 0 <= j < i ==> (#[trigger] all[j]).0 != name@,
        decreases hs.len() - i,
    {
        if str_eq(hs[i].0.as_str(), name) {
            proof {
                lemma_first_at(all, name@, i as int);
            }
            return Some(hs[i].1.as_str());
        }
        i = i + 1;
    }
    proof {
        lemma_first_at(all, name@, i as int);
    }
    None
}

fn add_metadata_ids(
    out: &mut Vec<(String, Json)>,
    prefix: &str,
    meta: &Json,
    Ghost(done): Ghost<Seq<(Seq<char>, Seq<char>)>>,
)
    requires
        sorted_keys(view_members(old(out)@)),
        view_members(old(out)@) == put_all(Seq::empty(), done),
    ensures
        sorted_keys(view_members(final(out)@)),
        final(out)@.len() <= old(out)@.len() + 17,
        view_members(final(out)@) == put_all(Seq::empty(), done + metadata_ids(prefix@, meta@, 17)),
{
    let fields: [&str; 17] = [
        "session_id",
        "session-id",
        "conversation_id",
        "conversation-id",
        "thread_id",
        "thread-id",
        "turn_id",
        "window_id",
        "context_window_id",
        "installation_id",
        "parent_thread_id",
        "forked_from_thread_id",
        "parent_turn_id",
        "root_turn_id",
        "x-codex-installation-id",
        "x-codex-window-id",
        "x-codex-parent-thread-id",
    ];
    assert(fields@.map_values(|s: &str| s@) =~= traced_fields());
    let mut k: usize = 0;
    while k < 17
        invariant
            k <= 17,
            out@.len() <= old(out)@.len() + k,
            fields@.map_values(|s: &str| s@) == traced_fields(),
            sorted_keys(view_members(out@)),
            view_members(out@) == put_all(Seq::empty(), done + metadata_ids(prefix@, meta@, k as nat)),
        decreases 17 - k,
    {
        let name = fields[k];
        assert(name@ == traced_fields()[k as int]);
        match meta.get_str(name) {
            Some(v) => match identifier(v) {
                Some(v) => {
                    let field = String::from_str(prefix).concat(".").concat(name);
                    assert(done + metadata_ids(prefix@, meta@, (k + 1) as nat) =~= (done + metadata_ids(prefix@, meta@, k as nat)).push((field@, v@)));
                    record(out, field, v, Ghost(done + metadata_ids(prefix@, meta@, k as nat)));
                },
                None => {},
            },
            None => {},
        }
        k = k + 1;
    }
}

/// The identifiers of a request by location, sorted by location: the first
/// value of each identity header (`headers`: each header's name and its value
/// as text), the identity fields of the turn metadata header read as JSON
/// (`header_turn`), of the client metadata and of its turn metadata text read
/// as JSON (`body_turn`), and the prompt cache key; each one recorded only
/// where it is short and plain (see `recordable`).
pub fn client_identifiers(
    headers: &Vec<(String, String)>,
    header_turn: Option<Json>,
    body: &Json,
    body_turn: Option<Json>,
) -> (r: Vec<(String, Json)>)
    ensures
        sorted_keys(view_members(r@)),
        r@.len() <= 62,
        view_members(r@) == put_all(
            Seq::empty(),
            identifier_list(pairs_view(headers@), match header_turn {
                Some(t) => Some(t@),
                None => None,
            }, body@, match body_turn {
                Some(t) => Some(t@),
                None => None,
            }),
        ),
{
    let names: [&str; 10] = [
        "session-id",
        "session_id",
        "conversation-id",
        "conversation_id",
        "thread-id",
        "thread_id",
        "x-client-request-id",
        "x-codex-installation-id",
        "x-codex-window-id",
        "x-codex-parent-thread-id",
    ];
    assert(names@.map_values(|s: &str| s@) =~= traced_headers());
    let ghost hv = pairs_view(headers@);
    let mut out: Vec<(String, Json)> = Vec::new();
    let mut k: usize = 0;
    while k < 10
        invariant
            k <= 10,
            out@.len() <= k,
            hv == pairs_view(headers@),
            names@.map_values(|s: &str| s@) == traced_headers(),
            sorted_keys(view_members(out@)),
            view_members(out@) == put_all(Seq::empty(), header_ids(hv, k as nat)),
        decreases 10 - k,
    {
        let name = names[k];
        assert(name@ == traced_headers()[k as int]);
        match first_header(headers, name) {
            Some(v) => match identifier(v) {
                Some(v) => {
                    let field = String::from_str("headers.").concat(name);
                    record(&mut out, field, v, Ghost(header_ids(hv, k as nat)));
                },
                None => {},
            },
            None => {},
        }
        k = k + 1;
    }
    let ghost mut done = header_ids(hv, 10);
    match &header_turn {
        Some(t) => {
            add_metadata_ids(&mut out, "headers.x-codex-turn-metadata", t, Ghost(done));
            proof {
                done = done + metadata_ids("headers.x-codex-turn-metadata"@, t@, 17);
            }
        },
        None => {
            assert(done + Seq::empty() =~= done);
        },
    }
    let ghost after_turn = done;
    match body.get("client_metadata") {
        Some(meta) => {
            add_metadata_ids(&mut out, "body.client_metadata", meta, Ghost(done));
            proof {
                done = done + metadata_ids("body.client_metadata"@, meta@, 17);
            }
            match &body_turn {
                Some(t) => {
                    add_metadata_ids(&mut out, "body.client_metadata.x-codex-turn-metadata", t, Ghost(done));
                    proof {
                        done = done + metadata_ids("body.client_metadata.x-codex-turn-metadata"@, t@, 17);
                    }
                },
                None => {},
            }
        },
        None => {},
    }
    let ghost after_client = done;
    match body.get_str("prompt_cache_key") {
        Some(v) => match identifier(v) {
            Some(v) => {
                record(&mut out, String::from_str("body.prompt_cache_key"), v, Ghost(done));
                proof {
                    done = done.push(("body.prompt_cache_key"@, v@));
                }
            },
            None => {},
        },
        None => {},
    }
    proof {
        let l = identifier_list(hv, match header_turn {
            Some(t) => Some(t@),
            None => None,
        }, body@, match body_turn {
            Some(t) => Some(t@),
            None => None,
        });
        assert(done =~= l);
    }
    out
}


/// One field of the trace: its location, its value in the client's request
/// and upstream, and whether it is an item identifier of the body.
pub type Step = (Seq<char>, Option<Seq<char>>, Option<Seq<char>>, bool);

/// A trace as values: its entries (location, before, after, action) and the
/// count of what it omitted.
pub open spec fn rewrite_view(t: RequestRewrite) -> (Seq<(Seq<char>, Option<Seq<char>>, Option<Seq<char>>, Seq<char>)>, nat) {
    (
        t.entries@.map_values(|e: IdentifierRewrite| (e.field@, owned_view(e.before), owned_view(e.after), e.action@)),
        t.omitted as nat,
    )
}

/// The trace after one more field: recorded while it has room and both
/// values are recordable, else only counted.
pub open spec fn traced(
    t: (Seq<(Seq<char>, Option<Seq<char>>, Option<Seq<char>>, Seq<char>)>, nat),
    s: Step,
) -> (Seq<(Seq<char>, Option<Seq<char>>, Option<Seq<char>>, Seq<char>)>, nat) {
    if t.0.len() >= MAX_ENTRIES || (s.1 matches Some(b) && !recordable(b)) || (s.2 matches Some(a) && !recordable(a)) {
        (t.0, t.1 + 1)
    } else {
        (t.0.push((s.0, s.1, s.2, action_spec(s.1, s.2, s.3))), t.1)
    }
}

pub open spec fn trace_of(steps: Seq<Step>) -> (Seq<(Seq<char>, Option<Seq<char>>, Option<Seq<char>>, Seq<char>)>, nat)
    decreases steps.len(),
{
    if steps.len() == 0 {
        (Seq::empty(), 0)
    } else {
        traced(trace_of(steps.drop_last()), steps.last())
    }
}

/// The locations of two identifier maps together, sorted, each once.
pub open spec fn union_of(m: Seq<(Seq<char>, JsonView)>, ks: Seq<(Seq<char>, JsonView)>) -> Seq<(Seq<char>, JsonView)>
    decreases ks.len(),
{
    if ks.len() == 0 {
        m
    } else {
        put_member(union_of(m, ks.drop_last()), ks.last().0, JsonView::Null, true)
    }
}

/// A field for each location of either map, with its value in each.
pub open spec fn field_steps(
    locations: Seq<(Seq<char>, JsonView)>,
    incoming: Seq<(Seq<char>, JsonView)>,
    outgoing: Seq<(Seq<char>, JsonView)>,
) -> Seq<Step> {
    locations.map_values(|l: (Seq<char>, JsonView)| (l.0, text_in(lookup(incoming, l.0)), text_in(lookup(outgoing, l.0)), false))
}

pub open spec fn input_items(v: JsonView) -> Option<Seq<JsonView>> {
    match v.get("input"@) {
        Some(i) => i.items(),
        None => None,
    }
}

/// The location of an item identifier of the body.
pub open spec fn item_location(i: nat, f: Seq<char>) -> Seq<char> {
    "body.input["@ + decimal(i) + "]."@ + f
}

pub open spec fn item_step(source: Seq<JsonView>, body: Option<Seq<JsonView>>, i: int, f: Seq<char>) -> Seq<Step> {
    let before = text_in(source[i].get(f));
    let after = match body {
        Some(items) => if 0 <= i < items.len() {
            text_in(items[i].get(f))
        } else {
            None
        },
        None => None,
    };
    if before is Some || after is Some {
        seq![(item_location(i as nat, f), before, after, true)]
    } else {
        Seq::empty()
    }
}

/// The item identifiers (`id`, then `call_id`) of the first `k` input items
/// of the client's request, each with its value upstream.
pub open spec fn item_steps(source: Seq<JsonView>, body: Option<Seq<JsonView>>, k: nat) -> Seq<Step>
    decreases k,
{
    if k == 0 {
        Seq::empty()
    } else {
        item_steps(source, body, (k - 1) as nat) + item_step(source, body, k - 1, "id"@) + item_step(
            source,
            body,
            k - 1,
            "call_id"@,
        )
    }
}

/// Every field the trace of a request goes through, in order.
pub open spec fn compare_steps(
    incoming: Seq<(Seq<char>, JsonView)>,
    outgoing: Seq<(Seq<char>, JsonView)>,
    source: JsonView,
    body: JsonView,
) -> Seq<Step> {
    field_steps(union_of(union_of(Seq::empty(), incoming), outgoing), incoming, outgoing) + match input_items(source) {
        Some(items) => item_steps(items, input_items(body), items.len()),
        None => Seq::empty(),
    }
}

pub open spec fn input_count(v: JsonView) -> nat {
    match input_items(v) {
        Some(items) => items.len(),
        None => 0,
    }
}

fn add_locations(union: &mut Vec<(String, Json)>, ks: &Vec<(String, Json)>)
    requires
        sorted_keys(view_members(old(union)@)),
    ensures
        sorted_keys(view_members(final(union)@)),
        final(union)@.len() <= old(union)@.len() + ks@.len(),
        view_members(final(union)@) == union_of(view_members(old(union)@), view_members(ks@)),
{
    proof {
        lemma_view_members(ks@);
    }
    let ghost start = view_members(union@);
    let ghost kv = view_members(ks@);
    let mut i: usize = 0;
    while i < ks.len()
        invariant
            i <= ks.len(),
            kv == view_members(ks@),
            kv.len() == ks@.len(),
            forall|j: int| 0 <= j < kv.len() ==> #[trigger] kv[j] == (ks@[j].0@, ks@[j].1@),
            sorted_keys(view_members(union@)),
            union@.len() <= old(union)@.len() + i,
            view_members(union@) == union_of(start, kv.take(i as int)),
        decreases ks.len() - i,
    {
        assert(kv.take(i + 1).drop_last() =~= kv.take(i as int));
        put_sorted(union, ks[i].0.as_str(), Json::Null, true);
        i = i + 1;
    }
    assert(kv.take(i as int) =~= kv);
}

fn value_of<'a>(m: &'a Vec<(String, Json)>, k: &str) -> (r: Option<&'a str>)
    ensures
        opt_str(r) == text_in(lookup(view_members(m@), k@)),
{
    let i = crate::json::find_member(m, k);
    if i < m.len() {
        m[i].1.as_str()
    } else {
        None
    }
}

pub open spec fn opt_str(v: Option<&str>) -> Option<Seq<char>> {
    match v {
        Some(x) => Some(x@),
        None => None,
    }
}

fn traced_push(trace: &mut RequestRewrite, field: String, before: Option<&str>, after: Option<&str>, body_id: bool)
    requires
        old(trace).omitted < usize::MAX,
    ensures
        rewrite_view(*final(trace)) == traced(rewrite_view(*old(trace)), (field@, opt_str(before), opt_str(after), body_id)),
{
    let ghost t0 = rewrite_view(*trace);
    let ghost e0 = trace.entries@;
    push(trace, field, before, after, body_id);
    proof {
        let t1 = rewrite_view(*trace);
        let s = (field@, opt_str(before), opt_str(after), body_id);
        assert(crate::codex::trace::opt_view(before) == opt_str(before));
        assert(crate::codex::trace::opt_view(after) == opt_str(after));
        if !(e0.len() >= MAX_ENTRIES || (before matches Some(b) && !recordable(b@)) || (after matches Some(a) && !recordable(a@))) {
            assert(t1.0 =~= t0.0.push((s.0, s.1, s.2, action_spec(s.1, s.2, s.3)))) by {
                assert(trace.entries@.drop_last() == e0);
                assert(trace.entries@ =~= e0.push(trace.entries@.last()));
            }
        } else {
            assert(t1.0 =~= t0.0);
        }
    }
}

/// How the identifiers of a request changed on their way upstream: each
/// location of either side in order, then the item identifiers of the
/// client's input, each recorded or counted as omitted (see `traced`).
pub fn compare(
    incoming: &Vec<(String, Json)>,
    source: &Json,
    headers: &Vec<(String, String)>,
    header_turn: Option<Json>,
    body: &Json,
    body_turn: Option<Json>,
) -> (r: RequestRewrite)
    requires
        incoming@.len() + 2 * input_count(source@) + 64 < usize::MAX,
    ensures
        rewrite_view(r) == trace_of(compare_steps(
            view_members(incoming@),
            put_all(Seq::empty(), identifier_list(pairs_view(headers@), match header_turn {
                Some(t) => Some(t@),
                None => None,
            }, body@, match body_turn {
                Some(t) => Some(t@),
                None => None,
            })),
            source@,
            body@,
        )),
{
    let outgoing = client_identifiers(headers, header_turn, body, body_turn);
    let ghost inv = view_members(incoming@);
    let ghost outv = view_members(outgoing@);
    let mut union: Vec<(String, Json)> = Vec::new();
    add_locations(&mut union, incoming);
    add_locations(&mut union, &outgoing);
    proof {
        lemma_view_members(union@);
    }
    let ghost uv = view_members(union@);
    let ghost fsteps = field_steps(uv, inv, outv);
    let mut trace = RequestRewrite { entries: Vec::new(), omitted: 0 };
    proof {
        assert(rewrite_view(trace).0 =~= Seq::empty());
        assert(fsteps.take(0) =~= Seq::<Step>::empty());
    }
    let mut i: usize = 0;
    while i < union.len()
        invariant
            i <= union.len(),
            union@.len() <= incoming@.len() + 62,
            uv == view_members(union@),
            uv.len() == union@.len(),
            forall|j: int| 0 <= j < uv.len() ==> #[trigger] uv[j] == (union@[j].0@, union@[j].1@),
            inv == view_members(incoming@),
            outv == view_members(outgoing@),
            fsteps == field_steps(uv, inv, outv),
            rewrite_view(trace) == trace_of(fsteps.take(i as int)),
            trace.omitted <= i,
        decreases union.len() - i,
    {
        let field = union[i].0.as_str();
        let before = value_of(incoming, field);
        let after = value_of(&outgoing, field);
        proof {
            assert(fsteps.take(i + 1).drop_last() =~= fsteps.take(i as int));
            assert(fsteps[i as int] == (field@, opt_str(before), opt_str(after), false));
        }
        traced_push(&mut trace, String::from_str(field), before, after, false);
        i = i + 1;
    }
    proof {
        assert(fsteps.take(i as int) =~= fsteps);
    }
    let ghost done = fsteps;
    match source.get("input") {
        Some(input) => match input.as_array() {
            Some(items) => {
                proof {
                    lemma_view_items(items@);
                }
                let body_items = match body.get("input") {
                    Some(b) => b.as_array(),
                    None => None,
                };
                let ghost sv = view_items(items@);
                let ghost bv = match body_items {
                    Some(b) => Some(view_items(b@)),
                    None => None,
                };
                assert(bv == input_items(body@));
                let mut k: usize = 0;
                while k < items.len()
                    invariant
                        k <= items.len(),
                        sv == view_items(items@),
                        sv.len() == items@.len(),
                        forall|j: int| 0 <= j < sv.len() ==> #[trigger] sv[j] == items@[j]@,
                        bv == match body_items {
                            Some(b) => Some(view_items(b@)),
                            None => None,
                        },
                        items@.len() == input_count(source@),
                        union@.len() <= incoming@.len() + 62,
                        incoming@.len() + 2 * input_count(source@) + 64 < usize::MAX,
                        rewrite_view(trace) == trace_of(done + item_steps(sv, bv, k as nat)),
                        trace.omitted <= union@.len() + 2 * k,
                    decreases items.len() - k,
                {
                    let item = &items[k];
                    proof {
                        match body_items {
                            Some(b) => lemma_view_items(b@),
                            None => {},
                        }
                    }
                    let other = match body_items {
                        Some(b) => if k < b.len() {
                            proof {
                                lemma_view_items(b@);
                            }
                            Some(&b[k])
                        } else {
                            None
                        },
                        None => None,
                    };
                    let ghost mid = done + item_steps(sv, bv, k as nat);
                    assert(sv[k as int] == item@);
                    assert(other matches Some(o) ==> (bv matches Some(bs) && k < bs.len() && bs[k as int] == o@));
                    assert(other is None ==> (bv is None || k >= bv.unwrap().len()));
                    let b1 = item.get_str("id");
                    let a1 = match other {
                        Some(o) => o.get_str("id"),
                        None => None,
                    };
                    if b1.is_some() || a1.is_some() {
                        let field = String::from_str("body.input[").concat(decimal_usize(k).as_str()).concat("].").concat("id");
                        proof {
                            assert(item_step(sv, bv, k as int, "id"@) == seq![(field@, opt_str(b1), opt_str(a1), true)]);
                            assert((mid + item_step(sv, bv, k as int, "id"@)).drop_last() =~= mid);
                        }
                        traced_push(&mut trace, field, b1, a1, true);
                        assert(trace_of(mid + item_step(sv, bv, k as int, "id"@)) == traced(trace_of(mid), (field@, opt_str(b1), opt_str(a1), true)));
                    } else {
                        assert(mid + item_step(sv, bv, k as int, "id"@) =~= mid);
                    }
                    let ghost mid2 = mid + item_step(sv, bv, k as int, "id"@);
                    let b2 = item.get_str("call_id");
                    let a2 = match other {
                        Some(o) => o.get_str("call_id"),
                        None => None,
                    };
                    if b2.is_some() || a2.is_some() {
                        let field = String::from_str("body.input[").concat(decimal_usize(k).as_str()).concat("].").concat("call_id");
                        proof {
                            assert(item_step(sv, bv, k as int, "call_id"@) == seq![(field@, opt_str(b2), opt_str(a2), true)]);
                            assert((mid2 + item_step(sv, bv, k as int, "call_id"@)).drop_last() =~= mid2);
                        }
                        traced_push(&mut trace, field, b2, a2, true);
                        assert(trace_of(mid2 + item_step(sv, bv, k as int, "call_id"@)) == traced(trace_of(mid2), (field@, opt_str(b2), opt_str(a2), true)));
                    } else {
                        assert(mid2 + item_step(sv, bv, k as int, "call_id"@) =~= mid2);
                    }
                    proof {
                        assert(done + item_steps(sv, bv, (k + 1) as nat) =~= mid2 + item_step(sv, bv, k as int, "call_id"@));
                    }
                    k = k + 1;
                }
            },
            None => {
                assert(done + Seq::<Step>::empty() =~= done);
            },
        },
        None => {
            assert(done + Seq::<Step>::empty() =~= done);
        },
    }
    trace
}

} // verus!
