//! The upstream headers of a Codex request: authentication, content
//! negotiation, the client's identity headers under their canonical names
//! and mapped onto the account, the binding's session headers, and the turn
//! metadata projected from every validated source.
use vstd::prelude::*;
use crate::codex::oauth_browser::{pair, pairs_of};
use crate::accounts::{Account, Credentials};
use crate::codex::compaction::turn_metadata;
use crate::codex::identity_input::RawValue;
use crate::codex::inbound::ParsedRequest;
use crate::codex::ingress::{HeaderMetadata, coherent, ingress_spec, metadata, metadata_spec, opt_view, raw_views, text_views, texts_of};
use crate::codex::request::{
    CachePartition, auth_header_pairs, auth_headers, auth_headers_ok, cache_partition, cache_text, request_body,
    request_body_spec, scoped_name,
};
use crate::ids::uuid_v5;
use crate::protocol::RequestKind;
use crate::json::{JsonView, law_get_after_insert, lookup, lemma_view_items, lemma_view_members, view_items, view_members};
use crate::sorted_members::{put_sorted, sorted_keys};
use crate::codex::projection::{Readings, normalized_metadata, normalized_spec, readings_view};
use crate::codex::request::{identity_kind_spec, is_installation_field, mapped_identity, maps_to};
use crate::identity::{IdentityMap, PairView};
use crate::ids::hyphenated_spec;
use crate::json::Json;
use crate::json_text::{json_text, to_json_text};
use crate::text::{blank, is_blank, str_eq, trim_spec};
use crate::types::{Error, Result};
use crate::urls::{header_bytes_ok, header_value_ok};
use vstd::utf8::encode_utf8;
use vstd::map_lib::lemma_submap_of_trans;

verus! {

/// A header list without the entries named `n`.
pub open spec fn without_name(hs: Seq<(Seq<char>, Seq<char>)>, n: Seq<char>) -> Seq<(Seq<char>, Seq<char>)>
    decreases hs.len(),
{
    if hs.len() == 0 {
        hs
    } else {
        let rest = without_name(hs.drop_last(), n);
        if hs.last().0 == n {
            rest
        } else {
            rest.push(hs.last())
        }
    }
}

/// `HeaderMap::insert`: the value replaces every earlier value of the name.
pub open spec fn set_header_spec(hs: Seq<(Seq<char>, Seq<char>)>, n: Seq<char>, v: Seq<char>) -> Seq<(Seq<char>, Seq<char>)> {
    without_name(hs, n).push((n, v))
}

/// The value a header list holds for `n`: its last entry of that name.
pub open spec fn header_of(hs: Seq<(Seq<char>, Seq<char>)>, n: Seq<char>) -> Option<Seq<char>>
    decreases hs.len(),
{
    if hs.len() == 0 {
        None
    } else if hs.last().0 == n {
        Some(hs.last().1)
    } else {
        header_of(hs.drop_last(), n)
    }
}

/// The value is added only where the name has none.
pub open spec fn insert_missing_spec(hs: Seq<(Seq<char>, Seq<char>)>, n: Seq<char>, v: Seq<char>) -> Seq<(Seq<char>, Seq<char>)> {
    if header_of(hs, n) is Some {
        hs
    } else {
        hs.push((n, v))
    }
}

pub proof fn lemma_without_name(hs: Seq<(Seq<char>, Seq<char>)>, n: Seq<char>, m: Seq<char>)
    ensures
        header_of(without_name(hs, n), n) is None,
        m != n ==> header_of(without_name(hs, n), m) == header_of(hs, m),
    decreases hs.len(),
{
    if hs.len() > 0 {
        lemma_without_name(hs.drop_last(), n, m);
        let rest = without_name(hs.drop_last(), n);
        if hs.last().0 != n {
            assert(rest.push(hs.last()).drop_last() =~= rest);
        }
    }
}

/// What setting a header does to the value of each name.
pub proof fn lemma_set_header(hs: Seq<(Seq<char>, Seq<char>)>, n: Seq<char>, v: Seq<char>, m: Seq<char>)
    ensures
        header_of(set_header_spec(hs, n, v), n) == Some(v),
        m != n ==> header_of(set_header_spec(hs, n, v), m) == header_of(hs, m),
{
    lemma_without_name(hs, n, m);
    assert(set_header_spec(hs, n, v).drop_last() =~= without_name(hs, n));
}

/// What adding a missing header does to the value of each name.
pub proof fn lemma_insert_missing(hs: Seq<(Seq<char>, Seq<char>)>, n: Seq<char>, v: Seq<char>, m: Seq<char>)
    ensures
        header_of(insert_missing_spec(hs, n, v), n) == if header_of(hs, n) is Some {
            header_of(hs, n)
        } else {
            Some(v)
        },
        m != n ==> header_of(insert_missing_spec(hs, n, v), m) == header_of(hs, m),
{
    assert(hs.push((n, v)).drop_last() =~= hs);
}

fn copy_pair(p: &(String, String)) -> (r: (String, String))
    ensures
        r.0@ == p.0@ && r.1@ == p.1@,
{
    pair(p.0.as_str(), p.1.as_str())
}

/// Sets `name` to `value`, replacing every value it had.
pub fn set_header(hs: &mut Vec<(String, String)>, name: &str, value: &str)
    ensures
        pairs_of(final(hs)@) == set_header_spec(pairs_of(old(hs)@), name@, value@),
{
    let ghost all = pairs_of(hs@);
    let mut out: Vec<(String, String)> = Vec::new();
    let mut i: usize = 0;
    while i < hs.len()
        invariant
            i <= hs.len(),
            all == pairs_of(hs@),
            pairs_of(out@) == without_name(all.take(i as int), name@),
        decreases hs.len() - i,
    {
        let ghost before = out@;
        assert(all.take(i + 1).drop_last() =~= all.take(i as int));
        if !str_eq(hs[i].0.as_str(), name) {
            out.push(copy_pair(&hs[i]));
            assert(pairs_of(out@) =~= pairs_of(before).push(all[i as int]));
        }
        i = i + 1;
    }
    assert(all.take(i as int) =~= all);
    let ghost before = out@;
    out.push(pair(name, value));
    assert(pairs_of(out@) =~= pairs_of(before).push((name@, value@)));
    *hs = out;
}

fn has_name(hs: &Vec<(String, String)>, name: &str) -> (r: bool)
    ensures
        r == header_of(pairs_of(hs@), name@) is Some,
{
    let ghost all = pairs_of(hs@);
    let mut i: usize = hs.len();
    assert(all.take(i as int) =~= all);
    while i > 0
        invariant
            i <= hs.len(),
            all == pairs_of(hs@),
            header_of(all, name@) == header_of(all.take(i as int), name@),
        decreases i,
    {
        assert(all.take(i as int).drop_last() =~= all.take(i - 1));
        if str_eq(hs[i - 1].0.as_str(), name) {
            return true;
        }
        i = i - 1;
    }
    false
}

/// Adds `name` with `value` where it has no value yet.
pub fn insert_missing(hs: &mut Vec<(String, String)>, name: &str, value: &str)
    ensures
        pairs_of(final(hs)@) == insert_missing_spec(pairs_of(old(hs)@), name@, value@),
{
    if !has_name(hs, name) {
        let ghost before = hs@;
        hs.push(pair(name, value));
        assert(pairs_of(hs@) =~= pairs_of(before).push((name@, value@)));
    }
}

/// The header name an identity header is sent under: the underscore forms
/// become the hyphenated ones, and a conversation header becomes the
/// session header.
pub open spec fn canonical_name(n: Seq<char>) -> Seq<char> {
    if n == "session_id"@ || n == "conversation_id"@ || n == "conversation-id"@ {
        "session-id"@
    } else if n == "thread_id"@ {
        "thread-id"@
    } else {
        n
    }
}

pub open spec fn is_conversation(n: Seq<char>) -> bool {
    n == "conversation_id"@ || n == "conversation-id"@
}

pub open spec fn is_session(n: Seq<char>) -> bool {
    n == "session-id"@ || n == "session_id"@
}

/// A name that is sent under another one.
pub open spec fn is_alias(n: Seq<char>) -> bool {
    n == "session_id"@ || n == "thread_id"@ || is_conversation(n)
}

/// No header of the list is sent under an alias name.
pub open spec fn no_alias(hs: Seq<(Seq<char>, Seq<char>)>) -> bool {
    forall|i: int| 0 <= i < hs.len() ==> !is_alias(#[trigger] hs[i].0)
}

proof fn lemma_without_no_alias(hs: Seq<(Seq<char>, Seq<char>)>, n: Seq<char>)
    requires
        no_alias(hs),
    ensures
        no_alias(without_name(hs, n)),
    decreases hs.len(),
{
    if hs.len() > 0 {
        let d = hs.drop_last();
        assert forall|i: int| 0 <= i < d.len() implies !is_alias(#[trigger] d[i].0) by {
            assert(d[i] == hs[i]);
        }
        lemma_without_no_alias(d, n);
        let rest = without_name(d, n);
        if hs.last().0 != n {
            assert forall|i: int| 0 <= i < rest.push(hs.last()).len() implies !is_alias(#[trigger] rest.push(hs.last())[i].0) by {
                if i < rest.len() {
                    assert(rest.push(hs.last())[i] == rest[i]);
                }
            }
        }
    }
}

proof fn lemma_set_no_alias(hs: Seq<(Seq<char>, Seq<char>)>, n: Seq<char>, v: Seq<char>)
    requires
        no_alias(hs),
        !is_alias(n),
    ensures
        no_alias(set_header_spec(hs, n, v)),
{
    lemma_without_no_alias(hs, n);
    let w = without_name(hs, n);
    assert forall|i: int| 0 <= i < w.push((n, v)).len() implies !is_alias(#[trigger] w.push((n, v))[i].0) by {
        if i < w.len() {
            assert(w.push((n, v))[i] == w[i]);
        }
    }
}

proof fn lemma_insert_no_alias(hs: Seq<(Seq<char>, Seq<char>)>, n: Seq<char>, v: Seq<char>)
    requires
        no_alias(hs),
        !is_alias(n),
    ensures
        no_alias(insert_missing_spec(hs, n, v)),
{
    assert forall|i: int| 0 <= i < hs.push((n, v)).len() implies !is_alias(#[trigger] hs.push((n, v))[i].0) by {
        if i < hs.len() {
            assert(hs.push((n, v))[i] == hs[i]);
        }
    }
}

/// The canonical name of a header is never an alias.
proof fn lemma_canonical_not_alias(n: Seq<char>)
    ensures
        !is_alias(canonical_name(n)),
{
    reveal_strlit("session_id");
    reveal_strlit("conversation_id");
    reveal_strlit("conversation-id");
    reveal_strlit("thread_id");
    reveal_strlit("session-id");
    reveal_strlit("thread-id");
    assert("session-id"@[7] != "session_id"@[7]);
    assert("session-id"@[0] != "conversation_id"@[0]);
    assert("session-id"@.len() != "conversation-id"@.len());
    assert("session-id"@.len() != "thread_id"@.len());
    assert("thread-id"@[6] != "thread_id"@[6]);
    assert("thread-id"@.len() != "session_id"@.len());
    assert("thread-id"@[0] != "conversation_id"@[0]);
    assert("thread-id"@[0] != "conversation-id"@[0]);
}

pub fn canonical(name: &str) -> (r: Option<&'static str>)
    ensures
        is_alias(name@) ==> (r matches Some(c) && c@ == canonical_name(name@)),
        !is_alias(name@) ==> r is None,
{
    proof {
        reveal_strlit("session_id");
        reveal_strlit("conversation_id");
        reveal_strlit("conversation-id");
        reveal_strlit("thread_id");
        reveal_strlit("session-id");
        reveal_strlit("thread-id");
    }
    if str_eq(name, "session_id") || str_eq(name, "conversation_id") || str_eq(name, "conversation-id") {
        Some("session-id")
    } else if str_eq(name, "thread_id") {
        Some("thread-id")
    } else {
        None
    }
}

fn conversation(name: &str) -> (r: bool)
    ensures
        r == is_conversation(name@),
{
    str_eq(name, "conversation_id") || str_eq(name, "conversation-id")
}

/// Only the turn metadata header itself is sent as turn metadata.
pub proof fn lemma_canonical_turn(n: Seq<char>)
    ensures
        n != "x-codex-turn-metadata"@ ==> canonical_name(n) != "x-codex-turn-metadata"@,
        canonical_name("x-codex-turn-metadata"@) == "x-codex-turn-metadata"@,
{
    reveal_strlit("session-id");
    reveal_strlit("thread-id");
    reveal_strlit("x-codex-turn-metadata");
    reveal_strlit("session_id");
    reveal_strlit("conversation_id");
    reveal_strlit("conversation-id");
    reveal_strlit("thread_id");
    assert("session-id"@.len() != "x-codex-turn-metadata"@.len());
    assert("thread-id"@.len() != "x-codex-turn-metadata"@.len());
    assert("session_id"@.len() != "x-codex-turn-metadata"@.len());
    assert("conversation_id"@.len() != "x-codex-turn-metadata"@.len());
    assert("conversation-id"@.len() != "x-codex-turn-metadata"@.len());
    assert("thread_id"@.len() != "x-codex-turn-metadata"@.len());
}

/// One identity header of the client's request, with its value as text and,
/// for turn metadata, what that text reads as JSON and the turn metadata
/// texts nested in it with their readings.
pub struct IdentityHeader {
    pub name: String,
    pub text: String,
    pub parsed: Option<Json>,
    pub readings: Readings,
}

pub open spec fn identity_names(identity: Seq<IdentityHeader>) -> Seq<Seq<char>> {
    identity.map_values(|h: IdentityHeader| h.name@)
}

/// The request names the session explicitly, so a conversation header gives
/// way to it.
pub open spec fn explicit_session(names: Seq<Seq<char>>) -> bool {
    exists|i: int| 0 <= i < names.len() && is_session(#[trigger] names[i])
}

/// The outbound value of one identity header, between the binding's mapping
/// before the request (`lo`) and after it (`hi`): nothing for a blank value;
/// the client metadata projection of turn metadata; otherwise the mapped
/// identity.
pub open spec fn identity_value(h: IdentityHeader, v: Option<Seq<char>>, a: Account, lo: PairView, hi: IdentityMap) -> bool {
    if blank(h.text@) {
        v is None
    } else if h.name@ == "x-codex-turn-metadata"@ {
        exists|f: PairView| {
            &&& lo.submap_of(f)
            &&& f.submap_of(hi.forward())
            &&& h.parsed matches Some(p)
            &&& normalized_spec(p@, a, f, readings_view(h.readings), usize::MAX as nat) matches Some(x)
            &&& v == Some(json_text(x))
        }
    } else if is_installation_field(h.name@) {
        v == Some(hyphenated_spec(a.profile.installation_id))
    } else if identity_kind_spec(h.name@) is None {
        v == Some(h.text@)
    } else {
        v matches Some(u) && maps_to(hi, identity_kind_spec(h.name@).unwrap(), trim_spec(h.text@), u)
    }
}

/// The headers after the first `k` identity headers are placed: each
/// non-blank one under its canonical name, replacing what was there, except
/// a conversation header where the session is named explicitly.
pub open spec fn placed(
    hs: Seq<(Seq<char>, Seq<char>)>,
    names: Seq<Seq<char>>,
    values: Seq<Option<Seq<char>>>,
    k: nat,
) -> Seq<(Seq<char>, Seq<char>)>
    decreases k,
{
    if k == 0 {
        hs
    } else {
        let before = placed(hs, names, values, (k - 1) as nat);
        let i = k - 1;
        if values[i] is Some && !(is_conversation(names[i]) && explicit_session(names)) {
            set_header_spec(before, canonical_name(names[i]), values[i].unwrap())
        } else {
            before
        }
    }
}

fn header_checked(value: &str) -> (r: Result<()>)
    ensures
        r is Ok <==> header_bytes_ok(encode_utf8(value@)),
{
    if header_value_ok(value) {
        Ok(())
    } else {
        Err(Error::invalid("Invalid normalized header"))
    }
}

fn names_explicit_session(identity: &Vec<IdentityHeader>) -> (r: bool)
    ensures
        r == explicit_session(identity_names(identity@)),
{
    proof {
        reveal_strlit("session-id");
        reveal_strlit("session_id");
    }
    let mut i: usize = 0;
    while i < identity.len()
        invariant
            i <= identity.len(),
            forall|j: int| 0 <= j < i ==> !is_session(#[trigger] identity_names(identity@)[j]),
        decreases identity.len() - i,
    {
        let n = identity[i].name.as_str();
        if str_eq(n, "session-id") || str_eq(n, "session_id") {
            assert(is_session(identity_names(identity@)[i as int]));
            return true;
        }
        i = i + 1;
    }
    false
}

proof fn lemma_placed_prefix(
    hs: Seq<(Seq<char>, Seq<char>)>,
    names: Seq<Seq<char>>,
    v1: Seq<Option<Seq<char>>>,
    v2: Seq<Option<Seq<char>>>,
    k: nat,
)
    requires
        k <= v1.len(),
        k <= v2.len(),
        forall|j: int| 0 <= j < k ==> v1[j] == v2[j],
    ensures
        placed(hs, names, v1, k) == placed(hs, names, v2, k),
    decreases k,
{
    if k > 0 {
        lemma_placed_prefix(hs, names, v1, v2, (k - 1) as nat);
    }
}

proof fn lemma_identity_value_grows(h: IdentityHeader, v: Option<Seq<char>>, a: Account, lo: PairView, m1: IdentityMap, m2: IdentityMap)
    requires
        identity_value(h, v, a, lo, m1),
        m1.forward().submap_of(m2.forward()),
    ensures
        identity_value(h, v, a, lo, m2),
{
    if !blank(h.text@) && h.name@ == "x-codex-turn-metadata"@ {
        let f = choose|f: PairView| {
            &&& lo.submap_of(f)
            &&& f.submap_of(m1.forward())
            &&& h.parsed matches Some(p)
            &&& normalized_spec(p@, a, f, readings_view(h.readings), usize::MAX as nat) matches Some(x)
            &&& v == Some(json_text(x))
        };
        lemma_submap_of_trans(f, m1.forward(), m2.forward());
    } else if !blank(h.text@) && !is_installation_field(h.name@) && identity_kind_spec(h.name@) is Some {
        let k = (identity_kind_spec(h.name@).unwrap(), trim_spec(h.text@));
        assert(m1.forward().contains_key(k));
    }
}

/// Places the client's identity headers, each mapped onto the account, and
/// gives the projected turn metadata last placed.
pub fn place_identity(
    hs: &mut Vec<(String, String)>,
    identity: &Vec<IdentityHeader>,
    account: &Account,
    ids: &mut IdentityMap,
) -> (r: Result<Option<Json>>)
    requires
        old(ids).wf(),
    ensures
        final(ids).wf(),
        final(ids).binding_of() == old(ids).binding_of(),
        old(ids).forward().submap_of(final(ids).forward()),
        r is Ok ==> exists|vals: Seq<Option<Seq<char>>>| {
            &&& vals.len() == identity@.len()
            &&& forall|i: int| 0 <= i < identity@.len() ==> identity_value(#[trigger] identity@[i], vals[i], *account, old(ids).forward(), *final(ids))
            &&& pairs_of(final(hs)@) == placed(pairs_of(old(hs)@), identity_names(identity@), vals, identity@.len())
        },
        r matches Ok(Some(x)) ==> header_of(pairs_of(final(hs)@), "x-codex-turn-metadata"@) == Some(json_text(x@)),
        r matches Ok(None) ==> header_of(pairs_of(final(hs)@), "x-codex-turn-metadata"@) == header_of(pairs_of(old(hs)@), "x-codex-turn-metadata"@),
        identity@.len() == 0 ==> r matches Ok(None),
        no_alias(pairs_of(old(hs)@)) ==> no_alias(pairs_of(final(hs)@)),
{
    proof {
        reveal_strlit("x-codex-turn-metadata");
    }
    let ghost names = identity_names(identity@);
    let ghost start = pairs_of(hs@);
    let ghost lo = ids.forward();
    let explicit = names_explicit_session(identity);
    let mut turn: Option<Json> = None;
    let ghost mut vals: Seq<Option<Seq<char>>> = Seq::empty();
    let mut i: usize = 0;
    while i < identity.len()
        invariant
            i <= identity.len(),
            names == identity_names(identity@),
            explicit == explicit_session(names),
            ids.wf(),
            ids.binding_of() == old(ids).binding_of(),
            lo == old(ids).forward(),
            lo.submap_of(ids.forward()),
            vals.len() == i,
            forall|j: int| 0 <= j < i ==> identity_value(#[trigger] identity@[j], vals[j], *account, lo, *ids),
            pairs_of(hs@) == placed(start, names, vals, i as nat),
            turn matches Some(x) ==> header_of(pairs_of(hs@), "x-codex-turn-metadata"@) == Some(json_text(x@)),
            turn is None ==> header_of(pairs_of(hs@), "x-codex-turn-metadata"@) == header_of(start, "x-codex-turn-metadata"@),
            i == 0 ==> turn is None,
            no_alias(start) ==> no_alias(pairs_of(hs@)),
            start == pairs_of(old(hs)@),
        decreases identity.len() - i,
    {
        let h = &identity[i];
        let ghost before_ids = *ids;
        let ghost before_hs = pairs_of(hs@);
        if is_blank(h.text.as_str()) {
            proof {
                let nv = vals.push(None);
                lemma_placed_prefix(start, names, vals, nv, i as nat);
                vals = nv;
            }
            i = i + 1;
            continue;
        }
        let is_turn = str_eq(h.name.as_str(), "x-codex-turn-metadata");
        let mut new_turn: Option<Json> = None;
        let mapped = if is_turn {
            let doc = match &h.parsed {
                Some(d) => d,
                None => {
                    return Err(Error::invalid("Invalid turn metadata"));
                },
            };
            let x = match normalized_metadata(doc, account, ids, &h.readings, usize::MAX) {
                Ok(x) => x,
                Err(e) => {
                    proof {
                        lemma_submap_of_trans(lo, before_ids.forward(), ids.forward());
                    }
                    return Err(e);
                },
            };
            let t = to_json_text(&x);
            proof {
                let f = ids.forward();
                lemma_submap_of_trans(lo, before_ids.forward(), f);
                assert(f.submap_of(f));
                assert(identity_value(*h, Some(t@), *account, lo, *ids));
            }
            new_turn = Some(x);
            t
        } else {
            match mapped_identity(h.name.as_str(), h.text.as_str(), account, ids) {
                Ok(m) => m,
                Err(e) => {
                    return Err(e);
                },
            }
        };
        assert(is_turn ==> (new_turn matches Some(y) && json_text(y@) == mapped@));
        assert(is_turn == (h.name@ == "x-codex-turn-metadata"@));
        proof {
            lemma_submap_of_trans(lo, before_ids.forward(), ids.forward());
            assert forall|j: int| 0 <= j < i implies identity_value(#[trigger] identity@[j], vals[j], *account, lo, *ids) by {
                lemma_identity_value_grows(identity@[j], vals[j], *account, lo, before_ids, *ids);
            }
            let nv = vals.push(Some(mapped@));
            lemma_placed_prefix(start, names, vals, nv, i as nat);
            vals = nv;
            assert(names[i as int] == h.name@);
        }
        let suppressed = explicit && conversation(h.name.as_str());
        if !suppressed {
            match header_checked(mapped.as_str()) {
                Ok(()) => {},
                Err(e) => {
                    return Err(e);
                },
            }
            let target = match canonical(h.name.as_str()) {
                Some(c) => c,
                None => h.name.as_str(),
            };
            set_header(hs, target, mapped.as_str());
            proof {
                lemma_set_header(before_hs, target@, mapped@, "x-codex-turn-metadata"@);
                lemma_canonical_turn(h.name@);
                lemma_canonical_not_alias(h.name@);
                if no_alias(start) {
                    lemma_set_no_alias(before_hs, target@, mapped@);
                }
            }
            assert(target@ == canonical_name(h.name@));
            if is_turn {
                turn = new_turn;
                assert(header_of(pairs_of(hs@), "x-codex-turn-metadata"@) == Some(mapped@));
            } else {
                assert(header_of(pairs_of(hs@), "x-codex-turn-metadata"@) == header_of(before_hs, "x-codex-turn-metadata"@));
            }
        }
        i = i + 1;
    }
    Ok(turn)
}


/// Every header of `a` other than the turn metadata keeps its value in `b`.
pub open spec fn keeps(a: Seq<(Seq<char>, Seq<char>)>, b: Seq<(Seq<char>, Seq<char>)>) -> bool {
    forall|n: Seq<char>|
        n != "x-codex-turn-metadata"@ && (#[trigger] header_of(a, n)) is Some ==> header_of(b, n) == header_of(a, n)
}

proof fn lemma_keeps_refl(a: Seq<(Seq<char>, Seq<char>)>)
    ensures
        keeps(a, a),
{
}

proof fn lemma_keeps_trans(a: Seq<(Seq<char>, Seq<char>)>, b: Seq<(Seq<char>, Seq<char>)>, c: Seq<(Seq<char>, Seq<char>)>)
    requires
        keeps(a, b),
        keeps(b, c),
    ensures
        keeps(a, c),
{
    assert forall|n: Seq<char>| n != "x-codex-turn-metadata"@ && (#[trigger] header_of(a, n)) is Some implies header_of(c, n) == header_of(a, n) by {
        assert(header_of(b, n) == header_of(a, n));
    }
}

proof fn lemma_keeps_insert(a: Seq<(Seq<char>, Seq<char>)>, name: Seq<char>, v: Seq<char>)
    ensures
        keeps(a, insert_missing_spec(a, name, v)),
{
    assert forall|n: Seq<char>| n != "x-codex-turn-metadata"@ && (#[trigger] header_of(a, n)) is Some implies header_of(insert_missing_spec(a, name, v), n) == header_of(a, n) by {
        lemma_insert_missing(a, name, v, n);
    }
}

proof fn lemma_keeps_set_turn(a: Seq<(Seq<char>, Seq<char>)>, v: Seq<char>)
    ensures
        keeps(a, set_header_spec(a, "x-codex-turn-metadata"@, v)),
{
    assert forall|n: Seq<char>| n != "x-codex-turn-metadata"@ && (#[trigger] header_of(a, n)) is Some implies header_of(set_header_spec(a, "x-codex-turn-metadata"@, v), n) == header_of(a, n) by {
        lemma_set_header(a, "x-codex-turn-metadata"@, v, n);
    }
}

/// Adds a missing header after checking that its value can be sent.
fn add_missing(hs: &mut Vec<(String, String)>, name: &str, value: &str) -> (r: Result<()>)
    ensures
        keeps(pairs_of(old(hs)@), pairs_of(final(hs)@)),
        r is Ok ==> header_of(pairs_of(final(hs)@), name@) is Some,
        no_alias(pairs_of(old(hs)@)) && !is_alias(name@) ==> no_alias(pairs_of(final(hs)@)),
{
    proof {
        lemma_keeps_refl(pairs_of(hs@));
    }
    if has_name(hs, name) {
        return Ok(());
    }
    match header_checked(value) {
        Ok(()) => {},
        Err(e) => {
            return Err(e);
        },
    }
    proof {
        lemma_keeps_insert(pairs_of(hs@), name@, value@);
        lemma_insert_missing(pairs_of(hs@), name@, value@, name@);
        if no_alias(pairs_of(hs@)) && !is_alias(name@) {
            lemma_insert_no_alias(pairs_of(hs@), name@, value@);
        }
    }
    insert_missing(hs, name, value);
    Ok(())
}

/// The headers every request starts from: the account's authentication
/// headers, then the content negotiation for a stream of events.
pub open spec fn base_headers(a: Account, c: Credentials) -> Seq<(Seq<char>, Seq<char>)> {
    set_header_spec(
        set_header_spec(auth_header_pairs(a, c), "content-type"@, "application/json"@),
        "accept"@,
        "text/event-stream"@,
    )
}

proof fn lemma_base_no_alias(a: Account, c: Credentials)
    ensures
        no_alias(base_headers(a, c)),
{
    reveal_strlit("authorization");
    reveal_strlit("chatgpt-account-id");
    reveal_strlit("originator");
    reveal_strlit("user-agent");
    reveal_strlit("content-type");
    reveal_strlit("accept");
    reveal_strlit("session_id");
    reveal_strlit("conversation_id");
    reveal_strlit("conversation-id");
    reveal_strlit("thread_id");
    assert("session_id"@[0] == 's' && "thread_id"@[0] == 't' && "conversation_id"@[0] == 'c' && "conversation-id"@[0] == 'c');
    assert("conversation_id"@.len() == 15 && "conversation-id"@.len() == 15);
    assert("authorization"@[0] == 'a' && "accept"@[0] == 'a' && "originator"@[0] == 'o' && "user-agent"@[0] == 'u');
    assert("chatgpt-account-id"@.len() == 18 && "content-type"@.len() == 12);
    let p = auth_header_pairs(a, c);
    assert(p[0].0 == "authorization"@ && p[1].0 == "chatgpt-account-id"@ && p[2].0 == "originator"@ && p[3].0 == "user-agent"@);
    assert("originator"@[0] != "session_id"@[0]);
    assert("user-agent"@[0] != "session_id"@[0]);
    assert(no_alias(p));
    lemma_set_no_alias(p, "content-type"@, "application/json"@);
    lemma_set_no_alias(set_header_spec(p, "content-type"@, "application/json"@), "accept"@, "text/event-stream"@);
}

/// Names that are never aliases.
proof fn lemma_plain_names()
    ensures
        !is_alias("session-id"@),
        !is_alias("thread-id"@),
        !is_alias("x-client-request-id"@),
        !is_alias("x-codex-installation-id"@),
        !is_alias("x-codex-window-id"@),
        !is_alias("x-codex-parent-thread-id"@),
        !is_alias("x-codex-turn-metadata"@),
{
    reveal_strlit("session-id");
    reveal_strlit("thread-id");
    reveal_strlit("x-client-request-id");
    reveal_strlit("x-codex-installation-id");
    reveal_strlit("x-codex-window-id");
    reveal_strlit("x-codex-parent-thread-id");
    reveal_strlit("x-codex-turn-metadata");
    reveal_strlit("session_id");
    reveal_strlit("conversation_id");
    reveal_strlit("conversation-id");
    reveal_strlit("thread_id");
    assert("session_id"@[0] == 's' && "thread_id"@[0] == 't' && "conversation_id"@[0] == 'c' && "conversation-id"@[0] == 'c');
    assert("conversation_id"@.len() == 15 && "conversation-id"@.len() == 15);
    assert("x-client-request-id"@[0] == 'x' && "x-codex-installation-id"@[0] == 'x' && "x-codex-window-id"@[0] == 'x');
    assert("x-codex-parent-thread-id"@[0] == 'x' && "x-codex-turn-metadata"@[0] == 'x');
    assert("session-id"@[7] != "session_id"@[7]);
    assert("thread-id"@[6] != "thread_id"@[6]);
    assert("session-id"@.len() != "thread_id"@.len());
    assert("thread-id"@.len() != "session_id"@.len());
}

/// The values the client's identity headers give for a header name.
fn header_texts(identity: &Vec<IdentityHeader>, name: &str) -> (r: Vec<Option<String>>)
    ensures
        identity@.len() == 0 ==> r@.len() == 0,
{
    let mut out: Vec<Option<String>> = Vec::new();
    let mut i: usize = 0;
    while i < identity.len()
        invariant
            i <= identity.len(),
            out@.len() <= i,
        decreases identity.len() - i,
    {
        if str_eq(identity[i].name.as_str(), name) {
            out.push(Some(identity[i].text.clone()));
        }
        i = i + 1;
    }
    out
}

/// The values a field has in the metadata sources, as the identity checks
/// read them.
fn source_values(sources: &Vec<Json>, field: &str) -> (r: Vec<RawValue>)
    ensures
        sources@.len() == 0 ==> r@.len() == 0,
{
    let mut out: Vec<RawValue> = Vec::new();
    let mut i: usize = 0;
    while i < sources.len()
        invariant
            i <= sources.len(),
            out@.len() <= i,
        decreases sources.len() - i,
    {
        match sources[i].get(field) {
            Some(Json::Null) => out.push(RawValue::Null),
            Some(Json::Text(t)) => out.push(RawValue::Text(t.clone())),
            Some(_) => out.push(RawValue::Other),
            None => {},
        }
        i = i + 1;
    }
    out
}

/// The turn metadata header's reading of the client's identity headers.
fn header_metadata(identity: &Vec<IdentityHeader>) -> (r: HeaderMetadata)
    ensures
        identity@.len() == 0 ==> r is Absent,
{
    let mut found: Option<Json> = None;
    let mut count: usize = 0;
    let mut i: usize = 0;
    while i < identity.len()
        invariant
            i <= identity.len(),
            count <= i,
        decreases identity.len() - i,
    {
        if str_eq(identity[i].name.as_str(), "x-codex-turn-metadata") {
            count = count + 1;
            found = match &identity[i].parsed {
                Some(d) => Some(d.duplicate()),
                None => None,
            };
        }
        i = i + 1;
    }
    if count == 0 {
        HeaderMetadata::Absent
    } else if count == 1 {
        HeaderMetadata::Present(found)
    } else {
        HeaderMetadata::Repeated
    }
}

/// One identity field of the turn metadata: the coherent value of its
/// header and its metadata sources, mapped onto the account, added to the
/// header where that has none yet and set in the turn metadata.
fn project_field(
    field: &str,
    header: Option<&str>,
    identity: &Vec<IdentityHeader>,
    sources: &Vec<Json>,
    hs: &mut Vec<(String, String)>,
    turn: &mut Vec<(String, Json)>,
    account: &Account,
    ids: &mut IdentityMap,
) -> (r: Result<()>)
    requires
        old(ids).wf(),
        sorted_keys(view_members(old(turn)@)),
    ensures
        final(ids).wf(),
        final(ids).binding_of() == old(ids).binding_of(),
        old(ids).forward().submap_of(final(ids).forward()),
        sorted_keys(view_members(final(turn)@)),
        keeps(pairs_of(old(hs)@), pairs_of(final(hs)@)),
        identity@.len() == 0 && sources@.len() == 0 ==> r is Ok && final(turn)@ == old(turn)@,
        no_alias(pairs_of(old(hs)@)) && (header matches Some(n) ==> !is_alias(n@)) ==> no_alias(pairs_of(final(hs)@)),
{
    proof {
        lemma_keeps_refl(pairs_of(hs@));
        assert(ids.forward().submap_of(ids.forward()));
    }
    let header_values = match header {
        Some(n) => header_texts(identity, n),
        None => Vec::new(),
    };
    let raw = source_values(sources, field);
    proof {
        if identity@.len() == 0 && sources@.len() == 0 {
            assert(text_views(header_values@) =~= Seq::empty());
            assert(raw_views(raw@) =~= Seq::empty());
            assert(texts_of(Seq::empty()) =~= Seq::empty());
            assert(ingress_spec(text_views(header_values@), raw_views(raw@)) == Ok::<Option<Seq<char>>, (u16, Seq<char>, Seq<char>)>(None));
        }
    }
    let value = match coherent(&header_values, &raw) {
        Ok(Some(v)) => v,
        Ok(None) => {
            return Ok(());
        },
        Err(e) => {
            return Err(e);
        },
    };
    let mapped = match mapped_identity(field, value.as_str(), account, ids) {
        Ok(m) => m,
        Err(e) => {
            return Err(e);
        },
    };
    match header {
        Some(n) => match add_missing(hs, n, mapped.as_str()) {
            Ok(()) => {},
            Err(e) => {
                return Err(e);
            },
        },
        None => {},
    }
    put_sorted(turn, field, Json::Text(mapped), true);
    Ok(())
}

/// The turn metadata a request already sends, read as its JSON text reads
/// again: an object whose members are sorted by key, the last of equal keys
/// kept.
fn sorted_object(x: &Json) -> (r: Result<Vec<(String, Json)>>)
    ensures
        r is Ok <==> x@ is Object,
        r matches Ok(m) ==> sorted_keys(view_members(m@)),
{
    let members = match x {
        Json::Object(m) => m,
        _ => {
            return Err(Error::invalid("Invalid turn metadata"));
        },
    };
    let mut out: Vec<(String, Json)> = Vec::new();
    let mut i: usize = 0;
    while i < members.len()
        invariant
            i <= members.len(),
            sorted_keys(view_members(out@)),
        decreases members.len() - i,
    {
        put_sorted(&mut out, members[i].0.as_str(), members[i].1.duplicate(), true);
        i = i + 1;
    }
    Ok(out)
}

/// Merges the request's own turn metadata into what it already sends: what
/// is sent is kept, and the compaction fields merge one by one.
fn merge_turn(existing: &Json, turn: Vec<(String, Json)>) -> (r: Result<Json>)
    ensures
        r is Ok <==> existing@ is Object,
{
    let mut projected = match sorted_object(existing) {
        Ok(m) => m,
        Err(e) => {
            return Err(e);
        },
    };
    let mut i: usize = 0;
    while i < turn.len()
        invariant
            i <= turn.len(),
            sorted_keys(view_members(projected@)),
        decreases turn.len() - i,
    {
        let key = turn[i].0.as_str();
        let mut merged = false;
        if str_eq(key, "compaction") {
            let index = crate::json::find_member(&projected, key);
            if index < projected.len() {
                match (&turn[i].1, &projected[index].1) {
                    (Json::Object(fields), Json::Object(_)) => {
                        let mut previous = match sorted_object(&projected[index].1) {
                            Ok(m) => m,
                            Err(_) => Vec::new(),
                        };
                        let mut j: usize = 0;
                        while j < fields.len()
                            invariant
                                j <= fields.len(),
                                sorted_keys(view_members(previous@)),
                            decreases fields.len() - j,
                        {
                            put_sorted(&mut previous, fields[j].0.as_str(), fields[j].1.duplicate(), false);
                            j = j + 1;
                        }
                        put_sorted(&mut projected, key, Json::Object(previous), true);
                        merged = true;
                    },
                    _ => {},
                }
            }
        }
        if !merged {
            put_sorted(&mut projected, key, turn[i].1.duplicate(), false);
        }
        i = i + 1;
    }
    Ok(Json::Object(projected))
}

/// The upstream headers of a request, and its client metadata as sent.
///
/// The headers start from the account's authentication and the content
/// negotiation; each non-blank identity header of the client follows under
/// its canonical name (`session_id` and the conversation headers as
/// `session-id`, `thread_id` as `thread-id`), mapped onto the account, a
/// conversation header giving way where the session is named explicitly.
/// A request with a session then carries its session, thread and request
/// headers, and the identity fields of the turn metadata fill the headers
/// still missing; the turn metadata itself merges into what the client
/// sent.
pub fn normalized_headers(
    r: &ParsedRequest,
    identity: &Vec<IdentityHeader>,
    nested: Option<Json>,
    client_readings: &Readings,
    account: &Account,
    creds: &Credentials,
    ids: &mut IdentityMap,
) -> (res: Result<(Vec<(String, String)>, Option<Json>)>)
    requires
        old(ids).wf(),
    ensures
        final(ids).wf(),
        final(ids).binding_of() == old(ids).binding_of(),
        old(ids).forward().submap_of(final(ids).forward()),
        res matches Ok((hs, _)) ==> exists|vals: Seq<Option<Seq<char>>>| {
            &&& vals.len() == identity@.len()
            &&& forall|i: int| 0 <= i < identity@.len() ==> identity_value(#[trigger] identity@[i], vals[i], *account, old(ids).forward(), *final(ids))
            &&& keeps(placed(base_headers(*account, *creds), identity_names(identity@), vals, identity@.len()), pairs_of(hs@))
        },
        res matches Ok((hs, _)) ==> no_alias(pairs_of(hs@)),
        res matches Ok((hs, _)) ==> (!r.stateless ==> {
            &&& header_of(pairs_of(hs@), "session-id"@) is Some
            &&& header_of(pairs_of(hs@), "thread-id"@) is Some
            &&& header_of(pairs_of(hs@), "x-client-request-id"@) is Some
        }),
        res matches Ok((_, meta)) ==> (meta is Some <==> (r.client_metadata_present && r.document@.get("client_metadata"@) is Some)),
        auth_headers_ok(*account, *creds) && identity@.len() == 0 && r.stateless && !r.client_metadata_present
            && metadata_spec(r.document@, opt_view(nested), HeaderMetadata::Absent) == Ok::<Seq<JsonView>, Seq<char>>(
            Seq::empty(),
        ) ==> res is Ok,
        res matches Ok((_, Some(x))) ==> exists|f: PairView| {
            &&& old(ids).forward().submap_of(f)
            &&& f.submap_of(final(ids).forward())
            &&& r.document@.get("client_metadata"@) matches Some(cm)
            &&& normalized_spec(cm, *account, f, readings_view(*client_readings), usize::MAX as nat) == Some(x@)
        },
{
    proof {
        reveal_strlit("x-codex-turn-metadata");
        reveal_strlit("session-id");
        reveal_strlit("thread-id");
        reveal_strlit("x-client-request-id");
        reveal_strlit("client_metadata");
        reveal_strlit("content-type");
        reveal_strlit("application/json");
        reveal_strlit("accept");
        reveal_strlit("text/event-stream");
    }
    let ghost lo = ids.forward();
    let ghost easy = auth_headers_ok(*account, *creds) && identity@.len() == 0 && r.stateless && !r.client_metadata_present
        && metadata_spec(r.document@, opt_view(nested), HeaderMetadata::Absent) == Ok::<Seq<JsonView>, Seq<char>>(
        Seq::empty(),
    );
    let mut hs = match auth_headers(account, creds) {
        Ok(h) => h,
        Err(e) => {
            proof {
                assert(lo.submap_of(lo));
            }
            return Err(e);
        },
    };
    set_header(&mut hs, "content-type", "application/json");
    set_header(&mut hs, "accept", "text/event-stream");
    assert(pairs_of(hs@) == base_headers(*account, *creds));
    proof {
        lemma_base_no_alias(*account, *creds);
        lemma_plain_names();
    }
    let turn_header = match place_identity(&mut hs, identity, account, ids) {
        Ok(t) => t,
        Err(e) => {
            return Err(e);
        },
    };
    let ghost p = pairs_of(hs@);
    let ghost after_identity = *ids;
    assert(exists|vals: Seq<Option<Seq<char>>>| {
        &&& vals.len() == identity@.len()
        &&& forall|i: int| 0 <= i < identity@.len() ==> identity_value(#[trigger] identity@[i], vals[i], *account, lo, after_identity)
        &&& p == placed(base_headers(*account, *creds), identity_names(identity@), vals, identity@.len())
    });
    proof {
        lemma_keeps_refl(p);
    }
    let ghost before_meta = *ids;
    let client_metadata = match r.document.get("client_metadata") {
        Some(meta) => if r.client_metadata_present {
            match normalized_metadata(meta, account, ids, client_readings, usize::MAX) {
                Ok(x) => Some(x),
                Err(e) => {
                    proof {
                        lemma_submap_of_trans(lo, before_meta.forward(), ids.forward());
                    }
                    return Err(e);
                },
            }
        } else {
            None
        },
        None => None,
    };
    let ghost after_meta = *ids;
    proof {
        lemma_submap_of_trans(lo, before_meta.forward(), after_meta.forward());
    }
    let ghost fm = after_meta.forward();
    assert(fm.submap_of(fm));
    let mut turn: Vec<(String, Json)> = Vec::new();
    proof {
        assert(sorted_keys(view_members(turn@)));
    }
    if !r.stateless {
        let session = match outbound_thread(ids, r.session_id.as_str()) {
            Ok(v) => v,
            Err(e) => {
                proof {
                    lemma_submap_of_trans(lo, fm, ids.forward());
                }
                return Err(e);
            },
        };
        let ghost m1 = ids.forward();
        let thread = match outbound_thread(ids, r.thread_id.as_str()) {
            Ok(v) => v,
            Err(e) => {
                proof {
                    lemma_submap_of_trans(fm, m1, ids.forward());
                    lemma_submap_of_trans(lo, fm, ids.forward());
                }
                return Err(e);
            },
        };
        proof {
            lemma_submap_of_trans(fm, m1, ids.forward());
        }
        let ghost h0 = pairs_of(hs@);
        match add_missing(&mut hs, "session-id", session.as_str()) {
            Ok(()) => {},
            Err(e) => {
                proof {
                    lemma_submap_of_trans(lo, fm, ids.forward());
                }
                return Err(e);
            },
        }
        let ghost h1 = pairs_of(hs@);
        match add_missing(&mut hs, "thread-id", thread.as_str()) {
            Ok(()) => {},
            Err(e) => {
                proof {
                    lemma_submap_of_trans(lo, fm, ids.forward());
                }
                return Err(e);
            },
        }
        let ghost h2 = pairs_of(hs@);
        match add_missing(&mut hs, "x-client-request-id", thread.as_str()) {
            Ok(()) => {},
            Err(e) => {
                proof {
                    lemma_submap_of_trans(lo, fm, ids.forward());
                }
                return Err(e);
            },
        }
        proof {
            lemma_keeps_trans(p, h0, h1);
            lemma_keeps_trans(p, h1, h2);
            lemma_keeps_trans(p, h2, pairs_of(hs@));
            assert("session-id"@.len() != "x-codex-turn-metadata"@.len());
            assert("thread-id"@.len() != "x-codex-turn-metadata"@.len());
            assert("x-client-request-id"@.len() != "x-codex-turn-metadata"@.len());
            lemma_keeps_trans(h1, h2, pairs_of(hs@));
            assert(header_of(pairs_of(hs@), "session-id"@) == header_of(h1, "session-id"@));
            assert(header_of(pairs_of(hs@), "thread-id"@) == header_of(h2, "thread-id"@));
        }
        put_sorted(&mut turn, "session_id", Json::Text(session), true);
        put_sorted(&mut turn, "thread_id", Json::Text(thread), true);
    }
    let ghost s2 = pairs_of(hs@);
    proof {
        lemma_keeps_refl(s2);
        lemma_submap_of_trans(lo, fm, ids.forward());
    }
    let sources = match metadata(&r.document, nested, header_metadata(identity)) {
        Ok(v) => v,
        Err(e) => {
            return Err(e);
        },
    };
    proof {
        lemma_view_items(sources@);
        assert(easy ==> turn@.len() == 0);
    }
    let fields: [(&str, Option<&str>); 8] = [
        ("installation_id", Some("x-codex-installation-id")),
        ("window_id", Some("x-codex-window-id")),
        ("parent_thread_id", Some("x-codex-parent-thread-id")),
        ("turn_id", None),
        ("context_window_id", None),
        ("forked_from_thread_id", None),
        ("parent_turn_id", None),
        ("root_turn_id", None),
    ];
    assert(fields@.map_values(|f: (&str, Option<&str>)| match f.1 {
        Some(h) => Some(h@),
        None => None,
    }) =~= seq![
        Some("x-codex-installation-id"@),
        Some("x-codex-window-id"@),
        Some("x-codex-parent-thread-id"@),
        None::<Seq<char>>,
        None::<Seq<char>>,
        None::<Seq<char>>,
        None::<Seq<char>>,
        None::<Seq<char>>,
    ]);
    proof {
        lemma_plain_names();
    }
    let mut k: usize = 0;
    while k < 8
        invariant
            k <= 8,
            ids.wf(),
            ids.binding_of() == old(ids).binding_of(),
            fm.submap_of(ids.forward()),
            lo.submap_of(fm),
            lo == old(ids).forward(),
            sorted_keys(view_members(turn@)),
            keeps(s2, pairs_of(hs@)),
            no_alias(pairs_of(hs@)),
            fields@.map_values(|f: (&str, Option<&str>)| match f.1 {
                Some(h) => Some(h@),
                None => None,
            }) == seq![
                Some("x-codex-installation-id"@),
                Some("x-codex-window-id"@),
                Some("x-codex-parent-thread-id"@),
                None::<Seq<char>>,
                None::<Seq<char>>,
                None::<Seq<char>>,
                None::<Seq<char>>,
                None::<Seq<char>>,
            ],
            easy ==> identity@.len() == 0 && sources@.len() == 0 && turn@.len() == 0,
            easy == (auth_headers_ok(*account, *creds) && identity@.len() == 0 && r.stateless && !r.client_metadata_present
                && metadata_spec(r.document@, opt_view(nested), HeaderMetadata::Absent) == Ok::<Seq<JsonView>, Seq<char>>(
                Seq::empty(),
            )),
        decreases 8 - k,
    {
        let ghost m0 = ids.forward();
        let ghost h0 = pairs_of(hs@);
        let (field, header) = fields[k];
        proof {
            lemma_plain_names();
            assert(fields@[k as int].1 == header);
        }
        match project_field(field, header, identity, &sources, &mut hs, &mut turn, account, ids) {
            Ok(()) => {},
            Err(e) => {
                proof {
                    lemma_submap_of_trans(fm, m0, ids.forward());
                    lemma_submap_of_trans(lo, fm, ids.forward());
                }
                return Err(e);
            },
        }
        proof {
            lemma_submap_of_trans(fm, m0, ids.forward());
            lemma_keeps_trans(s2, h0, pairs_of(hs@));
        }
        k = k + 1;
    }
    proof {
        lemma_submap_of_trans(lo, fm, ids.forward());
    }
    let extra = match turn_metadata(&sources) {
        Ok(m) => m,
        Err(e) => {
            return Err(e);
        },
    };
    proof {
        lemma_view_members(extra@);
        if easy {
            assert(view_items(sources@) =~= Seq::<JsonView>::empty());
        }
    }
    let mut j: usize = 0;
    while j < extra.len()
        invariant
            j <= extra.len(),
            sorted_keys(view_members(turn@)),
            easy ==> extra@.len() == 0 && turn@.len() == 0,
            easy == (auth_headers_ok(*account, *creds) && identity@.len() == 0 && r.stateless && !r.client_metadata_present
                && metadata_spec(r.document@, opt_view(nested), HeaderMetadata::Absent) == Ok::<Seq<JsonView>, Seq<char>>(
                Seq::empty(),
            )),
        decreases extra.len() - j,
    {
        put_sorted(&mut turn, extra[j].0.as_str(), extra[j].1.duplicate(), true);
        j = j + 1;
    }
    let ghost h3 = pairs_of(hs@);
    if turn.len() > 0 {
        match turn_header {
            Some(x) => {
                let merged = match merge_turn(&x, turn) {
                    Ok(m) => m,
                    Err(e) => {
                        return Err(e);
                    },
                };
                let text = to_json_text(&merged);
                match header_checked(text.as_str()) {
                    Ok(()) => {},
                    Err(e) => {
                        return Err(e);
                    },
                }
                proof {
                    lemma_keeps_set_turn(h3, text@);
                    lemma_plain_names();
                    lemma_set_no_alias(h3, "x-codex-turn-metadata"@, text@);
                }
                set_header(&mut hs, "x-codex-turn-metadata", text.as_str());
            },
            None => {
                let text = to_json_text(&Json::Object(turn));
                match add_missing(&mut hs, "x-codex-turn-metadata", text.as_str()) {
                    Ok(()) => {},
                    Err(e) => {
                        return Err(e);
                    },
                }
            },
        }
    }
    proof {
        lemma_keeps_trans(s2, h3, pairs_of(hs@));
        lemma_keeps_trans(p, s2, pairs_of(hs@));
        let vals = choose|vals: Seq<Option<Seq<char>>>| {
            &&& vals.len() == identity@.len()
            &&& forall|i: int| 0 <= i < identity@.len() ==> identity_value(#[trigger] identity@[i], vals[i], *account, lo, after_identity)
            &&& p == placed(base_headers(*account, *creds), identity_names(identity@), vals, identity@.len())
        };
        lemma_submap_of_trans(after_identity.forward(), fm, ids.forward());
        assert forall|i: int| 0 <= i < identity@.len() implies identity_value(#[trigger] identity@[i], vals[i], *account, lo, *ids) by {
            lemma_identity_value_grows(identity@[i], vals[i], *account, lo, after_identity, *ids);
        }
        if !r.stateless {
            assert("session-id"@.len() != "x-codex-turn-metadata"@.len());
            assert("thread-id"@.len() != "x-codex-turn-metadata"@.len());
            assert("x-client-request-id"@.len() != "x-codex-turn-metadata"@.len());
            assert(header_of(pairs_of(hs@), "session-id"@) == header_of(s2, "session-id"@));
            assert(header_of(pairs_of(hs@), "thread-id"@) == header_of(s2, "thread-id"@));
            assert(header_of(pairs_of(hs@), "x-client-request-id"@) == header_of(s2, "x-client-request-id"@));
        }
    }
    Ok((hs, client_metadata))
}

/// The upstream identifier of a session or thread, with what the binding
/// keeps of its mapping.
fn outbound_thread(ids: &mut IdentityMap, client: &str) -> (r: Result<String>)
    requires
        old(ids).wf(),
    ensures
        final(ids).wf(),
        final(ids).binding_of() == old(ids).binding_of(),
        old(ids).forward().submap_of(final(ids).forward()),
{
    let ghost before = ids.forward();
    let r = ids.outbound("thread", client);
    proof {
        assert(before.submap_of(before));
    }
    r
}


/// The headers and body of the request sent upstream for an accepted request
/// on an account: the Codex body for the upstream model, the normalized
/// headers (a compaction asks for a JSON answer instead of events), the
/// client metadata as projected, and the cache partition, which also gives a
/// stateless Responses request stable session headers without creating a
/// binding.
pub fn outbound_parts(
    r: &ParsedRequest,
    identity: &Vec<IdentityHeader>,
    nested: Option<Json>,
    client_readings: &Readings,
    model: &str,
    account: &Account,
    creds: &Credentials,
    ids: &mut IdentityMap,
    key_id: u128,
) -> (res: Result<(Vec<(String, String)>, Json)>)
    requires
        old(ids).wf(),
    ensures
        final(ids).wf(),
        final(ids).binding_of() == old(ids).binding_of(),
        old(ids).forward().submap_of(final(ids).forward()),
        res matches Ok((hs, body)) ==> {
            &&& request_body_spec(r.document@, model@, r.kind, match r.requested_tier {
                Some(t) => Some(t@),
                None => None,
            }, *old(ids)) is Ok
            &&& body@ is Object
            &&& r.kind == RequestKind::Compact ==> header_of(pairs_of(hs@), "accept"@) == Some("application/json"@)
        },
        auth_headers_ok(*account, *creds) && identity@.len() == 0 && r.stateless && !r.client_metadata_present
            && metadata_spec(r.document@, opt_view(nested), HeaderMetadata::Absent) == Ok::<Seq<JsonView>, Seq<char>>(
            Seq::empty(),
        ) && request_body_spec(r.document@, model@, r.kind, match r.requested_tier {
            Some(t) => Some(t@),
            None => None,
        }, *old(ids)) is Ok && cache_text(r.document@) is None ==> res is Ok,
        res matches Ok((hs, body)) ==> (cache_text(r.document@) matches Some(c) ==> {
            &&& body@ matches JsonView::Object(bm) && lookup(bm, "prompt_cache_key"@) matches Some(JsonView::Text(p)) && if !r.stateless && (
            c == r.session_id@ || c == r.thread_id@) {
                maps_to(*final(ids), "thread"@, c, p)
            } else {
                p == hyphenated_spec(uuid_v5(account.profile.installation_id, scoped_name(key_id, c)))
            }
            &&& r.stateless && r.kind == RequestKind::Responses ==> header_of(pairs_of(hs@), "session_id"@) is Some && header_of(
                pairs_of(hs@),
                "conversation_id"@,
            ) is Some
        }),
{
    proof {
        reveal_strlit("accept");
        reveal_strlit("application/json");
        reveal_strlit("prompt_cache_key");
        reveal_strlit("session_id");
        reveal_strlit("conversation_id");
        reveal_strlit("thread");
        reveal_strlit("x-codex-turn-metadata");
        assert(old(ids).forward().submap_of(old(ids).forward()));
    }
    let ghost start = *ids;
    let tier: Option<&str> = match &r.requested_tier {
        Some(t) => Some(t.as_str()),
        None => None,
    };
    let mut body = match request_body(&r.document, model, r.kind, tier, ids) {
        Ok(b) => b,
        Err(e) => {
            return Err(e);
        },
    };
    let (mut hs, client_metadata) = match normalized_headers(r, identity, nested, client_readings, account, creds, ids) {
        Ok(x) => x,
        Err(e) => {
            return Err(e);
        },
    };
    if r.kind == RequestKind::Compact {
        set_header(&mut hs, "accept", "application/json");
        proof {
            lemma_set_header(pairs_of(hs@).drop_last(), "accept"@, "application/json"@, "accept"@);
        }
    }
    let ghost after_compact = pairs_of(hs@);
    match client_metadata {
        Some(meta) => body.insert("client_metadata", meta),
        None => {},
    }
    let partition = cache_partition(
        &r.document,
        r.stateless,
        r.session_id.as_str(),
        r.thread_id.as_str(),
        key_id,
        account.profile.installation_id,
    );
    match partition {
        Some(partition) => {
            let ghost before = *ids;
            let mapped = match partition {
                CachePartition::Session(s) => match ids.outbound("thread", s.as_str()) {
                    Ok(u) => u,
                    Err(e) => {
                        return Err(e);
                    },
                },
                CachePartition::Scoped(s) => s,
            };
            proof {
                assert(before.forward().submap_of(ids.forward()));
                lemma_submap_of_trans(start.forward(), before.forward(), ids.forward());
            }
            if r.stateless && r.kind == RequestKind::Responses {
                match add_missing(&mut hs, "session_id", mapped.as_str()) {
                    Ok(()) => {},
                    Err(e) => {
                        return Err(e);
                    },
                }
                let ghost h1 = pairs_of(hs@);
                match add_missing(&mut hs, "conversation_id", mapped.as_str()) {
                    Ok(()) => {},
                    Err(e) => {
                        return Err(e);
                    },
                }
                proof {
                    assert("session_id"@.len() != "x-codex-turn-metadata"@.len());
                    assert(header_of(pairs_of(hs@), "session_id"@) == header_of(h1, "session_id"@));
                }
            }
            let ghost b0 = body@;
            body.insert("prompt_cache_key", Json::Text(mapped));
            proof {
                if let JsonView::Object(m) = b0 {
                    law_get_after_insert(m, "prompt_cache_key"@, JsonView::Text(mapped@), "prompt_cache_key"@);
                }
            }
        },
        None => {},
    }
    Ok((hs, body))
}

} // verus!
