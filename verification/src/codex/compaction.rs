//! Compaction operations: which requests compact history, and the operation
//! metadata that clients may carry only in the body.
use vstd::prelude::*;
use crate::json::{
    Json, JsonView, find_member, lemma_find_key, lemma_members_push, lemma_members_update,
    lemma_view_items, lemma_view_members, lookup, member, set_key, text_in, view_items, view_json,
    view_members,
};
use crate::codex::ingress::bad_identity;
use crate::protocol::{Compaction, CompactionMethod, RequestKind};
use crate::text::{byte_len, has_control, len_bytes, str_eq};
use crate::types::{Error, Result, plain_error};

verus! {

pub type Fault = (u16, Seq<char>, Seq<char>);

/// The strings the metadata sources hold for `field`, null values skipped;
/// `None` when one of them holds a value of another kind.
pub open spec fn source_texts(sources: Seq<JsonView>, field: Seq<char>) -> Option<Seq<Seq<char>>>
    decreases sources.len(),
{
    if sources.len() == 0 {
        Some(Seq::empty())
    } else {
        match source_texts(sources.drop_last(), field) {
            None => None,
            Some(t) => match sources.last().get(field) {
                None => Some(t),
                Some(JsonView::Null) => Some(t),
                Some(JsonView::Text(s)) => Some(t.push(s)),
                Some(_) => None,
            },
        }
    }
}

/// The value the sources agree on for `field`: every value a string of 1 to
/// 512 bytes without control characters, and all of them equal.
pub open spec fn agreed_spec(sources: Seq<JsonView>, field: Seq<char>) -> core::result::Result<Option<Seq<char>>, Fault> {
    match source_texts(sources, field) {
        None => Err((400, "invalid_request"@, "Identity fields must be strings"@)),
        Some(v) => if exists|i: int| 0 <= i < v.len() && bad_identity(#[trigger] v[i]) {
            Err((400, "invalid_request"@, "Invalid identity field length or characters"@))
        } else if exists|i: int| 0 <= i < v.len() && #[trigger] v[i] != v[0] {
            Err(
                (
                    400,
                    "identity_conflict"@,
                    "Identity fields disagree between headers and request metadata"@,
                ),
            )
        } else if v.len() == 0 {
            Ok(None)
        } else {
            Ok(Some(v[0]))
        },
    }
}

/// The value the metadata sources agree on for `field`.
#[verifier::loop_isolation(false)]
pub fn agreed(sources: &Vec<Json>, field: &str) -> (r: Result<Option<String>>)
    ensures
        match agreed_spec(view_items(sources@), field@) {
            Ok(v) => r matches Ok(x) && match (x, v) {
                (Some(a), Some(b)) => a@ == b,
                (None, None) => true,
                _ => false,
            },
            Err(f) => r matches Err(e) && plain_error(e, f.0, f.1, f.2),
        },
{
    let ghost sv = view_items(sources@);
    proof {
        lemma_view_items(sources@);
    }
    let mut values: Vec<String> = Vec::new();
    let mut i: usize = 0;
    while i < sources.len()
        invariant
            i <= sources@.len(),
            sv.len() == sources@.len(),
            forall|k: int| 0 <= k < sources@.len() ==> #[trigger] sv[k] == view_json(sources@[k]),
            source_texts(sv.subrange(0, i as int), field@) == Some(
                values@.map_values(|x: String| x@),
            ),
        decreases sources.len() - i,
    {
        proof {
            assert(sv.subrange(0, i + 1).drop_last() =~= sv.subrange(0, i as int));
        }
        match sources[i].get(field) {
            None => {},
            Some(Json::Null) => {},
            Some(Json::Text(s)) => {
                let ghost before = values@;
                values.push(s.clone());
                proof {
                    crate::codex::ingress::lemma_views_push(before, *s);
                }
            },
            Some(_) => {
                proof {
                    lemma_texts_none(sv, field@, i as int + 1);
                }
                return Err(Error::invalid("Identity fields must be strings"));
            },
        }
        i = i + 1;
    }
    proof {
        assert(sv.subrange(0, sv.len() as int) =~= sv);
    }
    let ghost v = values@.map_values(|x: String| x@);
    let mut k: usize = 0;
    while k < values.len()
        invariant
            v == values@.map_values(|x: String| x@),
            k <= values@.len(),
            forall|x: int| 0 <= x < k ==> !bad_identity(#[trigger] v[x]),
        decreases values@.len() - k,
    {
        let t = values[k].as_str();
        if len_bytes(t) == 0 || len_bytes(t) > 512 || has_control(t) {
            proof {
                assert(bad_identity(v[k as int]));
            }
            return Err(Error::invalid("Invalid identity field length or characters"));
        }
        k = k + 1;
    }
    if values.len() == 0 {
        return Ok(None);
    }
    let mut m: usize = 0;
    while m < values.len()
        invariant
            v == values@.map_values(|x: String| x@),
            values@.len() > 0,
            m <= values@.len(),
            forall|x: int| 0 <= x < m ==> #[trigger] v[x] == v[0],
        decreases values@.len() - m,
    {
        if !str_eq(values[m].as_str(), values[0].as_str()) {
            proof {
                assert(v[m as int] != v[0]);
            }
            return Err(
                Error::new(
                    400,
                    "identity_conflict",
                    "Identity fields disagree between headers and request metadata",
                ),
            );
        }
        m = m + 1;
    }
    Ok(Some(values[0].clone()))
}

/// A source that fails among the first `n` fails the whole list.
pub proof fn lemma_texts_none(s: Seq<JsonView>, field: Seq<char>, n: int)
    requires
        0 <= n <= s.len(),
        source_texts(s.subrange(0, n), field) is None,
    ensures
        source_texts(s, field) is None,
    decreases s.len() - n,
{
    if n < s.len() {
        assert(s.subrange(0, n + 1).drop_last() =~= s.subrange(0, n));
        lemma_texts_none(s, field, n + 1);
    } else {
        assert(s.subrange(0, n) =~= s);
    }
}

pub open spec fn metadata_char(c: char) -> bool {
    ||| ('a' <= c && c <= 'z')
    ||| ('A' <= c && c <= 'Z')
    ||| ('0' <= c && c <= '9')
    ||| c == '_'
}

/// An operation metadata value: 1 to 128 bytes of ASCII letters, digits and
/// underscores.
pub open spec fn metadata_text(s: Seq<char>) -> bool {
    s.len() > 0 && byte_len(s) <= 128 && forall|i: int| 0 <= i < s.len() ==> metadata_char(#[trigger] s[i])
}

/// The compaction fields, in the order they are read.
pub open spec fn compaction_fields() -> Seq<Seq<char>> {
    seq!["trigger"@, "reason"@, "implementation"@, "phase"@, "strategy"@]
}

pub open spec fn invalid_metadata() -> Fault {
    (400, "invalid_request"@, "Invalid compaction metadata"@)
}

pub open spec fn conflicting_metadata() -> Fault {
    (400, "compaction_metadata_conflict"@, "Compaction metadata fields disagree"@)
}

pub type Members = Seq<(Seq<char>, JsonView)>;

/// Takes field `name` of one source's compaction object into the fields read
/// so far.
pub open spec fn field_step(acc: core::result::Result<Members, Fault>, obj: Members, name: Seq<char>) -> core::result::Result<Members, Fault> {
    match acc {
        Err(f) => Err(f),
        Ok(c) => match lookup(obj, name) {
            None => Ok(c),
            Some(JsonView::Text(t)) => if !metadata_text(t) {
                Err(invalid_metadata())
            } else if lookup(c, name) matches Some(p) && p != JsonView::Text(t) {
                Err(conflicting_metadata())
            } else {
                Ok(set_key(c, name, JsonView::Text(t)))
            },
            Some(_) => Err(invalid_metadata()),
        },
    }
}

pub open spec fn fields_step(acc: core::result::Result<Members, Fault>, obj: Members, names: Seq<Seq<char>>) -> core::result::Result<Members, Fault>
    decreases names.len(),
{
    if names.len() == 0 {
        acc
    } else {
        field_step(fields_step(acc, obj, names.drop_last()), obj, names.last())
    }
}

/// The compaction fields of every source that carries a compaction object,
/// which must agree.
pub open spec fn compaction_spec(sources: Seq<JsonView>) -> core::result::Result<Members, Fault>
    decreases sources.len(),
{
    if sources.len() == 0 {
        Ok(Seq::empty())
    } else {
        match sources.last().get("compaction"@) {
            Some(JsonView::Object(o)) => fields_step(compaction_spec(sources.drop_last()), o, compaction_fields()),
            _ => compaction_spec(sources.drop_last()),
        }
    }
}

/// The operation metadata the sources carry: the agreed request kind, and the
/// agreed compaction fields when there are any.
pub open spec fn turn_metadata_spec(sources: Seq<JsonView>) -> core::result::Result<Members, Fault> {
    match agreed_spec(sources, "request_kind"@) {
        Err(f) => Err(f),
        Ok(k) => match compaction_spec(sources) {
            Err(f) => Err(f),
            Ok(c) => Ok(
                (match k {
                    Some(kind) => seq![("request_kind"@, JsonView::Text(kind))],
                    None => Seq::empty(),
                }) + (if c.len() > 0 {
                    seq![("compaction"@, JsonView::Object(c))]
                } else {
                    Seq::empty()
                }),
            ),
        },
    }
}

fn metadata_text_exec(s: &str) -> (r: bool)
    ensures
        r == metadata_text(s@),
{
    let n = s.unicode_len();
    if n == 0 || len_bytes(s) > 128 {
        return false;
    }
    let mut i: usize = 0;
    while i < n
        invariant
            n == s@.len(),
            i <= n,
            forall|j: int| 0 <= j < i ==> metadata_char(#[trigger] s@[j]),
        decreases n - i,
    {
        let c = s.get_char(i);
        if !(('a' <= c && c <= 'z') || ('A' <= c && c <= 'Z') || ('0' <= c && c <= '9') || c == '_') {
            assert(!metadata_char(s@[i as int]));
            return false;
        }
        i = i + 1;
    }
    true
}

fn take_field(c: &mut Vec<(String, Json)>, obj: &Vec<(String, Json)>, name: &str) -> (r: Result<()>)
    ensures
        match field_step(Ok(view_members(old(c)@)), view_members(obj@), name@) {
            Ok(n) => r is Ok && view_members(final(c)@) == n,
            Err(f) => r matches Err(e) && plain_error(e, f.0, f.1, f.2),
        },
{
    let i = find_member(obj, name);
    if i == obj.len() {
        return Ok(());
    }
    let t = match &obj[i].1 {
        Json::Text(t) => t.as_str(),
        _ => return Err(Error::invalid("Invalid compaction metadata")),
    };
    if !metadata_text_exec(t) {
        return Err(Error::invalid("Invalid compaction metadata"));
    }
    let ghost c0 = c@;
    proof {
        lemma_view_members(c0);
        lemma_find_key(view_members(c0), name@);
    }
    let j = find_member(c, name);
    if j < c.len() {
        let same = match &c[j].1 {
            Json::Text(p) => str_eq(p.as_str(), t),
            _ => false,
        };
        if !same {
            return Err(Error::new(400, "compaction_metadata_conflict", "Compaction metadata fields disagree"));
        }
        let e = (name.to_owned(), Json::Text(t.to_owned()));
        c.set(j, e);
        proof {
            lemma_members_update(c0, j as int, e);
        }
    } else {
        let e = (name.to_owned(), Json::Text(t.to_owned()));
        proof {
            lemma_members_push(c0, e);
        }
        c.push(e);
    }
    Ok(())
}

pub proof fn lemma_fields_step_err(obj: Members, names: Seq<Seq<char>>, f: Fault)
    ensures
        fields_step(Err(f), obj, names) == core::result::Result::<Members, Fault>::Err(f),
    decreases names.len(),
{
    if names.len() > 0 {
        lemma_fields_step_err(obj, names.drop_last(), f);
    }
}

/// A fault while reading the first `n` fields is the fault of all of them.
pub proof fn lemma_fields_prefix_err(acc: core::result::Result<Members, Fault>, obj: Members, names: Seq<Seq<char>>, n: int)
    requires
        0 <= n <= names.len(),
        fields_step(acc, obj, names.subrange(0, n)) is Err,
    ensures
        fields_step(acc, obj, names) == fields_step(acc, obj, names.subrange(0, n)),
    decreases names.len() - n,
{
    if n < names.len() {
        assert(names.subrange(0, n + 1).drop_last() =~= names.subrange(0, n));
        lemma_fields_prefix_err(acc, obj, names, n + 1);
    } else {
        assert(names.subrange(0, n) =~= names);
    }
}

/// A fault in the first `n` sources is the fault of all of them.
pub proof fn lemma_compaction_prefix_err(s: Seq<JsonView>, n: int)
    requires
        0 <= n <= s.len(),
        compaction_spec(s.subrange(0, n)) is Err,
    ensures
        compaction_spec(s) == compaction_spec(s.subrange(0, n)),
    decreases s.len() - n,
{
    if n < s.len() {
        let p = s.subrange(0, n + 1);
        assert(p.drop_last() =~= s.subrange(0, n));
        if let Some(JsonView::Object(o)) = p.last().get("compaction"@) {
            lemma_fields_step_err(o, compaction_fields(), compaction_spec(s.subrange(0, n))->Err_0);
        }
        lemma_compaction_prefix_err(s, n + 1);
    } else {
        assert(s.subrange(0, n) =~= s);
    }
}

fn field_name(j: usize) -> (r: &'static str)
    requires
        j < 5,
    ensures
        r@ == compaction_fields()[j as int],
{
    if j == 0 {
        "trigger"
    } else if j == 1 {
        "reason"
    } else if j == 2 {
        "implementation"
    } else if j == 3 {
        "phase"
    } else {
        "strategy"
    }
}

/// The operation metadata the sources carry; see `turn_metadata_spec`.
#[verifier::loop_isolation(false)]
pub fn turn_metadata(sources: &Vec<Json>) -> (r: Result<Vec<(String, Json)>>)
    ensures
        match turn_metadata_spec(view_items(sources@)) {
            Ok(m) => r matches Ok(x) && view_members(x@) == m,
            Err(f) => r matches Err(e) && plain_error(e, f.0, f.1, f.2),
        },
{
    let ghost sv = view_items(sources@);
    proof {
        lemma_view_items(sources@);
    }
    let kind = match agreed(sources, "request_kind") {
        Ok(k) => k,
        Err(e) => return Err(e),
    };
    let mut c: Vec<(String, Json)> = Vec::new();
    let mut i: usize = 0;
    while i < sources.len()
        invariant
            i <= sources@.len(),
            sv.len() == sources@.len(),
            forall|k: int| 0 <= k < sources@.len() ==> #[trigger] sv[k] == view_json(sources@[k]),
            compaction_spec(sv.subrange(0, i as int)) == core::result::Result::<Members, Fault>::Ok(
                view_members(c@),
            ),
        decreases sources.len() - i,
    {
        proof {
            assert(sv.subrange(0, i + 1).drop_last() =~= sv.subrange(0, i as int));
        }
        if let Some(Json::Object(o)) = sources[i].get("compaction") {
            let ghost c0 = view_members(c@);
            let ghost ov = view_members(o@);
            proof {
                assert(compaction_fields().subrange(0, 0) =~= Seq::<Seq<char>>::empty());
            }
            let mut j: usize = 0;
            while j < 5
                invariant
                    j <= 5,
                    ov == view_members(o@),
                    fields_step(Ok(c0), ov, compaction_fields().subrange(0, j as int))
                        == core::result::Result::<Members, Fault>::Ok(view_members(c@)),
                decreases 5 - j,
            {
                proof {
                    assert(compaction_fields().subrange(0, j + 1).drop_last() =~= compaction_fields().subrange(0, j as int));
                }
                let name = field_name(j);
                match take_field(&mut c, o, name) {
                    Ok(()) => {},
                    Err(e) => {
                        proof {
                            lemma_fields_prefix_err(Ok(c0), ov, compaction_fields(), j + 1);
                            lemma_compaction_prefix_err(sv, i + 1);
                        }
                        return Err(e);
                    },
                }
                j = j + 1;
            }
            proof {
                assert(compaction_fields().subrange(0, 5) =~= compaction_fields());
            }
        }
        i = i + 1;
    }
    proof {
        assert(sv.subrange(0, sv.len() as int) =~= sv);
    }
    let mut out: Vec<(String, Json)> = Vec::new();
    if let Some(k) = kind {
        out.push(("request_kind".to_owned(), Json::Text(k)));
    }
    if c.len() > 0 {
        out.push(("compaction".to_owned(), Json::Object(c)));
    }
    proof {
        lemma_view_members(out@);
        lemma_view_members(c@);
    }
    Ok(out)
}


/// An input item that asks for compaction.
pub open spec fn has_trigger(items: Seq<JsonView>) -> bool {
    exists|i: int| 0 <= i < items.len() && text_in((#[trigger] items[i]).get("type"@)) == Some("compaction_trigger"@)
}

/// Operation metadata that names the current remote compaction.
pub open spec fn v2_metadata(m: Members) -> bool {
    &&& text_in(lookup(m, "request_kind"@)) == Some("compaction"@)
    &&& text_in(member(lookup(m, "compaction"@), "implementation"@)) == Some("responses_compaction_v2"@)
}

/// The compaction a request performs: every compact request; a Responses
/// request with a compaction trigger in its input or current remote
/// compaction metadata. A historical compaction item is no trigger.
pub open spec fn operation_spec(body: JsonView, sources: Seq<JsonView>, kind: RequestKind) -> core::result::Result<Option<CompactionMethod>, Fault> {
    match turn_metadata_spec(sources) {
        Err(f) => Err(f),
        Ok(m) => if kind == RequestKind::Compact {
            Ok(Some(CompactionMethod::Compact))
        } else if kind == RequestKind::Responses && ((body.get("input"@) matches Some(JsonView::Array(items)) && has_trigger(items)) || v2_metadata(m)) {
            Ok(Some(CompactionMethod::RemoteV2))
        } else {
            Ok(None)
        },
    }
}

#[verifier::loop_isolation(false)]
fn has_trigger_exec(body: &Json) -> (r: bool)
    ensures
        r == (body@.get("input"@) matches Some(JsonView::Array(items)) && has_trigger(items)),
{
    let items = match body.get("input") {
        Some(Json::Array(items)) => items,
        _ => return false,
    };
    proof {
        lemma_view_items(items@);
    }
    let mut i: usize = 0;
    while i < items.len()
        invariant
            i <= items@.len(),
            view_items(items@).len() == items@.len(),
            forall|k: int| 0 <= k < items@.len() ==> #[trigger] view_items(items@)[k] == view_json(items@[k]),
            forall|k: int| 0 <= k < i ==> text_in((#[trigger] view_items(items@)[k]).get("type"@)) != Some("compaction_trigger"@),
        decreases items.len() - i,
    {
        let is = match items[i].get_str("type") {
            Some(t) => str_eq(t, "compaction_trigger"),
            None => false,
        };
        if is {
            assert(text_in(view_items(items@)[i as int].get("type"@)) == Some("compaction_trigger"@));
            return true;
        }
        i = i + 1;
    }
    false
}

/// The compaction a request performs; see `operation_spec`.
pub fn operation(body: &Json, sources: &Vec<Json>, kind: RequestKind) -> (r: Result<Option<Compaction>>)
    ensures
        match operation_spec(body@, view_items(sources@), kind) {
            Ok(m) => r matches Ok(c) && match (c, m) {
                (Some(x), Some(y)) => x.method == y && x.output_observed is None,
                (None, None) => true,
                _ => false,
            },
            Err(f) => r matches Err(e) && plain_error(e, f.0, f.1, f.2),
        },
{
    let metadata = match turn_metadata(sources) {
        Ok(m) => Json::Object(m),
        Err(e) => return Err(e),
    };
    let method = match kind {
        RequestKind::Compact => CompactionMethod::Compact,
        RequestKind::Responses => {
            let v2 = match metadata.get_str("request_kind") {
                Some(k) => str_eq(k, "compaction") && match metadata.get("compaction") {
                    Some(c) => match c.get_str("implementation") {
                        Some(i) => str_eq(i, "responses_compaction_v2"),
                        None => false,
                    },
                    None => false,
                },
                None => false,
            };
            if has_trigger_exec(body) || v2 {
                CompactionMethod::RemoteV2
            } else {
                return Ok(None);
            }
        },
        RequestKind::Search => return Ok(None),
    };
    Ok(Some(Compaction { method, output_observed: None }))
}

} // verus!
