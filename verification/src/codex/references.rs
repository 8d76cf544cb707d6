//! Item references in request input: stored references are refused, and
//! identifiers a client learned under an old alias are restored.
use vstd::prelude::*;
use crate::identity::IdentityMap;
use crate::json::{
    Json, JsonView, find_member, lemma_find_key, lemma_members_update, lemma_view_items,
    lemma_view_members, lookup, set_key, take_item, text_in, view_items, view_json, view_members,
};
use crate::text::{byte_len, str_eq};
use crate::types::{Error, Result, plain_error};

verus! {

pub open spec fn has_stored_image(parts: Seq<JsonView>) -> bool {
    exists|i: int|
        0 <= i < parts.len() && ((#[trigger] parts[i]).get("file_id"@) is Some || parts[i].get(
            "image_id"@,
        ) is Some)
}

/// Why an input item cannot be forwarded: a stored item reference, or content
/// that refers to an account-scoped file.
pub open spec fn reference_fault(item: JsonView) -> Option<(Seq<char>, Seq<char>)> {
    if text_in(item.get("type"@)) == Some("item_reference"@) {
        Some(
            (
                "context_reference_unsupported"@,
                "Explicit item content is required instead of stored item references"@,
            ),
        )
    } else if item.get("content"@) matches Some(JsonView::Array(parts)) && has_stored_image(parts) {
        Some(
            (
                "image_reference_unsupported"@,
                "Provide image bytes or an image URL instead of an account-scoped file reference"@,
            ),
        )
    } else {
        None
    }
}

/// The fault of the first item that has one.
pub open spec fn first_fault(items: Seq<JsonView>) -> Option<(Seq<char>, Seq<char>)>
    decreases items.len(),
{
    if items.len() == 0 {
        None
    } else if first_fault(items.drop_last()) is Some {
        first_fault(items.drop_last())
    } else {
        reference_fault(items.last())
    }
}

/// The identifier a client originally used, as `IdentityMap::original_id`
/// resolves it.
pub open spec fn original(ids: IdentityMap, kind: Seq<char>, id: Seq<char>) -> Seq<char> {
    if byte_len(id) <= 512 && ids.legacy().contains_key((kind, id)) {
        ids.legacy()[(kind, id)]
    } else {
        id
    }
}

/// An item with the string field `field` restored to its original identifier.
pub open spec fn restored(ids: IdentityMap, item: JsonView, field: Seq<char>, kind: Seq<char>) -> JsonView {
    match (item, text_in(item.get(field))) {
        (JsonView::Object(m), Some(v)) => if original(ids, kind, v) != v {
            JsonView::Object(set_key(m, field, JsonView::Text(original(ids, kind, v))))
        } else {
            item
        },
        _ => item,
    }
}

pub open spec fn item_restored(ids: IdentityMap, item: JsonView) -> JsonView {
    restored(ids, restored(ids, item, "id"@, "item"@), "call_id"@, "call"@)
}

#[verifier::loop_isolation(false)]
fn fault_of(item: &Json) -> (r: Option<Error>)
    ensures
        match reference_fault(item@) {
            Some(f) => r matches Some(e) && plain_error(e, 409, f.0, f.1),
            None => r is None,
        },
{
    let is_reference = match item.get_str("type") {
        Some(t) => str_eq(t, "item_reference"),
        None => false,
    };
    if is_reference {
        return Some(
            Error::new(
                409,
                "context_reference_unsupported",
                "Explicit item content is required instead of stored item references",
            ),
        );
    }
    if let Some(Json::Array(parts)) = item.get("content") {
        proof {
            lemma_view_items(parts@);
        }
        let mut i: usize = 0;
        while i < parts.len()
            invariant
                i <= parts@.len(),
                view_items(parts@).len() == parts@.len(),
                forall|k: int| 0 <= k < parts@.len() ==> #[trigger] view_items(parts@)[k] == view_json(parts@[k]),
                forall|k: int|
                    0 <= k < i ==> (#[trigger] view_items(parts@)[k]).get("file_id"@) is None
                        && view_items(parts@)[k].get("image_id"@) is None,
            decreases parts.len() - i,
        {
            if parts[i].get("file_id").is_some() || parts[i].get("image_id").is_some() {
                assert(view_items(parts@)[i as int].get("file_id"@) is Some || view_items(parts@)[i as int].get("image_id"@) is Some);
                return Some(
                    Error::new(
                        409,
                        "image_reference_unsupported",
                        "Provide image bytes or an image URL instead of an account-scoped file reference",
                    ),
                );
            }
            i = i + 1;
        }
    }
    None
}

fn restore_field(item: &mut Json, field: &str, kind: &str, ids: &IdentityMap)
    requires
        ids.wf(),
    ensures
        final(item)@ == restored(*ids, old(item)@, field@, kind@),
{
    let m = match item {
        Json::Object(m) => m,
        _ => return,
    };
    let ghost m0 = m@;
    proof {
        lemma_view_members(m0);
        lemma_find_key(view_members(m0), field@);
    }
    let i = find_member(m, field);
    if i == m.len() {
        return;
    }
    let value = match &m[i].1 {
        Json::Text(s) => s.as_str(),
        _ => return,
    };
    let o = ids.original_id(kind, value);
    if str_eq(o, value) {
        return;
    }
    let e = (field.to_owned(), Json::Text(o.to_owned()));
    m.set(i, e);
    proof {
        lemma_members_update(m0, i as int, e);
    }
}

/// Checks that the input holds no stored references and restores the
/// identifiers clients learned under old aliases. Input that is not an array
/// is left as it is.
#[verifier::loop_isolation(false)]
pub fn rewrite_input(value: &mut Json, ids: &IdentityMap) -> (r: Result<()>)
    requires
        ids.wf(),
    ensures
        match old(value)@ {
            JsonView::Array(items) => match first_fault(items) {
                Some(f) => (r matches Err(e) && plain_error(e, 409, f.0, f.1)) && final(value)@
                    == old(value)@,
                None => r is Ok && final(value)@ == JsonView::Array(
                    items.map_values(|i: JsonView| item_restored(*ids, i)),
                ),
            },
            _ => r is Ok && final(value)@ == old(value)@,
        },
{
    let items = match value {
        Json::Array(items) => items,
        _ => return Ok(()),
    };
    let ghost v0 = view_items(items@);
    proof {
        lemma_view_items(items@);
    }
    let mut i: usize = 0;
    while i < items.len()
        invariant
            i <= items@.len(),
            v0 == view_items(items@),
            v0.len() == items@.len(),
            forall|k: int| 0 <= k < items@.len() ==> #[trigger] v0[k] == view_json(items@[k]),
            first_fault(v0.subrange(0, i as int)) is None,
        decreases items.len() - i,
    {
        proof {
            assert(v0.subrange(0, i + 1).drop_last() =~= v0.subrange(0, i as int));
        }
        if let Some(e) = fault_of(&items[i]) {
            proof {
                lemma_first_fault_prefix(v0, i as int + 1);
            }
            return Err(e);
        }
        i = i + 1;
    }
    proof {
        assert(v0.subrange(0, v0.len() as int) =~= v0);
    }
    let ghost before = items@;
    let mut j: usize = 0;
    while j < items.len()
        invariant
            j <= items@.len(),
            items@.len() == before.len(),
            ids.wf(),
            forall|k: int| 0 <= k < j ==> view_json(#[trigger] items@[k]) == item_restored(*ids, view_json(before[k])),
            forall|k: int| j <= k < items@.len() ==> #[trigger] items@[k] == before[k],
        decreases items.len() - j,
    {
        let mut item = take_item(items, j);
        restore_field(&mut item, "id", "item", ids);
        restore_field(&mut item, "call_id", "call", ids);
        items.set(j, item);
        j = j + 1;
    }
    proof {
        lemma_view_items(items@);
        lemma_view_items(before);
        assert(view_items(items@) =~= view_items(before).map_values(|i: JsonView| item_restored(*ids, i)));
    }
    Ok(())
}

/// A fault among the first `n` items is the first fault of the whole input.
pub proof fn lemma_first_fault_prefix(s: Seq<JsonView>, n: int)
    requires
        0 <= n <= s.len(),
        first_fault(s.subrange(0, n)) is Some,
    ensures
        first_fault(s) == first_fault(s.subrange(0, n)),
    decreases s.len() - n,
{
    if n < s.len() {
        assert(s.subrange(0, n + 1).drop_last() =~= s.subrange(0, n));
        lemma_first_fault_prefix(s, n + 1);
    } else {
        assert(s.subrange(0, n) =~= s);
    }
}

} // verus!
