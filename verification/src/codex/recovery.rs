//! Recovery from an upstream that rejects encrypted history: the rejected
//! ciphertext is removed from, or marked unavailable in, the request's input
//! and only counts of what changed are kept.
use vstd::prelude::*;
use crate::codex::upstream_error::{
    ErrorBody, ErrorFieldsView, JsonField, body_view, json_error_fields, or_present,
    parse_error_body, parsed_view, text_of,
};
use crate::json::{
    Json, JsonView, find_member, lemma_find_key, lemma_items_push, lemma_members_remove,
    lemma_members_update, lemma_set_same, lemma_view_items, lemma_view_members, lookup,
    remove_key, set_key, take_item, take_member_value, text_in, view_items, view_json,
    view_members, law_get_after_insert, lemma_find_key_at, find_key,
};
use crate::protocol::{EncryptedContentError, EncryptedContentRecovery, RequestKind};
use crate::text::{str_eq, trim, trim_spec};

verus! {

pub const TOOL_OUTPUT_REJECTED: &'static str = "Encrypted function output content could not be decrypted or decoded.";

pub const UNAVAILABLE_PART: &'static str = "[XXGate: An encrypted part of this historical tool result was rejected by the upstream and is unavailable. The tool may already have executed. Do not infer success or failure, or repeat side-effecting actions solely because this result is unavailable.]";

/// The rejection an error names: none unless its code (`/error/code`, else
/// `/code`) is exactly "invalid_encrypted_content"; tool output when its
/// message (`/error/message`, else `/message`) is the tool-output text.
pub open spec fn rejection_spec(v: ErrorFieldsView) -> Option<EncryptedContentError> {
    if text_of(or_present(v.0, v.2)) != Some("invalid_encrypted_content"@) {
        None
    } else if text_of(or_present(v.3, v.5)) == Some(TOOL_OUTPUT_REJECTED@) {
        Some(EncryptedContentError::ToolOutput)
    } else {
        Some(EncryptedContentError::Reasoning)
    }
}

/// The encrypted-content rejection an upstream error names, if any.
pub fn rejection(error: &ErrorBody) -> (r: Option<EncryptedContentError>)
    ensures
        r == rejection_spec(body_view(*error)),
{
    let code = match &error.error_code {
        JsonField::Absent => &error.code,
        other => other,
    };
    let is_rejection = match code {
        JsonField::Text(c) => str_eq(c.as_str(), "invalid_encrypted_content"),
        _ => false,
    };
    if !is_rejection {
        return None;
    }
    let message = match &error.error_message {
        JsonField::Absent => &error.message,
        other => other,
    };
    let tool = match message {
        JsonField::Text(m) => str_eq(m.as_str(), TOOL_OUTPUT_REJECTED),
        _ => false,
    };
    if tool {
        Some(EncryptedContentError::ToolOutput)
    } else {
        Some(EncryptedContentError::Reasoning)
    }
}

/// A tool result item.
pub open spec fn is_tool_output(item: JsonView) -> bool {
    text_in(item.get("type"@)) == Some("function_call_output"@) || text_in(item.get("type"@))
        == Some("custom_tool_call_output"@)
}

/// A part whose type is "encrypted_content".
pub open spec fn is_encrypted_part(p: JsonView) -> bool {
    text_in(p.get("type"@)) == Some("encrypted_content"@)
}

/// A reasoning item: its type, trimmed, is "reasoning".
pub open spec fn is_reasoning(item: JsonView) -> bool {
    text_in(item.get("type"@)) matches Some(t) && trim_spec(t) == "reasoning"@
}

/// The text part that stands for an unavailable encrypted part.
pub open spec fn unavailable_part() -> JsonView {
    JsonView::Object(
        seq![("type"@, JsonView::Text("input_text"@)), ("text"@, JsonView::Text(UNAVAILABLE_PART@))],
    )
}

/// Every encrypted part replaced by the unavailable-part text.
pub open spec fn marked(parts: Seq<JsonView>) -> Seq<JsonView>
    decreases parts.len(),
{
    if parts.len() == 0 {
        parts
    } else {
        marked(parts.drop_last()).push(
            if is_encrypted_part(parts.last()) {
                unavailable_part()
            } else {
                parts.last()
            },
        )
    }
}

/// How many parts are encrypted.
pub open spec fn encrypted_parts(parts: Seq<JsonView>) -> nat
    decreases parts.len(),
{
    if parts.len() == 0 {
        0
    } else {
        encrypted_parts(parts.drop_last()) + if is_encrypted_part(parts.last()) {
            1nat
        } else {
            0nat
        }
    }
}

/// The array output of a tool result item, if it has one.
pub open spec fn tool_parts(item: JsonView) -> Option<Seq<JsonView>> {
    if is_tool_output(item) {
        match item.get("output"@) {
            Some(JsonView::Array(parts)) => Some(parts),
            _ => None,
        }
    } else {
        None
    }
}

/// A tool result item with its encrypted output parts marked unavailable.
pub open spec fn tool_cleaned(item: JsonView) -> JsonView {
    match (tool_parts(item), item) {
        (Some(parts), JsonView::Object(m)) => JsonView::Object(
            set_key(m, "output"@, JsonView::Array(marked(parts))),
        ),
        _ => item,
    }
}

pub open spec fn tool_replaced(item: JsonView) -> nat {
    match tool_parts(item) {
        Some(parts) => encrypted_parts(parts),
        None => 0,
    }
}

/// A reasoning item after its ciphertext is removed: `None` when only its
/// type remains. Items without ciphertext are kept as they are.
pub open spec fn reasoning_kept(item: JsonView) -> Option<JsonView> {
    if !reasoning_changes(item) {
        Some(item)
    } else {
        match item {
            JsonView::Object(m) => {
                let rest = reasoning_members(m);
                if rest.len() == 1 {
                    None
                } else {
                    Some(JsonView::Object(rest))
                }
            },
            _ => Some(item),
        }
    }
}

/// A reasoning item that carries ciphertext.
pub open spec fn reasoning_changes(item: JsonView) -> bool {
    is_reasoning(item) && item.get("encrypted_content"@) is Some
}

/// The members of a reasoning item without its ciphertext and, when it is
/// null, without its content.
pub open spec fn reasoning_members(m: Seq<(Seq<char>, JsonView)>) -> Seq<(Seq<char>, JsonView)> {
    let a = remove_key(m, "encrypted_content"@);
    if lookup(a, "content"@) == Some(JsonView::Null) {
        remove_key(a, "content"@)
    } else {
        a
    }
}

pub open spec fn reasoning_null_removed(item: JsonView) -> bool {
    reasoning_changes(item) && match item {
        JsonView::Object(m) => lookup(remove_key(m, "encrypted_content"@), "content"@) == Some(
            JsonView::Null,
        ),
        _ => false,
    }
}

pub open spec fn one_if(x: bool) -> nat {
    if x {
        1
    } else {
        0
    }
}

/// The counts of a recovery pass: fields removed, null contents removed,
/// empty items removed, parts replaced, tool outputs changed.
pub type Counts = (nat, nat, nat, nat, nat);

pub open spec fn plus(a: Counts, d: Counts) -> Counts {
    (a.0 + d.0, a.1 + d.1, a.2 + d.2, a.3 + d.3, a.4 + d.4)
}

/// One item after the pass for `error`, and what it changed.
pub open spec fn item_pass(item: JsonView, error: EncryptedContentError) -> (Option<JsonView>, Counts) {
    match error {
        EncryptedContentError::ToolOutput => (
            Some(tool_cleaned(item)),
            (0, 0, 0, tool_replaced(item), one_if(tool_replaced(item) > 0)),
        ),
        EncryptedContentError::Reasoning => (
            reasoning_kept(item),
            (
                one_if(reasoning_changes(item)),
                one_if(reasoning_null_removed(item)),
                one_if(reasoning_kept(item) is None),
                0,
                0,
            ),
        ),
    }
}

/// The pass over a list of items: changed items in order, removed ones left
/// out.
pub open spec fn items_pass(items: Seq<JsonView>, error: EncryptedContentError) -> (Seq<JsonView>, Counts)
    decreases items.len(),
{
    if items.len() == 0 {
        (items, (0, 0, 0, 0, 0))
    } else {
        let (rest, c) = items_pass(items.drop_last(), error);
        let (k, d) = item_pass(items.last(), error);
        (
            match k {
                Some(i) => rest.push(i),
                None => rest,
            },
            plus(c, d),
        )
    }
}

/// The input after the pass: an array item by item; a single object item,
/// which becomes an empty array when it is removed; anything else unchanged.
pub open spec fn input_pass(input: JsonView, error: EncryptedContentError) -> (JsonView, Counts) {
    match input {
        JsonView::Array(items) => (JsonView::Array(items_pass(items, error).0), items_pass(items, error).1),
        JsonView::Object(_) => {
            let (k, c) = item_pass(input, error);
            (
                match k {
                    Some(i) => i,
                    None => JsonView::Array(Seq::empty()),
                },
                c,
            )
        },
        _ => (input, (0, 0, 0, 0, 0)),
    }
}

/// The request body after the pass, and its counts.
pub open spec fn body_pass(body: JsonView, error: EncryptedContentError) -> (JsonView, Counts) {
    match (body, body.get("input"@)) {
        (JsonView::Object(m), Some(input)) => (
            JsonView::Object(set_key(m, "input"@, input_pass(input, error).0)),
            input_pass(input, error).1,
        ),
        _ => (body, (0, 0, 0, 0, 0)),
    }
}

pub open spec fn recovery_counts(r: EncryptedContentRecovery) -> Counts {
    (
        r.encrypted_fields_removed as nat,
        r.null_content_fields_removed as nat,
        r.empty_reasoning_items_removed as nat,
        r.encrypted_tool_parts_replaced as nat,
        r.tool_outputs_changed as nat,
    )
}

/// A pass changed the request: it removed a ciphertext field or replaced an
/// encrypted part.
pub open spec fn changed(c: Counts) -> bool {
    c.0 > 0 || c.3 > 0
}


/// A part after marking.
pub open spec fn mark_one(p: JsonView) -> JsonView {
    if is_encrypted_part(p) {
        unavailable_part()
    } else {
        p
    }
}

pub proof fn lemma_marked(s: Seq<JsonView>)
    ensures
        marked(s).len() == s.len(),
        forall|k: int| 0 <= k < s.len() ==> #[trigger] marked(s)[k] == mark_one(s[k]),
        encrypted_parts(s) <= s.len(),
    decreases s.len(),
{
    if s.len() > 0 {
        lemma_marked(s.drop_last());
    }
}

pub proof fn lemma_unmarked(s: Seq<JsonView>)
    requires
        encrypted_parts(s) == 0,
    ensures
        marked(s) == s,
    decreases s.len(),
{
    if s.len() > 0 {
        lemma_unmarked(s.drop_last());
        assert(s.drop_last().push(s.last()) =~= s);
    }
}

/// A tool item without encrypted parts is left as it is.
pub proof fn lemma_tool_unchanged(item: JsonView)
    requires
        tool_replaced(item) == 0,
    ensures
        tool_cleaned(item) == item,
{
    if let Some(parts) = tool_parts(item) {
        lemma_unmarked(parts);
        if let JsonView::Object(m) = item {
            lemma_set_same(m, "output"@, JsonView::Array(parts));
        }
    }
}

/// A pass that removed no ciphertext and replaced no part left the items as
/// they were.
pub proof fn lemma_items_unchanged(items: Seq<JsonView>, error: EncryptedContentError)
    requires
        !changed(items_pass(items, error).1),
    ensures
        items_pass(items, error).0 == items,
    decreases items.len(),
{
    if items.len() > 0 {
        lemma_items_unchanged(items.drop_last(), error);
        if error == EncryptedContentError::ToolOutput {
            lemma_tool_unchanged(items.last());
        }
        assert(items.drop_last().push(items.last()) =~= items);
    }
}

pub proof fn lemma_items_step(s: Seq<JsonView>, j: int, error: EncryptedContentError)
    requires
        0 <= j < s.len(),
    ensures
        items_pass(s.subrange(0, j + 1), error) == ({
            let (rest, c) = items_pass(s.subrange(0, j), error);
            let (k, d) = item_pass(s[j], error);
            (
                match k {
                    Some(i) => rest.push(i),
                    None => rest,
                },
                plus(c, d),
            )
        }),
{
    assert(s.subrange(0, j + 1).drop_last() =~= s.subrange(0, j));
}

/// The count a `usize` can hold of `n`.
pub open spec fn saturated(n: nat) -> usize {
    if n > usize::MAX {
        usize::MAX
    } else {
        n as usize
    }
}

/// `r` reports the counts `c` of a pass for `error`; parts replaced are
/// counted up to `usize::MAX`.
pub open spec fn counted(r: EncryptedContentRecovery, c: Counts, error: EncryptedContentError) -> bool {
    &&& r.error_kind == error
    &&& r.encrypted_fields_removed as nat == c.0
    &&& r.null_content_fields_removed as nat == c.1
    &&& r.empty_reasoning_items_removed as nat == c.2
    &&& r.encrypted_tool_parts_replaced == saturated(c.3)
    &&& r.tool_outputs_changed as nat == c.4
}

fn type_is(item: &Json, want: &str) -> (r: bool)
    ensures
        r == (text_in(item@.get("type"@)) == Some(want@)),
{
    match item.get_str("type") {
        Some(t) => str_eq(t, want),
        None => false,
    }
}

fn unavailable() -> (r: Json)
    ensures
        r@ == unavailable_part(),
{
    let m = vec![
        ("type".to_owned(), Json::Text("input_text".to_owned())),
        ("text".to_owned(), Json::Text(UNAVAILABLE_PART.to_owned())),
    ];
    proof {
        lemma_view_members(m@);
        assert(view_members(m@) =~= seq![("type"@, JsonView::Text("input_text"@)), ("text"@, JsonView::Text(UNAVAILABLE_PART@))]);
    }
    Json::Object(m)
}

/// Replaces every encrypted part and returns how many there were.
fn mark_parts(parts: &mut Vec<Json>) -> (n: usize)
    ensures
        view_items(final(parts)@) == marked(view_items(old(parts)@)),
        n == encrypted_parts(view_items(old(parts)@)),
        n <= old(parts)@.len(),
{
    let ghost orig = view_items(parts@);
    proof {
        lemma_view_items(parts@);
        lemma_marked(orig);
    }
    let mut n: usize = 0;
    let mut j: usize = 0;
    while j < parts.len()
        invariant
            orig.len() == parts@.len(),
            j <= parts@.len(),
            forall|k: int| 0 <= k < j ==> view_json(#[trigger] parts@[k]) == mark_one(orig[k]),
            forall|k: int| j <= k < parts@.len() ==> view_json(#[trigger] parts@[k]) == orig[k],
            n == encrypted_parts(orig.subrange(0, j as int)),
            n <= j,
        decreases parts.len() - j,
    {
        proof {
            assert(orig.subrange(0, j + 1).drop_last() =~= orig.subrange(0, j as int));
        }
        if type_is(&parts[j], "encrypted_content") {
            parts.set(j, unavailable());
            n = n + 1;
        }
        j = j + 1;
    }
    proof {
        lemma_view_items(parts@);
        assert(view_items(parts@) =~= marked(orig));
        assert(orig.subrange(0, orig.len() as int) =~= orig);
    }
    n
}

fn is_tool_output_exec(item: &Json) -> (r: bool)
    ensures
        r == is_tool_output(item@),
{
    type_is(item, "function_call_output") || type_is(item, "custom_tool_call_output")
}

/// Marks the encrypted output parts of a tool result item and returns how
/// many there were.
fn clean_tool_item(item: &mut Json) -> (n: usize)
    ensures
        final(item)@ == tool_cleaned(old(item)@),
        n == tool_replaced(old(item)@),
{
    if !is_tool_output_exec(item) {
        return 0;
    }
    match item {
        Json::Object(m) => {
            let ghost m0 = m@;
            proof {
                lemma_view_members(m0);
                lemma_find_key(view_members(m0), "output"@);
            }
            let i = find_member(m, "output");
            if i == m.len() {
                return 0;
            }
            let is_array = match &m[i].1 {
                Json::Array(_) => true,
                _ => false,
            };
            if !is_array {
                return 0;
            }
            let v = take_member_value(m, i);
            match v {
                Json::Array(parts) => {
                    let mut parts = parts;
                    let n = mark_parts(&mut parts);
                    let e = ("output".to_owned(), Json::Array(parts));
                    m.set(i, e);
                    proof {
                        assert(m@ =~= m0.update(i as int, e));
                        lemma_members_update(m0, i as int, e);
                    }
                    n
                },
                _ => 0,
            }
        },
        _ => 0,
    }
}

fn is_reasoning_exec(item: &Json) -> (r: bool)
    ensures
        r == is_reasoning(item@),
{
    match item.get_str("type") {
        Some(t) => str_eq(trim(t), "reasoning"),
        None => false,
    }
}

/// Removes a reasoning item's ciphertext, and its content when that is null.
/// Returns the item unless only its type remains, whether ciphertext was
/// removed, and whether null content was.
fn clean_reasoning_item(item: Json) -> (r: (Option<Json>, bool, bool))
    ensures
        match r.0 {
            Some(j) => reasoning_kept(item@) == Some(j@),
            None => reasoning_kept(item@) is None,
        },
        r.1 == reasoning_changes(item@),
        r.2 == reasoning_null_removed(item@),
{
    if !is_reasoning_exec(&item) {
        return (Some(item), false, false);
    }
    match item {
        Json::Object(m) => {
            let mut m = m;
            let ghost mv = view_members(m@);
            proof {
                lemma_view_members(m@);
                lemma_find_key(mv, "encrypted_content"@);
            }
            let i = find_member(&m, "encrypted_content");
            if i == m.len() {
                return (Some(Json::Object(m)), false, false);
            }
            proof {
                lemma_members_remove(m@, i as int);
            }
            m.remove(i);
            let ghost a = view_members(m@);
            proof {
                lemma_view_members(m@);
                lemma_find_key(a, "content"@);
            }
            let j = find_member(&m, "content");
            let null = j < m.len() && m[j].1.is_null();
            if null {
                proof {
                    lemma_members_remove(m@, j as int);
                }
                m.remove(j);
            }
            proof {
                lemma_view_members(m@);
            }
            if m.len() == 1 {
                (None, true, null)
            } else {
                (Some(Json::Object(m)), true, null)
            }
        },
        other => (Some(other), false, false),
    }
}

/// The pass for `error` over a list of items.
#[verifier::loop_isolation(false)]
fn clean_items(items: Vec<Json>, error: EncryptedContentError) -> (r: (Vec<Json>, EncryptedContentRecovery))
    ensures
        view_items(r.0@) == items_pass(view_items(items@), error).0,
        counted(r.1, items_pass(view_items(items@), error).1, error),
{
    let ghost orig = view_items(items@);
    proof {
        lemma_view_items(items@);
    }
    let mut items = items;
    let mut out: Vec<Json> = Vec::new();
    let mut changes = EncryptedContentRecovery {
        error_kind: error,
        encrypted_fields_removed: 0,
        null_content_fields_removed: 0,
        empty_reasoning_items_removed: 0,
        encrypted_tool_parts_replaced: 0,
        tool_outputs_changed: 0,
    };
    let mut j: usize = 0;
    while j < items.len()
        invariant
            orig.len() == items@.len(),
            j <= items@.len(),
            forall|k: int| j <= k < items@.len() ==> view_json(#[trigger] items@[k]) == orig[k],
            view_items(out@) == items_pass(orig.subrange(0, j as int), error).0,
            counted(changes, items_pass(orig.subrange(0, j as int), error).1, error),
            changes.encrypted_fields_removed <= j,
            changes.null_content_fields_removed <= j,
            changes.empty_reasoning_items_removed <= j,
            changes.tool_outputs_changed <= j,
        decreases items.len() - j,
    {
        proof {
            lemma_items_step(orig, j as int, error);
        }
        let x = take_item(&mut items, j);
        match error {
            EncryptedContentError::ToolOutput => {
                let mut x = x;
                let n = clean_tool_item(&mut x);
                proof {
                    lemma_items_push(out@, x);
                }
                out.push(x);
                changes.encrypted_tool_parts_replaced = changes.encrypted_tool_parts_replaced.saturating_add(n);
                if n > 0 {
                    changes.tool_outputs_changed = changes.tool_outputs_changed + 1;
                }
            },
            EncryptedContentError::Reasoning => {
                let (kept, removed, null) = clean_reasoning_item(x);
                if removed {
                    changes.encrypted_fields_removed = changes.encrypted_fields_removed + 1;
                }
                if null {
                    changes.null_content_fields_removed = changes.null_content_fields_removed + 1;
                }
                match kept {
                    Some(i) => {
                        proof {
                            lemma_items_push(out@, i);
                        }
                        out.push(i);
                    },
                    None => {
                        changes.empty_reasoning_items_removed = changes.empty_reasoning_items_removed + 1;
                    },
                }
            },
        }
        j = j + 1;
    }
    proof {
        assert(orig.subrange(0, orig.len() as int) =~= orig);
    }
    (out, changes)
}

/// The outcome of a recovery pass for `error` on `before`: when it changed
/// something, its counts and the changed body; otherwise nothing, and the body
/// as it was.
pub open spec fn cleaned_as(
    r: Option<EncryptedContentRecovery>,
    before: JsonView,
    after: JsonView,
    error: EncryptedContentError,
) -> bool {
    if changed(body_pass(before, error).1) {
        &&& r matches Some(x) && counted(x, body_pass(before, error).1, error)
        &&& after == body_pass(before, error).0
    } else {
        r is None && after == before
    }
}

/// Removes or marks the rejected ciphertext in a request body. Returns the
/// counts when something changed; otherwise the body is left as it was.
pub fn clean(body: &mut Json, error: EncryptedContentError) -> (r: Option<EncryptedContentRecovery>)
    ensures
        cleaned_as(r, old(body)@, final(body)@, error),
{
    let m = match body {
        Json::Object(m) => m,
        _ => return None,
    };
    let ghost m0 = m@;
    proof {
        lemma_view_members(m0);
        lemma_find_key(view_members(m0), "input"@);
    }
    let i = find_member(m, "input");
    if i == m.len() {
        return None;
    }
    let input = take_member_value(m, i);
    let ghost iv = input@;
    let (cleaned, changes) = match input {
        Json::Array(items) => {
            let (out, c) = clean_items(items, error);
            (Json::Array(out), c)
        },
        Json::Object(o) => {
            let mut changes = EncryptedContentRecovery {
                error_kind: error,
                encrypted_fields_removed: 0,
                null_content_fields_removed: 0,
                empty_reasoning_items_removed: 0,
                encrypted_tool_parts_replaced: 0,
                tool_outputs_changed: 0,
            };
            let item = Json::Object(o);
            match error {
                EncryptedContentError::ToolOutput => {
                    let mut item = item;
                    let n = clean_tool_item(&mut item);
                    changes.encrypted_tool_parts_replaced = n;
                    if n > 0 {
                        changes.tool_outputs_changed = 1;
                    }
                    (item, changes)
                },
                EncryptedContentError::Reasoning => {
                    let (kept, removed, null) = clean_reasoning_item(item);
                    if removed {
                        changes.encrypted_fields_removed = 1;
                    }
                    if null {
                        changes.null_content_fields_removed = 1;
                    }
                    match kept {
                        Some(i) => (i, changes),
                        None => {
                            changes.empty_reasoning_items_removed = 1;
                            (Json::Array(Vec::new()), changes)
                        },
                    }
                },
            }
        },
        other => {
            let changes = EncryptedContentRecovery {
                error_kind: error,
                encrypted_fields_removed: 0,
                null_content_fields_removed: 0,
                empty_reasoning_items_removed: 0,
                encrypted_tool_parts_replaced: 0,
                tool_outputs_changed: 0,
            };
            (other, changes)
        },
    };
    assert(cleaned@ == input_pass(iv, error).0);
    let e = ("input".to_owned(), cleaned);
    m.set(i, e);
    proof {
        assert(m@ =~= m0.update(i as int, e));
        lemma_members_update(m0, i as int, e);
    }
    if changes.encrypted_fields_removed == 0 && changes.encrypted_tool_parts_replaced == 0 {
        proof {
            match iv {
                JsonView::Array(items) => lemma_items_unchanged(items, error),
                _ => if error == EncryptedContentError::ToolOutput {
                    lemma_tool_unchanged(iv);
                },
            }
            lemma_set_same(view_members(m0), "input"@, iv);
        }
        return None;
    }
    Some(changes)
}


/// An input item that recovery could change: reasoning with ciphertext, or
/// a tool result with an encrypted output part.
pub open spec fn recoverable_item(item: JsonView) -> bool {
    ||| (text_in(item.get("type"@)) == Some("reasoning"@) && item.get("encrypted_content"@) is Some)
    ||| (is_tool_output(item) && match item.get("output"@) {
        Some(JsonView::Array(parts)) => exists|k: int|
            0 <= k < parts.len() && is_encrypted_part(#[trigger] parts[k]),
        _ => false,
    })
}

pub open spec fn recoverable_input(body: JsonView) -> bool {
    match body.get("input"@) {
        Some(JsonView::Array(items)) => exists|k: int|
            0 <= k < items.len() && recoverable_item(#[trigger] items[k]),
        Some(JsonView::Object(m)) => recoverable_item(JsonView::Object(m)),
        _ => false,
    }
}

#[verifier::loop_isolation(false)]
fn recoverable_item_exec(item: &Json) -> (r: bool)
    ensures
        r == recoverable_item(item@),
{
    if type_is(item, "reasoning") && item.get("encrypted_content").is_some() {
        return true;
    }
    if !is_tool_output_exec(item) {
        return false;
    }
    let parts = match item.get("output") {
        Some(Json::Array(parts)) => parts,
        _ => return false,
    };
    proof {
        lemma_view_items(parts@);
    }
    let mut k: usize = 0;
    while k < parts.len()
        invariant
            k <= parts@.len(),
            view_items(parts@).len() == parts@.len(),
            forall|i: int| 0 <= i < parts@.len() ==> #[trigger] view_items(parts@)[i] == view_json(parts@[i]),
            forall|i: int| 0 <= i < k ==> !is_encrypted_part(#[trigger] view_items(parts@)[i]),
        decreases parts.len() - k,
    {
        if type_is(&parts[k], "encrypted_content") {
            assert(is_encrypted_part(view_items(parts@)[k as int]));
            return true;
        }
        k = k + 1;
    }
    false
}

/// Whether the request's input holds ciphertext that recovery could remove or
/// mark.
#[verifier::loop_isolation(false)]
pub fn has_recoverable_input(body: &Json) -> (r: bool)
    ensures
        r == recoverable_input(body@),
{
    match body.get("input") {
        Some(Json::Array(items)) => {
            proof {
                lemma_view_items(items@);
            }
            let mut k: usize = 0;
            while k < items.len()
                invariant
                    k <= items@.len(),
                    view_items(items@).len() == items@.len(),
                    forall|i: int| 0 <= i < items@.len() ==> #[trigger] view_items(items@)[i] == view_json(items@[i]),
                    forall|i: int| 0 <= i < k ==> !recoverable_item(#[trigger] view_items(items@)[i]),
                decreases items.len() - k,
            {
                if recoverable_item_exec(&items[k]) {
                    assert(recoverable_item(view_items(items@)[k as int]));
                    return true;
                }
                k = k + 1;
            }
            false
        },
        Some(item) => match item {
            Json::Object(_) => recoverable_item_exec(item),
            _ => false,
        },
        None => false,
    }
}

/// The rejection recovery answers: only a 400 to a Responses request whose
/// error body names an encrypted-content rejection.
pub open spec fn recovery_error(kind: RequestKind, status: u16, fields: Option<ErrorFieldsView>) -> Option<EncryptedContentError> {
    if kind != RequestKind::Responses || status != 400 {
        None
    } else {
        match fields {
            Some(v) => rejection_spec(v),
            None => None,
        }
    }
}

/// Recovery after a failed attempt: for a 400 to a Responses request whose
/// error body names an encrypted-content rejection, the request body is
/// cleaned for that rejection. Any other failure leaves it as it is.
pub fn prepare(kind: RequestKind, body: &mut Json, status: u16, error_body: &[u8]) -> (r: Option<EncryptedContentRecovery>)
    ensures
        recovery_error(kind, status, json_error_fields(error_body@)) is None ==> r is None
            && final(body)@ == old(body)@,
        recovery_error(kind, status, json_error_fields(error_body@)) matches Some(e) ==> cleaned_as(
            r,
            old(body)@,
            final(body)@,
            e,
        ),
{
    if kind != RequestKind::Responses || status != 400 {
        return None;
    }
    let parsed = parse_error_body(error_body);
    let error = match &parsed {
        Some(e) => match rejection(e) {
            Some(k) => k,
            None => return None,
        },
        None => return None,
    };
    clean(body, error)
}


/// Each key occurs once.
pub open spec fn distinct_keys(m: Seq<(Seq<char>, JsonView)>) -> bool {
    forall|i: int, j: int| 0 <= i < j < m.len() ==> (#[trigger] m[i]).0 != (#[trigger] m[j]).0
}

/// An object whose keys occur once; any other value.
pub open spec fn keys_distinct(v: JsonView) -> bool {
    v matches JsonView::Object(m) ==> distinct_keys(m)
}

/// The input items of a body each hold a key once, as in a document that
/// serde_json read.
pub open spec fn input_keys_distinct(body: JsonView) -> bool {
    match body.get("input"@) {
        Some(JsonView::Array(items)) => forall|i: int| 0 <= i < items.len() ==> keys_distinct(#[trigger] items[i]),
        Some(x) => keys_distinct(x),
        None => true,
    }
}

/// Removing a key another key is not: the other reads as before.
proof fn lemma_remove_other(m: Seq<(Seq<char>, JsonView)>, k: Seq<char>, other: Seq<char>)
    requires
        other != k,
    ensures
        lookup(remove_key(m, k), other) == lookup(m, other),
{
    lemma_find_key(m, k);
    lemma_find_key(m, other);
    let f = find_key(m, k);
    if f < m.len() {
        let r = m.remove(f);
        let g = find_key(m, other);
        if g < f {
            assert forall|j: int| 0 <= j < g implies (#[trigger] r[j]).0 != other by {
                assert(r[j] == m[j]);
            }
            assert(r[g] == m[g]);
            lemma_find_key_at(r, other, g);
        } else {
            assert forall|j: int| 0 <= j < g - 1 implies (#[trigger] r[j]).0 != other by {
                if j < f {
                    assert(r[j] == m[j]);
                } else {
                    assert(r[j] == m[j + 1]);
                }
            }
            if g < m.len() {
                assert(r[g - 1] == m[g]);
            }
            lemma_find_key_at(r, other, g - 1);
        }
    }
}

/// With distinct keys, a removed key is gone.
proof fn lemma_remove_gone(m: Seq<(Seq<char>, JsonView)>, k: Seq<char>)
    requires
        distinct_keys(m),
    ensures
        lookup(remove_key(m, k), k) is None,
        distinct_keys(remove_key(m, k)),
{
    lemma_find_key(m, k);
    let f = find_key(m, k);
    if f < m.len() {
        let r = m.remove(f);
        assert forall|j: int| 0 <= j < r.len() implies (#[trigger] r[j]).0 != k by {
            if j < f {
                assert(r[j] == m[j]);
            } else {
                assert(r[j] == m[j + 1]);
            }
        }
        assert forall|i: int, j: int| 0 <= i < j < r.len() implies (#[trigger] r[i]).0 != (#[trigger] r[j]).0 by {
            let a = if i < f { i } else { i + 1 };
            let c = if j < f { j } else { j + 1 };
            assert(r[i] == m[a]);
            assert(r[j] == m[c]);
        }
        lemma_find_key_at(r, k, r.len() as int);
    } else {
        lemma_find_key_at(m, k, m.len() as int);
    }
}

proof fn lemma_marked_clean(parts: Seq<JsonView>)
    ensures
        encrypted_parts(marked(parts)) == 0,
    decreases parts.len(),
{
    reveal_strlit("input_text");
    reveal_strlit("encrypted_content");
    reveal_strlit("type");
    reveal_strlit("text");
    if parts.len() > 0 {
        lemma_marked_clean(parts.drop_last());
        let m = marked(parts);
        assert(m.drop_last() =~= marked(parts.drop_last()));
        let u = seq![("type"@, JsonView::Text("input_text"@)), ("text"@, JsonView::Text(UNAVAILABLE_PART@))];
        assert(u.drop_first() =~= seq![("text"@, JsonView::Text(UNAVAILABLE_PART@))]);
        assert(lookup(u, "type"@) == Some(JsonView::Text("input_text"@)));
        assert("input_text"@.len() != "encrypted_content"@.len());
        assert("input_text"@ != "encrypted_content"@);
        assert(!is_encrypted_part(unavailable_part()));
    }
}

/// One item after its pass changes nothing in a second pass.
proof fn lemma_item_clean(item: JsonView, error: EncryptedContentError)
    requires
        keys_distinct(item),
    ensures
        item_pass(item, error).0 matches Some(i) ==> item_pass(i, error).1.0 == 0 && item_pass(i, error).1.3 == 0,
{
    reveal_strlit("type");
    reveal_strlit("output");
    reveal_strlit("encrypted_content");
    reveal_strlit("content");
    match error {
        EncryptedContentError::ToolOutput => {
            if let (Some(parts), JsonView::Object(m)) = (tool_parts(item), item) {
                law_get_after_insert(m, "output"@, JsonView::Array(marked(parts)), "type"@);
                lemma_marked_clean(parts);
            }
        },
        EncryptedContentError::Reasoning => {
            if reasoning_changes(item) {
                if let JsonView::Object(m) = item {
                    let a = remove_key(m, "encrypted_content"@);
                    assert("content"@.len() != "encrypted_content"@.len());
                    lemma_remove_gone(m, "encrypted_content"@);
                    lemma_remove_other(a, "content"@, "encrypted_content"@);
                }
            }
        },
    }
}

proof fn lemma_items_clean(items: Seq<JsonView>, error: EncryptedContentError)
    requires
        forall|i: int| 0 <= i < items.len() ==> keys_distinct(#[trigger] items[i]),
    ensures
        !changed(items_pass(items_pass(items, error).0, error).1),
    decreases items.len(),
{
    if items.len() > 0 {
        let d = items.drop_last();
        assert forall|i: int| 0 <= i < d.len() implies keys_distinct(#[trigger] d[i]) by {
            assert(d[i] == items[i]);
        }
        lemma_items_clean(d, error);
        lemma_item_clean(items.last(), error);
        let (rest, c) = items_pass(d, error);
        let (k, x) = item_pass(items.last(), error);
        if let Some(i) = k {
            assert(rest.push(i).drop_last() =~= rest);
        }
    }
}

/// Recovery is done in one pass: a second pass over what it left finds no
/// ciphertext to remove and no encrypted part to replace.
pub proof fn law_second_pass_finds_nothing(body: JsonView, error: EncryptedContentError)
    requires
        input_keys_distinct(body),
    ensures
        !changed(body_pass(body_pass(body, error).0, error).1),
{
    if let (JsonView::Object(m), Some(input)) = (body, body.get("input"@)) {
        let after = input_pass(input, error).0;
        law_get_after_insert(m, "input"@, after, "input"@);
        match input {
            JsonView::Array(items) => {
                lemma_items_clean(items, error);
            },
            JsonView::Object(_) => {
                lemma_item_clean(input, error);
            },
            _ => {},
        }
    }
}

} // verus!
