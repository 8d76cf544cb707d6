//! A bounded, content-free trace of how a request's identifiers were rewritten.
use vstd::prelude::*;
use crate::identity::{IdentifierRewrite, RequestRewrite};
use crate::text::{byte_len, has_control, has_control_spec, len_bytes};

verus! {

/// The most entries a trace records; further changes are only counted.
pub const MAX_ENTRIES: usize = 2000;

/// A value short and plain enough to record: at most 512 bytes, no control
/// character.
pub open spec fn recordable(v: Seq<char>) -> bool {
    byte_len(v) <= 512 && !has_control_spec(v)
}

pub fn identifier(value: &str) -> (r: Option<&str>)
    ensures
        recordable(value@) ==> r == Some(value),
        !recordable(value@) ==> r is None,
{
    if len_bytes(value) <= 512 && !has_control(value) {
        Some(value)
    } else {
        None
    }
}

pub open spec fn opt_view(v: Option<&str>) -> Option<Seq<char>> {
    match v {
        Some(x) => Some(x@),
        None => None,
    }
}

pub open spec fn owned_view(v: Option<String>) -> Option<Seq<char>> {
    match v {
        Some(x) => Some(x@),
        None => None,
    }
}

/// What happened to an identifier between the client's request and the
/// upstream request.
pub open spec fn action_spec(before: Option<Seq<char>>, after: Option<Seq<char>>, body_id: bool) -> Seq<char> {
    if before == after {
        "unchanged"@
    } else if before is None {
        "added"@
    } else if after is None {
        "removed"@
    } else if body_id {
        "alias_restored"@
    } else {
        "rewritten"@
    }
}

fn same_opt(a: Option<&str>, b: Option<&str>) -> (r: bool)
    ensures
        r == (opt_view(a) == opt_view(b)),
{
    match (a, b) {
        (Some(x), Some(y)) => crate::text::str_eq(x, y),
        (None, None) => true,
        _ => false,
    }
}

fn owned(v: Option<&str>) -> (r: Option<String>)
    ensures
        owned_view(r) == opt_view(v),
{
    match v {
        Some(x) => Some(x.to_owned()),
        None => None,
    }
}

/// Records one identifier field; a full trace, or a value that is too long
/// or has control characters, is only counted as omitted.
pub fn push(trace: &mut RequestRewrite, field: String, before: Option<&str>, after: Option<&str>, body_id: bool)
    requires
        old(trace).omitted < usize::MAX,
    ensures
        old(trace).entries@.len() >= MAX_ENTRIES || (before matches Some(b) && !recordable(b@)) || (
        after matches Some(a) && !recordable(a@)) ==> (final(trace).omitted == old(trace).omitted + 1
            && final(trace).entries@ == old(trace).entries@),
        !(old(trace).entries@.len() >= MAX_ENTRIES || (before matches Some(b) && !recordable(b@)) || (
        after matches Some(a) && !recordable(a@))) ==> {
            &&& final(trace).omitted == old(trace).omitted
            &&& final(trace).entries@.drop_last() == old(trace).entries@
            &&& final(trace).entries@.len() == old(trace).entries@.len() + 1
            &&& final(trace).entries@.last().field == field
            &&& owned_view(final(trace).entries@.last().before) == opt_view(before)
            &&& owned_view(final(trace).entries@.last().after) == opt_view(after)
            &&& final(trace).entries@.last().action@ == action_spec(
                opt_view(before),
                opt_view(after),
                body_id,
            )
        },
{
    let bad_before = match before {
        Some(b) => identifier(b).is_none(),
        None => false,
    };
    let bad_after = match after {
        Some(a) => identifier(a).is_none(),
        None => false,
    };
    if trace.entries.len() >= MAX_ENTRIES || bad_before || bad_after {
        trace.omitted = trace.omitted + 1;
        return ;
    }
    proof {
        reveal_strlit("unchanged");
        reveal_strlit("added");
        reveal_strlit("removed");
        reveal_strlit("alias_restored");
        reveal_strlit("rewritten");
    }
    let action = if same_opt(before, after) {
        "unchanged"
    } else if before.is_none() {
        "added"
    } else if after.is_none() {
        "removed"
    } else if body_id {
        "alias_restored"
    } else {
        "rewritten"
    };
    let ghost old_entries = trace.entries@;
    trace.entries.push(
        IdentifierRewrite {
            field,
            before: owned(before),
            after: owned(after),
            action: action.to_owned(),
        },
    );
    proof {
        assert(trace.entries@.drop_last() =~= old_entries);
    }
}

} // verus!
