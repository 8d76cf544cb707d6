//! Official upstream quota windows and the cooldowns they impose.
use vstd::prelude::*;
use crate::accounts::DisableReason;
use crate::time::Timestamp;

verus! {

/// The account state implied by an exhausted window of the given length:
/// 300 minutes and 10080 minutes have their own reasons, any other length
/// the general one. A window that is not exhausted implies nothing.
pub open spec fn disable_reason_spec(window_minutes: Option<i64>, exhausted: bool) -> Option<
    DisableReason,
> {
    if !exhausted {
        None
    } else {
        Some(
            match window_minutes {
                Some(m) => if m == 300 {
                    DisableReason::Quota5hExhausted
                } else if m == 10080 {
                    DisableReason::Quota7dExhausted
                } else {
                    DisableReason::QuotaExhausted
                },
                None => DisableReason::QuotaExhausted,
            },
        )
    }
}

/// `exhausted` says whether the reported usage is a finite value of at least
/// 100 percent.
pub fn disable_reason(window_minutes: Option<i64>, exhausted: bool) -> (r: Option<DisableReason>)
    ensures
        r == disable_reason_spec(window_minutes, exhausted),
{
    if !exhausted {
        return None;
    }
    Some(
        match window_minutes {
            Some(300) => DisableReason::Quota5hExhausted,
            Some(10080) => DisableReason::Quota7dExhausted,
            _ => DisableReason::QuotaExhausted,
        },
    )
}

/// An exhausted window stays in cooldown until its reset time has passed; a
/// window without a reset time stays in cooldown.
pub fn cooldown_active(exhausted: bool, resets_at: Option<Timestamp>, now: Timestamp) -> (r: bool)
    requires
        now.wf(),
        resets_at matches Some(t) ==> t.wf(),
    ensures
        r == (exhausted && match resets_at {
            Some(t) => t.ns() > now.ns(),
            None => true,
        }),
{
    exhausted && match resets_at {
        Some(t) => now.before(&t),
        None => true,
    }
}

} // verus!
