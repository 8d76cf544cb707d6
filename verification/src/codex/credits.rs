//! Checks on the quota reset credits that the upstream lists.
use vstd::prelude::*;
use crate::resets::{ResetCredit, ResetCredits, credits_wf, sorted_credits};
use crate::text::{blank, byte_len, is_blank, len_bytes, str_eq};
use crate::time::Timestamp;
use crate::types::{Error, Result, plain_error};

verus! {

pub open spec fn invalid_reset_response(e: Error) -> bool {
    plain_error(
        e,
        502,
        "invalid_reset_response"@,
        "上游重置响应无法识别，请重新查询或核实原操作"@,
    )
}

/// The upstream's reset response could not be understood.
pub fn invalid_response() -> (r: Error)
    ensures
        invalid_reset_response(r),
{
    Error::new(502, "invalid_reset_response", "上游重置响应无法识别，请重新查询或核实原操作")
}

/// Every credit has an identifier of 1 to 512 bytes that is not blank, and no
/// two credits share one.
pub open spec fn credit_ids_ok(c: Seq<ResetCredit>) -> bool {
    &&& forall|i: int|
        0 <= i < c.len() ==> !blank((#[trigger] c[i]).id@) && byte_len(c[i].id@) <= 512
    &&& forall|i: int, j: int|
        #![trigger c[i], c[j]]
        0 <= i < j < c.len() ==> c[i].id@ != c[j].id@
}

fn duplicate_before(c: &Vec<ResetCredit>, j: usize) -> (r: bool)
    requires
        j < c@.len(),
    ensures
        r == exists|i: int| 0 <= i < j && (#[trigger] c@[i]).id@ == c@[j as int].id@,
{
    let mut i: usize = 0;
    while i < j
        invariant
            j < c@.len(),
            i <= j,
            forall|k: int| 0 <= k < i ==> (#[trigger] c@[k]).id@ != c@[j as int].id@,
        decreases j - i,
    {
        if str_eq(c[i].id.as_str(), c[j].id.as_str()) {
            return true;
        }
        i = i + 1;
    }
    false
}

/// Accepts a parsed credit list: identifiers must be valid and distinct; the
/// list is then stamped with the observation time and sorted by expiry, grant
/// time and identifier, keeping every credit.
pub fn accept_credits(credits: ResetCredits, observed_at: Timestamp) -> (r: Result<ResetCredits>)
    requires
        credits_wf(credits.credits@),
    ensures
        !credit_ids_ok(credits.credits@) ==> (r matches Err(e) && invalid_reset_response(e)),
        credit_ids_ok(credits.credits@) ==> (r matches Ok(c) && sorted_credits(c.credits@)
            && c.credits@.to_multiset() == credits.credits@.to_multiset() && c.observed_at
            == observed_at && c.available_count == credits.available_count),
{
    let mut j: usize = 0;
    while j < credits.credits.len()
        invariant
            j <= credits.credits@.len(),
            forall|i: int|
                0 <= i < j ==> !blank((#[trigger] credits.credits@[i]).id@) && byte_len(
                    credits.credits@[i].id@,
                ) <= 512,
            forall|a: int, b: int|
                #![trigger credits.credits@[a], credits.credits@[b]]
                0 <= a < b < j ==> credits.credits@[a].id@ != credits.credits@[b].id@,
        decreases credits.credits@.len() - j,
    {
        let id = credits.credits[j].id.as_str();
        if is_blank(id) || len_bytes(id) > 512 || duplicate_before(&credits.credits, j) {
            return Err(invalid_response());
        }
        j = j + 1;
    }
    let mut credits = credits;
    credits.observed_at = observed_at;
    credits.sort();
    Ok(credits)
}

} // verus!
