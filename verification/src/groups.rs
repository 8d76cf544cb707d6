//! Account groups: every key routes only within its group.
use vstd::prelude::*;
use crate::text::{blank, byte_len, has_control, has_control_spec, is_blank, len_bytes};
use crate::time::Timestamp;
use crate::types::{Error, Result, plain_error};

verus! {

pub const DEFAULT_GROUP_ID: u128 = 1;

pub fn default_group_id() -> (r: u128)
    ensures
        r == DEFAULT_GROUP_ID,
{
    DEFAULT_GROUP_ID
}

pub fn default_group_ids() -> (r: Vec<u128>)
    ensures
        r@ == seq![DEFAULT_GROUP_ID],
{
    let mut v = Vec::new();
    v.push(DEFAULT_GROUP_ID);
    v
}

#[derive(Debug)]
pub struct Group {
    pub id: u128,
    pub name: String,
    pub created_at: Timestamp,
    pub updated_at: Timestamp,
}

pub open spec fn group_name_ok(name: Seq<char>) -> bool {
    !blank(name) && byte_len(name) <= 128 && !has_control_spec(name)
}

impl Group {
    /// A name of 1 to 128 bytes that is not blank and has no control character.
    pub fn validate_name(name: &str) -> (r: Result<()>)
        ensures
            group_name_ok(name@) ==> r is Ok,
            !group_name_ok(name@) ==> (r matches Err(e) && plain_error(
                e,
                400,
                "invalid_request"@,
                "Group name must contain 1 to 128 bytes without control characters"@,
            )),
    {
        if is_blank(name) || len_bytes(name) > 128 || has_control(name) {
            return Err(
                Error::invalid("Group name must contain 1 to 128 bytes without control characters"),
            );
        }
        Ok(())
    }
}

} // verus!
