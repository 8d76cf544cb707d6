//! Identifiers: UUIDs held as `u128` and their text forms.
use vstd::prelude::*;

verus! {

pub open spec fn hex_char(d: nat) -> char {
    if d < 10 {
        (('0' as nat) + d) as char
    } else {
        (('a' as nat) + d - 10) as char
    }
}

/// The `n` lowest hexadecimal digits of `x`, most significant first, lower case.
pub open spec fn hex_digits(x: nat, n: nat) -> Seq<char>
    decreases n,
{
    if n == 0 {
        Seq::empty()
    } else {
        hex_digits(x / 16, (n - 1) as nat).push(hex_char(x % 16))
    }
}

/// The simple text form of a UUID: 32 lower-case hexadecimal digits.
pub open spec fn simple_spec(x: u128) -> Seq<char> {
    hex_digits(x as nat, 32)
}

/// The hyphenated text form: groups of 8, 4, 4, 4 and 12 digits.
pub open spec fn hyphenated_spec(x: u128) -> Seq<char> {
    let h = simple_spec(x);
    h.subrange(0, 8) + seq!['-'] + h.subrange(8, 12) + seq!['-'] + h.subrange(12, 16) + seq![
        '-',
    ] + h.subrange(16, 20) + seq!['-'] + h.subrange(20, 32)
}

/// What `uuid::Uuid::new_v5` gives for a namespace and a name.
pub uninterp spec fn uuid_v5(namespace: u128, name: Seq<u8>) -> u128;

/// What `uuid::Uuid::parse_str` gives for a text (`None` where it fails).
pub uninterp spec fn uuid_parse(text: Seq<char>) -> Option<u128>;

/// `uuid::Uuid::new_v4`: a random UUID. Nothing is promised of its value.
#[verifier::external_body]
pub fn random_uuid() -> (r: u128) {
    uuid::Uuid::new_v4().as_u128()
}

/// `uuid::Uuid::new_v5`: a name-based UUID, a function of its arguments alone.
#[verifier::external_body]
pub fn v5(namespace: u128, name: &[u8]) -> (r: u128)
    ensures
        r == uuid_v5(namespace, name@),
{
    uuid::Uuid::new_v5(&uuid::Uuid::from_u128(namespace), name).as_u128()
}

/// `uuid::Uuid::parse_str` on a text, as a `u128`.
#[verifier::external_body]
pub fn parse(text: &str) -> (r: Option<u128>)
    ensures
        r == uuid_parse(text@),
{
    uuid::Uuid::parse_str(text).ok().map(|u| u.as_u128())
}

/// `uuid::Simple` display: the 32 hexadecimal digits of the value in lower case.
#[verifier::external_body]
pub fn simple(x: u128) -> (r: String)
    ensures
        r@ == simple_spec(x),
{
    uuid::Uuid::from_u128(x).simple().to_string()
}

/// `uuid::Uuid` display: the hyphenated lower-case form.
#[verifier::external_body]
pub fn hyphenated(x: u128) -> (r: String)
    ensures
        r@ == hyphenated_spec(x),
{
    uuid::Uuid::from_u128(x).to_string()
}

} // verus!
