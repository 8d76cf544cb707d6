//! Bounded observation of the opaque `x-codex-turn-state` header; it is
//! recorded for diagnosis and never used for routing.
use vstd::prelude::*;
use vstd::utf8::{decode_utf8, encode_utf8, is_char_boundary, valid_utf8};
use vstd::string::StringSliceAdditionalSpecFns;

verus! {

/// The most bytes recorded over all values.
pub const MAX_BYTES: usize = 65536;

/// The most values recorded.
pub const MAX_VALUES: usize = 8;

/// What the header held: whether it was present, how many values it had,
/// how many were not recorded, and the recorded values.
pub struct TurnStateHeader {
    pub present: bool,
    pub total_values: usize,
    pub omitted_values: usize,
    pub values: Vec<TurnStateValue>,
}

/// One value: UTF-8 text as received, or Base64 for other bytes, possibly
/// cut short; `bytes` is its full size.
pub struct TurnStateValue {
    pub value: String,
    pub encoding: String,
    pub bytes: usize,
    pub truncated: bool,
}

/// What `base64`'s standard alphabet with padding gives for some bytes.
pub uninterp spec fn base64_standard(bytes: Seq<u8>) -> Seq<char>;

/// `base64::engine::general_purpose::STANDARD.encode`.
#[verifier::external_body]
fn encode_base64_standard(bytes: &[u8]) -> (r: String)
    ensures
        r@ == base64_standard(bytes@),
{
    base64::Engine::encode(&base64::engine::general_purpose::STANDARD, bytes)
}

/// `std::str::from_utf8`: the text of valid UTF-8, else nothing.
#[verifier::external_body]
fn utf8_text(bytes: &[u8]) -> (r: Option<&str>)
    ensures
        r is Some <==> valid_utf8(bytes@),
        r matches Some(s) ==> s.spec_bytes() == bytes@,
{
    std::str::from_utf8(bytes).ok()
}

/// The largest character boundary of `b` at or below `l`.
pub open spec fn boundary_below(b: Seq<u8>, l: int) -> int
    decreases l,
{
    if l <= 0 || is_char_boundary(b, l) {
        if l <= 0 {
            0
        } else {
            l
        }
    } else {
        boundary_below(b, l - 1)
    }
}

pub open spec fn min(a: int, b: int) -> int {
    if a < b {
        a
    } else {
        b
    }
}

/// The values recorded from value `i` on with `budget` bytes left: each takes
/// what is left of the budget, text cut at a character boundary.
pub open spec fn captured(vals: Seq<Seq<u8>>, i: int, budget: int) -> Seq<(Seq<char>, Seq<char>, nat, bool)>
    decreases vals.len() - i,
{
    if i < 0 || i >= vals.len() || i >= MAX_VALUES || budget <= 0 {
        Seq::empty()
    } else {
        let b = vals[i];
        let l0 = min(b.len() as int, budget);
        if valid_utf8(b) {
            let l = boundary_below(b, l0);
            seq![(decode_utf8(b.take(l)), "utf8"@, b.len(), l < b.len())] + captured(vals, i + 1, budget - l)
        } else {
            seq![(base64_standard(b.take(l0)), "base64"@, b.len(), l0 < b.len())] + captured(
                vals,
                i + 1,
                budget - l0,
            )
        }
    }
}

pub open spec fn value_view(v: TurnStateValue) -> (Seq<char>, Seq<char>, nat, bool) {
    (v.value@, v.encoding@, v.bytes as nat, v.truncated)
}

proof fn lemma_boundary_below(b: Seq<u8>, l: int)
    requires
        valid_utf8(b),
        0 <= l <= b.len(),
    ensures
        0 <= boundary_below(b, l) <= l,
        is_char_boundary(b, boundary_below(b, l)),
    decreases l,
{
    if l > 0 && !is_char_boundary(b, l) {
        lemma_boundary_below(b, l - 1);
    }
}

impl TurnStateHeader {
    /// Records the header's values (their bytes, in order): at most 8 of them
    /// and 64 KiB in all.
    pub fn capture(raw: &Vec<Vec<u8>>) -> (r: Self)
        ensures
            r.present == (raw@.len() != 0),
            r.total_values == raw@.len(),
            r.values@.map_values(|v: TurnStateValue| value_view(v)) == captured(
                raw@.map_values(|b: Vec<u8>| b@),
                0,
                MAX_BYTES as int,
            ),
            r.omitted_values == raw@.len() - r.values@.len(),
    {
        proof {
            reveal_strlit("utf8");
            reveal_strlit("base64");
        }
        let ghost vals = raw@.map_values(|b: Vec<u8>| b@);
        let total = raw.len();
        let mut budget: usize = MAX_BYTES;
        let mut values: Vec<TurnStateValue> = Vec::new();
        let mut i: usize = 0;
        while i < raw.len() && i < MAX_VALUES && budget > 0
            invariant
                vals == raw@.map_values(|b: Vec<u8>| b@),
                i <= raw@.len(),
                values@.len() == i,
                budget <= MAX_BYTES,
                values@.map_values(|v: TurnStateValue| value_view(v)) + captured(vals, i as int, budget as int)
                    == captured(vals, 0, MAX_BYTES as int),
            decreases raw@.len() - i,
        {
            let bytes = raw[i].as_slice();
            let mut length = if bytes.len() < budget {
                bytes.len()
            } else {
                budget
            };
            let ghost b = vals[i as int];
            let ghost rest = captured(vals, i + 1, 0);
            let v = match utf8_text(bytes) {
                Some(text) => {
                    proof {
                        lemma_boundary_below(b, length as int);
                    }
                    let ghost l0 = length as int;
                    while length > 0 && !text.is_char_boundary(length)
                        invariant
                            text.spec_bytes() == b,
                            valid_utf8(b),
                            0 <= length <= l0 <= b.len(),
                            boundary_below(b, length as int) == boundary_below(b, l0),
                        decreases length,
                    {
                        length = length - 1;
                    }
                    proof {
                        if length > 0 {
                            assert(boundary_below(b, length as int) == length);
                        }
                        assert(is_char_boundary(b, 0));
                    }
                    let (head, _) = text.split_at(length);
                    proof {
                        assert(head.spec_bytes() == b.take(length as int));
                        vstd::utf8::encode_utf8_decode_utf8(head@);
                    }
                    TurnStateValue {
                        value: head.to_owned(),
                        encoding: "utf8".to_owned(),
                        bytes: bytes.len(),
                        truncated: length < bytes.len(),
                    }
                },
                None => {
                    let head = crate::bytes::slice_range(bytes, 0, length);
                    proof {
                        assert(head@ =~= b.take(length as int));
                    }
                    TurnStateValue {
                        value: encode_base64_standard(head.as_slice()),
                        encoding: "base64".to_owned(),
                        bytes: bytes.len(),
                        truncated: length < bytes.len(),
                    }
                },
            };
            let ghost before = values@;
            values.push(v);
            proof {
                assert(values@.map_values(|v: TurnStateValue| value_view(v)) =~= before.map_values(
                    |v: TurnStateValue| value_view(v),
                ).push(value_view(v)));
            }
            budget = budget - length;
            i = i + 1;
        }
        proof {
            assert(captured(vals, i as int, budget as int) =~= Seq::empty());
            assert(values@.map_values(|v: TurnStateValue| value_view(v)) + Seq::empty() =~= values@.map_values(
                |v: TurnStateValue| value_view(v),
            ));
        }
        let n = values.len();
        TurnStateHeader { present: total != 0, total_values: total, omitted_values: total - n, values }
    }
}

} // verus!
