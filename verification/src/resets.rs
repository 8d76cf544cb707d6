//! Quota reset credits: which one is spent next, and the journal of a reset.
use vstd::prelude::*;
use vstd::multiset::Multiset;
use crate::order::{compare_str, lemma_lt_asymmetric, lemma_lt_transitive, seq_lt};
use crate::text::str_eq;
use crate::time::Timestamp;

verus! {

#[derive(Debug)]
pub struct ResetCredit {
    pub id: String,
    pub reset_type: String,
    pub status: String,
    pub granted_at: Timestamp,
    pub expires_at: Option<Timestamp>,
    pub title: Option<String>,
    pub description: Option<String>,
}

#[derive(Debug)]
pub struct ResetCredits {
    pub available_count: u64,
    pub credits: Vec<ResetCredit>,
    pub observed_at: Timestamp,
}

#[derive(Debug, Clone, Copy, PartialEq, Eq, Structural)]
pub enum ResetCode {
    Reset,
    NothingToReset,
    NoCredit,
    AlreadyRedeemed,
}

#[derive(Debug, Clone, Copy)]
pub struct ResetResult {
    pub code: ResetCode,
    pub windows_reset: u64,
}

/// Journaled before dispatch: an unknown outcome keeps this exact request and
/// credit across restarts, so a retry never chooses a new credit.
#[derive(Debug)]
pub struct ResetOperation {
    pub id: u128,
    pub account_id: u128,
    pub credit_id: String,
    pub created_at: Timestamp,
    pub result: Option<ResetResult>,
}

pub open spec fn credit_wf(c: ResetCredit) -> bool {
    c.granted_at.wf() && (c.expires_at matches Some(t) ==> t.wf())
}

pub open spec fn credits_wf(s: Seq<ResetCredit>) -> bool {
    forall|i: int| 0 <= i < s.len() ==> credit_wf(#[trigger] s[i])
}

/// A Codex rate-limit reset that is still available and not yet expired.
pub open spec fn available_spec(c: ResetCredit, now: Timestamp) -> bool {
    &&& c.status@ == "available"@
    &&& c.reset_type@ == "codex_rate_limits"@
    &&& c.expires_at matches Some(t) ==> t.ns() > now.ns()
}

/// Credits sort by expiry (those without one last), then by grant time, then by id.
pub open spec fn credit_before(a: ResetCredit, b: ResetCredit) -> bool {
    match (a.expires_at, b.expires_at) {
        (Some(_), None) => true,
        (None, Some(_)) => false,
        _ => {
            let ae = match a.expires_at {
                Some(t) => t.ns(),
                None => 0,
            };
            let be = match b.expires_at {
                Some(t) => t.ns(),
                None => 0,
            };
            if ae != be {
                ae < be
            } else if a.granted_at.ns() != b.granted_at.ns() {
                a.granted_at.ns() < b.granted_at.ns()
            } else {
                seq_lt(a.id@, b.id@)
            }
        },
    }
}

/// Equal sort keys.
pub open spec fn same_key(a: ResetCredit, b: ResetCredit) -> bool {
    &&& (a.expires_at is None) == (b.expires_at is None)
    &&& (a.expires_at matches Some(x) ==> (b.expires_at matches Some(y) && x.ns() == y.ns()))
    &&& a.granted_at.ns() == b.granted_at.ns()
    &&& a.id@ == b.id@
}

pub open spec fn credit_le(a: ResetCredit, b: ResetCredit) -> bool {
    credit_before(a, b) || same_key(a, b)
}

pub open spec fn sorted_credits(s: Seq<ResetCredit>) -> bool {
    forall|i: int, j: int| 0 <= i < j < s.len() ==> credit_le(#[trigger] s[i], #[trigger] s[j])
}

proof fn lemma_le_transitive(a: ResetCredit, b: ResetCredit, c: ResetCredit)
    requires
        credit_le(a, b),
        credit_le(b, c),
    ensures
        credit_le(a, c),
        credit_before(a, b) ==> credit_before(a, c),
        credit_before(b, c) ==> credit_before(a, c),
{
    if seq_lt(a.id@, b.id@) && seq_lt(b.id@, c.id@) {
        lemma_lt_transitive(a.id@, b.id@, c.id@);
    }
}

fn timestamp_order(a: &Timestamp, b: &Timestamp) -> (r: i8)
    requires
        a.wf(),
        b.wf(),
    ensures
        r < 0 <==> a.ns() < b.ns(),
        r == 0 <==> a.ns() == b.ns(),
        r > 0 <==> a.ns() > b.ns(),
{
    if a.before(b) {
        -1
    } else if b.before(a) {
        1
    } else {
        0
    }
}

/// Three-way comparison of the sort keys of two credits.
fn credit_order(a: &ResetCredit, b: &ResetCredit) -> (r: i8)
    requires
        credit_wf(*a),
        credit_wf(*b),
    ensures
        r < 0 <==> credit_before(*a, *b),
        r == 0 <==> same_key(*a, *b),
        r > 0 <==> credit_before(*b, *a),
{
    proof {
        if seq_lt(a.id@, b.id@) {
            lemma_lt_asymmetric(a.id@, b.id@);
        }
        if seq_lt(b.id@, a.id@) {
            lemma_lt_asymmetric(b.id@, a.id@);
        }
    }
    match (&a.expires_at, &b.expires_at) {
        (Some(_), None) => {
            return -1;
        },
        (None, Some(_)) => {
            return 1;
        },
        (Some(x), Some(y)) => {
            let c = timestamp_order(x, y);
            if c != 0 {
                return c;
            }
        },
        (None, None) => {},
    }
    let g = timestamp_order(&a.granted_at, &b.granted_at);
    if g != 0 {
        return g;
    }
    compare_str(a.id.as_str(), b.id.as_str())
}

impl ResetCredit {
    pub fn available(&self, now: Timestamp) -> (r: bool)
        requires
            credit_wf(*self),
            now.wf(),
        ensures
            r == available_spec(*self, now),
    {
        proof {
            reveal_strlit("available");
            reveal_strlit("codex_rate_limits");
        }
        str_eq(self.status.as_str(), "available") && str_eq(
            self.reset_type.as_str(),
            "codex_rate_limits",
        ) && match &self.expires_at {
            Some(t) => now.before(t),
            None => true,
        }
    }
}

impl ResetCredits {
    /// Orders the credits by expiry, grant time and id, keeping every credit.
    pub fn sort(&mut self)
        requires
            credits_wf(old(self).credits@),
        ensures
            sorted_credits(final(self).credits@),
            final(self).credits@.to_multiset() == old(self).credits@.to_multiset(),
            credits_wf(final(self).credits@),
            final(self).available_count == old(self).available_count,
            final(self).observed_at == old(self).observed_at,
    {
        broadcast use vstd::seq_lib::group_to_multiset_ensures, vstd::multiset::group_multiset_axioms;
        let mut input: Vec<ResetCredit> = Vec::new();
        std::mem::swap(&mut input, &mut self.credits);
        let ghost all = input@;
        let mut out: Vec<ResetCredit> = Vec::new();
        while input.len() > 0
            invariant
                sorted_credits(out@),
                credits_wf(out@),
                credits_wf(input@),
                out@.to_multiset().add(input@.to_multiset()) == all.to_multiset(),
            decreases input@.len(),
        {
            let ghost before_in = input@;
            let x = input.remove(0);
            proof {
                vstd::seq_lib::to_multiset_remove(before_in, 0);
                assert(before_in.remove(0) =~= input@);
                assert(credit_wf(before_in[0]));
                assert forall|i: int| 0 <= i < input@.len() implies credit_wf(#[trigger] input@[i]) by {
                    assert(input@[i] == before_in[i + 1]);
                }
            }
            let mut p: usize = 0;
            while p < out.len()
                invariant
                    p <= out@.len(),
                    credits_wf(out@),
                    credit_wf(x),
                    forall|i: int| 0 <= i < p ==> credit_le(#[trigger] out@[i], x),
                ensures
                    p <= out@.len(),
                    forall|i: int| 0 <= i < p ==> credit_le(#[trigger] out@[i], x),
                    p < out@.len() ==> credit_before(x, out@[p as int]),
                decreases out@.len() - p,
            {
                if credit_order(&out[p], &x) > 0 {
                    break;
                }
                p = p + 1;
            }
            let ghost before_out = out@;
            out.insert(p, x);
            proof {
                vstd::seq_lib::to_multiset_insert(before_out, p as int, x);
                assert(before_in.contains(x)) by {
                    assert(before_in[0] == x);
                }
                vstd::seq_lib::to_multiset_contains(before_in, x);
                assert(before_in.to_multiset().count(x) > 0);
                assert(out@.to_multiset().add(input@.to_multiset()) =~= all.to_multiset());
                assert forall|i: int, j: int|
                    0 <= i < j < out@.len() implies credit_le(#[trigger] out@[i], #[trigger] out@[j]) by {
                    if j < p {
                        assert(out@[i] == before_out[i] && out@[j] == before_out[j]);
                    } else if j == p {
                        assert(out@[i] == before_out[i]);
                    } else if i == p {
                        assert(out@[j] == before_out[j - 1]);
                        assert(credit_before(x, before_out[p as int]));
                        if j - 1 > p {
                            lemma_le_transitive(x, before_out[p as int], before_out[j - 1]);
                        }
                    } else if i < p {
                        assert(out@[i] == before_out[i] && out@[j] == before_out[j - 1]);
                    } else {
                        assert(out@[i] == before_out[i - 1] && out@[j] == before_out[j - 1]);
                    }
                }
                assert forall|i: int| 0 <= i < out@.len() implies credit_wf(#[trigger] out@[i]) by {
                    if i < p {
                        assert(out@[i] == before_out[i]);
                    } else if i > p {
                        assert(out@[i] == before_out[i - 1]);
                    }
                }
            }
        }
        self.credits = out;
    }

    /// The available credit that expires first (ties by grant time, then id):
    /// the first credit whose key no available credit undercuts.
    pub fn next(&self, now: Timestamp) -> (r: Option<&ResetCredit>)
        requires
            credits_wf(self.credits@),
            now.wf(),
        ensures
            match r {
                None => forall|j: int|
                    0 <= j < self.credits@.len() ==> !available_spec(#[trigger] self.credits@[j], now),
                Some(c) => exists|i: int|
                    0 <= i < self.credits@.len() && self.credits@[i] == *c && available_spec(*c, now)
                        && (forall|j: int|
                        0 <= j < self.credits@.len() && available_spec(#[trigger] self.credits@[j], now)
                            ==> credit_le(*c, self.credits@[j])) && (forall|j: int|
                        0 <= j < i && available_spec(#[trigger] self.credits@[j], now)
                            ==> credit_before(*c, self.credits@[j])),
            },
    {
        let mut best: Option<usize> = None;
        let mut i: usize = 0;
        while i < self.credits.len()
            invariant
                i <= self.credits@.len(),
                credits_wf(self.credits@),
                now.wf(),
                match best {
                    None => forall|j: int| 0 <= j < i ==> !available_spec(#[trigger] self.credits@[j], now),
                    Some(b) => b < i && available_spec(self.credits@[b as int], now) && (forall|j: int|
                        0 <= j < i && available_spec(#[trigger] self.credits@[j], now) ==> credit_le(
                            self.credits@[b as int],
                            self.credits@[j],
                        )) && (forall|j: int|
                        0 <= j < b && available_spec(#[trigger] self.credits@[j], now)
                            ==> credit_before(self.credits@[b as int], self.credits@[j])),
                },
            decreases self.credits@.len() - i,
        {
            if self.credits[i].available(now) {
                match best {
                    None => {
                        best = Some(i);
                    },
                    Some(b) => {
                        if credit_order(&self.credits[i], &self.credits[b]) < 0 {
                            proof {
                                let c = self.credits@[i as int];
                                assert forall|j: int|
                                    0 <= j < i + 1 && available_spec(#[trigger] self.credits@[j], now)
                                        implies credit_le(c, self.credits@[j]) by {
                                    if j < i {
                                        lemma_le_transitive(c, self.credits@[b as int], self.credits@[j]);
                                    }
                                }
                                assert forall|j: int|
                                    0 <= j < i && available_spec(#[trigger] self.credits@[j], now)
                                        implies credit_before(c, self.credits@[j]) by {
                                    lemma_le_transitive(c, self.credits@[b as int], self.credits@[j]);
                                }
                            }
                            best = Some(i);
                        }
                    },
                }
            }
            i = i + 1;
        }
        match best {
            Some(b) => Some(&self.credits[b]),
            None => None,
        }
    }
}

} // verus!
