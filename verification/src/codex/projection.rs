//! Client metadata projected onto an account: every identity value it
//! carries is replaced by the value the binding maps it to (installation
//! identifiers by the account's own), and turn metadata nested in it as JSON
//! text is projected the same way and written back as JSON text.
use vstd::prelude::*;
use crate::accounts::Account;
use crate::codex::request::{
    identity_kind, identity_kind_spec, is_installation_field, mapped_identity,
};
use crate::identity::{IdentityMap, PairView};
use crate::ids::hyphenated_spec;
use crate::json::{Json, JsonView, lemma_view_members, view_members};
use crate::json_text::{json_text, to_json_text};
use crate::text::{blank, byte_len, is_blank, str_eq, trim_spec};
use crate::types::{Error, Result};

verus! {

/// Texts with what each reads as JSON (`None` where it is not JSON).
pub struct Readings {
    pub entries: Vec<(String, Option<Json>)>,
}

pub open spec fn readings_view(r: Readings) -> Seq<(Seq<char>, Option<JsonView>)> {
    r.entries@.map_values(|e: (String, Option<Json>)| (e.0@, match e.1 {
        Some(j) => Some(j@),
        None => None,
    }))
}

/// What the first reading of `t` gives; `None` where `t` has none or is not
/// JSON.
pub open spec fn reading(rd: Seq<(Seq<char>, Option<JsonView>)>, t: Seq<char>) -> Option<JsonView>
    decreases rd.len(),
{
    if rd.len() == 0 {
        None
    } else if rd[0].0 == t {
        rd[0].1
    } else {
        reading(rd.drop_first(), t)
    }
}

impl Readings {
    pub fn read(&self, t: &str) -> (r: Option<&Json>)
        ensures
            match r {
                Some(j) => reading(readings_view(*self), t@) == Some(j@),
                None => reading(readings_view(*self), t@) is None,
            },
    {
        let ghost rd = readings_view(*self);
        let mut i: usize = 0;
        proof {
            assert(rd.skip(0) =~= rd);
        }
        while i < self.entries.len()
            invariant
                rd == readings_view(*self),
                rd.len() == self.entries@.len(),
                i <= self.entries@.len(),
                reading(rd, t@) == reading(rd.skip(i as int), t@),
            decreases self.entries@.len() - i,
        {
            proof {
                assert(rd.skip(i as int).drop_first() =~= rd.skip(i + 1));
                assert(rd.skip(i as int)[0] == rd[i as int]);
            }
            if str_eq(self.entries[i].0.as_str(), t) {
                return match &self.entries[i].1 {
                    Some(j) => Some(j),
                    None => None,
                };
            }
            i = i + 1;
        }
        None
    }
}

pub open spec fn identity_member(k: Seq<char>) -> bool {
    identity_kind_spec(k) is Some || is_installation_field(k)
}

/// The outbound value of the identity member `k` with text `t` under the
/// mappings `fwd`.
pub open spec fn mapped_value(k: Seq<char>, t: Seq<char>, account: Account, fwd: PairView) -> Option<Seq<char>> {
    if is_installation_field(k) {
        Some(hyphenated_spec(account.profile.installation_id))
    } else {
        match identity_kind_spec(k) {
            Some(kind) => {
                let c = trim_spec(t);
                if c.len() == 0 || byte_len(c) > 512 || !fwd.contains_key((kind, c)) {
                    None
                } else {
                    Some(fwd[(kind, c)])
                }
            },
            None => Some(t),
        }
    }
}

/// Client metadata projected under the mappings `fwd`, nested turn metadata
/// read by `rd` (each nested text shorter than `bound`); `None` where it is
/// not an object, nested turn metadata is not a JSON object text, or an
/// identity is not mapped.
pub open spec fn normalized_spec(
    v: JsonView,
    account: Account,
    fwd: PairView,
    rd: Seq<(Seq<char>, Option<JsonView>)>,
    bound: nat,
) -> Option<JsonView>
    decreases bound, 1int, 0int,
{
    match v {
        JsonView::Object(m) => match normalized_members(m, m.len() as int, account, fwd, rd, bound) {
            Some(x) => Some(JsonView::Object(x)),
            None => None,
        },
        _ => None,
    }
}

/// The first `n` members projected.
pub open spec fn normalized_members(
    m: Seq<(Seq<char>, JsonView)>,
    n: int,
    account: Account,
    fwd: PairView,
    rd: Seq<(Seq<char>, Option<JsonView>)>,
    bound: nat,
) -> Option<Seq<(Seq<char>, JsonView)>>
    decreases bound, 0int, n,
{
    if n <= 0 || n > m.len() {
        Some(Seq::empty())
    } else {
        match normalized_members(m, n - 1, account, fwd, rd, bound) {
            None => None,
            Some(prev) => {
                let k = m[n - 1].0;
                let x = m[n - 1].1;
                let y = if k == "x-codex-turn-metadata"@ {
                    match x {
                        JsonView::Text(t) => if t.len() < bound {
                            match reading(rd, t) {
                                Some(doc) => match normalized_spec(doc, account, fwd, rd, t.len()) {
                                    Some(z) => Some(JsonView::Text(json_text(z))),
                                    None => None,
                                },
                                None => None,
                            }
                        } else {
                            None
                        },
                        _ => None,
                    }
                } else if identity_member(k) && x is Text && !blank(x->Text_0) {
                    match mapped_value(k, x->Text_0, account, fwd) {
                        Some(u) => Some(JsonView::Text(u)),
                        None => None,
                    }
                } else {
                    Some(x)
                };
                match y {
                    Some(w) => Some(prev.push((k, w))),
                    None => None,
                }
            },
        }
    }
}

proof fn lemma_normalized_grows(
    v: JsonView,
    account: Account,
    f1: PairView,
    f2: PairView,
    rd: Seq<(Seq<char>, Option<JsonView>)>,
    bound: nat,
)
    requires
        f1.submap_of(f2),
        normalized_spec(v, account, f1, rd, bound) is Some,
    ensures
        normalized_spec(v, account, f2, rd, bound) == normalized_spec(v, account, f1, rd, bound),
    decreases bound, 1int, 0int,
{
    if let JsonView::Object(m) = v {
        lemma_members_grow(m, m.len() as int, account, f1, f2, rd, bound);
    }
}

proof fn lemma_members_grow(
    m: Seq<(Seq<char>, JsonView)>,
    n: int,
    account: Account,
    f1: PairView,
    f2: PairView,
    rd: Seq<(Seq<char>, Option<JsonView>)>,
    bound: nat,
)
    requires
        f1.submap_of(f2),
        normalized_members(m, n, account, f1, rd, bound) is Some,
    ensures
        normalized_members(m, n, account, f2, rd, bound) == normalized_members(m, n, account, f1, rd, bound),
    decreases bound, 0int, n,
{
    if 0 < n <= m.len() {
        lemma_members_grow(m, n - 1, account, f1, f2, rd, bound);
        let k = m[n - 1].0;
        let x = m[n - 1].1;
        if k == "x-codex-turn-metadata"@ {
            if let JsonView::Text(t) = x {
                if t.len() < bound {
                    if let Some(doc) = reading(rd, t) {
                        lemma_normalized_grows(doc, account, f1, f2, rd, t.len());
                    }
                }
            }
        }
    }
}

fn is_identity_member(k: &str) -> (r: bool)
    ensures
        r == identity_member(k@),
{
    proof {
        reveal_strlit("installation_id");
        reveal_strlit("x-codex-installation-id");
    }
    identity_kind(k).is_some() || str_eq(k, "installation_id") || str_eq(k, "x-codex-installation-id")
}

/// Client metadata projected onto the account; see `normalized_spec`, which
/// it meets under the mappings the binding holds afterwards. Every mapping
/// made is kept.
#[verifier::loop_isolation(false)]
pub fn normalized_metadata(
    value: &Json,
    account: &Account,
    ids: &mut IdentityMap,
    readings: &Readings,
    bound: usize,
) -> (r: Result<Json>)
    requires
        old(ids).wf(),
    ensures
        final(ids).wf(),
        final(ids).binding_of() == old(ids).binding_of(),
        old(ids).forward().submap_of(final(ids).forward()),
        match r {
            Ok(x) => normalized_spec(value@, *account, final(ids).forward(), readings_view(*readings), bound as nat)
                == Some(x@),
            Err(_) => normalized_spec(value@, *account, final(ids).forward(), readings_view(*readings), bound as nat) is None,
        },
    decreases bound,
{
    let ghost rd = readings_view(*readings);
    let m = match value {
        Json::Object(m) => m,
        _ => {
            return Err(Error::invalid("Client metadata must be an object"));
        },
    };
    proof {
        lemma_view_members(m@);
    }
    let ghost mv = view_members(m@);
    assert(value@ == JsonView::Object(mv));
    let ghost start = ids.forward();
    let mut out: Vec<(String, Json)> = Vec::new();
    let mut i: usize = 0;
    proof {
        lemma_view_members(out@);
        assert(view_members(out@) =~= Seq::<(Seq<char>, JsonView)>::empty());
    }
    while i < m.len()
        invariant
            i <= m@.len(),
            ids.wf(),
            ids.binding_of() == old(ids).binding_of(),
            start.submap_of(ids.forward()),
            normalized_members(mv, i as int, *account, ids.forward(), rd, bound as nat) == Some(
                view_members(out@),
            ),
        decreases m@.len() - i,
    {
        let ghost before = ids.forward();
        let k = m[i].0.as_str();
        let x = &m[i].1;
        assert(mv[i as int] == (k@, x@));
        let y: Json = if str_eq(k, "x-codex-turn-metadata") {
            let t = match x {
                Json::Text(t) => t.as_str(),
                _ => {
                    proof {
                        assert(normalized_members(mv, i + 1, *account, ids.forward(), rd, bound as nat) is None);
                        crate::codex::projection::lemma_none_stays(mv, i + 1, *account, ids.forward(), rd, bound as nat);
                    }
                    return Err(Error::invalid("Invalid turn metadata"));
                },
            };
            let n = t.unicode_len();
            let doc = if n < bound {
                readings.read(t)
            } else {
                None
            };
            let doc = match doc {
                Some(d) => d,
                None => {
                    proof {
                        assert(normalized_members(mv, i + 1, *account, ids.forward(), rd, bound as nat) is None);
                        lemma_none_stays(mv, i + 1, *account, ids.forward(), rd, bound as nat);
                    }
                    return Err(Error::invalid("Invalid turn metadata"));
                },
            };
            let ghost prefix = view_members(out@);
            let nested = match normalized_metadata(doc, account, ids, readings, n) {
                Ok(z) => z,
                Err(e) => {
                    proof {
                        lemma_submap_trans(start, before, ids.forward());
                        lemma_members_grow(mv, i as int, *account, before, ids.forward(), rd, bound as nat);
                        assert(normalized_members(mv, i + 1, *account, ids.forward(), rd, bound as nat) is None);
                        lemma_none_stays(mv, i + 1, *account, ids.forward(), rd, bound as nat);
                    }
                    return Err(e);
                },
            };
            proof {
                lemma_submap_trans(start, before, ids.forward());
                lemma_members_grow(mv, i as int, *account, before, ids.forward(), rd, bound as nat);
            }
            Json::Text(to_json_text(&nested))
        } else {
            let text = match x {
                Json::Text(t) => if is_identity_member(k) && !is_blank(t.as_str()) {
                    Some(t.as_str())
                } else {
                    None
                },
                _ => None,
            };
            match text {
                Some(t) => {
                    match mapped_identity(k, t, account, ids) {
                        Ok(u) => {
                            proof {
                                lemma_submap_trans(start, before, ids.forward());
                                lemma_members_grow(mv, i as int, *account, before, ids.forward(), rd, bound as nat);
                            }
                            Json::Text(u)
                        },
                        Err(e) => {
                            proof {
                                assert(ids.forward() == before);
                                assert(start.submap_of(ids.forward()));
                                lemma_members_grow(mv, i as int, *account, before, ids.forward(), rd, bound as nat);
                                assert(normalized_members(mv, i + 1, *account, ids.forward(), rd, bound as nat) is None);
                                lemma_none_stays(mv, i + 1, *account, ids.forward(), rd, bound as nat);
                            }
                            return Err(e);
                        },
                    }
                },
                None => x.duplicate(),
            }
        };
        let e = (k.to_owned(), y);
        proof {
            crate::json::lemma_members_push(out@, e);
        }
        out.push(e);
        i = i + 1;
    }
    proof {
        assert(mv.len() == m@.len());
    }
    Ok(Json::Object(out))
}

proof fn lemma_submap_trans(a: PairView, b: PairView, c: PairView)
    requires
        a.submap_of(b),
        b.submap_of(c),
    ensures
        a.submap_of(c),
{
    vstd::map_lib::lemma_submap_of_trans(a, b, c);
}

proof fn lemma_none_stays(
    m: Seq<(Seq<char>, JsonView)>,
    n: int,
    account: Account,
    fwd: PairView,
    rd: Seq<(Seq<char>, Option<JsonView>)>,
    bound: nat,
)
    requires
        0 <= n <= m.len(),
        normalized_members(m, n, account, fwd, rd, bound) is None,
    ensures
        normalized_members(m, m.len() as int, account, fwd, rd, bound) is None,
    decreases m.len() - n,
{
    if n < m.len() {
        lemma_none_stays(m, n + 1, account, fwd, rd, bound);
    }
}

} // verus!
