//! Objects whose members are kept in the order of their keys, as a
//! `serde_json::Map` keeps them: by the characters' code points, which is the
//! byte order of the keys' UTF-8 encodings, each key once.
use vstd::prelude::*;
use crate::json::{Json, JsonView, lemma_view_members, lookup, lemma_lookup_at, view_json, view_members};

verus! {

/// `a` sorts before `b`.
pub open spec fn text_lt(a: Seq<char>, b: Seq<char>) -> bool
    decreases a.len(),
{
    if b.len() == 0 {
        false
    } else if a.len() == 0 {
        true
    } else if a[0] != b[0] {
        a[0] < b[0]
    } else {
        text_lt(a.drop_first(), b.drop_first())
    }
}

pub proof fn lemma_lt_irreflexive(a: Seq<char>)
    ensures
        !text_lt(a, a),
    decreases a.len(),
{
    if a.len() > 0 {
        lemma_lt_irreflexive(a.drop_first());
    }
}

pub proof fn lemma_lt_transitive(a: Seq<char>, b: Seq<char>, c: Seq<char>)
    requires
        text_lt(a, b),
        text_lt(b, c),
    ensures
        text_lt(a, c),
    decreases a.len(),
{
    if a.len() > 0 && b.len() > 0 && c.len() > 0 && a[0] == b[0] && b[0] == c[0] {
        lemma_lt_transitive(a.drop_first(), b.drop_first(), c.drop_first());
    }
}

pub proof fn lemma_lt_total(a: Seq<char>, b: Seq<char>)
    ensures
        a == b || text_lt(a, b) || text_lt(b, a),
    decreases a.len(),
{
    if a.len() > 0 && b.len() > 0 && a[0] == b[0] {
        lemma_lt_total(a.drop_first(), b.drop_first());
        if a.drop_first() == b.drop_first() {
            assert(a =~= seq![a[0]] + a.drop_first());
            assert(b =~= seq![b[0]] + b.drop_first());
            assert(a == b);
        }
    } else if a.len() > 0 && b.len() > 0 {
    } else if a.len() == 0 && b.len() == 0 {
        assert(a =~= b);
    }
}

/// Each key sorts before the next.
pub open spec fn sorted_keys(m: Seq<(Seq<char>, JsonView)>) -> bool {
    forall|i: int, j: int| 0 <= i < j < m.len() ==> text_lt(#[trigger] m[i].0, #[trigger] m[j].0)
}

/// Where `k` belongs among the sorted members: after every smaller key.
pub open spec fn place_of(m: Seq<(Seq<char>, JsonView)>, k: Seq<char>, p: int) -> bool {
    &&& 0 <= p <= m.len()
    &&& forall|i: int| 0 <= i < p ==> text_lt(#[trigger] m[i].0, k)
    &&& p < m.len() ==> !text_lt(m[p].0, k)
}

/// The members with `k` set to `v` (`serde_json::Map::insert`), or with `k`
/// added only when it is absent (`entry(k).or_insert(v)`).
pub open spec fn put_member(m: Seq<(Seq<char>, JsonView)>, k: Seq<char>, v: JsonView, replace: bool) -> Seq<
    (Seq<char>, JsonView),
> {
    let p = choose|p: int| place_of(m, k, p);
    if p < m.len() && m[p].0 == k {
        if replace {
            m.update(p, (k, v))
        } else {
            m
        }
    } else {
        m.insert(p, (k, v))
    }
}

proof fn lemma_place_unique(m: Seq<(Seq<char>, JsonView)>, k: Seq<char>, p: int, q: int)
    requires
        place_of(m, k, p),
        place_of(m, k, q),
    ensures
        p == q,
{
    if p < q {
        assert(text_lt(m[p].0, k));
    } else if q < p {
        assert(text_lt(m[q].0, k));
    }
}

/// Sets or adds the member `k` in an object whose members are sorted; see
/// `put_member`.
pub fn put_sorted(m: &mut Vec<(String, Json)>, k: &str, v: Json, replace: bool)
    requires
        sorted_keys(view_members(old(m)@)),
    ensures
        sorted_keys(view_members(final(m)@)),
        final(m)@.len() <= old(m)@.len() + 1,
        view_members(final(m)@) == put_member(view_members(old(m)@), k@, v@, replace),
        lookup(view_members(final(m)@), k@) == if replace || lookup(view_members(old(m)@), k@) is None {
            Some(v@)
        } else {
            lookup(view_members(old(m)@), k@)
        },
{
    proof {
        lemma_view_members(m@);
    }
    let ghost mv = view_members(m@);
    let mut p: usize = 0;
    while p < m.len() && crate::sorted_members::lt_exec(m[p].0.as_str(), k)
        invariant
            mv == view_members(m@),
            mv.len() == m@.len(),
            forall|i: int| 0 <= i < mv.len() ==> #[trigger] mv[i] == (m@[i].0@, m@[i].1@),
            p <= m@.len(),
            forall|i: int| 0 <= i < p ==> text_lt(#[trigger] mv[i].0, k@),
        decreases m@.len() - p,
    {
        p = p + 1;
    }
    proof {
        assert(place_of(mv, k@, p as int));
        lemma_place_unique(mv, k@, p as int, choose|q: int| place_of(mv, k@, q));
    }
    let present = p < m.len() && crate::text::str_eq(m[p].0.as_str(), k);
    if present {
        proof {
            lemma_lookup_at(mv, k@, p as int);
        }
        if replace {
            let e = (k.to_owned(), v);
            let ghost ev = (e.0@, e.1@);
            m.set(p, e);
            proof {
                assert(view_members(m@) =~= mv.update(p as int, ev)) by {
                    lemma_view_members(m@);
                }
                assert(sorted_keys(view_members(m@)));
                lemma_lookup_at(view_members(m@), k@, p as int);
            }
        }
    } else {
        let e = (k.to_owned(), v);
        let ghost ev = (e.0@, e.1@);
        proof {
            if p < mv.len() {
                lemma_lt_total(mv[p as int].0, k@);
            }
            assert forall|i: int| p <= i < mv.len() implies text_lt(k@, #[trigger] mv[i].0) by {
                lemma_lt_total(mv[p as int].0, k@);
                if i > p {
                    assert(text_lt(mv[p as int].0, mv[i].0));
                    lemma_lt_transitive(k@, mv[p as int].0, mv[i].0);
                }
            }
            assert forall|i: int| 0 <= i < mv.len() implies mv[i].0 != k@ by {
                if i < p {
                    lemma_lt_irreflexive(k@);
                } else {
                    lemma_lt_irreflexive(k@);
                }
            }
            lemma_lookup_at(mv, k@, mv.len() as int);
        }
        m.insert(p, e);
        proof {
            let nv = mv.insert(p as int, ev);
            assert(view_members(m@) =~= nv) by {
                lemma_view_members(m@);
            }
            assert forall|i: int, j: int| 0 <= i < j < nv.len() implies text_lt(#[trigger] nv[i].0, #[trigger] nv[j].0) by {
                if j < p {
                } else if j == p {
                } else if i < p {
                    lemma_lt_transitive(nv[i].0, k@, nv[j].0);
                } else if i == p {
                } else {
                }
            }
            lemma_lookup_at(nv, k@, p as int);
        }
    }
}

/// Whether `a` sorts before `b`.
pub fn lt_exec(a: &str, b: &str) -> (r: bool)
    ensures
        r == text_lt(a@, b@),
{
    let n = a.unicode_len();
    let m = b.unicode_len();
    let mut i: usize = 0;
    proof {
        assert(a@.skip(0) =~= a@);
        assert(b@.skip(0) =~= b@);
    }
    while i < n && i < m && a.get_char(i) == b.get_char(i)
        invariant
            n == a@.len(),
            m == b@.len(),
            i <= n,
            i <= m,
            forall|k: int| 0 <= k < i ==> a@[k] == b@[k],
            text_lt(a@, b@) == text_lt(a@.skip(i as int), b@.skip(i as int)),
        decreases n - i,
    {
        proof {
            assert(a@.skip(i as int).drop_first() =~= a@.skip(i + 1));
            assert(b@.skip(i as int).drop_first() =~= b@.skip(i + 1));
        }
        i = i + 1;
    }
    if i == m {
        false
    } else if i == n {
        true
    } else {
        a.get_char(i) < b.get_char(i)
    }
}

} // verus!
