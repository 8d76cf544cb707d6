//! JSON documents as the gateway reads and rewrites them. Objects keep their
//! members in order; a lookup finds the first member with the key.
use vstd::prelude::*;
use crate::text::str_eq;

verus! {

/// A JSON number: its text as it is written, and its value when it is a
/// non-negative integer that fits in a `u64`.
#[derive(Debug, PartialEq)]
pub struct JsonNumber {
    pub text: String,
    pub unsigned: Option<u64>,
}

/// A JSON document. A document read by serde_json holds each key of an object
/// once, in the order in which its map iterates them.
#[derive(Debug, PartialEq)]
pub enum Json {
    Null,
    Bool(bool),
    Number(JsonNumber),
    Text(String),
    Array(Vec<Json>),
    Object(Vec<(String, Json)>),
}

/// The mathematical value of a JSON document.
pub enum JsonView {
    Null,
    Bool(bool),
    Number(Seq<char>, Option<u64>),
    Text(Seq<char>),
    Array(Seq<JsonView>),
    Object(Seq<(Seq<char>, JsonView)>),
}

pub open spec fn view_json(j: Json) -> JsonView
    decreases j, 1int,
{
    match j {
        Json::Null => JsonView::Null,
        Json::Bool(b) => JsonView::Bool(b),
        Json::Number(n) => JsonView::Number(n.text@, n.unsigned),
        Json::Text(s) => JsonView::Text(s@),
        Json::Array(v) => JsonView::Array(view_items(v@)),
        Json::Object(m) => JsonView::Object(view_members(m@)),
    }
}

pub open spec fn view_items(s: Seq<Json>) -> Seq<JsonView>
    decreases s, 0int,
{
    if s.len() == 0 {
        Seq::empty()
    } else {
        view_items(s.drop_last()).push(view_json(s.last()))
    }
}

pub open spec fn view_members(s: Seq<(String, Json)>) -> Seq<(Seq<char>, JsonView)>
    decreases s, 0int,
{
    if s.len() == 0 {
        Seq::empty()
    } else {
        view_members(s.drop_last()).push((s.last().0@, view_json(s.last().1)))
    }
}

impl View for Json {
    type V = JsonView;

    open spec fn view(&self) -> JsonView {
        view_json(*self)
    }
}


pub proof fn lemma_view_items(s: Seq<Json>)
    ensures
        view_items(s).len() == s.len(),
        forall|i: int| 0 <= i < s.len() ==> #[trigger] view_items(s)[i] == view_json(s[i]),
    decreases s.len(),
{
    if s.len() > 0 {
        lemma_view_items(s.drop_last());
    }
}

pub proof fn lemma_view_members(s: Seq<(String, Json)>)
    ensures
        view_members(s).len() == s.len(),
        forall|i: int|
            0 <= i < s.len() ==> #[trigger] view_members(s)[i] == (s[i].0@, view_json(s[i].1)),
    decreases s.len(),
{
    if s.len() > 0 {
        lemma_view_members(s.drop_last());
    }
}

/// The value of the first member named `k`.
pub open spec fn lookup(m: Seq<(Seq<char>, JsonView)>, k: Seq<char>) -> Option<JsonView>
    decreases m.len(),
{
    if m.len() == 0 {
        None
    } else if m[0].0 == k {
        Some(m[0].1)
    } else {
        lookup(m.drop_first(), k)
    }
}

/// The first member named `k` is at `i`; or, with `i == m.len()`, none is.
pub proof fn lemma_lookup_at(m: Seq<(Seq<char>, JsonView)>, k: Seq<char>, i: int)
    requires
        0 <= i <= m.len(),
        forall|j: int| 0 <= j < i ==> (#[trigger] m[j]).0 != k,
        i < m.len() ==> m[i].0 == k,
    ensures
        lookup(m, k) == if i < m.len() {
            Some(m[i].1)
        } else {
            None
        },
    decreases i,
{
    if i > 0 {
        let d = m.drop_first();
        assert forall|j: int| 0 <= j < i - 1 implies (#[trigger] d[j]).0 != k by {
            assert(d[j] == m[j + 1]);
        }
        lemma_lookup_at(d, k, i - 1);
    }
}

impl JsonView {
    /// The member `k` of an object.
    pub open spec fn get(self, k: Seq<char>) -> Option<JsonView> {
        match self {
            JsonView::Object(m) => lookup(m, k),
            _ => None,
        }
    }

    pub open spec fn text(self) -> Option<Seq<char>> {
        match self {
            JsonView::Text(s) => Some(s),
            _ => None,
        }
    }

    pub open spec fn unsigned(self) -> Option<u64> {
        match self {
            JsonView::Number(_, u) => u,
            _ => None,
        }
    }

    pub open spec fn items(self) -> Option<Seq<JsonView>> {
        match self {
            JsonView::Array(s) => Some(s),
            _ => None,
        }
    }
}

/// `o`'s member `k`, when `o` is something.
pub open spec fn member(o: Option<JsonView>, k: Seq<char>) -> Option<JsonView> {
    match o {
        Some(v) => v.get(k),
        None => None,
    }
}

pub open spec fn text_in(o: Option<JsonView>) -> Option<Seq<char>> {
    match o {
        Some(v) => v.text(),
        None => None,
    }
}

pub open spec fn unsigned_in(o: Option<JsonView>) -> Option<u64> {
    match o {
        Some(v) => v.unsigned(),
        None => None,
    }
}

impl Json {
    /// The member `key` of an object; nothing for any other value.
    pub fn get(&self, key: &str) -> (r: Option<&Json>)
        ensures
            match r {
                Some(v) => self@.get(key@) == Some(v@),
                None => self@.get(key@) is None,
            },
    {
        let m = match self {
            Json::Object(m) => m,
            _ => return None,
        };
        proof {
            lemma_view_members(m@);
        }
        let ghost mv = view_members(m@);
        let mut i: usize = 0;
        while i < m.len()
            invariant
                mv == view_members(m@),
                mv.len() == m@.len(),
                forall|j: int| 0 <= j < mv.len() ==> #[trigger] mv[j] == (m@[j].0@, view_json(m@[j].1)),
                self@ == JsonView::Object(mv),
                i <= m.len(),
                forall|j: int| 0 <= j < i ==> (#[trigger] mv[j]).0 != key@,
            decreases m.len() - i,
        {
            if str_eq(m[i].0.as_str(), key) {
                proof {
                    lemma_lookup_at(mv, key@, i as int);
                }
                return Some(&m[i].1);
            }
            i = i + 1;
        }
        proof {
            lemma_lookup_at(mv, key@, i as int);
        }
        None
    }

    pub fn as_str(&self) -> (r: Option<&str>)
        ensures
            match r {
                Some(s) => self@.text() == Some(s@),
                None => self@.text() is None,
            },
    {
        match self {
            Json::Text(s) => Some(s.as_str()),
            _ => None,
        }
    }

    pub fn as_u64(&self) -> (r: Option<u64>)
        ensures
            r == self@.unsigned(),
    {
        match self {
            Json::Number(n) => n.unsigned,
            _ => None,
        }
    }

    pub fn is_null(&self) -> (r: bool)
        ensures
            r == (self@ is Null),
    {
        match self {
            Json::Null => true,
            _ => false,
        }
    }

    pub fn is_object(&self) -> (r: bool)
        ensures
            r == (self@ is Object),
    {
        match self {
            Json::Object(_) => true,
            _ => false,
        }
    }

    /// The items of an array.
    pub fn as_array(&self) -> (r: Option<&Vec<Json>>)
        ensures
            match r {
                Some(v) => self@.items() == Some(view_items(v@)),
                None => self@.items() is None,
            },
    {
        match self {
            Json::Array(v) => Some(v),
            _ => None,
        }
    }

    /// The text of the member `key`, when it is a string.
    pub fn get_str(&self, key: &str) -> (r: Option<&str>)
        ensures
            match r {
                Some(s) => text_in(self@.get(key@)) == Some(s@),
                None => text_in(self@.get(key@)) is None,
            },
    {
        match self.get(key) {
            Some(v) => v.as_str(),
            None => None,
        }
    }

    /// The member `key` as a `u64`, when it is one.
    pub fn get_u64(&self, key: &str) -> (r: Option<u64>)
        ensures
            r == unsigned_in(self@.get(key@)),
    {
        match self.get(key) {
            Some(v) => v.as_u64(),
            None => None,
        }
    }
}


impl Json {
    /// A deep copy.
    #[verifier::loop_isolation(false)]
    pub fn duplicate(&self) -> (r: Json)
        ensures
            r@ == self@,
        decreases self,
    {
        match self {
            Json::Null => Json::Null,
            Json::Bool(b) => Json::Bool(*b),
            Json::Number(n) => Json::Number(JsonNumber { text: n.text.clone(), unsigned: n.unsigned }),
            Json::Text(s) => Json::Text(s.clone()),
            Json::Array(v) => {
                let mut out: Vec<Json> = Vec::new();
                let mut i: usize = 0;
                while i < v.len()
                    invariant
                        i <= v.len(),
                        view_items(out@) == view_items(v@.subrange(0, i as int)),
                    decreases v.len() - i,
                {
                    let d = v[i].duplicate();
                    let ghost before = out@;
                    out.push(d);
                    proof {
                        assert(out@.drop_last() =~= before);
                        assert(v@.subrange(0, i + 1).drop_last() =~= v@.subrange(0, i as int));
                    }
                    i = i + 1;
                }
                proof {
                    assert(v@.subrange(0, v@.len() as int) =~= v@);
                }
                Json::Array(out)
            },
            Json::Object(m) => {
                let mut out: Vec<(String, Json)> = Vec::new();
                let mut i: usize = 0;
                while i < m.len()
                    invariant
                        i <= m.len(),
                        view_members(out@) == view_members(m@.subrange(0, i as int)),
                    decreases m.len() - i,
                {
                    let d = m[i].1.duplicate();
                    let ghost before = out@;
                    out.push((m[i].0.clone(), d));
                    proof {
                        assert(out@.drop_last() =~= before);
                        assert(m@.subrange(0, i + 1).drop_last() =~= m@.subrange(0, i as int));
                    }
                    i = i + 1;
                }
                proof {
                    assert(m@.subrange(0, m@.len() as int) =~= m@);
                }
                Json::Object(out)
            },
        }
    }
}


/// Where the first member named `k` is, or `m.len()` when there is none.
pub open spec fn find_key(m: Seq<(Seq<char>, JsonView)>, k: Seq<char>) -> int
    decreases m.len(),
{
    if m.len() == 0 {
        0
    } else if m[0].0 == k {
        0
    } else {
        1 + find_key(m.drop_first(), k)
    }
}

pub proof fn lemma_find_key_at(m: Seq<(Seq<char>, JsonView)>, k: Seq<char>, i: int)
    requires
        0 <= i <= m.len(),
        forall|j: int| 0 <= j < i ==> (#[trigger] m[j]).0 != k,
        i < m.len() ==> m[i].0 == k,
    ensures
        find_key(m, k) == i,
        lookup(m, k) == if i < m.len() {
            Some(m[i].1)
        } else {
            None
        },
    decreases i,
{
    lemma_lookup_at(m, k, i);
    if i > 0 {
        let d = m.drop_first();
        assert forall|j: int| 0 <= j < i - 1 implies (#[trigger] d[j]).0 != k by {
            assert(d[j] == m[j + 1]);
        }
        lemma_find_key_at(d, k, i - 1);
    }
}

/// The members without the first one named `k`.
pub open spec fn remove_key(m: Seq<(Seq<char>, JsonView)>, k: Seq<char>) -> Seq<(Seq<char>, JsonView)> {
    if find_key(m, k) < m.len() {
        m.remove(find_key(m, k))
    } else {
        m
    }
}

/// The members with `k` set to `v`: in place of the first member named `k`,
/// or appended when there is none.
pub open spec fn set_key(m: Seq<(Seq<char>, JsonView)>, k: Seq<char>, v: JsonView) -> Seq<(Seq<char>, JsonView)> {
    if find_key(m, k) < m.len() {
        m.update(find_key(m, k), (k, v))
    } else {
        m.push((k, v))
    }
}

/// Where the first member named `key` is, or the number of members.
pub fn find_member(m: &Vec<(String, Json)>, key: &str) -> (r: usize)
    ensures
        r == find_key(view_members(m@), key@),
        r <= m@.len(),
        r < m@.len() ==> m@[r as int].0@ == key@,
        lookup(view_members(m@), key@) == if r < m@.len() {
            Some(view_json(m@[r as int].1))
        } else {
            None
        },
{
    proof {
        lemma_view_members(m@);
    }
    let ghost mv = view_members(m@);
    let mut i: usize = 0;
    while i < m.len()
        invariant
            mv == view_members(m@),
            mv.len() == m@.len(),
            forall|j: int| 0 <= j < mv.len() ==> #[trigger] mv[j] == (m@[j].0@, view_json(m@[j].1)),
            i <= m.len(),
            forall|j: int| 0 <= j < i ==> (#[trigger] mv[j]).0 != key@,
        decreases m.len() - i,
    {
        if str_eq(m[i].0.as_str(), key) {
            proof {
                lemma_find_key_at(mv, key@, i as int);
            }
            return i;
        }
        i = i + 1;
    }
    proof {
        lemma_find_key_at(mv, key@, i as int);
    }
    i
}

pub proof fn lemma_members_remove(s: Seq<(String, Json)>, i: int)
    requires
        0 <= i < s.len(),
    ensures
        view_members(s.remove(i)) == view_members(s).remove(i),
{
    lemma_view_members(s);
    lemma_view_members(s.remove(i));
    assert(view_members(s.remove(i)) =~= view_members(s).remove(i));
}

pub proof fn lemma_members_update(s: Seq<(String, Json)>, i: int, e: (String, Json))
    requires
        0 <= i < s.len(),
    ensures
        view_members(s.update(i, e)) == view_members(s).update(i, (e.0@, view_json(e.1))),
{
    lemma_view_members(s);
    lemma_view_members(s.update(i, e));
    assert(view_members(s.update(i, e)) =~= view_members(s).update(i, (e.0@, view_json(e.1))));
}

pub proof fn lemma_members_push(s: Seq<(String, Json)>, e: (String, Json))
    ensures
        view_members(s.push(e)) == view_members(s).push((e.0@, view_json(e.1))),
{
    assert(s.push(e).drop_last() =~= s);
}

pub proof fn lemma_items_update(s: Seq<Json>, i: int, e: Json)
    requires
        0 <= i < s.len(),
    ensures
        view_items(s.update(i, e)) == view_items(s).update(i, view_json(e)),
{
    lemma_view_items(s);
    lemma_view_items(s.update(i, e));
    assert(view_items(s.update(i, e)) =~= view_items(s).update(i, view_json(e)));
}

pub proof fn lemma_items_push(s: Seq<Json>, e: Json)
    ensures
        view_items(s.push(e)) == view_items(s).push(view_json(e)),
{
    assert(s.push(e).drop_last() =~= s);
}

impl Json {
    /// Removes the member `key` of an object and returns its value; any other
    /// value is left as it is.
    pub fn remove(&mut self, key: &str) -> (r: Option<Json>)
        ensures
            match old(self)@ {
                JsonView::Object(m) => {
                    &&& final(self)@ == JsonView::Object(remove_key(m, key@))
                    &&& match r {
                        Some(v) => lookup(m, key@) == Some(v@),
                        None => lookup(m, key@) is None,
                    }
                },
                _ => final(self)@ == old(self)@ && r is None,
            },
    {
        match self {
            Json::Object(m) => {
                let i = find_member(m, key);
                proof {
                    lemma_view_members(m@);
                    if i < m@.len() {
                        lemma_members_remove(m@, i as int);
                    }
                }
                if i < m.len() {
                    let (_, v) = m.remove(i);
                    Some(v)
                } else {
                    None
                }
            },
            _ => None,
        }
    }
}


impl Json {
    /// Sets the member `key` of an object to `value`; any other value is left
    /// as it is.
    pub fn insert(&mut self, key: &str, value: Json)
        ensures
            match old(self)@ {
                JsonView::Object(m) => final(self)@ == JsonView::Object(set_key(m, key@, value@)),
                _ => final(self)@ == old(self)@,
            },
    {
        match self {
            Json::Object(m) => {
                let i = find_member(m, key);
                let e = (key.to_owned(), value);
                proof {
                    lemma_view_members(m@);
                }
                if i < m.len() {
                    proof {
                        lemma_members_update(m@, i as int, e);
                    }
                    m.set(i, e);
                } else {
                    proof {
                        lemma_members_push(m@, e);
                    }
                    m.push(e);
                }
            },
            _ => {},
        }
    }
}


pub proof fn lemma_find_key(m: Seq<(Seq<char>, JsonView)>, k: Seq<char>)
    ensures
        0 <= find_key(m, k) <= m.len(),
        forall|j: int| 0 <= j < find_key(m, k) ==> (#[trigger] m[j]).0 != k,
        find_key(m, k) < m.len() ==> m[find_key(m, k)].0 == k,
        lookup(m, k) == if find_key(m, k) < m.len() {
            Some(m[find_key(m, k)].1)
        } else {
            None
        },
    decreases m.len(),
{
    if m.len() > 0 && m[0].0 != k {
        let d = m.drop_first();
        lemma_find_key(d, k);
        assert forall|j: int| 0 <= j < find_key(m, k) implies (#[trigger] m[j]).0 != k by {
            if j > 0 {
                assert(m[j] == d[j - 1]);
            }
        }
    }
}

/// Setting a member to the value it already has changes nothing.
pub proof fn lemma_set_same(m: Seq<(Seq<char>, JsonView)>, k: Seq<char>, v: JsonView)
    requires
        lookup(m, k) == Some(v),
    ensures
        set_key(m, k, v) == m,
{
    lemma_find_key(m, k);
    assert(set_key(m, k, v) =~= m);
}

/// Takes item `i` out of an array, leaving null in its place.
pub fn take_item(items: &mut Vec<Json>, i: usize) -> (r: Json)
    requires
        i < old(items)@.len(),
    ensures
        r == old(items)@[i as int],
        final(items)@ == old(items)@.update(i as int, Json::Null),
{
    let mut x = Json::Null;
    std::mem::swap(&mut items[i], &mut x);
    x
}

/// Takes the value of member `i` out of an object, leaving null in its place.
pub fn take_member_value(m: &mut Vec<(String, Json)>, i: usize) -> (r: Json)
    requires
        i < old(m)@.len(),
    ensures
        r == old(m)@[i as int].1,
        final(m)@ == old(m)@.update(i as int, (old(m)@[i as int].0, Json::Null)),
{
    let mut x = Json::Null;
    std::mem::swap(&mut m[i].1, &mut x);
    x
}


pub proof fn lemma_items_concat(a: Seq<Json>, b: Seq<Json>)
    ensures
        view_items(a + b) == view_items(a) + view_items(b),
    decreases b.len(),
{
    if b.len() == 0 {
        assert(a + b =~= a);
        assert(view_items(a) + view_items(b) =~= view_items(a));
    } else {
        lemma_items_concat(a, b.drop_last());
        assert((a + b).drop_last() =~= a + b.drop_last());
        assert(view_items(a) + view_items(b) =~= (view_items(a) + view_items(b.drop_last())).push(view_json(b.last())));
    }
}


/// A member set is read back, and every other member reads as before: what
/// `Json::get` returns after `Json::insert`.
pub proof fn law_get_after_insert(m: Seq<(Seq<char>, JsonView)>, k: Seq<char>, v: JsonView, other: Seq<char>)
    ensures
        lookup(set_key(m, k, v), k) == Some(v),
        other != k ==> lookup(set_key(m, k, v), other) == lookup(m, other),
{
    lemma_find_key(m, k);
    lemma_find_key(m, other);
    let s = set_key(m, k, v);
    lemma_find_key(s, k);
    lemma_find_key(s, other);
    let f = find_key(m, k);
    if f < m.len() {
        assert(s[f].0 == k);
        assert forall|j: int| 0 <= j < f implies (#[trigger] s[j]).0 != k by {
            assert(s[j] == m[j]);
        }
        lemma_find_key_at(s, k, f);
        if other != k {
            let g = find_key(m, other);
            assert forall|j: int| 0 <= j < g implies (#[trigger] s[j]).0 != other by {
                if j != f {
                    assert(s[j] == m[j]);
                }
            }
            if g < m.len() {
                assert(s[g] == m[g]);
            }
            lemma_find_key_at(s, other, g);
        }
    } else {
        assert forall|j: int| 0 <= j < m.len() implies (#[trigger] s[j]).0 != k by {
            assert(s[j] == m[j]);
        }
        lemma_find_key_at(s, k, m.len() as int);
        if other != k {
            let g = find_key(m, other);
            assert forall|j: int| 0 <= j < g implies (#[trigger] s[j]).0 != other by {
                assert(s[j] == m[j]);
            }
            if g < m.len() {
                assert(s[g] == m[g]);
                lemma_find_key_at(s, other, g);
            } else {
                assert(s[g].0 == k);
                lemma_find_key_at(s, other, g + 1);
            }
        }
    }
}

} // verus!
