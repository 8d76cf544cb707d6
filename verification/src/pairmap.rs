//! A small map from (kind, identifier) pairs to identifiers, kept as a list.
use vstd::prelude::*;

verus! {

pub struct PairEntry {
    pub kind: String,
    pub key: String,
    pub value: String,
}

/// Entries are unique by `(kind, key)`.
pub struct PairMap {
    entries: Vec<PairEntry>,
}

pub open spec fn entry_key(e: PairEntry) -> (Seq<char>, Seq<char>) {
    (e.kind@, e.key@)
}

impl PairMap {
    pub closed spec fn wf(self) -> bool {
        forall|i: int, j: int|
            0 <= i < j < self.entries@.len() ==> entry_key(#[trigger] self.entries@[i])
                != entry_key(#[trigger] self.entries@[j])
    }

    pub closed spec fn view(self) -> Map<(Seq<char>, Seq<char>), Seq<char>> {
        Map::new(
            |k: (Seq<char>, Seq<char>)|
                exists|i: int| 0 <= i < self.entries@.len() && entry_key(#[trigger] self.entries@[i]) == k,
            |k: (Seq<char>, Seq<char>)|
                self.entries@[choose|i: int|
                    0 <= i < self.entries@.len() && entry_key(#[trigger] self.entries@[i]) == k].value@,
        )
    }

    pub fn new() -> (r: Self)
        ensures
            r.wf(),
            r.view() == Map::<(Seq<char>, Seq<char>), Seq<char>>::empty(),
    {
        let r = PairMap { entries: Vec::new() };
        assert(r.view() =~= Map::<(Seq<char>, Seq<char>), Seq<char>>::empty());
        r
    }

    fn find(&self, kind: &str, key: &str) -> (r: Option<usize>)
        ensures
            match r {
                Some(i) => i < self.entries@.len() && entry_key(self.entries@[i as int]) == (
                kind@, key@),
                None => forall|i: int|
                    0 <= i < self.entries@.len() ==> entry_key(#[trigger] self.entries@[i]) != (
                    kind@, key@),
            },
    {
        let mut i: usize = 0;
        while i < self.entries.len()
            invariant
                i <= self.entries@.len(),
                forall|j: int|
                    0 <= j < i ==> entry_key(#[trigger] self.entries@[j]) != (kind@, key@),
            decreases self.entries@.len() - i,
        {
            let e = &self.entries[i];
            if e.kind.as_str().to_owned() == kind.to_owned() && e.key.as_str().to_owned()
                == key.to_owned() {
                return Some(i);
            }
            i = i + 1;
        }
        None
    }

    proof fn lemma_view_at(self, i: int)
        requires
            self.wf(),
            0 <= i < self.entries@.len(),
        ensures
            self.view().contains_key(entry_key(self.entries@[i])),
            self.view()[entry_key(self.entries@[i])] == self.entries@[i].value@,
    {
        let k = entry_key(self.entries@[i]);
        let j = choose|j: int| 0 <= j < self.entries@.len() && entry_key(#[trigger] self.entries@[j]) == k;
        if j != i {
            if j < i {
                assert(entry_key(self.entries@[j]) != entry_key(self.entries@[i]));
            } else {
                assert(entry_key(self.entries@[i]) != entry_key(self.entries@[j]));
            }
        }
    }

    pub fn get(&self, kind: &str, key: &str) -> (r: Option<&str>)
        requires
            self.wf(),
        ensures
            match r {
                Some(v) => self.view().contains_key((kind@, key@)) && self.view()[(kind@, key@)]
                    == v@,
                None => !self.view().contains_key((kind@, key@)),
            },
    {
        match self.find(kind, key) {
            Some(i) => {
                proof {
                    self.lemma_view_at(i as int);
                }
                Some(self.entries[i].value.as_str())
            },
            None => None,
        }
    }

    /// Sets the value of `(kind, key)`, replacing any earlier value.
    pub fn insert(&mut self, kind: &str, key: &str, value: &str)
        requires
            old(self).wf(),
        ensures
            final(self).wf(),
            final(self).view() == old(self).view().insert((kind@, key@), value@),
    {
        let ghost before = self.view();
        let entry = PairEntry { kind: kind.to_owned(), key: key.to_owned(), value: value.to_owned() };
        match self.find(kind, key) {
            Some(i) => {
                self.entries.set(i, entry);
            },
            None => {
                self.entries.push(entry);
            },
        }
        proof {
            let k = (kind@, key@);
            assert forall|a: int, b: int|
                0 <= a < b < self.entries@.len() implies entry_key(#[trigger] self.entries@[a])
                != entry_key(#[trigger] self.entries@[b]) by {
                assert(old(self).wf());
            }
            assert forall|q: (Seq<char>, Seq<char>)| #[trigger]
                self.view().contains_key(q) == before.insert(k, value@).contains_key(q) by {
                if q != k && before.contains_key(q) {
                    let j = choose|j: int|
                        0 <= j < old(self).entries@.len() && entry_key(
                            #[trigger] old(self).entries@[j],
                        ) == q;
                    assert(entry_key(self.entries@[j]) == q);
                }
                if q != k && self.view().contains_key(q) {
                    let j = choose|j: int|
                        0 <= j < self.entries@.len() && entry_key(#[trigger] self.entries@[j]) == q;
                    assert(entry_key(old(self).entries@[j]) == q);
                }
                if q == k {
                    let j = if self.entries@.len() > old(self).entries@.len() {
                        self.entries@.len() - 1
                    } else {
                        choose|j: int|
                            0 <= j < old(self).entries@.len() && entry_key(
                                #[trigger] old(self).entries@[j],
                            ) == k
                    };
                    assert(entry_key(self.entries@[j]) == k);
                }
            }
            assert forall|q: (Seq<char>, Seq<char>)| #[trigger]
                self.view().contains_key(q) implies self.view()[q] == before.insert(
                k,
                value@,
            )[q] by {
                let j = choose|j: int|
                    0 <= j < self.entries@.len() && entry_key(#[trigger] self.entries@[j]) == q;
                self.lemma_view_at(j);
                if q != k {
                    old(self).lemma_view_at(j);
                }
            }
            assert(self.view() =~= before.insert(k, value@));
        }
    }
}

} // verus!
