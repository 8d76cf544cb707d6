//! Lexicographic order of strings, as `String`'s `Ord` compares them.
use vstd::prelude::*;

verus! {

/// `a` sorts strictly before `b`: at the first position where they differ, `a`
/// has the smaller character, or `a` is a proper prefix of `b`.
pub open spec fn seq_lt(a: Seq<char>, b: Seq<char>) -> bool {
    exists|i: int|
        0 <= i <= a.len() && i <= b.len() && #[trigger] a.take(i) == b.take(i) && ((i == a.len()
            && i < b.len()) || (i < a.len() && i < b.len() && a[i] < b[i]))
}

pub open spec fn seq_le(a: Seq<char>, b: Seq<char>) -> bool {
    a == b || seq_lt(a, b)
}

pub proof fn lemma_lt_transitive(a: Seq<char>, b: Seq<char>, c: Seq<char>)
    requires
        seq_lt(a, b),
        seq_lt(b, c),
    ensures
        seq_lt(a, c),
{
    let i = choose|i: int|
        0 <= i <= a.len() && i <= b.len() && #[trigger] a.take(i) == b.take(i) && ((i == a.len()
            && i < b.len()) || (i < a.len() && i < b.len() && a[i] < b[i]));
    let j = choose|j: int|
        0 <= j <= b.len() && j <= c.len() && #[trigger] b.take(j) == c.take(j) && ((j == b.len()
            && j < c.len()) || (j < b.len() && j < c.len() && b[j] < c[j]));
    let k = if i < j { i } else { j };
    assert(a.take(k) =~= b.take(k)) by {
        assert(a.take(i).take(k) =~= a.take(k));
        assert(b.take(i).take(k) =~= b.take(k));
    }
    assert(b.take(k) =~= c.take(k)) by {
        assert(b.take(j).take(k) =~= b.take(k));
        assert(c.take(j).take(k) =~= c.take(k));
    }
    assert(a.take(k) =~= c.take(k));
    if i < j {
        assert(b[i] == c[i]) by {
            assert(b.take(j)[i] == c.take(j)[i]);
        }
    } else if j < i {
        assert(a[j] == b[j]) by {
            assert(a.take(i)[j] == b.take(i)[j]);
        }
    }
}

pub proof fn lemma_lt_asymmetric(a: Seq<char>, b: Seq<char>)
    requires
        seq_lt(a, b),
    ensures
        !seq_lt(b, a),
        a != b,
{
    let i = choose|i: int|
        0 <= i <= a.len() && i <= b.len() && #[trigger] a.take(i) == b.take(i) && ((i == a.len()
            && i < b.len()) || (i < a.len() && i < b.len() && a[i] < b[i]));
    if seq_lt(b, a) {
        let j = choose|j: int|
            0 <= j <= b.len() && j <= a.len() && #[trigger] b.take(j) == a.take(j) && ((j
                == b.len() && j < a.len()) || (j < b.len() && j < a.len() && b[j] < a[j]));
        if i < j {
            assert(a.take(j)[i] == b.take(j)[i]);
        } else if j < i {
            assert(a.take(i)[j] == b.take(i)[j]);
        }
    }
}

/// Compares two strings: negative, zero or positive as `a` sorts before,
/// equal to or after `b`.
pub fn compare_str(a: &str, b: &str) -> (r: i8)
    ensures
        r < 0 <==> seq_lt(a@, b@),
        r == 0 <==> a@ == b@,
        r > 0 <==> seq_lt(b@, a@),
{
    let n = a.unicode_len();
    let m = b.unicode_len();
    let mut i: usize = 0;
    while i < n && i < m
        invariant
            n == a@.len(),
            m == b@.len(),
            i <= n,
            i <= m,
            a@.take(i as int) == b@.take(i as int),
        decreases n - i,
    {
        let x = a.get_char(i);
        let y = b.get_char(i);
        if x != y {
            proof {
                if x < y {
                    assert(seq_lt(a@, b@));
                    lemma_lt_asymmetric(a@, b@);
                } else {
                    assert(seq_lt(b@, a@));
                    lemma_lt_asymmetric(b@, a@);
                }
            }
            return if x < y { -1 } else { 1 };
        }
        proof {
            assert(a@.take(i + 1) =~= a@.take(i as int).push(x));
            assert(b@.take(i + 1) =~= b@.take(i as int).push(y));
        }
        i = i + 1;
    }
    if n < m {
        proof {
            assert(a@.take(i as int) =~= a@);
            assert(seq_lt(a@, b@));
            lemma_lt_asymmetric(a@, b@);
        }
        -1
    } else if m < n {
        proof {
            assert(b@.take(i as int) =~= b@);
            assert(seq_lt(b@, a@));
            lemma_lt_asymmetric(b@, a@);
        }
        1
    } else {
        proof {
            assert(a@.take(i as int) =~= a@);
            assert(b@.take(i as int) =~= b@);
            if seq_lt(a@, b@) {
                lemma_lt_asymmetric(a@, b@);
            }
            if seq_lt(b@, a@) {
                lemma_lt_asymmetric(b@, a@);
            }
        }
        0
    }
}

} // verus!
