use vstd::prelude::*;
use vstd::string::StringExecFns;
use vstd::utf8::encode_utf8;
use vstd::string::StrSliceExecFns;

verus! {

/// Unicode general category Cc, the characters that `char::is_control` accepts.
pub open spec fn is_control_char(c: char) -> bool {
    c <= '\u{1f}' || ('\u{7f}' <= c && c <= '\u{9f}')
}

pub open spec fn has_control_spec(s: Seq<char>) -> bool {
    exists|i: int| 0 <= i < s.len() && is_control_char(#[trigger] s[i])
}

pub fn is_control(c: char) -> (r: bool)
    ensures
        r == is_control_char(c),
{
    c <= '\u{1f}' || ('\u{7f}' <= c && c <= '\u{9f}')
}

/// Whether any character of `s` is a control character.
pub fn has_control(s: &str) -> (r: bool)
    ensures
        r == has_control_spec(s@),
{
    let mut found = false;
    for c in it: s.chars()
        invariant
            it.seq() == s@,
            found == exists|i: int| 0 <= i < it.index() && is_control_char(#[trigger] s@[i]),
    {
        if is_control(c) {
            found = true;
        }
    }
    found
}

} // verus!

verus! {

/// Characters with the Unicode White_Space property (`char::is_whitespace`).
pub open spec fn is_whitespace_char(c: char) -> bool {
    ||| ('\u{9}' <= c && c <= '\u{d}')
    ||| c == ' '
    ||| c == '\u{85}'
    ||| c == '\u{a0}'
    ||| c == '\u{1680}'
    ||| ('\u{2000}' <= c && c <= '\u{200a}')
    ||| c == '\u{2028}'
    ||| c == '\u{2029}'
    ||| c == '\u{202f}'
    ||| c == '\u{205f}'
    ||| c == '\u{3000}'
}

/// `s.trim().is_empty()`: nothing but white space.
pub open spec fn blank(s: Seq<char>) -> bool {
    forall|i: int| 0 <= i < s.len() ==> is_whitespace_char(#[trigger] s[i])
}

/// Length of the UTF-8 encoding, which `str::len` reports.
pub open spec fn byte_len(s: Seq<char>) -> nat {
    encode_utf8(s).len()
}

pub fn is_whitespace(c: char) -> (r: bool)
    ensures
        r == is_whitespace_char(c),
{
    ('\u{9}' <= c && c <= '\u{d}') || c == ' ' || c == '\u{85}' || c == '\u{a0}' || c
        == '\u{1680}' || ('\u{2000}' <= c && c <= '\u{200a}') || c == '\u{2028}' || c
        == '\u{2029}' || c == '\u{202f}' || c == '\u{205f}' || c == '\u{3000}'
}

/// Whether `s` consists of white space only (the empty string included).
pub fn is_blank(s: &str) -> (r: bool)
    ensures
        r == blank(s@),
{
    let mut all = true;
    for c in it: s.chars()
        invariant
            it.seq() == s@,
            all == forall|i: int| 0 <= i < it.index() ==> is_whitespace_char(#[trigger] s@[i]),
    {
        if !is_whitespace(c) {
            all = false;
        }
    }
    all
}

/// Equality of two string slices by their characters.
pub fn str_eq(a: &str, b: &str) -> (r: bool)
    ensures
        r == (a@ == b@),
{
    let x = a.to_owned();
    let y = b.to_owned();
    x == y
}

/// Number of bytes of the UTF-8 encoding of `s`.
pub fn len_bytes(s: &str) -> (r: usize)
    ensures
        r == byte_len(s@),
{
    s.as_bytes().len()
}

pub fn string_of(s: &str) -> (r: String)
    ensures
        r@ == s@,
{
    s.to_owned()
}

pub fn copy_string(s: &String) -> (r: String)
    ensures
        r@ == s@,
{
    s.clone()
}

pub fn copy_opt_string(s: &Option<String>) -> (r: Option<String>)
    ensures
        r == *s,
{
    match s {
        Some(v) => Some(v.clone()),
        None => None,
    }
}


pub open spec fn first_text(s: Seq<char>, a: int) -> bool {
    0 <= a < s.len() && !is_whitespace_char(s[a]) && forall|k: int|
        0 <= k < a ==> is_whitespace_char(#[trigger] s[k])
}

pub open spec fn last_text(s: Seq<char>, b: int) -> bool {
    0 <= b < s.len() && !is_whitespace_char(s[b]) && forall|k: int|
        b < k < s.len() ==> is_whitespace_char(#[trigger] s[k])
}

/// `str::trim`: `s` without leading and trailing white space.
pub open spec fn trim_spec(s: Seq<char>) -> Seq<char> {
    if blank(s) {
        Seq::empty()
    } else {
        s.subrange(choose|a: int| first_text(s, a), (choose|b: int| last_text(s, b)) + 1)
    }
}

/// `s` without leading and trailing white space.
pub fn trim(s: &str) -> (r: &str)
    ensures
        r@ == trim_spec(s@),
{
    let n = s.unicode_len();
    let mut a: usize = 0;
    while a < n && is_whitespace(s.get_char(a))
        invariant
            n == s@.len(),
            a <= n,
            forall|k: int| 0 <= k < a ==> is_whitespace_char(#[trigger] s@[k]),
        decreases n - a,
    {
        a = a + 1;
    }
    if a == n {
        proof {
            assert(s@.subrange(0, 0) =~= Seq::<char>::empty());
        }
        return s.substring_char(0, 0);
    }
    let mut b: usize = n - 1;
    while b > a && is_whitespace(s.get_char(b))
        invariant
            n == s@.len(),
            a < n,
            a <= b < n,
            !is_whitespace_char(s@[a as int]),
            forall|k: int| b < k < n ==> is_whitespace_char(#[trigger] s@[k]),
        decreases b,
    {
        b = b - 1;
    }
    proof {
        assert(first_text(s@, a as int));
        assert(last_text(s@, b as int));
        let x = choose|x: int| first_text(s@, x);
        let y = choose|y: int| last_text(s@, y);
        if x < a {
            assert(is_whitespace_char(s@[x]));
        }
        if a < x {
            assert(is_whitespace_char(s@[a as int]));
        }
        if y < b {
            assert(is_whitespace_char(s@[b as int]));
        }
        if b < y {
            assert(is_whitespace_char(s@[y]));
        }
        assert(!blank(s@));
    }
    s.substring_char(a, b + 1)
}

/// `s` without the prefix `p`, when `s` starts with it.
pub fn strip_prefix<'a>(s: &'a str, p: &str) -> (r: Option<&'a str>)
    ensures
        match r {
            Some(rest) => p@.is_prefix_of(s@) && rest@ == s@.skip(p@.len() as int),
            None => !p@.is_prefix_of(s@),
        },
{
    let n = s.unicode_len();
    let k = p.unicode_len();
    if k > n {
        return None;
    }
    let mut i: usize = 0;
    while i < k
        invariant
            n == s@.len(),
            k == p@.len(),
            k <= n,
            i <= k,
            forall|j: int| 0 <= j < i ==> s@[j] == p@[j],
        decreases k - i,
    {
        if s.get_char(i) != p.get_char(i) {
            return None;
        }
        i = i + 1;
    }
    Some(s.substring_char(k, n))
}

/// The characters `str::trim_matches(['\'', '"', '.'])` removes.
pub open spec fn is_quote_char(c: char) -> bool {
    c == '\'' || c == '"' || c == '.'
}

pub open spec fn first_unquoted(s: Seq<char>, a: int) -> bool {
    0 <= a < s.len() && !is_quote_char(s[a]) && forall|k: int|
        0 <= k < a ==> is_quote_char(#[trigger] s[k])
}

pub open spec fn last_unquoted(s: Seq<char>, b: int) -> bool {
    0 <= b < s.len() && !is_quote_char(s[b]) && forall|k: int|
        b < k < s.len() ==> is_quote_char(#[trigger] s[k])
}

/// `s` without leading and trailing quotes and full stops.
pub open spec fn trim_quotes_spec(s: Seq<char>) -> Seq<char> {
    if forall|i: int| 0 <= i < s.len() ==> is_quote_char(#[trigger] s[i]) {
        Seq::empty()
    } else {
        s.subrange(
            choose|a: int| first_unquoted(s, a),
            (choose|b: int| last_unquoted(s, b)) + 1,
        )
    }
}

pub fn is_quote(c: char) -> (r: bool)
    ensures
        r == is_quote_char(c),
{
    c == '\'' || c == '"' || c == '.'
}

/// `s.trim_matches(['\'', '"', '.'])`.
pub fn trim_quotes(s: &str) -> (r: &str)
    ensures
        r@ == trim_quotes_spec(s@),
{
    let n = s.unicode_len();
    let mut a: usize = 0;
    while a < n && is_quote(s.get_char(a))
        invariant
            n == s@.len(),
            a <= n,
            forall|k: int| 0 <= k < a ==> is_quote_char(#[trigger] s@[k]),
        decreases n - a,
    {
        a = a + 1;
    }
    if a == n {
        proof {
            assert(s@.subrange(0, 0) =~= Seq::<char>::empty());
        }
        return s.substring_char(0, 0);
    }
    let mut b: usize = n - 1;
    while b > a && is_quote(s.get_char(b))
        invariant
            n == s@.len(),
            a < n,
            a <= b < n,
            !is_quote_char(s@[a as int]),
            forall|k: int| b < k < n ==> is_quote_char(#[trigger] s@[k]),
        decreases b,
    {
        b = b - 1;
    }
    proof {
        assert(first_unquoted(s@, a as int));
        assert(last_unquoted(s@, b as int));
        let x = choose|x: int| first_unquoted(s@, x);
        let y = choose|y: int| last_unquoted(s@, y);
        if x < a {
            assert(is_quote_char(s@[x]));
        }
        if a < x {
            assert(is_quote_char(s@[a as int]));
        }
        if y < b {
            assert(is_quote_char(s@[b as int]));
        }
        if b < y {
            assert(is_quote_char(s@[y]));
        }
        assert(!is_quote_char(s@[a as int]));
    }
    s.substring_char(a, b + 1)
}

/// The decimal digit `d`.
pub open spec fn digit_char(d: nat) -> char {
    if d == 0 {
        '0'
    } else if d == 1 {
        '1'
    } else if d == 2 {
        '2'
    } else if d == 3 {
        '3'
    } else if d == 4 {
        '4'
    } else if d == 5 {
        '5'
    } else if d == 6 {
        '6'
    } else if d == 7 {
        '7'
    } else if d == 8 {
        '8'
    } else {
        '9'
    }
}

/// The decimal numeral of `n`, as `Display` writes it.
pub open spec fn decimal(n: nat) -> Seq<char>
    decreases n,
{
    if n < 10 {
        seq![digit_char(n)]
    } else {
        decimal(n / 10).push(digit_char(n % 10))
    }
}

fn digit_text(d: u16) -> (r: &'static str)
    requires
        d < 10,
    ensures
        r@ == seq![digit_char(d as nat)],
{
    proof {
        reveal_strlit("0");
        reveal_strlit("1");
        reveal_strlit("2");
        reveal_strlit("3");
        reveal_strlit("4");
        reveal_strlit("5");
        reveal_strlit("6");
        reveal_strlit("7");
        reveal_strlit("8");
        reveal_strlit("9");
    }
    if d == 0 {
        "0"
    } else if d == 1 {
        "1"
    } else if d == 2 {
        "2"
    } else if d == 3 {
        "3"
    } else if d == 4 {
        "4"
    } else if d == 5 {
        "5"
    } else if d == 6 {
        "6"
    } else if d == 7 {
        "7"
    } else if d == 8 {
        "8"
    } else {
        "9"
    }
}

/// `n.to_string()`.
pub fn decimal_text(n: u16) -> (r: String)
    ensures
        r@ == decimal(n as nat),
    decreases n,
{
    if n < 10 {
        String::from_str(digit_text(n))
    } else {
        let mut s = decimal_text(n / 10);
        s.append(digit_text(n % 10));
        s
    }
}

/// `n.to_string()` for a position.
pub fn decimal_usize(n: usize) -> (r: String)
    ensures
        r@ == decimal(n as nat),
    decreases n,
{
    if n < 10 {
        String::from_str(digit_text(n as u16))
    } else {
        let mut s = decimal_usize(n / 10);
        s.append(digit_text((n % 10) as u16));
        s
    }
}
} // verus!
