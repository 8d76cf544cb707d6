//! Model discovery follows stable Codex releases independently of the wire baseline.
use vstd::prelude::*;
use crate::text::{decimal, digit_char};

verus! {

/// The release used for model discovery before any newer stable release is observed.
pub const CODEX_VERSION: &'static str = "0.153.4";

pub open spec fn is_digit(c: char) -> bool {
    '0' <= c && c <= '9'
}

/// Decimal value of a string of ASCII digits.
pub open spec fn digits_value(p: Seq<char>) -> int
    decreases p.len(),
{
    if p.len() == 0 {
        0
    } else {
        digits_value(p.drop_last()) * 10 + (p.last() as int - '0' as int)
    }
}

/// The pieces of `s` between `.` separators (`str::split('.')`).
pub open spec fn split_dots(s: Seq<char>) -> Seq<Seq<char>>
    decreases s.len(),
{
    if s.len() == 0 {
        seq![Seq::<char>::empty()]
    } else {
        let parts = split_dots(s.drop_last());
        if s.last() == '.' {
            parts.push(Seq::<char>::empty())
        } else {
            parts.update(parts.len() - 1, parts.last().push(s.last()))
        }
    }
}

/// A strict release component: digits only, no leading zero, fits in `u32`.
pub open spec fn valid_component(p: Seq<char>) -> bool {
    &&& p.len() > 0
    &&& forall|i: int| 0 <= i < p.len() ==> is_digit(#[trigger] p[i])
    &&& !(p.len() > 1 && p[0] == '0')
    &&& digits_value(p) <= u32::MAX
}

/// `Some([major, minor, patch])` exactly for `MAJOR.MINOR.PATCH` stable releases.
pub open spec fn parse_spec(s: Seq<char>) -> Option<Seq<int>> {
    let parts = split_dots(s);
    if parts.len() == 3 && valid_component(parts[0]) && valid_component(parts[1])
        && valid_component(parts[2]) {
        Some(seq![digits_value(parts[0]), digits_value(parts[1]), digits_value(parts[2])])
    } else {
        None
    }
}

/// Lexicographic order of release numbers.
pub open spec fn version_lt(a: Seq<int>, b: Seq<int>) -> bool {
    a[0] < b[0] || (a[0] == b[0] && (a[1] < b[1] || (a[1] == b[1] && a[2] < b[2])))
}

proof fn lemma_split_nonempty(s: Seq<char>)
    ensures
        split_dots(s).len() >= 1,
    decreases s.len(),
{
    if s.len() > 0 {
        lemma_split_nonempty(s.drop_last());
    }
}

pub(crate) proof fn lemma_digits_nonneg(p: Seq<char>)
    requires
        forall|i: int| 0 <= i < p.len() ==> is_digit(#[trigger] p[i]),
    ensures
        digits_value(p) >= 0,
    decreases p.len(),
{
    if p.len() > 0 {
        lemma_digits_nonneg(p.drop_last());
    }
}

/// Parses a strict stable release `MAJOR.MINOR.PATCH`.
pub fn parse(version: &str) -> (r: Option<[u32; 3]>)
    ensures
        match parse_spec(version@) {
            Some(v) => r matches Some(a) && a@.len() == 3 && a@[0] == v[0] && a@[1] == v[1]
                && a@[2] == v[2],
            None => r is None,
        },
{
    let mut result: [u32; 3] = [0, 0, 0];
    let mut count: usize = 1;  // number of parts seen, saturated at 4
    let mut bad = false;  // a completed part is invalid
    let mut len: usize = 0;  // length of the current part, saturated at 11
    let mut value: u64 = 0;  // value of the current part, capped at 2^32
    let mut digits = true;
    let mut lead_zero = false;
    let cap: u64 = 0x1_0000_0000;
    proof {
        assert(version@.take(0) =~= Seq::<char>::empty());
    }
    for c in it: version.chars()
        invariant
            it.seq() == version@,
            cap == 0x1_0000_0000,
            count <= 4,
            len <= 11,
            value <= cap,
            split_dots(version@.take(it.index() as int)).len() >= 1,
            count == if split_dots(version@.take(it.index() as int)).len() > 4 {
                4
            } else {
                split_dots(version@.take(it.index() as int)).len()
            },
            bad == (split_dots(version@.take(it.index() as int)).len() > 3 || exists|j: int|
                0 <= j < split_dots(version@.take(it.index() as int)).len() - 1
                    && !valid_component(
                    #[trigger] split_dots(version@.take(it.index() as int))[j],
                )),
            !bad ==> forall|j: int|
                0 <= j < split_dots(version@.take(it.index() as int)).len() - 1 && j < 3
                    ==> result@[j] == digits_value(
                    #[trigger] split_dots(version@.take(it.index() as int))[j],
                ),
            len == if split_dots(version@.take(it.index() as int)).last().len() > 11 {
                11
            } else {
                split_dots(version@.take(it.index() as int)).last().len()
            },
            digits == forall|i: int|
                0 <= i < split_dots(version@.take(it.index() as int)).last().len() ==> is_digit(
                    #[trigger] split_dots(version@.take(it.index() as int)).last()[i],
                ),
            lead_zero == (split_dots(version@.take(it.index() as int)).last().len() > 0
                && split_dots(version@.take(it.index() as int)).last()[0] == '0'),
            digits ==> value == if digits_value(
                split_dots(version@.take(it.index() as int)).last(),
            ) > cap {
                cap as int
            } else {
                digits_value(split_dots(version@.take(it.index() as int)).last())
            },
    {
        let ghost prev = version@.take(it.index() as int);
        let ghost next = version@.take(it.index() + 1);
        proof {
            assert(next.drop_last() =~= prev);
            assert(next.last() == c);
            lemma_split_nonempty(prev);
        }
        let ghost parts = split_dots(prev);
        let ghost cur = parts.last();
        if c == '.' {
            let complete = digits && len > 0 && !(len > 1 && lead_zero) && value < cap;
            proof {
                let np = split_dots(next);
                assert(np == parts.push(Seq::<char>::empty()));
                if digits {
                    lemma_digits_nonneg(cur);
                }
                assert(complete == valid_component(cur));
                if !bad && !complete {
                    assert(!valid_component(np[parts.len() - 1]));
                }
                if bad && parts.len() <= 3 {
                    let j = choose|j: int|
                        0 <= j < parts.len() - 1 && !valid_component(#[trigger] parts[j]);
                    assert(np[j] == parts[j]);
                }
            }
            if !complete {
                bad = true;
            }
            if count <= 3 && complete {
                result[count - 1] = value as u32;
            }
            if count >= 3 {
                bad = true;
            }
            if count < 4 {
                count = count + 1;
            }
            len = 0;
            value = 0;
            digits = true;
            lead_zero = false;
            proof {
                let np = split_dots(next);
                assert(np.last() =~= Seq::<char>::empty());
                assert forall|j: int|
                    0 <= j < np.len() - 1 && !valid_component(#[trigger] np[j]) implies bad by {
                    if j < parts.len() - 1 {
                        assert(np[j] == parts[j]);
                    }
                }
                if !bad {
                    assert forall|j: int|
                        0 <= j < np.len() - 1 && j < 3 implies result@[j] == digits_value(
                            #[trigger] np[j],
                        ) by {
                        if j < parts.len() - 1 {
                            assert(np[j] == parts[j]);
                        }
                    }
                }
            }
        } else {
            let d = is_digit_char(c);
            proof {
                let np = split_dots(next);
                assert(np == parts.update(parts.len() - 1, cur.push(c)));
                let nc = cur.push(c);
                assert(nc.drop_last() =~= cur);
                assert(np.last() == nc);
                if digits && d {
                    lemma_digits_nonneg(cur);
                    assert(digits_value(nc) == digits_value(cur) * 10 + (c as int - '0' as int));
                }
                assert forall|j: int|
                    0 <= j < np.len() - 1 && !valid_component(#[trigger] np[j]) implies bad by {
                    assert(np[j] == parts[j]);
                }
                if !bad {
                    assert forall|j: int|
                        0 <= j < np.len() - 1 && j < 3 implies result@[j] == digits_value(
                            #[trigger] np[j],
                        ) by {
                        assert(np[j] == parts[j]);
                    }
                }
                if bad && parts.len() <= 3 {
                    let j = choose|j: int|
                        0 <= j < parts.len() - 1 && !valid_component(#[trigger] parts[j]);
                    assert(np[j] == parts[j]);
                }
                if !d {
                    assert(!is_digit(nc[nc.len() - 1]));
                }
                if digits && d {
                    assert forall|i: int| 0 <= i < nc.len() implies is_digit(#[trigger] nc[i]) by {
                        if i < cur.len() {
                            assert(nc[i] == cur[i]);
                        }
                    }
                }
                if !digits {
                    let i = choose|i: int| 0 <= i < cur.len() && !is_digit(#[trigger] cur[i]);
                    assert(nc[i] == cur[i]);
                }
                if cur.len() > 0 {
                    assert(nc[0] == cur[0]);
                }
            }
            if len == 0 {
                lead_zero = c == '0';
            }
            if !d {
                digits = false;
            }
            if digits {
                let v = value * 10 + (c as u64 - '0' as u64);
                value = if v > cap { cap } else { v };
            }
            if len < 11 {
                len = len + 1;
            }
        }
    }
    proof {
        assert(version@.take(version@.len() as int) =~= version@);
        lemma_split_nonempty(version@);
        let parts = split_dots(version@);
        if digits {
            lemma_digits_nonneg(parts.last());
        }
    }
    let last_ok = digits && len > 0 && !(len > 1 && lead_zero) && value < cap;
    if bad || count != 3 || !last_ok {
        return None;
    }
    result[2] = value as u32;
    Some(result)
}

fn is_digit_char(c: char) -> (r: bool)
    ensures
        r == is_digit(c),
{
    '0' <= c && c <= '9'
}

} // verus!

verus! {

/// Whether `stored` holds a release that `parse` accepts (or nothing yet).
pub open spec fn stored_valid(stored: Option<String>) -> bool {
    stored matches Some(v) ==> parse_spec(v@) is Some
}

/// The release in force: the last one accepted, else the built-in baseline.
pub open spec fn current_spec(stored: Option<String>) -> Seq<char> {
    match stored {
        Some(v) => v@,
        None => CODEX_VERSION@,
    }
}

pub proof fn lemma_baseline_parses()
    ensures
        parse_spec(CODEX_VERSION@) == Some(seq![0int, 153, 4]),
{
    reveal_strlit("0.153.4");
    let s = CODEX_VERSION@;
    assert(s =~= seq!['0', '.', '1', '5', '3', '.', '4']);
    let e = Seq::<char>::empty();
    assert(split_dots(e) == seq![e]);
    assert(seq!['0'].drop_last() =~= e);
    assert(split_dots(seq!['0']) =~= seq![seq!['0']]);
    assert(seq!['0', '.'].drop_last() =~= seq!['0']);
    assert(split_dots(seq!['0', '.']) =~= seq![seq!['0'], e]);
    assert(seq!['0', '.', '1'].drop_last() =~= seq!['0', '.']);
    assert(split_dots(seq!['0', '.', '1']) =~= seq![seq!['0'], seq!['1']]);
    assert(seq!['0', '.', '1', '5'].drop_last() =~= seq!['0', '.', '1']);
    assert(seq!['1'].push('5') =~= seq!['1', '5']);
    assert(split_dots(seq!['0', '.', '1', '5']) =~= seq![seq!['0'], seq!['1', '5']]);
    assert(seq!['0', '.', '1', '5', '3'].drop_last() =~= seq!['0', '.', '1', '5']);
    assert(seq!['1', '5'].push('3') =~= seq!['1', '5', '3']);
    assert(split_dots(seq!['0', '.', '1', '5', '3']) =~= seq![seq!['0'], seq!['1', '5', '3']]);
    assert(seq!['0', '.', '1', '5', '3', '.'].drop_last() =~= seq!['0', '.', '1', '5', '3']);
    assert(split_dots(seq!['0', '.', '1', '5', '3', '.']) =~= seq![
        seq!['0'],
        seq!['1', '5', '3'],
        e,
    ]);
    assert(s.drop_last() =~= seq!['0', '.', '1', '5', '3', '.']);
    let p = split_dots(s);
    assert(p =~= seq![seq!['0'], seq!['1', '5', '3'], seq!['4']]);
    assert(seq!['1', '5', '3'].drop_last() =~= seq!['1', '5']);
    assert(seq!['1', '5'].drop_last() =~= seq!['1']);
    assert(seq!['1'].drop_last() =~= Seq::<char>::empty());
    assert(seq!['0'].drop_last() =~= Seq::<char>::empty());
    assert(seq!['4'].drop_last() =~= Seq::<char>::empty());
    assert(digits_value(Seq::<char>::empty()) == 0);
    assert(seq!['0'].last() == '0');
    assert(seq!['4'].last() == '4');
    assert(seq!['1'].last() == '1');
    assert(seq!['1', '5'].last() == '5');
    assert(seq!['1', '5', '3'].last() == '3');
    assert(digits_value(seq!['0']) == 0);
    assert(digits_value(seq!['4']) == 4);
    assert(digits_value(seq!['1']) == 1);
    assert(digits_value(seq!['1', '5']) == 15);
    assert(digits_value(seq!['1', '5', '3']) == 153);
    assert(valid_component(seq!['1', '5', '3']));
    assert(valid_component(seq!['0']));
    assert(valid_component(seq!['4']));
}

/// The release used for model discovery.
pub fn current(stored: &Option<String>) -> (r: String)
    ensures
        r@ == current_spec(*stored),
{
    match stored {
        Some(v) => v.clone(),
        None => CODEX_VERSION.to_owned(),
    }
}

fn less(a: [u32; 3], b: [u32; 3]) -> (r: bool)
    ensures
        r == version_lt(seq![a@[0] as int, a@[1] as int, a@[2] as int], seq![b@[0] as int, b@[1] as int, b@[2] as int]),
{
    a[0] < b[0] || (a[0] == b[0] && (a[1] < b[1] || (a[1] == b[1] && a[2] < b[2])))
}

/// Accepts `version` only when it is a strict stable release newer than the
/// current one; otherwise the stored release is kept unchanged.
pub fn advance(guard: &mut Option<String>, version: &str) -> (r: bool)
    requires
        stored_valid(*old(guard)),
    ensures
        r == (parse_spec(version@) is Some && version_lt(
            parse_spec(current_spec(*old(guard)))->0,
            parse_spec(version@)->0,
        )),
        r ==> (*final(guard) matches Some(v) && v@ == version@),
        !r ==> *final(guard) == *old(guard),
        stored_valid(*final(guard)),
{
    proof {
        lemma_baseline_parses();
    }
    let next = match parse(version) {
        Some(n) => n,
        None => return false,
    };
    let previous = match guard {
        Some(v) => parse(v.as_str()),
        None => parse(CODEX_VERSION),
    };
    let previous = match previous {
        Some(p) => p,
        None => return false,
    };
    if !less(previous, next) {
        return false;
    }
    *guard = Some(version.to_owned());
    true
}

/// Records a newly observed release (see `advance`).
pub fn update(guard: &mut Option<String>, version: &str) -> (r: bool)
    requires
        stored_valid(*old(guard)),
    ensures
        r == (parse_spec(version@) is Some && version_lt(
            parse_spec(current_spec(*old(guard)))->0,
            parse_spec(version@)->0,
        )),
        r ==> (*final(guard) matches Some(v) && v@ == version@),
        !r ==> *final(guard) == *old(guard),
        stored_valid(*final(guard)),
{
    advance(guard, version)
}


/// The release text of three numbers, as `format!("{a}.{b}.{c}")` writes it.
pub open spec fn release_text(a: u32, b: u32, c: u32) -> Seq<char> {
    decimal(a as nat) + seq!['.'] + decimal(b as nat) + seq!['.'] + decimal(c as nat)
}

/// The pieces joined again with `.` between them.
pub open spec fn join_dots(parts: Seq<Seq<char>>) -> Seq<char>
    decreases parts.len(),
{
    if parts.len() <= 1 {
        if parts.len() == 1 {
            parts[0]
        } else {
            Seq::empty()
        }
    } else {
        join_dots(parts.drop_last()) + seq!['.'] + parts.last()
    }
}

proof fn lemma_digit_char(d: nat)
    requires
        d < 10,
    ensures
        is_digit(digit_char(d)),
        digit_char(d) as int - '0' as int == d,
        (digit_char(d) == '0') == (d == 0),
{
}

proof fn lemma_char_digit(c: char)
    requires
        is_digit(c),
    ensures
        0 <= c as int - '0' as int <= 9,
        digit_char((c as int - '0' as int) as nat) == c,
{
    let d = (c as int - '0' as int) as nat;
    lemma_digit_char(d);
    assert(digit_char(d) as int == c as int);
}

/// The numeral of a number: digits, with no leading zero, of the number's
/// value.
proof fn lemma_decimal(n: nat)
    ensures
        decimal(n).len() > 0,
        forall|i: int| 0 <= i < decimal(n).len() ==> is_digit(#[trigger] decimal(n)[i]),
        n > 0 ==> decimal(n)[0] != '0',
        digits_value(decimal(n)) == n,
    decreases n,
{
    if n < 10 {
        lemma_digit_char(n);
        assert(decimal(n).drop_last() =~= Seq::<char>::empty());
        assert(digits_value(decimal(n)) == digits_value(decimal(n).drop_last()) * 10 + (decimal(n).last() as int - '0' as int));
    } else {
        let q = n / 10;
        let d = n % 10;
        lemma_decimal(q);
        lemma_digit_char(d);
        let s = decimal(n);
        assert(s == decimal(q).push(digit_char(d)));
        assert(s.drop_last() =~= decimal(q));
        assert(n == q * 10 + d) by (nonlinear_arith)
            requires
                q == n / 10,
                d == n % 10,
        ;
        assert(q > 0);
        assert(s.last() == digit_char(d));
        assert(digits_value(s) == digits_value(s.drop_last()) * 10 + (s.last() as int - '0' as int));
        assert(s[0] == decimal(q)[0]);
    }
}

proof fn lemma_value_positive(p: Seq<char>)
    requires
        p.len() > 0,
        forall|i: int| 0 <= i < p.len() ==> is_digit(#[trigger] p[i]),
        p[0] != '0',
    ensures
        digits_value(p) >= 1,
    decreases p.len(),
{
    assert(is_digit(p.last()));
    assert(digits_value(p) == digits_value(p.drop_last()) * 10 + (p.last() as int - '0' as int));
    if p.len() == 1 {
        assert(p.drop_last() =~= Seq::<char>::empty());
        assert(p.last() == p[0]);
    } else {
        let q = p.drop_last();
        assert(q[0] == p[0]);
        lemma_value_positive(q);
    }
}

/// A strict component is the numeral of its value.
proof fn lemma_component_canonical(p: Seq<char>)
    requires
        p.len() > 0,
        forall|i: int| 0 <= i < p.len() ==> is_digit(#[trigger] p[i]),
        !(p.len() > 1 && p[0] == '0'),
    ensures
        digits_value(p) >= 0,
        p == decimal(digits_value(p) as nat),
    decreases p.len(),
{
    lemma_digits_nonneg(p);
    let c = p.last();
    assert(is_digit(c));
    lemma_char_digit(c);
    let d = c as int - '0' as int;
    assert(digits_value(p) == digits_value(p.drop_last()) * 10 + d);
    if p.len() == 1 {
        assert(p.drop_last() =~= Seq::<char>::empty());
        assert(digits_value(p) == d);
        assert(decimal(d as nat) =~= p);
    } else {
        let q = p.drop_last();
        assert(q[0] == p[0]);
        lemma_component_canonical(q);
        lemma_value_positive(q);
        let v = digits_value(q);
        let n = digits_value(p);
        assert(n == v * 10 + d);
        assert(n / 10 == v && n % 10 == d) by (nonlinear_arith)
            requires
                n == v * 10 + d,
                0 <= d < 10,
                v >= 1,
        ;
        assert(decimal(n as nat) == decimal(v as nat).push(digit_char(d as nat)));
        assert(p =~= q.push(c));
    }
}

/// A piece without a dot extends the last piece of what precedes it.
proof fn lemma_split_append(pre: Seq<char>, s: Seq<char>)
    requires
        forall|i: int| 0 <= i < s.len() ==> s[i] != '.',
    ensures
        split_dots(pre).len() >= 1,
        split_dots(pre + s) == split_dots(pre).update(
            split_dots(pre).len() - 1,
            split_dots(pre).last() + s,
        ),
    decreases s.len(),
{
    lemma_split_nonempty(pre);
    let parts = split_dots(pre);
    if s.len() == 0 {
        assert(pre + s =~= pre);
        assert(parts.last() + s =~= parts.last());
        assert(parts.update(parts.len() - 1, parts.last()) =~= parts);
    } else {
        let t = s.drop_last();
        lemma_split_append(pre, t);
        assert((pre + s).drop_last() =~= pre + t);
        assert((pre + s).last() == s.last());
        let mid = split_dots(pre + t);
        assert(mid.len() == parts.len());
        assert(mid.last() =~= parts.last() + t);
        assert(s.last() != '.');
        assert(mid.last().push(s.last()) =~= parts.last() + s);
        assert(mid.update(mid.len() - 1, mid.last().push(s.last())) =~= parts.update(
            parts.len() - 1,
            parts.last() + s,
        ));
    }
}

proof fn lemma_split_dot(pre: Seq<char>)
    ensures
        split_dots(pre + seq!['.']) == split_dots(pre).push(Seq::<char>::empty()),
{
    assert((pre + seq!['.']).drop_last() =~= pre);
}

proof fn lemma_no_dots(n: nat)
    ensures
        forall|i: int| 0 <= i < decimal(n).len() ==> decimal(n)[i] != '.',
{
    lemma_decimal(n);
    assert forall|i: int| 0 <= i < decimal(n).len() implies decimal(n)[i] != '.' by {
        assert(is_digit(decimal(n)[i]));
    }
}

/// The pieces of a release text are its three numerals.
proof fn lemma_split_release(a: u32, b: u32, c: u32)
    ensures
        split_dots(release_text(a, b, c)) == seq![decimal(a as nat), decimal(b as nat), decimal(c as nat)],
{
    let x = decimal(a as nat);
    let y = decimal(b as nat);
    let z = decimal(c as nat);
    lemma_no_dots(a as nat);
    lemma_no_dots(b as nat);
    lemma_no_dots(c as nat);
    let e = Seq::<char>::empty();
    lemma_split_append(e, x);
    assert(e + x =~= x);
    assert(split_dots(e) =~= seq![e]);
    assert(split_dots(x) =~= seq![x]);
    lemma_split_dot(x);
    let p1 = x + seq!['.'];
    lemma_split_append(p1, y);
    assert(split_dots(p1 + y) =~= seq![x, y]);
    let p2 = p1 + y;
    lemma_split_dot(p2);
    let p3 = p2 + seq!['.'];
    lemma_split_append(p3, z);
    assert(split_dots(p3 + z) =~= seq![x, y, z]);
    assert(p3 + z =~= release_text(a, b, c));
}

/// Joining the pieces gives the text back.
proof fn lemma_join_split(s: Seq<char>)
    ensures
        join_dots(split_dots(s)) == s,
    decreases s.len(),
{
    if s.len() == 0 {
        assert(join_dots(seq![Seq::<char>::empty()]) == Seq::<char>::empty());
    } else {
        let t = s.drop_last();
        lemma_join_split(t);
        lemma_split_nonempty(t);
        let parts = split_dots(t);
        if s.last() == '.' {
            let np = parts.push(Seq::<char>::empty());
            assert(np.drop_last() =~= parts);
            assert(join_dots(np) =~= s);
        } else {
            let np = parts.update(parts.len() - 1, parts.last().push(s.last()));
            if parts.len() == 1 {
                assert(join_dots(np) =~= s);
            } else {
                assert(np.drop_last() =~= parts.drop_last());
                assert(np.last() =~= parts.last().push(s.last()));
                assert(join_dots(parts) == join_dots(parts.drop_last()) + seq!['.'] + parts.last());
                assert(join_dots(np) == join_dots(np.drop_last()) + seq!['.'] + np.last());
                assert(s =~= t.push(s.last()));
                assert(join_dots(np) =~= s);
            }
        }
    }
}

/// The version parser reads exactly the canonical text of a release: the
/// text of three numbers is read as those numbers, and no other text is read
/// as them (no sign, no leading zero, nothing around them).
pub proof fn law_release_text_round_trip(a: u32, b: u32, c: u32, s: Seq<char>)
    ensures
        parse_spec(release_text(a, b, c)) == Some(seq![a as int, b as int, c as int]),
        parse_spec(s) == Some(seq![a as int, b as int, c as int]) ==> s == release_text(a, b, c),
{
    lemma_split_release(a, b, c);
    lemma_decimal(a as nat);
    lemma_decimal(b as nat);
    lemma_decimal(c as nat);
    assert(parse_spec(release_text(a, b, c)) =~= Some(seq![a as int, b as int, c as int]));
    if parse_spec(s) == Some(seq![a as int, b as int, c as int]) {
        let parts = split_dots(s);
        assert(parts.len() == 3);
        lemma_component_canonical(parts[0]);
        lemma_component_canonical(parts[1]);
        lemma_component_canonical(parts[2]);
        assert(digits_value(parts[0]) == a);
        assert(digits_value(parts[1]) == b);
        assert(digits_value(parts[2]) == c);
        lemma_join_split(s);
        assert(parts.drop_last().drop_last() =~= seq![parts[0]]);
        let x = decimal(a as nat);
        let y = decimal(b as nat);
        let z = decimal(c as nat);
        assert(parts =~= seq![x, y, z]);
        assert(seq![x, y, z].drop_last() =~= seq![x, y]);
        assert(seq![x, y].drop_last() =~= seq![x]);
        assert(join_dots(seq![x]) == x);
        assert(join_dots(seq![x, y]) == x + seq!['.'] + y);
        assert(join_dots(seq![x, y, z]) == x + seq!['.'] + y + seq!['.'] + z);
        assert(join_dots(parts) =~= release_text(a, b, c));
    }
}

} // verus!
