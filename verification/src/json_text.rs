//! JSON text of a document, written compactly as `serde_json` writes it:
//! no white space, members in the order they are held, strings with `"`,
//! `\` and control characters escaped (`\b`, `\t`, `\n`, `\f`, `\r`, else
//! `\u00XX` in lower-case hexadecimal) and every other character as it is.
use vstd::prelude::*;
use vstd::string::StringExecFns;
use crate::json::{Json, JsonView, lemma_view_items, lemma_view_members, view_items, view_members};

verus! {

pub open spec fn hex_text(d: u32) -> Seq<char> {
    if d == 0 {
        "0"@
    } else if d == 1 {
        "1"@
    } else if d == 2 {
        "2"@
    } else if d == 3 {
        "3"@
    } else if d == 4 {
        "4"@
    } else if d == 5 {
        "5"@
    } else if d == 6 {
        "6"@
    } else if d == 7 {
        "7"@
    } else if d == 8 {
        "8"@
    } else if d == 9 {
        "9"@
    } else if d == 10 {
        "a"@
    } else if d == 11 {
        "b"@
    } else if d == 12 {
        "c"@
    } else if d == 13 {
        "d"@
    } else if d == 14 {
        "e"@
    } else {
        "f"@
    }
}

fn hex_str(d: u32) -> (r: &'static str)
    ensures
        r@ == hex_text(d),
{
    if d == 0 {
        "0"
    } else if d == 1 {
        "1"
    } else if d == 2 {
        "2"
    } else if d == 3 {
        "3"
    } else if d == 4 {
        "4"
    } else if d == 5 {
        "5"
    } else if d == 6 {
        "6"
    } else if d == 7 {
        "7"
    } else if d == 8 {
        "8"
    } else if d == 9 {
        "9"
    } else if d == 10 {
        "a"
    } else if d == 11 {
        "b"
    } else if d == 12 {
        "c"
    } else if d == 13 {
        "d"
    } else if d == 14 {
        "e"
    } else {
        "f"
    }
}

/// How one character of a string is written.
pub open spec fn escape_char(c: char) -> Seq<char> {
    if c == '"' {
        "\\\""@
    } else if c == '\\' {
        "\\\\"@
    } else if c == '\x08' {
        "\\b"@
    } else if c == '\t' {
        "\\t"@
    } else if c == '\n' {
        "\\n"@
    } else if c == '\x0c' {
        "\\f"@
    } else if c == '\r' {
        "\\r"@
    } else if (c as u32) < 0x20 {
        "\\u00"@ + hex_text((c as u32) / 16) + hex_text((c as u32) % 16)
    } else {
        seq![c]
    }
}

pub open spec fn escaped(s: Seq<char>) -> Seq<char>
    decreases s.len(),
{
    if s.len() == 0 {
        Seq::empty()
    } else {
        escaped(s.drop_last()) + escape_char(s.last())
    }
}

/// A string as JSON text.
pub open spec fn quoted(s: Seq<char>) -> Seq<char> {
    "\""@ + escaped(s) + "\""@
}

/// The JSON text of a document.
pub open spec fn json_text(v: JsonView) -> Seq<char>
    decreases v, 0int, 0int,
{
    match v {
        JsonView::Null => "null"@,
        JsonView::Bool(b) => if b {
            "true"@
        } else {
            "false"@
        },
        JsonView::Number(t, _) => t,
        JsonView::Text(s) => quoted(s),
        JsonView::Array(items) => "["@ + items_text(items, items.len() as int) + "]"@,
        JsonView::Object(m) => "{"@ + members_text(m, m.len() as int) + "}"@,
    }
}

/// The first `n` items, separated by commas.
pub open spec fn items_text(items: Seq<JsonView>, n: int) -> Seq<char>
    decreases items, 1int, n,
{
    if n <= 0 || n > items.len() {
        Seq::empty()
    } else {
        items_text(items, n - 1) + (if n > 1 {
            ","@
        } else {
            Seq::empty()
        }) + json_text(items[n - 1])
    }
}

/// The first `n` members, separated by commas.
pub open spec fn members_text(m: Seq<(Seq<char>, JsonView)>, n: int) -> Seq<char>
    decreases m, 1int, n,
{
    if n <= 0 || n > m.len() {
        Seq::empty()
    } else {
        members_text(m, n - 1) + (if n > 1 {
            ","@
        } else {
            Seq::empty()
        }) + quoted(m[n - 1].0) + ":"@ + json_text(m[n - 1].1)
    }
}

fn write_escaped(out: &mut String, s: &str)
    ensures
        final(out)@ == old(out)@ + escaped(s@),
{
    let ghost start = out@;
    let n = s.unicode_len();
    let mut i: usize = 0;
    proof {
        assert(s@.take(0) =~= Seq::<char>::empty());
        assert(start + Seq::<char>::empty() =~= start);
    }
    while i < n
        invariant
            n == s@.len(),
            i <= n,
            out@ == start + escaped(s@.take(i as int)),
        decreases n - i,
    {
        let c = s.get_char(i);
        let ghost before = out@;
        proof {
            assert(s@.take(i + 1).drop_last() =~= s@.take(i as int));
            assert(s@.take(i + 1).last() == c);
        }
        if c == '"' {
            out.append("\\\"");
        } else if c == '\\' {
            out.append("\\\\");
        } else if c == '\x08' {
            out.append("\\b");
        } else if c == '\t' {
            out.append("\\t");
        } else if c == '\n' {
            out.append("\\n");
        } else if c == '\x0c' {
            out.append("\\f");
        } else if c == '\r' {
            out.append("\\r");
        } else if (c as u32) < 0x20 {
            out.append("\\u00");
            out.append(hex_str((c as u32) / 16));
            out.append(hex_str((c as u32) % 16));
        } else {
            let one = s.substring_char(i, i + 1);
            assert(one@ =~= seq![c]);
            out.append(one);
        }
        proof {
            assert(out@ =~= before + escape_char(c));
            assert(start + escaped(s@.take(i + 1)) =~= start + escaped(s@.take(i as int)) + escape_char(c));
        }
        i = i + 1;
    }
    proof {
        assert(s@.take(n as int) =~= s@);
    }
}

fn write_quoted(out: &mut String, s: &str)
    ensures
        final(out)@ == old(out)@ + quoted(s@),
{
    let ghost start = out@;
    out.append("\"");
    write_escaped(out, s);
    out.append("\"");
    assert(out@ =~= start + quoted(s@));
}

/// Appends the JSON text of `v`.
#[verifier::loop_isolation(false)]
pub fn write_json(out: &mut String, v: &Json)
    ensures
        final(out)@ == old(out)@ + json_text(v@),
    decreases v,
{
    let ghost start = out@;
    match v {
        Json::Null => {
            out.append("null");
        },
        Json::Bool(b) => {
            if *b {
                out.append("true");
            } else {
                out.append("false");
            }
        },
        Json::Number(n) => {
            out.append(n.text.as_str());
        },
        Json::Text(s) => {
            write_quoted(out, s.as_str());
        },
        Json::Array(items) => {
            proof {
                lemma_view_items(items@);
            }
            let ghost iv = view_items(items@);
            assert(v@ == JsonView::Array(iv));
            out.append("[");
            let ghost open = out@;
            let mut i: usize = 0;
            assert(open + items_text(iv, 0) =~= open);
            while i < items.len()
                invariant
                    i <= items@.len(),
                    out@ == open + items_text(iv, i as int),
                decreases items@.len() - i,
            {
                let ghost before = out@;
                if i > 0 {
                    out.append(",");
                }
                let ghost mid = out@;
                write_json(out, &items[i]);
                proof {
                    assert(iv[i as int] == items@[i as int]@);
                    assert(out@ =~= before + (if i + 1 > 1 {
                        ","@
                    } else {
                        Seq::empty()
                    }) + json_text(iv[i as int]));
                    assert(open + items_text(iv, i + 1) =~= open + items_text(iv, i as int) + (if i + 1 > 1 {
                        ","@
                    } else {
                        Seq::empty()
                    }) + json_text(iv[i as int]));
                }
                i = i + 1;
            }
            out.append("]");
        },
        Json::Object(m) => {
            proof {
                lemma_view_members(m@);
            }
            let ghost mv = view_members(m@);
            assert(v@ == JsonView::Object(mv));
            out.append("{");
            let ghost open = out@;
            let mut i: usize = 0;
            assert(open + members_text(mv, 0) =~= open);
            while i < m.len()
                invariant
                    i <= m@.len(),
                    out@ == open + members_text(mv, i as int),
                decreases m@.len() - i,
            {
                let ghost before = out@;
                if i > 0 {
                    out.append(",");
                }
                write_quoted(out, m[i].0.as_str());
                out.append(":");
                write_json(out, &m[i].1);
                proof {
                    assert(mv[i as int] == (m@[i as int].0@, m@[i as int].1@));
                    assert(out@ =~= before + (if i + 1 > 1 {
                        ","@
                    } else {
                        Seq::empty()
                    }) + quoted(mv[i as int].0) + ":"@ + json_text(mv[i as int].1));
                    assert(open + members_text(mv, i + 1) =~= open + members_text(mv, i as int) + (if i + 1 > 1 {
                        ","@
                    } else {
                        Seq::empty()
                    }) + quoted(mv[i as int].0) + ":"@ + json_text(mv[i as int].1));
                }
                i = i + 1;
            }
            out.append("}");
        },
    }
}

/// The JSON text of a document.
pub fn to_json_text(v: &Json) -> (r: String)
    ensures
        r@ == json_text(v@),
{
    let mut out = String::new();
    write_json(&mut out, v);
    assert(out@ =~= json_text(v@));
    out
}

} // verus!
