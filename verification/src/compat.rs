//! Quoted text: a string in single quotes with backslash escapes.

use vstd::prelude::*;
use crate::text::{chars_of, digit};

verus! {

/// A lowercase hexadecimal digit for `d < 16`.
pub open spec fn hex_char(d: nat) -> char {
    if d < 10 {
        crate::text::digit_char(d)
    } else if d == 10 {
        'a'
    } else if d == 11 {
        'b'
    } else if d == 12 {
        'c'
    } else if d == 13 {
        'd'
    } else if d == 14 {
        'e'
    } else {
        'f'
    }
}

/// How `repr()` writes one character inside single quotes.
pub open spec fn escape_char(c: char) -> Seq<char> {
    if c == '\'' {
        seq!['\\', '\'']
    } else if c == '\\' {
        seq!['\\', '\\']
    } else if c == '\n' {
        seq!['\\', 'n']
    } else if c == '\r' {
        seq!['\\', 'r']
    } else if c == '\t' {
        seq!['\\', 't']
    } else if (c as u32) < 0x20 || (c as u32) == 0x7f {
        seq!['\\', 'x', hex_char(((c as u32) / 16) as nat), hex_char(((c as u32) % 16) as nat)]
    } else {
        seq![c]
    }
}

/// The escaped characters of `s`.
pub open spec fn escape_seq(s: Seq<char>) -> Seq<char>
    decreases s.len(),
{
    if s.len() == 0 {
        Seq::empty()
    } else {
        escape_seq(s.drop_last()) + escape_char(s.last())
    }
}

/// A string quoted: in single quotes, with escapes.
pub open spec fn repr_text(s: Seq<char>) -> Seq<char> {
    seq!['\''] + escape_seq(s) + seq!['\'']
}

pub fn hex_digit(d: u32) -> (c: char)
    requires
        d < 16,
    ensures
        c == hex_char(d as nat),
{
    if d < 10 {
        digit(d as u64)
    } else if d == 10 {
        'a'
    } else if d == 11 {
        'b'
    } else if d == 12 {
        'c'
    } else if d == 13 {
        'd'
    } else if d == 14 {
        'e'
    } else {
        'f'
    }
}

/// Appends the escaped form of `c`.
fn push_escaped(out: &mut String, c: char)
    ensures
        final(out)@ == old(out)@ + escape_char(c),
{
    if c == '\'' {
        out.push('\\');
        out.push('\'');
    } else if c == '\\' {
        out.push('\\');
        out.push('\\');
    } else if c == '\n' {
        out.push('\\');
        out.push('n');
    } else if c == '\r' {
        out.push('\\');
        out.push('r');
    } else if c == '\t' {
        out.push('\\');
        out.push('t');
    } else if (c as u32) < 0x20 || (c as u32) == 0x7f {
        out.push('\\');
        out.push('x');
        out.push(hex_digit((c as u32) / 16));
        out.push(hex_digit((c as u32) % 16));
    } else {
        out.push(c);
    }
    assert(final(out)@ =~= old(out)@ + escape_char(c));
}

/// The value of a lowercase hexadecimal digit.
pub open spec fn hex_value(c: char) -> int {
    if '0' <= c <= '9' {
        (c as int) - ('0' as int)
    } else {
        (c as int) - ('a' as int) + 10
    }
}

/// The text an escaped text stands for: `\n`, `\r`, `\t` and `\xHH` stand
/// for the characters they name, a backslash before any other character for
/// that character.
pub open spec fn unescape(t: Seq<char>) -> Seq<char>
    decreases t.len(),
{
    if t.len() == 0 {
        Seq::empty()
    } else if t[0] == '\\' && t.len() >= 2 {
        let e = t[1];
        if e == 'x' && t.len() >= 4 {
            seq![(hex_value(t[2]) * 16 + hex_value(t[3])) as char] + unescape(t.skip(4))
        } else {
            seq![if e == 'n' { '\n' } else if e == 'r' { '\r' } else if e == 't' { '\t' } else { e }] + unescape(t.skip(2))
        }
    } else {
        seq![t[0]] + unescape(t.skip(1))
    }
}

/// A character written as itself: not a control character.
pub open spec fn printable(c: char) -> bool {
    (c as u32) >= 0x20 && (c as u32) != 0x7f
}

proof fn lemma_hex_value(d: nat)
    requires
        d < 16,
    ensures
        hex_value(hex_char(d)) == d,
        printable(hex_char(d)),
{
}

proof fn lemma_escape_concat(a: Seq<char>, b: Seq<char>)
    ensures
        escape_seq(a + b) == escape_seq(a) + escape_seq(b),
    decreases b.len(),
{
    if b.len() == 0 {
        assert(a + b =~= a);
        assert(escape_seq(a) + escape_seq(b) =~= escape_seq(a));
    } else {
        lemma_escape_concat(a, b.drop_last());
        assert((a + b).drop_last() =~= a + b.drop_last());
        assert((a + b).last() == b.last());
    }
}

proof fn lemma_unescape_one(c: char, r: Seq<char>)
    ensures
        unescape(escape_char(c) + r) == seq![c] + unescape(r),
        forall|i: int| 0 <= i < escape_char(c).len() ==> printable(#[trigger] escape_char(c)[i]),
{
    let t = escape_char(c) + r;
    let n = escape_char(c).len() as int;
    assert(t.skip(n) =~= r);
    if c != '\'' && c != '\\' && c != '\n' && c != '\r' && c != '\t' && ((c as u32) < 0x20 || (c as u32) == 0x7f) {
        let v = c as u32;
        lemma_hex_value((v / 16) as nat);
        lemma_hex_value((v % 16) as nat);
        assert(hex_value(t[2]) * 16 + hex_value(t[3]) == v);
    }
}

/// Unescaping the quoted form of a text gives the text back: the form is in
/// single quotes, at least two characters longer than the text, and holds
/// no control character between them.
pub proof fn lemma_repr_round_trip(s: Seq<char>)
    ensures
        repr_text(s)[0] == '\'',
        repr_text(s).last() == '\'',
        repr_text(s).len() >= s.len() + 2,
        unescape(repr_text(s).subrange(1, repr_text(s).len() - 1)) == s,
        forall|i: int| 0 <= i < repr_text(s).len() ==> printable(#[trigger] repr_text(s)[i]),
    decreases s.len(),
{
    let r = repr_text(s);
    let e = escape_seq(s);
    assert(r.subrange(1, r.len() - 1) =~= e);
    if s.len() == 0 {
        assert(e =~= Seq::<char>::empty());
        assert(r =~= seq!['\'', '\'']);
    } else {
        let rest = s.drop_first();
        lemma_repr_round_trip(rest);
        assert(s =~= seq![s[0]] + rest);
        lemma_escape_concat(seq![s[0]], rest);
        assert(seq![s[0]].drop_last() =~= Seq::<char>::empty());
        assert(escape_seq(seq![s[0]].drop_last()) =~= Seq::<char>::empty());
        assert(seq![s[0]].last() == s[0]);
        assert(escape_seq(seq![s[0]]) =~= escape_char(s[0]));
        let er = escape_seq(rest);
        assert(e == escape_char(s[0]) + er);
        lemma_unescape_one(s[0], er);
        assert(repr_text(rest).subrange(1, repr_text(rest).len() - 1) =~= er);
        assert forall|i: int| 0 <= i < r.len() implies printable(#[trigger] r[i]) by {
            let n = escape_char(s[0]).len() as int;
            if 1 <= i < 1 + n {
                assert(r[i] == escape_char(s[0])[i - 1]);
            } else if 1 + n <= i < r.len() - 1 {
                assert(r[i] == repr_text(rest)[i - n]);
            }
        }
    }
}

/// A string quoted: `'name'`, `'a\'b'`.
pub fn repr_str(s: &str) -> (r: String)
    ensures
        r@ == repr_text(s@),
{
    let cs = chars_of(s);
    let mut out = String::new();
    out.push('\'');
    for i in 0..cs.len()
        invariant
            cs@ == s@,
            out@ == seq!['\''] + escape_seq(s@.take(i as int)),
    {
        push_escaped(&mut out, cs[i]);
        assert(s@.take(i as int + 1).drop_last() == s@.take(i as int));
    }
    out.push('\'');
    assert(s@.take(cs.len() as int) == s@);
    out
}

} // verus!
