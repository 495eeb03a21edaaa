//! Reading line-oriented text: lines, comments after `#`, trimming, words
//! separated by white space, decimal integers.

use vstd::prelude::*;
use crate::condition::{is_ws, ws, skip_ws, last_nonws, lemma_skip_ws, lemma_last_nonws, scan_ws, scan_last_nonws};

verus! {

// ------------------------------------------------------------------ lines

/// The pieces of `s` between `sep` characters.
pub open spec fn split_on(s: Seq<char>, sep: char) -> Seq<Seq<char>>
    decreases s.len(),
{
    if s.len() == 0 {
        seq![Seq::empty()]
    } else {
        let p = split_on(s.drop_last(), sep);
        if s.last() == sep {
            p.push(Seq::empty())
        } else {
            p.update(p.len() - 1, p.last().push(s.last()))
        }
    }
}

pub proof fn lemma_split_on_nonempty(s: Seq<char>, sep: char)
    ensures
        split_on(s, sep).len() >= 1,
    decreases s.len(),
{
    if s.len() > 0 {
        lemma_split_on_nonempty(s.drop_last(), sep);
    }
}

/// The pieces of `s` between `sep` characters.
pub fn split_chars(s: &Vec<char>, sep: char) -> (r: Vec<Vec<char>>)
    ensures
        r@.map_values(|p: Vec<char>| p@) == split_on(s@, sep),
{
    let mut r: Vec<Vec<char>> = Vec::new();
    r.push(Vec::new());
    assert(r@.map_values(|p: Vec<char>| p@) =~= split_on(s@.take(0), sep));
    for i in 0..s.len()
        invariant
            r@.map_values(|p: Vec<char>| p@) == split_on(s@.take(i as int), sep),
            r@.len() >= 1,
    {
        proof {
            lemma_split_on_nonempty(s@.take(i as int), sep);
        }
        assert(s@.take(i as int + 1).drop_last() =~= s@.take(i as int));
        let c = s[i];
        if c == sep {
            r.push(Vec::new());
            assert(r@.map_values(|p: Vec<char>| p@) =~= split_on(s@.take(i as int), sep).push(Seq::empty()));
        } else {
            let mut last = r.pop().unwrap();
            last.push(c);
            r.push(last);
            assert(r@.map_values(|p: Vec<char>| p@) =~= split_on(s@.take(i as int), sep).update(
                split_on(s@.take(i as int), sep).len() - 1,
                split_on(s@.take(i as int), sep).last().push(c),
            ));
        }
    }
    assert(s@.take(s@.len() as int) =~= s@);
    r
}

// ------------------------------------------------------------------ comments and trimming

/// The position of the first `c` at or after `i` (the length if none).
pub open spec fn find_char(s: Seq<char>, c: char, i: int) -> int
    decreases s.len() - i,
{
    if 0 <= i < s.len() && s[i] != c {
        find_char(s, c, i + 1)
    } else {
        i
    }
}

/// The text before the first `#`.
pub open spec fn before_hash(s: Seq<char>) -> Seq<char> {
    s.subrange(0, find_char(s, '#', 0))
}

proof fn lemma_find_char(s: Seq<char>, c: char, i: int)
    requires
        0 <= i <= s.len(),
    ensures
        i <= find_char(s, c, i) <= s.len(),
        find_char(s, c, i) < s.len() ==> s[find_char(s, c, i)] == c,
        forall|j: int| i <= j < find_char(s, c, i) ==> s[j] != c,
    decreases s.len() - i,
{
    if i < s.len() && s[i] != c {
        lemma_find_char(s, c, i + 1);
    }
}

/// The text before the first `c`.
pub open spec fn before_char(s: Seq<char>, c: char) -> Seq<char> {
    s.subrange(0, find_char(s, c, 0))
}

/// The text before the first `c`.
pub fn cut_at(s: &Vec<char>, c: char) -> (r: Vec<char>)
    ensures
        r@ == before_char(s@, c),
{
    let mut r: Vec<char> = Vec::new();
    let mut i: usize = 0;
    proof {
        lemma_find_char(s@, c, 0);
    }
    while i < s.len() && s[i] != c
        invariant
            i <= s@.len(),
            r@ == s@.subrange(0, i as int),
            find_char(s@, c, 0) == find_char(s@, c, i as int),
        decreases s@.len() - i,
    {
        r.push(s[i]);
        i = i + 1;
        assert(r@ =~= s@.subrange(0, i as int));
    }
    r
}

/// The text before the first `#`.
pub fn strip_comment(s: &Vec<char>) -> (r: Vec<char>)
    ensures
        r@ == before_hash(s@),
{
    cut_at(s, '#')
}

/// `s` without white space at either end.
pub open spec fn trim(s: Seq<char>) -> Seq<char> {
    let a = skip_ws(s, 0);
    let b = last_nonws(s, s.len() as int);
    if b < a {
        Seq::empty()
    } else {
        s.subrange(a, b + 1)
    }
}

proof fn lemma_last_nonws_char(s: Seq<char>, n: int)
    requires
        0 <= n <= s.len(),
    ensures
        -1 <= last_nonws(s, n) < n,
        last_nonws(s, n) >= 0 ==> !is_ws(s[last_nonws(s, n)]),
    decreases n,
{
    if n > 0 && is_ws(s[n - 1]) {
        lemma_last_nonws_char(s, n - 1);
    }
}

/// `s` without white space at its end.
pub open spec fn trim_end(s: Seq<char>) -> Seq<char> {
    s.subrange(0, last_nonws(s, s.len() as int) + 1)
}

/// `s` without white space at its end.
pub fn trim_end_chars(s: &Vec<char>) -> (r: Vec<char>)
    ensures
        r@ == trim_end(s@),
{
    proof {
        lemma_last_nonws_char(s@, s@.len() as int);
    }
    let e: usize = match scan_last_nonws(s) {
        None => 0,
        Some(b) => {
            assert(b < s.len());
            b + 1
        },
    };
    let mut r: Vec<char> = Vec::new();
    for k in 0..e
        invariant
            e <= s@.len(),
            r@ == s@.subrange(0, k as int),
    {
        r.push(s[k]);
        assert(r@ =~= s@.subrange(0, k as int + 1));
    }
    r
}

/// A trimmed text that is not empty ends in a character that is not white
/// space.
pub proof fn lemma_trim_last(s: Seq<char>)
    ensures
        trim(s).len() > 0 ==> !is_ws(trim(s).last()),
{
    lemma_last_nonws_char(s, s.len() as int);
    lemma_skip_ws(s, 0);
    if trim(s).len() > 0 {
        assert(trim(s).last() == s[last_nonws(s, s.len() as int)]);
    }
}

/// `s` without white space at either end.
pub fn trim_chars(s: &Vec<char>) -> (r: Vec<char>)
    ensures
        r@ == trim(s@),
{
    let n = s.len();
    let a = scan_ws(s, 0);
    proof {
        lemma_skip_ws(s@, 0);
    }
    match scan_last_nonws(s) {
        None => {
            Vec::new()
        },
        Some(b) => {
            if b < a {
                return Vec::new();
            }
            let mut r: Vec<char> = Vec::new();
            let mut i = a;
            while i <= b
                invariant
                    a <= i <= b + 1,
                    b < n,
                    n == s@.len(),
                    r@ == s@.subrange(a as int, i as int),
                decreases b + 1 - i,
            {
                r.push(s[i]);
                i = i + 1;
                assert(r@ =~= s@.subrange(a as int, i as int));
            }
            r
        },
    }
}

// ------------------------------------------------------------------ words

/// The words of `s`: its maximal runs of characters that are not white
/// space.
pub open spec fn words(s: Seq<char>) -> Seq<Seq<char>>
    decreases s.len(),
{
    if s.len() == 0 {
        Seq::empty()
    } else {
        let w = words(s.drop_last());
        let c = s.last();
        if is_ws(c) {
            w
        } else if s.len() >= 2 && !is_ws(s[s.len() - 2]) {
            w.update(w.len() - 1, w.last().push(c))
        } else {
            w.push(seq![c])
        }
    }
}

/// A text ending in a word character has at least one word.
pub proof fn lemma_words_nonempty(s: Seq<char>)
    requires
        s.len() >= 1,
        !is_ws(s.last()),
    ensures
        words(s).len() >= 1,
    decreases s.len(),
{
    if s.len() >= 2 && !is_ws(s[s.len() - 2]) {
        assert(s.drop_last().last() == s[s.len() - 2]);
        lemma_words_nonempty(s.drop_last());
    }
}

/// The words of `s`.
pub fn split_words(s: &Vec<char>) -> (r: Vec<Vec<char>>)
    ensures
        r@.map_values(|p: Vec<char>| p@) == words(s@),
{
    let mut r: Vec<Vec<char>> = Vec::new();
    assert(r@.map_values(|p: Vec<char>| p@) =~= words(s@.take(0)));
    for i in 0..s.len()
        invariant
            r@.map_values(|p: Vec<char>| p@) == words(s@.take(i as int)),
    {
        let ghost t = s@.take(i as int + 1);
        assert(t.drop_last() =~= s@.take(i as int));
        let c = s[i];
        if ws(c) {
        } else if i >= 1 && !ws(s[i - 1]) {
            assert(t[t.len() - 2] == s@[i - 1]);
            proof {
                lemma_words_nonempty(s@.take(i as int));
            }
            let mut last = r.pop().unwrap();
            last.push(c);
            r.push(last);
            assert(r@.map_values(|p: Vec<char>| p@) =~= words(s@.take(i as int)).update(
                words(s@.take(i as int)).len() - 1,
                words(s@.take(i as int)).last().push(c),
            ));
        } else {
            proof {
                if i >= 1 {
                    assert(t[t.len() - 2] == s@[i - 1]);
                }
            }
            let mut w: Vec<char> = Vec::new();
            w.push(c);
            r.push(w);
            assert(r@.map_values(|p: Vec<char>| p@) =~= words(s@.take(i as int)).push(seq![c]));
        }
    }
    assert(s@.take(s@.len() as int) =~= s@);
    r
}

// ------------------------------------------------------------------ integers

pub open spec fn is_digit(c: char) -> bool {
    '0' <= c && c <= '9'
}

/// The value of a run of decimal digits.
pub open spec fn digits_value(d: Seq<char>) -> nat
    decreases d.len(),
{
    if d.len() == 0 {
        0
    } else {
        digits_value(d.drop_last()) * 10 + ((d.last() as int) - ('0' as int)) as nat
    }
}

/// The digits after an optional sign.
pub open spec fn unsigned_part(t: Seq<char>) -> Seq<char> {
    if t.len() > 0 && (t[0] == '-' || t[0] == '+') {
        t.drop_first()
    } else {
        t
    }
}

/// A 32-bit integer written in decimal with an optional sign, as `i32`'s
/// `from_str` reads it.
pub open spec fn parse_i32(t: Seq<char>) -> Option<i32> {
    let d = unsigned_part(t);
    if d.len() == 0 || !(forall|i: int| 0 <= i < d.len() ==> is_digit(#[trigger] d[i])) {
        None
    } else {
        let v: int = if t[0] == '-' { -(digits_value(d) as int) } else { digits_value(d) as int };
        if i32::MIN <= v <= i32::MAX {
            Some(v as i32)
        } else {
            None
        }
    }
}

/// Reads a 32-bit integer written in decimal with an optional sign.
pub fn read_i32(t: &Vec<char>) -> (r: Option<i32>)
    ensures
        r == parse_i32(t@),
{
    let n = t.len();
    let mut start: usize = 0;
    let mut neg = false;
    if n > 0 && (t[0] == '-' || t[0] == '+') {
        neg = t[0] == '-';
        start = 1;
    }
    let ghost d = unsigned_part(t@);
    assert(d =~= t@.subrange(start as int, n as int));
    if start == n {
        return None;
    }
    let mut k = start;
    while k < n
        invariant
            start <= k <= n,
            n == t@.len(),
            d == t@.subrange(start as int, n as int),
            d == unsigned_part(t@),
            neg == (t@.len() > 0 && t@[0] == '-'),
            forall|q: int| start <= q < k ==> is_digit(#[trigger] t@[q]),
        decreases n - k,
    {
        if !('0' <= t[k] && t[k] <= '9') {
            assert(!is_digit(d[k - start]));
            return None;
        }
        k = k + 1;
    }
    assert forall|q: int| 0 <= q < d.len() implies is_digit(#[trigger] d[q]) by {
        assert(d[q] == t@[start + q]);
    }
    let mut v: u64 = 0;
    let mut i = start;
    while i < n
        invariant
            start <= i <= n,
            n == t@.len(),
            d == t@.subrange(start as int, n as int),
            d == unsigned_part(t@),
            neg == (t@.len() > 0 && t@[0] == '-'),
            forall|q: int| 0 <= q < d.len() ==> is_digit(#[trigger] d[q]),
            v == digits_value(t@.subrange(start as int, i as int)),
            v <= 0x8000_0000,
        decreases n - i,
    {
        let c = t[i];
        assert(c == d[i - start]);
        let dv = (c as u64) - ('0' as u64);
        assert(t@.subrange(start as int, i as int + 1).drop_last() =~= t@.subrange(start as int, i as int));
        let nv = v * 10 + dv;
        i = i + 1;
        if nv > 0x8000_0000 {
            proof {
                lemma_digits_grow(d, i - start);
                assert(d.subrange(0, i - start) =~= t@.subrange(start as int, i as int));
            }
            return None;
        }
        v = nv;
    }
    assert(t@.subrange(start as int, n as int) =~= d);
    if neg {
        if v == 0x8000_0000 {
            Some(i32::MIN)
        } else {
            Some(-(v as i32))
        }
    } else {
        if v >= 0x8000_0000 {
            None
        } else {
            Some(v as i32)
        }
    }
}

/// A longer run of digits has at least the value of its prefix.
proof fn lemma_digits_grow(d: Seq<char>, k: int)
    requires
        0 <= k <= d.len(),
        forall|i: int| 0 <= i < d.len() ==> is_digit(#[trigger] d[i]),
    ensures
        digits_value(d) >= digits_value(d.subrange(0, k)),
    decreases d.len(),
{
    if k < d.len() {
        assert(d.drop_last() =~= d.subrange(0, d.len() - 1));
        assert forall|i: int| 0 <= i < d.drop_last().len() implies is_digit(#[trigger] d.drop_last()[i]) by {
            assert(d.drop_last()[i] == d[i]);
        }
        lemma_digits_grow(d.drop_last(), k);
        assert(d.drop_last().subrange(0, k) =~= d.subrange(0, k));
    } else {
        assert(d.subrange(0, k) =~= d);
    }
}

/// A 64-bit integer written in decimal with an optional sign, as `i64`'s
/// `from_str` reads it.
pub open spec fn parse_i64(t: Seq<char>) -> Option<i64> {
    let d = unsigned_part(t);
    if d.len() == 0 || !(forall|i: int| 0 <= i < d.len() ==> is_digit(#[trigger] d[i])) {
        None
    } else {
        let v: int = if t[0] == '-' { -(digits_value(d) as int) } else { digits_value(d) as int };
        if i64::MIN <= v <= i64::MAX {
            Some(v as i64)
        } else {
            None
        }
    }
}

/// Reads a 64-bit integer written in decimal with an optional sign.
pub fn read_i64(t: &Vec<char>) -> (r: Option<i64>)
    ensures
        r == parse_i64(t@),
{
    let n = t.len();
    let mut start: usize = 0;
    let mut neg = false;
    if n > 0 && (t[0] == '-' || t[0] == '+') {
        neg = t[0] == '-';
        start = 1;
    }
    let ghost d = unsigned_part(t@);
    assert(d =~= t@.subrange(start as int, n as int));
    if start == n {
        return None;
    }
    let mut k = start;
    while k < n
        invariant
            start <= k <= n,
            n == t@.len(),
            d == t@.subrange(start as int, n as int),
            d == unsigned_part(t@),
            neg == (t@.len() > 0 && t@[0] == '-'),
            forall|q: int| start <= q < k ==> is_digit(#[trigger] t@[q]),
        decreases n - k,
    {
        if !('0' <= t[k] && t[k] <= '9') {
            assert(!is_digit(d[k - start]));
            return None;
        }
        k = k + 1;
    }
    assert forall|q: int| 0 <= q < d.len() implies is_digit(#[trigger] d[q]) by {
        assert(d[q] == t@[start + q]);
    }
    let mut v: u128 = 0;
    let mut i = start;
    while i < n
        invariant
            start <= i <= n,
            n == t@.len(),
            d == t@.subrange(start as int, n as int),
            d == unsigned_part(t@),
            neg == (t@.len() > 0 && t@[0] == '-'),
            forall|q: int| 0 <= q < d.len() ==> is_digit(#[trigger] d[q]),
            v == digits_value(t@.subrange(start as int, i as int)),
            v <= 0x8000_0000_0000_0000,
        decreases n - i,
    {
        let c = t[i];
        assert(c == d[i - start]);
        let dv = (c as u128) - ('0' as u128);
        assert(t@.subrange(start as int, i as int + 1).drop_last() =~= t@.subrange(start as int, i as int));
        let nv = v * 10 + dv;
        i = i + 1;
        if nv > 0x8000_0000_0000_0000 {
            proof {
                lemma_digits_grow(d, i - start);
                assert(d.subrange(0, i - start) =~= t@.subrange(start as int, i as int));
            }
            return None;
        }
        v = nv;
    }
    assert(t@.subrange(start as int, n as int) =~= d);
    if neg {
        if v == 0x8000_0000_0000_0000 {
            Some(i64::MIN)
        } else {
            Some(-(v as i64))
        }
    } else {
        if v >= 0x8000_0000_0000_0000 {
            None
        } else {
            Some(v as i64)
        }
    }
}

} // verus!
