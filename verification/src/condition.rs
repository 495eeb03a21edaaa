//! MapCSS conditions: the condition value, its tag, its text form, and the
//! parser of condition texts such as `highway=primary`, `!name` or
//! `ref=~/^M\d+$/`.
//!
//! The parser recognizes, in this order: `k?`, `!k?`, `k=no`, `k`, `!k`,
//! `k!=v`, `k<=v`, `k>=v`, `k<v`, `k>v`, `k=~/v/` and `k=v`, where a key is a
//! run of word characters and colons (and dashes for `k`), white space may
//! surround the parts, and a value runs to the end of the text.

use vstd::prelude::*;
use vstd::string::StringExecFns;
use crate::text::{chars_of, str_to_string, push_str, clone_strings};

verus! {

// ------------------------------------------------------------------ character classes

/// The characters outside ASCII that have the Unicode `White_Space`
/// property, which `char::is_whitespace` and the regular-expression class
/// `\s` test.
pub open spec fn white_space(c: char) -> bool {
    c == '\u{85}' || c == '\u{A0}' || c == '\u{1680}' || ('\u{2000}' <= c && c <= '\u{200A}') || c == '\u{2028}'
        || c == '\u{2029}' || c == '\u{202F}' || c == '\u{205F}' || c == '\u{3000}'
}

/// Whether the Unicode regular-expression class `\w` holds a character.
pub uninterp spec fn word_char(c: char) -> bool;

/// Asks the `regex` crate whether `\w` matches a character.
#[verifier::external_body]
fn regex_word_char(c: char) -> (r: bool)
    ensures
        r == word_char(c),
{
    let mut buf = [0u8; 4];
    regex::Regex::new(r"^\w$").unwrap().is_match(c.encode_utf8(&mut buf))
}

/// White space: the ASCII tab, line feed, vertical tab, form feed, carriage
/// return and space, and the other `White_Space` characters.
pub open spec fn is_ws(c: char) -> bool {
    if (c as u32) < 128 {
        c == ' ' || ('\t' <= c && c <= '\r')
    } else {
        white_space(c)
    }
}

/// Word characters: ASCII letters, digits and `_`, and the other `\w`
/// characters.
pub open spec fn is_word(c: char) -> bool {
    if (c as u32) < 128 {
        ('0' <= c && c <= '9') || ('a' <= c && c <= 'z') || ('A' <= c && c <= 'Z') || c == '_'
    } else {
        word_char(c)
    }
}

/// Characters of a key: word characters and `:` (and `-` when `dash`).
pub open spec fn is_key(c: char, dash: bool) -> bool {
    c == ':' || (dash && c == '-') || is_word(c)
}

pub fn ws(c: char) -> (r: bool)
    ensures
        r == is_ws(c),
{
    if (c as u32) < 128 {
        c == ' ' || ('\t' <= c && c <= '\r')
    } else {
        c == '\u{85}' || c == '\u{A0}' || c == '\u{1680}' || ('\u{2000}' <= c && c <= '\u{200A}') || c == '\u{2028}'
            || c == '\u{2029}' || c == '\u{202F}' || c == '\u{205F}' || c == '\u{3000}'
    }
}

/// Whether `c` is a word character.
pub fn word(c: char) -> (r: bool)
    ensures
        r == is_word(c),
{
    if (c as u32) < 128 {
        ('0' <= c && c <= '9') || ('a' <= c && c <= 'z') || ('A' <= c && c <= 'Z') || c == '_'
    } else {
        regex_word_char(c)
    }
}

fn key_char(c: char, dash: bool) -> (r: bool)
    ensures
        r == is_key(c, dash),
{
    if c == ':' || (dash && c == '-') {
        return true;
    }
    if (c as u32) < 128 {
        ('0' <= c && c <= '9') || ('a' <= c && c <= 'z') || ('A' <= c && c <= 'Z') || c == '_'
    } else {
        regex_word_char(c)
    }
}

// ------------------------------------------------------------------ scanning

/// The first position at or after `i` that is not white space.
pub open spec fn skip_ws(s: Seq<char>, i: int) -> int
    decreases s.len() - i,
{
    if 0 <= i < s.len() && is_ws(s[i]) {
        skip_ws(s, i + 1)
    } else {
        i
    }
}

/// The first position at or after `i` that is not a key character.
pub open spec fn skip_key(s: Seq<char>, i: int, dash: bool) -> int
    decreases s.len() - i,
{
    if 0 <= i < s.len() && is_key(s[i], dash) {
        skip_key(s, i + 1, dash)
    } else {
        i
    }
}

/// The position of the last character that is not white space (`-1` if none).
pub open spec fn last_nonws(s: Seq<char>, n: int) -> int
    decreases n,
{
    if n <= 0 {
        -1
    } else if !is_ws(s[n - 1]) {
        n - 1
    } else {
        last_nonws(s, n - 1)
    }
}

pub fn scan_ws(s: &Vec<char>, i: usize) -> (r: usize)
    requires
        i <= s@.len(),
    ensures
        r == skip_ws(s@, i as int),
        i <= r <= s@.len(),
{
    let mut j = i;
    while j < s.len() && ws(s[j])
        invariant
            i <= j <= s@.len(),
            skip_ws(s@, i as int) == skip_ws(s@, j as int),
        decreases s@.len() - j,
    {
        j = j + 1;
    }
    j
}

fn scan_key(s: &Vec<char>, i: usize, dash: bool) -> (r: usize)
    requires
        i <= s@.len(),
    ensures
        r == skip_key(s@, i as int, dash),
        i <= r <= s@.len(),
{
    let mut j = i;
    while j < s.len() && key_char(s[j], dash)
        invariant
            i <= j <= s@.len(),
            skip_key(s@, i as int, dash) == skip_key(s@, j as int, dash),
        decreases s@.len() - j,
    {
        j = j + 1;
    }
    j
}

/// The position of the last character that is not white space.
pub fn scan_last_nonws(s: &Vec<char>) -> (r: Option<usize>)
    ensures
        match r {
            Some(q) => q as int == last_nonws(s@, s@.len() as int) && q < s@.len(),
            None => last_nonws(s@, s@.len() as int) == -1,
        },
{
    let mut n = s.len();
    while n > 0 && ws(s[n - 1])
        invariant
            n <= s@.len(),
            last_nonws(s@, s@.len() as int) == last_nonws(s@, n as int),
        decreases n,
    {
        n = n - 1;
    }
    if n == 0 {
        None
    } else {
        Some(n - 1)
    }
}

// ------------------------------------------------------------------ the patterns

/// Leading white space, a key, white space: the key's bounds.
pub open spec fn key_at(s: Seq<char>, i: int, dash: bool) -> Option<(int, int)> {
    let a = skip_ws(s, i);
    let b = skip_key(s, a, dash);
    if b > a {
        Some((a, b))
    } else {
        None
    }
}

/// `s` holds `w` at `i`.
pub open spec fn has_at(s: Seq<char>, i: int, w: Seq<char>) -> bool {
    0 <= i && i + w.len() <= s.len() && s.subrange(i, i + w.len()) == w
}

/// A value that runs from white space after `i` to the end (a value made of
/// white space alone keeps its last character).
pub open spec fn tail(s: Seq<char>, i: int) -> Option<Seq<char>> {
    let j = skip_ws(s, i);
    if j < s.len() {
        Some(s.subrange(j, s.len() as int))
    } else if j > i {
        Some(s.subrange(s.len() - 1, s.len() as int))
    } else {
        None
    }
}

/// A value between white space after `i` and a final `/` (only white space
/// may follow it).
pub open spec fn slashed_tail(s: Seq<char>, i: int) -> Option<Seq<char>> {
    let j = skip_ws(s, i);
    let q = last_nonws(s, s.len() as int);
    if j < s.len() && s[q] == '/' {
        if q > j {
            Some(s.subrange(j, q))
        } else if j > i {
            Some(s.subrange(j - 1, q))
        } else {
            None
        }
    } else {
        None
    }
}

/// `k?` (with `!` first when `neg`): the key.
pub open spec fn match_question(s: Seq<char>, neg: bool) -> Option<Seq<char>> {
    let i = if neg { skip_ws(s, 0) + 1 } else { 0 };
    if neg && !(skip_ws(s, 0) < s.len() && s[skip_ws(s, 0)] == '!') {
        None
    } else {
        match key_at(s, i, false) {
            Some((a, b)) => {
                let c = skip_ws(s, b);
                if c < s.len() && s[c] == '?' && skip_ws(s, c + 1) == s.len() {
                    Some(s.subrange(a, b))
                } else {
                    None
                }
            },
            None => None,
        }
    }
}

/// `k=no` in any case: the key.
pub open spec fn match_no(s: Seq<char>) -> Option<Seq<char>> {
    match key_at(s, 0, false) {
        Some((a, b)) => {
            let c = skip_ws(s, b);
            let d = skip_ws(s, c + 1);
            if c < s.len() && s[c] == '=' && d + 2 <= s.len() && (s[d] == 'n' || s[d] == 'N') && (s[d + 1] == 'o'
                || s[d + 1] == 'O') && skip_ws(s, d + 2) == s.len() {
                Some(s.subrange(a, b))
            } else {
                None
            }
        },
        None => None,
    }
}

/// `k` (dashes allowed): the key.
pub open spec fn match_set(s: Seq<char>) -> Option<Seq<char>> {
    match key_at(s, 0, true) {
        Some((a, b)) => if skip_ws(s, b) == s.len() {
            Some(s.subrange(a, b))
        } else {
            None
        },
        None => None,
    }
}

/// `!k`: the key.
pub open spec fn match_unset(s: Seq<char>) -> Option<Seq<char>> {
    let a = skip_ws(s, 0);
    if a < s.len() && s[a] == '!' {
        let b = skip_key(s, a + 1, false);
        if b > a + 1 && skip_ws(s, b) == s.len() {
            Some(s.subrange(a + 1, b))
        } else {
            None
        }
    } else {
        None
    }
}

/// `k op v`: the key and the value.
pub open spec fn match_op(s: Seq<char>, op: Seq<char>) -> Option<(Seq<char>, Seq<char>)> {
    match key_at(s, 0, false) {
        Some((a, b)) => {
            let c = skip_ws(s, b);
            if has_at(s, c, op) {
                match tail(s, c + op.len()) {
                    Some(v) => Some((s.subrange(a, b), v)),
                    None => None,
                }
            } else {
                None
            }
        },
        None => None,
    }
}

/// `k=~/v/`: the key and the pattern.
pub open spec fn match_regex(s: Seq<char>) -> Option<(Seq<char>, Seq<char>)> {
    match key_at(s, 0, false) {
        Some((a, b)) => {
            let c = skip_ws(s, b);
            if has_at(s, c, "=~/"@) {
                match slashed_tail(s, c + 3) {
                    Some(v) => Some((s.subrange(a, b), v)),
                    None => None,
                }
            } else {
                None
            }
        },
        None => None,
    }
}

// ------------------------------------------------------------------ conditions

/// The result of testing a condition against tags.
#[derive(Debug, Clone, PartialEq, Eq)]
pub enum CondResult {
    Bool(bool),
    Subpart(String),
}

/// A MapCSS condition: its type (`eq`, `ne`, `regex`, `true`, `untrue`,
/// `set`, `unset`, `<`, `<=`, `>`, `>=`, ...), its parameters, and for
/// `regex` the pattern.
#[derive(Debug, Clone, PartialEq, Eq)]
pub struct Condition {
    pub typ: String,
    pub params: Vec<String>,
    pub regex: Option<String>,
}

pub ghost struct ConditionView {
    pub typ: Seq<char>,
    pub params: Seq<Seq<char>>,
    pub regex: Option<Seq<char>>,
}

impl View for Condition {
    type V = ConditionView;

    open spec fn view(&self) -> ConditionView {
        ConditionView {
            typ: self.typ@,
            params: self.params@.map_values(|p: String| p@),
            regex: match self.regex {
                Some(r) => Some(r@),
                None => None,
            },
        }
    }
}

/// The condition of a type and parameters.
pub open spec fn condition_of(typ: Seq<char>, params: Seq<Seq<char>>) -> ConditionView {
    ConditionView { typ, params, regex: if typ == "regex"@ { Some(params[1]) } else { None } }
}

/// The two parameters of a matched key and value.
pub open spec fn pair_params(m: (Seq<char>, Seq<char>)) -> Seq<Seq<char>> {
    seq![m.0, m.1]
}

/// The condition a text denotes, if any.
pub open spec fn parsed_condition(s: Seq<char>) -> Option<ConditionView> {
    if match_question(s, false) is Some {
        Some(condition_of("true"@, seq![match_question(s, false)->0]))
    } else if match_question(s, true) is Some {
        Some(condition_of("ne"@, seq![match_question(s, true)->0, "yes"@]))
    } else if match_no(s) is Some {
        Some(condition_of("false"@, seq![match_no(s)->0]))
    } else if match_set(s) is Some {
        Some(condition_of("set"@, seq![match_set(s)->0]))
    } else if match_unset(s) is Some {
        Some(condition_of("unset"@, seq![match_unset(s)->0]))
    } else if match_op(s, "!="@) is Some {
        Some(condition_of("ne"@, pair_params(match_op(s, "!="@)->0)))
    } else if match_op(s, "<="@) is Some {
        Some(condition_of("<="@, pair_params(match_op(s, "<="@)->0)))
    } else if match_op(s, ">="@) is Some {
        Some(condition_of(">="@, pair_params(match_op(s, ">="@)->0)))
    } else if match_op(s, "<"@) is Some {
        Some(condition_of("<"@, pair_params(match_op(s, "<"@)->0)))
    } else if match_op(s, ">"@) is Some {
        Some(condition_of(">"@, pair_params(match_op(s, ">"@)->0)))
    } else if match_regex(s) is Some {
        Some(condition_of("regex"@, pair_params(match_regex(s)->0)))
    } else if match_op(s, "="@) is Some {
        Some(condition_of("eq"@, pair_params(match_op(s, "="@)->0)))
    } else {
        None
    }
}

impl Condition {
    /// A condition of the given type; a `regex` condition keeps its second
    /// parameter as its pattern.
    pub fn new(typ: &str, params: Vec<String>) -> (r: Condition)
        requires
            typ@ == "regex"@ ==> params@.len() >= 2,
        ensures
            r@ == condition_of(typ@, params@.map_values(|p: String| p@)),
    {
        let is_regex = str_eq(typ, "regex");
        let regex = if is_regex {
            Some(params[1].clone())
        } else {
            None
        };
        Condition { typ: str_to_string(typ), params, regex }
    }

    /// The tag a condition is about: `*` for `::`-parameters and regexes.
    pub fn extract_tag(&self) -> (r: String)
        requires
            self@.params.len() >= 1,
        ensures
            r@ == tag_of(self@),
    {
        let p0 = chars_of(self.params[0].as_str());
        let sub = p0.len() >= 2 && p0[0] == ':' && p0[1] == ':';
        assert(sub == starts_with(self@.params[0], "::"@)) by {
            reveal_strlit("::");
            if sub {
                assert(self@.params[0].subrange(0, 2) =~= "::"@);
            }
            if starts_with(self@.params[0], "::"@) {
                assert(self@.params[0].subrange(0, 2)[0] == ':');
                assert(self@.params[0].subrange(0, 2)[1] == ':');
            }
        }
        if sub || str_eq(self.typ.as_str(), "regex") {
            String::from_str("*")
        } else {
            self.params[0].clone()
        }
    }
}

/// `s` starts with `w`.
pub open spec fn starts_with(s: Seq<char>, w: Seq<char>) -> bool {
    s.len() >= w.len() && s.subrange(0, w.len() as int) == w
}

/// The tag a condition is about.
pub open spec fn tag_of(c: ConditionView) -> Seq<char> {
    if starts_with(c.params[0], "::"@) || c.typ == "regex"@ {
        "*"@
    } else {
        c.params[0]
    }
}

/// Equality of two strings.
pub fn str_eq(a: &str, b: &str) -> (r: bool)
    ensures
        r == (a@ == b@),
{
    let x = chars_of(a);
    let y = chars_of(b);
    if x.len() != y.len() {
        return false;
    }
    for i in 0..x.len()
        invariant
            x@ == a@,
            y@ == b@,
            x@.len() == y@.len(),
            forall|j: int| 0 <= j < i ==> x@[j] == y@[j],
    {
        if x[i] != y[i] {
            return false;
        }
    }
    assert(a@ =~= b@);
    true
}


// ------------------------------------------------------------------ matching

/// The span `(a, b)` of `s` agrees with an optional matched text.
pub open spec fn span_is(s: Seq<char>, r: Option<(usize, usize)>, m: Option<Seq<char>>) -> bool {
    match m {
        Some(k) => match r {
            Some((a, b)) => a <= b <= s.len() && s.subrange(a as int, b as int) == k,
            None => false,
        },
        None => r is None,
    }
}

/// The two spans agree with an optional matched key and value.
pub open spec fn spans_are(s: Seq<char>, r: Option<(usize, usize, usize, usize)>, m: Option<(Seq<char>, Seq<char>)>) -> bool {
    match m {
        Some((k, v)) => match r {
            Some((a, b, x, y)) => a <= b <= s.len() && x <= y <= s.len() && s.subrange(a as int, b as int) == k
                && s.subrange(x as int, y as int) == v,
            None => false,
        },
        None => r is None,
    }
}

fn find_key(s: &Vec<char>, i: usize, dash: bool) -> (r: Option<(usize, usize)>)
    requires
        i <= s@.len(),
    ensures
        match key_at(s@, i as int, dash) {
            Some((a, b)) => r == Some((a as usize, b as usize)) && a <= b <= s@.len(),
            None => r is None,
        },
{
    let a = scan_ws(s, i);
    let b = scan_key(s, a, dash);
    if b > a {
        Some((a, b))
    } else {
        None
    }
}

fn find_question(s: &Vec<char>, neg: bool) -> (r: Option<(usize, usize)>)
    ensures
        span_is(s@, r, match_question(s@, neg)),
{
    let mut i: usize = 0;
    if neg {
        let a = scan_ws(s, 0);
        if !(a < s.len() && s[a] == '!') {
            return None;
        }
        i = a + 1;
    }
    match find_key(s, i, false) {
        Some((a, b)) => {
            let c = scan_ws(s, b);
            if c < s.len() && s[c] == '?' && scan_ws(s, c + 1) == s.len() {
                Some((a, b))
            } else {
                None
            }
        },
        None => None,
    }
}

fn find_no(s: &Vec<char>) -> (r: Option<(usize, usize)>)
    ensures
        span_is(s@, r, match_no(s@)),
{
    match find_key(s, 0, false) {
        Some((a, b)) => {
            let c = scan_ws(s, b);
            if c < s.len() && s[c] == '=' {
                let d = scan_ws(s, c + 1);
                if d < s.len() && s.len() - d >= 2 && (s[d] == 'n' || s[d] == 'N') && (s[d + 1] == 'o' || s[d + 1] == 'O') && scan_ws(
                    s,
                    d + 2,
                ) == s.len() {
                    return Some((a, b));
                }
            }
            None
        },
        None => None,
    }
}

fn find_set(s: &Vec<char>) -> (r: Option<(usize, usize)>)
    ensures
        span_is(s@, r, match_set(s@)),
{
    match find_key(s, 0, true) {
        Some((a, b)) => if scan_ws(s, b) == s.len() {
            Some((a, b))
        } else {
            None
        },
        None => None,
    }
}

fn find_unset(s: &Vec<char>) -> (r: Option<(usize, usize)>)
    ensures
        span_is(s@, r, match_unset(s@)),
{
    let a = scan_ws(s, 0);
    if a < s.len() && s[a] == '!' {
        let b = scan_key(s, a + 1, false);
        if b > a + 1 && scan_ws(s, b) == s.len() {
            return Some((a + 1, b));
        }
    }
    None
}

fn holds_at(s: &Vec<char>, i: usize, w: &str) -> (r: bool)
    ensures
        r == has_at(s@, i as int, w@),
{
    let wc = chars_of(w);
    let n = s.len();
    if i > n || wc.len() > n - i {
        return false;
    }
    for k in 0..wc.len()
        invariant
            wc@ == w@,
            n == s@.len(),
            i + wc@.len() <= n,
            forall|j: int| 0 <= j < k ==> s@[i + j] == wc@[j],
    {
        if s[i + k] != wc[k] {
            assert(s@.subrange(i as int, i + wc@.len())[k as int] != w@[k as int]);
            return false;
        }
    }
    assert(s@.subrange(i as int, i + wc@.len()) =~= w@);
    true
}

fn find_tail(s: &Vec<char>, i: usize) -> (r: Option<(usize, usize)>)
    requires
        i <= s@.len(),
    ensures
        span_is(s@, r, tail(s@, i as int)),
{
    let j = scan_ws(s, i);
    if j < s.len() {
        Some((j, s.len()))
    } else if j > i {
        Some((s.len() - 1, s.len()))
    } else {
        None
    }
}

fn find_slashed_tail(s: &Vec<char>, i: usize) -> (r: Option<(usize, usize)>)
    requires
        i <= s@.len(),
    ensures
        span_is(s@, r, slashed_tail(s@, i as int)),
{
    let j = scan_ws(s, i);
    if j >= s.len() {
        return None;
    }
    proof {
        lemma_skip_ws(s@, i as int);
        lemma_last_nonws(s@, s@.len() as int, j as int);
    }
    let q = match scan_last_nonws(s) {
        Some(q) => q,
        None => {
            return None;
        },
    };
    if s[q] != '/' {
        return None;
    }
    if q > j {
        Some((j, q))
    } else if j > i {
        Some((j - 1, q))
    } else {
        None
    }
}

pub proof fn lemma_skip_ws(s: Seq<char>, i: int)
    requires
        0 <= i <= s.len(),
    ensures
        i <= skip_ws(s, i) <= s.len(),
        skip_ws(s, i) < s.len() ==> !is_ws(s[skip_ws(s, i)]),
    decreases s.len() - i,
{
    if i < s.len() && is_ws(s[i]) {
        lemma_skip_ws(s, i + 1);
    }
}

pub proof fn lemma_last_nonws(s: Seq<char>, n: int, j: int)
    requires
        0 <= j < n <= s.len(),
        !is_ws(s[j]),
    ensures
        last_nonws(s, n) >= j,
    decreases n,
{
    if is_ws(s[n - 1]) {
        lemma_last_nonws(s, n - 1, j);
    }
}

fn find_op(s: &Vec<char>, op: &str) -> (r: Option<(usize, usize, usize, usize)>)
    ensures
        spans_are(s@, r, match_op(s@, op@)),
{
    match find_key(s, 0, false) {
        Some((a, b)) => {
            let c = scan_ws(s, b);
            let n = s.len();
            if holds_at(s, c, op) {
                let oplen = chars_of(op).len();
                assert(c + oplen <= n);
                match find_tail(s, c + oplen) {
                    Some((x, y)) => Some((a, b, x, y)),
                    None => None,
                }
            } else {
                None
            }
        },
        None => None,
    }
}

fn find_regex(s: &Vec<char>) -> (r: Option<(usize, usize, usize, usize)>)
    ensures
        spans_are(s@, r, match_regex(s@)),
{
    match find_key(s, 0, false) {
        Some((a, b)) => {
            let c = scan_ws(s, b);
            let n = s.len();
            if holds_at(s, c, "=~/") {
                assert(c + 3 <= n) by {
                    reveal_strlit("=~/");
                }
                match find_slashed_tail(s, c + 3) {
                    Some((x, y)) => Some((a, b, x, y)),
                    None => None,
                }
            } else {
                None
            }
        },
        None => None,
    }
}

/// The characters `s[a..b]` as a string.
fn text_of(s: &Vec<char>, a: usize, b: usize) -> (r: String)
    requires
        a <= b <= s@.len(),
    ensures
        r@ == s@.subrange(a as int, b as int),
{
    let mut r = String::new();
    for k in a..b
        invariant
            b <= s@.len(),
            r@ == s@.subrange(a as int, k as int),
    {
        r.push(s[k]);
        assert(r@ =~= s@.subrange(a as int, k + 1));
    }
    r
}

fn unary(typ: &str, s: &Vec<char>, span: (usize, usize)) -> (r: Condition)
    requires
        span.0 <= span.1 <= s@.len(),
        typ@ != "regex"@,
    ensures
        r@ == condition_of(typ@, seq![s@.subrange(span.0 as int, span.1 as int)]),
{
    let mut params: Vec<String> = Vec::new();
    params.push(text_of(s, span.0, span.1));
    let r = Condition::new(typ, params);
    assert(r@.params =~= seq![s@.subrange(span.0 as int, span.1 as int)]);
    r
}

fn binary(typ: &str, s: &Vec<char>, span: (usize, usize, usize, usize)) -> (r: Condition)
    requires
        span.0 <= span.1 <= s@.len(),
        span.2 <= span.3 <= s@.len(),
    ensures
        r@ == condition_of(typ@, seq![s@.subrange(span.0 as int, span.1 as int), s@.subrange(span.2 as int, span.3 as int)]),
{
    let mut params: Vec<String> = Vec::new();
    params.push(text_of(s, span.0, span.1));
    params.push(text_of(s, span.2, span.3));
    let r = Condition::new(typ, params);
    assert(r@.params =~= seq![s@.subrange(span.0 as int, span.1 as int), s@.subrange(span.2 as int, span.3 as int)]);
    r
}

proof fn lemma_skip_ws_from(s: Seq<char>, i: int)
    ensures
        skip_ws(s, i) >= i,
        i <= s.len() ==> skip_ws(s, i) <= s.len(),
    decreases s.len() - i,
{
    if 0 <= i < s.len() && is_ws(s[i]) {
        lemma_skip_ws_from(s, i + 1);
    }
}

proof fn lemma_skip_key_chars(s: Seq<char>, i: int, dash: bool)
    requires
        0 <= i,
    ensures
        i <= skip_key(s, i, dash),
        i <= s.len() ==> skip_key(s, i, dash) <= s.len(),
        forall|k: int| i <= k < skip_key(s, i, dash) ==> #[trigger] is_key(s[k], dash),
    decreases s.len() - i,
{
    if 0 <= i < s.len() && is_key(s[i], dash) {
        lemma_skip_key_chars(s, i + 1, dash);
    }
}

/// A non-empty text of word characters, colons and dashes.
pub open spec fn key_text(k: Seq<char>) -> bool {
    k.len() > 0 && forall|i: int| 0 <= i < k.len() ==> is_key(#[trigger] k[i], true)
}

/// A key found at `i` is made of key characters.
proof fn lemma_key_at(s: Seq<char>, i: int, dash: bool)
    requires
        0 <= i <= s.len(),
        key_at(s, i, dash) is Some,
    ensures
        key_text(s.subrange((key_at(s, i, dash)->0).0, (key_at(s, i, dash)->0).1)),
{
    lemma_skip_ws_from(s, i);
    let a = skip_ws(s, i);
    lemma_skip_key_chars(s, a, dash);
    let k = s.subrange((key_at(s, i, dash)->0).0, (key_at(s, i, dash)->0).1);
    assert forall|j: int| 0 <= j < k.len() implies is_key(#[trigger] k[j], true) by {
        assert(k[j] == s[a + j]);
        assert(is_key(s[a + j], dash));
    }
}

/// The types of conditions that take a key alone.
pub open spec fn key_only_type(t: Seq<char>) -> bool {
    t == "true"@ || t == "false"@ || t == "set"@ || t == "unset"@
}

/// The types of conditions that take a key and a value.
pub open spec fn key_value_type(t: Seq<char>) -> bool {
    t == "ne"@ || t == "<="@ || t == ">="@ || t == "<"@ || t == ">"@ || t == "regex"@ || t == "eq"@
}

/// Every condition a text denotes has one of the known types, one
/// parameter for a key-only type and two otherwise, a pattern exactly when
/// it is a `regex` (its second parameter), and a non-empty key made of word
/// characters, colons and dashes.
pub proof fn lemma_parsed_condition_shape(s: Seq<char>)
    requires
        parsed_condition(s) is Some,
    ensures
        key_only_type(parsed_condition(s)->0.typ) || key_value_type(parsed_condition(s)->0.typ),
        parsed_condition(s)->0.params.len() == (if key_only_type(parsed_condition(s)->0.typ) { 1int } else { 2int }),
        parsed_condition(s)->0.regex is Some <==> parsed_condition(s)->0.typ == "regex"@,
        parsed_condition(s)->0.typ == "regex"@ ==> parsed_condition(s)->0.regex == Some(parsed_condition(s)->0.params[1]),
        key_text(parsed_condition(s)->0.params[0]),
{
    reveal_strlit("true");
    reveal_strlit("false");
    reveal_strlit("set");
    reveal_strlit("unset");
    reveal_strlit("ne");
    reveal_strlit("<=");
    reveal_strlit(">=");
    reveal_strlit("<");
    reveal_strlit(">");
    reveal_strlit("regex");
    reveal_strlit("eq");
    assert("regex"@ != "false"@ && "regex"@ != "unset"@) by {
        assert("regex"@[0] != "false"@[0] && "regex"@[0] != "unset"@[0]);
    }
    assert("ne"@.len() == 2 && "true"@.len() == 4 && "false"@.len() == 5 && "set"@.len() == 3 && "unset"@.len() == 5);
    assert("<="@.len() == 2 && ">="@.len() == 2 && "<"@.len() == 1 && ">"@.len() == 1 && "eq"@.len() == 2);
    assert(!key_only_type("ne"@) && !key_only_type("<="@) && !key_only_type(">="@) && !key_only_type("<"@));
    assert(!key_only_type(">"@) && !key_only_type("eq"@) && !key_only_type("regex"@));
    assert("ne"@ != "regex"@ && "<="@ != "regex"@ && ">="@ != "regex"@ && "<"@ != "regex"@ && ">"@ != "regex"@ && "eq"@ != "regex"@);
    assert("true"@ != "regex"@ && "set"@ != "regex"@);
    let c = parsed_condition(s)->0;
    lemma_skip_ws_from(s, 0);
    if match_question(s, false) is Some {
        lemma_key_at(s, 0, false);
    } else if match_question(s, true) is Some {
        lemma_skip_ws_from(s, 0);
        lemma_key_at(s, skip_ws(s, 0) + 1, false);
    } else if match_no(s) is Some {
        lemma_key_at(s, 0, false);
    } else if match_set(s) is Some {
        lemma_key_at(s, 0, true);
    } else if match_unset(s) is Some {
        let a = skip_ws(s, 0);
        lemma_skip_key_chars(s, a + 1, false);
        let k = c.params[0];
        assert forall|i: int| 0 <= i < k.len() implies is_key(#[trigger] k[i], true) by {
            assert(k[i] == s[a + 1 + i]);
            assert(is_key(s[a + 1 + i], false));
        }
    } else {
        lemma_key_at(s, 0, false);
    }
    assert(key_text(c.params[0]));
}

/// Parses a condition text; texts of no known form are refused with
/// `condition UNKNOWN: ` and the text.
pub fn parse_condition(s: &str) -> (r: Result<Condition, String>)
    ensures
        match parsed_condition(s@) {
            Some(c) => r is Ok && r->Ok_0@ == c,
            None => r is Err && r->Err_0@ == "condition UNKNOWN: "@ + s@,
        },
{
    proof {
        reveal_strlit("regex");
        reveal_strlit("true");
        reveal_strlit("ne");
        reveal_strlit("false");
        reveal_strlit("set");
        reveal_strlit("unset");
    }
    let cs = chars_of(s);
    if let Some(sp) = find_question(&cs, false) {
        assert("true"@ != "regex"@) by {
            reveal_strlit("true");
            reveal_strlit("regex");
            assert("true"@[0] != "regex"@[0]);
        }
        return Ok(unary("true", &cs, sp));
    }
    if let Some(sp) = find_question(&cs, true) {
        let mut params: Vec<String> = Vec::new();
        params.push(text_of(&cs, sp.0, sp.1));
        params.push(String::from_str("yes"));
        let c = Condition::new("ne", params);
        assert(c@.params =~= seq![match_question(s@, true)->0, "yes"@]);
        return Ok(c);
    }
    if let Some(sp) = find_no(&cs) {
        assert("false"@ != "regex"@) by {
            reveal_strlit("false");
            reveal_strlit("regex");
            assert("false"@[0] != "regex"@[0]);
        }
        return Ok(unary("false", &cs, sp));
    }
    if let Some(sp) = find_set(&cs) {
        assert("set"@ != "regex"@) by {
            reveal_strlit("set");
            reveal_strlit("regex");
            assert("set"@[0] != "regex"@[0]);
        }
        return Ok(unary("set", &cs, sp));
    }
    if let Some(sp) = find_unset(&cs) {
        assert("unset"@ != "regex"@) by {
            reveal_strlit("unset");
            reveal_strlit("regex");
            assert("unset"@[0] != "regex"@[0]);
        }
        return Ok(unary("unset", &cs, sp));
    }
    if let Some(sp) = find_op(&cs, "!=") {
        return Ok(binary("ne", &cs, sp));
    }
    if let Some(sp) = find_op(&cs, "<=") {
        return Ok(binary("<=", &cs, sp));
    }
    if let Some(sp) = find_op(&cs, ">=") {
        return Ok(binary(">=", &cs, sp));
    }
    if let Some(sp) = find_op(&cs, "<") {
        return Ok(binary("<", &cs, sp));
    }
    if let Some(sp) = find_op(&cs, ">") {
        return Ok(binary(">", &cs, sp));
    }
    if let Some(sp) = find_regex(&cs) {
        return Ok(binary("regex", &cs, sp));
    }
    if let Some(sp) = find_op(&cs, "=") {
        return Ok(binary("eq", &cs, sp));
    }
    let mut msg = String::from_str("condition UNKNOWN: ");
    msg.append(s);
    Err(msg)
}


// ------------------------------------------------------------------ text form

/// What `format!("{:?}", s)` writes for a string: the string quoted, with
/// escapes.
pub uninterp spec fn debug_text(s: Seq<char>) -> Seq<char>;

/// Formats a string with `Debug`.
#[verifier::external_body]
pub(crate) fn debug_str(s: &str) -> (r: String)
    ensures
        r@ == debug_text(s@),
{
    format!("{:?}", s)
}

/// How many parameters the text form of a condition type reads.
pub open spec fn params_needed(typ: Seq<char>) -> nat {
    if typ == "eq"@ || typ == "ne"@ || typ == "regex"@ || typ == "<"@ || typ == "<="@ || typ == ">"@ || typ == ">="@ {
        2
    } else if typ == "true"@ || typ == "untrue"@ || typ == "set"@ || typ == "unset"@ {
        1
    } else {
        0
    }
}

/// `[a, b]` of the debug texts of the parameters.
pub open spec fn debug_list(p: Seq<Seq<char>>) -> Seq<char> {
    seq!['['] + crate::canonical::join(p.map_values(|x: Seq<char>| debug_text(x)), ", "@) + seq![']']
}

/// The text form of a condition.
pub open spec fn repr_of(c: ConditionView) -> Seq<char> {
    let t = c.typ;
    let p = c.params;
    if t == "eq"@ && starts_with(p[0], "::"@) {
        p[1]
    } else if t == "eq"@ {
        p[0] + "="@ + p[1]
    } else if t == "ne"@ {
        p[0] + "!="@ + p[1]
    } else if t == "regex"@ {
        p[0] + "=~/"@ + p[1] + "/"@
    } else if t == "true"@ {
        p[0] + "?"@
    } else if t == "untrue"@ {
        "!"@ + p[0] + "?"@
    } else if t == "set"@ {
        p[0]
    } else if t == "unset"@ {
        "!"@ + p[0]
    } else if t == "<"@ || t == "<="@ || t == ">"@ || t == ">="@ {
        p[0] + t + p[1]
    } else {
        t + " "@ + debug_list(p)
    }
}

fn starts_with_colons(s: &String) -> (r: bool)
    ensures
        r == starts_with(s@, "::"@),
{
    let p0 = chars_of(s.as_str());
    let sub = p0.len() >= 2 && p0[0] == ':' && p0[1] == ':';
    assert(sub == starts_with(s@, "::"@)) by {
        reveal_strlit("::");
        if sub {
            assert(s@.subrange(0, 2) =~= "::"@);
        }
        if starts_with(s@, "::"@) {
            assert(s@.subrange(0, 2)[0] == ':');
            assert(s@.subrange(0, 2)[1] == ':');
        }
    }
    sub
}

fn concat3(a: &str, b: &str, c: &str) -> (r: String)
    ensures
        r@ == a@ + b@ + c@,
{
    let mut s = str_to_string(a);
    s.append(b);
    s.append(c);
    s
}

impl Condition {
    /// The condition written back as text.
    pub fn repr(&self) -> (r: String)
        requires
            self@.params.len() >= params_needed(self@.typ),
        ensures
            r@ == repr_of(self@),
    {
        let t = self.typ.as_str();
        let p = &self.params;
        let ghost pv = self@.params;
        if str_eq(t, "eq") {
            assert(p@.len() >= 2) by {
                reveal_strlit("eq");
            }
            if starts_with_colons(&p[0]) {
                return p[1].clone();
            }
            return concat3(p[0].as_str(), "=", p[1].as_str());
        }
        if str_eq(t, "ne") {
            assert(p@.len() >= 2) by {
                reveal_strlit("ne");
                reveal_strlit("eq");
            }
            return concat3(p[0].as_str(), "!=", p[1].as_str());
        }
        if str_eq(t, "regex") {
            assert(p@.len() >= 2) by {
                reveal_strlit("ne");
                reveal_strlit("eq");
                reveal_strlit("regex");
            }
            let mut s = concat3(p[0].as_str(), "=~/", p[1].as_str());
            s.append("/");
            return s;
        }
        if str_eq(t, "true") || str_eq(t, "set") {
            assert(p@.len() >= 1) by {
                reveal_strlit("ne");
                reveal_strlit("eq");
                reveal_strlit("regex");
                reveal_strlit("true");
                reveal_strlit("set");
            }
            if str_eq(t, "true") {
                proof {
                    reveal_strlit("");
                }
                assert(""@ =~= Seq::<char>::empty()) by {
                    reveal_strlit("");
                }
                return concat3(p[0].as_str(), "?", "");
            }
            assert("set"@ != "untrue"@) by {
                reveal_strlit("set");
                reveal_strlit("untrue");
                assert("set"@.len() != "untrue"@.len());
            }
            return p[0].clone();
        }
        if str_eq(t, "untrue") || str_eq(t, "unset") {
            assert(p@.len() >= 1) by {
                reveal_strlit("ne");
                reveal_strlit("eq");
                reveal_strlit("regex");
                reveal_strlit("true");
                reveal_strlit("set");
                reveal_strlit("untrue");
                reveal_strlit("unset");
            }
            if str_eq(t, "untrue") {
                return concat3("!", p[0].as_str(), "?");
            }
            assert(""@ =~= Seq::<char>::empty()) by {
                reveal_strlit("");
            }
            return concat3("!", p[0].as_str(), "");
        }
        if str_eq(t, "<") || str_eq(t, "<=") || str_eq(t, ">") || str_eq(t, ">=") {
            assert(p@.len() >= 2) by {
                reveal_strlit("ne");
                reveal_strlit("eq");
                reveal_strlit("regex");
                reveal_strlit("true");
                reveal_strlit("set");
                reveal_strlit("untrue");
                reveal_strlit("unset");
                reveal_strlit("<");
                reveal_strlit("<=");
                reveal_strlit(">");
                reveal_strlit(">=");
            }
            return concat3(p[0].as_str(), t, p[1].as_str());
        }
        let mut items: Vec<String> = Vec::new();
        for i in 0..p.len()
            invariant
                items@.len() == i,
                forall|j: int| 0 <= j < i ==> #[trigger] items@[j]@ == debug_text(p@[j]@),
        {
            items.push(debug_str(p[i].as_str()));
        }
        assert(crate::canonical::texts(items@) =~= pv.map_values(|x: Seq<char>| debug_text(x)));
        let mut s = concat3(t, " ", "[");
        let inner = crate::canonical::join_parts(&items, ", ");
        s.append(inner.as_str());
        s.append("]");
        assert("["@ =~= seq!['[']) by {
            reveal_strlit("[");
        }
        assert("]"@ =~= seq![']']) by {
            reveal_strlit("]");
        }
        assert(s@ =~= t@ + " "@ + debug_list(pv));
        s
    }
}

// ------------------------------------------------------------------ testing against a tag's value

/// What testing a condition against the value of its tag gives, short of
/// reading a pattern or a number.
#[derive(Debug, Clone, PartialEq, Eq)]
pub enum TagTest {
    /// The condition holds or not.
    Bool(bool),
    /// A `::`-class condition, which selects a subpart.
    Subpart(String),
    /// The tag's value is to be matched against the condition's pattern.
    Regex,
    /// The tag's value is to be compared as a number with the parameter.
    Compare,
}

/// The view of a tag test.
pub ghost enum TagTestView {
    Bool(bool),
    Subpart(Seq<char>),
    Regex,
    Compare,
}

impl View for TagTest {
    type V = TagTestView;

    open spec fn view(&self) -> TagTestView {
        match self {
            TagTest::Bool(b) => TagTestView::Bool(*b),
            TagTest::Subpart(s) => TagTestView::Subpart(s@),
            TagTest::Regex => TagTestView::Regex,
            TagTest::Compare => TagTestView::Compare,
        }
    }
}

/// How many parameters testing a condition reads.
pub open spec fn params_tested(typ: Seq<char>) -> nat {
    if typ == "eq"@ || typ == "ne"@ {
        2
    } else {
        1
    }
}

/// Testing `c` against `v`, the value of its tag if the object has it:
/// `eq` and `ne` compare with the value, `true` and `untrue` look for `yes`
/// and `no`, `set` and `unset` for a non-empty value; a `::` class in `eq`
/// selects a subpart. Any other condition fails on a missing tag; on a
/// present one `regex` matches a pattern, the orderings compare numbers, and
/// the rest fail.
pub open spec fn tag_test(c: ConditionView, v: Option<Seq<char>>) -> TagTestView {
    let t = c.typ;
    let p = c.params;
    if t == "eq"@ {
        if starts_with(p[0], "::"@) {
            TagTestView::Subpart(p[1])
        } else {
            TagTestView::Bool(v == Some(p[1]))
        }
    } else if t == "ne"@ {
        TagTestView::Bool(v != Some(p[1]))
    } else if t == "true"@ {
        TagTestView::Bool(v == Some("yes"@))
    } else if t == "untrue"@ {
        TagTestView::Bool(v == Some("no"@))
    } else if t == "set"@ {
        TagTestView::Bool(v is Some && v != Some(Seq::<char>::empty()))
    } else if t == "unset"@ {
        TagTestView::Bool(v is None || v == Some(Seq::<char>::empty()))
    } else if v is None {
        TagTestView::Bool(false)
    } else if t == "regex"@ {
        TagTestView::Regex
    } else if t == "<"@ || t == "<="@ || t == ">"@ || t == ">="@ {
        TagTestView::Compare
    } else {
        TagTestView::Bool(false)
    }
}

fn opt_is(v: Option<&String>, t: &str) -> (r: bool)
    ensures
        r == (match v {
            Some(x) => Some(x@),
            None => None::<Seq<char>>,
        } == Some(t@)),
{
    match v {
        Some(x) => str_eq(x.as_str(), t),
        None => false,
    }
}

/// Tests a condition against `v`, the value of its tag if the object has it.
pub fn test_tag(c: &Condition, v: Option<&String>) -> (r: TagTest)
    requires
        c@.params.len() >= params_tested(c@.typ),
    ensures
        r@ == tag_test(c@, match v {
            Some(x) => Some(x@),
            None => None,
        }),
{
    let t = c.typ.as_str();
    proof {
        reveal_strlit("yes");
        reveal_strlit("no");
        reveal_strlit("");
    }
    assert(""@ =~= Seq::<char>::empty());
    assert(c.params@[0]@ == c@.params[0]);
    if str_eq(t, "eq") {
        assert(c.params@[1]@ == c@.params[1]);
        if starts_with_colons(&c.params[0]) {
            return TagTest::Subpart(str_to_string(c.params[1].as_str()));
        }
        return TagTest::Bool(opt_is(v, c.params[1].as_str()));
    }
    if str_eq(t, "ne") {
        assert(c.params@[1]@ == c@.params[1]);
        return TagTest::Bool(!opt_is(v, c.params[1].as_str()));
    }
    if str_eq(t, "true") {
        return TagTest::Bool(opt_is(v, "yes"));
    }
    if str_eq(t, "untrue") {
        return TagTest::Bool(opt_is(v, "no"));
    }
    if str_eq(t, "set") {
        return TagTest::Bool(v.is_some() && !opt_is(v, ""));
    }
    if str_eq(t, "unset") {
        return TagTest::Bool(v.is_none() || opt_is(v, ""));
    }
    if v.is_none() {
        return TagTest::Bool(false);
    }
    if str_eq(t, "regex") {
        return TagTest::Regex;
    }
    if str_eq(t, "<") || str_eq(t, "<=") || str_eq(t, ">") || str_eq(t, ">=") {
        return TagTest::Compare;
    }
    TagTest::Bool(false)
}

} // verus!
