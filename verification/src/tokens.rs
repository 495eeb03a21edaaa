//! The tokens of a MapCSS stylesheet. At each point of the text the first
//! of these that fits is taken, with the white space after it:
//!
//! - a class `.name` or `::name` (`.`, `:` or `::`, then name characters,
//!   which are word characters and `*`);
//! - a zoom `|z<range>` (`z` or `Z`, white space allowed before it; the range
//!   is a run of digits and dashes);
//! - a group separator `,`;
//! - a condition `[..]`, which ends at the first `]` after its first
//!   character;
//! - an object type: `*` or a run of word characters;
//! - a declaration `{..}`, which ends at the first `}`;
//! - a comment `/* .. */`;
//! - an import `@import("..");`;
//! - a variable `@name: value;`, the name a letter and word characters, the
//!   value running to the first `;` after its first character, without the
//!   white space before that `;`;
//! - anything else up to white space, which is an unknown construction.

use vstd::prelude::*;
use crate::text::{chars_of, text_range};
use crate::condition::{is_ws, ws, is_word, word, skip_ws, lemma_skip_ws, scan_ws};
use crate::lines::find_char;

verus! {

// ------------------------------------------------------------------ character classes

/// Whether the Unicode regular-expression class `\d` (decimal digits) holds
/// of a character.
pub uninterp spec fn digit_class(c: char) -> bool;

/// Asks the `regex` crate whether `\d` matches a character.
#[verifier::external_body]
fn regex_digit_char(c: char) -> (r: bool)
    ensures
        r == digit_class(c),
{
    let mut buf = [0u8; 4];
    regex::Regex::new(r"^\d$").unwrap().is_match(c.encode_utf8(&mut buf))
}

/// Decimal digits: the ASCII ones and the other `\d` characters.
pub open spec fn is_digit_char(c: char) -> bool {
    if (c as u32) < 128 {
        '0' <= c && c <= '9'
    } else {
        digit_class(c)
    }
}

/// Characters of a zoom range.
pub open spec fn is_range_char(c: char) -> bool {
    c == '-' || is_digit_char(c)
}

/// Characters of a class name.
pub open spec fn is_name_char(c: char) -> bool {
    c == '*' || is_word(c)
}

/// The letters a variable name starts with, case being ignored: `a` to `z`,
/// `A` to `Z`, and the long s and Kelvin sign, which fold to `s` and `k`.
pub open spec fn is_letter_ci(c: char) -> bool {
    ('a' <= c && c <= 'z') || ('A' <= c && c <= 'Z') || c == '\u{17F}' || c == '\u{212A}'
}

fn range_char(c: char) -> (r: bool)
    ensures
        r == is_range_char(c),
{
    if c == '-' {
        return true;
    }
    if (c as u32) < 128 {
        '0' <= c && c <= '9'
    } else {
        regex_digit_char(c)
    }
}

// ------------------------------------------------------------------ runs

/// The end of the run of word characters from `i`.
pub open spec fn word_end(s: Seq<char>, i: int) -> int
    decreases s.len() - i,
{
    if 0 <= i < s.len() && is_word(s[i]) {
        word_end(s, i + 1)
    } else {
        i
    }
}

/// The end of the run of class name characters from `i`.
pub open spec fn name_end(s: Seq<char>, i: int) -> int
    decreases s.len() - i,
{
    if 0 <= i < s.len() && is_name_char(s[i]) {
        name_end(s, i + 1)
    } else {
        i
    }
}

/// The end of the run of zoom range characters from `i`.
pub open spec fn range_end(s: Seq<char>, i: int) -> int
    decreases s.len() - i,
{
    if 0 <= i < s.len() && is_range_char(s[i]) {
        range_end(s, i + 1)
    } else {
        i
    }
}

/// The end of the run of characters other than white space from `i`.
pub open spec fn nonws_end(s: Seq<char>, i: int) -> int
    decreases s.len() - i,
{
    if 0 <= i < s.len() && !is_ws(s[i]) {
        nonws_end(s, i + 1)
    } else {
        i
    }
}

/// The start of the run of white space that ends at `p`.
pub open spec fn ws_start(s: Seq<char>, p: int) -> int
    decreases p,
{
    if 0 < p <= s.len() && is_ws(s[p - 1]) {
        ws_start(s, p - 1)
    } else {
        p
    }
}

/// The first position at or after `i` where `a` then `b` stand (the length
/// of `s` if none).
pub open spec fn find_two(s: Seq<char>, a: char, b: char, i: int) -> int
    decreases s.len() - i,
{
    if i < 0 || i + 1 >= s.len() {
        s.len() as int
    } else if s[i] == a && s[i + 1] == b {
        i
    } else {
        find_two(s, a, b, i + 1)
    }
}

/// The first position at or after `i` where `");` stands (the length of `s`
/// if none).
pub open spec fn find_import_end(s: Seq<char>, i: int) -> int
    decreases s.len() - i,
{
    if i < 0 || i + 2 >= s.len() {
        s.len() as int
    } else if s[i] == '"' && s[i + 1] == ')' && s[i + 2] == ';' {
        i
    } else {
        find_import_end(s, i + 1)
    }
}

// ------------------------------------------------------------------ tokens

/// A token of a stylesheet.
pub enum Token {
    /// A class, with its leading `.`, `:` or `::`.
    Class(String),
    /// A zoom, with the range after `z`.
    Zoom(String),
    /// A `,`.
    Group,
    /// A condition, with the text between the brackets.
    Condition(String),
    /// An object type.
    Object(String),
    /// A declaration, with the text between the braces.
    Declaration(String),
    /// A comment.
    Comment,
    /// An import, with the file name.
    Import(String),
    /// A variable, with its name and value.
    Variable(String, String),
    /// An unknown construction, up to white space.
    Unknown(String),
    /// Nothing fits (only where the text is empty or starts with white
    /// space).
    Unexpected,
}

/// The view of a token.
pub ghost enum TokenView {
    Class(Seq<char>),
    Zoom(Seq<char>),
    Group,
    Condition(Seq<char>),
    Object(Seq<char>),
    Declaration(Seq<char>),
    Comment,
    Import(Seq<char>),
    Variable(Seq<char>, Seq<char>),
    Unknown(Seq<char>),
    Unexpected,
}

impl View for Token {
    type V = TokenView;

    open spec fn view(&self) -> TokenView {
        match self {
            Token::Class(t) => TokenView::Class(t@),
            Token::Zoom(t) => TokenView::Zoom(t@),
            Token::Group => TokenView::Group,
            Token::Condition(t) => TokenView::Condition(t@),
            Token::Object(t) => TokenView::Object(t@),
            Token::Declaration(t) => TokenView::Declaration(t@),
            Token::Comment => TokenView::Comment,
            Token::Import(t) => TokenView::Import(t@),
            Token::Variable(n, v) => TokenView::Variable(n@, v@),
            Token::Unknown(t) => TokenView::Unknown(t@),
            Token::Unexpected => TokenView::Unexpected,
        }
    }
}

/// A class at the start of `s`, with what it takes up.
pub open spec fn class_token(s: Seq<char>) -> Option<(TokenView, int)> {
    if s.len() >= 1 && (s[0] == '.' || s[0] == ':') {
        let i: int = if s.len() >= 2 && s[1] == ':' { 2 } else { 1 };
        let e = name_end(s, i);
        if e > i {
            Some((TokenView::Class(s.subrange(0, e)), skip_ws(s, e)))
        } else {
            None
        }
    } else {
        None
    }
}

/// A zoom at the start of `s`, with what it takes up.
pub open spec fn zoom_token(s: Seq<char>) -> Option<(TokenView, int)> {
    if s.len() >= 1 && s[0] == '|' {
        let j = skip_ws(s, 1);
        if j < s.len() && (s[j] == 'z' || s[j] == 'Z') {
            let e = range_end(s, j + 1);
            if e > j + 1 {
                Some((TokenView::Zoom(s.subrange(j + 1, e)), skip_ws(s, e)))
            } else {
                None
            }
        } else {
            None
        }
    } else {
        None
    }
}

/// A group separator at the start of `s`, with what it takes up.
pub open spec fn group_token(s: Seq<char>) -> Option<(TokenView, int)> {
    if s.len() >= 1 && s[0] == ',' {
        Some((TokenView::Group, skip_ws(s, 1)))
    } else {
        None
    }
}

/// A condition at the start of `s`, with what it takes up.
pub open spec fn condition_token(s: Seq<char>) -> Option<(TokenView, int)> {
    if s.len() >= 1 && s[0] == '[' {
        let j = find_char(s, ']', 2);
        if j < s.len() {
            Some((TokenView::Condition(s.subrange(1, j)), skip_ws(s, j + 1)))
        } else {
            None
        }
    } else {
        None
    }
}

/// An object type at the start of `s`, with what it takes up.
pub open spec fn object_token(s: Seq<char>) -> Option<(TokenView, int)> {
    if s.len() >= 1 && s[0] == '*' {
        Some((TokenView::Object(s.subrange(0, 1)), skip_ws(s, 1)))
    } else {
        let e = word_end(s, 0);
        if e > 0 {
            Some((TokenView::Object(s.subrange(0, e)), skip_ws(s, e)))
        } else {
            None
        }
    }
}

/// A declaration at the start of `s`, with what it takes up.
pub open spec fn declaration_token(s: Seq<char>) -> Option<(TokenView, int)> {
    if s.len() >= 1 && s[0] == '{' {
        let j = find_char(s, '}', 1);
        if j < s.len() {
            Some((TokenView::Declaration(s.subrange(1, j)), skip_ws(s, j + 1)))
        } else {
            None
        }
    } else {
        None
    }
}

/// A comment at the start of `s`, with what it takes up.
pub open spec fn comment_token(s: Seq<char>) -> Option<(TokenView, int)> {
    if s.len() >= 2 && s[0] == '/' && s[1] == '*' {
        let j = find_two(s, '*', '/', 2);
        if j < s.len() {
            Some((TokenView::Comment, skip_ws(s, j + 2)))
        } else {
            None
        }
    } else {
        None
    }
}

/// An import at the start of `s`, with what it takes up.
pub open spec fn import_token(s: Seq<char>) -> Option<(TokenView, int)> {
    if s.len() >= 9 && s.subrange(0, 9) == "@import(\""@ {
        let j = find_import_end(s, 10);
        if j < s.len() {
            Some((TokenView::Import(s.subrange(9, j)), skip_ws(s, j + 3)))
        } else {
            None
        }
    } else {
        None
    }
}

/// A variable at the start of `s`, with what it takes up. The value starts
/// after the white space that follows the colon and ends before the white
/// space that precedes the first `;` after its first character; where no
/// such `;` is found but a `;` follows the colon's white space directly,
/// the value is the last white space character before it.
pub open spec fn variable_token(s: Seq<char>) -> Option<(TokenView, int)> {
    if s.len() >= 2 && s[0] == '@' && is_letter_ci(s[1]) {
        let e = word_end(s, 2);
        let c = skip_ws(s, e);
        if c < s.len() && s[c] == ':' {
            variable_value(s, e, c, skip_ws(s, c + 1))
        } else {
            None
        }
    } else {
        None
    }
}

/// A variable named `s[1..e]` whose colon is at `c` and whose value's first
/// character is at `v`, with what it takes up.
pub open spec fn variable_value(s: Seq<char>, e: int, c: int, v: int) -> Option<(TokenView, int)> {
    let p = find_char(s, ';', v + 1);
    if p < s.len() {
        Some((TokenView::Variable(s.subrange(1, e), s.subrange(v, ws_start(s, p))), skip_ws(s, p + 1)))
    } else if v > c + 1 && v < s.len() && s[v] == ';' {
        Some((TokenView::Variable(s.subrange(1, e), s.subrange(v - 1, v)), skip_ws(s, v + 1)))
    } else {
        None
    }
}

/// An unknown construction at the start of `s`, with what it takes up.
pub open spec fn unknown_token(s: Seq<char>) -> Option<(TokenView, int)> {
    let e = nonws_end(s, 0);
    if e > 0 {
        Some((TokenView::Unknown(s.subrange(0, e)), skip_ws(s, e)))
    } else {
        None
    }
}

/// The token at the start of `s` and how many characters it takes up.
pub open spec fn token_at(s: Seq<char>) -> (TokenView, int) {
    if let Some(t) = class_token(s) {
        t
    } else if let Some(t) = zoom_token(s) {
        t
    } else if let Some(t) = group_token(s) {
        t
    } else if let Some(t) = condition_token(s) {
        t
    } else if let Some(t) = object_token(s) {
        t
    } else if let Some(t) = declaration_token(s) {
        t
    } else if let Some(t) = comment_token(s) {
        t
    } else if let Some(t) = import_token(s) {
        t
    } else if let Some(t) = variable_token(s) {
        t
    } else if let Some(t) = unknown_token(s) {
        t
    } else {
        (TokenView::Unexpected, 0)
    }
}

// ------------------------------------------------------------------ scanning

fn scan_word(s: &Vec<char>, i: usize) -> (r: usize)
    requires
        i <= s@.len(),
    ensures
        r == word_end(s@, i as int),
        i <= r <= s@.len(),
{
    let mut j = i;
    while j < s.len() && word(s[j])
        invariant
            i <= j <= s@.len(),
            word_end(s@, i as int) == word_end(s@, j as int),
        decreases s@.len() - j,
    {
        j = j + 1;
    }
    j
}

fn scan_name(s: &Vec<char>, i: usize) -> (r: usize)
    requires
        i <= s@.len(),
    ensures
        r == name_end(s@, i as int),
        i <= r <= s@.len(),
{
    let mut j = i;
    while j < s.len() && (s[j] == '*' || word(s[j]))
        invariant
            i <= j <= s@.len(),
            name_end(s@, i as int) == name_end(s@, j as int),
        decreases s@.len() - j,
    {
        j = j + 1;
    }
    j
}

fn scan_range(s: &Vec<char>, i: usize) -> (r: usize)
    requires
        i <= s@.len(),
    ensures
        r == range_end(s@, i as int),
        i <= r <= s@.len(),
{
    let mut j = i;
    while j < s.len() && range_char(s[j])
        invariant
            i <= j <= s@.len(),
            range_end(s@, i as int) == range_end(s@, j as int),
        decreases s@.len() - j,
    {
        j = j + 1;
    }
    j
}

fn scan_nonws(s: &Vec<char>) -> (r: usize)
    ensures
        r == nonws_end(s@, 0),
        r <= s@.len(),
{
    let mut j: usize = 0;
    while j < s.len() && !ws(s[j])
        invariant
            j <= s@.len(),
            nonws_end(s@, 0) == nonws_end(s@, j as int),
        decreases s@.len() - j,
    {
        j = j + 1;
    }
    j
}

fn scan_back_ws(s: &Vec<char>, p: usize) -> (r: usize)
    requires
        p <= s@.len(),
    ensures
        r == ws_start(s@, p as int),
        r <= p,
{
    let mut j = p;
    while j > 0 && ws(s[j - 1])
        invariant
            j <= p <= s@.len(),
            ws_start(s@, p as int) == ws_start(s@, j as int),
        decreases j,
    {
        j = j - 1;
    }
    j
}

fn find_from(s: &Vec<char>, c: char, i: usize) -> (r: usize)
    ensures
        r == find_char(s@, c, i as int),
        i <= s@.len() ==> i <= r <= s@.len(),
        i > s@.len() ==> r == i,
{
    let mut j = i;
    while j < s.len() && s[j] != c
        invariant
            i <= j,
            i <= s@.len() ==> j <= s@.len(),
            i > s@.len() ==> j == i,
            find_char(s@, c, i as int) == find_char(s@, c, j as int),
        decreases s@.len() - j,
    {
        j = j + 1;
    }
    j
}

fn find_two_from(s: &Vec<char>, a: char, b: char, i: usize) -> (r: usize)
    ensures
        r == find_two(s@, a, b, i as int),
        r <= s@.len(),
{
    let n = s.len();
    let mut j = i;
    while j < n && j + 1 < n
        invariant
            i <= j,
            n == s@.len(),
            find_two(s@, a, b, i as int) == find_two(s@, a, b, j as int),
        decreases n - j,
    {
        if s[j] == a && s[j + 1] == b {
            return j;
        }
        j = j + 1;
    }
    n
}

fn find_import_from(s: &Vec<char>, i: usize) -> (r: usize)
    ensures
        r == find_import_end(s@, i as int),
        r <= s@.len(),
{
    let n = s.len();
    let mut j = i;
    while j < n && j + 1 < n && j + 2 < n
        invariant
            i <= j,
            n == s@.len(),
            find_import_end(s@, i as int) == find_import_end(s@, j as int),
        decreases n - j,
    {
        if s[j] == '"' && s[j + 1] == ')' && s[j + 2] == ';' {
            return j;
        }
        j = j + 1;
    }
    n
}

proof fn lemma_find_two(s: Seq<char>, a: char, b: char, i: int)
    requires
        0 <= i,
    ensures
        find_two(s, a, b, i) == s.len() || (i <= find_two(s, a, b, i) && find_two(s, a, b, i) + 1 < s.len()),
    decreases s.len() - i,
{
    if i + 1 < s.len() && !(s[i] == a && s[i + 1] == b) {
        lemma_find_two(s, a, b, i + 1);
    }
}

proof fn lemma_find_import_end(s: Seq<char>, i: int)
    requires
        0 <= i,
    ensures
        find_import_end(s, i) == s.len() || (i <= find_import_end(s, i) && find_import_end(s, i) + 2 < s.len()),
    decreases s.len() - i,
{
    if i + 2 < s.len() && !(s[i] == '"' && s[i + 1] == ')' && s[i + 2] == ';') {
        lemma_find_import_end(s, i + 1);
    }
}

proof fn lemma_ws_start(s: Seq<char>, p: int, v: int)
    requires
        0 <= v < p <= s.len(),
        !is_ws(s[v]),
    ensures
        v < ws_start(s, p) <= p,
    decreases p,
{
    if is_ws(s[p - 1]) {
        lemma_ws_start(s, p - 1, v);
    }
}

fn starts_with_text(s: &Vec<char>, t: &str) -> (r: bool)
    ensures
        r == (s@.len() >= t@.len() && s@.subrange(0, t@.len() as int) == t@),
{
    let w = chars_of(t);
    if s.len() < w.len() {
        return false;
    }
    for i in 0..w.len()
        invariant
            w@ == t@,
            w@.len() <= s@.len(),
            forall|k: int| 0 <= k < i ==> s@[k] == w@[k],
    {
        if s[i] != w[i] {
            assert(s@.subrange(0, t@.len() as int)[i as int] != t@[i as int]);
            return false;
        }
    }
    assert(s@.subrange(0, t@.len() as int) =~= t@);
    true
}

fn letter_ci(c: char) -> (r: bool)
    ensures
        r == is_letter_ci(c),
{
    ('a' <= c && c <= 'z') || ('A' <= c && c <= 'Z') || c == '\u{17F}' || c == '\u{212A}'
}

/// The view of a token that may have been found.
pub open spec fn found_view(r: Option<(Token, usize)>) -> Option<(TokenView, int)> {
    match r {
        Some(t) => Some((t.0@, t.1 as int)),
        None => None,
    }
}

fn class_tok(s: &Vec<char>) -> (r: Option<(Token, usize)>)
    ensures
        found_view(r) == class_token(s@),
{
    if s.len() >= 1 && (s[0] == '.' || s[0] == ':') {
        let i: usize = if s.len() >= 2 && s[1] == ':' { 2 } else { 1 };
        let e = scan_name(s, i);
        if e > i {
            let n = scan_ws(s, e);
            return Some((Token::Class(text_range(s, 0, e)), n));
        }
    }
    None
}

fn zoom_tok(s: &Vec<char>) -> (r: Option<(Token, usize)>)
    ensures
        found_view(r) == zoom_token(s@),
{
    if s.len() >= 1 && s[0] == '|' {
        let j = scan_ws(s, 1);
        if j < s.len() && (s[j] == 'z' || s[j] == 'Z') {
            let e = scan_range(s, j + 1);
            if e > j + 1 {
                let n = scan_ws(s, e);
                return Some((Token::Zoom(text_range(s, j + 1, e)), n));
            }
        }
    }
    None
}

fn group_tok(s: &Vec<char>) -> (r: Option<(Token, usize)>)
    ensures
        found_view(r) == group_token(s@),
{
    if s.len() >= 1 && s[0] == ',' {
        let n = scan_ws(s, 1);
        return Some((Token::Group, n));
    }
    None
}

fn condition_tok(s: &Vec<char>) -> (r: Option<(Token, usize)>)
    ensures
        found_view(r) == condition_token(s@),
{
    if s.len() >= 1 && s[0] == '[' {
        let j = find_from(s, ']', 2);
        if j < s.len() {
            let n = scan_ws(s, j + 1);
            return Some((Token::Condition(text_range(s, 1, j)), n));
        }
    }
    None
}

fn object_tok(s: &Vec<char>) -> (r: Option<(Token, usize)>)
    ensures
        found_view(r) == object_token(s@),
{
    if s.len() >= 1 && s[0] == '*' {
        let n = scan_ws(s, 1);
        return Some((Token::Object(text_range(s, 0, 1)), n));
    }
    let e = scan_word(s, 0);
    if e > 0 {
        let n = scan_ws(s, e);
        return Some((Token::Object(text_range(s, 0, e)), n));
    }
    None
}

fn declaration_tok(s: &Vec<char>) -> (r: Option<(Token, usize)>)
    ensures
        found_view(r) == declaration_token(s@),
{
    if s.len() >= 1 && s[0] == '{' {
        let j = find_from(s, '}', 1);
        if j < s.len() {
            let n = scan_ws(s, j + 1);
            return Some((Token::Declaration(text_range(s, 1, j)), n));
        }
    }
    None
}

fn comment_tok(s: &Vec<char>) -> (r: Option<(Token, usize)>)
    ensures
        found_view(r) == comment_token(s@),
{
    if s.len() >= 2 && s[0] == '/' && s[1] == '*' {
        let j = find_two_from(s, '*', '/', 2);
        proof {
            lemma_find_two(s@, '*', '/', 2);
        }
        if j < s.len() {
            let n = scan_ws(s, j + 2);
            return Some((Token::Comment, n));
        }
    }
    None
}

fn import_tok(s: &Vec<char>) -> (r: Option<(Token, usize)>)
    ensures
        found_view(r) == import_token(s@),
{
    proof {
        reveal_strlit("@import(\"");
    }
    if starts_with_text(s, "@import(\"") {
        let j = find_import_from(s, 10);
        proof {
            lemma_find_import_end(s@, 10);
        }
        if j < s.len() {
            let n = scan_ws(s, j + 3);
            return Some((Token::Import(text_range(s, 9, j)), n));
        }
    }
    None
}

fn variable_tok(s: &Vec<char>) -> (r: Option<(Token, usize)>)
    ensures
        found_view(r) == variable_token(s@),
{
    if s.len() >= 2 && s[0] == '@' && letter_ci(s[1]) {
        let e = scan_word(s, 2);
        let c = scan_ws(s, e);
        if c < s.len() && s[c] == ':' {
            let v = scan_ws(s, c + 1);
            proof {
                lemma_skip_ws(s@, c + 1);
            }
            if v >= s.len() {
                assert(find_char(s@, ';', v as int + 1) == v + 1);
                return None;
            }
            let p = find_from(s, ';', v + 1);
            if p < s.len() {
                let b = scan_back_ws(s, p);
                proof {
                    lemma_ws_start(s@, p as int, v as int);
                }
                let n = scan_ws(s, p + 1);
                return Some((Token::Variable(text_range(s, 1, e), text_range(s, v, b)), n));
            } else if v > c + 1 && s[v] == ';' {
                let n = scan_ws(s, v + 1);
                return Some((Token::Variable(text_range(s, 1, e), text_range(s, v - 1, v)), n));
            }
        }
    }
    None
}

fn unknown_tok(s: &Vec<char>) -> (r: Option<(Token, usize)>)
    ensures
        found_view(r) == unknown_token(s@),
{
    let e = scan_nonws(s);
    if e > 0 {
        let n = scan_ws(s, e);
        return Some((Token::Unknown(text_range(s, 0, e)), n));
    }
    None
}

/// The token at the start of `css` and how many characters it takes up,
/// with the white space after it.
pub fn next_token(css: &str) -> (r: (Token, usize))
    ensures
        (r.0@, r.1 as int) == token_at(css@),
{
    let s = chars_of(css);
    if let Some(t) = class_tok(&s) {
        return t;
    }
    if let Some(t) = zoom_tok(&s) {
        return t;
    }
    if let Some(t) = group_tok(&s) {
        return t;
    }
    if let Some(t) = condition_tok(&s) {
        return t;
    }
    if let Some(t) = object_tok(&s) {
        return t;
    }
    if let Some(t) = declaration_tok(&s) {
        return t;
    }
    if let Some(t) = comment_tok(&s) {
        return t;
    }
    if let Some(t) = import_tok(&s) {
        return t;
    }
    if let Some(t) = variable_tok(&s) {
        return t;
    }
    if let Some(t) = unknown_tok(&s) {
        return t;
    }
    (Token::Unexpected, 0)
}

} // verus!
