//! The expressions of `eval(..)` style values: numbers, quoted strings,
//! calls `name(arg, ..)`, `+ - * /` and unary minus, with the usual
//! precedence. Numbers are kept as they are written; evaluating them is left
//! to the caller.

use vstd::prelude::*;
use crate::condition::{is_ws, ws, skip_ws, scan_ws};
use crate::lines::{trim, trim_chars};
use crate::canonical::texts;
use crate::text::{chars_of, str_to_string, push_str, text_range};

verus! {

/// An expression.
pub enum Expr {
    /// A number, as written: digits and one `.` at most.
    Num(String),
    /// A string.
    Str(String),
    /// A call of a function by name.
    Call(String, Vec<Expr>),
    /// `+`, `-`, `*` or `/` of two expressions.
    Bin(char, Box<Expr>, Box<Expr>),
    /// The negation of an expression.
    Neg(Box<Expr>),
}

/// The view of an expression.
pub ghost enum ExprView {
    Num(Seq<char>),
    Str(Seq<char>),
    Call(Seq<char>, Seq<ExprView>),
    Bin(char, Box<ExprView>, Box<ExprView>),
    Neg(Box<ExprView>),
}

/// The view of an expression.
pub open spec fn expr_view(e: Expr) -> ExprView
    decreases e,
{
    match e {
        Expr::Num(t) => ExprView::Num(t@),
        Expr::Str(t) => ExprView::Str(t@),
        Expr::Call(n, args) => ExprView::Call(n@, args_view(args@)),
        Expr::Bin(op, a, b) => ExprView::Bin(op, Box::new(expr_view(*a)), Box::new(expr_view(*b))),
        Expr::Neg(a) => ExprView::Neg(Box::new(expr_view(*a))),
    }
}

/// The views of some expressions.
pub open spec fn args_view(s: Seq<Expr>) -> Seq<ExprView>
    decreases s,
{
    Seq::new(s.len(), |i: int| if 0 <= i < s.len() { expr_view(s[i]) } else { ExprView::Num(Seq::empty()) })
}

// ------------------------------------------------------------------ characters

/// Whether `char::is_alphabetic` holds of a character.
pub uninterp spec fn alphabetic(c: char) -> bool;

/// Whether `char::is_alphanumeric` holds of a character.
pub uninterp spec fn alphanumeric(c: char) -> bool;

/// Calls `char::is_alphabetic`.
#[verifier::external_body]
fn std_is_alphabetic(c: char) -> (r: bool)
    ensures
        r == alphabetic(c),
{
    c.is_alphabetic()
}

/// Calls `char::is_alphanumeric`.
#[verifier::external_body]
fn std_is_alphanumeric(c: char) -> (r: bool)
    ensures
        r == alphanumeric(c),
{
    c.is_alphanumeric()
}

pub open spec fn is_ascii_digit(c: char) -> bool {
    '0' <= c && c <= '9'
}

/// Characters of a number.
pub open spec fn is_num_char(c: char) -> bool {
    is_ascii_digit(c) || c == '.'
}

/// Characters of a name after its first.
pub open spec fn is_ident_char(c: char) -> bool {
    alphanumeric(c) || c == '_'
}

/// The end of the run of number characters from `i`.
pub open spec fn num_end(s: Seq<char>, i: int) -> int
    decreases s.len() - i,
{
    if 0 <= i < s.len() && is_num_char(s[i]) {
        num_end(s, i + 1)
    } else {
        i
    }
}

/// The end of the run of name characters from `i`.
pub open spec fn ident_end(s: Seq<char>, i: int) -> int
    decreases s.len() - i,
{
    if 0 <= i < s.len() && is_ident_char(s[i]) {
        ident_end(s, i + 1)
    } else {
        i
    }
}

/// A run of number characters ends at or after its start.
pub proof fn lemma_num_end(s: Seq<char>, i: int)
    requires
        0 <= i <= s.len(),
    ensures
        i <= num_end(s, i) <= s.len(),
    decreases s.len() - i,
{
    if 0 <= i < s.len() && is_num_char(s[i]) {
        lemma_num_end(s, i + 1);
    }
}

/// A run of name characters ends at or after its start.
pub proof fn lemma_ident_end(s: Seq<char>, i: int)
    requires
        0 <= i <= s.len(),
    ensures
        i <= ident_end(s, i) <= s.len(),
    decreases s.len() - i,
{
    if 0 <= i < s.len() && is_ident_char(s[i]) {
        lemma_ident_end(s, i + 1);
    }
}

/// The number of `.` in `t`.
pub open spec fn dots(t: Seq<char>) -> nat
    decreases t.len(),
{
    if t.len() == 0 {
        0
    } else {
        dots(t.drop_last()) + if t.last() == '.' { 1nat } else { 0nat }
    }
}

/// The character an escape `\e` stands for.
pub open spec fn unescape(e: char) -> char {
    if e == 'n' {
        '\n'
    } else if e == 't' {
        '\t'
    } else if e == 'r' {
        '\r'
    } else {
        e
    }
}

// ------------------------------------------------------------------ tokens

/// A token of an expression.
pub enum ExprToken {
    Num(String),
    Str(String),
    Ident(String),
    LParen,
    RParen,
    Comma,
    Plus,
    Minus,
    Star,
    Slash,
}

/// The view of a token.
pub ghost enum ExprTokenView {
    Num(Seq<char>),
    Str(Seq<char>),
    Ident(Seq<char>),
    LParen,
    RParen,
    Comma,
    Plus,
    Minus,
    Star,
    Slash,
}

impl View for ExprToken {
    type V = ExprTokenView;

    open spec fn view(&self) -> ExprTokenView {
        match self {
            ExprToken::Num(t) => ExprTokenView::Num(t@),
            ExprToken::Str(t) => ExprTokenView::Str(t@),
            ExprToken::Ident(t) => ExprTokenView::Ident(t@),
            ExprToken::LParen => ExprTokenView::LParen,
            ExprToken::RParen => ExprTokenView::RParen,
            ExprToken::Comma => ExprTokenView::Comma,
            ExprToken::Plus => ExprTokenView::Plus,
            ExprToken::Minus => ExprTokenView::Minus,
            ExprToken::Star => ExprTokenView::Star,
            ExprToken::Slash => ExprTokenView::Slash,
        }
    }
}

/// The views of some tokens.
pub open spec fn tokens_view(v: Seq<ExprToken>) -> Seq<ExprTokenView> {
    v.map_values(|t: ExprToken| t@)
}

/// The token a single character stands for.
pub open spec fn single_token(c: char) -> Option<ExprTokenView> {
    if c == '(' {
        Some(ExprTokenView::LParen)
    } else if c == ')' {
        Some(ExprTokenView::RParen)
    } else if c == ',' {
        Some(ExprTokenView::Comma)
    } else if c == '+' {
        Some(ExprTokenView::Plus)
    } else if c == '-' {
        Some(ExprTokenView::Minus)
    } else if c == '*' {
        Some(ExprTokenView::Star)
    } else if c == '/' {
        Some(ExprTokenView::Slash)
    } else {
        None
    }
}

/// The rest of a string from `j` up to its closing `q`, escapes resolved,
/// and the position after that quote.
pub open spec fn quoted(s: Seq<char>, j: int, q: char) -> Result<(Seq<char>, int), Seq<char>>
    decreases s.len() - j,
{
    if j < 0 || j >= s.len() {
        Err("unterminated string"@)
    } else if s[j] == q {
        Ok((Seq::empty(), j + 1))
    } else if s[j] == '\\' {
        if j + 1 >= s.len() {
            Err("unterminated escape"@)
        } else {
            match quoted(s, j + 2, q) {
                Ok((t, e)) => Ok((seq![unescape(s[j + 1])] + t, e)),
                Err(m) => Err(m),
            }
        }
    } else {
        match quoted(s, j + 1, q) {
            Ok((t, e)) => Ok((seq![s[j]] + t, e)),
            Err(m) => Err(m),
        }
    }
}

/// A closed string ends after it starts.
pub proof fn lemma_quoted(s: Seq<char>, j: int, q: char)
    ensures
        quoted(s, j, q) is Ok ==> j < quoted(s, j, q)->Ok_0.1 <= s.len(),
    decreases s.len() - j,
{
    if 0 <= j < s.len() && s[j] != q {
        if s[j] == '\\' {
            if j + 1 < s.len() {
                lemma_quoted(s, j + 2, q);
            }
        } else {
            lemma_quoted(s, j + 1, q);
        }
    }
}

/// `t` before the tokens of a scan, if it succeeds.
pub open spec fn prepend(t: ExprTokenView, r: Result<Seq<ExprTokenView>, Seq<char>>) -> Result<Seq<ExprTokenView>, Seq<char>> {
    match r {
        Ok(ts) => Ok(seq![t] + ts),
        Err(m) => Err(m),
    }
}

/// The tokens of `s` from `i` on, or the first problem: white space is
/// skipped; a number starts with a digit, or a `.` before a digit, and runs
/// over digits and dots, of which it may have one; a string is quoted with
/// `'` or `"` and may escape characters with `\`; a name starts with a
/// letter or `_` and runs over letters, digits and `_`; other characters are
/// brackets, commas and operators.
pub open spec fn scan_expr(s: Seq<char>, i: int) -> Result<Seq<ExprTokenView>, Seq<char>>
    decreases s.len() - i,
{
    if i < 0 || i >= s.len() {
        Ok(Seq::empty())
    } else {
        let c = s[i];
        if is_ws(c) {
            scan_expr(s, i + 1)
        } else if is_ascii_digit(c) || (c == '.' && i + 1 < s.len() && is_ascii_digit(s[i + 1])) {
            let e = num_end(s, i + 1);
            proof {
                lemma_num_end(s, i + 1);
            }
            let t = s.subrange(i, e);
            if dots(t) > 1 {
                Err("bad number `"@ + t + "`"@)
            } else {
                prepend(ExprTokenView::Num(t), scan_expr(s, e))
            }
        } else if c == '\'' || c == '"' {
            proof {
                lemma_quoted(s, i + 1, c);
            }
            match quoted(s, i + 1, c) {
                Ok((t, e)) => prepend(ExprTokenView::Str(t), scan_expr(s, e)),
                Err(m) => Err(m),
            }
        } else if alphabetic(c) || c == '_' {
            let e = ident_end(s, i + 1);
            proof {
                lemma_ident_end(s, i + 1);
            }
            prepend(ExprTokenView::Ident(s.subrange(i, e)), scan_expr(s, e))
        } else {
            match single_token(c) {
                Some(t) => prepend(t, scan_expr(s, i + 1)),
                None => Err("unexpected char `"@ + seq![c] + "`"@),
            }
        }
    }
}

/// The tokens `prefix` before those of a scan, if it succeeds.
pub open spec fn after(prefix: Seq<ExprTokenView>, r: Result<Seq<ExprTokenView>, Seq<char>>) -> Result<Seq<ExprTokenView>, Seq<char>> {
    match r {
        Ok(ts) => Ok(prefix + ts),
        Err(m) => Err(m),
    }
}

fn count_dots(s: &Vec<char>, a: usize, b: usize) -> (r: usize)
    requires
        a <= b <= s@.len(),
    ensures
        r == dots(s@.subrange(a as int, b as int)),
{
    let mut r: usize = 0;
    let mut k = a;
    while k < b
        invariant
            a <= k <= b <= s@.len(),
            r == dots(s@.subrange(a as int, k as int)),
            r <= k - a,
        decreases b - k,
    {
        assert(s@.subrange(a as int, k as int + 1).drop_last() =~= s@.subrange(a as int, k as int));
        if s[k] == '.' {
            r = r + 1;
        }
        k = k + 1;
    }
    r
}

fn read_quoted(s: &Vec<char>, start: usize, q: char) -> (r: Result<(String, usize), String>)
    requires
        start <= s@.len(),
    ensures
        match r {
            Ok((t, e)) => quoted(s@, start as int, q) == Ok::<(Seq<char>, int), Seq<char>>((t@, e as int)),
            Err(m) => quoted(s@, start as int, q) == Err::<(Seq<char>, int), Seq<char>>(m@),
        },
{
    let mut acc = String::new();
    let mut j = start;
    while j < s.len()
        invariant
            start <= j <= s@.len(),
            quoted(s@, start as int, q) == match quoted(s@, j as int, q) {
                Ok((t, e)) => Ok((acc@ + t, e)),
                Err(m) => Err(m),
            },
        decreases s@.len() - j,
    {
        let ch = s[j];
        if ch == q {
            assert(acc@ + Seq::<char>::empty() =~= acc@);
            return Ok((acc, j + 1));
        } else if ch == '\\' {
            if j + 1 >= s.len() {
                return Err(str_to_string("unterminated escape"));
            }
            let e = s[j + 1];
            let u = if e == 'n' {
                '\n'
            } else if e == 't' {
                '\t'
            } else if e == 'r' {
                '\r'
            } else {
                e
            };
            let ghost before = acc@;
            acc.push(u);
            proof {
                assert forall|t: Seq<char>| before + (seq![u] + t) =~= acc@ + t by {}
            }
            j = j + 2;
        } else {
            let ghost before = acc@;
            acc.push(ch);
            proof {
                assert forall|t: Seq<char>| before + (seq![ch] + t) =~= acc@ + t by {}
            }
            j = j + 1;
        }
    }
    Err(str_to_string("unterminated string"))
}

/// The tokens of an expression text, or the first problem with it.
pub fn expr_tokens(text: &str) -> (r: Result<Vec<ExprToken>, String>)
    ensures
        match r {
            Ok(v) => scan_expr(text@, 0) == Ok::<Seq<ExprTokenView>, Seq<char>>(tokens_view(v@)),
            Err(m) => scan_expr(text@, 0) == Err::<Seq<ExprTokenView>, Seq<char>>(m@),
        },
{
    let s = chars_of(text);
    let n = s.len();
    let mut toks: Vec<ExprToken> = Vec::new();
    let mut i: usize = 0;
    assert(tokens_view(toks@) =~= Seq::<ExprTokenView>::empty());
    assert(after(Seq::empty(), scan_expr(s@, 0)) =~= scan_expr(s@, 0)) by {
        match scan_expr(s@, 0) {
            Ok(ts) => {
                assert(Seq::<ExprTokenView>::empty() + ts =~= ts);
            },
            Err(m) => {},
        }
    }
    while i < n
        invariant
            n == s@.len(),
            s@ == text@,
            i <= n,
            scan_expr(s@, 0) == after(tokens_view(toks@), scan_expr(s@, i as int)),
        decreases n - i,
    {
        let ghost pre = tokens_view(toks@);
        let c = s[i];
        if ws(c) {
            i = i + 1;
        } else if ('0' <= c && c <= '9') || (c == '.' && i + 1 < n && '0' <= s[i + 1] && s[i + 1] <= '9') {
            let mut e = i + 1;
            while e < n && (('0' <= s[e] && s[e] <= '9') || s[e] == '.')
                invariant
                    i < e <= n,
                    n == s@.len(),
                    num_end(s@, i as int + 1) == num_end(s@, e as int),
                decreases n - e,
            {
                e = e + 1;
            }
            let d = count_dots(&s, i, e);
            if d > 1 {
                let mut m = str_to_string("bad number `");
                let t = text_range(&s, i, e);
                push_str(&mut m, t.as_str());
                push_str(&mut m, "`");
                return Err(m);
            }
            let t = text_range(&s, i, e);
            let ghost tv = ExprTokenView::Num(t@);
            toks.push(ExprToken::Num(t));
            proof {
                assert(tokens_view(toks@) =~= pre.push(tv));
                match scan_expr(s@, e as int) {
                    Ok(ts) => {
                        assert(pre + (seq![tv] + ts) =~= pre.push(tv) + ts);
                    },
                    Err(m) => {},
                }
            }
            i = e;
        } else if c == '\'' || c == '"' {
            match read_quoted(&s, i + 1, c) {
                Ok((t, e)) => {
                    proof {
                        lemma_quoted(s@, i + 1, c);
                    }
                    let ghost tv = ExprTokenView::Str(t@);
                    toks.push(ExprToken::Str(t));
                    proof {
                        assert(tokens_view(toks@) =~= pre.push(tv));
                        match scan_expr(s@, e as int) {
                            Ok(ts) => {
                                assert(pre + (seq![tv] + ts) =~= pre.push(tv) + ts);
                            },
                            Err(m) => {},
                        }
                    }
                    i = e;
                },
                Err(m) => {
                    return Err(m);
                },
            }
        } else if std_is_alphabetic(c) || c == '_' {
            let mut e = i + 1;
            while e < n && (std_is_alphanumeric(s[e]) || s[e] == '_')
                invariant
                    i < e <= n,
                    n == s@.len(),
                    ident_end(s@, i as int + 1) == ident_end(s@, e as int),
                decreases n - e,
            {
                e = e + 1;
            }
            let t = text_range(&s, i, e);
            let ghost tv = ExprTokenView::Ident(t@);
            toks.push(ExprToken::Ident(t));
            proof {
                assert(tokens_view(toks@) =~= pre.push(tv));
                match scan_expr(s@, e as int) {
                    Ok(ts) => {
                        assert(pre + (seq![tv] + ts) =~= pre.push(tv) + ts);
                    },
                    Err(m) => {},
                }
            }
            i = e;
        } else {
            let tok = if c == '(' {
                ExprToken::LParen
            } else if c == ')' {
                ExprToken::RParen
            } else if c == ',' {
                ExprToken::Comma
            } else if c == '+' {
                ExprToken::Plus
            } else if c == '-' {
                ExprToken::Minus
            } else if c == '*' {
                ExprToken::Star
            } else if c == '/' {
                ExprToken::Slash
            } else {
                let mut m = str_to_string("unexpected char `");
                m.push(c);
                push_str(&mut m, "`");
                proof {
                    reveal_strlit("unexpected char `");
                    reveal_strlit("`");
                }
                assert(m@ =~= "unexpected char `"@ + seq![c] + "`"@);
                return Err(m);
            };
            let ghost tv = tok@;
            assert(single_token(c) == Some(tv));
            toks.push(tok);
            proof {
                assert(tokens_view(toks@) =~= pre.push(tv));
                match scan_expr(s@, i + 1) {
                    Ok(ts) => {
                        assert(pre + (seq![tv] + ts) =~= pre.push(tv) + ts);
                    },
                    Err(m) => {},
                }
            }
            i = i + 1;
        }
    }
    assert(scan_expr(s@, n as int) == Ok::<Seq<ExprTokenView>, Seq<char>>(Seq::empty()));
    assert(tokens_view(toks@) + Seq::<ExprTokenView>::empty() =~= tokens_view(toks@));
    Ok(toks)
}

// ------------------------------------------------------------------ the grammar

/// Whether token `p` of `t` is `k`.
pub open spec fn is_tok(t: Seq<ExprTokenView>, p: int, k: ExprTokenView) -> bool {
    0 <= p < t.len() && t[p] == k
}

/// An expression parsed from `pos`, with the position after it.
pub open spec fn p_expr(t: Seq<ExprTokenView>, pos: int) -> Result<(ExprView, int), Seq<char>>
    decreases t.len() - pos, 5int,
{
    p_term(t, pos)
}

/// Terms joined by `+` and `-`, from the left.
pub open spec fn p_term(t: Seq<ExprTokenView>, pos: int) -> Result<(ExprView, int), Seq<char>>
    decreases t.len() - pos, 4int,
{
    match p_factor(t, pos) {
        Err(m) => Err(m),
        Ok((l, p1)) => if pos < p1 <= t.len() {
            term_rest(t, l, p1)
        } else {
            Ok((l, p1))
        },
    }
}

/// The `+ factor` and `- factor` parts after `left`.
pub open spec fn term_rest(t: Seq<ExprTokenView>, left: ExprView, p: int) -> Result<(ExprView, int), Seq<char>>
    decreases t.len() - p, 0int,
{
    if is_tok(t, p, ExprTokenView::Plus) || is_tok(t, p, ExprTokenView::Minus) {
        let op = if is_tok(t, p, ExprTokenView::Plus) { '+' } else { '-' };
        match p_factor(t, p + 1) {
            Err(m) => Err(m),
            Ok((r, p2)) => {
                let b = ExprView::Bin(op, Box::new(left), Box::new(r));
                if p < p2 <= t.len() {
                    term_rest(t, b, p2)
                } else {
                    Ok((b, p2))
                }
            },
        }
    } else {
        Ok((left, p))
    }
}

/// Factors joined by `*` and `/`, from the left.
pub open spec fn p_factor(t: Seq<ExprTokenView>, pos: int) -> Result<(ExprView, int), Seq<char>>
    decreases t.len() - pos, 2int,
{
    match p_unary(t, pos) {
        Err(m) => Err(m),
        Ok((l, p1)) => if pos < p1 <= t.len() {
            factor_rest(t, l, p1)
        } else {
            Ok((l, p1))
        },
    }
}

/// The `* unary` and `/ unary` parts after `left`.
pub open spec fn factor_rest(t: Seq<ExprTokenView>, left: ExprView, p: int) -> Result<(ExprView, int), Seq<char>>
    decreases t.len() - p, 0int,
{
    if is_tok(t, p, ExprTokenView::Star) || is_tok(t, p, ExprTokenView::Slash) {
        let op = if is_tok(t, p, ExprTokenView::Star) { '*' } else { '/' };
        match p_unary(t, p + 1) {
            Err(m) => Err(m),
            Ok((r, p2)) => {
                let b = ExprView::Bin(op, Box::new(left), Box::new(r));
                if p < p2 <= t.len() {
                    factor_rest(t, b, p2)
                } else {
                    Ok((b, p2))
                }
            },
        }
    } else {
        Ok((left, p))
    }
}

/// Minus signs before a primary expression.
pub open spec fn p_unary(t: Seq<ExprTokenView>, pos: int) -> Result<(ExprView, int), Seq<char>>
    decreases t.len() - pos, 1int,
{
    if is_tok(t, pos, ExprTokenView::Minus) {
        match p_unary(t, pos + 1) {
            Err(m) => Err(m),
            Ok((e, p)) => Ok((ExprView::Neg(Box::new(e)), p)),
        }
    } else {
        p_primary(t, pos)
    }
}

/// A number, a string, an expression in brackets or a call.
pub open spec fn p_primary(t: Seq<ExprTokenView>, pos: int) -> Result<(ExprView, int), Seq<char>>
    decreases t.len() - pos, 0int,
{
    if pos < 0 || pos >= t.len() {
        Err("expected expression"@)
    } else {
        match t[pos] {
            ExprTokenView::Num(v) => Ok((ExprView::Num(v), pos + 1)),
            ExprTokenView::Str(x) => Ok((ExprView::Str(x), pos + 1)),
            ExprTokenView::LParen => match p_expr(t, pos + 1) {
                Err(m) => Err(m),
                Ok((e, p)) => if is_tok(t, p, ExprTokenView::RParen) {
                    Ok((e, p + 1))
                } else {
                    Err("expected `)`"@)
                },
            },
            ExprTokenView::Ident(name) => if is_tok(t, pos + 1, ExprTokenView::LParen) {
                if is_tok(t, pos + 2, ExprTokenView::RParen) {
                    Ok((ExprView::Call(name, Seq::empty()), pos + 3))
                } else {
                    p_args(t, name, Seq::empty(), pos + 2)
                }
            } else {
                Err("bare identifier `"@ + name + "`"@)
            },
            _ => Err("expected expression"@),
        }
    }
}

/// The arguments of a call of `name` from `p`, after those in `acc`, up to
/// the closing bracket.
pub open spec fn p_args(t: Seq<ExprTokenView>, name: Seq<char>, acc: Seq<ExprView>, p: int) -> Result<(ExprView, int), Seq<char>>
    decreases t.len() - p, 6int,
{
    match p_expr(t, p) {
        Err(m) => Err(m),
        Ok((e, p2)) => if is_tok(t, p2, ExprTokenView::Comma) {
            if p <= p2 {
                p_args(t, name, acc.push(e), p2 + 1)
            } else {
                Ok((ExprView::Call(name, acc.push(e)), p2 + 1))
            }
        } else if is_tok(t, p2, ExprTokenView::RParen) {
            Ok((ExprView::Call(name, acc.push(e)), p2 + 1))
        } else {
            Err("expected `,` or `)`"@)
        },
    }
}

/// An expression text parsed: all its tokens make one expression.
pub open spec fn parsed(s: Seq<char>) -> Result<ExprView, Seq<char>> {
    match scan_expr(s, 0) {
        Err(m) => Err(m),
        Ok(t) => match p_expr(t, 0) {
            Err(m) => Err(m),
            Ok((e, p)) => if p == t.len() {
                Ok(e)
            } else {
                Err("trailing tokens"@)
            },
        },
    }
}

// ------------------------------------------------------------------ parsing moves forward

/// A parsed expression ends after its start and within the tokens.
pub proof fn lemma_p_expr(t: Seq<ExprTokenView>, pos: int)
    requires
        0 <= pos <= t.len(),
    ensures
        p_expr(t, pos) is Ok ==> pos < p_expr(t, pos)->Ok_0.1 <= t.len(),
    decreases t.len() - pos, 5int,
{
    lemma_p_term(t, pos);
}

/// A parsed term ends after its start and within the tokens.
pub proof fn lemma_p_term(t: Seq<ExprTokenView>, pos: int)
    requires
        0 <= pos <= t.len(),
    ensures
        p_term(t, pos) is Ok ==> pos < p_term(t, pos)->Ok_0.1 <= t.len(),
    decreases t.len() - pos, 4int,
{
    lemma_p_factor(t, pos);
    if let Ok((l, p1)) = p_factor(t, pos) {
        lemma_term_rest(t, l, p1);
    }
}

/// What follows a term ends at or after its start and within the tokens.
pub proof fn lemma_term_rest(t: Seq<ExprTokenView>, left: ExprView, p: int)
    requires
        0 <= p <= t.len(),
    ensures
        term_rest(t, left, p) is Ok ==> p <= term_rest(t, left, p)->Ok_0.1 <= t.len(),
    decreases t.len() - p, 0int,
{
    if is_tok(t, p, ExprTokenView::Plus) || is_tok(t, p, ExprTokenView::Minus) {
        lemma_p_factor(t, p + 1);
        let op = if is_tok(t, p, ExprTokenView::Plus) { '+' } else { '-' };
        if let Ok((r, p2)) = p_factor(t, p + 1) {
            lemma_term_rest(t, ExprView::Bin(op, Box::new(left), Box::new(r)), p2);
        }
    }
}

/// A parsed factor ends after its start and within the tokens.
pub proof fn lemma_p_factor(t: Seq<ExprTokenView>, pos: int)
    requires
        0 <= pos <= t.len(),
    ensures
        p_factor(t, pos) is Ok ==> pos < p_factor(t, pos)->Ok_0.1 <= t.len(),
    decreases t.len() - pos, 2int,
{
    lemma_p_unary(t, pos);
    if let Ok((l, p1)) = p_unary(t, pos) {
        lemma_factor_rest(t, l, p1);
    }
}

/// What follows a factor ends at or after its start and within the tokens.
pub proof fn lemma_factor_rest(t: Seq<ExprTokenView>, left: ExprView, p: int)
    requires
        0 <= p <= t.len(),
    ensures
        factor_rest(t, left, p) is Ok ==> p <= factor_rest(t, left, p)->Ok_0.1 <= t.len(),
    decreases t.len() - p, 0int,
{
    if is_tok(t, p, ExprTokenView::Star) || is_tok(t, p, ExprTokenView::Slash) {
        lemma_p_unary(t, p + 1);
        let op = if is_tok(t, p, ExprTokenView::Star) { '*' } else { '/' };
        if let Ok((r, p2)) = p_unary(t, p + 1) {
            lemma_factor_rest(t, ExprView::Bin(op, Box::new(left), Box::new(r)), p2);
        }
    }
}

/// A parsed unary expression ends after its start and within the tokens.
pub proof fn lemma_p_unary(t: Seq<ExprTokenView>, pos: int)
    requires
        0 <= pos <= t.len(),
    ensures
        p_unary(t, pos) is Ok ==> pos < p_unary(t, pos)->Ok_0.1 <= t.len(),
    decreases t.len() - pos, 1int,
{
    if is_tok(t, pos, ExprTokenView::Minus) {
        lemma_p_unary(t, pos + 1);
    } else {
        lemma_p_primary(t, pos);
    }
}

/// A parsed primary expression ends after its start and within the tokens.
pub proof fn lemma_p_primary(t: Seq<ExprTokenView>, pos: int)
    requires
        0 <= pos <= t.len(),
    ensures
        p_primary(t, pos) is Ok ==> pos < p_primary(t, pos)->Ok_0.1 <= t.len(),
    decreases t.len() - pos, 0int,
{
    if pos < t.len() {
        match t[pos] {
            ExprTokenView::LParen => {
                lemma_p_expr(t, pos + 1);
            },
            ExprTokenView::Ident(name) => {
                if is_tok(t, pos + 1, ExprTokenView::LParen) && !is_tok(t, pos + 2, ExprTokenView::RParen) {
                    lemma_p_args(t, name, Seq::empty(), pos + 2);
                }
            },
            _ => {},
        }
    }
}

/// Parsed arguments end after their start and within the tokens.
pub proof fn lemma_p_args(t: Seq<ExprTokenView>, name: Seq<char>, acc: Seq<ExprView>, p: int)
    requires
        0 <= p <= t.len(),
    ensures
        p_args(t, name, acc, p) is Ok ==> p < p_args(t, name, acc, p)->Ok_0.1 <= t.len(),
    decreases t.len() - p, 6int,
{
    lemma_p_expr(t, p);
    if let Ok((e, p2)) = p_expr(t, p) {
        if is_tok(t, p2, ExprTokenView::Comma) {
            lemma_p_args(t, name, acc.push(e), p2 + 1);
        }
    }
}

// ------------------------------------------------------------------ parsing, executably

/// The view of a parse result.
pub open spec fn parse_view(r: Result<(Expr, usize), String>) -> Result<(ExprView, int), Seq<char>> {
    match r {
        Ok((e, p)) => Ok((expr_view(e), p as int)),
        Err(m) => Err(m@),
    }
}

fn parse_expr_at(t: &Vec<ExprToken>, pos: usize) -> (r: Result<(Expr, usize), String>)
    requires
        pos <= t@.len(),
    ensures
        parse_view(r) == p_expr(tokens_view(t@), pos as int),
    decreases t@.len() - pos, 5int,
{
    parse_term_at(t, pos)
}

fn parse_term_at(t: &Vec<ExprToken>, pos: usize) -> (r: Result<(Expr, usize), String>)
    requires
        pos <= t@.len(),
    ensures
        parse_view(r) == p_term(tokens_view(t@), pos as int),
    decreases t@.len() - pos, 4int,
{
    match parse_factor_at(t, pos) {
        Err(m) => Err(m),
        Ok((l, p1)) => {
            proof {
                lemma_p_factor(tokens_view(t@), pos as int);
            }
            parse_term_rest(t, l, p1)
        },
    }
}

fn parse_term_rest(t: &Vec<ExprToken>, left: Expr, p: usize) -> (r: Result<(Expr, usize), String>)
    requires
        p <= t@.len(),
    ensures
        parse_view(r) == term_rest(tokens_view(t@), expr_view(left), p as int),
    decreases t@.len() - p, 0int,
{
    let ghost tv = tokens_view(t@);
    let op = if p < t.len() {
        match &t[p] {
            ExprToken::Plus => Some('+'),
            ExprToken::Minus => Some('-'),
            _ => None,
        }
    } else {
        None
    };
    match op {
        None => Ok((left, p)),
        Some(o) => {
            assert(tv[p as int] == t@[p as int]@);
            match parse_factor_at(t, p + 1) {
                Err(m) => Err(m),
                Ok((r, p2)) => {
                    proof {
                        lemma_p_factor(tv, p + 1);
                    }
                    let b = Expr::Bin(o, Box::new(left), Box::new(r));
                    parse_term_rest(t, b, p2)
                },
            }
        },
    }
}

fn parse_factor_at(t: &Vec<ExprToken>, pos: usize) -> (r: Result<(Expr, usize), String>)
    requires
        pos <= t@.len(),
    ensures
        parse_view(r) == p_factor(tokens_view(t@), pos as int),
    decreases t@.len() - pos, 2int,
{
    match parse_unary_at(t, pos) {
        Err(m) => Err(m),
        Ok((l, p1)) => {
            proof {
                lemma_p_unary(tokens_view(t@), pos as int);
            }
            parse_factor_rest(t, l, p1)
        },
    }
}

fn parse_factor_rest(t: &Vec<ExprToken>, left: Expr, p: usize) -> (r: Result<(Expr, usize), String>)
    requires
        p <= t@.len(),
    ensures
        parse_view(r) == factor_rest(tokens_view(t@), expr_view(left), p as int),
    decreases t@.len() - p, 0int,
{
    let ghost tv = tokens_view(t@);
    let op = if p < t.len() {
        match &t[p] {
            ExprToken::Star => Some('*'),
            ExprToken::Slash => Some('/'),
            _ => None,
        }
    } else {
        None
    };
    match op {
        None => Ok((left, p)),
        Some(o) => {
            assert(tv[p as int] == t@[p as int]@);
            match parse_unary_at(t, p + 1) {
                Err(m) => Err(m),
                Ok((r, p2)) => {
                    proof {
                        lemma_p_unary(tv, p + 1);
                    }
                    let b = Expr::Bin(o, Box::new(left), Box::new(r));
                    parse_factor_rest(t, b, p2)
                },
            }
        },
    }
}

fn parse_unary_at(t: &Vec<ExprToken>, pos: usize) -> (r: Result<(Expr, usize), String>)
    requires
        pos <= t@.len(),
    ensures
        parse_view(r) == p_unary(tokens_view(t@), pos as int),
    decreases t@.len() - pos, 1int,
{
    let ghost tv = tokens_view(t@);
    let minus = pos < t.len() && match &t[pos] {
        ExprToken::Minus => true,
        _ => false,
    };
    if minus {
        assert(tv[pos as int] == t@[pos as int]@);
        match parse_unary_at(t, pos + 1) {
            Err(m) => Err(m),
            Ok((e, p)) => Ok((Expr::Neg(Box::new(e)), p)),
        }
    } else {
        proof {
            if pos < t@.len() {
                assert(tv[pos as int] == t@[pos as int]@);
            }
        }
        parse_primary_at(t, pos)
    }
}

fn is_token(t: &Vec<ExprToken>, p: usize, k: &ExprToken) -> (r: bool)
    requires
        k@ == ExprTokenView::LParen || k@ == ExprTokenView::RParen || k@ == ExprTokenView::Comma,
    ensures
        r == is_tok(tokens_view(t@), p as int, k@),
{
    if p >= t.len() {
        return false;
    }
    assert(tokens_view(t@)[p as int] == t@[p as int]@);
    match (&t[p], k) {
        (ExprToken::LParen, ExprToken::LParen) => true,
        (ExprToken::RParen, ExprToken::RParen) => true,
        (ExprToken::Comma, ExprToken::Comma) => true,
        (ExprToken::LParen, _) => false,
        (ExprToken::RParen, _) => false,
        (ExprToken::Comma, _) => false,
        (ExprToken::Num(_), _) => false,
        (ExprToken::Str(_), _) => false,
        (ExprToken::Ident(_), _) => false,
        (ExprToken::Plus, _) => false,
        (ExprToken::Minus, _) => false,
        (ExprToken::Star, _) => false,
        (ExprToken::Slash, _) => false,
    }
}

fn parse_primary_at(t: &Vec<ExprToken>, pos: usize) -> (r: Result<(Expr, usize), String>)
    requires
        pos <= t@.len(),
    ensures
        parse_view(r) == p_primary(tokens_view(t@), pos as int),
    decreases t@.len() - pos, 0int,
{
    let ghost tv = tokens_view(t@);
    if pos >= t.len() {
        return Err(str_to_string("expected expression"));
    }
    assert(tv[pos as int] == t@[pos as int]@);
    match &t[pos] {
        ExprToken::Num(v) => Ok((Expr::Num(str_to_string(v.as_str())), pos + 1)),
        ExprToken::Str(x) => Ok((Expr::Str(str_to_string(x.as_str())), pos + 1)),
        ExprToken::LParen => {
            match parse_expr_at(t, pos + 1) {
                Err(m) => Err(m),
                Ok((e, p)) => {
                    proof {
                        lemma_p_expr(tv, pos + 1);
                    }
                    if is_token(t, p, &ExprToken::RParen) {
                        Ok((e, p + 1))
                    } else {
                        Err(str_to_string("expected `)`"))
                    }
                },
            }
        },
        ExprToken::Ident(name) => {
            if is_token(t, pos + 1, &ExprToken::LParen) {
                if is_token(t, pos + 2, &ExprToken::RParen) {
                    let args: Vec<Expr> = Vec::new();
                    assert(args_view(args@) =~= Seq::<ExprView>::empty());
                    Ok((Expr::Call(str_to_string(name.as_str()), args), pos + 3))
                } else {
                    let args: Vec<Expr> = Vec::new();
                    assert(args_view(args@) =~= Seq::<ExprView>::empty());
                    parse_args_at(t, str_to_string(name.as_str()), args, pos + 2)
                }
            } else {
                let mut m = str_to_string("bare identifier `");
                push_str(&mut m, name.as_str());
                push_str(&mut m, "`");
                Err(m)
            }
        },
        _ => Err(str_to_string("expected expression")),
    }
}

fn parse_args_at(t: &Vec<ExprToken>, name: String, acc: Vec<Expr>, p: usize) -> (r: Result<(Expr, usize), String>)
    requires
        p <= t@.len(),
    ensures
        parse_view(r) == p_args(tokens_view(t@), name@, args_view(acc@), p as int),
    decreases t@.len() - p, 6int,
{
    let ghost tv = tokens_view(t@);
    match parse_expr_at(t, p) {
        Err(m) => Err(m),
        Ok((e, p2)) => {
            proof {
                lemma_p_expr(tv, p as int);
            }
            let ghost before = args_view(acc@);
            let ghost ev = expr_view(e);
            let mut acc = acc;
            acc.push(e);
            assert(args_view(acc@) =~= before.push(ev));
            if is_token(t, p2, &ExprToken::Comma) {
                assert(p2 < t.len());
                parse_args_at(t, name, acc, p2 + 1)
            } else if is_token(t, p2, &ExprToken::RParen) {
                assert(p2 < t.len());
                Ok((Expr::Call(name, acc), p2 + 1))
            } else {
                Err(str_to_string("expected `,` or `)`"))
            }
        },
    }
}

/// Parses an expression text.
pub fn parse_expression(text: &str) -> (r: Result<Expr, String>)
    ensures
        match r {
            Ok(e) => parsed(text@) == Ok::<ExprView, Seq<char>>(expr_view(e)),
            Err(m) => parsed(text@) == Err::<ExprView, Seq<char>>(m@),
        },
{
    let toks = match expr_tokens(text) {
        Err(m) => {
            return Err(m);
        },
        Ok(t) => t,
    };
    match parse_expr_at(&toks, 0) {
        Err(m) => Err(m),
        Ok((e, p)) => {
            if p == toks.len() {
                Ok(e)
            } else {
                Err(str_to_string("trailing tokens"))
            }
        },
    }
}

// ------------------------------------------------------------------ `eval( .. )` and the tags it reads

/// The expression text of a style value `eval( .. )`: the value trimmed and,
/// where it reads `eval`, white space, `(`, .., `)`, what stands between the
/// brackets, trimmed.
pub open spec fn eval_body(s: Seq<char>) -> Seq<char> {
    let st = trim(s);
    if st.len() >= 4 && st.subrange(0, 4) == "eval"@ {
        let r = st.subrange(skip_ws(st, 4), st.len() as int);
        if r.len() >= 2 && r[0] == '(' && r.last() == ')' {
            trim(r.subrange(1, r.len() - 1))
        } else {
            st
        }
    } else {
        st
    }
}

/// The expression text of a style value `eval( .. )`.
pub fn eval_text(s: &str) -> (r: String)
    ensures
        r@ == eval_body(s@),
{
    let cs = chars_of(s);
    let st = trim_chars(&cs);
    let n = st.len();
    proof {
        reveal_strlit("eval");
    }
    if n >= 4 && st[0] == 'e' && st[1] == 'v' && st[2] == 'a' && st[3] == 'l' {
        assert(st@.subrange(0, 4) =~= "eval"@);
        let a = scan_ws(&st, 4);
        if a < n && n - a >= 2 && st[a] == '(' && st[n - 1] == ')' {
            let mut inner: Vec<char> = Vec::new();
            let mut k = a + 1;
            while k < n - 1
                invariant
                    a + 1 <= k <= n - 1,
                    n == st@.len(),
                    inner@ == st@.subrange(a + 1, k as int),
                decreases n - 1 - k,
            {
                inner.push(st[k]);
                k = k + 1;
                assert(inner@ =~= st@.subrange(a + 1, k as int));
            }
            let ghost r = st@.subrange(a as int, n as int);
            assert(r.subrange(1, r.len() - 1) =~= inner@);
            let t = trim_chars(&inner);
            return text_of_chars(&t);
        }
        proof {
            let r = st@.subrange(a as int, n as int);
            if r.len() >= 2 {
                assert(r[0] == st@[a as int]);
                assert(r.last() == st@[n - 1]);
            }
        }
    } else {
        proof {
            if st@.len() >= 4 && st@.subrange(0, 4) == "eval"@ {
                assert(st@[0] == st@.subrange(0, 4)[0]);
                assert(st@[1] == st@.subrange(0, 4)[1]);
                assert(st@[2] == st@.subrange(0, 4)[2]);
                assert(st@[3] == st@.subrange(0, 4)[3]);
            }
        }
    }
    text_of_chars(&st)
}

fn text_of_chars(v: &Vec<char>) -> (r: String)
    ensures
        r@ == v@,
{
    crate::text::text_of(v)
}

/// The strings among some expressions, in order.
pub open spec fn string_args(args: Seq<ExprView>) -> Seq<Seq<char>>
    decreases args.len(),
{
    if args.len() == 0 {
        Seq::empty()
    } else {
        string_args(args.drop_last()) + match args.last() {
            ExprView::Str(x) => seq![x],
            _ => Seq::empty(),
        }
    }
}

/// The tags an expression reads, in order: the string arguments of each
/// call of `tag`.
pub open spec fn expr_tags(e: ExprView) -> Seq<Seq<char>>
    decreases e,
{
    match e {
        ExprView::Call(name, args) => (if name == "tag"@ { string_args(args) } else { Seq::empty() }) + args_tags(args),
        ExprView::Bin(_, a, b) => expr_tags(*a) + expr_tags(*b),
        ExprView::Neg(a) => expr_tags(*a),
        _ => Seq::empty(),
    }
}

/// The tags some expressions read, in order.
pub open spec fn args_tags(args: Seq<ExprView>) -> Seq<Seq<char>>
    decreases args,
{
    if args.len() == 0 {
        Seq::empty()
    } else {
        args_tags(args.drop_last()) + expr_tags(args.last())
    }
}

fn push_tags(e: &Expr, out: &mut Vec<String>)
    ensures
        texts(final(out)@) == texts(old(out)@) + expr_tags(expr_view(*e)),
    decreases e,
{
    match e {
        Expr::Call(name, args) => {
            let ghost av = args_view(args@);
            let ghost o0 = texts(out@);
            let is_tag = crate::condition::str_eq(name.as_str(), "tag");
            if is_tag {
                for i in 0..args.len()
                    invariant
                        av == args_view(args@),
                        texts(out@) == o0 + string_args(av.take(i as int)),
                {
                    assert(av.take(i as int + 1).drop_last() =~= av.take(i as int));
                    assert(av[i as int] == expr_view(args@[i as int]));
                    let ghost before = texts(out@);
                    match &args[i] {
                        Expr::Str(x) => {
                            assert(av[i as int] == ExprView::Str(x@));
                            assert(av.take(i as int + 1).last() == av[i as int]);
                            out.push(str_to_string(x.as_str()));
                            assert(texts(out@) =~= before.push(x@));
                            assert(texts(out@) =~= o0 + string_args(av.take(i as int + 1)));
                        },
                        _ => {
                            assert(av.take(i as int + 1).last() == av[i as int]);
                            assert(texts(out@) =~= o0 + string_args(av.take(i as int + 1)));
                        },
                    }
                }
                assert(av.take(args@.len() as int) =~= av);
            } else {
                assert(texts(out@) =~= o0 + Seq::<Seq<char>>::empty());
            }
            let ghost o1 = texts(out@);
            assert(av.take(0) =~= Seq::<ExprView>::empty());
            proof {
                assert forall|k: int| 0 <= k < args@.len() implies decreases_to!(*e => #[trigger] args@[k]) by {
                    assert(decreases_to!(*e => *args));
                    assert(decreases_to!(*args => args@));
                    assert(decreases_to!(args@ => args@[k]));
                }
            }
            for i in 0..args.len()
                invariant
                    av == args_view(args@),
                    forall|k: int| 0 <= k < args@.len() ==> decreases_to!(*e => #[trigger] args@[k]),
                    texts(out@) == o1 + args_tags(av.take(i as int)),
            {
                assert(av.take(i as int + 1).drop_last() =~= av.take(i as int));
                assert(av[i as int] == expr_view(args@[i as int]));
                push_tags(&args[i], out);
                assert(texts(out@) =~= o1 + args_tags(av.take(i as int + 1)));
            }
            assert(av.take(args@.len() as int) =~= av);
            assert(texts(out@) =~= texts(old(out)@) + expr_tags(expr_view(*e)));
        },
        Expr::Bin(_, a, b) => {
            push_tags(a, out);
            push_tags(b, out);
            assert(texts(out@) =~= texts(old(out)@) + expr_tags(expr_view(*e)));
        },
        Expr::Neg(a) => {
            push_tags(a, out);
        },
        _ => {
            assert(texts(out@) =~= texts(old(out)@) + expr_tags(expr_view(*e)));
        },
    }
}

/// The tags an expression reads, in order.
pub fn tags_of(e: &Expr) -> (r: Vec<String>)
    ensures
        texts(r@) == expr_tags(expr_view(*e)),
{
    let mut r: Vec<String> = Vec::new();
    assert(texts(r@) =~= Seq::<Seq<char>>::empty());
    push_tags(e, &mut r);
    assert(Seq::<Seq<char>>::empty() + expr_tags(expr_view(*e)) =~= expr_tags(expr_view(*e)));
    r
}

} // verus!
