use kothic::expr::{eval_text, parse_expression, tags_of, Expr as Parsed};

// The expression grammar written as a plain recursive-descent parser over
// floats, to hold the verified parser against.


#[derive(Clone, Debug, PartialEq)]
pub enum Expr {
    Num(f64),
    Str(String),
    Call(String, Vec<Expr>),
    Bin(char, Box<Expr>, Box<Expr>),
    Neg(Box<Expr>),
}

struct Parser {
    tokens: Vec<Tok>,
    pos: usize,
}

#[derive(Clone, Debug)]
enum Tok {
    Num(f64),
    Str(String),
    Ident(String),
    LParen,
    RParen,
    Comma,
    Plus,
    Minus,
    Star,
    Slash,
}

fn tokenize(s: &str) -> Result<Vec<Tok>, String> {
    let mut toks = Vec::new();
    let chars: Vec<char> = s.chars().collect();
    let mut i = 0;
    while i < chars.len() {
        let c = chars[i];
        if c.is_whitespace() {
            i += 1;
        } else if c.is_ascii_digit()
            || (c == '.' && i + 1 < chars.len() && chars[i + 1].is_ascii_digit())
        {
            let start = i;
            while i < chars.len() && (chars[i].is_ascii_digit() || chars[i] == '.') {
                i += 1;
            }
            let text: String = chars[start..i].iter().collect();
            let v = text
                .parse::<f64>()
                .map_err(|_| format!("bad number `{text}`"))?;
            toks.push(Tok::Num(v));
        } else if c == '\'' || c == '"' {
            let quote = c;
            i += 1;
            let mut out = String::new();
            loop {
                if i >= chars.len() {
                    return Err("unterminated string".to_string());
                }
                let ch = chars[i];
                if ch == quote {
                    i += 1;
                    break;
                } else if ch == '\\' {
                    i += 1;
                    if i >= chars.len() {
                        return Err("unterminated escape".to_string());
                    }
                    let e = chars[i];
                    out.push(match e {
                        'n' => '\n',
                        't' => '\t',
                        'r' => '\r',
                        '\\' => '\\',
                        '\'' => '\'',
                        '"' => '"',
                        other => other,
                    });
                    i += 1;
                } else {
                    out.push(ch);
                    i += 1;
                }
            }
            toks.push(Tok::Str(out));
        } else if c.is_alphabetic() || c == '_' {
            let start = i;
            while i < chars.len() && (chars[i].is_alphanumeric() || chars[i] == '_') {
                i += 1;
            }
            toks.push(Tok::Ident(chars[start..i].iter().collect()));
        } else {
            i += 1;
            toks.push(match c {
                '(' => Tok::LParen,
                ')' => Tok::RParen,
                ',' => Tok::Comma,
                '+' => Tok::Plus,
                '-' => Tok::Minus,
                '*' => Tok::Star,
                '/' => Tok::Slash,
                other => return Err(format!("unexpected char `{other}`")),
            });
        }
    }
    Ok(toks)
}

impl Parser {
    fn peek(&self) -> Option<&Tok> {
        self.tokens.get(self.pos)
    }

    fn next(&mut self) -> Option<Tok> {
        let t = self.tokens.get(self.pos).cloned();
        if t.is_some() {
            self.pos += 1;
        }
        t
    }

    fn parse_expr(&mut self) -> Result<Expr, String> {
        self.parse_term()
    }

    fn parse_term(&mut self) -> Result<Expr, String> {
        let mut left = self.parse_factor()?;
        while let Some(t) = self.peek() {
            let op = match t {
                Tok::Plus => '+',
                Tok::Minus => '-',
                _ => break,
            };
            self.next();
            let right = self.parse_factor()?;
            left = Expr::Bin(op, Box::new(left), Box::new(right));
        }
        Ok(left)
    }

    fn parse_factor(&mut self) -> Result<Expr, String> {
        let mut left = self.parse_unary()?;
        while let Some(t) = self.peek() {
            let op = match t {
                Tok::Star => '*',
                Tok::Slash => '/',
                _ => break,
            };
            self.next();
            let right = self.parse_unary()?;
            left = Expr::Bin(op, Box::new(left), Box::new(right));
        }
        Ok(left)
    }

    fn parse_unary(&mut self) -> Result<Expr, String> {
        if let Some(Tok::Minus) = self.peek() {
            self.next();
            return Ok(Expr::Neg(Box::new(self.parse_unary()?)));
        }
        self.parse_primary()
    }

    fn parse_primary(&mut self) -> Result<Expr, String> {
        match self.next() {
            Some(Tok::Num(v)) => Ok(Expr::Num(v)),
            Some(Tok::Str(s)) => Ok(Expr::Str(s)),
            Some(Tok::LParen) => {
                let e = self.parse_expr()?;
                if !matches!(self.next(), Some(Tok::RParen)) {
                    return Err("expected `)`".to_string());
                }
                Ok(e)
            }
            Some(Tok::Ident(name)) => {
                if matches!(self.peek(), Some(Tok::LParen)) {
                    self.next();
                    let mut args = Vec::new();
                    if !matches!(self.peek(), Some(Tok::RParen)) {
                        loop {
                            args.push(self.parse_expr()?);
                            match self.next() {
                                Some(Tok::Comma) => continue,
                                Some(Tok::RParen) => break,
                                _ => return Err("expected `,` or `)`".to_string()),
                            }
                        }
                    } else {
                        self.next();
                    }
                    Ok(Expr::Call(name, args))
                } else {
                    Err(format!("bare identifier `{name}`"))
                }
            }
            _ => Err("expected expression".to_string()),
        }
    }
}

fn reference_parse(s: &str) -> Result<Expr, String> {
    let toks = tokenize(s)?;
    let mut p = Parser {
        tokens: toks,
        pos: 0,
    };
    let e = p.parse_expr()?;
    if p.pos != p.tokens.len() {
        return Err("trailing tokens".to_string());
    }
    Ok(e)
}


fn convert(e: Parsed) -> Expr {
    match e {
        Parsed::Num(t) => Expr::Num(t.parse::<f64>().unwrap()),
        Parsed::Str(x) => Expr::Str(x),
        Parsed::Call(n, args) => Expr::Call(n, args.into_iter().map(convert).collect()),
        Parsed::Bin(op, a, b) => Expr::Bin(op, Box::new(convert(*a)), Box::new(convert(*b))),
        Parsed::Neg(a) => Expr::Neg(Box::new(convert(*a))),
    }
}

fn ours(s: &str) -> Result<Expr, String> {
    parse_expression(s).map(convert)
}

#[test]
fn expressions_parse_as_the_grammar_says() {
    let cases = [
        "1",
        "1.5 + 2 * 3",
        "(1 + 2) * 3",
        "-1 - -2",
        "--3",
        "tag('name')",
        "num(tag(\"width\")) * 2 + 1",
        "max(1, 2, min(3, 4))",
        "any()",
        "cond(boolean(tag('a')), 'x\\'y', \"z\\n\")",
        ".5 / 2.",
        "1..2",
        "1.2.3",
        "a",
        "f(",
        "f(1",
        "f(1,",
        "f(1 2)",
        "(1",
        "1 2",
        "'open",
        "'esc\\",
        "1 $ 2",
        "",
        "   ",
        "x_1(y)",
        "é(1)",
        "3 * (2 - tag('k')) / 4",
        "1 + ",
        "*",
        ")",
        "f(,)",
    ];
    for c in cases {
        assert_eq!(ours(c), reference_parse(c), "on {:?}", c);
    }
}

#[test]
fn numbers_keep_their_text() {
    match parse_expression("2.50") {
        Ok(Parsed::Num(t)) => assert_eq!(t, "2.50"),
        _ => panic!("not a number"),
    }
}

#[test]
fn bad_numbers_and_strings_are_reported() {
    assert_eq!(parse_expression("1.2.3").err(), Some("bad number `1.2.3`".to_string()));
    assert_eq!(parse_expression("'abc").err(), Some("unterminated string".to_string()));
    assert_eq!(parse_expression("'ab\\").err(), Some("unterminated escape".to_string()));
    assert_eq!(parse_expression("1 # 2").err(), Some("unexpected char `#`".to_string()));
    assert_eq!(parse_expression("1 2").err(), Some("trailing tokens".to_string()));
    assert_eq!(parse_expression("foo").err(), Some("bare identifier `foo`".to_string()));
    assert_eq!(parse_expression("f(1 2)").err(), Some("expected `,` or `)`".to_string()));
    assert_eq!(parse_expression("(1").err(), Some("expected `)`".to_string()));
    assert_eq!(parse_expression("").err(), Some("expected expression".to_string()));
}

#[test]
fn eval_values_give_their_expression() {
    assert_eq!(eval_text("  eval( 1 + 2 )  "), "1 + 2");
    assert_eq!(eval_text("eval  (tag('x'))"), "tag('x')");
    assert_eq!(eval_text("eval(1"), "eval(1");
    assert_eq!(eval_text(" 3 "), "3");
    assert_eq!(eval_text("eval()"), "");
}

#[test]
fn tags_read_are_listed_in_order() {
    let e = parse_expression("tag('b') + num(tag('a', 'c')) * tag(x(), 'b')").unwrap();
    assert_eq!(tags_of(&e), vec!["b".to_string(), "a".to_string(), "c".to_string(), "b".to_string()]);
    let e = parse_expression("prop('width') - 1").unwrap();
    assert!(tags_of(&e).is_empty());
}
