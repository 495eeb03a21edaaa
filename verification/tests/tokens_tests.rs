use kothic::tokens::{next_token, Token};
use regex::Regex;

fn s(v: &str) -> String {
    v.to_string()
}

fn show(t: &Token) -> String {
    match t {
        Token::Class(x) => format!("class {}", x),
        Token::Zoom(x) => format!("zoom {}", x),
        Token::Group => s("group"),
        Token::Condition(x) => format!("condition {}", x),
        Token::Object(x) => format!("object {}", x),
        Token::Declaration(x) => format!("declaration {}", x),
        Token::Comment => s("comment"),
        Token::Import(x) => format!("import {}", x),
        Token::Variable(n, v) => format!("variable {}={}", n, v),
        Token::Unknown(x) => format!("unknown {}", x),
        Token::Unexpected => s("unexpected"),
    }
}

fn token(css: &str) -> (String, usize) {
    let (t, n) = next_token(css);
    (show(&t), n)
}

/// The same tokens read with the stylesheet grammar's regular expressions.
fn by_regex(css: &str) -> (String, usize) {
    let chars = |m: regex::Match| css[..m.end()].chars().count();
    let table: Vec<(&str, &str)> = vec![
        ("class", r"\A(?sx)([.:]:?[*\w]+)\s*"),
        ("zoom", r"\A(?isx)\|\s*z([\d-]+)\s*"),
        ("group", r"\A(?sx),\s*"),
        ("condition", r"\A(?sx)\[(.+?)\]\s*"),
        ("object", r"\A(?sx)(\*|[\w]+)\s*"),
        ("declaration", r"\A(?sx)\{(.*?)\}\s*"),
        ("comment", r"\A(?sx)/\*.*?\*/\s*"),
        ("import", r#"\A(?sx)@import\("(.+?)"\);\s*"#),
        ("variable", r"\A(?isx)@([a-z][\w\d]*)\s*:\s*(.+?)\s*;\s*"),
        ("unknown", r"\A(?sx)(\S+)\s*"),
    ];
    for (kind, re) in table {
        if let Some(c) = Regex::new(re).unwrap().captures(css) {
            let whole = c.get(0).unwrap();
            let text = match kind {
                "group" | "comment" => s(kind),
                "variable" => format!("variable {}={}", &c[1], &c[2]),
                _ => format!("{} {}", kind, &c[1]),
            };
            return (text, chars(whole));
        }
    }
    (s("unexpected"), 0)
}

#[test]
fn tokens_read_as_the_grammar_says() {
    assert_eq!(token(".class rest"), (s("class .class"), 7));
    assert_eq!(token("::*foo x"), (s("class ::*foo"), 7));
    assert_eq!(token(":: x"), (s("unknown ::"), 3));
    assert_eq!(token("|z10-12 {"), (s("zoom 10-12"), 8));
    assert_eq!(token("| Z5"), (s("zoom 5"), 4));
    assert_eq!(token(", node"), (s("group"), 2));
    assert_eq!(token("[highway=primary] x"), (s("condition highway=primary"), 18));
    assert_eq!(token("[]]"), (s("condition ]"), 3));
    assert_eq!(token("* {"), (s("object *"), 2));
    assert_eq!(token("node|z1"), (s("object node"), 4));
    assert_eq!(token("{width: 1;}  x"), (s("declaration width: 1;"), 13));
    assert_eq!(token("/* a */ b"), (s("comment"), 8));
    assert_eq!(token("/*/ b"), (s("unknown /*/"), 4));
    assert_eq!(token("@import(\"x.mapcss\"); y"), (s("import x.mapcss"), 21));
    assert_eq!(token("@color: #fff; x"), (s("variable color=#fff"), 14));
    assert_eq!(token("@a : b c ;;"), (s("variable a=b c"), 10));
    assert_eq!(token("@a: ;"), (s("variable a= "), 5));
    assert_eq!(token("@a:;"), (s("unknown @a:;"), 4));
    assert_eq!(token(""), (s("unexpected"), 0));
    assert_eq!(token(" x"), (s("unexpected"), 0));
}

#[test]
fn tokens_agree_with_the_regular_expressions() {
    let cases = [
        ".class rest",
        "::*foo x",
        ":: x",
        ":x",
        ".a*b-c",
        "|z10-12 {",
        "| Z5",
        "|z",
        "|zx",
        "|z٣-",
        ", node",
        "[highway=primary] x",
        "[]]",
        "[]",
        "[a\n]b",
        "* {",
        "node|z1",
        "улица x",
        "{width: 1;}  x",
        "{}",
        "{ a",
        "/* a */ b",
        "/*/ b",
        "/**/",
        "/* a",
        "@import(\"x.mapcss\"); y",
        "@import(\"\");\");",
        "@import(\"a\")",
        "@color: #fff; x",
        "@a : b c ;;",
        "@a: ;",
        "@a:;",
        "@a:  ; ;",
        "@a:\t;\n",
        "@A1_x:v;",
        "@\u{212A}x: 1;",
        "@\u{17F}: 2;",
        "@1a: 2;",
        "@a b: 2;",
        "@a: b",
        "=== x",
        "\u{3000}x",
        "",
        " x",
    ];
    for c in cases {
        assert_eq!(token(c), by_regex(c), "on {:?}", c);
    }
}
