use kothic::compat::repr_str;
use kothic::condition::{parse_condition, Condition};

#[test]
fn test_repr() {
    assert_eq!(
        parse_condition("highway=primary").unwrap().repr(),
        "highway=primary"
    );
    assert_eq!(parse_condition("name").unwrap().repr(), "name");
    assert_eq!(parse_condition("!name").unwrap().repr(), "!name");
    assert_eq!(parse_condition("bridge?").unwrap().repr(), "bridge?");
    assert_eq!(
        parse_condition("population>=1000").unwrap().repr(),
        "population>=1000"
    );
    assert_eq!(
        parse_condition("highway!=primary").unwrap().repr(),
        "highway!=primary"
    );
    assert_eq!(
        parse_condition("ref=~/^M\\d+$/").unwrap().repr(),
        "ref=~/^M\\d+$/"
    );
}

#[test]
fn test_repr_str() {
    assert_eq!(repr_str("name"), "'name'");
    assert_eq!(repr_str("a'b"), "'a\\'b'");
    assert_eq!(repr_str("a\\b"), "'a\\\\b'");
}

#[test]
fn repr_str_escapes_control_characters() {
    assert_eq!(repr_str("a\nb\tc\rd"), "'a\\nb\\tc\\rd'");
    assert_eq!(repr_str("\u{1}"), "'\\x01'");
    assert_eq!(repr_str(""), "''");
}

#[test]
fn parse_condition_types_and_params() {
    let cases: Vec<(&str, &str, Vec<&str>)> = vec![
        ("highway=primary", "eq", vec!["highway", "primary"]),
        ("highway!=primary", "ne", vec!["highway", "primary"]),
        ("population>=1000", ">=", vec!["population", "1000"]),
        ("population>1000", ">", vec!["population", "1000"]),
        ("population<1000", "<", vec!["population", "1000"]),
        ("population<=1000", "<=", vec!["population", "1000"]),
        ("name", "set", vec!["name"]),
        ("!name", "unset", vec!["name"]),
        ("bridge?", "true", vec!["bridge"]),
        ("!bridge?", "ne", vec!["bridge", "yes"]),
        ("bridge=no", "false", vec!["bridge"]),
        ("ref=~/^M\\d+$/", "regex", vec!["ref", "^M\\d+$"]),
        ("::sublayer", "set", vec!["::sublayer"]),
        (" highway = primary ", "eq", vec!["highway", "primary "]),
    ];
    for (text, typ, params) in cases {
        let c = parse_condition(text).unwrap();
        assert_eq!(c.typ, typ, "{}", text);
        assert_eq!(c.params, params, "{}", text);
    }
}

#[test]
fn regex_condition_keeps_its_pattern() {
    let c = parse_condition("ref=~/^M\\d+$/").unwrap();
    assert_eq!(c.regex, Some("^M\\d+$".to_string()));
    assert_eq!(parse_condition("highway=primary").unwrap().regex, None);
}

#[test]
fn extract_tag_of_conditions() {
    assert_eq!(parse_condition("highway=primary").unwrap().extract_tag(), "highway");
    assert_eq!(parse_condition("ref=~/^M\\d+$/").unwrap().extract_tag(), "*");
    assert_eq!(parse_condition("::sublayer").unwrap().extract_tag(), "*");
    assert_eq!(parse_condition("bridge?").unwrap().extract_tag(), "bridge");
}

#[test]
fn unknown_condition_is_an_error() {
    let err = parse_condition("=primary").unwrap_err();
    assert_eq!(err, "condition UNKNOWN: =primary");
    assert!(parse_condition("").is_err());
}

#[test]
fn non_ascii_whitespace_and_keys() {
    let c = parse_condition("\u{a0}name").unwrap();
    assert_eq!(c.typ, "set");
    assert_eq!(c.params, vec!["name"]);
    let c = parse_condition("naïve=yes").unwrap();
    assert_eq!(c.typ, "eq");
    assert_eq!(c.params, vec!["naïve", "yes"]);
}

#[test]
fn repr_of_constructed_conditions() {
    let c = Condition::new("false", vec!["a".to_string()]);
    assert_eq!(c.repr(), "false [\"a\"]");
    let c = Condition::new("regex", vec!["k".to_string(), "v".to_string()]);
    assert_eq!(c.regex, Some("v".to_string()));
}

#[test]
fn white_space_is_the_unicode_property() {
    for u in 0u32..=0x10FFFF {
        if let Some(c) = char::from_u32(u) {
            assert_eq!(kothic::condition::ws(c), c.is_whitespace(), "on U+{:04X}", u);
        }
    }
}

fn tagged(c: &Condition, v: Option<&str>) -> kothic::condition::TagTest {
    let s = v.map(|x| x.to_string());
    kothic::condition::test_tag(c, s.as_ref())
}

use kothic::condition::TagTest;

#[test]
fn test_parse_eq() {
    let c = parse_condition("highway=primary").unwrap();
    assert_eq!(c.typ, "eq");
    assert_eq!(c.params, vec!["highway", "primary"]);
    assert_eq!(c.extract_tag(), "highway");
    assert_eq!(tagged(&c, Some("primary")), TagTest::Bool(true));
    assert_eq!(tagged(&c, Some("secondary")), TagTest::Bool(false));
    assert_eq!(tagged(&c, None), TagTest::Bool(false));
}

#[test]
fn test_parse_regex() {
    let c = parse_condition("ref=~/^M\\d+$/").unwrap();
    assert_eq!(c.typ, "regex");
    assert_eq!(c.extract_tag(), "*");
    assert_eq!(tagged(&c, Some("M5")), TagTest::Regex);
    assert_eq!(tagged(&c, None), TagTest::Bool(false));
}

#[test]
fn test_parse_ge_gt() {
    let c = parse_condition("population>=1000").unwrap();
    assert_eq!(c.typ, ">=");
    assert_eq!(tagged(&c, Some("1000")), TagTest::Compare);
    let c = parse_condition("population>1000").unwrap();
    assert_eq!(c.typ, ">");
    assert_eq!(tagged(&c, None), TagTest::Bool(false));
}

#[test]
fn test_parse_lt_le() {
    let c = parse_condition("population<1000").unwrap();
    assert_eq!(c.typ, "<");
    assert_eq!(tagged(&c, Some("999")), TagTest::Compare);
    let c = parse_condition("population<=1000").unwrap();
    assert_eq!(c.typ, "<=");
    assert_eq!(tagged(&c, Some("1000")), TagTest::Compare);
}

#[test]
fn test_parse_ne() {
    let c = parse_condition("highway!=primary").unwrap();
    assert_eq!(c.typ, "ne");
    assert_eq!(tagged(&c, Some("primary")), TagTest::Bool(false));
    assert_eq!(tagged(&c, Some("secondary")), TagTest::Bool(true));
    assert_eq!(tagged(&c, None), TagTest::Bool(true));
}

#[test]
fn test_parse_set_unset() {
    let c = parse_condition("name").unwrap();
    assert_eq!(c.typ, "set");
    assert_eq!(tagged(&c, Some("foo")), TagTest::Bool(true));
    assert_eq!(tagged(&c, Some("")), TagTest::Bool(false));
    assert_eq!(tagged(&c, None), TagTest::Bool(false));
    let c = parse_condition("!name").unwrap();
    assert_eq!(c.typ, "unset");
    assert_eq!(tagged(&c, None), TagTest::Bool(true));
    assert_eq!(tagged(&c, Some("")), TagTest::Bool(true));
    assert_eq!(tagged(&c, Some("foo")), TagTest::Bool(false));
}

#[test]
fn test_parse_true_false() {
    let c = parse_condition("bridge?").unwrap();
    assert_eq!(c.typ, "true");
    assert_eq!(tagged(&c, Some("yes")), TagTest::Bool(true));
    assert_eq!(tagged(&c, Some("no")), TagTest::Bool(false));
    let c = parse_condition("bridge=no").unwrap();
    assert_eq!(c.typ, "false");
    assert_eq!(tagged(&c, Some("no")), TagTest::Bool(false));
    let c = parse_condition("!bridge?").unwrap();
    assert_eq!(c.typ, "ne");
    assert_eq!(tagged(&c, Some("yes")), TagTest::Bool(false));
}

#[test]
fn parsed_conditions_have_a_key_and_the_parameters_of_their_type() {
    for text in ["a=b", "a!=b", "a<1", "a<=1", "a>1", "a>=1", "a=~/x/", "a?", "!a?", "a=no", "a", "!a", " addr:street = x "] {
        let c = parse_condition(text).unwrap();
        let one = ["true", "false", "set", "unset"].contains(&c.typ.as_str());
        assert_eq!(c.params.len(), if one { 1 } else { 2 }, "{}", text);
        assert_eq!(c.regex.is_some(), c.typ == "regex");
        if c.typ == "regex" {
            assert_eq!(c.regex.as_ref(), Some(&c.params[1]));
        }
        assert!(!c.params[0].is_empty());
        assert!(!c.params[0].chars().any(|ch| ch.is_whitespace()));
    }
}
