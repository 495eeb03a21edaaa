use std::collections::HashMap;

use kothic::declaration::parse_declaration;

fn as_map(pairs: &[(String, String)]) -> HashMap<String, String> {
    pairs.iter().cloned().collect()
}

#[test]
fn test_declarations() {
    let decl = parse_declaration(" linejoin: round; ");
    assert_eq!(decl.len(), 1);
    assert_eq!(
        as_map(&decl[0]),
        HashMap::from([("linejoin".to_string(), "round".to_string())])
    );

    let decl = parse_declaration("\tlinejoin :\nround ; ");
    assert_eq!(decl.len(), 1);
    assert_eq!(
        as_map(&decl[0]),
        HashMap::from([("linejoin".to_string(), "round".to_string())])
    );

    let decl = parse_declaration(" icon-image: parking_private-s.svg; text: \"name\"; ");
    assert_eq!(decl.len(), 1);
    assert_eq!(
        as_map(&decl[0]),
        HashMap::from([
            (
                "icon-image".to_string(),
                "parking_private-s.svg".to_string()
            ),
            ("text".to_string(), "name".to_string()),
        ])
    );

    let decl = parse_declaration(
        "\n    pattern-offset: 90\t;\n    pattern-image:\tarrow-m.svg   ;\n    pattern-spacing: @trunk0 ;",
    );
    assert_eq!(decl.len(), 1);
    assert_eq!(
        as_map(&decl[0]),
        HashMap::from([
            ("pattern-offset".to_string(), "90".to_string()),
            ("pattern-image".to_string(), "arrow-m.svg".to_string()),
            ("pattern-spacing".to_string(), "@trunk0".to_string()),
        ])
    );
}

#[test]
fn later_declaration_of_a_key_replaces_the_earlier() {
    let decl = parse_declaration("a: 1; b: \"2\"; a: 3; no colon here; ");
    assert_eq!(decl.len(), 1);
    assert_eq!(
        decl[0],
        vec![
            ("a".to_string(), "3".to_string()),
            ("b".to_string(), "2".to_string()),
        ]
    );
    assert_eq!(parse_declaration(""), vec![Vec::<(String, String)>::new()]);
}

#[test]
fn a_key_set_twice_keeps_its_place_and_takes_the_last_value() {
    let decl = parse_declaration("width: 1; color: red; width: 3; junk; ");
    assert_eq!(decl.len(), 1);
    assert_eq!(
        decl[0],
        vec![("width".to_string(), "3".to_string()), ("color".to_string(), "red".to_string())]
    );
}

fn vars(v: &[(&str, &str)]) -> Vec<(String, String)> {
    v.iter().map(|(a, b)| (a.to_string(), b.to_string())).collect()
}

#[test]
fn variables_are_replaced_by_their_values() {
    use_subst_case("@blue", &[("blue", "#00f")], vec!["blue"], Ok("#00f"));
    use_subst_case("1px @w2 @x", &[("w2", "2"), ("x", "3")], vec!["w2", "x"], Ok("1px 2 3"));
    use_subst_case("mail@ @Cap a@b", &[("b", "B")], vec!["b"], Ok("mail@ @Cap aB"));
    use_subst_case("@a @missing @b", &[("a", "1"), ("b", "2")], vec!["a", "missing"], Err("Variable not found: missing"));
}

fn use_subst_case(s: &str, v: &[(&str, &str)], names: Vec<&str>, expected: Result<&str, &str>) {
    let (ns, r) = kothic::variables::subst_variables(s, &vars(v));
    assert_eq!(ns, names.iter().map(|n| n.to_string()).collect::<Vec<_>>());
    assert_eq!(r, expected.map(|x| x.to_string()).map_err(|x| x.to_string()));
}
