use kothic::mapping::{read_mapping, text_less};

fn s(v: &str) -> String {
    v.to_string()
}

fn tag(k: &str, v: &str) -> (String, String) {
    (s(k), s(v))
}

#[test]
fn a_mapping_gives_classes_order_tree_and_types() {
    let text = "# comment\n\
                amenity|bar;[amenity=bar];;name;int_name;1;\n\
                highway|road;2;\n\
                old|thing;4;x\n\
                \r\n\
                building;[building],[building:part];;name;int_name;5;\n\
                amenity|cafe;[amenity=cafe];x;name;int_name;6;amenity|bar\n";
    let m = read_mapping(text).unwrap();
    assert_eq!(
        m.classes,
        vec![
            (s("amenity-bar"), vec![tag("amenity", "bar")]),
            (s("highway-road"), vec![tag("highway", "road")]),
            (s("building"), vec![tag("building", "yes")]),
        ]
    );
    assert_eq!(m.order, vec![s("amenity-bar"), s("building"), s("highway-road")]);
    assert_eq!(
        m.tree,
        vec![
            (s("amenity-bar"), s("amenity|bar")),
            (s("highway-road"), s("highway|road")),
            (s("old-thing"), s("old|thing")),
            (s("building"), s("building")),
            (s("amenity-cafe"), s("amenity|cafe")),
        ]
    );
    assert_eq!(
        m.types,
        vec![
            s("*amenity|bar"),
            s("*highway|road"),
            s("mapswithme"),
            s("mapswithme"),
            s("*building"),
            s("amenity|bar"),
        ]
    );
}

#[test]
fn selector_pieces_give_tags() {
    let m = read_mapping("amenity|cafe;[amenity=cafe][!disused?][cuisine?][];;name;int_name;1;\n").unwrap();
    assert_eq!(
        m.classes,
        vec![(
            s("amenity-cafe"),
            vec![tag("amenity", "cafe"), tag("disused", "no"), tag("cuisine", "yes")]
        )]
    );
}

#[test]
fn an_id_may_be_padded_with_white_space() {
    let m = read_mapping("a; 3 ;\n").unwrap();
    assert_eq!(m.types, vec![s("mapswithme"), s("mapswithme"), s("*a")]);
}

#[test]
fn a_row_of_two_fields_is_an_error() {
    assert_eq!(
        read_mapping("a;1;\nb;c\n").err(),
        Some(s("Expecting 3 or 7 columns in mapcss-mapping: b;c"))
    );
}

#[test]
fn an_id_that_is_not_a_number_is_an_error() {
    assert_eq!(read_mapping("a;x;\n").err(), Some(s("Wrong type id: a;x;")));
}

#[test]
fn ids_may_not_go_back() {
    assert_eq!(read_mapping("a;2;\nb;1;\n").err(), Some(s("Wrong type id: b;1;")));
}

#[test]
fn a_live_class_may_not_come_twice() {
    assert_eq!(read_mapping("a|b;1;\na|b;2;\n").err(), Some(s("Duplicate type: a|b")));
    let m = read_mapping("a;1;\na;2;x\n").unwrap();
    assert_eq!(m.order, vec![s("a")]);
    assert_eq!(m.types, vec![s("*a"), s("mapswithme")]);
}

#[test]
fn the_first_bad_row_is_reported() {
    assert_eq!(read_mapping("a;x;\nb;c\n").err(), Some(s("Wrong type id: a;x;")));
}

#[test]
fn an_empty_mapping_is_empty() {
    let m = read_mapping("").unwrap();
    assert!(m.classes.is_empty() && m.order.is_empty() && m.tree.is_empty() && m.types.is_empty());
}

#[test]
fn names_are_ordered_character_by_character() {
    assert!(text_less("a", "b"));
    assert!(text_less("ab", "abc"));
    assert!(!text_less("abc", "ab"));
    assert!(!text_less("a", "a"));
    assert!(text_less("B", "a"));
    assert!(text_less("z", "é"));
}
