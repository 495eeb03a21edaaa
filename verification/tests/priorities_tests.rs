use indexmap::IndexMap;
use kothic::prio::{PrioKey, PrioRangeKind};
use kothic::priorities::{drape_priority, drape_priority_fits, load_priority_text};

fn key(cl: &str, object_id: &str) -> PrioKey {
    PrioKey { cl: cl.to_string(), object_id: object_id.to_string(), auto: None }
}

fn map(v: Vec<(PrioKey, i32)>) -> IndexMap<PrioKey, i32> {
    v.into_iter().collect()
}

fn entries(m: &IndexMap<PrioKey, i32>) -> Vec<(PrioKey, i32)> {
    m.iter().map(|(k, v)| (k.clone(), *v)).collect()
}

fn names(v: &[&str]) -> Vec<String> {
    v.iter().map(|s| s.to_string()).collect()
}

#[test]
fn groups_take_the_priority_that_closes_them() {
    let mut table = IndexMap::new();
    let text = "# a comment\nline   # trailing\n  area::caption  \n\n=== 100\nnode\n=== 7\n";
    let w = load_priority_text(
        &mut table,
        PrioRangeKind::Fg,
        text,
        "fg.prio.txt",
        &names(&["line", "area", "node"]),
    );
    assert!(w.is_empty());
    assert_eq!(entries(&table), vec![(key("line", ""), 100), (key("area", "::caption"), 100), (key("node", ""), 7)]);
}

#[test]
fn a_priority_set_again_keeps_its_place() {
    let mut table = map(vec![(key("a", ""), 1), (key("b", ""), 2)]);
    let w = load_priority_text(&mut table, PrioRangeKind::Fg, "a\n=== 9\nc\n=== 3\n", "f", &names(&["a", "c"]));
    assert_eq!(w, vec!["WARNING: overriding previously set priority value 1 in f:\n\ta".to_string()]);
    assert_eq!(entries(&table), vec![(key("a", ""), 9), (key("b", ""), 2), (key("c", ""), 3)]);
}

#[test]
fn every_problem_is_warned_and_skipped() {
    let mut table = IndexMap::new();
    let text = "foo\n=== 5\nfoo\n=== abc\na b c\n=== 2000\n=== 10\nbar::icon\n";
    let w = load_priority_text(&mut table, PrioRangeKind::Fg, text, "f.txt", &names(&["foo"]));
    assert_eq!(
        w,
        vec![
            "WARNING: overriding previously set priority value 5 in f.txt:\n\tfoo".to_string(),
            "WARNING: skipping invalid priority value in f.txt:\n\t=== abc".to_string(),
            "WARNING: skipping malformed line in f.txt:\n\ta b c".to_string(),
            "WARNING: skipping out of [0;1000) range priority value in f.txt:\n\t=== 2000".to_string(),
            "WARNING: skipping empty priority group in f.txt:\n\t=== 10".to_string(),
            "WARNING: unknown classificator type in f.txt:\n\tbar::icon".to_string(),
            "WARNING: skipping last types groups with no priority set in f.txt:\n\t[('bar', '::icon')]"
                .to_string(),
        ]
    );
    assert_eq!(entries(&table), vec![(key("foo", ""), 5)]);
}

#[test]
fn overlays_accept_negative_priorities() {
    let mut table = IndexMap::new();
    let text = "x\n=== -10000\ny\n=== 10000\nz\n=== -3\n";
    let w = load_priority_text(&mut table, PrioRangeKind::Overlays, text, "o", &names(&["x", "y", "z"]));
    assert_eq!(
        w,
        vec!["WARNING: skipping out of [-10000;10000) range priority value in o:\n\t=== 10000".to_string()]
    );
    assert_eq!(entries(&table), vec![(key("x", ""), -10000), (key("z", ""), -3)]);
}

#[test]
fn a_group_closed_with_no_value_is_dropped() {
    let mut table = IndexMap::new();
    let w = load_priority_text(&mut table, PrioRangeKind::BgTop, "x\n===\nx\n=== 4", "b", &names(&["x"]));
    assert_eq!(w, vec!["WARNING: skipping invalid priority value in b:\n\t===".to_string()]);
    assert_eq!(entries(&table), vec![(key("x", ""), 4)]);
}

#[test]
fn overlay_captions_are_capped_by_their_icons() {
    let mut table = map(vec![
        (key("amenity", "icon"), 50),
        (key("amenity", "caption"), 60),
        (key("road", "shield2"), 30),
        (key("road", "pathtext2"), 20),
        (key("shop", "caption"), 90),
    ]);
    let w = load_priority_text(&mut table, PrioRangeKind::Overlays, "", "o", &names(&[]));
    assert_eq!(
        w,
        vec!["WARNING: ('amenity', 'caption') priority is higher than ('amenity', 'icon'), making it equal"
            .to_string()]
    );
    assert_eq!(
        entries(&table),
        vec![
            (key("amenity", "icon"), 50),
            (key("amenity", "caption"), 50),
            (key("road", "shield2"), 30),
            (key("road", "pathtext2"), 20),
            (key("shop", "caption"), 90),
        ]
    );
}

#[test]
fn only_overlays_are_capped() {
    let mut table = map(vec![(key("road", "shield"), 10), (key("road", "pathtext"), 20)]);
    let w = load_priority_text(&mut table, PrioRangeKind::Fg, "", "f", &names(&[]));
    assert!(w.is_empty());
    assert_eq!(entries(&table), vec![(key("road", "shield"), 10), (key("road", "pathtext"), 20)]);
    let w = load_priority_text(&mut table, PrioRangeKind::Overlays, "", "f", &names(&[]));
    assert_eq!(
        w,
        vec!["WARNING: ('road', 'pathtext') priority is higher than ('road', 'shield'), making it equal"
            .to_string()]
    );
    assert_eq!(entries(&table), vec![(key("road", "shield"), 10), (key("road", "pathtext"), 10)]);
}

fn four(overlays: Vec<(PrioKey, i32)>, fg: Vec<(PrioKey, i32)>, bg_top: Vec<(PrioKey, i32)>, bg_by_size: Vec<(PrioKey, i32)>) -> Vec<IndexMap<PrioKey, i32>> {
    vec![map(overlays), map(fg), map(bg_top), map(bg_by_size)]
}

#[test]
fn a_line_priority_comes_from_the_foreground_before_the_background() {
    let mut t = four(vec![], vec![(key("highway-primary", ""), 300)], vec![(key("highway-primary", ""), 50)], vec![]);
    let before = t.clone();
    assert_eq!(drape_priority(&mut t, "highway-primary", "::default", "line", None, 0), Some(300));
    assert_eq!(t, before);
    let mut t = four(vec![], vec![], vec![(key("highway-primary", ""), 50)], vec![]);
    assert_eq!(drape_priority(&mut t, "highway-primary", "::default", "line", None, 0), Some(50 - 1000));
}

#[test]
fn an_area_looks_in_the_background_by_size_first() {
    let mut t = four(vec![], vec![(key("landuse", ""), 5)], vec![], vec![(key("landuse", ""), 20)]);
    assert_eq!(drape_priority(&mut t, "landuse", "::default", "area", None, 0), Some(20 - 2000));
}

#[test]
fn a_missing_priority_gives_none() {
    let mut t = four(vec![(key("amenity", ""), 10)], vec![], vec![], vec![]);
    assert_eq!(drape_priority(&mut t, "amenity", "::default", "line", None, 0), None);
    assert_eq!(drape_priority(&mut t, "amenity", "::int_name", "icon", None, 0), None);
}

#[test]
fn an_automatic_priority_is_raised_to_the_range_minimum_and_stored() {
    let mut t = four(vec![(key("amenity-cafe", ""), 500)], vec![], vec![], vec![]);
    let auto = Some(("caption", Some("optional".to_string())));
    assert!(drape_priority_fits(&t, "amenity-cafe", "::default", "caption", &auto, -10000));
    assert_eq!(drape_priority(&mut t, "amenity-cafe", "::default", "caption", auto, -10000), Some(-9500));
    let stored = PrioKey {
        cl: "amenity-cafe".to_string(),
        object_id: "".to_string(),
        auto: Some(("caption".to_string(), Some("optional".to_string()))),
    };
    assert_eq!(entries(&t[0]), vec![(key("amenity-cafe", ""), 500), (stored.clone(), -9500)]);
    let mut f = four(vec![], vec![(key("waterway", ""), 3)], vec![], vec![]);
    assert_eq!(drape_priority(&mut f, "waterway", "::default", "line", Some(("pathtext", None)), -10), Some(0));
    assert_eq!(f[1][1], 0);
}

#[test]
fn an_addition_that_overflows_does_not_fit() {
    let t = four(vec![(key("a", ""), i32::MAX)], vec![], vec![], vec![(key("b", ""), i32::MIN)]);
    assert!(!drape_priority_fits(&t, "a", "::default", "caption", &Some(("caption", None)), 1));
    assert!(drape_priority_fits(&t, "a", "::default", "caption", &None, 1));
    assert!(!drape_priority_fits(&t, "b", "::default", "area", &None, 0));
}
