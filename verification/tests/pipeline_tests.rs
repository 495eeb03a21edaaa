use std::collections::BTreeSet;

use kothic::merge::{apply_diff, zooms_string, Diff};
use kothic::model::{ClassifElement, ColorElement, Container, DrawElement, LineRule};
use kothic::prio::{get_priorities_filename, prettify_zooms, to_boolean, PrioKey, PrioRangeKind};

fn zooms(v: &[i32]) -> BTreeSet<i32> {
    v.iter().copied().collect()
}

#[test]
fn booleans_ignore_case() {
    assert_eq!(to_boolean("Yes"), (true, true));
    assert_eq!(to_boolean("TRUE"), (true, true));
    assert_eq!(to_boolean("no"), (true, false));
    assert_eq!(to_boolean("False"), (true, false));
    assert_eq!(to_boolean("maybe"), (false, false));
    assert_eq!(to_boolean(""), (false, false));
}

#[test]
fn priorities_file_names() {
    assert_eq!(
        get_priorities_filename(PrioRangeKind::Overlays, "/data"),
        "/data/priorities_4_overlays.prio.txt"
    );
    assert_eq!(
        get_priorities_filename(PrioRangeKind::BgBySize, "p"),
        "p/priorities_1_BG-by-size.prio.txt"
    );
    assert_eq!(PrioRangeKind::BgTop.base(), -1000);
    assert_eq!(PrioRangeKind::Fg.name(), "FG");
}

#[test]
fn prettified_zoom_ranges() {
    assert_eq!(prettify_zooms(&zooms(&[10, 11, 12, 15, 17, 18, 19]), 19), "z10-12,15,17-");
    assert_eq!(prettify_zooms(&zooms(&[3]), 19), "z3");
    assert_eq!(prettify_zooms(&zooms(&[19]), 19), "z19-");
    assert_eq!(prettify_zooms(&zooms(&[1, 3, 5]), 19), "z1,3,5");
    assert_eq!(prettify_zooms(&zooms(&[]), 19), "z0");
}

#[test]
fn priority_keys() {
    let k = PrioKey::main("highway-primary", "::default");
    assert_eq!(k.cl, "highway-primary");
    assert_eq!(k.object_id, "::default");
    assert_eq!(k.auto, None);
    let a = PrioKey::auto("amenity", "", "caption", Some("note".to_string()));
    assert_eq!(a.auto, Some(("caption".to_string(), Some("note".to_string()))));
}

#[test]
fn zoom_range_descriptions() {
    assert_eq!(zooms_string(5, 5), "zoom 5");
    assert_eq!(zooms_string(7, 3), "zooms 3-7");
    assert_eq!(zooms_string(3, 7), "zooms 3-7");
}

fn make_element(scale: u8, width: f64) -> DrawElement {
    let mut element = DrawElement::new();
    element.set_scale(scale);
    let mut line = LineRule::new();
    line.set_width(width.to_bits());
    line.set_color(0xFF010203u32);
    element.lines.push(line);
    element
}

fn make_container(types: &[(&str, Vec<DrawElement>)]) -> Container {
    let mut container = Container::new();
    let mut color = ColorElement::new();
    color.set_name("base");
    color.set_color(0xFF010203u32);
    container.colors.value.push(color);
    for (name, elements) in types {
        let mut rule = ClassifElement::new();
        rule.set_name(name);
        rule.element.extend(elements.iter().cloned());
        container.cont.push(rule);
    }
    container
}

#[test]
fn applied_diff_places_missing_types_and_zooms() {
    let base = make_container(&[
        ("type-b", vec![make_element(5, 1.0), make_element(10, 2.0)]),
        ("type-d", vec![make_element(8, 1.0)]),
    ]);
    let mut extra = ClassifElement::new();
    extra.set_name("type-a");
    extra.element.push(make_element(5, 2.0));
    let mut extra_c = ClassifElement::new();
    extra_c.set_name("type-c");
    extra_c.element.push(make_element(6, 2.0));
    let mut extra_z = ClassifElement::new();
    extra_z.set_name("type-z");
    let diff = Diff {
        low: vec![("type-d".to_string(), vec![make_element(7, 1.0)])],
        high: vec![(
            "type-b".to_string(),
            vec![make_element(11, 3.0), make_element(12, 3.0)],
        )],
        types: vec![extra, extra_c, extra_z],
    };
    let merged = apply_diff(&base, &diff);
    assert_eq!(merged.colors.value.len(), 1);
    let names: Vec<&str> = merged.cont.iter().map(|r| r.name.as_str()).collect();
    assert_eq!(names, vec!["type-a", "type-b", "type-c", "type-d", "type-z"]);
    let scales: Vec<u8> = merged.cont[1].element.iter().map(|e| e.scale).collect();
    assert_eq!(scales, vec![5, 10, 11, 12]);
    let scales: Vec<u8> = merged.cont[3].element.iter().map(|e| e.scale).collect();
    assert_eq!(scales, vec![7, 8]);
    let widths: Vec<u64> = merged.cont[0].element.iter().map(|e| e.lines[0].width).collect();
    assert_eq!(widths, vec![2.0f64.to_bits()]);
}
