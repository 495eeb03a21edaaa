use kothic::merge::{add_missing_zooms, create_diff, read_zoom_extremes};
use kothic::model::{ClassifElement, Container, DrawElement};

fn element(scale: u8, tag: &str) -> DrawElement {
    let mut e = DrawElement::new();
    e.set_scale(scale);
    e.apply_if.push(tag.to_string());
    e
}

fn container(types: &[(&str, &[u8])]) -> Container {
    let mut c = Container::new();
    for (name, scales) in types {
        let mut rule = ClassifElement::new();
        rule.set_name(name);
        for (i, s) in scales.iter().enumerate() {
            rule.element.push(element(*s, &format!("{}{}", name, i)));
        }
        c.cont.push(rule);
    }
    c
}

fn scales(v: &[DrawElement]) -> Vec<u8> {
    v.iter().map(|e| e.scale).collect()
}

#[test]
fn zoom_extremes_take_the_first_lowest_and_highest() {
    let c = container(&[("a", &[5, 3, 8, 3, 8]), ("b", &[4]), ("z", &[]), ("a", &[2, 9])]);
    let x = read_zoom_extremes(&c);
    let names: Vec<&str> = x.iter().map(|e| e.0.as_str()).collect();
    assert_eq!(names, vec!["a", "b"]);
    let a = &x[0];
    assert_eq!((a.0.scale, a.1.scale), (2, 9));
    assert_eq!(a.0.apply_if, vec!["a0".to_string()]);
    assert_eq!(scales(&a.2), vec![5, 3, 8, 3, 8, 2, 9]);
    let c2 = container(&[("a", &[5, 3, 8, 3, 8])]);
    let x2 = read_zoom_extremes(&c2);
    assert_eq!(x2[0].0.apply_if, vec!["a1".to_string()]);
    assert_eq!(x2[0].1.apply_if, vec!["a2".to_string()]);
    let b = &x[1];
    assert_eq!((b.0.scale, b.1.scale, b.2.len()), (4, 4, 1));
}

#[test]
fn a_difference_lists_missing_ends_and_types() {
    let c1 = container(&[("a", &[5, 6, 7, 8]), ("b", &[3]), ("c", &[10])]);
    let c2 = container(&[("a", &[3, 10]), ("b", &[3]), ("e", &[4]), ("d", &[1, 2])]);
    let (diff, messages) = create_diff(&read_zoom_extremes(&c1), &read_zoom_extremes(&c2));
    assert_eq!(
        messages,
        vec![
            "a: missing low zooms 3-4".to_string(),
            "a: missing high zooms 9-10".to_string(),
            "c: not found in the alternative style; zoom 10".to_string(),
            "d: missing completely; zooms 1-2".to_string(),
            "e: missing completely; zoom 4".to_string(),
        ]
    );
    assert_eq!(diff.low.len(), 1);
    assert_eq!(diff.low[0].0, "a");
    assert_eq!(scales(&diff.low[0].1), vec![3, 4]);
    assert_eq!(diff.low[0].1[0].apply_if, vec!["a0".to_string()]);
    assert_eq!(diff.high.len(), 1);
    assert_eq!(scales(&diff.high[0].1), vec![9, 10]);
    assert_eq!(diff.high[0].1[1].apply_if, vec!["a3".to_string()]);
    let names: Vec<&str> = diff.types.iter().map(|t| t.name.as_str()).collect();
    assert_eq!(names, vec!["d", "e"]);
    assert_eq!(scales(&diff.types[0].element), vec![1, 2]);
    assert!(diff.types[0].present);
}

#[test]
fn extra_zooms_are_reported_without_additions() {
    let c1 = container(&[("a", &[3, 12])]);
    let c2 = container(&[("a", &[5, 10])]);
    let (diff, messages) = create_diff(&read_zoom_extremes(&c1), &read_zoom_extremes(&c2));
    assert_eq!(messages, vec!["a: extra low zooms 3-4".to_string(), "a: extra high zooms 11-12".to_string()]);
    assert!(diff.low.is_empty() && diff.high.is_empty() && diff.types.is_empty());
}

#[test]
fn missing_zooms_are_added_to_the_types_entry() {
    let mut dest: Vec<(String, Vec<DrawElement>)> = Vec::new();
    let x = "x".to_string();
    assert_eq!(add_missing_zooms(&mut dest, &x, &element(2, "s"), &element(5, "t"), false), Some("x: extra low zooms 2-4".to_string()));
    assert!(dest.is_empty());
    assert_eq!(add_missing_zooms(&mut dest, &x, &element(6, "s"), &element(4, "t"), false), Some("x: missing low zooms 4-5".to_string()));
    assert_eq!(add_missing_zooms(&mut dest, &x, &element(6, "s"), &element(4, "t"), false), Some("x: missing low zooms 4-5".to_string()));
    assert_eq!(dest.len(), 1);
    assert_eq!(scales(&dest[0].1), vec![4, 5, 4, 5]);
    assert_eq!(add_missing_zooms(&mut dest, &x, &element(7, "s"), &element(7, "t"), true), None);
    assert_eq!(add_missing_zooms(&mut dest, &x, &element(255, "s"), &element(250, "t"), true), Some("x: extra high zooms 251-255".to_string()));
}
