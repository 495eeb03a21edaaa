use std::collections::BTreeSet;

use kothic::dump::{priorities_text, DrawnType};
use indexmap::IndexMap;
use kothic::prio::{
    prettify_zooms, PrioKey, PrioRangeKind, COMMENT_AUTOFORMAT, COMMENT_AUTO_CAPTIONS, COMMENT_RANGES_OVERVIEW,
    OVERLAYS_MAX_PRIORITY,
};

fn key(cl: &str, oid: &str) -> PrioKey {
    PrioKey { cl: cl.to_string(), object_id: oid.to_string(), auto: None }
}

fn auto_key(cl: &str, oid: &str, t: &str, c: Option<&str>) -> PrioKey {
    PrioKey {
        cl: cl.to_string(),
        object_id: oid.to_string(),
        auto: Some((t.to_string(), c.map(|x| x.to_string()))),
    }
}

fn drawn(t: &str, c: Option<&str>, ids: &[(&str, &[i32])]) -> DrawnType {
    DrawnType {
        dr_type: t.to_string(),
        auto_comment: c.map(|x| x.to_string()),
        object_ids: ids.iter().map(|(o, z)| (o.to_string(), z.iter().copied().collect::<BTreeSet<i32>>())).collect(),
    }
}

/// The dump as the generator's priorities writer lays it out, step by step.
fn expected(
    kind: PrioRangeKind,
    table: &[(PrioKey, i32)],
    vis: &[(String, Vec<DrawnType>)],
    maxzoom: i32,
) -> (String, Vec<String>) {
    let mut warnings = Vec::new();
    let mut out = String::new();
    let comment = format!("{}{}{}", COMMENT_AUTOFORMAT, kind.comment(), COMMENT_RANGES_OVERVIEW);
    for s in comment.lines() {
        let line = format!("# {}", s.trim_end());
        out.push_str(&format!("{}\n", line.trim_end()));
    }
    out.push('\n');
    if table.is_empty() {
        return (out, warnings);
    }
    let order: &[&str] = if kind == PrioRangeKind::Overlays {
        &["icon", "caption", "pathtext", "shield", "line", "area"]
    } else {
        &["line", "area", "icon", "caption", "pathtext", "shield"]
    };
    let mut prios: Vec<&(PrioKey, i32)> = table.iter().collect();
    prios.sort_by(|a, b| {
        let ka = (OVERLAYS_MAX_PRIORITY - a.1, &a.0.cl, &a.0.object_id);
        let kb = (OVERLAYS_MAX_PRIORITY - b.1, &b.0.cl, &b.0.object_id);
        ka.cmp(&kb)
    });
    let mut captions = true;
    let mut group_prio = prios[0].1;
    let mut group = String::new();
    let mut group_comment = "# ".to_string();
    for p in &prios {
        if p.1 != group_prio {
            if kind == PrioRangeKind::Overlays && captions && group_prio < 0 {
                for s in COMMENT_AUTO_CAPTIONS.lines() {
                    let line = format!("# {}", s.trim());
                    out.push_str(&format!("{}\n", line.trim_end()));
                }
                out.push('\n');
                captions = false;
            }
            out.push_str(&format!("{}{}=== {}\n\n", group, group_comment, group_prio));
            group_prio = p.1;
            group = String::new();
            group_comment = "# ".to_string();
        }
        let k = &p.0;
        let mut cl = k.cl.clone();
        let (auto_t, auto_c) = match &k.auto {
            Some((t, c)) => (Some(t.clone()), c.clone()),
            None => (None, None),
        };
        let mut mine = String::new();
        let mut others = String::new();
        if let Some((_, entries)) = vis.iter().find(|(c, _)| *c == k.cl) {
            let mut sorted: Vec<&DrawnType> = entries.iter().collect();
            sorted.sort_by_key(|e| order.iter().position(|t| *t == e.dr_type).unwrap_or(usize::MAX));
            for e in sorted {
                for (oid, zooms) in &e.object_ids {
                    let mut dz = format!("{}{}", e.dr_type, oid);
                    if let Some(c) = &e.auto_comment {
                        dz = format!("{}({})", dz, c);
                    }
                    dz = format!("{} {}", dz, prettify_zooms(zooms, maxzoom));
                    let auto_match = Some(&e.dr_type) == auto_t.as_ref() && e.auto_comment == auto_c;
                    let not_auto = auto_t.is_none() && e.auto_comment.is_none();
                    let t = e.dr_type.as_str();
                    let suits = (kind == PrioRangeKind::Overlays && ["icon", "caption", "pathtext", "shield"].contains(&t))
                        || ((kind == PrioRangeKind::Fg || kind == PrioRangeKind::BgTop) && ["line", "area"].contains(&t))
                        || (kind == PrioRangeKind::BgBySize && t == "area");
                    if *oid == k.object_id && (auto_match || (not_auto && suits)) {
                        if !mine.is_empty() {
                            mine.push_str(" and ");
                        }
                        mine.push_str(&dz);
                    } else {
                        if !others.is_empty() {
                            others.push_str(", ");
                        }
                        others.push_str(&dz);
                    }
                }
            }
        }
        cl.push_str(&k.object_id);
        if mine.is_empty() {
            mine = if !others.is_empty() {
                "WARNING: no drule defined for the priority".to_string()
            } else {
                "WARNING: no style defined (the type will be not included into map data)".to_string()
            };
            warnings.push(format!("{} for {} in {}", mine, cl, kind.name()));
        }
        let mut info = format!("# {}", mine);
        if !others.is_empty() {
            info.push_str(&format!(" (also has {})", others));
        }
        if auto_t.is_none() {
            group_comment = String::new();
        } else {
            cl = format!("# {}", cl);
        }
        group.push_str(&format!("{:<50}  {}\n", cl, info));
    }
    out.push_str(&format!("{}{}=== {}\n", group, group_comment, group_prio));
    (out, warnings)
}

fn map(table: &[(PrioKey, i32)]) -> IndexMap<PrioKey, i32> {
    table.iter().cloned().collect()
}

fn check(kind: PrioRangeKind, table: Vec<(PrioKey, i32)>, vis: Vec<(String, Vec<DrawnType>)>, maxzoom: i32) {
    let got = priorities_text(kind, &map(&table), &vis, maxzoom);
    assert_eq!(got, expected(kind, &table, &vis, maxzoom));
}

#[test]
fn an_empty_range_has_only_its_head() {
    let (text, warnings) = priorities_text(PrioRangeKind::Fg, &IndexMap::new(), &vec![], 19);
    assert!(text.starts_with("# This file is automatically re-formatted"));
    assert!(text.ends_with("# - BG-by-size: landcover areas sorted by their size\n\n"));
    assert!(warnings.is_empty());
    check(PrioRangeKind::Fg, vec![], vec![], 19);
}

#[test]
fn groups_come_in_descending_order() {
    let table = vec![
        (key("landuse", ""), 50),
        (key("highway-primary", ""), 50),
        (auto_key("x", "", "line", None), 10),
        (key("a", "::b"), 70),
    ];
    let vis = vec![
        (String::from("highway-primary"), vec![drawn("line", None, &[("", &[10, 11, 12, 13])])]),
        (String::from("x"), vec![drawn("line", None, &[("", &[5])])]),
        (String::from("a"), vec![drawn("area", None, &[("", &[1, 2])]), drawn("line", None, &[("::b", &[3])])]),
    ];
    let (text, warnings) = priorities_text(PrioRangeKind::Fg, &map(&table), &vis, 19);
    assert_eq!(warnings, vec![String::from("WARNING: no style defined (the type will be not included into map data) for landuse in FG")]);
    let a = text.find("a::b").unwrap();
    let h = text.find("highway-primary").unwrap();
    let l = text.find("landuse").unwrap();
    let x = text.find("# x").unwrap();
    assert!(a < h && h < l && l < x);
    assert!(text.ends_with("# === 10\n"));
    check(PrioRangeKind::Fg, table, vis, 19);
}

#[test]
fn overlays_note_automatic_captions() {
    let table = vec![
        (key("amenity", ""), 5),
        (auto_key("amenity", "", "caption", Some("optional")), -3),
        (auto_key("shop", "", "caption", Some("optional")), -5),
        (key("shop", ""), -7),
    ];
    let vis = vec![
        (
            String::from("amenity"),
            vec![drawn("caption", Some("optional"), &[("", &[16, 17, 18, 19])]), drawn("icon", None, &[("", &[14, 15])])],
        ),
        (String::from("shop"), vec![drawn("caption", Some("optional"), &[("", &[18])]), drawn("area", None, &[("", &[12])])]),
    ];
    let (text, _) = priorities_text(PrioRangeKind::Overlays, &map(&table), &vis, 19);
    assert!(text.contains("# All automatic optional captions priorities are below 0."));
    check(PrioRangeKind::Overlays, table, vis, 19);
}

#[test]
fn rules_of_other_object_ids_are_listed_apart() {
    let table = vec![(key("road", "::alt"), 3), (key("road", ""), 3), (key("road", "::x"), 3)];
    let vis = vec![(
        String::from("road"),
        vec![
            drawn("icon", None, &[("", &[1])]),
            drawn("line", None, &[("", &[5, 6, 7]), ("::alt", &[8])]),
            drawn("area", Some("c"), &[("", &[2])]),
        ],
    )];
    check(PrioRangeKind::Fg, table.clone(), vis.clone(), 19);
    check(PrioRangeKind::BgTop, table.clone(), vis.clone(), 19);
    check(PrioRangeKind::BgBySize, table.clone(), vis.clone(), 19);
    check(PrioRangeKind::Overlays, table, vis, 19);
}

#[test]
fn equal_keys_keep_their_order() {
    let table = vec![
        (auto_key("a", "", "line", Some("two")), 4),
        (auto_key("a", "", "line", Some("one")), 4),
        (key("a", ""), 4),
    ];
    let vis = vec![(String::from("a"), vec![drawn("line", Some("one"), &[("", &[3])]), drawn("line", Some("two"), &[("", &[4])])])];
    check(PrioRangeKind::Fg, table, vis, 19);
}
