use std::collections::BTreeSet;

use kothic::dump::DrawnType;
use kothic::prio::prettify_zooms;
use kothic::visibility::check_visibilities;

fn drawn(t: &str, c: Option<&str>, ids: &[(&str, &[i32])]) -> DrawnType {
    DrawnType {
        dr_type: t.to_string(),
        auto_comment: c.map(|x| x.to_string()),
        object_ids: ids.iter().map(|(o, z)| (o.to_string(), z.iter().copied().collect::<BTreeSet<i32>>())).collect(),
    }
}

/// The checks as the generator's validation lays them out.
fn expected(vis: &[(String, Vec<DrawnType>)], maxzoom: i32) -> (Vec<String>, usize) {
    let mut out = Vec::new();
    let mut errors = 0;
    for (cl, entries) in vis {
        for entry in entries {
            for (object_id, zooms) in &entry.object_ids {
                let zoom_range = prettify_zooms(zooms, maxzoom);
                if zoom_range.contains(',') {
                    out.push(format!(
                        "WARNING: non-contiguous visibility range {} for {} {:?}{}",
                        zoom_range, cl, entry.dr_type, object_id
                    ));
                }
                let icon_zooms = if entry.dr_type == "caption" {
                    entries
                        .iter()
                        .find(|e| e.dr_type == "icon" && e.auto_comment.is_none())
                        .and_then(|icon| icon.object_ids.iter().find(|(o, _)| o == object_id).map(|(_, z)| z))
                } else {
                    None
                };
                if let Some(icon_zooms) = icon_zooms {
                    let iz: Vec<i32> = icon_zooms.iter().copied().collect();
                    let min_zoom = zooms.iter().next().copied().unwrap_or(0);
                    if min_zoom < iz[0] {
                        out.push(format!(
                            "WARNING: caption {} appears before icon {} for {}{}",
                            zoom_range,
                            prettify_zooms(icon_zooms, maxzoom),
                            cl,
                            object_id
                        ));
                    }
                }
                if entry.dr_type == "pathtext" || entry.dr_type == "shield" {
                    let mut lines_min_zoom = maxzoom + 1;
                    if let Some(line) = entries.iter().find(|e| e.dr_type == "line" && e.auto_comment.is_none()) {
                        for (_, lz) in &line.object_ids {
                            let m = lz.iter().next().copied().unwrap_or(0);
                            if m < lines_min_zoom {
                                lines_min_zoom = m;
                            }
                        }
                    }
                    let min_zoom = zooms.iter().next().copied().unwrap_or(0);
                    if min_zoom < lines_min_zoom {
                        let missing: BTreeSet<i32> = (min_zoom..lines_min_zoom).collect();
                        out.push(format!(
                            "ERROR: {} without line at {} for {}{}",
                            entry.dr_type,
                            prettify_zooms(&missing, maxzoom),
                            cl,
                            object_id
                        ));
                        errors += 1;
                    }
                }
            }
        }
    }
    (out, errors)
}

#[test]
fn visibility_problems_are_reported() {
    let vis = vec![
        (
            String::from("amenity"),
            vec![
                drawn("icon", None, &[("", &[14, 15, 16]), ("::alt", &[10])]),
                drawn("caption", None, &[("", &[12, 13, 17]), ("::alt", &[11])]),
                drawn("caption", Some("optional"), &[("", &[3])]),
            ],
        ),
        (
            String::from("highway"),
            vec![
                drawn("pathtext", None, &[("", &[10, 11, 12])]),
                drawn("line", None, &[("", &[12, 13]), ("::x", &[14])]),
                drawn("shield", None, &[("", &[13]), ("::b", &[2, 5])]),
            ],
        ),
        (String::from("route"), vec![drawn("shield", None, &[("", &[17, 18, 19])])]),
    ];
    let got = check_visibilities(&vis, 19);
    assert_eq!(got, expected(&vis, 19));
    assert_eq!(got.1, 3);
}

#[test]
fn nothing_is_reported_for_sound_ranges() {
    let vis = vec![(
        String::from("a"),
        vec![drawn("icon", None, &[("", &[10, 11])]), drawn("caption", None, &[("", &[10, 11])])],
    )];
    assert_eq!(check_visibilities(&vis, 19), (vec![], 0));
}
