//! Checking where drawing rules are visible: a visibility range with gaps, a
//! caption that shows before its icon, and a path text or shield that shows
//! where its line does not.

use vstd::prelude::*;
use std::collections::BTreeSet;
use crate::prio::{zoom_list, zoom_vec, zooms_text, prettify_sorted};
use crate::dump::{DrawnType, DrawnView, classes_drawn, drawn_views};
use crate::condition::{debug_text, debug_str, str_eq};
use crate::text::{str_to_string, push_str};
use crate::canonical::texts;

verus! {

/// The lowest zoom of a set, 0 for none.
pub open spec fn min_zoom(z: Set<i32>) -> int {
    if zoom_list(z).len() > 0 {
        zoom_list(z)[0] as int
    } else {
        0
    }
}

/// The zooms from `a` up to but not including `b`.
pub open spec fn zoom_range(a: int, b: int) -> Seq<i32> {
    Seq::new((b - a) as nat, |k: int| (a + k) as i32)
}

/// The first drawn type of `es` of type `t` that is not automatic, from `i`.
pub open spec fn plain_of(es: Seq<DrawnView>, t: Seq<char>, i: int) -> Option<DrawnView>
    decreases es.len() - i,
{
    if i < 0 || i >= es.len() {
        None
    } else if es[i].dr_type == t && es[i].auto_comment is None {
        Some(es[i])
    } else {
        plain_of(es, t, i + 1)
    }
}

/// The zooms of object id `oid` in `ids` (the first entry for it), from `i`.
pub open spec fn zooms_of(ids: Seq<(Seq<char>, Set<i32>)>, oid: Seq<char>, i: int) -> Option<Set<i32>>
    decreases ids.len() - i,
{
    if i < 0 || i >= ids.len() {
        None
    } else if ids[i].0 == oid {
        Some(ids[i].1)
    } else {
        zooms_of(ids, oid, i + 1)
    }
}

/// The lowest zoom of the object ids of the line among the first `n`,
/// starting from `m`.
pub open spec fn lines_min(ids: Seq<(Seq<char>, Set<i32>)>, n: nat, m: int) -> int
    decreases n,
{
    if n == 0 {
        m
    } else {
        let p = lines_min(ids, (n - 1) as nat, m);
        if min_zoom(ids[n - 1].1) < p { min_zoom(ids[n - 1].1) } else { p }
    }
}

/// The messages on one object id of one drawn type of class `cl`, and
/// whether it is an error.
pub open spec fn row_checks(
    cl: Seq<char>,
    es: Seq<DrawnView>,
    d: DrawnView,
    oid: Seq<char>,
    zooms: Set<i32>,
    maxzoom: i32,
) -> (Seq<Seq<char>>, bool) {
    let zr = zooms_text(zoom_list(zooms), maxzoom);
    let gaps = if zr.contains(',') {
        seq!["WARNING: non-contiguous visibility range "@ + zr + " for "@ + cl + " "@ + debug_text(d.dr_type) + oid]
    } else {
        Seq::empty()
    };
    let early = if d.dr_type == "caption"@ {
        match plain_of(es, "icon"@, 0) {
            Some(icon) => match zooms_of(icon.object_ids, oid, 0) {
                Some(iz) => if min_zoom(zooms) < zoom_list(iz)[0] {
                    seq!["WARNING: caption "@ + zr + " appears before icon "@ + zooms_text(zoom_list(iz), maxzoom) + " for "@ + cl + oid]
                } else {
                    Seq::empty()
                },
                None => Seq::empty(),
            },
            None => Seq::empty(),
        }
    } else {
        Seq::empty()
    };
    let lm = match plain_of(es, "line"@, 0) {
        Some(line) => lines_min(line.object_ids, line.object_ids.len(), maxzoom + 1),
        None => maxzoom + 1,
    };
    let bare = (d.dr_type == "pathtext"@ || d.dr_type == "shield"@) && min_zoom(zooms) < lm;
    let lineless = if bare {
        seq!["ERROR: "@ + d.dr_type + " without line at "@ + zooms_text(zoom_range(min_zoom(zooms), lm), maxzoom) + " for "@ + cl + oid]
    } else {
        Seq::empty()
    };
    (gaps + early + lineless, bare)
}

/// The messages and the number of errors of the first `n` object ids of a
/// drawn type.
pub open spec fn type_checks(cl: Seq<char>, es: Seq<DrawnView>, d: DrawnView, n: nat, maxzoom: i32) -> (Seq<Seq<char>>, nat)
    decreases n,
{
    if n == 0 {
        (Seq::empty(), 0)
    } else {
        let (m, c) = type_checks(cl, es, d, (n - 1) as nat, maxzoom);
        let (m2, e) = row_checks(cl, es, d, d.object_ids[n - 1].0, d.object_ids[n - 1].1, maxzoom);
        (m + m2, c + if e { 1nat } else { 0nat })
    }
}

/// The messages and the number of errors of the first `n` drawn types of a
/// class.
pub open spec fn class_checks(cl: Seq<char>, es: Seq<DrawnView>, n: nat, maxzoom: i32) -> (Seq<Seq<char>>, nat)
    decreases n,
{
    if n == 0 {
        (Seq::empty(), 0)
    } else {
        let (m, c) = class_checks(cl, es, (n - 1) as nat, maxzoom);
        let (m2, c2) = type_checks(cl, es, es[n - 1], es[n - 1].object_ids.len(), maxzoom);
        (m + m2, c + c2)
    }
}

/// The messages and the number of errors of the first `n` classes.
pub open spec fn all_checks(vis: Seq<(Seq<char>, Seq<DrawnView>)>, n: nat, maxzoom: i32) -> (Seq<Seq<char>>, nat)
    decreases n,
{
    if n == 0 {
        (Seq::empty(), 0)
    } else {
        let (m, c) = all_checks(vis, (n - 1) as nat, maxzoom);
        let (m2, c2) = class_checks(vis[n - 1].0, vis[n - 1].1, vis[n - 1].1.len(), maxzoom);
        (m + m2, c + c2)
    }
}

/// Every object id of some drawn types is drawn at some zoom.
pub open spec fn entries_given(es: Seq<DrawnView>) -> bool {
    forall|b: int, k: int|
        0 <= b < es.len() && 0 <= k < es[b].object_ids.len() ==> #[trigger] es[b].object_ids[k].1 != Set::<i32>::empty()
}

/// Every object id of every class is drawn at some zoom.
pub open spec fn zooms_given(vis: Seq<(Seq<char>, Seq<DrawnView>)>) -> bool {
    forall|a: int| 0 <= a < vis.len() ==> entries_given(#[trigger] vis[a].1)
}

fn plain_index(es: &Vec<DrawnType>, t: &str) -> (r: Option<usize>)
    ensures
        match r {
            Some(i) => i < es@.len() && plain_of(drawn_views(es@), t@, 0) == Some(es@[i as int]@),
            None => plain_of(drawn_views(es@), t@, 0) is None,
        },
{
    let ghost ev = drawn_views(es@);
    for i in 0..es.len()
        invariant
            ev == drawn_views(es@),
            plain_of(ev, t@, 0) == plain_of(ev, t@, i as int),
    {
        assert(ev[i as int] == es@[i as int]@);
        if str_eq(es[i].dr_type.as_str(), t) && es[i].auto_comment.is_none() {
            return Some(i);
        }
    }
    None
}

fn zooms_index(d: &DrawnType, oid: &String) -> (r: Option<usize>)
    ensures
        match r {
            Some(j) => j < d.object_ids@.len() && zooms_of(d@.object_ids, oid@, 0) == Some(d.object_ids@[j as int].1@),
            None => zooms_of(d@.object_ids, oid@, 0) is None,
        },
{
    let ghost iv = d@.object_ids;
    for j in 0..d.object_ids.len()
        invariant
            iv == d@.object_ids,
            zooms_of(iv, oid@, 0) == zooms_of(iv, oid@, j as int),
    {
        assert(iv[j as int] == (d.object_ids@[j as int].0@, d.object_ids@[j as int].1@));
        if str_eq(d.object_ids[j].0.as_str(), oid.as_str()) {
            return Some(j);
        }
    }
    None
}

fn lowest(z: &BTreeSet<i32>) -> (r: i32)
    ensures
        r == min_zoom(z@),
{
    let v = zoom_vec(z);
    if v.len() > 0 {
        v[0]
    } else {
        0
    }
}

fn has_comma(t: &String) -> (r: bool)
    ensures
        r == t@.contains(','),
{
    let cs = crate::text::chars_of(t.as_str());
    for i in 0..cs.len()
        invariant
            cs@ == t@,
            forall|k: int| 0 <= k < i ==> cs@[k] != ',',
    {
        if cs[i] == ',' {
            assert(t@[i as int] == ',');
            return true;
        }
    }
    false
}

/// The warning on a caption that shows before its icon, if any.
fn caption_note(cl: &String, es: &Vec<DrawnType>, oid: &String, zr: &String, minz: i32, maxzoom: i32) -> (r: Option<String>)
    requires
        entries_given(drawn_views(es@)),
    ensures
        match r {
            Some(m) => match plain_of(drawn_views(es@), "icon"@, 0) {
                Some(icon) => match zooms_of(icon.object_ids, oid@, 0) {
                    Some(iz) => minz < zoom_list(iz)[0] && m@ == "WARNING: caption "@ + zr@ + " appears before icon "@
                        + zooms_text(zoom_list(iz), maxzoom) + " for "@ + cl@ + oid@,
                    None => false,
                },
                None => false,
            },
            None => match plain_of(drawn_views(es@), "icon"@, 0) {
                Some(icon) => match zooms_of(icon.object_ids, oid@, 0) {
                    Some(iz) => !(minz < zoom_list(iz)[0]),
                    None => true,
                },
                None => true,
            },
        },
{
    let ghost ev = drawn_views(es@);
    let ii = match plain_index(es, "icon") {
        Some(ii) => ii,
        None => {
            return None;
        },
    };
    let j = match zooms_index(&es[ii], oid) {
        Some(j) => j,
        None => {
            return None;
        },
    };
    let iz = &es[ii].object_ids[j].1;
    let v = zoom_vec(iz);
    proof {
        assert(ev[ii as int] == es@[ii as int]@);
        assert(ev[ii as int].object_ids[j as int].1 == iz@);
        assert(iz@ != Set::<i32>::empty());
        if v@.len() == 0 {
            assert(v@.to_set() =~= Set::<i32>::empty());
        }
    }
    if minz < v[0] {
        let mut m = str_to_string("WARNING: caption ");
        push_str(&mut m, zr.as_str());
        push_str(&mut m, " appears before icon ");
        let izt = prettify_sorted(&v, maxzoom);
        push_str(&mut m, izt.as_str());
        push_str(&mut m, " for ");
        push_str(&mut m, cl.as_str());
        push_str(&mut m, oid.as_str());
        Some(m)
    } else {
        None
    }
}

fn check_row(
    cl: &String,
    es: &Vec<DrawnType>,
    d: &DrawnType,
    oid: &String,
    zooms: &BTreeSet<i32>,
    maxzoom: i32,
) -> (r: (Vec<String>, bool))
    requires
        maxzoom < i32::MAX,
        entries_given(drawn_views(es@)),
    ensures
        (texts(r.0@), r.1) == row_checks(cl@, drawn_views(es@), d@, oid@, zooms@, maxzoom),
{
    let ghost ev = drawn_views(es@);
    let mut out: Vec<String> = Vec::new();
    let zr = crate::prio::prettify_zooms(zooms, maxzoom);
    if has_comma(&zr) {
        let mut m = str_to_string("WARNING: non-contiguous visibility range ");
        push_str(&mut m, zr.as_str());
        push_str(&mut m, " for ");
        push_str(&mut m, cl.as_str());
        push_str(&mut m, " ");
        let dt = debug_str(d.dr_type.as_str());
        push_str(&mut m, dt.as_str());
        push_str(&mut m, oid.as_str());
        out.push(m);
    }
    let ghost gaps = texts(out@);
    let minz = lowest(zooms);
    if str_eq(d.dr_type.as_str(), "caption") {
        match caption_note(cl, es, oid, &zr, minz, maxzoom) {
            Some(m) => out.push(m),
            None => {},
        }
    }
    let ghost early_done = texts(out@);
    let mut lm: i32 = maxzoom + 1;
    match plain_index(es, "line") {
        Some(li) => {
            let line = &es[li];
            let ghost ids = line@.object_ids;
            for k in 0..line.object_ids.len()
                invariant
                    ids == line@.object_ids,
                    lm == lines_min(ids, k as nat, maxzoom + 1),
            {
                assert(ids[k as int].1 == line.object_ids@[k as int].1@);
                let mz = lowest(&line.object_ids[k].1);
                if mz < lm {
                    lm = mz;
                }
            }
        },
        None => {},
    }
    let bare = (str_eq(d.dr_type.as_str(), "pathtext") || str_eq(d.dr_type.as_str(), "shield")) && minz < lm;
    if bare {
        let mut range: Vec<i32> = Vec::new();
        let mut z = minz;
        while z < lm
            invariant
                minz <= z <= lm,
                range@ =~= zoom_range(minz as int, z as int),
            decreases lm - z,
        {
            range.push(z);
            z = z + 1;
            assert(range@ =~= zoom_range(minz as int, z as int));
        }
        let mut m = str_to_string("ERROR: ");
        push_str(&mut m, d.dr_type.as_str());
        push_str(&mut m, " without line at ");
        let rt = prettify_sorted(&range, maxzoom);
        push_str(&mut m, rt.as_str());
        push_str(&mut m, " for ");
        push_str(&mut m, cl.as_str());
        push_str(&mut m, oid.as_str());
        out.push(m);
    }
    proof {
        let (msgs, e) = row_checks(cl@, ev, d@, oid@, zooms@, maxzoom);
        assert(e == bare);
        assert(texts(out@) =~= msgs);
    }
    (out, bare)
}

fn check_type(
    cl: &String,
    es: &Vec<DrawnType>,
    b: usize,
    maxzoom: i32,
    msgs: &mut Vec<String>,
    count: &mut usize,
)
    requires
        maxzoom < i32::MAX,
        b < es@.len(),
        entries_given(drawn_views(es@)),
        *old(count) <= old(msgs)@.len(),
    ensures
        texts(final(msgs)@) == texts(old(msgs)@) + type_checks(
            cl@,
            drawn_views(es@),
            es@[b as int]@,
            es@[b as int]@.object_ids.len(),
            maxzoom,
        ).0,
        *final(count) == *old(count) + type_checks(cl@, drawn_views(es@), es@[b as int]@, es@[b as int]@.object_ids.len(), maxzoom).1,
        *final(count) <= final(msgs)@.len(),
{
    let d = &es[b];
    let ghost dv = d@;
    let ghost ev = drawn_views(es@);
    let ghost m0 = texts(msgs@);
    let ghost c0 = *count as nat;
    assert(m0 + Seq::<Seq<char>>::empty() =~= m0);
    for k in 0..d.object_ids.len()
        invariant
            dv == d@,
            ev == drawn_views(es@),
            maxzoom < i32::MAX,
            entries_given(ev),
            texts(msgs@) == m0 + type_checks(cl@, ev, dv, k as nat, maxzoom).0,
            *count == c0 + type_checks(cl@, ev, dv, k as nat, maxzoom).1,
            *count <= msgs@.len(),
    {
        assert(dv.object_ids[k as int] == (d.object_ids@[k as int].0@, d.object_ids@[k as int].1@));
        let (rm, e) = check_row(cl, es, d, &d.object_ids[k].0, &d.object_ids[k].1, maxzoom);
        let ghost before = texts(msgs@);
        assert(before.len() == msgs@.len());
        let ghost rmv = texts(rm@);
        let mut rm = rm;
        let mut j: usize = 0;
        let n = rm.len();
        let mut rest: Vec<String> = Vec::new();
        while j < n
            invariant
                j <= n,
                n == rm@.len(),
                texts(rm@) == rmv,
                texts(msgs@) == before + rmv.take(j as int),
                msgs@.len() == before.len() + j,
                *count <= before.len(),
            decreases n - j,
        {
            let ghost cur = texts(msgs@);
            assert(rmv[j as int] == rm@[j as int]@);
            msgs.push(rm[j].clone());
            assert(texts(msgs@) =~= cur.push(rmv[j as int]));
            assert(texts(msgs@) =~= before + rmv.take(j as int + 1));
            j = j + 1;
        }
        assert(rmv.take(n as int) =~= rmv);
        proof {
            if e {
                assert(rmv.len() > 0);
            }
        }
        if e {
            assert(rmv.len() == n);
            assert(*count < msgs.len());
            *count = *count + 1;
        }
        assert(texts(msgs@) =~= m0 + type_checks(cl@, ev, dv, (k + 1) as nat, maxzoom).0);
    }
}

/// The warnings on the visibility ranges of the drawing rules of the
/// classes in `vis`, and the number of errors among them.
pub fn check_visibilities(vis: &Vec<(String, Vec<DrawnType>)>, maxzoom: i32) -> (r: (Vec<String>, usize))
    requires
        maxzoom < i32::MAX,
        zooms_given(classes_drawn(vis@)),
    ensures
        (texts(r.0@), r.1 as nat) == all_checks(classes_drawn(vis@), vis@.len(), maxzoom),
{
    let ghost cv = classes_drawn(vis@);
    let mut msgs: Vec<String> = Vec::new();
    let mut count: usize = 0;
    assert(texts(msgs@) =~= Seq::<Seq<char>>::empty());
    for a in 0..vis.len()
        invariant
            cv == classes_drawn(vis@),
            maxzoom < i32::MAX,
            zooms_given(cv),
            texts(msgs@) == all_checks(cv, a as nat, maxzoom).0,
            count as nat == all_checks(cv, a as nat, maxzoom).1,
            count <= msgs@.len(),
    {
        let cl = &vis[a].0;
        let es = &vis[a].1;
        assert(cv[a as int] == (cl@, drawn_views(es@)));
        assert(entries_given(cv[a as int].1));
        let ghost ev = drawn_views(es@);
        let ghost m0 = texts(msgs@);
        let ghost c0 = count as nat;
        assert(m0 + Seq::<Seq<char>>::empty() =~= m0);
        for b in 0..es.len()
            invariant
                ev == drawn_views(es@),
                maxzoom < i32::MAX,
                entries_given(ev),
                texts(msgs@) == m0 + class_checks(cl@, ev, b as nat, maxzoom).0,
                count as nat == c0 + class_checks(cl@, ev, b as nat, maxzoom).1,
                count <= msgs@.len(),
        {
            assert(ev[b as int] == es@[b as int]@);
            check_type(cl, es, b, maxzoom, &mut msgs, &mut count);
            assert(texts(msgs@) =~= m0 + class_checks(cl@, ev, (b + 1) as nat, maxzoom).0);
        }
        assert(texts(msgs@) =~= all_checks(cv, (a + 1) as nat, maxzoom).0);
    }
    (msgs, count)
}

} // verus!
