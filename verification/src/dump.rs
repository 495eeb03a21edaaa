//! Writing a priorities file back: a head of comments, then the priorities
//! in descending order, grouped by value, each type followed by the drawing
//! rules that use it and each group closed by `=== <priority>`.

use vstd::prelude::*;
use std::collections::BTreeSet;
use crate::prio::{
    PrioKey, PrioKeyView, PrioRangeKind, comment_of, name_of, zoom_list, zooms_text, prettify_zooms,
    COMMENT_AUTOFORMAT, COMMENT_RANGES_OVERVIEW, COMMENT_AUTO_CAPTIONS,
};
use crate::priorities::{table_view, copy_key, prio_entries, table_len, table_entry};
use indexmap::IndexMap;
use crate::mapping::{text_lines, lines_of, text_lt, text_less};
use crate::lines::{trim, trim_chars, trim_end, trim_end_chars};
use crate::text::{str_to_string, push_str, push_i64, dec_int, text_of};
use crate::canonical::{join, texts};
use crate::condition::str_eq;

verus! {

// ------------------------------------------------------------------ comments

/// A comment line: `#`, then a space and `t` unless `t` is empty.
pub open spec fn comment_line(t: Seq<char>) -> Seq<char> {
    if t.len() == 0 {
        "#"@
    } else {
        "# "@ + t
    }
}

/// Some lines as comments, each ending in a line feed; a line loses its
/// trailing white space, and its leading white space too when `both`.
pub open spec fn comment_block(ls: Seq<Seq<char>>, both: bool) -> Seq<char>
    decreases ls.len(),
{
    if ls.len() == 0 {
        Seq::empty()
    } else {
        comment_block(ls.drop_last(), both) + comment_line(if both { trim(ls.last()) } else { trim_end(ls.last()) })
            + "\n"@
    }
}

fn comment_text(text: &str, both: bool) -> (r: String)
    ensures
        r@ == comment_block(text_lines(text@), both),
{
    let ls = lines_of(text);
    let ghost lv = text_lines(text@);
    let mut r = String::new();
    assert(lv.take(0) =~= Seq::<Seq<char>>::empty());
    for i in 0..ls.len()
        invariant
            ls@.map_values(|p: Vec<char>| p@) == lv,
            r@ == comment_block(lv.take(i as int), both),
    {
        assert(ls@[i as int]@ == lv[i as int]);
        let t = if both { trim_chars(&ls[i]) } else { trim_end_chars(&ls[i]) };
        if t.len() == 0 {
            push_str(&mut r, "#");
        } else {
            push_str(&mut r, "# ");
            let tt = text_of(&t);
            push_str(&mut r, tt.as_str());
        }
        push_str(&mut r, "\n");
        assert(lv.take(i as int + 1).drop_last() =~= lv.take(i as int));
        assert(r@ =~= comment_block(lv.take(i as int + 1), both));
    }
    assert(lv.take(ls@.len() as int) =~= lv);
    r
}

// ------------------------------------------------------------------ the order of priorities

/// `a` is listed before `b`: the higher priority first, then by class, then
/// by object id.
pub open spec fn prio_before(a: (PrioKeyView, i32), b: (PrioKeyView, i32)) -> bool {
    a.1 > b.1 || (a.1 == b.1 && (text_lt(a.0.cl, b.0.cl) || (a.0.cl == b.0.cl && text_lt(
        a.0.object_id,
        b.0.object_id,
    ))))
}

/// Where `x` goes in the sorted `t`: before the first entry it is listed
/// before, so after every entry it is not.
pub open spec fn prio_slot(t: Seq<(PrioKeyView, i32)>, x: (PrioKeyView, i32), i: int) -> int
    decreases t.len() - i,
{
    if i < 0 || i >= t.len() {
        t.len() as int
    } else if prio_before(x, t[i]) {
        i
    } else {
        prio_slot(t, x, i + 1)
    }
}

/// `s` sorted by `prio_before`, entries listed alike keeping their order.
pub open spec fn prio_sorted(s: Seq<(PrioKeyView, i32)>) -> Seq<(PrioKeyView, i32)>
    decreases s.len(),
{
    if s.len() == 0 {
        s
    } else {
        let t = prio_sorted(s.drop_last());
        t.insert(prio_slot(t, s.last(), 0), s.last())
    }
}

proof fn lemma_prio_slot(t: Seq<(PrioKeyView, i32)>, x: (PrioKeyView, i32), i: int)
    requires
        0 <= i <= t.len(),
    ensures
        i <= prio_slot(t, x, i) <= t.len(),
    decreases t.len() - i,
{
    if i < t.len() && !prio_before(x, t[i]) {
        lemma_prio_slot(t, x, i + 1);
    }
}

proof fn lemma_prio_sorted_len(s: Seq<(PrioKeyView, i32)>)
    ensures
        prio_sorted(s).len() == s.len(),
    decreases s.len(),
{
    if s.len() > 0 {
        lemma_prio_sorted_len(s.drop_last());
        lemma_prio_slot(prio_sorted(s.drop_last()), s.last(), 0);
    }
}

fn prio_less(a: &(PrioKey, i32), b: &(PrioKey, i32)) -> (r: bool)
    ensures
        r == prio_before((a.0@, a.1), (b.0@, b.1)),
{
    if a.1 != b.1 {
        return a.1 > b.1;
    }
    if text_less(a.0.cl.as_str(), b.0.cl.as_str()) {
        return true;
    }
    if !str_eq(a.0.cl.as_str(), b.0.cl.as_str()) {
        return false;
    }
    text_less(a.0.object_id.as_str(), b.0.object_id.as_str())
}

fn sort_prios(t: &IndexMap<PrioKey, i32>) -> (r: Vec<(PrioKey, i32)>)
    ensures
        table_view(r@) == prio_sorted(prio_entries(*t)),
{
    let ghost tv = prio_entries(*t);
    let mut r: Vec<(PrioKey, i32)> = Vec::new();
    assert(table_view(r@) =~= prio_sorted(tv.take(0)));
    let n = table_len(t);
    for i in 0..n
        invariant
            tv == prio_entries(*t),
            n == tv.len(),
            table_view(r@) == prio_sorted(tv.take(i as int)),
    {
        let ghost rv = table_view(r@);
        let ghost xv = tv[i as int];
        let e = match table_entry(t, i) {
            Some(x) => (copy_key(x.0), *x.1),
            None => {
                return r;
            },
        };
        assert(xv == (e.0@, e.1));
        let mut j: usize = 0;
        while j < r.len() && !prio_less(&e, &r[j])
            invariant
                j <= r@.len(),
                rv == table_view(r@),
                xv == (e.0@, e.1),
                prio_slot(rv, xv, 0) == prio_slot(rv, xv, j as int),
            decreases r@.len() - j,
        {
            assert(rv[j as int] == (r@[j as int].0@, r@[j as int].1));
            j = j + 1;
        }
        proof {
            if j < r@.len() {
                assert(rv[j as int] == (r@[j as int].0@, r@[j as int].1));
            }
        }
        r.insert(j, e);
        assert(table_view(r@) =~= rv.insert(j as int, xv));
        assert(tv.take(i as int + 1).drop_last() =~= tv.take(i as int));
    }
    assert(tv.take(n as int) =~= tv);
    r
}

// ------------------------------------------------------------------ drawing rules

/// A drawing rule type used by a class: its object ids with the zooms each
/// is drawn at.
#[derive(Clone, Debug)]
pub struct DrawnType {
    pub dr_type: String,
    pub auto_comment: Option<String>,
    pub object_ids: Vec<(String, BTreeSet<i32>)>,
}

/// The view of a drawn type.
pub ghost struct DrawnView {
    pub dr_type: Seq<char>,
    pub auto_comment: Option<Seq<char>>,
    pub object_ids: Seq<(Seq<char>, Set<i32>)>,
}

impl View for DrawnType {
    type V = DrawnView;

    open spec fn view(&self) -> DrawnView {
        DrawnView {
            dr_type: self.dr_type@,
            auto_comment: match self.auto_comment {
                Some(c) => Some(c@),
                None => None,
            },
            object_ids: self.object_ids@.map_values(|p: (String, BTreeSet<i32>)| (p.0@, p.1@)),
        }
    }
}

/// The views of some drawn types.
pub open spec fn drawn_views(v: Seq<DrawnType>) -> Seq<DrawnView> {
    v.map_values(|d: DrawnType| d@)
}

/// The views of the drawn types of some classes.
pub open spec fn classes_drawn(v: Seq<(String, Vec<DrawnType>)>) -> Seq<(Seq<char>, Seq<DrawnView>)> {
    v.map_values(|e: (String, Vec<DrawnType>)| (e.0@, drawn_views(e.1@)))
}

/// The rank of a drawing rule type in a range's file: for overlays icon,
/// caption, path text, shield, line, area; otherwise line, area, icon,
/// caption, path text, shield; other types last.
pub open spec fn dr_rank(kind: PrioRangeKind, t: Seq<char>) -> int {
    if kind == PrioRangeKind::Overlays {
        if t == "icon"@ {
            0
        } else if t == "caption"@ {
            1
        } else if t == "pathtext"@ {
            2
        } else if t == "shield"@ {
            3
        } else if t == "line"@ {
            4
        } else if t == "area"@ {
            5
        } else {
            6
        }
    } else {
        if t == "line"@ {
            0
        } else if t == "area"@ {
            1
        } else if t == "icon"@ {
            2
        } else if t == "caption"@ {
            3
        } else if t == "pathtext"@ {
            4
        } else if t == "shield"@ {
            5
        } else {
            6
        }
    }
}

fn rank(kind: PrioRangeKind, t: &str) -> (r: usize)
    ensures
        r == dr_rank(kind, t@),
{
    if kind == PrioRangeKind::Overlays {
        if str_eq(t, "icon") {
            0
        } else if str_eq(t, "caption") {
            1
        } else if str_eq(t, "pathtext") {
            2
        } else if str_eq(t, "shield") {
            3
        } else if str_eq(t, "line") {
            4
        } else if str_eq(t, "area") {
            5
        } else {
            6
        }
    } else {
        if str_eq(t, "line") {
            0
        } else if str_eq(t, "area") {
            1
        } else if str_eq(t, "icon") {
            2
        } else if str_eq(t, "caption") {
            3
        } else if str_eq(t, "pathtext") {
            4
        } else if str_eq(t, "shield") {
            5
        } else {
            6
        }
    }
}

/// Where `x` goes in the ranked `t`: after every type of a rank not above
/// its own.
pub open spec fn drawn_slot(kind: PrioRangeKind, t: Seq<DrawnView>, x: DrawnView, i: int) -> int
    decreases t.len() - i,
{
    if i < 0 || i >= t.len() {
        t.len() as int
    } else if dr_rank(kind, x.dr_type) < dr_rank(kind, t[i].dr_type) {
        i
    } else {
        drawn_slot(kind, t, x, i + 1)
    }
}

/// `s` sorted by rank, types of one rank keeping their order.
pub open spec fn drawn_sorted(kind: PrioRangeKind, s: Seq<DrawnView>) -> Seq<DrawnView>
    decreases s.len(),
{
    if s.len() == 0 {
        s
    } else {
        let t = drawn_sorted(kind, s.drop_last());
        t.insert(drawn_slot(kind, t, s.last(), 0), s.last())
    }
}

/// The drawn types of class `cl`: those of its first entry in `vis`, if any.
pub open spec fn drawn_of(vis: Seq<(Seq<char>, Seq<DrawnView>)>, cl: Seq<char>, i: int) -> Seq<DrawnView>
    decreases vis.len() - i,
{
    if i < 0 || i >= vis.len() {
        Seq::empty()
    } else if vis[i].0 == cl {
        vis[i].1
    } else {
        drawn_of(vis, cl, i + 1)
    }
}

/// One object id of one drawn type.
pub type DrawnRow = (DrawnView, Seq<char>, Set<i32>);

/// The object ids of some drawn types, in order.
pub open spec fn drawn_rows(es: Seq<DrawnView>) -> Seq<DrawnRow>
    decreases es.len(),
{
    if es.len() == 0 {
        Seq::empty()
    } else {
        drawn_rows(es.drop_last()) + rows_of(es.last())
    }
}

/// The object ids of one drawn type, in order.
pub open spec fn rows_of(d: DrawnView) -> Seq<DrawnRow> {
    d.object_ids.map_values(|p: (Seq<char>, Set<i32>)| (d, p.0, p.1))
}

/// How a row is shown: type, object id, automatic comment in brackets, and
/// its zooms.
pub open spec fn row_text(r: DrawnRow, maxzoom: i32) -> Seq<char> {
    r.0.dr_type + r.1 + match r.0.auto_comment {
        Some(c) => "("@ + c + ")"@,
        None => Seq::empty(),
    } + " "@ + zooms_text(zoom_list(r.2), maxzoom)
}

/// Whether a drawing rule type belongs in a range's file.
pub open spec fn suits(kind: PrioRangeKind, t: Seq<char>) -> bool {
    ||| kind == PrioRangeKind::Overlays && (t == "icon"@ || t == "caption"@ || t == "pathtext"@ || t == "shield"@)
    ||| (kind == PrioRangeKind::Fg || kind == PrioRangeKind::BgTop) && (t == "line"@ || t == "area"@)
    ||| kind == PrioRangeKind::BgBySize && t == "area"@
}

/// Whether a row is the drawing rule that the priority of `k` is for: its
/// object id, and either the automatic type and comment of `k`, or, where
/// neither is automatic, a type that suits the range.
pub open spec fn row_is_for(kind: PrioRangeKind, k: PrioKeyView, r: DrawnRow) -> bool {
    r.1 == k.object_id && match k.auto {
        Some(a) => a.0 == r.0.dr_type && a.1 == r.0.auto_comment,
        None => r.0.auto_comment is None && suits(kind, r.0.dr_type),
    }
}

/// The texts of the rows that are (`want`) or are not for `k`, in order.
pub open spec fn row_texts(kind: PrioRangeKind, k: PrioKeyView, rs: Seq<DrawnRow>, maxzoom: i32, want: bool) -> Seq<Seq<char>>
    decreases rs.len(),
{
    if rs.len() == 0 {
        Seq::empty()
    } else {
        let prev = row_texts(kind, k, rs.drop_last(), maxzoom, want);
        if row_is_for(kind, k, rs.last()) == want {
            prev.push(row_text(rs.last(), maxzoom))
        } else {
            prev
        }
    }
}

/// `t` padded with spaces to 50 characters.
pub open spec fn pad50(t: Seq<char>) -> Seq<char> {
    if t.len() < 50 {
        t + Seq::new((50 - t.len()) as nat, |i: int| ' ')
    } else {
        t
    }
}

/// The line of a type in its group, and the warning it gives if any.
pub open spec fn entry_line(
    kind: PrioRangeKind,
    k: PrioKeyView,
    vis: Seq<(Seq<char>, Seq<DrawnView>)>,
    maxzoom: i32,
) -> (Seq<char>, Option<Seq<char>>) {
    let rows = drawn_rows(drawn_sorted(kind, drawn_of(vis, k.cl, 0)));
    let mine = row_texts(kind, k, rows, maxzoom, true);
    let others = row_texts(kind, k, rows, maxzoom, false);
    let also = join(others, ", "@);
    let name = k.cl + k.object_id;
    let rules = if mine.len() > 0 {
        join(mine, " and "@)
    } else if others.len() > 0 {
        "WARNING: no drule defined for the priority"@
    } else {
        "WARNING: no style defined (the type will be not included into map data)"@
    };
    let note = if mine.len() > 0 { None } else { Some(rules + " for "@ + name + " in "@ + name_of(kind)) };
    let info = "# "@ + rules + if others.len() > 0 { " (also has "@ + also + ")"@ } else { Seq::empty() };
    let shown = if k.auto is None { name } else { "# "@ + name };
    (pad50(shown) + "  "@ + info + "\n"@, note)
}

fn find_drawn(vis: &Vec<(String, Vec<DrawnType>)>, cl: &String) -> (r: Option<usize>)
    ensures
        match r {
            Some(i) => i < vis@.len() && drawn_views(vis@[i as int].1@) == drawn_of(classes_drawn(vis@), cl@, 0),
            None => drawn_of(classes_drawn(vis@), cl@, 0) == Seq::<DrawnView>::empty(),
        },
{
    let ghost cv = classes_drawn(vis@);
    for i in 0..vis.len()
        invariant
            cv == classes_drawn(vis@),
            drawn_of(cv, cl@, 0) == drawn_of(cv, cl@, i as int),
    {
        assert(cv[i as int] == (vis@[i as int].0@, drawn_views(vis@[i as int].1@)));
        if str_eq(vis[i].0.as_str(), cl.as_str()) {
            return Some(i);
        }
    }
    None
}

fn drawn_order(kind: PrioRangeKind, es: &Vec<DrawnType>) -> (ord: Vec<usize>)
    ensures
        forall|k: int| 0 <= k < ord@.len() ==> ord@[k] < es@.len(),
        ord@.map_values(|i: usize| es@[i as int]@) == drawn_sorted(kind, drawn_views(es@)),
{
    let ghost ev = drawn_views(es@);
    let mut ord: Vec<usize> = Vec::new();
    assert(ord@.map_values(|i: usize| es@[i as int]@) =~= drawn_sorted(kind, ev.take(0)));
    for i in 0..es.len()
        invariant
            ev == drawn_views(es@),
            forall|k: int| 0 <= k < ord@.len() ==> ord@[k] < es@.len(),
            ord@.map_values(|i: usize| es@[i as int]@) == drawn_sorted(kind, ev.take(i as int)),
    {
        let ghost ov = ord@.map_values(|i: usize| es@[i as int]@);
        let x = rank(kind, es[i].dr_type.as_str());
        let mut j: usize = 0;
        while j < ord.len() && !(x < rank(kind, es[ord[j]].dr_type.as_str()))
            invariant
                j <= ord@.len(),
                i < es@.len(),
                ev == drawn_views(es@),
                forall|k: int| 0 <= k < ord@.len() ==> ord@[k] < es@.len(),
                ov == ord@.map_values(|i: usize| es@[i as int]@),
                x == dr_rank(kind, ev[i as int].dr_type),
                drawn_slot(kind, ov, ev[i as int], 0) == drawn_slot(kind, ov, ev[i as int], j as int),
            decreases ord@.len() - j,
        {
            j = j + 1;
        }
        ord.insert(j, i);
        assert(ord@.map_values(|i: usize| es@[i as int]@) =~= ov.insert(j as int, ev[i as int]));
        assert(ev.take(i as int + 1).drop_last() =~= ev.take(i as int));
    }
    assert(ev.take(es@.len() as int) =~= ev);
    ord
}

fn suits_exec(kind: PrioRangeKind, t: &str) -> (r: bool)
    ensures
        r == suits(kind, t@),
{
    (kind == PrioRangeKind::Overlays && (str_eq(t, "icon") || str_eq(t, "caption") || str_eq(t, "pathtext")
        || str_eq(t, "shield"))) || ((kind == PrioRangeKind::Fg || kind == PrioRangeKind::BgTop) && (str_eq(
        t,
        "line",
    ) || str_eq(t, "area"))) || (kind == PrioRangeKind::BgBySize && str_eq(t, "area"))
}

fn same_opt(a: &Option<String>, b: &Option<String>) -> (r: bool)
    ensures
        r == (match a {
            Some(x) => Some(x@),
            None => None::<Seq<char>>,
        } == match b {
            Some(x) => Some(x@),
            None => None::<Seq<char>>,
        }),
{
    match (a, b) {
        (None, None) => true,
        (Some(x), Some(y)) => str_eq(x.as_str(), y.as_str()),
        _ => false,
    }
}

fn is_for(kind: PrioRangeKind, k: &PrioKey, d: &DrawnType, oid: &String) -> (r: bool)
    ensures
        r == row_is_for(kind, k@, (d@, oid@, Set::empty())),
{
    if !str_eq(oid.as_str(), k.object_id.as_str()) {
        return false;
    }
    match &k.auto {
        Some(a) => str_eq(a.0.as_str(), d.dr_type.as_str()) && same_opt(&a.1, &d.auto_comment),
        None => d.auto_comment.is_none() && suits_exec(kind, d.dr_type.as_str()),
    }
}

fn row_string(d: &DrawnType, oid: &String, zooms: &BTreeSet<i32>, maxzoom: i32) -> (r: String)
    ensures
        r@ == row_text((d@, oid@, zooms@), maxzoom),
{
    let mut r = str_to_string(d.dr_type.as_str());
    push_str(&mut r, oid.as_str());
    match &d.auto_comment {
        Some(c) => {
            push_str(&mut r, "(");
            push_str(&mut r, c.as_str());
            push_str(&mut r, ")");
        },
        None => {},
    }
    push_str(&mut r, " ");
    let z = prettify_zooms(zooms, maxzoom);
    push_str(&mut r, z.as_str());
    assert(r@ =~= row_text((d@, oid@, zooms@), maxzoom));
    r
}

fn pad_to_50(t: &String) -> (r: String)
    ensures
        r@ == pad50(t@),
{
    let mut r = str_to_string(t.as_str());
    let n = crate::text::chars_of(t.as_str()).len();
    let mut k = n;
    while k < 50
        invariant
            n == t@.len(),
            n <= k <= 50 || (k == n && n >= 50),
            r@ == t@ + Seq::new((k - n) as nat, |i: int| ' '),
        decreases 50 - k,
    {
        r.push(' ');
        k = k + 1;
        assert(r@ =~= t@ + Seq::new((k - n) as nat, |i: int| ' '));
    }
    proof {
        if n >= 50 {
            assert(r@ =~= t@);
        }
    }
    r
}

fn entry_text(kind: PrioRangeKind, k: &PrioKey, vis: &Vec<(String, Vec<DrawnType>)>, maxzoom: i32) -> (r: (
    String,
    Option<String>,
))
    ensures
        r.0@ == entry_line(kind, k@, classes_drawn(vis@), maxzoom).0,
        match r.1 {
            Some(n) => entry_line(kind, k@, classes_drawn(vis@), maxzoom).1 == Some(n@),
            None => entry_line(kind, k@, classes_drawn(vis@), maxzoom).1 is None,
        },
{
    let ghost sv = drawn_sorted(kind, drawn_of(classes_drawn(vis@), k.cl@, 0));
    let mut mine = String::new();
    let mut others = String::new();
    let mut any_mine = false;
    let mut any_others = false;
    let ghost mut done: Seq<DrawnRow> = Seq::empty();
    match find_drawn(vis, &k.cl) {
        None => {
            assert(sv =~= Seq::<DrawnView>::empty());
        },
        Some(vi) => {
            let es = &vis[vi].1;
            let ord = drawn_order(kind, es);
            assert(ord@.map_values(|i: usize| es@[i as int]@) == sv);
            assert(sv.take(0) =~= Seq::<DrawnView>::empty());
            for a in 0..ord.len()
                invariant
                    forall|q: int| 0 <= q < ord@.len() ==> ord@[q] < es@.len(),
                    ord@.map_values(|i: usize| es@[i as int]@) == sv,
                    done == drawn_rows(sv.take(a as int)),
                    mine@ == join(row_texts(kind, k@, done, maxzoom, true), " and "@),
                    others@ == join(row_texts(kind, k@, done, maxzoom, false), ", "@),
                    any_mine == (row_texts(kind, k@, done, maxzoom, true).len() > 0),
                    any_others == (row_texts(kind, k@, done, maxzoom, false).len() > 0),
            {
                let d = &es[ord[a]];
                assert(d@ == sv[a as int]);
                let ghost base = done;
                for b in 0..d.object_ids.len()
                    invariant
                        d@ == sv[a as int],
                        done == base + rows_of(d@).take(b as int),
                        mine@ == join(row_texts(kind, k@, done, maxzoom, true), " and "@),
                        others@ == join(row_texts(kind, k@, done, maxzoom, false), ", "@),
                        any_mine == (row_texts(kind, k@, done, maxzoom, true).len() > 0),
                        any_others == (row_texts(kind, k@, done, maxzoom, false).len() > 0),
                {
                    let oid = &d.object_ids[b].0;
                    let zooms = &d.object_ids[b].1;
                    let ghost row: DrawnRow = (d@, oid@, zooms@);
                    assert(rows_of(d@)[b as int] == row);
                    let text = row_string(d, oid, zooms, maxzoom);
                    let fits = is_for(kind, k, d, oid);
                    assert(fits == row_is_for(kind, k@, row));
                    let ghost nd = done.push(row);
                    assert(nd.drop_last() =~= done);
                    assert(nd.last() == row);
                    if fits {
                        assert(row_texts(kind, k@, nd, maxzoom, true).drop_last() =~= row_texts(
                            kind,
                            k@,
                            done,
                            maxzoom,
                            true,
                        ));
                        if any_mine {
                            push_str(&mut mine, " and ");
                        }
                        push_str(&mut mine, text.as_str());
                        any_mine = true;
                    } else {
                        assert(row_texts(kind, k@, nd, maxzoom, false).drop_last() =~= row_texts(
                            kind,
                            k@,
                            done,
                            maxzoom,
                            false,
                        ));
                        if any_others {
                            push_str(&mut others, ", ");
                        }
                        push_str(&mut others, text.as_str());
                        any_others = true;
                    }
                    proof {
                        done = nd;
                    }
                    assert(done =~= base + rows_of(d@).take(b as int + 1));
                }
                assert(rows_of(d@).take(d.object_ids@.len() as int) =~= rows_of(d@));
                assert(sv.take(a as int + 1).drop_last() =~= sv.take(a as int));
                assert(done == drawn_rows(sv.take(a as int + 1)));
            }
            assert(sv.take(ord@.len() as int) =~= sv);
        },
    }
    let ghost rows = drawn_rows(sv);
    assert(done == rows);
    let mut name = str_to_string(k.cl.as_str());
    push_str(&mut name, k.object_id.as_str());
    let rules = if any_mine {
        mine
    } else if any_others {
        str_to_string("WARNING: no drule defined for the priority")
    } else {
        str_to_string("WARNING: no style defined (the type will be not included into map data)")
    };
    let note = if any_mine {
        None
    } else {
        let mut n = str_to_string(rules.as_str());
        push_str(&mut n, " for ");
        push_str(&mut n, name.as_str());
        push_str(&mut n, " in ");
        push_str(&mut n, kind.name());
        Some(n)
    };
    let mut info = str_to_string("# ");
    push_str(&mut info, rules.as_str());
    if any_others {
        push_str(&mut info, " (also has ");
        push_str(&mut info, others.as_str());
        push_str(&mut info, ")");
    }
    let shown = if k.auto.is_none() {
        name
    } else {
        let mut h = str_to_string("# ");
        push_str(&mut h, name.as_str());
        h
    };
    let mut line = pad_to_50(&shown);
    push_str(&mut line, "  ");
    push_str(&mut line, info.as_str());
    push_str(&mut line, "\n");
    (line, note)
}

// ------------------------------------------------------------------ the file

/// What writing the first entries gives: the text so far, the open group's
/// lines and closing comment, its priority, whether the note on automatic
/// captions is still to come, and the warnings.
pub ghost struct DumpState {
    pub out: Seq<char>,
    pub group: Seq<char>,
    pub gcomment: Seq<char>,
    pub gprio: i32,
    pub captions: bool,
    pub warnings: Seq<Seq<char>>,
}

/// The head of a range's file.
pub open spec fn dump_head(kind: PrioRangeKind) -> Seq<char> {
    comment_block(text_lines(COMMENT_AUTOFORMAT@ + comment_of(kind) + COMMENT_RANGES_OVERVIEW@), false) + "\n"@
}

/// The note on automatic captions, before the first negative group of the
/// overlays.
pub open spec fn captions_note() -> Seq<char> {
    comment_block(text_lines(COMMENT_AUTO_CAPTIONS@), true) + "\n"@
}

/// Closing the open group and opening one of priority `next`.
pub open spec fn close_group(kind: PrioRangeKind, st: DumpState, next: i32) -> DumpState {
    let cap = kind == PrioRangeKind::Overlays && st.captions && st.gprio < 0;
    DumpState {
        out: st.out + (if cap { captions_note() } else { Seq::empty() }) + st.group + st.gcomment + "=== "@
            + dec_int(st.gprio as int) + "\n\n"@,
        group: Seq::empty(),
        gcomment: "# "@,
        gprio: next,
        captions: st.captions && !cap,
        warnings: st.warnings,
    }
}

/// Writing one more entry. A group whose entries all have automatic
/// priorities keeps its closing line commented out.
pub open spec fn dump_step(
    kind: PrioRangeKind,
    st: DumpState,
    e: (PrioKeyView, i32),
    vis: Seq<(Seq<char>, Seq<DrawnView>)>,
    maxzoom: i32,
) -> DumpState {
    let s1 = if e.1 != st.gprio { close_group(kind, st, e.1) } else { st };
    let (line, note) = entry_line(kind, e.0, vis, maxzoom);
    DumpState {
        out: s1.out,
        group: s1.group + line,
        gcomment: if e.0.auto is None { Seq::empty() } else { s1.gcomment },
        gprio: s1.gprio,
        captions: s1.captions,
        warnings: match note {
            Some(n) => s1.warnings.push(n),
            None => s1.warnings,
        },
    }
}

/// The state after the first `n` entries of `es`.
pub open spec fn dump_entries(
    kind: PrioRangeKind,
    es: Seq<(PrioKeyView, i32)>,
    vis: Seq<(Seq<char>, Seq<DrawnView>)>,
    maxzoom: i32,
    n: nat,
    init: DumpState,
) -> DumpState
    decreases n,
{
    if n == 0 {
        init
    } else {
        dump_step(kind, dump_entries(kind, es, vis, maxzoom, (n - 1) as nat, init), es[n - 1], vis, maxzoom)
    }
}

/// The text of a range's priorities file and the warnings given on the way.
pub open spec fn dumped(
    kind: PrioRangeKind,
    table: Seq<(PrioKeyView, i32)>,
    vis: Seq<(Seq<char>, Seq<DrawnView>)>,
    maxzoom: i32,
) -> (Seq<char>, Seq<Seq<char>>) {
    if table.len() == 0 {
        (dump_head(kind), Seq::empty())
    } else {
        let es = prio_sorted(table);
        let init = DumpState {
            out: dump_head(kind),
            group: Seq::empty(),
            gcomment: "# "@,
            gprio: es[0].1,
            captions: true,
            warnings: Seq::empty(),
        };
        let st = dump_entries(kind, es, vis, maxzoom, es.len(), init);
        (st.out + st.group + st.gcomment + "=== "@ + dec_int(st.gprio as int) + "\n"@, st.warnings)
    }
}

/// The text of the priorities file of range `kind` for the priorities in
/// `table` (in the order they were set), with the drawing rules of each
/// class from `vis`, and the warnings on types that no rule draws.
#[verifier::spinoff_prover]
#[verifier::rlimit(40)]
pub fn priorities_text(
    kind: PrioRangeKind,
    table: &IndexMap<PrioKey, i32>,
    vis: &Vec<(String, Vec<DrawnType>)>,
    maxzoom: i32,
) -> (r: (String, Vec<String>))
    ensures
        (r.0@, texts(r.1@)) == dumped(kind, prio_entries(*table), classes_drawn(vis@), maxzoom),
{
    let mut all = str_to_string(COMMENT_AUTOFORMAT);
    push_str(&mut all, kind.comment());
    push_str(&mut all, COMMENT_RANGES_OVERVIEW);
    let mut out = comment_text(all.as_str(), false);
    push_str(&mut out, "\n");
    let mut warnings: Vec<String> = Vec::new();
    if table_len(table) == 0 {
        assert(texts(warnings@) =~= Seq::<Seq<char>>::empty());
        return (out, warnings);
    }
    let es = sort_prios(table);
    let ghost ev = table_view(es@);
    proof {
        lemma_prio_sorted_len(prio_entries(*table));
    }
    assert(ev[0] == (es@[0].0@, es@[0].1));
    let mut group = String::new();
    let mut gcomment = str_to_string("# ");
    let mut gprio: i32 = es[0].1;
    let mut captions = true;
    let ghost init = DumpState {
        out: out@,
        group: group@,
        gcomment: gcomment@,
        gprio: gprio,
        captions: captions,
        warnings: texts(warnings@),
    };
    assert(init.warnings =~= Seq::<Seq<char>>::empty());
    for i in 0..es.len()
        invariant
            ev == table_view(es@),
            (DumpState {
                out: out@,
                group: group@,
                gcomment: gcomment@,
                gprio: gprio,
                captions: captions,
                warnings: texts(warnings@),
            }) == dump_entries(kind, ev, classes_drawn(vis@), maxzoom, i as nat, init),
    {
        let p = es[i].1;
        assert(ev[i as int] == (es@[i as int].0@, p));
        let ghost st0 = dump_entries(kind, ev, classes_drawn(vis@), maxzoom, i as nat, init);
        let ghost s1 = if p != st0.gprio { close_group(kind, st0, p) } else { st0 };
        if p != gprio {
            let cap = kind == PrioRangeKind::Overlays && captions && gprio < 0;
            if cap {
                let note = comment_text(COMMENT_AUTO_CAPTIONS, true);
                push_str(&mut out, note.as_str());
                push_str(&mut out, "\n");
                captions = false;
            }
            push_str(&mut out, group.as_str());
            push_str(&mut out, gcomment.as_str());
            push_str(&mut out, "=== ");
            push_i64(&mut out, gprio as i64);
            push_str(&mut out, "\n\n");
            assert(out@ =~= s1.out);
            group = String::new();
            gcomment = str_to_string("# ");
            gprio = p;
            assert(group@ =~= s1.group);
        }
        assert(out@ == s1.out && group@ == s1.group && gcomment@ == s1.gcomment && gprio == s1.gprio
            && captions == s1.captions && texts(warnings@) == s1.warnings);
        let ghost w0 = texts(warnings@);
        let (line, note) = entry_text(kind, &es[i].0, vis, maxzoom);
        push_str(&mut group, line.as_str());
        if es[i].0.auto.is_none() {
            gcomment = String::new();
        }
        match note {
            Some(n) => {
                warnings.push(n);
                assert(texts(warnings@) =~= w0.push(n@));
            },
            None => {},
        }
        assert((DumpState {
            out: out@,
            group: group@,
            gcomment: gcomment@,
            gprio: gprio,
            captions: captions,
            warnings: texts(warnings@),
        }) == dump_entries(kind, ev, classes_drawn(vis@), maxzoom, i as nat + 1, init));
    }
    push_str(&mut out, group.as_str());
    push_str(&mut out, gcomment.as_str());
    push_str(&mut out, "=== ");
    push_i64(&mut out, gprio as i64);
    push_str(&mut out, "\n");
    (out, warnings)
}

} // verus!
