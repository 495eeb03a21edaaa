//! Merging two styles: the difference that fills the zoom ranges of one
//! style's types from another's, and applying that difference.

use vstd::prelude::*;
use vstd::string::StringExecFns;
use crate::model::{DrawElement, ClassifElement, ColorsElement, Container, DrawElementView, ClassifElementView, ColorsElementView, ContainerView};
use crate::text::{dec_int, push_u64, push_str, str_to_string};
use indexmap::IndexMap;

verus! {

/// `zoom z` for a single zoom, else `zooms lo-hi`.
pub open spec fn zooms_text(z1: u8, z2: u8) -> Seq<char> {
    if z2 != z1 {
        "zooms "@ + dec_int(if z1 < z2 { z1 as int } else { z2 as int }) + "-"@ + dec_int(
            if z1 < z2 { z2 as int } else { z1 as int },
        )
    } else {
        "zoom "@ + dec_int(z1 as int)
    }
}

/// Describes a zoom range.
pub fn zooms_string(z1: u8, z2: u8) -> (r: String)
    ensures
        r@ == zooms_text(z1, z2),
{
    if z2 != z1 {
        let mut s = String::from_str("zooms ");
        push_u64(&mut s, if z1 < z2 { z1 as u64 } else { z2 as u64 });
        push_str(&mut s, "-");
        push_u64(&mut s, if z1 < z2 { z2 as u64 } else { z1 as u64 });
        s
    } else {
        let mut s = String::from_str("zoom ");
        push_u64(&mut s, z1 as u64);
        s
    }
}

/// The elements to add per type below and above a style's zoom range, and
/// the types the style misses, sorted by name.
pub struct Diff {
    pub low: Vec<(String, Vec<DrawElement>)>,
    pub high: Vec<(String, Vec<DrawElement>)>,
    pub types: Vec<ClassifElement>,
}

/// The view of a per-type element list.
pub open spec fn entry_views(v: Seq<(String, Vec<DrawElement>)>) -> Seq<(Seq<char>, Seq<DrawElementView>)> {
    v.map_values(|e: (String, Vec<DrawElement>)| (e.0@, e.1@.map_values(|d: DrawElement| d@)))
}

pub ghost struct DiffView {
    pub low: Seq<(Seq<char>, Seq<DrawElementView>)>,
    pub high: Seq<(Seq<char>, Seq<DrawElementView>)>,
    pub types: Seq<ClassifElementView>,
}

impl View for Diff {
    type V = DiffView;

    open spec fn view(&self) -> DiffView {
        DiffView {
            low: entry_views(self.low@),
            high: entry_views(self.high@),
            types: self.types@.map_values(|c: ClassifElement| c@),
        }
    }
}

/// Code-point order of strings (which is the byte order of their UTF-8).
pub open spec fn lex_less(a: Seq<char>, b: Seq<char>) -> bool
    decreases a.len(),
{
    if a.len() == 0 {
        b.len() > 0
    } else if b.len() == 0 {
        false
    } else if a[0] != b[0] {
        (a[0] as u32) < (b[0] as u32)
    } else {
        lex_less(a.drop_first(), b.drop_first())
    }
}

/// The elements listed for `name` (the first entry for it), or none.
pub open spec fn lookup(v: Seq<(Seq<char>, Seq<DrawElementView>)>, name: Seq<char>) -> Seq<DrawElementView>
    decreases v.len(),
{
    if v.len() == 0 {
        Seq::empty()
    } else if v[0].0 == name {
        v[0].1
    } else {
        lookup(v.drop_first(), name)
    }
}

/// The first position at or after `d` of a missing type that does not sort
/// before `name`.
pub open spec fn advance(extra: Seq<ClassifElementView>, d: int, name: Seq<char>) -> int
    decreases extra.len() - d,
{
    if 0 <= d < extra.len() && lex_less(extra[d].name, name) {
        advance(extra, d + 1, name)
    } else {
        d
    }
}

/// A type of the style with the added elements around its own.
pub open spec fn fixed_type(rule: ClassifElementView, diff: DiffView) -> ClassifElementView {
    ClassifElementView {
        present: true,
        name: rule.name,
        element: lookup(diff.low, rule.name) + rule.element + lookup(diff.high, rule.name),
    }
}

/// The merged types of the first `n` types of `cont`, and how many missing
/// types were placed.
pub open spec fn merged(cont: Seq<ClassifElementView>, diff: DiffView, n: nat) -> (Seq<ClassifElementView>, int)
    decreases n,
{
    if n == 0 {
        (Seq::empty(), 0)
    } else {
        let (out, d) = merged(cont, diff, (n - 1) as nat);
        let rule = cont[n - 1];
        let d2 = advance(diff.types, d, rule.name);
        (out + diff.types.subrange(d, d2) + seq![fixed_type(rule, diff)], d2)
    }
}

/// The container with the difference applied: each type gets its added
/// elements, and the missing types are placed in name order.
pub open spec fn applied(cont: ContainerView, diff: DiffView) -> ContainerView {
    let (out, d) = merged(cont.cont, diff, cont.cont.len());
    ContainerView {
        present: false,
        colors: ColorsElementView { present: false, value: cont.colors.value },
        cont: out + diff.types.subrange(d, diff.types.len() as int),
    }
}

pub proof fn lemma_advance(extra: Seq<ClassifElementView>, d: int, name: Seq<char>)
    requires
        0 <= d <= extra.len(),
    ensures
        d <= advance(extra, d, name) <= extra.len(),
    decreases extra.len() - d,
{
    if d < extra.len() && lex_less(extra[d].name, name) {
        lemma_advance(extra, d + 1, name);
    }
}

pub proof fn lemma_merged(cont: Seq<ClassifElementView>, diff: DiffView, n: nat)
    requires
        n <= cont.len(),
    ensures
        0 <= merged(cont, diff, n).1 <= diff.types.len(),
    decreases n,
{
    if n > 0 {
        lemma_merged(cont, diff, (n - 1) as nat);
        lemma_advance(diff.types, merged(cont, diff, (n - 1) as nat).1, cont[n - 1].name);
    }
}

proof fn lemma_merged_grows(cont: Seq<ClassifElementView>, diff: DiffView, k: nat, n: nat)
    requires
        k <= n <= cont.len(),
    ensures
        merged(cont, diff, k).1 <= merged(cont, diff, n).1,
    decreases n - k,
{
    if k < n {
        lemma_merged_grows(cont, diff, k, (n - 1) as nat);
        lemma_merged(cont, diff, (n - 1) as nat);
        lemma_advance(diff.types, merged(cont, diff, (n - 1) as nat).1, cont[n - 1].name);
    }
}

proof fn lemma_merged_places(cont: Seq<ClassifElementView>, diff: DiffView, n: nat)
    requires
        n <= cont.len(),
    ensures
        merged(cont, diff, n).0.len() == n + merged(cont, diff, n).1,
        forall|i: int| 0 <= i < n ==> merged(cont, diff, n).0[i + #[trigger] merged(cont, diff, (i + 1) as nat).1] == fixed_type(cont[i], diff),
    decreases n,
{
    if n > 0 {
        let m = (n - 1) as nat;
        lemma_merged_places(cont, diff, m);
        lemma_merged(cont, diff, m);
        let (out, d) = merged(cont, diff, m);
        lemma_advance(diff.types, d, cont[m as int].name);
        let d2 = advance(diff.types, d, cont[m as int].name);
        let res = out + diff.types.subrange(d, d2) + seq![fixed_type(cont[m as int], diff)];
        assert(merged(cont, diff, n).0 == res);
        assert forall|i: int| 0 <= i < n implies merged(cont, diff, n).0[i + #[trigger] merged(cont, diff, (i + 1) as nat).1] == fixed_type(cont[i], diff) by {
            if i < m {
                lemma_merged_grows(cont, diff, (i + 1) as nat, m);
                lemma_merged(cont, diff, (i + 1) as nat);
                assert(res[i + merged(cont, diff, (i + 1) as nat).1] == out[i + merged(cont, diff, (i + 1) as nat).1]);
            } else {
                assert((i + 1) as nat == n);
            }
        }
    }
}

/// Applying a difference keeps the style's colors and all its types, in
/// their order and each with its added elements, and adds every missing
/// type: the result has as many types as the style and the missing ones
/// together, and the style's `i`-th type follows the missing types placed
/// before it.
pub proof fn lemma_applied_places(cont: ContainerView, diff: DiffView)
    ensures
        applied(cont, diff).colors.value == cont.colors.value,
        applied(cont, diff).cont.len() == cont.cont.len() + diff.types.len(),
        forall|i: int| 0 <= i < cont.cont.len() ==> applied(cont, diff).cont[i + #[trigger] merged(cont.cont, diff, (i + 1) as nat).1]
            == fixed_type(cont.cont[i], diff),
        forall|j: int| merged(cont.cont, diff, cont.cont.len()).1 <= j < diff.types.len() ==>
            applied(cont, diff).cont[cont.cont.len() + j] == #[trigger] diff.types[j],
{
    let n = cont.cont.len();
    lemma_merged_places(cont.cont, diff, n);
    lemma_merged(cont.cont, diff, n);
    let (out, d) = merged(cont.cont, diff, n);
    let r = applied(cont, diff).cont;
    assert(r == out + diff.types.subrange(d, diff.types.len() as int));
    assert forall|i: int| 0 <= i < n implies r[i + #[trigger] merged(cont.cont, diff, (i + 1) as nat).1] == fixed_type(cont.cont[i], diff) by {
        lemma_merged_grows(cont.cont, diff, (i + 1) as nat, n);
        lemma_merged(cont.cont, diff, (i + 1) as nat);
        assert(r[i + merged(cont.cont, diff, (i + 1) as nat).1] == out[i + merged(cont.cont, diff, (i + 1) as nat).1]);
    }
}

fn less_text(a: &String, b: &String) -> (r: bool)
    ensures
        r == lex_less(a@, b@),
{
    let x = crate::text::chars_of(a.as_str());
    let y = crate::text::chars_of(b.as_str());
    let mut i: usize = 0;
    assert(a@.skip(0) =~= a@);
    assert(b@.skip(0) =~= b@);
    while i < x.len() && i < y.len()
        invariant
            x@ == a@,
            y@ == b@,
            i <= x@.len(),
            i <= y@.len(),
            lex_less(a@, b@) == lex_less(a@.skip(i as int), b@.skip(i as int)),
        decreases x@.len() - i,
    {
        if x[i] != y[i] {
            return (x[i] as u32) < (y[i] as u32);
        }
        assert(a@.skip(i as int).drop_first() =~= a@.skip(i as int + 1));
        assert(b@.skip(i as int).drop_first() =~= b@.skip(i as int + 1));
        i = i + 1;
    }
    i == x.len() && i < y.len()
}

fn push_draw(out: &mut Vec<DrawElement>, e: DrawElement)
    ensures
        final(out)@.map_values(|d: DrawElement| d@) == old(out)@.map_values(|d: DrawElement| d@).push(e@),
{
    let ghost ev = e@;
    out.push(e);
    assert(out@.map_values(|d: DrawElement| d@) =~= old(out)@.map_values(|d: DrawElement| d@).push(ev));
}

fn push_classif(out: &mut Vec<ClassifElement>, c: ClassifElement)
    ensures
        final(out)@.map_values(|d: ClassifElement| d@) == old(out)@.map_values(|d: ClassifElement| d@).push(c@),
{
    let ghost cv = c@;
    out.push(c);
    assert(out@.map_values(|d: ClassifElement| d@) =~= old(out)@.map_values(|d: ClassifElement| d@).push(cv));
}

fn clone_elements(v: &Vec<DrawElement>, out: &mut Vec<DrawElement>)
    ensures
        final(out)@.map_values(|d: DrawElement| d@) == old(out)@.map_values(|d: DrawElement| d@) + v@.map_values(
            |d: DrawElement| d@,
        ),
{
    let ghost start = old(out)@.map_values(|d: DrawElement| d@);
    assert(v@.map_values(|d: DrawElement| d@).take(0) =~= Seq::<DrawElementView>::empty());
    assert(start + Seq::<DrawElementView>::empty() =~= start);
    for i in 0..v.len()
        invariant
            start == old(out)@.map_values(|d: DrawElement| d@),
            out@.map_values(|d: DrawElement| d@) == start + v@.map_values(|d: DrawElement| d@).take(i as int),
    {
        let e = v[i].clone();
        push_draw(out, e);
        assert(out@.map_values(|d: DrawElement| d@) =~= start + v@.map_values(|d: DrawElement| d@).take(i as int + 1));
    }
    assert(v@.map_values(|d: DrawElement| d@).take(v@.len() as int) =~= v@.map_values(|d: DrawElement| d@));
}

fn lookup_into(v: &Vec<(String, Vec<DrawElement>)>, name: &String, out: &mut Vec<DrawElement>)
    ensures
        final(out)@.map_values(|d: DrawElement| d@) == old(out)@.map_values(|d: DrawElement| d@) + lookup(
            entry_views(v@),
            name@,
        ),
{
    let ghost ev = entry_views(v@);
    assert(ev.skip(0) =~= ev);
    for i in 0..v.len()
        invariant
            ev == entry_views(v@),
            out@ == old(out)@,
            lookup(ev, name@) == lookup(ev.skip(i as int), name@),
    {
        assert(ev.skip(i as int)[0] == ev[i as int]);
        if crate::condition::str_eq(v[i].0.as_str(), name.as_str()) {
            clone_elements(&v[i].1, out);
            return;
        }
        assert(ev.skip(i as int).drop_first() =~= ev.skip(i as int + 1));
    }
    assert(ev.skip(v@.len() as int) =~= Seq::<(Seq<char>, Seq<DrawElementView>)>::empty());
    assert(out@.map_values(|d: DrawElement| d@) =~= old(out)@.map_values(|d: DrawElement| d@) + lookup(ev, name@));
}

/// Applies a difference to a style: every type gets the elements added below
/// and above its zoom range, and the missing types are placed among the
/// style's types in name order.
pub fn apply_diff(cont: &Container, diff: &Diff) -> (r: Container)
    ensures
        r@ == applied(cont@, diff@),
{
    let ghost dv = diff@;
    let mut out: Vec<ClassifElement> = Vec::new();
    let mut d2pos: usize = 0;
    assert(out@.map_values(|c: ClassifElement| c@) =~= merged(cont@.cont, dv, 0).0);
    for i in 0..cont.cont.len()
        invariant
            dv == diff@,
            d2pos == merged(cont@.cont, dv, i as nat).1,
            d2pos <= diff.types@.len(),
            out@.map_values(|c: ClassifElement| c@) == merged(cont@.cont, dv, i as nat).0,
    {
        let rule = &cont.cont[i];
        let ghost before = out@.map_values(|c: ClassifElement| c@);
        let ghost d0 = d2pos as int;
        while d2pos < diff.types.len() && less_text(&diff.types[d2pos].name, &rule.name)
            invariant
                dv == diff@,
                0 <= d0 <= d2pos <= diff.types@.len(),
                advance(dv.types, d0, rule@.name) == advance(dv.types, d2pos as int, rule@.name),
                out@.map_values(|c: ClassifElement| c@) == before + dv.types.subrange(d0, d2pos as int),
            decreases diff.types@.len() - d2pos,
        {
            assert(dv.types[d2pos as int] == diff.types@[d2pos as int]@);
            push_classif(&mut out, diff.types[d2pos].clone());
            assert(out@.map_values(|c: ClassifElement| c@) =~= before + dv.types.subrange(d0, d2pos + 1));
            d2pos = d2pos + 1;
        }
        proof {
            if d2pos < diff.types@.len() {
                assert(dv.types[d2pos as int] == diff.types@[d2pos as int]@);
            }
        }
        let mut els: Vec<DrawElement> = Vec::new();
        lookup_into(&diff.low, &rule.name, &mut els);
        if rule.element.len() > 0 {
            clone_elements(&rule.element, &mut els);
        }
        lookup_into(&diff.high, &rule.name, &mut els);
        let fix = ClassifElement { present: true, name: rule.name.clone(), element: els };
        proof {
            assert(Seq::<DrawElementView>::empty() + lookup(dv.low, rule@.name) =~= lookup(dv.low, rule@.name));
            if rule@.element.len() == 0 {
                assert(lookup(dv.low, rule@.name) + rule@.element =~= lookup(dv.low, rule@.name));
            }
        }
        assert(fix@ == fixed_type(rule@, dv));
        push_classif(&mut out, fix);
        assert(out@.map_values(|c: ClassifElement| c@) =~= merged(cont@.cont, dv, (i + 1) as nat).0);
    }
    let ghost before = out@.map_values(|c: ClassifElement| c@);
    let ghost d0 = d2pos as int;
    for k in d2pos..diff.types.len()
        invariant
            dv == diff@,
            0 <= d0 <= k,
            out@.map_values(|c: ClassifElement| c@) == before + dv.types.subrange(d0, k as int),
    {
        assert(dv.types[k as int] == diff.types@[k as int]@);
        push_classif(&mut out, diff.types[k].clone());
        assert(out@.map_values(|c: ClassifElement| c@) =~= before + dv.types.subrange(d0, k + 1));
    }
    let colors = crate::model::clone_value_colorelement(&cont.colors.value);
    let r = Container { present: false, colors: ColorsElement { present: false, value: colors }, cont: out };
    assert(r@.cont =~= applied(cont@, dv).cont);
    r
}

// ------------------------------------------------------------------ the zoom range of each type

/// A type's lowest- and highest-zoom elements and all its elements.
pub type ExtremesView = (DrawElementView, DrawElementView, Seq<DrawElementView>);

/// The zoom range of each type, by name, in the order the names first come.
pub type ZoomExtremes = IndexMap<String, (DrawElement, DrawElement, Vec<DrawElement>)>;

/// The view of a type's zoom range.
pub open spec fn ext_value_view(v: (DrawElement, DrawElement, Vec<DrawElement>)) -> ExtremesView {
    (v.0@, v.1@, v.2@.map_values(|d: DrawElement| d@))
}

/// The entries of a `ZoomExtremes` in its order, each by its view.
pub uninterp spec fn ext_entries(z: ZoomExtremes) -> Seq<(Seq<char>, ExtremesView)>;

/// `IndexMap::new`: no entries.
#[verifier::external_body]
fn ext_new() -> (z: ZoomExtremes)
    ensures
        ext_entries(z) == Seq::<(Seq<char>, ExtremesView)>::empty(),
{
    IndexMap::new()
}

/// `IndexMap::len`: the number of entries.
#[verifier::external_body]
fn ext_len(z: &ZoomExtremes) -> (r: usize)
    ensures
        r == ext_entries(*z).len(),
{
    z.len()
}

/// `IndexMap::get_index`: the entry at position `i`, if there is one.
#[verifier::external_body]
fn ext_entry(z: &ZoomExtremes, i: usize) -> (r: Option<(&String, &(DrawElement, DrawElement, Vec<DrawElement>))>)
    ensures
        match r {
            Some(e) => i < ext_entries(*z).len() && (e.0@, ext_value_view(*e.1)) == ext_entries(*z)[i as int],
            None => i >= ext_entries(*z).len(),
        },
{
    z.get_index(i)
}

/// `IndexMap::get_index_of`: the position of the entry named `name` (a map
/// holds a name once).
#[verifier::external_body]
fn find_ext(z: &ZoomExtremes, name: &String) -> (r: Option<usize>)
    ensures
        match r {
            Some(j) => j < ext_entries(*z).len() && ext_pos(ext_entries(*z), name@, 0) == j,
            None => ext_pos(ext_entries(*z), name@, 0) == -1,
        },
{
    z.get_index_of(name)
}

/// `IndexMap::insert` of a name the map does not hold: the entry is
/// appended.
#[verifier::external_body]
fn ext_insert(z: &mut ZoomExtremes, name: String, v: (DrawElement, DrawElement, Vec<DrawElement>))
    requires
        ext_pos(ext_entries(*old(z)), name@, 0) == -1,
    ensures
        ext_entries(*final(z)) == ext_entries(*old(z)).push((name@, ext_value_view(v))),
{
    z.insert(name, v);
}

/// Indexing an `IndexMap` by position: the entry at `i` takes value `v`.
#[verifier::external_body]
fn ext_set_at(z: &mut ZoomExtremes, i: usize, v: (DrawElement, DrawElement, Vec<DrawElement>))
    requires
        i < ext_entries(*old(z)).len(),
    ensures
        ext_entries(*final(z)) == ext_entries(*old(z)).update(i as int, (ext_entries(*old(z))[i as int].0, ext_value_view(v))),
{
    z[i] = v;
}

/// The first lowest- and the first highest-zoom element among the first `n`
/// of `es`, if there are any.
pub open spec fn span(es: Seq<DrawElementView>, n: nat) -> Option<(DrawElementView, DrawElementView)>
    decreases n,
{
    if n == 0 {
        None
    } else {
        let e = es[n - 1];
        match span(es, (n - 1) as nat) {
            None => Some((e, e)),
            Some((l, h)) => Some((if e.scale < l.scale { e } else { l }, if e.scale > h.scale { e } else { h })),
        }
    }
}

/// The first position at or after `i` of `name` (`-1` if none).
pub open spec fn ext_pos(x: Seq<(Seq<char>, ExtremesView)>, name: Seq<char>, i: int) -> int
    decreases x.len() - i,
{
    if i < 0 || i >= x.len() {
        -1
    } else if x[i].0 == name {
        i
    } else {
        ext_pos(x, name, i + 1)
    }
}

/// The names of some types' zoom ranges, in order.
pub open spec fn ext_names(x: Seq<(Seq<char>, ExtremesView)>) -> Seq<Seq<char>> {
    x.map_values(|e: (Seq<char>, ExtremesView)| e.0)
}

/// What one more type of a style does to the zoom ranges: a new name is
/// added; a known one widens its range and gets the new elements too.
pub open spec fn extremes_step(x: Seq<(Seq<char>, ExtremesView)>, rule: ClassifElementView) -> Seq<(Seq<char>, ExtremesView)> {
    match span(rule.element, rule.element.len()) {
        None => x,
        Some((lo, hi)) => {
            let i = ext_pos(x, rule.name, 0);
            if i < 0 {
                x.push((rule.name, (lo, hi, rule.element)))
            } else {
                let (l0, h0, all) = x[i].1;
                x.update(i, (x[i].0, (if lo.scale < l0.scale { lo } else { l0 }, if hi.scale > h0.scale { hi } else { h0 }, all + rule.element)))
            }
        },
    }
}

/// The zoom ranges of the first `n` types.
pub open spec fn zoom_extremes(rules: Seq<ClassifElementView>, n: nat) -> Seq<(Seq<char>, ExtremesView)>
    decreases n,
{
    if n == 0 {
        Seq::empty()
    } else {
        extremes_step(zoom_extremes(rules, (n - 1) as nat), rules[n - 1])
    }
}

proof fn lemma_ext_pos(x: Seq<(Seq<char>, ExtremesView)>, name: Seq<char>, i: int)
    requires
        0 <= i,
    ensures
        ext_pos(x, name, i) == -1 || (i <= ext_pos(x, name, i) < x.len() && x[ext_pos(x, name, i)].0 == name),
        ext_pos(x, name, i) == -1 ==> forall|k: int| i <= k < x.len() ==> x[k].0 != name,
    decreases x.len() - i,
{
    if i < x.len() && x[i].0 != name {
        lemma_ext_pos(x, name, i + 1);
    }
}

fn span_of(es: &Vec<DrawElement>) -> (r: Option<(usize, usize)>)
    ensures
        match r {
            None => span(es@.map_values(|d: DrawElement| d@), es@.len()) is None,
            Some((l, h)) => l < es@.len() && h < es@.len() && span(es@.map_values(|d: DrawElement| d@), es@.len())
                == Some((es@[l as int]@, es@[h as int]@)),
        },
{
    let ghost ev = es@.map_values(|d: DrawElement| d@);
    if es.len() == 0 {
        return None;
    }
    let mut l: usize = 0;
    let mut h: usize = 0;
    assert(ev.len() == es@.len());
    assert(ev[0] == es@[0]@);
    assert(span(ev, 0) is None);
    assert(span(ev, 1) == Some((ev[0], ev[0])));
    for i in 1..es.len()
        invariant
            ev == es@.map_values(|d: DrawElement| d@),
            l < i,
            h < i,
            i <= es@.len(),
            span(ev, i as nat) == Some((es@[l as int]@, es@[h as int]@)),
    {
        if es[i].scale < es[l].scale {
            l = i;
        }
        if es[i].scale > es[h].scale {
            h = i;
        }
    }
    Some((l, h))
}

fn add_rule(r: &mut ZoomExtremes, rule: &ClassifElement)
    requires
        ext_names(ext_entries(*old(r))).no_duplicates(),
    ensures
        ext_entries(*final(r)) == extremes_step(ext_entries(*old(r)), rule@),
        ext_names(ext_entries(*final(r))).no_duplicates(),
{
    let ghost x = ext_entries(*r);
    let ghost rv = rule@;
    match span_of(&rule.element) {
        None => {},
        Some((li, hi)) => {
            proof {
                lemma_ext_pos(x, rv.name, 0);
            }
            match find_ext(r, &rule.name) {
                None => {
                    let lo = rule.element[li].clone();
                    let hi_e = rule.element[hi].clone();
                    let mut all: Vec<DrawElement> = Vec::new();
                    clone_elements(&rule.element, &mut all);
                    assert(Seq::<DrawElementView>::empty() + rv.element =~= rv.element);
                    let ghost names0 = ext_names(x);
                    ext_insert(r, rule.name.clone(), (lo, hi_e, all));
                    assert(ext_entries(*r) =~= x.push((rv.name, (lo@, hi_e@, rv.element))));
                    assert(ext_names(ext_entries(*r)) =~= names0.push(rv.name));
                    proof {
                        assert forall|a: int| 0 <= a < names0.len() implies names0[a] != rv.name by {
                            assert(x[a].0 == names0[a]);
                        }
                    }
                },
                Some(k) => {
                    let (l0, h0, a0) = match ext_entry(r, k) {
                        Some(e) => (e.1.0.clone(), e.1.1.clone(), clone_draws(&e.1.2)),
                        None => {
                            return;
                        },
                    };
                    let nl = if rule.element[li].scale < l0.scale { rule.element[li].clone() } else { l0 };
                    let nh = if rule.element[hi].scale > h0.scale { rule.element[hi].clone() } else { h0 };
                    let mut all = a0;
                    clone_elements(&rule.element, &mut all);
                    let ghost entry = (rv.name, (nl@, nh@, all@.map_values(|d: DrawElement| d@)));
                    ext_set_at(r, k, (nl, nh, all));
                    assert(ext_entries(*r) =~= x.update(k as int, entry));
                    assert(ext_names(ext_entries(*r)) =~= ext_names(x));
                },
            }
        },
    }
}

/// A copy of a list of elements.
fn clone_draws(v: &Vec<DrawElement>) -> (r: Vec<DrawElement>)
    ensures
        r@.map_values(|d: DrawElement| d@) == v@.map_values(|d: DrawElement| d@),
{
    let mut r: Vec<DrawElement> = Vec::new();
    clone_elements(v, &mut r);
    assert(r@.map_values(|d: DrawElement| d@) =~= v@.map_values(|d: DrawElement| d@));
    r
}

/// The zoom range of each type of a style: its lowest- and highest-zoom
/// elements (the first of each) and all its elements, types of one name
/// taken together, in the order their names first come.
pub fn read_zoom_extremes(cont: &Container) -> (r: ZoomExtremes)
    ensures
        ext_entries(r) == zoom_extremes(cont@.cont, cont@.cont.len()),
        ext_names(ext_entries(r)).no_duplicates(),
{
    let mut r = ext_new();
    assert(ext_entries(r) =~= zoom_extremes(cont@.cont, 0));
    assert(ext_names(ext_entries(r)) =~= Seq::<Seq<char>>::empty());
    for i in 0..cont.cont.len()
        invariant
            ext_entries(r) == zoom_extremes(cont@.cont, i as nat),
            ext_names(ext_entries(r)).no_duplicates(),
    {
        assert(cont.cont@[i as int]@ == cont@.cont[i as int]);
        add_rule(&mut r, &cont.cont[i]);
    }
    r
}

// ------------------------------------------------------------------ the difference of two styles

/// The elements that fill one end of a type's zoom range, copies of
/// `source` re-scaled, and the message on that end; `source` is the end's
/// element in the first style, `target` in the second.
pub open spec fn end_fill(typ: Seq<char>, source: DrawElementView, target: DrawElementView, high: bool) -> (Seq<DrawElementView>, Option<Seq<char>>) {
    let a: int = if high { target.scale + 1 } else { source.scale as int };
    let b: int = if high { source.scale + 1 } else { target.scale as int };
    let end = if high { "high"@ } else { "low"@ };
    if b < a {
        (
            Seq::new((a - b) as nat, |k: int| DrawElementView { scale: (b + k) as u8, ..source }),
            Some(typ + ": missing "@ + end + " "@ + zooms_text(b as u8, (a - 1) as u8)),
        )
    } else if b > a {
        (Seq::empty(), Some(typ + ": extra "@ + end + " "@ + zooms_text(a as u8, (b - 1) as u8)))
    } else {
        (Seq::empty(), None)
    }
}

/// A message, if any, as a list.
pub open spec fn opt_seq(m: Option<Seq<char>>) -> Seq<Seq<char>> {
    match m {
        Some(x) => seq![x],
        None => Seq::empty(),
    }
}

/// The additions below and above, and the messages, so far.
pub ghost struct DiffState {
    pub low: Seq<(Seq<char>, Seq<DrawElementView>)>,
    pub high: Seq<(Seq<char>, Seq<DrawElementView>)>,
    pub msgs: Seq<Seq<char>>,
}

/// The first position at or after `i` of an entry for `name` (`-1` if none).
pub open spec fn entry_pos(v: Seq<(Seq<char>, Seq<DrawElementView>)>, name: Seq<char>, i: int) -> int
    decreases v.len() - i,
{
    if i < 0 || i >= v.len() {
        -1
    } else if v[i].0 == name {
        i
    } else {
        entry_pos(v, name, i + 1)
    }
}

/// `els` added to the entry for `typ`, which is made if there is none.
pub open spec fn add_to(v: Seq<(Seq<char>, Seq<DrawElementView>)>, typ: Seq<char>, els: Seq<DrawElementView>) -> Seq<(Seq<char>, Seq<DrawElementView>)> {
    let p = entry_pos(v, typ, 0);
    if p < 0 {
        v.push((typ, els))
    } else {
        v.update(p, (v[p].0, v[p].1 + els))
    }
}

/// What one more type of the first style adds.
pub open spec fn diff_step(st: DiffState, e: (Seq<char>, ExtremesView), z2: Seq<(Seq<char>, ExtremesView)>) -> DiffState {
    let typ = e.0;
    let j = ext_pos(z2, typ, 0);
    if j < 0 {
        DiffState {
            msgs: st.msgs.push(typ + ": not found in the alternative style; "@ + zooms_text(e.1.0.scale, e.1.1.scale)),
            ..st
        }
    } else {
        let e2 = z2[j].1;
        let (fl, ml) = end_fill(typ, e.1.0, e2.0, false);
        let (fh, mh) = end_fill(typ, e.1.1, e2.1, true);
        DiffState {
            low: if fl.len() > 0 { add_to(st.low, typ, fl) } else { st.low },
            high: if fh.len() > 0 { add_to(st.high, typ, fh) } else { st.high },
            msgs: st.msgs + opt_seq(ml) + opt_seq(mh),
        }
    }
}

/// The state after the first `n` types of the first style.
pub open spec fn diff_steps(z1: Seq<(Seq<char>, ExtremesView)>, z2: Seq<(Seq<char>, ExtremesView)>, n: nat) -> DiffState
    decreases n,
{
    if n == 0 {
        DiffState { low: Seq::empty(), high: Seq::empty(), msgs: Seq::empty() }
    } else {
        diff_step(diff_steps(z1, z2, (n - 1) as nat), z1[n - 1], z2)
    }
}

/// The names of `z2` that `z1` lacks, in order.
pub open spec fn lacking(z2: Seq<(Seq<char>, ExtremesView)>, z1: Seq<(Seq<char>, ExtremesView)>) -> Seq<Seq<char>>
    decreases z2.len(),
{
    if z2.len() == 0 {
        Seq::empty()
    } else {
        let prev = lacking(z2.drop_last(), z1);
        if ext_names(z1).contains(z2.last().0) {
            prev
        } else {
            prev.push(z2.last().0)
        }
    }
}

/// Where `x` goes among the names `t`: before the first it sorts before.
pub open spec fn name_slot(t: Seq<Seq<char>>, x: Seq<char>, i: int) -> int
    decreases t.len() - i,
{
    if i < 0 || i >= t.len() {
        t.len() as int
    } else if lex_less(x, t[i]) {
        i
    } else {
        name_slot(t, x, i + 1)
    }
}

/// Names in ascending order, equal ones keeping their order.
pub open spec fn names_sorted(s: Seq<Seq<char>>) -> Seq<Seq<char>>
    decreases s.len(),
{
    if s.len() == 0 {
        s
    } else {
        let t = names_sorted(s.drop_last());
        t.insert(name_slot(t, s.last(), 0), s.last())
    }
}

/// The difference between two styles' zoom ranges, and the messages on it:
/// for each type of the first style, what the second adds below and above
/// its range (or that the second lacks it); then the types only the second
/// has, in name order.
pub open spec fn style_diff(z1: Seq<(Seq<char>, ExtremesView)>, z2: Seq<(Seq<char>, ExtremesView)>) -> (DiffView, Seq<Seq<char>>) {
    let st = diff_steps(z1, z2, z1.len());
    let names = names_sorted(lacking(z2, z1));
    let types = names.map_values(|n: Seq<char>| ClassifElementView { present: true, name: n, element: z2[ext_pos(z2, n, 0)].1.2 });
    let notes = names.map_values(|n: Seq<char>| n + ": missing completely; "@ + zooms_text(z2[ext_pos(z2, n, 0)].1.0.scale, z2[ext_pos(z2, n, 0)].1.1.scale));
    (DiffView { low: st.low, high: st.high, types }, st.msgs + notes)
}

proof fn lemma_ext_contains(x: Seq<(Seq<char>, ExtremesView)>, name: Seq<char>)
    ensures
        ext_names(x).contains(name) <==> ext_pos(x, name, 0) != -1,
{
    lemma_ext_pos(x, name, 0);
    let p = ext_pos(x, name, 0);
    if p != -1 {
        assert(ext_names(x)[p] == name);
    }
    if ext_names(x).contains(name) {
        let k = choose|k: int| 0 <= k < ext_names(x).len() && ext_names(x)[k] == name;
        assert(x[k].0 == name);
    }
}

proof fn lemma_lacking(z2: Seq<(Seq<char>, ExtremesView)>, z1: Seq<(Seq<char>, ExtremesView)>)
    ensures
        forall|k: int| 0 <= k < lacking(z2, z1).len() ==> ext_names(z2).contains(#[trigger] lacking(z2, z1)[k]),
    decreases z2.len(),
{
    if z2.len() > 0 {
        lemma_lacking(z2.drop_last(), z1);
        let prev = lacking(z2.drop_last(), z1);
        assert forall|k: int| 0 <= k < lacking(z2, z1).len() implies ext_names(z2).contains(#[trigger] lacking(z2, z1)[k]) by {
            if k < prev.len() {
                assert(lacking(z2, z1)[k] == prev[k]);
                assert(ext_names(z2.drop_last()).contains(prev[k]));
                let q = choose|q: int| 0 <= q < ext_names(z2.drop_last()).len() && ext_names(z2.drop_last())[q] == prev[k];
                assert(ext_names(z2)[q] == prev[k]);
            } else {
                assert(ext_names(z2)[z2.len() - 1] == z2.last().0);
            }
        }
    }
}

proof fn lemma_name_slot(t: Seq<Seq<char>>, x: Seq<char>, i: int)
    requires
        0 <= i <= t.len(),
    ensures
        i <= name_slot(t, x, i) <= t.len(),
    decreases t.len() - i,
{
    if i < t.len() && !lex_less(x, t[i]) {
        lemma_name_slot(t, x, i + 1);
    }
}

proof fn lemma_names_sorted(s: Seq<Seq<char>>)
    ensures
        names_sorted(s).len() == s.len(),
        forall|k: int| 0 <= k < names_sorted(s).len() ==> s.contains(#[trigger] names_sorted(s)[k]),
    decreases s.len(),
{
    if s.len() > 0 {
        let prev = s.drop_last();
        lemma_names_sorted(prev);
        let t = names_sorted(prev);
        let j = name_slot(t, s.last(), 0);
        lemma_name_slot(t, s.last(), 0);
        t.insert_ensures(j, s.last());
        assert forall|k: int| 0 <= k < names_sorted(s).len() implies s.contains(#[trigger] names_sorted(s)[k]) by {
            let u = t.insert(j, s.last());
            if k < j {
                assert(u[k] == t[k]);
                let q = choose|q: int| 0 <= q < prev.len() && prev[q] == t[k];
                assert(s[q] == t[k]);
            } else if k == j {
                assert(s[s.len() - 1] == s.last());
            } else {
                assert(u[k] == t[k - 1]);
                let q = choose|q: int| 0 <= q < prev.len() && prev[q] == t[k - 1];
                assert(s[q] == t[k - 1]);
            }
        }
    }
}

fn fill_end(typ: &String, source: &DrawElement, target: &DrawElement, high: bool) -> (r: (Vec<DrawElement>, Option<String>))
    ensures
        r.0@.map_values(|d: DrawElement| d@) == end_fill(typ@, source@, target@, high).0,
        match r.1 {
            Some(m) => end_fill(typ@, source@, target@, high).1 == Some(m@),
            None => end_fill(typ@, source@, target@, high).1 is None,
        },
{
    let a: u32 = if high { target.scale as u32 + 1 } else { source.scale as u32 };
    let b: u32 = if high { source.scale as u32 + 1 } else { target.scale as u32 };
    let end = if high { "high" } else { "low" };
    let mut out: Vec<DrawElement> = Vec::new();
    if b < a {
        let mut m = str_to_string(typ.as_str());
        push_str(&mut m, ": missing ");
        push_str(&mut m, end);
        push_str(&mut m, " ");
        let zs = zooms_string(b as u8, (a - 1) as u8);
        push_str(&mut m, zs.as_str());
        let ghost sv = source@;
        let mut z = b;
        while z < a
            invariant
                b <= z <= a <= 256,
                sv == source@,
                out@.map_values(|d: DrawElement| d@) == Seq::new(
                    (z - b) as nat,
                    |k: int| DrawElementView { scale: (b + k) as u8, ..sv },
                ),
            decreases a - z,
        {
            let mut fix = source.clone();
            fix.scale = z as u8;
            assert(fix@ == DrawElementView { scale: (b + (z - b)) as u8, ..sv });
            push_draw(&mut out, fix);
            z = z + 1;
            assert(out@.map_values(|d: DrawElement| d@) =~= Seq::new(
                (z - b) as nat,
                |k: int| DrawElementView { scale: (b + k) as u8, ..sv },
            ));
        }
        return (out, Some(m));
    }
    assert(out@.map_values(|d: DrawElement| d@) =~= Seq::<DrawElementView>::empty());
    if b > a {
        let mut m = str_to_string(typ.as_str());
        push_str(&mut m, ": extra ");
        push_str(&mut m, end);
        push_str(&mut m, " ");
        let zs = zooms_string(a as u8, (b - 1) as u8);
        push_str(&mut m, zs.as_str());
        return (out, Some(m));
    }
    (out, None)
}

fn add_entry(out: &mut Vec<(String, Vec<DrawElement>)>, name: &String, els: &Vec<DrawElement>)
    ensures
        entry_views(final(out)@) == add_to(entry_views(old(out)@), name@, els@.map_values(|d: DrawElement| d@)),
{
    let ghost v = entry_views(out@);
    let ghost ev = els@.map_values(|d: DrawElement| d@);
    let mut k: usize = 0;
    while k < out.len() && !crate::condition::str_eq(out[k].0.as_str(), name.as_str())
        invariant
            k <= out@.len(),
            v == entry_views(out@),
            entry_pos(v, name@, 0) == entry_pos(v, name@, k as int),
        decreases out@.len() - k,
    {
        assert(v[k as int].0 == out@[k as int].0@);
        k = k + 1;
    }
    if k == out.len() {
        assert(entry_pos(v, name@, k as int) == -1);
        let mut copy: Vec<DrawElement> = Vec::new();
        clone_elements(els, &mut copy);
        assert(Seq::<DrawElementView>::empty() + ev =~= ev);
        out.push((name.clone(), copy));
        assert(entry_views(out@) =~= v.push((name@, ev)));
    } else {
        assert(v[k as int].0 == out@[k as int].0@);
        let (n, mut items) = out.remove(k);
        let ghost before = items@.map_values(|d: DrawElement| d@);
        clone_elements(els, &mut items);
        let ghost entry = (n@, before + ev);
        out.insert(k, (n, items));
        assert(entry_views(out@) =~= v.update(k as int, entry));
    }
}

/// Fills one end of the zoom range of `typ` in `dest` with copies of
/// `source` re-scaled, where `target` reaches further; says what is missing
/// or extra at that end.
pub fn add_missing_zooms(
    dest: &mut Vec<(String, Vec<DrawElement>)>,
    typ: &String,
    source: &DrawElement,
    target: &DrawElement,
    high: bool,
) -> (r: Option<String>)
    ensures
        entry_views(final(dest)@) == (if end_fill(typ@, source@, target@, high).0.len() > 0 {
            add_to(entry_views(old(dest)@), typ@, end_fill(typ@, source@, target@, high).0)
        } else {
            entry_views(old(dest)@)
        }),
        match r {
            Some(m) => end_fill(typ@, source@, target@, high).1 == Some(m@),
            None => end_fill(typ@, source@, target@, high).1 is None,
        },
{
    let (fill, msg) = fill_end(typ, source, target, high);
    if fill.len() > 0 {
        add_entry(dest, typ, &fill);
    }
    msg
}

/// The difference between the zoom ranges of two styles and the messages
/// on it.
pub fn create_diff(
    z1: &ZoomExtremes,
    z2: &ZoomExtremes,
) -> (r: (Diff, Vec<String>))
    ensures
        (r.0@, crate::canonical::texts(r.1@)) == style_diff(ext_entries(*z1), ext_entries(*z2)),
{
    let ghost x1 = ext_entries(*z1);
    let ghost x2 = ext_entries(*z2);
    let mut low: Vec<(String, Vec<DrawElement>)> = Vec::new();
    let mut high: Vec<(String, Vec<DrawElement>)> = Vec::new();
    let mut msgs: Vec<String> = Vec::new();
    assert(entry_views(low@) =~= Seq::<(Seq<char>, Seq<DrawElementView>)>::empty());
    assert(entry_views(high@) =~= Seq::<(Seq<char>, Seq<DrawElementView>)>::empty());
    assert(crate::canonical::texts(msgs@) =~= Seq::<Seq<char>>::empty());
    let n1 = ext_len(z1);
    for i in 0..n1
        invariant
            x1 == ext_entries(*z1),
            x2 == ext_entries(*z2),
            n1 == x1.len(),
            (DiffState { low: entry_views(low@), high: entry_views(high@), msgs: crate::canonical::texts(msgs@) })
                == diff_steps(x1, x2, i as nat),
    {
        let (typ, e1) = match ext_entry(z1, i) {
            Some(e) => e,
            None => {
                return (Diff { low, high, types: Vec::new() }, msgs);
            },
        };
        assert(x1[i as int] == (typ@, (e1.0@, e1.1@, e1.2@.map_values(|d: DrawElement| d@))));
        let ghost m0 = crate::canonical::texts(msgs@);
        match find_ext(z2, typ) {
            None => {
                let mut m = str_to_string(typ.as_str());
                push_str(&mut m, ": not found in the alternative style; ");
                let zs = zooms_string(e1.0.scale, e1.1.scale);
                push_str(&mut m, zs.as_str());
                msgs.push(m);
                assert(crate::canonical::texts(msgs@) =~= m0.push(m@));
            },
            Some(j) => {
                let e2 = match ext_entry(z2, j) {
                    Some(e) => e.1,
                    None => {
                        return (Diff { low, high, types: Vec::new() }, msgs);
                    },
                };
                assert(x2[j as int].1 == (e2.0@, e2.1@, e2.2@.map_values(|d: DrawElement| d@)));
                let ml = add_missing_zooms(&mut low, typ, &e1.0, &e2.0, false);
                let mh = add_missing_zooms(&mut high, typ, &e1.1, &e2.1, true);
                match ml {
                    Some(m) => {
                        let ghost before = crate::canonical::texts(msgs@);
                        msgs.push(m);
                        assert(crate::canonical::texts(msgs@) =~= before.push(m@));
                    },
                    None => {},
                }
                let ghost m1 = crate::canonical::texts(msgs@);
                assert(m1 =~= m0 + opt_seq(end_fill(typ@, e1.0@, e2.0@, false).1));
                match mh {
                    Some(m) => {
                        msgs.push(m);
                        assert(crate::canonical::texts(msgs@) =~= m1.push(m@));
                    },
                    None => {},
                }
                assert(crate::canonical::texts(msgs@) =~= m1 + opt_seq(end_fill(typ@, e1.1@, e2.1@, true).1));
            },
        }
    }
    let ghost lk = lacking(x2, x1);
    let mut missing: Vec<String> = Vec::new();
    assert(crate::canonical::texts(missing@) =~= lacking(x2.take(0), x1)) by {
        assert(x2.take(0).len() == 0);
    }
    let n2 = ext_len(z2);
    for k in 0..n2
        invariant
            x1 == ext_entries(*z1),
            x2 == ext_entries(*z2),
            n2 == x2.len(),
            crate::canonical::texts(missing@) == lacking(x2.take(k as int), x1),
    {
        let name = match ext_entry(z2, k) {
            Some(e) => e.0,
            None => {
                return (Diff { low, high, types: Vec::new() }, msgs);
            },
        };
        assert(x2.take(k as int + 1).drop_last() =~= x2.take(k as int));
        assert(x2.take(k as int + 1).last().0 == name@);
        let found = find_ext(z1, name);
        proof {
            lemma_ext_contains(x1, name@);
        }
        if found.is_none() {
            let ghost before = crate::canonical::texts(missing@);
            missing.push(name.clone());
            assert(crate::canonical::texts(missing@) =~= before.push(name@));
        }
    }
    assert(x2.take(n2 as int) =~= x2);
    let mut sorted: Vec<String> = Vec::new();
    let ghost mv = crate::canonical::texts(missing@);
    assert(crate::canonical::texts(sorted@) =~= names_sorted(mv.take(0)));
    for i in 0..missing.len()
        invariant
            mv == crate::canonical::texts(missing@),
            crate::canonical::texts(sorted@) == names_sorted(mv.take(i as int)),
    {
        let ghost sv = crate::canonical::texts(sorted@);
        let x = &missing[i];
        assert(mv[i as int] == x@);
        let mut j: usize = 0;
        while j < sorted.len() && !less_text(x, &sorted[j])
            invariant
                j <= sorted@.len(),
                sv == crate::canonical::texts(sorted@),
                name_slot(sv, x@, 0) == name_slot(sv, x@, j as int),
            decreases sorted@.len() - j,
        {
            j = j + 1;
        }
        sorted.insert(j, x.clone());
        assert(crate::canonical::texts(sorted@) =~= sv.insert(j as int, x@));
        assert(mv.take(i as int + 1).drop_last() =~= mv.take(i as int));
    }
    assert(mv.take(missing@.len() as int) =~= mv);
    let ghost names = names_sorted(lk);
    proof {
        lemma_names_sorted(lk);
        lemma_lacking(x2, x1);
    }
    let mut types: Vec<ClassifElement> = Vec::new();
    let ghost m2 = crate::canonical::texts(msgs@);
    for i in 0..sorted.len()
        invariant
            x2 == ext_entries(*z2),
            names == crate::canonical::texts(sorted@),
            names == names_sorted(lk),
            forall|k: int| 0 <= k < names.len() ==> ext_names(x2).contains(#[trigger] names[k]),
            types@.map_values(|c: ClassifElement| c@) == names.take(i as int).map_values(
                |n: Seq<char>| ClassifElementView { present: true, name: n, element: x2[ext_pos(x2, n, 0)].1.2 },
            ),
            crate::canonical::texts(msgs@) == m2 + names.take(i as int).map_values(
                |n: Seq<char>| n + ": missing completely; "@ + zooms_text(x2[ext_pos(x2, n, 0)].1.0.scale, x2[ext_pos(x2, n, 0)].1.1.scale),
            ),
    {
        let name = &sorted[i];
        assert(names[i as int] == name@);
        assert(ext_names(x2).contains(names[i as int]));
        proof {
            lemma_ext_contains(x2, name@);
        }
        let j = match find_ext(z2, name) {
            Some(j) => j,
            None => {
                return (Diff { low, high, types }, msgs);
            },
        };
        let e2 = match ext_entry(z2, j) {
            Some(e) => e.1,
            None => {
                return (Diff { low, high, types }, msgs);
            },
        };
        assert(x2[j as int].1 == (e2.0@, e2.1@, e2.2@.map_values(|d: DrawElement| d@)));
        let mut m = str_to_string(name.as_str());
        push_str(&mut m, ": missing completely; ");
        let zs = zooms_string(e2.0.scale, e2.1.scale);
        push_str(&mut m, zs.as_str());
        let ghost mb = crate::canonical::texts(msgs@);
        msgs.push(m);
        assert(crate::canonical::texts(msgs@) =~= mb.push(m@));
        let mut els: Vec<DrawElement> = Vec::new();
        clone_elements(&e2.2, &mut els);
        assert(Seq::<DrawElementView>::empty() + e2.2@.map_values(|d: DrawElement| d@) =~= e2.2@.map_values(|d: DrawElement| d@));
        let c = ClassifElement { present: true, name: name.clone(), element: els };
        let ghost tb = types@.map_values(|c: ClassifElement| c@);
        push_classif(&mut types, c);
        assert(names.take(i as int + 1) =~= names.take(i as int).push(names[i as int]));
        assert(types@.map_values(|c: ClassifElement| c@) =~= names.take(i as int + 1).map_values(
            |n: Seq<char>| ClassifElementView { present: true, name: n, element: x2[ext_pos(x2, n, 0)].1.2 },
        ));
        assert(crate::canonical::texts(msgs@) =~= m2 + names.take(i as int + 1).map_values(
            |n: Seq<char>| n + ": missing completely; "@ + zooms_text(x2[ext_pos(x2, n, 0)].1.0.scale, x2[ext_pos(x2, n, 0)].1.1.scale),
        ));
    }
    assert(names.take(sorted@.len() as int) =~= names);
    (Diff { low, high, types }, msgs)
}

} // verus!
