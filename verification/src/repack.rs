//! Packing what was read back: a drawing element as read back writes the
//! same bytes as the element written, keeps its color slots, and a template
//! element filled with palette indices is unchanged by reading.

use vstd::prelude::*;
use crate::model::{DashDotView, PathSymView, LineDefView, LineRuleView, AreaRuleView, SymbolRuleView, CaptionDefView, CaptionRuleView, ShieldRuleView, DrawElementView};
use crate::ieee::{f64_to_f32_bits, f32_to_f64_bits, f32_magnitude, is_signalling_nan32, lemma_f32_round_trip};
use crate::pack::{f32_bytes, enc_dashdot, line_flags, line_head, line_tail, enc_line, enc_line_rule, enc_line_def, enc_caption_def, caption_flags, enc_caption, element_kind, enc_lines_part, enc_area_part, enc_symbol_part, enc_caption_part, enc_shield_part, enc_element, pathsym_refs, caption_refs, element_refs};
use crate::palette::{area_slots, caption_slots, shield_slots, line_slots, element_slots, slot_count, element_with, line_with, area_with, caption_with, caption_def_with, shield_with};
use crate::unpack::{border_of, resolved_element, resolved_caption, resolved_caption_def};
use crate::roundtrip::{norm_real, norm_dash, norm_pathsym, line_read, norm_line, norm_border, norm_caption_def, norm_caption, norm_caption_part, norm_area, norm_symbol, norm_shield, norm_element};
use crate::seqs::flat;
use crate::model::{ClassifElementView, ColorElementView, ColorsElementView, ContainerView};
use crate::canonical::{canon_parts_line_def, canon_line_def, canon_parts_line_rule, canon_line_rule, canon_parts_area_rule, canon_area_rule, canon_parts_caption_def, canon_caption_def, canon_parts_caption_rule, canon_caption_rule, canon_parts_shield_rule, canon_shield_rule, canon_parts_draw_element, canon_draw_element, canon_parts_classif_element, canon_classif_element, canon_parts_color_element, canon_color_element, canon_parts_colors_element, canon_colors_element, canon_parts_container, canon_container};

verus! {

// ------------------------------------------------------------------ reals

/// Rounding to binary32 never gives a signalling NaN.
pub proof fn lemma_rounded_quiet(b: u64)
    ensures
        !is_signalling_nan32(f64_to_f32_bits(b)),
{
    let e = ((b / 0x10_0000_0000_0000) % 2048) as nat;
    let f = (b % 0x10_0000_0000_0000) as nat;
    let m = f32_magnitude(e, f);
    assert(m <= 0x7FFF_FFFF);
    if e == 2047 && f != 0 {
        let p = f / 0x2000_0000;
        assert(p < 0x80_0000);
    }
}

/// A real as read back is stored as the same four bytes.
pub proof fn lemma_norm_real_bytes(b: u64)
    ensures
        f32_bytes(norm_real(b)) == f32_bytes(b),
{
    lemma_rounded_quiet(b);
    lemma_f32_round_trip(f64_to_f32_bits(b));
}

// ------------------------------------------------------------------ the shape of the slots

/// `a` and `b` have their color slots at the same places.
pub open spec fn same_slots(a: DrawElementView, b: DrawElementView) -> bool {
    &&& a.lines.len() == b.lines.len()
    &&& a.area.is_set() == b.area.is_set()
    &&& a.area.is_set() ==> a.area.border.is_set() == b.area.border.is_set()
    &&& a.caption.is_set() == b.caption.is_set()
    &&& a.caption.is_set() ==> a.caption.primary.is_set() == b.caption.primary.is_set()
        && a.caption.secondary.is_set() == b.caption.secondary.is_set()
    &&& a.path_text.is_set() == b.path_text.is_set()
    &&& a.path_text.is_set() ==> a.path_text.primary.is_set() == b.path_text.primary.is_set()
        && a.path_text.secondary.is_set() == b.path_text.secondary.is_set()
    &&& a.shield.is_set() == b.shield.is_set()
}

/// Where the slots of a template lie depends on its shape alone.
pub proof fn lemma_same_slots(a: DrawElementView, b: DrawElementView, e: DrawElementView)
    requires
        same_slots(a, b),
    ensures
        element_slots(a, e) == element_slots(b, e),
        slot_count(a) == slot_count(b),
{
    reveal(area_slots);
    reveal(caption_slots);
    reveal(shield_slots);
    assert(line_slots(a.lines.len(), e) =~= line_slots(b.lines.len(), e));
    assert(area_slots(a.area, e.area) =~= area_slots(b.area, e.area));
    assert(caption_slots(a.caption, e.caption) =~= caption_slots(b.caption, e.caption));
    assert(caption_slots(a.path_text, e.path_text) =~= caption_slots(b.path_text, e.path_text));
    assert(shield_slots(a.shield, e.shield) =~= shield_slots(b.shield, e.shield));
    assert(line_slots(a.lines.len(), a) =~= line_slots(b.lines.len(), a));
    assert(line_slots(a.lines.len(), b) =~= line_slots(b.lines.len(), b));
    assert(area_slots(a.area, a.area).len() == area_slots(b.area, b.area).len());
    assert(caption_slots(a.caption, a.caption).len() == caption_slots(b.caption, b.caption).len());
    assert(caption_slots(a.path_text, a.path_text).len() == caption_slots(b.path_text, b.path_text).len());
    assert(shield_slots(a.shield, a.shield).len() == shield_slots(b.shield, b.shield).len());
}

/// Filling a template with indices keeps its shape, and its slots then hold
/// exactly those indices.
#[verifier::rlimit(100)]
pub proof fn lemma_element_with_slots(t: DrawElementView, s: Seq<u32>)
    requires
        s.len() == slot_count(t),
    ensures
        same_slots(element_with(t, s), t),
        element_slots(element_with(t, s), element_with(t, s)) == s,
{
    reveal(area_slots);
    reveal(caption_slots);
    reveal(shield_slots);
    let w = element_with(t, s);
    let a = t.lines.len() as int;
    let b = a + area_slots(t.area, t.area).len();
    let c = b + caption_slots(t.caption, t.caption).len();
    let d = c + caption_slots(t.path_text, t.path_text).len();
    assert(line_slots(t.lines.len(), w) =~= s.subrange(0, a));
    assert(area_slots(w.area, w.area) =~= s.subrange(a, b));
    assert(caption_slots(w.caption, w.caption) =~= s.subrange(b, c));
    assert(caption_slots(w.path_text, w.path_text) =~= s.subrange(c, d));
    assert(shield_slots(w.shield, w.shield) =~= s.subrange(d, s.len() as int));
    assert(element_slots(w, w) =~= s);
}

// ------------------------------------------------------------------ reading keeps the slots

/// Reading back keeps the shape and the colors of the slots.
pub proof fn lemma_norm_slots(x: DrawElementView)
    ensures
        same_slots(norm_element(x), x),
        element_slots(norm_element(x), norm_element(x)) == element_slots(x, x),
{
    reveal(area_slots);
    reveal(caption_slots);
    reveal(shield_slots);
    let y = norm_element(x);
    assert(line_slots(y.lines.len(), y) =~= line_slots(x.lines.len(), x));
    assert(element_slots(y, y) =~= element_slots(x, x));
}

/// The colors of a resolved element at its slots are the palette colors of
/// the indices it held there.
#[verifier::rlimit(100)]
pub proof fn lemma_resolved_slots(y: DrawElementView, r: Seq<u32>)
    ensures
        same_slots(resolved_element(y, r), y),
        element_slots(y, resolved_element(y, r)) == element_slots(y, y).map_values(|c: u32| r[c as int]),
{
    reveal(area_slots);
    reveal(caption_slots);
    reveal(shield_slots);
    let z = resolved_element(y, r);
    assert(line_slots(y.lines.len(), z) =~= line_slots(y.lines.len(), y).map_values(|c: u32| r[c as int]));
    assert(element_slots(y, z) =~= element_slots(y, y).map_values(|c: u32| r[c as int]));
}

/// Filling with indices overwrites whatever colors the slots held.
#[verifier::rlimit(100)]
pub proof fn lemma_with_resolved(y: DrawElementView, r: Seq<u32>, s: Seq<u32>)
    ensures
        element_with(resolved_element(y, r), s) == element_with(y, s),
{
    reveal(area_slots);
    reveal(caption_slots);
    let z = resolved_element(y, r);
    assert(area_slots(z.area, z.area).len() == area_slots(y.area, y.area).len());
    assert(caption_slots(z.caption, z.caption).len() == caption_slots(y.caption, y.caption).len());
    assert(caption_slots(z.path_text, z.path_text).len() == caption_slots(y.path_text, y.path_text).len());
    assert(element_with(z, s).lines =~= element_with(y, s).lines);
}

/// A template element filled with indices is unchanged by filling what was
/// read back of it with the same indices.
#[verifier::rlimit(100)]
pub proof fn lemma_with_norm(t: DrawElementView, s: Seq<u32>)
    requires
        s.len() == slot_count(t),
    ensures
        element_with(norm_element(element_with(t, s)), s) == norm_element(element_with(t, s)),
{
    reveal(area_slots);
    reveal(caption_slots);
    reveal(shield_slots);
    let x = element_with(t, s);
    let y = norm_element(x);
    lemma_element_with_slots(t, s);
    assert(area_slots(y.area, y.area).len() == area_slots(t.area, t.area).len());
    assert(caption_slots(y.caption, y.caption).len() == caption_slots(t.caption, t.caption).len());
    assert(caption_slots(y.path_text, y.path_text).len() == caption_slots(t.path_text, t.path_text).len());
    assert(element_with(y, s).lines =~= y.lines);
}

// ------------------------------------------------------------------ reading keeps the bytes

proof fn lemma_norm_reals_bytes(dd: Seq<u64>)
    ensures
        dd.map_values(|b: u64| norm_real(b)).map_values(|x: u64| f32_bytes(x)) =~= dd.map_values(|x: u64| f32_bytes(x)),
{
    let a = dd.map_values(|b: u64| norm_real(b)).map_values(|x: u64| f32_bytes(x));
    let b = dd.map_values(|x: u64| f32_bytes(x));
    assert forall|i: int| 0 <= i < dd.len() implies #[trigger] a[i] == b[i] by {
        lemma_norm_real_bytes(dd[i]);
    }
}

/// A line as read back is written as the line.
pub proof fn lemma_line_bytes(
    width: u64,
    color: u32,
    prio: Option<i32>,
    join: u8,
    cap: u8,
    dd: DashDotView,
    ps: PathSymView,
    tab: Seq<Seq<char>>,
)
    ensures
        ({
            let l = line_read(width, color, prio, join, cap, dd, ps);
            enc_line(l.width, l.color, prio, l.join, l.cap, l.dashdot, l.pathsym, tab) == enc_line(
                width,
                color,
                prio,
                join,
                cap,
                dd,
                ps,
                tab,
            )
        }),
{
    reveal(line_head);
    reveal(line_tail);
    reveal(enc_dashdot);
    lemma_norm_real_bytes(width);
    lemma_norm_real_bytes(dd.offset);
    lemma_norm_real_bytes(ps.step);
    lemma_norm_real_bytes(ps.offset);
    lemma_norm_reals_bytes(dd.dd);
}

/// A caption as read back is written as the caption.
pub proof fn lemma_caption_bytes(c: CaptionRuleView, tab: Seq<Seq<char>>)
    ensures
        enc_caption_part(norm_caption_part(c), tab) == enc_caption_part(c, tab),
{
    reveal(enc_caption);
    reveal(enc_caption_def);
}

/// A drawing element as read back is written as the element.
pub proof fn lemma_element_bytes(x: DrawElementView, tab: Seq<Seq<char>>)
    ensures
        enc_element(norm_element(x), tab) == enc_element(x, tab),
{
    reveal(enc_element);
    reveal(enc_lines_part);
    reveal(enc_area_part);
    reveal(enc_symbol_part);
    reveal(enc_shield_part);
    let y = norm_element(x);
    assert(element_kind(y) == element_kind(x));
    assert(enc_lines_part(y, tab) == enc_lines_part(x, tab)) by {
        if x.lines.len() > 0 {
            let ya = y.lines.map_values(|l: LineRuleView| enc_line_rule(l, tab));
            let xa = x.lines.map_values(|l: LineRuleView| enc_line_rule(l, tab));
            assert forall|k: int| 0 <= k < x.lines.len() implies #[trigger] ya[k] == xa[k] by {
                let l = x.lines[k];
                lemma_line_bytes(l.width, l.color, Some(l.priority), l.join, l.cap, l.dashdot, l.pathsym, tab);
            }
            assert(ya =~= xa);
        }
    }
    assert(enc_area_part(y.area, tab) == enc_area_part(x.area, tab)) by {
        let b = x.area.border;
        if x.area.is_set() && b.is_set() {
            lemma_line_bytes(b.width, b.color, None, b.join, b.cap, b.dashdot, b.pathsym, tab);
            let l = line_read(b.width, b.color, None, b.join, b.cap, b.dashdot, b.pathsym);
            assert(border_of(l).dashdot == l.dashdot);
            assert(border_of(l).pathsym == l.pathsym);
        }
    }
    lemma_caption_bytes(x.caption, tab);
    lemma_caption_bytes(x.path_text, tab);
}

/// A drawing element as read back refers to the strings of the element.
pub proof fn lemma_element_refs(x: DrawElementView)
    ensures
        element_refs(norm_element(x)) == element_refs(x),
{
    let y = norm_element(x);
    assert(Seq::new(y.lines.len(), |k: int| pathsym_refs(y.lines[k].pathsym)) =~= Seq::new(
        x.lines.len(),
        |k: int| pathsym_refs(x.lines[k].pathsym),
    ));
    assert(caption_refs(y.caption) =~= caption_refs(x.caption));
    assert(caption_refs(y.path_text) =~= caption_refs(x.path_text));
}


// ------------------------------------------------------------------ structure without colors

pub open spec fn decolor_line_def(l: LineDefView) -> LineDefView {
    LineDefView { color: 0, ..l }
}

pub open spec fn decolor_line(l: LineRuleView) -> LineRuleView {
    LineRuleView { color: 0, ..l }
}

pub open spec fn decolor_area(a: AreaRuleView) -> AreaRuleView {
    AreaRuleView { color: 0, border: decolor_line_def(a.border), ..a }
}

pub open spec fn decolor_caption_def(c: CaptionDefView) -> CaptionDefView {
    CaptionDefView { color: 0, stroke_color: 0, ..c }
}

pub open spec fn decolor_caption(c: CaptionRuleView) -> CaptionRuleView {
    CaptionRuleView { primary: decolor_caption_def(c.primary), secondary: decolor_caption_def(c.secondary), ..c }
}

pub open spec fn decolor_shield(s: ShieldRuleView) -> ShieldRuleView {
    ShieldRuleView { color: 0, stroke_color: 0, text_color: 0, text_stroke_color: 0, ..s }
}

/// An element with every color field zero.
pub open spec fn decolor_element(e: DrawElementView) -> DrawElementView {
    DrawElementView {
        lines: e.lines.map_values(|l: LineRuleView| decolor_line(l)),
        area: decolor_area(e.area),
        caption: decolor_caption(e.caption),
        path_text: decolor_caption(e.path_text),
        shield: decolor_shield(e.shield),
        ..e
    }
}

pub open spec fn decolor_classif(c: ClassifElementView) -> ClassifElementView {
    ClassifElementView { element: c.element.map_values(|e: DrawElementView| decolor_element(e)), ..c }
}

/// A container with every color field zero.
pub open spec fn decolor_container(c: ContainerView) -> ContainerView {
    ContainerView {
        colors: ColorsElementView {
            value: c.colors.value.map_values(|m: ColorElementView| ColorElementView { color: 0, ..m }),
            ..c.colors
        },
        cont: c.cont.map_values(|t: ClassifElementView| decolor_classif(t)),
        ..c
    }
}

proof fn lemma_canon_line_def(l: LineDefView, ft: Seq<(u64, Seq<char>)>)
    ensures
        canon_line_def(decolor_line_def(l), true, ft) == canon_line_def(l, true, ft),
{
    reveal(canon_parts_line_def);
}

proof fn lemma_canon_line(l: LineRuleView, ft: Seq<(u64, Seq<char>)>)
    ensures
        canon_line_rule(decolor_line(l), true, ft) == canon_line_rule(l, true, ft),
{
    reveal(canon_parts_line_rule);
}

proof fn lemma_canon_area(a: AreaRuleView, ft: Seq<(u64, Seq<char>)>)
    ensures
        canon_area_rule(decolor_area(a), true, ft) == canon_area_rule(a, true, ft),
{
    reveal(canon_parts_area_rule);
    lemma_canon_line_def(a.border, ft);
}

proof fn lemma_canon_caption_def(c: CaptionDefView, ft: Seq<(u64, Seq<char>)>)
    ensures
        canon_caption_def(decolor_caption_def(c), true, ft) == canon_caption_def(c, true, ft),
{
    reveal(canon_parts_caption_def);
}

proof fn lemma_canon_caption(c: CaptionRuleView, ft: Seq<(u64, Seq<char>)>)
    ensures
        canon_caption_rule(decolor_caption(c), true, ft) == canon_caption_rule(c, true, ft),
{
    reveal(canon_parts_caption_rule);
    lemma_canon_caption_def(c.primary, ft);
    lemma_canon_caption_def(c.secondary, ft);
}

proof fn lemma_canon_shield(s: ShieldRuleView, ft: Seq<(u64, Seq<char>)>)
    ensures
        canon_shield_rule(decolor_shield(s), true, ft) == canon_shield_rule(s, true, ft),
{
    reveal(canon_parts_shield_rule);
}

/// Without colors, the content string of an element ignores its colors.
pub proof fn lemma_canon_element(e: DrawElementView, ft: Seq<(u64, Seq<char>)>)
    ensures
        canon_draw_element(decolor_element(e), true, ft) == canon_draw_element(e, true, ft),
{
    reveal(canon_parts_draw_element);
    let d = decolor_element(e);
    lemma_canon_area(e.area, ft);
    lemma_canon_caption(e.caption, ft);
    lemma_canon_caption(e.path_text, ft);
    lemma_canon_shield(e.shield, ft);
    let a = d.lines.map_values(|m: LineRuleView| canon_line_rule(m, true, ft));
    let b = e.lines.map_values(|m: LineRuleView| canon_line_rule(m, true, ft));
    assert forall|k: int| 0 <= k < e.lines.len() implies #[trigger] a[k] == b[k] by {
        lemma_canon_line(e.lines[k], ft);
    }
    assert(a =~= b);
}

proof fn lemma_canon_classif(c: ClassifElementView, ft: Seq<(u64, Seq<char>)>)
    ensures
        canon_classif_element(decolor_classif(c), true, ft) == canon_classif_element(c, true, ft),
{
    reveal(canon_parts_classif_element);
    let d = decolor_classif(c);
    let a = d.element.map_values(|m: DrawElementView| canon_draw_element(m, true, ft));
    let b = c.element.map_values(|m: DrawElementView| canon_draw_element(m, true, ft));
    assert forall|k: int| 0 <= k < c.element.len() implies #[trigger] a[k] == b[k] by {
        lemma_canon_element(c.element[k], ft);
    }
    assert(a =~= b);
}

/// Without colors, the content string of a container ignores its colors.
pub proof fn lemma_canon_container(c: ContainerView, ft: Seq<(u64, Seq<char>)>)
    ensures
        canon_container(decolor_container(c), true, ft) == canon_container(c, true, ft),
{
    reveal(canon_parts_container);
    reveal(canon_parts_colors_element);
    let d = decolor_container(c);
    let a = d.cont.map_values(|m: ClassifElementView| canon_classif_element(m, true, ft));
    let b = c.cont.map_values(|m: ClassifElementView| canon_classif_element(m, true, ft));
    assert forall|k: int| 0 <= k < c.cont.len() implies #[trigger] a[k] == b[k] by {
        lemma_canon_classif(c.cont[k], ft);
    }
    assert(a =~= b);
    let x = d.colors.value.map_values(|m: ColorElementView| canon_color_element(m, true, ft));
    let y = c.colors.value.map_values(|m: ColorElementView| canon_color_element(m, true, ft));
    assert forall|k: int| 0 <= k < c.colors.value.len() implies #[trigger] x[k] == y[k] by {
        reveal(canon_parts_color_element);
    }
    assert(x =~= y);
    assert(d.colors.is_set() == c.colors.is_set());
}

/// Resolving against any palette row leaves an element's structure alone.
pub proof fn lemma_decolor_resolved(y: DrawElementView, r: Seq<u32>)
    ensures
        decolor_element(resolved_element(y, r)) == decolor_element(y),
{
    let z = resolved_element(y, r);
    assert(decolor_element(z).lines =~= decolor_element(y).lines);
}

} // verus!
