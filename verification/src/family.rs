//! The template of a family holds its palette indices in slot order, and a
//! family read back from its blob has the palette, template and strings of
//! the family written.

use vstd::prelude::*;
use crate::model::{DrawElementView, ClassifElementView, ContainerView};
use crate::palette::{element_slots, slot_count, element_with, classif_with, element_offset, classif_offset, classif_slots, types_slots, named_slots, container_slots, template_with, lemma_element_slots_len};
use crate::repack::lemma_element_with_slots as lemma_with_slots;
use crate::repack::lemma_element_with_slots;
use crate::seqs::{flat, lemma_flat_new_push, lemma_flat_new_mono, lemma_has_first, lemma_dedup_contains};
use crate::palette::lemma_container_slots_len;
use crate::model::{ColorElementView, ColorsElementView};
use crate::palette::{template_of, palette_of, slot_indices, palette_keys, as_colors, area_slots, caption_slots, shield_slots, line_slots};
use crate::pack::{string_table, sidx};
use crate::unpack::{res_named, res_all, resolve, types_ok, element_ok, resolved_types, in_pal};
use crate::roundtrip::{palette_rows, read_types, read_named, norm_element, norm_type, named_pairs, lemma_slot_indices, lemma_table_refs, lemma_read_blob};
use crate::pack::{family_blob, pack_error};
use crate::unpack::parse_blob;
use crate::repack::{lemma_norm_slots, lemma_same_slots, lemma_resolved_slots, same_slots, lemma_with_resolved, lemma_with_norm, decolor_container, decolor_classif, decolor_element, lemma_canon_container, lemma_decolor_resolved};
use crate::pack::{structure_key, isomorphic, shaped, container_refs, classif_refs, element_refs, enc_named, enc_counts, enc_types, enc_classif, enc_element, types_count, classif_count, kind_count, enc_header, enc_strtab, enc_colors, section, zeros};
use crate::repack::{lemma_element_bytes, lemma_element_refs};
use crate::palette::same_shape;
use crate::unpack::resolved_element;
use crate::decode::DecodeError;

verus! {

/// A type of the template filled with palette indices from `ix` at `at`.
#[verifier::opaque]
pub open spec fn filled(t: ClassifElementView, ix: Seq<u32>, at: int) -> ClassifElementView {
    classif_with(t, ix, at)
}

/// Element `j` of a filled type holds at its slots the indices at its
/// offset.
pub proof fn lemma_filled_element(t: ClassifElementView, ix: Seq<u32>, at: int, j: int)
    requires
        0 <= j < t.element.len(),
        0 <= element_offset(t, at, j),
        element_offset(t, at, j) + slot_count(t.element[j]) <= ix.len(),
    ensures
        filled(t, ix, at).element.len() == t.element.len(),
        element_slots(filled(t, ix, at).element[j], filled(t, ix, at).element[j]) == ix.subrange(
            element_offset(t, at, j),
            element_offset(t, at, j) + slot_count(t.element[j]),
        ),
{
    reveal(filled);
    let o = element_offset(t, at, j);
    let s = ix.subrange(o, o + slot_count(t.element[j]));
    assert(filled(t, ix, at).element[j] == element_with(t.element[j], s));
    lemma_element_with_slots(t.element[j], s);
}

/// The slots of a type of the template, filled from `ix` at `at`, hold the
/// indices of `ix` from `at` on, element after element.
pub proof fn lemma_classif_with_slots(t: ClassifElementView, ix: Seq<u32>, at: int, n: nat)
    requires
        0 <= at,
        at + classif_slots(t, t).len() <= ix.len(),
        n <= t.element.len(),
    ensures
        element_offset(t, at, n as int) <= at + classif_slots(t, t).len(),
        flat(Seq::new(n, |j: int| element_slots(filled(t, ix, at).element[j], filled(t, ix, at).element[j]))) == ix.subrange(
            at,
            element_offset(t, at, n as int),
        ),
        forall|j: int| 0 <= j < n ==> element_offset(t, at, j) + slot_count(#[trigger] t.element[j]) <= at + classif_slots(t, t).len(),
    decreases n,
{
    let fw = |j: int| element_slots(filled(t, ix, at).element[j], filled(t, ix, at).element[j]);
    let ft = |j: int| element_slots(t.element[j], t.element[j]);
    lemma_flat_new_mono(n, t.element.len(), ft);
    if n == 0 {
        assert(flat(Seq::new(0, fw)) =~= Seq::<u32>::empty());
        assert(ix.subrange(at, at) =~= Seq::<u32>::empty());
        assert(flat(Seq::new(0, ft)) =~= Seq::<u32>::empty());
    } else {
        let m = (n - 1) as nat;
        lemma_classif_with_slots(t, ix, at, m);
        lemma_flat_new_push(m, fw);
        lemma_flat_new_push(m, ft);
        let o = element_offset(t, at, m as int);
        let e = t.element[m as int];
        lemma_element_slots_len(e, e);
        assert(element_offset(t, at, n as int) == o + slot_count(e));
        lemma_filled_element(t, ix, at, m as int);
        assert(ix.subrange(at, o) + ix.subrange(o, o + slot_count(e)) =~= ix.subrange(at, o + slot_count(e)));
    }
}

/// The slots of the first `n` types of the template filled from `ix` hold
/// the indices of `ix` after the named colors, in order.
pub proof fn lemma_types_with_slots(c: ContainerView, ix: Seq<u32>, n: nat)
    requires
        container_slots(c, c).len() <= ix.len(),
        n <= c.cont.len(),
    ensures
        classif_offset(c, n as int) <= container_slots(c, c).len(),
        ({
            let t = template_with(c, ix);
            types_slots(t, t, n) == ix.subrange(c.colors.value.len() as int, classif_offset(c, n as int))
        }),
    decreases n,
{
    let t = template_with(c, ix);
    let fc = |i: int| classif_slots(c.cont[i], c.cont[i]);
    lemma_flat_new_mono(n, c.cont.len(), fc);
    let mm = c.colors.value.len() as int;
    if n == 0 {
        assert(types_slots(t, t, 0) =~= Seq::<u32>::empty());
        assert(types_slots(c, c, 0) =~= Seq::<u32>::empty());
        assert(ix.subrange(mm, mm) =~= Seq::<u32>::empty());
    } else {
        let m = (n - 1) as nat;
        lemma_types_with_slots(c, ix, m);
        lemma_flat_new_push(m, |i: int| classif_slots(t.cont[i], t.cont[i]));
        lemma_flat_new_push(m, fc);
        let at = classif_offset(c, m as int);
        let ci = c.cont[m as int];
        assert(t.cont[m as int] == filled(ci, ix, at)) by {
            reveal(filled);
        }
        assert(classif_offset(c, n as int) == at + classif_slots(ci, ci).len());
        lemma_classif_with_slots(ci, ix, at, ci.element.len());
        assert(filled(ci, ix, at).element.len() == ci.element.len()) by {
            reveal(filled);
        }
        assert(classif_slots(t.cont[m as int], t.cont[m as int]) == flat(
            Seq::new(ci.element.len(), |j: int| element_slots(filled(ci, ix, at).element[j], filled(ci, ix, at).element[j])),
        )) by {
            assert(Seq::new(
                t.cont[m as int].element.len(),
                |j: int| element_slots(t.cont[m as int].element[j], t.cont[m as int].element[j]),
            ) =~= Seq::new(
                ci.element.len(),
                |j: int| element_slots(filled(ci, ix, at).element[j], filled(ci, ix, at).element[j]),
            ));
        }
        assert(element_offset(ci, at, ci.element.len() as int) == at + classif_slots(ci, ci).len());
        assert(ix.subrange(mm, at) + ix.subrange(at, at + classif_slots(ci, ci).len()) =~= ix.subrange(
            mm,
            at + classif_slots(ci, ci).len(),
        ));
    }
}


// ------------------------------------------------------------------ reading a family back

/// The palette colors of variant `v`, by palette index.
pub open spec fn read_row(cs: Seq<ContainerView>, v: int) -> Seq<u32> {
    palette_rows(palette_of(cs), cs.len())[v]
}

/// The named colors of variant `v` as read back.
pub open spec fn read_colors(cs: Seq<ContainerView>, v: int) -> Seq<ColorElementView> {
    Seq::new(
        cs[0].colors.value.len(),
        |m: int| ColorElementView { present: true, name: cs[0].colors.value[m].name, color: read_row(cs, v)[slot_indices(cs)[m]] },
    )
}

/// The containers read back from the blob of a family.
pub open spec fn read_back(cs: Seq<ContainerView>) -> Seq<ContainerView> {
    Seq::new(
        cs.len(),
        |v: int| ContainerView {
            present: false,
            colors: ColorsElementView { present: false, value: read_colors(cs, v) },
            cont: resolved_types(read_types(cs), read_row(cs, v)),
        },
    )
}

/// A family whose palette indices fit the format's 32-bit color fields.
pub open spec fn small_palette(cs: Seq<ContainerView>) -> bool {
    palette_of(cs).len() <= 0x1_0000_0000
}

/// The indices of the template, as stored.
pub proof fn lemma_template_indices(cs: Seq<ContainerView>)
    requires
        cs.len() >= 1,
        small_palette(cs),
    ensures
        as_colors(slot_indices(cs)).len() == container_slots(cs[0], cs[0]).len(),
        forall|k: int| 0 <= k < as_colors(slot_indices(cs)).len() ==> #[trigger] as_colors(slot_indices(cs))[k] as int == slot_indices(cs)[k]
            && slot_indices(cs)[k] < palette_of(cs).len(),
        template_of(cs).colors == cs[0].colors,
        template_of(cs).cont.len() == cs[0].cont.len(),
        forall|i: int| 0 <= i < cs[0].cont.len() ==> #[trigger] template_of(cs).cont[i] == filled(
            cs[0].cont[i],
            as_colors(slot_indices(cs)),
            classif_offset(cs[0], i),
        ),
{
    lemma_slot_indices(cs);
    assert forall|i: int| 0 <= i < cs[0].cont.len() implies #[trigger] template_of(cs).cont[i] == filled(
        cs[0].cont[i],
        as_colors(slot_indices(cs)),
        classif_offset(cs[0], i),
    ) by {
        reveal(filled);
    }
}

/// An element whose slots hold indices below the palette size can take the
/// palette's colors.
pub proof fn lemma_element_ok(e: DrawElementView, r: Seq<u32>)
    requires
        forall|k: int| 0 <= k < element_slots(e, e).len() ==> (#[trigger] element_slots(e, e)[k] as int) < r.len(),
    ensures
        element_ok(e, r),
{
    reveal(area_slots);
    reveal(caption_slots);
    reveal(shield_slots);
    let n = e.lines.len() as int;
    let a = area_slots(e.area, e.area);
    let c = caption_slots(e.caption, e.caption);
    let p = caption_slots(e.path_text, e.path_text);
    let h = shield_slots(e.shield, e.shield);
    let all = element_slots(e, e);
    assert(all == line_slots(e.lines.len(), e) + a + c + p + h);
    assert forall|k: int| 0 <= k < e.lines.len() implies in_pal(r, #[trigger] e.lines[k].color) by {
        assert(all[k] == e.lines[k].color);
    }
    if e.area.is_set() {
        assert(all[n] == e.area.color);
        if e.area.border.is_set() {
            assert(all[n + 1] == e.area.border.color);
        }
    }
    let b = n + a.len();
    if e.caption.is_set() {
        if e.caption.primary.is_set() {
            assert(all[b] == e.caption.primary.color);
            assert(all[b + 1] == e.caption.primary.stroke_color);
        }
        let b2 = b + (if e.caption.primary.is_set() { 2int } else { 0int });
        if e.caption.secondary.is_set() {
            assert(all[b2] == e.caption.secondary.color);
            assert(all[b2 + 1] == e.caption.secondary.stroke_color);
        }
    }
    let c0 = b + c.len();
    if e.path_text.is_set() {
        if e.path_text.primary.is_set() {
            assert(all[c0] == e.path_text.primary.color);
            assert(all[c0 + 1] == e.path_text.primary.stroke_color);
        }
        let c2 = c0 + (if e.path_text.primary.is_set() { 2int } else { 0int });
        if e.path_text.secondary.is_set() {
            assert(all[c2] == e.path_text.secondary.color);
            assert(all[c2 + 1] == e.path_text.secondary.stroke_color);
        }
    }
    let d = c0 + p.len();
    if e.shield.is_set() {
        assert(all[d] == e.shield.color);
        assert(all[d + 1] == e.shield.stroke_color);
        assert(all[d + 2] == e.shield.text_color);
        assert(all[d + 3] == e.shield.text_stroke_color);
    }
}


/// The slots of every element of the template hold indices of the palette.
pub proof fn lemma_template_ok(cs: Seq<ContainerView>, t: int, j: int, r: Seq<u32>)
    requires
        cs.len() >= 1,
        small_palette(cs),
        r.len() == palette_of(cs).len(),
        0 <= t < cs[0].cont.len(),
        0 <= j < cs[0].cont[t].element.len(),
    ensures
        template_of(cs).cont[t].element.len() == cs[0].cont[t].element.len(),
        element_ok(norm_element(template_of(cs).cont[t].element[j]), r),
{
    let c0 = cs[0];
    let ix = as_colors(slot_indices(cs));
    lemma_template_indices(cs);
    let at = classif_offset(c0, t);
    let ct = c0.cont[t];
    lemma_types_with_slots(c0, ix, (t + 1) as nat);
    lemma_flat_new_push(t as nat, |i: int| classif_slots(c0.cont[i], c0.cont[i]));
    assert(classif_offset(c0, t + 1) == at + classif_slots(ct, ct).len());
    lemma_classif_with_slots(ct, ix, at, ct.element.len());
    assert(element_offset(ct, at, j) + slot_count(ct.element[j]) <= at + classif_slots(ct, ct).len());
    assert(0 <= element_offset(ct, at, j));
    lemma_filled_element(ct, ix, at, j);
    let x = template_of(cs).cont[t].element[j];
    assert(x == filled(ct, ix, at).element[j]);
    lemma_norm_slots(x);
    let o = element_offset(ct, at, j);
    let sl = element_slots(norm_element(x), norm_element(x));
    assert(sl == ix.subrange(o, o + slot_count(ct.element[j])));
    assert forall|k: int| 0 <= k < sl.len() implies (#[trigger] sl[k] as int) < r.len() by {
        assert(sl[k] == ix[o + k]);
    }
    lemma_element_ok(norm_element(x), r);
}

/// Every type read back can take the colors of any palette row.
pub proof fn lemma_types_ok(cs: Seq<ContainerView>, r: Seq<u32>)
    requires
        cs.len() >= 1,
        small_palette(cs),
        r.len() == palette_of(cs).len(),
    ensures
        types_ok(read_types(cs), r),
{
    let ts = read_types(cs);
    lemma_template_indices(cs);
    assert forall|t: int, j: int| 0 <= t < ts.len() && 0 <= j < ts[t].1.len() implies element_ok(#[trigger] ts[t].1[j], r) by {
        lemma_template_ok(cs, t, j, r);
    }
}

/// The named colors of a variant read back.
pub proof fn lemma_res_named(cs: Seq<ContainerView>, v: int, m: nat)
    requires
        cs.len() >= 1,
        0 <= v < cs.len(),
        m <= cs[0].colors.value.len(),
        small_palette(cs),
        string_table(template_of(cs)).len() <= usize::MAX,
        palette_of(cs).len() <= usize::MAX,
    ensures
        res_named(read_named(cs), string_table(template_of(cs)), read_row(cs, v), m) == Ok::<Seq<ColorElementView>, DecodeError>(
            read_colors(cs, v).take(m as int),
        ),
    decreases m,
{
    let tab = string_table(template_of(cs));
    lemma_template_indices(cs);
    if m == 0 {
        assert(read_colors(cs, v).take(0) =~= Seq::<ColorElementView>::empty());
    } else {
        let k = (m - 1) as nat;
        lemma_res_named(cs, v, k);
        lemma_table_refs(template_of(cs));
        let name = cs[0].colors.value[k as int].name;
        assert(template_of(cs).colors.value[k as int].name == name);
        assert(tab.contains(name));
        lemma_has_first(tab, name);
        assert(k < as_colors(slot_indices(cs)).len()) by {
            assert(container_slots(cs[0], cs[0]).len() >= cs[0].colors.value.len());
        }
        assert(as_colors(slot_indices(cs))[k as int] as int == slot_indices(cs)[k as int]);
        assert(slot_indices(cs)[k as int] < palette_of(cs).len());
        let pr = read_named(cs)[k as int];
        assert(pr.0 as int == sidx(tab, name));
        assert(pr.1 as int == slot_indices(cs)[k as int]);
        assert(read_row(cs, v).len() == palette_of(cs).len());
        assert(read_colors(cs, v).take(m as int) =~= read_colors(cs, v).take(k as int).push(read_colors(cs, v)[k as int]));
    }
}

/// Resolving every variant of a family read back gives the containers read
/// back.
pub proof fn lemma_res_all(cs: Seq<ContainerView>, n: nat)
    requires
        cs.len() >= 1,
        n <= cs.len(),
        small_palette(cs),
        string_table(template_of(cs)).len() <= usize::MAX,
        palette_of(cs).len() <= usize::MAX,
    ensures
        res_all(read_types(cs), read_named(cs), string_table(template_of(cs)), palette_rows(palette_of(cs), cs.len()), n)
            == Ok::<Seq<ContainerView>, DecodeError>(read_back(cs).take(n as int)),
    decreases n,
{
    if n == 0 {
        assert(read_back(cs).take(0) =~= Seq::<ContainerView>::empty());
    } else {
        let v = (n - 1) as nat;
        lemma_res_all(cs, v);
        let r = read_row(cs, v as int);
        assert(r.len() == palette_of(cs).len());
        lemma_res_named(cs, v as int, cs[0].colors.value.len());
        assert(read_colors(cs, v as int).take(cs[0].colors.value.len() as int) =~= read_colors(cs, v as int));
        assert(read_named(cs).len() == cs[0].colors.value.len()) by {
            lemma_template_indices(cs);
        }
        lemma_types_ok(cs, r);
        assert(read_back(cs).take(n as int) =~= read_back(cs).take(v as int).push(read_back(cs)[v as int]));
    }
}


/// Reading the blob of a family gives back the variant names and, for each
/// variant, a container with the variant's colors at every palette slot.
pub proof fn lemma_parse_packed(cs: Seq<ContainerView>, names: Seq<Seq<char>>)
    requires
        pack_error(cs, names) is None,
        family_blob(cs, names).len() <= usize::MAX,
        small_palette(cs),
    ensures
        parse_blob(family_blob(cs, names)) == Ok::<(Seq<Seq<char>>, Seq<ContainerView>), DecodeError>((names, read_back(cs))),
{
    lemma_read_blob(cs, names);
    lemma_res_all(cs, cs.len());
    assert(read_back(cs).take(cs.len() as int) =~= read_back(cs));
}


// ------------------------------------------------------------------ the slots of a family read back

/// Recoloring every piece recolors the flattening.
pub proof fn lemma_flat_map(n: nat, g: spec_fn(int) -> Seq<u32>, h: spec_fn(int) -> Seq<u32>, r: Seq<u32>)
    requires
        forall|j: int| 0 <= j < n ==> #[trigger] h(j) == g(j).map_values(|c: u32| r[c as int]),
    ensures
        flat(Seq::new(n, h)) == flat(Seq::new(n, g)).map_values(|c: u32| r[c as int]),
    decreases n,
{
    if n == 0 {
        assert(flat(Seq::new(0, h)) =~= Seq::<u32>::empty());
        assert(flat(Seq::new(0, g)) =~= Seq::<u32>::empty());
        assert(Seq::<u32>::empty().map_values(|c: u32| r[c as int]) =~= Seq::<u32>::empty());
    } else {
        let m = (n - 1) as nat;
        lemma_flat_map(m, g, h, r);
        lemma_flat_new_push(m, g);
        lemma_flat_new_push(m, h);
        assert(h(m as int) == g(m as int).map_values(|c: u32| r[c as int]));
        assert((flat(Seq::new(m, g)) + g(m as int)).map_values(|c: u32| r[c as int]) =~= flat(Seq::new(m, g)).map_values(
            |c: u32| r[c as int],
        ) + g(m as int).map_values(|c: u32| r[c as int]));
    }
}

/// Element `j` of type `t` of variant `v` read back.
pub open spec fn read_element(cs: Seq<ContainerView>, v: int, t: int, j: int) -> DrawElementView {
    resolved_element(norm_element(template_of(cs).cont[t].element[j]), read_row(cs, v))
}

/// The colors of a variant read back, at the slots of the first variant
/// read back, are the palette colors of the template's indices.
pub proof fn lemma_element_read_slots(cs: Seq<ContainerView>, v: int, t: int, j: int)
    ensures
        element_slots(read_element(cs, 0, t, j), read_element(cs, v, t, j)) == element_slots(
            template_of(cs).cont[t].element[j],
            template_of(cs).cont[t].element[j],
        ).map_values(|c: u32| read_row(cs, v)[c as int]),
        same_slots(read_element(cs, 0, t, j), template_of(cs).cont[t].element[j]),
{
    let x = template_of(cs).cont[t].element[j];
    let y = norm_element(x);
    lemma_norm_slots(x);
    lemma_resolved_slots(y, read_row(cs, 0));
    lemma_resolved_slots(y, read_row(cs, v));
    lemma_same_slots(read_element(cs, 0, t, j), y, read_element(cs, v, t, j));
}


/// Type `t` of variant `v` read back.
pub proof fn lemma_read_type_elements(cs: Seq<ContainerView>, v: int, t: int)
    requires
        0 <= v < cs.len(),
        0 <= t < template_of(cs).cont.len(),
    ensures
        read_back(cs)[v].cont.len() == template_of(cs).cont.len(),
        read_back(cs)[v].cont[t].name == template_of(cs).cont[t].name,
        read_back(cs)[v].cont[t].element.len() == template_of(cs).cont[t].element.len(),
        forall|j: int| 0 <= j < template_of(cs).cont[t].element.len() ==> #[trigger] read_back(cs)[v].cont[t].element[j]
            == read_element(cs, v, t, j),
{
}

/// The colors of type `t` of a variant read back, at the slots of the first
/// variant read back.
pub proof fn lemma_classif_read_slots(cs: Seq<ContainerView>, v: int, t: int)
    requires
        0 <= v < cs.len(),
        0 <= t < template_of(cs).cont.len(),
    ensures
        classif_slots(read_back(cs)[0].cont[t], read_back(cs)[v].cont[t]) == classif_slots(
            template_of(cs).cont[t],
            template_of(cs).cont[t],
        ).map_values(|c: u32| read_row(cs, v)[c as int]),
{
    let tt = template_of(cs).cont[t];
    let a = read_back(cs)[0].cont[t];
    let b = read_back(cs)[v].cont[t];
    lemma_read_type_elements(cs, 0, t);
    lemma_read_type_elements(cs, v, t);
    let r = read_row(cs, v);
    assert forall|j: int| 0 <= j < tt.element.len() implies #[trigger] element_slots(a.element[j], b.element[j]) == element_slots(
        tt.element[j],
        tt.element[j],
    ).map_values(|c: u32| r[c as int]) by {
        lemma_element_read_slots(cs, v, t, j);
    }
    lemma_flat_map(
        tt.element.len(),
        |j: int| element_slots(tt.element[j], tt.element[j]),
        |j: int| element_slots(a.element[j], b.element[j]),
        r,
    );
}

/// The colors of the first `n` types of a variant read back, at the slots
/// of the first variant read back.
pub proof fn lemma_types_read_slots(cs: Seq<ContainerView>, v: int, n: nat)
    requires
        0 <= v < cs.len(),
        n <= template_of(cs).cont.len(),
    ensures
        types_slots(read_back(cs)[0], read_back(cs)[v], n) == types_slots(template_of(cs), template_of(cs), n).map_values(
            |c: u32| read_row(cs, v)[c as int],
        ),
{
    let tpl = template_of(cs);
    let a = read_back(cs)[0];
    let b = read_back(cs)[v];
    let r = read_row(cs, v);
    assert forall|i: int| 0 <= i < n implies #[trigger] classif_slots(a.cont[i], b.cont[i]) == classif_slots(
        tpl.cont[i],
        tpl.cont[i],
    ).map_values(|c: u32| r[c as int]) by {
        lemma_classif_read_slots(cs, v, i);
    }
    lemma_flat_map(n, |i: int| classif_slots(tpl.cont[i], tpl.cont[i]), |i: int| classif_slots(a.cont[i], b.cont[i]), r);
}


/// The palette entry of a slot's index is the slot's key.
pub proof fn lemma_palette_entry(cs: Seq<ContainerView>, k: int)
    requires
        0 <= k < palette_keys(cs).len(),
    ensures
        palette_of(cs)[slot_indices(cs)[k]] == palette_keys(cs)[k],
        0 <= slot_indices(cs)[k] < palette_of(cs).len(),
{
    let ks = palette_keys(cs);
    lemma_dedup_contains(ks, ks[k]);
    assert(ks.contains(ks[k]));
    lemma_has_first(palette_of(cs), ks[k]);
}

/// A variant read back holds, at every slot, the color the variant held
/// there.
pub proof fn lemma_read_slots(cs: Seq<ContainerView>, v: int)
    requires
        cs.len() >= 1,
        0 <= v < cs.len(),
        small_palette(cs),
    ensures
        container_slots(read_back(cs)[0], read_back(cs)[v]) == container_slots(cs[0], cs[v]),
{
    let c0 = cs[0];
    let tpl = template_of(cs);
    let ix = as_colors(slot_indices(cs));
    let r = read_row(cs, v);
    let a = read_back(cs)[0];
    let b = read_back(cs)[v];
    let mm = c0.colors.value.len() as int;
    lemma_template_indices(cs);
    lemma_container_slots_len(c0, cs[v]);
    lemma_types_with_slots(c0, ix, c0.cont.len());
    lemma_types_read_slots(cs, v, c0.cont.len());
    assert(a.cont.len() == c0.cont.len());
    let whole = container_slots(c0, c0).len() as int;
    assert(classif_offset(c0, c0.cont.len() as int) == whole);
    let got = container_slots(a, b);
    let want = container_slots(c0, cs[v]);
    assert(got == named_slots(a, b) + types_slots(a, b, a.cont.len()));
    assert(types_slots(a, b, a.cont.len()) == ix.subrange(mm, whole).map_values(|c: u32| r[c as int]));
    assert(got.len() == want.len());
    assert forall|k: int| 0 <= k < got.len() implies #[trigger] got[k] == want[k] by {
        assert(ix[k] as int == slot_indices(cs)[k]);
        lemma_palette_entry(cs, k);
        if k < mm {
            assert(got[k] == b.colors.value[k].color);
            assert(got[k] == r[slot_indices(cs)[k]]);
        } else {
            assert(got[k] == ix.subrange(mm, whole).map_values(|c: u32| r[c as int])[k - mm]);
            assert(got[k] == r[ix[k] as int]);
        }
        assert(r[slot_indices(cs)[k]] == palette_of(cs)[slot_indices(cs)[k]][v]);
        assert(palette_keys(cs)[k][v] == want[k]);
    }
    assert(got =~= want);
}

/// A family read back has the palette keys of the family.
pub proof fn lemma_read_keys(cs: Seq<ContainerView>)
    requires
        cs.len() >= 1,
        small_palette(cs),
    ensures
        palette_keys(read_back(cs)) == palette_keys(cs),
        palette_of(read_back(cs)) == palette_of(cs),
        slot_indices(read_back(cs)) == slot_indices(cs),
{
    let cs2 = read_back(cs);
    lemma_read_slots(cs, 0);
    assert forall|v: int| 0 <= v < cs.len() implies #[trigger] container_slots(cs2[0], cs2[v]) == container_slots(cs[0], cs[v]) by {
        lemma_read_slots(cs, v);
    }
    assert(palette_keys(cs2) =~= palette_keys(cs)) by {
        assert forall|k: int| 0 <= k < palette_keys(cs).len() implies #[trigger] palette_keys(cs2)[k] =~= palette_keys(cs)[k] by {
        }
    }
}


/// Pieces of the same lengths flatten to the same length.
pub proof fn lemma_flat_len<T>(n: nat, g: spec_fn(int) -> Seq<T>, h: spec_fn(int) -> Seq<T>)
    requires
        forall|j: int| 0 <= j < n ==> (#[trigger] h(j)).len() == g(j).len(),
    ensures
        flat(Seq::new(n, h)).len() == flat(Seq::new(n, g)).len(),
    decreases n,
{
    if n > 0 {
        let m = (n - 1) as nat;
        lemma_flat_len(m, g, h);
        lemma_flat_new_push(m, g);
        lemma_flat_new_push(m, h);
    }
}

/// Element `j` of a filled type.
pub proof fn lemma_filled_is(t: ClassifElementView, ix: Seq<u32>, at: int, j: int)
    requires
        0 <= j < t.element.len(),
    ensures
        filled(t, ix, at).element.len() == t.element.len(),
        filled(t, ix, at).element[j] == element_with(
            t.element[j],
            ix.subrange(element_offset(t, at, j), element_offset(t, at, j) + slot_count(t.element[j])),
        ),
        filled(t, ix, at).name == t.name,
{
    reveal(filled);
}

/// The slots of an element of the template lie within the indices.
pub proof fn lemma_element_bounds(cs: Seq<ContainerView>, t: int, j: int)
    requires
        cs.len() >= 1,
        small_palette(cs),
        0 <= t < cs[0].cont.len(),
        0 <= j < cs[0].cont[t].element.len(),
    ensures
        0 <= classif_offset(cs[0], t),
        0 <= element_offset(cs[0].cont[t], classif_offset(cs[0], t), j),
        element_offset(cs[0].cont[t], classif_offset(cs[0], t), j) + slot_count(cs[0].cont[t].element[j])
            <= as_colors(slot_indices(cs)).len(),
{
    let c0 = cs[0];
    let ix = as_colors(slot_indices(cs));
    lemma_template_indices(cs);
    let at = classif_offset(c0, t);
    let ct = c0.cont[t];
    lemma_types_with_slots(c0, ix, (t + 1) as nat);
    lemma_flat_new_push(t as nat, |i: int| classif_slots(c0.cont[i], c0.cont[i]));
    assert(classif_offset(c0, t + 1) == at + classif_slots(ct, ct).len());
    lemma_classif_with_slots(ct, ix, at, ct.element.len());
    assert(element_offset(ct, at, j) + slot_count(ct.element[j]) <= at + classif_slots(ct, ct).len());
}

/// The slots of type `t` of the first variant read back lie where those of
/// the first variant lay.
pub proof fn lemma_read_offsets(cs: Seq<ContainerView>, t: int, j: int)
    requires
        cs.len() >= 1,
        small_palette(cs),
        0 <= t < cs[0].cont.len(),
        0 <= j < cs[0].cont[t].element.len(),
    ensures
        classif_offset(read_back(cs)[0], t) == classif_offset(cs[0], t),
        element_offset(read_back(cs)[0].cont[t], classif_offset(cs[0], t), j) == element_offset(
            cs[0].cont[t],
            classif_offset(cs[0], t),
            j,
        ),
        slot_count(read_back(cs)[0].cont[t].element[j]) == slot_count(cs[0].cont[t].element[j]),
{
    let c0 = cs[0];
    let a = read_back(cs)[0];
    let ix = as_colors(slot_indices(cs));
    lemma_template_indices(cs);
    lemma_read_type_elements(cs, 0, t);
    lemma_types_with_slots(c0, ix, t as nat);
    lemma_types_read_slots(cs, 0, t as nat);
    let at = classif_offset(c0, t);
    let ct = c0.cont[t];
    let at2 = a.cont[t];
    assert forall|q: int| 0 <= q < ct.element.len() implies (#[trigger] element_slots(at2.element[q], at2.element[q])).len()
        == element_slots(ct.element[q], ct.element[q]).len() by {
        lemma_element_bounds(cs, t, q);
        lemma_element_read_slots(cs, 0, t, q);
        lemma_filled_is(ct, ix, at, q);
        let s = ix.subrange(element_offset(ct, at, q), element_offset(ct, at, q) + slot_count(ct.element[q]));
        lemma_element_with_slots(ct.element[q], s);
        lemma_same_slots(at2.element[q], ct.element[q], at2.element[q]);
        lemma_same_slots(at2.element[q], ct.element[q], ct.element[q]);
        lemma_element_slots_len(at2.element[q], at2.element[q]);
        lemma_element_slots_len(ct.element[q], ct.element[q]);
    }
    lemma_flat_len(
        j as nat,
        |q: int| element_slots(ct.element[q], ct.element[q]),
        |q: int| element_slots(at2.element[q], at2.element[q]),
    );
    lemma_element_slots_len(at2.element[j], at2.element[j]);
    lemma_element_slots_len(ct.element[j], ct.element[j]);
}

/// The template of a family read back is what was read back of the
/// template of the family.
pub proof fn lemma_read_template_element(cs: Seq<ContainerView>, t: int, j: int)
    requires
        cs.len() >= 1,
        small_palette(cs),
        0 <= t < cs[0].cont.len(),
        0 <= j < cs[0].cont[t].element.len(),
    ensures
        template_of(read_back(cs)).cont.len() == cs[0].cont.len(),
        template_of(read_back(cs)).cont[t].name == template_of(cs).cont[t].name,
        template_of(read_back(cs)).cont[t].element.len() == template_of(cs).cont[t].element.len(),
        template_of(read_back(cs)).cont[t].element[j] == norm_element(template_of(cs).cont[t].element[j]),
{
    let cs2 = read_back(cs);
    let c0 = cs[0];
    let a = cs2[0];
    let ix = as_colors(slot_indices(cs));
    lemma_read_keys(cs);
    lemma_template_indices(cs);
    lemma_template_indices(cs2);
    lemma_read_type_elements(cs, 0, t);
    lemma_read_offsets(cs, t, j);
    lemma_element_bounds(cs, t, j);
    let at = classif_offset(c0, t);
    let ct = c0.cont[t];
    let at2 = a.cont[t];
    let o = element_offset(ct, at, j);
    let s = ix.subrange(o, o + slot_count(ct.element[j]));
    lemma_filled_is(ct, ix, at, j);
    let x = template_of(cs).cont[t].element[j];
    assert(x == element_with(ct.element[j], s));
    lemma_filled_is(at2, ix, at, j);
    assert(template_of(cs2).cont[t] == filled(at2, ix, classif_offset(a, t)));
    assert(template_of(cs2).cont[t].element[j] == element_with(at2.element[j], s));
    assert(at2.element[j] == resolved_element(norm_element(x), read_row(cs, 0)));
    lemma_with_resolved(norm_element(x), read_row(cs, 0), s);
    lemma_with_norm(ct.element[j], s);
    lemma_filled_is(ct, ix, at, 0);
}


/// The variants read back differ in their colors alone.
pub proof fn lemma_read_decolored(cs: Seq<ContainerView>, v: int)
    requires
        0 <= v < cs.len(),
    ensures
        decolor_container(read_back(cs)[v]) == decolor_container(read_back(cs)[0]),
{
    let a = read_back(cs)[0];
    let b = read_back(cs)[v];
    let ts = read_types(cs);
    assert(decolor_container(a).colors.value =~= decolor_container(b).colors.value);
    assert forall|t: int| 0 <= t < ts.len() implies #[trigger] decolor_classif(a.cont[t]) == decolor_classif(b.cont[t]) by {
        assert forall|j: int| 0 <= j < ts[t].1.len() implies #[trigger] decolor_element(a.cont[t].element[j]) == decolor_element(
            b.cont[t].element[j],
        ) by {
            lemma_decolor_resolved(ts[t].1[j], read_row(cs, 0));
            lemma_decolor_resolved(ts[t].1[j], read_row(cs, v));
        }
        assert(decolor_classif(a.cont[t]).element =~= decolor_classif(b.cont[t]).element);
    }
    assert(decolor_container(a).cont =~= decolor_container(b).cont);
}

/// The variants read back can be packed again.
pub proof fn lemma_read_packable(cs: Seq<ContainerView>, names: Seq<Seq<char>>)
    requires
        pack_error(cs, names) is None,
    ensures
        pack_error(read_back(cs), names) is None,
{
    let cs2 = read_back(cs);
    assert forall|v: int| 1 <= v < cs2.len() implies structure_key(#[trigger] cs2[v]) == structure_key(cs2[0]) by {
        lemma_read_decolored(cs, v);
        lemma_canon_container(cs2[v], Seq::empty());
        lemma_canon_container(cs2[0], Seq::empty());
    }
    assert(isomorphic(cs2));
    assert forall|v: int| 0 <= v < cs2.len() implies same_shape(cs2[0], #[trigger] cs2[v]) by {
        let ts = read_types(cs);
        assert forall|i: int, j: int| 0 <= i < cs2[0].cont.len() && 0 <= j < cs2[0].cont[i].element.len() implies #[trigger] cs2[v].cont[i].element[j].lines.len()
            == cs2[0].cont[i].element[j].lines.len() by {
        }
    }
    assert(shaped(cs2));
}


/// The types of the template of a family read back are what was read back
/// of the types of the template.
pub proof fn lemma_read_template(cs: Seq<ContainerView>)
    requires
        cs.len() >= 1,
        small_palette(cs),
    ensures
        template_of(read_back(cs)).cont.len() == template_of(cs).cont.len(),
        template_of(read_back(cs)).colors.value.len() == template_of(cs).colors.value.len(),
        forall|m: int| 0 <= m < template_of(cs).colors.value.len() ==> #[trigger] template_of(read_back(cs)).colors.value[m].name
            == template_of(cs).colors.value[m].name,
        forall|t: int| 0 <= t < template_of(cs).cont.len() ==> (#[trigger] template_of(read_back(cs)).cont[t]).name
            == template_of(cs).cont[t].name && template_of(read_back(cs)).cont[t].element.len() == template_of(cs).cont[t].element.len(),
        forall|t: int, j: int| 0 <= t < template_of(cs).cont.len() && 0 <= j < template_of(cs).cont[t].element.len()
            ==> #[trigger] template_of(read_back(cs)).cont[t].element[j] == norm_element(template_of(cs).cont[t].element[j]),
{
    lemma_template_indices(cs);
    lemma_read_keys(cs);
    lemma_template_indices(read_back(cs));
    assert forall|t: int| 0 <= t < template_of(cs).cont.len() implies (#[trigger] template_of(read_back(cs)).cont[t]).name
        == template_of(cs).cont[t].name && template_of(read_back(cs)).cont[t].element.len() == template_of(cs).cont[t].element.len() by {
        lemma_read_type_elements(cs, 0, t);
        reveal(filled);
    }
    assert forall|t: int, j: int| 0 <= t < template_of(cs).cont.len() && 0 <= j < template_of(cs).cont[t].element.len()
        implies #[trigger] template_of(read_back(cs)).cont[t].element[j] == norm_element(template_of(cs).cont[t].element[j]) by {
        lemma_read_template_element(cs, t, j);
    }
}

/// A family read back refers to the strings of the family.
pub proof fn lemma_read_refs(cs: Seq<ContainerView>)
    requires
        cs.len() >= 1,
        small_palette(cs),
    ensures
        container_refs(template_of(read_back(cs))) == container_refs(template_of(cs)),
        string_table(template_of(read_back(cs))) == string_table(template_of(cs)),
{
    let t1 = template_of(cs);
    let t2 = template_of(read_back(cs));
    lemma_read_template(cs);
    assert forall|i: int| 0 <= i < t1.cont.len() implies #[trigger] classif_refs(t2.cont[i]) == classif_refs(t1.cont[i]) by {
        assert forall|j: int| 0 <= j < t1.cont[i].element.len() implies #[trigger] element_refs(t2.cont[i].element[j]) == element_refs(
            t1.cont[i].element[j],
        ) by {
            lemma_element_refs(t1.cont[i].element[j]);
        }
        assert(Seq::new(t2.cont[i].element.len(), |j: int| element_refs(t2.cont[i].element[j])) =~= Seq::new(
            t1.cont[i].element.len(),
            |j: int| element_refs(t1.cont[i].element[j]),
        ));
    }
    assert(Seq::new(t2.cont.len(), |i: int| classif_refs(t2.cont[i])) =~= Seq::new(t1.cont.len(), |i: int| classif_refs(t1.cont[i])));
    assert(Seq::new(t2.colors.value.len(), |m: int| t2.colors.value[m].name) =~= Seq::new(
        t1.colors.value.len(),
        |m: int| t1.colors.value[m].name,
    ));
}

proof fn lemma_classif_count(a: ClassifElementView, b: ClassifElementView, w: int, n: nat)
    requires
        n <= a.element.len(),
        n <= b.element.len(),
        forall|j: int| 0 <= j < n ==> #[trigger] kind_count(a.element[j], w) == kind_count(b.element[j], w),
    ensures
        classif_count(a, w, n) == classif_count(b, w, n),
    decreases n,
{
    if n > 0 {
        lemma_classif_count(a, b, w, (n - 1) as nat);
    }
}

proof fn lemma_types_count(cs: Seq<ContainerView>, w: int, n: nat)
    requires
        cs.len() >= 1,
        small_palette(cs),
        n <= template_of(cs).cont.len(),
    ensures
        types_count(template_of(read_back(cs)), w, n) == types_count(template_of(cs), w, n),
    decreases n,
{
    if n > 0 {
        lemma_types_count(cs, w, (n - 1) as nat);
        lemma_read_template(cs);
        let i = n - 1;
        let t1 = template_of(cs).cont[i];
        let t2 = template_of(read_back(cs)).cont[i];
        assert(t2.element.len() == t1.element.len());
        assert forall|j: int| 0 <= j < t1.element.len() implies #[trigger] kind_count(t2.element[j], w) == kind_count(t1.element[j], w) by {
            assert(t2.element[j] == norm_element(t1.element[j]));
        }
        lemma_classif_count(t2, t1, w, t1.element.len());
    }
}

/// A family read back packs to the same blob.
pub proof fn lemma_read_sections(cs: Seq<ContainerView>)
    requires
        cs.len() >= 1,
        small_palette(cs),
    ensures
        ({
            let t1 = template_of(cs);
            let t2 = template_of(read_back(cs));
            let tab = string_table(t1);
            &&& enc_named(t2, slot_indices(read_back(cs)), string_table(t2)) == enc_named(t1, slot_indices(cs), tab)
            &&& enc_counts(t2) == enc_counts(t1)
            &&& enc_types(t2, string_table(t2)) == enc_types(t1, tab)
        }),
{
    let t1 = template_of(cs);
    let t2 = template_of(read_back(cs));
    let tab = string_table(t1);
    lemma_read_template(cs);
    lemma_read_refs(cs);
    lemma_read_keys(cs);
    let ix = slot_indices(cs);
    assert(Seq::new(
        t2.colors.value.len(),
        |m: int| crate::wire::enc_varuint(sidx(tab, t2.colors.value[m].name)) + crate::wire::enc_varuint(ix[m] as nat),
    ) =~= Seq::new(
        t1.colors.value.len(),
        |m: int| crate::wire::enc_varuint(sidx(tab, t1.colors.value[m].name)) + crate::wire::enc_varuint(ix[m] as nat),
    ));
    assert forall|w: int| 0 <= w < 6 implies #[trigger] types_count(t2, w, t2.cont.len()) == types_count(t1, w, t1.cont.len()) by {
        lemma_types_count(cs, w, t1.cont.len());
    }
    assert(Seq::new(6, |w: int| crate::wire::enc_varuint(types_count(t2, w, t2.cont.len()) % vstd::arithmetic::power2::pow2(64)))
        =~= Seq::new(6, |w: int| crate::wire::enc_varuint(types_count(t1, w, t1.cont.len()) % vstd::arithmetic::power2::pow2(64))));
    let a = t2.cont.map_values(|c: ClassifElementView| enc_classif(c, tab));
    let b = t1.cont.map_values(|c: ClassifElementView| enc_classif(c, tab));
    assert forall|i: int| 0 <= i < t1.cont.len() implies #[trigger] a[i] == b[i] by {
        let ea = t2.cont[i].element.map_values(|e: DrawElementView| enc_element(e, tab));
        let eb = t1.cont[i].element.map_values(|e: DrawElementView| enc_element(e, tab));
        assert forall|j: int| 0 <= j < t1.cont[i].element.len() implies #[trigger] ea[j] == eb[j] by {
            lemma_element_bytes(t1.cont[i].element[j], tab);
        }
        assert(ea =~= eb);
    }
    assert(a =~= b);
}

/// Reading a family back and packing what was read gives the same blob.
pub proof fn lemma_repack(cs: Seq<ContainerView>, names: Seq<Seq<char>>)
    requires
        pack_error(cs, names) is None,
        small_palette(cs),
    ensures
        pack_error(read_back(cs), names) is None,
        family_blob(read_back(cs), names) == family_blob(cs, names),
{
    lemma_read_packable(cs, names);
    lemma_read_refs(cs);
    lemma_read_keys(cs);
    lemma_read_sections(cs);
}


/// Writing a family of variants and reading the blob back gives the variant
/// names and, per variant, a container that holds the variant's own color
/// at every palette slot and the variant's named color names; packing what
/// was read writes the very same blob again.
pub proof fn lemma_binary_roundtrip(cs: Seq<ContainerView>, names: Seq<Seq<char>>)
    requires
        pack_error(cs, names) is None,
        family_blob(cs, names).len() <= usize::MAX,
        small_palette(cs),
    ensures
        match parse_blob(family_blob(cs, names)) {
            Ok((ns, cs2)) => {
                &&& ns == names
                &&& cs2.len() == cs.len()
                &&& forall|v: int| 0 <= v < cs.len() ==> container_slots(cs2[0], #[trigger] cs2[v]) == container_slots(cs[0], cs[v])
                &&& forall|v: int, m: int| 0 <= v < cs.len() && 0 <= m < cs[0].colors.value.len() ==> (#[trigger] cs2[v].colors.value[m]).name
                    == cs[0].colors.value[m].name
                &&& pack_error(cs2, ns) is None
                &&& family_blob(cs2, ns) == family_blob(cs, names)
            },
            Err(_) => false,
        },
{
    lemma_parse_packed(cs, names);
    lemma_repack(cs, names);
    assert forall|v: int| 0 <= v < cs.len() implies container_slots(read_back(cs)[0], #[trigger] read_back(cs)[v]) == container_slots(
        cs[0],
        cs[v],
    ) by {
        lemma_read_slots(cs, v);
    }
}

} // verus!
