//! Writing a family of variants in the native drawing-rules format.
//!
//! The blob is `OMDR`, the format version, the variant count and names, and
//! six length-prefixed sections: the string table, the color table, the named
//! colors, the per-kind rule counts, the types with their drawing elements,
//! and the (always empty) per-variant overrides. Strings are written as
//! indices into the string table, which holds the empty string first and then
//! every referenced string in order of first reference; colors are written as
//! palette indices.

use vstd::prelude::*;
use vstd::arithmetic::power2::pow2;
use crate::model::{DashDot, PathSym, LineDef, LineRule, AreaRule, SymbolRule, CaptionDef, CaptionRule, ShieldRule, DrawElement, ClassifElement, Container, DashDotView, PathSymView, LineDefView, LineRuleView, AreaRuleView, SymbolRuleView, CaptionDefView, CaptionRuleView, ShieldRuleView, DrawElementView, ClassifElementView, ContainerView};
use crate::seqs::{flat, dedup, first_index, is_first, lemma_flat_new_push, lemma_flat_push, lemma_first_index};
use crate::canonical::texts;
use crate::wire::{enc_varuint, enc_u32, enc_string, zigzag, write_varuint, write_varint, write_u32, write_string};
use crate::ieee::{f64_to_f32_bits, f64_bits_to_f32_bits};
use crate::canonical::{FloatTexts, canon_container};
use crate::palette::{same_shape, shapes_agree, template_of, palette_of, slot_indices, container_views, key_views, index_family, palette_keys};
use vstd::string::StringExecFns;

verus! {

// ------------------------------------------------------------------ string references

/// The string table index of `s`: its first position in `tab`, or the
/// table's length when it is missing.
pub open spec fn sidx(tab: Seq<Seq<char>>, s: Seq<char>) -> nat {
    if tab.contains(s) {
        first_index(tab, s) as nat
    } else {
        tab.len()
    }
}

pub open spec fn pathsym_refs(p: PathSymView) -> Seq<Seq<char>> {
    if p.is_set() {
        seq![p.name]
    } else {
        Seq::empty()
    }
}

pub open spec fn caption_refs(c: CaptionRuleView) -> Seq<Seq<char>> {
    if c.is_set() {
        (if c.primary.is_set() { seq![c.primary.text] } else { Seq::empty() })
            + (if c.secondary.is_set() { seq![c.secondary.text] } else { Seq::empty() })
    } else {
        Seq::empty()
    }
}

/// The strings an element refers to, in writing order.
pub open spec fn element_refs(e: DrawElementView) -> Seq<Seq<char>> {
    e.apply_if + flat(Seq::new(e.lines.len(), |k: int| pathsym_refs(e.lines[k].pathsym)))
        + (if e.area.is_set() && e.area.border.is_set() { pathsym_refs(e.area.border.pathsym) } else { Seq::empty() })
        + (if e.symbol.is_set() { seq![e.symbol.name] } else { Seq::empty() })
        + caption_refs(e.caption) + caption_refs(e.path_text)
}

pub open spec fn classif_refs(c: ClassifElementView) -> Seq<Seq<char>> {
    seq![c.name] + flat(Seq::new(c.element.len(), |j: int| element_refs(c.element[j])))
}

/// The strings a container refers to, in writing order: the types section
/// first, then the names of the named colors.
pub open spec fn container_refs(t: ContainerView) -> Seq<Seq<char>> {
    flat(Seq::new(t.cont.len(), |i: int| classif_refs(t.cont[i])))
        + Seq::new(t.colors.value.len(), |m: int| t.colors.value[m].name)
}

/// The string table of a container.
pub open spec fn string_table(t: ContainerView) -> Seq<Seq<char>> {
    dedup(seq![Seq::<char>::empty()] + container_refs(t))
}

/// The string table index of `s`.
pub fn string_index(tab: &Vec<String>, s: &String) -> (r: usize)
    ensures
        r == sidx(texts(tab@), s@),
{
    assert(texts(tab@).len() == tab@.len());
    for i in 0..tab.len()
        invariant
            texts(tab@).len() == tab@.len(),
            forall|j: int| 0 <= j < i ==> texts(tab@)[j] != s@,
    {
        assert(texts(tab@)[i as int] == tab@[i as int]@);
        if tab[i] == *s {
            proof {
                lemma_first_index(texts(tab@), s@, i as int);
            }
            return i;
        }
    }
    assert(!texts(tab@).contains(s@));
    tab.len()
}

/// Adds `s` to the table unless it is there already.
fn intern(tab: &mut Vec<String>, s: &String)
    ensures
        texts(final(tab)@) == (if texts(old(tab)@).contains(s@) { texts(old(tab)@) } else { texts(old(tab)@).push(s@) }),
{
    let i = string_index(tab, s);
    proof {
        if texts(tab@).contains(s@) {
            crate::seqs::lemma_has_first(texts(tab@), s@);
        }
    }
    if i == tab.len() {
        assert(!texts(tab@).contains(s@));
        tab.push(s.clone());
        assert(texts(tab@) =~= texts(old(tab)@).push(s@));
    }
}

/// `tab` with the strings of `refs` interned in order.
pub open spec fn interned(tab: Seq<Seq<char>>, refs: Seq<Seq<char>>) -> Seq<Seq<char>>
    decreases refs.len(),
{
    if refs.len() == 0 {
        tab
    } else {
        let t = interned(tab, refs.drop_last());
        if t.contains(refs.last()) {
            t
        } else {
            t.push(refs.last())
        }
    }
}

pub proof fn lemma_interned_one(tab: Seq<Seq<char>>, x: Seq<char>)
    ensures
        interned(tab, seq![x]) == (if tab.contains(x) { tab } else { tab.push(x) }),
{
    assert(seq![x].drop_last() =~= Seq::<Seq<char>>::empty());
    reveal_with_fuel(interned, 2);
}

pub proof fn lemma_interned_empty(tab: Seq<Seq<char>>)
    ensures
        interned(tab, Seq::empty()) == tab,
{
}

/// Interning after a prefix is interning the whole.
pub proof fn lemma_interned_concat(tab: Seq<Seq<char>>, a: Seq<Seq<char>>, b: Seq<Seq<char>>)
    ensures
        interned(interned(tab, a), b) == interned(tab, a + b),
    decreases b.len(),
{
    if b.len() == 0 {
        assert(a + b =~= a);
    } else {
        lemma_interned_concat(tab, a, b.drop_last());
        assert((a + b).drop_last() =~= a + b.drop_last());
        assert((a + b).last() == b.last());
    }
}

/// Interning into nothing is de-duplication.
pub proof fn lemma_interned_dedup(refs: Seq<Seq<char>>)
    ensures
        interned(Seq::empty(), refs) == dedup(refs),
    decreases refs.len(),
{
    if refs.len() > 0 {
        lemma_interned_dedup(refs.drop_last());
    }
}

fn intern_pathsym(tab: &mut Vec<String>, p: &PathSym)
    ensures
        texts(final(tab)@) == interned(texts(old(tab)@), pathsym_refs(p@)),
{
    proof {
        lemma_interned_one(texts(tab@), p@.name);
        lemma_interned_empty(texts(tab@));
    }
    if p.is_set() {
        intern(tab, &p.name);
    }
}

fn intern_caption(tab: &mut Vec<String>, c: &CaptionRule)
    ensures
        texts(final(tab)@) == interned(texts(old(tab)@), caption_refs(c@)),
{
    let ghost t0 = texts(tab@);
    proof {
        lemma_interned_empty(t0);
    }
    if c.is_set() {
        let ghost pr = if c@.primary.is_set() { seq![c@.primary.text] } else { Seq::<Seq<char>>::empty() };
        let ghost sr = if c@.secondary.is_set() { seq![c@.secondary.text] } else { Seq::<Seq<char>>::empty() };
        proof {
            lemma_interned_one(t0, c@.primary.text);
            lemma_interned_empty(t0);
        }
        if c.primary.is_set() {
            intern(tab, &c.primary.text);
        }
        assert(texts(tab@) == interned(t0, pr));
        let ghost t1 = texts(tab@);
        proof {
            lemma_interned_one(t1, c@.secondary.text);
            lemma_interned_empty(t1);
        }
        if c.secondary.is_set() {
            intern(tab, &c.secondary.text);
        }
        assert(texts(tab@) == interned(t1, sr));
        proof {
            lemma_interned_concat(t0, pr, sr);
        }
    }
}

fn intern_element(tab: &mut Vec<String>, e: &DrawElement)
    ensures
        texts(final(tab)@) == interned(texts(old(tab)@), element_refs(e@)),
{
    let ghost t0 = texts(tab@);
    let ghost ev = e@;
    for k in 0..e.apply_if.len()
        invariant
            ev == e@,
            texts(tab@) == interned(t0, ev.apply_if.take(k as int)),
    {
        intern(tab, &e.apply_if[k]);
        assert(ev.apply_if.take(k as int + 1).drop_last() =~= ev.apply_if.take(k as int));
    }
    assert(ev.apply_if.take(ev.apply_if.len() as int) =~= ev.apply_if);
    let ghost t1 = texts(tab@);
    let ghost lr = |k: int| pathsym_refs(ev.lines[k].pathsym);
    assert(flat(Seq::new(0, lr)) =~= Seq::<Seq<char>>::empty());
    for k in 0..e.lines.len()
        invariant
            ev == e@,
            lr == (|k: int| pathsym_refs(ev.lines[k].pathsym)),
            texts(tab@) == interned(t1, flat(Seq::new(k as nat, lr))),
    {
        let ghost before = texts(tab@);
        intern_pathsym(tab, &e.lines[k].pathsym);
        proof {
            lemma_interned_concat(t1, flat(Seq::new(k as nat, lr)), lr(k as int));
            lemma_flat_new_push(k as nat, lr);
        }
    }
    let ghost t2 = texts(tab@);
    if e.area.is_set() && e.area.border.is_set() {
        intern_pathsym(tab, &e.area.border.pathsym);
    }
    let ghost t3 = texts(tab@);
    proof {
        lemma_interned_one(t3, ev.symbol.name);
        lemma_interned_empty(t3);
        lemma_interned_empty(t2);
    }
    if e.symbol.is_set() {
        intern(tab, &e.symbol.name);
    }
    let ghost t4 = texts(tab@);
    intern_caption(tab, &e.caption);
    let ghost t5 = texts(tab@);
    intern_caption(tab, &e.path_text);
    proof {
        let a = ev.apply_if;
        let l = flat(Seq::new(ev.lines.len(), lr));
        let b = if ev.area.is_set() && ev.area.border.is_set() { pathsym_refs(ev.area.border.pathsym) } else { Seq::empty() };
        let s = if ev.symbol.is_set() { seq![ev.symbol.name] } else { Seq::empty() };
        let c = caption_refs(ev.caption);
        let p = caption_refs(ev.path_text);
        assert(t2 == interned(t1, l));
        assert(t3 == interned(t2, b));
        assert(t4 == interned(t3, s));
        assert(t5 == interned(t4, c));
        lemma_interned_concat(t0, a, l);
        lemma_interned_concat(t0, a + l, b);
        lemma_interned_concat(t0, a + l + b, s);
        lemma_interned_concat(t0, a + l + b + s, c);
        lemma_interned_concat(t0, a + l + b + s + c, p);
        assert(element_refs(ev) == a + l + b + s + c + p);
    }
}

fn intern_classif(tab: &mut Vec<String>, c: &ClassifElement)
    ensures
        texts(final(tab)@) == interned(texts(old(tab)@), classif_refs(c@)),
{
    let ghost t0 = texts(tab@);
    let ghost cv = c@;
    proof {
        lemma_interned_one(t0, cv.name);
    }
    intern(tab, &c.name);
    let ghost t1 = texts(tab@);
    let ghost er = |j: int| element_refs(cv.element[j]);
    assert(flat(Seq::new(0, er)) =~= Seq::<Seq<char>>::empty());
    for j in 0..c.element.len()
        invariant
            cv == c@,
            er == (|j: int| element_refs(cv.element[j])),
            texts(tab@) == interned(t1, flat(Seq::new(j as nat, er))),
    {
        intern_element(tab, &c.element[j]);
        proof {
            lemma_interned_concat(t1, flat(Seq::new(j as nat, er)), er(j as int));
            lemma_flat_new_push(j as nat, er);
        }
    }
    proof {
        lemma_interned_concat(t0, seq![cv.name], flat(Seq::new(cv.element.len(), er)));
    }
}

/// The string table of a container: the empty string, then every string it
/// refers to in order of first reference.
pub fn build_string_table(t: &Container) -> (r: Vec<String>)
    ensures
        texts(r@) == string_table(t@),
{
    let ghost tv = t@;
    let mut tab: Vec<String> = Vec::new();
    tab.push(String::new());
    let ghost t0 = texts(tab@);
    assert(t0 == interned(Seq::empty(), seq![Seq::<char>::empty()])) by {
        lemma_interned_one(Seq::empty(), Seq::<char>::empty());
        assert(texts(tab@) =~= seq![Seq::<char>::empty()]);
        assert(Seq::<Seq<char>>::empty().push(Seq::<char>::empty()) =~= seq![Seq::<char>::empty()]);
    }
    let ghost cr = |i: int| classif_refs(tv.cont[i]);
    assert(flat(Seq::new(0, cr)) =~= Seq::<Seq<char>>::empty());
    for i in 0..t.cont.len()
        invariant
            tv == t@,
            cr == (|i: int| classif_refs(tv.cont[i])),
            texts(tab@) == interned(t0, flat(Seq::new(i as nat, cr))),
    {
        intern_classif(&mut tab, &t.cont[i]);
        proof {
            lemma_interned_concat(t0, flat(Seq::new(i as nat, cr)), cr(i as int));
            lemma_flat_new_push(i as nat, cr);
        }
    }
    let ghost t1 = texts(tab@);
    let ghost names = Seq::new(tv.colors.value.len(), |m: int| tv.colors.value[m].name);
    for m in 0..t.colors.value.len()
        invariant
            tv == t@,
            names == Seq::new(tv.colors.value.len(), |m: int| tv.colors.value[m].name),
            texts(tab@) == interned(t1, names.take(m as int)),
    {
        intern(&mut tab, &t.colors.value[m].name);
        assert(names.take(m as int + 1).drop_last() =~= names.take(m as int));
    }
    assert(names.take(names.len() as int) =~= names);
    proof {
        let types = flat(Seq::new(tv.cont.len(), cr));
        lemma_interned_concat(t0, types, names);
        lemma_interned_concat(Seq::empty(), seq![Seq::<char>::empty()], types + names);
        lemma_interned_dedup(seq![Seq::<char>::empty()] + (types + names));
        assert(container_refs(tv) == types + names);
    }
    tab
}


// ------------------------------------------------------------------ encodings

/// `flat` of a longer prefix appends the next piece.
pub proof fn lemma_flat_take_push<T>(s: Seq<Seq<T>>, i: int)
    requires
        0 <= i < s.len(),
    ensures
        flat(s.take(i + 1)) == flat(s.take(i)) + s[i],
{
    assert(s.take(i + 1) =~= s.take(i).push(s[i]));
    lemma_flat_push(s.take(i), s[i]);
}

/// The little-endian `f32` bytes of a real given by its binary64 bit pattern.
pub open spec fn f32_bytes(b: u64) -> Seq<u8> {
    enc_u32(f64_to_f32_bits(b))
}

/// The ZigZag varint of a signed value.
pub open spec fn enc_int(v: int) -> Seq<u8> {
    enc_varuint(zigzag(v))
}

fn write_f32(out: &mut Vec<u8>, b: u64)
    ensures
        final(out)@ == old(out)@ + f32_bytes(b),
{
    write_u32(out, f64_bits_to_f32_bits(b));
}

fn write_int(out: &mut Vec<u8>, v: i32)
    ensures
        final(out)@ == old(out)@ + enc_int(v as int),
{
    write_varint(out, v as i64);
}

#[verifier::opaque]
pub open spec fn enc_dashdot(d: DashDotView) -> Seq<u8> {
    enc_varuint(d.dd.len()) + flat(d.dd.map_values(|x: u64| f32_bytes(x))) + f32_bytes(d.offset)
}

pub open spec fn line_flags(d: DashDotView, p: PathSymView) -> u8 {
    ((if d.dd.len() > 0 { 1int } else { 0int }) + (if p.is_set() { 2int } else { 0int })) as u8
}

/// The fixed part of a line: flags, width, color, the priority where lines
/// carry one, join and cap.
#[verifier::opaque]
pub open spec fn line_head(flags: u8, width: u64, color: u32, prio: Option<i32>, join: u8, cap: u8) -> Seq<u8> {
    seq![flags] + f32_bytes(width) + enc_varuint(color as nat) + (match prio {
        Some(v) => enc_int(v as int),
        None => Seq::empty(),
    }) + seq![join, cap]
}

/// The optional part of a line: the dash pattern and the path symbol.
#[verifier::opaque]
pub open spec fn line_tail(d: DashDotView, p: PathSymView, tab: Seq<Seq<char>>) -> Seq<u8> {
    (if d.dd.len() > 0 { enc_dashdot(d) } else { Seq::empty() }) + (if p.is_set() {
        enc_varuint(sidx(tab, p.name)) + f32_bytes(p.step) + f32_bytes(p.offset)
    } else {
        Seq::empty()
    })
}

/// A line: flags, width, color, the priority where lines carry one, join,
/// cap, then the dash pattern and the path symbol where present.
pub open spec fn enc_line(
    width: u64,
    color: u32,
    prio: Option<i32>,
    join: u8,
    cap: u8,
    d: DashDotView,
    p: PathSymView,
    tab: Seq<Seq<char>>,
) -> Seq<u8> {
    line_head(line_flags(d, p), width, color, prio, join, cap) + line_tail(d, p, tab)
}

pub open spec fn enc_line_rule(l: LineRuleView, tab: Seq<Seq<char>>) -> Seq<u8> {
    enc_line(l.width, l.color, Some(l.priority), l.join, l.cap, l.dashdot, l.pathsym, tab)
}

pub open spec fn enc_line_def(l: LineDefView, tab: Seq<Seq<char>>) -> Seq<u8> {
    enc_line(l.width, l.color, None, l.join, l.cap, l.dashdot, l.pathsym, tab)
}

fn emit_dashdot(out: &mut Vec<u8>, d: &DashDot)
    ensures
        final(out)@ == old(out)@ + enc_dashdot(d@),
{
    reveal(enc_dashdot);
    let ghost start = out@;
    write_varuint(out, d.dd.len() as u64);
    let ghost mid = out@;
    let ghost pieces = d@.dd.map_values(|x: u64| f32_bytes(x));
    assert(pieces.take(0) =~= Seq::<Seq<u8>>::empty());
    for i in 0..d.dd.len()
        invariant
            pieces == d@.dd.map_values(|x: u64| f32_bytes(x)),
            out@ == mid + flat(pieces.take(i as int)),
    {
        write_f32(out, d.dd[i]);
        proof {
            lemma_flat_take_push(pieces, i as int);
        }
        assert(out@ =~= mid + flat(pieces.take(i as int + 1)));
    }
    assert(pieces.take(d.dd.len() as int) =~= pieces);
    write_f32(out, d.offset);
    assert(out@ =~= start + enc_dashdot(d@));
}

fn emit_line_head(out: &mut Vec<u8>, flags: u8, width: u64, color: u32, prio: Option<i32>, join: u8, cap: u8)
    ensures
        final(out)@ == old(out)@ + line_head(flags, width, color, prio, join, cap),
{
    reveal(line_head);
    let ghost start = out@;
    out.push(flags);
    write_f32(out, width);
    write_varuint(out, color as u64);
    let ghost a = out@;
    match prio {
        Some(v) => write_int(out, v),
        None => {},
    }
    let ghost b = out@;
    out.push(join);
    out.push(cap);
    assert(out@ =~= b + seq![join, cap]);
    assert(out@ =~= start + line_head(flags, width, color, prio, join, cap));
}

fn emit_line_tail(out: &mut Vec<u8>, d: &DashDot, p: &PathSym, tab: &Vec<String>)
    ensures
        final(out)@ == old(out)@ + line_tail(d@, p@, texts(tab@)),
{
    reveal(line_tail);
    let ghost start = out@;
    if d.dd.len() > 0 {
        emit_dashdot(out, d);
    }
    let ghost e = out@;
    if p.is_set() {
        let i = string_index(tab, &p.name);
        write_varuint(out, i as u64);
        write_f32(out, p.step);
        write_f32(out, p.offset);
    }
    assert(out@ =~= start + line_tail(d@, p@, texts(tab@)));
}

fn emit_line(
    out: &mut Vec<u8>,
    width: u64,
    color: u32,
    prio: Option<i32>,
    join: u8,
    cap: u8,
    d: &DashDot,
    p: &PathSym,
    tab: &Vec<String>,
)
    ensures
        final(out)@ == old(out)@ + enc_line(width, color, prio, join, cap, d@, p@, texts(tab@)),
{
    let flags: u8 = (if d.dd.len() > 0 { 1u8 } else { 0u8 }) + (if p.is_set() { 2u8 } else { 0u8 });
    assert(flags == line_flags(d@, p@));
    emit_line_head(out, flags, width, color, prio, join, cap);
    emit_line_tail(out, d, p, tab);
    assert(out@ =~= old(out)@ + enc_line(width, color, prio, join, cap, d@, p@, texts(tab@)));
}

#[verifier::opaque]
pub open spec fn enc_caption_def(d: CaptionDefView, tab: Seq<Seq<char>>) -> Seq<u8> {
    enc_int(d.height as int) + enc_varuint(d.color as nat) + enc_varuint(d.stroke_color as nat) + enc_int(d.offset_x as int)
        + enc_int(d.offset_y as int) + enc_varuint(sidx(tab, d.text)) + seq![if d.is_optional { 1u8 } else { 0u8 }]
}

pub open spec fn caption_flags(c: CaptionRuleView) -> u8 {
    ((if c.primary.is_set() { 1int } else { 0int }) + (if c.secondary.is_set() { 2int } else { 0int })) as u8
}

/// A caption: flags, the primary and secondary definitions where set, and
/// the priority.
#[verifier::opaque]
pub open spec fn enc_caption(c: CaptionRuleView, tab: Seq<Seq<char>>) -> Seq<u8> {
    seq![caption_flags(c)] + (if c.primary.is_set() { enc_caption_def(c.primary, tab) } else { Seq::empty() })
        + (if c.secondary.is_set() { enc_caption_def(c.secondary, tab) } else { Seq::empty() }) + enc_int(c.priority as int)
}

fn emit_caption_def(out: &mut Vec<u8>, d: &CaptionDef, tab: &Vec<String>)
    ensures
        final(out)@ == old(out)@ + enc_caption_def(d@, texts(tab@)),
{
    reveal(enc_caption_def);
    let ghost start = out@;
    write_int(out, d.height);
    write_varuint(out, d.color as u64);
    write_varuint(out, d.stroke_color as u64);
    write_int(out, d.offset_x);
    write_int(out, d.offset_y);
    let i = string_index(tab, &d.text);
    write_varuint(out, i as u64);
    out.push(if d.is_optional { 1u8 } else { 0u8 });
    assert(out@ =~= start + enc_caption_def(d@, texts(tab@)));
}

fn emit_caption(out: &mut Vec<u8>, c: &CaptionRule, tab: &Vec<String>)
    ensures
        final(out)@ == old(out)@ + enc_caption(c@, texts(tab@)),
{
    reveal(enc_caption);
    let ghost start = out@;
    let p = c.primary.is_set();
    let q = c.secondary.is_set();
    out.push((if p { 1u8 } else { 0u8 }) + (if q { 2u8 } else { 0u8 }));
    let ghost a = out@;
    if p {
        emit_caption_def(out, &c.primary, tab);
    }
    let ghost b = out@;
    if q {
        emit_caption_def(out, &c.secondary, tab);
    }
    let ghost d = out@;
    write_int(out, c.priority);
    assert(out@ =~= start + enc_caption(c@, texts(tab@)));
}

pub open spec fn element_kind(e: DrawElementView) -> u8 {
    ((if e.lines.len() > 0 { 1int } else { 0int }) + (if e.area.is_set() { 2int } else { 0int })
        + (if e.symbol.is_set() { 4int } else { 0int }) + (if e.caption.is_set() { 8int } else { 0int })
        + (if e.path_text.is_set() { 16int } else { 0int }) + (if e.shield.is_set() { 32int } else { 0int })) as u8
}

#[verifier::opaque]
pub open spec fn enc_lines_part(e: DrawElementView, tab: Seq<Seq<char>>) -> Seq<u8> {
    if e.lines.len() > 0 {
        enc_varuint(e.lines.len()) + flat(e.lines.map_values(|l: LineRuleView| enc_line_rule(l, tab)))
    } else {
        Seq::empty()
    }
}

#[verifier::opaque]
pub open spec fn enc_area_part(a: AreaRuleView, tab: Seq<Seq<char>>) -> Seq<u8> {
    if a.is_set() {
        seq![if a.border.is_set() { 1u8 } else { 0u8 }] + enc_varuint(a.color as nat) + enc_int(a.priority as int)
            + (if a.border.is_set() { enc_line_def(a.border, tab) } else { Seq::empty() })
    } else {
        Seq::empty()
    }
}

#[verifier::opaque]
pub open spec fn enc_symbol_part(s: SymbolRuleView, tab: Seq<Seq<char>>) -> Seq<u8> {
    if s.is_set() {
        enc_varuint(sidx(tab, s.name)) + enc_int(s.apply_for_type as int) + enc_int(s.priority as int)
            + enc_int(s.min_distance as int)
    } else {
        Seq::empty()
    }
}

pub open spec fn enc_caption_part(c: CaptionRuleView, tab: Seq<Seq<char>>) -> Seq<u8> {
    if c.is_set() {
        enc_caption(c, tab)
    } else {
        Seq::empty()
    }
}

#[verifier::opaque]
pub open spec fn enc_shield_part(s: ShieldRuleView) -> Seq<u8> {
    if s.is_set() {
        enc_int(s.height as int) + enc_varuint(s.color as nat) + enc_varuint(s.stroke_color as nat) + enc_int(s.priority as int)
            + enc_int(s.min_distance as int) + enc_varuint(s.text_color as nat) + enc_varuint(s.text_stroke_color as nat)
    } else {
        Seq::empty()
    }
}

/// A drawing element: scale, the `apply_if` strings, the kinds present,
/// then each present kind.
#[verifier::opaque]
pub open spec fn enc_element(e: DrawElementView, tab: Seq<Seq<char>>) -> Seq<u8> {
    seq![e.scale] + enc_varuint(e.apply_if.len()) + flat(e.apply_if.map_values(|s: Seq<char>| enc_varuint(sidx(tab, s))))
        + seq![element_kind(e)] + enc_lines_part(e, tab) + enc_area_part(e.area, tab) + enc_symbol_part(e.symbol, tab)
        + enc_caption_part(e.caption, tab) + enc_caption_part(e.path_text, tab) + enc_shield_part(e.shield)
}

fn emit_lines_part(out: &mut Vec<u8>, e: &DrawElement, tab: &Vec<String>)
    ensures
        final(out)@ == old(out)@ + enc_lines_part(e@, texts(tab@)),
{
    reveal(enc_lines_part);
    let ghost start = out@;
    if e.lines.len() > 0 {
        write_varuint(out, e.lines.len() as u64);
        let ghost mid = out@;
        let ghost pieces = e@.lines.map_values(|l: LineRuleView| enc_line_rule(l, texts(tab@)));
        assert(pieces.take(0) =~= Seq::<Seq<u8>>::empty());
        for k in 0..e.lines.len()
            invariant
                pieces == e@.lines.map_values(|l: LineRuleView| enc_line_rule(l, texts(tab@))),
                out@ == mid + flat(pieces.take(k as int)),
        {
            let l = &e.lines[k];
            emit_line(out, l.width, l.color, Some(l.priority), l.join, l.cap, &l.dashdot, &l.pathsym, tab);
            proof {
                lemma_flat_take_push(pieces, k as int);
            }
            assert(out@ =~= mid + flat(pieces.take(k as int + 1)));
        }
        assert(pieces.take(e.lines.len() as int) =~= pieces);
    }
    assert(out@ =~= start + enc_lines_part(e@, texts(tab@)));
}

fn emit_area_part(out: &mut Vec<u8>, a: &AreaRule, tab: &Vec<String>)
    ensures
        final(out)@ == old(out)@ + enc_area_part(a@, texts(tab@)),
{
    reveal(enc_area_part);
    let ghost start = out@;
    if a.is_set() {
        let b = a.border.is_set();
        out.push(if b { 1u8 } else { 0u8 });
        write_varuint(out, a.color as u64);
        write_int(out, a.priority);
        let ghost mid = out@;
        if b {
            let l = &a.border;
            emit_line(out, l.width, l.color, None, l.join, l.cap, &l.dashdot, &l.pathsym, tab);
        }
    }
    assert(out@ =~= start + enc_area_part(a@, texts(tab@)));
}

fn emit_symbol_part(out: &mut Vec<u8>, s: &SymbolRule, tab: &Vec<String>)
    ensures
        final(out)@ == old(out)@ + enc_symbol_part(s@, texts(tab@)),
{
    reveal(enc_symbol_part);
    let ghost start = out@;
    if s.is_set() {
        let i = string_index(tab, &s.name);
        write_varuint(out, i as u64);
        write_int(out, s.apply_for_type);
        write_int(out, s.priority);
        write_int(out, s.min_distance);
    }
    assert(out@ =~= start + enc_symbol_part(s@, texts(tab@)));
}

fn emit_caption_part(out: &mut Vec<u8>, c: &CaptionRule, tab: &Vec<String>)
    ensures
        final(out)@ == old(out)@ + enc_caption_part(c@, texts(tab@)),
{
    let ghost start = out@;
    if c.is_set() {
        emit_caption(out, c, tab);
    }
    assert(out@ =~= start + enc_caption_part(c@, texts(tab@)));
}

fn emit_shield_part(out: &mut Vec<u8>, s: &ShieldRule)
    ensures
        final(out)@ == old(out)@ + enc_shield_part(s@),
{
    reveal(enc_shield_part);
    let ghost start = out@;
    if s.is_set() {
        write_int(out, s.height);
        write_varuint(out, s.color as u64);
        write_varuint(out, s.stroke_color as u64);
        write_int(out, s.priority);
        write_int(out, s.min_distance);
        write_varuint(out, s.text_color as u64);
        write_varuint(out, s.text_stroke_color as u64);
    }
    assert(out@ =~= start + enc_shield_part(s@));
}

fn element_kind_byte(e: &DrawElement) -> (r: u8)
    ensures
        r == element_kind(e@),
{
    (if e.lines.len() > 0 { 1u8 } else { 0u8 }) + (if e.area.is_set() { 2u8 } else { 0u8 })
        + (if e.symbol.is_set() { 4u8 } else { 0u8 }) + (if e.caption.is_set() { 8u8 } else { 0u8 })
        + (if e.path_text.is_set() { 16u8 } else { 0u8 }) + (if e.shield.is_set() { 32u8 } else { 0u8 })
}

fn emit_element(out: &mut Vec<u8>, e: &DrawElement, tab: &Vec<String>)
    ensures
        final(out)@ == old(out)@ + enc_element(e@, texts(tab@)),
{
    reveal(enc_element);
    let ghost start = out@;
    out.push(e.scale);
    write_varuint(out, e.apply_if.len() as u64);
    let ghost mid = out@;
    let ghost pieces = e@.apply_if.map_values(|s: Seq<char>| enc_varuint(sidx(texts(tab@), s)));
    assert(pieces.take(0) =~= Seq::<Seq<u8>>::empty());
    for k in 0..e.apply_if.len()
        invariant
            pieces == e@.apply_if.map_values(|s: Seq<char>| enc_varuint(sidx(texts(tab@), s))),
            out@ == mid + flat(pieces.take(k as int)),
    {
        let i = string_index(tab, &e.apply_if[k]);
        write_varuint(out, i as u64);
        proof {
            lemma_flat_take_push(pieces, k as int);
        }
        assert(out@ =~= mid + flat(pieces.take(k as int + 1)));
    }
    assert(pieces.take(e.apply_if.len() as int) =~= pieces);
    let ghost a = out@;
    out.push(element_kind_byte(e));
    let ghost b = out@;
    emit_lines_part(out, e, tab);
    let ghost c = out@;
    emit_area_part(out, &e.area, tab);
    let ghost d = out@;
    emit_symbol_part(out, &e.symbol, tab);
    let ghost f = out@;
    emit_caption_part(out, &e.caption, tab);
    let ghost g = out@;
    emit_caption_part(out, &e.path_text, tab);
    let ghost h = out@;
    emit_shield_part(out, &e.shield);
    assert(out@ =~= start + enc_element(e@, texts(tab@)));
}


pub open spec fn enc_classif(c: ClassifElementView, tab: Seq<Seq<char>>) -> Seq<u8> {
    enc_varuint(sidx(tab, c.name)) + enc_varuint(c.element.len()) + flat(c.element.map_values(|e: DrawElementView| enc_element(e, tab)))
}

/// The types section.
pub open spec fn enc_types(t: ContainerView, tab: Seq<Seq<char>>) -> Seq<u8> {
    enc_varuint(t.cont.len()) + flat(t.cont.map_values(|c: ClassifElementView| enc_classif(c, tab)))
}

fn emit_classif(out: &mut Vec<u8>, c: &ClassifElement, tab: &Vec<String>)
    ensures
        final(out)@ == old(out)@ + enc_classif(c@, texts(tab@)),
{
    let ghost start = out@;
    let i = string_index(tab, &c.name);
    write_varuint(out, i as u64);
    write_varuint(out, c.element.len() as u64);
    let ghost mid = out@;
    let ghost pieces = c@.element.map_values(|e: DrawElementView| enc_element(e, texts(tab@)));
    assert(pieces.take(0) =~= Seq::<Seq<u8>>::empty());
    for j in 0..c.element.len()
        invariant
            pieces == c@.element.map_values(|e: DrawElementView| enc_element(e, texts(tab@))),
            out@ == mid + flat(pieces.take(j as int)),
    {
        emit_element(out, &c.element[j], tab);
        proof {
            lemma_flat_take_push(pieces, j as int);
        }
        assert(out@ =~= mid + flat(pieces.take(j as int + 1)));
    }
    assert(pieces.take(c.element.len() as int) =~= pieces);
    assert(out@ =~= start + enc_classif(c@, texts(tab@)));
}

fn emit_types(out: &mut Vec<u8>, t: &Container, tab: &Vec<String>)
    ensures
        final(out)@ == old(out)@ + enc_types(t@, texts(tab@)),
{
    let ghost start = out@;
    write_varuint(out, t.cont.len() as u64);
    let ghost mid = out@;
    let ghost pieces = t@.cont.map_values(|c: ClassifElementView| enc_classif(c, texts(tab@)));
    assert(pieces.take(0) =~= Seq::<Seq<u8>>::empty());
    for i in 0..t.cont.len()
        invariant
            pieces == t@.cont.map_values(|c: ClassifElementView| enc_classif(c, texts(tab@))),
            out@ == mid + flat(pieces.take(i as int)),
    {
        emit_classif(out, &t.cont[i], tab);
        proof {
            lemma_flat_take_push(pieces, i as int);
        }
        assert(out@ =~= mid + flat(pieces.take(i as int + 1)));
    }
    assert(pieces.take(t.cont.len() as int) =~= pieces);
    assert(out@ =~= start + enc_types(t@, texts(tab@)));
}

/// The named colors section: each name's string index and palette index.
pub open spec fn enc_named(t: ContainerView, ix: Seq<int>, tab: Seq<Seq<char>>) -> Seq<u8> {
    enc_varuint(t.colors.value.len()) + flat(
        Seq::new(
            t.colors.value.len(),
            |m: int| enc_varuint(sidx(tab, t.colors.value[m].name)) + enc_varuint(ix[m] as nat),
        ),
    )
}

fn emit_named(out: &mut Vec<u8>, t: &Container, ix: &Vec<usize>, tab: &Vec<String>)
    requires
        t@.colors.value.len() <= ix@.len(),
    ensures
        final(out)@ == old(out)@ + enc_named(t@, ix@.map_values(|i: usize| i as int), texts(tab@)),
{
    let ghost start = out@;
    let ghost ixs = ix@.map_values(|i: usize| i as int);
    let ghost f = |m: int| enc_varuint(sidx(texts(tab@), t@.colors.value[m].name)) + enc_varuint(ixs[m] as nat);
    write_varuint(out, t.colors.value.len() as u64);
    let ghost mid = out@;
    assert(flat(Seq::new(0, f)) =~= Seq::<u8>::empty());
    for m in 0..t.colors.value.len()
        invariant
            t@.colors.value.len() <= ix@.len(),
            ixs == ix@.map_values(|i: usize| i as int),
            f == (|m: int| enc_varuint(sidx(texts(tab@), t@.colors.value[m].name)) + enc_varuint(ixs[m] as nat)),
            out@ == mid + flat(Seq::new(m as nat, f)),
    {
        let i = string_index(tab, &t.colors.value[m].name);
        write_varuint(out, i as u64);
        write_varuint(out, ix[m] as u64);
        proof {
            lemma_flat_new_push(m as nat, f);
        }
        assert(out@ =~= mid + flat(Seq::new((m + 1) as nat, f)));
    }
    assert(out@ =~= start + enc_named(t@, ixs, texts(tab@)));
}

/// The string table section.
pub open spec fn enc_strtab(tab: Seq<Seq<char>>) -> Seq<u8> {
    enc_varuint(tab.len()) + flat(tab.map_values(|s: Seq<char>| enc_string(s)))
}

fn emit_strtab(out: &mut Vec<u8>, tab: &Vec<String>)
    ensures
        final(out)@ == old(out)@ + enc_strtab(texts(tab@)),
{
    let ghost start = out@;
    write_varuint(out, tab.len() as u64);
    let ghost mid = out@;
    let ghost pieces = texts(tab@).map_values(|s: Seq<char>| enc_string(s));
    assert(pieces.take(0) =~= Seq::<Seq<u8>>::empty());
    for i in 0..tab.len()
        invariant
            pieces == texts(tab@).map_values(|s: Seq<char>| enc_string(s)),
            out@ == mid + flat(pieces.take(i as int)),
    {
        write_string(out, tab[i].as_str());
        proof {
            lemma_flat_take_push(pieces, i as int);
        }
        assert(out@ =~= mid + flat(pieces.take(i as int + 1)));
    }
    assert(pieces.take(tab.len() as int) =~= pieces);
    assert(out@ =~= start + enc_strtab(texts(tab@)));
}

/// The colors of variant `v`, one per palette entry.
pub open spec fn enc_variant_colors(pal: Seq<Seq<u32>>, v: int) -> Seq<u8> {
    flat(pal.map_values(|e: Seq<u32>| enc_u32(e[v])))
}

/// The color table section: the palette size, then every variant's colors.
pub open spec fn enc_colors(pal: Seq<Seq<u32>>, nv: nat) -> Seq<u8> {
    enc_varuint(pal.len()) + flat(Seq::new(nv, |v: int| enc_variant_colors(pal, v)))
}

fn emit_colors(out: &mut Vec<u8>, pal: &Vec<Vec<u32>>, nv: usize)
    requires
        forall|e: int| 0 <= e < pal@.len() ==> #[trigger] pal@[e]@.len() == nv,
    ensures
        final(out)@ == old(out)@ + enc_colors(crate::palette::key_views(pal@), nv as nat),
{
    let ghost kv = crate::palette::key_views(pal@);
    let ghost start = out@;
    write_varuint(out, pal.len() as u64);
    let ghost mid = out@;
    let ghost f = |v: int| enc_variant_colors(kv, v);
    assert(flat(Seq::new(0, f)) =~= Seq::<u8>::empty());
    for v in 0..nv
        invariant
            kv == crate::palette::key_views(pal@),
            f == (|v: int| enc_variant_colors(kv, v)),
            forall|e: int| 0 <= e < pal@.len() ==> #[trigger] pal@[e]@.len() == nv,
            out@ == mid + flat(Seq::new(v as nat, f)),
    {
        let ghost row = out@;
        let ghost pieces = kv.map_values(|e: Seq<u32>| enc_u32(e[v as int]));
        assert(pieces.take(0) =~= Seq::<Seq<u8>>::empty());
        for e in 0..pal.len()
            invariant
                kv == crate::palette::key_views(pal@),
                v < nv,
                forall|q: int| 0 <= q < pal@.len() ==> #[trigger] pal@[q]@.len() == nv,
                pieces == kv.map_values(|e: Seq<u32>| enc_u32(e[v as int])),
                out@ == row + flat(pieces.take(e as int)),
        {
            assert(pal@[e as int]@.len() == nv);
            write_u32(out, pal[e][v]);
            proof {
                lemma_flat_take_push(pieces, e as int);
            }
            assert(out@ =~= row + flat(pieces.take(e as int + 1)));
        }
        assert(pieces.take(pal.len() as int) =~= pieces);
        proof {
            lemma_flat_new_push(v as nat, f);
        }
        assert(out@ =~= mid + flat(Seq::new((v + 1) as nat, f)));
    }
    assert(out@ =~= start + enc_colors(kv, nv as nat));
}

// ------------------------------------------------------------------ rule counts

/// How many rules of kind `w` an element has (lines, area, symbol, caption,
/// path text, shield).
pub open spec fn kind_count(e: DrawElementView, w: int) -> nat {
    if w == 0 {
        e.lines.len()
    } else if w == 1 {
        if e.area.is_set() { 1 } else { 0 }
    } else if w == 2 {
        if e.symbol.is_set() { 1 } else { 0 }
    } else if w == 3 {
        if e.caption.is_set() { 1 } else { 0 }
    } else if w == 4 {
        if e.path_text.is_set() { 1 } else { 0 }
    } else {
        if e.shield.is_set() { 1 } else { 0 }
    }
}

pub open spec fn classif_count(c: ClassifElementView, w: int, n: nat) -> nat
    decreases n,
{
    if n == 0 {
        0
    } else {
        classif_count(c, w, (n - 1) as nat) + kind_count(c.element[n - 1], w)
    }
}

pub open spec fn types_count(t: ContainerView, w: int, n: nat) -> nat
    decreases n,
{
    if n == 0 {
        0
    } else {
        types_count(t, w, (n - 1) as nat) + classif_count(t.cont[n - 1], w, t.cont[n - 1].element.len())
    }
}

/// The rule counts section: the number of rules of each kind, modulo 2^64.
pub open spec fn enc_counts(t: ContainerView) -> Seq<u8> {
    flat(Seq::new(6, |w: int| enc_varuint(types_count(t, w, t.cont.len()) % pow2(64))))
}

fn kind_count_of(e: &DrawElement, w: usize) -> (r: u64)
    ensures
        r == kind_count(e@, w as int),
{
    if w == 0 {
        e.lines.len() as u64
    } else if w == 1 {
        if e.area.is_set() { 1 } else { 0 }
    } else if w == 2 {
        if e.symbol.is_set() { 1 } else { 0 }
    } else if w == 3 {
        if e.caption.is_set() { 1 } else { 0 }
    } else if w == 4 {
        if e.path_text.is_set() { 1 } else { 0 }
    } else {
        if e.shield.is_set() { 1 } else { 0 }
    }
}

fn add_mod(a: u64, b: u64, Ghost(x): Ghost<nat>, Ghost(y): Ghost<nat>) -> (r: u64)
    requires
        a == x % pow2(64),
        b == y,
    ensures
        r == (x + y) % pow2(64),
{
    proof {
        vstd::arithmetic::power2::lemma2_to64();
        vstd::arithmetic::div_mod::lemma_add_mod_noop(x as int, y as int, pow2(64) as int);
        vstd::arithmetic::div_mod::lemma_small_mod(y, pow2(64));
    }
    a.wrapping_add(b)
}

/// The number of rules of kind `w` in the template, modulo 2^64.
fn rule_count(t: &Container, w: usize) -> (r: u64)
    ensures
        r == types_count(t@, w as int, t@.cont.len()) % pow2(64),
{
    proof {
        vstd::arithmetic::power2::lemma2_to64();
    }
    let mut total: u64 = 0;
    for i in 0..t.cont.len()
        invariant
            total == types_count(t@, w as int, i as nat) % pow2(64),
    {
        let ghost before = types_count(t@, w as int, i as nat);
        let c = &t.cont[i];
        for j in 0..c.element.len()
            invariant
                c@ == t@.cont[i as int],
                total == (before + classif_count(c@, w as int, j as nat)) % pow2(64),
        {
            let k = kind_count_of(&c.element[j], w);
            total = add_mod(total, k, Ghost(before + classif_count(c@, w as int, j as nat)), Ghost(k as nat));
        }
    }
    total
}

fn emit_counts(out: &mut Vec<u8>, t: &Container)
    ensures
        final(out)@ == old(out)@ + enc_counts(t@),
{
    let ghost start = out@;
    let ghost f = |w: int| enc_varuint(types_count(t@, w, t@.cont.len()) % pow2(64));
    assert(flat(Seq::new(0, f)) =~= Seq::<u8>::empty());
    for w in 0..6usize
        invariant
            f == (|w: int| enc_varuint(types_count(t@, w, t@.cont.len()) % pow2(64))),
            out@ == start + flat(Seq::new(w as nat, f)),
    {
        let c = rule_count(t, w);
        write_varuint(out, c);
        proof {
            lemma_flat_new_push(w as nat, f);
        }
        assert(out@ =~= start + flat(Seq::new((w + 1) as nat, f)));
    }
}


// ------------------------------------------------------------------ the blob

/// The magic bytes `OMDR`.
pub open spec fn magic() -> Seq<u8> {
    seq![79u8, 77u8, 68u8, 82u8]
}

/// The format version.
pub const VERSION: u8 = 1;

/// A section: its length, then its bytes.
pub open spec fn section(b: Seq<u8>) -> Seq<u8> {
    enc_varuint(b.len()) + b
}

/// The overrides section: an empty list per variant.
pub open spec fn zeros(n: nat) -> Seq<u8> {
    Seq::new(n, |i: int| 0u8)
}

/// Magic, version, variant count and variant names.
pub open spec fn enc_header(names: Seq<Seq<char>>) -> Seq<u8> {
    magic() + seq![VERSION, names.len() as u8] + flat(names.map_values(|n: Seq<char>| enc_string(n)))
}

/// The blob of a family of variants that can be packed.
pub open spec fn family_blob(cs: Seq<ContainerView>, names: Seq<Seq<char>>) -> Seq<u8> {
    let tpl = template_of(cs);
    let tab = string_table(tpl);
    enc_header(names) + section(enc_strtab(tab)) + section(enc_colors(palette_of(cs), cs.len()))
        + section(enc_named(tpl, slot_indices(cs), tab)) + section(enc_counts(tpl)) + section(enc_types(tpl, tab))
        + section(zeros(cs.len()))
}

/// The structure-only key of a variant.
pub open spec fn structure_key(c: ContainerView) -> Seq<char> {
    canon_container(c, true, Seq::empty())
}

/// Every variant has the structure of the first.
pub open spec fn isomorphic(cs: Seq<ContainerView>) -> bool {
    forall|v: int| 1 <= v < cs.len() ==> structure_key(#[trigger] cs[v]) == structure_key(cs[0])
}

/// Every variant has the repeated fields of the first, with the same lengths;
/// a family that is not so is not isomorphic either.
pub open spec fn shaped(cs: Seq<ContainerView>) -> bool {
    forall|v: int| 0 <= v < cs.len() ==> same_shape(cs[0], #[trigger] cs[v])
}

/// Why a family cannot be packed, if it cannot.
pub open spec fn pack_error(cs: Seq<ContainerView>, names: Seq<Seq<char>>) -> Option<Seq<char>> {
    if cs.len() != names.len() || cs.len() == 0 {
        Some("expected one non-empty container per variant name"@)
    } else if names.len() > 255 {
        Some("native drules format supports at most 255 variants"@)
    } else if !isomorphic(cs) || !shaped(cs) {
        Some("drules variants are not isomorphic modulo colors; per-variant overrides are not supported yet"@)
    } else {
        None
    }
}

/// The views of some strings, for slices.
pub open spec fn name_views(v: Seq<String>) -> Seq<Seq<char>> {
    v.map_values(|s: String| s@)
}

fn push_section(out: &mut Vec<u8>, b: &Vec<u8>)
    ensures
        final(out)@ == old(out)@ + section(b@),
{
    write_varuint(out, b.len() as u64);
    out.extend_from_slice(b.as_slice());
}

fn emit_header(out: &mut Vec<u8>, names: &[String])
    requires
        names@.len() <= 255,
    ensures
        final(out)@ == old(out)@ + enc_header(name_views(names@)),
{
    let ghost start = out@;
    out.push(79u8);
    out.push(77u8);
    out.push(68u8);
    out.push(82u8);
    out.push(VERSION);
    out.push(names.len() as u8);
    let ghost mid = out@;
    let ghost pieces = name_views(names@).map_values(|n: Seq<char>| enc_string(n));
    assert(pieces.take(0) =~= Seq::<Seq<u8>>::empty());
    for i in 0..names.len()
        invariant
            pieces == name_views(names@).map_values(|n: Seq<char>| enc_string(n)),
            out@ == mid + flat(pieces.take(i as int)),
    {
        write_string(out, names[i].as_str());
        proof {
            lemma_flat_take_push(pieces, i as int);
        }
        assert(out@ =~= mid + flat(pieces.take(i as int + 1)));
    }
    assert(pieces.take(names.len() as int) =~= pieces);
    assert(out@ =~= start + enc_header(name_views(names@)));
}

/// Packs one container per variant (all isomorphic modulo colors) into the
/// native format; for a single variant pass one container.
pub fn serialize_binary(containers: &[Container], variant_names: &[String]) -> (r: Result<Vec<u8>, String>)
    ensures
        match r {
            Ok(b) => pack_error(container_views(containers@), name_views(variant_names@)) is None
                && b@ == family_blob(container_views(containers@), name_views(variant_names@)),
            Err(e) => pack_error(container_views(containers@), name_views(variant_names@)) == Some(e@),
        },
{
    let ghost cvs = container_views(containers@);
    if containers.len() != variant_names.len() || containers.len() == 0 {
        return Err(String::from_str("expected one non-empty container per variant name"));
    }
    if variant_names.len() > 255 {
        return Err(String::from_str("native drules format supports at most 255 variants"));
    }
    let empty = FloatTexts::new();
    let base = containers[0].canonical(true, &empty);
    for v in 1..containers.len()
        invariant
            cvs == container_views(containers@),
            containers@.len() > 0,
            containers@.len() == variant_names@.len(),
            variant_names@.len() <= 255,
            empty@ == Seq::<(u64, Seq<char>)>::empty(),
            base@ == structure_key(cvs[0]),
            forall|w: int| 1 <= w < v ==> structure_key(#[trigger] cvs[w]) == structure_key(cvs[0]),
    {
        let key = containers[v].canonical(true, &empty);
        assert(cvs[v as int] == containers@[v as int]@);
        if key != base {
            assert(structure_key(cvs[v as int]) != structure_key(cvs[0]));
            assert(!isomorphic(cvs));
            return Err(String::from_str(
                "drules variants are not isomorphic modulo colors; per-variant overrides are not supported yet",
            ));
        }
    }
    for v in 0..containers.len()
        invariant
            cvs == container_views(containers@),
            containers@.len() > 0,
            containers@.len() == variant_names@.len(),
            variant_names@.len() <= 255,
            isomorphic(cvs),
            forall|w: int| 0 <= w < v ==> same_shape(cvs[0], #[trigger] cvs[w]),
    {
        assert(cvs[v as int] == containers@[v as int]@);
        assert(cvs[0] == containers@[0]@);
        if !shapes_agree(&containers[0], &containers[v]) {
            assert(!shaped(cvs));
            return Err(String::from_str(
                "drules variants are not isomorphic modulo colors; per-variant overrides are not supported yet",
            ));
        }
    }
    let nv = containers.len();
    assert forall|v: int| 0 <= v < containers@.len() implies same_shape(containers@[0]@, #[trigger] containers@[v]@) by {
        assert(cvs[v] == containers@[v]@);
        assert(cvs[0] == containers@[0]@);
    }
    let (template, palette, idx) = index_family(containers);
    let tab = build_string_table(&template);

    let mut types_buf: Vec<u8> = Vec::new();
    emit_types(&mut types_buf, &template, &tab);
    proof {
        crate::palette::lemma_container_slots_len(cvs[0], cvs[0]);
    }
    let mut named_buf: Vec<u8> = Vec::new();
    emit_named(&mut named_buf, &template, &idx, &tab);
    let mut strtab_buf: Vec<u8> = Vec::new();
    emit_strtab(&mut strtab_buf, &tab);
    let mut colors_buf: Vec<u8> = Vec::new();
    proof {
        palette_rows(cvs);
        assert forall|e: int| 0 <= e < palette@.len() implies #[trigger] palette@[e]@.len() == nv by {
            assert(key_views(palette@)[e] == palette@[e]@);
        }
    }
    emit_colors(&mut colors_buf, &palette, nv);
    let mut counts_buf: Vec<u8> = Vec::new();
    emit_counts(&mut counts_buf, &template);
    let mut overrides_buf: Vec<u8> = Vec::new();
    for v in 0..nv
        invariant
            overrides_buf@ == zeros(v as nat),
    {
        write_varuint(&mut overrides_buf, 0);
        assert(overrides_buf@ =~= zeros((v + 1) as nat));
    }

    let mut out: Vec<u8> = Vec::new();
    emit_header(&mut out, variant_names);
    push_section(&mut out, &strtab_buf);
    push_section(&mut out, &colors_buf);
    push_section(&mut out, &named_buf);
    push_section(&mut out, &counts_buf);
    push_section(&mut out, &types_buf);
    push_section(&mut out, &overrides_buf);
    proof {
        assert(idx@.map_values(|i: usize| i as int) =~= slot_indices(cvs));
    }
    assert(out@ =~= family_blob(cvs, name_views(variant_names@)));
    Ok(out)
}

/// Every palette entry holds one color per variant.
proof fn palette_rows(cs: Seq<ContainerView>)
    ensures
        forall|e: int| 0 <= e < palette_of(cs).len() ==> #[trigger] palette_of(cs)[e].len() == cs.len(),
{
    let ks = palette_keys(cs);
    assert forall|e: int| 0 <= e < palette_of(cs).len() implies #[trigger] palette_of(cs)[e].len() == cs.len() by {
        let x = palette_of(cs)[e];
        assert(palette_of(cs).contains(x));
        crate::seqs::lemma_dedup_contains(ks, x);
        let k = choose|k: int| 0 <= k < ks.len() && ks[k] == x;
    }
}

} // verus!
