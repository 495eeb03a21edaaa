//! Reading back what was written: every decoder of the native format,
//! applied where the matching encoder's bytes stand, reads the encoded value
//! and stops right after those bytes.

use vstd::prelude::*;
use vstd::arithmetic::power2::{pow2, lemma2_to64};
use crate::wire::{enc_varuint, enc_u32, enc_string, zigzag};
use crate::decode::{DecodeError, Step, dec_u8, dec_varuint, dec_varuint_from, dec_varint, dec_u32, dec_f32, dec_string, unzigzag, bytes_text, lemma_dec_enc_varuint};
use crate::ieee::{f64_to_f32_bits, f32_to_f64_bits};
use crate::pack::{f32_bytes, enc_int};
use crate::unpack::{dec_i32, dec_u32v, dec_count, dec_sref, dec_rep, dec_reals, dec_dash, dec_pathsym, dec_prio, dec_line_head, dec_line, border_of, dec_caption_def, dec_caption_def_if, dec_caption, dec_srefs, dec_lines, dec_element_head, dec_lines_part, dec_border_if, dec_area_part, dec_symbol_part, dec_caption_part, dec_shield_part, dec_element};
use crate::pack::{sidx, enc_dashdot, line_flags, line_head, line_tail, enc_line, enc_line_rule, enc_line_def, enc_caption_def, caption_flags, enc_caption, element_kind, enc_lines_part, enc_area_part, enc_symbol_part, enc_caption_part, enc_shield_part, enc_element, pathsym_refs, caption_refs, element_refs};
use crate::model::{DashDotView, PathSymView, LineDefView, LineRuleView, AreaRuleView, SymbolRuleView, CaptionDefView, CaptionRuleView, ShieldRuleView, DrawElementView};
use crate::seqs::{flat, dedup, lemma_flat_push, lemma_flat_new_push, lemma_has_first};
use crate::unpack::{dec_begin, dec_end, dec_strings, dec_strtab_section, dec_u32s, dec_colors_section, dec_pair, dec_named_section, dec_counts, dec_counts_section, dec_type, dec_types_section, dec_override, dec_overrides, dec_overrides_section, dec_magic, dec_header};
use crate::pack::{section, zeros, magic, VERSION, enc_header, enc_strtab, enc_variant_colors, enc_colors, enc_named, enc_counts, enc_classif, enc_types, types_count};
use crate::model::{ClassifElementView, ContainerView};
use crate::pack::{string_table, container_refs, classif_refs, family_blob, pack_error};
use crate::palette::{template_of, palette_of, slot_indices, palette_keys};
use crate::seqs::lemma_dedup_contains;
use crate::unpack::{dec_tables, dec_rest, parse_blob};

verus! {

/// The bytes `b` stand in `d` from position `p` on.
pub open spec fn at(d: Seq<u8>, p: int, b: Seq<u8>) -> bool {
    0 <= p && p + b.len() <= d.len() && d.subrange(p, p + b.len()) == b
}

/// Bytes that stand somewhere stand there piece by piece.
pub proof fn lemma_at_split(d: Seq<u8>, p: int, a: Seq<u8>, b: Seq<u8>)
    requires
        at(d, p, a + b),
    ensures
        at(d, p, a),
        at(d, p + a.len(), b),
{
    let w = d.subrange(p, p + a.len() + b.len());
    assert(w == a + b);
    assert(d.subrange(p, p + a.len()) =~= w.subrange(0, a.len() as int));
    assert(w.subrange(0, a.len() as int) =~= a);
    assert(d.subrange(p + a.len(), p + a.len() + b.len()) =~= w.subrange(a.len() as int, w.len() as int));
    assert(w.subrange(a.len() as int, w.len() as int) =~= b);
}

/// A varint reads back the natural it encodes.
pub proof fn lemma_read_varuint(d: Seq<u8>, p: int, n: nat)
    requires
        at(d, p, enc_varuint(n)),
        n < pow2(64),
    ensures
        dec_varuint(d, p) == Ok::<(u64, int), DecodeError>((n as u64, p + enc_varuint(n).len())),
{
    lemma2_to64();
    lemma_dec_enc_varuint(d, p, n, 0, 0);
}

/// A count reads back the length it encodes.
pub proof fn lemma_read_count(d: Seq<u8>, p: int, n: nat)
    requires
        at(d, p, enc_varuint(n)),
        n <= usize::MAX,
    ensures
        dec_count(d, p) == Ok::<(usize, int), DecodeError>((n as usize, p + enc_varuint(n).len())),
{
    lemma2_to64();
    lemma_read_varuint(d, p, n);
}

/// An unsigned 32-bit field stored as a varint reads back.
pub proof fn lemma_read_u32v(d: Seq<u8>, p: int, v: u32)
    requires
        at(d, p, enc_varuint(v as nat)),
    ensures
        dec_u32v(d, p) == Ok::<(u32, int), DecodeError>((v, p + enc_varuint(v as nat).len())),
{
    lemma2_to64();
    lemma_read_varuint(d, p, v as nat);
}

/// A ZigZag varint of a 32-bit value reads back that value.
pub proof fn lemma_read_int(d: Seq<u8>, p: int, v: i32)
    requires
        at(d, p, enc_int(v as int)),
    ensures
        dec_i32(d, p) == Ok::<(i32, int), DecodeError>((v, p + enc_int(v as int).len())),
{
    lemma2_to64();
    let z = zigzag(v as int);
    assert(z < pow2(64));
    lemma_read_varuint(d, p, z);
    assert(dec_varint(d, p) == Ok::<(i64, int), DecodeError>((unzigzag(z as u64), p + enc_varuint(z).len())));
    assert(unzigzag(z as u64) == v as i64);
}

/// The byte at a position reads back.
pub proof fn lemma_read_u8(d: Seq<u8>, p: int, b: u8)
    requires
        at(d, p, seq![b]),
    ensures
        dec_u8(d, p) == Ok::<(u8, int), DecodeError>((b, p + 1)),
{
    assert(d[p] == d.subrange(p, p + 1)[0]);
}

/// Four little-endian bytes read back their `u32`.
pub proof fn lemma_read_u32(d: Seq<u8>, p: int, v: u32)
    requires
        at(d, p, enc_u32(v)),
    ensures
        dec_u32(d, p) == Ok::<(u32, int), DecodeError>((v, p + 4)),
{
    let e = enc_u32(v);
    assert(d[p] == e[0] && d[p + 1] == e[1] && d[p + 2] == e[2] && d[p + 3] == e[3]) by {
        assert(d[p] == d.subrange(p, p + 4)[0]);
        assert(d[p + 1] == d.subrange(p, p + 4)[1]);
        assert(d[p + 2] == d.subrange(p, p + 4)[2]);
        assert(d[p + 3] == d.subrange(p, p + 4)[3]);
    }
    assert(e[0] + e[1] * 256 + e[2] * 65536 + e[3] * 16777216 == v) by (nonlinear_arith)
        requires
            e[0] == v % 256,
            e[1] == (v / 256) % 256,
            e[2] == (v / 65536) % 256,
            e[3] == v / 16777216,
            v < 0x1_0000_0000,
    ;
}

/// A stored real reads back as the widening of its binary32 rounding.
pub proof fn lemma_read_real(d: Seq<u8>, p: int, b: u64)
    requires
        at(d, p, f32_bytes(b)),
    ensures
        dec_f32(d, p) == Ok::<(u64, int), DecodeError>((f32_to_f64_bits(f64_to_f32_bits(b)), p + 4)),
{
    lemma_read_u32(d, p, f64_to_f32_bits(b));
}

/// A string reads back.
pub proof fn lemma_read_string(d: Seq<u8>, p: int, s: Seq<char>)
    requires
        at(d, p, enc_string(s)),
        d.len() <= usize::MAX,
    ensures
        dec_string(d, p) == Ok::<(Seq<char>, int), DecodeError>((s, p + enc_string(s).len())),
{
    let u = vstd::utf8::encode_utf8(s);
    lemma_at_split(d, p, enc_varuint(u.len()), u);
    let q = p + enc_varuint(u.len()).len();
    assert(u.len() < pow2(64)) by {
        lemma2_to64();
        assert(u.len() <= d.len());
    }
    lemma_read_varuint(d, p, u.len());
    assert(d.subrange(q, q + u.len()) == u);
    vstd::utf8::encode_utf8_valid_utf8(s);
    vstd::utf8::encode_utf8_decode_utf8(s);
    assert(bytes_text(u) == s);
}


/// A string table index reads back the string it refers to.
pub proof fn lemma_read_sref(d: Seq<u8>, p: int, tab: Seq<Seq<char>>, s: Seq<char>)
    requires
        tab.contains(s),
        tab.len() <= usize::MAX,
        at(d, p, enc_varuint(sidx(tab, s))),
    ensures
        dec_sref(d, p, tab) == Ok::<(Seq<char>, int), DecodeError>((s, p + enc_varuint(sidx(tab, s)).len())),
{
    lemma2_to64();
    lemma_has_first(tab, s);
    lemma_read_varuint(d, p, sidx(tab, s));
}

/// Values decoded one after the other where their encodings stand one after
/// the other read back one by one.
pub proof fn lemma_read_rep<T, U>(
    d: Seq<u8>,
    p: int,
    xs: Seq<T>,
    enc: spec_fn(T) -> Seq<u8>,
    f: spec_fn(Seq<u8>, int) -> Step<U>,
    norm: spec_fn(T) -> U,
)
    requires
        at(d, p, flat(xs.map_values(enc))),
        forall|i: int, q: int|
            0 <= i < xs.len() && #[trigger] at(d, q, enc(xs[i])) ==> f(d, q) == Ok::<(U, int), DecodeError>(
                (norm(xs[i]), q + enc(xs[i]).len()),
            ),
    ensures
        dec_rep(d, p, xs.len(), f) == Ok::<(Seq<U>, int), DecodeError>(
            (xs.map_values(norm), p + flat(xs.map_values(enc)).len()),
        ),
    decreases xs.len(),
{
    if xs.len() == 0 {
        assert(xs.map_values(enc) =~= Seq::<Seq<u8>>::empty());
        assert(xs.map_values(norm) =~= Seq::<U>::empty());
    } else {
        let ys = xs.drop_last();
        let x = xs[xs.len() - 1];
        assert(xs.map_values(enc) =~= ys.map_values(enc).push(enc(x)));
        lemma_flat_push(ys.map_values(enc), enc(x));
        lemma_at_split(d, p, flat(ys.map_values(enc)), enc(x));
        assert forall|i: int, q: int| 0 <= i < ys.len() && #[trigger] at(d, q, enc(ys[i])) implies f(d, q)
            == Ok::<(U, int), DecodeError>((norm(ys[i]), q + enc(ys[i]).len())) by {
            assert(ys[i] == xs[i]);
            assert(at(d, q, enc(xs[i])));
        }
        lemma_read_rep(d, p, ys, enc, f, norm);
        let q = p + flat(ys.map_values(enc)).len();
        assert(at(d, q, enc(xs[xs.len() - 1])));
        assert(xs.map_values(norm) =~= ys.map_values(norm).push(norm(x)));
    }
}

// ------------------------------------------------------------------ what is read back

/// A real as the format keeps it: rounded to binary32 and widened back.
pub open spec fn norm_real(b: u64) -> u64 {
    f32_to_f64_bits(f64_to_f32_bits(b))
}

/// A dash pattern as read back: kept only when it has dashes.
pub open spec fn norm_dash(x: DashDotView) -> DashDotView {
    if x.dd.len() > 0 {
        DashDotView { present: true, offset: norm_real(x.offset), dd: x.dd.map_values(|b: u64| norm_real(b)) }
    } else {
        DashDotView::empty()
    }
}

/// A path symbol as read back: kept only when set.
pub open spec fn norm_pathsym(x: PathSymView) -> PathSymView {
    if x.is_set() {
        PathSymView { present: true, name: x.name, step: norm_real(x.step), offset: norm_real(x.offset) }
    } else {
        PathSymView::empty()
    }
}

/// A line as read back from its fields.
pub open spec fn line_read(
    width: u64,
    color: u32,
    prio: Option<i32>,
    join: u8,
    cap: u8,
    dd: DashDotView,
    ps: PathSymView,
) -> LineRuleView {
    LineRuleView {
        present: true,
        width: norm_real(width),
        color: color,
        priority: match prio {
            Some(v) => v,
            None => 0i32,
        },
        join: join,
        cap: cap,
        dashdot: norm_dash(dd),
        pathsym: norm_pathsym(ps),
    }
}

pub open spec fn norm_line(l: LineRuleView) -> LineRuleView {
    line_read(l.width, l.color, Some(l.priority), l.join, l.cap, l.dashdot, l.pathsym)
}

pub open spec fn norm_border(b: LineDefView) -> LineDefView {
    border_of(line_read(b.width, b.color, None, b.join, b.cap, b.dashdot, b.pathsym))
}

pub open spec fn norm_caption_def(c: CaptionDefView) -> CaptionDefView {
    CaptionDefView { present: true, ..c }
}

pub open spec fn norm_caption(c: CaptionRuleView) -> CaptionRuleView {
    CaptionRuleView {
        present: true,
        priority: c.priority,
        primary: if c.primary.is_set() { norm_caption_def(c.primary) } else { CaptionDefView::empty() },
        secondary: if c.secondary.is_set() { norm_caption_def(c.secondary) } else { CaptionDefView::empty() },
    }
}

pub open spec fn norm_caption_part(c: CaptionRuleView) -> CaptionRuleView {
    if c.is_set() {
        norm_caption(c)
    } else {
        CaptionRuleView::empty()
    }
}

pub open spec fn norm_area(a: AreaRuleView) -> AreaRuleView {
    if a.is_set() {
        AreaRuleView {
            present: true,
            color: a.color,
            priority: a.priority,
            border: if a.border.is_set() { norm_border(a.border) } else { LineDefView::empty() },
        }
    } else {
        AreaRuleView::empty()
    }
}

pub open spec fn norm_symbol(s: SymbolRuleView) -> SymbolRuleView {
    if s.is_set() {
        SymbolRuleView { present: true, ..s }
    } else {
        SymbolRuleView::empty()
    }
}

pub open spec fn norm_shield(s: ShieldRuleView) -> ShieldRuleView {
    if s.is_set() {
        ShieldRuleView { present: true, ..s }
    } else {
        ShieldRuleView::empty()
    }
}

/// A drawing element as read back.
pub open spec fn norm_element(e: DrawElementView) -> DrawElementView {
    DrawElementView {
        present: true,
        scale: e.scale,
        apply_if: e.apply_if,
        lines: e.lines.map_values(|l: LineRuleView| norm_line(l)),
        area: norm_area(e.area),
        symbol: norm_symbol(e.symbol),
        caption: norm_caption_part(e.caption),
        path_text: norm_caption_part(e.path_text),
        shield: norm_shield(e.shield),
    }
}

/// Every string an element refers to is in the table.
pub open spec fn refs_in(tab: Seq<Seq<char>>, refs: Seq<Seq<char>>) -> bool {
    forall|i: int| 0 <= i < refs.len() ==> tab.contains(#[trigger] refs[i])
}

// ------------------------------------------------------------------ lines

proof fn lemma_read_dash(d: Seq<u8>, p: int, x: DashDotView, flags: u8)
    requires
        (flags % 2 == 1) == (x.dd.len() > 0),
        at(d, p, if x.dd.len() > 0 { enc_dashdot(x) } else { Seq::empty() }),
        d.len() <= usize::MAX,
    ensures
        dec_dash(d, p, flags) == Ok::<(DashDotView, int), DecodeError>(
            (norm_dash(x), p + (if x.dd.len() > 0 { enc_dashdot(x) } else { Seq::<u8>::empty() }).len()),
        ),
{
    reveal(dec_dash);
    reveal(enc_dashdot);
    if x.dd.len() > 0 {
        let a = enc_varuint(x.dd.len());
        let b = flat(x.dd.map_values(|x: u64| f32_bytes(x)));
        let c = f32_bytes(x.offset);
        lemma_at_split(d, p, a + b, c);
        lemma_at_split(d, p, a, b);
        assert(x.dd.len() <= usize::MAX) by {
            assert(x.dd.len() <= b.len()) by {
                lemma_reals_len(x.dd);
            }
        }
        lemma_read_count(d, p, x.dd.len());
        assert forall|i: int, q: int| 0 <= i < x.dd.len() && #[trigger] at(d, q, f32_bytes(x.dd[i])) implies dec_f32(d, q)
            == Ok::<(u64, int), DecodeError>((norm_real(x.dd[i]), q + f32_bytes(x.dd[i]).len())) by {
            lemma_read_real(d, q, x.dd[i]);
        }
        lemma_read_rep(
            d,
            p + a.len(),
            x.dd,
            |x: u64| f32_bytes(x),
            |d: Seq<u8>, q: int| dec_f32(d, q),
            |b: u64| norm_real(b),
        );
        lemma_read_real(d, p + a.len() + b.len(), x.offset);
    }
}

/// Each real takes four bytes.
proof fn lemma_reals_len(dd: Seq<u64>)
    ensures
        flat(dd.map_values(|x: u64| f32_bytes(x))).len() == 4 * dd.len(),
    decreases dd.len(),
{
    if dd.len() > 0 {
        let ys = dd.drop_last();
        assert(dd.map_values(|x: u64| f32_bytes(x)) =~= ys.map_values(|x: u64| f32_bytes(x)).push(f32_bytes(dd.last())));
        lemma_flat_push(ys.map_values(|x: u64| f32_bytes(x)), f32_bytes(dd.last()));
        lemma_reals_len(ys);
    } else {
        assert(dd.map_values(|x: u64| f32_bytes(x)) =~= Seq::<Seq<u8>>::empty());
    }
}

pub open spec fn pathsym_bytes(ps: PathSymView, tab: Seq<Seq<char>>) -> Seq<u8> {
    if ps.is_set() {
        enc_varuint(sidx(tab, ps.name)) + f32_bytes(ps.step) + f32_bytes(ps.offset)
    } else {
        Seq::empty()
    }
}

proof fn lemma_read_pathsym(d: Seq<u8>, p: int, ps: PathSymView, flags: u8, tab: Seq<Seq<char>>)
    requires
        ((flags / 2) % 2 == 1) == ps.is_set(),
        ps.is_set() ==> tab.contains(ps.name),
        tab.len() <= usize::MAX,
        at(d, p, pathsym_bytes(ps, tab)),
    ensures
        dec_pathsym(d, p, flags, tab) == Ok::<(PathSymView, int), DecodeError>(
            (norm_pathsym(ps), p + pathsym_bytes(ps, tab).len()),
        ),
{
    reveal(dec_pathsym);
    if ps.is_set() {
        let a = enc_varuint(sidx(tab, ps.name));
        lemma_at_split(d, p, a + f32_bytes(ps.step), f32_bytes(ps.offset));
        lemma_at_split(d, p, a, f32_bytes(ps.step));
        lemma_read_sref(d, p, tab, ps.name);
        lemma_read_real(d, p + a.len(), ps.step);
        lemma_read_real(d, p + a.len() + 4, ps.offset);
    }
}

/// A line reads back.
pub proof fn lemma_read_line(
    d: Seq<u8>,
    p: int,
    width: u64,
    color: u32,
    prio: Option<i32>,
    join: u8,
    cap: u8,
    dd: DashDotView,
    ps: PathSymView,
    tab: Seq<Seq<char>>,
)
    requires
        at(d, p, enc_line(width, color, prio, join, cap, dd, ps, tab)),
        ps.is_set() ==> tab.contains(ps.name),
        tab.len() <= usize::MAX,
        d.len() <= usize::MAX,
    ensures
        dec_line(d, p, tab, prio is Some) == Ok::<(LineRuleView, int), DecodeError>(
            (line_read(width, color, prio, join, cap, dd, ps), p + enc_line(width, color, prio, join, cap, dd, ps, tab).len()),
        ),
{
    reveal(dec_line);
    reveal(dec_line_head);
    reveal(line_head);
    reveal(line_tail);
    let flags = line_flags(dd, ps);
    let pb: Seq<u8> = match prio {
        Some(v) => enc_int(v as int),
        None => Seq::empty(),
    };
    let h1 = seq![flags];
    let h2 = f32_bytes(width);
    let h3 = enc_varuint(color as nat);
    let h5 = seq![join, cap];
    let head = line_head(flags, width, color, prio, join, cap);
    assert(head == h1 + h2 + h3 + pb + h5);
    let t1: Seq<u8> = if dd.dd.len() > 0 { enc_dashdot(dd) } else { Seq::empty() };
    let t2 = pathsym_bytes(ps, tab);
    let tail = line_tail(dd, ps, tab);
    assert(tail == t1 + t2);
    lemma_at_split(d, p, head, tail);
    lemma_at_split(d, p, h1 + h2 + h3 + pb, h5);
    lemma_at_split(d, p, h1 + h2 + h3, pb);
    lemma_at_split(d, p, h1 + h2, h3);
    lemma_at_split(d, p, h1, h2);
    lemma_read_u8(d, p, flags);
    lemma_read_real(d, p + 1, width);
    lemma_read_u32v(d, p + 5, color);
    let p3 = p + 5 + h3.len();
    match prio {
        Some(v) => {
            lemma_read_int(d, p3, v);
        },
        None => {},
    }
    assert(dec_prio(d, p3, prio is Some) == Ok::<(i32, int), DecodeError>((match prio {
        Some(v) => v,
        None => 0i32,
    }, p3 + pb.len())));
    let p4 = p3 + pb.len();
    assert(seq![join] + seq![cap] =~= h5);
    lemma_at_split(d, p4, seq![join], seq![cap]);
    lemma_read_u8(d, p4, join);
    lemma_read_u8(d, p4 + 1, cap);
    let p6 = p + head.len();
    lemma_at_split(d, p6, t1, t2);
    assert((flags % 2 == 1) == (dd.dd.len() > 0));
    assert(((flags / 2) % 2 == 1) == ps.is_set());
    lemma_read_dash(d, p6, dd, flags);
    lemma_read_pathsym(d, p6 + t1.len(), ps, flags, tab);
}


// ------------------------------------------------------------------ captions

/// A caption definition reads back.
pub proof fn lemma_read_caption_def(d: Seq<u8>, p: int, c: CaptionDefView, tab: Seq<Seq<char>>)
    requires
        tab.contains(c.text),
        tab.len() <= usize::MAX,
        at(d, p, enc_caption_def(c, tab)),
    ensures
        dec_caption_def(d, p, tab) == Ok::<(CaptionDefView, int), DecodeError>(
            (norm_caption_def(c), p + enc_caption_def(c, tab).len()),
        ),
{
    reveal(dec_caption_def);
    reveal(enc_caption_def);
    let a1 = enc_int(c.height as int);
    let a2 = enc_varuint(c.color as nat);
    let a3 = enc_varuint(c.stroke_color as nat);
    let a4 = enc_int(c.offset_x as int);
    let a5 = enc_int(c.offset_y as int);
    let a6 = enc_varuint(sidx(tab, c.text));
    let a7 = seq![if c.is_optional { 1u8 } else { 0u8 }];
    lemma_at_split(d, p, a1 + a2 + a3 + a4 + a5 + a6, a7);
    lemma_at_split(d, p, a1 + a2 + a3 + a4 + a5, a6);
    lemma_at_split(d, p, a1 + a2 + a3 + a4, a5);
    lemma_at_split(d, p, a1 + a2 + a3, a4);
    lemma_at_split(d, p, a1 + a2, a3);
    lemma_at_split(d, p, a1, a2);
    lemma_read_int(d, p, c.height);
    lemma_read_u32v(d, p + a1.len(), c.color);
    lemma_read_u32v(d, p + a1.len() + a2.len(), c.stroke_color);
    lemma_read_int(d, p + a1.len() + a2.len() + a3.len(), c.offset_x);
    lemma_read_int(d, p + a1.len() + a2.len() + a3.len() + a4.len(), c.offset_y);
    lemma_read_sref(d, p + a1.len() + a2.len() + a3.len() + a4.len() + a5.len(), tab, c.text);
    lemma_read_u8(d, p + a1.len() + a2.len() + a3.len() + a4.len() + a5.len() + a6.len(), a7[0]);
}

pub open spec fn def_bytes(c: CaptionDefView, tab: Seq<Seq<char>>) -> Seq<u8> {
    if c.is_set() {
        enc_caption_def(c, tab)
    } else {
        Seq::empty()
    }
}

proof fn lemma_read_def_if(d: Seq<u8>, p: int, c: CaptionDefView, tab: Seq<Seq<char>>, on: bool)
    requires
        on == c.is_set(),
        c.is_set() ==> tab.contains(c.text),
        tab.len() <= usize::MAX,
        at(d, p, def_bytes(c, tab)),
    ensures
        dec_caption_def_if(d, p, tab, on) == Ok::<(CaptionDefView, int), DecodeError>(
            (if c.is_set() { norm_caption_def(c) } else { CaptionDefView::empty() }, p + def_bytes(c, tab).len()),
        ),
{
    if on {
        lemma_read_caption_def(d, p, c, tab);
    }
}

/// A caption reads back.
pub proof fn lemma_read_caption(d: Seq<u8>, p: int, c: CaptionRuleView, tab: Seq<Seq<char>>)
    requires
        c.primary.is_set() ==> tab.contains(c.primary.text),
        c.secondary.is_set() ==> tab.contains(c.secondary.text),
        tab.len() <= usize::MAX,
        at(d, p, enc_caption(c, tab)),
    ensures
        dec_caption(d, p, tab) == Ok::<(CaptionRuleView, int), DecodeError>((norm_caption(c), p + enc_caption(c, tab).len())),
{
    reveal(dec_caption);
    reveal(enc_caption);
    let f = caption_flags(c);
    let a = seq![f];
    let b = def_bytes(c.primary, tab);
    let e = def_bytes(c.secondary, tab);
    let g = enc_int(c.priority as int);
    assert(enc_caption(c, tab) == a + b + e + g);
    lemma_at_split(d, p, a + b + e, g);
    lemma_at_split(d, p, a + b, e);
    lemma_at_split(d, p, a, b);
    lemma_read_u8(d, p, f);
    assert((f % 2 == 1) == c.primary.is_set());
    assert(((f / 2) % 2 == 1) == c.secondary.is_set());
    lemma_read_def_if(d, p + 1, c.primary, tab, f % 2 == 1);
    lemma_read_def_if(d, p + 1 + b.len(), c.secondary, tab, (f / 2) % 2 == 1);
    lemma_read_int(d, p + 1 + b.len() + e.len(), c.priority);
}

// ------------------------------------------------------------------ string references

pub proof fn lemma_refs_split(tab: Seq<Seq<char>>, a: Seq<Seq<char>>, b: Seq<Seq<char>>)
    requires
        refs_in(tab, a + b),
    ensures
        refs_in(tab, a),
        refs_in(tab, b),
{
    assert forall|i: int| 0 <= i < a.len() implies tab.contains(#[trigger] a[i]) by {
        assert((a + b)[i] == a[i]);
    }
    assert forall|i: int| 0 <= i < b.len() implies tab.contains(#[trigger] b[i]) by {
        assert((a + b)[a.len() + i] == b[i]);
    }
}

/// Every member of a piece is a member of the flattening.
pub proof fn lemma_refs_flat(tab: Seq<Seq<char>>, s: Seq<Seq<Seq<char>>>, k: int)
    requires
        refs_in(tab, flat(s)),
        0 <= k < s.len(),
    ensures
        refs_in(tab, s[k]),
    decreases s.len(),
{
    let ys = s.drop_last();
    assert(s =~= ys.push(s.last()));
    lemma_flat_push(ys, s.last());
    lemma_refs_split(tab, flat(ys), s.last());
    if k < s.len() - 1 {
        assert(s[k] == ys[k]);
        lemma_refs_flat(tab, ys, k);
    }
}

/// Pieces that are each non-empty flatten to at least as many items.
pub proof fn lemma_flat_nonempty<T>(s: Seq<Seq<T>>)
    requires
        forall|i: int| 0 <= i < s.len() ==> (#[trigger] s[i]).len() >= 1,
    ensures
        flat(s).len() >= s.len(),
    decreases s.len(),
{
    if s.len() > 0 {
        let ys = s.drop_last();
        assert(s =~= ys.push(s.last()));
        lemma_flat_push(ys, s.last());
        assert forall|i: int| 0 <= i < ys.len() implies (#[trigger] ys[i]).len() >= 1 by {
            assert(ys[i] == s[i]);
        }
        lemma_flat_nonempty(ys);
    }
}


// ------------------------------------------------------------------ elements

proof fn lemma_kind_bits(b0: bool, b1: bool, b2: bool, b3: bool, b4: bool, b5: bool)
    ensures
        ({
            let k = (if b0 { 1int } else { 0int }) + (if b1 { 2int } else { 0int }) + (if b2 { 4int } else { 0int })
                + (if b3 { 8int } else { 0int }) + (if b4 { 16int } else { 0int }) + (if b5 { 32int } else { 0int });
            &&& (k % 2 == 1) == b0
            &&& ((k / 2) % 2 == 1) == b1
            &&& ((k / 4) % 2 == 1) == b2
            &&& ((k / 8) % 2 == 1) == b3
            &&& ((k / 16) % 2 == 1) == b4
            &&& ((k / 32) % 2 == 1) == b5
            &&& 0 <= k < 64
        }),
{
}

proof fn lemma_read_lines_part(d: Seq<u8>, p: int, e: DrawElementView, tab: Seq<Seq<char>>)
    requires
        forall|k: int| 0 <= k < e.lines.len() ==> (#[trigger] e.lines[k]).pathsym.is_set() ==> tab.contains(
            e.lines[k].pathsym.name,
        ),
        tab.len() <= usize::MAX,
        d.len() <= usize::MAX,
        at(d, p, enc_lines_part(e, tab)),
    ensures
        dec_lines_part(d, p, e.lines.len() > 0, tab) == Ok::<(Seq<LineRuleView>, int), DecodeError>(
            (e.lines.map_values(|l: LineRuleView| norm_line(l)), p + enc_lines_part(e, tab).len()),
        ),
{
    reveal(dec_lines_part);
    reveal(enc_lines_part);
    if e.lines.len() > 0 {
        let a = enc_varuint(e.lines.len());
        let pieces = e.lines.map_values(|l: LineRuleView| enc_line_rule(l, tab));
        let b = flat(pieces);
        lemma_at_split(d, p, a, b);
        assert forall|i: int| 0 <= i < pieces.len() implies (#[trigger] pieces[i]).len() >= 1 by {
            reveal(line_head);
        }
        lemma_flat_nonempty(pieces);
        lemma_read_count(d, p, e.lines.len());
        assert forall|i: int, q: int| 0 <= i < e.lines.len() && #[trigger] at(d, q, enc_line_rule(e.lines[i], tab)) implies dec_line(
            d,
            q,
            tab,
            true,
        ) == Ok::<(LineRuleView, int), DecodeError>((norm_line(e.lines[i]), q + enc_line_rule(e.lines[i], tab).len())) by {
            let l = e.lines[i];
            lemma_read_line(d, q, l.width, l.color, Some(l.priority), l.join, l.cap, l.dashdot, l.pathsym, tab);
        }
        lemma_read_rep(
            d,
            p + a.len(),
            e.lines,
            |l: LineRuleView| enc_line_rule(l, tab),
            |d: Seq<u8>, q: int| dec_line(d, q, tab, true),
            |l: LineRuleView| norm_line(l),
        );
        assert(dec_lines(d, p + a.len(), e.lines.len(), tab) == dec_rep(
            d,
            p + a.len(),
            e.lines.len(),
            |d: Seq<u8>, q: int| dec_line(d, q, tab, true),
        ));
    } else {
        assert(e.lines.map_values(|l: LineRuleView| norm_line(l)) =~= Seq::<LineRuleView>::empty());
    }
}

proof fn lemma_read_area_part(d: Seq<u8>, p: int, a: AreaRuleView, tab: Seq<Seq<char>>)
    requires
        a.is_set() && a.border.is_set() && a.border.pathsym.is_set() ==> tab.contains(a.border.pathsym.name),
        tab.len() <= usize::MAX,
        d.len() <= usize::MAX,
        at(d, p, enc_area_part(a, tab)),
    ensures
        dec_area_part(d, p, a.is_set(), tab) == Ok::<(AreaRuleView, int), DecodeError>(
            (norm_area(a), p + enc_area_part(a, tab).len()),
        ),
{
    reveal(dec_area_part);
    reveal(enc_area_part);
    reveal(dec_border_if);
    if a.is_set() {
        let f: u8 = if a.border.is_set() { 1u8 } else { 0u8 };
        let x1 = seq![f];
        let x2 = enc_varuint(a.color as nat);
        let x3 = enc_int(a.priority as int);
        let b = a.border;
        let x4: Seq<u8> = if b.is_set() { enc_line_def(b, tab) } else { Seq::empty() };
        lemma_at_split(d, p, x1 + x2 + x3, x4);
        lemma_at_split(d, p, x1 + x2, x3);
        lemma_at_split(d, p, x1, x2);
        lemma_read_u8(d, p, f);
        lemma_read_u32v(d, p + 1, a.color);
        lemma_read_int(d, p + 1 + x2.len(), a.priority);
        if b.is_set() {
            lemma_read_line(d, p + 1 + x2.len() + x3.len(), b.width, b.color, None, b.join, b.cap, b.dashdot, b.pathsym, tab);
        }
    }
}

proof fn lemma_read_symbol_part(d: Seq<u8>, p: int, s: SymbolRuleView, tab: Seq<Seq<char>>)
    requires
        s.is_set() ==> tab.contains(s.name),
        tab.len() <= usize::MAX,
        at(d, p, enc_symbol_part(s, tab)),
    ensures
        dec_symbol_part(d, p, s.is_set(), tab) == Ok::<(SymbolRuleView, int), DecodeError>(
            (norm_symbol(s), p + enc_symbol_part(s, tab).len()),
        ),
{
    reveal(dec_symbol_part);
    reveal(enc_symbol_part);
    if s.is_set() {
        let x1 = enc_varuint(sidx(tab, s.name));
        let x2 = enc_int(s.apply_for_type as int);
        let x3 = enc_int(s.priority as int);
        let x4 = enc_int(s.min_distance as int);
        lemma_at_split(d, p, x1 + x2 + x3, x4);
        lemma_at_split(d, p, x1 + x2, x3);
        lemma_at_split(d, p, x1, x2);
        lemma_read_sref(d, p, tab, s.name);
        lemma_read_int(d, p + x1.len(), s.apply_for_type);
        lemma_read_int(d, p + x1.len() + x2.len(), s.priority);
        lemma_read_int(d, p + x1.len() + x2.len() + x3.len(), s.min_distance);
    }
}

proof fn lemma_read_caption_part(d: Seq<u8>, p: int, c: CaptionRuleView, tab: Seq<Seq<char>>)
    requires
        c.is_set() && c.primary.is_set() ==> tab.contains(c.primary.text),
        c.is_set() && c.secondary.is_set() ==> tab.contains(c.secondary.text),
        tab.len() <= usize::MAX,
        at(d, p, enc_caption_part(c, tab)),
    ensures
        dec_caption_part(d, p, c.is_set(), tab) == Ok::<(CaptionRuleView, int), DecodeError>(
            (norm_caption_part(c), p + enc_caption_part(c, tab).len()),
        ),
{
    reveal(dec_caption_part);
    if c.is_set() {
        lemma_read_caption(d, p, c, tab);
    }
}

proof fn lemma_read_shield_part(d: Seq<u8>, p: int, s: ShieldRuleView)
    requires
        at(d, p, enc_shield_part(s)),
    ensures
        dec_shield_part(d, p, s.is_set()) == Ok::<(ShieldRuleView, int), DecodeError>(
            (norm_shield(s), p + enc_shield_part(s).len()),
        ),
{
    reveal(dec_shield_part);
    reveal(enc_shield_part);
    if s.is_set() {
        let x1 = enc_int(s.height as int);
        let x2 = enc_varuint(s.color as nat);
        let x3 = enc_varuint(s.stroke_color as nat);
        let x4 = enc_int(s.priority as int);
        let x5 = enc_int(s.min_distance as int);
        let x6 = enc_varuint(s.text_color as nat);
        let x7 = enc_varuint(s.text_stroke_color as nat);
        lemma_at_split(d, p, x1 + x2 + x3 + x4 + x5 + x6, x7);
        lemma_at_split(d, p, x1 + x2 + x3 + x4 + x5, x6);
        lemma_at_split(d, p, x1 + x2 + x3 + x4, x5);
        lemma_at_split(d, p, x1 + x2 + x3, x4);
        lemma_at_split(d, p, x1 + x2, x3);
        lemma_at_split(d, p, x1, x2);
        let q2 = p + x1.len();
        let q3 = q2 + x2.len();
        let q4 = q3 + x3.len();
        let q5 = q4 + x4.len();
        let q6 = q5 + x5.len();
        let q7 = q6 + x6.len();
        lemma_read_int(d, p, s.height);
        lemma_read_u32v(d, q2, s.color);
        lemma_read_u32v(d, q3, s.stroke_color);
        lemma_read_int(d, q4, s.priority);
        lemma_read_int(d, q5, s.min_distance);
        lemma_read_u32v(d, q6, s.text_color);
        lemma_read_u32v(d, q7, s.text_stroke_color);
    }
}

pub open spec fn apply_if_bytes(e: DrawElementView, tab: Seq<Seq<char>>) -> Seq<u8> {
    flat(e.apply_if.map_values(|s: Seq<char>| enc_varuint(sidx(tab, s))))
}

proof fn lemma_read_head(d: Seq<u8>, p: int, e: DrawElementView, tab: Seq<Seq<char>>)
    requires
        refs_in(tab, e.apply_if),
        tab.len() <= usize::MAX,
        d.len() <= usize::MAX,
        at(d, p, seq![e.scale] + enc_varuint(e.apply_if.len()) + apply_if_bytes(e, tab) + seq![element_kind(e)]),
    ensures
        dec_element_head(d, p, tab) == Ok::<((u8, Seq<Seq<char>>, u8), int), DecodeError>(
            (
                (e.scale, e.apply_if, element_kind(e)),
                p + 1 + enc_varuint(e.apply_if.len()).len() + apply_if_bytes(e, tab).len() + 1,
            ),
        ),
{
    reveal(dec_element_head);
    let a = enc_varuint(e.apply_if.len());
    let b = apply_if_bytes(e, tab);
    lemma_at_split(d, p, seq![e.scale] + a + b, seq![element_kind(e)]);
    lemma_at_split(d, p, seq![e.scale] + a, b);
    lemma_at_split(d, p, seq![e.scale], a);
    lemma_read_u8(d, p, e.scale);
    let pieces = e.apply_if.map_values(|s: Seq<char>| enc_varuint(sidx(tab, s)));
    assert forall|i: int| 0 <= i < pieces.len() implies (#[trigger] pieces[i]).len() >= 1 by {}
    lemma_flat_nonempty(pieces);
    lemma_read_count(d, p + 1, e.apply_if.len());
    assert forall|i: int, q: int| 0 <= i < e.apply_if.len() && #[trigger] at(d, q, enc_varuint(sidx(tab, e.apply_if[i]))) implies dec_sref(
        d,
        q,
        tab,
    ) == Ok::<(Seq<char>, int), DecodeError>((e.apply_if[i], q + enc_varuint(sidx(tab, e.apply_if[i])).len())) by {
        lemma_read_sref(d, q, tab, e.apply_if[i]);
    }
    lemma_read_rep(
        d,
        p + 1 + a.len(),
        e.apply_if,
        |s: Seq<char>| enc_varuint(sidx(tab, s)),
        |d: Seq<u8>, q: int| dec_sref(d, q, tab),
        |s: Seq<char>| s,
    );
    assert(e.apply_if.map_values(|s: Seq<char>| s) =~= e.apply_if);
    lemma_read_u8(d, p + 1 + a.len() + b.len(), element_kind(e));
}

/// A drawing element whose strings are in the table reads back.
pub proof fn lemma_read_element(d: Seq<u8>, p: int, e: DrawElementView, tab: Seq<Seq<char>>)
    requires
        refs_in(tab, element_refs(e)),
        tab.len() <= usize::MAX,
        d.len() <= usize::MAX,
        at(d, p, enc_element(e, tab)),
    ensures
        dec_element(d, p, tab) == Ok::<(DrawElementView, int), DecodeError>((norm_element(e), p + enc_element(e, tab).len())),
{
    reveal(dec_element);
    reveal(enc_element);
    let head = seq![e.scale] + enc_varuint(e.apply_if.len()) + apply_if_bytes(e, tab) + seq![element_kind(e)];
    let y1 = enc_lines_part(e, tab);
    let y2 = enc_area_part(e.area, tab);
    let y3 = enc_symbol_part(e.symbol, tab);
    let y4 = enc_caption_part(e.caption, tab);
    let y5 = enc_caption_part(e.path_text, tab);
    let y6 = enc_shield_part(e.shield);
    assert(enc_element(e, tab) == head + y1 + y2 + y3 + y4 + y5 + y6);
    lemma_at_split(d, p, head + y1 + y2 + y3 + y4 + y5, y6);
    lemma_at_split(d, p, head + y1 + y2 + y3 + y4, y5);
    lemma_at_split(d, p, head + y1 + y2 + y3, y4);
    lemma_at_split(d, p, head + y1 + y2, y3);
    lemma_at_split(d, p, head + y1, y2);
    lemma_at_split(d, p, head, y1);
    // the strings
    let lr = flat(Seq::new(e.lines.len(), |k: int| pathsym_refs(e.lines[k].pathsym)));
    let ar: Seq<Seq<char>> = if e.area.is_set() && e.area.border.is_set() { pathsym_refs(e.area.border.pathsym) } else { Seq::empty() };
    let sr: Seq<Seq<char>> = if e.symbol.is_set() { seq![e.symbol.name] } else { Seq::empty() };
    lemma_refs_split(tab, e.apply_if + lr + ar + sr + caption_refs(e.caption), caption_refs(e.path_text));
    lemma_refs_split(tab, e.apply_if + lr + ar + sr, caption_refs(e.caption));
    lemma_refs_split(tab, e.apply_if + lr + ar, sr);
    lemma_refs_split(tab, e.apply_if + lr, ar);
    lemma_refs_split(tab, e.apply_if, lr);
    assert forall|k: int| 0 <= k < e.lines.len() implies (#[trigger] e.lines[k]).pathsym.is_set() ==> tab.contains(
        e.lines[k].pathsym.name,
    ) by {
        lemma_refs_flat(tab, Seq::new(e.lines.len(), |k: int| pathsym_refs(e.lines[k].pathsym)), k);
        if e.lines[k].pathsym.is_set() {
            assert(pathsym_refs(e.lines[k].pathsym)[0] == e.lines[k].pathsym.name);
        }
    }
    if e.area.is_set() && e.area.border.is_set() && e.area.border.pathsym.is_set() {
        assert(ar[0] == e.area.border.pathsym.name);
    }
    if e.symbol.is_set() {
        assert(sr[0] == e.symbol.name);
    }
    assert forall|c: CaptionRuleView| refs_in(tab, caption_refs(c)) implies (c.is_set() && c.primary.is_set() ==> tab.contains(
        c.primary.text,
    )) && (c.is_set() && c.secondary.is_set() ==> tab.contains(c.secondary.text)) by {
        if c.is_set() {
            let pr: Seq<Seq<char>> = if c.primary.is_set() { seq![c.primary.text] } else { Seq::empty() };
            let se: Seq<Seq<char>> = if c.secondary.is_set() { seq![c.secondary.text] } else { Seq::empty() };
            lemma_refs_split(tab, pr, se);
            if c.primary.is_set() {
                assert(pr[0] == c.primary.text);
            }
            if c.secondary.is_set() {
                assert(se[0] == c.secondary.text);
            }
        }
    }
    // the kinds byte
    lemma_kind_bits(e.lines.len() > 0, e.area.is_set(), e.symbol.is_set(), e.caption.is_set(), e.path_text.is_set(), e.shield.is_set());
    let k = element_kind(e);
    lemma_read_head(d, p, e, tab);
    let p1 = p + head.len();
    lemma_read_lines_part(d, p1, e, tab);
    let p2 = p1 + y1.len();
    lemma_read_area_part(d, p2, e.area, tab);
    let p3 = p2 + y2.len();
    lemma_read_symbol_part(d, p3, e.symbol, tab);
    let p4 = p3 + y3.len();
    lemma_read_caption_part(d, p4, e.caption, tab);
    let p5 = p4 + y4.len();
    lemma_read_caption_part(d, p5, e.path_text, tab);
    let p6 = p5 + y5.len();
    lemma_read_shield_part(d, p6, e.shield);
}


// ------------------------------------------------------------------ sections

/// Values decoded one after the other where the pieces `pieces(0)`, ...,
/// `pieces(n - 1)` stand one after the other read back one by one.
pub proof fn lemma_read_rep_new<U>(
    d: Seq<u8>,
    p: int,
    n: nat,
    pieces: spec_fn(int) -> Seq<u8>,
    f: spec_fn(Seq<u8>, int) -> Step<U>,
    vals: spec_fn(int) -> U,
)
    requires
        at(d, p, flat(Seq::new(n, pieces))),
        forall|i: int, q: int| 0 <= i < n && #[trigger] at(d, q, pieces(i)) ==> f(d, q) == Ok::<(U, int), DecodeError>(
            (vals(i), q + pieces(i).len()),
        ),
    ensures
        dec_rep(d, p, n, f) == Ok::<(Seq<U>, int), DecodeError>((Seq::new(n, vals), p + flat(Seq::new(n, pieces)).len())),
    decreases n,
{
    if n == 0 {
        assert(Seq::new(n, vals) =~= Seq::<U>::empty());
    } else {
        let m = (n - 1) as nat;
        lemma_flat_new_push(m, pieces);
        lemma_at_split(d, p, flat(Seq::new(m, pieces)), pieces(m as int));
        lemma_read_rep_new(d, p, m, pieces, f, vals);
        let q = p + flat(Seq::new(m, pieces)).len();
        assert(at(d, q, pieces(m as int)));
        assert(Seq::new(n, vals) =~= Seq::new(m, vals).push(vals(m as int)));
    }
}

/// The empty string is first in a string table.
pub proof fn lemma_table_first(refs: Seq<Seq<char>>)
    ensures
        dedup(seq![Seq::<char>::empty()] + refs).len() >= 1,
        dedup(seq![Seq::<char>::empty()] + refs)[0] == Seq::<char>::empty(),
    decreases refs.len(),
{
    let s = seq![Seq::<char>::empty()] + refs;
    if refs.len() == 0 {
        assert(s.drop_last() =~= Seq::<Seq<char>>::empty());
        assert(dedup(s.drop_last()) =~= Seq::<Seq<char>>::empty());
    } else {
        assert(s.drop_last() =~= seq![Seq::<char>::empty()] + refs.drop_last());
        lemma_table_first(refs.drop_last());
    }
}

/// The string table section reads back the table.
pub proof fn lemma_read_strtab(d: Seq<u8>, p: int, tab: Seq<Seq<char>>)
    requires
        at(d, p, section(enc_strtab(tab))),
        d.len() <= usize::MAX,
        tab.len() >= 1,
        tab[0].len() == 0,
    ensures
        dec_strtab_section(d, p) == Ok::<(Seq<Seq<char>>, int), DecodeError>((tab, p + section(enc_strtab(tab)).len())),
{
    let b = enc_strtab(tab);
    let a = enc_varuint(b.len());
    lemma_at_split(d, p, a, b);
    let q = p + a.len();
    let c = enc_varuint(tab.len());
    let strs = flat(tab.map_values(|s: Seq<char>| enc_string(s)));
    lemma_at_split(d, q, c, strs);
    let pieces = tab.map_values(|s: Seq<char>| enc_string(s));
    assert forall|i: int| 0 <= i < pieces.len() implies (#[trigger] pieces[i]).len() >= 1 by {}
    lemma_flat_nonempty(pieces);
    lemma_read_count(d, p, b.len());
    lemma_read_count(d, q, tab.len());
    assert forall|i: int, r: int| 0 <= i < tab.len() && #[trigger] at(d, r, enc_string(tab[i])) implies dec_string(d, r)
        == Ok::<(Seq<char>, int), DecodeError>((tab[i], r + enc_string(tab[i]).len())) by {
        lemma_read_string(d, r, tab[i]);
    }
    lemma_read_rep(d, q + c.len(), tab, |s: Seq<char>| enc_string(s), |d: Seq<u8>, q: int| dec_string(d, q), |s: Seq<char>| s);
    assert(tab.map_values(|s: Seq<char>| s) =~= tab);
}

/// The colors of every variant, one row per variant.
pub open spec fn palette_rows(pal: Seq<Seq<u32>>, nv: nat) -> Seq<Seq<u32>> {
    Seq::new(nv, |v: int| pal.map_values(|e: Seq<u32>| e[v]))
}

/// The color table section reads back one row of colors per variant.
pub proof fn lemma_read_colors(d: Seq<u8>, p: int, pal: Seq<Seq<u32>>, nv: nat)
    requires
        at(d, p, section(enc_colors(pal, nv))),
        d.len() <= usize::MAX,
        nv >= 1,
    ensures
        dec_colors_section(d, p, nv) == Ok::<(Seq<Seq<u32>>, int), DecodeError>(
            (palette_rows(pal, nv), p + section(enc_colors(pal, nv)).len()),
        ),
{
    let b = enc_colors(pal, nv);
    let a = enc_varuint(b.len());
    lemma_at_split(d, p, a, b);
    let q = p + a.len();
    let c = enc_varuint(pal.len());
    let rows = flat(Seq::new(nv, |v: int| enc_variant_colors(pal, v)));
    lemma_at_split(d, q, c, rows);
    lemma_read_count(d, p, b.len());
    assert(pal.len() <= usize::MAX) by {
        let pieces = pal.map_values(|e: Seq<u32>| enc_u32(e[0]));
        assert forall|i: int| 0 <= i < pieces.len() implies (#[trigger] pieces[i]).len() >= 1 by {}
        lemma_flat_nonempty(pieces);
        lemma_flat_piece_len(Seq::new(nv, |v: int| enc_variant_colors(pal, v)), 0);
    }
    lemma_read_count(d, q, pal.len());
    let n = pal.len();
    assert forall|v: int, r: int| 0 <= v < nv && #[trigger] at(d, r, enc_variant_colors(pal, v)) implies dec_u32s(d, r, (n as usize) as nat)
        == Ok::<(Seq<u32>, int), DecodeError>((pal.map_values(|e: Seq<u32>| e[v]), r + enc_variant_colors(pal, v).len())) by {
        assert forall|i: int, t: int| 0 <= i < pal.len() && #[trigger] at(d, t, enc_u32(pal[i][v])) implies dec_u32(d, t)
            == Ok::<(u32, int), DecodeError>((pal[i][v], t + enc_u32(pal[i][v]).len())) by {
            lemma_read_u32(d, t, pal[i][v]);
        }
        assert(Seq::new(pal.len(), |i: int| enc_u32(pal[i][v])) =~= pal.map_values(|e: Seq<u32>| enc_u32(e[v])));
        lemma_read_rep_new(
            d,
            r,
            pal.len(),
            |i: int| enc_u32(pal[i][v]),
            |d: Seq<u8>, q: int| dec_u32(d, q),
            |i: int| pal[i][v],
        );
        assert(Seq::new(pal.len(), |i: int| pal[i][v]) =~= pal.map_values(|e: Seq<u32>| e[v]));
    }
    lemma_read_rep_new(
        d,
        q + c.len(),
        nv,
        |v: int| enc_variant_colors(pal, v),
        |d: Seq<u8>, q: int| dec_u32s(d, q, (n as usize) as nat),
        |v: int| pal.map_values(|e: Seq<u32>| e[v]),
    );
}

/// A piece of a flattening is no longer than the flattening.
pub proof fn lemma_flat_piece_len<T>(s: Seq<Seq<T>>, k: int)
    requires
        0 <= k < s.len(),
    ensures
        s[k].len() <= flat(s).len(),
    decreases s.len(),
{
    let ys = s.drop_last();
    assert(s =~= ys.push(s.last()));
    lemma_flat_push(ys, s.last());
    if k < s.len() - 1 {
        assert(s[k] == ys[k]);
        lemma_flat_piece_len(ys, k);
    }
}


/// The pairs of name and palette index of the named colors, as read back.
pub open spec fn named_pairs(t: crate::model::ContainerView, ix: Seq<int>, tab: Seq<Seq<char>>) -> Seq<(usize, usize)> {
    Seq::new(t.colors.value.len(), |m: int| (sidx(tab, t.colors.value[m].name) as usize, ix[m] as usize))
}

/// The named colors section reads back every pair.
pub proof fn lemma_read_named(d: Seq<u8>, p: int, t: crate::model::ContainerView, ix: Seq<int>, tab: Seq<Seq<char>>)
    requires
        at(d, p, section(enc_named(t, ix, tab))),
        d.len() <= usize::MAX,
        tab.len() <= usize::MAX,
        forall|m: int| 0 <= m < t.colors.value.len() ==> 0 <= #[trigger] ix[m] <= usize::MAX,
    ensures
        dec_named_section(d, p) == Ok::<(Seq<(usize, usize)>, int), DecodeError>(
            (named_pairs(t, ix, tab), p + section(enc_named(t, ix, tab)).len()),
        ),
{
    lemma2_to64();
    let b = enc_named(t, ix, tab);
    let a = enc_varuint(b.len());
    lemma_at_split(d, p, a, b);
    let q = p + a.len();
    let n = t.colors.value.len();
    let c = enc_varuint(n);
    let pieces = |m: int| enc_varuint(sidx(tab, t.colors.value[m].name)) + enc_varuint(ix[m] as nat);
    let body = flat(Seq::new(n, pieces));
    lemma_at_split(d, q, c, body);
    lemma_read_count(d, p, b.len());
    assert(n <= usize::MAX) by {
        assert forall|i: int| 0 <= i < Seq::new(n, pieces).len() implies (#[trigger] Seq::new(n, pieces)[i]).len() >= 1 by {}
        lemma_flat_nonempty(Seq::new(n, pieces));
    }
    lemma_read_count(d, q, n);
    assert forall|m: int, r: int| 0 <= m < n && #[trigger] at(d, r, pieces(m)) implies dec_pair(d, r) == Ok::<
        ((usize, usize), int),
        DecodeError,
    >(((sidx(tab, t.colors.value[m].name) as usize, ix[m] as usize), r + pieces(m).len())) by {
        let x = enc_varuint(sidx(tab, t.colors.value[m].name));
        let y = enc_varuint(ix[m] as nat);
        lemma_at_split(d, r, x, y);
        if tab.contains(t.colors.value[m].name) {
            lemma_has_first(tab, t.colors.value[m].name);
        }
        assert(sidx(tab, t.colors.value[m].name) <= tab.len());
        lemma_read_count(d, r, sidx(tab, t.colors.value[m].name));
        lemma_read_count(d, r + x.len(), ix[m] as nat);
    }
    lemma_read_rep_new(
        d,
        q + c.len(),
        n,
        pieces,
        |d: Seq<u8>, q: int| dec_pair(d, q),
        |m: int| (sidx(tab, t.colors.value[m].name) as usize, ix[m] as usize),
    );
}

/// The rule counts section is read past.
pub proof fn lemma_read_counts(d: Seq<u8>, p: int, t: crate::model::ContainerView)
    requires
        at(d, p, section(enc_counts(t))),
        d.len() <= usize::MAX,
    ensures
        dec_counts_section(d, p) is Ok,
        dec_counts_section(d, p)->Ok_0.1 == p + section(enc_counts(t)).len(),
{
    lemma2_to64();
    let b = enc_counts(t);
    let a = enc_varuint(b.len());
    lemma_at_split(d, p, a, b);
    lemma_read_count(d, p, b.len());
    let pieces = |w: int| enc_varuint(types_count(t, w, t.cont.len()) % pow2(64));
    assert forall|w: int, r: int| 0 <= w < 6 && #[trigger] at(d, r, pieces(w)) implies dec_varuint(d, r) == Ok::<
        (u64, int),
        DecodeError,
    >((((types_count(t, w, t.cont.len()) % pow2(64)) as nat) as u64, r + pieces(w).len())) by {
        lemma_read_varuint(d, r, (types_count(t, w, t.cont.len()) % pow2(64)) as nat);
    }
    lemma_read_rep_new(
        d,
        p + a.len(),
        6,
        pieces,
        |d: Seq<u8>, q: int| dec_varuint(d, q),
        |w: int| (((types_count(t, w, t.cont.len()) % pow2(64)) as nat) as u64),
    );
}

/// A type as read back: its name and its elements as read back.
pub open spec fn norm_type(c: ClassifElementView) -> (Seq<char>, Seq<DrawElementView>) {
    (c.name, c.element.map_values(|e: DrawElementView| norm_element(e)))
}

/// The strings of every element of a type are in the table, and so is its
/// name.
pub open spec fn type_refs_in(tab: Seq<Seq<char>>, c: ClassifElementView) -> bool {
    &&& tab.contains(c.name)
    &&& forall|j: int| 0 <= j < c.element.len() ==> refs_in(tab, element_refs(#[trigger] c.element[j]))
}

/// A type reads back.
pub proof fn lemma_read_type(d: Seq<u8>, p: int, c: ClassifElementView, tab: Seq<Seq<char>>)
    requires
        type_refs_in(tab, c),
        tab.len() <= usize::MAX,
        d.len() <= usize::MAX,
        at(d, p, enc_classif(c, tab)),
    ensures
        dec_type(d, p, tab) == Ok::<((Seq<char>, Seq<DrawElementView>), int), DecodeError>(
            (norm_type(c), p + enc_classif(c, tab).len()),
        ),
{
    let x = enc_varuint(sidx(tab, c.name));
    let y = enc_varuint(c.element.len());
    let z = flat(c.element.map_values(|e: DrawElementView| enc_element(e, tab)));
    lemma_at_split(d, p, x + y, z);
    lemma_at_split(d, p, x, y);
    lemma_has_first(tab, c.name);
    lemma_read_count(d, p, sidx(tab, c.name));
    let pieces = c.element.map_values(|e: DrawElementView| enc_element(e, tab));
    assert forall|i: int| 0 <= i < pieces.len() implies (#[trigger] pieces[i]).len() >= 1 by {
        reveal(enc_element);
    }
    lemma_flat_nonempty(pieces);
    lemma_read_count(d, p + x.len(), c.element.len());
    assert forall|i: int, q: int| 0 <= i < c.element.len() && #[trigger] at(d, q, enc_element(c.element[i], tab)) implies dec_element(
        d,
        q,
        tab,
    ) == Ok::<(DrawElementView, int), DecodeError>((norm_element(c.element[i]), q + enc_element(c.element[i], tab).len())) by {
        lemma_read_element(d, q, c.element[i], tab);
    }
    lemma_read_rep(
        d,
        p + x.len() + y.len(),
        c.element,
        |e: DrawElementView| enc_element(e, tab),
        |d: Seq<u8>, q: int| dec_element(d, q, tab),
        |e: DrawElementView| norm_element(e),
    );
}

/// The types section reads back every type.
pub proof fn lemma_read_types(d: Seq<u8>, p: int, t: crate::model::ContainerView, tab: Seq<Seq<char>>)
    requires
        forall|i: int| 0 <= i < t.cont.len() ==> type_refs_in(tab, #[trigger] t.cont[i]),
        tab.len() <= usize::MAX,
        d.len() <= usize::MAX,
        at(d, p, section(enc_types(t, tab))),
    ensures
        dec_types_section(d, p, tab) == Ok::<(Seq<(Seq<char>, Seq<DrawElementView>)>, int), DecodeError>(
            (t.cont.map_values(|c: ClassifElementView| norm_type(c)), p + section(enc_types(t, tab)).len()),
        ),
{
    let b = enc_types(t, tab);
    let a = enc_varuint(b.len());
    lemma_at_split(d, p, a, b);
    lemma_read_count(d, p, b.len());
    let q = p + a.len();
    let c = enc_varuint(t.cont.len());
    let pieces = t.cont.map_values(|c: ClassifElementView| enc_classif(c, tab));
    lemma_at_split(d, q, c, flat(pieces));
    assert forall|i: int| 0 <= i < pieces.len() implies (#[trigger] pieces[i]).len() >= 1 by {}
    lemma_flat_nonempty(pieces);
    lemma_read_count(d, q, t.cont.len());
    assert forall|i: int, r: int| 0 <= i < t.cont.len() && #[trigger] at(d, r, enc_classif(t.cont[i], tab)) implies dec_type(d, r, tab)
        == Ok::<((Seq<char>, Seq<DrawElementView>), int), DecodeError>(
        (norm_type(t.cont[i]), r + enc_classif(t.cont[i], tab).len()),
    ) by {
        lemma_read_type(d, r, t.cont[i], tab);
    }
    lemma_read_rep(
        d,
        q + c.len(),
        t.cont,
        |c: ClassifElementView| enc_classif(c, tab),
        |d: Seq<u8>, q: int| dec_type(d, q, tab),
        |c: ClassifElementView| norm_type(c),
    );
}

/// The overrides section of `nv` empty lists is read past.
pub proof fn lemma_read_overrides(d: Seq<u8>, p: int, nv: nat, tab: Seq<Seq<char>>)
    requires
        at(d, p, section(zeros(nv))),
        d.len() <= usize::MAX,
    ensures
        dec_overrides_section(d, p, nv, tab) is Ok,
        dec_overrides_section(d, p, nv, tab)->Ok_0.1 == p + section(zeros(nv)).len(),
{
    let b = zeros(nv);
    let a = enc_varuint(b.len());
    lemma_at_split(d, p, a, b);
    lemma_read_count(d, p, b.len());
    let pieces = |i: int| seq![0u8];
    assert(flat(Seq::new(nv, pieces)) =~= b) by {
        lemma_flat_ones(nv);
    }
    assert forall|i: int, r: int| 0 <= i < nv && #[trigger] at(d, r, pieces(i)) implies dec_overrides(d, r, tab) == Ok::<
        (Seq<DrawElementView>, int),
        DecodeError,
    >((Seq::<DrawElementView>::empty(), r + pieces(i).len())) by {
        lemma_read_count(d, r, 0);
        assert(enc_varuint(0) =~= seq![0u8]);
    }
    lemma_read_rep_new(
        d,
        p + a.len(),
        nv,
        pieces,
        |d: Seq<u8>, q: int| dec_overrides(d, q, tab),
        |i: int| Seq::<DrawElementView>::empty(),
    );
}

/// `n` one-byte zero pieces flatten to `n` zero bytes.
proof fn lemma_flat_ones(n: nat)
    ensures
        flat(Seq::new(n, |i: int| seq![0u8])) =~= zeros(n),
    decreases n,
{
    if n > 0 {
        lemma_flat_new_push((n - 1) as nat, |i: int| seq![0u8]);
        lemma_flat_ones((n - 1) as nat);
        assert(zeros(n) =~= zeros((n - 1) as nat) + seq![0u8]);
    } else {
        assert(flat(Seq::new(0, |i: int| seq![0u8])) =~= Seq::<u8>::empty());
    }
}

/// The header reads back the variant names.
pub proof fn lemma_read_header(d: Seq<u8>, names: Seq<Seq<char>>)
    requires
        at(d, 0, enc_header(names)),
        names.len() <= 255,
        d.len() <= usize::MAX,
    ensures
        dec_header(d) == Ok::<(Seq<Seq<char>>, int), DecodeError>((names, enc_header(names).len() as int)),
{
    let m = magic();
    let vn = seq![VERSION, names.len() as u8];
    let body = flat(names.map_values(|n: Seq<char>| enc_string(n)));
    lemma_at_split(d, 0, m + vn, body);
    lemma_at_split(d, 0, m, vn);
    assert(d.subrange(0, 4) == m);
    assert(seq![VERSION] + seq![names.len() as u8] =~= vn);
    lemma_at_split(d, 4, seq![VERSION], seq![names.len() as u8]);
    lemma_read_u8(d, 4, VERSION);
    lemma_read_u8(d, 5, names.len() as u8);
    assert forall|i: int, r: int| 0 <= i < names.len() && #[trigger] at(d, r, enc_string(names[i])) implies dec_string(d, r)
        == Ok::<(Seq<char>, int), DecodeError>((names[i], r + enc_string(names[i]).len())) by {
        lemma_read_string(d, r, names[i]);
    }
    lemma_read_rep(d, 6, names, |n: Seq<char>| enc_string(n), |d: Seq<u8>, q: int| dec_string(d, q), |s: Seq<char>| s);
    assert(names.map_values(|s: Seq<char>| s) =~= names);
}


// ------------------------------------------------------------------ the blob

/// Every string a container refers to is in its string table.
pub proof fn lemma_table_refs(t: ContainerView)
    ensures
        forall|i: int| 0 <= i < t.cont.len() ==> type_refs_in(string_table(t), #[trigger] t.cont[i]),
        forall|m: int| 0 <= m < t.colors.value.len() ==> string_table(t).contains(#[trigger] t.colors.value[m].name),
{
    let all = seq![Seq::<char>::empty()] + container_refs(t);
    let tab = string_table(t);
    assert forall|i: int| 0 <= i < all.len() implies tab.contains(#[trigger] all[i]) by {
        lemma_dedup_contains(all, all[i]);
        assert(all.contains(all[i]));
    }
    assert(refs_in(tab, all));
    let ts = flat(Seq::new(t.cont.len(), |i: int| classif_refs(t.cont[i])));
    let ns = Seq::new(t.colors.value.len(), |m: int| t.colors.value[m].name);
    assert(all =~= seq![Seq::<char>::empty()] + (ts + ns));
    lemma_refs_split(tab, seq![Seq::<char>::empty()], ts + ns);
    lemma_refs_split(tab, ts, ns);
    assert forall|m: int| 0 <= m < t.colors.value.len() implies tab.contains(#[trigger] t.colors.value[m].name) by {
        assert(ns[m] == t.colors.value[m].name);
    }
    assert forall|i: int| 0 <= i < t.cont.len() implies type_refs_in(tab, #[trigger] t.cont[i]) by {
        lemma_refs_flat(tab, Seq::new(t.cont.len(), |i: int| classif_refs(t.cont[i])), i);
        let c = t.cont[i];
        let es = flat(Seq::new(c.element.len(), |j: int| element_refs(c.element[j])));
        lemma_refs_split(tab, seq![c.name], es);
        assert(seq![c.name][0] == c.name);
        assert forall|j: int| 0 <= j < c.element.len() implies refs_in(tab, element_refs(#[trigger] c.element[j])) by {
            lemma_refs_flat(tab, Seq::new(c.element.len(), |j: int| element_refs(c.element[j])), j);
        }
    }
}

/// The types of a packed family as read back.
pub open spec fn read_types(cs: Seq<ContainerView>) -> Seq<(Seq<char>, Seq<DrawElementView>)> {
    template_of(cs).cont.map_values(|c: ClassifElementView| norm_type(c))
}

/// The named colors of a packed family as read back: name and palette index.
pub open spec fn read_named(cs: Seq<ContainerView>) -> Seq<(usize, usize)> {
    named_pairs(template_of(cs), slot_indices(cs), string_table(template_of(cs)))
}

/// Every slot's palette index is in the palette.
pub proof fn lemma_slot_indices(cs: Seq<ContainerView>)
    ensures
        slot_indices(cs).len() == palette_keys(cs).len(),
        forall|k: int| 0 <= k < slot_indices(cs).len() ==> 0 <= #[trigger] slot_indices(cs)[k] < palette_of(cs).len(),
{
    let ks = palette_keys(cs);
    assert forall|k: int| 0 <= k < slot_indices(cs).len() implies 0 <= #[trigger] slot_indices(cs)[k] < palette_of(cs).len() by {
        lemma_dedup_contains(ks, ks[k]);
        assert(ks.contains(ks[k]));
        lemma_has_first(palette_of(cs), ks[k]);
    }
}

/// The string table, color table and named colors sections read back.
proof fn lemma_read_tables(
    d: Seq<u8>,
    p: int,
    tpl: ContainerView,
    tab: Seq<Seq<char>>,
    pal: Seq<Seq<u32>>,
    ix: Seq<int>,
    nv: nat,
)
    requires
        at(d, p, section(enc_strtab(tab)) + section(enc_colors(pal, nv)) + section(enc_named(tpl, ix, tab))),
        d.len() <= usize::MAX,
        nv >= 1,
        tab.len() >= 1,
        tab[0].len() == 0,
        forall|m: int| 0 <= m < tpl.colors.value.len() ==> 0 <= #[trigger] ix[m] < pal.len(),
    ensures
        dec_tables(d, p, nv) == Ok::<((Seq<Seq<char>>, Seq<Seq<u32>>, Seq<(usize, usize)>), int), DecodeError>(
            (
                (tab, palette_rows(pal, nv), named_pairs(tpl, ix, tab)),
                p + (section(enc_strtab(tab)) + section(enc_colors(pal, nv)) + section(enc_named(tpl, ix, tab))).len(),
            ),
        ),
        tab.len() <= usize::MAX,
        pal.len() <= usize::MAX,
{
    let s1 = section(enc_strtab(tab));
    let s2 = section(enc_colors(pal, nv));
    let s3 = section(enc_named(tpl, ix, tab));
    lemma_at_split(d, p, s1 + s2, s3);
    lemma_at_split(d, p, s1, s2);
    let p2 = p + s1.len();
    let p3 = p2 + s2.len();
    let tb = enc_strtab(tab);
    let pieces = tab.map_values(|s: Seq<char>| enc_string(s));
    assert(tab.len() <= usize::MAX) by {
        assert forall|i: int| 0 <= i < pieces.len() implies (#[trigger] pieces[i]).len() >= 1 by {}
        lemma_flat_nonempty(pieces);
        lemma_at_split(d, p, enc_varuint(tb.len()), tb);
        lemma_at_split(d, p + enc_varuint(tb.len()).len(), enc_varuint(tab.len()), flat(pieces));
    }
    lemma_read_strtab(d, p, tab);
    lemma_read_colors(d, p2, pal, nv);
    assert(pal.len() <= usize::MAX) by {
        let b = enc_colors(pal, nv);
        let rows = Seq::new(nv, |v: int| enc_variant_colors(pal, v));
        lemma_at_split(d, p2, enc_varuint(b.len()), b);
        lemma_at_split(d, p2 + enc_varuint(b.len()).len(), enc_varuint(pal.len()), flat(rows));
        let row0 = pal.map_values(|e: Seq<u32>| enc_u32(e[0]));
        assert forall|i: int| 0 <= i < row0.len() implies (#[trigger] row0[i]).len() >= 1 by {}
        lemma_flat_nonempty(row0);
        lemma_flat_piece_len(rows, 0);
    }
    lemma_read_named(d, p3, tpl, ix, tab);
}

/// The rule counts, types and overrides sections read back the types.
proof fn lemma_read_rest(d: Seq<u8>, p: int, tpl: ContainerView, tab: Seq<Seq<char>>, nv: nat)
    requires
        at(d, p, section(enc_counts(tpl)) + section(enc_types(tpl, tab)) + section(zeros(nv))),
        d.len() <= usize::MAX,
        tab.len() <= usize::MAX,
        forall|i: int| 0 <= i < tpl.cont.len() ==> type_refs_in(tab, #[trigger] tpl.cont[i]),
    ensures
        dec_rest(d, p, nv, tab) is Ok,
        dec_rest(d, p, nv, tab)->Ok_0.0 == tpl.cont.map_values(|c: ClassifElementView| norm_type(c)),
{
    let s4 = section(enc_counts(tpl));
    let s5 = section(enc_types(tpl, tab));
    let s6 = section(zeros(nv));
    lemma_at_split(d, p, s4 + s5, s6);
    lemma_at_split(d, p, s4, s5);
    lemma_read_counts(d, p, tpl);
    lemma_read_types(d, p + s4.len(), tpl, tab);
    lemma_read_overrides(d, p + s4.len() + s5.len(), nv, tab);
}

/// Reading the parts of a blob laid out as the writer lays them out.
#[verifier::rlimit(80)]
proof fn lemma_read_parts(
    d: Seq<u8>,
    names: Seq<Seq<char>>,
    tpl: ContainerView,
    tab: Seq<Seq<char>>,
    pal: Seq<Seq<u32>>,
    ix: Seq<int>,
    nv: nat,
)
    requires
        d == enc_header(names) + (section(enc_strtab(tab)) + section(enc_colors(pal, nv)) + section(enc_named(tpl, ix, tab)))
            + (section(enc_counts(tpl)) + section(enc_types(tpl, tab)) + section(zeros(nv))),
        d.len() <= usize::MAX,
        names.len() <= 255,
        names.len() == nv,
        nv >= 1,
        tab.len() >= 1,
        tab[0].len() == 0,
        forall|i: int| 0 <= i < tpl.cont.len() ==> type_refs_in(tab, #[trigger] tpl.cont[i]),
        forall|m: int| 0 <= m < tpl.colors.value.len() ==> 0 <= #[trigger] ix[m] < pal.len(),
    ensures
        ({
            let p1 = enc_header(names).len() as int;
            &&& dec_header(d) == Ok::<(Seq<Seq<char>>, int), DecodeError>((names, p1))
            &&& dec_tables(d, p1, nv) is Ok
            &&& dec_tables(d, p1, nv)->Ok_0.0 == (tab, palette_rows(pal, nv), named_pairs(tpl, ix, tab))
            &&& dec_rest(d, dec_tables(d, p1, nv)->Ok_0.1, nv, tab) is Ok
            &&& dec_rest(d, dec_tables(d, p1, nv)->Ok_0.1, nv, tab)->Ok_0.0 == tpl.cont.map_values(
                |c: ClassifElementView| norm_type(c),
            )
        }),
        tab.len() <= usize::MAX,
        pal.len() <= usize::MAX,
{
    let h = enc_header(names);
    let t = section(enc_strtab(tab)) + section(enc_colors(pal, nv)) + section(enc_named(tpl, ix, tab));
    let r = section(enc_counts(tpl)) + section(enc_types(tpl, tab)) + section(zeros(nv));
    assert(d.subrange(0, d.len() as int) =~= d);
    assert(at(d, 0, d));
    lemma_at_split(d, 0, h + t, r);
    lemma_at_split(d, 0, h, t);
    lemma_read_header(d, names);
    lemma_read_tables(d, h.len() as int, tpl, tab, pal, ix, nv);
    lemma_read_rest(d, (h.len() + t.len()) as int, tpl, tab, nv);
}

/// Reading a packed blob: the header gives the names, the tables give the
/// string table, the color rows and the named colors, and the rest gives the
/// types.
pub proof fn lemma_read_blob(cs: Seq<ContainerView>, names: Seq<Seq<char>>)
    requires
        pack_error(cs, names) is None,
        family_blob(cs, names).len() <= usize::MAX,
    ensures
        ({
            let d = family_blob(cs, names);
            let tab = string_table(template_of(cs));
            let p1 = enc_header(names).len() as int;
            &&& dec_header(d) == Ok::<(Seq<Seq<char>>, int), DecodeError>((names, p1))
            &&& dec_tables(d, p1, names.len()) is Ok
            &&& dec_tables(d, p1, names.len())->Ok_0.0 == (tab, palette_rows(palette_of(cs), cs.len()), read_named(cs))
            &&& dec_rest(d, dec_tables(d, p1, names.len())->Ok_0.1, names.len(), tab) is Ok
            &&& dec_rest(d, dec_tables(d, p1, names.len())->Ok_0.1, names.len(), tab)->Ok_0.0 == read_types(cs)
        }),
        string_table(template_of(cs)).len() <= usize::MAX,
        palette_of(cs).len() <= usize::MAX,
{
    let tpl = template_of(cs);
    let tab = string_table(tpl);
    let pal = palette_of(cs);
    let ix = slot_indices(cs);
    lemma_table_first(container_refs(tpl));
    lemma_table_refs(tpl);
    lemma_slot_indices(cs);
    lemma_named_indices(cs);
    let d = family_blob(cs, names);
    assert(d == enc_header(names) + (section(enc_strtab(tab)) + section(enc_colors(pal, cs.len())) + section(
        enc_named(tpl, ix, tab),
    )) + (section(enc_counts(tpl)) + section(enc_types(tpl, tab)) + section(zeros(cs.len()))));
    lemma_read_parts(d, names, tpl, tab, pal, ix, cs.len());
}

/// The named colors' slots come first, and their palette indices are in
/// the palette.
proof fn lemma_named_indices(cs: Seq<ContainerView>)
    requires
        cs.len() >= 1,
    ensures
        forall|m: int| 0 <= m < template_of(cs).colors.value.len() ==> 0 <= #[trigger] slot_indices(cs)[m] < palette_of(cs).len(),
{
    lemma_slot_indices(cs);
    assert(template_of(cs).colors.value.len() == cs[0].colors.value.len());
    assert(crate::palette::container_slots(cs[0], cs[0]).len() >= cs[0].colors.value.len());
}

} // verus!
