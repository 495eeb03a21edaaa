//! The inspection-only text dump of a family of variants: the palette, the named
//! colors, and every type's drawing elements with palette references, one
//! line per rule.

use vstd::prelude::*;
use vstd::string::StringExecFns;
use crate::model::{DashDot, PathSym, LineDef, LineRule, AreaRule, SymbolRule, CaptionDef, CaptionRule, ShieldRule, DrawElement, ClassifElement, Container, DashDotView, PathSymView, LineDefView, LineRuleView, AreaRuleView, SymbolRuleView, CaptionDefView, CaptionRuleView, ShieldRuleView, DrawElementView, ClassifElementView, ContainerView};
use crate::canonical::{FloatTexts, real_text, join, texts, push_if, push_text, join_parts, is_zero_bits};
use crate::text::{dec_int, dec_digits, push_u64, push_i64, push_str, str_to_string, digit};
use crate::compat::{repr_text, repr_str};
use crate::seqs::{flat, lemma_flat_new_push};
use crate::palette::{template_of, palette_of, slot_indices, container_views, key_views, index_family, same_shape, shapes_agree};
use crate::pack::{isomorphic, shaped, structure_key, name_views};
use crate::condition::starts_with;

verus! {

// ------------------------------------------------------------------ small texts

/// `c` and the palette index, at least three digits.
pub open spec fn color_id(idx: nat) -> Seq<char> {
    seq!['c'] + (if idx < 10 { "00"@ } else if idx < 100 { "0"@ } else { Seq::empty() }) + dec_digits(idx)
}

fn color_id_str(idx: u64) -> (r: String)
    ensures
        r@ == color_id(idx as nat),
{
    let mut s = String::new();
    s.push('c');
    if idx < 10 {
        push_str(&mut s, "00");
    } else if idx < 100 {
        push_str(&mut s, "0");
    }
    proof {
        reveal_strlit("00");
        reveal_strlit("0");
    }
    push_u64(&mut s, idx);
    assert(s@ =~= color_id(idx as nat)) by {
        reveal_strlit("00");
        reveal_strlit("0");
    }
    s
}

/// An upper-case hexadecimal digit.
pub open spec fn hex_upper(d: nat) -> char {
    if d < 10 {
        crate::text::digit_char(d)
    } else {
        (('A' as nat) + (d - 10)) as char
    }
}

/// The last `n` upper-case hexadecimal digits of `v`.
pub open spec fn hex_upper_digits(v: nat, n: nat) -> Seq<char>
    decreases n,
{
    if n == 0 {
        Seq::empty()
    } else {
        hex_upper_digits(v / 16, (n - 1) as nat).push(hex_upper(v % 16))
    }
}

/// `#` and eight upper-case hexadecimal digits.
pub open spec fn argb_text(v: u32) -> Seq<char> {
    seq!['#'] + hex_upper_digits(v as nat, 8)
}

fn push_hex_upper(s: &mut String, v: u64, n: u64)
    requires
        n <= 16,
    ensures
        final(s)@ == old(s)@ + hex_upper_digits(v as nat, n as nat),
    decreases n,
{
    if n == 0 {
        assert(final(s)@ =~= old(s)@ + hex_upper_digits(v as nat, n as nat));
        return;
    }
    push_hex_upper(s, v / 16, n - 1);
    let d = v % 16;
    let c = if d < 10 { digit(d) } else { ((65 + (d - 10)) as u8) as char };
    assert(c == hex_upper(d as nat));
    s.push(c);
}

fn argb_str(v: u32) -> (r: String)
    ensures
        r@ == argb_text(v),
{
    let mut s = String::new();
    s.push('#');
    push_hex_upper(&mut s, v as u64, 8);
    assert(s@ =~= argb_text(v));
    s
}

pub open spec fn cap_text(c: u8) -> Seq<char> {
    if c == 0 {
        "round"@
    } else if c == 1 {
        "butt"@
    } else if c == 2 {
        "square"@
    } else {
        dec_digits(c as nat)
    }
}

pub open spec fn join_text(j: u8) -> Seq<char> {
    if j == 0 {
        "round"@
    } else if j == 1 {
        "bevel"@
    } else if j == 2 {
        "no"@
    } else {
        dec_digits(j as nat)
    }
}

fn cap_str(c: u8) -> (r: String)
    ensures
        r@ == cap_text(c),
{
    if c == 0 {
        String::from_str("round")
    } else if c == 1 {
        String::from_str("butt")
    } else if c == 2 {
        String::from_str("square")
    } else {
        let mut s = String::new();
        push_u64(&mut s, c as u64);
        assert(s@ =~= dec_digits(c as nat));
        s
    }
}

fn join_str(j: u8) -> (r: String)
    ensures
        r@ == join_text(j),
{
    if j == 0 {
        String::from_str("round")
    } else if j == 1 {
        String::from_str("bevel")
    } else if j == 2 {
        String::from_str("no")
    } else {
        let mut s = String::new();
        push_u64(&mut s, j as u64);
        assert(s@ =~= dec_digits(j as nat));
        s
    }
}

/// A palette entry whose colors are all zero.
pub open spec fn transparent(pal: Seq<Seq<u32>>, idx: u32) -> bool {
    (idx as int) < pal.len() && forall|v: int| 0 <= v < pal[idx as int].len() ==> pal[idx as int][v] == 0
}

fn is_transparent(pal: &Vec<Vec<u32>>, idx: u32) -> (r: bool)
    ensures
        r == transparent(key_views(pal@), idx),
{
    let i = idx as usize;
    if !((idx as u64) < (pal.len() as u64)) || i >= pal.len() {
        return false;
    }
    let row = &pal[i];
    assert(key_views(pal@)[i as int] == row@);
    for v in 0..row.len()
        invariant
            i == idx as usize,
            (idx as int) < key_views(pal@).len(),
            (idx as int) == i as int,
            row@ == key_views(pal@)[idx as int],
            forall|w: int| 0 <= w < v ==> row@[w] == 0,
    {
        if row[v] != 0 {
            return false;
        }
    }
    true
}

/// `text` preceded by `name`.
fn labeled(name: &str, text: String) -> (r: String)
    ensures
        r@ == name@ + text@,
{
    let mut s = str_to_string(name);
    s.append(text.as_str());
    s
}

fn labeled_int(name: &str, v: i32) -> (r: String)
    ensures
        r@ == name@ + dec_int(v as int),
{
    let mut s = str_to_string(name);
    push_i64(&mut s, v as i64);
    s
}

fn labeled_color(name: &str, v: u32) -> (r: String)
    ensures
        r@ == name@ + color_id(v as nat),
{
    labeled(name, color_id_str(v as u64))
}

// ------------------------------------------------------------------ lines

/// The parts of a line: width, color, join, cap, dashes, path symbol and
/// (where lines carry one) priority.
pub open spec fn line_parts(
    width: u64,
    color: u32,
    prio: Option<i32>,
    jn: u8,
    cap: u8,
    d: DashDotView,
    p: PathSymView,
    ft: Seq<(u64, Seq<char>)>,
) -> Seq<Seq<char>> {
    let s = seq!["width="@ + real_text(width, ft), "color="@ + color_id(color as nat), "join="@ + join_text(jn), "cap="@ + cap_text(cap)];
    let s = push_if(s, d.dd.len() > 0, "dash=["@ + join(d.dd.map_values(|x: u64| real_text(x, ft)), ","@) + "]"@);
    let s = push_if(s, d.dd.len() > 0 && !is_zero_bits(d.offset), "dash_offset="@ + real_text(d.offset, ft));
    let s = push_if(
        s,
        p.is_set(),
        "pathsym="@ + p.name + " step="@ + real_text(p.step, ft) + " offset="@ + real_text(p.offset, ft),
    );
    match prio {
        Some(v) => s.push("priority="@ + dec_int(v as int)),
        None => s,
    }
}

fn dash_list(d: &DashDot, floats: &FloatTexts) -> (r: String)
    ensures
        r@ == "dash=["@ + join(d@.dd.map_values(|x: u64| real_text(x, floats@)), ","@) + "]"@,
{
    let mut items: Vec<String> = Vec::new();
    for i in 0..d.dd.len()
        invariant
            items@.len() == i,
            forall|j: int| 0 <= j < i ==> #[trigger] items@[j]@ == real_text(d@.dd[j], floats@),
    {
        items.push(floats.text(d.dd[i]));
    }
    assert(texts(items@) =~= d@.dd.map_values(|x: u64| real_text(x, floats@)));
    let inner = join_parts(&items, ",");
    let mut s = String::from_str("dash=[");
    s.append(inner.as_str());
    s.append("]");
    s
}

fn line_str(
    width: u64,
    color: u32,
    prio: Option<i32>,
    jn: u8,
    cap: u8,
    d: &DashDot,
    p: &PathSym,
    floats: &FloatTexts,
) -> (r: String)
    ensures
        r@ == crate::canonical::join(line_parts(width, color, prio, jn, cap, d@, p@, floats@), " "@),
{
    let ghost ft = floats@;
    let mut parts: Vec<String> = Vec::new();
    push_text(&mut parts, labeled("width=", floats.text(width)));
    push_text(&mut parts, labeled_color("color=", color));
    push_text(&mut parts, labeled("join=", join_str(jn)));
    push_text(&mut parts, labeled("cap=", cap_str(cap)));
    let ghost mut acc = seq!["width="@ + real_text(width, ft), "color="@ + color_id(color as nat), "join="@ + join_text(jn), "cap="@ + cap_text(cap)];
    assert(texts(parts@) =~= acc);
    if d.dd.len() > 0 {
        push_text(&mut parts, dash_list(d, floats));
    }
    proof {
        acc = push_if(acc, d@.dd.len() > 0, "dash=["@ + join(d@.dd.map_values(|x: u64| real_text(x, ft)), ","@) + "]"@);
    }
    assert(texts(parts@) == acc);
    if d.dd.len() > 0 && d.offset % 0x8000_0000_0000_0000 != 0 {
        push_text(&mut parts, labeled("dash_offset=", floats.text(d.offset)));
    }
    proof {
        acc = push_if(acc, d@.dd.len() > 0 && !is_zero_bits(d@.offset), "dash_offset="@ + real_text(d@.offset, ft));
    }
    assert(texts(parts@) == acc);
    if p.is_set() {
        let mut s = String::from_str("pathsym=");
        s.append(p.name.as_str());
        s.append(" step=");
        s.append(floats.text(p.step).as_str());
        s.append(" offset=");
        s.append(floats.text(p.offset).as_str());
        push_text(&mut parts, s);
    }
    proof {
        acc = push_if(
            acc,
            p@.is_set(),
            "pathsym="@ + p@.name + " step="@ + real_text(p@.step, ft) + " offset="@ + real_text(p@.offset, ft),
        );
    }
    assert(texts(parts@) == acc);
    match prio {
        Some(v) => {
            push_text(&mut parts, labeled_int("priority=", v));
        },
        None => {},
    }
    assert(texts(parts@) == line_parts(width, color, prio, jn, cap, d@, p@, ft));
    join_parts(&parts, " ")
}

pub open spec fn line_rule_text(l: LineRuleView, ft: Seq<(u64, Seq<char>)>) -> Seq<char> {
    join(line_parts(l.width, l.color, Some(l.priority), l.join, l.cap, l.dashdot, l.pathsym, ft), " "@)
}

pub open spec fn line_def_text(l: LineDefView, ft: Seq<(u64, Seq<char>)>) -> Seq<char> {
    join(line_parts(l.width, l.color, None, l.join, l.cap, l.dashdot, l.pathsym, ft), " "@)
}

// ------------------------------------------------------------------ captions

pub open spec fn caption_def_parts(cd: CaptionDefView, pal: Seq<Seq<u32>>) -> Seq<Seq<char>> {
    let s = seq!["height="@ + dec_int(cd.height as int), "color="@ + color_id(cd.color as nat)];
    let s = push_if(s, !transparent(pal, cd.stroke_color), "stroke="@ + color_id(cd.stroke_color as nat));
    let s = push_if(s, cd.offset_x != 0, "dx="@ + dec_int(cd.offset_x as int));
    let s = push_if(s, cd.offset_y != 0, "dy="@ + dec_int(cd.offset_y as int));
    let s = push_if(s, cd.text.len() > 0, "text="@ + repr_text(cd.text));
    push_if(s, cd.is_optional, "optional"@)
}

proof fn lemma_push_if_elems(s: Seq<Seq<char>>, c: bool, p: Seq<char>)
    ensures
        forall|i: int| 0 <= i < push_if(s, c, p).len() ==> (i < s.len() && push_if(s, c, p)[i] == s[i]) || (c && #[trigger] push_if(s, c, p)[i] == p),
        forall|i: int| 0 <= i < s.len() ==> #[trigger] push_if(s, c, p)[i] == s[i],
        push_if(s, c, p).len() == s.len() + (if c { 1int } else { 0int }),
        c ==> push_if(s, c, p)[s.len() as int] == p,
{
    if c {
        assert(push_if(s, c, p)[s.len() as int] == p);
    } else {
        assert(push_if(s, c, p) == s);
    }
}

/// The two characters a text starts with.
spec fn starts2(p: Seq<char>, a: char, b: char) -> bool {
    p.len() >= 2 && p[0] == a && p[1] == b
}

/// The offsets of a caption definition are written as its `dx=` and `dy=`
/// fields: each is there exactly when the offset is not zero, and reads
/// `dx=` / `dy=` followed by the decimal text of `offset_x` / `offset_y`.
pub proof fn lemma_caption_offset_fields(cd: CaptionDefView, pal: Seq<Seq<u32>>)
    ensures
        (exists|i: int| 0 <= i < caption_def_parts(cd, pal).len() && starts_with(#[trigger] caption_def_parts(cd, pal)[i], "dy="@))
            <==> cd.offset_y != 0,
        forall|i: int| 0 <= i < caption_def_parts(cd, pal).len() && starts_with(#[trigger] caption_def_parts(cd, pal)[i], "dy="@)
            ==> caption_def_parts(cd, pal)[i] == "dy="@ + dec_int(cd.offset_y as int),
        (exists|i: int| 0 <= i < caption_def_parts(cd, pal).len() && starts_with(#[trigger] caption_def_parts(cd, pal)[i], "dx="@))
            <==> cd.offset_x != 0,
        forall|i: int| 0 <= i < caption_def_parts(cd, pal).len() && starts_with(#[trigger] caption_def_parts(cd, pal)[i], "dx="@)
            ==> caption_def_parts(cd, pal)[i] == "dx="@ + dec_int(cd.offset_x as int),
        forall|i: int, j: int|
            0 <= i < caption_def_parts(cd, pal).len() && 0 <= j < caption_def_parts(cd, pal).len() && starts_with(
                #[trigger] caption_def_parts(cd, pal)[i],
                "dx="@,
            ) && starts_with(#[trigger] caption_def_parts(cd, pal)[j], "dy="@) ==> i < j,
{
    reveal_strlit("height=");
    reveal_strlit("color=");
    reveal_strlit("stroke=");
    reveal_strlit("dx=");
    reveal_strlit("dy=");
    reveal_strlit("text=");
    reveal_strlit("optional");
    let h = "height="@ + dec_int(cd.height as int);
    let c = "color="@ + color_id(cd.color as nat);
    let st = "stroke="@ + color_id(cd.stroke_color as nat);
    let dx = "dx="@ + dec_int(cd.offset_x as int);
    let dy = "dy="@ + dec_int(cd.offset_y as int);
    let tx = "text="@ + repr_text(cd.text);
    let op = "optional"@;
    let s0 = seq![h, c];
    let s1 = push_if(s0, !transparent(pal, cd.stroke_color), st);
    let s2 = push_if(s1, cd.offset_x != 0, dx);
    let s3 = push_if(s2, cd.offset_y != 0, dy);
    let s4 = push_if(s3, cd.text.len() > 0, tx);
    let ps = push_if(s4, cd.is_optional, op);
    assert(ps == caption_def_parts(cd, pal));
    lemma_push_if_elems(s0, !transparent(pal, cd.stroke_color), st);
    lemma_push_if_elems(s1, cd.offset_x != 0, dx);
    lemma_push_if_elems(s2, cd.offset_y != 0, dy);
    lemma_push_if_elems(s3, cd.text.len() > 0, tx);
    lemma_push_if_elems(s4, cd.is_optional, op);
    assert(starts2(h, 'h', 'e') && starts2(c, 'c', 'o') && starts2(st, 's', 't') && starts2(dx, 'd', 'x'));
    assert(starts2(dy, 'd', 'y') && starts2(tx, 't', 'e') && starts2(op, 'o', 'p'));
    assert(starts_with(dy, "dy="@)) by {
        assert(dy.subrange(0, 3) =~= "dy="@);
    }
    assert(starts_with(dx, "dx="@)) by {
        assert(dx.subrange(0, 3) =~= "dx="@);
    }
    assert forall|i: int| 0 <= i < ps.len() implies #[trigger] ps[i] == h || ps[i] == c || ps[i] == st || ps[i] == dx || ps[i] == dy
        || ps[i] == tx || ps[i] == op by {
        if i < s4.len() {
            assert(ps[i] == s4[i] || ps[i] == op);
            if i < s3.len() {
                if i < s2.len() {
                    if i < s1.len() {
                        if i < s0.len() {
                        }
                    }
                }
            }
        }
    }
    assert forall|i: int| 0 <= i < ps.len() && starts_with(#[trigger] ps[i], "dy="@) implies ps[i] == dy by {
        assert(ps[i][0] == "dy="@[0] && ps[i][1] == "dy="@[1]);
    }
    assert forall|i: int| 0 <= i < ps.len() && starts_with(#[trigger] ps[i], "dx="@) implies ps[i] == dx by {
        assert(ps[i][0] == "dx="@[0] && ps[i][1] == "dx="@[1]);
    }
    assert forall|i: int| 0 <= i < ps.len() && starts_with(#[trigger] ps[i], "dx="@) implies i == s1.len() by {
        assert(ps[i][0] == "dx="@[0] && ps[i][1] == "dx="@[1]);
        if i < s1.len() {
            assert(ps[i] == s4[i] && s4[i] == s3[i] && s3[i] == s2[i] && s2[i] == s1[i]);
            if i < 2 {
                assert(s1[i] == s0[i]);
            }
        } else if i > s1.len() {
            if i < s2.len() {
            } else if i < s3.len() {
                assert(ps[i] == s4[i] && s4[i] == s3[i] && s3[i] == dy);
            } else if i < s4.len() {
                assert(ps[i] == s4[i] && s4[i] == tx);
            } else {
                assert(ps[i] == op);
            }
        }
    }
    assert forall|j: int| 0 <= j < ps.len() && starts_with(#[trigger] ps[j], "dy="@) implies j == s2.len() by {
        assert(ps[j][0] == "dy="@[0] && ps[j][1] == "dy="@[1]);
        if j < s2.len() {
            assert(ps[j] == s4[j] && s4[j] == s3[j] && s3[j] == s2[j]);
            if j < s1.len() {
                assert(s2[j] == s1[j]);
                if j < 2 {
                    assert(s1[j] == s0[j]);
                }
            } else {
                assert(s2[j] == dx);
            }
        } else if j > s2.len() {
            if j < s3.len() {
            } else if j < s4.len() {
                assert(ps[j] == s4[j] && s4[j] == tx);
            } else {
                assert(ps[j] == op);
            }
        }
    }
    if cd.offset_y != 0 {
        assert(s3[s2.len() as int] == dy);
        assert(ps[s2.len() as int] == dy);
    } else {
        assert forall|i: int| 0 <= i < ps.len() implies !starts_with(#[trigger] ps[i], "dy="@) by {
            if starts_with(ps[i], "dy="@) {
                assert(ps[i][0] == "dy="@[0] && ps[i][1] == "dy="@[1]);
                assert(ps[i] == dy);
                assert(s3 == s2);
            }
        }
    }
    if cd.offset_x != 0 {
        assert(s2[s1.len() as int] == dx);
        assert(ps[s1.len() as int] == dx);
    } else {
        assert forall|i: int| 0 <= i < ps.len() implies !starts_with(#[trigger] ps[i], "dx="@) by {
            if starts_with(ps[i], "dx="@) {
                assert(ps[i][0] == "dx="@[0] && ps[i][1] == "dx="@[1]);
                assert(ps[i] == dx);
            }
        }
    }
}

fn caption_def_str(cd: &CaptionDef, pal: &Vec<Vec<u32>>) -> (r: String)
    ensures
        r@ == join(caption_def_parts(cd@, key_views(pal@)), " "@),
{
    let ghost pv = key_views(pal@);
    let mut parts: Vec<String> = Vec::new();
    push_text(&mut parts, labeled_int("height=", cd.height));
    push_text(&mut parts, labeled_color("color=", cd.color));
    let ghost mut acc = seq!["height="@ + dec_int(cd@.height as int), "color="@ + color_id(cd@.color as nat)];
    assert(texts(parts@) =~= acc);
    if !is_transparent(pal, cd.stroke_color) {
        push_text(&mut parts, labeled_color("stroke=", cd.stroke_color));
    }
    proof {
        acc = push_if(acc, !transparent(pv, cd@.stroke_color), "stroke="@ + color_id(cd@.stroke_color as nat));
    }
    assert(texts(parts@) == acc);
    if cd.offset_x != 0 {
        push_text(&mut parts, labeled_int("dx=", cd.offset_x));
    }
    proof {
        acc = push_if(acc, cd@.offset_x != 0, "dx="@ + dec_int(cd@.offset_x as int));
    }
    assert(texts(parts@) == acc);
    if cd.offset_y != 0 {
        push_text(&mut parts, labeled_int("dy=", cd.offset_y));
    }
    proof {
        acc = push_if(acc, cd@.offset_y != 0, "dy="@ + dec_int(cd@.offset_y as int));
    }
    assert(texts(parts@) == acc);
    if !cd.text.as_str().is_empty() {
        push_text(&mut parts, labeled("text=", repr_str(cd.text.as_str())));
    }
    proof {
        acc = push_if(acc, cd@.text.len() > 0, "text="@ + repr_text(cd@.text));
    }
    assert(texts(parts@) == acc);
    if cd.is_optional {
        push_text(&mut parts, String::from_str("optional"));
    }
    assert(texts(parts@) == caption_def_parts(cd@, pv));
    join_parts(&parts, " ")
}

pub open spec fn caption_parts(keyword: Seq<char>, c: CaptionRuleView, pal: Seq<Seq<u32>>) -> Seq<Seq<char>> {
    let s = seq![keyword];
    let s = push_if(s, c.primary.is_set(), "primary["@ + join(caption_def_parts(c.primary, pal), " "@) + "]"@);
    let s = push_if(s, c.secondary.is_set(), "secondary["@ + join(caption_def_parts(c.secondary, pal), " "@) + "]"@);
    s.push("priority="@ + dec_int(c.priority as int))
}

fn bracketed(name: &str, inner: String) -> (r: String)
    ensures
        r@ == name@ + inner@ + "]"@,
{
    let mut s = str_to_string(name);
    s.append(inner.as_str());
    s.append("]");
    s
}

fn caption_str(keyword: &str, c: &CaptionRule, pal: &Vec<Vec<u32>>) -> (r: String)
    ensures
        r@ == join(caption_parts(keyword@, c@, key_views(pal@)), " "@),
{
    let ghost pv = key_views(pal@);
    let mut parts: Vec<String> = Vec::new();
    push_text(&mut parts, str_to_string(keyword));
    let ghost mut acc = seq![keyword@];
    assert(texts(parts@) =~= acc);
    if c.primary.is_set() {
        push_text(&mut parts, bracketed("primary[", caption_def_str(&c.primary, pal)));
    }
    proof {
        acc = push_if(acc, c@.primary.is_set(), "primary["@ + join(caption_def_parts(c@.primary, pv), " "@) + "]"@);
    }
    assert(texts(parts@) == acc);
    if c.secondary.is_set() {
        push_text(&mut parts, bracketed("secondary[", caption_def_str(&c.secondary, pal)));
    }
    proof {
        acc = push_if(acc, c@.secondary.is_set(), "secondary["@ + join(caption_def_parts(c@.secondary, pv), " "@) + "]"@);
    }
    assert(texts(parts@) == acc);
    push_text(&mut parts, labeled_int("priority=", c.priority));
    join_parts(&parts, " ")
}


// ------------------------------------------------------------------ elements

pub open spec fn quoted(a: Seq<char>) -> Seq<char> {
    seq!['"'] + a + seq!['"']
}

/// The head line of an element: its scale and `apply_if` conditions.
pub open spec fn element_head(el: DrawElementView) -> Seq<char> {
    "  z"@ + dec_digits(el.scale as nat) + (if el.apply_if.len() > 0 {
        " if "@ + join(el.apply_if.map_values(|a: Seq<char>| quoted(a)), " and "@)
    } else {
        Seq::empty()
    })
}

pub open spec fn area_parts(a: AreaRuleView, ft: Seq<(u64, Seq<char>)>) -> Seq<Seq<char>> {
    push_if(seq!["color="@ + color_id(a.color as nat)], a.border.is_set(), "border["@ + line_def_text(a.border, ft) + "]"@).push(
        "priority="@ + dec_int(a.priority as int),
    )
}

pub open spec fn symbol_parts(sy: SymbolRuleView) -> Seq<Seq<char>> {
    push_if(
        push_if(
            seq!["name="@ + sy.name, "priority="@ + dec_int(sy.priority as int)],
            sy.apply_for_type != 0,
            "apply_for_type="@ + dec_int(sy.apply_for_type as int),
        ),
        sy.min_distance != 0,
        "min_distance="@ + dec_int(sy.min_distance as int),
    )
}

pub open spec fn shield_parts(sh: ShieldRuleView, pal: Seq<Seq<u32>>) -> Seq<Seq<char>> {
    let s = seq!["height="@ + dec_int(sh.height as int), "color="@ + color_id(sh.color as nat)];
    let s = push_if(s, !transparent(pal, sh.stroke_color), "stroke="@ + color_id(sh.stroke_color as nat));
    let s = s.push("text_color="@ + color_id(sh.text_color as nat));
    let s = push_if(s, !transparent(pal, sh.text_stroke_color), "text_stroke="@ + color_id(sh.text_stroke_color as nat));
    let s = s.push("priority="@ + dec_int(sh.priority as int));
    push_if(s, sh.min_distance != 0, "min_distance="@ + dec_int(sh.min_distance as int))
}

/// The lines of one element: head, lines, area, symbol, caption, path text,
/// shield.
#[verifier::opaque]
pub open spec fn element_lines(el: DrawElementView, pal: Seq<Seq<u32>>, ft: Seq<(u64, Seq<char>)>) -> Seq<Seq<char>> {
    let s = seq![element_head(el)] + Seq::new(el.lines.len(), |k: int| "    line "@ + line_rule_text(el.lines[k], ft));
    let s = push_if(s, el.area.is_set(), "    area "@ + join(area_parts(el.area, ft), " "@));
    let s = push_if(s, el.symbol.is_set(), "    symbol "@ + join(symbol_parts(el.symbol), " "@));
    let s = push_if(s, el.caption.is_set(), "    "@ + join(caption_parts("caption"@, el.caption, pal), " "@));
    let s = push_if(s, el.path_text.is_set(), "    "@ + join(caption_parts("path_text"@, el.path_text, pal), " "@));
    push_if(s, el.shield.is_set(), "    shield "@ + join(shield_parts(el.shield, pal), " "@))
}

fn head_str(el: &DrawElement) -> (r: String)
    ensures
        r@ == element_head(el@),
{
    let mut s = String::from_str("  z");
    push_u64(&mut s, el.scale as u64);
    if el.apply_if.len() > 0 {
        let mut items: Vec<String> = Vec::new();
        for i in 0..el.apply_if.len()
            invariant
                items@.len() == i,
                forall|j: int| 0 <= j < i ==> #[trigger] items@[j]@ == quoted(el@.apply_if[j]),
        {
            let mut q = String::new();
            q.push('"');
            q.append(el.apply_if[i].as_str());
            q.push('"');
            assert(q@ =~= quoted(el@.apply_if[i as int]));
            items.push(q);
        }
        assert(texts(items@) =~= el@.apply_if.map_values(|a: Seq<char>| quoted(a)));
        s.append(" if ");
        s.append(join_parts(&items, " and ").as_str());
    }
    proof {
        if el@.apply_if.len() == 0 {
            assert(s@ =~= element_head(el@));
        }
    }
    s
}

fn area_str(a: &AreaRule, floats: &FloatTexts) -> (r: String)
    ensures
        r@ == "    area "@ + join(area_parts(a@, floats@), " "@),
{
    let mut parts: Vec<String> = Vec::new();
    push_text(&mut parts, labeled_color("color=", a.color));
    let ghost mut acc = seq!["color="@ + color_id(a@.color as nat)];
    assert(texts(parts@) =~= acc);
    if a.border.is_set() {
        let b = &a.border;
        push_text(&mut parts, bracketed("border[", line_str(b.width, b.color, None, b.join, b.cap, &b.dashdot, &b.pathsym, floats)));
    }
    push_text(&mut parts, labeled_int("priority=", a.priority));
    labeled("    area ", join_parts(&parts, " "))
}

fn symbol_str(sy: &SymbolRule) -> (r: String)
    ensures
        r@ == "    symbol "@ + join(symbol_parts(sy@), " "@),
{
    let mut parts: Vec<String> = Vec::new();
    push_text(&mut parts, labeled("name=", sy.name.clone()));
    push_text(&mut parts, labeled_int("priority=", sy.priority));
    let ghost acc = seq!["name="@ + sy@.name, "priority="@ + dec_int(sy@.priority as int)];
    assert(texts(parts@) =~= acc);
    if sy.apply_for_type != 0 {
        push_text(&mut parts, labeled_int("apply_for_type=", sy.apply_for_type));
    }
    if sy.min_distance != 0 {
        push_text(&mut parts, labeled_int("min_distance=", sy.min_distance));
    }
    labeled("    symbol ", join_parts(&parts, " "))
}

fn shield_str(sh: &ShieldRule, pal: &Vec<Vec<u32>>) -> (r: String)
    ensures
        r@ == "    shield "@ + join(shield_parts(sh@, key_views(pal@)), " "@),
{
    let ghost pv = key_views(pal@);
    let mut parts: Vec<String> = Vec::new();
    push_text(&mut parts, labeled_int("height=", sh.height));
    push_text(&mut parts, labeled_color("color=", sh.color));
    let ghost mut acc = seq!["height="@ + dec_int(sh@.height as int), "color="@ + color_id(sh@.color as nat)];
    assert(texts(parts@) =~= acc);
    if !is_transparent(pal, sh.stroke_color) {
        push_text(&mut parts, labeled_color("stroke=", sh.stroke_color));
    }
    proof {
        acc = push_if(acc, !transparent(pv, sh@.stroke_color), "stroke="@ + color_id(sh@.stroke_color as nat));
    }
    assert(texts(parts@) == acc);
    push_text(&mut parts, labeled_color("text_color=", sh.text_color));
    proof {
        acc = acc.push("text_color="@ + color_id(sh@.text_color as nat));
    }
    if !is_transparent(pal, sh.text_stroke_color) {
        push_text(&mut parts, labeled_color("text_stroke=", sh.text_stroke_color));
    }
    proof {
        acc = push_if(acc, !transparent(pv, sh@.text_stroke_color), "text_stroke="@ + color_id(sh@.text_stroke_color as nat));
    }
    assert(texts(parts@) == acc);
    push_text(&mut parts, labeled_int("priority=", sh.priority));
    if sh.min_distance != 0 {
        push_text(&mut parts, labeled_int("min_distance=", sh.min_distance));
    }
    labeled("    shield ", join_parts(&parts, " "))
}

fn push_element_lines(out: &mut Vec<String>, el: &DrawElement, pal: &Vec<Vec<u32>>, floats: &FloatTexts)
    ensures
        texts(final(out)@) == texts(old(out)@) + element_lines(el@, key_views(pal@), floats@),
{
    reveal(element_lines);
    let ghost ft = floats@;
    let ghost pv = key_views(pal@);
    let ghost start = texts(out@);
    push_text(out, head_str(el));
    let ghost lf = |k: int| "    line "@ + line_rule_text(el@.lines[k], ft);
    assert(texts(out@) =~= start + seq![element_head(el@)] + Seq::new(0, lf));
    for k in 0..el.lines.len()
        invariant
            lf == (|k: int| "    line "@ + line_rule_text(el@.lines[k], ft)),
            ft == floats@,
            texts(out@) == start + seq![element_head(el@)] + Seq::new(k as nat, lf),
    {
        let l = &el.lines[k];
        push_text(out, labeled("    line ", line_str(l.width, l.color, Some(l.priority), l.join, l.cap, &l.dashdot, &l.pathsym, floats)));
        assert(texts(out@) =~= start + seq![element_head(el@)] + Seq::new((k + 1) as nat, lf));
    }
    let ghost mut acc = seq![element_head(el@)] + Seq::new(el@.lines.len(), lf);
    assert(texts(out@) =~= start + acc);
    if el.area.is_set() {
        push_text(out, area_str(&el.area, floats));
    }
    proof {
        acc = push_if(acc, el@.area.is_set(), "    area "@ + join(area_parts(el@.area, ft), " "@));
    }
    assert(texts(out@) =~= start + acc);
    if el.symbol.is_set() {
        push_text(out, symbol_str(&el.symbol));
    }
    proof {
        acc = push_if(acc, el@.symbol.is_set(), "    symbol "@ + join(symbol_parts(el@.symbol), " "@));
    }
    assert(texts(out@) =~= start + acc);
    if el.caption.is_set() {
        push_text(out, labeled("    ", caption_str("caption", &el.caption, pal)));
    }
    proof {
        acc = push_if(acc, el@.caption.is_set(), "    "@ + join(caption_parts("caption"@, el@.caption, pv), " "@));
    }
    assert(texts(out@) =~= start + acc);
    if el.path_text.is_set() {
        push_text(out, labeled("    ", caption_str("path_text", &el.path_text, pal)));
    }
    proof {
        acc = push_if(acc, el@.path_text.is_set(), "    "@ + join(caption_parts("path_text"@, el@.path_text, pv), " "@));
    }
    assert(texts(out@) =~= start + acc);
    if el.shield.is_set() {
        push_text(out, shield_str(&el.shield, pal));
    }
    proof {
        acc = push_if(acc, el@.shield.is_set(), "    shield "@ + join(shield_parts(el@.shield, pv), " "@));
    }
    assert(texts(out@) =~= start + acc);
}


// ------------------------------------------------------------------ the dump

pub open spec fn type_lines(ce: ClassifElementView, pal: Seq<Seq<u32>>, ft: Seq<(u64, Seq<char>)>) -> Seq<Seq<char>> {
    seq!["type "@ + ce.name] + flat(Seq::new(ce.element.len(), |j: int| element_lines(ce.element[j], pal, ft)))
}

pub open spec fn palette_line(pal: Seq<Seq<u32>>, e: int) -> Seq<char> {
    "  "@ + color_id(e as nat) + " "@ + join(pal[e].map_values(|v: u32| argb_text(v)), " "@)
}

pub open spec fn named_lines(t: ContainerView, ix: Seq<int>) -> Seq<Seq<char>> {
    if t.colors.value.len() > 0 {
        seq!["named-colors:"@] + Seq::new(
            t.colors.value.len(),
            |m: int| "  "@ + t.colors.value[m].name + " "@ + color_id(ix[m] as nat),
        )
    } else {
        Seq::empty()
    }
}

/// The lines of the dump of a template with its palette.
pub open spec fn dump_lines(
    tpl: ContainerView,
    pal: Seq<Seq<u32>>,
    ix: Seq<int>,
    names: Seq<Seq<char>>,
    ft: Seq<(u64, Seq<char>)>,
) -> Seq<Seq<char>> {
    seq!["# drules text dump, format 1. Generated by generate_drules.sh - do not edit."@, "variants: "@ + join(names, " "@), "colors:"@]
        + Seq::new(pal.len(), |e: int| palette_line(pal, e)) + named_lines(tpl, ix) + flat(
        Seq::new(tpl.cont.len(), |i: int| type_lines(tpl.cont[i], pal, ft)),
    )
}

/// The dump of a family that can be indexed.
pub open spec fn dump_text(cs: Seq<ContainerView>, names: Seq<Seq<char>>, ft: Seq<(u64, Seq<char>)>) -> Seq<char> {
    join(dump_lines(template_of(cs), palette_of(cs), slot_indices(cs), names, ft), "\n"@) + "\n"@
}

/// Why a family cannot be dumped, if it cannot.
pub open spec fn dump_error(cs: Seq<ContainerView>) -> Option<Seq<char>> {
    if !isomorphic(cs) || !shaped(cs) {
        Some("drules variants are not isomorphic modulo colors; per-variant overrides are not supported yet"@)
    } else {
        None
    }
}

fn push_type_lines(out: &mut Vec<String>, ce: &ClassifElement, pal: &Vec<Vec<u32>>, floats: &FloatTexts)
    ensures
        texts(final(out)@) == texts(old(out)@) + type_lines(ce@, key_views(pal@), floats@),
{
    let ghost start = texts(out@);
    push_text(out, labeled("type ", ce.name.clone()));
    let ghost f = |j: int| element_lines(ce@.element[j], key_views(pal@), floats@);
    assert(flat(Seq::new(0, f)) =~= Seq::<Seq<char>>::empty());
    assert(texts(out@) =~= start + seq!["type "@ + ce@.name] + flat(Seq::new(0, f)));
    for j in 0..ce.element.len()
        invariant
            f == (|j: int| element_lines(ce@.element[j], key_views(pal@), floats@)),
            texts(out@) == start + seq!["type "@ + ce@.name] + flat(Seq::new(j as nat, f)),
    {
        push_element_lines(out, &ce.element[j], pal, floats);
        proof {
            lemma_flat_new_push(j as nat, f);
        }
        assert(texts(out@) =~= start + seq!["type "@ + ce@.name] + flat(Seq::new((j + 1) as nat, f)));
    }
    assert(texts(out@) =~= start + type_lines(ce@, key_views(pal@), floats@));
}

fn palette_line_str(pal: &Vec<Vec<u32>>, e: usize) -> (r: String)
    requires
        e < pal@.len(),
    ensures
        r@ == palette_line(key_views(pal@), e as int),
{
    let row = &pal[e];
    assert(key_views(pal@)[e as int] == row@);
    let mut items: Vec<String> = Vec::new();
    for v in 0..row.len()
        invariant
            items@.len() == v,
            forall|j: int| 0 <= j < v ==> #[trigger] items@[j]@ == argb_text(row@[j]),
    {
        items.push(argb_str(row[v]));
    }
    assert(texts(items@) =~= row@.map_values(|v: u32| argb_text(v)));
    let mut s = String::from_str("  ");
    s.append(color_id_str(e as u64).as_str());
    s.append(" ");
    s.append(join_parts(&items, " ").as_str());
    s
}

fn join_names(names: &[String]) -> (r: String)
    ensures
        r@ == join(name_views(names@), " "@),
{
    let mut v: Vec<String> = Vec::new();
    for i in 0..names.len()
        invariant
            v@.len() == i,
            forall|j: int| 0 <= j < i ==> #[trigger] v@[j]@ == names@[j]@,
    {
        v.push(names[i].clone());
    }
    assert(texts(v@) =~= name_views(names@));
    join_parts(&v, " ")
}

/// The canonical, deterministic, inspection-only text dump of a family of
/// variants side by side. `floats` gives the texts of the template's reals.
pub fn serialize_text(containers: &[Container], variant_names: &[String], floats: &FloatTexts) -> (r: Result<String, String>)
    requires
        containers@.len() >= 1,
    ensures
        match r {
            Ok(t) => dump_error(container_views(containers@)) is None && t@ == dump_text(
                container_views(containers@),
                name_views(variant_names@),
                floats@,
            ),
            Err(e) => dump_error(container_views(containers@)) == Some(e@),
        },
{
    let ghost cvs = container_views(containers@);
    let empty = FloatTexts::new();
    let base = containers[0].canonical(true, &empty);
    for v in 1..containers.len()
        invariant
            cvs == container_views(containers@),
            containers@.len() > 0,
            empty@ == Seq::<(u64, Seq<char>)>::empty(),
            base@ == structure_key(cvs[0]),
            forall|w: int| 1 <= w < v ==> structure_key(#[trigger] cvs[w]) == structure_key(cvs[0]),
    {
        let key = containers[v].canonical(true, &empty);
        assert(cvs[v as int] == containers@[v as int]@);
        if key != base {
            assert(structure_key(cvs[v as int]) != structure_key(cvs[0]));
            assert(!isomorphic(cvs));
            return Err(String::from_str(
                "drules variants are not isomorphic modulo colors; per-variant overrides are not supported yet",
            ));
        }
    }
    for v in 0..containers.len()
        invariant
            cvs == container_views(containers@),
            containers@.len() > 0,
            isomorphic(cvs),
            forall|w: int| 0 <= w < v ==> same_shape(cvs[0], #[trigger] cvs[w]),
    {
        assert(cvs[v as int] == containers@[v as int]@);
        assert(cvs[0] == containers@[0]@);
        if !shapes_agree(&containers[0], &containers[v]) {
            assert(!shaped(cvs));
            return Err(String::from_str(
                "drules variants are not isomorphic modulo colors; per-variant overrides are not supported yet",
            ));
        }
    }
    assert forall|v: int| 0 <= v < containers@.len() implies same_shape(containers@[0]@, #[trigger] containers@[v]@) by {
        assert(cvs[v] == containers@[v]@);
        assert(cvs[0] == containers@[0]@);
    }
    let (template, palette, idx) = index_family(containers);
    let ghost pv = key_views(palette@);
    let ghost ixs = slot_indices(cvs);
    let ghost ft = floats@;
    let mut lines: Vec<String> = Vec::new();
    push_text(&mut lines, String::from_str("# drules text dump, format 1. Generated by generate_drules.sh - do not edit."));
    push_text(&mut lines, labeled("variants: ", join_names(variant_names)));
    push_text(&mut lines, String::from_str("colors:"));
    let ghost head = seq!["# drules text dump, format 1. Generated by generate_drules.sh - do not edit."@, "variants: "@ + join(name_views(variant_names@), " "@), "colors:"@];
    assert(texts(lines@) =~= head);
    let ghost pf = |e: int| palette_line(pv, e);
    for e in 0..palette.len()
        invariant
            pv == key_views(palette@),
            pf == (|e: int| palette_line(pv, e)),
            texts(lines@) == head + Seq::new(e as nat, pf),
    {
        push_text(&mut lines, palette_line_str(&palette, e));
        assert(texts(lines@) =~= head + Seq::new((e + 1) as nat, pf));
    }
    let ghost before_named = texts(lines@);
    proof {
        crate::palette::lemma_container_slots_len(cvs[0], cvs[0]);
    }
    if template.colors.value.len() > 0 {
        push_text(&mut lines, String::from_str("named-colors:"));
        let ghost nf = |m: int| "  "@ + template@.colors.value[m].name + " "@ + color_id(ixs[m] as nat);
        assert(texts(lines@) =~= before_named + seq!["named-colors:"@] + Seq::new(0, nf));
        for m in 0..template.colors.value.len()
            invariant
                nf == (|m: int| "  "@ + template@.colors.value[m].name + " "@ + color_id(ixs[m] as nat)),
                template@.colors.value.len() <= idx@.len(),
                forall|k: int| 0 <= k < idx@.len() ==> idx@[k] == #[trigger] ixs[k],
                texts(lines@) == before_named + seq!["named-colors:"@] + Seq::new(m as nat, nf),
        {
            let mut s = String::from_str("  ");
            s.append(template.colors.value[m].name.as_str());
            s.append(" ");
            s.append(color_id_str(idx[m] as u64).as_str());
            assert(idx@[m as int] == ixs[m as int]);
            push_text(&mut lines, s);
            assert(texts(lines@) =~= before_named + seq!["named-colors:"@] + Seq::new((m + 1) as nat, nf));
        }
    }
    assert(texts(lines@) =~= before_named + named_lines(template@, ixs));
    let ghost before_types = texts(lines@);
    let ghost tf = |i: int| type_lines(template@.cont[i], pv, ft);
    assert(flat(Seq::new(0, tf)) =~= Seq::<Seq<char>>::empty());
    assert(texts(lines@) =~= before_types + flat(Seq::new(0, tf)));
    for i in 0..template.cont.len()
        invariant
            pv == key_views(palette@),
            ft == floats@,
            tf == (|i: int| type_lines(template@.cont[i], pv, ft)),
            texts(lines@) == before_types + flat(Seq::new(i as nat, tf)),
    {
        push_type_lines(&mut lines, &template.cont[i], &palette, floats);
        proof {
            lemma_flat_new_push(i as nat, tf);
        }
        assert(texts(lines@) =~= before_types + flat(Seq::new((i + 1) as nat, tf)));
    }
    assert(texts(lines@) =~= dump_lines(template@, pv, ixs, name_views(variant_names@), ft));
    let mut out = join_parts(&lines, "\n");
    out.append("\n");
    Ok(out)
}

} // verus!
