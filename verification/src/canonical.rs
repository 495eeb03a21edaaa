//! Deterministic content strings of the builder messages, used as
//! de-duplication keys; with `skip_colors` the four color fields are left out,
//! which gives the structure-only key of the variant isomorphism check.
//!
//! Reals are written with the text that a [`FloatTexts`] table gives for
//! their bit pattern; a bit pattern missing from the table is written as `#`
//! and sixteen hexadecimal digits (`nan` for any NaN), which keeps two reals
//! apart exactly when their decimal texts differ.

use vstd::prelude::*;
use vstd::string::StringExecFns;
use crate::model::{DashDot, PathSym, LineDef, LineRule, AreaRule, SymbolRule, CaptionDef, CaptionRule, ShieldRule, DrawElement, ClassifElement, ColorElement, ColorsElement, Container, DashDotView, PathSymView, LineDefView, LineRuleView, AreaRuleView, SymbolRuleView, CaptionDefView, CaptionRuleView, ShieldRuleView, DrawElementView, ClassifElementView, ColorElementView, ColorsElementView, ContainerView};
use crate::text::{dec_int, push_u64, push_i64, push_str};
use crate::compat::{repr_text, repr_str, hex_char};

verus! {

/// Texts of reals by bit pattern (the first entry for a pattern counts).
pub struct FloatTexts {
    pub entries: Vec<(u64, String)>,
}

impl View for FloatTexts {
    type V = Seq<(u64, Seq<char>)>;

    open spec fn view(&self) -> Seq<(u64, Seq<char>)> {
        self.entries@.map_values(|e: (u64, String)| (e.0, e.1@))
    }
}

/// A NaN bit pattern.
pub open spec fn is_nan_bits(b: u64) -> bool {
    (b / 0x10_0000_0000_0000) % 2048 == 2047 && b % 0x10_0000_0000_0000 != 0
}

/// `+0.0` or `-0.0`: the default of a real field.
pub open spec fn is_zero_bits(b: u64) -> bool {
    b % 0x8000_0000_0000_0000 == 0
}

/// The last `n` hexadecimal digits of `v`.
pub open spec fn hex_digits(v: nat, n: nat) -> Seq<char>
    decreases n,
{
    if n == 0 {
        Seq::empty()
    } else {
        hex_digits(v / 16, (n - 1) as nat).push(hex_char(v % 16))
    }
}

/// The stand-in text of a real that has no entry in the table.
pub open spec fn bits_text(b: u64) -> Seq<char> {
    if is_nan_bits(b) {
        "nan"@
    } else {
        seq!['#'] + hex_digits(b as nat, 16)
    }
}

/// The text of the real with bit pattern `b`.
pub open spec fn real_text(b: u64, ft: Seq<(u64, Seq<char>)>) -> Seq<char>
    decreases ft.len(),
{
    if ft.len() == 0 {
        bits_text(b)
    } else if ft[0].0 == b {
        ft[0].1
    } else {
        real_text(b, ft.drop_first())
    }
}

/// `parts` joined with `sep` between neighbours.
pub open spec fn join(parts: Seq<Seq<char>>, sep: Seq<char>) -> Seq<char>
    decreases parts.len(),
{
    if parts.len() == 0 {
        Seq::empty()
    } else if parts.len() == 1 {
        parts[0]
    } else {
        join(parts.drop_last(), sep) + sep + parts.last()
    }
}

/// `s` with `p` appended when `c` holds.
pub open spec fn push_if(s: Seq<Seq<char>>, c: bool, p: Seq<char>) -> Seq<Seq<char>> {
    if c {
        s.push(p)
    } else {
        s
    }
}

/// The views of some strings.
pub open spec fn texts(v: Seq<String>) -> Seq<Seq<char>> {
    v.map_values(|s: String| s@)
}

pub open spec fn bool_text(b: bool) -> Seq<char> {
    if b {
        "True"@
    } else {
        "False"@
    }
}

/// `[a, b]` of reals.
pub open spec fn reals_list(v: Seq<u64>, ft: Seq<(u64, Seq<char>)>) -> Seq<char> {
    seq!['['] + join(v.map_values(|b: u64| real_text(b, ft)), ", "@) + seq![']']
}

/// `['a', 'b']` of strings.
pub open spec fn strings_list(v: Seq<Seq<char>>) -> Seq<char> {
    seq!['['] + join(v.map_values(|s: Seq<char>| repr_text(s)), ", "@) + seq![']']
}

/// Appends one part.
pub fn push_text(parts: &mut Vec<String>, item: String)
    ensures
        texts(final(parts)@) == texts(old(parts)@).push(item@),
{
    let ghost iv = item@;
    parts.push(item);
    assert(texts(parts@) =~= texts(old(parts)@).push(iv));
}

/// Joins `parts` with `sep`.
pub fn join_parts(parts: &Vec<String>, sep: &str) -> (r: String)
    ensures
        r@ == join(texts(parts@), sep@),
{
    let mut r = String::new();
    for i in 0..parts.len()
        invariant
            r@ == join(texts(parts@.take(i as int)), sep@),
    {
        assert(texts(parts@.take(i as int + 1)).drop_last() == texts(parts@.take(i as int)));
        if i > 0 {
            r.append(sep);
        }
        r.append(parts[i].as_str());
        assert(texts(parts@.take(i as int + 1)).last() == parts@[i as int]@);
    }
    assert(parts@.take(parts.len() as int) == parts@);
    r
}

impl FloatTexts {
    /// An empty table: every real is written by its bit pattern.
    pub fn new() -> (r: FloatTexts)
        ensures
            r@ == Seq::<(u64, Seq<char>)>::empty(),
    {
        let r = FloatTexts { entries: Vec::new() };
        assert(r@ =~= Seq::<(u64, Seq<char>)>::empty());
        r
    }

    /// Adds the text of one real.
    pub fn add(&mut self, bits: u64, text: &str)
        ensures
            final(self)@ == old(self)@.push((bits, text@)),
    {
        self.entries.push((bits, crate::text::str_to_string(text)));
        assert(final(self)@ =~= old(self)@.push((bits, text@)));
    }

    /// The text of the real with bit pattern `b`.
    pub fn text(&self, b: u64) -> (r: String)
        ensures
            r@ == real_text(b, self@),
    {
        let mut i: usize = 0;
        assert(self@.skip(0) == self@);
        while i < self.entries.len()
            invariant
                i <= self.entries.len(),
                real_text(b, self@) == real_text(b, self@.skip(i as int)),
            decreases self.entries.len() - i,
        {
            assert(self@.skip(i as int).drop_first() == self@.skip(i as int + 1));
            if self.entries[i].0 == b {
                return self.entries[i].1.clone();
            }
            i = i + 1;
        }
        bits_string(b)
    }
}

/// The stand-in text of a real.
fn bits_string(b: u64) -> (r: String)
    ensures
        r@ == bits_text(b),
{
    if (b / 0x10_0000_0000_0000) % 2048 == 2047 && b % 0x10_0000_0000_0000 != 0 {
        return String::from_str("nan");
    }
    let mut r = String::new();
    r.push('#');
    push_hex(&mut r, b, 16);
    r
}

/// Appends the last `n` hexadecimal digits of `v`.
fn push_hex(s: &mut String, v: u64, n: u64)
    ensures
        final(s)@ == old(s)@ + hex_digits(v as nat, n as nat),
    decreases n,
{
    if n > 0 {
        push_hex(s, v / 16, n - 1);
        s.push(crate::compat::hex_digit((v % 16) as u32));
    }
}

/// `name` followed by the text of a real.
fn real_field(name: &str, b: u64, ft: &FloatTexts) -> (r: String)
    ensures
        r@ == name@ + real_text(b, ft@),
{
    let mut s = String::from_str(name);
    let t = ft.text(b);
    s.append(t.as_str());
    s
}

/// `name` followed by the decimal text of an unsigned value.
fn uint_field(name: &str, v: u64) -> (r: String)
    ensures
        r@ == name@ + dec_int(v as int),
{
    let mut s = String::from_str(name);
    push_u64(&mut s, v);
    s
}

/// `name` followed by the decimal text of a signed value.
fn int_field(name: &str, v: i64) -> (r: String)
    ensures
        r@ == name@ + dec_int(v as int),
{
    let mut s = String::from_str(name);
    push_i64(&mut s, v);
    s
}

/// `name` followed by `True` or `False`.
fn bool_field(name: &str, v: bool) -> (r: String)
    ensures
        r@ == name@ + bool_text(v),
{
    let mut s = String::from_str(name);
    if v {
        s.append("True");
    } else {
        s.append("False");
    }
    s
}

/// `name` followed by the `repr()` of a string.
fn string_field(name: &str, v: &String) -> (r: String)
    ensures
        r@ == name@ + repr_text(v@),
{
    let mut s = String::from_str(name);
    let t = repr_str(v.as_str());
    s.append(t.as_str());
    s
}

/// `name` followed by a list of reals.
fn reals_field(name: &str, v: &Vec<u64>, ft: &FloatTexts) -> (r: String)
    ensures
        r@ == name@ + reals_list(v@, ft@),
{
    let mut items: Vec<String> = Vec::new();
    for i in 0..v.len()
        invariant
            items@.len() == i,
            forall|j: int| 0 <= j < i ==> #[trigger] items@[j]@ == real_text(v@[j], ft@),
    {
        items.push(ft.text(v[i]));
    }
    assert(texts(items@) =~= v@.map_values(|b: u64| real_text(b, ft@)));
    let mut s = String::from_str(name);
    s.push('[');
    let j = join_parts(&items, ", ");
    s.append(j.as_str());
    s.push(']');
    s
}

/// `name` followed by a list of strings.
fn strings_field(name: &str, v: &Vec<String>) -> (r: String)
    ensures
        r@ == name@ + strings_list(texts(v@)),
{
    let mut items: Vec<String> = Vec::new();
    for i in 0..v.len()
        invariant
            items@.len() == i,
            forall|j: int| 0 <= j < i ==> #[trigger] items@[j]@ == repr_text(v@[j]@),
    {
        items.push(repr_str(v[i].as_str()));
    }
    assert(texts(items@) =~= texts(v@).map_values(|s: Seq<char>| repr_text(s)));
    let mut s = String::from_str(name);
    s.push('[');
    let j = join_parts(&items, ", ");
    s.append(j.as_str());
    s.push(']');
    s
}

/// `name{inner}`.
fn sub_field(name: &str, inner: String) -> (r: String)
    ensures
        r@ == name@ + seq!['{'] + inner@ + seq!['}'],
{
    let mut s = String::from_str(name);
    s.push('{');
    s.append(inner.as_str());
    s.push('}');
    s
}

/// `name[a,b]` of message texts.
fn list_field(name: &str, items: &Vec<String>) -> (r: String)
    ensures
        r@ == name@ + seq!['['] + join(texts(items@), ","@) + seq![']'],
{
    let mut s = String::from_str(name);
    s.push('[');
    let j = join_parts(items, ",");
    s.append(j.as_str());
    s.push(']');
    s
}

/// The parts of the content string of a [`DashDot`].
#[verifier::opaque]
pub open spec fn canon_parts_dash_dot(v: DashDotView, skip: bool, ft: Seq<(u64, Seq<char>)>) -> Seq<Seq<char>> {
    let s = Seq::<Seq<char>>::empty();
    let s = push_if(s, !is_zero_bits(v.offset), "offset="@ + real_text(v.offset, ft));
    let s = push_if(s, v.dd.len() > 0, "dd="@ + reals_list(v.dd, ft));
    s
}

/// The content string of a [`DashDot`].
pub open spec fn canon_dash_dot(v: DashDotView, skip: bool, ft: Seq<(u64, Seq<char>)>) -> Seq<char>
    decreases v,
{
    join(canon_parts_dash_dot(v, skip, ft), ","@)
}

impl DashDot {
    /// Deterministic content string; `skip_colors` leaves the color fields out.
    pub fn canonical(&self, skip_colors: bool, floats: &FloatTexts) -> (r: String)
        ensures
            r@ == canon_dash_dot(self@, skip_colors, floats@),
        decreases self,
    {
        let mut parts: Vec<String> = Vec::new();
        let ghost mut acc: Seq<Seq<char>> = Seq::empty();
        if self.offset % 0x8000_0000_0000_0000 != 0 {
            push_text(&mut parts, real_field("offset=", self.offset, floats));
        }
        proof {
            acc = push_if(acc, !is_zero_bits(self@.offset), "offset="@ + real_text(self@.offset, floats@));
        }
        assert(texts(parts@) == acc);
        if !self.dd.is_empty() {
            push_text(&mut parts, reals_field("dd=", &self.dd, floats));
        }
        proof {
            acc = push_if(acc, self@.dd.len() > 0, "dd="@ + reals_list(self@.dd, floats@));
        }
        assert(texts(parts@) == acc);
        assert(acc == canon_parts_dash_dot(self@, skip_colors, floats@)) by {
            reveal(canon_parts_dash_dot);
        }
        join_parts(&parts, ",")
    }
}

/// The parts of the content string of a [`PathSym`].
#[verifier::opaque]
pub open spec fn canon_parts_path_sym(v: PathSymView, skip: bool, ft: Seq<(u64, Seq<char>)>) -> Seq<Seq<char>> {
    let s = Seq::<Seq<char>>::empty();
    let s = push_if(s, v.name.len() > 0, "name="@ + repr_text(v.name));
    let s = push_if(s, !is_zero_bits(v.step), "step="@ + real_text(v.step, ft));
    let s = push_if(s, !is_zero_bits(v.offset), "offset="@ + real_text(v.offset, ft));
    s
}

/// The content string of a [`PathSym`].
pub open spec fn canon_path_sym(v: PathSymView, skip: bool, ft: Seq<(u64, Seq<char>)>) -> Seq<char>
    decreases v,
{
    join(canon_parts_path_sym(v, skip, ft), ","@)
}

impl PathSym {
    /// Deterministic content string; `skip_colors` leaves the color fields out.
    pub fn canonical(&self, skip_colors: bool, floats: &FloatTexts) -> (r: String)
        ensures
            r@ == canon_path_sym(self@, skip_colors, floats@),
        decreases self,
    {
        let mut parts: Vec<String> = Vec::new();
        let ghost mut acc: Seq<Seq<char>> = Seq::empty();
        if !self.name.as_str().is_empty() {
            push_text(&mut parts, string_field("name=", &self.name));
        }
        proof {
            acc = push_if(acc, self@.name.len() > 0, "name="@ + repr_text(self@.name));
        }
        assert(texts(parts@) == acc);
        if self.step % 0x8000_0000_0000_0000 != 0 {
            push_text(&mut parts, real_field("step=", self.step, floats));
        }
        proof {
            acc = push_if(acc, !is_zero_bits(self@.step), "step="@ + real_text(self@.step, floats@));
        }
        assert(texts(parts@) == acc);
        if self.offset % 0x8000_0000_0000_0000 != 0 {
            push_text(&mut parts, real_field("offset=", self.offset, floats));
        }
        proof {
            acc = push_if(acc, !is_zero_bits(self@.offset), "offset="@ + real_text(self@.offset, floats@));
        }
        assert(texts(parts@) == acc);
        assert(acc == canon_parts_path_sym(self@, skip_colors, floats@)) by {
            reveal(canon_parts_path_sym);
        }
        join_parts(&parts, ",")
    }
}

/// The parts of the content string of a [`LineDef`].
#[verifier::opaque]
pub open spec fn canon_parts_line_def(v: LineDefView, skip: bool, ft: Seq<(u64, Seq<char>)>) -> Seq<Seq<char>> {
    let s = Seq::<Seq<char>>::empty();
    let s = push_if(s, !is_zero_bits(v.width), "width="@ + real_text(v.width, ft));
    let s = push_if(s, !skip && v.color != 0, "color="@ + dec_int(v.color as int));
    let s = push_if(s, v.join != 0, "join="@ + dec_int(v.join as int));
    let s = push_if(s, v.cap != 0, "cap="@ + dec_int(v.cap as int));
    let s = push_if(s, v.dashdot.is_set(), "dashdot"@ + seq!['{'] + canon_dash_dot(v.dashdot, skip, ft) + seq!['}']);
    let s = push_if(s, v.pathsym.is_set(), "pathsym"@ + seq!['{'] + canon_path_sym(v.pathsym, skip, ft) + seq!['}']);
    s
}

/// The content string of a [`LineDef`].
pub open spec fn canon_line_def(v: LineDefView, skip: bool, ft: Seq<(u64, Seq<char>)>) -> Seq<char>
    decreases v,
{
    join(canon_parts_line_def(v, skip, ft), ","@)
}

impl LineDef {
    /// Deterministic content string; `skip_colors` leaves the color fields out.
    pub fn canonical(&self, skip_colors: bool, floats: &FloatTexts) -> (r: String)
        ensures
            r@ == canon_line_def(self@, skip_colors, floats@),
        decreases self,
    {
        let mut parts: Vec<String> = Vec::new();
        let ghost mut acc: Seq<Seq<char>> = Seq::empty();
        if self.width % 0x8000_0000_0000_0000 != 0 {
            push_text(&mut parts, real_field("width=", self.width, floats));
        }
        proof {
            acc = push_if(acc, !is_zero_bits(self@.width), "width="@ + real_text(self@.width, floats@));
        }
        assert(texts(parts@) == acc);
        if !skip_colors && self.color != 0 {
            push_text(&mut parts, uint_field("color=", self.color as u64));
        }
        proof {
            acc = push_if(acc, !skip_colors && self@.color != 0, "color="@ + dec_int(self@.color as int));
        }
        assert(texts(parts@) == acc);
        if self.join != 0 {
            push_text(&mut parts, uint_field("join=", self.join as u64));
        }
        proof {
            acc = push_if(acc, self@.join != 0, "join="@ + dec_int(self@.join as int));
        }
        assert(texts(parts@) == acc);
        if self.cap != 0 {
            push_text(&mut parts, uint_field("cap=", self.cap as u64));
        }
        proof {
            acc = push_if(acc, self@.cap != 0, "cap="@ + dec_int(self@.cap as int));
        }
        assert(texts(parts@) == acc);
        if self.dashdot.is_set() {
            push_text(&mut parts, sub_field("dashdot", self.dashdot.canonical(skip_colors, floats)));
        }
        proof {
            acc = push_if(acc, self@.dashdot.is_set(), "dashdot"@ + seq!['{'] + canon_dash_dot(self@.dashdot, skip_colors, floats@) + seq!['}']);
        }
        assert(texts(parts@) == acc);
        if self.pathsym.is_set() {
            push_text(&mut parts, sub_field("pathsym", self.pathsym.canonical(skip_colors, floats)));
        }
        proof {
            acc = push_if(acc, self@.pathsym.is_set(), "pathsym"@ + seq!['{'] + canon_path_sym(self@.pathsym, skip_colors, floats@) + seq!['}']);
        }
        assert(texts(parts@) == acc);
        assert(acc == canon_parts_line_def(self@, skip_colors, floats@)) by {
            reveal(canon_parts_line_def);
        }
        join_parts(&parts, ",")
    }
}

/// The parts of the content string of a [`LineRule`].
#[verifier::opaque]
pub open spec fn canon_parts_line_rule(v: LineRuleView, skip: bool, ft: Seq<(u64, Seq<char>)>) -> Seq<Seq<char>> {
    let s = Seq::<Seq<char>>::empty();
    let s = push_if(s, !is_zero_bits(v.width), "width="@ + real_text(v.width, ft));
    let s = push_if(s, !skip && v.color != 0, "color="@ + dec_int(v.color as int));
    let s = push_if(s, v.priority != 0, "priority="@ + dec_int(v.priority as int));
    let s = push_if(s, v.join != 0, "join="@ + dec_int(v.join as int));
    let s = push_if(s, v.cap != 0, "cap="@ + dec_int(v.cap as int));
    let s = push_if(s, v.dashdot.is_set(), "dashdot"@ + seq!['{'] + canon_dash_dot(v.dashdot, skip, ft) + seq!['}']);
    let s = push_if(s, v.pathsym.is_set(), "pathsym"@ + seq!['{'] + canon_path_sym(v.pathsym, skip, ft) + seq!['}']);
    s
}

/// The content string of a [`LineRule`].
pub open spec fn canon_line_rule(v: LineRuleView, skip: bool, ft: Seq<(u64, Seq<char>)>) -> Seq<char>
    decreases v,
{
    join(canon_parts_line_rule(v, skip, ft), ","@)
}

impl LineRule {
    /// Deterministic content string; `skip_colors` leaves the color fields out.
    #[verifier::rlimit(40)]
    pub fn canonical(&self, skip_colors: bool, floats: &FloatTexts) -> (r: String)
        ensures
            r@ == canon_line_rule(self@, skip_colors, floats@),
        decreases self,
    {
        let mut parts: Vec<String> = Vec::new();
        let ghost mut acc: Seq<Seq<char>> = Seq::empty();
        if self.width % 0x8000_0000_0000_0000 != 0 {
            push_text(&mut parts, real_field("width=", self.width, floats));
        }
        proof {
            acc = push_if(acc, !is_zero_bits(self@.width), "width="@ + real_text(self@.width, floats@));
        }
        assert(texts(parts@) == acc);
        if !skip_colors && self.color != 0 {
            push_text(&mut parts, uint_field("color=", self.color as u64));
        }
        proof {
            acc = push_if(acc, !skip_colors && self@.color != 0, "color="@ + dec_int(self@.color as int));
        }
        assert(texts(parts@) == acc);
        if self.priority != 0 {
            push_text(&mut parts, int_field("priority=", self.priority as i64));
        }
        proof {
            acc = push_if(acc, self@.priority != 0, "priority="@ + dec_int(self@.priority as int));
        }
        assert(texts(parts@) == acc);
        if self.join != 0 {
            push_text(&mut parts, uint_field("join=", self.join as u64));
        }
        proof {
            acc = push_if(acc, self@.join != 0, "join="@ + dec_int(self@.join as int));
        }
        assert(texts(parts@) == acc);
        if self.cap != 0 {
            push_text(&mut parts, uint_field("cap=", self.cap as u64));
        }
        proof {
            acc = push_if(acc, self@.cap != 0, "cap="@ + dec_int(self@.cap as int));
        }
        assert(texts(parts@) == acc);
        if self.dashdot.is_set() {
            push_text(&mut parts, sub_field("dashdot", self.dashdot.canonical(skip_colors, floats)));
        }
        proof {
            acc = push_if(acc, self@.dashdot.is_set(), "dashdot"@ + seq!['{'] + canon_dash_dot(self@.dashdot, skip_colors, floats@) + seq!['}']);
        }
        assert(texts(parts@) == acc);
        if self.pathsym.is_set() {
            push_text(&mut parts, sub_field("pathsym", self.pathsym.canonical(skip_colors, floats)));
        }
        proof {
            acc = push_if(acc, self@.pathsym.is_set(), "pathsym"@ + seq!['{'] + canon_path_sym(self@.pathsym, skip_colors, floats@) + seq!['}']);
        }
        assert(texts(parts@) == acc);
        assert(acc == canon_parts_line_rule(self@, skip_colors, floats@)) by {
            reveal(canon_parts_line_rule);
        }
        join_parts(&parts, ",")
    }
}

/// The parts of the content string of a [`AreaRule`].
#[verifier::opaque]
pub open spec fn canon_parts_area_rule(v: AreaRuleView, skip: bool, ft: Seq<(u64, Seq<char>)>) -> Seq<Seq<char>> {
    let s = Seq::<Seq<char>>::empty();
    let s = push_if(s, !skip && v.color != 0, "color="@ + dec_int(v.color as int));
    let s = push_if(s, v.priority != 0, "priority="@ + dec_int(v.priority as int));
    let s = push_if(s, v.border.is_set(), "border"@ + seq!['{'] + canon_line_def(v.border, skip, ft) + seq!['}']);
    s
}

/// The content string of a [`AreaRule`].
pub open spec fn canon_area_rule(v: AreaRuleView, skip: bool, ft: Seq<(u64, Seq<char>)>) -> Seq<char>
    decreases v,
{
    join(canon_parts_area_rule(v, skip, ft), ","@)
}

impl AreaRule {
    /// Deterministic content string; `skip_colors` leaves the color fields out.
    pub fn canonical(&self, skip_colors: bool, floats: &FloatTexts) -> (r: String)
        ensures
            r@ == canon_area_rule(self@, skip_colors, floats@),
        decreases self,
    {
        let mut parts: Vec<String> = Vec::new();
        let ghost mut acc: Seq<Seq<char>> = Seq::empty();
        if !skip_colors && self.color != 0 {
            push_text(&mut parts, uint_field("color=", self.color as u64));
        }
        proof {
            acc = push_if(acc, !skip_colors && self@.color != 0, "color="@ + dec_int(self@.color as int));
        }
        assert(texts(parts@) == acc);
        if self.priority != 0 {
            push_text(&mut parts, int_field("priority=", self.priority as i64));
        }
        proof {
            acc = push_if(acc, self@.priority != 0, "priority="@ + dec_int(self@.priority as int));
        }
        assert(texts(parts@) == acc);
        if self.border.is_set() {
            push_text(&mut parts, sub_field("border", self.border.canonical(skip_colors, floats)));
        }
        proof {
            acc = push_if(acc, self@.border.is_set(), "border"@ + seq!['{'] + canon_line_def(self@.border, skip_colors, floats@) + seq!['}']);
        }
        assert(texts(parts@) == acc);
        assert(acc == canon_parts_area_rule(self@, skip_colors, floats@)) by {
            reveal(canon_parts_area_rule);
        }
        join_parts(&parts, ",")
    }
}

/// The parts of the content string of a [`SymbolRule`].
#[verifier::opaque]
pub open spec fn canon_parts_symbol_rule(v: SymbolRuleView, skip: bool, ft: Seq<(u64, Seq<char>)>) -> Seq<Seq<char>> {
    let s = Seq::<Seq<char>>::empty();
    let s = push_if(s, v.name.len() > 0, "name="@ + repr_text(v.name));
    let s = push_if(s, v.apply_for_type != 0, "apply_for_type="@ + dec_int(v.apply_for_type as int));
    let s = push_if(s, v.priority != 0, "priority="@ + dec_int(v.priority as int));
    let s = push_if(s, v.min_distance != 0, "min_distance="@ + dec_int(v.min_distance as int));
    s
}

/// The content string of a [`SymbolRule`].
pub open spec fn canon_symbol_rule(v: SymbolRuleView, skip: bool, ft: Seq<(u64, Seq<char>)>) -> Seq<char>
    decreases v,
{
    join(canon_parts_symbol_rule(v, skip, ft), ","@)
}

impl SymbolRule {
    /// Deterministic content string; `skip_colors` leaves the color fields out.
    pub fn canonical(&self, skip_colors: bool, floats: &FloatTexts) -> (r: String)
        ensures
            r@ == canon_symbol_rule(self@, skip_colors, floats@),
        decreases self,
    {
        let mut parts: Vec<String> = Vec::new();
        let ghost mut acc: Seq<Seq<char>> = Seq::empty();
        if !self.name.as_str().is_empty() {
            push_text(&mut parts, string_field("name=", &self.name));
        }
        proof {
            acc = push_if(acc, self@.name.len() > 0, "name="@ + repr_text(self@.name));
        }
        assert(texts(parts@) == acc);
        if self.apply_for_type != 0 {
            push_text(&mut parts, int_field("apply_for_type=", self.apply_for_type as i64));
        }
        proof {
            acc = push_if(acc, self@.apply_for_type != 0, "apply_for_type="@ + dec_int(self@.apply_for_type as int));
        }
        assert(texts(parts@) == acc);
        if self.priority != 0 {
            push_text(&mut parts, int_field("priority=", self.priority as i64));
        }
        proof {
            acc = push_if(acc, self@.priority != 0, "priority="@ + dec_int(self@.priority as int));
        }
        assert(texts(parts@) == acc);
        if self.min_distance != 0 {
            push_text(&mut parts, int_field("min_distance=", self.min_distance as i64));
        }
        proof {
            acc = push_if(acc, self@.min_distance != 0, "min_distance="@ + dec_int(self@.min_distance as int));
        }
        assert(texts(parts@) == acc);
        assert(acc == canon_parts_symbol_rule(self@, skip_colors, floats@)) by {
            reveal(canon_parts_symbol_rule);
        }
        join_parts(&parts, ",")
    }
}

/// The parts of the content string of a [`CaptionDef`].
#[verifier::opaque]
pub open spec fn canon_parts_caption_def(v: CaptionDefView, skip: bool, ft: Seq<(u64, Seq<char>)>) -> Seq<Seq<char>> {
    let s = Seq::<Seq<char>>::empty();
    let s = push_if(s, v.height != 0, "height="@ + dec_int(v.height as int));
    let s = push_if(s, !skip && v.color != 0, "color="@ + dec_int(v.color as int));
    let s = push_if(s, !skip && v.stroke_color != 0, "stroke_color="@ + dec_int(v.stroke_color as int));
    let s = push_if(s, v.offset_x != 0, "offset_x="@ + dec_int(v.offset_x as int));
    let s = push_if(s, v.offset_y != 0, "offset_y="@ + dec_int(v.offset_y as int));
    let s = push_if(s, v.text.len() > 0, "text="@ + repr_text(v.text));
    let s = push_if(s, v.is_optional, "is_optional="@ + bool_text(v.is_optional));
    s
}

/// The content string of a [`CaptionDef`].
pub open spec fn canon_caption_def(v: CaptionDefView, skip: bool, ft: Seq<(u64, Seq<char>)>) -> Seq<char>
    decreases v,
{
    join(canon_parts_caption_def(v, skip, ft), ","@)
}

impl CaptionDef {
    /// Deterministic content string; `skip_colors` leaves the color fields out.
    #[verifier::rlimit(40)]
    pub fn canonical(&self, skip_colors: bool, floats: &FloatTexts) -> (r: String)
        ensures
            r@ == canon_caption_def(self@, skip_colors, floats@),
        decreases self,
    {
        let mut parts: Vec<String> = Vec::new();
        let ghost mut acc: Seq<Seq<char>> = Seq::empty();
        if self.height != 0 {
            push_text(&mut parts, int_field("height=", self.height as i64));
        }
        proof {
            acc = push_if(acc, self@.height != 0, "height="@ + dec_int(self@.height as int));
        }
        assert(texts(parts@) == acc);
        if !skip_colors && self.color != 0 {
            push_text(&mut parts, uint_field("color=", self.color as u64));
        }
        proof {
            acc = push_if(acc, !skip_colors && self@.color != 0, "color="@ + dec_int(self@.color as int));
        }
        assert(texts(parts@) == acc);
        if !skip_colors && self.stroke_color != 0 {
            push_text(&mut parts, uint_field("stroke_color=", self.stroke_color as u64));
        }
        proof {
            acc = push_if(acc, !skip_colors && self@.stroke_color != 0, "stroke_color="@ + dec_int(self@.stroke_color as int));
        }
        assert(texts(parts@) == acc);
        if self.offset_x != 0 {
            push_text(&mut parts, int_field("offset_x=", self.offset_x as i64));
        }
        proof {
            acc = push_if(acc, self@.offset_x != 0, "offset_x="@ + dec_int(self@.offset_x as int));
        }
        assert(texts(parts@) == acc);
        if self.offset_y != 0 {
            push_text(&mut parts, int_field("offset_y=", self.offset_y as i64));
        }
        proof {
            acc = push_if(acc, self@.offset_y != 0, "offset_y="@ + dec_int(self@.offset_y as int));
        }
        assert(texts(parts@) == acc);
        if !self.text.as_str().is_empty() {
            push_text(&mut parts, string_field("text=", &self.text));
        }
        proof {
            acc = push_if(acc, self@.text.len() > 0, "text="@ + repr_text(self@.text));
        }
        assert(texts(parts@) == acc);
        if self.is_optional {
            push_text(&mut parts, bool_field("is_optional=", self.is_optional));
        }
        proof {
            acc = push_if(acc, self@.is_optional, "is_optional="@ + bool_text(self@.is_optional));
        }
        assert(texts(parts@) == acc);
        assert(acc == canon_parts_caption_def(self@, skip_colors, floats@)) by {
            reveal(canon_parts_caption_def);
        }
        join_parts(&parts, ",")
    }
}

/// The parts of the content string of a [`CaptionRule`].
#[verifier::opaque]
pub open spec fn canon_parts_caption_rule(v: CaptionRuleView, skip: bool, ft: Seq<(u64, Seq<char>)>) -> Seq<Seq<char>> {
    let s = Seq::<Seq<char>>::empty();
    let s = push_if(s, v.priority != 0, "priority="@ + dec_int(v.priority as int));
    let s = push_if(s, v.primary.is_set(), "primary"@ + seq!['{'] + canon_caption_def(v.primary, skip, ft) + seq!['}']);
    let s = push_if(s, v.secondary.is_set(), "secondary"@ + seq!['{'] + canon_caption_def(v.secondary, skip, ft) + seq!['}']);
    s
}

/// The content string of a [`CaptionRule`].
pub open spec fn canon_caption_rule(v: CaptionRuleView, skip: bool, ft: Seq<(u64, Seq<char>)>) -> Seq<char>
    decreases v,
{
    join(canon_parts_caption_rule(v, skip, ft), ","@)
}

impl CaptionRule {
    /// Deterministic content string; `skip_colors` leaves the color fields out.
    pub fn canonical(&self, skip_colors: bool, floats: &FloatTexts) -> (r: String)
        ensures
            r@ == canon_caption_rule(self@, skip_colors, floats@),
        decreases self,
    {
        let mut parts: Vec<String> = Vec::new();
        let ghost mut acc: Seq<Seq<char>> = Seq::empty();
        if self.priority != 0 {
            push_text(&mut parts, int_field("priority=", self.priority as i64));
        }
        proof {
            acc = push_if(acc, self@.priority != 0, "priority="@ + dec_int(self@.priority as int));
        }
        assert(texts(parts@) == acc);
        if self.primary.is_set() {
            push_text(&mut parts, sub_field("primary", self.primary.canonical(skip_colors, floats)));
        }
        proof {
            acc = push_if(acc, self@.primary.is_set(), "primary"@ + seq!['{'] + canon_caption_def(self@.primary, skip_colors, floats@) + seq!['}']);
        }
        assert(texts(parts@) == acc);
        if self.secondary.is_set() {
            push_text(&mut parts, sub_field("secondary", self.secondary.canonical(skip_colors, floats)));
        }
        proof {
            acc = push_if(acc, self@.secondary.is_set(), "secondary"@ + seq!['{'] + canon_caption_def(self@.secondary, skip_colors, floats@) + seq!['}']);
        }
        assert(texts(parts@) == acc);
        assert(acc == canon_parts_caption_rule(self@, skip_colors, floats@)) by {
            reveal(canon_parts_caption_rule);
        }
        join_parts(&parts, ",")
    }
}

/// The parts of the content string of a [`ShieldRule`].
#[verifier::opaque]
pub open spec fn canon_parts_shield_rule(v: ShieldRuleView, skip: bool, ft: Seq<(u64, Seq<char>)>) -> Seq<Seq<char>> {
    let s = Seq::<Seq<char>>::empty();
    let s = push_if(s, v.height != 0, "height="@ + dec_int(v.height as int));
    let s = push_if(s, !skip && v.color != 0, "color="@ + dec_int(v.color as int));
    let s = push_if(s, !skip && v.stroke_color != 0, "stroke_color="@ + dec_int(v.stroke_color as int));
    let s = push_if(s, v.priority != 0, "priority="@ + dec_int(v.priority as int));
    let s = push_if(s, v.min_distance != 0, "min_distance="@ + dec_int(v.min_distance as int));
    let s = push_if(s, !skip && v.text_color != 0, "text_color="@ + dec_int(v.text_color as int));
    let s = push_if(s, !skip && v.text_stroke_color != 0, "text_stroke_color="@ + dec_int(v.text_stroke_color as int));
    s
}

/// The content string of a [`ShieldRule`].
pub open spec fn canon_shield_rule(v: ShieldRuleView, skip: bool, ft: Seq<(u64, Seq<char>)>) -> Seq<char>
    decreases v,
{
    join(canon_parts_shield_rule(v, skip, ft), ","@)
}

impl ShieldRule {
    /// Deterministic content string; `skip_colors` leaves the color fields out.
    #[verifier::rlimit(40)]
    pub fn canonical(&self, skip_colors: bool, floats: &FloatTexts) -> (r: String)
        ensures
            r@ == canon_shield_rule(self@, skip_colors, floats@),
        decreases self,
    {
        let mut parts: Vec<String> = Vec::new();
        let ghost mut acc: Seq<Seq<char>> = Seq::empty();
        if self.height != 0 {
            push_text(&mut parts, int_field("height=", self.height as i64));
        }
        proof {
            acc = push_if(acc, self@.height != 0, "height="@ + dec_int(self@.height as int));
        }
        assert(texts(parts@) == acc);
        if !skip_colors && self.color != 0 {
            push_text(&mut parts, uint_field("color=", self.color as u64));
        }
        proof {
            acc = push_if(acc, !skip_colors && self@.color != 0, "color="@ + dec_int(self@.color as int));
        }
        assert(texts(parts@) == acc);
        if !skip_colors && self.stroke_color != 0 {
            push_text(&mut parts, uint_field("stroke_color=", self.stroke_color as u64));
        }
        proof {
            acc = push_if(acc, !skip_colors && self@.stroke_color != 0, "stroke_color="@ + dec_int(self@.stroke_color as int));
        }
        assert(texts(parts@) == acc);
        if self.priority != 0 {
            push_text(&mut parts, int_field("priority=", self.priority as i64));
        }
        proof {
            acc = push_if(acc, self@.priority != 0, "priority="@ + dec_int(self@.priority as int));
        }
        assert(texts(parts@) == acc);
        if self.min_distance != 0 {
            push_text(&mut parts, int_field("min_distance=", self.min_distance as i64));
        }
        proof {
            acc = push_if(acc, self@.min_distance != 0, "min_distance="@ + dec_int(self@.min_distance as int));
        }
        assert(texts(parts@) == acc);
        if !skip_colors && self.text_color != 0 {
            push_text(&mut parts, uint_field("text_color=", self.text_color as u64));
        }
        proof {
            acc = push_if(acc, !skip_colors && self@.text_color != 0, "text_color="@ + dec_int(self@.text_color as int));
        }
        assert(texts(parts@) == acc);
        if !skip_colors && self.text_stroke_color != 0 {
            push_text(&mut parts, uint_field("text_stroke_color=", self.text_stroke_color as u64));
        }
        proof {
            acc = push_if(acc, !skip_colors && self@.text_stroke_color != 0, "text_stroke_color="@ + dec_int(self@.text_stroke_color as int));
        }
        assert(texts(parts@) == acc);
        assert(acc == canon_parts_shield_rule(self@, skip_colors, floats@)) by {
            reveal(canon_parts_shield_rule);
        }
        join_parts(&parts, ",")
    }
}

/// The parts of the content string of a [`DrawElement`].
#[verifier::opaque]
pub open spec fn canon_parts_draw_element(v: DrawElementView, skip: bool, ft: Seq<(u64, Seq<char>)>) -> Seq<Seq<char>> {
    let s = Seq::<Seq<char>>::empty();
    let s = push_if(s, v.scale != 0, "scale="@ + dec_int(v.scale as int));
    let s = push_if(s, v.apply_if.len() > 0, "apply_if="@ + strings_list(v.apply_if));
    let s = push_if(s, v.area.is_set(), "area"@ + seq!['{'] + canon_area_rule(v.area, skip, ft) + seq!['}']);
    let s = push_if(s, v.symbol.is_set(), "symbol"@ + seq!['{'] + canon_symbol_rule(v.symbol, skip, ft) + seq!['}']);
    let s = push_if(s, v.caption.is_set(), "caption"@ + seq!['{'] + canon_caption_rule(v.caption, skip, ft) + seq!['}']);
    let s = push_if(s, v.path_text.is_set(), "path_text"@ + seq!['{'] + canon_caption_rule(v.path_text, skip, ft) + seq!['}']);
    let s = push_if(s, v.shield.is_set(), "shield"@ + seq!['{'] + canon_shield_rule(v.shield, skip, ft) + seq!['}']);
    let s = push_if(s, v.lines.len() > 0, "lines="@ + seq!['['] + join(v.lines.map_values(|m: LineRuleView| canon_line_rule(m, skip, ft)), ","@) + seq![']']);
    s
}

/// The content string of a [`DrawElement`].
pub open spec fn canon_draw_element(v: DrawElementView, skip: bool, ft: Seq<(u64, Seq<char>)>) -> Seq<char>
    decreases v,
{
    join(canon_parts_draw_element(v, skip, ft), ","@)
}

impl DrawElement {
    /// Deterministic content string; `skip_colors` leaves the color fields out.
    #[verifier::rlimit(40)]
    pub fn canonical(&self, skip_colors: bool, floats: &FloatTexts) -> (r: String)
        ensures
            r@ == canon_draw_element(self@, skip_colors, floats@),
        decreases self,
    {
        let mut parts: Vec<String> = Vec::new();
        let ghost mut acc: Seq<Seq<char>> = Seq::empty();
        if self.scale != 0 {
            push_text(&mut parts, uint_field("scale=", self.scale as u64));
        }
        proof {
            acc = push_if(acc, self@.scale != 0, "scale="@ + dec_int(self@.scale as int));
        }
        assert(texts(parts@) == acc);
        if !self.apply_if.is_empty() {
            push_text(&mut parts, strings_field("apply_if=", &self.apply_if));
        }
        proof {
            acc = push_if(acc, self@.apply_if.len() > 0, "apply_if="@ + strings_list(self@.apply_if));
        }
        assert(texts(parts@) == acc);
        if self.area.is_set() {
            push_text(&mut parts, sub_field("area", self.area.canonical(skip_colors, floats)));
        }
        proof {
            acc = push_if(acc, self@.area.is_set(), "area"@ + seq!['{'] + canon_area_rule(self@.area, skip_colors, floats@) + seq!['}']);
        }
        assert(texts(parts@) == acc);
        if self.symbol.is_set() {
            push_text(&mut parts, sub_field("symbol", self.symbol.canonical(skip_colors, floats)));
        }
        proof {
            acc = push_if(acc, self@.symbol.is_set(), "symbol"@ + seq!['{'] + canon_symbol_rule(self@.symbol, skip_colors, floats@) + seq!['}']);
        }
        assert(texts(parts@) == acc);
        if self.caption.is_set() {
            push_text(&mut parts, sub_field("caption", self.caption.canonical(skip_colors, floats)));
        }
        proof {
            acc = push_if(acc, self@.caption.is_set(), "caption"@ + seq!['{'] + canon_caption_rule(self@.caption, skip_colors, floats@) + seq!['}']);
        }
        assert(texts(parts@) == acc);
        if self.path_text.is_set() {
            push_text(&mut parts, sub_field("path_text", self.path_text.canonical(skip_colors, floats)));
        }
        proof {
            acc = push_if(acc, self@.path_text.is_set(), "path_text"@ + seq!['{'] + canon_caption_rule(self@.path_text, skip_colors, floats@) + seq!['}']);
        }
        assert(texts(parts@) == acc);
        if self.shield.is_set() {
            push_text(&mut parts, sub_field("shield", self.shield.canonical(skip_colors, floats)));
        }
        proof {
            acc = push_if(acc, self@.shield.is_set(), "shield"@ + seq!['{'] + canon_shield_rule(self@.shield, skip_colors, floats@) + seq!['}']);
        }
        assert(texts(parts@) == acc);
        if !self.lines.is_empty() {
            let items = canonical_list_lines(&self.lines, skip_colors, floats);
            push_text(&mut parts, list_field("lines=", &items));
        }
        proof {
            acc = push_if(acc, self@.lines.len() > 0, "lines="@ + seq!['['] + join(self@.lines.map_values(|m: LineRuleView| canon_line_rule(m, skip_colors, floats@)), ","@) + seq![']']);
        }
        assert(texts(parts@) == acc);
        assert(acc == canon_parts_draw_element(self@, skip_colors, floats@)) by {
            reveal(canon_parts_draw_element);
        }
        join_parts(&parts, ",")
    }
}

fn canonical_list_lines(v: &Vec<LineRule>, skip_colors: bool, floats: &FloatTexts) -> (r: Vec<String>)
    ensures
        texts(r@) == v@.map_values(|m: LineRule| m@).map_values(|m: LineRuleView| canon_line_rule(m, skip_colors, floats@)),
{
    let mut items: Vec<String> = Vec::new();
    for i in 0..v.len()
        invariant
            items@.len() == i,
            forall|j: int| 0 <= j < i ==> #[trigger] items@[j]@ == canon_line_rule(v@[j]@, skip_colors, floats@),
    {
        items.push(v[i].canonical(skip_colors, floats));
    }
    assert(texts(items@) =~= v@.map_values(|m: LineRule| m@).map_values(|m: LineRuleView| canon_line_rule(m, skip_colors, floats@)));
    items
}

/// The parts of the content string of a [`ClassifElement`].
#[verifier::opaque]
pub open spec fn canon_parts_classif_element(v: ClassifElementView, skip: bool, ft: Seq<(u64, Seq<char>)>) -> Seq<Seq<char>> {
    let s = Seq::<Seq<char>>::empty();
    let s = push_if(s, v.name.len() > 0, "name="@ + repr_text(v.name));
    let s = push_if(s, v.element.len() > 0, "element="@ + seq!['['] + join(v.element.map_values(|m: DrawElementView| canon_draw_element(m, skip, ft)), ","@) + seq![']']);
    s
}

/// The content string of a [`ClassifElement`].
pub open spec fn canon_classif_element(v: ClassifElementView, skip: bool, ft: Seq<(u64, Seq<char>)>) -> Seq<char>
    decreases v,
{
    join(canon_parts_classif_element(v, skip, ft), ","@)
}

impl ClassifElement {
    /// Deterministic content string; `skip_colors` leaves the color fields out.
    pub fn canonical(&self, skip_colors: bool, floats: &FloatTexts) -> (r: String)
        ensures
            r@ == canon_classif_element(self@, skip_colors, floats@),
        decreases self,
    {
        let mut parts: Vec<String> = Vec::new();
        let ghost mut acc: Seq<Seq<char>> = Seq::empty();
        if !self.name.as_str().is_empty() {
            push_text(&mut parts, string_field("name=", &self.name));
        }
        proof {
            acc = push_if(acc, self@.name.len() > 0, "name="@ + repr_text(self@.name));
        }
        assert(texts(parts@) == acc);
        if !self.element.is_empty() {
            let items = canonical_list_element(&self.element, skip_colors, floats);
            push_text(&mut parts, list_field("element=", &items));
        }
        proof {
            acc = push_if(acc, self@.element.len() > 0, "element="@ + seq!['['] + join(self@.element.map_values(|m: DrawElementView| canon_draw_element(m, skip_colors, floats@)), ","@) + seq![']']);
        }
        assert(texts(parts@) == acc);
        assert(acc == canon_parts_classif_element(self@, skip_colors, floats@)) by {
            reveal(canon_parts_classif_element);
        }
        join_parts(&parts, ",")
    }
}

fn canonical_list_element(v: &Vec<DrawElement>, skip_colors: bool, floats: &FloatTexts) -> (r: Vec<String>)
    ensures
        texts(r@) == v@.map_values(|m: DrawElement| m@).map_values(|m: DrawElementView| canon_draw_element(m, skip_colors, floats@)),
{
    let mut items: Vec<String> = Vec::new();
    for i in 0..v.len()
        invariant
            items@.len() == i,
            forall|j: int| 0 <= j < i ==> #[trigger] items@[j]@ == canon_draw_element(v@[j]@, skip_colors, floats@),
    {
        items.push(v[i].canonical(skip_colors, floats));
    }
    assert(texts(items@) =~= v@.map_values(|m: DrawElement| m@).map_values(|m: DrawElementView| canon_draw_element(m, skip_colors, floats@)));
    items
}

/// The parts of the content string of a [`ColorElement`].
#[verifier::opaque]
pub open spec fn canon_parts_color_element(v: ColorElementView, skip: bool, ft: Seq<(u64, Seq<char>)>) -> Seq<Seq<char>> {
    let s = Seq::<Seq<char>>::empty();
    let s = push_if(s, v.name.len() > 0, "name="@ + repr_text(v.name));
    let s = push_if(s, !skip && v.color != 0, "color="@ + dec_int(v.color as int));
    s
}

/// The content string of a [`ColorElement`].
pub open spec fn canon_color_element(v: ColorElementView, skip: bool, ft: Seq<(u64, Seq<char>)>) -> Seq<char>
    decreases v,
{
    join(canon_parts_color_element(v, skip, ft), ","@)
}

impl ColorElement {
    /// Deterministic content string; `skip_colors` leaves the color fields out.
    pub fn canonical(&self, skip_colors: bool, floats: &FloatTexts) -> (r: String)
        ensures
            r@ == canon_color_element(self@, skip_colors, floats@),
        decreases self,
    {
        let mut parts: Vec<String> = Vec::new();
        let ghost mut acc: Seq<Seq<char>> = Seq::empty();
        if !self.name.as_str().is_empty() {
            push_text(&mut parts, string_field("name=", &self.name));
        }
        proof {
            acc = push_if(acc, self@.name.len() > 0, "name="@ + repr_text(self@.name));
        }
        assert(texts(parts@) == acc);
        if !skip_colors && self.color != 0 {
            push_text(&mut parts, uint_field("color=", self.color as u64));
        }
        proof {
            acc = push_if(acc, !skip_colors && self@.color != 0, "color="@ + dec_int(self@.color as int));
        }
        assert(texts(parts@) == acc);
        assert(acc == canon_parts_color_element(self@, skip_colors, floats@)) by {
            reveal(canon_parts_color_element);
        }
        join_parts(&parts, ",")
    }
}

/// The parts of the content string of a [`ColorsElement`].
#[verifier::opaque]
pub open spec fn canon_parts_colors_element(v: ColorsElementView, skip: bool, ft: Seq<(u64, Seq<char>)>) -> Seq<Seq<char>> {
    let s = Seq::<Seq<char>>::empty();
    let s = push_if(s, v.value.len() > 0, "value="@ + seq!['['] + join(v.value.map_values(|m: ColorElementView| canon_color_element(m, skip, ft)), ","@) + seq![']']);
    s
}

/// The content string of a [`ColorsElement`].
pub open spec fn canon_colors_element(v: ColorsElementView, skip: bool, ft: Seq<(u64, Seq<char>)>) -> Seq<char>
    decreases v,
{
    join(canon_parts_colors_element(v, skip, ft), ","@)
}

impl ColorsElement {
    /// Deterministic content string; `skip_colors` leaves the color fields out.
    pub fn canonical(&self, skip_colors: bool, floats: &FloatTexts) -> (r: String)
        ensures
            r@ == canon_colors_element(self@, skip_colors, floats@),
        decreases self,
    {
        let mut parts: Vec<String> = Vec::new();
        let ghost mut acc: Seq<Seq<char>> = Seq::empty();
        if !self.value.is_empty() {
            let items = canonical_list_value(&self.value, skip_colors, floats);
            push_text(&mut parts, list_field("value=", &items));
        }
        proof {
            acc = push_if(acc, self@.value.len() > 0, "value="@ + seq!['['] + join(self@.value.map_values(|m: ColorElementView| canon_color_element(m, skip_colors, floats@)), ","@) + seq![']']);
        }
        assert(texts(parts@) == acc);
        assert(acc == canon_parts_colors_element(self@, skip_colors, floats@)) by {
            reveal(canon_parts_colors_element);
        }
        join_parts(&parts, ",")
    }
}

fn canonical_list_value(v: &Vec<ColorElement>, skip_colors: bool, floats: &FloatTexts) -> (r: Vec<String>)
    ensures
        texts(r@) == v@.map_values(|m: ColorElement| m@).map_values(|m: ColorElementView| canon_color_element(m, skip_colors, floats@)),
{
    let mut items: Vec<String> = Vec::new();
    for i in 0..v.len()
        invariant
            items@.len() == i,
            forall|j: int| 0 <= j < i ==> #[trigger] items@[j]@ == canon_color_element(v@[j]@, skip_colors, floats@),
    {
        items.push(v[i].canonical(skip_colors, floats));
    }
    assert(texts(items@) =~= v@.map_values(|m: ColorElement| m@).map_values(|m: ColorElementView| canon_color_element(m, skip_colors, floats@)));
    items
}

/// The parts of the content string of a [`Container`].
#[verifier::opaque]
pub open spec fn canon_parts_container(v: ContainerView, skip: bool, ft: Seq<(u64, Seq<char>)>) -> Seq<Seq<char>> {
    let s = Seq::<Seq<char>>::empty();
    let s = push_if(s, v.colors.is_set(), "colors"@ + seq!['{'] + canon_colors_element(v.colors, skip, ft) + seq!['}']);
    let s = push_if(s, v.cont.len() > 0, "cont="@ + seq!['['] + join(v.cont.map_values(|m: ClassifElementView| canon_classif_element(m, skip, ft)), ","@) + seq![']']);
    s
}

/// The content string of a [`Container`].
pub open spec fn canon_container(v: ContainerView, skip: bool, ft: Seq<(u64, Seq<char>)>) -> Seq<char>
    decreases v,
{
    join(canon_parts_container(v, skip, ft), ","@)
}

impl Container {
    /// Deterministic content string; `skip_colors` leaves the color fields out.
    pub fn canonical(&self, skip_colors: bool, floats: &FloatTexts) -> (r: String)
        ensures
            r@ == canon_container(self@, skip_colors, floats@),
        decreases self,
    {
        let mut parts: Vec<String> = Vec::new();
        let ghost mut acc: Seq<Seq<char>> = Seq::empty();
        if self.colors.is_set() {
            push_text(&mut parts, sub_field("colors", self.colors.canonical(skip_colors, floats)));
        }
        proof {
            acc = push_if(acc, self@.colors.is_set(), "colors"@ + seq!['{'] + canon_colors_element(self@.colors, skip_colors, floats@) + seq!['}']);
        }
        assert(texts(parts@) == acc);
        if !self.cont.is_empty() {
            let items = canonical_list_cont(&self.cont, skip_colors, floats);
            push_text(&mut parts, list_field("cont=", &items));
        }
        proof {
            acc = push_if(acc, self@.cont.len() > 0, "cont="@ + seq!['['] + join(self@.cont.map_values(|m: ClassifElementView| canon_classif_element(m, skip_colors, floats@)), ","@) + seq![']']);
        }
        assert(texts(parts@) == acc);
        assert(acc == canon_parts_container(self@, skip_colors, floats@)) by {
            reveal(canon_parts_container);
        }
        join_parts(&parts, ",")
    }
}

fn canonical_list_cont(v: &Vec<ClassifElement>, skip_colors: bool, floats: &FloatTexts) -> (r: Vec<String>)
    ensures
        texts(r@) == v@.map_values(|m: ClassifElement| m@).map_values(|m: ClassifElementView| canon_classif_element(m, skip_colors, floats@)),
{
    let mut items: Vec<String> = Vec::new();
    for i in 0..v.len()
        invariant
            items@.len() == i,
            forall|j: int| 0 <= j < i ==> #[trigger] items@[j]@ == canon_classif_element(v@[j]@, skip_colors, floats@),
    {
        items.push(v[i].canonical(skip_colors, floats));
    }
    assert(texts(items@) =~= v@.map_values(|m: ClassifElement| m@).map_values(|m: ClassifElementView| canon_classif_element(m, skip_colors, floats@)));
    items
}

} // verus!
