//! The color palette of a family of variants.
//!
//! The variants of a style family share their structure and differ only in
//! the four color fields. Walking the first variant (the template) in a fixed
//! order visits its color slots: the named colors, then per drawing element
//! its lines, area (and border), caption and path text definitions, and
//! shield. The key of a slot is the tuple of the colors that the variants hold
//! there; the palette is the list of distinct keys in first-visit order, and
//! the template gets the palette index of each slot's key in place of a color.

use vstd::prelude::*;
use crate::model::{LineRule, AreaRule, CaptionDef, CaptionRule, ShieldRule, DrawElement, ClassifElement, ColorElement, Container, LineRuleView, AreaRuleView, CaptionDefView, CaptionRuleView, ShieldRuleView, DrawElementView, ClassifElementView, ContainerView, LineDefView};
use crate::seqs::{flat, dedup, first_index, is_first, lemma_flat_new_push, lemma_flat_new_mono, lemma_new_push, lemma_first_index, lemma_has_first, lemma_dedup_contains};
use crate::text::clone_strings;

verus! {

// ------------------------------------------------------------------ slots

/// Colors of `e` at the area slots of the template area `t`.
#[verifier::opaque]
pub open spec fn area_slots(t: AreaRuleView, e: AreaRuleView) -> Seq<u32> {
    if t.is_set() {
        seq![e.color] + (if t.border.is_set() { seq![e.border.color] } else { Seq::empty() })
    } else {
        Seq::empty()
    }
}

/// Colors of `e` at the slots of the template caption `t`.
#[verifier::opaque]
pub open spec fn caption_slots(t: CaptionRuleView, e: CaptionRuleView) -> Seq<u32> {
    if t.is_set() {
        (if t.primary.is_set() { seq![e.primary.color, e.primary.stroke_color] } else { Seq::empty() })
            + (if t.secondary.is_set() { seq![e.secondary.color, e.secondary.stroke_color] } else { Seq::empty() })
    } else {
        Seq::empty()
    }
}

/// Colors of `e` at the slots of the template shield `t`.
#[verifier::opaque]
pub open spec fn shield_slots(t: ShieldRuleView, e: ShieldRuleView) -> Seq<u32> {
    if t.is_set() {
        seq![e.color, e.stroke_color, e.text_color, e.text_stroke_color]
    } else {
        Seq::empty()
    }
}

/// Colors of the lines of `e`.
pub open spec fn line_slots(n: nat, e: DrawElementView) -> Seq<u32> {
    Seq::new(n, |k: int| e.lines[k].color)
}

/// Colors of `e` at the slots of the template element `t`, in visiting order.
pub open spec fn element_slots(t: DrawElementView, e: DrawElementView) -> Seq<u32> {
    line_slots(t.lines.len(), e) + area_slots(t.area, e.area) + caption_slots(t.caption, e.caption)
        + caption_slots(t.path_text, e.path_text) + shield_slots(t.shield, e.shield)
}

/// Colors of `c` at the slots of the template type `t`.
pub open spec fn classif_slots(t: ClassifElementView, c: ClassifElementView) -> Seq<u32> {
    flat(Seq::new(t.element.len(), |j: int| element_slots(t.element[j], c.element[j])))
}

/// Colors of the named colors of `c`, as many as the template has.
pub open spec fn named_slots(t: ContainerView, c: ContainerView) -> Seq<u32> {
    Seq::new(t.colors.value.len(), |m: int| c.colors.value[m].color)
}

/// Colors of the types of `c` at the slots of the template `t`.
pub open spec fn types_slots(t: ContainerView, c: ContainerView, n: nat) -> Seq<u32> {
    flat(Seq::new(n, |i: int| classif_slots(t.cont[i], c.cont[i])))
}

/// Colors of `c` at every slot of the template `t`, in visiting order.
pub open spec fn container_slots(t: ContainerView, c: ContainerView) -> Seq<u32> {
    named_slots(t, c) + types_slots(t, c, t.cont.len())
}

// ------------------------------------------------------------------ shape

/// `c` has the repeated fields of `t` with the same lengths, down to lines.
pub open spec fn same_shape(t: ContainerView, c: ContainerView) -> bool {
    &&& c.colors.value.len() == t.colors.value.len()
    &&& c.cont.len() == t.cont.len()
    &&& forall|i: int| 0 <= i < t.cont.len() ==> #[trigger] c.cont[i].element.len() == t.cont[i].element.len()
    &&& forall|i: int, j: int| 0 <= i < t.cont.len() && 0 <= j < t.cont[i].element.len()
        ==> #[trigger] c.cont[i].element[j].lines.len() == t.cont[i].element[j].lines.len()
}

/// Whether `c` has the shape of `t`.
pub fn shapes_agree(t: &Container, c: &Container) -> (r: bool)
    ensures
        r == same_shape(t@, c@),
{
    if c.colors.value.len() != t.colors.value.len() || c.cont.len() != t.cont.len() {
        return false;
    }
    for i in 0..t.cont.len()
        invariant
            c@.cont.len() == t@.cont.len(),
            forall|a: int| 0 <= a < i ==> #[trigger] c@.cont[a].element.len() == t@.cont[a].element.len(),
            forall|a: int, j: int| 0 <= a < i && 0 <= j < t@.cont[a].element.len()
                ==> #[trigger] c@.cont[a].element[j].lines.len() == t@.cont[a].element[j].lines.len(),
    {
        if c.cont[i].element.len() != t.cont[i].element.len() {
            assert(c@.cont[i as int].element.len() != t@.cont[i as int].element.len());
            return false;
        }
        let ne = t.cont[i].element.len();
        for j in 0..ne
            invariant
                c@.cont.len() == t@.cont.len(),
                i < t@.cont.len(),
                ne == t@.cont[i as int].element.len(),
                c@.cont[i as int].element.len() == t@.cont[i as int].element.len(),
                forall|b: int| 0 <= b < j ==> #[trigger] c@.cont[i as int].element[b].lines.len()
                    == t@.cont[i as int].element[b].lines.len(),
        {
            if c.cont[i].element[j].lines.len() != t.cont[i].element[j].lines.len() {
                assert(c@.cont[i as int].element[j as int].lines.len() != t@.cont[i as int].element[j as int].lines.len());
                return false;
            }
        }
    }
    true
}

// ------------------------------------------------------------------ keys and palette

/// The key of every slot: the colors of all variants there.
pub open spec fn palette_keys(cs: Seq<ContainerView>) -> Seq<Seq<u32>> {
    Seq::new(
        container_slots(cs[0], cs[0]).len(),
        |k: int| Seq::new(cs.len(), |v: int| container_slots(cs[0], cs[v])[k]),
    )
}

/// The distinct keys in first-visit order.
pub open spec fn palette_of(cs: Seq<ContainerView>) -> Seq<Seq<u32>> {
    dedup(palette_keys(cs))
}

/// The palette index of every slot.
pub open spec fn slot_indices(cs: Seq<ContainerView>) -> Seq<int> {
    palette_keys(cs).map_values(|k: Seq<u32>| first_index(palette_of(cs), k))
}

// ------------------------------------------------------------------ template

/// Number of slots of a template element.
pub open spec fn slot_count(t: DrawElementView) -> nat {
    element_slots(t, t).len()
}

pub open spec fn line_with(l: LineRuleView, c: u32) -> LineRuleView {
    LineRuleView { present: true, color: c, ..l }
}

pub open spec fn area_with(t: AreaRuleView, ix: Seq<u32>) -> AreaRuleView {
    if t.is_set() {
        AreaRuleView {
            present: true,
            color: ix[0],
            border: if t.border.is_set() {
                LineDefView { present: true, color: ix[1], ..t.border }
            } else {
                t.border
            },
            ..t
        }
    } else {
        t
    }
}

pub open spec fn caption_def_with(d: CaptionDefView, c: u32, s: u32) -> CaptionDefView {
    CaptionDefView { present: true, color: c, stroke_color: s, ..d }
}

pub open spec fn caption_with(t: CaptionRuleView, ix: Seq<u32>) -> CaptionRuleView {
    if t.is_set() {
        let np: int = if t.primary.is_set() { 2 } else { 0 };
        CaptionRuleView {
            primary: if t.primary.is_set() { caption_def_with(t.primary, ix[0], ix[1]) } else { t.primary },
            secondary: if t.secondary.is_set() {
                caption_def_with(t.secondary, ix[np], ix[np + 1])
            } else {
                t.secondary
            },
            ..t
        }
    } else {
        t
    }
}

pub open spec fn shield_with(t: ShieldRuleView, ix: Seq<u32>) -> ShieldRuleView {
    if t.is_set() {
        ShieldRuleView {
            present: true,
            color: ix[0],
            stroke_color: ix[1],
            text_color: ix[2],
            text_stroke_color: ix[3],
            ..t
        }
    } else {
        t
    }
}

/// The template element `t` with palette indices `ix` at its slots.
pub open spec fn element_with(t: DrawElementView, ix: Seq<u32>) -> DrawElementView {
    let a = t.lines.len() as int;
    let b = a + area_slots(t.area, t.area).len();
    let c = b + caption_slots(t.caption, t.caption).len();
    let d = c + caption_slots(t.path_text, t.path_text).len();
    DrawElementView {
        lines: Seq::new(t.lines.len(), |k: int| line_with(t.lines[k], ix[k])),
        area: area_with(t.area, ix.subrange(a, b)),
        caption: caption_with(t.caption, ix.subrange(b, c)),
        path_text: caption_with(t.path_text, ix.subrange(c, d)),
        shield: shield_with(t.shield, ix.subrange(d, ix.len() as int)),
        ..t
    }
}

/// Offset of element `j` of a type whose slots start at `at`.
pub open spec fn element_offset(t: ClassifElementView, at: int, j: int) -> int {
    at + flat(Seq::new(j as nat, |j: int| element_slots(t.element[j], t.element[j]))).len()
}

pub open spec fn classif_with(t: ClassifElementView, ix: Seq<u32>, at: int) -> ClassifElementView {
    ClassifElementView {
        element: Seq::new(
            t.element.len(),
            |j: int| element_with(
                t.element[j],
                ix.subrange(element_offset(t, at, j), element_offset(t, at, j) + slot_count(t.element[j])),
            ),
        ),
        ..t
    }
}

/// Offset of type `i` of the template `t`.
pub open spec fn classif_offset(t: ContainerView, i: int) -> int {
    (t.colors.value.len() + types_slots(t, t, i as nat).len()) as int
}

/// The template `t` with palette indices `ix` at its element slots (named
/// colors keep their values).
pub open spec fn template_with(t: ContainerView, ix: Seq<u32>) -> ContainerView {
    ContainerView {
        cont: Seq::new(t.cont.len(), |i: int| classif_with(t.cont[i], ix, classif_offset(t, i))),
        ..t
    }
}

/// Slot indices as stored in color fields.
pub open spec fn as_colors(ix: Seq<int>) -> Seq<u32> {
    ix.map_values(|i: int| i as u32)
}

/// The template of a family: its first variant with palette indices in
/// place of the element colors.
pub open spec fn template_of(cs: Seq<ContainerView>) -> ContainerView {
    template_with(cs[0], as_colors(slot_indices(cs)))
}


// ------------------------------------------------------------------ slot counts

pub proof fn lemma_element_slots_len(t: DrawElementView, e: DrawElementView)
    ensures
        element_slots(t, e).len() == slot_count(t),
{
    reveal(area_slots);
    reveal(caption_slots);
    reveal(shield_slots);
}

pub proof fn lemma_classif_slots_len(t: ClassifElementView, c: ClassifElementView, n: nat)
    requires
        n <= t.element.len(),
    ensures
        flat(Seq::new(n, |j: int| element_slots(t.element[j], c.element[j]))).len()
            == flat(Seq::new(n, |j: int| element_slots(t.element[j], t.element[j]))).len(),
    decreases n,
{
    if n > 0 {
        lemma_classif_slots_len(t, c, (n - 1) as nat);
        lemma_flat_new_push((n - 1) as nat, |j: int| element_slots(t.element[j], c.element[j]));
        lemma_flat_new_push((n - 1) as nat, |j: int| element_slots(t.element[j], t.element[j]));
        lemma_element_slots_len(t.element[n - 1], c.element[n - 1]);
        lemma_element_slots_len(t.element[n - 1], t.element[n - 1]);
    }
}

pub proof fn lemma_types_slots_len(t: ContainerView, c: ContainerView, n: nat)
    requires
        n <= t.cont.len(),
    ensures
        types_slots(t, c, n).len() == types_slots(t, t, n).len(),
    decreases n,
{
    if n > 0 {
        lemma_types_slots_len(t, c, (n - 1) as nat);
        lemma_flat_new_push((n - 1) as nat, |i: int| classif_slots(t.cont[i], c.cont[i]));
        lemma_flat_new_push((n - 1) as nat, |i: int| classif_slots(t.cont[i], t.cont[i]));
        let q = (n - 1) as int;
        lemma_classif_slots_len(t.cont[q], c.cont[q], t.cont[q].element.len());
    }
}

/// How many slots a variant has depends on the template alone.
pub proof fn lemma_container_slots_len(t: ContainerView, c: ContainerView)
    ensures
        container_slots(t, c).len() == container_slots(t, t).len(),
{
    lemma_types_slots_len(t, c, t.cont.len());
}

// ------------------------------------------------------------------ collecting slots

fn push_caption_slots(out: &mut Vec<u32>, t: &CaptionRule, e: &CaptionRule)
    ensures
        final(out)@ == old(out)@ + caption_slots(t@, e@),
{
    if t.is_set() {
        if t.primary.is_set() {
            out.push(e.primary.color);
            out.push(e.primary.stroke_color);
        }
        if t.secondary.is_set() {
            out.push(e.secondary.color);
            out.push(e.secondary.stroke_color);
        }
    }
    assert(out@ =~= old(out)@ + caption_slots(t@, e@)) by {
        reveal(caption_slots);
    }
}

fn push_line_slots(out: &mut Vec<u32>, n: usize, e: &DrawElement)
    requires
        n <= e@.lines.len(),
    ensures
        final(out)@ == old(out)@ + line_slots(n as nat, e@),
{
    let ghost start = out@;
    for k in 0..n
        invariant
            n <= e@.lines.len(),
            out@ == start + line_slots(k as nat, e@),
    {
        assert(e@.lines[k as int].color == e.lines@[k as int].color);
        out.push(e.lines[k].color);
        assert(out@ =~= start + line_slots((k + 1) as nat, e@));
    }
}

fn push_element_slots(out: &mut Vec<u32>, t: &DrawElement, e: &DrawElement)
    requires
        e@.lines.len() == t@.lines.len(),
    ensures
        final(out)@ == old(out)@ + element_slots(t@, e@),
{
    let ghost start = out@;
    push_line_slots(out, t.lines.len(), e);
    let ghost l = out@;
    if t.area.is_set() {
        out.push(e.area.color);
        if t.area.border.is_set() {
            out.push(e.area.border.color);
        }
    }
    assert(out@ =~= l + area_slots(t@.area, e@.area)) by {
        reveal(area_slots);
    }
    let ghost a = out@;
    push_caption_slots(out, &t.caption, &e.caption);
    let ghost c = out@;
    push_caption_slots(out, &t.path_text, &e.path_text);
    let ghost p = out@;
    if t.shield.is_set() {
        out.push(e.shield.color);
        out.push(e.shield.stroke_color);
        out.push(e.shield.text_color);
        out.push(e.shield.text_stroke_color);
    }
    assert(out@ =~= p + shield_slots(t@.shield, e@.shield)) by {
        reveal(shield_slots);
    }
    assert(out@ =~= start + element_slots(t@, e@));
}

/// The colors of `c` at the slots of the template `t`.
pub fn container_slot_colors(t: &Container, c: &Container) -> (r: Vec<u32>)
    requires
        same_shape(t@, c@),
    ensures
        r@ == container_slots(t@, c@),
{
    let mut out: Vec<u32> = Vec::new();
    for m in 0..t.colors.value.len()
        invariant
            c@.colors.value.len() == t@.colors.value.len(),
            out@ == Seq::new(m as nat, |q: int| c@.colors.value[q].color),
    {
        out.push(c.colors.value[m].color);
        assert(out@ =~= Seq::new((m + 1) as nat, |q: int| c@.colors.value[q].color));
    }
    let ghost named = out@;
    assert(named == named_slots(t@, c@));
    assert(types_slots(t@, c@, 0) =~= Seq::empty());
    for i in 0..t.cont.len()
        invariant
            same_shape(t@, c@),
            named == named_slots(t@, c@),
            out@ == named + types_slots(t@, c@, i as nat),
    {
        let ghost before = out@;
        let ghost ti = t@.cont[i as int];
        let ghost ci = c@.cont[i as int];
        assert(flat(Seq::new(0, |j: int| element_slots(ti.element[j], ci.element[j]))) =~= Seq::empty());
        let ne = t.cont[i].element.len();
        assert(c@.cont[i as int].element.len() == t@.cont[i as int].element.len());
        for j in 0..ne
            invariant
                same_shape(t@, c@),
                c@.cont[i as int].element.len() == ne,
                i < t@.cont.len(),
                ne == t@.cont[i as int].element.len(),
                ti == t@.cont[i as int],
                ci == c@.cont[i as int],
                out@ == before + flat(Seq::new(j as nat, |q: int| element_slots(ti.element[q], ci.element[q]))),
        {
            assert(c@.cont[i as int].element[j as int].lines.len() == t@.cont[i as int].element[j as int].lines.len());
            push_element_slots(&mut out, &t.cont[i].element[j], &c.cont[i].element[j]);
            proof {
                lemma_flat_new_push(j as nat, |q: int| element_slots(ti.element[q], ci.element[q]));
            }
            assert(out@ =~= before + flat(Seq::new((j + 1) as nat, |q: int| element_slots(ti.element[q], ci.element[q]))));
        }
        proof {
            lemma_flat_new_push(i as nat, |i: int| classif_slots(t@.cont[i], c@.cont[i]));
        }
        assert(out@ =~= named + types_slots(t@, c@, (i + 1) as nat));
    }
    out
}


// ------------------------------------------------------------------ palette

/// The views of some color keys.
pub open spec fn key_views(v: Seq<Vec<u32>>) -> Seq<Seq<u32>> {
    v.map_values(|k: Vec<u32>| k@)
}

/// The views of some containers.
pub open spec fn container_views(v: Seq<Container>) -> Seq<ContainerView> {
    v.map_values(|c: Container| c@)
}

/// The keys of `n` slots from the slot colors of each variant.
pub open spec fn keys_of(slots: Seq<Seq<u32>>, n: nat) -> Seq<Seq<u32>> {
    Seq::new(n, |k: int| Seq::new(slots.len(), |v: int| slots[v][k]))
}

fn same_key(a: &Vec<u32>, b: &Vec<u32>) -> (r: bool)
    ensures
        r == (a@ == b@),
{
    if a.len() != b.len() {
        return false;
    }
    for i in 0..a.len()
        invariant
            a@.len() == b@.len(),
            forall|j: int| 0 <= j < i ==> a@[j] == b@[j],
    {
        if a[i] != b[i] {
            return false;
        }
    }
    assert(a@ =~= b@);
    true
}

fn find_key(tab: &Vec<Vec<u32>>, k: &Vec<u32>) -> (r: Option<usize>)
    ensures
        match r {
            Some(i) => is_first(key_views(tab@), k@, i as int),
            None => !key_views(tab@).contains(k@),
        },
{
    for i in 0..tab.len()
        invariant
            forall|j: int| 0 <= j < i ==> key_views(tab@)[j] != k@,
    {
        if same_key(&tab[i], k) {
            return Some(i);
        }
    }
    None
}

/// Collects the first-visit-ordered distinct keys and the palette index of
/// every slot.
fn palette_from_slots(slots: &Vec<Vec<u32>>, n: usize) -> (r: (Vec<Vec<u32>>, Vec<usize>))
    requires
        forall|v: int| 0 <= v < slots@.len() ==> #[trigger] slots@[v]@.len() == n,
    ensures
        key_views(r.0@) == dedup(keys_of(key_views(slots@), n as nat)),
        r.1@.len() == n,
        forall|k: int| 0 <= k < n ==> r.1@[k] == first_index(
            dedup(keys_of(key_views(slots@), n as nat)),
            keys_of(key_views(slots@), n as nat)[k],
        ),
{
    let ghost ks = keys_of(key_views(slots@), n as nat);
    let mut pal: Vec<Vec<u32>> = Vec::new();
    let mut idx: Vec<usize> = Vec::new();
    assert(ks.take(0) =~= Seq::<Seq<u32>>::empty());
    for k in 0..n
        invariant
            ks == keys_of(key_views(slots@), n as nat),
            forall|v: int| 0 <= v < slots@.len() ==> #[trigger] slots@[v]@.len() == n,
            key_views(pal@) == dedup(ks.take(k as int)),
            idx@.len() == k,
            forall|q: int| 0 <= q < k ==> is_first(key_views(pal@), ks[q], #[trigger] idx@[q] as int),
    {
        let mut key: Vec<u32> = Vec::new();
        for v in 0..slots.len()
            invariant
                forall|w: int| 0 <= w < slots@.len() ==> #[trigger] slots@[w]@.len() == n,
                k < n,
                key@ == Seq::new(v as nat, |w: int| key_views(slots@)[w][k as int]),
        {
            assert(slots@[v as int]@.len() == n);
            key.push(slots[v][k]);
            assert(key@ =~= Seq::new((v + 1) as nat, |w: int| key_views(slots@)[w][k as int]));
        }
        assert(key@ =~= ks[k as int]);
        assert(ks.take(k as int + 1).drop_last() =~= ks.take(k as int));
        match find_key(&pal, &key) {
            Some(i) => {
                idx.push(i);
            },
            None => {
                let ghost old_pal = key_views(pal@);
                let at = pal.len();
                pal.push(key);
                idx.push(at);
                assert(key_views(pal@) =~= old_pal.push(ks[k as int]));
                assert forall|q: int| 0 <= q < k implies is_first(key_views(pal@), ks[q], #[trigger] idx@[q] as int) by {
                    assert(is_first(old_pal, ks[q], idx@[q] as int));
                }
            },
        }
    }
    assert(ks.take(n as int) =~= ks);
    proof {
        assert forall|k: int| 0 <= k < n implies idx@[k] == first_index(dedup(ks), ks[k]) by {
            lemma_first_index(dedup(ks), ks[k], idx@[k] as int);
        }
    }
    (pal, idx)
}


// ------------------------------------------------------------------ building the template

fn caption_template(t: &CaptionRule, ix: &Vec<u32>, at: usize) -> (r: CaptionRule)
    requires
        at + caption_slots(t@, t@).len() <= ix@.len(),
    ensures
        r@ == caption_with(t@, ix@.subrange(at as int, at + caption_slots(t@, t@).len())),
{
    let ix_len = ix.len();
    assert(ix_len == ix@.len());
    reveal(caption_slots);
    let mut r = t.clone();
    if t.is_set() {
        let mut q = at;
        if t.primary.is_set() {
            r.primary.set_color(ix[q]);
            r.primary.set_stroke_color(ix[q + 1]);
            q = q + 2;
        }
        if t.secondary.is_set() {
            r.secondary.set_color(ix[q]);
            r.secondary.set_stroke_color(ix[q + 1]);
        }
    }
    r
}

fn area_template(t: &AreaRule, ix: &Vec<u32>, at: usize) -> (r: AreaRule)
    requires
        at + area_slots(t@, t@).len() <= ix@.len(),
    ensures
        r@ == area_with(t@, ix@.subrange(at as int, at + area_slots(t@, t@).len())),
{
    let ix_len = ix.len();
    assert(ix_len == ix@.len());
    reveal(area_slots);
    let mut r = t.clone();
    if t.is_set() {
        r.set_color(ix[at]);
        if t.border.is_set() {
            r.border.set_color(ix[at + 1]);
        }
    }
    r
}

fn shield_template(t: &ShieldRule, ix: &Vec<u32>, at: usize) -> (r: ShieldRule)
    requires
        at + shield_slots(t@, t@).len() <= ix@.len(),
    ensures
        r@ == shield_with(t@, ix@.subrange(at as int, at + shield_slots(t@, t@).len())),
{
    let ix_len = ix.len();
    assert(ix_len == ix@.len());
    reveal(shield_slots);
    let mut r = t.clone();
    if t.is_set() {
        r.set_color(ix[at]);
        r.set_stroke_color(ix[at + 1]);
        r.set_text_color(ix[at + 2]);
        r.set_text_stroke_color(ix[at + 3]);
    }
    r
}

fn lines_template(t: &DrawElement, ix: &Vec<u32>, at: usize) -> (r: Vec<LineRule>)
    requires
        at + t@.lines.len() <= ix@.len(),
    ensures
        r@.map_values(|m: LineRule| m@) == Seq::new(t@.lines.len(), |k: int| line_with(t@.lines[k], ix@[at + k])),
{
    let ix_len = ix.len();
    let nl = t.lines.len();
    let mut lines: Vec<LineRule> = Vec::new();
    for k in 0..nl
        invariant
            nl == t@.lines.len(),
            ix_len == ix@.len(),
            at + nl <= ix_len,
            lines@.len() == k,
            forall|q: int| 0 <= q < k ==> #[trigger] lines@[q]@ == line_with(t@.lines[q], ix@[at + q]),
    {
        let mut l = t.lines[k].clone();
        l.set_color(ix[at + k]);
        lines.push(l);
    }
    assert(lines@.map_values(|m: LineRule| m@) =~= Seq::new(t@.lines.len(), |k: int| line_with(t@.lines[k], ix@[at + k])));
    lines
}

fn area_count(t: &AreaRule) -> (r: usize)
    ensures
        r == area_slots(t@, t@).len(),
{
    reveal(area_slots);
    if t.is_set() {
        if t.border.is_set() { 2 } else { 1 }
    } else {
        0
    }
}

fn shield_count(t: &ShieldRule) -> (r: usize)
    ensures
        r == shield_slots(t@, t@).len(),
{
    reveal(shield_slots);
    if t.is_set() { 4 } else { 0 }
}

/// The template element `t` with the palette indices `ix[at..]` at its slots.
fn element_template(t: &DrawElement, ix: &Vec<u32>, at: usize) -> (r: DrawElement)
    requires
        at + slot_count(t@) <= ix@.len(),
    ensures
        r@ == element_with(t@, ix@.subrange(at as int, at + slot_count(t@))),
{
    let ix_len = ix.len();
    assert(ix_len == ix@.len());
    let ghost sub = ix@.subrange(at as int, at + slot_count(t@));
    let nl = t.lines.len();
    assert(slot_count(t@) == nl + area_slots(t@.area, t@.area).len() + caption_slots(t@.caption, t@.caption).len()
        + caption_slots(t@.path_text, t@.path_text).len() + shield_slots(t@.shield, t@.shield).len());
    let lines = lines_template(t, ix, at);
    assert(Seq::new(t@.lines.len(), |k: int| line_with(t@.lines[k], ix@[at + k]))
        =~= Seq::new(t@.lines.len(), |k: int| line_with(t@.lines[k], sub[k])));
    let na = area_count(&t.area);
    let area = area_template(&t.area, ix, at + nl);
    let nc = caption_count(&t.caption);
    let caption = caption_template(&t.caption, ix, at + nl + na);
    let np = caption_count(&t.path_text);
    let path_text = caption_template(&t.path_text, ix, at + nl + na + nc);
    let shield = shield_template(&t.shield, ix, at + nl + na + nc + np);
    let ghost b = nl + na;
    let ghost c = b + nc;
    let ghost d = c + np;
    assert(ix@.subrange(at + nl, at + nl + na) =~= sub.subrange(nl as int, b));
    assert(ix@.subrange(at + b, at + c) =~= sub.subrange(b, c));
    assert(ix@.subrange(at + c, at + d) =~= sub.subrange(c, d));
    assert(ix@.subrange(at + d, at + slot_count(t@)) =~= sub.subrange(d, sub.len() as int));
    DrawElement {
        present: t.present,
        scale: t.scale,
        apply_if: clone_strings(&t.apply_if),
        area,
        symbol: t.symbol.clone(),
        caption,
        path_text,
        shield,
        lines,
    }
}

/// Number of slots of a template caption.
fn caption_count(t: &CaptionRule) -> (r: usize)
    ensures
        r == caption_slots(t@, t@).len(),
{
    reveal(caption_slots);
    if t.is_set() {
        (if t.primary.is_set() { 2usize } else { 0usize }) + (if t.secondary.is_set() { 2usize } else { 0usize })
    } else {
        0
    }
}

fn classif_template(t: &ClassifElement, ix: &Vec<u32>, at: usize) -> (r: ClassifElement)
    requires
        at + classif_slots(t@, t@).len() <= ix@.len(),
    ensures
        r@ == classif_with(t@, ix@, at as int),
{
    let ix_len = ix.len();
    assert(ix_len == ix@.len());
    let ne = t.element.len();
    let mut els: Vec<DrawElement> = Vec::new();
    let mut pos = at;
    assert(flat(Seq::new(0, |j: int| element_slots(t@.element[j], t@.element[j]))) =~= Seq::<u32>::empty());
    for j in 0..ne
        invariant
            ne == t@.element.len(),
            ix_len == ix@.len(),
            at + classif_slots(t@, t@).len() <= ix@.len(),
            pos == element_offset(t@, at as int, j as int),
            els@.len() == j,
            forall|q: int| 0 <= q < j ==> #[trigger] els@[q]@ == element_with(
                t@.element[q],
                ix@.subrange(element_offset(t@, at as int, q), element_offset(t@, at as int, q) + slot_count(t@.element[q])),
            ),
    {
        proof {
            lemma_flat_new_push(j as nat, |j: int| element_slots(t@.element[j], t@.element[j]));
            lemma_flat_new_mono((j + 1) as nat, ne as nat, |j: int| element_slots(t@.element[j], t@.element[j]));
        }
        let e = element_template(&t.element[j], ix, pos);
        els.push(e);
        pos = pos + element_slot_count_of(&t.element[j], ix, pos);
    }
    assert(els@.map_values(|m: DrawElement| m@) =~= classif_with(t@, ix@, at as int).element);
    ClassifElement { present: t.present, name: t.name.clone(), element: els }
}

/// Number of slots of an element whose slots fit in `ix` from `at`.
fn element_slot_count_of(t: &DrawElement, ix: &Vec<u32>, at: usize) -> (r: usize)
    requires
        at + slot_count(t@) <= ix@.len(),
    ensures
        r == slot_count(t@),
{
    let ix_len = ix.len();
    assert(ix_len == ix@.len());
    reveal(area_slots);
    reveal(caption_slots);
    reveal(shield_slots);
    t.lines.len() + area_count(&t.area) + caption_count(&t.caption) + caption_count(&t.path_text) + shield_count(&t.shield)
}

/// The template `t` with the palette indices `ix` at its element slots.
pub fn container_template(t: &Container, ix: &Vec<u32>) -> (r: Container)
    requires
        container_slots(t@, t@).len() <= ix@.len(),
    ensures
        r@ == template_with(t@, ix@),
{
    let ix_len = ix.len();
    assert(ix_len == ix@.len());
    let nt = t.cont.len();
    let mut cont: Vec<ClassifElement> = Vec::new();
    let mut pos = t.colors.value.len();
    assert(types_slots(t@, t@, 0) =~= Seq::<u32>::empty());
    for i in 0..nt
        invariant
            nt == t@.cont.len(),
            ix_len == ix@.len(),
            container_slots(t@, t@).len() <= ix@.len(),
            pos == classif_offset(t@, i as int),
            cont@.len() == i,
            forall|q: int| 0 <= q < i ==> #[trigger] cont@[q]@ == classif_with(t@.cont[q], ix@, classif_offset(t@, q)),
    {
        proof {
            lemma_flat_new_push(i as nat, |i: int| classif_slots(t@.cont[i], t@.cont[i]));
            lemma_flat_new_mono((i + 1) as nat, nt as nat, |i: int| classif_slots(t@.cont[i], t@.cont[i]));
        }
        let c = classif_template(&t.cont[i], ix, pos);
        cont.push(c);
        pos = pos + classif_slot_count(&t.cont[i], ix, pos);
    }
    assert(cont@.map_values(|m: ClassifElement| m@) =~= template_with(t@, ix@).cont);
    Container { present: t.present, colors: t.colors.clone(), cont }
}

/// Number of slots of a type whose slots fit in `ix` from `at`.
fn classif_slot_count(t: &ClassifElement, ix: &Vec<u32>, at: usize) -> (r: usize)
    requires
        at + classif_slots(t@, t@).len() <= ix@.len(),
    ensures
        r == classif_slots(t@, t@).len(),
{
    let ix_len = ix.len();
    assert(ix_len == ix@.len());
    let mut n: usize = 0;
    assert(flat(Seq::new(0, |j: int| element_slots(t@.element[j], t@.element[j]))) =~= Seq::<u32>::empty());
    for j in 0..t.element.len()
        invariant
            ix_len == ix@.len(),
            at + classif_slots(t@, t@).len() <= ix@.len(),
            n == flat(Seq::new(j as nat, |j: int| element_slots(t@.element[j], t@.element[j]))).len(),
    {
        proof {
            lemma_flat_new_push(j as nat, |j: int| element_slots(t@.element[j], t@.element[j]));
            lemma_flat_new_mono((j + 1) as nat, t@.element.len(), |j: int| element_slots(t@.element[j], t@.element[j]));
        }
        n = n + element_slot_count_of(&t.element[j], ix, at + n);
    }
    n
}


// ------------------------------------------------------------------ the family

/// The template of a family, its palette (distinct keys in first-visit
/// order), and the palette index of every slot.
pub fn index_family(cs: &[Container]) -> (r: (Container, Vec<Vec<u32>>, Vec<usize>))
    requires
        cs@.len() > 0,
        forall|v: int| 0 <= v < cs@.len() ==> same_shape(cs@[0]@, #[trigger] cs@[v]@),
    ensures
        r.0@ == template_of(container_views(cs@)),
        key_views(r.1@) == palette_of(container_views(cs@)),
        r.2@.len() == slot_indices(container_views(cs@)).len(),
        forall|k: int| 0 <= k < r.2@.len() ==> r.2@[k] == #[trigger] slot_indices(container_views(cs@))[k],
{
    let ghost cvs = container_views(cs@);
    let mut slots: Vec<Vec<u32>> = Vec::new();
    for v in 0..cs.len()
        invariant
            cvs == container_views(cs@),
            cs@.len() > 0,
            forall|w: int| 0 <= w < cs@.len() ==> same_shape(cs@[0]@, #[trigger] cs@[w]@),
            slots@.len() == v,
            forall|w: int| 0 <= w < v ==> #[trigger] slots@[w]@ == container_slots(cvs[0], cvs[w]),
    {
        let s = container_slot_colors(&cs[0], &cs[v]);
        slots.push(s);
    }
    let n = slots[0].len();
    proof {
        assert forall|v: int| 0 <= v < slots@.len() implies #[trigger] slots@[v]@.len() == n by {
            lemma_container_slots_len(cvs[0], cvs[v]);
            lemma_container_slots_len(cvs[0], cvs[0]);
        }
    }
    let (pal, idx) = palette_from_slots(&slots, n);
    proof {
        lemma_container_slots_len(cvs[0], cvs[0]);
        assert forall|k: int| 0 <= k < n implies #[trigger] keys_of(key_views(slots@), n as nat)[k] =~= palette_keys(cvs)[k] by {
            assert(keys_of(key_views(slots@), n as nat)[k] =~= Seq::new(cvs.len(), |v: int| container_slots(cvs[0], cvs[v])[k]));
        }
        assert(keys_of(key_views(slots@), n as nat) =~= palette_keys(cvs));
    }
    let mut ix: Vec<u32> = Vec::new();
    for k in 0..n
        invariant
            n == idx@.len(),
            ix@.len() == k,
            forall|q: int| 0 <= q < k ==> #[trigger] ix@[q] == idx@[q] as u32,
    {
        ix.push(idx[k] as u32);
    }
    assert(ix@ =~= as_colors(slot_indices(cvs)));
    let template = container_template(&cs[0], &ix);
    (template, pal, idx)
}

} // verus!
