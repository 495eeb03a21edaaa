//! Priority ranges, priority keys, visibility entries and the small text
//! helpers of the drules generation pipeline.

use vstd::prelude::*;
use vstd::string::StringExecFns;
use std::collections::{BTreeMap, BTreeSet};
use crate::text::{dec_int, dec_digits, push_i64, push_str, str_to_string};
use vstd::std_specs::iter::IteratorSpec;

verus! {

/// Priority range for area and line drules.
pub const LAYER_PRIORITY_RANGE: i32 = 1000;

/// The overlays range is `[-OVERLAYS_MAX_PRIORITY; OVERLAYS_MAX_PRIORITY)`;
/// negative values are used for optional captions.
pub const OVERLAYS_MAX_PRIORITY: i32 = 10000;

/// The four ranges drules' priorities are arranged into.
#[derive(Clone, Copy, Debug, PartialEq, Eq, Hash, Structural)]
pub enum PrioRangeKind {
    /// Overlays: icons, captions, path texts and shields.
    Overlays,
    /// Foreground areas and lines.
    Fg,
    /// Water, linear and areal, rendered just on top of landcover.
    BgTop,
    /// Landcover areas, sorted by their bbox size.
    BgBySize,
}

/// Numbering used in the priorities file names.
pub open spec fn file_pos_of(k: PrioRangeKind) -> i32 {
    match k {
        PrioRangeKind::Overlays => 4,
        PrioRangeKind::Fg => 3,
        PrioRangeKind::BgTop => 2,
        PrioRangeKind::BgBySize => 1,
    }
}

/// Constant added to the priorities of a range.
pub open spec fn base_of(k: PrioRangeKind) -> i32 {
    match k {
        PrioRangeKind::Overlays => 0i32,
        PrioRangeKind::Fg => 0i32,
        PrioRangeKind::BgTop => -1000i32,
        PrioRangeKind::BgBySize => -2000i32,
    }
}

/// The name of a range, as written in file names and messages.
pub open spec fn name_of(k: PrioRangeKind) -> Seq<char> {
    match k {
        PrioRangeKind::Overlays => "overlays"@,
        PrioRangeKind::Fg => "FG"@,
        PrioRangeKind::BgTop => "BG-top"@,
        PrioRangeKind::BgBySize => "BG-by-size"@,
    }
}

/// The comment written atop the dumped priorities file of a range.
pub open spec fn comment_of(k: PrioRangeKind) -> Seq<char> {
    match k {
        PrioRangeKind::Overlays => COMMENT_OVERLAYS@,
        PrioRangeKind::Fg => COMMENT_FG@,
        PrioRangeKind::BgTop => COMMENT_BG_TOP@,
        PrioRangeKind::BgBySize => COMMENT_BG_BY_SIZE@,
    }
}

pub const COMMENT_OVERLAYS: &'static str = "
Overlays (icons, captions, path texts and shields) are rendered on top of all the geometry (lines, areas).
Overlays don't overlap each other, instead the ones with higher priority displace the less important ones.
Optional captions (which have an icon) are usually displayed only if there are no other overlays in their way
(technically, max overlays priority value (10000) is subtracted from their priorities automatically).
";

pub const COMMENT_FG: &'static str = "
FG geometry: foreground lines and areas (e.g. buildings) are rendered always below overlays
and always on top of background geometry (BG-top & BG-by-size) even if a foreground feature
is layer=-10 (as tunnels should be visibile over landcover and water).
";

pub const COMMENT_BG_TOP: &'static str = "
BG-top geometry: background lines and areas that should be always below foreground ones
(including e.g. layer=-10 underwater tunnels), but above background areas sorted by size (BG-by-size),
because ordering by size doesn't always work with e.g. water mapped over a forest,
so water should be on top of other landcover always, but linear waterways should be hidden beneath it.
Still, e.g. a layer=-1 BG-top feature will be rendered under a layer=0 BG-by-size feature
(so areal water tunnels are hidden beneath other landcover area) and a layer=1 landcover areas
are displayed above layer=0 BG-top.
";

pub const COMMENT_BG_BY_SIZE: &'static str = "
BG-by-size geometry: background areas rendered below BG-top and everything else.
Smaller areas are rendered above larger ones (area's size is estimated as the size of its' bounding box).
So effectively priority values of BG-by-size areas are not used at the moment.
But we might use them later for some special cases, e.g. to determine a main area type of a multi-type feature.
Keep them in a logical importance order please.
";

/// The head of every priorities file.
pub const COMMENT_AUTOFORMAT: &'static str = "This file is automatically re-formatted and re-sorted in priorities descending order
when generate_drules.sh is run. All comments (automatic priorities of e.g. optional captions, drule types visibilities, etc.)
are generated automatically for information only. Custom formatting and comments are not preserved.
";

/// The overview of the ranges, at the end of every priorities file's head.
pub const COMMENT_RANGES_OVERVIEW: &'static str = "
Priorities ranges' rendering order overview:
- overlays (icons, captions...)
- FG: foreground areas and lines
- BG-top: water (linear and areal)
- BG-by-size: landcover areas sorted by their size
";

/// The note before the first negative group of the overlays file.
pub const COMMENT_AUTO_CAPTIONS: &'static str = "
    All automatic optional captions priorities are below 0.
    They follow the order of their correspoding icons.
    ";

impl PrioRangeKind {
    /// Numbering used in the `priorities_<pos>_<name>.prio.txt` file names.
    pub fn file_pos(self) -> (r: i32)
        ensures
            r == file_pos_of(self),
    {
        match self {
            PrioRangeKind::Overlays => 4,
            PrioRangeKind::Fg => 3,
            PrioRangeKind::BgTop => 2,
            PrioRangeKind::BgBySize => 1,
        }
    }

    /// Constant added to the priorities of this range.
    pub fn base(self) -> (r: i32)
        ensures
            r == base_of(self),
    {
        match self {
            PrioRangeKind::Overlays | PrioRangeKind::Fg => 0,
            PrioRangeKind::BgTop => -1000,
            PrioRangeKind::BgBySize => -2000,
        }
    }

    /// Descriptive comment written atop the dumped priorities file.
    pub fn comment(self) -> (r: &'static str)
        ensures
            r@ == comment_of(self),
    {
        match self {
            PrioRangeKind::Overlays => COMMENT_OVERLAYS,
            PrioRangeKind::Fg => COMMENT_FG,
            PrioRangeKind::BgTop => COMMENT_BG_TOP,
            PrioRangeKind::BgBySize => COMMENT_BG_BY_SIZE,
        }
    }

    /// The name of the range, as written in file names and messages.
    pub fn name(self) -> (r: &'static str)
        ensures
            r@ == name_of(self),
    {
        match self {
            PrioRangeKind::Overlays => "overlays",
            PrioRangeKind::Fg => "FG",
            PrioRangeKind::BgTop => "BG-top",
            PrioRangeKind::BgBySize => "BG-by-size",
        }
    }
}

/// A priority entry key.
#[derive(Clone, Debug, PartialEq, Eq, Hash)]
pub struct PrioKey {
    pub cl: String,
    pub object_id: String,
    pub auto: Option<(String, Option<String>)>,
}

/// The view of a priority key.
pub ghost struct PrioKeyView {
    pub cl: Seq<char>,
    pub object_id: Seq<char>,
    pub auto: Option<(Seq<char>, Option<Seq<char>>)>,
}

impl View for PrioKey {
    type V = PrioKeyView;

    open spec fn view(&self) -> PrioKeyView {
        PrioKeyView {
            cl: self.cl@,
            object_id: self.object_id@,
            auto: match self.auto {
                Some(a) => Some(
                    (
                        a.0@,
                        match a.1 {
                            Some(c) => Some(c@),
                            None => None,
                        },
                    ),
                ),
                None => None,
            },
        }
    }
}

impl PrioKey {
    /// The key of a type's own priority.
    pub fn main(cl: &str, object_id: &str) -> (r: PrioKey)
        ensures
            r@ == (PrioKeyView { cl: cl@, object_id: object_id@, auto: None }),
    {
        PrioKey { cl: str_to_string(cl), object_id: str_to_string(object_id), auto: None }
    }

    /// The key of an automatic priority of a drawing rule type.
    pub fn auto(cl: &str, object_id: &str, auto_dr_type: &str, auto_comment: Option<String>) -> (r: PrioKey)
        ensures
            r@ == (PrioKeyView {
                cl: cl@,
                object_id: object_id@,
                auto: Some(
                    (
                        auto_dr_type@,
                        match auto_comment {
                            Some(c) => Some(c@),
                            None => None,
                        },
                    ),
                ),
            }),
    {
        PrioKey {
            cl: str_to_string(cl),
            object_id: str_to_string(object_id),
            auto: Some((str_to_string(auto_dr_type), auto_comment)),
        }
    }
}

/// A visibility entry: for a drawing rule type (and automatic comment), the
/// zooms at which each object id is visible.
#[derive(Clone)]
pub struct VisEntry {
    pub dr_type: String,
    pub auto_comment: Option<String>,
    pub object_ids: BTreeMap<String, BTreeSet<i32>>,
}

/// Command-line options of the generator.
#[derive(Clone, Debug)]
pub struct Options {
    pub filename: Option<String>,
    pub minzoom: i32,
    pub maxzoom: i32,
    pub outfile: String,
    pub txt: bool,
    pub priorities_path: String,
    pub data: Option<String>,
}

// ------------------------------------------------------------------ booleans

/// ASCII lower case of a character.
pub open spec fn lower(c: char) -> char {
    if 'A' <= c <= 'Z' {
        ((c as int) + 32) as char
    } else {
        c
    }
}

/// `s` equals `w` ignoring case (`w` is lower case ASCII).
pub open spec fn same_word(s: Seq<char>, w: Seq<char>) -> bool {
    s.len() == w.len() && forall|i: int| 0 <= i < s.len() ==> lower(#[trigger] s[i]) == w[i]
}

/// Reads a boolean word: `(recognized, value)`; `true`/`yes` and
/// `false`/`no` in any case.
pub open spec fn boolean_of(s: Seq<char>) -> (bool, bool) {
    if same_word(s, "true"@) || same_word(s, "yes"@) {
        (true, true)
    } else if same_word(s, "false"@) || same_word(s, "no"@) {
        (true, false)
    } else {
        (false, false)
    }
}

fn is_word(s: &Vec<char>, w: &str) -> (r: bool)
    ensures
        r == same_word(s@, w@),
{
    let wc = crate::text::chars_of(w);
    if s.len() != wc.len() {
        return false;
    }
    for i in 0..s.len()
        invariant
            s@.len() == wc@.len(),
            wc@ == w@,
            forall|j: int| 0 <= j < i ==> lower(#[trigger] s@[j]) == w@[j],
    {
        let c = s[i];
        let l = if 'A' <= c && c <= 'Z' { ((c as u32) + 32) as u8 as char } else { c };
        assert(l == lower(c)) by {
            if 'A' <= c && c <= 'Z' {
                assert((c as u32) + 32 < 128);
            }
        }
        if l != wc[i] {
            return false;
        }
    }
    true
}

/// Reads a boolean word: `(recognized, value)`.
pub fn to_boolean(s: &str) -> (r: (bool, bool))
    ensures
        r == boolean_of(s@),
{
    let cs = crate::text::chars_of(s);
    if is_word(&cs, "true") || is_word(&cs, "yes") {
        (true, true)
    } else if is_word(&cs, "false") || is_word(&cs, "no") {
        (true, false)
    } else {
        (false, false)
    }
}

// ------------------------------------------------------------------ file names

/// `{path}/priorities_{pos}_{name}.prio.txt`.
pub open spec fn priorities_filename(k: PrioRangeKind, path: Seq<char>) -> Seq<char> {
    path + "/priorities_"@ + dec_int(file_pos_of(k) as int) + "_"@ + name_of(k) + ".prio.txt"@
}

/// The name of the priorities file of a range under `path`.
pub fn get_priorities_filename(prio_range: PrioRangeKind, path: &str) -> (r: String)
    ensures
        r@ == priorities_filename(prio_range, path@),
{
    let mut s = str_to_string(path);
    push_str(&mut s, "/priorities_");
    push_i64(&mut s, prio_range.file_pos() as i64);
    push_str(&mut s, "_");
    push_str(&mut s, prio_range.name());
    push_str(&mut s, ".prio.txt");
    s
}

// ------------------------------------------------------------------ zoom ranges

/// One zoom range: `first-` when it reaches `maxzoom`, `first` alone, or
/// `first-last`.
pub open spec fn zrange(first: i32, last: i32, maxzoom: i32) -> Seq<char> {
    if last == maxzoom {
        dec_int(first as int) + "-"@
    } else if first == last {
        dec_int(first as int)
    } else {
        dec_int(first as int) + "-"@ + dec_int(last as int)
    }
}

/// The ranges of consecutive zooms among the first `n` of `z`: the text so
/// far, and the first and last zoom of the open range.
pub open spec fn zranges(z: Seq<i32>, n: nat, maxzoom: i32) -> (Seq<char>, i32, i32)
    decreases n,
{
    if n <= 1 {
        (Seq::empty(), z[0], z[0])
    } else {
        let (text, first, prev) = zranges(z, (n - 1) as nat, maxzoom);
        let zoom = z[n - 1];
        if zoom == prev + 1 {
            (text, first, zoom)
        } else {
            (add_zrange(text, first, prev, maxzoom), zoom, zoom)
        }
    }
}

/// `text` with a range appended, comma-separated.
pub open spec fn add_zrange(text: Seq<char>, first: i32, last: i32, maxzoom: i32) -> Seq<char> {
    if text.len() == 0 {
        zrange(first, last, maxzoom)
    } else {
        text + seq![','] + zrange(first, last, maxzoom)
    }
}

/// `z` followed by the comma-separated ranges of consecutive zooms of the
/// ascending list `z` (an empty list gives the range of zoom 0).
pub open spec fn zooms_text(z: Seq<i32>, maxzoom: i32) -> Seq<char> {
    if z.len() == 0 {
        seq!['z'] + zrange(0, 0, maxzoom)
    } else {
        let (text, first, prev) = zranges(z, z.len(), maxzoom);
        seq!['z'] + add_zrange(text, first, prev, maxzoom)
    }
}

fn push_zrange(result: &mut String, first: i32, last: i32, maxzoom: i32)
    ensures
        final(result)@ == add_zrange(old(result)@, first, last, maxzoom),
{
    if !result.as_str().is_empty() {
        result.push(',');
    }
    proof {
        if old(result)@.len() == 0 {
            assert(old(result)@ =~= Seq::<char>::empty());
        }
    }
    let ghost mid = result@;
    push_i64(result, first as i64);
    if last == maxzoom {
        push_str(result, "-");
    } else if first != last {
        push_str(result, "-");
        push_i64(result, last as i64);
    }
    assert(result@ =~= mid + zrange(first, last, maxzoom));
    proof {
        if old(result)@.len() != 0 {
            assert(mid =~= old(result)@ + seq![',']);
        } else {
            assert(mid =~= Seq::<char>::empty());
        }
    }
}

/// The ranges text of an ascending list of zooms.
pub fn prettify_sorted(zooms: &Vec<i32>, maxzoom: i32) -> (r: String)
    ensures
        r@ == zooms_text(zooms@, maxzoom),
{
    proof {
        reveal_strlit("z");
    }
    let mut result = String::new();
    if zooms.len() == 0 {
        push_zrange(&mut result, 0, 0, maxzoom);
        let mut z = String::from_str("z");
        z.append(result.as_str());
        return z;
    }
    let mut first = zooms[0];
    let mut prev = zooms[0];
    for i in 1..zooms.len()
        invariant
            zooms@.len() >= 1,
            zranges(zooms@, i as nat, maxzoom) == (result@, first, prev),
    {
        let zoom = zooms[i];
        if prev < i32::MAX && zoom == prev + 1 {
            prev = zoom;
        } else {
            push_zrange(&mut result, first, prev, maxzoom);
            first = zoom;
            prev = zoom;
        }
    }
    push_zrange(&mut result, first, prev, maxzoom);
    let mut z = String::from_str("z");
    z.append(result.as_str());
    z
}

/// Strictly ascending.
pub open spec fn ascending(s: Seq<i32>) -> bool {
    forall|i: int, j: int| 0 <= i < j < s.len() ==> s[i] < s[j]
}

/// Adds `x` to an ascending list unless it is there already.
fn insert_sorted(v: &mut Vec<i32>, x: i32)
    requires
        ascending(old(v)@),
    ensures
        ascending(final(v)@),
        final(v)@.to_set() == old(v)@.to_set().insert(x),
{
    let mut i: usize = 0;
    while i < v.len() && v[i] < x
        invariant
            i <= v@.len(),
            v@ == old(v)@,
            forall|j: int| 0 <= j < i ==> v@[j] < x,
        decreases v@.len() - i,
    {
        i = i + 1;
    }
    if i < v.len() && v[i] == x {
        assert(v@.to_set() =~= old(v)@.to_set().insert(x)) by {
            assert(v@.contains(x));
        }
        return;
    }
    v.insert(i, x);
    assert forall|a: int, b: int| 0 <= a < b < v@.len() implies v@[a] < v@[b] by {
        if b == i {
            assert(v@[a] == old(v)@[a]);
        } else if a == i {
            assert(v@[b] == old(v)@[b - 1]);
            assert(old(v)@[i as int] > x || old(v)@[i as int] == x);
            if b - 1 > i {
                assert(old(v)@[i as int] < old(v)@[b - 1]);
            }
        } else if a < i && b > i {
            assert(v@[b] == old(v)@[b - 1]);
        } else if a > i {
            assert(v@[a] == old(v)@[a - 1]);
            assert(v@[b] == old(v)@[b - 1]);
        }
    }
    assert forall|y: i32| v@.to_set().contains(y) <==> old(v)@.to_set().insert(x).contains(y) by {
        if v@.contains(y) {
            let k = choose|k: int| 0 <= k < v@.len() && v@[k] == y;
            if k < i {
                assert(old(v)@[k] == y);
            } else if k > i {
                assert(old(v)@[k - 1] == y);
            }
        }
        if old(v)@.contains(y) {
            let k = choose|k: int| 0 <= k < old(v)@.len() && old(v)@[k] == y;
            if k < i {
                assert(v@[k] == y);
            } else {
                assert(v@[k + 1] == y);
            }
        }
        if y == x {
            assert(v@[i as int] == x);
        }
    }
    assert(v@.to_set() =~= old(v)@.to_set().insert(x));
}

proof fn lemma_push_to_set(s: Seq<i32>, x: i32)
    ensures
        s.push(x).to_set() == s.to_set().insert(x),
{
    assert forall|y: i32| s.push(x).to_set().contains(y) <==> s.to_set().insert(x).contains(y) by {
        if s.push(x).contains(y) {
            let k = choose|k: int| 0 <= k < s.len() + 1 && s.push(x)[k] == y;
            if k < s.len() {
                assert(s[k] == y);
            }
        }
        if s.contains(y) {
            let k = choose|k: int| 0 <= k < s.len() && s[k] == y;
            assert(s.push(x)[k] == y);
        }
        if y == x {
            assert(s.push(x)[s.len() as int] == x);
        }
    }
    assert(s.push(x).to_set() =~= s.to_set().insert(x));
}

/// The zooms of a set in ascending order.
fn sorted_zooms(zooms: &BTreeSet<i32>) -> (r: Vec<i32>)
    ensures
        r@.to_set() == zooms@,
        ascending(r@),
{
    broadcast use vstd::std_specs::btree::group_btree_axioms;
    let mut v: Vec<i32> = Vec::new();
    let ghost all = vstd::std_specs::btree::spec_btree_keys_iter(zooms).remaining();
    assert(all.unref().to_set() == zooms@);
    for z in it: zooms.iter()
        invariant
            all == vstd::std_specs::btree::spec_btree_keys_iter(zooms).remaining(),
            it.seq() == all,
            ascending(v@),
            v@.to_set() == all.take(it.index()).unref().to_set(),
    {
        insert_sorted(&mut v, *z);
        proof {
            let k = it.index();
            assert(*z == *all[k]);
            assert(all.take(k + 1).unref() =~= all.take(k).unref().push(*z));
            lemma_push_to_set(all.take(k).unref(), *z);
        }
    }
    assert(all.take(all.len() as int) =~= all);
    v
}

/// `z` followed by the comma-separated ranges of consecutive zooms, a range
/// that reaches `maxzoom` written open-ended (`z10-12,15,17-`).
pub fn prettify_zooms(zooms: &BTreeSet<i32>, maxzoom: i32) -> (r: String)
    ensures
        r@ == zooms_text(zoom_list(zooms@), maxzoom),
{
    let v = sorted_zooms(zooms);
    proof {
        let z = zoom_list(zooms@);
        assert(v@.to_set() == zooms@ && ascending(v@));
        lemma_ascending_unique(v@, z);
    }
    prettify_sorted(&v, maxzoom)
}

/// Decimal text is digits, after a `-` for a negative value.
proof fn lemma_dec_int_chars(v: int)
    ensures
        dec_int(v).len() >= 1,
        forall|i: int| 0 <= i < dec_int(v).len() ==> dec_int(v)[i] == '-' || ('0' <= #[trigger] dec_int(v)[i] <= '9'),
        '0' <= dec_int(v).last() <= '9',
{
    let n: nat = if v < 0 { (-v) as nat } else { v as nat };
    lemma_dec_digits_chars(n);
    if v < 0 {
        assert(dec_int(v) == seq!['-'] + crate::text::dec_digits(n));
    }
}

proof fn lemma_dec_digits_chars(n: nat)
    ensures
        crate::text::dec_digits(n).len() >= 1,
        forall|i: int| 0 <= i < crate::text::dec_digits(n).len() ==> '0' <= #[trigger] crate::text::dec_digits(n)[i] <= '9',
    decreases n,
{
    if n >= 10 {
        lemma_dec_digits_chars(n / 10);
    }
}

/// A single range holds no comma, and ends in `-` exactly where it reaches
/// `maxzoom`.
proof fn lemma_zrange_chars(first: i32, last: i32, maxzoom: i32)
    ensures
        zrange(first, last, maxzoom).len() >= 1,
        !zrange(first, last, maxzoom).contains(','),
        (zrange(first, last, maxzoom).last() == '-') <==> last == maxzoom,
{
    reveal_strlit("-");
    lemma_dec_int_chars(first as int);
    lemma_dec_int_chars(last as int);
    let r = zrange(first, last, maxzoom);
    let a = dec_int(first as int);
    let b = dec_int(last as int);
    assert("-"@ == seq!['-']);
    if last == maxzoom {
        assert(r == a + seq!['-']);
        assert forall|i: int| 0 <= i < r.len() implies r[i] != ',' by {
            if i < a.len() {
                assert(r[i] == a[i]);
            }
        }
    } else if first != last {
        assert(r == a + seq!['-'] + b);
        assert(r.last() == b.last());
        assert forall|i: int| 0 <= i < r.len() implies r[i] != ',' by {
            if i < a.len() {
                assert(r[i] == a[i]);
            } else if i > a.len() {
                assert(r[i] == b[i - a.len() - 1]);
            }
        }
    } else {
        assert(r == b);
    }
}

/// Ascending values grow by at least one a step.
proof fn lemma_ascending_gap(z: Seq<i32>, i: int, j: int)
    requires
        ascending(z),
        0 <= i <= j < z.len(),
    ensures
        z[j] - z[i] >= j - i,
    decreases j - i,
{
    if i < j {
        lemma_ascending_gap(z, i, j - 1);
    }
}

/// The first `n` ascending values are one run of consecutive values exactly
/// where they span `n - 1`.
proof fn lemma_one_run(z: Seq<i32>, n: int)
    requires
        ascending(z),
        1 <= n <= z.len(),
    ensures
        (forall|i: int| 1 <= i < n ==> #[trigger] z[i] == z[i - 1] + 1) <==> z[n - 1] - z[0] == n - 1,
    decreases n,
{
    if n > 1 {
        lemma_one_run(z, n - 1);
        lemma_ascending_gap(z, 0, n - 2);
        if z[n - 1] - z[0] == n - 1 {
            assert forall|i: int| 1 <= i < n implies #[trigger] z[i] == z[i - 1] + 1 by {
                if i == n - 1 {
                } else {
                    assert(z[i] == z[i - 1] + 1);
                }
            }
        }
    }
}

/// The ranges of the first `n` zooms: the open range ends at the last of
/// them, and no range is closed yet exactly while they are consecutive (the
/// open range then starting at the first).
proof fn lemma_zranges_shape(z: Seq<i32>, n: nat, maxzoom: i32)
    requires
        1 <= n <= z.len(),
    ensures
        zranges(z, n, maxzoom).2 == z[n - 1],
        (zranges(z, n, maxzoom).0.len() == 0) <==> (forall|i: int| 1 <= i < n ==> #[trigger] z[i] == z[i - 1] + 1),
        zranges(z, n, maxzoom).0.len() == 0 ==> zranges(z, n, maxzoom).1 == z[0],
    decreases n,
{
    if n > 1 {
        lemma_zranges_shape(z, (n - 1) as nat, maxzoom);
        let (text, first, prev) = zranges(z, (n - 1) as nat, maxzoom);
        lemma_zrange_chars(first, prev, maxzoom);
        if z[n - 1] != prev + 1 {
            assert(add_zrange(text, first, prev, maxzoom).len() >= 1);
        }
        if (forall|i: int| 1 <= i < n ==> #[trigger] z[i] == z[i - 1] + 1) {
            assert(z[n - 1] == z[n - 2] + 1);
        }
    }
}

/// Texts joined with commas between them.
pub open spec fn join_commas(p: Seq<Seq<char>>) -> Seq<char>
    decreases p.len(),
{
    if p.len() == 0 {
        Seq::empty()
    } else if p.len() == 1 {
        p[0]
    } else {
        join_commas(p.drop_last()) + seq![','] + p.last()
    }
}

/// The zooms from `a` to `b`.
pub open spec fn zoom_interval(a: int, b: int) -> Set<int> {
    Set::new(|x: int| a <= x <= b)
}

/// The zooms of a list.
pub open spec fn zoom_set(z: Seq<i32>) -> Set<int> {
    Set::new(|x: int| exists|i: int| 0 <= i < z.len() && z[i] == x)
}

/// The union of some sets of zooms.
pub open spec fn union_all(sets: Seq<Set<int>>) -> Set<int>
    decreases sets.len(),
{
    if sets.len() == 0 {
        Set::empty()
    } else {
        union_all(sets.drop_last()).union(sets.last())
    }
}

/// A piece of a zoom-ranges text names the zooms `zs`: `a` names zoom `a`,
/// `a-b` the zooms from `a` to `b`, and `a-` those from `a` up to
/// `maxzoom` (`a` and `b` written in decimal).
pub open spec fn names_zooms(piece: Seq<char>, zs: Set<int>, maxzoom: i32) -> bool {
    ||| exists|a: nat| #[trigger] dec_digits(a) == piece && zs == zoom_interval(a as int, a as int)
    ||| exists|a: nat| #[trigger] dec_digits(a) + seq!['-'] == piece && zs == zoom_interval(a as int, maxzoom as int)
    ||| exists|a: nat, b: nat| #[trigger] (dec_digits(a) + seq!['-'] + dec_digits(b)) == piece && zs == zoom_interval(
        a as int,
        b as int,
    )
}

proof fn lemma_zrange_names(first: i32, prev: i32, maxzoom: i32)
    requires
        0 <= first <= prev,
    ensures
        names_zooms(zrange(first, prev, maxzoom), zoom_interval(first as int, prev as int), maxzoom),
        zrange(first, prev, maxzoom).len() >= 1,
{
    reveal_strlit("-");
    assert("-"@ =~= seq!['-']);
    lemma_zrange_chars(first, prev, maxzoom);
    let a = first as nat;
    let b = prev as nat;
    let piece = zrange(first, prev, maxzoom);
    assert(dec_int(first as int) == dec_digits(a));
    assert(dec_int(prev as int) == dec_digits(b));
    if prev == maxzoom {
        assert(dec_digits(a) + seq!['-'] == piece);
        assert(zoom_interval(first as int, prev as int) == zoom_interval(a as int, maxzoom as int));
    } else if first == prev {
        assert(dec_digits(a) == piece);
    } else {
        assert((dec_digits(a) + seq!['-'] + dec_digits(b)) == piece);
    }
}

proof fn lemma_zoom_set_take(z: Seq<i32>, n: int)
    requires
        0 <= n < z.len(),
    ensures
        zoom_set(z.take(n + 1)) == zoom_set(z.take(n)).insert(z[n] as int),
{
    let a = z.take(n + 1);
    let b = z.take(n);
    assert forall|x: int| #[trigger] zoom_set(a).contains(x) <==> zoom_set(b).insert(z[n] as int).contains(x) by {
        if zoom_set(a).contains(x) {
            let i = choose|i: int| 0 <= i < a.len() && a[i] == x;
            if i < n {
                assert(b[i] == a[i]);
            }
        }
        if zoom_set(b).contains(x) {
            let i = choose|i: int| 0 <= i < b.len() && b[i] == x;
            assert(a[i] == b[i]);
        }
        if x == z[n] {
            assert(a[n] == z[n]);
        }
    }
    assert(zoom_set(a) =~= zoom_set(b).insert(z[n] as int));
}

proof fn lemma_join_push(p: Seq<Seq<char>>, x: Seq<char>)
    ensures
        join_commas(p.push(x)) == if p.len() == 0 { x } else { join_commas(p) + seq![','] + x },
{
    assert(p.push(x).drop_last() =~= p);
}

proof fn lemma_zranges_pieces(z: Seq<i32>, n: nat, maxzoom: i32) -> (r: (Seq<Seq<char>>, Seq<Set<int>>))
    requires
        1 <= n <= z.len(),
        forall|i: int| 0 <= i < z.len() ==> z[i] >= 0,
    ensures
        zranges(z, n, maxzoom).0 == join_commas(r.0),
        zranges(z, n, maxzoom).0.len() == 0 <==> r.0.len() == 0,
        r.0.len() == r.1.len(),
        forall|i: int| 0 <= i < r.0.len() ==> names_zooms(#[trigger] r.0[i], r.1[i], maxzoom),
        0 <= zranges(z, n, maxzoom).1 <= zranges(z, n, maxzoom).2,
        zranges(z, n, maxzoom).2 == z[n - 1],
        union_all(r.1).union(zoom_interval(zranges(z, n, maxzoom).1 as int, zranges(z, n, maxzoom).2 as int)) == zoom_set(
            z.take(n as int),
        ),
    decreases n,
{
    if n == 1 {
        lemma_zoom_set_take(z, 0);
        assert(zoom_set(z.take(0)) =~= Set::<int>::empty());
        let r = (Seq::<Seq<char>>::empty(), Seq::<Set<int>>::empty());
        assert(union_all(r.1).union(zoom_interval(z[0] as int, z[0] as int)) =~= zoom_set(z.take(1)));
        r
    } else {
        let m = (n - 1) as nat;
        let (ps, ss) = lemma_zranges_pieces(z, m, maxzoom);
        let (text, first, prev) = zranges(z, m, maxzoom);
        let zoom = z[n - 1];
        lemma_zoom_set_take(z, n - 1);
        if zoom == prev + 1 {
            assert(zoom_interval(first as int, zoom as int) =~= zoom_interval(first as int, prev as int).insert(zoom as int));
            assert(union_all(ss).union(zoom_interval(first as int, zoom as int)) =~= union_all(ss).union(
                zoom_interval(first as int, prev as int),
            ).insert(zoom as int));
            (ps, ss)
        } else {
            lemma_zrange_names(first, prev, maxzoom);
            let piece = zrange(first, prev, maxzoom);
            let ps2 = ps.push(piece);
            let ss2 = ss.push(zoom_interval(first as int, prev as int));
            lemma_join_push(ps, piece);
            assert(ss2.drop_last() =~= ss);
            assert(union_all(ss2) == union_all(ss).union(zoom_interval(first as int, prev as int)));
            assert(zoom_interval(zoom as int, zoom as int) =~= Set::<int>::empty().insert(zoom as int));
            assert(union_all(ss2).union(zoom_interval(zoom as int, zoom as int)) =~= union_all(ss).union(
                zoom_interval(first as int, prev as int),
            ).insert(zoom as int));
            assert forall|i: int| 0 <= i < ps2.len() implies names_zooms(#[trigger] ps2[i], ss2[i], maxzoom) by {
                if i < ps.len() {
                    assert(ps2[i] == ps[i] && ss2[i] == ss[i]);
                }
            }
            assert(add_zrange(text, first, prev, maxzoom).len() >= 1);
            (ps2, ss2)
        }
    }
}

/// The zoom-ranges text names exactly its zooms: after the `z`, it is
/// comma-separated pieces, each naming a range of zooms (`a`, `a-b`, or
/// `a-` up to `maxzoom`), and together they name every zoom of the list
/// and no other.
pub proof fn lemma_zooms_text_names_its_zooms(z: Seq<i32>, maxzoom: i32) -> (r: (Seq<Seq<char>>, Seq<Set<int>>))
    requires
        z.len() > 0,
        forall|i: int| 0 <= i < z.len() ==> z[i] >= 0,
    ensures
        zooms_text(z, maxzoom) == seq!['z'] + join_commas(r.0),
        r.0.len() == r.1.len(),
        forall|i: int| 0 <= i < r.0.len() ==> names_zooms(#[trigger] r.0[i], r.1[i], maxzoom),
        union_all(r.1) == zoom_set(z),
{
    let n = z.len();
    let (ps, ss) = lemma_zranges_pieces(z, n, maxzoom);
    let (text, first, prev) = zranges(z, n, maxzoom);
    lemma_zrange_names(first, prev, maxzoom);
    let piece = zrange(first, prev, maxzoom);
    let ps2 = ps.push(piece);
    let ss2 = ss.push(zoom_interval(first as int, prev as int));
    lemma_join_push(ps, piece);
    assert(ss2.drop_last() =~= ss);
    assert(z.take(n as int) =~= z);
    assert forall|i: int| 0 <= i < ps2.len() implies names_zooms(#[trigger] ps2[i], ss2[i], maxzoom) by {
        if i < ps.len() {
            assert(ps2[i] == ps[i] && ss2[i] == ss[i]);
        }
    }
    (ps2, ss2)
}

/// The text of a non-empty ascending list of zooms starts with `z`, holds a
/// comma exactly where the zooms are not one run of consecutive values, and
/// ends open (`-`) exactly where the last zoom is `maxzoom`.
pub proof fn lemma_zooms_text_shape(z: Seq<i32>, maxzoom: i32)
    requires
        z.len() > 0,
        ascending(z),
    ensures
        zooms_text(z, maxzoom)[0] == 'z',
        zooms_text(z, maxzoom).contains(',') <==> z.last() - z[0] + 1 != z.len(),
        (zooms_text(z, maxzoom).last() == '-') <==> z.last() == maxzoom,
{
    let n = z.len();
    lemma_zranges_shape(z, n, maxzoom);
    lemma_one_run(z, n as int);
    let (text, first, prev) = zranges(z, n, maxzoom);
    lemma_zrange_chars(first, prev, maxzoom);
    let zr = zrange(first, prev, maxzoom);
    let t = zooms_text(z, maxzoom);
    if text.len() == 0 {
        assert(t == seq!['z'] + zr);
        assert(t.last() == zr.last());
        assert(!t.contains(',')) by {
            assert forall|i: int| 0 <= i < t.len() implies t[i] != ',' by {
                if i > 0 {
                    assert(t[i] == zr[i - 1]);
                }
            }
        }
    } else {
        let body = text + seq![','] + zr;
        assert(t == seq!['z'] + body);
        assert(t[text.len() as int + 1] == ',');
        assert(t.last() == zr.last());
    }
}

/// The zooms of a set in ascending order.
pub fn zoom_vec(zooms: &BTreeSet<i32>) -> (r: Vec<i32>)
    ensures
        r@ == zoom_list(zooms@),
        r@.to_set() == zooms@,
        ascending(r@),
{
    let v = sorted_zooms(zooms);
    proof {
        assert(v@.to_set() == zooms@ && ascending(v@));
        lemma_ascending_unique(v@, zoom_list(zooms@));
    }
    v
}

/// The zooms of a set in ascending order.
pub open spec fn zoom_list(z: Set<i32>) -> Seq<i32> {
    choose|s: Seq<i32>| s.to_set() == z && ascending(s)
}

/// Two ascending lists of the same zooms are the same list.
#[verifier::rlimit(40)]
pub proof fn lemma_ascending_unique(a: Seq<i32>, b: Seq<i32>)
    requires
        ascending(a),
        ascending(b),
        a.to_set() == b.to_set(),
    ensures
        a == b,
    decreases a.len(),
{
    if a.len() == 0 || b.len() == 0 {
        if b.len() > 0 {
            assert(b.to_set().contains(b[0]));
        }
        if a.len() > 0 {
            assert(a.to_set().contains(a[0]));
        }
        assert(a =~= b);
    } else {
        assert(a.to_set().contains(a[0]));
        assert(b.to_set().contains(b[0]));
        let ka = choose|k: int| 0 <= k < b.len() && b[k] == a[0];
        let kb = choose|k: int| 0 <= k < a.len() && a[k] == b[0];
        assert(b[0] <= a[0]) by {
            if ka > 0 {
                assert(b[0] < b[ka]);
            }
        }
        assert(a[0] <= b[0]) by {
            if kb > 0 {
                assert(a[0] < a[kb]);
            }
        }
        let ta = a.drop_first();
        let tb = b.drop_first();
        assert forall|x: i32| ta.to_set().contains(x) implies tb.to_set().contains(x) by {
            let i = choose|i: int| 0 <= i < ta.len() && ta[i] == x;
            assert(a[i + 1] == x);
            assert(a.to_set().contains(x));
            let j = choose|j: int| 0 <= j < b.len() && b[j] == x;
            assert(a[0] < a[i + 1]);
            assert(j != 0);
            assert(tb[j - 1] == x);
        }
        assert forall|x: i32| tb.to_set().contains(x) implies ta.to_set().contains(x) by {
            let i = choose|i: int| 0 <= i < tb.len() && tb[i] == x;
            assert(b[i + 1] == x);
            assert(b.to_set().contains(x));
            let j = choose|j: int| 0 <= j < a.len() && a[j] == x;
            assert(b[0] < b[i + 1]);
            assert(j != 0);
            assert(ta[j - 1] == x);
        }
        assert(ta.to_set() =~= tb.to_set());
        assert(ascending(ta)) by {
            assert forall|i: int, j: int| 0 <= i < j < ta.len() implies ta[i] < ta[j] by {
                assert(a[i + 1] < a[j + 1]);
            }
        }
        assert(ascending(tb)) by {
            assert forall|i: int, j: int| 0 <= i < j < tb.len() implies tb[i] < tb[j] by {
                assert(b[i + 1] < b[j + 1]);
            }
        }
        lemma_ascending_unique(ta, tb);
        assert(ta.len() == tb.len());
        assert(ta.len() == a.len() - 1 && tb.len() == b.len() - 1);
        assert(a.len() == b.len());
        assert forall|i: int| 0 <= i < a.len() implies a[i] == b[i] by {
            if i > 0 {
                assert(a[i] == ta[i - 1]);
                assert(b[i] == tb[i - 1]);
            }
        }
        assert(a =~= b);
    }
}

} // verus!
