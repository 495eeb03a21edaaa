//! Reading a priorities file: groups of `class[::object-id]` lines, each
//! group closed by a `=== <priority>` line that gives all of its types that
//! priority; comments start with `#`. Problems are reported as warnings and
//! the offending line is skipped.

use vstd::prelude::*;
use vstd::string::StringExecFns;
use crate::prio::{PrioKey, PrioKeyView, PrioRangeKind, OVERLAYS_MAX_PRIORITY, LAYER_PRIORITY_RANGE};
use crate::lines::{split_on, split_chars, before_hash, strip_comment, trim, trim_chars, words, split_words, parse_i32, read_i32, lemma_words_nonempty, lemma_trim_last};
use crate::text::{chars_of, str_to_string, push_str, push_i64, dec_int, text_range, text_of};
use crate::compat::{repr_text, repr_str};
use crate::canonical::{join, texts};
use crate::condition::{str_eq, starts_with};
use indexmap::IndexMap;

verus! {

// ------------------------------------------------------------------ the table

/// The views of a table of priorities.
pub open spec fn table_view(t: Seq<(PrioKey, i32)>) -> Seq<(PrioKeyView, i32)> {
    t.map_values(|e: (PrioKey, i32)| (e.0@, e.1))
}

/// The first position of `k` at or after `i` (`-1` if none).
pub open spec fn key_pos(t: Seq<(PrioKeyView, i32)>, k: PrioKeyView, i: int) -> int
    decreases t.len() - i,
{
    if i < 0 || i >= t.len() {
        -1
    } else if t[i].0 == k {
        i
    } else {
        key_pos(t, k, i + 1)
    }
}

/// The priority of `k`, if it has one.
pub open spec fn prio_get(t: Seq<(PrioKeyView, i32)>, k: PrioKeyView) -> Option<i32> {
    let i = key_pos(t, k, 0);
    if i < 0 {
        None
    } else {
        Some(t[i].1)
    }
}

/// `k` given priority `v`: in its place if it has one, else appended.
pub open spec fn prio_set(t: Seq<(PrioKeyView, i32)>, k: PrioKeyView, v: i32) -> Seq<(PrioKeyView, i32)> {
    let i = key_pos(t, k, 0);
    if i < 0 {
        t.push((k, v))
    } else {
        t.update(i, (k, v))
    }
}

/// A copy of a key.
pub fn copy_key(k: &PrioKey) -> (r: PrioKey)
    ensures
        r@ == k@,
{
    let auto = match &k.auto {
        None => None,
        Some(x) => Some(
            (
                str_to_string(x.0.as_str()),
                match &x.1 {
                    None => None,
                    Some(c) => Some(str_to_string(c.as_str())),
                },
            ),
        ),
    };
    PrioKey { cl: str_to_string(k.cl.as_str()), object_id: str_to_string(k.object_id.as_str()), auto }
}

/// `indexmap::IndexMap`, the table priorities are kept in.
#[verifier::external_type_specification]
#[verifier::external_body]
#[verifier::reject_recursive_types(K)]
#[verifier::reject_recursive_types(V)]
#[verifier::reject_recursive_types(S)]
pub struct ExIndexMap<K, V, S>(indexmap::IndexMap<K, V, S>);

/// The entries of a priorities table in its order, each key by its view.
pub uninterp spec fn prio_entries(t: IndexMap<PrioKey, i32>) -> Seq<(PrioKeyView, i32)>;

/// `IndexMap::get`: the value of the entry whose key equals `k` (keys
/// compare field by field, as their views do; a map holds a key once).
#[verifier::external_body]
pub(crate) fn table_get(t: &IndexMap<PrioKey, i32>, k: &PrioKey) -> (r: Option<i32>)
    ensures
        r == prio_get(prio_entries(*t), k@),
{
    t.get(k).copied()
}

/// `IndexMap::insert`: an entry whose key equals `k` keeps its place and
/// takes value `v`; where there is none, the entry is appended.
#[verifier::external_body]
fn table_insert(t: &mut IndexMap<PrioKey, i32>, k: PrioKey, v: i32)
    ensures
        prio_entries(*final(t)) == prio_set(prio_entries(*old(t)), k@, v),
{
    t.insert(k, v);
}

/// `IndexMap::len`: the number of entries.
#[verifier::external_body]
pub(crate) fn table_len(t: &IndexMap<PrioKey, i32>) -> (r: usize)
    ensures
        r == prio_entries(*t).len(),
{
    t.len()
}

/// `IndexMap::get_index`: the entry at position `i`, if there is one.
#[verifier::external_body]
pub(crate) fn table_entry(t: &IndexMap<PrioKey, i32>, i: usize) -> (r: Option<(&PrioKey, &i32)>)
    ensures
        match r {
            Some(e) => i < prio_entries(*t).len() && (e.0@, *e.1) == prio_entries(*t)[i as int],
            None => i >= prio_entries(*t).len(),
        },
{
    t.get_index(i)
}

/// Indexing an `IndexMap` by position: the entry at `i` takes value `v`.
#[verifier::external_body]
fn table_set_at(t: &mut IndexMap<PrioKey, i32>, i: usize, v: i32)
    requires
        i < prio_entries(*old(t)).len(),
    ensures
        prio_entries(*final(t)) == prio_entries(*old(t)).update(i as int, (prio_entries(*old(t))[i as int].0, v)),
{
    t[i] = v;
}

/// Gives `k` priority `v`: in its place if it has one, else appended.
pub fn table_set(t: &mut IndexMap<PrioKey, i32>, k: &PrioKey, v: i32)
    ensures
        prio_entries(*final(t)) == prio_set(prio_entries(*old(t)), k@, v),
{
    table_insert(t, copy_key(k), v);
}

// ------------------------------------------------------------------ messages

/// `(cl, object_id)` with both strings quoted.
pub open spec fn key_text(k: PrioKeyView) -> Seq<char> {
    "("@ + repr_text(k.cl) + ", "@ + repr_text(k.object_id) + ")"@
}

pub open spec fn at_line(fname: Seq<char>, l: Seq<char>) -> Seq<char> {
    " in "@ + fname + ":\n\t"@ + l
}

pub open spec fn msg_malformed(fname: Seq<char>, l: Seq<char>) -> Seq<char> {
    "WARNING: skipping malformed line"@ + at_line(fname, l)
}

pub open spec fn msg_empty_group(fname: Seq<char>, l: Seq<char>) -> Seq<char> {
    "WARNING: skipping empty priority group"@ + at_line(fname, l)
}

pub open spec fn msg_out_of_range(lo: i32, hi: i32, fname: Seq<char>, l: Seq<char>) -> Seq<char> {
    "WARNING: skipping out of ["@ + dec_int(lo as int) + ";"@ + dec_int(hi as int) + ") range priority value"@ + at_line(fname, l)
}

pub open spec fn msg_invalid(fname: Seq<char>, l: Seq<char>) -> Seq<char> {
    "WARNING: skipping invalid priority value"@ + at_line(fname, l)
}

pub open spec fn msg_unknown(fname: Seq<char>, l: Seq<char>) -> Seq<char> {
    "WARNING: unknown classificator type"@ + at_line(fname, l)
}

pub open spec fn msg_override(prev: i32, fname: Seq<char>, l: Seq<char>) -> Seq<char> {
    "WARNING: overriding previously set priority value "@ + dec_int(prev as int) + at_line(fname, l)
}

pub open spec fn msg_last_group(fname: Seq<char>, group: Seq<PrioKeyView>) -> Seq<char> {
    "WARNING: skipping last types groups with no priority set in "@ + fname + ":\n\t["@ + join(
        group.map_values(|k: PrioKeyView| key_text(k)),
        ", "@,
    ) + "]"@
}

pub open spec fn msg_higher(k: PrioKeyView, m: PrioKeyView) -> Seq<char> {
    "WARNING: "@ + key_text(k) + " priority is higher than "@ + key_text(m) + ", making it equal"@
}

// ------------------------------------------------------------------ reading lines

/// The lowest priority a range accepts.
pub open spec fn prio_min(k: PrioRangeKind) -> i32 {
    if k == PrioRangeKind::Overlays { -10000i32 } else { 0i32 }
}

/// The bound below which a range's priorities lie.
pub open spec fn prio_max(k: PrioRangeKind) -> i32 {
    if k == PrioRangeKind::Overlays { OVERLAYS_MAX_PRIORITY } else { LAYER_PRIORITY_RANGE }
}

/// The first position of `::` in `s` at or after `i` (`-1` if none).
pub open spec fn colons_pos(s: Seq<char>, i: int) -> int
    decreases s.len() - i,
{
    if i < 0 || i + 1 >= s.len() {
        -1
    } else if s[i] == ':' && s[i + 1] == ':' {
        i
    } else {
        colons_pos(s, i + 1)
    }
}

/// The key of a type line's word: the class, and the object id from `::` on.
pub open spec fn key_of_word(w: Seq<char>) -> PrioKeyView {
    let p = colons_pos(w, 0);
    if p < 0 {
        PrioKeyView { cl: w, object_id: Seq::empty(), auto: None }
    } else {
        PrioKeyView { cl: w.subrange(0, p), object_id: w.subrange(p, w.len() as int), auto: None }
    }
}

/// Every key of `g` given priority `p`, in order.
pub open spec fn set_all(t: Seq<(PrioKeyView, i32)>, g: Seq<PrioKeyView>, p: i32) -> Seq<(PrioKeyView, i32)>
    decreases g.len(),
{
    if g.len() == 0 {
        t
    } else {
        prio_set(set_all(t, g.drop_last(), p), g.last(), p)
    }
}

/// What reading one more line does to the priorities read, the open group
/// and the warnings.
pub open spec fn load_line(
    st: (Seq<(PrioKeyView, i32)>, Seq<PrioKeyView>, Seq<Seq<char>>),
    raw: Seq<char>,
    kind: PrioRangeKind,
    fname: Seq<char>,
    classif: Seq<Seq<char>>,
) -> (Seq<(PrioKeyView, i32)>, Seq<PrioKeyView>, Seq<Seq<char>>) {
    let l = trim(before_hash(raw));
    let (t, g, m) = st;
    if l.len() == 0 {
        st
    } else {
        let w = words(l);
        if w.len() > 2 {
            (t, g, m.push(msg_malformed(fname, l)))
        } else if w[0] == "==="@ {
            let pv = if w.len() > 1 { parse_i32(w[1]) } else { None };
            match pv {
                Some(p) => if prio_min(kind) <= p < prio_max(kind) {
                    if g.len() > 0 {
                        (set_all(t, g, p), Seq::empty(), m)
                    } else {
                        (t, Seq::empty(), m.push(msg_empty_group(fname, l)))
                    }
                } else {
                    (t, Seq::empty(), m.push(msg_out_of_range(prio_min(kind), prio_max(kind), fname, l)))
                },
                None => (t, Seq::empty(), m.push(msg_invalid(fname, l))),
            }
        } else {
            let key = key_of_word(w[0]);
            let m1 = if classif.contains(key.cl) { m } else { m.push(msg_unknown(fname, l)) };
            let m2 = match prio_get(t, key) {
                Some(prev) => m1.push(msg_override(prev, fname, l)),
                None => m1,
            };
            (t, g.push(key), m2)
        }
    }
}

/// The state after the first `n` lines.
pub open spec fn load_lines(
    lines: Seq<Seq<char>>,
    n: nat,
    t0: Seq<(PrioKeyView, i32)>,
    kind: PrioRangeKind,
    fname: Seq<char>,
    classif: Seq<Seq<char>>,
) -> (Seq<(PrioKeyView, i32)>, Seq<PrioKeyView>, Seq<Seq<char>>)
    decreases n,
{
    if n == 0 {
        (t0, Seq::empty(), Seq::empty())
    } else {
        load_line(load_lines(lines, (n - 1) as nat, t0, kind, fname, classif), lines[n - 1], kind, fname, classif)
    }
}

// ------------------------------------------------------------------ optional captions

/// The key whose priority an optional caption or path text must not exceed:
/// the icon of a caption, the shield of a path text.
pub open spec fn main_key(k: PrioKeyView) -> Option<PrioKeyView> {
    if starts_with(k.object_id, "pathtext"@) {
        Some(PrioKeyView { cl: k.cl, object_id: "shield"@ + k.object_id.subrange(8, k.object_id.len() as int), auto: None })
    } else if starts_with(k.object_id, "caption"@) {
        Some(PrioKeyView { cl: k.cl, object_id: "icon"@ + k.object_id.subrange(7, k.object_id.len() as int), auto: None })
    } else {
        None
    }
}

/// Lowering entry `i` to its main key's priority where it is higher.
pub open spec fn cap_at(st: (Seq<(PrioKeyView, i32)>, Seq<Seq<char>>), i: int) -> (Seq<(PrioKeyView, i32)>, Seq<Seq<char>>) {
    let (t, m) = st;
    let k = t[i].0;
    match main_key(k) {
        Some(mk) => match prio_get(t, mk) {
            Some(mp) => if t[i].1 > mp {
                (t.update(i, (k, mp)), m.push(msg_higher(k, mk)))
            } else {
                st
            },
            None => st,
        },
        None => st,
    }
}

/// The first `n` entries capped.
pub open spec fn cap_all(st: (Seq<(PrioKeyView, i32)>, Seq<Seq<char>>), n: nat) -> (Seq<(PrioKeyView, i32)>, Seq<Seq<char>>)
    decreases n,
{
    if n == 0 {
        st
    } else {
        cap_at(cap_all(st, (n - 1) as nat), n - 1)
    }
}

/// The priorities and warnings after reading a priorities file of a range
/// into the priorities `t0`.
pub open spec fn loaded(
    t0: Seq<(PrioKeyView, i32)>,
    kind: PrioRangeKind,
    text: Seq<char>,
    fname: Seq<char>,
    classif: Seq<Seq<char>>,
) -> (Seq<(PrioKeyView, i32)>, Seq<Seq<char>>) {
    let lines = split_on(text, '\n');
    let (t, g, m) = load_lines(lines, lines.len(), t0, kind, fname, classif);
    let m2 = if g.len() > 0 { m.push(msg_last_group(fname, g)) } else { m };
    if kind == PrioRangeKind::Overlays {
        cap_all((t, m2), t.len())
    } else {
        (t, m2)
    }
}


// ------------------------------------------------------------------ reading, executably

/// The views of some keys.
pub open spec fn key_views(g: Seq<PrioKey>) -> Seq<PrioKeyView> {
    g.map_values(|k: PrioKey| k@)
}

fn key_from_word(w: &Vec<char>) -> (r: PrioKey)
    ensures
        r@ == key_of_word(w@),
{
    let n = w.len();
    let mut i: usize = 0;
    while i < n && i + 1 < n
        invariant
            n == w@.len(),
            i <= n,
            colons_pos(w@, 0) == colons_pos(w@, i as int),
        decreases n - i,
    {
        if w[i] == ':' && w[i + 1] == ':' {
            return PrioKey { cl: text_range(w, 0, i), object_id: text_range(w, i, n), auto: None };
        }
        i = i + 1;
    }
    PrioKey { cl: text_of(w), object_id: String::new(), auto: None }
}

fn contains_text(v: &Vec<String>, s: &String) -> (r: bool)
    ensures
        r == texts(v@).contains(s@),
{
    for i in 0..v.len()
        invariant
            forall|j: int| 0 <= j < i ==> texts(v@)[j] != s@,
    {
        if str_eq(v[i].as_str(), s.as_str()) {
            assert(texts(v@)[i as int] == s@);
            return true;
        }
    }
    false
}

fn line_note(head: &str, fname: &str, l: &Vec<char>) -> (r: String)
    ensures
        r@ == head@ + at_line(fname@, l@),
{
    let mut r = str_to_string(head);
    push_str(&mut r, " in ");
    push_str(&mut r, fname);
    push_str(&mut r, ":\n\t");
    let lt = text_of(l);
    push_str(&mut r, lt.as_str());
    proof {
        reveal_strlit(" in ");
        reveal_strlit(":\n\t");
    }
    assert(r@ =~= head@ + at_line(fname@, l@));
    r
}

fn key_string(k: &PrioKey) -> (r: String)
    ensures
        r@ == key_text(k@),
{
    let mut r = String::new();
    r.push('(');
    let a = repr_str(k.cl.as_str());
    push_str(&mut r, a.as_str());
    push_str(&mut r, ", ");
    let b = repr_str(k.object_id.as_str());
    push_str(&mut r, b.as_str());
    r.push(')');
    proof {
        reveal_strlit("(");
        reveal_strlit(", ");
        reveal_strlit(")");
    }
    assert(r@ =~= key_text(k@));
    r
}

fn last_group_note(fname: &str, g: &Vec<PrioKey>) -> (r: String)
    ensures
        r@ == msg_last_group(fname@, key_views(g@)),
{
    let ghost parts = key_views(g@).map_values(|k: PrioKeyView| key_text(k));
    let mut r = String::new();
    for i in 0..g.len()
        invariant
            parts == key_views(g@).map_values(|k: PrioKeyView| key_text(k)),
            r@ == join(parts.take(i as int), ", "@),
    {
        if i > 0 {
            push_str(&mut r, ", ");
        }
        let t = key_string(&g[i]);
        push_str(&mut r, t.as_str());
        assert(parts.take(i as int + 1).drop_last() =~= parts.take(i as int));
        proof {
            if i == 0 {
                assert(parts.take(1) =~= seq![parts[0]]);
            }
        }
    }
    assert(parts.take(g.len() as int) =~= parts);
    let mut m = str_to_string("WARNING: skipping last types groups with no priority set in ");
    push_str(&mut m, fname);
    push_str(&mut m, ":\n\t[");
    push_str(&mut m, r.as_str());
    push_str(&mut m, "]");
    assert(m@ =~= msg_last_group(fname@, key_views(g@)));
    m
}

/// Gives every key of `g` priority `p`, in order.
fn set_group(t: &mut IndexMap<PrioKey, i32>, g: &Vec<PrioKey>, p: i32)
    ensures
        prio_entries(*final(t)) == set_all(prio_entries(*old(t)), key_views(g@), p),
{
    let ghost t0 = prio_entries(*t);
    assert(key_views(g@).take(0) =~= Seq::<PrioKeyView>::empty());
    for i in 0..g.len()
        invariant
            t0 == prio_entries(*old(t)),
            prio_entries(*t) == set_all(t0, key_views(g@).take(i as int), p),
    {
        table_set(t, &g[i], p);
        assert(key_views(g@).take(i as int + 1).drop_last() =~= key_views(g@).take(i as int));
    }
    assert(key_views(g@).take(g.len() as int) =~= key_views(g@));
}

fn load_line_into(
    t: &mut IndexMap<PrioKey, i32>,
    g: &mut Vec<PrioKey>,
    m: &mut Vec<String>,
    raw: &Vec<char>,
    kind: PrioRangeKind,
    fname: &str,
    classif: &Vec<String>,
)
    ensures
        (prio_entries(*final(t)), key_views(final(g)@), texts(final(m)@)) == load_line(
            (prio_entries(*old(t)), key_views(old(g)@), texts(old(m)@)),
            raw@,
            kind,
            fname@,
            texts(classif@),
        ),
{
    let c = strip_comment(raw);
    let l = trim_chars(&c);
    if l.len() == 0 {
        return;
    }
    proof {
        lemma_trim_last(before_hash(raw@));
        lemma_words_nonempty(l@);
    }
    let w = split_words(&l);
    assert(w@[0]@ == words(l@)[0]);
    if w.len() > 2 {
        let note = line_note("WARNING: skipping malformed line", fname, &l);
        m.push(note);
        assert(texts(m@) =~= texts(old(m)@).push(msg_malformed(fname@, l@)));
        return;
    }
    let is_sep = w[0].len() == 3 && w[0][0] == '=' && w[0][1] == '=' && w[0][2] == '=';
    assert(is_sep == (words(l@)[0] == "==="@)) by {
        reveal_strlit("===");
        if words(l@)[0] == "==="@ {
            assert(words(l@)[0][0] == '=');
            assert(words(l@)[0][1] == '=');
            assert(words(l@)[0][2] == '=');
        }
        if is_sep {
            assert(w@[0]@ =~= "==="@);
        }
    }
    if is_sep {
        let pv = if w.len() > 1 { read_i32(&w[1]) } else { None };
        proof {
            if w.len() > 1 {
                assert(w@[1]@ == words(l@)[1]);
            }
        }
        let lo: i32 = if kind == PrioRangeKind::Overlays { -10000 } else { 0 };
        let hi: i32 = if kind == PrioRangeKind::Overlays { OVERLAYS_MAX_PRIORITY } else { LAYER_PRIORITY_RANGE };
        match pv {
            Some(p) => {
                if lo <= p && p < hi {
                    if g.len() > 0 {
                        set_group(t, g, p);
                    } else {
                        let note = line_note("WARNING: skipping empty priority group", fname, &l);
                        m.push(note);
                        assert(texts(m@) =~= texts(old(m)@).push(msg_empty_group(fname@, l@)));
                    }
                } else {
                    let mut head = str_to_string("WARNING: skipping out of [");
                    push_i64(&mut head, lo as i64);
                    push_str(&mut head, ";");
                    push_i64(&mut head, hi as i64);
                    push_str(&mut head, ") range priority value");
                    let note = line_note(head.as_str(), fname, &l);
                    m.push(note);
                    assert(texts(m@) =~= texts(old(m)@).push(msg_out_of_range(prio_min(kind), prio_max(kind), fname@, l@)));
                }
            },
            None => {
                let note = line_note("WARNING: skipping invalid priority value", fname, &l);
                m.push(note);
                assert(texts(m@) =~= texts(old(m)@).push(msg_invalid(fname@, l@)));
            },
        }
        *g = Vec::new();
        assert(key_views(g@) =~= Seq::<PrioKeyView>::empty());
        return;
    }
    let key = key_from_word(&w[0]);
    if !contains_text(classif, &key.cl) {
        let note = line_note("WARNING: unknown classificator type", fname, &l);
        m.push(note);
    }
    let ghost m1 = texts(m@);
    match table_get(t, &key) {
        Some(prev) => {
            let mut head = str_to_string("WARNING: overriding previously set priority value ");
            push_i64(&mut head, prev as i64);
            let note = line_note(head.as_str(), fname, &l);
            m.push(note);
            assert(texts(m@) =~= m1.push(msg_override(prev, fname@, l@)));
        },
        None => {},
    }
    g.push(key);
    assert(key_views(g@) =~= key_views(old(g)@).push(key_of_word(words(l@)[0])));
}


fn has_prefix(s: &str, w: &str) -> (r: bool)
    ensures
        r == starts_with(s@, w@),
{
    let a = chars_of(s);
    let b = chars_of(w);
    if a.len() < b.len() {
        return false;
    }
    for i in 0..b.len()
        invariant
            b@.len() <= a@.len(),
            a@ == s@,
            b@ == w@,
            forall|j: int| 0 <= j < i ==> a@[j] == b@[j],
    {
        if a[i] != b[i] {
            assert(s@.subrange(0, w@.len() as int)[i as int] != w@[i as int]);
            return false;
        }
    }
    assert(s@.subrange(0, w@.len() as int) =~= w@);
    true
}

fn main_key_of(k: &PrioKey) -> (r: Option<PrioKey>)
    ensures
        match r {
            Some(x) => main_key(k@) == Some(x@),
            None => main_key(k@) is None,
        },
{
    let oid = chars_of(k.object_id.as_str());
    if has_prefix(k.object_id.as_str(), "pathtext") {
        proof {
            reveal_strlit("pathtext");
            reveal_strlit("shield");
        }
        let mut o = str_to_string("shield");
        let rest = text_range(&oid, 8, oid.len());
        push_str(&mut o, rest.as_str());
        return Some(PrioKey { cl: str_to_string(k.cl.as_str()), object_id: o, auto: None });
    }
    if has_prefix(k.object_id.as_str(), "caption") {
        proof {
            reveal_strlit("caption");
            reveal_strlit("icon");
        }
        let mut o = str_to_string("icon");
        let rest = text_range(&oid, 7, oid.len());
        push_str(&mut o, rest.as_str());
        return Some(PrioKey { cl: str_to_string(k.cl.as_str()), object_id: o, auto: None });
    }
    None
}

fn higher_note(k: &PrioKey, mk: &PrioKey) -> (r: String)
    ensures
        r@ == msg_higher(k@, mk@),
{
    let mut r = str_to_string("WARNING: ");
    let a = key_string(k);
    push_str(&mut r, a.as_str());
    push_str(&mut r, " priority is higher than ");
    let b = key_string(mk);
    push_str(&mut r, b.as_str());
    push_str(&mut r, ", making it equal");
    assert(r@ =~= msg_higher(k@, mk@));
    r
}

/// Lowers every optional caption or path text whose priority is higher than
/// that of its icon or shield, in table order.
fn cap_entries(t: &mut IndexMap<PrioKey, i32>, m: &mut Vec<String>)
    ensures
        (prio_entries(*final(t)), texts(final(m)@)) == cap_all(
            (prio_entries(*old(t)), texts(old(m)@)),
            prio_entries(*old(t)).len(),
        ),
{
    let ghost st0 = (prio_entries(*t), texts(m@));
    let n = table_len(t);
    for i in 0..n
        invariant
            n == prio_entries(*t).len(),
            st0 == (prio_entries(*old(t)), texts(old(m)@)),
            (prio_entries(*t), texts(m@)) == cap_all(st0, i as nat),
    {
        let ghost before = (prio_entries(*t), texts(m@));
        let (k, p) = match table_entry(t, i) {
            Some(e) => (copy_key(e.0), *e.1),
            None => {
                return;
            },
        };
        assert(before.0[i as int] == (k@, p));
        match main_key_of(&k) {
            Some(mk) => {
                match table_get(t, &mk) {
                    Some(mp) => {
                        if p > mp {
                            let note = higher_note(&k, &mk);
                            m.push(note);
                            let ghost kv = k@;
                            table_set_at(t, i, mp);
                            assert(prio_entries(*t) =~= before.0.update(i as int, (kv, mp)));
                            assert(texts(m@) =~= before.1.push(msg_higher(kv, mk@)));
                        }
                    },
                    None => {},
                }
            },
            None => {},
        }
    }
}

/// Reads the text of a priorities file of range `kind` into `table`,
/// returning the warnings in order.
///
/// Each line loses what follows a `#` and the white space at its ends; empty
/// lines are skipped. A line of more than two words is malformed. A line
/// `=== <p>` closes the open group: when `p` is a decimal integer within the
/// range (`[-10000; 10000)` for overlays, `[0; 1000)` otherwise), every type
/// of the group is given priority `p` (kept in its place if it had one,
/// appended otherwise). Any other line names a type `class[::object-id]` and
/// adds it to the open group, with a warning when the class is not in
/// `classif` and when the type already has a priority. A group left open at
/// the end is reported and dropped. For overlays, a caption or path text
/// whose priority is higher than its icon's or shield's is then lowered to it.
pub fn load_priority_text(
    table: &mut IndexMap<PrioKey, i32>,
    kind: PrioRangeKind,
    text: &str,
    fname: &str,
    classif: &Vec<String>,
) -> (msgs: Vec<String>)
    ensures
        (prio_entries(*final(table)), texts(msgs@)) == loaded(
            prio_entries(*old(table)),
            kind,
            text@,
            fname@,
            texts(classif@),
        ),
{
    let chars = chars_of(text);
    let lines = split_chars(&chars, '\n');
    let ghost lv = split_on(text@, '\n');
    let ghost t0 = prio_entries(*table);
    let mut g: Vec<PrioKey> = Vec::new();
    let mut m: Vec<String> = Vec::new();
    assert(key_views(g@) =~= Seq::<PrioKeyView>::empty());
    assert(texts(m@) =~= Seq::<Seq<char>>::empty());
    for i in 0..lines.len()
        invariant
            lv == split_on(text@, '\n'),
            lines@.map_values(|p: Vec<char>| p@) == lv,
            t0 == prio_entries(*old(table)),
            (prio_entries(*table), key_views(g@), texts(m@)) == load_lines(
                lv,
                i as nat,
                t0,
                kind,
                fname@,
                texts(classif@),
            ),
    {
        assert(lines@[i as int]@ == lv[i as int]);
        load_line_into(table, &mut g, &mut m, &lines[i], kind, fname, classif);
    }
    assert(lines@.len() == lv.len());
    let ghost tm = (prio_entries(*table), texts(m@));
    if g.len() > 0 {
        let note = last_group_note(fname, &g);
        m.push(note);
        assert(texts(m@) =~= tm.1.push(msg_last_group(fname@, key_views(g@))));
    }
    if kind == PrioRangeKind::Overlays {
        cap_entries(table, &mut m);
    }
    m
}

// ------------------------------------------------------------------ the priority of a drawing rule

/// The position of a range among the four tables.
pub open spec fn range_index(k: PrioRangeKind) -> int {
    match k {
        PrioRangeKind::Overlays => 0,
        PrioRangeKind::Fg => 1,
        PrioRangeKind::BgTop => 2,
        PrioRangeKind::BgBySize => 3,
    }
}

/// The ranges a drawing rule type looks in, in order.
pub open spec fn ranges_for(dr_type: Seq<char>) -> Seq<PrioRangeKind> {
    if dr_type == "line"@ {
        seq![PrioRangeKind::Fg, PrioRangeKind::BgTop]
    } else if dr_type == "area"@ {
        seq![PrioRangeKind::BgBySize, PrioRangeKind::BgTop, PrioRangeKind::Fg]
    } else {
        seq![PrioRangeKind::Overlays]
    }
}

/// The views of the four tables.
pub open spec fn tables_view(t: Seq<IndexMap<PrioKey, i32>>) -> Seq<Seq<(PrioKeyView, i32)>> {
    t.map_values(|v: IndexMap<PrioKey, i32>| prio_entries(v))
}

/// The first of the ranges `rs` from `i` that gives `key` a priority, with
/// that priority.
pub open spec fn found_in(tables: Seq<Seq<(PrioKeyView, i32)>>, key: PrioKeyView, rs: Seq<PrioRangeKind>, i: int) -> Option<(PrioRangeKind, i32)>
    decreases rs.len() - i,
{
    if i < 0 || i >= rs.len() {
        None
    } else {
        match prio_get(tables[range_index(rs[i])], key) {
            Some(p) => Some((rs[i], p)),
            None => found_in(tables, key, rs, i + 1),
        }
    }
}

/// The object id a priority is kept under: none for `::default`.
pub open spec fn main_object_id(oid: Seq<char>) -> Seq<char> {
    if oid == "::default"@ { Seq::empty() } else { oid }
}

/// The lowest priority a range's automatic priorities take.
pub open spec fn auto_min(k: PrioRangeKind) -> int {
    if k == PrioRangeKind::Overlays { -10000 } else { 0 }
}

/// Where the type's priority is found and the value it is turned into: the
/// priority with `m` added and raised to the range's lowest for an automatic
/// one.
pub open spec fn drape_found(
    tables: Seq<Seq<(PrioKeyView, i32)>>,
    cl: Seq<char>,
    oid: Seq<char>,
    dr_type: Seq<char>,
    auto: Option<(Seq<char>, Option<Seq<char>>)>,
    m: i32,
) -> Option<(PrioRangeKind, int)> {
    let key = PrioKeyView { cl, object_id: main_object_id(oid), auto: None };
    match found_in(tables, key, ranges_for(dr_type), 0) {
        None => None,
        Some((r, p)) => Some((r, if auto is Some {
            if p + m < auto_min(r) { auto_min(r) } else { p + m }
        } else {
            p as int
        })),
    }
}

/// The additions of a lookup fit in 32 bits: an automatic rule adds `m` to
/// the priority found, any other rule adds its range's base (where they do
/// not fit, adding overflows).
pub open spec fn drape_fits(
    tables: Seq<Seq<(PrioKeyView, i32)>>,
    cl: Seq<char>,
    oid: Seq<char>,
    dr_type: Seq<char>,
    auto: Option<(Seq<char>, Option<Seq<char>>)>,
    m: i32,
) -> bool {
    let key = PrioKeyView { cl, object_id: main_object_id(oid), auto: None };
    match found_in(tables, key, ranges_for(dr_type), 0) {
        None => true,
        Some((r, p)) => if auto is Some {
            i32::MIN <= p + m <= i32::MAX
        } else {
            i32::MIN <= p + crate::prio::base_of(r)
        },
    }
}

/// The table a drawing rule's priority comes from, by type: an area's from
/// background-by-size, else background-top, else foreground; a line's from
/// foreground, else background-top; any other type's from the overlays.
/// The first of those tables (indexed overlays, foreground, background-top,
/// background-by-size) that holds the rule's key gives its priority.
pub proof fn lemma_drape_range_order(
    tables: Seq<Seq<(PrioKeyView, i32)>>,
    cl: Seq<char>,
    oid: Seq<char>,
    dr_type: Seq<char>,
    m: i32,
)
    requires
        tables.len() == 4,
    ensures
        ({
            let key = PrioKeyView { cl, object_id: main_object_id(oid), auto: None };
            let found = drape_found(tables, cl, oid, dr_type, None, m);
            &&& dr_type == "area"@ ==> found == if prio_get(tables[3], key) is Some {
                Some((PrioRangeKind::BgBySize, prio_get(tables[3], key)->0 as int))
            } else if prio_get(tables[2], key) is Some {
                Some((PrioRangeKind::BgTop, prio_get(tables[2], key)->0 as int))
            } else if prio_get(tables[1], key) is Some {
                Some((PrioRangeKind::Fg, prio_get(tables[1], key)->0 as int))
            } else {
                None
            }
            &&& dr_type == "line"@ ==> found == if prio_get(tables[1], key) is Some {
                Some((PrioRangeKind::Fg, prio_get(tables[1], key)->0 as int))
            } else if prio_get(tables[2], key) is Some {
                Some((PrioRangeKind::BgTop, prio_get(tables[2], key)->0 as int))
            } else {
                None
            }
            &&& dr_type != "area"@ && dr_type != "line"@ ==> found == if prio_get(tables[0], key) is Some {
                Some((PrioRangeKind::Overlays, prio_get(tables[0], key)->0 as int))
            } else {
                None
            }
        }),
{
    reveal_strlit("area");
    reveal_strlit("line");
    reveal_with_fuel(found_in, 4);
    assert("area"@ != "line"@) by {
        assert("area"@[0] != "line"@[0]);
    }
}

/// An automatic rule takes its type's priority from the same table as the
/// type, plus `m`, and at least the lowest priority of that table's range
/// (-10000 for overlays, 0 otherwise); the type's own priority is taken as
/// it is.
pub proof fn lemma_drape_auto_priority(
    tables: Seq<Seq<(PrioKeyView, i32)>>,
    cl: Seq<char>,
    oid: Seq<char>,
    dr_type: Seq<char>,
    a: (Seq<char>, Option<Seq<char>>),
    m: i32,
)
    ensures
        drape_found(tables, cl, oid, dr_type, Some(a), m) == match drape_found(tables, cl, oid, dr_type, None, m) {
            Some((r, p)) => {
                let low: int = if r == PrioRangeKind::Overlays { -10000 } else { 0 };
                Some((r, if p + m < low { low } else { p + m }))
            },
            None => None,
        },
        match drape_found(tables, cl, oid, dr_type, None, m) {
            Some((r, p)) => prio_get(tables[range_index(r)], PrioKeyView { cl, object_id: main_object_id(oid), auto: None }) == Some(p as i32),
            None => true,
        },
{
    let key = PrioKeyView { cl, object_id: main_object_id(oid), auto: None };
    lemma_found_in_table(tables, key, ranges_for(dr_type), 0);
}

proof fn lemma_found_in_table(tables: Seq<Seq<(PrioKeyView, i32)>>, key: PrioKeyView, rs: Seq<PrioRangeKind>, i: int)
    ensures
        match found_in(tables, key, rs, i) {
            Some((r, p)) => prio_get(tables[range_index(r)], key) == Some(p),
            None => true,
        },
    decreases rs.len() - i,
{
    if 0 <= i < rs.len() && prio_get(tables[range_index(rs[i])], key) is None {
        lemma_found_in_table(tables, key, rs, i + 1);
    }
}

proof fn lemma_key_pos_same_keys(t: Seq<(PrioKeyView, i32)>, u: Seq<(PrioKeyView, i32)>, k: PrioKeyView, i: int)
    requires
        t.len() == u.len(),
        forall|j: int| 0 <= j < t.len() ==> #[trigger] t[j].0 == u[j].0,
    ensures
        key_pos(t, k, i) == key_pos(u, k, i),
    decreases t.len() - i,
{
    if 0 <= i < t.len() && t[i].0 != k {
        lemma_key_pos_same_keys(t, u, k, i + 1);
    }
}

proof fn lemma_key_pos_push(t: Seq<(PrioKeyView, i32)>, e: (PrioKeyView, i32), k: PrioKeyView, i: int)
    requires
        0 <= i,
    ensures
        key_pos(t.push(e), k, i) == if key_pos(t, k, i) != -1 {
            key_pos(t, k, i)
        } else if e.0 == k && i <= t.len() {
            t.len() as int
        } else {
            -1
        },
    decreases t.len() + 1 - i,
{
    let u = t.push(e);
    if i < t.len() {
        assert(u[i] == t[i]);
        if t[i].0 != k {
            lemma_key_pos_push(t, e, k, i + 1);
        }
    } else if i == t.len() {
        assert(u[i] == e);
        if e.0 != k {
            lemma_key_pos_push(t, e, k, i + 1);
        }
    }
}

proof fn lemma_key_pos_first(t: Seq<(PrioKeyView, i32)>, k: PrioKeyView, i: int)
    requires
        0 <= i,
    ensures
        key_pos(t, k, i) == -1 || (i <= key_pos(t, k, i) < t.len() && t[key_pos(t, k, i)].0 == k),
    decreases t.len() - i,
{
    if i < t.len() && t[i].0 != k {
        lemma_key_pos_first(t, k, i + 1);
    }
}

/// Setting a key's priority: the key then has that priority, and every
/// other key keeps the one it had.
pub proof fn lemma_prio_set_get(t: Seq<(PrioKeyView, i32)>, k: PrioKeyView, v: i32, k2: PrioKeyView)
    ensures
        prio_get(prio_set(t, k, v), k2) == if k2 == k { Some(v) } else { prio_get(t, k2) },
{
    let i = key_pos(t, k, 0);
    lemma_key_pos_first(t, k, 0);
    lemma_key_pos_first(t, k2, 0);
    if i < 0 {
        lemma_key_pos_push(t, (k, v), k2, 0);
        let p = key_pos(t, k2, 0);
        if p != -1 {
            assert(t.push((k, v))[p] == t[p]);
        }
    } else {
        let u = t.update(i, (k, v));
        lemma_key_pos_same_keys(t, u, k2, 0);
        let p = key_pos(t, k2, 0);
        if p != -1 && k2 != k {
            assert(p != i);
        }
    }
}

/// An automatic rule's priority, once found, is stored under its own key
/// in the table of the range it was found in, leaving every other key and
/// every other table as they were; a rule that is not automatic, or whose
/// type has no priority, changes no table.
pub proof fn lemma_drape_stores(
    tables: Seq<Seq<(PrioKeyView, i32)>>,
    cl: Seq<char>,
    oid: Seq<char>,
    dr_type: Seq<char>,
    auto: Option<(Seq<char>, Option<Seq<char>>)>,
    m: i32,
)
    requires
        tables.len() == 4,
    ensures
        ({
            let t2 = drape_tables(tables, cl, oid, dr_type, auto, m);
            &&& t2.len() == 4
            &&& match (drape_found(tables, cl, oid, dr_type, auto, m), auto) {
                (Some((r, v)), Some(a)) => {
                    let ak = PrioKeyView { cl, object_id: main_object_id(oid), auto: Some(a) };
                    &&& prio_get(t2[range_index(r)], ak) == Some(v as i32)
                    &&& forall|k: PrioKeyView| k != ak ==> #[trigger] prio_get(t2[range_index(r)], k) == prio_get(tables[range_index(r)], k)
                    &&& forall|j: int| 0 <= j < 4 && j != range_index(r) ==> #[trigger] t2[j] == tables[j]
                },
                _ => t2 == tables,
            }
        }),
{
    match (drape_found(tables, cl, oid, dr_type, auto, m), auto) {
        (Some((r, v)), Some(a)) => {
            let ak = PrioKeyView { cl, object_id: main_object_id(oid), auto: Some(a) };
            let ri = range_index(r);
            lemma_prio_set_get(tables[ri], ak, v as i32, ak);
            assert forall|k: PrioKeyView| k != ak implies #[trigger] prio_get(drape_tables(tables, cl, oid, dr_type, auto, m)[ri], k) == prio_get(tables[ri], k) by {
                lemma_prio_set_get(tables[ri], ak, v as i32, k);
            }
        },
        _ => {},
    }
}

/// The tables after looking up a drawing rule's priority: an automatic one
/// is set under its own key in the range the type's priority is found in.
pub open spec fn drape_tables(
    tables: Seq<Seq<(PrioKeyView, i32)>>,
    cl: Seq<char>,
    oid: Seq<char>,
    dr_type: Seq<char>,
    auto: Option<(Seq<char>, Option<Seq<char>>)>,
    m: i32,
) -> Seq<Seq<(PrioKeyView, i32)>> {
    match (drape_found(tables, cl, oid, dr_type, auto, m), auto) {
        (Some((r, v)), Some(a)) => {
            let k = range_index(r);
            tables.update(k, prio_set(tables[k], PrioKeyView { cl, object_id: main_object_id(oid), auto: Some(a) }, v as i32))
        },
        _ => tables,
    }
}

/// The view of an automatic rule's type and comment.
pub open spec fn auto_view(auto: Option<(&str, Option<String>)>) -> Option<(Seq<char>, Option<Seq<char>>)> {
    match auto {
        Some(a) => Some((a.0@, match a.1 { Some(c) => Some(c@), None => None })),
        None => None,
    }
}

/// The table index of a range.
fn range_slot(k: PrioRangeKind) -> (r: usize)
    ensures
        r == range_index(k),
{
    match k {
        PrioRangeKind::Overlays => 0,
        PrioRangeKind::Fg => 1,
        PrioRangeKind::BgTop => 2,
        PrioRangeKind::BgBySize => 3,
    }
}

/// The key a drawing rule's own priority is kept under.
fn rule_key(cl: &str, object_id: &str) -> (k: PrioKey)
    ensures
        k@ == (PrioKeyView { cl: cl@, object_id: main_object_id(object_id@), auto: None }),
{
    let oid: &str = if str_eq(object_id, "::default") { "" } else { object_id };
    proof {
        reveal_strlit("");
        assert(""@ =~= Seq::<char>::empty());
    }
    PrioKey { cl: str_to_string(cl), object_id: str_to_string(oid), auto: None }
}

/// The first range of `dr_type` whose table gives `key` a priority, with
/// that priority.
fn find_in_ranges(tables: &Vec<IndexMap<PrioKey, i32>>, key: &PrioKey, dr_type: &str) -> (r: Option<(PrioRangeKind, i32)>)
    requires
        tables@.len() == 4,
    ensures
        r == found_in(tables_view(tables@), key@, ranges_for(dr_type@), 0),
{
    let ghost tv = tables_view(tables@);
    let ranges: Vec<PrioRangeKind> = if str_eq(dr_type, "line") {
        vec![PrioRangeKind::Fg, PrioRangeKind::BgTop]
    } else if str_eq(dr_type, "area") {
        vec![PrioRangeKind::BgBySize, PrioRangeKind::BgTop, PrioRangeKind::Fg]
    } else {
        vec![PrioRangeKind::Overlays]
    };
    let ghost rs = ranges_for(dr_type@);
    assert(ranges@ =~= rs);
    for i in 0..ranges.len()
        invariant
            tables@.len() == 4,
            tv == tables_view(tables@),
            ranges@ == rs,
            rs == ranges_for(dr_type@),
            found_in(tv, key@, rs, 0) == found_in(tv, key@, rs, i as int),
    {
        let k = ranges[i];
        let idx = range_slot(k);
        assert(tv[idx as int] == prio_entries(tables@[idx as int]));
        match table_get(&tables[idx], key) {
            None => {},
            Some(p) => {
                assert(found_in(tv, key@, rs, i as int) == Some((k, p)));
                return Some((k, p));
            },
        }
    }
    None
}

/// Whether looking up the priority of a drawing rule stays within 32 bits
/// (see `drape_fits`).
pub fn drape_priority_fits(
    tables: &Vec<IndexMap<PrioKey, i32>>,
    cl: &str,
    object_id: &str,
    dr_type: &str,
    auto: &Option<(&str, Option<String>)>,
    auto_prio_mod: i32,
) -> (b: bool)
    requires
        tables@.len() == 4,
    ensures
        b == drape_fits(tables_view(tables@), cl@, object_id@, dr_type@, auto_view(*auto), auto_prio_mod),
{
    let key = rule_key(cl, object_id);
    match find_in_ranges(tables, &key, dr_type) {
        None => true,
        Some((k, p)) => {
            if auto.is_some() {
                let s: i64 = p as i64 + auto_prio_mod as i64;
                -2147483648i64 <= s && s <= 2147483647i64
            } else {
                let s: i64 = p as i64 + k.base() as i64;
                -2147483648i64 <= s
            }
        },
    }
}

/// The priority of a drawing rule of type `dr_type` for class `cl` and
/// object id `object_id`, looked up in the four tables (by range: overlays,
/// foreground, background top, background by size) in the ranges of its
/// type, and offset by its range's base; none where no range gives it one.
/// An automatic rule (`auto`: its type and comment) takes the type's
/// priority plus `auto_prio_mod`, at least the range's lowest, and sets it
/// under its own key.
pub fn drape_priority(
    tables: &mut Vec<IndexMap<PrioKey, i32>>,
    cl: &str,
    object_id: &str,
    dr_type: &str,
    auto: Option<(&str, Option<String>)>,
    auto_prio_mod: i32,
) -> (r: Option<i32>)
    requires
        old(tables)@.len() == 4,
        drape_fits(tables_view(old(tables)@), cl@, object_id@, dr_type@, auto_view(auto), auto_prio_mod),
    ensures
        final(tables)@.len() == 4,
        ({
            let av = auto_view(auto);
            &&& tables_view(final(tables)@) == drape_tables(tables_view(old(tables)@), cl@, object_id@, dr_type@, av, auto_prio_mod)
            &&& match drape_found(tables_view(old(tables)@), cl@, object_id@, dr_type@, av, auto_prio_mod) {
                Some((k, v)) => r == Some((v + crate::prio::base_of(k)) as i32),
                None => r is None,
            }
        }),
{
    let ghost av = auto_view(auto);
    let ghost tv = tables_view(tables@);
    let key = rule_key(cl, object_id);
    match find_in_ranges(tables, &key, dr_type) {
        None => None,
        Some((k, p)) => {
            match auto {
                None => Some(p + k.base()),
                Some(a) => {
                    let idx = range_slot(k);
                    assert(av == Some((a.0@, match a.1 { Some(c) => Some(c@), None => None::<Seq<char>> })));
                    let min: i32 = if k == PrioRangeKind::Overlays { -10000 } else { 0 };
                    let sum = p + auto_prio_mod;
                    let v = if sum < min { min } else { sum };
                    let akey = PrioKey { cl: str_to_string(cl), object_id: key.object_id, auto: Some((str_to_string(a.0), a.1)) };
                    let mut t = tables.remove(idx);
                    table_set(&mut t, &akey, v);
                    tables.insert(idx, t);
                    assert(tables_view(tables@) =~= tv.update(idx as int, prio_entries(t)));
                    assert(akey@ == PrioKeyView { cl: cl@, object_id: main_object_id(object_id@), auto: Some(av->0) });
                    Some(v + k.base())
                },
            }
        },
    }
}

} // verus!
