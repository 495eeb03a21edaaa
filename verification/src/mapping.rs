//! Reading the type mapping (`mapcss-mapping.csv`): one type per row of
//! `;`-separated fields, with its numeric id, the tags that select it and
//! whether it is obsolete. The result lists the classes with their tags, the
//! class names in ascending order, the class each name came from, and the
//! lines of `types.txt`.

use vstd::prelude::*;
use crate::text::{chars_of, str_to_string, push_str, text_of};
use crate::lines::{split_on, split_chars, before_char, cut_at, trim, trim_chars, parse_i64, read_i64};
use crate::canonical::texts;
use crate::condition::str_eq;

verus! {

// ------------------------------------------------------------------ ordering names

/// `a` comes before `b`: character by character, a proper prefix first.
pub open spec fn text_lt(a: Seq<char>, b: Seq<char>) -> bool
    decreases a.len(),
{
    if a.len() == 0 {
        b.len() > 0
    } else if b.len() == 0 {
        false
    } else if a[0] != b[0] {
        a[0] < b[0]
    } else {
        text_lt(a.drop_first(), b.drop_first())
    }
}

/// Each text comes before every later one.
pub open spec fn strictly_sorted(s: Seq<Seq<char>>) -> bool {
    forall|i: int, j: int| 0 <= i < j < s.len() ==> text_lt(#[trigger] s[i], #[trigger] s[j])
}

/// No text comes before itself.
pub proof fn lemma_text_lt_irreflexive(a: Seq<char>)
    ensures
        !text_lt(a, a),
    decreases a.len(),
{
    if a.len() > 0 {
        lemma_text_lt_irreflexive(a.drop_first());
    }
}

/// The order is transitive.
pub proof fn lemma_text_lt_transitive(a: Seq<char>, b: Seq<char>, c: Seq<char>)
    requires
        text_lt(a, b),
        text_lt(b, c),
    ensures
        text_lt(a, c),
    decreases a.len(),
{
    if a.len() > 0 && a[0] == b[0] && b[0] == c[0] {
        lemma_text_lt_transitive(a.drop_first(), b.drop_first(), c.drop_first());
    }
}

/// Of two different texts one comes first.
pub proof fn lemma_text_lt_total(a: Seq<char>, b: Seq<char>)
    requires
        a != b,
    ensures
        text_lt(a, b) || text_lt(b, a),
    decreases a.len(),
{
    if a.len() == 0 && b.len() == 0 {
        assert(a =~= b);
    } else if a.len() > 0 && b.len() > 0 && a[0] == b[0] {
        if a.drop_first() =~= b.drop_first() {
            assert(a =~= seq![a[0]] + a.drop_first());
            assert(b =~= seq![b[0]] + b.drop_first());
        } else {
            lemma_text_lt_total(a.drop_first(), b.drop_first());
        }
    }
}

/// Whether `a` comes before `b`.
pub fn text_less(a: &str, b: &str) -> (r: bool)
    ensures
        r == text_lt(a@, b@),
{
    let x = chars_of(a);
    let y = chars_of(b);
    let mut i: usize = 0;
    assert(x@.skip(0) =~= x@);
    assert(y@.skip(0) =~= y@);
    while i < x.len() && i < y.len()
        invariant
            i <= x@.len(),
            i <= y@.len(),
            text_lt(x@.skip(i as int), y@.skip(i as int)) == text_lt(a@, b@),
            x@ == a@,
            y@ == b@,
        decreases x@.len() - i,
    {
        assert(x@.skip(i as int)[0] == x@[i as int]);
        assert(y@.skip(i as int)[0] == y@[i as int]);
        if x[i] != y[i] {
            return x[i] < y[i];
        }
        assert(x@.skip(i as int).drop_first() =~= x@.skip(i as int + 1));
        assert(y@.skip(i as int).drop_first() =~= y@.skip(i as int + 1));
        i = i + 1;
    }
    assert(x@.skip(i as int).len() == x@.len() - i);
    i == x.len() && i < y.len()
}

proof fn lemma_insert_contains(s: Seq<Seq<char>>, j: int, a: Seq<char>, x: Seq<char>)
    requires
        0 <= j <= s.len(),
    ensures
        s.insert(j, a).contains(x) <==> (s.contains(x) || x == a),
{
    s.insert_ensures(j, a);
    if s.contains(x) {
        let k = choose|k: int| 0 <= k < s.len() && s[k] == x;
        if k < j {
            assert(s.insert(j, a)[k] == x);
        } else {
            assert(s.insert(j, a)[k + 1] == x);
        }
    }
    if x == a {
        assert(s.insert(j, a)[j] == x);
    }
    if s.insert(j, a).contains(x) && x != a {
        let k = choose|k: int| 0 <= k < s.insert(j, a).len() && s.insert(j, a)[k] == x;
        if k < j {
            assert(s[k] == x);
        } else if k > j {
            assert(s[k - 1] == x);
        }
    }
}

/// The texts of `v`, which holds no text twice, in ascending order.
fn sort_texts(v: &Vec<String>) -> (r: Vec<String>)
    requires
        texts(v@).no_duplicates(),
    ensures
        strictly_sorted(texts(r@)),
        texts(r@).to_set() == texts(v@).to_set(),
        r@.len() == v@.len(),
{
    let ghost vs = texts(v@);
    let mut r: Vec<String> = Vec::new();
    assert(texts(r@).to_set() =~= vs.take(0).to_set());
    for i in 0..v.len()
        invariant
            vs == texts(v@),
            vs.no_duplicates(),
            strictly_sorted(texts(r@)),
            texts(r@).to_set() == vs.take(i as int).to_set(),
            r@.len() == i,
    {
        let s = &v[i];
        let ghost rs = texts(r@);
        assert(!rs.contains(s@)) by {
            if rs.contains(s@) {
                assert(rs.to_set().contains(s@));
                assert(vs.take(i as int).to_set().contains(s@));
                let k = choose|k: int| 0 <= k < i && vs.take(i as int)[k] == s@;
                assert(vs[k] == vs[i as int]);
            }
        }
        let mut j: usize = 0;
        while j < r.len() && text_less(r[j].as_str(), s.as_str())
            invariant
                j <= r@.len(),
                rs == texts(r@),
                forall|k: int| 0 <= k < j ==> text_lt(#[trigger] rs[k], s@),
            decreases r@.len() - j,
        {
            j = j + 1;
        }
        proof {
            if j < r@.len() {
                assert(rs[j as int] != s@) by {
                    assert(rs.contains(rs[j as int]));
                }
                lemma_text_lt_total(rs[j as int], s@);
                assert forall|k: int| j <= k < rs.len() implies text_lt(s@, #[trigger] rs[k]) by {
                    if k > j {
                        lemma_text_lt_transitive(s@, rs[j as int], rs[k]);
                    }
                }
            }
        }
        let c = s.clone();
        r.insert(j, c);
        proof {
            rs.insert_ensures(j as int, s@);
            assert(texts(r@) =~= rs.insert(j as int, s@));
            let nr = rs.insert(j as int, s@);
            assert forall|a: int, b: int| 0 <= a < b < nr.len() implies text_lt(#[trigger] nr[a], #[trigger] nr[b]) by {
                if b < j {
                } else if a < j && b == j {
                } else if a < j {
                    assert(nr[b] == rs[b - 1]);
                } else if a == j {
                    assert(nr[b] == rs[b - 1]);
                } else {
                    assert(nr[a] == rs[a - 1]);
                    assert(nr[b] == rs[b - 1]);
                }
            }
            assert forall|x: Seq<char>| nr.to_set().contains(x) == vs.take(i as int + 1).to_set().contains(x) by {
                lemma_insert_contains(rs, j as int, s@, x);
                assert(vs.take(i as int + 1) =~= vs.take(i as int).push(s@));
                vstd::seq_lib::lemma_seq_contains_after_push(vs.take(i as int), s@, x);
                assert(rs.to_set().contains(x) == vs.take(i as int).to_set().contains(x));
            }
            assert(nr.to_set() =~= vs.take(i as int + 1).to_set());
        }
    }
    assert(vs.take(v@.len() as int) =~= vs);
    r
}

// ------------------------------------------------------------------ lines and fields

/// `s` without one final `\r`.
pub open spec fn strip_cr(s: Seq<char>) -> Seq<char> {
    if s.len() > 0 && s.last() == '\r' {
        s.drop_last()
    } else {
        s
    }
}

/// The lines of `text` as `str::lines` gives them: split at each `\n`, the
/// `\r` of a `\r\n` dropped, and no empty line after a final `\n`.
pub open spec fn text_lines(text: Seq<char>) -> Seq<Seq<char>> {
    let p = split_on(text, '\n');
    let n: int = if p.last().len() == 0 { p.len() - 1 } else { p.len() as int };
    Seq::new(n as nat, |i: int| if i < p.len() - 1 { strip_cr(p[i]) } else { p[i] })
}

/// `s` with every `a` replaced by `b`.
pub open spec fn replace_char(s: Seq<char>, a: char, b: char) -> Seq<char> {
    s.map_values(|c: char| if c == a { b } else { c })
}

/// `s` without the run of `c` at its end.
pub open spec fn strip_end(s: Seq<char>, c: char) -> Seq<char>
    decreases s.len(),
{
    if s.len() > 0 && s.last() == c {
        strip_end(s.drop_last(), c)
    } else {
        s
    }
}

/// The tag that one `[..]` piece of a selector requires: `k=v`; `k` or `k?`
/// for `k=yes`; `!k` or `!k?` for `k=no`; none for an empty piece.
pub open spec fn piece_tag(p: Seq<char>) -> Option<(Seq<char>, Seq<char>)> {
    let parts = split_on(strip_end(p, ']'), '=');
    if parts.len() == 1 {
        let w = parts[0];
        if w.len() == 0 {
            None
        } else if w[0] == '!' {
            Some((strip_end(w.drop_first(), '?'), "no"@))
        } else {
            Some((strip_end(w, '?'), "yes"@))
        }
    } else {
        Some((parts[0], parts[1]))
    }
}

/// The tags of some pieces, in order.
pub open spec fn piece_tags(ps: Seq<Seq<char>>) -> Seq<(Seq<char>, Seq<char>)>
    decreases ps.len(),
{
    if ps.len() == 0 {
        Seq::empty()
    } else {
        let prev = piece_tags(ps.drop_last());
        match piece_tag(ps.last()) {
            Some(t) => prev.push(t),
            None => prev,
        }
    }
}

/// The tags required by the first selector of an expression
/// `[k=v][k2]..,..`.
pub open spec fn selector_tags(e: Seq<char>) -> Seq<(Seq<char>, Seq<char>)> {
    piece_tags(split_on(before_char(e, ','), '['))
}

/// A row of three fields (`name;id;replacement`) in the seven-field form.
pub open spec fn widened(r: Seq<Seq<char>>) -> Seq<Seq<char>> {
    seq![
        r[0],
        "["@ + replace_char(r[0], '|', '=') + "]"@,
        if trim(r[2]).len() > 0 { "x"@ } else { Seq::empty() },
        "name"@,
        "int_name"@,
        r[1],
        if r[2] != "x"@ { r[2] } else { Seq::empty() },
    ]
}

// ------------------------------------------------------------------ exec helpers

pub fn lines_of(text: &str) -> (r: Vec<Vec<char>>)
    ensures
        r@.map_values(|p: Vec<char>| p@) == text_lines(text@),
{
    let cs = chars_of(text);
    let p = split_chars(&cs, '\n');
    let ghost pv = split_on(text@, '\n');
    proof {
        crate::lines::lemma_split_on_nonempty(text@, '\n');
    }
    assert(p@.len() == pv.len());
    let n = p.len();
    let keep = if p[n - 1].len() == 0 { n - 1 } else { n };
    let mut r: Vec<Vec<char>> = Vec::new();
    for i in 0..keep
        invariant
            keep <= n,
            n == p@.len(),
            n == pv.len(),
            pv == split_on(text@, '\n'),
            p@.map_values(|q: Vec<char>| q@) == pv,
            keep == if pv.last().len() == 0 { n - 1 } else { n as int },
            r@.len() == i,
            forall|k: int| 0 <= k < i ==> #[trigger] r@[k]@ == text_lines(text@)[k],
    {
        assert(p@[i as int]@ == pv[i as int]);
        let q = &p[i];
        let m = q.len();
        let mut line: Vec<char> = Vec::new();
        let upto = if i + 1 < n && m > 0 && q[m - 1] == '\r' { m - 1 } else { m };
        for k in 0..upto
            invariant
                upto <= m,
                m == q@.len(),
                line@ == q@.take(k as int),
        {
            line.push(q[k]);
            assert(line@ =~= q@.take(k as int + 1));
        }
        let ghost tl = text_lines(text@);
        assert(tl.len() == keep);
        assert(tl[i as int] == if i < n - 1 { strip_cr(pv[i as int]) } else { pv[i as int] });
        assert(line@ =~= tl[i as int]);
        r.push(line);
    }
    assert(r@.map_values(|q: Vec<char>| q@) =~= text_lines(text@));
    r
}

fn replace_chars(s: &Vec<char>, a: char, b: char) -> (r: Vec<char>)
    ensures
        r@ == replace_char(s@, a, b),
{
    let mut r: Vec<char> = Vec::new();
    for i in 0..s.len()
        invariant
            r@ == replace_char(s@.take(i as int), a, b),
    {
        let c = s[i];
        r.push(if c == a { b } else { c });
        assert(replace_char(s@.take(i as int + 1), a, b) =~= replace_char(s@.take(i as int), a, b).push(
            if c == a { b } else { c },
        ));
    }
    assert(s@.take(s@.len() as int) =~= s@);
    r
}

fn strip_end_chars(s: &Vec<char>, c: char) -> (r: Vec<char>)
    ensures
        r@ == strip_end(s@, c),
{
    let mut n = s.len();
    assert(s@.take(n as int) =~= s@);
    while n > 0 && s[n - 1] == c
        invariant
            n <= s@.len(),
            strip_end(s@.take(n as int), c) == strip_end(s@, c),
        decreases n,
    {
        assert(s@.take(n as int).drop_last() =~= s@.take(n as int - 1));
        n = n - 1;
    }
    let mut r: Vec<char> = Vec::new();
    for k in 0..n
        invariant
            n <= s@.len(),
            r@ == s@.take(k as int),
    {
        r.push(s[k]);
        assert(r@ =~= s@.take(k as int + 1));
    }
    r
}

fn is_text(v: &Vec<char>, t: &str) -> (r: bool)
    ensures
        r == (v@ == t@),
{
    let w = chars_of(t);
    if v.len() != w.len() {
        return false;
    }
    for i in 0..v.len()
        invariant
            v@.len() == w@.len(),
            w@ == t@,
            forall|k: int| 0 <= k < i ==> v@[k] == w@[k],
    {
        if v[i] != w[i] {
            return false;
        }
    }
    assert(v@ =~= w@);
    true
}

fn piece_tag_of(p: &Vec<char>) -> (r: Option<(String, String)>)
    ensures
        match r {
            Some(t) => piece_tag(p@) == Some((t.0@, t.1@)),
            None => piece_tag(p@) is None,
        },
{
    let q = strip_end_chars(p, ']');
    let parts = split_chars(&q, '=');
    proof {
        crate::lines::lemma_split_on_nonempty(q@, '=');
    }
    assert(parts@[0]@ == split_on(q@, '=')[0]);
    if parts.len() == 1 {
        let w = &parts[0];
        if w.len() == 0 {
            return None;
        }
        if w[0] == '!' {
            let mut rest: Vec<char> = Vec::new();
            for k in 1..w.len()
                invariant
                    rest@ == w@.subrange(1, k as int),
            {
                rest.push(w[k]);
                assert(rest@ =~= w@.subrange(1, k as int + 1));
            }
            assert(rest@ =~= w@.drop_first());
            let key = strip_end_chars(&rest, '?');
            return Some((text_of(&key), str_to_string("no")));
        }
        let key = strip_end_chars(w, '?');
        return Some((text_of(&key), str_to_string("yes")));
    }
    assert(parts@[1]@ == split_on(q@, '=')[1]);
    Some((text_of(&parts[0]), text_of(&parts[1])))
}

/// The views of some tag pairs.
pub open spec fn pairs_view(v: Seq<(String, String)>) -> Seq<(Seq<char>, Seq<char>)> {
    v.map_values(|p: (String, String)| (p.0@, p.1@))
}

fn selector_tags_of(e: &Vec<char>) -> (r: Vec<(String, String)>)
    ensures
        pairs_view(r@) == selector_tags(e@),
{
    let first = cut_at(e, ',');
    let ps = split_chars(&first, '[');
    let ghost pv = split_on(before_char(e@, ','), '[');
    let mut r: Vec<(String, String)> = Vec::new();
    assert(pv.take(0) =~= Seq::<Seq<char>>::empty());
    assert(pairs_view(r@) =~= piece_tags(pv.take(0)));
    for i in 0..ps.len()
        invariant
            ps@.map_values(|q: Vec<char>| q@) == pv,
            pairs_view(r@) == piece_tags(pv.take(i as int)),
    {
        assert(ps@[i as int]@ == pv[i as int]);
        assert(pv.take(i as int + 1).drop_last() =~= pv.take(i as int));
        match piece_tag_of(&ps[i]) {
            Some(t) => {
                r.push(t);
                assert(pairs_view(r@) =~= piece_tags(pv.take(i as int)).push((t.0@, t.1@)));
            },
            None => {},
        }
    }
    assert(pv.take(ps@.len() as int) =~= pv);
    r
}

// ------------------------------------------------------------------ rows

/// What the rows read so far give: the live classes with their tags, each
/// class with the name it was written as (later rows win), the lines of
/// `types.txt`, and the id the next row may take at least.
pub ghost struct MappingState {
    pub classes: Seq<(Seq<char>, Seq<(Seq<char>, Seq<char>)>)>,
    pub tree: Seq<(Seq<char>, Seq<char>)>,
    pub types: Seq<Seq<char>>,
    pub next: int,
}

/// The names of some classes, in order.
pub open spec fn class_names(cs: Seq<(Seq<char>, Seq<(Seq<char>, Seq<char>)>)>) -> Seq<Seq<char>> {
    cs.map_values(|e: (Seq<char>, Seq<(Seq<char>, Seq<char>)>)| e.0)
}

/// `n` placeholder lines for unused ids.
pub open spec fn padding(n: nat) -> Seq<Seq<char>> {
    Seq::new(n, |i: int| "mapswithme"@)
}

/// The fields of a row, the three-field form widened.
pub open spec fn row_fields(line: Seq<char>) -> Seq<Seq<char>> {
    let r = split_on(line, ';');
    if r.len() == 3 {
        widened(r)
    } else {
        r
    }
}

/// What one more row does: a row of at most one field or starting with `#`
/// is skipped; one that has neither three nor seven fields, an id that is
/// not an integer or is below the next one, and a live class named twice are
/// errors. Ids skipped over get placeholder lines.
pub open spec fn read_row(st: MappingState, line: Seq<char>) -> Result<MappingState, Seq<char>> {
    let r0 = split_on(line, ';');
    if r0.len() <= 1 || (r0[0].len() > 0 && r0[0][0] == '#') {
        Ok(st)
    } else {
        let r = row_fields(line);
        if r.len() != 7 {
            Err("Expecting 3 or 7 columns in mapcss-mapping: "@ + line)
        } else {
            match parse_i64(trim(r[5])) {
                None => Err("Wrong type id: "@ + line),
                Some(id) => if id < st.next {
                    Err("Wrong type id: "@ + line)
                } else {
                    let cl = replace_char(r[0], '|', '-');
                    let live = r[2] != "x"@;
                    if live && class_names(st.classes).contains(cl) {
                        Err("Duplicate type: "@ + r[0])
                    } else {
                        let types = st.types + padding((id - st.next) as nat);
                        if live {
                            Ok(MappingState {
                                classes: st.classes.push((cl, selector_tags(r[1]))),
                                tree: st.tree.push((cl, r[0])),
                                types: types.push("*"@ + r[0]),
                                next: id + 1,
                            })
                        } else {
                            Ok(MappingState {
                                classes: st.classes,
                                tree: st.tree.push((cl, r[0])),
                                types: types.push(if r[6].len() > 0 { r[6] } else { "mapswithme"@ }),
                                next: id + 1,
                            })
                        }
                    }
                },
            }
        }
    }
}

/// A row `name;id;replacement` read into the mapping: it writes one types
/// line, at its id (after placeholders for the ids it skips). When the
/// replacement is not blank the type is obsolete: no class is added, and
/// the line is the replacement itself (unless it is `x`). When it is blank
/// the type is live and the line is `*name`.
pub proof fn lemma_three_field_row(st: MappingState, line: Seq<char>)
    requires
        split_on(line, ';').len() == 3,
        !(split_on(line, ';')[0].len() > 0 && split_on(line, ';')[0][0] == '#'),
        read_row(st, line) is Ok,
    ensures
        ({
            let r = split_on(line, ';');
            let st2 = read_row(st, line)->Ok_0;
            &&& parse_i64(trim(r[1])) is Some
            &&& st2.next == parse_i64(trim(r[1]))->0 + 1
            &&& st2.types.len() == st.types.len() + (st2.next - st.next)
            &&& forall|k: int| st.types.len() <= k < st2.types.len() - 1 ==> #[trigger] st2.types[k] == "mapswithme"@
            &&& trim(r[2]).len() > 0 && r[2] != "x"@ ==> st2.types.last() == r[2] && st2.classes == st.classes
            &&& trim(r[2]).len() == 0 ==> st2.types.last() == "*"@ + r[0]
        }),
{
    reveal_strlit("x");
    let r = split_on(line, ';');
    let w = row_fields(line);
    assert(w == widened(r));
    if trim(r[2]).len() == 0 {
        assert(w[2] == Seq::<char>::empty());
        assert(w[2] != "x"@);
    } else {
        assert(w[2] == "x"@);
        if r[2] != "x"@ {
            assert(w[6] == r[2]);
            assert(r[2].len() > 0);
        }
    }
}

/// The state after the first `n` lines, or the first error.
pub open spec fn read_rows(lines: Seq<Seq<char>>, n: nat) -> Result<MappingState, Seq<char>>
    decreases n,
{
    if n == 0 {
        Ok(MappingState { classes: Seq::empty(), tree: Seq::empty(), types: Seq::empty(), next: 1 })
    } else {
        match read_rows(lines, (n - 1) as nat) {
            Ok(st) => read_row(st, lines[n - 1]),
            Err(e) => Err(e),
        }
    }
}

/// What a whole mapping text gives.
pub open spec fn mapping_of(text: Seq<char>) -> Result<MappingState, Seq<char>> {
    let lines = text_lines(text);
    read_rows(lines, lines.len())
}

/// The views of some classes with their tags.
pub open spec fn classes_view(v: Seq<(String, Vec<(String, String)>)>) -> Seq<(Seq<char>, Seq<(Seq<char>, Seq<char>)>)> {
    v.map_values(|e: (String, Vec<(String, String)>)| (e.0@, pairs_view(e.1@)))
}

pub open spec fn state_of(
    classes: Seq<(String, Vec<(String, String)>)>,
    tree: Seq<(String, String)>,
    types: Seq<String>,
    next: i128,
) -> MappingState {
    MappingState { classes: classes_view(classes), tree: pairs_view(tree), types: texts(types), next: next as int }
}

fn push_all(dst: &mut Vec<char>, src: &Vec<char>)
    ensures
        final(dst)@ == old(dst)@ + src@,
{
    for i in 0..src.len()
        invariant
            dst@ == old(dst)@ + src@.take(i as int),
    {
        dst.push(src[i]);
        assert(dst@ =~= old(dst)@ + src@.take(i as int + 1));
    }
    assert(src@.take(src@.len() as int) =~= src@);
}

fn note(head: &str, tail: &Vec<char>) -> (r: String)
    ensures
        r@ == head@ + tail@,
{
    let mut r = str_to_string(head);
    let t = text_of(tail);
    push_str(&mut r, t.as_str());
    r
}

fn widen_fields(r0: &Vec<Vec<char>>) -> (r: Vec<Vec<char>>)
    requires
        r0@.len() == 3,
    ensures
        r@.map_values(|p: Vec<char>| p@) == widened(r0@.map_values(|p: Vec<char>| p@)),
{
    let ghost rv = r0@.map_values(|p: Vec<char>| p@);
    let mut f0: Vec<char> = Vec::new();
    push_all(&mut f0, &r0[0]);
    let mut f1: Vec<char> = Vec::new();
    f1.push('[');
    let inner = replace_chars(&r0[0], '|', '=');
    push_all(&mut f1, &inner);
    f1.push(']');
    proof {
        reveal_strlit("[");
        reveal_strlit("]");
    }
    assert(f1@ =~= "["@ + replace_char(rv[0], '|', '=') + "]"@);
    let t2 = trim_chars(&r0[2]);
    let f2 = if t2.len() > 0 { chars_of("x") } else { Vec::new() };
    let f3 = chars_of("name");
    let f4 = chars_of("int_name");
    let mut f5: Vec<char> = Vec::new();
    push_all(&mut f5, &r0[1]);
    let x = is_text(&r0[2], "x");
    let mut f6: Vec<char> = Vec::new();
    if !x {
        push_all(&mut f6, &r0[2]);
    }
    let mut r: Vec<Vec<char>> = Vec::new();
    r.push(f0);
    r.push(f1);
    r.push(f2);
    r.push(f3);
    r.push(f4);
    r.push(f5);
    r.push(f6);
    assert(r@.map_values(|p: Vec<char>| p@) =~= widened(rv));
    r
}

fn has_class(classes: &Vec<(String, Vec<(String, String)>)>, cl: &String) -> (r: bool)
    ensures
        r == class_names(classes_view(classes@)).contains(cl@),
{
    let ghost names = class_names(classes_view(classes@));
    for i in 0..classes.len()
        invariant
            names == class_names(classes_view(classes@)),
            forall|k: int| 0 <= k < i ==> names[k] != cl@,
    {
        assert(names[i as int] == classes@[i as int].0@);
        if str_eq(classes[i].0.as_str(), cl.as_str()) {
            assert(names[i as int] == cl@);
            return true;
        }
    }
    false
}

fn read_row_into(
    classes: &mut Vec<(String, Vec<(String, String)>)>,
    tree: &mut Vec<(String, String)>,
    types: &mut Vec<String>,
    next: &mut i128,
    line: &Vec<char>,
) -> (r: Result<(), String>)
    requires
        1 <= *old(next) <= i64::MAX as int + 1,
        class_names(classes_view(old(classes)@)).no_duplicates(),
    ensures
        match r {
            Ok(()) => {
                &&& read_row(state_of(old(classes)@, old(tree)@, old(types)@, *old(next)), line@)
                    == Ok::<MappingState, Seq<char>>(state_of(final(classes)@, final(tree)@, final(types)@, *final(next)))
                &&& 1 <= *final(next) <= i64::MAX as int + 1
                &&& class_names(classes_view(final(classes)@)).no_duplicates()
            },
            Err(e) => read_row(state_of(old(classes)@, old(tree)@, old(types)@, *old(next)), line@) == Err::<MappingState, Seq<char>>(e@),
        },
{
    let ghost st0 = state_of(classes@, tree@, types@, *next);
    let r0 = split_chars(line, ';');
    let ghost rv0 = split_on(line@, ';');
    proof {
        crate::lines::lemma_split_on_nonempty(line@, ';');
    }
    assert(r0@[0]@ == rv0[0]);
    if r0.len() <= 1 || (r0[0].len() > 0 && r0[0][0] == '#') {
        return Ok(());
    }
    let r = if r0.len() == 3 { widen_fields(&r0) } else { r0 };
    let ghost rv = row_fields(line@);
    assert(r@.map_values(|p: Vec<char>| p@) == rv);
    if r.len() != 7 {
        return Err(note("Expecting 3 or 7 columns in mapcss-mapping: ", line));
    }
    assert(r@[0]@ == rv[0] && r@[1]@ == rv[1] && r@[2]@ == rv[2] && r@[5]@ == rv[5] && r@[6]@ == rv[6]);
    let idt = trim_chars(&r[5]);
    let id = match read_i64(&idt) {
        None => {
            return Err(note("Wrong type id: ", line));
        },
        Some(id) => id,
    };
    if (id as i128) < *next {
        return Err(note("Wrong type id: ", line));
    }
    let cl = replace_chars(&r[0], '|', '-');
    let cls = text_of(&cl);
    let live = !is_text(&r[2], "x");
    if live && has_class(classes, &cls) {
        return Err(note("Duplicate type: ", &r[0]));
    }
    let ghost n0 = *next as int;
    let ghost types0 = texts(types@);
    let target = id as i128;
    while *next < target
        invariant
            n0 <= *next <= target,
            texts(types@) == types0 + padding((*next - n0) as nat),
        decreases target - *next,
    {
        let ph = str_to_string("mapswithme");
        let ghost k = (*next - n0) as nat;
        let ghost before = texts(types@);
        types.push(ph);
        *next = *next + 1;
        assert(texts(types@) =~= before.push("mapswithme"@));
        assert(padding(k + 1) =~= padding(k).push("mapswithme"@));
        assert(texts(types@) =~= types0 + padding((*next - n0) as nat));
    }
    *next = target + 1;
    let ghost padded = texts(types@);
    let ghost classes0 = classes_view(classes@);
    let ghost tree0 = pairs_view(tree@);
    assert(padded == st0.types + padding((id - st0.next) as nat));
    let name = text_of(&r[0]);
    if live {
        let tags = selector_tags_of(&r[1]);
        let cls2 = text_of(&cl);
        let ghost names0 = class_names(classes_view(classes@));
        classes.push((cls2, tags));
        assert(class_names(classes_view(classes@)) =~= names0.push(cl@));
        let mut star = str_to_string("*");
        push_str(&mut star, name.as_str());
        types.push(star);
    } else {
        let line6 = if r[6].len() > 0 { text_of(&r[6]) } else { str_to_string("mapswithme") };
        types.push(line6);
    }
    tree.push((cls, name));
    assert(pairs_view(tree@) =~= tree0.push((cl@, rv[0])));
    proof {
        if live {
            assert(classes_view(classes@) =~= classes0.push((cl@, selector_tags(rv[1]))));
            assert(texts(types@) =~= padded.push("*"@ + rv[0]));
        } else {
            assert(classes_view(classes@) =~= classes0);
            assert(texts(types@) =~= padded.push(if rv[6].len() > 0 { rv[6] } else { "mapswithme"@ }));
        }
    }
    assert(state_of(classes@, tree@, types@, *next) == read_row(st0, line@)->Ok_0);
    Ok(())
}

// ------------------------------------------------------------------ the whole text

proof fn lemma_rows_error(lines: Seq<Seq<char>>, m: nat, n: nat)
    requires
        m <= n,
        read_rows(lines, m) is Err,
    ensures
        read_rows(lines, n) == read_rows(lines, m),
    decreases n,
{
    if n > m {
        lemma_rows_error(lines, m, (n - 1) as nat);
    }
}

/// A mapping text, read.
pub struct Mapping {
    /// The live classes in row order, each with the tags its first selector
    /// requires.
    pub classes: Vec<(String, Vec<(String, String)>)>,
    /// The names of the live classes in ascending order.
    pub order: Vec<String>,
    /// Each class with the name it was written as, in row order; of two
    /// entries for one class the later counts.
    pub tree: Vec<(String, String)>,
    /// The lines of `types.txt`, one per id from 1 on.
    pub types: Vec<String>,
}

/// Reads the text of a type mapping, or says what is wrong with its first
/// bad row.
pub fn read_mapping(text: &str) -> (r: Result<Mapping, String>)
    ensures
        match mapping_of(text@) {
            Ok(st) => {
                &&& r is Ok
                &&& classes_view(r->Ok_0.classes@) == st.classes
                &&& pairs_view(r->Ok_0.tree@) == st.tree
                &&& texts(r->Ok_0.types@) == st.types
                &&& strictly_sorted(texts(r->Ok_0.order@))
                &&& texts(r->Ok_0.order@).to_set() == class_names(st.classes).to_set()
                &&& class_names(st.classes).no_duplicates()
            },
            Err(e) => r is Err && r->Err_0@ == e,
        },
{
    let lines = lines_of(text);
    let ghost lv = text_lines(text@);
    let mut classes: Vec<(String, Vec<(String, String)>)> = Vec::new();
    let mut tree: Vec<(String, String)> = Vec::new();
    let mut types: Vec<String> = Vec::new();
    let mut next: i128 = 1;
    assert(classes_view(classes@) =~= Seq::empty());
    assert(pairs_view(tree@) =~= Seq::empty());
    assert(texts(types@) =~= Seq::empty());
    for i in 0..lines.len()
        invariant
            lines@.map_values(|p: Vec<char>| p@) == lv,
            lv == text_lines(text@),
            read_rows(lv, i as nat) == Ok::<MappingState, Seq<char>>(state_of(classes@, tree@, types@, next)),
            1 <= next <= i64::MAX as int + 1,
            class_names(classes_view(classes@)).no_duplicates(),
    {
        assert(lines@[i as int]@ == lv[i as int]);
        match read_row_into(&mut classes, &mut tree, &mut types, &mut next, &lines[i]) {
            Ok(()) => {},
            Err(e) => {
                proof {
                    lemma_rows_error(lv, (i + 1) as nat, lv.len());
                }
                return Err(e);
            },
        }
    }
    assert(lines@.len() == lv.len());
    let ghost names = class_names(classes_view(classes@));
    let mut listed: Vec<String> = Vec::new();
    for i in 0..classes.len()
        invariant
            names == class_names(classes_view(classes@)),
            listed@.len() == i,
            forall|k: int| 0 <= k < i ==> #[trigger] listed@[k]@ == names[k],
    {
        listed.push(classes[i].0.clone());
    }
    assert(texts(listed@) =~= names);
    let order = sort_texts(&listed);
    Ok(Mapping { classes, order, tree, types })
}

} // verus!
