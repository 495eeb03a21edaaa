//! MapCSS declarations: the `key: value; key: value` text inside a rule's
//! braces, read into a key/value table.
//!
//! The text is split at every `;`. A piece is an assignment when, after
//! leading white space, a run of non-space characters ends in a key that is
//! followed (after optional white space) by `:` and at least one more
//! character; the longest such key is taken. The value is what follows the
//! colon with surrounding white space and surrounding `"` removed. A later
//! assignment of a key replaces the earlier value.

use vstd::prelude::*;
use crate::condition::{is_ws, skip_ws, last_nonws, lemma_skip_ws, lemma_last_nonws, scan_ws, scan_last_nonws, ws};
use crate::text::{chars_of, text_range};

verus! {

/// The pieces of `s` between `;` characters.
pub open spec fn split_semis(s: Seq<char>) -> Seq<Seq<char>>
    decreases s.len(),
{
    if s.len() == 0 {
        seq![Seq::empty()]
    } else {
        let p = split_semis(s.drop_last());
        if s.last() == ';' {
            p.push(Seq::empty())
        } else {
            p.update(p.len() - 1, p.last().push(s.last()))
        }
    }
}

pub proof fn lemma_split_nonempty(s: Seq<char>)
    ensures
        split_semis(s).len() >= 1,
    decreases s.len(),
{
    if s.len() > 0 {
        lemma_split_nonempty(s.drop_last());
    }
}

/// The end of the run of non-space characters from `i`.
pub open spec fn skip_nonws(s: Seq<char>, i: int) -> int
    decreases s.len() - i,
{
    if 0 <= i < s.len() && !is_ws(s[i]) {
        skip_nonws(s, i + 1)
    } else {
        i
    }
}

/// The position of the `:` after a key ending at `b` within a non-space run
/// ending at `e` (`-1` if there is none).
pub open spec fn colon_after(s: Seq<char>, b: int, e: int) -> int {
    if b < e {
        if s[b] == ':' {
            b
        } else {
            -1
        }
    } else {
        let p = skip_ws(s, b);
        if p < s.len() && s[p] == ':' {
            p
        } else {
            -1
        }
    }
}

/// A key may end at `b`: a colon follows, and something after the colon.
pub open spec fn key_end_ok(s: Seq<char>, b: int, e: int) -> bool {
    let p = colon_after(s, b, e);
    p >= 0 && p + 1 < s.len()
}

/// The largest key end in `(a, b]` (`-1` if none).
pub open spec fn best_key_end(s: Seq<char>, a: int, e: int, b: int) -> int
    decreases b - a,
{
    if b <= a {
        -1
    } else if key_end_ok(s, b, e) {
        b
    } else {
        best_key_end(s, a, e, b - 1)
    }
}

/// `v` without its leading and trailing `"` characters.
pub open spec fn strip_quotes(v: Seq<char>) -> Seq<char>
    decreases v.len(),
{
    if v.len() > 0 && v[0] == '"' {
        strip_quotes(v.drop_first())
    } else if v.len() > 0 && v.last() == '"' {
        strip_quotes(v.drop_last())
    } else {
        v
    }
}

/// The key and value of an assignment piece.
pub open spec fn assignment(s: Seq<char>) -> Option<(Seq<char>, Seq<char>)> {
    let a = skip_ws(s, 0);
    let e = skip_nonws(s, a);
    let b = best_key_end(s, a, e, e);
    if b < 0 {
        None
    } else {
        let p = colon_after(s, b, e);
        let j = skip_ws(s, p + 1);
        let v = if j < s.len() {
            s.subrange(j, last_nonws(s, s.len() as int) + 1)
        } else {
            Seq::empty()
        };
        Some((s.subrange(a, b), strip_quotes(v)))
    }
}

/// Sets `k` to `v` in a key/value list: in place when `k` is there, else at
/// the end.
pub open spec fn assoc_set(t: Seq<(Seq<char>, Seq<char>)>, k: Seq<char>, v: Seq<char>) -> Seq<(Seq<char>, Seq<char>)> {
    if exists|i: int| 0 <= i < t.len() && t[i].0 == k {
        let i = choose|i: int| 0 <= i < t.len() && t[i].0 == k;
        t.update(i, (k, v))
    } else {
        t.push((k, v))
    }
}

/// The table of the first `n` pieces.
pub open spec fn decl_table(pieces: Seq<Seq<char>>, n: nat) -> Seq<(Seq<char>, Seq<char>)>
    decreases n,
{
    if n == 0 {
        Seq::empty()
    } else {
        let t = decl_table(pieces, (n - 1) as nat);
        match assignment(pieces[n - 1]) {
            Some((k, v)) => assoc_set(t, k, v),
            None => t,
        }
    }
}

/// No key occurs twice.
pub open spec fn distinct_keys(t: Seq<(Seq<char>, Seq<char>)>) -> bool {
    forall|i: int, j: int| 0 <= i < j < t.len() ==> t[i].0 != t[j].0
}

/// The views of a key/value list.
pub open spec fn pair_views(t: Seq<(String, String)>) -> Seq<(Seq<char>, Seq<char>)> {
    t.map_values(|p: (String, String)| (p.0@, p.1@))
}


/// The views of pieces.
pub open spec fn piece_views(v: Seq<Vec<char>>) -> Seq<Seq<char>> {
    v.map_values(|p: Vec<char>| p@)
}

fn split_pieces(s: &Vec<char>) -> (r: Vec<Vec<char>>)
    ensures
        piece_views(r@) == split_semis(s@),
{
    let mut r: Vec<Vec<char>> = Vec::new();
    r.push(Vec::new());
    assert(piece_views(r@) =~= split_semis(s@.take(0)));
    for i in 0..s.len()
        invariant
            piece_views(r@) == split_semis(s@.take(i as int)),
            r@.len() >= 1,
    {
        proof {
            lemma_split_nonempty(s@.take(i as int));
        }
        assert(s@.take(i as int + 1).drop_last() =~= s@.take(i as int));
        let c = s[i];
        if c == ';' {
            r.push(Vec::new());
            assert(piece_views(r@) =~= split_semis(s@.take(i as int)).push(Seq::empty()));
        } else {
            let mut last = r.pop().unwrap();
            let ghost before = last@;
            last.push(c);
            r.push(last);
            assert(piece_views(r@) =~= split_semis(s@.take(i as int)).update(
                split_semis(s@.take(i as int)).len() - 1,
                split_semis(s@.take(i as int)).last().push(c),
            ));
        }
    }
    assert(s@.take(s@.len() as int) =~= s@);
    r
}

fn scan_nonws(s: &Vec<char>, i: usize) -> (r: usize)
    requires
        i <= s@.len(),
    ensures
        r == skip_nonws(s@, i as int),
        i <= r <= s@.len(),
{
    let mut j = i;
    while j < s.len() && !ws(s[j])
        invariant
            i <= j <= s@.len(),
            skip_nonws(s@, i as int) == skip_nonws(s@, j as int),
        decreases s@.len() - j,
    {
        j = j + 1;
    }
    j
}

fn find_colon(s: &Vec<char>, b: usize, e: usize) -> (r: Option<usize>)
    requires
        b <= e <= s@.len(),
    ensures
        match r {
            Some(p) => p as int == colon_after(s@, b as int, e as int) && p < s@.len(),
            None => colon_after(s@, b as int, e as int) == -1,
        },
{
    if b < e {
        if s[b] == ':' {
            Some(b)
        } else {
            None
        }
    } else {
        let p = scan_ws(s, b);
        if p < s.len() && s[p] == ':' {
            Some(p)
        } else {
            None
        }
    }
}

fn strip_quotes_of(v: &Vec<char>, lo: usize, hi: usize) -> (r: String)
    requires
        lo <= hi <= v@.len(),
    ensures
        r@ == strip_quotes(v@.subrange(lo as int, hi as int)),
{
    let mut a = lo;
    while a < hi && v[a] == '"'
        invariant
            lo <= a <= hi <= v@.len(),
            strip_quotes(v@.subrange(lo as int, hi as int)) == strip_quotes(v@.subrange(a as int, hi as int)),
        decreases hi - a,
    {
        assert(v@.subrange(a as int, hi as int).drop_first() =~= v@.subrange(a + 1, hi as int));
        a = a + 1;
    }
    let mut b = hi;
    while b > a && v[b - 1] == '"'
        invariant
            lo <= a <= b <= hi <= v@.len(),
            a < b ==> v@[a as int] != '"',
            strip_quotes(v@.subrange(lo as int, hi as int)) == strip_quotes(v@.subrange(a as int, b as int)),
        decreases b - a,
    {
        assert(v@.subrange(a as int, b as int).drop_last() =~= v@.subrange(a as int, b - 1));
        b = b - 1;
    }
    let mut r = String::new();
    for k in a..b
        invariant
            b <= v@.len(),
            r@ == v@.subrange(a as int, k as int),
    {
        r.push(v[k]);
        assert(r@ =~= v@.subrange(a as int, k + 1));
    }
    r
}

/// The largest key end and its colon.
fn find_key_end(s: &Vec<char>, a: usize, e: usize) -> (r: Option<(usize, usize)>)
    requires
        a <= e <= s@.len(),
    ensures
        match r {
            Some((b, p)) => b as int == best_key_end(s@, a as int, e as int, e as int) && p as int == colon_after(
                s@,
                b as int,
                e as int,
            ) && a < b <= e && p + 1 < s@.len(),
            None => best_key_end(s@, a as int, e as int, e as int) == -1,
        },
{
    let mut b = e;
    while b > a
        invariant
            a <= b <= e <= s@.len(),
            best_key_end(s@, a as int, e as int, e as int) == best_key_end(s@, a as int, e as int, b as int),
        decreases b,
    {
        match find_colon(s, b, e) {
            Some(p) => {
                if p < s.len() - 1 {
                    return Some((b, p));
                }
            },
            None => {},
        }
        b = b - 1;
    }
    None
}

/// The key and value of an assignment piece, if it is one.
fn parse_assignment(s: &Vec<char>) -> (r: Option<(String, String)>)
    ensures
        match assignment(s@) {
            Some((k, v)) => match r {
                Some((rk, rv)) => rk@ == k && rv@ == v,
                None => false,
            },
            None => r is None,
        },
{
    let a = scan_ws(s, 0);
    let e = scan_nonws(s, a);
    let (b, p) = match find_key_end(s, a, e) {
        Some(x) => x,
        None => return None,
    };
    let key = text_range(s, a, b);
    let n = s.len();
    assert(p + 1 < n);
    let j = scan_ws(s, p + 1);
    let value = if j < s.len() {
        proof {
            lemma_skip_ws(s@, p + 1);
            lemma_last_nonws(s@, s@.len() as int, j as int);
        }
        let q = match scan_last_nonws(s) {
            Some(q) => q,
            None => return None,
        };
        strip_quotes_of(s, j, q + 1)
    } else {
        let empty: Vec<char> = Vec::new();
        let v = strip_quotes_of(&empty, 0, 0);
        assert(empty@.subrange(0, 0) =~= Seq::<char>::empty());
        v
    };
    Some((key, value))
}

/// Sets `k` to `v` in a list without repeated keys.
fn set_pair(t: &mut Vec<(String, String)>, k: String, v: String)
    requires
        distinct_keys(pair_views(old(t)@)),
    ensures
        distinct_keys(pair_views(final(t)@)),
        pair_views(final(t)@) == assoc_set(pair_views(old(t)@), k@, v@),
{
    let ghost tv = pair_views(t@);
    let ghost kv = k@;
    let ghost vv = v@;
    let mut i: usize = 0;
    while i < t.len()
        invariant
            t@ == old(t)@,
            tv == pair_views(t@),
            kv == k@,
            vv == v@,
            distinct_keys(tv),
            i <= t@.len(),
            forall|j: int| 0 <= j < i ==> tv[j].0 != kv,
        decreases t@.len() - i,
    {
        assert(tv[i as int] == (t@[i as int].0@, t@[i as int].1@));
        let same = crate::condition::str_eq(t[i].0.as_str(), k.as_str());
        assert(same == (t@[i as int].0@ == k@));
        if same {
            assert(t@[i as int].0@ == k@);
            assert(tv[i as int].0 == kv);
            let ghost c = choose|c: int| 0 <= c < tv.len() && tv[c].0 == kv;
            assert(c == i) by {
                if c < i {
                    assert(tv[c].0 != kv);
                } else if c > i {
                    assert(tv[i as int].0 != tv[c].0);
                }
            }
            t.set(i, (k, v));
            assert(pair_views(t@) =~= tv.update(i as int, (kv, vv)));
            return;
        }
        i = i + 1;
    }
    assert(!(exists|j: int| 0 <= j < tv.len() && tv[j].0 == kv));
    t.push((k, v));
    assert(pair_views(t@) =~= tv.push((kv, vv)));
}

/// The key/value list of the first `n` of a list of optional assignments.
pub open spec fn assoc_table(asg: Seq<Option<(Seq<char>, Seq<char>)>>, n: nat) -> Seq<(Seq<char>, Seq<char>)>
    decreases n,
{
    if n == 0 {
        Seq::empty()
    } else {
        let t = assoc_table(asg, (n - 1) as nat);
        match asg[n - 1] {
            Some((k, v)) => assoc_set(t, k, v),
            None => t,
        }
    }
}

proof fn lemma_decl_assoc(pieces: Seq<Seq<char>>, n: nat)
    requires
        n <= pieces.len(),
    ensures
        decl_table(pieces, n) == assoc_table(pieces.map_values(|p: Seq<char>| assignment(p)), n),
    decreases n,
{
    if n > 0 {
        lemma_decl_assoc(pieces, (n - 1) as nat);
        assert(pieces.map_values(|p: Seq<char>| assignment(p))[n - 1] == assignment(pieces[n - 1]));
    }
}

proof fn lemma_assoc_table(asg: Seq<Option<(Seq<char>, Seq<char>)>>, n: nat)
    requires
        n <= asg.len(),
    ensures
        distinct_keys(assoc_table(asg, n)),
        forall|j: int| 0 <= j < n && #[trigger] asg[j] is Some ==> exists|i: int|
            0 <= i < assoc_table(asg, n).len() && #[trigger] assoc_table(asg, n)[i].0 == (asg[j]->0).0,
        forall|i: int| 0 <= i < assoc_table(asg, n).len() ==> exists|j: int|
            #![trigger asg[j]]
            0 <= j < n && asg[j] == Some(#[trigger] assoc_table(asg, n)[i]) && forall|m: int|
                j < m < n && asg[m] is Some ==> (#[trigger] asg[m]->0).0 != assoc_table(asg, n)[i].0,
    decreases n,
{
    if n > 0 {
        let m1 = (n - 1) as nat;
        lemma_assoc_table(asg, m1);
        let t = assoc_table(asg, m1);
        let t2 = assoc_table(asg, n);
        let last = n - 1;
        match asg[last] {
            None => {
                assert(t2 == t);
                assert forall|i: int| 0 <= i < t2.len() implies exists|j: int|
                    #![trigger asg[j]]
                    0 <= j < n && asg[j] == Some(#[trigger] t2[i]) && forall|m: int|
                        j < m < n && asg[m] is Some ==> (#[trigger] asg[m]->0).0 != t2[i].0 by {
                    let j = choose|j: int|
                        #![trigger asg[j]]
                        0 <= j < m1 && asg[j] == Some(t[i]) && forall|m: int|
                            j < m < m1 && asg[m] is Some ==> (#[trigger] asg[m]->0).0 != t[i].0;
                    assert(0 <= j < n && asg[j] == Some(t2[i]));
                }
            },
            Some((k, v)) => {
                if exists|c: int| 0 <= c < t.len() && t[c].0 == k {
                    let c = choose|c: int| 0 <= c < t.len() && t[c].0 == k;
                    assert(t2 == t.update(c, (k, v)));
                    assert forall|i: int| 0 <= i < t2.len() implies exists|j: int|
                        #![trigger asg[j]]
                        0 <= j < n && asg[j] == Some(#[trigger] t2[i]) && forall|m: int|
                            j < m < n && asg[m] is Some ==> (#[trigger] asg[m]->0).0 != t2[i].0 by {
                        if i == c {
                            assert(asg[last] == Some(t2[i]));
                        } else {
                            let j = choose|j: int|
                                #![trigger asg[j]]
                                0 <= j < m1 && asg[j] == Some(t[i]) && forall|m: int|
                                    j < m < m1 && asg[m] is Some ==> (#[trigger] asg[m]->0).0 != t[i].0;
                            assert(t[i].0 != t[c].0);
                            assert(0 <= j < n && asg[j] == Some(t2[i]));
                            assert forall|m: int| j < m < n && asg[m] is Some implies (#[trigger] asg[m]->0).0 != t2[i].0 by {
                                if m == last {
                                } else {
                                }
                            }
                        }
                    }
                    assert forall|j: int| 0 <= j < n && #[trigger] asg[j] is Some implies exists|i: int|
                        0 <= i < t2.len() && #[trigger] t2[i].0 == (asg[j]->0).0 by {
                        if j == last {
                            assert(t2[c].0 == k);
                        } else {
                            let i = choose|i: int| 0 <= i < t.len() && #[trigger] t[i].0 == (asg[j]->0).0;
                            assert(t2[i].0 == t[i].0);
                        }
                    }
                } else {
                    assert(t2 == t.push((k, v)));
                    assert forall|i: int| 0 <= i < t2.len() implies exists|j: int|
                        #![trigger asg[j]]
                        0 <= j < n && asg[j] == Some(#[trigger] t2[i]) && forall|m: int|
                            j < m < n && asg[m] is Some ==> (#[trigger] asg[m]->0).0 != t2[i].0 by {
                        if i == t.len() {
                            assert(asg[last] == Some(t2[i]));
                        } else {
                            let j = choose|j: int|
                                #![trigger asg[j]]
                                0 <= j < m1 && asg[j] == Some(t[i]) && forall|m: int|
                                    j < m < m1 && asg[m] is Some ==> (#[trigger] asg[m]->0).0 != t[i].0;
                            assert(t[i].0 != k);
                            assert(0 <= j < n && asg[j] == Some(t2[i]));
                        }
                    }
                    assert forall|j: int| 0 <= j < n && #[trigger] asg[j] is Some implies exists|i: int|
                        0 <= i < t2.len() && #[trigger] t2[i].0 == (asg[j]->0).0 by {
                        if j == last {
                            assert(t2[t.len() as int].0 == k);
                        } else {
                            let i = choose|i: int| 0 <= i < t.len() && #[trigger] t[i].0 == (asg[j]->0).0;
                            assert(t2[i].0 == t[i].0);
                        }
                    }
                }
            },
        }
    }
}

/// The table of the first `n` pieces holds each key once, and exactly the
/// keys of the pieces that are assignments, each with the value of the last
/// such piece.
pub proof fn lemma_decl_table_from_pieces(pieces: Seq<Seq<char>>, n: nat)
    requires
        n <= pieces.len(),
    ensures
        distinct_keys(decl_table(pieces, n)),
        forall|j: int| 0 <= j < n && #[trigger] assignment(pieces[j]) is Some ==> exists|i: int|
            0 <= i < decl_table(pieces, n).len() && #[trigger] decl_table(pieces, n)[i].0 == (assignment(pieces[j])->0).0,
        forall|i: int| 0 <= i < decl_table(pieces, n).len() ==> exists|j: int|
            #![trigger assignment(pieces[j])]
            0 <= j < n && assignment(pieces[j]) == Some(#[trigger] decl_table(pieces, n)[i]) && forall|m: int|
                j < m < n && assignment(pieces[m]) is Some ==> (#[trigger] assignment(pieces[m])->0).0 != decl_table(pieces, n)[i].0,
{
    let asg = pieces.map_values(|p: Seq<char>| assignment(p));
    lemma_decl_assoc(pieces, n);
    lemma_assoc_table(asg, n);
    let t = decl_table(pieces, n);
    assert forall|j: int| 0 <= j < n && #[trigger] assignment(pieces[j]) is Some implies exists|i: int|
        0 <= i < t.len() && #[trigger] t[i].0 == (assignment(pieces[j])->0).0 by {
        assert(asg[j] == assignment(pieces[j]));
    }
    assert forall|i: int| 0 <= i < t.len() implies exists|j: int|
        #![trigger assignment(pieces[j])]
        0 <= j < n && assignment(pieces[j]) == Some(#[trigger] t[i]) && forall|m: int|
            j < m < n && assignment(pieces[m]) is Some ==> (#[trigger] assignment(pieces[m])->0).0 != t[i].0 by {
        let j = choose|j: int|
            #![trigger asg[j]]
            0 <= j < n && asg[j] == Some(t[i]) && forall|m: int|
                j < m < n && asg[m] is Some ==> (#[trigger] asg[m]->0).0 != t[i].0;
        assert(asg[j] == assignment(pieces[j]));
        assert forall|m: int| j < m < n && assignment(pieces[m]) is Some implies (#[trigger] assignment(pieces[m])->0).0 != t[i].0 by {
            assert(asg[m] == assignment(pieces[m]));
        }
    }
}

/// A text without `;`.
pub open spec fn no_semicolon(v: Seq<char>) -> bool {
    forall|k: int| 0 <= k < v.len() ==> v[k] != ';'
}

proof fn lemma_split_no_semicolon(s: Seq<char>)
    ensures
        forall|i: int| 0 <= i < split_semis(s).len() ==> no_semicolon(#[trigger] split_semis(s)[i]),
    decreases s.len(),
{
    if s.len() > 0 {
        lemma_split_no_semicolon(s.drop_last());
        lemma_split_nonempty(s.drop_last());
        let p = split_semis(s.drop_last());
        if s.last() != ';' {
            assert forall|i: int| 0 <= i < split_semis(s).len() implies no_semicolon(#[trigger] split_semis(s)[i]) by {
                if i == p.len() - 1 {
                    assert(no_semicolon(p[i]));
                    assert(split_semis(s)[i] == p[i].push(s.last()));
                }
            }
        } else {
            assert forall|i: int| 0 <= i < split_semis(s).len() implies no_semicolon(#[trigger] split_semis(s)[i]) by {
                if i < p.len() {
                    assert(no_semicolon(p[i]));
                }
            }
        }
    }
}

proof fn lemma_strip_no_semicolon(v: Seq<char>)
    requires
        no_semicolon(v),
    ensures
        no_semicolon(strip_quotes(v)),
    decreases v.len(),
{
    if v.len() > 0 && v[0] == '"' {
        assert(no_semicolon(v.drop_first()));
        lemma_strip_no_semicolon(v.drop_first());
    } else if v.len() > 0 && v.last() == '"' {
        assert(no_semicolon(v.drop_last()));
        lemma_strip_no_semicolon(v.drop_last());
    }
}

proof fn lemma_best_key_end(s: Seq<char>, a: int, e: int, b: int)
    ensures
        best_key_end(s, a, e, b) == -1 || (a < best_key_end(s, a, e, b) <= b && key_end_ok(s, best_key_end(s, a, e, b), e)),
    decreases b - a,
{
    if b > a && !key_end_ok(s, b, e) {
        lemma_best_key_end(s, a, e, b - 1);
    }
}

proof fn lemma_skip_nonws_bound(s: Seq<char>, i: int)
    requires
        0 <= i <= s.len(),
    ensures
        i <= skip_nonws(s, i) <= s.len(),
    decreases s.len() - i,
{
    if i < s.len() && !is_ws(s[i]) {
        lemma_skip_nonws_bound(s, i + 1);
    }
}

proof fn lemma_last_nonws_bound(s: Seq<char>, n: int)
    requires
        0 <= n,
    ensures
        last_nonws(s, n) < n,
    decreases n,
{
    if n > 0 && is_ws(s[n - 1]) {
        lemma_last_nonws_bound(s, n - 1);
    }
}

/// The key and value of an assignment are drawn from its piece.
proof fn lemma_assignment_no_semicolon(p: Seq<char>)
    requires
        no_semicolon(p),
        assignment(p) is Some,
    ensures
        no_semicolon((assignment(p)->0).0),
        no_semicolon((assignment(p)->0).1),
{
    lemma_skip_ws(p, 0);
    let a = skip_ws(p, 0);
    lemma_skip_nonws_bound(p, a);
    let e = skip_nonws(p, a);
    lemma_best_key_end(p, a, e, e);
    let b = best_key_end(p, a, e, e);
    let k = p.subrange(a, b);
    assert forall|i: int| 0 <= i < k.len() implies k[i] != ';' by {
        assert(k[i] == p[a + i]);
    }
    let q = colon_after(p, b, e);
    lemma_skip_ws(p, q + 1);
    let j = skip_ws(p, q + 1);
    if j < p.len() {
        lemma_last_nonws(p, p.len() as int, j);
        lemma_last_nonws_bound(p, p.len() as int);
        let l = last_nonws(p, p.len() as int);
        let v = p.subrange(j, l + 1);
        assert forall|i: int| 0 <= i < v.len() implies v[i] != ';' by {
            assert(v[i] == p[j + i]);
        }
        lemma_strip_no_semicolon(v);
    } else {
        lemma_strip_no_semicolon(Seq::<char>::empty());
    }
}

/// No key or value read from a declaration holds a `;`.
pub proof fn lemma_decl_no_semicolon(s: Seq<char>)
    ensures
        forall|i: int| 0 <= i < decl_table(split_semis(s), split_semis(s).len()).len() ==> no_semicolon(
            (#[trigger] decl_table(split_semis(s), split_semis(s).len())[i]).0,
        ) && no_semicolon(decl_table(split_semis(s), split_semis(s).len())[i].1),
{
    let pieces = split_semis(s);
    let t = decl_table(pieces, pieces.len());
    lemma_decl_table_from_pieces(pieces, pieces.len());
    lemma_split_no_semicolon(s);
    assert forall|i: int| 0 <= i < t.len() implies no_semicolon((#[trigger] t[i]).0) && no_semicolon(t[i].1) by {
        let j = choose|j: int|
            #![trigger assignment(pieces[j])]
            0 <= j < pieces.len() && assignment(pieces[j]) == Some(t[i]) && forall|m: int|
                j < m < pieces.len() && assignment(pieces[m]) is Some ==> (#[trigger] assignment(pieces[m])->0).0 != t[i].0;
        lemma_assignment_no_semicolon(pieces[j]);
    }
}

/// Reads the declarations of a rule: one table of keys and values.
pub fn parse_declaration(s: &str) -> (r: Vec<Vec<(String, String)>>)
    ensures
        r@.len() == 1,
        pair_views(r@[0]@) == decl_table(split_semis(s@), split_semis(s@).len()),
        distinct_keys(pair_views(r@[0]@)),
{
    let cs = chars_of(s);
    let pieces = split_pieces(&cs);
    let ghost pv = piece_views(pieces@);
    let mut t: Vec<(String, String)> = Vec::new();
    assert(pair_views(t@) =~= Seq::<(Seq<char>, Seq<char>)>::empty());
    for n in 0..pieces.len()
        invariant
            pv == piece_views(pieces@),
            pv == split_semis(s@),
            distinct_keys(pair_views(t@)),
            pair_views(t@) == decl_table(pv, n as nat),
    {
        assert(pv[n as int] == pieces@[n as int]@);
        match parse_assignment(&pieces[n]) {
            Some((k, v)) => {
                set_pair(&mut t, k, v);
            },
            None => {},
        }
    }
    let mut r: Vec<Vec<(String, String)>> = Vec::new();
    r.push(t);
    r
}

} // verus!
