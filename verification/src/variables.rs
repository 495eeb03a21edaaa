//! Stylesheet variables in values: `@name` (a lowercase ASCII letter, then
//! word characters) stands for the value the variable was set to.

use vstd::prelude::*;
use crate::condition::{is_word, word, str_eq};
use crate::text::{chars_of, text_range, push_str, str_to_string};

verus! {

/// The end of the run of word characters from `i`.
pub open spec fn skip_word(s: Seq<char>, i: int) -> int
    decreases s.len() - i,
{
    if 0 <= i < s.len() && is_word(s[i]) {
        skip_word(s, i + 1)
    } else {
        i
    }
}

/// The end of the variable reference that starts at `i`, or `-1` where
/// none does.
pub open spec fn var_ref_end(s: Seq<char>, i: int) -> int {
    if 0 <= i && i + 1 < s.len() && s[i] == '@' && 'a' <= s[i + 1] && s[i + 1] <= 'z' {
        skip_word(s, i + 2)
    } else {
        -1
    }
}

/// The value of the first variable named `name`.
pub open spec fn var_lookup(vars: Seq<(Seq<char>, Seq<char>)>, name: Seq<char>) -> Option<Seq<char>>
    decreases vars.len(),
{
    if vars.len() == 0 {
        None
    } else if vars[0].0 == name {
        Some(vars[0].1)
    } else {
        var_lookup(vars.drop_first(), name)
    }
}

/// The message on a variable that is not set.
pub open spec fn msg_no_variable(name: Seq<char>) -> Seq<char> {
    "Variable not found: "@ + name
}

/// Substitution from position `i` on: the names referenced, in order, up to
/// the first that is not set, and the text with each reference replaced by
/// its value, or the message on that first name that is not set.
pub open spec fn subst_from(s: Seq<char>, vars: Seq<(Seq<char>, Seq<char>)>, i: int) -> (Seq<Seq<char>>, Result<Seq<char>, Seq<char>>)
    decreases s.len() - i,
{
    if i < 0 || i >= s.len() {
        (Seq::empty(), Ok(Seq::empty()))
    } else if var_ref_end(s, i) >= 0 {
        proof {
            lemma_skip_word(s, i + 2);
        }
        let e = var_ref_end(s, i);
        let name = s.subrange(i + 1, e);
        match var_lookup(vars, name) {
            None => (seq![name], Err(msg_no_variable(name))),
            Some(val) => {
                let (ns, r) = subst_from(s, vars, e);
                (seq![name] + ns, match r {
                    Ok(t) => Ok(val + t),
                    Err(m) => Err(m),
                })
            },
        }
    } else {
        let (ns, r) = subst_from(s, vars, i + 1);
        (ns, match r {
            Ok(t) => Ok(seq![s[i]] + t),
            Err(m) => Err(m),
        })
    }
}

/// A run of word characters stays within the text.
pub proof fn lemma_skip_word(s: Seq<char>, i: int)
    requires
        0 <= i <= s.len(),
    ensures
        i <= skip_word(s, i) <= s.len(),
    decreases s.len() - i,
{
    if i < s.len() && is_word(s[i]) {
        lemma_skip_word(s, i + 1);
    }
}

proof fn lemma_skip_word_all(s: Seq<char>, i: int)
    requires
        0 <= i <= s.len(),
        forall|k: int| i <= k < s.len() ==> is_word(#[trigger] s[k]),
    ensures
        skip_word(s, i) == s.len(),
    decreases s.len() - i,
{
    if i < s.len() {
        lemma_skip_word_all(s, i + 1);
    }
}

/// In a list that names each variable once, a variable's lookup gives the
/// value it is listed with.
pub proof fn lemma_var_lookup_listed(vars: Seq<(Seq<char>, Seq<char>)>, idx: int)
    requires
        0 <= idx < vars.len(),
        forall|i: int, j: int| 0 <= i < j < vars.len() ==> vars[i].0 != vars[j].0,
    ensures
        var_lookup(vars, vars[idx].0) == Some(vars[idx].1),
    decreases vars.len(),
{
    if idx > 0 {
        let rest = vars.drop_first();
        assert(vars[0].0 != vars[idx].0);
        assert(rest[idx - 1] == vars[idx]);
        lemma_var_lookup_listed(rest, idx - 1);
    }
}

/// A reference runs from `@` and a lowercase ASCII letter through all the
/// word characters (`_` among them) that follow: a text that is one
/// reference to a variable set (once) to `val` becomes `val`, the name
/// being the whole rest of the text.
pub proof fn lemma_subst_one_reference(name: Seq<char>, vars: Seq<(Seq<char>, Seq<char>)>, idx: int)
    requires
        name.len() >= 1,
        'a' <= name[0] && name[0] <= 'z',
        forall|k: int| 0 <= k < name.len() ==> is_word(#[trigger] name[k]),
        0 <= idx < vars.len(),
        vars[idx].0 == name,
        forall|i: int, j: int| 0 <= i < j < vars.len() ==> vars[i].0 != vars[j].0,
    ensures
        subst_from(seq!['@'] + name, vars, 0) == (seq![name], Ok::<Seq<char>, Seq<char>>(vars[idx].1)),
{
    let s = seq!['@'] + name;
    assert forall|k: int| 2 <= k < s.len() implies is_word(#[trigger] s[k]) by {
        assert(s[k] == name[k - 1]);
    }
    lemma_skip_word_all(s, 2);
    assert(s.subrange(1, s.len() as int) =~= name);
    lemma_var_lookup_listed(vars, idx);
    assert(subst_from(s, vars, s.len() as int) == (Seq::<Seq<char>>::empty(), Ok::<Seq<char>, Seq<char>>(Seq::empty())));
    assert(seq![name] + Seq::<Seq<char>>::empty() =~= seq![name]);
    assert(vars[idx].1 + Seq::<char>::empty() =~= vars[idx].1);
}

/// A reference to a variable that is not set stops the substitution with
/// the message naming it, the whole name (every word character after the
/// `@`) being taken.
pub proof fn lemma_subst_unset_reference(name: Seq<char>, vars: Seq<(Seq<char>, Seq<char>)>)
    requires
        name.len() >= 1,
        'a' <= name[0] && name[0] <= 'z',
        forall|k: int| 0 <= k < name.len() ==> is_word(#[trigger] name[k]),
        forall|i: int| 0 <= i < vars.len() ==> vars[i].0 != name,
    ensures
        subst_from(seq!['@'] + name, vars, 0) == (seq![name], Err::<Seq<char>, Seq<char>>("Variable not found: "@ + name)),
{
    let s = seq!['@'] + name;
    assert forall|k: int| 2 <= k < s.len() implies is_word(#[trigger] s[k]) by {
        assert(s[k] == name[k - 1]);
    }
    lemma_skip_word_all(s, 2);
    assert(s.subrange(1, s.len() as int) =~= name);
    lemma_var_lookup_unset(vars, name);
}

proof fn lemma_var_lookup_unset(vars: Seq<(Seq<char>, Seq<char>)>, name: Seq<char>)
    requires
        forall|i: int| 0 <= i < vars.len() ==> vars[i].0 != name,
    ensures
        var_lookup(vars, name) is None,
    decreases vars.len(),
{
    if vars.len() > 0 {
        let rest = vars.drop_first();
        assert forall|i: int| 0 <= i < rest.len() implies rest[i].0 != name by {
            assert(rest[i] == vars[i + 1]);
        }
        lemma_var_lookup_unset(rest, name);
    }
}

proof fn lemma_subst_plain_from(s: Seq<char>, vars: Seq<(Seq<char>, Seq<char>)>, i: int)
    requires
        0 <= i <= s.len(),
        forall|k: int| 0 <= k < s.len() ==> s[k] != '@',
    ensures
        subst_from(s, vars, i) == (Seq::<Seq<char>>::empty(), Ok::<Seq<char>, Seq<char>>(s.skip(i))),
    decreases s.len() - i,
{
    if i < s.len() {
        lemma_subst_plain_from(s, vars, i + 1);
        assert(seq![s[i]] + s.skip(i + 1) =~= s.skip(i));
    } else {
        assert(s.skip(i) =~= Seq::<char>::empty());
    }
}

/// A text without `@` references nothing and is left as it is.
pub proof fn lemma_subst_plain(s: Seq<char>, vars: Seq<(Seq<char>, Seq<char>)>)
    requires
        forall|k: int| 0 <= k < s.len() ==> s[k] != '@',
    ensures
        subst_from(s, vars, 0) == (Seq::<Seq<char>>::empty(), Ok::<Seq<char>, Seq<char>>(s)),
{
    lemma_subst_plain_from(s, vars, 0);
    assert(s.skip(0) =~= s);
}

/// A substitution result with `p` put before its text.
pub open spec fn prefixed(p: Seq<char>, r: Result<Seq<char>, Seq<char>>) -> Result<Seq<char>, Seq<char>> {
    match r {
        Ok(t) => Ok(p + t),
        Err(m) => Err(m),
    }
}

proof fn lemma_skip_word_shift(s: Seq<char>, k: int, i: int)
    requires
        0 <= k <= i,
        k <= s.len(),
    ensures
        skip_word(s, i) == skip_word(s.skip(k), i - k) + k,
    decreases s.len() - i,
{
    assert(s.skip(k).len() == s.len() - k);
    if i < s.len() {
        assert(s.skip(k)[i - k] == s[i]);
        if is_word(s[i]) {
            lemma_skip_word_shift(s, k, i + 1);
        }
    }
}

proof fn lemma_subst_shift(s: Seq<char>, vars: Seq<(Seq<char>, Seq<char>)>, k: int, i: int)
    requires
        0 <= k <= i,
        k <= s.len(),
    ensures
        subst_from(s, vars, i) == subst_from(s.skip(k), vars, i - k),
    decreases s.len() - i,
{
    let t = s.skip(k);
    assert(t.len() == s.len() - k);
    if i < s.len() {
        assert(t[i - k] == s[i]);
        if i + 1 < s.len() {
            assert(t[i - k + 1] == s[i + 1]);
        }
        if var_ref_end(s, i) >= 0 {
            lemma_skip_word_shift(s, k, i + 2);
            lemma_skip_word(s, i + 2);
            let e = var_ref_end(s, i);
            assert(var_ref_end(t, i - k) == e - k);
            assert(s.subrange(i + 1, e) =~= t.subrange(i - k + 1, e - k));
            lemma_subst_shift(s, vars, k, e);
        } else {
            if i + 2 <= s.len() {
                lemma_skip_word(s, i + 2);
            }
            assert(var_ref_end(t, i - k) < 0);
            lemma_subst_shift(s, vars, k, i + 1);
        }
    }
}

proof fn lemma_subst_prefix_from(p: Seq<char>, t: Seq<char>, vars: Seq<(Seq<char>, Seq<char>)>, i: int)
    requires
        0 <= i <= p.len(),
        forall|k: int| 0 <= k < p.len() ==> p[k] != '@',
    ensures
        subst_from(p + t, vars, i) == (subst_from(t, vars, 0).0, prefixed(p.skip(i), subst_from(t, vars, 0).1)),
    decreases p.len() - i,
{
    let s = p + t;
    if i < p.len() {
        assert(s[i] == p[i]);
        lemma_subst_prefix_from(p, t, vars, i + 1);
        assert(seq![p[i]] + p.skip(i + 1) =~= p.skip(i));
        match subst_from(t, vars, 0).1 {
            Ok(x) => {
                assert(seq![s[i]] + (p.skip(i + 1) + x) =~= p.skip(i) + x);
            },
            Err(_) => {},
        }
    } else {
        lemma_subst_shift(s, vars, p.len() as int, p.len() as int);
        assert(s.skip(p.len() as int) =~= t);
        assert(p.skip(i) =~= Seq::<char>::empty());
        match subst_from(t, vars, 0).1 {
            Ok(x) => {
                assert(Seq::<char>::empty() + x =~= x);
            },
            Err(_) => {},
        }
    }
}

/// Text without `@` before the rest is copied as it is: it references
/// nothing, and the rest is substituted as if alone.
pub proof fn lemma_subst_plain_prefix(p: Seq<char>, t: Seq<char>, vars: Seq<(Seq<char>, Seq<char>)>)
    requires
        forall|k: int| 0 <= k < p.len() ==> p[k] != '@',
    ensures
        subst_from(p + t, vars, 0) == (subst_from(t, vars, 0).0, prefixed(p, subst_from(t, vars, 0).1)),
{
    lemma_subst_prefix_from(p, t, vars, 0);
    assert(p.skip(0) =~= p);
}

proof fn lemma_skip_word_run(s: Seq<char>, i: int, e: int)
    requires
        0 <= i <= e <= s.len(),
        forall|k: int| i <= k < e ==> is_word(#[trigger] s[k]),
        e == s.len() || !is_word(s[e]),
    ensures
        skip_word(s, i) == e,
    decreases e - i,
{
    if i < e {
        lemma_skip_word_run(s, i + 1, e);
    }
}

/// A reference to a set variable, followed by text that does not go on
/// with a word character, is replaced by the variable's value, and the
/// text after it is substituted as if alone.
pub proof fn lemma_subst_reference_then(
    name: Seq<char>,
    t: Seq<char>,
    vars: Seq<(Seq<char>, Seq<char>)>,
    idx: int,
)
    requires
        name.len() >= 1,
        'a' <= name[0] && name[0] <= 'z',
        forall|k: int| 0 <= k < name.len() ==> is_word(#[trigger] name[k]),
        t.len() == 0 || !is_word(t[0]),
        0 <= idx < vars.len(),
        vars[idx].0 == name,
        forall|i: int, j: int| 0 <= i < j < vars.len() ==> vars[i].0 != vars[j].0,
    ensures
        subst_from(seq!['@'] + name + t, vars, 0) == (
            seq![name] + subst_from(t, vars, 0).0,
            prefixed(vars[idx].1, subst_from(t, vars, 0).1),
        ),
{
    let s = seq!['@'] + name + t;
    let e = (name.len() + 1) as int;
    assert forall|k: int| 2 <= k < e implies is_word(#[trigger] s[k]) by {
        assert(s[k] == name[k - 1]);
    }
    if t.len() > 0 {
        assert(s[e] == t[0]);
    }
    lemma_skip_word_run(s, 2, e);
    assert(s.subrange(1, e) =~= name);
    lemma_var_lookup_listed(vars, idx);
    lemma_subst_shift(s, vars, e, e);
    assert(s.skip(e) =~= t);
}

/// The views of a list of variables.
pub open spec fn var_views(v: Seq<(String, String)>) -> Seq<(Seq<char>, Seq<char>)> {
    v.map_values(|p: (String, String)| (p.0@, p.1@))
}

fn lookup_var(vars: &Vec<(String, String)>, name: &str) -> (r: Option<String>)
    ensures
        match var_lookup(var_views(vars@), name@) {
            Some(v) => r is Some && r->0@ == v,
            None => r is None,
        },
{
    let ghost vv = var_views(vars@);
    assert(vv.skip(0) =~= vv);
    for i in 0..vars.len()
        invariant
            vv == var_views(vars@),
            var_lookup(vv, name@) == var_lookup(vv.skip(i as int), name@),
    {
        assert(vv.skip(i as int)[0] == (vars@[i as int].0@, vars@[i as int].1@));
        if str_eq(vars[i].0.as_str(), name) {
            return Some(str_to_string(vars[i].1.as_str()));
        }
        assert(vv.skip(i as int).drop_first() =~= vv.skip(i as int + 1));
    }
    assert(vv.skip(vars@.len() as int) =~= Seq::<(Seq<char>, Seq<char>)>::empty());
    None
}

/// Replaces each variable reference `@name` of `s` (scanned from the
/// start, each reference as long as it goes) by the value of the variable
/// `name` in `vars`. Gives the names referenced, in order, and the text, or
/// the message on the first name that is not set (the names then end with
/// it).
pub fn subst_variables(s: &str, vars: &Vec<(String, String)>) -> (r: (Vec<String>, Result<String, String>))
    ensures
        ({
            let (ns, res) = subst_from(s@, var_views(vars@), 0);
            &&& r.0@.map_values(|n: String| n@) == ns
            &&& match res {
                Ok(t) => r.1 is Ok && r.1->Ok_0@ == t,
                Err(m) => r.1 is Err && r.1->Err_0@ == m,
            }
        }),
{
    let cs = chars_of(s);
    let ghost sv = s@;
    let ghost vv = var_views(vars@);
    let mut names: Vec<String> = Vec::new();
    let mut out = String::new();
    let mut i: usize = 0;
    proof {
        reveal_strlit("Variable not found: ");
    }
    assert(names@.map_values(|n: String| n@) =~= Seq::<Seq<char>>::empty());
    while i < cs.len()
        invariant
            cs@ == sv,
            sv == s@,
            vv == var_views(vars@),
            i <= cs@.len(),
            subst_from(sv, vv, 0) == ({
                let (ns, rest) = subst_from(sv, vv, i as int);
                (names@.map_values(|n: String| n@) + ns, match rest {
                    Ok(t) => Ok::<Seq<char>, Seq<char>>(out@ + t),
                    Err(m) => Err::<Seq<char>, Seq<char>>(m),
                })
            }),
        decreases cs@.len() - i,
    {
        let ghost nv = names@.map_values(|n: String| n@);
        let ghost o = out@;
        if i + 1 < cs.len() && cs[i] == '@' && 'a' <= cs[i + 1] && cs[i + 1] <= 'z' {
            let mut e = i + 2;
            while e < cs.len() && word(cs[e])
                invariant
                    cs@ == sv,
                    i + 2 <= e <= cs@.len(),
                    skip_word(sv, i + 2) == skip_word(sv, e as int),
                decreases cs@.len() - e,
            {
                e = e + 1;
            }
            assert(var_ref_end(sv, i as int) == e);
            let name = text_range(&cs, i + 1, e);
            let ghost rest = subst_from(sv, vv, e as int);
            names.push(str_to_string(name.as_str()));
            assert(names@.map_values(|n: String| n@) =~= nv.push(name@));
            match lookup_var(vars, name.as_str()) {
                None => {
                    let mut m = str_to_string("Variable not found: ");
                    push_str(&mut m, name.as_str());
                    assert(nv.push(name@) =~= nv + seq![name@]);
                    return (names, Err(m));
                },
                Some(val) => {
                    push_str(&mut out, val.as_str());
                    assert(nv.push(name@) + rest.0 =~= nv + (seq![name@] + rest.0));
                    proof {
                        match rest.1 {
                            Ok(t) => {
                                assert(out@ + t =~= o + (val@ + t));
                            },
                            Err(_) => {},
                        }
                    }
                    i = e;
                },
            }
        } else {
            assert(var_ref_end(sv, i as int) < 0);
            let ghost rest = subst_from(sv, vv, i as int + 1);
            out.push(cs[i]);
            proof {
                match rest.1 {
                    Ok(t) => {
                        assert(out@ + t =~= o + (seq![sv[i as int]] + t));
                    },
                    Err(_) => {},
                }
            }
            i = i + 1;
        }
    }
    assert(names@.map_values(|n: String| n@) + Seq::<Seq<char>>::empty() =~= names@.map_values(|n: String| n@));
    assert(out@ + Seq::<char>::empty() =~= out@);
    (names, Ok(out))
}

} // verus!
