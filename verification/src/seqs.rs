//! Sequence helpers shared by the packer and the reader: flattening,
//! first-occurrence de-duplication and first positions.

use vstd::prelude::*;

verus! {

/// The concatenation of the pieces, in order.
pub open spec fn flat<T>(s: Seq<Seq<T>>) -> Seq<T>
    decreases s.len(),
{
    if s.len() == 0 {
        Seq::empty()
    } else {
        flat(s.drop_last()) + s.last()
    }
}

pub proof fn lemma_flat_push<T>(s: Seq<Seq<T>>, x: Seq<T>)
    ensures
        flat(s.push(x)) == flat(s) + x,
{
    assert(s.push(x).drop_last() =~= s);
}

/// `Seq::new(n + 1, f)` is `Seq::new(n, f)` with `f(n)` appended.
pub proof fn lemma_new_push<T>(n: nat, f: spec_fn(int) -> T)
    ensures
        Seq::new(n + 1, f) == Seq::new(n, f).push(f(n as int)),
{
    assert(Seq::new(n + 1, f) =~= Seq::new(n, f).push(f(n as int)));
}

/// Flattening `Seq::new(n + 1, f)` appends `f(n)`.
pub proof fn lemma_flat_new_push<T>(n: nat, f: spec_fn(int) -> Seq<T>)
    ensures
        flat(Seq::new(n + 1, f)) == flat(Seq::new(n, f)) + f(n as int),
{
    lemma_new_push(n, f);
    lemma_flat_push(Seq::new(n, f), f(n as int));
}

/// A longer prefix of pieces flattens to at least as much.
pub proof fn lemma_flat_new_mono<T>(n: nat, m: nat, f: spec_fn(int) -> Seq<T>)
    requires
        n <= m,
    ensures
        flat(Seq::new(n, f)).len() <= flat(Seq::new(m, f)).len(),
    decreases m,
{
    if n < m {
        lemma_flat_new_mono(n, (m - 1) as nat, f);
        lemma_flat_new_push((m - 1) as nat, f);
    }
}

/// The elements of `s` with later repeats left out, in first-occurrence order.
pub open spec fn dedup<T>(s: Seq<T>) -> Seq<T>
    decreases s.len(),
{
    if s.len() == 0 {
        Seq::empty()
    } else {
        let d = dedup(s.drop_last());
        if d.contains(s.last()) {
            d
        } else {
            d.push(s.last())
        }
    }
}

/// `i` is the first position of `x` in `s`.
pub open spec fn is_first<T>(s: Seq<T>, x: T, i: int) -> bool {
    &&& 0 <= i < s.len()
    &&& s[i] == x
    &&& forall|j: int| 0 <= j < i ==> s[j] != x
}

/// The first position of `x` in `s` (meaningful when `s` contains `x`).
pub open spec fn first_index<T>(s: Seq<T>, x: T) -> int {
    choose|i: int| is_first(s, x, i)
}

pub proof fn lemma_first_index<T>(s: Seq<T>, x: T, i: int)
    requires
        is_first(s, x, i),
    ensures
        first_index(s, x) == i,
{
    let c = first_index(s, x);
    assert(is_first(s, x, c));
    if c < i {
        assert(s[c] != x);
    } else if c > i {
        assert(s[i] != x);
    }
}

/// Every member of a sequence has a first position.
pub proof fn lemma_has_first<T>(s: Seq<T>, x: T)
    requires
        s.contains(x),
    ensures
        is_first(s, x, first_index(s, x)),
    decreases s.len(),
{
    if s.last() == x && !s.drop_last().contains(x) {
        assert forall|j: int| 0 <= j < s.len() - 1 implies s[j] != x by {
            assert(s.drop_last()[j] == s[j]);
        }
        lemma_first_index(s, x, s.len() - 1);
    } else {
        let k = choose|k: int| 0 <= k < s.len() && s[k] == x;
        if k == s.len() - 1 {
            assert(s.drop_last().contains(x));
        } else {
            assert(s.drop_last()[k] == x);
        }
        lemma_has_first(s.drop_last(), x);
        let i = first_index(s.drop_last(), x);
        assert forall|j: int| 0 <= j < i implies s[j] != x by {
            assert(s.drop_last()[j] == s[j]);
        }
        lemma_first_index(s, x, i);
    }
}

/// The de-duplicated sequence holds exactly the members of the sequence.
pub proof fn lemma_dedup_contains<T>(s: Seq<T>, x: T)
    ensures
        dedup(s).contains(x) <==> s.contains(x),
    decreases s.len(),
{
    if s.len() > 0 {
        lemma_dedup_contains(s.drop_last(), x);
        let d = dedup(s.drop_last());
        if s.drop_last().contains(x) {
            let k = choose|k: int| 0 <= k < s.drop_last().len() && s.drop_last()[k] == x;
            assert(s[k] == x);
        }
        if s.contains(x) && !s.drop_last().contains(x) {
            let k = choose|k: int| 0 <= k < s.len() && s[k] == x;
            if k < s.len() - 1 {
                assert(s.drop_last()[k] == x);
            }
            assert(s.last() == x);
        }
        if !d.contains(s.last()) {
            assert(d.push(s.last())[d.len() as int] == s.last());
            if d.contains(x) {
                let k = choose|k: int| 0 <= k < d.len() && d[k] == x;
                assert(d.push(s.last())[k] == x);
            }
            if d.push(s.last()).contains(x) {
                let k = choose|k: int| 0 <= k < d.len() + 1 && d.push(s.last())[k] == x;
                if k < d.len() {
                    assert(d[k] == x);
                }
            }
        } else {
            if s.last() == x {
                assert(s[s.len() - 1] == x);
            }
        }
    }
}

/// The de-duplicated sequence has no repeats.
pub proof fn lemma_dedup_distinct<T>(s: Seq<T>)
    ensures
        forall|i: int, j: int| 0 <= i < j < dedup(s).len() ==> dedup(s)[i] != dedup(s)[j],
    decreases s.len(),
{
    if s.len() > 0 {
        lemma_dedup_distinct(s.drop_last());
        let d = dedup(s.drop_last());
        if !d.contains(s.last()) {
            assert forall|i: int, j: int| 0 <= i < j < d.len() + 1 implies d.push(s.last())[i] != d.push(s.last())[j] by {
                if j == d.len() {
                    assert(d[i] != s.last());
                }
            }
        }
    }
}

} // verus!
