//! The cache-consistent mutation primitives, and the dispatch that applies
//! one inference verb to the fact multiset and its presence set.
//!
//! Every mutation of the multiset or the presence set in this crate goes
//! through these functions; each is pinned to an exact mathematical model
//! of its effect.

use vstd::prelude::*;

use crate::cache::Cache;
use crate::cache::clone_exact;
use crate::cache::eq_exact;
use crate::verbs::Inference;

verus! {

/// Number of occurrences of `x` in the sequence `s`.
pub open spec fn count_of<T>(s: Seq<T>, x: T) -> nat {
    s.to_multiset().count(x)
}

/// `s` after removing its first occurrence of `x` by swapping the tail
/// element into its place; `s` itself if `x` does not occur.
pub open spec fn swap_remove_first<T>(s: Seq<T>, x: T) -> Seq<T> {
    match s.index_of_first(x) {
        Some(i) => s.update(i, s.last()).drop_last(),
        None => s,
    }
}

/// `s` after overwriting its first occurrence of `from` with `to`;
/// `s` itself if `from` does not occur.
pub open spec fn overwrite_first<T>(s: Seq<T>, from: T, to: T) -> Seq<T> {
    match s.index_of_first(from) {
        Some(i) => s.update(i, to),
        None => s,
    }
}

/// Effect of consuming one occurrence of `x` on the pair of fact
/// multiset and presence set: the first occurrence is swap-removed, and
/// `x` leaves the presence set exactly when it was the last occurrence.
pub open spec fn consume_state<T>(st: (Seq<T>, Set<T>), x: T) -> (Seq<T>, Set<T>) {
    (
        swap_remove_first(st.0, x),
        if count_of(st.0, x) == 1 {
            st.1.remove(x)
        } else {
            st.1
        },
    )
}

/// Effect of consuming one occurrence of each target in turn.
pub open spec fn consume_all<T>(st: (Seq<T>, Set<T>), targets: Seq<T>) -> (Seq<T>, Set<T>)
    decreases targets.len(),
{
    if targets.len() == 0 {
        st
    } else {
        consume_all(consume_state(st, targets[0]), targets.drop_first())
    }
}

/// Effect of replacing the first occurrence of `from` by `to` in place:
/// the occurrence is overwritten, `from` leaves the presence set exactly
/// when it occurred once, and `to` enters it. When `from` does not occur
/// the verb is a silent no-op.
pub open spec fn replace_state<T>(st: (Seq<T>, Set<T>), from: T, to: T) -> (Seq<T>, Set<T>) {
    if st.0.contains(from) {
        (
            overwrite_first(st.0, from, to),
            (if count_of(st.0, from) == 1 {
                st.1.remove(from)
            } else {
                st.1
            }).insert(to),
        )
    } else {
        st
    }
}

/// Effect of appending one new fact.
pub open spec fn append_state<T>(st: (Seq<T>, Set<T>), t: T) -> (Seq<T>, Set<T>) {
    (st.0.push(t), st.1.insert(t))
}

/// Effect of appending each new fact in turn.
pub open spec fn append_all<T>(st: (Seq<T>, Set<T>), ts: Seq<T>) -> (Seq<T>, Set<T>)
    decreases ts.len(),
{
    if ts.len() == 0 {
        st
    } else {
        append_all(append_state(st, ts[0]), ts.drop_first())
    }
}

/// Effect of one inference verb on the multiset and the presence set.
pub open spec fn apply_inference_spec<T>(st: (Seq<T>, Set<T>), v: Inference<T>) -> (Seq<T>, Set<T>) {
    match v {
        Inference::OneTrue { from } => consume_state(st, from),
        Inference::ManyTrue { from } => consume_all(st, from@),
        Inference::Simplify { from, to } => append_state(consume_all(st, from@), to),
        Inference::SimplifyOne { from, to } => replace_state(st, from, to),
        Inference::SimplifyMany { from, to } => append_all(consume_all(st, from@), to@),
        Inference::Propagate(t) => append_state(st, t),
    }
}

/// The invariant tying the presence set to the multiset: a fact is in the
/// presence set exactly when at least one occurrence of it is present.
pub open spec fn cache_consistent<T>(st: (Seq<T>, Set<T>)) -> bool {
    forall|x: T| st.1.contains(x) <==> count_of(st.0, x) >= 1
}

/// Index of the first occurrence of `x` in `facts`, if any.
fn find_first<T: PartialEq>(facts: &Vec<T>, x: &T) -> (r: Option<usize>)
    requires
        eq_exact::<T>(),
    ensures
        match r {
            Some(i) => facts@.index_of_first(*x) == Some(i as int),
            None => facts@.index_of_first(*x) is None && !facts@.contains(*x),
        },
{
    let n = facts.len();
    let mut i: usize = 0;
    while i < n
        invariant
            eq_exact::<T>(),
            n == facts@.len(),
            0 <= i <= n,
            forall|j: int| 0 <= j < i ==> facts@[j] != *x,
        decreases n - i,
    {
        if facts[i] == *x {
            proof {
                facts@.index_of_first_ensures(*x);
            }
            return Some(i);
        }
        i += 1;
    }
    proof {
        facts@.index_of_first_ensures(*x);
    }
    None
}

/// Whether any occurrence of `x` is in `facts`.
fn vec_has<T: PartialEq>(facts: &Vec<T>, x: &T) -> (r: bool)
    requires
        eq_exact::<T>(),
    ensures
        r == facts@.contains(*x),
{
    match find_first(facts, x) {
        Some(_) => {
            proof {
                facts@.index_of_first_ensures(*x);
            }
            true
        },
        None => false,
    }
}

/// Multiset effect of swap-removing the element at position `i`.
pub(crate) proof fn lemma_swap_remove_at_multiset<T>(s: Seq<T>, i: int)
    requires
        0 <= i < s.len(),
    ensures
        s.update(i, s.last()).drop_last().to_multiset() == s.to_multiset().remove(s[i]),
        s.update(i, s.last()).drop_last().len() == s.len() - 1,
{
    broadcast use vstd::multiset::group_multiset_axioms;
    broadcast use vstd::seq_lib::group_to_multiset_ensures;

    let n = s.len() as int;
    let t = s.update(i, s.last()).drop_last();
    assert(t.len() == n - 1);
    if i == n - 1 {
        assert(t =~= s.remove(i));
        assert(s.remove(i).to_multiset() == s.to_multiset().remove(s[i]));
    } else {
        let u = s.update(i, s.last());
        assert(u =~= s.remove(i).insert(i, s.last()));
        assert(s.remove(i).to_multiset() == s.to_multiset().remove(s[i]));
        assert(s.remove(i).insert(i, s.last()).to_multiset() == s.remove(i).to_multiset().insert(
            s.last(),
        ));
        assert(t =~= u.remove(n - 1));
        assert(u.remove(n - 1).to_multiset() == u.to_multiset().remove(u[n - 1]));
        assert(u[n - 1] == s.last());
        assert(t.to_multiset() =~= s.to_multiset().remove(s[i]));
    }
}

/// Multiset effect of removing the first occurrence of a present `x`.
pub(crate) proof fn lemma_swap_remove_first_multiset<T>(s: Seq<T>, x: T)
    requires
        s.contains(x),
    ensures
        swap_remove_first(s, x).to_multiset() == s.to_multiset().remove(x),
        swap_remove_first(s, x).len() == s.len() - 1,
{
    s.index_of_first_ensures(x);
    let i = s.index_of_first(x).unwrap();
    lemma_swap_remove_at_multiset(s, i);
}

/// Remove one occurrence of `x` from the multiset, keeping the presence
/// set consistent: `x` stays present exactly while a copy remains.
pub fn remove_occurrence<T: PartialEq>(facts: &mut Vec<T>, cache: &mut Cache<T>, x: &T)
    requires
        eq_exact::<T>(),
        old(cache).wf(),
    ensures
        (final(facts)@, final(cache)@) == consume_state((old(facts)@, old(cache)@), *x),
        final(cache).wf(),
{
    broadcast use vstd::seq_lib::group_to_multiset_ensures;

    match find_first(facts, x) {
        Some(i) => {
            proof {
                broadcast use vstd::multiset::group_multiset_axioms;

                facts@.index_of_first_ensures(*x);
                lemma_swap_remove_first_multiset(facts@, *x);
                assert(count_of(facts@, *x) >= 1);
                assert(count_of(swap_remove_first(facts@, *x), *x) == count_of(facts@, *x) - 1);
            }
            facts.swap_remove(i);
            proof {
                assert(facts@ == swap_remove_first(old(facts)@, *x));
            }
            if !vec_has(facts, x) {
                proof {
                    broadcast use vstd::seq_lib::group_to_multiset_ensures;

                    assert(count_of(facts@, *x) == 0);
                    assert(count_of(old(facts)@, *x) == 1);
                }
                cache.remove(x);
            } else {
                proof {
                    broadcast use vstd::seq_lib::group_to_multiset_ensures;

                    assert(count_of(facts@, *x) >= 1);
                    assert(count_of(old(facts)@, *x) != 1);
                }
            }
        },
        None => {
            proof {
                broadcast use vstd::seq_lib::group_to_multiset_ensures;

                assert(count_of(old(facts)@, *x) == 0);
            }
        },
    }
}

/// Remove one occurrence of each target in turn, keeping the presence
/// set consistent throughout.
pub fn remove_occurrences<T: PartialEq>(facts: &mut Vec<T>, cache: &mut Cache<T>, targets: &Vec<T>)
    requires
        eq_exact::<T>(),
        old(cache).wf(),
    ensures
        (final(facts)@, final(cache)@) == consume_all((old(facts)@, old(cache)@), targets@),
        final(cache).wf(),
{
    let n = targets.len();
    let mut k: usize = 0;
    while k < n
        invariant
            eq_exact::<T>(),
            n == targets@.len(),
            0 <= k <= n,
            cache.wf(),
            (facts@, cache@) == consume_all((old(facts)@, old(cache)@), targets@.take(k as int)),
        decreases n - k,
    {
        remove_occurrence(facts, cache, &targets[k]);
        proof {
            lemma_consume_all_snoc((old(facts)@, old(cache)@), targets@, k as int);
        }
        k += 1;
    }
    proof {
        assert(targets@.take(n as int) =~= targets@);
    }
}

/// Overwriting one position trades its old element for the new one.
pub(crate) proof fn lemma_update_multiset<T>(s: Seq<T>, i: int, v: T)
    requires
        0 <= i < s.len(),
    ensures
        s.update(i, v).to_multiset() == s.to_multiset().remove(s[i]).insert(v),
{
    broadcast use vstd::multiset::group_multiset_axioms;
    broadcast use vstd::seq_lib::group_to_multiset_ensures;

    assert(s.update(i, v) =~= s.remove(i).insert(i, v));
    assert(s.remove(i).to_multiset() == s.to_multiset().remove(s[i]));
    assert(s.remove(i).insert(i, v).to_multiset() == s.remove(i).to_multiset().insert(v));
}

/// A value occurring at exactly one index occurs exactly once.
proof fn lemma_unique_occurrence_count<T>(s: Seq<T>, x: T, i: int)
    requires
        0 <= i < s.len(),
        s[i] == x,
        forall|j: int| 0 <= j < s.len() && j != i ==> s[j] != x,
    ensures
        count_of(s, x) == 1,
{
    broadcast use vstd::multiset::group_multiset_axioms;
    broadcast use vstd::seq_lib::group_to_multiset_ensures;

    let t = s.remove(i);
    assert(forall|k: int| 0 <= k < t.len() ==> t[k] != x);
    assert(!t.contains(x));
    assert(count_of(t, x) == 0);
    assert(t.to_multiset() == s.to_multiset().remove(x));
    assert(count_of(s, x) >= 1);
}

/// A value occurring at two distinct indices occurs at least twice.
proof fn lemma_two_occurrences_count<T>(s: Seq<T>, x: T, i: int, j: int)
    requires
        0 <= i < j < s.len(),
        s[i] == x,
        s[j] == x,
    ensures
        count_of(s, x) >= 2,
{
    broadcast use vstd::multiset::group_multiset_axioms;
    broadcast use vstd::seq_lib::group_to_multiset_ensures;

    let t = s.remove(j);
    assert(t[i] == x);
    assert(t.contains(x));
    assert(count_of(t, x) >= 1);
    assert(t.to_multiset() == s.to_multiset().remove(x));
    assert(count_of(s, x) >= 1);
}

/// Replace the first occurrence of `from` with `to` in place, keeping
/// the position stable: `from` leaves the presence set exactly when the
/// overwritten occurrence was its only one, and `to` enters it. When no
/// occurrence of `from` exists, neither the multiset nor the presence
/// set changes.
pub fn replace_first_unique<T: PartialEq + Clone>(
    facts: &mut Vec<T>,
    cache: &mut Cache<T>,
    from: &T,
    to: T,
)
    requires
        eq_exact::<T>(),
        clone_exact::<T>(),
        old(cache).wf(),
    ensures
        (final(facts)@, final(cache)@) == replace_state((old(facts)@, old(cache)@), *from, to),
        final(cache).wf(),
{
    match find_first(facts, from) {
        Some(i) => {
            proof {
                facts@.index_of_first_ensures(*from);
            }
            let n = facts.len();
            let mut extra = false;
            let mut j: usize = i + 1;
            while j < n
                invariant
                    eq_exact::<T>(),
                    n == facts@.len(),
                    i < n,
                    i + 1 <= j <= n,
                    extra ==> exists|l: int| i < l < n && facts@[l] == *from,
                    !extra ==> forall|l: int| i < l < j ==> facts@[l] != *from,
                decreases n - j,
            {
                if facts[j] == *from {
                    extra = true;
                }
                j += 1;
            }
            proof {
                facts@.index_of_first_ensures(*from);
                if extra {
                    let l = choose|l: int| i < l < n && facts@[l] == *from;
                    lemma_two_occurrences_count(facts@, *from, i as int, l);
                } else {
                    lemma_unique_occurrence_count(facts@, *from, i as int);
                }
            }
            let c = to.clone();
            proof {
                assert(cloned::<T>(to, c));
            }
            facts[i] = c;
            if !extra {
                cache.remove(from);
            }
            cache.insert(to);
        },
        None => {},
    }
}

/// Append one new fact to the multiset and record it in the presence set.
pub fn append_with_cache<T: PartialEq + Clone>(facts: &mut Vec<T>, cache: &mut Cache<T>, t: T)
    requires
        eq_exact::<T>(),
        clone_exact::<T>(),
        old(cache).wf(),
    ensures
        (final(facts)@, final(cache)@) == append_state((old(facts)@, old(cache)@), t),
        final(cache).wf(),
{
    let c = t.clone();
    proof {
        assert(cloned::<T>(t, c));
    }
    facts.push(c);
    cache.insert(t);
}

/// Appending the additions one further step at a time agrees with
/// appending the whole prefix at once.
proof fn lemma_append_all_snoc<T>(st: (Seq<T>, Set<T>), ts: Seq<T>, k: int)
    requires
        0 <= k < ts.len(),
    ensures
        append_all(st, ts.take(k + 1)) == append_state(append_all(st, ts.take(k)), ts[k]),
    decreases k,
{
    if k == 0 {
        let t1 = ts.take(1);
        assert(t1.len() == 1 && t1[0] == ts[0]);
        assert(t1.drop_first() =~= Seq::<T>::empty());
        assert(append_all(st, t1) == append_all(append_state(st, ts[0]), t1.drop_first()));
        assert(append_all(append_state(st, ts[0]), Seq::<T>::empty()) == append_state(st, ts[0]));
        assert(ts.take(0) =~= Seq::<T>::empty());
        assert(append_all(st, ts.take(0)) == st);
    } else {
        let st2 = append_state(st, ts[0]);
        assert(ts.take(k + 1).drop_first() =~= ts.drop_first().take(k));
        assert(ts.take(k + 1)[0] == ts[0]);
        assert(append_all(st, ts.take(k + 1)) == append_all(st2, ts.drop_first().take(k)));
        assert(ts.take(k).drop_first() =~= ts.drop_first().take(k - 1));
        assert(ts.take(k)[0] == ts[0]);
        assert(append_all(st, ts.take(k)) == append_all(st2, ts.drop_first().take(k - 1)));
        lemma_append_all_snoc(st2, ts.drop_first(), k - 1);
        assert(ts.drop_first()[k - 1] == ts[k]);
    }
}

/// Apply one inference verb to the multiset and its presence set, through
/// the mutation primitives, exactly as `apply_inference_spec` states.
pub fn apply_inference<T: PartialEq + Clone>(
    facts: &mut Vec<T>,
    cache: &mut Cache<T>,
    inf: Inference<T>,
)
    requires
        eq_exact::<T>(),
        clone_exact::<T>(),
        old(cache).wf(),
    ensures
        (final(facts)@, final(cache)@) == apply_inference_spec(
            (old(facts)@, old(cache)@),
            inf,
        ),
        final(cache).wf(),
{
    match inf {
        Inference::OneTrue { from } => {
            remove_occurrence(facts, cache, &from);
        },
        Inference::ManyTrue { from } => {
            remove_occurrences(facts, cache, &from);
        },
        Inference::Simplify { from, to } => {
            remove_occurrences(facts, cache, &from);
            append_with_cache(facts, cache, to);
        },
        Inference::SimplifyOne { from, to } => {
            replace_first_unique(facts, cache, &from, to);
        },
        Inference::SimplifyMany { from, to } => {
            remove_occurrences(facts, cache, &from);
            let ghost mid = (facts@, cache@);
            let n = to.len();
            let mut k: usize = 0;
            while k < n
                invariant
                    eq_exact::<T>(),
                    clone_exact::<T>(),
                    cache.wf(),
                    n == to@.len(),
                    0 <= k <= n,
                    (facts@, cache@) == append_all(mid, to@.take(k as int)),
                decreases n - k,
            {
                let c = to[k].clone();
                proof {
                    assert(cloned::<T>(to@[k as int], c));
                }
                append_with_cache(facts, cache, c);
                proof {
                    lemma_append_all_snoc(mid, to@, k as int);
                }
                k += 1;
            }
            proof {
                assert(to@.take(n as int) =~= to@);
            }
        },
        Inference::Propagate(t) => {
            append_with_cache(facts, cache, t);
        },
    }
}

/// Consuming the targets one further step at a time agrees with
/// consuming the whole prefix at once.
proof fn lemma_consume_all_snoc<T>(st: (Seq<T>, Set<T>), targets: Seq<T>, k: int)
    requires
        0 <= k < targets.len(),
    ensures
        consume_all(st, targets.take(k + 1)) == consume_state(
            consume_all(st, targets.take(k)),
            targets[k],
        ),
    decreases k,
{
    if k == 0 {
        let t1 = targets.take(1);
        assert(t1.len() == 1 && t1[0] == targets[0]);
        assert(t1.drop_first() =~= Seq::<T>::empty());
        assert(consume_all(st, t1) == consume_all(consume_state(st, targets[0]), t1.drop_first()));
        assert(consume_all(consume_state(st, targets[0]), Seq::<T>::empty()) == consume_state(
            st,
            targets[0],
        ));
        assert(targets.take(0) =~= Seq::<T>::empty());
        assert(consume_all(st, targets.take(0)) == st);
    } else {
        let st2 = consume_state(st, targets[0]);
        assert(targets.take(k + 1).drop_first() =~= targets.drop_first().take(k));
        assert(targets.take(k + 1)[0] == targets[0]);
        assert(consume_all(st, targets.take(k + 1)) == consume_all(
            st2,
            targets.drop_first().take(k),
        ));
        assert(targets.take(k).drop_first() =~= targets.drop_first().take(k - 1));
        assert(targets.take(k)[0] == targets[0]);
        assert(consume_all(st, targets.take(k)) == consume_all(
            st2,
            targets.drop_first().take(k - 1),
        ));
        lemma_consume_all_snoc(st2, targets.drop_first(), k - 1);
        assert(targets.drop_first()[k - 1] == targets[k]);
    }
}

} // verus!
