//! The engine's laws, stated over the spec-level model and proved once
//! and for all: the presence set tracks the multiset, no fact appears
//! out of nowhere, an engine that is given nothing to do hands its input
//! back, and the boundary behaviour of the verbs.

use vstd::prelude::*;

use crate::cache::Cache;
use crate::mutate::apply_inference_spec;
use crate::mutate::append_all;
use crate::mutate::append_state;
use crate::mutate::cache_consistent;
use crate::mutate::consume_all;
use crate::mutate::consume_state;
use crate::mutate::count_of;
use crate::mutate::lemma_swap_remove_at_multiset;
use crate::mutate::lemma_swap_remove_first_multiset;
use crate::mutate::lemma_update_multiset;
use crate::mutate::replace_state;
use crate::solver::infer_step;
use crate::solver::may_infer;
use crate::solver::min_from;
use crate::solver::min_of_suffix;
use crate::solver::valid_trace;
use crate::verbs::Inference;
use crate::verbs::prune;
use crate::verbs::prune_from;
use crate::verbs::verb_additions;
use crate::verbs::verb_removals;

verus! {

/// The presence set a fresh run starts from is consistent: it holds
/// exactly the facts with at least one occurrence.
pub proof fn lemma_initial_cache_consistent<T>(facts: Seq<T>)
    ensures
        cache_consistent((facts, facts.to_set())),
{
    broadcast use vstd::seq_lib::group_to_multiset_ensures;

    assert forall|x: T| facts.to_set().contains(x) <==> count_of(facts, x) >= 1 by {
        assert(facts.contains(x) <==> count_of(facts, x) >= 1);
    }
}

/// Consuming one occurrence keeps the presence set consistent.
proof fn lemma_consume_consistent<T>(st: (Seq<T>, Set<T>), x: T)
    requires
        cache_consistent(st),
    ensures
        cache_consistent(consume_state(st, x)),
{
    broadcast use vstd::multiset::group_multiset_axioms;
    broadcast use vstd::seq_lib::group_to_multiset_ensures;

    let post = consume_state(st, x);
    st.0.index_of_first_ensures(x);
    if st.0.contains(x) {
        lemma_swap_remove_first_multiset(st.0, x);
        assert forall|y: T| post.1.contains(y) <==> count_of(post.0, y) >= 1 by {
            assert(st.1.contains(y) <==> count_of(st.0, y) >= 1);
            if y == x {
                assert(count_of(post.0, x) == count_of(st.0, x) - 1);
            } else {
                assert(count_of(post.0, y) == count_of(st.0, y));
            }
        }
    } else {
        assert(count_of(st.0, x) == 0);
    }
}

/// Consuming a list of targets keeps the presence set consistent.
proof fn lemma_consume_all_consistent<T>(st: (Seq<T>, Set<T>), targets: Seq<T>)
    requires
        cache_consistent(st),
    ensures
        cache_consistent(consume_all(st, targets)),
    decreases targets.len(),
{
    if targets.len() > 0 {
        lemma_consume_consistent(st, targets[0]);
        lemma_consume_all_consistent(consume_state(st, targets[0]), targets.drop_first());
    }
}

/// Appending a fact keeps the presence set consistent.
proof fn lemma_append_consistent<T>(st: (Seq<T>, Set<T>), t: T)
    requires
        cache_consistent(st),
    ensures
        cache_consistent(append_state(st, t)),
{
    broadcast use vstd::multiset::group_multiset_axioms;
    broadcast use vstd::seq_lib::group_to_multiset_ensures;

    let post = append_state(st, t);
    assert forall|y: T| post.1.contains(y) <==> count_of(post.0, y) >= 1 by {
        assert(st.1.contains(y) <==> count_of(st.0, y) >= 1);
        assert(st.0.push(t).to_multiset() == st.0.to_multiset().insert(t));
    }
}

/// Appending a list of facts keeps the presence set consistent.
proof fn lemma_append_all_consistent<T>(st: (Seq<T>, Set<T>), ts: Seq<T>)
    requires
        cache_consistent(st),
    ensures
        cache_consistent(append_all(st, ts)),
    decreases ts.len(),
{
    if ts.len() > 0 {
        lemma_append_consistent(st, ts[0]);
        lemma_append_all_consistent(append_state(st, ts[0]), ts.drop_first());
    }
}

/// Replacing a fact in place keeps the presence set consistent.
proof fn lemma_replace_consistent<T>(st: (Seq<T>, Set<T>), from: T, to: T)
    requires
        cache_consistent(st),
    ensures
        cache_consistent(replace_state(st, from, to)),
{
    broadcast use vstd::multiset::group_multiset_axioms;
    broadcast use vstd::seq_lib::group_to_multiset_ensures;

    st.0.index_of_first_ensures(from);
    if st.0.contains(from) {
        let i = st.0.index_of_first(from).unwrap();
        lemma_update_multiset(st.0, i, to);
        let post = replace_state(st, from, to);
        assert(post.0 == st.0.update(i, to));
        assert(post.0.to_multiset() == st.0.to_multiset().remove(from).insert(to));
        assert forall|y: T| post.1.contains(y) <==> count_of(post.0, y) >= 1 by {
            assert(st.1.contains(y) <==> count_of(st.0, y) >= 1);
            if y == to {
                assert(count_of(post.0, to) >= 1);
            } else if y == from {
                assert(count_of(post.0, from) == count_of(st.0, from) - 1);
            } else {
                assert(count_of(post.0, y) == count_of(st.0, y));
            }
        }
    }
}

/// Cache correctness, per verb: a consistent presence set stays
/// consistent under every verb, verbs naming absent facts included.
pub proof fn lemma_apply_preserves_consistency<T>(st: (Seq<T>, Set<T>), v: Inference<T>)
    requires
        cache_consistent(st),
    ensures
        cache_consistent(apply_inference_spec(st, v)),
{
    match v {
        Inference::OneTrue { from } => {
            lemma_consume_consistent(st, from);
        },
        Inference::ManyTrue { from } => {
            lemma_consume_all_consistent(st, from@);
        },
        Inference::Simplify { from, to } => {
            lemma_consume_all_consistent(st, from@);
            lemma_append_consistent(consume_all(st, from@), to);
        },
        Inference::SimplifyOne { from, to } => {
            lemma_replace_consistent(st, from, to);
        },
        Inference::SimplifyMany { from, to } => {
            lemma_consume_all_consistent(st, from@);
            lemma_append_all_consistent(consume_all(st, from@), to@);
        },
        Inference::Propagate(t) => {
            lemma_append_consistent(st, t);
        },
    }
}

/// Cache correctness, per run: on every run from a fresh presence set
/// the presence set is consistent at every iteration boundary.
pub proof fn lemma_trace_cache_correct<T, F: Fn(&Cache<T>, &[T]) -> Option<Inference<T>>>(
    infer: F,
    t: Seq<(Seq<T>, Set<T>)>,
    i: int,
)
    requires
        valid_trace(infer, t),
        t.len() >= 1,
        t[0].1 == t[0].0.to_set(),
        0 <= i < t.len(),
    ensures
        cache_consistent(t[i]),
    decreases i,
{
    if i == 0 {
        lemma_initial_cache_consistent(t[0].0);
    } else {
        lemma_trace_cache_correct(infer, t, i - 1);
        assert(infer_step(infer, t[i - 1], t[i]));
        let v = choose|v: Inference<T>|
            #[trigger] may_infer(infer, t[i - 1].1, t[i - 1].0, Some(v)) && t[i]
                == apply_inference_spec(t[i - 1], v);
        lemma_apply_preserves_consistency(t[i - 1], v);
    }
}

/// Every element of the consumed multiset was already there.
proof fn lemma_consume_no_new<T>(st: (Seq<T>, Set<T>), x: T, y: T)
    requires
        consume_state(st, x).0.contains(y),
    ensures
        st.0.contains(y),
{
    broadcast use vstd::multiset::group_multiset_axioms;
    broadcast use vstd::seq_lib::group_to_multiset_ensures;

    st.0.index_of_first_ensures(x);
    if st.0.contains(x) {
        lemma_swap_remove_first_multiset(st.0, x);
        assert(count_of(consume_state(st, x).0, y) >= 1);
        assert(count_of(st.0, y) >= 1);
    }
}

/// Every element of the multiset after a list of consumptions was
/// already there.
proof fn lemma_consume_all_no_new<T>(st: (Seq<T>, Set<T>), targets: Seq<T>, y: T)
    requires
        consume_all(st, targets).0.contains(y),
    ensures
        st.0.contains(y),
    decreases targets.len(),
{
    if targets.len() > 0 {
        lemma_consume_all_no_new(consume_state(st, targets[0]), targets.drop_first(), y);
        lemma_consume_no_new(st, targets[0], y);
    }
}

/// Every element after a list of appends was there or was appended.
proof fn lemma_append_all_no_new<T>(st: (Seq<T>, Set<T>), ts: Seq<T>, y: T)
    requires
        append_all(st, ts).0.contains(y),
    ensures
        st.0.contains(y) || ts.contains(y),
    decreases ts.len(),
{
    broadcast use vstd::multiset::group_multiset_axioms;
    broadcast use vstd::seq_lib::group_to_multiset_ensures;

    if ts.len() > 0 {
        lemma_append_all_no_new(append_state(st, ts[0]), ts.drop_first(), y);
        if st.0.push(ts[0]).contains(y) && !st.0.contains(y) {
            assert(count_of(st.0.push(ts[0]), y) >= 1);
            assert(st.0.push(ts[0]).to_multiset() == st.0.to_multiset().insert(ts[0]));
            assert(count_of(st.0, y) == 0);
            assert(y == ts[0]);
        }
        if ts.drop_first().contains(y) {
            let k = choose|k: int| 0 <= k < ts.drop_first().len() && ts.drop_first()[k] == y;
            assert(ts[k + 1] == y);
        }
    }
}

/// No spontaneous facts, per verb: every fact in the multiset after a
/// verb was either already present or is among the verb's additions.
pub proof fn lemma_apply_no_spontaneous_facts<T>(st: (Seq<T>, Set<T>), v: Inference<T>, y: T)
    requires
        apply_inference_spec(st, v).0.contains(y),
    ensures
        st.0.contains(y) || verb_additions(v).contains(y),
{
    broadcast use vstd::multiset::group_multiset_axioms;
    broadcast use vstd::seq_lib::group_to_multiset_ensures;

    match v {
        Inference::OneTrue { from } => {
            lemma_consume_no_new(st, from, y);
        },
        Inference::ManyTrue { from } => {
            lemma_consume_all_no_new(st, from@, y);
        },
        Inference::Simplify { from, to } => {
            let mid = consume_all(st, from@);
            if mid.0.push(to).contains(y) && y != to {
                assert(count_of(mid.0.push(to), y) >= 1);
                assert(mid.0.push(to).to_multiset() == mid.0.to_multiset().insert(to));
                assert(count_of(mid.0, y) >= 1);
                lemma_consume_all_no_new(st, from@, y);
            }
            assert(verb_additions(v) == seq![to]);
            if y == to {
                assert(verb_additions(v)[0] == y);
            }
        },
        Inference::SimplifyOne { from, to } => {
            st.0.index_of_first_ensures(from);
            if st.0.contains(from) {
                let i = st.0.index_of_first(from).unwrap();
                let k = choose|k: int|
                    0 <= k < st.0.update(i, to).len() && st.0.update(i, to)[k] == y;
                if k == i {
                    assert(verb_additions(v)[0] == y);
                } else {
                    assert(st.0[k] == y);
                }
            }
        },
        Inference::SimplifyMany { from, to } => {
            lemma_append_all_no_new(consume_all(st, from@), to@, y);
            if consume_all(st, from@).0.contains(y) {
                lemma_consume_all_no_new(st, from@, y);
            }
        },
        Inference::Propagate(t) => {
            if st.0.push(t).contains(y) && y != t {
                assert(count_of(st.0.push(t), y) >= 1);
                assert(st.0.push(t).to_multiset() == st.0.to_multiset().insert(t));
                assert(count_of(st.0, y) >= 1);
            }
            if y == t {
                assert(verb_additions(v)[0] == y);
            }
        },
    }
}

/// No spontaneous facts, per run: every fact in a state of a run was in
/// the start state, or was among the additions of some verb applied at
/// an earlier step of the run.
pub proof fn lemma_trace_no_spontaneous_facts<
    T,
    F: Fn(&Cache<T>, &[T]) -> Option<Inference<T>>,
>(infer: F, t: Seq<(Seq<T>, Set<T>)>, i: int, y: T)
    requires
        valid_trace(infer, t),
        0 <= i < t.len(),
        t[i].0.contains(y),
    ensures
        t[0].0.contains(y) || exists|j: int, v: Inference<T>|
            0 <= j < i && #[trigger] may_infer(infer, t[j].1, t[j].0, Some(v)) && t[j + 1]
                == apply_inference_spec(t[j], v) && verb_additions(v).contains(y),
    decreases i,
{
    if i > 0 {
        assert(infer_step(infer, t[i - 1], t[i]));
        let v = choose|v: Inference<T>|
            #[trigger] may_infer(infer, t[i - 1].1, t[i - 1].0, Some(v)) && t[i]
                == apply_inference_spec(t[i - 1], v);
        lemma_apply_no_spontaneous_facts(t[i - 1], v, y);
        if verb_additions(v).contains(y) {
            assert(may_infer(infer, t[i - 1].1, t[i - 1].0, Some(v)) && t[i]
                == apply_inference_spec(t[i - 1], v) && verb_additions(v).contains(y));
        } else {
            lemma_trace_no_spontaneous_facts(infer, t, i - 1, y);
        }
    }
}

/// No-op idempotence: when the inference function can only decline on
/// the start state, any result the driver's contract allows is the
/// start state itself.
pub proof fn lemma_noop_idempotent<T, F: Fn(&Cache<T>, &[T]) -> Option<Inference<T>>>(
    infer: F,
    f0: Seq<T>,
    t: Seq<(Seq<T>, Set<T>)>,
    r: Seq<T>,
)
    requires
        valid_trace(infer, t),
        t.len() >= 1,
        t[0] == (f0, f0.to_set()),
        min_of_suffix(t, r),
        forall|out: Option<Inference<T>>|
            #[trigger] may_infer(infer, f0.to_set(), f0, out) ==> out is None,
    ensures
        r == f0,
{
    if t.len() > 1 {
        assert(infer_step(infer, t[0], t[1]));
        let v = choose|v: Inference<T>|
            #[trigger] may_infer(infer, t[0].1, t[0].0, Some(v)) && t[1]
                == apply_inference_spec(t[0], v);
        assert(may_infer(infer, f0.to_set(), f0, Some(v)));
        assert(false);
    }
    let e = choose|e: int| #[trigger] min_from(t, e, r);
    let k = choose|k: int| e <= k < t.len() && r == t[k].0;
    assert(k == 0);
}

/// Consuming one target shrinks the multiset by at most one.
proof fn lemma_consume_len<T>(st: (Seq<T>, Set<T>), x: T)
    ensures
        st.0.len() - 1 <= consume_state(st, x).0.len() <= st.0.len(),
{
    st.0.index_of_first_ensures(x);
    if st.0.contains(x) {
        lemma_swap_remove_first_multiset(st.0, x);
    }
}

/// Consuming a list of targets shrinks the multiset by at most one
/// occurrence per target.
proof fn lemma_consume_all_len<T>(st: (Seq<T>, Set<T>), targets: Seq<T>)
    ensures
        st.0.len() - targets.len() <= consume_all(st, targets).0.len() <= st.0.len(),
    decreases targets.len(),
{
    if targets.len() > 0 {
        lemma_consume_len(st, targets[0]);
        lemma_consume_all_len(consume_state(st, targets[0]), targets.drop_first());
    }
}

/// Appending a list of facts grows the multiset by exactly its length.
proof fn lemma_append_all_len<T>(st: (Seq<T>, Set<T>), ts: Seq<T>)
    ensures
        append_all(st, ts).0.len() == st.0.len() + ts.len(),
    decreases ts.len(),
{
    if ts.len() > 0 {
        lemma_append_all_len(append_state(st, ts[0]), ts.drop_first());
    }
}

/// The size discipline of the verb table: a verb removes at most one
/// occurrence per entry of its removal list and adds exactly one
/// occurrence per entry of its addition list.
pub proof fn lemma_apply_size_bounds<T>(st: (Seq<T>, Set<T>), v: Inference<T>)
    ensures
        apply_inference_spec(st, v).0.len() <= st.0.len() + verb_additions(v).len(),
        apply_inference_spec(st, v).0.len() >= st.0.len() - verb_removals(v).len()
            + verb_additions(v).len(),
{
    match v {
        Inference::OneTrue { from } => {
            lemma_consume_len(st, from);
        },
        Inference::ManyTrue { from } => {
            lemma_consume_all_len(st, from@);
        },
        Inference::Simplify { from, to } => {
            lemma_consume_all_len(st, from@);
        },
        Inference::SimplifyOne { from, to } => {
            st.0.index_of_first_ensures(from);
        },
        Inference::SimplifyMany { from, to } => {
            lemma_consume_all_len(st, from@);
            lemma_append_all_len(consume_all(st, from@), to@);
        },
        Inference::Propagate(t) => {},
    }
}

/// Pruning below some position keeps the occurrence counts of facts
/// outside the cache and erases the cached ones, provided every fact
/// above that position is already outside the cache.
proof fn lemma_prune_from_counts<T>(s: Seq<T>, c: Set<T>, i: int, x: T)
    requires
        i < s.len(),
        forall|j: int| i < j < s.len() ==> !c.contains(#[trigger] s[j]),
    ensures
        count_of(prune_from(s, c, i), x) == if c.contains(x) {
            0nat
        } else {
            count_of(s, x)
        },
    decreases i + 1,
{
    broadcast use vstd::multiset::group_multiset_axioms;
    broadcast use vstd::seq_lib::group_to_multiset_ensures;

    if i < 0 {
        if c.contains(x) {
            assert(!s.contains(x));
            assert(count_of(s, x) == 0);
        }
    } else {
        if c.contains(s[i]) {
            let s2 = s.update(i, s.last()).drop_last();
            lemma_swap_remove_at_multiset(s, i);
            assert(forall|j: int|
                i - 1 < j < s2.len() ==> !c.contains(#[trigger] s2[j]));
            lemma_prune_from_counts(s2, c, i - 1, x);
            assert(count_of(s, s[i]) >= 1);
        } else {
            lemma_prune_from_counts(s, c, i - 1, x);
        }
    }
}

/// The checked many-for-many constructor removes exactly the replacement
/// facts the cache already holds: a cached fact does not survive the
/// pruning, and any other fact keeps its number of occurrences.
pub proof fn lemma_prune_counts<T>(s: Seq<T>, c: Set<T>, x: T)
    ensures
        count_of(prune(s, c), x) == if c.contains(x) {
            0nat
        } else {
            count_of(s, x)
        },
{
    lemma_prune_from_counts(s, c, s.len() - 1, x);
}

/// A consume verb naming an absent fact changes nothing: neither the
/// multiset nor the presence set.
pub proof fn lemma_consume_absent_no_change<T>(st: (Seq<T>, Set<T>), x: T)
    requires
        !st.0.contains(x),
    ensures
        apply_inference_spec(st, Inference::OneTrue { from: x }) == st,
{
    broadcast use vstd::seq_lib::group_to_multiset_ensures;

    st.0.index_of_first_ensures(x);
    assert(count_of(st.0, x) == 0);
}

/// Replacing a fact by itself changes nothing: neither the multiset nor
/// the presence set.
pub proof fn lemma_replace_self_no_change<T>(st: (Seq<T>, Set<T>), f: T)
    requires
        cache_consistent(st),
    ensures
        apply_inference_spec(st, Inference::SimplifyOne { from: f, to: f }) == st,
{
    broadcast use vstd::set::group_set_axioms;
    broadcast use vstd::seq_lib::group_to_multiset_ensures;

    st.0.index_of_first_ensures(f);
    if st.0.contains(f) {
        let i = st.0.index_of_first(f).unwrap();
        assert(st.0.update(i, f) =~= st.0);
        assert(st.1.contains(f));
        let post = apply_inference_spec(st, Inference::SimplifyOne { from: f, to: f });
        assert(post.1 =~= st.1);
    }
}

/// Replacing one present copy of a fact by two of it adds exactly one
/// occurrence and leaves the presence set unchanged.
pub proof fn lemma_replace_many_adds_one_copy<T>(
    st: (Seq<T>, Set<T>),
    from: Vec<T>,
    to: Vec<T>,
    x: T,
)
    requires
        cache_consistent(st),
        st.0.contains(x),
        from@ == seq![x],
        to@ == seq![x, x],
    ensures
        apply_inference_spec(st, Inference::SimplifyMany { from, to }).0.to_multiset() == st
            .0.to_multiset().insert(x),
        apply_inference_spec(st, Inference::SimplifyMany { from, to }).1 == st.1,
{
    broadcast use vstd::multiset::group_multiset_axioms;
    broadcast use vstd::seq_lib::group_to_multiset_ensures;
    broadcast use vstd::set::group_set_axioms;

    reveal_with_fuel(consume_all, 2);
    reveal_with_fuel(append_all, 3);
    assert(from@.drop_first() =~= Seq::<T>::empty());
    let mid = consume_state(st, x);
    assert(consume_all(st, from@) == mid);
    lemma_swap_remove_first_multiset(st.0, x);
    assert(to@.drop_first() =~= seq![x]);
    assert(to@.drop_first().drop_first() =~= Seq::<T>::empty());
    let one = append_state(mid, x);
    let two = append_state(one, x);
    assert(append_all(mid, to@) == two);
    assert(two.0.to_multiset() =~= st.0.to_multiset().insert(x));
    assert(st.1.contains(x));
    assert(two.1 =~= st.1);
}

} // verus!
