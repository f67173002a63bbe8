//! The fixpoint driver: solicit one inference verb at a time, apply it,
//! fingerprint the multiset, and watch for a repeated fingerprint — first
//! to enter the minimum search, then to close the cycle and report the
//! smallest multiset seen in it.

use vstd::prelude::*;

use crate::cache::Cache;
use crate::cache::clone_exact;
use crate::cache::eq_exact;
use crate::filter::filter_contains;
use crate::filter::filter_insert;
use crate::filter::filter_new;
use crate::mutate::apply_inference;
use crate::mutate::apply_inference_spec;
use crate::verbs::Inference;

verus! {

/// Whether `out` is an answer the inference function can give when shown
/// a presence set viewing `cache` and a fact sequence viewing `facts`.
pub open spec fn may_infer<T, F: Fn(&Cache<T>, &[T]) -> Option<Inference<T>>>(
    infer: F,
    cache: Set<T>,
    facts: Seq<T>,
    out: Option<Inference<T>>,
) -> bool {
    exists|c: &Cache<T>, fs: &[T]|
        c@ == cache && fs@ == facts && #[trigger] call_ensures(infer, (c, fs), out)
}

/// One driver step: some verb the inference function may return on the
/// pre state turns it into the post state.
pub open spec fn infer_step<T, F: Fn(&Cache<T>, &[T]) -> Option<Inference<T>>>(
    infer: F,
    pre: (Seq<T>, Set<T>),
    post: (Seq<T>, Set<T>),
) -> bool {
    exists|v: Inference<T>|
        #[trigger] may_infer(infer, pre.1, pre.0, Some(v)) && post == apply_inference_spec(pre, v)
}

/// A possible run of the driver on `infer`: each state is joined to the
/// next by a step.
pub open spec fn valid_trace<T, F: Fn(&Cache<T>, &[T]) -> Option<Inference<T>>>(
    infer: F,
    t: Seq<(Seq<T>, Set<T>)>,
) -> bool {
    forall|i: int, j: int|
        0 <= i && j == i + 1 && j < t.len() ==> #[trigger] infer_step(infer, t[i], t[j])
}

/// `r` is the fact sequence of some state from position `e` on, and no
/// state from position `e` on holds fewer facts.
pub open spec fn min_from<T>(t: Seq<(Seq<T>, Set<T>)>, e: int, r: Seq<T>) -> bool {
    &&& 0 <= e < t.len()
    &&& exists|k: int| e <= k < t.len() && r == (#[trigger] t[k]).0
    &&& forall|j: int| e <= j < t.len() ==> (#[trigger] t[j]).0.len() >= r.len()
}

/// `r` is a smallest fact sequence over some whole suffix of the run.
pub open spec fn min_of_suffix<T>(t: Seq<(Seq<T>, Set<T>)>, r: Seq<T>) -> bool {
    exists|e: int| #[trigger] min_from(t, e, r)
}

enum State<T> {
    // Infer new facts.
    Solving,
    // Go to a state where the least amount of facts were present.
    SearchMinimum(Vec<T>),
}

/// An exact copy of the fact multiset.
fn clone_facts<T: Clone>(v: &Vec<T>) -> (r: Vec<T>)
    requires
        clone_exact::<T>(),
    ensures
        r@ == v@,
{
    let r = v.clone();
    proof {
        assert forall|i: int| 0 <= i < r@.len() implies r@[i] == v@[i] by {
            assert(cloned::<T>(v@[i], r@[i]));
        }
        assert(r@ =~= v@);
    }
    r
}

/// The safety cap on driver iterations: after this many verbs the engine
/// stops and returns the facts it holds. At one iteration per nanosecond
/// the cap lies more than five hundred years out, so a rule set that the
/// engine can settle at all settles first.
pub const MAX_ITERATIONS: u64 = 0xffff_ffff_ffff_ffff;

/// Solves the starting condition using the `infer` function for inference.
///
/// Assumes that `infer` is deterministic and leading to a cycle for every
/// input. Finds the minimum set of facts in the cycle. A rule set that
/// neither stops nor cycles runs until the iteration safety cap
/// (`MAX_ITERATIONS`) is spent, and the facts held at that point are
/// returned.
///
/// The contract pins the result to the inference function alone: the
/// returned facts are a state of some run of `infer`-sanctioned verbs
/// from the start state, a smallest state over a whole suffix of that
/// run — the observed cycle, when the fingerprint filter answered
/// truthfully — and the run ended for one of the three reasons the
/// engine knows: the rules may decline at the final state, a cycle
/// closed at least one step after the minimum search began, or the
/// iteration cap was spent.
#[verifier::loop_isolation(false)]
pub fn solve_minimum<T, F>(facts: Vec<T>, infer: F) -> (r: Vec<T>) where
    T: Clone + PartialEq + Eq + core::hash::Hash,
    F: Fn(&Cache<T>, &[T]) -> Option<Inference<T>>,

    requires
        eq_exact::<T>(),
        clone_exact::<T>(),
        forall|c: &Cache<T>, fs: &[T]| #[trigger] call_requires(infer, (c, fs)),
    ensures
        exists|t: Seq<(Seq<T>, Set<T>)>|
            {
                &&& #[trigger] valid_trace(infer, t)
                &&& t.len() >= 1
                &&& t[0] == (facts@, facts@.to_set())
                &&& min_of_suffix(t, r@)
                &&& {
                    ||| (r@ == t.last().0 && may_infer(
                        infer,
                        t.last().1,
                        t.last().0,
                        None::<Inference<T>>,
                    ))
                    ||| exists|e: int| 0 <= e <= t.len() - 2 && #[trigger] min_from(t, e, r@)
                    ||| t.len() == MAX_ITERATIONS as int + 1
                }
            },
{
    let ghost f0 = facts@;
    let mut cur = facts;
    let mut cache = Cache::from_facts(&cur);
    let ghost mut trace: Seq<(Seq<T>, Set<T>)> = seq![(cur@, cache@)];
    let ghost mut entry: int = 0;

    // Bloom filter of previous sets of facts, used to detect whether a
    // given set of facts has already been inferred.
    let mut filter = filter_new();
    let mut state: State<T> = State::Solving;
    let mut fuel: u64 = MAX_ITERATIONS;

    loop
        invariant
            eq_exact::<T>(),
            clone_exact::<T>(),
            forall|c: &Cache<T>, fs: &[T]| #[trigger] call_requires(infer, (c, fs)),
            cache.wf(),
            trace.len() >= 1,
            trace[0] == (f0, f0.to_set()),
            trace.last() == (cur@, cache@),
            valid_trace(infer, trace),
            trace.len() + fuel == MAX_ITERATIONS as int + 1,
            match state {
                State::Solving => true,
                State::SearchMinimum(b) => {
                    &&& 0 <= entry <= trace.len() - 2
                    &&& exists|k: int| entry <= k < trace.len() && b@ == (#[trigger] trace[k]).0
                    &&& forall|j: int|
                        entry <= j < trace.len() - 1 ==> (#[trigger] trace[j]).0.len() >= b@.len()
                },
            },
        decreases fuel,
    {
        if fuel == 0 {
            proof {
                assert(trace.last().0 == cur@);
                assert(min_from(trace, trace.len() - 1, cur@));
                assert(trace.len() == MAX_ITERATIONS as int + 1);
            }
            return cur;
        }
        fuel = fuel - 1;
        let repeat = filter_contains(&filter, &cur);
        state = match state {
            State::Solving => {
                if repeat {
                    proof {
                        entry = trace.len() - 1;
                    }
                    filter = filter_new();
                    State::SearchMinimum(clone_facts(&cur))
                } else {
                    State::Solving
                }
            },
            State::SearchMinimum(fa) => {
                if repeat {
                    // Completed cycle, minimum set of facts is found.
                    proof {
                        assert(trace.last().0 == cur@);
                    }
                    if fa.len() < cur.len() {
                        proof {
                            assert(min_from(trace, entry, fa@));
                        }
                        return fa;
                    } else {
                        proof {
                            assert(min_from(trace, entry, cur@));
                        }
                        return cur;
                    }
                } else if cur.len() < fa.len() {
                    // Found less amounts of facts in cycle.
                    State::SearchMinimum(clone_facts(&cur))
                } else {
                    State::SearchMinimum(fa)
                }
            },
        };
        proof {
            match &state {
                State::Solving => {},
                State::SearchMinimum(b) => {
                    assert(trace.last().0 == cur@);
                    assert(b@.len() <= cur@.len());
                    assert(exists|k: int| entry <= k < trace.len() && b@ == (#[trigger] trace[k]).0);
                    assert(forall|j: int|
                        entry <= j < trace.len() ==> (#[trigger] trace[j]).0.len() >= b@.len());
                },
            }
        }
        filter_insert(&mut filter, &cur);
        let s = cur.as_slice();
        let out = infer(&cache, s);
        match out {
            Some(v) => {
                let ghost gv = v;
                let ghost pre = (cur@, cache@);
                proof {
                    assert(call_ensures(infer, (&cache, s), Some(gv)));
                    assert(may_infer(infer, pre.1, pre.0, Some(gv)));
                }
                apply_inference(&mut cur, &mut cache, v);
                proof {
                    let told = trace;
                    assert(infer_step(infer, pre, (cur@, cache@)));
                    trace = trace.push((cur@, cache@));
                    assert(trace.last() == (cur@, cache@));
                    assert forall|i: int, j: int|
                        0 <= i && j == i + 1 && j < trace.len() implies #[trigger] infer_step(
                        infer,
                        trace[i],
                        trace[j],
                    ) by {
                        if j < told.len() {
                            assert(infer_step(infer, told[i], told[j]));
                        } else {
                            assert(trace[i] == pre);
                            assert(trace[j] == (cur@, cache@));
                        }
                    }
                    match &state {
                        State::Solving => {},
                        State::SearchMinimum(b) => {
                            let k = choose|k: int| entry <= k < told.len() && b@ == told[k].0;
                            assert(trace[k] == told[k]);
                            assert(b@ == trace[k].0);
                            assert forall|j: int| entry <= j < trace.len() - 1 implies (
                            #[trigger] trace[j]).0.len() >= b@.len() by {
                                assert(trace[j] == told[j]);
                            }
                        },
                    }
                }
            },
            None => {
                proof {
                    assert(trace.last().0 == cur@);
                    assert(min_from(trace, trace.len() - 1, cur@));
                    assert(call_ensures(infer, (&cache, s), None::<Inference<T>>));
                    assert(may_infer(infer, cache@, cur@, None::<Inference<T>>));
                }
                return cur;
            },
        }
    }
}

} // verus!
