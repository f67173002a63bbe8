//! The presence set: a set of facts that answers "does at least one
//! occurrence of this fact exist in the multiset?" in support of rule
//! authors and of the cache-aware verb constructors.
//!
//! The engine is parametric in the fact type, so the set is kept as a
//! duplicate-free vector scanned with the fact type's own `==`.

use vstd::prelude::*;
use vstd::std_specs::cmp::PartialEqSpec;

verus! {

/// The fact type's `eq` decides spec-level equality of values.
///
/// This is the formal reading of "facts support value equality": what
/// the executable `==` answers is exactly whether the two values are
/// equal.
pub open spec fn eq_exact<T: PartialEq>() -> bool {
    &&& T::obeys_eq_spec()
    &&& forall|x: T, y: T| #[trigger] x.eq_spec(&y) <==> x == y
}

/// Cloning a fact yields the fact itself.
///
/// This is the formal reading of "facts support clone-on-write": a
/// clone is indistinguishable from its original.
pub open spec fn clone_exact<T: Clone>() -> bool {
    forall|x: T, y: T| #[trigger] cloned::<T>(x, y) ==> y == x
}

/// The presence set maintained alongside the fact multiset.
///
/// It is strictly a decision oracle — "is any copy of `x` present?" —
/// and never a multiplicity counter.
pub struct Cache<T> {
    items: Vec<T>,
}

impl<T> View for Cache<T> {
    type V = Set<T>;

    closed spec fn view(&self) -> Set<T> {
        self.items@.to_set()
    }
}

impl<T: PartialEq> Cache<T> {
    /// The backing vector holds each member exactly once.
    pub closed spec fn wf(&self) -> bool {
        forall|i: int, j: int|
            0 <= i < j < self.items@.len() ==> self.items@[i] != self.items@[j]
    }

    /// An empty presence set.
    pub fn new() -> (r: Self)
        ensures
            r@ == Set::<T>::empty(),
            r.wf(),
    {
        let r = Cache { items: Vec::new() };
        proof {
            assert(r@ =~= Set::<T>::empty());
        }
        r
    }

    /// Whether any occurrence of `x` is present.
    pub fn contains(&self, x: &T) -> (r: bool)
        requires
            eq_exact::<T>(),
        ensures
            r == self@.contains(*x),
    {
        let n = self.items.len();
        let mut i: usize = 0;
        while i < n
            invariant
                eq_exact::<T>(),
                n == self.items@.len(),
                0 <= i <= n,
                forall|j: int| 0 <= j < i ==> self.items@[j] != *x,
            decreases n - i,
        {
            if self.items[i] == *x {
                return true;
            }
            i += 1;
        }
        false
    }

    /// Record that an occurrence of `x` is now present.
    pub(crate) fn insert(&mut self, x: T)
        requires
            eq_exact::<T>(),
            old(self).wf(),
        ensures
            final(self)@ == old(self)@.insert(x),
            final(self).wf(),
    {
        if !self.contains(&x) {
            proof {
                lemma_to_set_push(self.items@, x);
            }
            self.items.push(x);
        } else {
            proof {
                assert(self@ =~= old(self)@.insert(x));
            }
        }
    }

    /// Record that no occurrence of `x` is present any more.
    pub(crate) fn remove(&mut self, x: &T)
        requires
            eq_exact::<T>(),
            old(self).wf(),
        ensures
            final(self)@ == old(self)@.remove(*x),
            final(self).wf(),
    {
        let n = self.items.len();
        let mut i: usize = 0;
        while i < n
            invariant
                eq_exact::<T>(),
                old(self).wf(),
                *self == *old(self),
                n == self.items@.len(),
                0 <= i <= n,
                forall|j: int| 0 <= j < i ==> self.items@[j] != *x,
            decreases n - i,
        {
            if self.items[i] == *x {
                let ghost s = self.items@;
                self.items.swap_remove(i);
                proof {
                    lemma_unique_swap_remove_to_set(s, i as int, *x);
                }
                return ;
            }
            i += 1;
        }
        proof {
            assert(!self@.contains(*x));
            assert(self@ =~= old(self)@.remove(*x));
        }
    }

    /// Build the presence set of a fact multiset: one entry for each
    /// distinct fact that occurs in it.
    pub fn from_facts(facts: &Vec<T>) -> (r: Self) where T: Clone
        requires
            eq_exact::<T>(),
            clone_exact::<T>(),
        ensures
            r@ == facts@.to_set(),
            r.wf(),
    {
        let mut r = Cache::new();
        let n = facts.len();
        let mut i: usize = 0;
        while i < n
            invariant
                eq_exact::<T>(),
                clone_exact::<T>(),
                n == facts@.len(),
                0 <= i <= n,
                r@ == facts@.take(i as int).to_set(),
                r.wf(),
            decreases n - i,
        {
            let c = facts[i].clone();
            proof {
                assert(cloned::<T>(facts@[i as int], c));
                assert(facts@.take(i + 1) =~= facts@.take(i as int).push(facts@[i as int]));
                lemma_to_set_push(facts@.take(i as int), facts@[i as int]);
            }
            r.insert(c);
            i += 1;
        }
        proof {
            assert(facts@.take(n as int) =~= facts@);
        }
        r
    }
}

/// Appending an element to a sequence adds exactly it to the element set.
proof fn lemma_to_set_push<T>(s: Seq<T>, x: T)
    ensures
        s.push(x).to_set() == s.to_set().insert(x),
{
    assert(s.push(x).to_set() =~= s.to_set().insert(x)) by {
        assert forall|y: T| s.push(x).contains(y) implies s.to_set().insert(x).contains(y) by {
            let k = choose|k: int| 0 <= k < s.push(x).len() && s.push(x)[k] == y;
            if k < s.len() {
                assert(s[k] == y);
            }
        }
        assert forall|y: T| s.to_set().insert(x).contains(y) implies s.push(x).contains(y) by {
            if y == x {
                assert(s.push(x)[s.len() as int] == y);
            } else {
                let k = choose|k: int| 0 <= k < s.len() && s[k] == y;
                assert(s.push(x)[k] == y);
            }
        }
    }
}

/// Swap-removing the sole occurrence of `x` in a duplicate-free sequence
/// takes exactly `x` out of the element set and keeps the rest
/// duplicate-free.
proof fn lemma_unique_swap_remove_to_set<T>(s: Seq<T>, i: int, x: T)
    requires
        0 <= i < s.len(),
        s[i] == x,
        forall|p: int, q: int| 0 <= p < q < s.len() ==> s[p] != s[q],
    ensures
        s.update(i, s.last()).drop_last().to_set() == s.to_set().remove(x),
        forall|p: int, q: int|
            0 <= p < q < s.update(i, s.last()).drop_last().len()
                ==> s.update(i, s.last()).drop_last()[p] != s.update(i, s.last()).drop_last()[q],
{
    let n = s.len() as int;
    let t = s.update(i, s.last()).drop_last();
    assert(t.len() == n - 1);
    assert(forall|k: int| 0 <= k < n - 1 ==> t[k] == (if k == i { s[n - 1] } else { s[k] }));
    assert(t.to_set() =~= s.to_set().remove(x)) by {
        assert forall|y: T| t.contains(y) implies s.to_set().remove(x).contains(y) by {
            let k = choose|k: int| 0 <= k < t.len() && t[k] == y;
            if k == i {
                assert(s[n - 1] == y);
            } else {
                assert(s[k] == y);
            }
        }
        assert forall|y: T| s.to_set().remove(x).contains(y) implies t.contains(y) by {
            let k = choose|k: int| 0 <= k < s.len() && s[k] == y;
            if k < n - 1 {
                if k == i {
                    assert(t[i] == s[n - 1]);
                    assert(s[i] == y && y != x);
                } else {
                    assert(t[k] == y);
                }
            } else {
                assert(i < n - 1);
                assert(t[i] == y);
            }
        }
    }
}

} // verus!
