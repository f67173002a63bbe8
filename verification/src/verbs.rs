//! The inference verbs: the closed set of rewrite actions a rule function
//! may return, and the cache-aware convenience constructors that route a
//! replacement through the presence set.

use vstd::prelude::*;

use crate::cache::Cache;
use crate::cache::eq_exact;

verus! {

/// Tells the solver how to treat inference.
pub enum Inference<T> {
    /// Consumes `from` while producing nothing.
    OneTrue {
        /// Fact to remove from context.
        from: T,
    },
    /// Consumes all `from` while producing nothing.
    ManyTrue {
        /// Facts to remove from context to be replaced by nothing.
        from: Vec<T>,
    },
    /// Consumes `from` and replaces it with `to`.
    Simplify {
        /// Facts to remove from context.
        from: Vec<T>,
        /// Fact to replace removed facts.
        to: T,
    },
    /// Consumes `from` and replaces it with `to`.
    SimplifyOne {
        /// Fact to remove from context.
        from: T,
        /// Fact to replace removed fact.
        to: T,
    },
    /// Consumes all `from` while producing multiple facts `to`.
    SimplifyMany {
        /// Facts to remove from context to be replaced by new ones.
        from: Vec<T>,
        /// Multiple facts to be added to context.
        to: Vec<T>,
    },
    /// Add new fact.
    Propagate(T),
}

/// The facts a verb asks the solver to remove, one occurrence each.
pub open spec fn verb_removals<T>(v: Inference<T>) -> Seq<T> {
    match v {
        Inference::OneTrue { from } => seq![from],
        Inference::ManyTrue { from } => from@,
        Inference::Simplify { from, to } => from@,
        Inference::SimplifyOne { from, to } => seq![from],
        Inference::SimplifyMany { from, to } => from@,
        Inference::Propagate(t) => Seq::empty(),
    }
}

/// The facts a verb asks the solver to add, one occurrence each.
pub open spec fn verb_additions<T>(v: Inference<T>) -> Seq<T> {
    match v {
        Inference::OneTrue { from } => Seq::empty(),
        Inference::ManyTrue { from } => Seq::empty(),
        Inference::Simplify { from, to } => seq![to],
        Inference::SimplifyOne { from, to } => seq![to],
        Inference::SimplifyMany { from, to } => to@,
        Inference::Propagate(t) => seq![t],
    }
}

/// The replacement facts that survive `Inference::replace_many`: walking
/// the positions from the highest down, a fact already present in the
/// cache is swap-removed (the tail element falls into its place).
pub open spec fn prune_from<T>(s: Seq<T>, cache: Set<T>, i: int) -> Seq<T>
    decreases i + 1,
{
    if i < 0 {
        s
    } else {
        let s2 = if 0 <= i < s.len() && cache.contains(s[i]) {
            s.update(i, s.last()).drop_last()
        } else {
            s
        };
        prune_from(s2, cache, i - 1)
    }
}

/// The replacement facts that survive `Inference::replace_many`.
pub open spec fn prune<T>(s: Seq<T>, cache: Set<T>) -> Seq<T> {
    prune_from(s, cache, s.len() - 1)
}

impl<T: Eq + core::hash::Hash> Inference<T> {
    /// Replace `from` with `to`, checking the cache.
    ///
    /// Returns `OneTrue` if `to` already exists,
    /// and `SimplifyOne` if `to` does not exist.
    pub fn replace_one(from: T, to: T, cache: &Cache<T>) -> (r: Self)
        requires
            eq_exact::<T>(),
        ensures
            r == if cache@.contains(to) {
                Inference::OneTrue { from }
            } else {
                Inference::SimplifyOne { from, to }
            },
    {
        if cache.contains(&to) {
            Inference::OneTrue { from }
        } else {
            Inference::SimplifyOne { from, to }
        }
    }

    /// Replace `from` with `to`, checking the cache.
    ///
    /// Returns `ManyTrue` if `to` already exists,
    /// and `Simplify` if `to` does not exist.
    pub fn replace(from: Vec<T>, to: T, cache: &Cache<T>) -> (r: Self)
        requires
            eq_exact::<T>(),
        ensures
            r == if cache@.contains(to) {
                Inference::ManyTrue { from }
            } else {
                Inference::Simplify { from, to }
            },
    {
        if cache.contains(&to) {
            Inference::ManyTrue { from }
        } else {
            Inference::Simplify { from, to }
        }
    }

    /// Replace `from` with `to`, checking the cache.
    ///
    /// Returns modified `SimplifyMany` where existing terms are removed.
    pub fn replace_many(from: Vec<T>, to: Vec<T>, cache: &Cache<T>) -> (r: Self)
        requires
            eq_exact::<T>(),
        ensures
            (r matches Inference::SimplifyMany { from: rf, to: rt }
                && rf == from
                && rt@ == prune(to@, cache@)),
    {
        let ghost to0 = to@;
        let mut to = to;
        let mut i: usize = to.len();
        while i > 0
            invariant
                eq_exact::<T>(),
                i <= to@.len(),
                prune(to0, cache@) == prune_from(to@, cache@, i - 1),
            decreases i,
        {
            i -= 1;
            if cache.contains(&to[i]) {
                to.swap_remove(i);
            }
        }
        Inference::SimplifyMany { from, to }
    }
}

} // verus!
