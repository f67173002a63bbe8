//! A linear fact-rewriting solver: a fixpoint engine that repeatedly applies
//! a caller-supplied inference function to a multiset of facts until the
//! multiset settles into a recurring cycle, then reports the smallest
//! multiset observed in that cycle.

mod cache;
mod filter;
mod laws;
mod mutate;
mod solver;
mod verbs;

pub use cache::Cache;
pub use cache::clone_exact;
pub use cache::eq_exact;
pub use laws::lemma_apply_no_spontaneous_facts;
pub use laws::lemma_apply_preserves_consistency;
pub use laws::lemma_apply_size_bounds;
pub use laws::lemma_consume_absent_no_change;
pub use laws::lemma_initial_cache_consistent;
pub use laws::lemma_noop_idempotent;
pub use laws::lemma_prune_counts;
pub use laws::lemma_replace_many_adds_one_copy;
pub use laws::lemma_replace_self_no_change;
pub use laws::lemma_trace_cache_correct;
pub use laws::lemma_trace_no_spontaneous_facts;
pub use mutate::append_all;
pub use mutate::append_state;
pub use mutate::append_with_cache;
pub use mutate::apply_inference;
pub use mutate::apply_inference_spec;
pub use mutate::cache_consistent;
pub use mutate::consume_all;
pub use mutate::consume_state;
pub use mutate::count_of;
pub use mutate::overwrite_first;
pub use mutate::remove_occurrence;
pub use mutate::remove_occurrences;
pub use mutate::replace_first_unique;
pub use mutate::replace_state;
pub use mutate::swap_remove_first;
pub use solver::MAX_ITERATIONS;
pub use solver::infer_step;
pub use solver::may_infer;
pub use solver::min_from;
pub use solver::min_of_suffix;
pub use solver::solve_minimum;
pub use solver::valid_trace;
pub use verbs::Inference;
pub use verbs::prune;
pub use verbs::prune_from;
pub use verbs::verb_additions;
pub use verbs::verb_removals;
