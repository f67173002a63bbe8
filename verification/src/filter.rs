//! The fingerprint filter: an approximate-membership structure over whole
//! fact multisets, used to detect that the driver has entered and then
//! closed a cycle.
//!
//! The filter comes from the `bloom` crate and hashes each multiset with
//! builders seeded afresh at construction, so its answers cannot be
//! stated as a function of what was recorded: a reported recurrence may
//! be a false positive, and two runs may answer differently. The driver
//! is therefore verified for every answer the filter can give; no proof
//! in this crate leans on a filter answer being right.

use vstd::prelude::*;

use bloom::ASMS;

verus! {

#[verifier::external_type_specification]
#[verifier::external_body]
#[verifier::reject_recursive_types(R)]
#[verifier::reject_recursive_types(S)]
pub struct ExBloomFilter<R, S>(bloom::BloomFilter<R, S>);

/// Bits in a fresh filter: the size `bloom` computes for a false-positive
/// probability of one in a hundred million at up to ten million recorded
/// multisets — about forty-six megabytes — so that a spurious recurrence
/// never happens in practice.
const FILTER_BITS: usize = 383_402_336;

/// Hash probes per record: the optimum for that size and capacity.
const FILTER_HASHES: u32 = 27;

/// Relies on bloom::BloomFilter::with_size for a filter with no record
/// yet; nothing is stated of it, since no proof may lean on its answers.
#[verifier::external_body]
pub(crate) fn filter_new() -> bloom::BloomFilter {
    bloom::BloomFilter::with_size(FILTER_BITS, FILTER_HASHES)
}

/// Relies on bloom::BloomFilter::contains (trait bloom::ASMS): whether
/// the fact sequence looks recorded. The answer may be a false positive
/// and is treated as arbitrary: nothing is stated of it.
#[verifier::external_body]
pub(crate) fn filter_contains<T: core::hash::Hash>(
    filter: &bloom::BloomFilter,
    facts: &Vec<T>,
) -> bool {
    filter.contains(facts)
}

/// Relies on bloom::BloomFilter::insert (trait bloom::ASMS): records the
/// fact sequence. Nothing is stated of the filter's contents.
#[verifier::external_body]
pub(crate) fn filter_insert<T: core::hash::Hash>(filter: &mut bloom::BloomFilter, facts: &Vec<T>) {
    filter.insert(facts);
}

} // verus!
