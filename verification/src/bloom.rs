//! Trusted view of `fastbloom`'s Bloom filter.
//!
//! A filter value is opaque: all the aggregator ever asks of it is which
//! document ids it reports as members.  That answer is a pure function of
//! the filter value (the probed bits and the hasher are both stored in it),
//! so it is modelled as an uninterpreted set of ids.  A Bloom filter never
//! false-negatives, so that set is a superset of what was inserted; the
//! aggregator does not rely on that direction and does not state it.

use vstd::prelude::*;

verus! {

#[verifier::external_type_specification]
#[verifier::external_body]
#[verifier::reject_recursive_types(S)]
pub struct ExBloomFilter<S>(fastbloom::BloomFilter<S>);

/// The set of document ids the filter reports as members: everything that
/// was inserted, plus the false positives its bit pattern happens to admit.
pub uninterp spec fn bloom_accepts(f: fastbloom::BloomFilter<std::collections::hash_map::RandomState>) -> Set<i32>;

/// Relies on `fastbloom::BloomFilter::contains`: a deterministic probe of
/// the filter's bit vector through its stored hasher.
#[verifier::external_body]
pub(crate) fn bloom_contains(f: &fastbloom::BloomFilter<std::collections::hash_map::RandomState>, doc_id: i32) -> (r: bool)
    ensures
        r == bloom_accepts(*f).contains(doc_id),
{
    f.contains(&doc_id)
}

/// The view of one captured Bloom entry: its representative contribution
/// and the member set of its filter.
pub open spec fn bloom_entry_view(p: (i64, fastbloom::BloomFilter<std::collections::hash_map::RandomState>)) -> (i64, Set<i32>) {
    (p.0, bloom_accepts(p.1))
}

/// The view of the Bloom accumulator, in capture order.
pub open spec fn blooms_view(bs: Seq<(i64, fastbloom::BloomFilter<std::collections::hash_map::RandomState>)>) -> Seq<(i64, Set<i32>)> {
    bs.map_values(|p: (i64, fastbloom::BloomFilter<std::collections::hash_map::RandomState>)| bloom_entry_view(p))
}

} // verus!
