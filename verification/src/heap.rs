//! Trusted view of `binary_heap_plus`'s bounded-comparator heap.
//!
//! The finalizer keeps the strongest candidates in a min-heap of
//! `(score, doc_id)` pairs, so the weakest admitted pair is always at the
//! root.  `MinComparator` compares through `Ord`, and `Ord` of a tuple of
//! integers is the documented lexicographic order, so the contracts below
//! speak of `pair_le`.  The heap itself is modelled as the multiset of the
//! pairs it holds.

use vstd::prelude::*;
use vstd::multiset::Multiset;

verus! {

#[verifier::external_type_specification]
#[verifier::external_body]
#[verifier::reject_recursive_types(T)]
#[verifier::reject_recursive_types(C)]
pub struct ExBinaryHeap<T, C>(binary_heap_plus::BinaryHeap<T, C>);

#[verifier::external_type_specification]
#[verifier::external_body]
pub struct ExMinComparator(binary_heap_plus::MinComparator);

/// Lexicographic order on `(score, doc_id)` pairs: the order `Ord` of the
/// tuple implements and the heap comparator uses.
pub open spec fn pair_le(a: (i64, i32), b: (i64, i32)) -> bool {
    a.0 < b.0 || (a.0 == b.0 && a.1 <= b.1)
}

/// Strict version of `pair_le`.
pub open spec fn pair_lt(a: (i64, i32), b: (i64, i32)) -> bool {
    pair_le(a, b) && a != b
}

/// The multiset of pairs a heap holds.
pub uninterp spec fn heap_contents(
    h: binary_heap_plus::BinaryHeap<(i64, i32), binary_heap_plus::MinComparator>,
) -> Multiset<(i64, i32)>;

/// Relies on `binary_heap_plus::BinaryHeap::with_capacity_min`: a new,
/// empty min-heap (the capacity is only an allocation hint).
#[verifier::external_body]
pub(crate) fn heap_with_capacity(cap: usize) -> (h: binary_heap_plus::BinaryHeap<
    (i64, i32),
    binary_heap_plus::MinComparator,
>)
    ensures
        heap_contents(h) == Multiset::<(i64, i32)>::empty(),
{
    binary_heap_plus::BinaryHeap::with_capacity_min(cap)
}

/// Relies on `binary_heap_plus::BinaryHeap::len`: the number of items held.
#[verifier::external_body]
pub(crate) fn heap_len(
    h: &binary_heap_plus::BinaryHeap<(i64, i32), binary_heap_plus::MinComparator>,
) -> (n: usize)
    ensures
        n == heap_contents(*h).len(),
{
    h.len()
}

/// Relies on `binary_heap_plus::BinaryHeap::push`: adds the item.
#[verifier::external_body]
pub(crate) fn heap_push(
    h: &mut binary_heap_plus::BinaryHeap<(i64, i32), binary_heap_plus::MinComparator>,
    item: (i64, i32),
)
    ensures
        heap_contents(*final(h)) == heap_contents(*old(h)).insert(item),
{
    h.push(item)
}

/// Relies on `binary_heap_plus::BinaryHeap::pop`: removes and returns the
/// least item under the comparator (for `MinComparator`, the least pair in
/// lexicographic order), or `None` when the heap is empty.
#[verifier::external_body]
pub(crate) fn heap_pop(
    h: &mut binary_heap_plus::BinaryHeap<(i64, i32), binary_heap_plus::MinComparator>,
) -> (r: Option<(i64, i32)>)
    ensures
        match r {
            None => heap_contents(*old(h)).len() == 0 && heap_contents(*final(h)) == heap_contents(
                *old(h),
            ),
            Some(m) => {
                &&& heap_contents(*old(h)).count(m) > 0
                &&& heap_contents(*final(h)) == heap_contents(*old(h)).remove(m)
                &&& forall|e: (i64, i32)|
                    #[trigger] heap_contents(*old(h)).count(e) > 0 ==> pair_le(m, e)
            },
        },
{
    h.pop()
}

} // verus!
