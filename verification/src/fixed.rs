//! The fixed-capacity collections of `heapless` that the estimator keeps its
//! state in. Nothing here is proved: each function below makes one call into
//! `heapless`, and its contract says what that crate's source shows.

use crate::signal::Heartbeat;
use heapless::binary_heap::{BinaryHeap, Max};
use vstd::multiset::Multiset;
use vstd::prelude::*;

verus! {

/// How many heartbeats, and how many distances, one analysis cycle keeps.
pub const MAX_HEARTBEATS: usize = 16;

/// `heapless::Vec`, made known so that it can stand in fields and
/// signatures. Nothing is said of what is inside.
#[verifier::external_type_specification]
#[verifier::external_body]
#[verifier::reject_recursive_types(T)]
pub struct ExVec<T, const N: usize>(heapless::Vec<T, N>);

/// `heapless::binary_heap::BinaryHeap`, made known in the same way.
#[verifier::external_type_specification]
#[verifier::external_body]
#[verifier::reject_recursive_types(T)]
#[verifier::reject_recursive_types(K)]
pub struct ExBinaryHeap<T, K, const N: usize>(BinaryHeap<T, K, N>);

/// `heapless::binary_heap::Max`, the marker of a heap whose greatest item
/// is on top.
#[verifier::external_type_specification]
#[verifier::external_body]
pub struct ExMax(Max);

/// The heartbeats that a list holds, first pushed first.
pub uninterp spec fn list_items(list: heapless::Vec<Heartbeat, 16>) -> Seq<Heartbeat>;

/// The distances that a heap holds. A heap keeps no order that a caller can
/// rely on, only which value leaves next.
pub uninterp spec fn heap_items(heap: BinaryHeap<usize, Max, 16>) -> Multiset<usize>;

/// `heapless::Vec::new`: a list that holds nothing.
#[verifier::external_body]
pub(crate) fn list_new() -> (list: heapless::Vec<Heartbeat, 16>)
    ensures
        list_items(list) == Seq::<Heartbeat>::empty(),
{
    heapless::Vec::new()
}

/// `heapless::Vec::push`: appends `hb` while fewer than 16 items are held;
/// a full list stays as it is and hands `hb` back.
#[verifier::external_body]
pub(crate) fn list_push(
    list: &mut heapless::Vec<Heartbeat, 16>,
    hb: Heartbeat,
) -> (r: Result<(), Heartbeat>)
    ensures
        list_items(*old(list)).len() < 16 ==> r is Ok
            && list_items(*final(list)) == list_items(*old(list)).push(hb),
        list_items(*old(list)).len() >= 16 ==> r is Err && r->Err_0 == hb
            && list_items(*final(list)) == list_items(*old(list)),
{
    list.push(hb)
}

/// `heapless::binary_heap::BinaryHeap::new`: a heap that holds nothing.
#[verifier::external_body]
pub(crate) fn heap_new() -> (heap: BinaryHeap<usize, Max, 16>)
    ensures
        heap_items(heap) == Multiset::<usize>::empty(),
{
    BinaryHeap::new()
}

/// `heapless::binary_heap::BinaryHeap::push`: adds `item` while fewer than 16
/// items are held; a full heap stays as it is and hands `item` back.
#[verifier::external_body]
pub(crate) fn heap_push(
    heap: &mut BinaryHeap<usize, Max, 16>,
    item: usize,
) -> (r: Result<(), usize>)
    ensures
        heap_items(*old(heap)).len() < 16 ==> r is Ok
            && heap_items(*final(heap)) == heap_items(*old(heap)).insert(item),
        heap_items(*old(heap)).len() >= 16 ==> r is Err && r->Err_0 == item
            && heap_items(*final(heap)) == heap_items(*old(heap)),
{
    heap.push(item)
}

/// `heapless::binary_heap::BinaryHeap::pop` on a max-heap: takes out one
/// occurrence of the greatest item and returns it; `None`, and no change, on
/// an empty heap.
#[verifier::external_body]
pub(crate) fn heap_pop(heap: &mut BinaryHeap<usize, Max, 16>) -> (r: Option<usize>)
    ensures
        heap_items(*old(heap)).len() == 0 ==> r is None
            && heap_items(*final(heap)) == heap_items(*old(heap)),
        heap_items(*old(heap)).len() > 0 ==> {
            &&& r is Some
            &&& heap_items(*old(heap)).count(r->0) > 0
            &&& forall|x: usize| heap_items(*old(heap)).count(x) > 0 ==> x <= r->0
            &&& heap_items(*final(heap)) == heap_items(*old(heap)).remove(r->0)
        },
{
    heap.pop()
}

/// `heapless::binary_heap::BinaryHeap::len`: how many items are held.
#[verifier::external_body]
pub(crate) fn heap_len(heap: &BinaryHeap<usize, Max, 16>) -> (n: usize)
    ensures
        n == heap_items(*heap).len(),
{
    heap.len()
}

/// `heapless::binary_heap::BinaryHeap::is_empty`: whether nothing is held.
#[verifier::external_body]
pub(crate) fn heap_is_empty(heap: &BinaryHeap<usize, Max, 16>) -> (b: bool)
    ensures
        b == (heap_items(*heap).len() == 0),
{
    heap.is_empty()
}

} // verus!
