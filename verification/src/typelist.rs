//! Per-worker advertised request types, held in a fixed-capacity
//! `heapless::Vec` so the topology tables stay allocation-free.

use vstd::prelude::*;
use crate::jobs::RequestType;

verus! {

/// `heapless::Vec` declared for Verus so that it can stand in fields and
/// signatures. Values of it are opaque; [`model`] names their contents.
#[verifier::external_type_specification]
#[verifier::external_body]
#[verifier::reject_recursive_types(T)]
pub struct ExHeaplessVec<T, const N: usize>(heapless::Vec<T, N>);

/// A worker's advertised-type list: at most 8 request types.
pub type TypeList = heapless::Vec<RequestType, 8>;

/// The request types held by an advertised-type list, in insertion order.
pub uninterp spec fn model(v: TypeList) -> Seq<RequestType>;

/// Relies on `heapless::Vec::new`: a freshly constructed vector is empty.
#[verifier::external_body]
pub fn type_list_new() -> (v: TypeList)
    ensures
        model(v) == Seq::<RequestType>::empty(),
{
    heapless::Vec::new()
}

/// Relies on `heapless::Vec::push`: appends the item while the vector holds
/// fewer than its capacity of 8 elements, and rejects it otherwise, leaving
/// the vector unchanged.
#[verifier::external_body]
pub fn type_list_push(v: &mut TypeList, t: RequestType) -> (r: bool)
    ensures
        model(*old(v)).len() < 8 ==> r && model(*final(v)) == model(*old(v)).push(t),
        model(*old(v)).len() >= 8 ==> !r && model(*final(v)) == model(*old(v)),
{
    v.push(t).is_ok()
}

/// Relies on `heapless::Vec::as_slice`: views the stored elements, in order,
/// as a slice.
#[verifier::external_body]
pub fn type_list_as_slice(v: &TypeList) -> (s: &[RequestType])
    ensures
        s@ == model(*v),
{
    v.as_slice()
}

/// Whether `t` is one of the advertised types in `v`.
pub fn type_list_contains(v: &TypeList, t: RequestType) -> (r: bool)
    ensures
        r == model(*v).contains(t),
{
    let s = type_list_as_slice(v);
    let n = s.len();
    let mut i: usize = 0;
    while i < n
        invariant
            n == s@.len(),
            i <= n,
            s@ == model(*v),
            forall|j: int| 0 <= j < i ==> s@[j] != t,
        decreases n - i,
    {
        if s[i] == t {
            return true;
        }
        i += 1;
    }
    false
}

/// The number of advertised types in `v`.
pub fn type_list_len(v: &TypeList) -> (n: usize)
    ensures
        n == model(*v).len(),
{
    let s = type_list_as_slice(v);
    s.len()
}

} // verus!
