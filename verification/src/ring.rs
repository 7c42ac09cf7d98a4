use vstd::prelude::*;
use arrayvec::ArrayVec;
use crate::sae_types::SaeTime;

verus! {

pub const RING_CAPACITY: usize = 20;

#[verifier::external_type_specification]
#[verifier::external_body]
#[verifier::reject_recursive_types(T)]
pub struct ExArrayVec<T, const CAP: usize>(ArrayVec<T, CAP>);

pub type RingVals = ArrayVec<SaeTime, RING_CAPACITY>;

/// The timestamps that a ring buffer holds, in the order they were pushed.
pub uninterp spec fn ring_vals(r: RingVals) -> Seq<SaeTime>;

/// Calls `ArrayVec::new`: the new buffer is empty.
#[verifier::external_body]
pub(crate) fn ring_new() -> (r: RingVals)
    ensures
        ring_vals(r) == Seq::<SaeTime>::empty(),
{
    ArrayVec::new()
}

/// Calls `ArrayVec::push`, which panics on a full buffer: below capacity, the
/// element is appended.
#[verifier::external_body]
pub(crate) fn ring_push(r: &mut RingVals, t: SaeTime)
    requires
        ring_vals(*old(r)).len() < RING_CAPACITY,
    ensures
        ring_vals(*final(r)) == ring_vals(*old(r)).push(t),
{
    r.push(t)
}

/// Calls `ArrayVec::as_slice`: the slice holds the buffer's elements in order.
#[verifier::external_body]
pub(crate) fn ring_as_slice(r: &RingVals) -> (s: &[SaeTime])
    ensures
        s@ == ring_vals(*r),
{
    r.as_slice()
}

} // verus!
