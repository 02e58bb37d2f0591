//! The operand stack: a fixed-capacity vector of `i32` from the `arrayvec`
//! crate, seen by the verifier through a small trusted boundary.
//!
//! The contents of an `ArrayVec` are named by the uninterpreted function
//! [`stack_seq`]; the wrappers below state, over that name, exactly what the
//! crate's source shows of each call.

use vstd::prelude::*;

verus! {

/// The operand stack's fixed capacity, in slots.
pub const STACK_CAPACITY: usize = 512;

#[verifier::external_type_specification]
#[verifier::external_body]
#[verifier::reject_recursive_types(T)]
pub struct ExArrayVec<T, const CAP: usize>(arrayvec::ArrayVec<T, CAP>);

/// The elements an operand stack holds, bottom first.
pub uninterp spec fn stack_seq(v: arrayvec::ArrayVec<i32, 512>) -> Seq<i32>;

/// Relies on `arrayvec::ArrayVec::new`: creates an empty vector.
#[verifier::external_body]
pub(crate) fn stack_new() -> (r: arrayvec::ArrayVec<i32, 512>)
    ensures
        stack_seq(r) == Seq::<i32>::empty(),
{
    arrayvec::ArrayVec::new()
}

/// Relies on `arrayvec::ArrayVec::try_push`: appends the element at the end
/// when the length is below the capacity, and reports an error otherwise,
/// leaving the vector as it was.
#[verifier::external_body]
pub(crate) fn stack_try_push(s: &mut arrayvec::ArrayVec<i32, 512>, v: i32) -> (ok: bool)
    ensures
        stack_seq(*old(s)).len() < STACK_CAPACITY ==> ok && stack_seq(*final(s)) == stack_seq(
            *old(s),
        ).push(v),
        stack_seq(*old(s)).len() >= STACK_CAPACITY ==> !ok && stack_seq(*final(s)) == stack_seq(*old(s)),
{
    s.try_push(v).is_ok()
}

/// Relies on `arrayvec::ArrayVec::pop`: removes and returns the last element,
/// or returns `None` on an empty vector, which it leaves as it was.
#[verifier::external_body]
pub(crate) fn stack_pop(s: &mut arrayvec::ArrayVec<i32, 512>) -> (r: Option<i32>)
    ensures
        stack_seq(*old(s)).len() == 0 ==> r == None::<i32> && stack_seq(*final(s)) == stack_seq(*old(s)),
        stack_seq(*old(s)).len() > 0 ==> r == Some(stack_seq(*old(s)).last()) && stack_seq(*final(s))
            == stack_seq(*old(s)).drop_last(),
{
    s.pop()
}

} // verus!
