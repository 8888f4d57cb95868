//! The filter's bit array: `bit_vec::BitVec`, behind trusted declarations.
//!
//! The contents of a `BitVec` are modelled as a `Seq<bool>`, and each method
//! the filter calls gets a wrapper whose contract states, over that model,
//! what the crate's source shows the method does.

use bit_vec::BitVec;
use vstd::prelude::*;

verus! {

/// `bit_vec::BitVec`, declared so that it can stand in the filter's fields.
#[verifier::external_type_specification]
#[verifier::external_body]
#[verifier::reject_recursive_types(B)]
pub struct ExBitVec<B>(BitVec<B>);

/// The bits that a `BitVec` holds, in order.
pub uninterp spec fn bits_of(bv: BitVec) -> Seq<bool>;

/// Relies on `BitVec::from_elem(len, false)`: a vector of `len` bits, each
/// `false`.
#[verifier::external_body]
pub(crate) fn bits_new(len: usize) -> (bv: BitVec)
    ensures
        bits_of(bv) == Seq::new(len as nat, |i: int| false),
{
    BitVec::from_elem(len, false)
}

/// Relies on `BitVec::set`: writes one bit in place; panics only on an
/// out-of-range index, which the precondition rules out.
#[verifier::external_body]
pub(crate) fn bits_set(bv: &mut BitVec, i: usize)
    requires
        i < bits_of(*old(bv)).len(),
    ensures
        bits_of(*final(bv)) == bits_of(*old(bv)).update(i as int, true),
    no_unwind
{
    bv.set(i, true);
}

/// Relies on `BitVec::get`: `Some` of the bit at an in-range index, `None`
/// past the end.
#[verifier::external_body]
pub(crate) fn bits_get(bv: &BitVec, i: usize) -> (r: Option<bool>)
    ensures
        r == (if i < bits_of(*bv).len() {
            Some(bits_of(*bv)[i as int])
        } else {
            None::<bool>
        }),
{
    bv.get(i)
}

/// Relies on `BitVec::fill(false)`: every bit becomes `false`, the length is
/// kept, and nothing panics.
#[verifier::external_body]
pub(crate) fn bits_clear(bv: &mut BitVec)
    ensures
        bits_of(*final(bv)) == Seq::new(bits_of(*old(bv)).len(), |i: int| false),
    no_unwind
{
    bv.fill(false);
}

/// Relies on `BitVec::len`: the number of bits.
#[verifier::external_body]
pub(crate) fn bits_len(bv: &BitVec) -> (n: usize)
    ensures
        n == bits_of(*bv).len(),
{
    bv.len()
}

/// Relies on `BitVec::none`: `true` exactly when no bit is set.
#[verifier::external_body]
pub(crate) fn bits_none(bv: &BitVec) -> (r: bool)
    ensures
        r == (forall|i: int| 0 <= i < bits_of(*bv).len() ==> !bits_of(*bv)[i]),
{
    bv.none()
}

} // verus!
