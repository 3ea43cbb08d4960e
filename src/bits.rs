//! The bit array of the adaptive filter: bitvec's `BitVec`, seen through its
//! contents.
use bitvec::vec::BitVec;
use vstd::prelude::*;

verus! {

/// A bitvec `BitVec` (`usize` storage, least significant bit first). Verus
/// cannot take bitvec's own type in a declaration, so it stands in a private
/// field here; everything the filter does with it goes through the functions
/// below.
#[verifier::external_body]
pub struct BitArray {
    inner: BitVec,
}

/// The bits that a bit array holds, in index order.
pub uninterp spec fn bits_of(v: BitArray) -> Seq<bool>;

/// The longest bit vector that bitvec can encode.
pub const MAX_BITS: usize = usize::MAX >> 3;

/// Relies on `BitVec::repeat`: `len` copies of `bit`. It panics above
/// `BitSlice::MAX_BITS`, which is `usize::MAX >> 3`.
#[verifier::external_body]
pub(crate) fn repeat(bit: bool, len: usize) -> (r: BitArray)
    requires
        len <= MAX_BITS,
    ensures
        bits_of(r) == Seq::new(len as nat, |j: int| bit),
{
    BitArray { inner: BitVec::repeat(bit, len) }
}

/// Relies on `BitSlice::set`: writes one bit, panics out of bounds.
#[verifier::external_body]
pub(crate) fn set_bit(v: &mut BitArray, index: usize, value: bool)
    requires
        index < bits_of(*old(v)).len(),
    ensures
        bits_of(*final(v)) == bits_of(*old(v)).update(index as int, value),
{
    v.inner.set(index, value)
}

/// Relies on `BitSlice`'s `Index<usize>`: reads one bit, panics out of bounds.
#[verifier::external_body]
pub(crate) fn get_bit(v: &BitArray, index: usize) -> (r: bool)
    requires
        index < bits_of(*v).len(),
    ensures
        r == bits_of(*v)[index as int],
{
    v.inner[index]
}

} // verus!
