//! Trusted boundary around bitvec's `BitVec`, the packed boolean storage
//! that backs the toggle container. Verified code sees the stored bits only
//! through `bits_of` and the small wrappers below.

use vstd::prelude::*;

verus! {

/// The packed boolean storage for the toggle container: bitvec's `BitVec`
/// with its default storage element and bit ordering, held opaquely.
#[verifier::external_body]
pub struct Bits {
    inner: bitvec::vec::BitVec,
}

/// The sequence of booleans that a `Bits` value stores, in index order.
pub uninterp spec fn bits_of(v: Bits) -> Seq<bool>;

/// Relies on bitvec's `BitVec::repeat`: a bit-vector of `len` copies of `bit`.
#[verifier::external_body]
pub(crate) fn bits_repeat(bit: bool, len: usize) -> (r: Bits)
    ensures
        bits_of(r) == Seq::new(len as nat, |i: int| bit),
{
    Bits { inner: bitvec::vec::BitVec::repeat(bit, len) }
}

/// Relies on bitvec's `BitSlice::len` (reached through `Deref`): the number
/// of bits the vector stores.
#[verifier::external_body]
pub(crate) fn bits_len(v: &Bits) -> (r: usize)
    ensures
        r == bits_of(*v).len(),
{
    v.inner.len()
}

/// Relies on bitvec's `Index<usize>` for `BitSlice`: the bit stored at `i`.
/// Indexing panics out of range, so that range is excluded here.
#[verifier::external_body]
pub(crate) fn bits_get(v: &Bits, i: usize) -> (r: bool)
    requires
        i < bits_of(*v).len(),
    ensures
        r == bits_of(*v)[i as int],
{
    v.inner[i]
}

/// Relies on bitvec's `BitSlice::set`: writes `value` at index `i` and leaves
/// every other bit as it was. `set` panics out of range, so that range is
/// excluded here.
#[verifier::external_body]
pub(crate) fn bits_set(v: &mut Bits, i: usize, value: bool)
    requires
        i < bits_of(*old(v)).len(),
    ensures
        bits_of(*final(v)) == bits_of(*old(v)).update(i as int, value),
{
    v.inner.set(i, value);
}

/// Relies on bitvec's `BitSlice::fill`: overwrites every bit with `value`,
/// keeping the length.
#[verifier::external_body]
pub(crate) fn bits_fill(v: &mut Bits, value: bool)
    ensures
        bits_of(*final(v)) == Seq::new(bits_of(*old(v)).len(), |i: int| value),
{
    v.inner.fill(value);
}

} // verus!
