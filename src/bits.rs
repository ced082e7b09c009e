//! The packed cell store: bitvec's `BitVec<u8, Msb0>`, seen through the
//! sequence of booleans it holds.
use bitvec::order::Msb0;
use bitvec::vec::BitVec;
use vstd::prelude::*;

verus! {

/// A packed bit store: bitvec's `BitVec<u8, Msb0>`, which Verus cannot
/// declare (its bounds are bitvec traits), held in a private field.
#[verifier::external_body]
pub struct CellBits {
    inner: BitVec<u8, Msb0>,
}

/// The bits that a bit-vector holds, in index order.
pub uninterp spec fn bits_of(v: CellBits) -> Seq<bool>;

/// Whether the vector's first bit sits at the most significant bit of its
/// first storage byte (true of every vector built by `repeat` and kept by
/// `set` and `clone`).
pub uninterp spec fn starts_at_byte(v: CellBits) -> bool;

/// The largest number of bits a bit-vector can hold.
pub open spec fn max_bits() -> nat {
    usize::MAX as nat / 8
}

/// The number of storage bytes that back `n` bits starting at a byte boundary.
pub open spec fn bytes_for(n: nat) -> nat {
    (n + 7) / 8
}

/// Whether bit `i` of a most-significant-bit-first byte buffer is set.
pub open spec fn msb_bit(bytes: Seq<u8>, i: int) -> bool {
    (bytes[i / 8] >> ((7 - i % 8) as u8)) & 1u8 == 1u8
}

/// Relies on `BitVec::repeat`: a vector of `len` copies of `bit`, laid out
/// from the start of its first byte. It panics beyond `BitSlice::MAX_BITS`.
#[verifier::external_body]
pub(crate) fn bits_repeat(bit: bool, len: usize) -> (r: CellBits)
    requires
        len <= max_bits(),
    ensures
        bits_of(r) == Seq::new(len as nat, |i: int| bit),
        starts_at_byte(r),
{
    CellBits { inner: BitVec::<u8, Msb0>::repeat(bit, len) }
}

/// Relies on `BitVec::len`: the number of bits held.
#[verifier::external_body]
pub(crate) fn bits_len(v: &CellBits) -> (r: usize)
    ensures
        r == bits_of(*v).len(),
{
    v.inner.len()
}

/// Relies on indexing a `BitSlice` by `usize`: the bit at `i`; it panics out
/// of bounds.
#[verifier::external_body]
pub(crate) fn bits_get(v: &CellBits, i: usize) -> (r: bool)
    requires
        i < bits_of(*v).len(),
    ensures
        r == bits_of(*v)[i as int],
{
    v.inner[i]
}

/// Relies on `BitSlice::set`: writes one bit in place; it panics out of
/// bounds and leaves the layout as it was.
#[verifier::external_body]
pub(crate) fn bits_set(v: &mut CellBits, i: usize, value: bool)
    requires
        i < bits_of(*old(v)).len(),
    ensures
        bits_of(*final(v)) == bits_of(*old(v)).update(i as int, value),
        starts_at_byte(*final(v)) == starts_at_byte(*old(v)),
{
    v.inner.set(i, value)
}

/// Relies on `BitVec`'s `Clone`: a new vector with the same bits, starting at
/// the same bit of its first byte.
#[verifier::external_body]
pub(crate) fn bits_clone(v: &CellBits) -> (r: CellBits)
    ensures
        bits_of(r) == bits_of(*v),
        starts_at_byte(r) == starts_at_byte(*v),
{
    CellBits { inner: v.inner.clone() }
}

/// Relies on `BitVec::as_raw_slice`: the storage bytes that hold the bits,
/// most significant bit first in each byte.
#[verifier::external_body]
pub(crate) fn bits_raw(v: &CellBits) -> (r: &[u8])
    ensures
        starts_at_byte(*v) ==> r@.len() == bytes_for(bits_of(*v).len()),
        starts_at_byte(*v) ==> forall|i: int|
            0 <= i < bits_of(*v).len() ==> #[trigger] msb_bit(r@, i) == bits_of(*v)[i],
{
    v.inner.as_raw_slice()
}

} // verus!
