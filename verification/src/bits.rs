//! The bit vector of the `bitvec` crate that holds the active days of
//! services, and what its operations do.

use bitvec::order::Msb0;
use bitvec::vec::BitVec;
use vstd::prelude::*;

verus! {

/// The active-day bits of all services: a `bitvec` bit vector of bytes,
/// most significant bit first, held in a private field that only the
/// functions below touch.
#[verifier::external_body]
pub struct ActiveMask {
    bits: BitVec<u8, Msb0>,
}

/// The bits that a bit vector holds, in order.
pub uninterp spec fn mask_bits(v: ActiveMask) -> Seq<bool>;

/// The position, within its first byte, of the first bit of a bit vector.
pub uninterp spec fn mask_head(v: ActiveMask) -> nat;

/// Bit `k` of byte `b`, counting from the most significant bit.
pub open spec fn msb_bit(b: u8, k: int) -> bool {
    (b >> ((7 - k) as u8)) & 1u8 == 1u8
}

/// `BitVec::repeat`: `len` copies of `bit`, starting at the first bit of the
/// first byte. It panics where `len` exceeds the longest encodable length,
/// `usize::MAX >> 3`.
#[verifier::external_body]
pub(crate) fn bits_repeat(bit: bool, len: usize) -> (r: ActiveMask)
    requires
        len <= usize::MAX / 8,
    ensures
        mask_bits(r) == Seq::new(len as nat, |i: int| bit),
        mask_head(r) == 0,
{
    ActiveMask { bits: BitVec::repeat(bit, len) }
}

/// `BitVec::len`: the number of bits.
#[verifier::external_body]
pub(crate) fn bits_len(v: &ActiveMask) -> (r: usize)
    ensures
        r == mask_bits(*v).len(),
{
    v.bits.len()
}

/// `BitVec::resize`: grows with copies of `value`, or cuts down, to
/// `new_len` bits; the first bit stays where it was. It panics where
/// `new_len` exceeds `usize::MAX >> 3`.
#[verifier::external_body]
pub(crate) fn bits_resize(v: &mut ActiveMask, new_len: usize, value: bool)
    requires
        new_len <= usize::MAX / 8,
    ensures
        mask_head(*final(v)) == mask_head(*old(v)),
        mask_bits(*final(v)) == if new_len >= mask_bits(*old(v)).len() {
            mask_bits(*old(v)) + Seq::new((new_len - mask_bits(*old(v)).len()) as nat, |i: int| value)
        } else {
            mask_bits(*old(v)).take(new_len as int)
        },
{
    v.bits.resize(new_len, value)
}

/// `BitSlice::replace`: sets bit `index` to `value` and returns its old
/// value. It panics where `index` is out of bounds.
#[verifier::external_body]
pub(crate) fn bits_replace(v: &mut ActiveMask, index: usize, value: bool) -> (r: bool)
    requires
        index < mask_bits(*old(v)).len(),
    ensures
        r == mask_bits(*old(v))[index as int],
        mask_bits(*final(v)) == mask_bits(*old(v)).update(index as int, value),
        mask_head(*final(v)) == mask_head(*old(v)),
{
    v.bits.replace(index, value)
}

/// `BitVec::into_vec`: the bytes holding the bits. Where the first bit is the
/// first bit of the first byte, these are the bytes that hold a live bit,
/// each bit at its place counting from the most significant; the bits past
/// the last live one are left unspecified.
#[verifier::external_body]
pub(crate) fn bits_into_bytes(v: ActiveMask) -> (r: Vec<u8>)
    ensures
        mask_head(v) == 0 ==> r@.len() == (mask_bits(v).len() + 7) / 8,
        mask_head(v) == 0 ==> forall|i: int|
            0 <= i < mask_bits(v).len() ==> msb_bit(#[trigger] r@[i / 8], i % 8) == mask_bits(v)[i],
{
    v.bits.into_vec()
}

} // verus!
