//! Packed bit storage.
//!
//! The cells of a grid live in `bitvec` bit-vectors. Verus cannot look inside
//! one, so this module names what a bit-vector holds ([`bits_of`]) and states,
//! for each `bitvec` operation the library uses, what it does to those bits.
//! Nothing in this module is proved: every contract here is taken on trust
//! from the `bitvec` sources.

use bitvec::field::BitField;
use bitvec::order::Lsb0;
use bitvec::vec::BitVec;
use vstd::prelude::*;

verus! {

/// A `bitvec::vec::BitVec<usize, Lsb0>`: one bit per cell, packed into machine
/// words. The bit-vector is bounded by traits of `bitvec` that the verifier
/// does not know, so it is kept in a private field here and the whole struct
/// is opaque to the verifier; its contents are spoken of through [`bits_of`].
#[verifier::external_body]
pub struct Bits {
    inner: BitVec<usize, Lsb0>,
}

/// The bits a bit-vector holds, lowest index first.
pub uninterp spec fn bits_of(b: Bits) -> Seq<bool>;

/// The largest number of bits one bit-vector can address: `usize::MAX >> 3`.
pub open spec fn max_bits() -> int {
    usize::MAX as int / 8
}

/// Bit `k` of `value`, counting from the least significant.
pub open spec fn bit_of(value: u128, k: int) -> bool {
    (value >> (k as u128)) & 1 == 1
}

/// `BitVec::repeat(false, len)`: a fresh bit-vector of `len` bits, all clear.
/// `bitvec` panics above [`max_bits`], which `requires` leaves out.
#[verifier::external_body]
pub(crate) fn bits_zeroed(len: usize) -> (b: Bits)
    requires
        len <= max_bits(),
    ensures
        bits_of(b) == Seq::new(len as nat, |k: int| false),
{
    Bits { inner: BitVec::repeat(false, len) }
}

/// `BitVec::len`: the number of bits held.
#[verifier::external_body]
pub(crate) fn bits_len(b: &Bits) -> (n: usize)
    ensures
        n == bits_of(*b).len(),
{
    b.inner.len()
}

/// Indexing a bit-vector by `usize`: the bit at `index`. `bitvec` panics when
/// `index` is out of bounds, which `requires` leaves out.
#[verifier::external_body]
pub(crate) fn bits_get(b: &Bits, index: usize) -> (bit: bool)
    requires
        index < bits_of(*b).len(),
    ensures
        bit == bits_of(*b)[index as int],
{
    b.inner[index]
}

/// `BitSlice::set`: overwrites the bit at `index` and touches no other.
/// `bitvec` panics when `index` is out of bounds, which `requires` leaves out.
#[verifier::external_body]
pub(crate) fn bits_set(b: &mut Bits, index: usize, value: bool)
    requires
        index < bits_of(*old(b)).len(),
    ensures
        bits_of(*final(b)) == bits_of(*old(b)).update(index as int, value),
{
    b.inner.set(index, value);
}

/// `BitField::store_le` on the sub-slice `at .. at + width`: bit `k` of
/// `value`, counted from the least significant, lands at index `at + k`; bits
/// of `value` from `width` up are dropped and no bit outside the sub-slice
/// changes. `bitvec` panics on an empty sub-slice, on one wider than the
/// integer, and on one that leaves the vector; `requires` leaves those out.
#[verifier::external_body]
pub(crate) fn bits_store(b: &mut Bits, at: usize, width: usize, value: u128)
    requires
        1 <= width <= 128,
        at + width <= bits_of(*old(b)).len(),
    ensures
        bits_of(*final(b)) == Seq::new(
            bits_of(*old(b)).len(),
            |k: int| if at <= k < at + width { bit_of(value, k - at) } else { bits_of(*old(b))[k] },
        ),
{
    b.inner[at..at + width].store_le::<u128>(value);
}

} // verus!
