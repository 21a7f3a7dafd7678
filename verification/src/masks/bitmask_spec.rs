//! The bitmask of a mask: one bit per lane, lane 0 in the lowest bit of the
//! first byte.
use vstd::prelude::*;

verus! {

/// A fixed-size sequence of bytes that can hold a bitmask.
pub trait BitMaskBytes: Copy {
    /// The number of bytes.
    spec fn byte_len() -> nat;

    /// The bytes.
    spec fn bytes(&self) -> Seq<u8>;

    proof fn lemma_bytes_len(&self)
        ensures
            self.bytes().len() == Self::byte_len(),
    ;

    /// The bitmask with no bit set.
    fn zeroed() -> (r: Self)
        ensures
            r.bytes() == Seq::new(Self::byte_len(), |i: int| 0u8),
    ;

    /// The number of bytes.
    fn size() -> (r: usize)
        ensures
            r == Self::byte_len(),
    ;

    /// The byte at the given place.
    fn get(&self, i: usize) -> (r: u8)
        requires
            i < Self::byte_len(),
        ensures
            r == self.bytes()[i as int],
    ;

    /// Replaces the byte at the given place.
    fn set(&mut self, i: usize, value: u8)
        requires
            i < Self::byte_len(),
        ensures
            final(self).bytes() == old(self).bytes().update(i as int, value),
    ;
}

impl<const N: usize> BitMaskBytes for [u8; N] {
    open spec fn byte_len() -> nat {
        N as nat
    }

    open spec fn bytes(&self) -> Seq<u8> {
        self@
    }

    proof fn lemma_bytes_len(&self) {
    }

    fn zeroed() -> (r: Self) {
        let r = [0u8;N];
        assert(r@ =~= Seq::new(N as nat, |i: int| 0u8));
        r
    }

    fn size() -> (r: usize) {
        N
    }

    fn get(&self, i: usize) -> (r: u8) {
        self[i]
    }

    fn set(&mut self, i: usize, value: u8) {
        self[i] = value;
    }
}

/// Lane `k` as a bit: one where the lane exists and is set.
pub open spec fn lane_bit(lanes: Seq<bool>, k: int) -> int {
    if 0 <= k < lanes.len() && lanes[k] {
        1
    } else {
        0
    }
}

/// The bits of the first `count` of the eight lanes from `base` on, lane
/// `base + j` weighing `2^j`.
pub open spec fn bitmask_prefix(lanes: Seq<bool>, base: int, count: int) -> int {
    (if count > 0 { lane_bit(lanes, base) } else { 0 })
    + (if count > 1 { 2 * lane_bit(lanes, base + 1) } else { 0 })
    + (if count > 2 { 4 * lane_bit(lanes, base + 2) } else { 0 })
    + (if count > 3 { 8 * lane_bit(lanes, base + 3) } else { 0 })
    + (if count > 4 { 16 * lane_bit(lanes, base + 4) } else { 0 })
    + (if count > 5 { 32 * lane_bit(lanes, base + 5) } else { 0 })
    + (if count > 6 { 64 * lane_bit(lanes, base + 6) } else { 0 })
    + (if count > 7 { 128 * lane_bit(lanes, base + 7) } else { 0 })
}

/// Byte `i` of the bitmask of the lanes: lane `8 * i + j` in bit `j`.
pub open spec fn bitmask_byte(lanes: Seq<bool>, i: int) -> u8 {
    bitmask_prefix(lanes, 8 * i, 8) as u8
}

/// Bit `k` of a bitmask, false past its last byte.
pub open spec fn bit_of(bytes: Seq<u8>, k: int) -> bool {
    let byte: u8 = if 0 <= k / 8 < bytes.len() {
        bytes[k / 8]
    } else {
        0
    };
    (byte >> ((k % 8) as u8)) & 1 == 1
}

/// The weight of bit `j` of a byte.
pub open spec fn bit_weight(j: int) -> int {
    if j == 0 {
        1
    } else if j == 1 {
        2
    } else if j == 2 {
        4
    } else if j == 3 {
        8
    } else if j == 4 {
        16
    } else if j == 5 {
        32
    } else if j == 6 {
        64
    } else {
        128
    }
}

/// Setting a bit above all the bits of a byte adds the bit's weight.
pub proof fn lemma_or_adds_the_bit(byte: u8, j: u8)
    requires
        j < 8,
        byte < bit_weight(j as int),
    ensures
        byte | (1u8 << j) == byte + bit_weight(j as int),
{
    assert(j < 8 ==> (1u8 << j) == (if j == 0 {
        1u8
    } else if j == 1 {
        2u8
    } else if j == 2 {
        4u8
    } else if j == 3 {
        8u8
    } else if j == 4 {
        16u8
    } else if j == 5 {
        32u8
    } else if j == 6 {
        64u8
    } else {
        128u8
    })) by (bit_vector);
    assert(byte < (1u8 << j) && j < 8 ==> byte | (1u8 << j) == byte + (1u8 << j)) by (bit_vector);
}

} // verus!
