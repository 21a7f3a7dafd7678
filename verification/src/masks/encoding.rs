//! What every physical encoding of a mask offers.
use vstd::prelude::*;
use crate::masks::bitmask_spec::{bit_of, bitmask_byte, BitMaskBytes};
use crate::masks::element::{is_boolean, MaskElement};
use crate::vector::Simd;

verus! {

/// A physical encoding of a mask of `LANES` lanes for vectors of elements of
/// type `T`. Its view is the sequence of its lanes; every operation is stated
/// over that view alone, so that two encodings cannot be told apart.
pub trait Encoding<T: MaskElement, const LANES: usize>: Copy + View<V = Seq<bool>> {
    /// The encoding can hold `LANES` lanes.
    spec fn supported() -> bool;

    /// A mask has as many lanes as its type says.
    proof fn lemma_len(self)
        ensures
            self@.len() == LANES,
    ;

    /// Construct a mask by setting all lanes to the given value.
    fn splat(value: bool) -> (r: Self)
        requires
            Self::supported(),
        ensures
            r@ == Seq::new(LANES as nat, |i: int| value),
    ;

    /// Tests the value of the specified lane.
    fn test_unchecked(&self, lane: usize) -> (r: bool)
        requires
            lane < LANES,
        ensures
            r == self@[lane as int],
    ;

    /// Sets the value of the specified lane.
    fn set_unchecked(&mut self, lane: usize, value: bool)
        requires
            lane < LANES,
        ensures
            final(self)@ == old(self)@.update(lane as int, value),
    ;

    /// Converts the mask to a vector of integers, where 0 represents `false`
    /// and -1 represents `true`.
    fn to_int(self) -> (r: Simd<T, LANES>)
        ensures
            r@ == Seq::new(LANES as nat, |i: int| T::of(self@[i])),
    ;

    /// Converts a vector of integers to a mask, where 0 represents `false`
    /// and -1 represents `true`.
    fn from_int_unchecked(value: Simd<T, LANES>) -> (r: Self)
        requires
            Self::supported(),
            forall|i: int| 0 <= i < LANES ==> is_boolean(#[trigger] value@[i]),
        ensures
            r@ == Seq::new(LANES as nat, |i: int| value@[i] == T::of(true)),
    ;

    /// Convert this mask to a bitmask, with one bit set per lane.
    fn to_bitmask<B: BitMaskBytes>(self) -> (r: B)
        ensures
            r.bytes() == Seq::new(B::byte_len(), |i: int| bitmask_byte(self@, i)),
    ;

    /// Convert a bitmask to a mask.
    fn from_bitmask<B: BitMaskBytes>(bitmask: B) -> (r: Self)
        requires
            Self::supported(),
        ensures
            r@ == Seq::new(LANES as nat, |k: int| bit_of(bitmask.bytes(), k)),
    ;

    /// Lane-wise "and".
    fn and(self, rhs: Self) -> (r: Self)
        ensures
            r@ == Seq::new(LANES as nat, |i: int| self@[i] && rhs@[i]),
    ;

    /// Lane-wise "or".
    fn or(self, rhs: Self) -> (r: Self)
        ensures
            r@ == Seq::new(LANES as nat, |i: int| self@[i] || rhs@[i]),
    ;

    /// Lane-wise "xor".
    fn xor(self, rhs: Self) -> (r: Self)
        ensures
            r@ == Seq::new(LANES as nat, |i: int| self@[i] != rhs@[i]),
    ;

    /// Lane-wise "not".
    fn not(self) -> (r: Self)
        ensures
            r@ == Seq::new(LANES as nat, |i: int| !self@[i]),
    ;

    /// Returns true if any lane is set, or false otherwise.
    fn any(self) -> (r: bool)
        ensures
            r == exists|i: int| 0 <= i < LANES && self@[i],
    ;

    /// Returns true if all lanes are set, or false otherwise.
    fn all(self) -> (r: bool)
        ensures
            r == forall|i: int| 0 <= i < LANES ==> self@[i],
    ;
}

} // verus!
