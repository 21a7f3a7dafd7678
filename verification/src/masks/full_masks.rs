//! Masks that are the full vector width: every lane is an integer, all ones
//! for true and zero for false.
use vstd::prelude::*;
use crate::masks::bitmask_spec::{bit_of, bitmask_byte, bitmask_prefix, lane_bit, lemma_or_adds_the_bit, BitMaskBytes};
use crate::masks::element::{is_boolean, MaskElement};
use crate::masks::encoding::Encoding;
use crate::vector::Simd;

verus! {

/// A mask of `LANES` lanes, each held in an integer of type `T`.
pub struct Mask<T: MaskElement, const LANES: usize>(Simd<T, LANES>);

impl<T: MaskElement, const LANES: usize> Copy for Mask<T, LANES> {

}

impl<T: MaskElement, const LANES: usize> Clone for Mask<T, LANES> {
    fn clone(&self) -> (r: Self)
        ensures
            r == *self,
    {
        *self
    }
}

impl<T: MaskElement, const LANES: usize> View for Mask<T, LANES> {
    type V = Seq<bool>;

    closed spec fn view(&self) -> Seq<bool> {
        Seq::new(LANES as nat, |i: int| self.0.0@[i] == T::of(true))
    }
}

impl<T: MaskElement, const LANES: usize> Mask<T, LANES> {
    /// Every lane is all ones or zero.
    #[verifier::type_invariant]
    closed spec fn well_formed(self) -> bool {
        forall|i: int| 0 <= i < LANES ==> is_boolean(#[trigger] self.0.0@[i])
    }
}

impl<T: MaskElement, const LANES: usize> Encoding<T, LANES> for Mask<T, LANES> {
    open spec fn supported() -> bool {
        true
    }

    proof fn lemma_len(self) {
    }

    /// Construct a mask by setting all lanes to the given value.
    fn splat(value: bool) -> (r: Self) {
        proof {
            T::lemma_distinct();
        }
        let r = Mask(Simd::splat(T::select(value)));
        assert(r@ =~= Seq::new(LANES as nat, |i: int| value));
        r
    }

    /// Tests the value of the specified lane.
    fn test_unchecked(&self, lane: usize) -> (r: bool) {
        self.0.0[lane].is_set()
    }

    /// Sets the value of the specified lane.
    fn set_unchecked(&mut self, lane: usize, value: bool) {
        proof {
            use_type_invariant(&*self);
            T::lemma_distinct();
        }
        let mut lanes = self.0.0;
        lanes[lane] = T::select(value);
        *self = Mask(Simd(lanes));
        assert(self@ =~= old(self)@.update(lane as int, value));
    }

    /// Converts the mask to a vector of integers, where 0 represents `false`
    /// and -1 represents `true`.
    fn to_int(self) -> (r: Simd<T, LANES>) {
        proof {
            use_type_invariant(&self);
            T::lemma_distinct();
            assert(self.0.0@ =~= Seq::new(LANES as nat, |i: int| T::of(self@[i])));
        }
        self.0
    }

    /// Converts a vector of integers to a mask, where 0 represents `false`
    /// and -1 represents `true`.
    fn from_int_unchecked(value: Simd<T, LANES>) -> (r: Self) {
        proof {
            assert forall|i: int| 0 <= i < LANES implies is_boolean(#[trigger] value.0@[i]) by {
                assert(is_boolean(value@[i]));
            }
        }
        Mask(value)
    }

    /// Convert this mask to a bitmask, with one bit set per lane.
    fn to_bitmask<B: BitMaskBytes>(self) -> (r: B) {
        let mut bitmask = B::zeroed();
        let size: usize = B::size();
        let mut i: usize = 0;
        proof {
            bitmask.lemma_bytes_len();
        }
        while i < size
            invariant
                i <= size == B::byte_len(),
                bitmask.bytes().len() == size,
                forall|k: int| 0 <= k < i ==> bitmask.bytes()[k] == bitmask_byte(self@, k),
            decreases size - i,
        {
            let mut byte: u8 = 0;
            let mut j: u8 = 0;
            while j < 8
                invariant
                    j <= 8,
                    i < size,
                    byte == bitmask_prefix(self@, 8 * i, j as int),
                decreases 8 - j,
            {
                // a byte past the lanes holds no bit
                let set = i <= (usize::MAX - 7) / 8 && 8 * i + (j as usize) < LANES
                    && self.test_unchecked(8 * i + j as usize);
                proof {
                    lemma_or_adds_the_bit(byte, j);
                    assert(set == (lane_bit(self@, 8 * i + j) == 1));
                }
                if set {
                    byte = byte | (1u8 << j);
                }
                j += 1;
            }
            bitmask.set(i, byte);
            proof {
                bitmask.lemma_bytes_len();
            }
            i += 1;
        }
        assert(bitmask.bytes() =~= Seq::new(B::byte_len(), |i: int| bitmask_byte(self@, i)));
        bitmask
    }

    /// Convert a bitmask to a mask.
    fn from_bitmask<B: BitMaskBytes>(bitmask: B) -> (r: Self) {
        let size: usize = B::size();
        let mut mask = Self::splat(false);
        let mut lane: usize = 0;
        proof {
            bitmask.lemma_bytes_len();
        }
        while lane < LANES
            invariant
                lane <= LANES,
                size == B::byte_len(),
                bitmask.bytes().len() == size,
                mask@.len() == LANES,
                forall|k: int| 0 <= k < lane ==> mask@[k] == bit_of(bitmask.bytes(), k),
            decreases LANES - lane,
        {
            let byte: u8 = if lane / 8 < size {
                bitmask.get(lane / 8)
            } else {
                0
            };
            let shift: u8 = (lane % 8) as u8;
            proof {
                assert((0u8 >> shift) & 1 == 0) by (bit_vector);
            }
            mask.set_unchecked(lane, (byte >> shift) & 1 == 1);
            lane += 1;
        }
        assert(mask@ =~= Seq::new(LANES as nat, |k: int| bit_of(bitmask.bytes(), k)));
        mask
    }

    /// Lane-wise "and".
    fn and(self, rhs: Self) -> (r: Self) {
        proof {
            use_type_invariant(&self);
            use_type_invariant(&rhs);
            T::lemma_distinct();
        }
        let mut lanes = self.0.0;
        let mut i: usize = 0;
        while i < LANES
            invariant
                i <= LANES,
                self.well_formed(),
                rhs.well_formed(),
                T::of(true) != T::of(false),
                forall|k: int| 0 <= k < i ==> #[trigger] lanes@[k] == T::of(self@[k] && rhs@[k]),
                forall|k: int| i <= k < LANES ==> lanes@[k] == self.0.0@[k],
            decreases LANES - i,
        {
            lanes[i] = lanes[i].and(rhs.0.0[i]);
            i += 1;
        }
        let r = Mask(Simd(lanes));
        assert(r@ =~= Seq::new(LANES as nat, |i: int| self@[i] && rhs@[i]));
        r
    }

    /// Lane-wise "or".
    fn or(self, rhs: Self) -> (r: Self) {
        proof {
            use_type_invariant(&self);
            use_type_invariant(&rhs);
            T::lemma_distinct();
        }
        let mut lanes = self.0.0;
        let mut i: usize = 0;
        while i < LANES
            invariant
                i <= LANES,
                self.well_formed(),
                rhs.well_formed(),
                T::of(true) != T::of(false),
                forall|k: int| 0 <= k < i ==> #[trigger] lanes@[k] == T::of(self@[k] || rhs@[k]),
                forall|k: int| i <= k < LANES ==> lanes@[k] == self.0.0@[k],
            decreases LANES - i,
        {
            lanes[i] = lanes[i].or(rhs.0.0[i]);
            i += 1;
        }
        let r = Mask(Simd(lanes));
        assert(r@ =~= Seq::new(LANES as nat, |i: int| self@[i] || rhs@[i]));
        r
    }

    /// Lane-wise "xor".
    fn xor(self, rhs: Self) -> (r: Self) {
        proof {
            use_type_invariant(&self);
            use_type_invariant(&rhs);
            T::lemma_distinct();
        }
        let mut lanes = self.0.0;
        let mut i: usize = 0;
        while i < LANES
            invariant
                i <= LANES,
                self.well_formed(),
                rhs.well_formed(),
                T::of(true) != T::of(false),
                forall|k: int| 0 <= k < i ==> #[trigger] lanes@[k] == T::of(self@[k] != rhs@[k]),
                forall|k: int| i <= k < LANES ==> lanes@[k] == self.0.0@[k],
            decreases LANES - i,
        {
            lanes[i] = lanes[i].xor(rhs.0.0[i]);
            i += 1;
        }
        let r = Mask(Simd(lanes));
        assert(r@ =~= Seq::new(LANES as nat, |i: int| self@[i] != rhs@[i]));
        r
    }

    /// Lane-wise "not".
    fn not(self) -> (r: Self) {
        proof {
            use_type_invariant(&self);
            T::lemma_distinct();
        }
        let mut lanes = self.0.0;
        let mut i: usize = 0;
        while i < LANES
            invariant
                i <= LANES,
                self.well_formed(),
                T::of(true) != T::of(false),
                forall|k: int| 0 <= k < i ==> #[trigger] lanes@[k] == T::of(!self@[k]),
                forall|k: int| i <= k < LANES ==> lanes@[k] == self.0.0@[k],
            decreases LANES - i,
        {
            lanes[i] = lanes[i].not();
            i += 1;
        }
        let r = Mask(Simd(lanes));
        assert(r@ =~= Seq::new(LANES as nat, |i: int| !self@[i]));
        r
    }

    /// Returns true if any lane is set, or false otherwise.
    fn any(self) -> (r: bool) {
        let mut i: usize = 0;
        while i < LANES
            invariant
                i <= LANES,
                forall|k: int| 0 <= k < i ==> !self@[k],
            decreases LANES - i,
        {
            if self.test_unchecked(i) {
                return true;
            }
            i += 1;
        }
        false
    }

    /// Returns true if all lanes are set, or false otherwise.
    fn all(self) -> (r: bool) {
        let mut i: usize = 0;
        while i < LANES
            invariant
                i <= LANES,
                forall|k: int| 0 <= k < i ==> self@[k],
            decreases LANES - i,
        {
            if !self.test_unchecked(i) {
                return false;
            }
            i += 1;
        }
        true
    }
}

} // verus!
