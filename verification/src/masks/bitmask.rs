//! Masks that hold one bit per lane, packed into bytes with lane 0 in the
//! lowest bit of the first byte. They reach to 64 lanes.
use core::marker::PhantomData;
use vstd::prelude::*;
use crate::masks::bitmask_spec::{bit_of, bitmask_byte, bitmask_prefix, lane_bit, BitMaskBytes};
use crate::masks::element::MaskElement;
use crate::masks::encoding::Encoding;
use crate::vector::Simd;

verus! {

/// The number of lanes that the packed encoding can hold.
pub const MAX_LANES: usize = 64;

/// A mask of `LANES` lanes for vectors of elements of type `T`, each lane held
/// in one bit.
pub struct Mask<T: MaskElement, const LANES: usize>([u8; 8], PhantomData<T>);

impl<T: MaskElement, const LANES: usize> Copy for Mask<T, LANES> {

}

impl<T: MaskElement, const LANES: usize> Clone for Mask<T, LANES> {
    fn clone(&self) -> (r: Self)
        ensures
            r == *self,
    {
        *self
    }
}

impl<T: MaskElement, const LANES: usize> View for Mask<T, LANES> {
    type V = Seq<bool>;

    closed spec fn view(&self) -> Seq<bool> {
        Seq::new(LANES as nat, |k: int| bit_of(self.0@, k))
    }
}

/// Bit `j` of a byte.
pub open spec fn bit(byte: u8, j: u8) -> bool {
    (byte >> j) & 1 == 1
}

/// The bits of the lane-wise combinations of two bytes.
pub proof fn lemma_bitwise(a: u8, b: u8, j: u8)
    by (bit_vector)
    requires
        j < 8,
    ensures
        ((a & b) >> j) & 1 == 1 <==> ((a >> j) & 1 == 1 && (b >> j) & 1 == 1),
        ((a | b) >> j) & 1 == 1 <==> ((a >> j) & 1 == 1 || (b >> j) & 1 == 1),
        ((a ^ b) >> j) & 1 == 1 <==> (((a >> j) & 1 == 1) != ((b >> j) & 1 == 1)),
        (0u8 >> j) & 1 == 0,
{
}

/// Exclusive "or" with a bit moved to place `j` flips that bit by it and
/// leaves the others.
pub proof fn lemma_flip(byte: u8, j: u8, i: u8, flip: u8)
    by (bit_vector)
    requires
        j < 8,
        i < 8,
        flip <= 1,
    ensures
        ((byte ^ (flip << j)) >> i) & 1 == 1 <==> (if i == j {
            ((byte >> i) & 1 == 1) != (flip == 1)
        } else {
            (byte >> i) & 1 == 1
        }),
{
}

/// A byte is the sum of its bits, each by its weight.
pub proof fn lemma_sum_of_bits(b: u8)
    by (bit_vector)
    ensures
        b == ((b >> 0u8) & 1) + 2 * ((b >> 1u8) & 1) + 4 * ((b >> 2u8) & 1) + 8 * ((b >> 3u8) & 1) + 16 * (
        (b >> 4u8) & 1) + 32 * ((b >> 5u8) & 1) + 64 * ((b >> 6u8) & 1) + 128 * ((b >> 7u8) & 1),
        (b >> 0u8) & 1 <= 1,
        (b >> 1u8) & 1 <= 1,
        (b >> 2u8) & 1 <= 1,
        (b >> 3u8) & 1 <= 1,
        (b >> 4u8) & 1 <= 1,
        (b >> 5u8) & 1 <= 1,
        (b >> 6u8) & 1 <= 1,
        (b >> 7u8) & 1 <= 1,
{
}

impl<T: MaskElement, const LANES: usize> Mask<T, LANES> {
    /// There are at most 64 lanes, and no bit is set past the last lane.
    #[verifier::type_invariant]
    closed spec fn well_formed(self) -> bool {
        &&& LANES <= MAX_LANES
        &&& forall|k: int| LANES <= k < 64 ==> !#[trigger] bit_of(self.0@, k)
    }

    /// The bytes in which every lane is set and no bit past the last lane.
    fn full() -> (r: [u8; 8])
        requires
            LANES <= MAX_LANES,
        ensures
            forall|k: int| 0 <= k < 64 ==> #[trigger] bit_of(r@, k) == (k < LANES),
    {
        let mut bytes = [0u8;8];
        let mut lane: usize = 0;
        assert forall|k: int| 0 <= k < 64 implies !#[trigger] bit_of(bytes@, k) by {
            lemma_bitwise(0, 0, (k % 8) as u8);
        }
        while lane < LANES
            invariant
                lane <= LANES <= MAX_LANES,
                forall|k: int| 0 <= k < 64 ==> #[trigger] bit_of(bytes@, k) == (k < lane),
            decreases LANES - lane,
        {
            let ghost before = bytes@;
            let shift: u8 = (lane % 8) as u8;
            bytes[lane / 8] = bytes[lane / 8] ^ (1u8 << shift);
            assert forall|k: int| 0 <= k < 64 implies #[trigger] bit_of(bytes@, k) == (k < lane
                + 1) by {
                assert(bit_of(before, k) == (k < lane));
                if k / 8 == lane / 8 {
                    lemma_flip(before[(lane / 8) as int], shift, (k % 8) as u8, 1);
                }
            }
            lane += 1;
        }
        bytes
    }

    /// Lane `8 * i + j` of a well-formed mask is bit `j` of its byte `i`.
    proof fn lemma_lane(self, i: int, j: u8)
        requires
            self.well_formed(),
            0 <= i < 8,
            j < 8,
        ensures
            lane_bit(self@, 8 * i + j) == (if bit(self.0@[i], j) {
                1int
            } else {
                0int
            }),
    {
        let k = 8 * i + j;
        assert(k / 8 == i && k % 8 == j);
        assert(bit_of(self.0@, k) == bit(self.0@[i], j));
    }

    /// Byte `i` of the bitmask of a well-formed mask is its byte `i`.
    proof fn lemma_byte(self, i: int)
        requires
            self.well_formed(),
            0 <= i < 8,
        ensures
            self.0@[i] == bitmask_byte(self@, i),
    {
        let b = self.0@[i];
        lemma_sum_of_bits(b);
        self.lemma_lane(i, 0u8);
        self.lemma_lane(i, 1u8);
        self.lemma_lane(i, 2u8);
        self.lemma_lane(i, 3u8);
        self.lemma_lane(i, 4u8);
        self.lemma_lane(i, 5u8);
        self.lemma_lane(i, 6u8);
        self.lemma_lane(i, 7u8);
    }
}

impl<T: MaskElement, const LANES: usize> Encoding<T, LANES> for Mask<T, LANES> {
    open spec fn supported() -> bool {
        LANES <= MAX_LANES
    }

    proof fn lemma_len(self) {
    }

    /// Construct a mask by setting all lanes to the given value.
    fn splat(value: bool) -> (r: Self) {
        let bytes = if value {
            Self::full()
        } else {
            [0u8;8]
        };
        assert forall|k: int| 0 <= k < 64 implies #[trigger] bit_of(bytes@, k) == (value && k
            < LANES) by {
            lemma_bitwise(0, 0, (k % 8) as u8);
        }
        let r = Mask(bytes, PhantomData);
        assert(r@ =~= Seq::new(LANES as nat, |i: int| value));
        r
    }

    /// Tests the value of the specified lane.
    fn test_unchecked(&self, lane: usize) -> (r: bool) {
        proof {
            use_type_invariant(self);
        }
        let shift: u8 = (lane % 8) as u8;
        let byte: u8 = self.0[lane / 8];
        assert(((byte >> shift) & 1 > 0) == ((byte >> shift) & 1 == 1)) by (bit_vector);
        (byte >> shift) & 1 > 0
    }

    /// Sets the value of the specified lane.
    fn set_unchecked(&mut self, lane: usize, value: bool) {
        proof {
            use_type_invariant(&*self);
        }
        let flip: u8 = if value != self.test_unchecked(lane) {
            1
        } else {
            0
        };
        let shift: u8 = (lane % 8) as u8;
        let mut bytes = self.0;
        bytes[lane / 8] = bytes[lane / 8] ^ (flip << shift);
        assert forall|k: int| 0 <= k < 64 implies #[trigger] bit_of(bytes@, k) == (if k == lane {
            value
        } else {
            bit_of(self.0@, k)
        }) by {
            if k / 8 == lane / 8 {
                lemma_flip(self.0[(lane / 8) as int], shift, (k % 8) as u8, flip);
            }
        }
        *self = Mask(bytes, PhantomData);
        assert(self@ =~= old(self)@.update(lane as int, value));
    }

    /// Converts the mask to a vector of integers, where 0 represents `false`
    /// and -1 represents `true`.
    fn to_int(self) -> (r: Simd<T, LANES>) {
        let mut lanes = [T::select(false);LANES];
        let mut i: usize = 0;
        while i < LANES
            invariant
                i <= LANES,
                forall|k: int| 0 <= k < i ==> #[trigger] lanes@[k] == T::of(self@[k]),
            decreases LANES - i,
        {
            lanes[i] = T::select(self.test_unchecked(i));
            i += 1;
        }
        let r = Simd(lanes);
        assert(r@ =~= Seq::new(LANES as nat, |i: int| T::of(self@[i])));
        r
    }

    /// Converts a vector of integers to a mask, where 0 represents `false`
    /// and -1 represents `true`.
    fn from_int_unchecked(value: Simd<T, LANES>) -> (r: Self) {
        let mut mask = Self::splat(false);
        let mut i: usize = 0;
        while i < LANES
            invariant
                i <= LANES,
                mask@.len() == LANES,
                forall|k: int| 0 <= k < i ==> mask@[k] == (value@[k] == T::of(true)),
            decreases LANES - i,
        {
            mask.set_unchecked(i, value.0[i].is_set());
            i += 1;
        }
        assert(mask@ =~= Seq::new(LANES as nat, |i: int| value@[i] == T::of(true)));
        mask
    }

    /// Convert this mask to a bitmask, with one bit set per lane.
    fn to_bitmask<B: BitMaskBytes>(self) -> (r: B) {
        let mut bitmask = B::zeroed();
        let size: usize = B::size();
        let mut i: usize = 0;
        proof {
            use_type_invariant(&self);
            bitmask.lemma_bytes_len();
        }
        while i < size && i < 8
            invariant
                i <= size == B::byte_len(),
                i <= 8,
                self.well_formed(),
                bitmask.bytes().len() == size,
                forall|k: int| 0 <= k < i ==> bitmask.bytes()[k] == bitmask_byte(self@, k),
                forall|k: int| i <= k < size ==> bitmask.bytes()[k] == 0,
            decreases size - i,
        {
            proof {
                self.lemma_byte(i as int);
            }
            bitmask.set(i, self.0[i]);
            proof {
                bitmask.lemma_bytes_len();
            }
            i += 1;
        }
        assert(bitmask.bytes() =~= Seq::new(B::byte_len(), |i: int| bitmask_byte(self@, i))) by {
            assert forall|k: int| 8 <= k < size implies bitmask_byte(self@, k) == 0 by {
                assert(bitmask_prefix(self@, 8 * k, 8) == 0);
            }
        }
        bitmask
    }

    /// Convert a bitmask to a mask.
    fn from_bitmask<B: BitMaskBytes>(bitmask: B) -> (r: Self) {
        let size: usize = B::size();
        let full = Self::full();
        let mut bytes = [0u8;8];
        let mut i: usize = 0;
        proof {
            bitmask.lemma_bytes_len();
        }
        while i < 8
            invariant
                i <= 8,
                size == B::byte_len(),
                bitmask.bytes().len() == size,
                forall|k: int|
                    0 <= k < 8 * i ==> #[trigger] bit_of(bytes@, k) == (bit_of(bitmask.bytes(), k)
                        && bit_of(full@, k)),
                forall|k: int| i <= k < 8 ==> bytes@[k] == 0,
            decreases 8 - i,
        {
            let ghost before = bytes@;
            let byte: u8 = if i < size {
                bitmask.get(i)
            } else {
                0
            };
            bytes[i] = byte & full[i];
            assert forall|k: int| 0 <= k < 8 * (i + 1) implies #[trigger] bit_of(bytes@, k) == (
            bit_of(bitmask.bytes(), k) && bit_of(full@, k)) by {
                if k / 8 == i {
                    lemma_bitwise(byte, full@[i as int], (k % 8) as u8);
                } else {
                    assert(bit_of(before, k) == (bit_of(bitmask.bytes(), k) && bit_of(full@, k)));
                }
            }
            i += 1;
        }
        let r = Mask(bytes, PhantomData);
        assert(r@ =~= Seq::new(LANES as nat, |k: int| bit_of(bitmask.bytes(), k)));
        r
    }

    /// Returns true if any lane is set, or false otherwise.
    fn any(self) -> (r: bool) {
        let mut i: usize = 0;
        while i < LANES
            invariant
                i <= LANES,
                forall|k: int| 0 <= k < i ==> !self@[k],
            decreases LANES - i,
        {
            if self.test_unchecked(i) {
                return true;
            }
            i += 1;
        }
        false
    }

    /// Returns true if all lanes are set, or false otherwise.
    fn all(self) -> (r: bool) {
        let mut i: usize = 0;
        while i < LANES
            invariant
                i <= LANES,
                forall|k: int| 0 <= k < i ==> self@[k],
            decreases LANES - i,
        {
            if !self.test_unchecked(i) {
                return false;
            }
            i += 1;
        }
        true
    }

    fn and(self, rhs: Self) -> (r: Self) {
        proof {
            use_type_invariant(&self);
            use_type_invariant(&rhs);
        }
        let mut bytes = self.0;
        let mut i: usize = 0;
        while i < 8
            invariant
                i <= 8,
                forall|k: int| 0 <= k < i ==> #[trigger] bytes@[k] == self.0@[k] & rhs.0@[k],
                forall|k: int| i <= k < 8 ==> bytes@[k] == self.0@[k],
            decreases 8 - i,
        {
            bytes[i] = bytes[i] & rhs.0[i];
            i += 1;
        }
        assert forall|k: int| 0 <= k < 64 implies #[trigger] bit_of(bytes@, k) == (bit_of(
            self.0@,
            k,
        ) && bit_of(rhs.0@, k)) by {
            lemma_bitwise(self.0@[k / 8], rhs.0@[k / 8], (k % 8) as u8);
        }
        let r = Mask(bytes, PhantomData);
        assert(r@ =~= Seq::new(LANES as nat, |i: int| self@[i] && rhs@[i]));
        r
    }

    fn or(self, rhs: Self) -> (r: Self) {
        proof {
            use_type_invariant(&self);
            use_type_invariant(&rhs);
        }
        let mut bytes = self.0;
        let mut i: usize = 0;
        while i < 8
            invariant
                i <= 8,
                forall|k: int| 0 <= k < i ==> #[trigger] bytes@[k] == self.0@[k] | rhs.0@[k],
                forall|k: int| i <= k < 8 ==> bytes@[k] == self.0@[k],
            decreases 8 - i,
        {
            bytes[i] = bytes[i] | rhs.0[i];
            i += 1;
        }
        assert forall|k: int| 0 <= k < 64 implies #[trigger] bit_of(bytes@, k) == (bit_of(
            self.0@,
            k,
        ) || bit_of(rhs.0@, k)) by {
            lemma_bitwise(self.0@[k / 8], rhs.0@[k / 8], (k % 8) as u8);
        }
        let r = Mask(bytes, PhantomData);
        assert(r@ =~= Seq::new(LANES as nat, |i: int| self@[i] || rhs@[i]));
        r
    }

    fn xor(self, rhs: Self) -> (r: Self) {
        proof {
            use_type_invariant(&self);
            use_type_invariant(&rhs);
        }
        let mut bytes = self.0;
        let mut i: usize = 0;
        while i < 8
            invariant
                i <= 8,
                forall|k: int| 0 <= k < i ==> #[trigger] bytes@[k] == self.0@[k] ^ rhs.0@[k],
                forall|k: int| i <= k < 8 ==> bytes@[k] == self.0@[k],
            decreases 8 - i,
        {
            bytes[i] = bytes[i] ^ rhs.0[i];
            i += 1;
        }
        assert forall|k: int| 0 <= k < 64 implies #[trigger] bit_of(bytes@, k) == (bit_of(
            self.0@,
            k,
        ) != bit_of(rhs.0@, k)) by {
            lemma_bitwise(self.0@[k / 8], rhs.0@[k / 8], (k % 8) as u8);
        }
        let r = Mask(bytes, PhantomData);
        assert(r@ =~= Seq::new(LANES as nat, |i: int| self@[i] != rhs@[i]));
        r
    }

    fn not(self) -> (r: Self) {
        proof {
            use_type_invariant(&self);
        }
        let full = Self::full();
        let mut bytes = self.0;
        let mut i: usize = 0;
        while i < 8
            invariant
                i <= 8,
                forall|k: int| 0 <= k < i ==> #[trigger] bytes@[k] == self.0@[k] ^ full@[k],
                forall|k: int| i <= k < 8 ==> bytes@[k] == self.0@[k],
            decreases 8 - i,
        {
            bytes[i] = bytes[i] ^ full[i];
            i += 1;
        }
        assert forall|k: int| 0 <= k < 64 implies #[trigger] bit_of(bytes@, k) == (bit_of(
            self.0@,
            k,
        ) != (k < LANES)) by {
            lemma_bitwise(self.0@[k / 8], full@[k / 8], (k % 8) as u8);
            assert(bit_of(full@, k) == (k < LANES));
        }
        let r = Mask(bytes, PhantomData);
        assert(r@ =~= Seq::new(LANES as nat, |i: int| !self@[i]));
        r
    }
}

} // verus!
