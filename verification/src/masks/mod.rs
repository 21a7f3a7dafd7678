//! Types and traits associated with masking lanes of vectors.
use vstd::prelude::*;
use crate::masks::bitmask_spec::{bit_of, bitmask_byte, BitMaskBytes};
use crate::masks::element::{is_boolean, MaskElement};
use crate::masks::encoding::Encoding;
use crate::sealed::Sealed;
use crate::vector::Simd;

pub mod bitmask;
pub mod bitmask_spec;
pub mod convert;
pub mod element;
pub mod encoding;
pub mod full_masks;
pub mod laws;
pub mod ops;

verus! {

/// The encoding that masks are held in. The full-width encoding is the
/// default; `bitmask::Mask` is the one for targets with mask registers, and
/// takes this place there.
pub type MaskImpl<T, const LANES: usize> = full_masks::Mask<T, LANES>;

/// Why a checked operation on a mask was refused.
#[derive(Clone, Copy, Debug, PartialEq, Eq)]
pub enum MaskError {
    /// The lane index is not less than the number of lanes.
    LaneOutOfRange,
    /// A lane of the vector is neither 0 nor -1.
    InvalidPattern,
}

/// Helper trait for mask types.
pub trait Mask: Sealed {
    /// The bitmask representation of a mask.
    type BitMask: BitMaskBytes;

    /// The integer with one bit per lane.
    type IntBitMask;

    /// The bitmask has one bit per lane, in whole bytes, and there are no
    /// more lanes than the packed encoding can hold.
    proof fn lemma_bitmask()
        ensures
            Self::lanes() <= bitmask::MAX_LANES,
            <Self::BitMask as BitMaskBytes>::byte_len() == (Self::lanes() + 7) / 8,
    ;
}

/// The lanes that a vector of integers stands for: a lane is true where the
/// integer is -1.
pub open spec fn lanes_of_ints<T: MaskElement>(ints: Seq<T>) -> Seq<bool> {
    Seq::new(ints.len(), |i: int| ints[i] == T::of(true))
}

/// The vector of integers that stands for the lanes: -1 for true, 0 for
/// false.
pub open spec fn ints_of_lanes<T: MaskElement>(lanes: Seq<bool>) -> Seq<T> {
    Seq::new(lanes.len(), |i: int| T::of(lanes[i]))
}

/// Every integer is 0 or -1.
pub open spec fn all_boolean<T: MaskElement>(ints: Seq<T>) -> bool {
    forall|i: int| 0 <= i < ints.len() ==> is_boolean(#[trigger] ints[i])
}

/// The bitmask of the lanes: `ceil(n / 8)` bytes for `n` lanes, lane `k` in
/// bit `k % 8` of byte `k / 8`, the bits past the last lane clear.
pub open spec fn bitmask_of_lanes(lanes: Seq<bool>) -> Seq<u8> {
    Seq::new((lanes.len() + 7) / 8, |i: int| bitmask_byte(lanes, i))
}

/// The `count` lanes that a bitmask holds.
pub open spec fn lanes_of_bitmask(bytes: Seq<u8>, count: nat) -> Seq<bool> {
    Seq::new(count, |k: int| bit_of(bytes, k))
}

/// The lanes of a mask with `value` in each of its `count` lanes.
pub open spec fn lanes_splat(count: nat, value: bool) -> Seq<bool> {
    Seq::new(count, |i: int| value)
}

/// At least one lane is set.
pub open spec fn any_lane(lanes: Seq<bool>) -> bool {
    exists|i: int| 0 <= i < lanes.len() && lanes[i]
}

/// Every lane is set.
pub open spec fn all_lanes(lanes: Seq<bool>) -> bool {
    forall|i: int| 0 <= i < lanes.len() ==> lanes[i]
}

/// A mask of `LANES` lanes for vectors of elements of type `T`.
///
/// The layout of this type is unspecified.
pub struct SimdMask<T: MaskElement, const LANES: usize>(MaskImpl<T, LANES>);

impl<T: MaskElement, const LANES: usize> View for SimdMask<T, LANES> {
    type V = Seq<bool>;

    /// The lanes of the mask.
    closed spec fn view(&self) -> Seq<bool> {
        self.0@
    }
}

impl<T: MaskElement, const LANES: usize> Sealed for SimdMask<T, LANES> {
    open spec fn lanes() -> nat {
        LANES as nat
    }
}

impl<T: MaskElement> Mask for SimdMask<T, 1> {
    type BitMask = [u8; 1];

    type IntBitMask = u8;

    proof fn lemma_bitmask() {
    }
}

impl<T: MaskElement> Mask for SimdMask<T, 2> {
    type BitMask = [u8; 1];

    type IntBitMask = u8;

    proof fn lemma_bitmask() {
    }
}

impl<T: MaskElement> Mask for SimdMask<T, 4> {
    type BitMask = [u8; 1];

    type IntBitMask = u8;

    proof fn lemma_bitmask() {
    }
}

impl<T: MaskElement> Mask for SimdMask<T, 8> {
    type BitMask = [u8; 1];

    type IntBitMask = u8;

    proof fn lemma_bitmask() {
    }
}

impl<T: MaskElement> Mask for SimdMask<T, 16> {
    type BitMask = [u8; 2];

    type IntBitMask = u16;

    proof fn lemma_bitmask() {
    }
}

impl<T: MaskElement> Mask for SimdMask<T, 32> {
    type BitMask = [u8; 4];

    type IntBitMask = u32;

    proof fn lemma_bitmask() {
    }
}

impl Mask for SimdMask<i8, 64> {
    type BitMask = [u8; 8];

    type IntBitMask = u64;

    proof fn lemma_bitmask() {
    }
}

impl<T: MaskElement, const LANES: usize> Copy for SimdMask<T, LANES> {

}

impl<T: MaskElement, const LANES: usize> Clone for SimdMask<T, LANES> {
    fn clone(&self) -> (r: Self)
        ensures
            r == *self,
    {
        *self
    }
}

impl<T: MaskElement, const LANES: usize> SimdMask<T, LANES> where Self: Mask {
    /// A mask has as many lanes as its type says.
    pub proof fn lemma_len(self)
        ensures
            self@.len() == LANES,
    {
        self.0.lemma_len();
    }

    /// The encoding can hold a mask of this type.
    proof fn lemma_supported()
        ensures
            <MaskImpl<T, LANES> as Encoding<T, LANES>>::supported(),
    {
        Self::lemma_bitmask();
    }

    /// Construct a mask by setting all lanes to the given value.
    pub fn splat(value: bool) -> (r: Self)
        ensures
            r@ == lanes_splat(LANES as nat, value),
    {
        proof {
            Self::lemma_supported();
        }
        SimdMask(MaskImpl::<T, LANES>::splat(value))
    }

    /// Converts an array to a SIMD vector.
    pub fn from_array(array: [bool; LANES]) -> (r: Self)
        ensures
            r@ == array@,
    {
        let mut vector = Self::splat(false);
        let mut i: usize = 0;
        while i < LANES
            invariant
                i <= LANES,
                vector@.len() == LANES,
                forall|k: int| 0 <= k < i ==> vector@[k] == array@[k],
            decreases LANES - i,
        {
            vector.set_unchecked(i, array[i]);
            i += 1;
        }
        assert(vector@ =~= array@);
        vector
    }

    /// Converts a SIMD vector to an array.
    pub fn to_array(self) -> (r: [bool; LANES])
        ensures
            r@ == self@,
    {
        let mut array = [false;LANES];
        let mut i: usize = 0;
        proof {
            self.lemma_len();
        }
        while i < LANES
            invariant
                i <= LANES,
                self@.len() == LANES,
                forall|k: int| 0 <= k < i ==> array@[k] == self@[k],
            decreases LANES - i,
        {
            array[i] = self.test_unchecked(i);
            i += 1;
        }
        assert(array@ =~= self@);
        array
    }

    /// Converts a vector of integers to a mask, where 0 represents `false` and -1
    /// represents `true`. All lanes must be either 0 or -1.
    pub fn from_int_unchecked(value: Simd<T, LANES>) -> (r: Self)
        requires
            all_boolean(value@),
        ensures
            r@ == lanes_of_ints(value@),
    {
        proof {
            Self::lemma_supported();
        }
        let r = SimdMask(MaskImpl::<T, LANES>::from_int_unchecked(value));
        assert(r@ =~= lanes_of_ints(value@));
        r
    }

    /// Converts a vector of integers to a mask, where 0 represents `false` and -1
    /// represents `true`. Fails if any lane is not 0 or -1.
    pub fn from_int(value: Simd<T, LANES>) -> (r: Result<Self, MaskError>)
        ensures
            all_boolean(value@) ==> r is Ok,
            r matches Ok(mask) ==> all_boolean(value@) && mask@ == lanes_of_ints(value@),
            r matches Err(e) ==> e == MaskError::InvalidPattern,
    {
        let mut i: usize = 0;
        while i < LANES
            invariant
                i <= LANES,
                forall|k: int| 0 <= k < i ==> is_boolean(#[trigger] value@[k]),
            decreases LANES - i,
        {
            if !(value.0[i].is_clear() || value.0[i].is_set()) {
                assert(!is_boolean(value@[i as int]));
                return Err(MaskError::InvalidPattern);
            }
            i += 1;
        }
        Ok(Self::from_int_unchecked(value))
    }

    /// Converts the mask to a vector of integers, where 0 represents `false` and -1
    /// represents `true`.
    pub fn to_int(self) -> (r: Simd<T, LANES>)
        ensures
            r@ == ints_of_lanes::<T>(self@),
    {
        proof {
            self.lemma_len();
        }
        let r = self.0.to_int();
        assert(r@ =~= ints_of_lanes::<T>(self@));
        r
    }

    /// Tests the value of the specified lane, which must be less than `LANES`.
    pub fn test_unchecked(&self, lane: usize) -> (r: bool)
        requires
            lane < LANES,
        ensures
            r == self@[lane as int],
    {
        self.0.test_unchecked(lane)
    }

    /// Tests the value of the specified lane. Fails if `lane` is greater than
    /// or equal to the number of lanes in the vector.
    pub fn test(&self, lane: usize) -> (r: Result<bool, MaskError>)
        ensures
            lane < LANES ==> r == Ok::<bool, MaskError>(self@[lane as int]),
            lane >= LANES ==> r == Err::<bool, MaskError>(MaskError::LaneOutOfRange),
    {
        if lane < LANES {
            Ok(self.test_unchecked(lane))
        } else {
            Err(MaskError::LaneOutOfRange)
        }
    }

    /// Sets the value of the specified lane, which must be less than `LANES`.
    pub fn set_unchecked(&mut self, lane: usize, value: bool)
        requires
            lane < LANES,
        ensures
            final(self)@ == old(self)@.update(lane as int, value),
    {
        self.0.set_unchecked(lane, value);
    }

    /// Sets the value of the specified lane. Fails, and leaves the mask as it
    /// is, if `lane` is greater than or equal to the number of lanes in the
    /// vector.
    pub fn set(&mut self, lane: usize, value: bool) -> (r: Result<(), MaskError>)
        ensures
            lane < LANES ==> r is Ok && final(self)@ == old(self)@.update(lane as int, value),
            lane >= LANES ==> r == Err::<(), MaskError>(MaskError::LaneOutOfRange) && *final(self)
                == *old(self),
    {
        if lane < LANES {
            self.set_unchecked(lane, value);
            Ok(())
        } else {
            Err(MaskError::LaneOutOfRange)
        }
    }

    /// Convert this mask to a bitmask, with one bit set per lane.
    pub fn to_bitmask(self) -> (r: <Self as Mask>::BitMask)
        ensures
            r.bytes() == bitmask_of_lanes(self@),
    {
        proof {
            Self::lemma_bitmask();
            self.lemma_len();
        }
        let r = self.0.to_bitmask::<<Self as Mask>::BitMask>();
        assert(r.bytes() =~= bitmask_of_lanes(self@));
        r
    }

    /// Convert a bitmask to a mask.
    pub fn from_bitmask(bitmask: <Self as Mask>::BitMask) -> (r: Self)
        ensures
            r@ == lanes_of_bitmask(bitmask.bytes(), LANES as nat),
    {
        proof {
            Self::lemma_supported();
        }
        SimdMask(MaskImpl::<T, LANES>::from_bitmask::<<Self as Mask>::BitMask>(bitmask))
    }

    /// Returns true if any lane is set, or false otherwise.
    pub fn any(self) -> (r: bool)
        ensures
            r == any_lane(self@),
    {
        proof {
            self.lemma_len();
        }
        self.0.any()
    }

    /// Returns true if all lanes are set, or false otherwise.
    pub fn all(self) -> (r: bool)
        ensures
            r == all_lanes(self@),
    {
        proof {
            self.lemma_len();
        }
        self.0.all()
    }

    /// Converts the mask to one for vectors of another element width and the
    /// same number of lanes.
    pub fn cast<U: MaskElement>(self) -> (r: SimdMask<U, LANES>) where SimdMask<U, LANES>: Mask
        ensures
            r@ == self@,
    {
        SimdMask::<U, LANES>::from_array(self.to_array())
    }
}

/// Mask for vectors with `LANES` 8-bit elements.
pub type Mask8<const LANES: usize> = SimdMask<i8, LANES>;

/// Mask for vectors with `LANES` 16-bit elements.
pub type Mask16<const LANES: usize> = SimdMask<i16, LANES>;

/// Mask for vectors with `LANES` 32-bit elements.
pub type Mask32<const LANES: usize> = SimdMask<i32, LANES>;

/// Mask for vectors with `LANES` 64-bit elements.
pub type Mask64<const LANES: usize> = SimdMask<i64, LANES>;

/// Mask for vectors with `LANES` pointer-width elements.
pub type MaskSize<const LANES: usize> = SimdMask<isize, LANES>;

/// Vector of eight 8-bit masks
pub type mask8x8 = Mask8<8>;

/// Vector of 16 8-bit masks
pub type mask8x16 = Mask8<16>;

/// Vector of 32 8-bit masks
pub type mask8x32 = Mask8<32>;

/// Vector of 64 8-bit masks
pub type mask8x64 = Mask8<64>;

/// Vector of four 16-bit masks
pub type mask16x4 = Mask16<4>;

/// Vector of eight 16-bit masks
pub type mask16x8 = Mask16<8>;

/// Vector of 16 16-bit masks
pub type mask16x16 = Mask16<16>;

/// Vector of 32 16-bit masks
pub type mask16x32 = Mask16<32>;

/// Vector of two 32-bit masks
pub type mask32x2 = Mask32<2>;

/// Vector of four 32-bit masks
pub type mask32x4 = Mask32<4>;

/// Vector of eight 32-bit masks
pub type mask32x8 = Mask32<8>;

/// Vector of 16 32-bit masks
pub type mask32x16 = Mask32<16>;

/// Vector of two 64-bit masks
pub type mask64x2 = Mask64<2>;

/// Vector of four 64-bit masks
pub type mask64x4 = Mask64<4>;

/// Vector of eight 64-bit masks
pub type mask64x8 = Mask64<8>;

/// Vector of two pointer-width masks
pub type masksizex2 = MaskSize<2>;

/// Vector of four pointer-width masks
pub type masksizex4 = MaskSize<4>;

/// Vector of eight pointer-width masks
pub type masksizex8 = MaskSize<8>;

} // verus!
