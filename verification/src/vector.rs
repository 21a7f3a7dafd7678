//! Fixed-width numeric vectors.
use vstd::prelude::*;
use crate::sealed::Sealed;

verus! {

/// A vector of `LANES` elements of type `T`.
pub struct Simd<T, const LANES: usize>(pub [T; LANES]);

impl<T: Copy, const LANES: usize> Copy for Simd<T, LANES> {

}

impl<T: Copy, const LANES: usize> Clone for Simd<T, LANES> {
    fn clone(&self) -> (r: Self)
        ensures
            r == *self,
    {
        *self
    }
}

impl<T, const LANES: usize> View for Simd<T, LANES> {
    type V = Seq<T>;

    open spec fn view(&self) -> Seq<T> {
        self.0@
    }
}

impl<T: Copy, const LANES: usize> Simd<T, LANES> {
    /// Construct a vector by setting all lanes to the given value.
    pub fn splat(value: T) -> (r: Self)
        ensures
            r@ == Seq::new(LANES as nat, |i: int| value),
    {
        let r = Simd([value;LANES]);
        assert(r@ =~= Seq::new(LANES as nat, |i: int| value));
        r
    }

    /// Converts an array to a vector.
    pub fn from_array(array: [T; LANES]) -> (r: Self)
        ensures
            r@ == array@,
    {
        Simd(array)
    }

    /// Converts a vector to an array.
    pub fn to_array(self) -> (r: [T; LANES])
        ensures
            r@ == self@,
    {
        self.0
    }
}

/// A vector of `LANES` 8-bit signed integers.
pub type SimdI8<const LANES: usize> = Simd<i8, LANES>;

/// A vector of `LANES` 16-bit signed integers.
pub type SimdI16<const LANES: usize> = Simd<i16, LANES>;

/// A vector of `LANES` 32-bit signed integers.
pub type SimdI32<const LANES: usize> = Simd<i32, LANES>;

/// A vector of `LANES` 64-bit signed integers.
pub type SimdI64<const LANES: usize> = Simd<i64, LANES>;

/// A vector of `LANES` pointer-width signed integers.
pub type SimdIsize<const LANES: usize> = Simd<isize, LANES>;

/// A vector of `LANES` 8-bit unsigned integers.
pub type SimdU8<const LANES: usize> = Simd<u8, LANES>;

/// A vector of `LANES` 16-bit unsigned integers.
pub type SimdU16<const LANES: usize> = Simd<u16, LANES>;

/// A vector of `LANES` 32-bit unsigned integers.
pub type SimdU32<const LANES: usize> = Simd<u32, LANES>;

/// A vector of `LANES` 64-bit unsigned integers.
pub type SimdU64<const LANES: usize> = Simd<u64, LANES>;

/// A vector of `LANES` pointer-width unsigned integers.
pub type SimdUsize<const LANES: usize> = Simd<usize, LANES>;

/// A vector of `LANES` binary32 floating-point values, each lane held as
/// its bit pattern.
#[derive(Clone, Copy)]
pub struct SimdF32<const LANES: usize>(pub [u32; LANES]);

impl<const LANES: usize> View for SimdF32<LANES> {
    type V = Seq<u32>;

    open spec fn view(&self) -> Seq<u32> {
        self.0@
    }
}

impl<const LANES: usize> SimdF32<LANES> {
    /// Construct a vector by setting all lanes to the value with the given
    /// bit pattern.
    pub fn splat(bits: u32) -> (r: Self)
        ensures
            r@ == Seq::new(LANES as nat, |i: int| bits),
    {
        let r = SimdF32([bits;LANES]);
        assert(r@ =~= Seq::new(LANES as nat, |i: int| bits));
        r
    }

    /// Converts an array of bit patterns to a vector.
    pub fn from_bits(bits: [u32; LANES]) -> (r: Self)
        ensures
            r@ == bits@,
    {
        SimdF32(bits)
    }

    /// Converts a vector to the array of its lanes' bit patterns.
    pub fn to_bits(self) -> (r: [u32; LANES])
        ensures
            r@ == self@,
    {
        self.0
    }
}

/// A vector of `LANES` binary64 floating-point values, each lane held as
/// its bit pattern.
#[derive(Clone, Copy)]
pub struct SimdF64<const LANES: usize>(pub [u64; LANES]);

impl<const LANES: usize> View for SimdF64<LANES> {
    type V = Seq<u64>;

    open spec fn view(&self) -> Seq<u64> {
        self.0@
    }
}

impl<const LANES: usize> SimdF64<LANES> {
    /// Construct a vector by setting all lanes to the value with the given
    /// bit pattern.
    pub fn splat(bits: u64) -> (r: Self)
        ensures
            r@ == Seq::new(LANES as nat, |i: int| bits),
    {
        let r = SimdF64([bits;LANES]);
        assert(r@ =~= Seq::new(LANES as nat, |i: int| bits));
        r
    }

    /// Converts an array of bit patterns to a vector.
    pub fn from_bits(bits: [u64; LANES]) -> (r: Self)
        ensures
            r@ == bits@,
    {
        SimdF64(bits)
    }

    /// Converts a vector to the array of its lanes' bit patterns.
    pub fn to_bits(self) -> (r: [u64; LANES])
        ensures
            r@ == self@,
    {
        self.0
    }
}

/// A vector with a supported number of lanes: 1, 2, 4, 8, 16 or 32, and 64
/// where the elements are 8 bits wide.
pub trait Vector: Sealed {
    /// There is at least one lane, and there are at most 64.
    proof fn lemma_lanes()
        ensures
            1 <= Self::lanes() <= 64,
    ;
}

impl<T, const LANES: usize> Sealed for Simd<T, LANES> {
    open spec fn lanes() -> nat {
        LANES as nat
    }
}

impl<const LANES: usize> Sealed for SimdF32<LANES> {
    open spec fn lanes() -> nat {
        LANES as nat
    }
}

impl<const LANES: usize> Sealed for SimdF64<LANES> {
    open spec fn lanes() -> nat {
        LANES as nat
    }
}

impl<T> Vector for Simd<T, 1> {
    proof fn lemma_lanes() {
    }
}

impl Vector for SimdF32<1> {
    proof fn lemma_lanes() {
    }
}

impl Vector for SimdF64<1> {
    proof fn lemma_lanes() {
    }
}

impl<T> Vector for Simd<T, 2> {
    proof fn lemma_lanes() {
    }
}

impl Vector for SimdF32<2> {
    proof fn lemma_lanes() {
    }
}

impl Vector for SimdF64<2> {
    proof fn lemma_lanes() {
    }
}

impl<T> Vector for Simd<T, 4> {
    proof fn lemma_lanes() {
    }
}

impl Vector for SimdF32<4> {
    proof fn lemma_lanes() {
    }
}

impl Vector for SimdF64<4> {
    proof fn lemma_lanes() {
    }
}

impl<T> Vector for Simd<T, 8> {
    proof fn lemma_lanes() {
    }
}

impl Vector for SimdF32<8> {
    proof fn lemma_lanes() {
    }
}

impl Vector for SimdF64<8> {
    proof fn lemma_lanes() {
    }
}

impl<T> Vector for Simd<T, 16> {
    proof fn lemma_lanes() {
    }
}

impl Vector for SimdF32<16> {
    proof fn lemma_lanes() {
    }
}

impl Vector for SimdF64<16> {
    proof fn lemma_lanes() {
    }
}

impl<T> Vector for Simd<T, 32> {
    proof fn lemma_lanes() {
    }
}

impl Vector for SimdF32<32> {
    proof fn lemma_lanes() {
    }
}

impl Vector for SimdF64<32> {
    proof fn lemma_lanes() {
    }
}

impl Vector for Simd<i8, 64> {
    proof fn lemma_lanes() {
    }
}

impl Vector for Simd<u8, 64> {
    proof fn lemma_lanes() {
    }
}

} // verus!
