//! Lane-wise arithmetic on floating-point vectors.
use vstd::prelude::*;
use crate::binary32;
use crate::binary64;
use crate::vector::{SimdF32, SimdF64, Vector};

verus! {

impl<const LANES: usize> SimdF32<LANES> where Self: Vector {
    /// Lane-wise product.
    pub fn mul(self, rhs: Self) -> (r: Self)
        ensures
            r@ == Seq::new(LANES as nat, |i: int| binary32::multiply_spec(self@[i], rhs@[i])),
    {
        let mut out = self.0;
        let mut i: usize = 0;
        while i < LANES
            invariant
                i <= LANES,
                forall|j: int| 0 <= j < i ==> out@[j] == binary32::multiply_spec(self@[j], rhs@[j]),
            decreases LANES - i,
        {
            out[i] = binary32::multiply(self.0[i], rhs.0[i]);
            i += 1;
        }
        let r = SimdF32(out);
        assert(r@ =~= Seq::new(LANES as nat, |i: int| binary32::multiply_spec(self@[i], rhs@[i])));
        r
    }

    /// Lane-wise sum.
    pub fn add(self, rhs: Self) -> (r: Self)
        ensures
            r@ == Seq::new(LANES as nat, |i: int| binary32::add_spec(self@[i], rhs@[i])),
    {
        let mut out = self.0;
        let mut i: usize = 0;
        while i < LANES
            invariant
                i <= LANES,
                forall|j: int| 0 <= j < i ==> out@[j] == binary32::add_spec(self@[j], rhs@[j]),
            decreases LANES - i,
        {
            out[i] = binary32::add(self.0[i], rhs.0[i]);
            i += 1;
        }
        let r = SimdF32(out);
        assert(r@ =~= Seq::new(LANES as nat, |i: int| binary32::add_spec(self@[i], rhs@[i])));
        r
    }

    /// Lane-wise difference.
    pub fn sub(self, rhs: Self) -> (r: Self)
        ensures
            r@ == Seq::new(LANES as nat, |i: int| binary32::subtract_spec(self@[i], rhs@[i])),
    {
        let mut out = self.0;
        let mut i: usize = 0;
        while i < LANES
            invariant
                i <= LANES,
                forall|j: int| 0 <= j < i ==> out@[j] == binary32::subtract_spec(self@[j], rhs@[j]),
            decreases LANES - i,
        {
            out[i] = binary32::subtract(self.0[i], rhs.0[i]);
            i += 1;
        }
        let r = SimdF32(out);
        assert(r@ =~= Seq::new(LANES as nat, |i: int| binary32::subtract_spec(self@[i], rhs@[i])));
        r
    }

    /// Lane-wise absolute value.
    pub fn abs(self) -> (r: Self)
        ensures
            r@ == Seq::new(LANES as nat, |i: int| binary32::abs_bits(self@[i]) as u32),
    {
        let mut out = self.0;
        let mut i: usize = 0;
        while i < LANES
            invariant
                i <= LANES,
                forall|j: int| 0 <= j < i ==> out@[j] == binary32::abs_bits(self@[j]),
            decreases LANES - i,
        {
            out[i] = binary32::abs(self.0[i]);
            i += 1;
        }
        let r = SimdF32(out);
        assert(r@ =~= Seq::new(LANES as nat, |i: int| binary32::abs_bits(self@[i]) as u32));
        r
    }
}

impl<const LANES: usize> SimdF64<LANES> where Self: Vector {
    /// Lane-wise product.
    pub fn mul(self, rhs: Self) -> (r: Self)
        ensures
            r@ == Seq::new(LANES as nat, |i: int| binary64::multiply_spec(self@[i], rhs@[i])),
    {
        let mut out = self.0;
        let mut i: usize = 0;
        while i < LANES
            invariant
                i <= LANES,
                forall|j: int| 0 <= j < i ==> out@[j] == binary64::multiply_spec(self@[j], rhs@[j]),
            decreases LANES - i,
        {
            out[i] = binary64::multiply(self.0[i], rhs.0[i]);
            i += 1;
        }
        let r = SimdF64(out);
        assert(r@ =~= Seq::new(LANES as nat, |i: int| binary64::multiply_spec(self@[i], rhs@[i])));
        r
    }

    /// Lane-wise sum.
    pub fn add(self, rhs: Self) -> (r: Self)
        ensures
            r@ == Seq::new(LANES as nat, |i: int| binary64::add_spec(self@[i], rhs@[i])),
    {
        let mut out = self.0;
        let mut i: usize = 0;
        while i < LANES
            invariant
                i <= LANES,
                forall|j: int| 0 <= j < i ==> out@[j] == binary64::add_spec(self@[j], rhs@[j]),
            decreases LANES - i,
        {
            out[i] = binary64::add(self.0[i], rhs.0[i]);
            i += 1;
        }
        let r = SimdF64(out);
        assert(r@ =~= Seq::new(LANES as nat, |i: int| binary64::add_spec(self@[i], rhs@[i])));
        r
    }

    /// Lane-wise difference.
    pub fn sub(self, rhs: Self) -> (r: Self)
        ensures
            r@ == Seq::new(LANES as nat, |i: int| binary64::subtract_spec(self@[i], rhs@[i])),
    {
        let mut out = self.0;
        let mut i: usize = 0;
        while i < LANES
            invariant
                i <= LANES,
                forall|j: int| 0 <= j < i ==> out@[j] == binary64::subtract_spec(self@[j], rhs@[j]),
            decreases LANES - i,
        {
            out[i] = binary64::subtract(self.0[i], rhs.0[i]);
            i += 1;
        }
        let r = SimdF64(out);
        assert(r@ =~= Seq::new(LANES as nat, |i: int| binary64::subtract_spec(self@[i], rhs@[i])));
        r
    }

    /// Lane-wise absolute value.
    pub fn abs(self) -> (r: Self)
        ensures
            r@ == Seq::new(LANES as nat, |i: int| binary64::abs_bits(self@[i]) as u64),
    {
        let mut out = self.0;
        let mut i: usize = 0;
        while i < LANES
            invariant
                i <= LANES,
                forall|j: int| 0 <= j < i ==> out@[j] == binary64::abs_bits(self@[j]),
            decreases LANES - i,
        {
            out[i] = binary64::abs(self.0[i]);
            i += 1;
        }
        let r = SimdF64(out);
        assert(r@ =~= Seq::new(LANES as nat, |i: int| binary64::abs_bits(self@[i]) as u64));
        r
    }
}

} // verus!
