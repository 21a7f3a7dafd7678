//! Rounding of floating-point vectors and conversion to and from integers.
use vstd::prelude::*;
use crate::binary32;
use crate::binary64;
use crate::dyadic::absolute;
use crate::vector::{Simd, SimdF32, SimdF64, SimdI32, SimdI64, Vector};

verus! {

impl<const LANES: usize> SimdF32<LANES> where Self: Vector {
    /// Returns the smallest integer greater than or equal to each lane.
    #[must_use]
    pub fn ceil(self) -> (r: Self)
        ensures
            r@ == Seq::new(LANES as nat, |i: int| binary32::ceil_spec(self@[i])),
    {
        let mut out = self.0;
        let mut i: usize = 0;
        while i < LANES
            invariant
                i <= LANES,
                forall|j: int| 0 <= j < i ==> out@[j] == binary32::ceil_spec(self@[j]),
                forall|j: int| i <= j < LANES ==> out@[j] == self@[j],
            decreases LANES - i,
        {
            out[i] = binary32::ceil(out[i]);
            i += 1;
        }
        let r = SimdF32(out);
        assert(r@ =~= Seq::new(LANES as nat, |i: int| binary32::ceil_spec(self@[i])));
        r
    }

    /// Returns the largest integer value less than or equal to each lane.
    #[must_use]
    pub fn floor(self) -> (r: Self)
        ensures
            r@ == Seq::new(LANES as nat, |i: int| binary32::floor_spec(self@[i])),
    {
        let mut out = self.0;
        let mut i: usize = 0;
        while i < LANES
            invariant
                i <= LANES,
                forall|j: int| 0 <= j < i ==> out@[j] == binary32::floor_spec(self@[j]),
                forall|j: int| i <= j < LANES ==> out@[j] == self@[j],
            decreases LANES - i,
        {
            out[i] = binary32::floor(out[i]);
            i += 1;
        }
        let r = SimdF32(out);
        assert(r@ =~= Seq::new(LANES as nat, |i: int| binary32::floor_spec(self@[i])));
        r
    }

    /// Rounds to the nearest integer value. Ties round toward zero.
    #[must_use]
    pub fn round(self) -> (r: Self)
        ensures
            r@ == Seq::new(LANES as nat, |i: int| binary32::round_spec(self@[i])),
    {
        let mut out = self.0;
        let mut i: usize = 0;
        while i < LANES
            invariant
                i <= LANES,
                forall|j: int| 0 <= j < i ==> out@[j] == binary32::round_spec(self@[j]),
                forall|j: int| i <= j < LANES ==> out@[j] == self@[j],
            decreases LANES - i,
        {
            out[i] = binary32::round(out[i]);
            i += 1;
        }
        let r = SimdF32(out);
        assert(r@ =~= Seq::new(LANES as nat, |i: int| binary32::round_spec(self@[i])));
        r
    }

    /// Returns the floating point's integer value, with its fractional part removed.
    #[must_use]
    pub fn trunc(self) -> (r: Self)
        ensures
            r@ == Seq::new(LANES as nat, |i: int| binary32::trunc_spec(self@[i])),
    {
        let mut out = self.0;
        let mut i: usize = 0;
        while i < LANES
            invariant
                i <= LANES,
                forall|j: int| 0 <= j < i ==> out@[j] == binary32::trunc_spec(self@[j]),
                forall|j: int| i <= j < LANES ==> out@[j] == self@[j],
            decreases LANES - i,
        {
            out[i] = binary32::trunc(out[i]);
            i += 1;
        }
        let r = SimdF32(out);
        assert(r@ =~= Seq::new(LANES as nat, |i: int| binary32::trunc_spec(self@[i])));
        r
    }

    /// Returns the floating point's fractional value, with its integer part removed.
    #[must_use]
    pub fn fract(self) -> (r: Self)
        ensures
            r@ == Seq::new(LANES as nat, |i: int| binary32::fract_spec(self@[i])),
    {
        let mut out = self.0;
        let mut i: usize = 0;
        while i < LANES
            invariant
                i <= LANES,
                forall|j: int| 0 <= j < i ==> out@[j] == binary32::fract_spec(self@[j]),
                forall|j: int| i <= j < LANES ==> out@[j] == self@[j],
            decreases LANES - i,
        {
            out[i] = binary32::fract(out[i]);
            i += 1;
        }
        let r = SimdF32(out);
        assert(r@ =~= Seq::new(LANES as nat, |i: int| binary32::fract_spec(self@[i])));
        r
    }

    /// Rounds toward zero and converts to the same-width integer type, assuming that
    /// the value is finite and fits in that type.
    ///
    /// The value must:
    ///
    /// * Not be NaN
    /// * Not be infinite
    /// * Be representable in the return type, after truncating off its fractional part
    pub fn to_int_unchecked(self) -> (r: SimdI32<LANES>)
        requires
            forall|i: int| 0 <= i < LANES ==> binary32::fits_integer(#[trigger] self@[i]),
        ensures
            r@.len() == LANES,
            forall|i: int| 0 <= i < LANES ==> #[trigger] r@[i] == binary32::to_integer_spec(self@[i]),
    {
        let mut out = [0i32;LANES];
        let mut i: usize = 0;
        while i < LANES
            invariant
                i <= LANES,
                forall|j: int| 0 <= j < LANES ==> binary32::fits_integer(#[trigger] self@[j]),
                forall|j: int|
                    0 <= j < i ==> #[trigger] out@[j] == binary32::to_integer_spec(self@[j]),
            decreases LANES - i,
        {
            assert(binary32::fits_integer(self@[i as int]));
            out[i] = binary32::to_integer(self.0[i]);
            i += 1;
        }
        Simd(out)
    }

    /// Creates a floating-point vector from an integer vector.  Rounds values that are
    /// not exactly representable.
    pub fn round_from_int(value: SimdI32<LANES>) -> (r: Self)
        ensures
            r@ == Seq::new(
                LANES as nat,
                |i: int|
                    binary32::from_integer_spec(value@[i] < 0, absolute(value@[i] as int)),
            ),
    {
        let mut out = [0u32;LANES];
        let mut i: usize = 0;
        while i < LANES
            invariant
                i <= LANES,
                forall|j: int|
                    0 <= j < i ==> #[trigger] out@[j] == binary32::from_integer_spec(
                        value@[j] < 0,
                        absolute(value@[j] as int),
                    ),
            decreases LANES - i,
        {
            out[i] = binary32::from_integer(value.0[i]);
            i += 1;
        }
        let r = SimdF32(out);
        assert(r@ =~= Seq::new(
            LANES as nat,
            |i: int|
                binary32::from_integer_spec(value@[i] < 0, absolute(value@[i] as int)),
        ));
        r
    }
}

impl<const LANES: usize> SimdF64<LANES> where Self: Vector {
    /// Returns the smallest integer greater than or equal to each lane.
    #[must_use]
    pub fn ceil(self) -> (r: Self)
        ensures
            r@ == Seq::new(LANES as nat, |i: int| binary64::ceil_spec(self@[i])),
    {
        let mut out = self.0;
        let mut i: usize = 0;
        while i < LANES
            invariant
                i <= LANES,
                forall|j: int| 0 <= j < i ==> out@[j] == binary64::ceil_spec(self@[j]),
                forall|j: int| i <= j < LANES ==> out@[j] == self@[j],
            decreases LANES - i,
        {
            out[i] = binary64::ceil(out[i]);
            i += 1;
        }
        let r = SimdF64(out);
        assert(r@ =~= Seq::new(LANES as nat, |i: int| binary64::ceil_spec(self@[i])));
        r
    }

    /// Returns the largest integer value less than or equal to each lane.
    #[must_use]
    pub fn floor(self) -> (r: Self)
        ensures
            r@ == Seq::new(LANES as nat, |i: int| binary64::floor_spec(self@[i])),
    {
        let mut out = self.0;
        let mut i: usize = 0;
        while i < LANES
            invariant
                i <= LANES,
                forall|j: int| 0 <= j < i ==> out@[j] == binary64::floor_spec(self@[j]),
                forall|j: int| i <= j < LANES ==> out@[j] == self@[j],
            decreases LANES - i,
        {
            out[i] = binary64::floor(out[i]);
            i += 1;
        }
        let r = SimdF64(out);
        assert(r@ =~= Seq::new(LANES as nat, |i: int| binary64::floor_spec(self@[i])));
        r
    }

    /// Rounds to the nearest integer value. Ties round toward zero.
    #[must_use]
    pub fn round(self) -> (r: Self)
        ensures
            r@ == Seq::new(LANES as nat, |i: int| binary64::round_spec(self@[i])),
    {
        let mut out = self.0;
        let mut i: usize = 0;
        while i < LANES
            invariant
                i <= LANES,
                forall|j: int| 0 <= j < i ==> out@[j] == binary64::round_spec(self@[j]),
                forall|j: int| i <= j < LANES ==> out@[j] == self@[j],
            decreases LANES - i,
        {
            out[i] = binary64::round(out[i]);
            i += 1;
        }
        let r = SimdF64(out);
        assert(r@ =~= Seq::new(LANES as nat, |i: int| binary64::round_spec(self@[i])));
        r
    }

    /// Returns the floating point's integer value, with its fractional part removed.
    #[must_use]
    pub fn trunc(self) -> (r: Self)
        ensures
            r@ == Seq::new(LANES as nat, |i: int| binary64::trunc_spec(self@[i])),
    {
        let mut out = self.0;
        let mut i: usize = 0;
        while i < LANES
            invariant
                i <= LANES,
                forall|j: int| 0 <= j < i ==> out@[j] == binary64::trunc_spec(self@[j]),
                forall|j: int| i <= j < LANES ==> out@[j] == self@[j],
            decreases LANES - i,
        {
            out[i] = binary64::trunc(out[i]);
            i += 1;
        }
        let r = SimdF64(out);
        assert(r@ =~= Seq::new(LANES as nat, |i: int| binary64::trunc_spec(self@[i])));
        r
    }

    /// Returns the floating point's fractional value, with its integer part removed.
    #[must_use]
    pub fn fract(self) -> (r: Self)
        ensures
            r@ == Seq::new(LANES as nat, |i: int| binary64::fract_spec(self@[i])),
    {
        let mut out = self.0;
        let mut i: usize = 0;
        while i < LANES
            invariant
                i <= LANES,
                forall|j: int| 0 <= j < i ==> out@[j] == binary64::fract_spec(self@[j]),
                forall|j: int| i <= j < LANES ==> out@[j] == self@[j],
            decreases LANES - i,
        {
            out[i] = binary64::fract(out[i]);
            i += 1;
        }
        let r = SimdF64(out);
        assert(r@ =~= Seq::new(LANES as nat, |i: int| binary64::fract_spec(self@[i])));
        r
    }

    /// Rounds toward zero and converts to the same-width integer type, assuming that
    /// the value is finite and fits in that type.
    ///
    /// The value must:
    ///
    /// * Not be NaN
    /// * Not be infinite
    /// * Be representable in the return type, after truncating off its fractional part
    pub fn to_int_unchecked(self) -> (r: SimdI64<LANES>)
        requires
            forall|i: int| 0 <= i < LANES ==> binary64::fits_integer(#[trigger] self@[i]),
        ensures
            r@.len() == LANES,
            forall|i: int| 0 <= i < LANES ==> #[trigger] r@[i] == binary64::to_integer_spec(self@[i]),
    {
        let mut out = [0i64;LANES];
        let mut i: usize = 0;
        while i < LANES
            invariant
                i <= LANES,
                forall|j: int| 0 <= j < LANES ==> binary64::fits_integer(#[trigger] self@[j]),
                forall|j: int|
                    0 <= j < i ==> #[trigger] out@[j] == binary64::to_integer_spec(self@[j]),
            decreases LANES - i,
        {
            assert(binary64::fits_integer(self@[i as int]));
            out[i] = binary64::to_integer(self.0[i]);
            i += 1;
        }
        Simd(out)
    }

    /// Creates a floating-point vector from an integer vector.  Rounds values that are
    /// not exactly representable.
    pub fn round_from_int(value: SimdI64<LANES>) -> (r: Self)
        ensures
            r@ == Seq::new(
                LANES as nat,
                |i: int|
                    binary64::from_integer_spec(value@[i] < 0, absolute(value@[i] as int)),
            ),
    {
        let mut out = [0u64;LANES];
        let mut i: usize = 0;
        while i < LANES
            invariant
                i <= LANES,
                forall|j: int|
                    0 <= j < i ==> #[trigger] out@[j] == binary64::from_integer_spec(
                        value@[j] < 0,
                        absolute(value@[j] as int),
                    ),
            decreases LANES - i,
        {
            out[i] = binary64::from_integer(value.0[i]);
            i += 1;
        }
        let r = SimdF64(out);
        assert(r@ =~= Seq::new(
            LANES as nat,
            |i: int|
                binary64::from_integer_spec(value@[i] < 0, absolute(value@[i] as int)),
        ));
        r
    }
}

} // verus!
