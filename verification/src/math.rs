//! Approximations of transcendental functions on floating-point vectors.
use vstd::prelude::*;
use crate::binary32;
use crate::vector::{SimdF32, Vector};

verus! {

/// Bit pattern of the binary32 value nearest to `1 / (2 * pi)`.
pub const INV_TAU: u32 = 0x3e22_f983;

/// Bit pattern of `0.5`.
pub const ONE_HALF: u32 = 0x3f00_0000;

/// Bit pattern of the coefficient of the fifth power of the squared argument
/// in the sine polynomial: the binary32 value nearest to
/// `12.268859941019306`.
pub const SIN_C5: u32 = 0x4144_4d40;

/// Bit pattern of the coefficient of the fourth power: the binary32 value
/// nearest to `-41.216241051002875`.
pub const SIN_C4: u32 = 0xc224_dd6e;

/// Bit pattern of the coefficient of the third power: the binary32 value
/// nearest to `76.58672703334098`.
pub const SIN_C3: u32 = 0x4299_2c67;

/// Bit pattern of the coefficient of the second power: the binary32 value
/// nearest to `-81.59746095374902`.
pub const SIN_C2: u32 = 0xc2a3_31e6;

/// Bit pattern of the coefficient of the first power: the binary32 value
/// nearest to `41.34151143437585`.
pub const SIN_C1: u32 = 0x4225_5db5;

/// Bit pattern of the constant coefficient: the binary32 value nearest to
/// `-6.283184525811273`.
pub const SIN_C0: u32 = 0xc0c9_0fd9;

/// The reduced argument of the sine: the angle in turns, less its floor and
/// less one half.
pub open spec fn sin_reduce(x: u32) -> u32 {
    let turns = binary32::multiply_spec(INV_TAU, x);
    binary32::subtract_spec(binary32::subtract_spec(turns, binary32::floor_spec(turns)), ONE_HALF)
}

/// The sine polynomial at the reduced argument `x`: a polynomial in `x * x`,
/// evaluated by Horner's rule with one fused multiply-add per coefficient, and
/// multiplied by `x`.
pub open spec fn sin_polynomial(x: u32) -> u32 {
    let x2 = binary32::multiply_spec(x, x);
    let sum4 = binary32::fused_multiply_add_spec(SIN_C5, x2, SIN_C4);
    let sum3 = binary32::fused_multiply_add_spec(sum4, x2, SIN_C3);
    let sum2 = binary32::fused_multiply_add_spec(sum3, x2, SIN_C2);
    let sum1 = binary32::fused_multiply_add_spec(sum2, x2, SIN_C1);
    let sum0 = binary32::fused_multiply_add_spec(sum1, x2, SIN_C0);
    binary32::multiply_spec(sum0, x)
}

/// The approximate sine of one lane.
pub open spec fn sin_spec(x: u32) -> u32 {
    sin_polynomial(sin_reduce(x))
}

impl<const LANES: usize> SimdF32<LANES> where Self: Vector {
    /// Lane-wise `self * mul + add`, the exact result rounded once.
    pub fn mul_add(self, mul: Self, add: Self) -> (r: Self)
        ensures
            r@ == Seq::new(
                LANES as nat,
                |i: int| binary32::fused_multiply_add_spec(self@[i], mul@[i], add@[i]),
            ),
    {
        let mut out = self.0;
        let mut i: usize = 0;
        while i < LANES
            invariant
                i <= LANES,
                forall|j: int|
                    0 <= j < i ==> out@[j] == binary32::fused_multiply_add_spec(
                        self@[j],
                        mul@[j],
                        add@[j],
                    ),
            decreases LANES - i,
        {
            out[i] = binary32::fused_multiply_add(self.0[i], mul.0[i], add.0[i]);
            i += 1;
        }
        let r = SimdF32(out);
        assert(r@ =~= Seq::new(
            LANES as nat,
            |i: int| binary32::fused_multiply_add_spec(self@[i], mul@[i], add@[i]),
        ));
        r
    }

    /// Compute the sine of the angle in radians.
    /// Result is accurate to 0.0000002.
    pub fn sin(&self) -> (r: Self)
        ensures
            r@ == Seq::new(LANES as nat, |i: int| sin_spec(self@[i])),
    {
        let x = Self::splat(INV_TAU).mul(*self);
        let x = x.sub(x.floor()).sub(Self::splat(ONE_HALF));
        let x2 = x.mul(x);
        let r = Self::splat(SIN_C5).mul_add(x2, Self::splat(SIN_C4)).mul_add(
            x2,
            Self::splat(SIN_C3),
        ).mul_add(x2, Self::splat(SIN_C2)).mul_add(x2, Self::splat(SIN_C1)).mul_add(
            x2,
            Self::splat(SIN_C0),
        ).mul(x);
        assert(r@ =~= Seq::new(LANES as nat, |i: int| sin_spec(self@[i])));
        r
    }
}

} // verus!
