//! Horizontal reductions: folds of all the lanes of a vector into one scalar.
use vstd::prelude::*;
use vstd::arithmetic::div_mod::{
    lemma_add_mod_noop_right, lemma_fundamental_div_mod, lemma_mod_multiples_vanish,
};
use crate::lane::{wrapped, IntLane};
use crate::binary32;
use crate::binary64;
use crate::vector::{Simd, SimdF32, SimdF64, Vector};

verus! {

/// The sum of the lanes, added in order from 0 and wrapped at every step.
pub open spec fn wrapping_sum<T: IntLane>(lanes: Seq<T>) -> int
    decreases lanes.len(),
{
    if lanes.len() == 0 {
        0
    } else {
        wrapped::<T>(wrapping_sum(lanes.drop_last()) + lanes.last().value())
    }
}

/// The product of the lanes, multiplied in order from 1 and wrapped at every
/// step.
pub open spec fn wrapping_product<T: IntLane>(lanes: Seq<T>) -> int
    decreases lanes.len(),
{
    if lanes.len() == 0 {
        1
    } else {
        wrapped::<T>(wrapping_product(lanes.drop_last()) * lanes.last().value())
    }
}

/// Bitwise "and" of all the lanes; there is at least one.
pub open spec fn and_of<T: IntLane>(lanes: Seq<T>) -> T
    decreases lanes.len(),
{
    if lanes.len() <= 1 {
        lanes[0]
    } else {
        and_of(lanes.drop_last()).and_spec(lanes.last())
    }
}

/// Bitwise "or" of all the lanes; there is at least one.
pub open spec fn or_of<T: IntLane>(lanes: Seq<T>) -> T
    decreases lanes.len(),
{
    if lanes.len() <= 1 {
        lanes[0]
    } else {
        or_of(lanes.drop_last()).or_spec(lanes.last())
    }
}

/// Bitwise "xor" of all the lanes; there is at least one.
pub open spec fn xor_of<T: IntLane>(lanes: Seq<T>) -> T
    decreases lanes.len(),
{
    if lanes.len() <= 1 {
        lanes[0]
    } else {
        xor_of(lanes.drop_last()).xor_spec(lanes.last())
    }
}

/// `r` is one of the lanes, and none holds more.
pub open spec fn is_max_of<T: IntLane>(lanes: Seq<T>, r: T) -> bool {
    &&& exists|i: int| 0 <= i < lanes.len() && lanes[i] == r
    &&& forall|i: int| 0 <= i < lanes.len() ==> (#[trigger] lanes[i]).value() <= r.value()
}

/// `r` is one of the lanes, and none holds less.
pub open spec fn is_min_of<T: IntLane>(lanes: Seq<T>, r: T) -> bool {
    &&& exists|i: int| 0 <= i < lanes.len() && lanes[i] == r
    &&& forall|i: int| 0 <= i < lanes.len() ==> (#[trigger] lanes[i]).value() >= r.value()
}

/// The sum of the integers that the lanes hold.
pub open spec fn exact_sum<T: IntLane>(lanes: Seq<T>) -> int
    decreases lanes.len(),
{
    if lanes.len() == 0 {
        0
    } else {
        exact_sum(lanes.drop_last()) + lanes.last().value()
    }
}

/// The product of the integers that the lanes hold.
pub open spec fn exact_product<T: IntLane>(lanes: Seq<T>) -> int
    decreases lanes.len(),
{
    if lanes.len() == 0 {
        1
    } else {
        exact_product(lanes.drop_last()) * lanes.last().value()
    }
}

/// The horizontal sum is the sum of the lanes, wrapped once: wrapping at every
/// step loses nothing more.
pub proof fn lemma_wrapping_sum<T: IntLane>(lanes: Seq<T>)
    ensures
        wrapping_sum(lanes) == wrapped::<T>(exact_sum(lanes)),
    decreases lanes.len(),
{
    T::lemma_range();
    let least = T::least();
    let range = T::range();
    if lanes.len() == 0 {
        vstd::arithmetic::div_mod::lemma_small_mod((0 - least) as nat, range as nat);
    } else {
        lemma_wrapping_sum(lanes.drop_last());
        let a = exact_sum(lanes.drop_last());
        let b = lanes.last().value();
        lemma_add_mod_noop_right(b, a - least, range);
        assert(wrapped::<T>(a) + b - least == b + (a - least) % range);
        assert(a + b - least == b + (a - least));
    }
}

/// The horizontal product is the product of the lanes, wrapped once.
pub proof fn lemma_wrapping_product<T: IntLane>(lanes: Seq<T>)
    ensures
        wrapping_product(lanes) == wrapped::<T>(exact_product(lanes)),
    decreases lanes.len(),
{
    T::lemma_range();
    let least = T::least();
    let range = T::range();
    if lanes.len() == 0 {
        vstd::arithmetic::div_mod::lemma_small_mod((1 - least) as nat, range as nat);
    } else {
        lemma_wrapping_product(lanes.drop_last());
        let a = exact_product(lanes.drop_last());
        let b = lanes.last().value();
        let q = (a - least) / range;
        lemma_fundamental_div_mod(a - least, range);
        // the wrapped product so far is the exact one less a multiple of the range
        assert(wrapped::<T>(a) == a - range * q);
        assert(wrapped::<T>(a) * b - least == range * (-q * b) + (a * b - least))
            by (nonlinear_arith)
            requires
                wrapped::<T>(a) == a - range * q,
        ;
        lemma_mod_multiples_vanish(-q * b, a * b - least, range);
    }
}

impl<T: IntLane, const LANES: usize> Simd<T, LANES> where Self: Vector {
    /// Horizontal wrapping add.  Returns the sum of the lanes of the vector, with wrapping addition.
    pub fn horizontal_sum(self) -> (r: T)
        ensures
            r.value() == wrapping_sum(self@),
    {
        let mut acc = T::zero();
        let mut i: usize = 0;
        while i < LANES
            invariant
                i <= LANES,
                acc.value() == wrapping_sum(self@.take(i as int)),
            decreases LANES - i,
        {
            assert(self@.take(i + 1).drop_last() =~= self@.take(i as int));
            acc = acc.wrapping_add(self.0[i]);
            i += 1;
        }
        assert(self@.take(LANES as int) =~= self@);
        acc
    }

    /// Horizontal wrapping multiply.  Returns the product of the lanes of the vector, with wrapping multiplication.
    pub fn horizontal_product(self) -> (r: T)
        ensures
            r.value() == wrapping_product(self@),
    {
        let mut acc = T::one();
        let mut i: usize = 0;
        while i < LANES
            invariant
                i <= LANES,
                acc.value() == wrapping_product(self@.take(i as int)),
            decreases LANES - i,
        {
            assert(self@.take(i + 1).drop_last() =~= self@.take(i as int));
            acc = acc.wrapping_mul(self.0[i]);
            i += 1;
        }
        assert(self@.take(LANES as int) =~= self@);
        acc
    }

    /// Horizontal bitwise "and".  Returns the cumulative bitwise "and" across the lanes of
    /// the vector.
    pub fn horizontal_and(self) -> (r: T)
        ensures
            r == and_of(self@),
    {
        proof {
            Self::lemma_lanes();
        }
        let mut acc = self.0[0];
        let mut i: usize = 1;
        assert(self@.take(1)[0] == self@[0]);
        while i < LANES
            invariant
                1 <= i <= LANES,
                acc == and_of(self@.take(i as int)),
            decreases LANES - i,
        {
            assert(self@.take(i + 1).drop_last() =~= self@.take(i as int));
            acc = acc.and(self.0[i]);
            i += 1;
        }
        assert(self@.take(LANES as int) =~= self@);
        acc
    }

    /// Horizontal bitwise "or".  Returns the cumulative bitwise "or" across the lanes of
    /// the vector.
    pub fn horizontal_or(self) -> (r: T)
        ensures
            r == or_of(self@),
    {
        proof {
            Self::lemma_lanes();
        }
        let mut acc = self.0[0];
        let mut i: usize = 1;
        assert(self@.take(1)[0] == self@[0]);
        while i < LANES
            invariant
                1 <= i <= LANES,
                acc == or_of(self@.take(i as int)),
            decreases LANES - i,
        {
            assert(self@.take(i + 1).drop_last() =~= self@.take(i as int));
            acc = acc.or(self.0[i]);
            i += 1;
        }
        assert(self@.take(LANES as int) =~= self@);
        acc
    }

    /// Horizontal bitwise "xor".  Returns the cumulative bitwise "xor" across the lanes of
    /// the vector.
    pub fn horizontal_xor(self) -> (r: T)
        ensures
            r == xor_of(self@),
    {
        proof {
            Self::lemma_lanes();
        }
        let mut acc = self.0[0];
        let mut i: usize = 1;
        assert(self@.take(1)[0] == self@[0]);
        while i < LANES
            invariant
                1 <= i <= LANES,
                acc == xor_of(self@.take(i as int)),
            decreases LANES - i,
        {
            assert(self@.take(i + 1).drop_last() =~= self@.take(i as int));
            acc = acc.xor(self.0[i]);
            i += 1;
        }
        assert(self@.take(LANES as int) =~= self@);
        acc
    }

    /// Horizontal maximum.  Returns the maximum lane in the vector.
    pub fn horizontal_max(self) -> (r: T)
        ensures
            is_max_of(self@, r),
    {
        proof {
            Self::lemma_lanes();
        }
        let mut acc = self.0[0];
        let mut i: usize = 1;
        let ghost mut at: int = 0;
        while i < LANES
            invariant
                1 <= i <= LANES,
                0 <= at < i,
                self@[at] == acc,
                forall|k: int| 0 <= k < i ==> (#[trigger] self@[k]).value() <= acc.value(),
            decreases LANES - i,
        {
            if !self.0[i].le(acc) {
                acc = self.0[i];
                proof {
                    at = i as int;
                }
            }
            i += 1;
        }
        acc
    }

    /// Horizontal minimum.  Returns the minimum lane in the vector.
    pub fn horizontal_min(self) -> (r: T)
        ensures
            is_min_of(self@, r),
    {
        proof {
            Self::lemma_lanes();
        }
        let mut acc = self.0[0];
        let mut i: usize = 1;
        let ghost mut at: int = 0;
        while i < LANES
            invariant
                1 <= i <= LANES,
                0 <= at < i,
                self@[at] == acc,
                forall|k: int| 0 <= k < i ==> (#[trigger] self@[k]).value() >= acc.value(),
            decreases LANES - i,
        {
            if !acc.le(self.0[i]) {
                acc = self.0[i];
                proof {
                    at = i as int;
                }
            }
            i += 1;
        }
        acc
    }
}

impl<const LANES: usize> SimdF32<LANES> where Self: Vector {
    /// Horizontal add.  Returns the sum of the lanes of the vector.
    pub fn horizontal_sum(self) -> (r: u32)
        ensures
            r == binary32::ordered_sum(self@),
    {
        let mut acc: u32 = 0;
        let mut i: usize = 0;
        while i < LANES
            invariant
                i <= LANES,
                acc == binary32::ordered_sum(self@.take(i as int)),
            decreases LANES - i,
        {
            assert(self@.take(i + 1).drop_last() =~= self@.take(i as int));
            acc = binary32::add(acc, self.0[i]);
            i += 1;
        }
        assert(self@.take(LANES as int) =~= self@);
        acc
    }

    /// Horizontal multiply.  Returns the product of the lanes of the vector.
    pub fn horizontal_product(self) -> (r: u32)
        ensures
            r == binary32::ordered_product(self@),
    {
        let mut acc: u32 = binary32::ONE;
        let mut i: usize = 0;
        while i < LANES
            invariant
                i <= LANES,
                acc == binary32::ordered_product(self@.take(i as int)),
            decreases LANES - i,
        {
            assert(self@.take(i + 1).drop_last() =~= self@.take(i as int));
            acc = binary32::multiply(acc, self.0[i]);
            i += 1;
        }
        assert(self@.take(LANES as int) =~= self@);
        acc
    }

    /// Horizontal maximum.  Returns the maximum lane in the vector.
    ///
    /// Returns values based on equality, so a vector containing both `0.` and `-0.` may
    /// return either.  This function will not return `NaN` unless all lanes are `NaN`.
    pub fn horizontal_max(self) -> (r: u32)
        ensures
            binary32::is_max_of(self@, r),
    {
        proof {
            Self::lemma_lanes();
        }
        let mut acc: u32 = self.0[0];
        let mut i: usize = 1;
        let ghost mut at: int = 0;
        while i < LANES
            invariant
                1 <= i <= LANES,
                0 <= at < i,
                self@[at] == acc,
                binary32::is_nan(acc) ==> forall|k: int|
                    0 <= k < i ==> binary32::is_nan(#[trigger] self@[k]),
                forall|k: int|
                    0 <= k < i && !binary32::is_nan(#[trigger] self@[k]) ==> !binary32::is_nan(acc)
                        && binary32::ordinal(self@[k]) <= binary32::ordinal(acc),
            decreases LANES - i,
        {
            let x: u32 = self.0[i];
            if !binary32::nan(x) && (binary32::nan(acc) || binary32::key(x) > binary32::key(acc)) {
                acc = x;
                proof {
                    at = i as int;
                }
            }
            i += 1;
        }
        acc
    }

    /// Horizontal minimum.  Returns the minimum lane in the vector.
    ///
    /// Returns values based on equality, so a vector containing both `0.` and `-0.` may
    /// return either.  This function will not return `NaN` unless all lanes are `NaN`.
    pub fn horizontal_min(self) -> (r: u32)
        ensures
            binary32::is_min_of(self@, r),
    {
        proof {
            Self::lemma_lanes();
        }
        let mut acc: u32 = self.0[0];
        let mut i: usize = 1;
        let ghost mut at: int = 0;
        while i < LANES
            invariant
                1 <= i <= LANES,
                0 <= at < i,
                self@[at] == acc,
                binary32::is_nan(acc) ==> forall|k: int|
                    0 <= k < i ==> binary32::is_nan(#[trigger] self@[k]),
                forall|k: int|
                    0 <= k < i && !binary32::is_nan(#[trigger] self@[k]) ==> !binary32::is_nan(acc)
                        && binary32::ordinal(self@[k]) >= binary32::ordinal(acc),
            decreases LANES - i,
        {
            let x: u32 = self.0[i];
            if !binary32::nan(x) && (binary32::nan(acc) || binary32::key(x) < binary32::key(acc)) {
                acc = x;
                proof {
                    at = i as int;
                }
            }
            i += 1;
        }
        acc
    }
}

impl<const LANES: usize> SimdF64<LANES> where Self: Vector {
    /// Horizontal add.  Returns the sum of the lanes of the vector.
    pub fn horizontal_sum(self) -> (r: u64)
        ensures
            r == binary64::ordered_sum(self@),
    {
        let mut acc: u64 = 0;
        let mut i: usize = 0;
        while i < LANES
            invariant
                i <= LANES,
                acc == binary64::ordered_sum(self@.take(i as int)),
            decreases LANES - i,
        {
            assert(self@.take(i + 1).drop_last() =~= self@.take(i as int));
            acc = binary64::add(acc, self.0[i]);
            i += 1;
        }
        assert(self@.take(LANES as int) =~= self@);
        acc
    }

    /// Horizontal multiply.  Returns the product of the lanes of the vector.
    pub fn horizontal_product(self) -> (r: u64)
        ensures
            r == binary64::ordered_product(self@),
    {
        let mut acc: u64 = binary64::ONE;
        let mut i: usize = 0;
        while i < LANES
            invariant
                i <= LANES,
                acc == binary64::ordered_product(self@.take(i as int)),
            decreases LANES - i,
        {
            assert(self@.take(i + 1).drop_last() =~= self@.take(i as int));
            acc = binary64::multiply(acc, self.0[i]);
            i += 1;
        }
        assert(self@.take(LANES as int) =~= self@);
        acc
    }

    /// Horizontal maximum.  Returns the maximum lane in the vector.
    ///
    /// Returns values based on equality, so a vector containing both `0.` and `-0.` may
    /// return either.  This function will not return `NaN` unless all lanes are `NaN`.
    pub fn horizontal_max(self) -> (r: u64)
        ensures
            binary64::is_max_of(self@, r),
    {
        proof {
            Self::lemma_lanes();
        }
        let mut acc: u64 = self.0[0];
        let mut i: usize = 1;
        let ghost mut at: int = 0;
        while i < LANES
            invariant
                1 <= i <= LANES,
                0 <= at < i,
                self@[at] == acc,
                binary64::is_nan(acc) ==> forall|k: int|
                    0 <= k < i ==> binary64::is_nan(#[trigger] self@[k]),
                forall|k: int|
                    0 <= k < i && !binary64::is_nan(#[trigger] self@[k]) ==> !binary64::is_nan(acc)
                        && binary64::ordinal(self@[k]) <= binary64::ordinal(acc),
            decreases LANES - i,
        {
            let x: u64 = self.0[i];
            if !binary64::nan(x) && (binary64::nan(acc) || binary64::key(x) > binary64::key(acc)) {
                acc = x;
                proof {
                    at = i as int;
                }
            }
            i += 1;
        }
        acc
    }

    /// Horizontal minimum.  Returns the minimum lane in the vector.
    ///
    /// Returns values based on equality, so a vector containing both `0.` and `-0.` may
    /// return either.  This function will not return `NaN` unless all lanes are `NaN`.
    pub fn horizontal_min(self) -> (r: u64)
        ensures
            binary64::is_min_of(self@, r),
    {
        proof {
            Self::lemma_lanes();
        }
        let mut acc: u64 = self.0[0];
        let mut i: usize = 1;
        let ghost mut at: int = 0;
        while i < LANES
            invariant
                1 <= i <= LANES,
                0 <= at < i,
                self@[at] == acc,
                binary64::is_nan(acc) ==> forall|k: int|
                    0 <= k < i ==> binary64::is_nan(#[trigger] self@[k]),
                forall|k: int|
                    0 <= k < i && !binary64::is_nan(#[trigger] self@[k]) ==> !binary64::is_nan(acc)
                        && binary64::ordinal(self@[k]) >= binary64::ordinal(acc),
            decreases LANES - i,
        {
            let x: u64 = self.0[i];
            if !binary64::nan(x) && (binary64::nan(acc) || binary64::key(x) < binary64::key(acc)) {
                acc = x;
                proof {
                    at = i as int;
                }
            }
            i += 1;
        }
        acc
    }
}

} // verus!
