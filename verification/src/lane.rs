//! The integer types that a lane of a vector can hold, seen as ranges of the
//! integers that wrap around.
use vstd::prelude::*;
use vstd::arithmetic::div_mod::{lemma_fundamental_div_mod, lemma_fundamental_div_mod_converse};

verus! {

/// An integer that differs from `w` by a multiple of `range` wraps to `w`,
/// where `w` lies in the range that starts at `least`.
pub proof fn lemma_wraps_to(v: int, w: int, k: int, least: int, range: int)
    requires
        range > 0,
        least <= w < least + range,
        v == w + k * range,
    ensures
        (v - least) % range + least == w,
{
    lemma_fundamental_div_mod_converse(v - least, range, k, w - least);
}

/// An integer type of a fixed width.
pub trait IntLane: Copy {
    /// The least value of the type.
    spec fn least() -> int;

    /// The number of values of the type.
    spec fn range() -> int;

    /// The integer that a lane holds.
    spec fn value(self) -> int;

    /// Bitwise "and" of two lanes.
    spec fn and_spec(self, rhs: Self) -> Self;

    /// Bitwise "or" of two lanes.
    spec fn or_spec(self, rhs: Self) -> Self;

    /// Bitwise "xor" of two lanes.
    spec fn xor_spec(self, rhs: Self) -> Self;

    /// The range of the type holds 0 and 1.
    proof fn lemma_range()
        ensures
            Self::least() <= 0,
            1 < Self::least() + Self::range(),
    ;

    /// A lane is known by the integer that it holds, which lies in the
    /// range of the type.
    proof fn lemma_value(self, other: Self)
        ensures
            Self::least() <= self.value() < Self::least() + Self::range(),
            self.value() == other.value() ==> self == other,
    ;

    /// The lane that holds 0.
    fn zero() -> (r: Self)
        ensures
            r.value() == 0,
    ;

    /// The lane that holds 1.
    fn one() -> (r: Self)
        ensures
            r.value() == 1,
    ;

    /// The sum, wrapped into the range of the type.
    fn wrapping_add(self, rhs: Self) -> (r: Self)
        ensures
            r.value() == (self.value() + rhs.value() - Self::least()) % Self::range()
                + Self::least(),
    ;

    /// The product, wrapped into the range of the type.
    fn wrapping_mul(self, rhs: Self) -> (r: Self)
        ensures
            r.value() == (self.value() * rhs.value() - Self::least()) % Self::range()
                + Self::least(),
    ;

    /// Bitwise "and".
    fn and(self, rhs: Self) -> (r: Self)
        ensures
            r == self.and_spec(rhs),
    ;

    /// Bitwise "or".
    fn or(self, rhs: Self) -> (r: Self)
        ensures
            r == self.or_spec(rhs),
    ;

    /// Bitwise "xor".
    fn xor(self, rhs: Self) -> (r: Self)
        ensures
            r == self.xor_spec(rhs),
    ;

    /// The lane holds no more than the other.
    fn le(self, rhs: Self) -> (r: bool)
        ensures
            r == (self.value() <= rhs.value()),
    ;
}

/// The integer `v` wrapped into the range of the type `T`.
pub open spec fn wrapped<T: IntLane>(v: int) -> int {
    (v - T::least()) % T::range() + T::least()
}

impl IntLane for i8 {
    open spec fn least() -> int {
        i8::MIN as int
    }

    open spec fn range() -> int {
        i8::MAX - i8::MIN + 1
    }

    open spec fn value(self) -> int {
        self as int
    }

    open spec fn and_spec(self, rhs: i8) -> i8 {
        self & rhs
    }

    open spec fn or_spec(self, rhs: i8) -> i8 {
        self | rhs
    }

    open spec fn xor_spec(self, rhs: i8) -> i8 {
        self ^ rhs
    }

    proof fn lemma_range() {
    }

    proof fn lemma_value(self, other: i8) {
    }

    fn zero() -> (r: i8) {
        0
    }

    fn one() -> (r: i8) {
        1
    }

    fn wrapping_add(self, rhs: i8) -> (r: i8) {
        let r = self.wrapping_add(rhs);
        proof {
            let v = self + rhs;
            let k: int = if v > i8::MAX {
                1
            } else if v < i8::MIN {
                -1
            } else {
                0
            };
            lemma_wraps_to(v, r as int, k, Self::least(), Self::range());
        }
        r
    }

    fn wrapping_mul(self, rhs: i8) -> (r: i8) {
        let r = self.wrapping_mul(rhs);
        proof {
            let v = self * rhs;
            lemma_fundamental_div_mod(v, Self::range());
            let k: int = if v % Self::range() > i8::MAX {
                v / Self::range() + 1
            } else {
                v / Self::range()
            };
            assert(v == r + k * Self::range()) by (nonlinear_arith)
                requires
                    v == Self::range() * (v / Self::range()) + v % Self::range(),
                    r == if v % Self::range() > i8::MAX {
                        v % Self::range() - Self::range()
                    } else {
                        v % Self::range()
                    },
                    k == if v % Self::range() > i8::MAX {
                        v / Self::range() + 1
                    } else {
                        v / Self::range()
                    },
            ;
            lemma_wraps_to(v, r as int, k, Self::least(), Self::range());
        }
        r
    }

    fn and(self, rhs: i8) -> (r: i8) {
        self & rhs
    }

    fn or(self, rhs: i8) -> (r: i8) {
        self | rhs
    }

    fn xor(self, rhs: i8) -> (r: i8) {
        self ^ rhs
    }

    fn le(self, rhs: i8) -> (r: bool) {
        self <= rhs
    }
}

impl IntLane for i16 {
    open spec fn least() -> int {
        i16::MIN as int
    }

    open spec fn range() -> int {
        i16::MAX - i16::MIN + 1
    }

    open spec fn value(self) -> int {
        self as int
    }

    open spec fn and_spec(self, rhs: i16) -> i16 {
        self & rhs
    }

    open spec fn or_spec(self, rhs: i16) -> i16 {
        self | rhs
    }

    open spec fn xor_spec(self, rhs: i16) -> i16 {
        self ^ rhs
    }

    proof fn lemma_range() {
    }

    proof fn lemma_value(self, other: i16) {
    }

    fn zero() -> (r: i16) {
        0
    }

    fn one() -> (r: i16) {
        1
    }

    fn wrapping_add(self, rhs: i16) -> (r: i16) {
        let r = self.wrapping_add(rhs);
        proof {
            let v = self + rhs;
            let k: int = if v > i16::MAX {
                1
            } else if v < i16::MIN {
                -1
            } else {
                0
            };
            lemma_wraps_to(v, r as int, k, Self::least(), Self::range());
        }
        r
    }

    fn wrapping_mul(self, rhs: i16) -> (r: i16) {
        let r = self.wrapping_mul(rhs);
        proof {
            let v = self * rhs;
            lemma_fundamental_div_mod(v, Self::range());
            let k: int = if v % Self::range() > i16::MAX {
                v / Self::range() + 1
            } else {
                v / Self::range()
            };
            assert(v == r + k * Self::range()) by (nonlinear_arith)
                requires
                    v == Self::range() * (v / Self::range()) + v % Self::range(),
                    r == if v % Self::range() > i16::MAX {
                        v % Self::range() - Self::range()
                    } else {
                        v % Self::range()
                    },
                    k == if v % Self::range() > i16::MAX {
                        v / Self::range() + 1
                    } else {
                        v / Self::range()
                    },
            ;
            lemma_wraps_to(v, r as int, k, Self::least(), Self::range());
        }
        r
    }

    fn and(self, rhs: i16) -> (r: i16) {
        self & rhs
    }

    fn or(self, rhs: i16) -> (r: i16) {
        self | rhs
    }

    fn xor(self, rhs: i16) -> (r: i16) {
        self ^ rhs
    }

    fn le(self, rhs: i16) -> (r: bool) {
        self <= rhs
    }
}

impl IntLane for i32 {
    open spec fn least() -> int {
        i32::MIN as int
    }

    open spec fn range() -> int {
        i32::MAX - i32::MIN + 1
    }

    open spec fn value(self) -> int {
        self as int
    }

    open spec fn and_spec(self, rhs: i32) -> i32 {
        self & rhs
    }

    open spec fn or_spec(self, rhs: i32) -> i32 {
        self | rhs
    }

    open spec fn xor_spec(self, rhs: i32) -> i32 {
        self ^ rhs
    }

    proof fn lemma_range() {
    }

    proof fn lemma_value(self, other: i32) {
    }

    fn zero() -> (r: i32) {
        0
    }

    fn one() -> (r: i32) {
        1
    }

    fn wrapping_add(self, rhs: i32) -> (r: i32) {
        let r = self.wrapping_add(rhs);
        proof {
            let v = self + rhs;
            let k: int = if v > i32::MAX {
                1
            } else if v < i32::MIN {
                -1
            } else {
                0
            };
            lemma_wraps_to(v, r as int, k, Self::least(), Self::range());
        }
        r
    }

    fn wrapping_mul(self, rhs: i32) -> (r: i32) {
        let r = self.wrapping_mul(rhs);
        proof {
            let v = self * rhs;
            lemma_fundamental_div_mod(v, Self::range());
            let k: int = if v % Self::range() > i32::MAX {
                v / Self::range() + 1
            } else {
                v / Self::range()
            };
            assert(v == r + k * Self::range()) by (nonlinear_arith)
                requires
                    v == Self::range() * (v / Self::range()) + v % Self::range(),
                    r == if v % Self::range() > i32::MAX {
                        v % Self::range() - Self::range()
                    } else {
                        v % Self::range()
                    },
                    k == if v % Self::range() > i32::MAX {
                        v / Self::range() + 1
                    } else {
                        v / Self::range()
                    },
            ;
            lemma_wraps_to(v, r as int, k, Self::least(), Self::range());
        }
        r
    }

    fn and(self, rhs: i32) -> (r: i32) {
        self & rhs
    }

    fn or(self, rhs: i32) -> (r: i32) {
        self | rhs
    }

    fn xor(self, rhs: i32) -> (r: i32) {
        self ^ rhs
    }

    fn le(self, rhs: i32) -> (r: bool) {
        self <= rhs
    }
}

impl IntLane for i64 {
    open spec fn least() -> int {
        i64::MIN as int
    }

    open spec fn range() -> int {
        i64::MAX - i64::MIN + 1
    }

    open spec fn value(self) -> int {
        self as int
    }

    open spec fn and_spec(self, rhs: i64) -> i64 {
        self & rhs
    }

    open spec fn or_spec(self, rhs: i64) -> i64 {
        self | rhs
    }

    open spec fn xor_spec(self, rhs: i64) -> i64 {
        self ^ rhs
    }

    proof fn lemma_range() {
    }

    proof fn lemma_value(self, other: i64) {
    }

    fn zero() -> (r: i64) {
        0
    }

    fn one() -> (r: i64) {
        1
    }

    fn wrapping_add(self, rhs: i64) -> (r: i64) {
        let r = self.wrapping_add(rhs);
        proof {
            let v = self + rhs;
            let k: int = if v > i64::MAX {
                1
            } else if v < i64::MIN {
                -1
            } else {
                0
            };
            lemma_wraps_to(v, r as int, k, Self::least(), Self::range());
        }
        r
    }

    fn wrapping_mul(self, rhs: i64) -> (r: i64) {
        let r = self.wrapping_mul(rhs);
        proof {
            let v = self * rhs;
            lemma_fundamental_div_mod(v, Self::range());
            let k: int = if v % Self::range() > i64::MAX {
                v / Self::range() + 1
            } else {
                v / Self::range()
            };
            assert(v == r + k * Self::range()) by (nonlinear_arith)
                requires
                    v == Self::range() * (v / Self::range()) + v % Self::range(),
                    r == if v % Self::range() > i64::MAX {
                        v % Self::range() - Self::range()
                    } else {
                        v % Self::range()
                    },
                    k == if v % Self::range() > i64::MAX {
                        v / Self::range() + 1
                    } else {
                        v / Self::range()
                    },
            ;
            lemma_wraps_to(v, r as int, k, Self::least(), Self::range());
        }
        r
    }

    fn and(self, rhs: i64) -> (r: i64) {
        self & rhs
    }

    fn or(self, rhs: i64) -> (r: i64) {
        self | rhs
    }

    fn xor(self, rhs: i64) -> (r: i64) {
        self ^ rhs
    }

    fn le(self, rhs: i64) -> (r: bool) {
        self <= rhs
    }
}

impl IntLane for isize {
    open spec fn least() -> int {
        isize::MIN as int
    }

    open spec fn range() -> int {
        isize::MAX - isize::MIN + 1
    }

    open spec fn value(self) -> int {
        self as int
    }

    open spec fn and_spec(self, rhs: isize) -> isize {
        self & rhs
    }

    open spec fn or_spec(self, rhs: isize) -> isize {
        self | rhs
    }

    open spec fn xor_spec(self, rhs: isize) -> isize {
        self ^ rhs
    }

    proof fn lemma_range() {
    }

    proof fn lemma_value(self, other: isize) {
    }

    fn zero() -> (r: isize) {
        0
    }

    fn one() -> (r: isize) {
        1
    }

    fn wrapping_add(self, rhs: isize) -> (r: isize) {
        let r = self.wrapping_add(rhs);
        proof {
            let v = self + rhs;
            let k: int = if v > isize::MAX {
                1
            } else if v < isize::MIN {
                -1
            } else {
                0
            };
            lemma_wraps_to(v, r as int, k, Self::least(), Self::range());
        }
        r
    }

    fn wrapping_mul(self, rhs: isize) -> (r: isize) {
        let r = self.wrapping_mul(rhs);
        proof {
            let v = self * rhs;
            lemma_fundamental_div_mod(v, Self::range());
            let k: int = if v % Self::range() > isize::MAX {
                v / Self::range() + 1
            } else {
                v / Self::range()
            };
            assert(v == r + k * Self::range()) by (nonlinear_arith)
                requires
                    v == Self::range() * (v / Self::range()) + v % Self::range(),
                    r == if v % Self::range() > isize::MAX {
                        v % Self::range() - Self::range()
                    } else {
                        v % Self::range()
                    },
                    k == if v % Self::range() > isize::MAX {
                        v / Self::range() + 1
                    } else {
                        v / Self::range()
                    },
            ;
            lemma_wraps_to(v, r as int, k, Self::least(), Self::range());
        }
        r
    }

    fn and(self, rhs: isize) -> (r: isize) {
        self & rhs
    }

    fn or(self, rhs: isize) -> (r: isize) {
        self | rhs
    }

    fn xor(self, rhs: isize) -> (r: isize) {
        self ^ rhs
    }

    fn le(self, rhs: isize) -> (r: bool) {
        self <= rhs
    }
}

impl IntLane for u8 {
    open spec fn least() -> int {
        u8::MIN as int
    }

    open spec fn range() -> int {
        u8::MAX - u8::MIN + 1
    }

    open spec fn value(self) -> int {
        self as int
    }

    open spec fn and_spec(self, rhs: u8) -> u8 {
        self & rhs
    }

    open spec fn or_spec(self, rhs: u8) -> u8 {
        self | rhs
    }

    open spec fn xor_spec(self, rhs: u8) -> u8 {
        self ^ rhs
    }

    proof fn lemma_range() {
    }

    proof fn lemma_value(self, other: u8) {
    }

    fn zero() -> (r: u8) {
        0
    }

    fn one() -> (r: u8) {
        1
    }

    fn wrapping_add(self, rhs: u8) -> (r: u8) {
        let r = self.wrapping_add(rhs);
        proof {
            let v = self + rhs;
            let k: int = if v > u8::MAX {
                1
            } else {
                0
            };
            lemma_wraps_to(v, r as int, k, Self::least(), Self::range());
        }
        r
    }

    fn wrapping_mul(self, rhs: u8) -> (r: u8) {
        let r = self.wrapping_mul(rhs);
        proof {
            let v = self * rhs;
            assert(v >= 0) by (nonlinear_arith)
                requires
                    v == self * rhs,
                    self >= 0,
                    rhs >= 0,
            ;
            lemma_fundamental_div_mod(v, Self::range());
            assert(v == r + (v / Self::range()) * Self::range()) by (nonlinear_arith)
                requires
                    v == Self::range() * (v / Self::range()) + v % Self::range(),
                    r == v % Self::range(),
            ;
            lemma_wraps_to(v, r as int, v / Self::range(), Self::least(), Self::range());
        }
        r
    }

    fn and(self, rhs: u8) -> (r: u8) {
        self & rhs
    }

    fn or(self, rhs: u8) -> (r: u8) {
        self | rhs
    }

    fn xor(self, rhs: u8) -> (r: u8) {
        self ^ rhs
    }

    fn le(self, rhs: u8) -> (r: bool) {
        self <= rhs
    }
}

impl IntLane for u16 {
    open spec fn least() -> int {
        u16::MIN as int
    }

    open spec fn range() -> int {
        u16::MAX - u16::MIN + 1
    }

    open spec fn value(self) -> int {
        self as int
    }

    open spec fn and_spec(self, rhs: u16) -> u16 {
        self & rhs
    }

    open spec fn or_spec(self, rhs: u16) -> u16 {
        self | rhs
    }

    open spec fn xor_spec(self, rhs: u16) -> u16 {
        self ^ rhs
    }

    proof fn lemma_range() {
    }

    proof fn lemma_value(self, other: u16) {
    }

    fn zero() -> (r: u16) {
        0
    }

    fn one() -> (r: u16) {
        1
    }

    fn wrapping_add(self, rhs: u16) -> (r: u16) {
        let r = self.wrapping_add(rhs);
        proof {
            let v = self + rhs;
            let k: int = if v > u16::MAX {
                1
            } else {
                0
            };
            lemma_wraps_to(v, r as int, k, Self::least(), Self::range());
        }
        r
    }

    fn wrapping_mul(self, rhs: u16) -> (r: u16) {
        let r = self.wrapping_mul(rhs);
        proof {
            let v = self * rhs;
            assert(v >= 0) by (nonlinear_arith)
                requires
                    v == self * rhs,
                    self >= 0,
                    rhs >= 0,
            ;
            lemma_fundamental_div_mod(v, Self::range());
            assert(v == r + (v / Self::range()) * Self::range()) by (nonlinear_arith)
                requires
                    v == Self::range() * (v / Self::range()) + v % Self::range(),
                    r == v % Self::range(),
            ;
            lemma_wraps_to(v, r as int, v / Self::range(), Self::least(), Self::range());
        }
        r
    }

    fn and(self, rhs: u16) -> (r: u16) {
        self & rhs
    }

    fn or(self, rhs: u16) -> (r: u16) {
        self | rhs
    }

    fn xor(self, rhs: u16) -> (r: u16) {
        self ^ rhs
    }

    fn le(self, rhs: u16) -> (r: bool) {
        self <= rhs
    }
}

impl IntLane for u32 {
    open spec fn least() -> int {
        u32::MIN as int
    }

    open spec fn range() -> int {
        u32::MAX - u32::MIN + 1
    }

    open spec fn value(self) -> int {
        self as int
    }

    open spec fn and_spec(self, rhs: u32) -> u32 {
        self & rhs
    }

    open spec fn or_spec(self, rhs: u32) -> u32 {
        self | rhs
    }

    open spec fn xor_spec(self, rhs: u32) -> u32 {
        self ^ rhs
    }

    proof fn lemma_range() {
    }

    proof fn lemma_value(self, other: u32) {
    }

    fn zero() -> (r: u32) {
        0
    }

    fn one() -> (r: u32) {
        1
    }

    fn wrapping_add(self, rhs: u32) -> (r: u32) {
        let r = self.wrapping_add(rhs);
        proof {
            let v = self + rhs;
            let k: int = if v > u32::MAX {
                1
            } else {
                0
            };
            lemma_wraps_to(v, r as int, k, Self::least(), Self::range());
        }
        r
    }

    fn wrapping_mul(self, rhs: u32) -> (r: u32) {
        let r = self.wrapping_mul(rhs);
        proof {
            let v = self * rhs;
            assert(v >= 0) by (nonlinear_arith)
                requires
                    v == self * rhs,
                    self >= 0,
                    rhs >= 0,
            ;
            lemma_fundamental_div_mod(v, Self::range());
            assert(v == r + (v / Self::range()) * Self::range()) by (nonlinear_arith)
                requires
                    v == Self::range() * (v / Self::range()) + v % Self::range(),
                    r == v % Self::range(),
            ;
            lemma_wraps_to(v, r as int, v / Self::range(), Self::least(), Self::range());
        }
        r
    }

    fn and(self, rhs: u32) -> (r: u32) {
        self & rhs
    }

    fn or(self, rhs: u32) -> (r: u32) {
        self | rhs
    }

    fn xor(self, rhs: u32) -> (r: u32) {
        self ^ rhs
    }

    fn le(self, rhs: u32) -> (r: bool) {
        self <= rhs
    }
}

impl IntLane for u64 {
    open spec fn least() -> int {
        u64::MIN as int
    }

    open spec fn range() -> int {
        u64::MAX - u64::MIN + 1
    }

    open spec fn value(self) -> int {
        self as int
    }

    open spec fn and_spec(self, rhs: u64) -> u64 {
        self & rhs
    }

    open spec fn or_spec(self, rhs: u64) -> u64 {
        self | rhs
    }

    open spec fn xor_spec(self, rhs: u64) -> u64 {
        self ^ rhs
    }

    proof fn lemma_range() {
    }

    proof fn lemma_value(self, other: u64) {
    }

    fn zero() -> (r: u64) {
        0
    }

    fn one() -> (r: u64) {
        1
    }

    fn wrapping_add(self, rhs: u64) -> (r: u64) {
        let r = self.wrapping_add(rhs);
        proof {
            let v = self + rhs;
            let k: int = if v > u64::MAX {
                1
            } else {
                0
            };
            lemma_wraps_to(v, r as int, k, Self::least(), Self::range());
        }
        r
    }

    fn wrapping_mul(self, rhs: u64) -> (r: u64) {
        let r = self.wrapping_mul(rhs);
        proof {
            let v = self * rhs;
            assert(v >= 0) by (nonlinear_arith)
                requires
                    v == self * rhs,
                    self >= 0,
                    rhs >= 0,
            ;
            lemma_fundamental_div_mod(v, Self::range());
            assert(v == r + (v / Self::range()) * Self::range()) by (nonlinear_arith)
                requires
                    v == Self::range() * (v / Self::range()) + v % Self::range(),
                    r == v % Self::range(),
            ;
            lemma_wraps_to(v, r as int, v / Self::range(), Self::least(), Self::range());
        }
        r
    }

    fn and(self, rhs: u64) -> (r: u64) {
        self & rhs
    }

    fn or(self, rhs: u64) -> (r: u64) {
        self | rhs
    }

    fn xor(self, rhs: u64) -> (r: u64) {
        self ^ rhs
    }

    fn le(self, rhs: u64) -> (r: bool) {
        self <= rhs
    }
}

impl IntLane for usize {
    open spec fn least() -> int {
        usize::MIN as int
    }

    open spec fn range() -> int {
        usize::MAX - usize::MIN + 1
    }

    open spec fn value(self) -> int {
        self as int
    }

    open spec fn and_spec(self, rhs: usize) -> usize {
        self & rhs
    }

    open spec fn or_spec(self, rhs: usize) -> usize {
        self | rhs
    }

    open spec fn xor_spec(self, rhs: usize) -> usize {
        self ^ rhs
    }

    proof fn lemma_range() {
    }

    proof fn lemma_value(self, other: usize) {
    }

    fn zero() -> (r: usize) {
        0
    }

    fn one() -> (r: usize) {
        1
    }

    fn wrapping_add(self, rhs: usize) -> (r: usize) {
        let r = self.wrapping_add(rhs);
        proof {
            let v = self + rhs;
            let k: int = if v > usize::MAX {
                1
            } else {
                0
            };
            lemma_wraps_to(v, r as int, k, Self::least(), Self::range());
        }
        r
    }

    fn wrapping_mul(self, rhs: usize) -> (r: usize) {
        let r = self.wrapping_mul(rhs);
        proof {
            let v = self * rhs;
            assert(v >= 0) by (nonlinear_arith)
                requires
                    v == self * rhs,
                    self >= 0,
                    rhs >= 0,
            ;
            lemma_fundamental_div_mod(v, Self::range());
            assert(v == r + (v / Self::range()) * Self::range()) by (nonlinear_arith)
                requires
                    v == Self::range() * (v / Self::range()) + v % Self::range(),
                    r == v % Self::range(),
            ;
            lemma_wraps_to(v, r as int, v / Self::range(), Self::least(), Self::range());
        }
        r
    }

    fn and(self, rhs: usize) -> (r: usize) {
        self & rhs
    }

    fn or(self, rhs: usize) -> (r: usize) {
        self | rhs
    }

    fn xor(self, rhs: usize) -> (r: usize) {
        self ^ rhs
    }

    fn le(self, rhs: usize) -> (r: bool) {
        self <= rhs
    }
}

} // verus!
