//! The integer types whose vectors masks pair with.
use vstd::prelude::*;

verus! {

/// A signed integer type in which a lane of a mask can be held: all ones for
/// a true lane, zero for a false one.
pub trait MaskElement: Copy {
    /// The element that stands for the boolean.
    spec fn of(value: bool) -> Self;

    /// The two elements that stand for booleans differ.
    proof fn lemma_distinct()
        ensures
            Self::of(true) != Self::of(false),
    ;

    /// The element that stands for the boolean.
    fn select(value: bool) -> (r: Self)
        ensures
            r == Self::of(value),
    ;

    /// The element is all ones.
    fn is_set(self) -> (r: bool)
        ensures
            r == (self == Self::of(true)),
    ;

    /// The element is zero.
    fn is_clear(self) -> (r: bool)
        ensures
            r == (self == Self::of(false)),
    ;

    /// Bitwise "and".
    fn and(self, rhs: Self) -> (r: Self)
        ensures
            (self == Self::of(true) || self == Self::of(false)) && (rhs == Self::of(true) || rhs
                == Self::of(false)) ==> r == Self::of(self == Self::of(true) && rhs == Self::of(true)),
    ;

    /// Bitwise "or".
    fn or(self, rhs: Self) -> (r: Self)
        ensures
            (self == Self::of(true) || self == Self::of(false)) && (rhs == Self::of(true) || rhs
                == Self::of(false)) ==> r == Self::of(self == Self::of(true) || rhs == Self::of(true)),
    ;

    /// Bitwise "xor".
    fn xor(self, rhs: Self) -> (r: Self)
        ensures
            (self == Self::of(true) || self == Self::of(false)) && (rhs == Self::of(true) || rhs
                == Self::of(false)) ==> r == Self::of((self == Self::of(true)) != (rhs == Self::of(true))),
    ;

    /// Bitwise "not".
    fn not(self) -> (r: Self)
        ensures
            (self == Self::of(true) || self == Self::of(false)) ==> r == Self::of(self != Self::of(true)),
    ;
}

/// An element stands for a boolean.
pub open spec fn is_boolean<T: MaskElement>(x: T) -> bool {
    x == T::of(true) || x == T::of(false)
}

proof fn lemma_tables_i8()
    by (bit_vector)
    ensures
        -1i8 & -1i8 == -1i8,
        -1i8 & 0i8 == 0i8,
        0i8 & -1i8 == 0i8,
        0i8 & 0i8 == 0i8,
        -1i8 | -1i8 == -1i8,
        -1i8 | 0i8 == -1i8,
        0i8 | -1i8 == -1i8,
        0i8 | 0i8 == 0i8,
        -1i8 ^ -1i8 == 0i8,
        -1i8 ^ 0i8 == -1i8,
        0i8 ^ -1i8 == -1i8,
        0i8 ^ 0i8 == 0i8,
        !(-1i8) == 0i8,
        !0i8 == -1i8,
{
}

impl MaskElement for i8 {
    open spec fn of(value: bool) -> i8 {
        if value {
            -1i8
        } else {
            0i8
        }
    }

    proof fn lemma_distinct() {
    }

    fn select(value: bool) -> (r: i8) {
        if value {
            -1
        } else {
            0
        }
    }

    fn is_set(self) -> (r: bool) {
        self == -1
    }

    fn is_clear(self) -> (r: bool) {
        self == 0
    }

    fn and(self, rhs: i8) -> (r: i8) {
        proof {
            lemma_tables_i8();
        }
        self & rhs
    }

    fn or(self, rhs: i8) -> (r: i8) {
        proof {
            lemma_tables_i8();
        }
        self | rhs
    }

    fn xor(self, rhs: i8) -> (r: i8) {
        proof {
            lemma_tables_i8();
        }
        self ^ rhs
    }

    fn not(self) -> (r: i8) {
        proof {
            lemma_tables_i8();
        }
        !self
    }
}

proof fn lemma_tables_i16()
    by (bit_vector)
    ensures
        -1i16 & -1i16 == -1i16,
        -1i16 & 0i16 == 0i16,
        0i16 & -1i16 == 0i16,
        0i16 & 0i16 == 0i16,
        -1i16 | -1i16 == -1i16,
        -1i16 | 0i16 == -1i16,
        0i16 | -1i16 == -1i16,
        0i16 | 0i16 == 0i16,
        -1i16 ^ -1i16 == 0i16,
        -1i16 ^ 0i16 == -1i16,
        0i16 ^ -1i16 == -1i16,
        0i16 ^ 0i16 == 0i16,
        !(-1i16) == 0i16,
        !0i16 == -1i16,
{
}

impl MaskElement for i16 {
    open spec fn of(value: bool) -> i16 {
        if value {
            -1i16
        } else {
            0i16
        }
    }

    proof fn lemma_distinct() {
    }

    fn select(value: bool) -> (r: i16) {
        if value {
            -1
        } else {
            0
        }
    }

    fn is_set(self) -> (r: bool) {
        self == -1
    }

    fn is_clear(self) -> (r: bool) {
        self == 0
    }

    fn and(self, rhs: i16) -> (r: i16) {
        proof {
            lemma_tables_i16();
        }
        self & rhs
    }

    fn or(self, rhs: i16) -> (r: i16) {
        proof {
            lemma_tables_i16();
        }
        self | rhs
    }

    fn xor(self, rhs: i16) -> (r: i16) {
        proof {
            lemma_tables_i16();
        }
        self ^ rhs
    }

    fn not(self) -> (r: i16) {
        proof {
            lemma_tables_i16();
        }
        !self
    }
}

proof fn lemma_tables_i32()
    by (bit_vector)
    ensures
        -1i32 & -1i32 == -1i32,
        -1i32 & 0i32 == 0i32,
        0i32 & -1i32 == 0i32,
        0i32 & 0i32 == 0i32,
        -1i32 | -1i32 == -1i32,
        -1i32 | 0i32 == -1i32,
        0i32 | -1i32 == -1i32,
        0i32 | 0i32 == 0i32,
        -1i32 ^ -1i32 == 0i32,
        -1i32 ^ 0i32 == -1i32,
        0i32 ^ -1i32 == -1i32,
        0i32 ^ 0i32 == 0i32,
        !(-1i32) == 0i32,
        !0i32 == -1i32,
{
}

impl MaskElement for i32 {
    open spec fn of(value: bool) -> i32 {
        if value {
            -1i32
        } else {
            0i32
        }
    }

    proof fn lemma_distinct() {
    }

    fn select(value: bool) -> (r: i32) {
        if value {
            -1
        } else {
            0
        }
    }

    fn is_set(self) -> (r: bool) {
        self == -1
    }

    fn is_clear(self) -> (r: bool) {
        self == 0
    }

    fn and(self, rhs: i32) -> (r: i32) {
        proof {
            lemma_tables_i32();
        }
        self & rhs
    }

    fn or(self, rhs: i32) -> (r: i32) {
        proof {
            lemma_tables_i32();
        }
        self | rhs
    }

    fn xor(self, rhs: i32) -> (r: i32) {
        proof {
            lemma_tables_i32();
        }
        self ^ rhs
    }

    fn not(self) -> (r: i32) {
        proof {
            lemma_tables_i32();
        }
        !self
    }
}

proof fn lemma_tables_i64()
    by (bit_vector)
    ensures
        -1i64 & -1i64 == -1i64,
        -1i64 & 0i64 == 0i64,
        0i64 & -1i64 == 0i64,
        0i64 & 0i64 == 0i64,
        -1i64 | -1i64 == -1i64,
        -1i64 | 0i64 == -1i64,
        0i64 | -1i64 == -1i64,
        0i64 | 0i64 == 0i64,
        -1i64 ^ -1i64 == 0i64,
        -1i64 ^ 0i64 == -1i64,
        0i64 ^ -1i64 == -1i64,
        0i64 ^ 0i64 == 0i64,
        !(-1i64) == 0i64,
        !0i64 == -1i64,
{
}

impl MaskElement for i64 {
    open spec fn of(value: bool) -> i64 {
        if value {
            -1i64
        } else {
            0i64
        }
    }

    proof fn lemma_distinct() {
    }

    fn select(value: bool) -> (r: i64) {
        if value {
            -1
        } else {
            0
        }
    }

    fn is_set(self) -> (r: bool) {
        self == -1
    }

    fn is_clear(self) -> (r: bool) {
        self == 0
    }

    fn and(self, rhs: i64) -> (r: i64) {
        proof {
            lemma_tables_i64();
        }
        self & rhs
    }

    fn or(self, rhs: i64) -> (r: i64) {
        proof {
            lemma_tables_i64();
        }
        self | rhs
    }

    fn xor(self, rhs: i64) -> (r: i64) {
        proof {
            lemma_tables_i64();
        }
        self ^ rhs
    }

    fn not(self) -> (r: i64) {
        proof {
            lemma_tables_i64();
        }
        !self
    }
}

proof fn lemma_tables_isize()
    by (bit_vector)
    ensures
        -1isize & -1isize == -1isize,
        -1isize & 0isize == 0isize,
        0isize & -1isize == 0isize,
        0isize & 0isize == 0isize,
        -1isize | -1isize == -1isize,
        -1isize | 0isize == -1isize,
        0isize | -1isize == -1isize,
        0isize | 0isize == 0isize,
        -1isize ^ -1isize == 0isize,
        -1isize ^ 0isize == -1isize,
        0isize ^ -1isize == -1isize,
        0isize ^ 0isize == 0isize,
        !(-1isize) == 0isize,
        !0isize == -1isize,
{
}

impl MaskElement for isize {
    open spec fn of(value: bool) -> isize {
        if value {
            -1isize
        } else {
            0isize
        }
    }

    proof fn lemma_distinct() {
    }

    fn select(value: bool) -> (r: isize) {
        if value {
            -1
        } else {
            0
        }
    }

    fn is_set(self) -> (r: bool) {
        self == -1
    }

    fn is_clear(self) -> (r: bool) {
        self == 0
    }

    fn and(self, rhs: isize) -> (r: isize) {
        proof {
            lemma_tables_isize();
        }
        self & rhs
    }

    fn or(self, rhs: isize) -> (r: isize) {
        proof {
            lemma_tables_isize();
        }
        self | rhs
    }

    fn xor(self, rhs: isize) -> (r: isize) {
        proof {
            lemma_tables_isize();
        }
        self ^ rhs
    }

    fn not(self) -> (r: isize) {
        proof {
            lemma_tables_isize();
        }
        !self
    }
}

} // verus!
