//! IEEE 754 binary64 arithmetic carried out on bit patterns.
//!
//! A finite value is modelled as an integer multiple of the smallest
//! subnormal, `2^-1074`: every contract in this module speaks of that integer.
//! Results are rounded to nearest, ties to even; a NaN result is always the
//! canonical quiet NaN.
use vstd::prelude::*;
use vstd::arithmetic::power2::{lemma2_to64, lemma_pow2_adds, lemma_pow2_pos, pow2};
use vstd::arithmetic::div_mod::lemma_div_multiples_vanish;
use crate::dyadic::{
    absolute, add_terms, exact_sum, last_place, lemma_bit_length_bounds, lemma_bit_length_unique,
    lemma_pow2_increases, lemma_pow2_values, lemma_rounding_shift, round_to, rounded_significand,
    signed, split, sum_exponent, Half,
};

pub mod exactness;

verus! {

/// Bit pattern of the sign bit.
pub const SIGN_BIT: u64 = 0x8000_0000_0000_0000;

/// Bit pattern of positive infinity.
pub const INFINITY: u64 = 0x7ff0_0000_0000_0000;

/// Bit pattern of the canonical quiet NaN.
pub const NAN: u64 = 0x7ff8_0000_0000_0000;

/// Weight of the implicit leading bit of a normal significand.
pub const HIDDEN_BIT: u64 = 0x10_0000_0000_0000;

/// Bit pattern of `1.0`.
pub const ONE: u64 = 0x3ff0_0000_0000_0000;

/// Number of significant bits of a normal value.
pub const PRECISION: u32 = 53;

/// Power of two by which one unit of the model, `2^-1074`, divides one.
pub const UNIT_SHIFT: i32 = 1074;

/// The sign bit is set.
pub open spec fn is_negative(b: u64) -> bool {
    b >= SIGN_BIT
}

/// The pattern with the sign bit cleared.
pub open spec fn abs_bits(b: u64) -> nat {
    if b >= SIGN_BIT {
        (b - SIGN_BIT) as nat
    } else {
        b as nat
    }
}

/// The value is NaN.
pub open spec fn is_nan(b: u64) -> bool {
    abs_bits(b) > INFINITY
}

/// The value is an infinity.
pub open spec fn is_infinite(b: u64) -> bool {
    abs_bits(b) == INFINITY
}

/// The value is neither NaN nor an infinity.
pub open spec fn is_finite(b: u64) -> bool {
    abs_bits(b) < INFINITY
}

/// The biased exponent field.
pub open spec fn exponent_field(b: u64) -> nat {
    abs_bits(b) / (HIDDEN_BIT as nat)
}

/// The fraction field.
pub open spec fn fraction_field(b: u64) -> nat {
    abs_bits(b) % (HIDDEN_BIT as nat)
}

/// The integer significand of a finite value, with the implicit bit of a
/// normal value made explicit.
pub open spec fn significand(b: u64) -> nat {
    if exponent_field(b) == 0 {
        fraction_field(b)
    } else {
        fraction_field(b) + HIDDEN_BIT as nat
    }
}

/// The power of two, counted in units of `2^-1074`, of the last place of a
/// finite value.
pub open spec fn exponent(b: u64) -> nat {
    if exponent_field(b) == 0 {
        0
    } else {
        (exponent_field(b) - 1) as nat
    }
}

/// The absolute value of a finite value, in units of `2^-1074`.
pub open spec fn magnitude(b: u64) -> nat {
    significand(b) * pow2(exponent(b))
}

/// A finite value, in units of `2^-1074`.
pub open spec fn scaled(b: u64) -> int {
    if is_negative(b) {
        -(magnitude(b) as int)
    } else {
        magnitude(b) as int
    }
}

/// The pattern with the given sign and the given pattern of the absolute value.
pub open spec fn pack(negative: bool, magnitude_bits: nat) -> u64 {
    if negative {
        (magnitude_bits + SIGN_BIT) as u64
    } else {
        magnitude_bits as u64
    }
}

/// Pattern of the absolute value whose last place is `2^j` units and whose
/// significand, implicit bit included, is `m`; infinity once that leaves the
/// finite range.
pub open spec fn encode(j: int, m: nat) -> nat {
    let b = j * HIDDEN_BIT + m;
    if b >= INFINITY {
        INFINITY as nat
    } else {
        b as nat
    }
}

/// Pattern of the binary64 absolute value nearest to `n * 2^e` units, ties
/// going to the even significand and overflow to infinity.
///
/// The result keeps 53 significant bits, or fewer where the last place
/// would fall below one unit.
pub open spec fn round_magnitude(n: nat, e: int) -> nat {
    encode(last_place(PRECISION as nat, n, e), rounded_significand(PRECISION as nat, n, e))
}

/// The value nearest to the exact sum of two terms, each given by its sign,
/// an integer and the power of two, in units, that the integer counts.
///
/// An exact zero is positive unless both terms are negative.
pub open spec fn round_sum(sa: bool, na: nat, ea: int, sb: bool, nb: nat, eb: int) -> u64 {
    let x = exact_sum(sa, na, ea, sb, nb, eb);
    if x == 0 {
        pack(sa && sb, 0)
    } else {
        pack(x < 0, round_magnitude(absolute(x), sum_exponent(ea, eb)))
    }
}

/// The product of two values.
pub open spec fn multiply_spec(a: u64, b: u64) -> u64 {
    if is_nan(a) || is_nan(b) {
        NAN
    } else if is_infinite(a) || is_infinite(b) {
        if abs_bits(a) == 0 || abs_bits(b) == 0 {
            NAN
        } else {
            pack(is_negative(a) != is_negative(b), INFINITY as nat)
        }
    } else {
        pack(
            is_negative(a) != is_negative(b),
            round_magnitude(significand(a) * significand(b), exponent(a) + exponent(b) - UNIT_SHIFT),
        )
    }
}

/// The pattern with the sign bit flipped.
pub open spec fn negate_spec(a: u64) -> u64 {
    if a >= SIGN_BIT {
        (a - SIGN_BIT) as u64
    } else {
        (a + SIGN_BIT) as u64
    }
}

/// The sum of two values.
pub open spec fn add_spec(a: u64, b: u64) -> u64 {
    if is_nan(a) || is_nan(b) {
        NAN
    } else if is_infinite(a) {
        if is_infinite(b) && is_negative(a) != is_negative(b) {
            NAN
        } else {
            a
        }
    } else if is_infinite(b) {
        b
    } else {
        round_sum(
            is_negative(a),
            significand(a),
            exponent(a) as int,
            is_negative(b),
            significand(b),
            exponent(b) as int,
        )
    }
}

/// The difference of two values.
pub open spec fn subtract_spec(a: u64, b: u64) -> u64 {
    add_spec(a, negate_spec(b))
}

/// The integer part of the absolute value of a finite value.
pub open spec fn whole(a: u64) -> nat {
    magnitude(a) / pow2(UNIT_SHIFT as nat)
}

/// The fractional part of the absolute value of a finite value, in units.
pub open spec fn fractional(a: u64) -> nat {
    magnitude(a) % pow2(UNIT_SHIFT as nat)
}

/// The value of an integer given by sign and absolute value, rounded where it
/// has more than 53 significant bits.
pub open spec fn from_integer_spec(negative: bool, i: nat) -> u64 {
    pack(negative, round_magnitude(i, UNIT_SHIFT as int))
}

/// The largest integer that is not above the value.
pub open spec fn floor_spec(a: u64) -> u64 {
    if is_nan(a) {
        NAN
    } else if is_infinite(a) || exponent(a) >= UNIT_SHIFT {
        a
    } else if is_negative(a) && fractional(a) > 0 {
        from_integer_spec(true, whole(a) + 1)
    } else {
        from_integer_spec(is_negative(a), whole(a))
    }
}

/// The value with its fractional part removed.
pub open spec fn trunc_spec(a: u64) -> u64 {
    if is_nan(a) {
        NAN
    } else if is_infinite(a) || exponent(a) >= UNIT_SHIFT {
        a
    } else {
        from_integer_spec(is_negative(a), whole(a))
    }
}

/// The smallest integer that is not below the value.
pub open spec fn ceil_spec(a: u64) -> u64 {
    if is_nan(a) {
        NAN
    } else if is_infinite(a) || exponent(a) >= UNIT_SHIFT {
        a
    } else if !is_negative(a) && fractional(a) > 0 {
        from_integer_spec(false, whole(a) + 1)
    } else {
        from_integer_spec(is_negative(a), whole(a))
    }
}

/// The nearest integer, a tie going to the one nearer to zero.
pub open spec fn round_spec(a: u64) -> u64 {
    if is_nan(a) {
        NAN
    } else if is_infinite(a) || exponent(a) >= UNIT_SHIFT {
        a
    } else if 2 * fractional(a) > pow2(UNIT_SHIFT as nat) {
        from_integer_spec(is_negative(a), whole(a) + 1)
    } else {
        from_integer_spec(is_negative(a), whole(a))
    }
}

/// The value less its integer part.
pub open spec fn fract_spec(a: u64) -> u64 {
    subtract_spec(a, trunc_spec(a))
}

/// The value is finite and its integer part is a 64-bit signed integer.
pub open spec fn fits_integer(a: u64) -> bool {
    &&& is_finite(a)
    &&& if is_negative(a) {
        whole(a) <= 0x8000_0000_0000_0000
    } else {
        whole(a) < 0x8000_0000_0000_0000
    }
}

/// The integer part of a finite value, with its sign.
pub open spec fn to_integer_spec(a: u64) -> int {
    signed(is_negative(a), whole(a))
}

/// The place of a value that is not NaN in the order of all values: patterns
/// are ordered as their values are, and the two zeros share a place.
pub open spec fn ordinal(b: u64) -> int {
    if is_negative(b) {
        -(abs_bits(b) as int)
    } else {
        abs_bits(b) as int
    }
}

/// The sum of the values, added in order to `0.0` and rounded at every step.
pub open spec fn ordered_sum(values: Seq<u64>) -> u64
    decreases values.len(),
{
    if values.len() == 0 {
        0
    } else {
        add_spec(ordered_sum(values.drop_last()), values.last())
    }
}

/// The product of the values, multiplied in order to `1.0` and rounded at
/// every step.
pub open spec fn ordered_product(values: Seq<u64>) -> u64
    decreases values.len(),
{
    if values.len() == 0 {
        ONE
    } else {
        multiply_spec(ordered_product(values.drop_last()), values.last())
    }
}

/// Every value is NaN.
pub open spec fn all_nan(values: Seq<u64>) -> bool {
    forall|i: int| 0 <= i < values.len() ==> is_nan(#[trigger] values[i])
}

/// `r` is a greatest of the values: NaN if every value is; else one of them,
/// not NaN, and below none that is not NaN. Of two zeros of different sign
/// either may be the greatest.
pub open spec fn is_max_of(values: Seq<u64>, r: u64) -> bool {
    &&& exists|i: int| 0 <= i < values.len() && values[i] == r
    &&& is_nan(r) == all_nan(values)
    &&& forall|i: int|
        0 <= i < values.len() && !is_nan(#[trigger] values[i]) ==> ordinal(values[i]) <= ordinal(r)
}

/// `r` is a least of the values: NaN if every value is; else one of them,
/// not NaN, and above none that is not NaN. Of two zeros of different sign
/// either may be the least.
pub open spec fn is_min_of(values: Seq<u64>, r: u64) -> bool {
    &&& exists|i: int| 0 <= i < values.len() && values[i] == r
    &&& is_nan(r) == all_nan(values)
    &&& forall|i: int|
        0 <= i < values.len() && !is_nan(#[trigger] values[i]) ==> ordinal(values[i]) >= ordinal(r)
}

/// Rounding sees a value only through its binary expansion: a power of two
/// may move between the integer and its exponent.
pub proof fn lemma_round_magnitude_shift(n: nat, k: nat, e: int)
    ensures
        round_magnitude(n * pow2(k), e) == round_magnitude(n, e + k),
{
    lemma_rounding_shift(PRECISION as nat, n, k, e);
}

/// Rounds `n * 2^e` units to the nearest binary64 value and attaches the sign.
pub(crate) fn round_pack(negative: bool, n: u128, e: i32) -> (r: u64)
    requires
        n < 0x2000_0000_0000_0000_0000_0000_0000_0000,
        -4000 <= e <= 4000,
    ensures
        r == pack(negative, round_magnitude(n as nat, e as int)),
{
    let (j, m) = round_to(PRECISION, n, e);
    proof {
        lemma_pow2_values();
    }
    let bits: u128 = (j as u128) * (HIDDEN_BIT as u128) + m;
    let mag: u64 = if bits >= INFINITY as u128 {
        INFINITY
    } else {
        bits as u64
    };
    if negative {
        mag + SIGN_BIT
    } else {
        mag
    }
}

/// Splits a pattern into sign, significand and last-place exponent.
pub(crate) fn unpack(b: u64) -> (r: (bool, u64, i32))
    ensures
        r.0 == is_negative(b),
        r.1 == significand(b),
        r.2 == exponent(b),
        r.1 < 0x20_0000_0000_0000,
        0 <= r.2 <= 2046,
        r.2 > 0 ==> r.1 >= HIDDEN_BIT,
{
    let negative = b >= SIGN_BIT;
    let a: u64 = if negative {
        b - SIGN_BIT
    } else {
        b
    };
    let field: u64 = a / HIDDEN_BIT;
    let fraction: u64 = a % HIDDEN_BIT;
    if field == 0 {
        (negative, fraction as u64, 0)
    } else {
        (negative, (fraction + HIDDEN_BIT) as u64, (field - 1) as i32)
    }
}

/// The pattern with the sign bit cleared.
pub fn abs(b: u64) -> (r: u64)
    ensures
        r == abs_bits(b),
{
    if b >= SIGN_BIT {
        b - SIGN_BIT
    } else {
        b
    }
}

/// The pattern with the sign bit flipped.
pub fn negate(a: u64) -> (r: u64)
    ensures
        r == negate_spec(a),
{
    if a >= SIGN_BIT {
        a - SIGN_BIT
    } else {
        a + SIGN_BIT
    }
}

/// The value is NaN.
pub fn nan(b: u64) -> (r: bool)
    ensures
        r == is_nan(b),
{
    abs(b) > INFINITY
}

/// The place of a value in the order of all values.
pub fn key(b: u64) -> (r: i128)
    ensures
        r == ordinal(b),
{
    if b >= SIGN_BIT {
        -((b - SIGN_BIT) as i128)
    } else {
        b as i128
    }
}

/// The product of two values, rounded once.
pub fn multiply(a: u64, b: u64) -> (r: u64)
    ensures
        r == multiply_spec(a, b),
{
    let abs_a: u64 = abs(a);
    let abs_b: u64 = abs(b);
    if abs_a > INFINITY || abs_b > INFINITY {
        return NAN;
    }
    let (sa, na, ea) = unpack(a);
    let (sb, nb, eb) = unpack(b);
    let negative = sa != sb;
    if abs_a == INFINITY || abs_b == INFINITY {
        if abs_a == 0 || abs_b == 0 {
            NAN
        } else if negative {
            INFINITY + SIGN_BIT
        } else {
            INFINITY
        }
    } else {
        assert(na * nb < 0x20_0000_0000_0000 * 0x20_0000_0000_0000) by (nonlinear_arith)
            requires
                na < 0x20_0000_0000_0000,
                nb < 0x20_0000_0000_0000,
        ;
        let n: u128 = (na as u128) * (nb as u128);
        round_pack(negative, n, ea + eb - UNIT_SHIFT)
    }
}

/// Rounds the exact sum of two terms, each given by its sign, an integer
/// below `2^53` and the power of two, in units, that the integer counts.
///
/// A term whose exponent lies 71 or more above the other's is normal: its
/// integer has 53 bits.
pub(crate) fn round_sum_exec(sa: bool, na: u64, ea: i32, sb: bool, nb: u64, eb: i32) -> (r: u64)
    requires
        na < 0x20_0000_0000_0000,
        nb < 0x20_0000_0000_0000,
        -3500 <= ea <= 3500,
        -3500 <= eb <= 3500,
        ea - eb >= 71 && na > 0 ==> na >= HIDDEN_BIT,
        eb - ea >= 71 && nb > 0 ==> nb >= HIDDEN_BIT,
    ensures
        r == round_sum(sa, na as nat, ea as int, sb, nb as nat, eb as int),
{
    proof {
        lemma_pow2_values();
        if na > 0 {
            lemma_bit_length_bounds(na as nat);
            if na >= HIDDEN_BIT {
                lemma_bit_length_unique(na as nat, 53);
            }
        }
        if nb > 0 {
            lemma_bit_length_bounds(nb as nat);
            if nb >= HIDDEN_BIT {
                lemma_bit_length_unique(nb as nat, 53);
            }
        }
    }
    let (negative, n, e) = add_terms(PRECISION, 53, 18, sa, na, ea, sb, nb, eb);
    if n == 0 {
        if sa && sb {
            SIGN_BIT
        } else {
            0
        }
    } else {
        round_pack(negative, n, e)
    }
}

/// The sum of two values, rounded once.
pub fn add(a: u64, b: u64) -> (r: u64)
    ensures
        r == add_spec(a, b),
{
    let abs_a: u64 = abs(a);
    let abs_b: u64 = abs(b);
    if abs_a > INFINITY || abs_b > INFINITY {
        return NAN;
    }
    let (sa, na, ea) = unpack(a);
    let (sb, nb, eb) = unpack(b);
    if abs_a == INFINITY {
        if abs_b == INFINITY && sa != sb {
            NAN
        } else {
            a
        }
    } else if abs_b == INFINITY {
        b
    } else {
        round_sum_exec(sa, na, ea, sb, nb, eb)
    }
}

/// The difference of two values, rounded once.
pub fn subtract(a: u64, b: u64) -> (r: u64)
    ensures
        r == subtract_spec(a, b),
{
    self::add(a, negate(b))
}

/// Whether a fractional part is there.
fn is_some(half: Half) -> (r: bool)
    ensures
        r == !(half is Zero),
{
    match half {
        Half::Zero => false,
        _ => true,
    }
}

/// The largest integer that is not above the value.
pub fn floor(a: u64) -> (r: u64)
    ensures
        r == floor_spec(a),
{
    let abs_a: u64 = abs(a);
    if abs_a > INFINITY {
        return NAN;
    }
    let (negative, n, e) = unpack(a);
    if abs_a == INFINITY || e >= UNIT_SHIFT {
        return a;
    }
    let (w, half) = split(UNIT_SHIFT, n, e);
    let i: u64 = if negative && is_some(half) {
        w + 1
    } else {
        w
    };
    round_pack(negative, i as u128, UNIT_SHIFT)
}

/// The value with its fractional part removed.
pub fn trunc(a: u64) -> (r: u64)
    ensures
        r == trunc_spec(a),
{
    let abs_a: u64 = abs(a);
    if abs_a > INFINITY {
        return NAN;
    }
    let (negative, n, e) = unpack(a);
    if abs_a == INFINITY || e >= UNIT_SHIFT {
        return a;
    }
    let (w, _half) = split(UNIT_SHIFT, n, e);
    round_pack(negative, w as u128, UNIT_SHIFT)
}

/// The smallest integer that is not below the value.
pub fn ceil(a: u64) -> (r: u64)
    ensures
        r == ceil_spec(a),
{
    let abs_a: u64 = abs(a);
    if abs_a > INFINITY {
        return NAN;
    }
    let (negative, n, e) = unpack(a);
    if abs_a == INFINITY || e >= UNIT_SHIFT {
        return a;
    }
    let (w, half) = split(UNIT_SHIFT, n, e);
    let i: u64 = if !negative && is_some(half) {
        w + 1
    } else {
        w
    };
    round_pack(negative, i as u128, UNIT_SHIFT)
}

/// The nearest integer, a tie going to the one nearer to zero.
pub fn round(a: u64) -> (r: u64)
    ensures
        r == round_spec(a),
{
    let abs_a: u64 = abs(a);
    if abs_a > INFINITY {
        return NAN;
    }
    let (negative, n, e) = unpack(a);
    if abs_a == INFINITY || e >= UNIT_SHIFT {
        return a;
    }
    let (w, half) = split(UNIT_SHIFT, n, e);
    let up = match half {
        Half::Above => true,
        _ => false,
    };
    let i: u64 = if up {
        w + 1
    } else {
        w
    };
    round_pack(negative, i as u128, UNIT_SHIFT)
}

/// The value less its integer part.
pub fn fract(a: u64) -> (r: u64)
    ensures
        r == fract_spec(a),
{
    subtract(a, trunc(a))
}

/// The value nearest to the integer.
pub fn from_integer(i: i64) -> (r: u64)
    ensures
        r == from_integer_spec(i < 0, absolute(i as int)),
{
    let wide: i128 = i as i128;
    let n: u128 = if wide < 0 {
        (-wide) as u128
    } else {
        wide as u128
    };
    round_pack(i < 0, n, UNIT_SHIFT)
}

/// The integer part of a value that has one among the 64-bit signed
/// integers.
pub fn to_integer(a: u64) -> (r: i64)
    requires
        fits_integer(a),
    ensures
        r == to_integer_spec(a),
{
    let (negative, n, e) = unpack(a);
    let v: u64;
    if e < UNIT_SHIFT {
        let (w, _half) = split(UNIT_SHIFT, n, e);
        v = w;
    } else {
        let k: i32 = e - UNIT_SHIFT;
        proof {
            // the integer part is n * 2^k, with n at least 2^52
            lemma_pow2_values();
            lemma2_to64();
            lemma_pow2_adds(k as nat, UNIT_SHIFT as nat);
            lemma_pow2_pos(UNIT_SHIFT as nat);
            lemma_pow2_pos(k as nat);
            let unit = pow2(UNIT_SHIFT as nat);
            let pk = pow2(k as nat);
            assert(magnitude(a) == (n * pk) * unit) by (nonlinear_arith)
                requires
                    magnitude(a) == n * pow2(e as nat),
                    pow2(e as nat) == pk * unit,
            ;
            lemma_div_multiples_vanish((n * pk) as int, unit as int);
            assert(whole(a) == n * pk);
            if k > 11 {
                lemma_pow2_increases(12, k as nat);
                assert(n * pk >= 0x10_0000_0000_0000 * 0x1000) by (nonlinear_arith)
                    requires
                        n >= 0x10_0000_0000_0000,
                        pk >= 0x1000,
                ;
            }
            lemma_pow2_increases(k as nat, 11);
            assert(n * pk <= 0x20_0000_0000_0000 * 0x800) by (nonlinear_arith)
                requires
                    n < 0x20_0000_0000_0000,
                    0 < pk <= 0x800,
            ;
        }
        let scale: u64 = crate::dyadic::pow2_exec(k as u32) as u64;
        v = n * scale;
    }
    if negative {
        (-(v as i128)) as i64
    } else {
        v as i64
    }
}

} // verus!
