//! When binary32 arithmetic is exact: a result that is itself a binary32 value
//! is not changed by rounding.
use vstd::prelude::*;
use vstd::arithmetic::power2::{lemma_pow2_adds, lemma_pow2_pos, pow2};
use vstd::arithmetic::div_mod::{
    lemma_div_is_ordered_by_denominator, lemma_div_multiples_vanish_quotient,
    lemma_fundamental_div_mod, lemma_fundamental_div_mod_converse, lemma_mod_bound,
    lemma_truncate_middle,
};
use vstd::arithmetic::mul::{
    lemma_mul_inequality, lemma_mul_is_associative, lemma_mul_strict_inequality,
};
use crate::binary32::{
    abs_bits, add_spec, ceil_spec, exponent, floor_spec, fract_spec, fractional,
    from_integer_spec, is_finite, is_negative, lemma_round_magnitude_shift, magnitude, negate_spec,
    ordinal, pack, round_magnitude, scaled, significand, trunc_spec, whole, INFINITY, UNIT_SHIFT,
};
use crate::dyadic::{
    absolute, bit_length, exact_sum, lemma_bit_length_bounds, lemma_bit_length_unique,
    lemma_pow2_increases, lemma_pow2_values, signed, sum_exponent,
};

verus! {

/// The fields of the pattern whose last place is `2^j` units and whose
/// significand is `m`.
pub proof fn lemma_decode(j: nat, m: nat)
    requires
        m < 0x100_0000,
        j == 0 || m >= 0x80_0000,
        j * 0x80_0000 + m < INFINITY,
    ensures
        ({
            let b = (j * 0x80_0000 + m) as u32;
            &&& abs_bits(b) == j * 0x80_0000 + m
            &&& significand(b) == m
            &&& exponent(b) == j
            &&& magnitude(b) == m * pow2(j)
        }),
{
    let b = (j * 0x80_0000 + m) as u32;
    if m >= 0x80_0000 {
        lemma_fundamental_div_mod_converse(b as int, 0x80_0000, (j + 1) as int, m - 0x80_0000);
    } else {
        lemma_fundamental_div_mod_converse(b as int, 0x80_0000, 0, m as int);
    }
}

/// The value of a pattern lies in its absolute value and its sign alone.
pub proof fn lemma_pack(negative: bool, bits: nat)
    requires
        bits < 0x8000_0000,
    ensures
        abs_bits(pack(negative, bits)) == bits,
        is_negative(pack(negative, bits)) == negative,
        magnitude(pack(negative, bits)) == magnitude(bits as u32),
        scaled(pack(negative, bits)) == signed(negative, magnitude(bits as u32)),
{
}

/// The significand of a finite value has 24 bits, or fewer in the lowest
/// binade.
pub proof fn lemma_significand(b: u32)
    requires
        is_finite(b),
    ensures
        significand(b) < 0x100_0000,
        exponent(b) <= 253,
        exponent(b) > 0 ==> significand(b) >= 0x80_0000,
        bit_length(significand(b)) <= 24,
        exponent(b) > 0 ==> bit_length(significand(b)) == 24,
        abs_bits(b) == exponent(b) * 0x80_0000 + significand(b),
{
    let a = abs_bits(b);
    lemma_fundamental_div_mod(a as int, 0x80_0000);
    lemma_pow2_values();
    let sig = significand(b);
    if sig >= 0x80_0000 {
        lemma_bit_length_unique(sig, 24);
    } else if sig > 0 {
        lemma_bit_length_bounds(sig);
        if bit_length(sig) > 24 {
            lemma_pow2_increases(24, (bit_length(sig) - 1) as nat);
        }
    } else {
        assert(bit_length(0) == 0);
    }
}

/// Rounding an integer of at most 24 bits, counted in a power of two of the
/// unit that keeps it in the finite range, changes nothing: the pattern holds
/// that very value.
pub proof fn lemma_exact(n: nat, e: nat)
    requires
        bit_length(n) <= 24,
        bit_length(n) + e <= 277,
    ensures
        round_magnitude(n, e as int) < INFINITY,
        magnitude(round_magnitude(n, e as int) as u32) == n * pow2(e),
{
    lemma_pow2_values();
    if n == 0 {
        lemma_decode(0, 0);
        assert(0 * pow2(e) == 0) by (nonlinear_arith);
    } else {
        lemma_bit_length_bounds(n);
        let len = bit_length(n);
        let top = len + e;
        if top > 24 {
            let j = (top - 24) as nat;
            let up = (24 - len) as nat;
            let m = n * pow2(up);
            lemma_pow2_adds((len - 1) as nat, up);
            lemma_pow2_adds(len, up);
            lemma_pow2_pos(up);
            lemma_mul_inequality(pow2((len - 1) as nat) as int, n as int, pow2(up) as int);
            lemma_mul_strict_inequality(n as int, pow2(len) as int, pow2(up) as int);
            assert(j * 0x80_0000 + m < INFINITY) by (nonlinear_arith)
                requires
                    j <= 253,
                    m < 0x100_0000,
            ;
            lemma_decode(j, m);
            // m * 2^j == n * 2^e
            lemma_pow2_adds(up, j);
            lemma_mul_is_associative(n as int, pow2(up) as int, pow2(j) as int);
        } else {
            let m = n * pow2(e);
            lemma_pow2_adds(len, e);
            lemma_pow2_increases(len + e, 24);
            lemma_pow2_pos(e);
            lemma_mul_strict_inequality(n as int, pow2(len) as int, pow2(e) as int);
            lemma_decode(0, m);
            assert(m * pow2(0) == m) by (nonlinear_arith)
                requires
                    pow2(0) == 1,
            ;
        }
    }
}

/// Rounding the significand of a finite value, counted in its last place,
/// gives the value back.
pub proof fn lemma_round_of_value(b: u32)
    requires
        is_finite(b),
    ensures
        round_magnitude(significand(b), exponent(b) as int) == abs_bits(b),
{
    lemma_significand(b);
    lemma_pow2_values();
    let sig = significand(b);
    let e = exponent(b);
    if sig > 0 {
        assert(sig * pow2(0) == sig) by (nonlinear_arith)
            requires
                pow2(0) == 1,
        ;
        if e == 0 {
            lemma_bit_length_bounds(sig);
        }
    }
}

/// Rounding any integer count of a power of two of the unit that stands for
/// the value of a finite pattern gives that pattern.
pub proof fn lemma_round_of_equal(n: nat, e: nat, b: u32)
    requires
        is_finite(b),
        n * pow2(e) == magnitude(b),
    ensures
        round_magnitude(n, e as int) == abs_bits(b),
{
    let sig = significand(b);
    let eb = exponent(b);
    lemma_round_of_value(b);
    lemma_pow2_pos(e);
    lemma_pow2_pos(eb);
    if e <= eb {
        let k = (eb - e) as nat;
        lemma_pow2_adds(k, e);
        lemma_mul_is_associative(sig as int, pow2(k) as int, pow2(e) as int);
        assert(n == sig * pow2(k)) by (nonlinear_arith)
            requires
                n * pow2(e) == (sig * pow2(k)) * pow2(e),
                pow2(e) > 0,
        ;
        lemma_round_magnitude_shift(sig, k, e as int);
    } else {
        let k = (e - eb) as nat;
        lemma_pow2_adds(k, eb);
        lemma_mul_is_associative(n as int, pow2(k) as int, pow2(eb) as int);
        assert(sig == n * pow2(k)) by (nonlinear_arith)
            requires
                sig * pow2(eb) == (n * pow2(k)) * pow2(eb),
                pow2(eb) > 0,
        ;
        lemma_round_magnitude_shift(n, k, eb as int);
    }
}

/// Where the exact sum of two finite values is a binary32 value, their
/// rounded sum is that value.
pub proof fn lemma_exact_sum(p: u32, q: u32, b: u32)
    requires
        is_finite(p),
        is_finite(q),
        is_finite(b),
        scaled(p) + scaled(q) == scaled(b),
    ensures
        is_finite(add_spec(p, q)),
        scaled(add_spec(p, q)) == scaled(b),
{
    let ep = exponent(p);
    let eq = exponent(q);
    let e = sum_exponent(ep as int, eq as int) as nat;
    let np = significand(p) * pow2((ep - e) as nat);
    let nq = significand(q) * pow2((eq - e) as nat);
    let x = exact_sum(
        is_negative(p),
        significand(p),
        ep as int,
        is_negative(q),
        significand(q),
        eq as int,
    );
    assert(x == signed(is_negative(p), np) + signed(is_negative(q), nq));
    let unit = pow2(e);
    lemma_pow2_pos(e);
    lemma_pow2_adds((ep - e) as nat, e);
    lemma_pow2_adds((eq - e) as nat, e);
    lemma_mul_is_associative(significand(p) as int, pow2((ep - e) as nat) as int, unit as int);
    lemma_mul_is_associative(significand(q) as int, pow2((eq - e) as nat) as int, unit as int);
    assert(np * unit == magnitude(p));
    assert(nq * unit == magnitude(q));
    assert(x * unit == scaled(b)) by (nonlinear_arith)
        requires
            x == signed(is_negative(p), np) + signed(is_negative(q), nq),
            np * unit == magnitude(p),
            nq * unit == magnitude(q),
            scaled(p) + scaled(q) == scaled(b),
            scaled(p) == signed(is_negative(p), magnitude(p)),
            scaled(q) == signed(is_negative(q), magnitude(q)),
    ;
    lemma_significand(b);
    assert(abs_bits(b) < 0x8000_0000);
    if x == 0 {
        lemma_decode(0, 0);
        lemma_pack(is_negative(p) && is_negative(q), 0);
        assert(0 * pow2(0) == 0) by (nonlinear_arith);
    } else {
        let n = absolute(x);
        assert(n * unit == magnitude(b) && (x < 0) == (scaled(b) < 0)) by (nonlinear_arith)
            requires
                x * unit == scaled(b),
                unit > 0,
                x != 0,
                n == if x < 0 {
                    -x
                } else {
                    x
                },
                scaled(b) == signed(is_negative(b), magnitude(b)),
        ;
        lemma_round_of_equal(n, e, b);
        lemma_pack(x < 0, abs_bits(b));
        assert(abs_bits(b) as u32 == abs_bits(b));
        assert(magnitude(abs_bits(b) as u32) == magnitude(b));
    }
}

/// Flipping the sign of a finite value negates it.
pub proof fn lemma_negate(a: u32)
    requires
        is_finite(a),
    ensures
        is_finite(negate_spec(a)),
        scaled(negate_spec(a)) == -scaled(a),
{
}

/// The integer part of a finite value whose last place is below one is a
/// value, and so is what is left of the value without it.
pub proof fn lemma_trunc_and_rest(a: u32) -> (rest: u32)
    requires
        is_finite(a),
        exponent(a) < UNIT_SHIFT,
    ensures
        is_finite(trunc_spec(a)),
        scaled(trunc_spec(a)) == signed(is_negative(a), whole(a) * pow2(UNIT_SHIFT as nat)),
        is_finite(rest),
        scaled(rest) == signed(is_negative(a), fractional(a)),
{
    lemma_significand(a);
    lemma_pow2_values();
    let sig = significand(a);
    let e = exponent(a);
    let k = (UNIT_SHIFT - e) as nat;
    let unit = pow2(UNIT_SHIFT as nat);
    let pe = pow2(e);
    let pk = pow2(k);
    lemma_pow2_pos(e);
    lemma_pow2_pos(k);
    lemma_pow2_pos(UNIT_SHIFT as nat);
    lemma_pow2_adds(e, k);
    // whole(a) == sig / 2^k and fractional(a) == 2^e * (sig % 2^k)
    lemma_div_multiples_vanish_quotient(pe as int, sig as int, pk as int);
    lemma_truncate_middle(sig as int, pe as int, pk as int);
    assert(sig * pe == pe * sig) by (nonlinear_arith);
    let w = sig / pk;
    let f = sig % pk;
    assert(whole(a) == w);
    assert(fractional(a) == pe * f);
    // the integer part has at most 23 bits
    lemma_pow2_increases(1, k);
    lemma_div_is_ordered_by_denominator(sig as int, 2, pk as int);
    assert(w < 0x80_0000);
    if w > 0 {
        lemma_bit_length_bounds(w);
        if bit_length(w) > 23 {
            lemma_pow2_increases(23, (bit_length(w) - 1) as nat);
        }
    } else {
        assert(bit_length(0) == 0);
    }
    lemma_exact(w, UNIT_SHIFT as nat);
    lemma_pack(is_negative(a), round_magnitude(w, UNIT_SHIFT as int));
    // the rest has at most as many bits as the significand
    lemma_mod_bound(sig as int, pk as int);
    lemma_fundamental_div_mod(sig as int, pk as int);
    assert(pk * w >= 0) by (nonlinear_arith)
        requires
            pk > 0,
            w >= 0,
    ;
    assert(f <= sig);
    if f > 0 {
        lemma_bit_length_bounds(f);
        if bit_length(f) > 24 {
            lemma_pow2_increases(24, (bit_length(f) - 1) as nat);
        }
    } else {
        assert(bit_length(0) == 0);
    }
    lemma_exact(f, e);
    lemma_pack(is_negative(a), round_magnitude(f, e as int));
    assert(f * pe == pe * f) by (nonlinear_arith);
    pack(is_negative(a), round_magnitude(f, e as int))
}

/// The integer part of a finite value and its fractional part add up to the
/// value, exactly: `trunc(x) + fract(x) == x`, the two zeros being equal.
pub proof fn lemma_trunc_plus_fract(a: u32)
    requires
        is_finite(a),
    ensures
        is_finite(fract_spec(a)),
        is_finite(add_spec(trunc_spec(a), fract_spec(a))),
        scaled(add_spec(trunc_spec(a), fract_spec(a))) == scaled(a),
{
    let t = trunc_spec(a);
    if exponent(a) >= UNIT_SHIFT {
        // the value is an integer: nothing is left of it
        lemma_negate(a);
        lemma_pack(false, 0);
        lemma_decode(0, 0);
        assert(0 * pow2(0) == 0) by (nonlinear_arith);
        lemma_exact_sum(a, negate_spec(a), 0u32);
        lemma_exact_sum(a, fract_spec(a), a);
    } else {
        let rest = lemma_trunc_and_rest(a);
        lemma_negate(t);
        let unit = pow2(UNIT_SHIFT as nat);
        lemma_pow2_pos(UNIT_SHIFT as nat);
        lemma_fundamental_div_mod(magnitude(a) as int, unit as int);
        assert(whole(a) * unit == unit * whole(a)) by (nonlinear_arith);
        lemma_exact_sum(a, negate_spec(t), rest);
        lemma_exact_sum(t, fract_spec(a), a);
    }
}

/// The pattern of a whole number that is no greater than the weight of the
/// implicit bit, with a sign, holds that number.
pub proof fn lemma_from_integer(negative: bool, i: nat)
    requires
        i <= 0x80_0000,
    ensures
        is_finite(from_integer_spec(negative, i)),
        scaled(from_integer_spec(negative, i)) == signed(negative, i * pow2(UNIT_SHIFT as nat)),
{
    lemma_pow2_values();
    if i > 0 {
        lemma_bit_length_bounds(i);
        if bit_length(i) > 24 {
            lemma_pow2_increases(24, (bit_length(i) - 1) as nat);
        }
    } else {
        assert(bit_length(0) == 0);
    }
    lemma_exact(i, UNIT_SHIFT as nat);
    lemma_pack(negative, round_magnitude(i, UNIT_SHIFT as int));
}

/// The floor of a finite value is the greatest whole number that is not
/// above it, and its ceiling the least that is not below it.
pub proof fn lemma_floor_and_ceil(a: u32)
    requires
        is_finite(a),
    ensures
        is_finite(floor_spec(a)),
        is_finite(ceil_spec(a)),
        scaled(floor_spec(a)) == (scaled(a) / (pow2(UNIT_SHIFT as nat) as int)) * pow2(
            UNIT_SHIFT as nat,
        ),
        scaled(ceil_spec(a)) == -(((-scaled(a)) / (pow2(UNIT_SHIFT as nat) as int)) * pow2(
            UNIT_SHIFT as nat,
        )),
{
    lemma_significand(a);
    lemma_pow2_values();
    let unit = pow2(UNIT_SHIFT as nat) as int;
    lemma_pow2_pos(UNIT_SHIFT as nat);
    let m = magnitude(a) as int;
    let w = whole(a) as int;
    let f = fractional(a) as int;
    lemma_fundamental_div_mod(m, unit);
    lemma_mod_bound(m, unit);
    assert(m == w * unit + f) by (nonlinear_arith)
        requires
            m == unit * w + f,
    ;
    if exponent(a) >= UNIT_SHIFT {
        // the value is whole: a multiple of one
        let k = (exponent(a) - UNIT_SHIFT) as nat;
        lemma_pow2_adds(k, UNIT_SHIFT as nat);
        lemma_mul_is_associative(significand(a) as int, pow2(k) as int, unit);
        let q = (significand(a) * pow2(k)) as int;
        assert((-q) * unit == -m) by (nonlinear_arith)
            requires
                q * unit == m,
        ;
        lemma_fundamental_div_mod_converse(m, unit, q, 0);
        lemma_fundamental_div_mod_converse(-m, unit, -q, 0);
    } else {
        let k = (UNIT_SHIFT - exponent(a)) as nat;
        lemma_pow2_adds(exponent(a), k);
        lemma_pow2_pos(exponent(a));
        lemma_pow2_pos(k);
        lemma_pow2_increases(1, k);
        lemma_div_multiples_vanish_quotient(
            pow2(exponent(a)) as int,
            significand(a) as int,
            pow2(k) as int,
        );
        assert(significand(a) * pow2(exponent(a)) == pow2(exponent(a)) * significand(a))
            by (nonlinear_arith);
        lemma_div_is_ordered_by_denominator(significand(a) as int, 2, pow2(k) as int);
        assert(w < 0x80_0000);
        lemma_from_integer(is_negative(a), w as nat);
        lemma_from_integer(true, (w + 1) as nat);
        lemma_from_integer(false, (w + 1) as nat);
        if f > 0 {
            assert(-m == (-(w + 1)) * unit + (unit - f)) by (nonlinear_arith)
                requires
                    m == w * unit + f,
            ;
            lemma_fundamental_div_mod_converse(-m, unit, -(w + 1), unit - f);
        } else {
            assert(-m == (-w) * unit) by (nonlinear_arith)
                requires
                    m == w * unit + f,
                    f == 0,
            ;
            lemma_fundamental_div_mod_converse(-m, unit, -w, 0);
        }
        assert((-(w + 1)) * unit == -((w + 1) * unit) && (-w) * unit == -(w * unit))
            by (nonlinear_arith);
    }
}

/// Of two finite values the one with the greater absolute pattern has the
/// greater absolute value.
pub proof fn lemma_magnitude_increases(a: u32, b: u32)
    requires
        is_finite(a),
        is_finite(b),
        abs_bits(a) < abs_bits(b),
    ensures
        magnitude(a) < magnitude(b),
{
    lemma_significand(a);
    lemma_significand(b);
    lemma_pow2_values();
    let ea = exponent(a);
    let eb = exponent(b);
    lemma_pow2_pos(ea);
    if ea == eb {
        lemma_mul_strict_inequality(
            significand(a) as int,
            significand(b) as int,
            pow2(ea) as int,
        );
    } else {
        assert(ea < eb);
        lemma_pow2_adds(24, ea);
        lemma_pow2_adds(23, eb);
        lemma_pow2_increases(24 + ea, 23 + eb);
        lemma_pow2_pos(eb);
        lemma_mul_strict_inequality(significand(a) as int, 0x100_0000, pow2(ea) as int);
        lemma_mul_inequality(0x80_0000, significand(b) as int, pow2(eb) as int);
    }
}

/// Finite values stand in the order of their places: the order by which the
/// greatest and the least lane are found is the order of the values.
pub proof fn lemma_order(a: u32, b: u32)
    requires
        is_finite(a),
        is_finite(b),
    ensures
        ordinal(a) < ordinal(b) <==> scaled(a) < scaled(b),
        ordinal(a) == ordinal(b) <==> scaled(a) == scaled(b),
{
    lemma_significand(a);
    lemma_significand(b);
    if abs_bits(a) < abs_bits(b) {
        lemma_magnitude_increases(a, b);
    }
    if abs_bits(b) < abs_bits(a) {
        lemma_magnitude_increases(b, a);
    }
    if abs_bits(a) == abs_bits(b) {
        assert(exponent(a) == exponent(b) && significand(a) == significand(b));
    }
    if abs_bits(a) == 0 {
        lemma_decode(0, 0);
        assert(0 * pow2(0) == 0) by (nonlinear_arith);
    }
    if abs_bits(b) == 0 {
        lemma_decode(0, 0);
        assert(0 * pow2(0) == 0) by (nonlinear_arith);
    }
    if abs_bits(a) > 0 {
        lemma_magnitude_increases(0u32, a);
    }
    if abs_bits(b) > 0 {
        lemma_magnitude_increases(0u32, b);
    }
}

} // verus!
