//! Dyadic numbers: integers counted in powers of two, and their rounding to a
//! given number of significant bits. This is the arithmetic under every
//! binary floating-point format; a format adds the patterns that hold the
//! results.
use vstd::prelude::*;
use vstd::arithmetic::power2::*;
use vstd::arithmetic::div_mod::*;
use vstd::arithmetic::mul::*;

verus! {

/// The powers of two that the formats and their arithmetic name.
pub proof fn lemma_pow2_values()
    ensures
        pow2(0) == 1,
        pow2(1) == 2,
        pow2(4) == 16,
        pow2(8) == 0x100,
        pow2(11) == 0x800,
        pow2(23) == 0x80_0000,
        pow2(24) == 0x100_0000,
        pow2(48) == 0x1_0000_0000_0000,
        pow2(52) == 0x10_0000_0000_0000,
        pow2(53) == 0x20_0000_0000_0000,
        pow2(63) == 0x8000_0000_0000_0000,
        pow2(64) == 0x1_0000_0000_0000_0000,
        pow2(124) == 0x1000_0000_0000_0000_0000_0000_0000_0000,
        pow2(125) == 0x2000_0000_0000_0000_0000_0000_0000_0000,
        pow2(126) == 0x4000_0000_0000_0000_0000_0000_0000_0000,
        pow2(127) == 0x8000_0000_0000_0000_0000_0000_0000_0000,
        pow2(128) == 0x1_0000_0000_0000_0000_0000_0000_0000_0000,
{
    lemma2_to64();
    lemma2_to64_rest();
    lemma_pow2_adds(64, 60);
    lemma_pow2_adds(64, 61);
    lemma_pow2_adds(64, 62);
    lemma_pow2_adds(64, 63);
    lemma_pow2_adds(64, 64);
}

/// Powers of two grow with their exponents.
pub proof fn lemma_pow2_increases(a: nat, b: nat)
    requires
        a <= b,
    ensures
        pow2(a) <= pow2(b),
{
    if a < b {
        lemma_pow2_strictly_increases(a, b);
    }
}

/// Number of binary digits of `n`.
pub open spec fn bit_length(n: nat) -> nat
    decreases n,
{
    if n == 0 {
        0
    } else {
        1 + bit_length(n / 2)
    }
}

/// A positive number lies between the two powers of two that its bit length
/// names.
pub proof fn lemma_bit_length_bounds(n: nat)
    requires
        n > 0,
    ensures
        bit_length(n) >= 1,
        pow2((bit_length(n) - 1) as nat) <= n < pow2(bit_length(n)),
    decreases n,
{
    if n == 1 {
        assert(bit_length(1) == 1) by {
            reveal_with_fuel(bit_length, 3);
        }
        lemma2_to64();
    } else {
        lemma_bit_length_bounds(n / 2);
        let k = bit_length(n / 2);
        lemma_pow2_unfold(k);
        lemma_pow2_unfold(k + 1);
    }
}

/// The bit length is the only exponent whose powers of two enclose `n`.
pub proof fn lemma_bit_length_unique(n: nat, k: nat)
    requires
        k >= 1,
        pow2((k - 1) as nat) <= n < pow2(k),
    ensures
        bit_length(n) == k,
{
    lemma_pow2_pos((k - 1) as nat);
    lemma_bit_length_bounds(n);
    let b = bit_length(n);
    if b < k {
        lemma_pow2_increases(b, (k - 1) as nat);
    }
    if b > k {
        lemma_pow2_increases(k, (b - 1) as nat);
    }
}

/// Multiplying a number by a power of two adds the exponent to its bit length.
pub proof fn lemma_bit_length_shift(n: nat, k: nat)
    requires
        n > 0,
    ensures
        n * pow2(k) > 0,
        bit_length(n * pow2(k)) == bit_length(n) + k,
{
    lemma_bit_length_bounds(n);
    let len = bit_length(n);
    lemma_pow2_pos(k);
    lemma_pow2_adds((len - 1) as nat, k);
    lemma_pow2_adds(len, k);
    lemma_mul_inequality(pow2((len - 1) as nat) as int, n as int, pow2(k) as int);
    lemma_mul_strict_inequality(n as int, pow2(len) as int, pow2(k) as int);
    lemma_pow2_pos((len - 1 + k) as nat);
    lemma_bit_length_unique(n * pow2(k), len + k);
}

/// Number of binary digits of `n`.
pub(crate) fn bit_length_exec(n: u128) -> (r: u32)
    ensures
        r == bit_length(n as nat),
        r <= 128,
{
    proof {
        if n > 0 {
            lemma_bit_length_bounds(n as nat);
            lemma_pow2_values();
            if bit_length(n as nat) > 128 {
                lemma_pow2_increases(128, (bit_length(n as nat) - 1) as nat);
            }
        }
    }
    let mut m: u128 = n;
    let mut r: u32 = 0;
    while m > 0
        invariant
            bit_length(n as nat) == r + bit_length(m as nat),
            bit_length(n as nat) <= 128,
        decreases m,
    {
        m = m / 2;
        r = r + 1;
    }
    r
}

/// The power of two with the given exponent.
pub(crate) fn pow2_exec(k: u32) -> (r: u128)
    requires
        k <= 126,
    ensures
        r == pow2(k as nat),
{
    let mut r: u128 = 1;
    let mut i: u32 = 0;
    proof {
        lemma_pow2_values();
    }
    while i < k
        invariant
            i <= k <= 126,
            r == pow2(i as nat),
        decreases k - i,
    {
        proof {
            lemma_pow2_values();
            lemma_pow2_increases(i as nat, 125);
            lemma_pow2_unfold((i + 1) as nat);
        }
        r = r * 2;
        i = i + 1;
    }
    r
}

/// The integer of the given sign and absolute value.
pub open spec fn signed(negative: bool, n: nat) -> int {
    if negative {
        -(n as int)
    } else {
        n as int
    }
}

/// `base` moved by `x` away from zero, or towards it.
pub open spec fn offset(base: nat, x: nat, minus: bool) -> nat {
    if minus {
        (base - x) as nat
    } else {
        base + x
    }
}

/// `n / d` rounded to the nearest integer, a tie going to the even one.
pub open spec fn rounded_quotient(n: nat, d: nat) -> nat {
    let q = n / d;
    let r = n % d;
    if 2 * r > d || (2 * r == d && q % 2 == 1) {
        q + 1
    } else {
        q
    }
}

/// A common factor of dividend and divisor leaves the rounded quotient as it is.
pub proof fn lemma_rounded_quotient_scale(n: nat, d: nat, c: nat)
    requires
        d > 0,
        c > 0,
    ensures
        rounded_quotient(n * c, d * c) == rounded_quotient(n, d),
{
    lemma_div_multiples_vanish_quotient(c as int, n as int, d as int);
    lemma_truncate_middle(n as int, c as int, d as int);
    let r = n % d;
    assert(n * c == c * n && d * c == c * d) by (nonlinear_arith);
    assert((2 * (c * r) > c * d) == (2 * r > d)) by (nonlinear_arith)
        requires
            c > 0,
    ;
    assert((2 * (c * r) == c * d) == (2 * r == d)) by (nonlinear_arith)
        requires
            c > 0,
    ;
}

/// A multiple of the divisor has no remainder to round.
pub proof fn lemma_rounded_quotient_exact(q: nat, d: nat)
    requires
        d > 0,
    ensures
        rounded_quotient(q * d, d) == q,
{
    lemma_fundamental_div_mod_converse((q * d) as int, d as int, q as int, 0);
}

/// The rounded quotient of a multiple of `16 * g`, moved by at most `g`, by
/// another such multiple: the quotient of the multiples, rounded up or down
/// by where their remainder stands and by the side of the move alone.
pub proof fn lemma_rounded_quotient_near(a: nat, k: nat, g: nat, x: nat, minus: bool)
    requires
        a > 0,
        k > 0,
        g > 0,
        0 < x <= g,
    ensures
        16 * a * g >= g,
        rounded_quotient(offset(16 * a * g, x, minus), 16 * k * g) == a / k + if minus {
            if 2 * (a % k) > k {
                1nat
            } else {
                0nat
            }
        } else {
            if 2 * (a % k) >= k {
                1nat
            } else {
                0nat
            }
        },
{
    let q = a / k;
    let r = a % k;
    lemma_fundamental_div_mod(a as int, k as int);
    lemma_mod_bound(a as int, k as int);
    let base = 16 * a * g;
    let d = 16 * k * g;
    let p = g * r;
    let w = g * k;
    assert(d == 16 * w && base == q * d + 16 * p && base >= 16 * g) by (nonlinear_arith)
        requires
            a == k * q + r,
            d == 16 * k * g,
            base == 16 * a * g,
            p == g * r,
            w == g * k,
            a >= 1,
            g >= 1,
    ;
    assert(0 <= p <= w - g) by (nonlinear_arith)
        requires
            0 <= r <= k - 1,
            g > 0,
            p == g * r,
            w == g * k,
    ;
    assert(2 * r < k ==> 2 * p <= w - g) by (nonlinear_arith)
        requires
            g > 0,
            p == g * r,
            w == g * k,
    ;
    assert(2 * r >= k ==> 2 * p >= w) by (nonlinear_arith)
        requires
            g > 0,
            p == g * r,
            w == g * k,
    ;
    assert(2 * r <= k ==> 2 * p <= w) by (nonlinear_arith)
        requires
            g > 0,
            p == g * r,
            w == g * k,
    ;
    assert(2 * r > k ==> 2 * p >= w + g) by (nonlinear_arith)
        requires
            g > 0,
            p == g * r,
            w == g * k,
    ;
    assert(r >= 1 ==> p >= g) by (nonlinear_arith)
        requires
            g > 0,
            p == g * r,
    ;
    let n = offset(base, x, minus);
    if !minus {
        lemma_fundamental_div_mod_converse(n as int, d as int, q as int, (16 * p + x) as int);
    } else if r >= 1 {
        lemma_fundamental_div_mod_converse(n as int, d as int, q as int, 16 * p - x);
    } else {
        assert(q >= 1) by (nonlinear_arith)
            requires
                a == k * q + r,
                r == 0,
                a >= 1,
                k >= 1,
        ;
        assert(n == (q - 1) * d + (d - x)) by (nonlinear_arith)
            requires
                n == base - x,
                base == q * d + 16 * p,
                p == g * r,
                r == 0,
        ;
        lemma_fundamental_div_mod_converse(n as int, d as int, q - 1, d - x);
    }
}

/// The power of two, in units, of the last place in which `n * 2^e` units are
/// held with at most `p` significant bits: never below one unit.
pub open spec fn last_place(p: nat, n: nat, e: int) -> int {
    if n == 0 {
        0
    } else {
        let top = bit_length(n) + e;
        if top > p {
            top - p
        } else {
            0
        }
    }
}

/// The count of last places nearest to `n * 2^e` units, a tie going to the
/// even count. It has at most `p` bits, or is `2^p`.
pub open spec fn rounded_significand(p: nat, n: nat, e: int) -> nat {
    let s = last_place(p, n, e) - e;
    if s <= 0 {
        n * pow2((-s) as nat)
    } else {
        rounded_quotient(n, pow2(s as nat))
    }
}

/// Zero rounds to zero.
pub proof fn lemma_rounding_zero(p: nat, e: int)
    ensures
        rounded_significand(p, 0, e) == 0,
{
    if e >= 0 {
        assert(0 * pow2(e as nat) == 0) by (nonlinear_arith);
    } else {
        lemma_pow2_pos((-e) as nat);
        lemma_basic_div(0, pow2((-e) as nat) as int);
        lemma_small_mod(0, pow2((-e) as nat));
    }
}

/// Rounding sees a value only through its binary expansion: a power of two
/// may move between the integer and its exponent.
pub proof fn lemma_rounding_shift(p: nat, n: nat, k: nat, e: int)
    ensures
        last_place(p, n * pow2(k), e) == last_place(p, n, e + k),
        rounded_significand(p, n * pow2(k), e) == rounded_significand(p, n, e + k),
{
    lemma_pow2_pos(k);
    if n == 0 {
        assert(n * pow2(k) == 0) by (nonlinear_arith)
            requires
                n == 0,
        ;
        lemma_rounding_zero(p, e);
        lemma_rounding_zero(p, e + k);
    } else {
        lemma_bit_length_shift(n, k);
        let j = last_place(p, n, e + k);
        let s1 = j - e;
        let s2 = j - e - k;
        if s1 <= 0 {
            lemma_pow2_adds(k, (-s1) as nat);
            lemma_mul_is_associative(n as int, pow2(k) as int, pow2((-s1) as nat) as int);
        } else if s2 <= 0 {
            lemma_pow2_adds((-s2) as nat, s1 as nat);
            lemma_pow2_pos(s1 as nat);
            lemma_mul_is_associative(n as int, pow2((-s2) as nat) as int, pow2(s1 as nat) as int);
            lemma_rounded_quotient_exact(n * pow2((-s2) as nat), pow2(s1 as nat));
        } else {
            lemma_pow2_adds(s2 as nat, k);
            lemma_pow2_pos(s2 as nat);
            lemma_rounded_quotient_scale(n, pow2(s2 as nat), pow2(k));
        }
    }
}

/// Within `2^(d - c)` of `n * 2^d` every number on one side has the same bit
/// length, which is at least `d`.
pub proof fn lemma_sticky_bit_length(c: nat, n: nat, d: nat, x: nat, minus: bool)
    requires
        n > 0,
        1 <= c <= d,
        0 < x <= pow2((d - c) as nat),
    ensures
        n * pow2(d) > x,
        bit_length(offset(n * pow2(d), x, minus)) == if minus && n == pow2(
            (bit_length(n) - 1) as nat,
        ) {
            (bit_length(n) + d - 1) as nat
        } else {
            bit_length(n) + d
        },
{
    let len = bit_length(n);
    let base = n * pow2(d);
    lemma_bit_length_bounds(n);
    lemma_pow2_pos(d);
    lemma_pow2_pos((d - c) as nat);
    lemma_pow2_adds((len - 1) as nat, d);
    lemma_pow2_adds(len, d);
    lemma_pow2_increases((d - c) as nat, (d - 1) as nat);
    lemma_pow2_unfold(d);
    lemma_pow2_pos((len - 1) as nat);
    let lo = pow2((len - 1) as nat);
    let hi = pow2(len);
    let pd = pow2(d);
    assert(lo * pd <= base && base + pd <= hi * pd) by (nonlinear_arith)
        requires
            lo <= n,
            n + 1 <= hi,
            base == n * pd,
            pd > 0,
    ;
    assert(lo * pd >= pd) by (nonlinear_arith)
        requires
            lo >= 1,
            pd > 0,
    ;
    if !minus {
        lemma_bit_length_unique(base + x, len + d);
    } else if n == lo {
        // base == 2^(len - 1 + d), and base - x stays above half of it
        lemma_pow2_unfold((len - 1 + d) as nat);
        lemma_pow2_increases(d, (len - 1 + d) as nat);
        lemma_pow2_increases((d - 1) as nat, (len - 2 + d) as nat);
        lemma_bit_length_unique((base - x) as nat, (len - 1 + d) as nat);
    } else {
        assert(base >= lo * pd + pd) by (nonlinear_arith)
            requires
                n >= lo + 1,
                base == n * pd,
                pd > 0,
        ;
        lemma_bit_length_unique((base - x) as nat, len + d);
    }
}

/// What is added to or taken from `n * 2^d` decides the rounding only by being
/// there, while it stays within `2^(d - c)` and that lies far enough below
/// the last place: five bits or more.
pub proof fn lemma_rounding_sticky(p: nat, c: nat, n: nat, d: nat, x: nat, e: int, minus: bool)
    requires
        n > 0,
        4 <= c <= d,
        bit_length(n) + c >= p + 5,
        0 < x <= pow2((d - c) as nat),
    ensures
        n * pow2(d) > pow2((d - c) as nat),
        offset(n * pow2(d), x, minus) > 0,
        last_place(p, offset(n * pow2(d), x, minus), e) == last_place(
            p,
            offset(n * pow2(d), pow2((d - c) as nat), minus),
            e,
        ),
        rounded_significand(p, offset(n * pow2(d), x, minus), e) == rounded_significand(
            p,
            offset(n * pow2(d), pow2((d - c) as nat), minus),
            e,
        ),
{
    let g = pow2((d - c) as nat);
    let base = n * pow2(d);
    lemma_pow2_values();
    lemma_pow2_pos((d - c) as nat);
    lemma_pow2_pos((c - 4) as nat);
    lemma_pow2_adds(c, (d - c) as nat);
    lemma_pow2_adds(4, (c - 4) as nat);
    // base == 16 * (n * 2^(c - 4)) * g
    let a = n * pow2((c - 4) as nat);
    assert(base == 16 * a * g && a > 0) by (nonlinear_arith)
        requires
            base == n * pow2(d),
            pow2(d) == pow2(c) * g,
            pow2(c) == 16 * pow2((c - 4) as nat),
            a == n * pow2((c - 4) as nat),
            pow2((c - 4) as nat) > 0,
            n > 0,
    ;
    lemma_sticky_bit_length(c, n, d, x, minus);
    lemma_sticky_bit_length(c, n, d, g, minus);
    let nx = offset(base, x, minus);
    let ng = offset(base, g, minus);
    assert(bit_length(ng) == bit_length(nx));
    let j = last_place(p, nx, e);
    let s = j - e;
    lemma_bit_length_bounds(n);
    assert(s >= d - c + 4);
    let k = pow2((s - d + c - 4) as nat);
    lemma_pow2_pos((s - d + c - 4) as nat);
    lemma_pow2_adds((s - d + c - 4) as nat, (d - c + 4) as nat);
    lemma_pow2_adds(4, (d - c) as nat);
    assert(pow2(s as nat) == 16 * k * g) by (nonlinear_arith)
        requires
            pow2(s as nat) == k * pow2((d - c + 4) as nat),
            pow2((d - c + 4) as nat) == 16 * g,
    ;
    lemma_rounded_quotient_near(a, k, g, x, minus);
    lemma_rounded_quotient_near(a, k, g, g, minus);
}

/// Rounds `n * 2^e` units to `p` significant bits: the last place and the
/// count of last places.
pub(crate) fn round_to(p: u32, n: u128, e: i32) -> (r: (i32, u128))
    requires
        1 <= p <= 64,
        n < 0x2000_0000_0000_0000_0000_0000_0000_0000,
        -4000 <= e <= 4000,
    ensures
        r.0 == last_place(p as nat, n as nat, e as int),
        r.1 == rounded_significand(p as nat, n as nat, e as int),
        r.1 <= pow2(p as nat),
        0 <= r.0 <= 4200,
{
    if n == 0 {
        proof {
            lemma_rounding_zero(p as nat, e as int);
        }
        return (0, 0);
    }
    let len: i32 = bit_length_exec(n) as i32;
    proof {
        lemma_bit_length_bounds(n as nat);
        lemma_pow2_values();
        if len > 125 {
            lemma_pow2_increases(125, (len - 1) as nat);
        }
        lemma_pow2_increases(p as nat, 64);
    }
    let top: i32 = len + e;
    let j: i32 = if top > p as i32 {
        top - p as i32
    } else {
        0
    };
    let s: i32 = j - e;
    let m: u128;
    if s <= 0 {
        let scale: u128 = pow2_exec((-s) as u32);
        proof {
            lemma_pow2_pos((-s) as nat);
            lemma_pow2_adds(len as nat, (-s) as nat);
            lemma_pow2_increases((len - s) as nat, p as nat);
            lemma_mul_strict_inequality(n as int, pow2(len as nat) as int, scale as int);
        }
        m = n * scale;
    } else if s > 126 {
        proof {
            lemma_pow2_increases(126, s as nat);
            lemma_basic_div(n as int, pow2(s as nat) as int);
            lemma_small_mod(n as nat, pow2(s as nat));
        }
        m = 0;
    } else {
        let scale: u128 = pow2_exec(s as u32);
        proof {
            lemma_pow2_pos(s as nat);
            lemma_pow2_increases(s as nat, 126);
        }
        let q: u128 = n / scale;
        let r: u128 = n % scale;
        proof {
            lemma_pow2_adds(s as nat, p as nat);
            lemma_pow2_increases(len as nat, (s + p) as nat);
            lemma_multiply_divide_lt(n as int, scale as int, pow2(p as nat) as int);
        }
        m = if 2 * r > scale || (2 * r == scale && q % 2 == 1) {
            q + 1
        } else {
            q
        };
    }
    (j, m)
}

/// The power of two in which the exact sum of two terms is counted: the
/// lesser of theirs.
pub open spec fn sum_exponent(ea: int, eb: int) -> int {
    if ea <= eb {
        ea
    } else {
        eb
    }
}

/// The exact sum of two terms, each given by its sign, an integer and the
/// power of two that the integer counts.
pub open spec fn exact_sum(sa: bool, na: nat, ea: int, sb: bool, nb: nat, eb: int) -> int {
    let e = sum_exponent(ea, eb);
    signed(sa, na * pow2((ea - e) as nat)) + signed(sb, nb * pow2((eb - e) as nat))
}

/// The absolute value of an integer.
pub open spec fn absolute(x: int) -> nat {
    if x < 0 {
        (-x) as nat
    } else {
        x as nat
    }
}

/// The term of the given sign, integer and exponent is zero where `x` is,
/// and else has the sign of `x` and rounds to `p` bits as `x * 2^ex` does.
pub open spec fn rounds_as(p: nat, negative: bool, n: nat, e: int, x: int, ex: int) -> bool {
    if x == 0 {
        n == 0
    } else {
        &&& n > 0
        &&& negative == (x < 0)
        &&& last_place(p, n, e) == last_place(p, absolute(x), ex)
        &&& rounded_significand(p, n, e) == rounded_significand(p, absolute(x), ex)
    }
}

/// The order of the two terms does not matter to their sum.
pub proof fn lemma_exact_sum_commutes(sa: bool, na: nat, ea: int, sb: bool, nb: nat, eb: int)
    ensures
        exact_sum(sa, na, ea, sb, nb, eb) == exact_sum(sb, nb, eb, sa, na, ea),
        sum_exponent(ea, eb) == sum_exponent(eb, ea),
{
}

/// The sum of two terms whose exponents are close enough for it to be formed
/// in full.
fn add_near(
    p: u32,
    w: u32,
    c: u32,
    s1: bool,
    n1: u64,
    e1: i32,
    s2: bool,
    n2: u64,
    e2: i32,
) -> (r: (bool, u128, i32))
    requires
        2 * w + c <= 125,
        n1 < pow2(w as nat),
        n2 < pow2(w as nat),
        e2 <= e1,
        e1 - e2 < w + c,
    ensures
        rounds_as(
            p as nat,
            r.0,
            r.1 as nat,
            r.2 as int,
            exact_sum(s1, n1 as nat, e1 as int, s2, n2 as nat, e2 as int),
            e2 as int,
        ),
        r.1 < 0x2000_0000_0000_0000_0000_0000_0000_0000,
        r.2 == e2,
{
    let d: i32 = e1 - e2;
    proof {
        lemma_pow2_values();
        lemma_pow2_increases(d as nat, (w + c - 1) as nat);
        lemma_pow2_adds(w as nat, (w + c - 1) as nat);
        lemma_pow2_increases((2 * w + c - 1) as nat, 124);
        lemma_pow2_increases(w as nat, 124);
        lemma_pow2_increases(d as nat, 126);
    }
    let scale: u128 = pow2_exec(d as u32);
    proof {
        lemma_mul_upper_bound(
            n1 as int,
            pow2(w as nat) as int,
            scale as int,
            pow2((w + c - 1) as nat) as int,
        );
        assert(n2 * pow2(0) == n2) by (nonlinear_arith)
            requires
                pow2(0) == 1,
        ;
    }
    let x1: u128 = (n1 as u128) * scale;
    let x2: u128 = n2 as u128;
    if s1 == s2 {
        (s1, x1 + x2, e2)
    } else if x1 >= x2 {
        (s1, x1 - x2, e2)
    } else {
        (s2, x2 - x1, e2)
    }
}

/// The sum of two terms of which the second lies so far below the first that
/// it can only tip the rounding: a term that rounds as the sum does.
fn add_far(
    p: u32,
    w: u32,
    c: u32,
    s1: bool,
    n1: u64,
    e1: i32,
    s2: bool,
    n2: u64,
    e2: i32,
) -> (r: (bool, u128, i32))
    requires
        4 <= c,
        2 * w + c <= 125,
        0 < n1 < pow2(w as nat),
        0 < n2 < pow2(w as nat),
        -3500 <= e2 <= e1 <= 3500,
        e1 - e2 >= w + c,
        bit_length(n1 as nat) + c >= p + 5,
    ensures
        rounds_as(
            p as nat,
            r.0,
            r.1 as nat,
            r.2 as int,
            exact_sum(s1, n1 as nat, e1 as int, s2, n2 as nat, e2 as int),
            e2 as int,
        ),
        r.1 < 0x2000_0000_0000_0000_0000_0000_0000_0000,
        r.2 == e1 - c,
{
    let minus = s1 != s2;
    proof {
        lemma_pow2_values();
        lemma_pow2_increases(c as nat, 126);
        lemma_pow2_adds(w as nat, c as nat);
        lemma_pow2_increases((w + c) as nat, 124);
        lemma_pow2_pos(c as nat);
    }
    let scale: u128 = pow2_exec(c);
    proof {
        lemma_mul_strict_inequality(n1 as int, pow2(w as nat) as int, scale as int);
        lemma_mul_inequality(1, n1 as int, scale as int);
    }
    let x1: u128 = (n1 as u128) * scale;
    let kept: u128 = if minus {
        x1 - 1
    } else {
        x1 + 1
    };
    proof {
        let d = (e1 - e2) as nat;
        let g = pow2((d - c) as nat);
        let base = (n1 as nat) * pow2(d);
        lemma_pow2_increases(w as nat, (d - c) as nat);
        lemma_rounding_sticky(p as nat, c as nat, n1 as nat, d, n2 as nat, e2 as int, minus);
        lemma_pow2_adds(c as nat, (d - c) as nat);
        lemma_pow2_pos((d - c) as nat);
        assert(kept * g == offset(base, g, minus)) by (nonlinear_arith)
            requires
                kept == if minus {
                    n1 * scale - 1
                } else {
                    n1 * scale + 1
                },
                base == n1 * pow2(d),
                pow2(d) == scale * g,
                g > 0,
                n1 > 0,
                scale > 0,
        ;
        lemma_rounding_shift(p as nat, kept as nat, (d - c) as nat, e2 as int);
        assert(n2 * pow2(0) == n2) by (nonlinear_arith)
            requires
                pow2(0) == 1,
        ;
        assert(base > n2);
        let x = exact_sum(s1, n1 as nat, e1 as int, s2, n2 as nat, e2 as int);
        assert(x == signed(s1, offset(base, n2 as nat, minus)));
        assert(absolute(x) == offset(base, n2 as nat, minus));
        assert((kept as nat) * pow2((d - c) as nat) == offset(base, g, minus));
        assert(e2 + (d - c) == e1 - c);
        lemma_pow2_increases(4, c as nat);
        assert(kept > 0);
        assert(x != 0);
        assert((x < 0) == s1);
        assert(rounded_significand(p as nat, kept as nat, e1 - c) == rounded_significand(
            p as nat,
            offset(base, g, minus),
            e2 as int,
        ));
        assert(last_place(p as nat, kept as nat, e1 - c) == last_place(
            p as nat,
            offset(base, g, minus),
            e2 as int,
        ));
    }
    (s1, kept, e1 - c as i32)
}

/// The sum of two terms, the one with the larger exponent first.
fn add_ordered(
    p: u32,
    w: u32,
    c: u32,
    s1: bool,
    n1: u64,
    e1: i32,
    s2: bool,
    n2: u64,
    e2: i32,
) -> (r: (bool, u128, i32))
    requires
        4 <= c,
        2 * w + c <= 125,
        n1 < pow2(w as nat),
        n2 < pow2(w as nat),
        -3500 <= e2 <= e1 <= 3500,
        e1 - e2 >= w + c && n1 > 0 ==> bit_length(n1 as nat) + c >= p + 5,
    ensures
        rounds_as(
            p as nat,
            r.0,
            r.1 as nat,
            r.2 as int,
            exact_sum(s1, n1 as nat, e1 as int, s2, n2 as nat, e2 as int),
            e2 as int,
        ),
        r.1 < 0x2000_0000_0000_0000_0000_0000_0000_0000,
        -3700 <= r.2 <= 3500,
{
    if e1 - e2 < (w + c) as i32 {
        add_near(p, w, c, s1, n1, e1, s2, n2, e2)
    } else if n2 == 0 {
        proof {
            lemma_pow2_values();
            lemma_pow2_increases(w as nat, 124);
            assert(0 * pow2(0) == 0) by (nonlinear_arith);
            if n1 > 0 {
                lemma_rounding_shift(p as nat, n1 as nat, (e1 - e2) as nat, e2 as int);
                lemma_bit_length_shift(n1 as nat, (e1 - e2) as nat);
            } else {
                assert(0 * pow2((e1 - e2) as nat) == 0) by (nonlinear_arith);
            }
        }
        (s1, n1 as u128, e1)
    } else if n1 == 0 {
        proof {
            lemma_pow2_values();
            lemma_pow2_increases(w as nat, 124);
            assert(0 * pow2((e1 - e2) as nat) == 0) by (nonlinear_arith);
            assert(n2 * pow2(0) == n2) by (nonlinear_arith)
                requires
                    pow2(0) == 1,
            ;
        }
        (s2, n2 as u128, e2)
    } else {
        add_far(p, w, c, s1, n1, e1, s2, n2, e2)
    }
}

/// Adds two terms, each given by its sign, an integer below `2^w` and the
/// power of two that the integer counts, for rounding to `p` bits: the result
/// is a term, zero where the sum is, that else has the sign of the sum and
/// rounds as the sum does.
///
/// A term whose exponent lies `w + c` or more above the other's has an
/// integer of at least `p + 5 - c` bits.
pub(crate) fn add_terms(
    p: u32,
    w: u32,
    c: u32,
    sa: bool,
    na: u64,
    ea: i32,
    sb: bool,
    nb: u64,
    eb: i32,
) -> (r: (bool, u128, i32))
    requires
        4 <= c,
        2 * w + c <= 125,
        na < pow2(w as nat),
        nb < pow2(w as nat),
        -3500 <= ea <= 3500,
        -3500 <= eb <= 3500,
        ea - eb >= w + c && na > 0 ==> bit_length(na as nat) + c >= p + 5,
        eb - ea >= w + c && nb > 0 ==> bit_length(nb as nat) + c >= p + 5,
    ensures
        rounds_as(
            p as nat,
            r.0,
            r.1 as nat,
            r.2 as int,
            exact_sum(sa, na as nat, ea as int, sb, nb as nat, eb as int),
            sum_exponent(ea as int, eb as int),
        ),
        r.1 < 0x2000_0000_0000_0000_0000_0000_0000_0000,
        -3700 <= r.2 <= 3500,
{
    if ea < eb {
        proof {
            lemma_exact_sum_commutes(sa, na as nat, ea as int, sb, nb as nat, eb as int);
        }
        add_ordered(p, w, c, sb, nb, eb, sa, na, ea)
    } else {
        add_ordered(p, w, c, sa, na, ea, sb, nb, eb)
    }
}

/// How a fractional part compares with one half.
#[derive(Clone, Copy)]
pub enum Half {
    /// There is no fractional part.
    Zero,
    /// The fractional part is positive and below one half.
    Below,
    /// The fractional part is one half.
    Exactly,
    /// The fractional part is above one half.
    Above,
}

/// Where a fractional part stands against one half, both counted in units
/// of which `2^unit` make one.
pub open spec fn half_of(unit: nat, part: nat) -> Half {
    if part == 0 {
        Half::Zero
    } else if 2 * part < pow2(unit) {
        Half::Below
    } else if 2 * part == pow2(unit) {
        Half::Exactly
    } else {
        Half::Above
    }
}

/// Splits `n * 2^e` units, of which `2^unit` make one and which have a last
/// place below one, into the integer part and the standing of the fractional
/// part.
pub(crate) fn split(unit: i32, n: u64, e: i32) -> (r: (u64, Half))
    requires
        n < 0x8000_0000_0000_0000,
        0 <= e < unit <= 4000,
    ensures
        r.0 == ((n as nat) * pow2(e as nat)) / pow2(unit as nat),
        r.1 == half_of(unit as nat, ((n as nat) * pow2(e as nat)) % pow2(unit as nat)),
        r.0 <= n / 2,
{
    let k: i32 = unit - e;
    let ghost pe = pow2(e as nat);
    let ghost pk = pow2(k as nat);
    proof {
        lemma_pow2_values();
        lemma_pow2_pos(e as nat);
        lemma_pow2_pos(k as nat);
        lemma_pow2_adds(e as nat, k as nat);
        lemma_div_multiples_vanish_quotient(pe as int, n as int, pk as int);
        lemma_truncate_middle(n as int, pe as int, pk as int);
        assert(n * pe == pe * n) by (nonlinear_arith);
    }
    if k > 63 {
        proof {
            lemma_pow2_increases(64, k as nat);
            lemma_basic_div(n as int, pk as int);
            lemma_small_mod(n as nat, pk);
            assert(2 * (pe * n) < pe * pk && (n > 0 ==> pe * n > 0)) by (nonlinear_arith)
                requires
                    2 * n < pk,
                    pe > 0,
            ;
        }
        (
            0,
            if n == 0 {
                Half::Zero
            } else {
                Half::Below
            },
        )
    } else {
        proof {
            lemma_pow2_increases(k as nat, 63);
            lemma_pow2_increases(1, k as nat);
        }
        let scale: u64 = pow2_exec(k as u32) as u64;
        let q: u64 = n / scale;
        let r: u64 = n % scale;
        proof {
            assert((2 * (pe * r) < pe * pk) == (2 * r < pk) && (2 * (pe * r) == pe * pk) == (2 * r
                == pk) && (pe * r == 0) == (r == 0)) by (nonlinear_arith)
                requires
                    pe > 0,
            ;
            lemma_div_is_ordered_by_denominator(n as int, 2, pk as int);
        }
        (
            q,
            if r == 0 {
                Half::Zero
            } else if 2 * r < scale {
                Half::Below
            } else if 2 * r == scale {
                Half::Exactly
            } else {
                Half::Above
            },
        )
    }
}

} // verus!
