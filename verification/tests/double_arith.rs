use core_simd::binary64;
use core_simd::vector::{SimdF64, SimdI64, Vector};

/// A fixed sequence of bit patterns that visits zeros, subnormals, values
/// near one, huge values, infinities and NaNs.
struct Patterns(u64);

impl Patterns {
    fn next_u64(&mut self) -> u64 {
        self.0 = self.0.wrapping_mul(6364136223846793005).wrapping_add(1442695040888963407);
        let high = self.0 >> 32;
        self.0 = self.0.wrapping_mul(6364136223846793005).wrapping_add(1442695040888963407);
        (high << 32) | (self.0 >> 32)
    }

    fn next(&mut self) -> u64 {
        let kind = self.next_u64() % 10;
        let raw = self.next_u64();
        let sign_and_fraction = raw & 0x800f_ffff_ffff_ffff;
        match kind {
            0 => {
                let special = [
                    0u64,
                    0x8000_0000_0000_0000,
                    0x7ff0_0000_0000_0000,
                    0xfff0_0000_0000_0000,
                    1,
                    0x8000_0000_0000_0001,
                    0x000f_ffff_ffff_ffff,
                    0x0010_0000_0000_0000,
                    0x7fef_ffff_ffff_ffff,
                    0x3ff0_0000_0000_0000,
                    0xbff0_0000_0000_0000,
                    0x4330_0000_0000_0000,
                    0x4340_0000_0000_0000,
                    0x3fe0_0000_0000_0000,
                    0x7ff8_0000_0000_0000,
                ];
                special[(raw % 15) as usize]
            }
            1 | 2 => raw,
            3 => sign_and_fraction | ((raw >> 52) % 80) << 52,
            4 => sign_and_fraction | (1960 + (raw >> 52) % 87) << 52,
            5 | 6 => sign_and_fraction | (1023 - 40 + (raw >> 52) % 110) << 52,
            _ => sign_and_fraction | (900 + (raw >> 52) % 250) << 52,
        }
    }
}

fn same(got: u64, want: f64) -> bool {
    if want.is_nan() {
        f64::from_bits(got).is_nan()
    } else {
        got == want.to_bits()
    }
}

#[test]
fn double_multiply_agrees_with_the_machine() {
    let mut p = Patterns(21);
    for _ in 0..100_000 {
        let (a, b) = (p.next(), p.next());
        let want = f64::from_bits(a) * f64::from_bits(b);
        assert!(same(binary64::multiply(a, b), want), "{:#x} * {:#x}", a, b);
    }
}

#[test]
fn double_add_agrees_with_the_machine() {
    let mut p = Patterns(22);
    for _ in 0..100_000 {
        let (a, b) = (p.next(), p.next());
        let want = f64::from_bits(a) + f64::from_bits(b);
        assert!(same(binary64::add(a, b), want), "{:#x} + {:#x}", a, b);
    }
}

#[test]
fn double_add_agrees_with_the_machine_across_every_gap_of_exponents() {
    let mut p = Patterns(23);
    for gap in 0..140u64 {
        for _ in 0..300 {
            let raw_a = p.next_u64();
            let raw_b = p.next_u64();
            let a = (raw_a & 0x800f_ffff_ffff_ffff) | (1200 << 52);
            let b = (raw_b & 0x800f_ffff_ffff_ffff) | ((1200 - gap) << 52);
            let want = f64::from_bits(a) + f64::from_bits(b);
            assert!(same(binary64::add(a, b), want), "{:#x} + {:#x}", a, b);
            assert!(same(binary64::add(b, a), want), "{:#x} + {:#x}", b, a);
        }
    }
}

#[test]
fn double_subtract_agrees_with_the_machine() {
    let mut p = Patterns(24);
    for _ in 0..100_000 {
        let (a, b) = (p.next(), p.next());
        let want = f64::from_bits(a) - f64::from_bits(b);
        assert!(same(binary64::subtract(a, b), want), "{:#x} - {:#x}", a, b);
    }
}

#[test]
fn double_rounding_agrees_with_the_machine() {
    let mut p = Patterns(25);
    for _ in 0..100_000 {
        let a = p.next();
        let x = f64::from_bits(a);
        assert!(same(binary64::ceil(a), x.ceil()), "ceil {:#x}", a);
        assert!(same(binary64::floor(a), x.floor()), "floor {:#x}", a);
        assert!(same(binary64::trunc(a), x.trunc()), "trunc {:#x}", a);
        assert!(same(binary64::fract(a), x - x.trunc()), "fract {:#x}", a);
        if (x - x.trunc()).abs() != 0.5 {
            assert!(same(binary64::round(a), x.round()), "round {:#x}", a);
        }
    }
}

#[test]
fn double_round_sends_ties_toward_zero() {
    let cases: [(f64, f64); 8] = [
        (0.5, 0.0),
        (1.5, 1.0),
        (-0.5, -0.0),
        (-2.5, -2.0),
        (0.5000000000000001, 1.0),
        (4503599627370495.5, 4503599627370495.0),
        (2.6, 3.0),
        (-0.0, -0.0),
    ];
    for (x, want) in cases {
        assert_eq!(binary64::round(x.to_bits()), want.to_bits(), "round {}", x);
    }
}

#[test]
fn double_trunc_plus_fract_is_the_value() {
    let mut p = Patterns(26);
    for _ in 0..100_000 {
        let a = p.next();
        let x = f64::from_bits(a);
        if x.is_finite() {
            let sum = binary64::add(binary64::trunc(a), binary64::fract(a));
            assert!(f64::from_bits(sum) == x, "{:#x}", a);
        }
    }
}

#[test]
fn double_conversion_to_and_from_integers() {
    let mut p = Patterns(27);
    for _ in 0..100_000 {
        let i = p.next_u64() as i64;
        assert_eq!(binary64::from_integer(i), (i as f64).to_bits(), "{}", i);
        let small = i >> (p.next_u64() % 64);
        assert_eq!(binary64::from_integer(small), (small as f64).to_bits(), "{}", small);
        let a = p.next();
        let x = f64::from_bits(a);
        if x.is_finite() && x >= -9223372036854775808.0 && x < 9223372036854775808.0 {
            assert_eq!(binary64::to_integer(a), x as i64, "{:#x}", a);
        }
    }
    let v = SimdI64::<4>::from_array([0, -1, i64::MAX, i64::MIN]);
    assert_eq!(
        SimdF64::<4>::round_from_int(v).to_bits(),
        [0, (-1.0f64).to_bits(), 9223372036854775808.0f64.to_bits(), (-9223372036854775808.0f64).to_bits()]
    );
    let w = SimdF64::<4>::from_bits([
        2.9f64.to_bits(),
        (-2.9f64).to_bits(),
        (-9223372036854775808.0f64).to_bits(),
        4611686018427387904.0f64.to_bits(),
    ]);
    assert_eq!(w.to_int_unchecked().to_array(), [2, -2, i64::MIN, 1 << 62]);
}

fn doubles<const N: usize>(values: [f64; N]) -> SimdF64<N>
where
    SimdF64<N>: Vector,
{
    let mut bits = [0u64; N];
    for i in 0..N {
        bits[i] = values[i].to_bits();
    }
    SimdF64::from_bits(bits)
}

#[test]
fn double_vectors_work_lane_by_lane() {
    let values = [1.5f64, -1.5, 0.25, -7.75];
    let others = [3.0f64, 1.0e300, -0.25, 1.0e-310];
    let v = doubles(values);
    let o = doubles(others);
    for i in 0..4 {
        assert_eq!(v.ceil().to_bits()[i], values[i].ceil().to_bits());
        assert_eq!(v.floor().to_bits()[i], values[i].floor().to_bits());
        assert_eq!(v.trunc().to_bits()[i], values[i].trunc().to_bits());
        assert_eq!(v.fract().to_bits()[i], (values[i] - values[i].trunc()).to_bits());
        assert_eq!(v.round().to_bits()[i], binary64::round(values[i].to_bits()));
        assert_eq!(v.mul(o).to_bits()[i], (values[i] * others[i]).to_bits());
        assert_eq!(v.add(o).to_bits()[i], (values[i] + others[i]).to_bits());
        assert_eq!(v.sub(o).to_bits()[i], (values[i] - others[i]).to_bits());
        assert_eq!(v.abs().to_bits()[i], values[i].abs().to_bits());
    }
    assert_eq!(SimdF64::<2>::splat(2.0f64.to_bits()).to_bits(), [2.0f64.to_bits(); 2]);
}

#[test]
fn double_reductions() {
    let values = [1.0e16f64, 1.0, -1.0e16, 0.5, 3.25, 1.0e-3, 7.0, -2.0];
    let v = doubles(values);
    assert_eq!(v.horizontal_sum(), values.iter().fold(0.0f64, |a, b| a + *b).to_bits());
    assert_eq!(v.horizontal_product(), values.iter().fold(1.0f64, |a, b| a * *b).to_bits());
    assert_eq!(v.horizontal_max(), 1.0e16f64.to_bits());
    assert_eq!(v.horizontal_min(), (-1.0e16f64).to_bits());
    let with_nan = doubles([f64::NAN, -3.0, f64::NAN, 2.5]);
    assert_eq!(with_nan.horizontal_max(), 2.5f64.to_bits());
    assert_eq!(with_nan.horizontal_min(), (-3.0f64).to_bits());
    assert!(f64::from_bits(doubles([f64::NAN; 2]).horizontal_max()).is_nan());
}
