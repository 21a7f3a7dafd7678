use core_simd::binary32;
use core_simd::vector::SimdF32;

/// A fixed sequence of bit patterns that visits zeros, subnormals, values
/// near one, huge values, infinities and NaNs.
struct Patterns(u64);

impl Patterns {
    fn next_u32(&mut self) -> u32 {
        self.0 = self.0.wrapping_mul(6364136223846793005).wrapping_add(1442695040888963407);
        (self.0 >> 32) as u32
    }

    fn next(&mut self) -> u32 {
        let kind = self.next_u32() % 10;
        let raw = self.next_u32();
        match kind {
            0 => {
                let special = [
                    0u32, 0x8000_0000, 0x7f80_0000, 0xff80_0000, 1, 0x8000_0001, 0x007f_ffff,
                    0x0080_0000, 0x7f7f_ffff, 0x3f80_0000, 0xbf80_0000, 0x4b00_0000, 0x4b80_0000,
                    0x3f00_0000, 0x7fc0_0000,
                ];
                special[(raw % 15) as usize]
            }
            1 | 2 => raw,
            3 | 4 => (raw & 0x807f_ffff) | ((raw >> 8) % 30) << 23,
            _ => (raw & 0x807f_ffff) | (100 + (raw >> 8) % 60) << 23,
        }
    }
}

fn same(got: u32, want: f32) -> bool {
    if want.is_nan() {
        f32::from_bits(got).is_nan()
    } else {
        got == want.to_bits()
    }
}

#[test]
fn multiply_agrees_with_the_machine() {
    let mut p = Patterns(1);
    for _ in 0..200_000 {
        let (a, b) = (p.next(), p.next());
        let want = f32::from_bits(a) * f32::from_bits(b);
        assert!(same(binary32::multiply(a, b), want), "{:#x} * {:#x}", a, b);
    }
}

#[test]
fn add_agrees_with_the_machine() {
    let mut p = Patterns(2);
    for _ in 0..200_000 {
        let (a, b) = (p.next(), p.next());
        let want = f32::from_bits(a) + f32::from_bits(b);
        assert!(same(binary32::add(a, b), want), "{:#x} + {:#x}", a, b);
    }
}

#[test]
fn subtract_agrees_with_the_machine() {
    let mut p = Patterns(3);
    for _ in 0..200_000 {
        let (a, b) = (p.next(), p.next());
        let want = f32::from_bits(a) - f32::from_bits(b);
        assert!(same(binary32::subtract(a, b), want), "{:#x} - {:#x}", a, b);
    }
}

#[test]
fn fused_multiply_add_agrees_with_the_machine() {
    let mut p = Patterns(4);
    for _ in 0..200_000 {
        let (a, b, c) = (p.next(), p.next(), p.next());
        let want = f32::from_bits(a).mul_add(f32::from_bits(b), f32::from_bits(c));
        assert!(
            same(binary32::fused_multiply_add(a, b, c), want),
            "{:#x} * {:#x} + {:#x}",
            a,
            b,
            c
        );
    }
}

#[test]
fn floor_agrees_with_the_machine() {
    let mut p = Patterns(5);
    for _ in 0..200_000 {
        let a = p.next();
        assert!(same(binary32::floor(a), f32::from_bits(a).floor()), "floor {:#x}", a);
    }
}

#[test]
fn add_rounds_ties_to_even() {
    // 2^24 + 1 lies halfway between 2^24 and 2^24 + 2.
    assert_eq!(binary32::add(0x4b80_0000, 0x3f80_0000), 0x4b80_0000);
    // 2^24 + 3 lies halfway between 2^24 + 2 and 2^24 + 4.
    assert_eq!(binary32::add(0x4b80_0001, 0x3f80_0000), 0x4b80_0002);
}

#[test]
fn add_keeps_a_far_smaller_term_as_a_sticky_bit() {
    // 1 - 2^-149 rounds back to 1, 1 + 2^-24 + 2^-149 rounds up.
    assert_eq!(binary32::subtract(0x3f80_0000, 1), 0x3f80_0000);
    assert_eq!(binary32::fused_multiply_add(0x3f80_0000, 0x3f80_0000, 1), 0x3f80_0000);
    let just_above_the_tie = binary32::fused_multiply_add(0x3f80_0001, 0x3f80_0001, 1);
    let want = f32::from_bits(0x3f80_0001).mul_add(f32::from_bits(0x3f80_0001), f32::from_bits(1));
    assert_eq!(just_above_the_tie, want.to_bits());
}

#[test]
fn exact_zero_sums_are_positive_unless_both_terms_are_negative() {
    assert_eq!(binary32::add(0x3f80_0000, 0xbf80_0000), 0);
    assert_eq!(binary32::add(0x8000_0000, 0x8000_0000), 0x8000_0000);
    assert_eq!(binary32::add(0, 0x8000_0000), 0);
}

#[test]
fn multiply_overflows_to_infinity() {
    assert_eq!(binary32::multiply(0x7f7f_ffff, 0x4000_0000), 0x7f80_0000);
    assert_eq!(binary32::multiply(0xff7f_ffff, 0x4000_0000), 0xff80_0000);
}

#[test]
fn invalid_operations_give_the_quiet_nan() {
    assert_eq!(binary32::multiply(0, 0x7f80_0000), binary32::NAN);
    assert_eq!(binary32::add(0x7f80_0000, 0xff80_0000), binary32::NAN);
    assert_eq!(binary32::floor(0x7f80_0001), binary32::NAN);
}

#[test]
fn sin_of_one_is_within_the_documented_error() {
    let x = SimdF32::<8>::splat(1.0f32.to_bits());
    let got = x.sin().to_bits();
    let reference = 1.0f32.sin();
    let mut worst = 0.0f32;
    for lane in got.iter() {
        let error = (f32::from_bits(*lane) - reference).abs();
        if error > worst {
            worst = error;
        }
    }
    assert!(worst < 0.0000002);
    assert_eq!(got, [0x3f57_6aa7; 8]);
}

#[test]
fn sin_follows_its_lanes() {
    let x = SimdF32::<4>::from_bits([
        0.0f32.to_bits(),
        0.5f32.to_bits(),
        (-2.0f32).to_bits(),
        10.0f32.to_bits(),
    ]);
    let got = x.sin().to_bits();
    let inputs = [0.0f32, 0.5, -2.0, 10.0];
    for i in 0..4 {
        assert!((f32::from_bits(got[i]) - inputs[i].sin()).abs() < 0.000002);
        assert_eq!(got[i], SimdF32::<1>::splat(inputs[i].to_bits()).sin().to_bits()[0]);
    }
}

#[test]
fn mul_add_rounds_once() {
    // (1 + 2^-12)^2 - 1 = 2^-11 + 2^-24: the product alone loses 2^-24 to a tie.
    let a = SimdF32::<2>::splat(0x3f80_0800);
    let minus_one = SimdF32::<2>::splat(0xbf80_0000);
    let got = a.mul_add(a, minus_one).to_bits();
    let want = f32::from_bits(0x3f80_0800).mul_add(f32::from_bits(0x3f80_0800), -1.0);
    assert_eq!(got, [want.to_bits(); 2]);
    assert_ne!(got[0], a.mul(a).add(minus_one).to_bits()[0]);
}

#[test]
fn sin_error_is_the_horizontal_maximum_of_the_lane_errors() {
    let x = SimdF32::<8>::splat(1.0f32.to_bits());
    let reference = SimdF32::<8>::splat(1.0f32.sin().to_bits());
    let worst = x.sin().sub(reference).abs().horizontal_max();
    assert!(f32::from_bits(worst) < 0.0000002);
}

#[test]
fn add_agrees_with_the_machine_across_every_gap_of_exponents() {
    let mut p = Patterns(6);
    for gap in 0..120u32 {
        for _ in 0..300 {
            let a = (p.next_u32() & 0x807f_ffff) | (180 << 23);
            let b = (p.next_u32() & 0x807f_ffff) | ((180 - gap) << 23);
            let want = f32::from_bits(a) + f32::from_bits(b);
            assert!(same(binary32::add(a, b), want), "{:#x} + {:#x}", a, b);
            assert!(same(binary32::add(b, a), want), "{:#x} + {:#x}", b, a);
        }
    }
}

#[test]
fn fused_multiply_add_agrees_with_the_machine_when_the_product_is_tiny() {
    let mut p = Patterns(7);
    for _ in 0..100_000 {
        let a = p.next_u32() & 0x80ff_ffff;
        let b = (p.next_u32() & 0x807f_ffff) | (((p.next_u32() % 200) + 20) << 23);
        let c = p.next();
        let want = f32::from_bits(a).mul_add(f32::from_bits(b), f32::from_bits(c));
        assert!(same(binary32::fused_multiply_add(a, b, c), want), "{:#x} {:#x} {:#x}", a, b, c);
    }
}
