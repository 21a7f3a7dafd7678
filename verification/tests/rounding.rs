use core_simd::binary32;
use core_simd::vector::{SimdF32, SimdI32};

struct Bits(u64);

impl Bits {
    fn next_u32(&mut self) -> u32 {
        self.0 = self.0.wrapping_mul(6364136223846793005).wrapping_add(1442695040888963407);
        (self.0 >> 32) as u32
    }

    /// Mostly values whose integer and fractional parts both matter.
    fn next(&mut self) -> u32 {
        let kind = self.next_u32() % 8;
        let raw = self.next_u32();
        match kind {
            0 => raw,
            1 => {
                let special = [
                    0u32, 0x8000_0000, 0x7f80_0000, 0xff80_0000, 1, 0x3f00_0000, 0xbf00_0000,
                    0x3fc0_0000, 0x4020_0000, 0xc020_0000, 0x4b00_0000, 0x4a80_0001, 0x3f7f_ffff,
                    0x3f80_0000, 0xbf80_0000, 0x7fc0_0000,
                ];
                special[(raw % 16) as usize]
            }
            _ => (raw & 0x807f_ffff) | (110 + (raw >> 8) % 45) << 23,
        }
    }
}

fn same(got: u32, want: f32) -> bool {
    if want.is_nan() {
        f32::from_bits(got).is_nan()
    } else {
        got == want.to_bits()
    }
}

#[test]
fn ceil_floor_trunc_agree_with_the_machine() {
    let mut p = Bits(11);
    for _ in 0..200_000 {
        let a = p.next();
        let x = f32::from_bits(a);
        assert!(same(binary32::ceil(a), x.ceil()), "ceil {:#x}", a);
        assert!(same(binary32::floor(a), x.floor()), "floor {:#x}", a);
        assert!(same(binary32::trunc(a), x.trunc()), "trunc {:#x}", a);
    }
}

#[test]
fn fract_agrees_with_the_machine() {
    let mut p = Bits(12);
    for _ in 0..200_000 {
        let a = p.next();
        let x = f32::from_bits(a);
        assert!(same(binary32::fract(a), x - x.trunc()), "fract {:#x}", a);
    }
}

#[test]
fn round_sends_ties_toward_zero() {
    let cases: [(f32, f32); 14] = [
        (0.5, 0.0),
        (1.5, 1.0),
        (2.5, 2.0),
        (-0.5, -0.0),
        (-1.5, -1.0),
        (-2.5, -2.0),
        (0.50000006, 1.0),
        (-0.50000006, -1.0),
        (2.4, 2.0),
        (2.6, 3.0),
        (-2.6, -3.0),
        (8388607.5, 8388607.0),
        (0.0, 0.0),
        (-0.0, -0.0),
    ];
    for (x, want) in cases {
        assert_eq!(binary32::round(x.to_bits()), want.to_bits(), "round {}", x);
    }
}

#[test]
fn round_agrees_with_the_machine_away_from_ties() {
    let mut p = Bits(13);
    for _ in 0..200_000 {
        let a = p.next();
        let x = f32::from_bits(a);
        if (x - x.trunc()).abs() != 0.5 {
            assert!(same(binary32::round(a), x.round()), "round {:#x}", a);
        }
    }
}

#[test]
fn trunc_plus_fract_is_the_value() {
    let mut p = Bits(14);
    for _ in 0..200_000 {
        let a = p.next();
        let x = f32::from_bits(a);
        if x.is_finite() {
            let sum = binary32::add(binary32::trunc(a), binary32::fract(a));
            assert!(f32::from_bits(sum) == x, "{:#x}", a);
        }
    }
}

#[test]
fn rounding_works_lane_by_lane() {
    let values = [1.5f32, -1.5, 0.25, -0.25, 7.0, -7.75, 1.0e10, -0.0];
    let mut bits = [0u32; 8];
    for i in 0..8 {
        bits[i] = values[i].to_bits();
    }
    let v = SimdF32::<8>::from_bits(bits);
    for i in 0..8 {
        assert_eq!(v.ceil().to_bits()[i], values[i].ceil().to_bits());
        assert_eq!(v.floor().to_bits()[i], values[i].floor().to_bits());
        assert_eq!(v.trunc().to_bits()[i], values[i].trunc().to_bits());
        assert_eq!(v.fract().to_bits()[i], (values[i] - values[i].trunc()).to_bits());
        assert_eq!(v.round().to_bits()[i], binary32::round(bits[i]));
    }
}

#[test]
fn round_from_int_rounds_to_nearest() {
    let mut p = Bits(15);
    for _ in 0..200_000 {
        let i = p.next_u32() as i32;
        assert_eq!(binary32::from_integer(i), (i as f32).to_bits(), "{}", i);
    }
    let v = SimdI32::<4>::from_array([0, -1, i32::MAX, i32::MIN]);
    assert_eq!(
        SimdF32::<4>::round_from_int(v).to_bits(),
        [0, 0xbf80_0000, 0x4f00_0000, 0xcf00_0000]
    );
    // 2^24 + 1 is a tie between 2^24 and 2^24 + 2
    assert_eq!(binary32::from_integer(16_777_217), 16_777_216.0f32.to_bits());
    assert_eq!(binary32::from_integer(16_777_219), 16_777_220.0f32.to_bits());
}

#[test]
fn to_int_unchecked_truncates() {
    let values = [0.0f32, -0.0, 0.9, -0.9, 1.5, -2147483648.0, 2147483520.0, 12345.678];
    let mut bits = [0u32; 8];
    for i in 0..8 {
        bits[i] = values[i].to_bits();
    }
    let got = SimdF32::<8>::from_bits(bits).to_int_unchecked().to_array();
    assert_eq!(got, [0, 0, 0, 0, 1, i32::MIN, 2147483520, 12345]);
    let mut p = Bits(16);
    for _ in 0..200_000 {
        let a = p.next();
        let x = f32::from_bits(a);
        if x.is_finite() && x >= -2147483648.0 && x < 2147483648.0 {
            assert_eq!(binary32::to_integer(a), x as i32, "{:#x}", a);
        }
    }
}
