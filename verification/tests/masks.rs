use core_simd::masks::bitmask;
use core_simd::masks::encoding::Encoding;
use core_simd::masks::full_masks;
use core_simd::masks::{
    mask16x16, mask16x32, mask16x4, mask16x8, mask32x16, mask32x2, mask32x4, mask32x8, mask64x2,
    mask64x4, mask64x8, mask8x16, mask8x32, mask8x64, mask8x8, masksizex2, masksizex4, masksizex8,
    Mask16, Mask32, Mask64, Mask8, MaskError, MaskSize,
};
use core_simd::vector::{SimdI32, SimdI8};

fn pattern<const N: usize>(seed: u64) -> [bool; N] {
    let mut state = seed;
    let mut out = [false; N];
    for lane in out.iter_mut() {
        state = state.wrapping_mul(6364136223846793005).wrapping_add(1442695040888963407);
        *lane = (state >> 40) & 1 == 1;
    }
    out
}

#[test]
fn array_round_trip() {
    for seed in 0..50 {
        let a = pattern::<32>(seed);
        assert_eq!(Mask16::<32>::from_array(a).to_array(), a);
        let b = pattern::<1>(seed);
        assert_eq!(MaskSize::<1>::from_array(b).to_array(), b);
        let c = pattern::<64>(seed);
        assert_eq!(mask8x64::from_array(c).to_array(), c);
    }
}

#[test]
fn splat_sets_every_lane() {
    assert_eq!(Mask32::<4>::splat(true).to_array(), [true; 4]);
    assert_eq!(Mask32::<4>::splat(false).to_array(), [false; 4]);
}

#[test]
fn test_and_set_check_the_lane() {
    let mut m = Mask8::<8>::splat(false);
    assert_eq!(m.set(3, true), Ok(()));
    assert_eq!(m.test(3), Ok(true));
    assert_eq!(m.test(2), Ok(false));
    assert_eq!(m.test(8), Err(MaskError::LaneOutOfRange));
    assert_eq!(m.set(8, true), Err(MaskError::LaneOutOfRange));
    assert_eq!(m.set(usize::MAX, true), Err(MaskError::LaneOutOfRange));
    assert_eq!(m.to_array(), [false, false, false, true, false, false, false, false]);
    m.set_unchecked(3, false);
    assert!(!m.test_unchecked(3));
}

#[test]
fn from_int_rejects_a_lane_that_is_neither_zero_nor_all_ones() {
    let v = SimdI32::<4>::from_array([0, -1, 1, 0]);
    assert!(matches!(Mask32::<4>::from_int(v), Err(MaskError::InvalidPattern)));
}

#[test]
fn from_int_to_int_round_trip() {
    let v = SimdI32::<4>::from_array([0, -1, -1, 0]);
    let m = Mask32::<4>::from_int(v).unwrap();
    assert_eq!(m.to_array(), [false, true, true, false]);
    assert_eq!(m.to_int().to_array(), [0, -1, -1, 0]);
    let w = SimdI8::<8>::from_array([-1, 0, 0, 0, -1, -1, 0, -1]);
    assert_eq!(Mask8::<8>::from_int_unchecked(w).to_int().to_array(), w.to_array());
    for seed in 0..20 {
        let a = pattern::<16>(seed);
        let ints = Mask64::<16>::from_array(a).to_int();
        assert_eq!(Mask64::<16>::from_int(ints).unwrap().to_array(), a);
    }
}

#[test]
fn bitmask_has_lane_zero_in_the_lowest_bit() {
    let mut lanes = [false; 16];
    lanes[0] = true;
    lanes[3] = true;
    lanes[9] = true;
    lanes[15] = true;
    let m = Mask16::<16>::from_array(lanes);
    assert_eq!(m.to_bitmask(), [0b0000_1001, 0b1000_0010]);
    assert_eq!(Mask16::<16>::from_bitmask([0b0000_1001, 0b1000_0010]).to_array(), lanes);
}

#[test]
fn bitmask_of_a_short_mask_leaves_the_high_bits_clear() {
    assert_eq!(Mask32::<2>::splat(true).to_bitmask(), [0b11]);
    assert_eq!(Mask32::<4>::splat(true).to_bitmask(), [0b1111]);
    assert_eq!(Mask32::<1>::splat(true).to_bitmask(), [0b1]);
    assert_eq!(Mask32::<4>::from_bitmask([0xff]).to_array(), [true; 4]);
    assert_eq!(Mask32::<4>::from_bitmask([0xf0]).to_array(), [false; 4]);
}

#[test]
fn bitmask_round_trip() {
    for seed in 0..50 {
        let a = pattern::<32>(seed);
        let m = Mask8::<32>::from_array(a);
        assert_eq!(Mask8::<32>::from_bitmask(m.to_bitmask()).to_array(), a);
        let b = pattern::<64>(seed);
        let m = mask8x64::from_array(b);
        assert_eq!(mask8x64::from_bitmask(m.to_bitmask()).to_array(), b);
        let c = pattern::<4>(seed);
        let m = mask32x4::from_array(c);
        assert_eq!(mask32x4::from_bitmask(m.to_bitmask()).to_array(), c);
    }
}

fn dense<const N: usize>(lanes: [bool; N]) -> full_masks::Mask<i16, N> {
    let mut m = <full_masks::Mask<i16, N> as Encoding<i16, N>>::splat(false);
    for (i, lane) in lanes.iter().enumerate() {
        m.set_unchecked(i, *lane);
    }
    m
}

fn packed<const N: usize>(lanes: [bool; N]) -> bitmask::Mask<i16, N> {
    let mut m = <bitmask::Mask<i16, N> as Encoding<i16, N>>::splat(false);
    for (i, lane) in lanes.iter().enumerate() {
        m.set_unchecked(i, *lane);
    }
    m
}

fn lanes_of<E: Encoding<i16, N>, const N: usize>(m: &E) -> [bool; N] {
    let mut out = [false; N];
    for (i, lane) in out.iter_mut().enumerate() {
        *lane = m.test_unchecked(i);
    }
    out
}

#[test]
fn both_encodings_write_the_same_bitmask() {
    for seed in 0..50 {
        let a = pattern::<16>(seed);
        let from_dense: [u8; 2] = dense(a).to_bitmask();
        let from_packed: [u8; 2] = packed(a).to_bitmask();
        assert_eq!(from_dense, from_packed);
        let b = pattern::<4>(seed);
        let from_dense: [u8; 1] = dense(b).to_bitmask();
        let from_packed: [u8; 1] = packed(b).to_bitmask();
        assert_eq!(from_dense, from_packed);
    }
}

#[test]
fn a_bitmask_written_by_one_encoding_is_read_by_the_other() {
    for seed in 0..50 {
        let a = pattern::<32>(seed);
        let bytes: [u8; 4] = dense(a).to_bitmask();
        let read = <bitmask::Mask<i16, 32> as Encoding<i16, 32>>::from_bitmask(bytes);
        assert_eq!(lanes_of(&read), a);
        let bytes: [u8; 4] = packed(a).to_bitmask();
        let read = <full_masks::Mask<i16, 32> as Encoding<i16, 32>>::from_bitmask(bytes);
        assert_eq!(lanes_of(&read), a);
    }
}

#[test]
fn both_encodings_agree_on_every_operation() {
    for seed in 0..30 {
        let a = pattern::<8>(seed);
        let b = pattern::<8>(seed + 1000);
        assert_eq!(lanes_of(&dense(a).and(dense(b))), lanes_of(&packed(a).and(packed(b))));
        assert_eq!(lanes_of(&dense(a).or(dense(b))), lanes_of(&packed(a).or(packed(b))));
        assert_eq!(lanes_of(&dense(a).xor(dense(b))), lanes_of(&packed(a).xor(packed(b))));
        assert_eq!(lanes_of(&dense(a).not()), lanes_of(&packed(a).not()));
        assert_eq!(dense(a).any(), packed(a).any());
        assert_eq!(dense(a).all(), packed(a).all());
        assert_eq!(dense(a).to_int().to_array(), packed(a).to_int().to_array());
        let ints = dense(a).to_int();
        let read = <bitmask::Mask<i16, 8> as Encoding<i16, 8>>::from_int_unchecked(ints);
        assert_eq!(lanes_of(&read), a);
    }
}

#[test]
fn packed_not_keeps_the_bits_past_the_last_lane_clear() {
    let m = packed([true, false, true]).not();
    let bytes: [u8; 1] = m.to_bitmask();
    assert_eq!(bytes, [0b010]);
    let all = <bitmask::Mask<i16, 3> as Encoding<i16, 3>>::splat(true);
    let bytes: [u8; 1] = all.to_bitmask();
    assert_eq!(bytes, [0b111]);
    assert!(all.all());
}

#[test]
fn any_and_all() {
    assert!(!Mask8::<16>::splat(false).any());
    assert!(!Mask8::<16>::splat(false).all());
    assert!(Mask8::<16>::splat(true).all());
    assert!(Mask8::<16>::splat(true).any());
    for lane in 0..8 {
        let mut m = mask16x8::splat(false);
        m.set(lane, true).unwrap();
        assert!(m.any());
        assert!(!m.all());
    }
}

#[test]
fn boolean_algebra() {
    let a = Mask32::<4>::from_array([true, true, false, false]);
    let b = Mask32::<4>::from_array([true, false, true, false]);
    assert_eq!((a & b).to_array(), [true, false, false, false]);
    assert_eq!((a | b).to_array(), [true, true, true, false]);
    assert_eq!((a ^ b).to_array(), [false, true, true, false]);
    assert_eq!((!a).to_array(), [false, false, true, true]);
    assert_eq!((a & true).to_array(), a.to_array());
    assert_eq!((a & false).to_array(), [false; 4]);
    assert_eq!((a | true).to_array(), [true; 4]);
    assert_eq!((a ^ true).to_array(), (!a).to_array());
    assert_eq!((true & a).to_array(), a.to_array());
    assert_eq!((false | a).to_array(), a.to_array());
    assert_eq!((true ^ a).to_array(), (!a).to_array());
}

#[test]
fn boolean_algebra_in_place() {
    let a = Mask32::<4>::from_array([true, true, false, false]);
    let b = Mask32::<4>::from_array([true, false, true, false]);
    let mut m = a;
    m &= b;
    assert_eq!(m.to_array(), [true, false, false, false]);
    let mut m = a;
    m |= b;
    assert_eq!(m.to_array(), [true, true, true, false]);
    let mut m = a;
    m ^= b;
    assert_eq!(m.to_array(), [false, true, true, false]);
    let mut m = a;
    m &= false;
    assert_eq!(m.to_array(), [false; 4]);
    let mut m = a;
    m |= true;
    assert_eq!(m.to_array(), [true; 4]);
    let mut m = a;
    m ^= true;
    assert_eq!(m.to_array(), [false, false, true, true]);
}

#[test]
fn width_conversion_round_trip() {
    for seed in 0..30 {
        let a = pattern::<8>(seed);
        let m = Mask8::<8>::from_array(a);
        let wide: Mask64<8> = m.cast();
        assert_eq!(wide.to_array(), a);
        let back: Mask8<8> = wide.cast();
        assert_eq!(back.to_array(), a);
        assert!(back == m);
        let through: Mask8<8> = Mask8::from(MaskSize::from(Mask32::from(Mask16::from(m))));
        assert_eq!(through.to_array(), a);
    }
}

#[test]
fn width_conversion_changes_the_integers_only() {
    let m = Mask8::<4>::from_array([true, false, false, true]);
    assert_eq!(m.to_int().to_array(), [-1i8, 0, 0, -1]);
    assert_eq!(Mask64::<4>::from(m).to_int().to_array(), [-1i64, 0, 0, -1]);
}

#[test]
fn default_is_all_false_and_masks_compare_by_lanes() {
    let d = Mask16::<4>::default();
    assert_eq!(d.to_array(), [false; 4]);
    assert!(d == Mask16::<4>::splat(false));
    assert!(d != Mask16::<4>::splat(true));
    let from: Mask16<4> = [true, false, true, false].into();
    let back: [bool; 4] = from.into();
    assert_eq!(back, [true, false, true, false]);
}

#[test]
fn named_masks_have_their_lanes() {
    assert_eq!(mask8x8::splat(true).to_array().len(), 8);
    assert_eq!(mask8x16::splat(true).to_bitmask(), [0xff; 2]);
    assert_eq!(mask8x32::splat(true).to_bitmask(), [0xff; 4]);
    assert_eq!(mask8x64::splat(true).to_bitmask(), [0xff; 8]);
    assert_eq!(mask16x4::splat(true).to_bitmask(), [0x0f]);
    assert_eq!(mask16x8::splat(true).to_int().to_array(), [-1i16; 8]);
    assert_eq!(mask16x16::splat(true).to_int().to_array(), [-1i16; 16]);
    assert_eq!(mask16x32::splat(true).to_int().to_array(), [-1i16; 32]);
    assert_eq!(mask32x2::splat(true).to_int().to_array(), [-1i32; 2]);
    assert_eq!(mask32x4::splat(false).to_int().to_array(), [0i32; 4]);
    assert_eq!(mask32x8::splat(true).to_int().to_array(), [-1i32; 8]);
    assert_eq!(mask32x16::splat(true).to_int().to_array(), [-1i32; 16]);
    assert_eq!(mask64x2::splat(true).to_int().to_array(), [-1i64; 2]);
    assert_eq!(mask64x4::splat(true).to_int().to_array(), [-1i64; 4]);
    assert_eq!(mask64x8::splat(true).to_int().to_array(), [-1i64; 8]);
    assert_eq!(masksizex2::splat(true).to_int().to_array(), [-1isize; 2]);
    assert_eq!(masksizex4::splat(true).to_int().to_array(), [-1isize; 4]);
    assert_eq!(masksizex8::splat(true).to_int().to_array(), [-1isize; 8]);
}

#[test]
fn packed_masks_set_and_test_every_lane() {
    let mut m = <bitmask::Mask<i8, 64> as Encoding<i8, 64>>::splat(false);
    for lane in 0..64 {
        assert!(!m.test_unchecked(lane));
        m.set_unchecked(lane, true);
        assert!(m.test_unchecked(lane));
        m.set_unchecked(lane, true);
        assert!(m.test_unchecked(lane));
        if lane % 3 == 0 {
            m.set_unchecked(lane, false);
            assert!(!m.test_unchecked(lane));
        }
    }
    let bytes: [u8; 8] = m.to_bitmask();
    assert_eq!(bytes, [0b1011_0110, 0b0110_1101, 0b1101_1011, 0b1011_0110, 0b0110_1101, 0b1101_1011, 0b1011_0110, 0b0110_1101]);
}
