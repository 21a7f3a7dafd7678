use core_simd::vector::{Simd, SimdF32, SimdI32, SimdI8, SimdU16, SimdU8, Vector};

#[test]
fn sum_and_product_of_one_to_eight() {
    let v = SimdI32::<8>::from_array([1, 2, 3, 4, 5, 6, 7, 8]);
    assert_eq!(v.horizontal_sum(), 36);
    assert_eq!(v.horizontal_product(), 40320);
}

#[test]
fn sum_and_product_wrap() {
    assert_eq!(SimdI8::<2>::from_array([127, 1]).horizontal_sum(), -128);
    assert_eq!(SimdI8::<4>::from_array([-128, -1, 0, 0]).horizontal_sum(), 127);
    assert_eq!(SimdU8::<4>::from_array([200, 100, 0, 1]).horizontal_sum(), 45);
    assert_eq!(SimdU8::<2>::from_array([16, 16]).horizontal_product(), 0);
    assert_eq!(SimdI8::<2>::from_array([16, 8]).horizontal_product(), -128);
    assert_eq!(SimdI8::<2>::from_array([-128, -1]).horizontal_product(), -128);
    assert_eq!(SimdU16::<2>::from_array([0xffff, 0xffff]).horizontal_product(), 1);
}

#[test]
fn sum_and_product_agree_with_wrapping_folds() {
    let mut state: u64 = 7;
    for _ in 0..200 {
        let mut lanes = [0i32; 16];
        for lane in lanes.iter_mut() {
            state = state.wrapping_mul(6364136223846793005).wrapping_add(1442695040888963407);
            *lane = (state >> 32) as i32;
        }
        let v = SimdI32::<16>::from_array(lanes);
        assert_eq!(v.horizontal_sum(), lanes.iter().fold(0i32, |a, b| a.wrapping_add(*b)));
        assert_eq!(v.horizontal_product(), lanes.iter().fold(1i32, |a, b| a.wrapping_mul(*b)));
        assert_eq!(v.horizontal_and(), lanes.iter().fold(-1i32, |a, b| a & *b));
        assert_eq!(v.horizontal_or(), lanes.iter().fold(0i32, |a, b| a | *b));
        assert_eq!(v.horizontal_xor(), lanes.iter().fold(0i32, |a, b| a ^ *b));
        assert_eq!(v.horizontal_max(), *lanes.iter().max().unwrap());
        assert_eq!(v.horizontal_min(), *lanes.iter().min().unwrap());
    }
}

#[test]
fn bitwise_reductions() {
    let v = SimdU8::<4>::from_array([0b1100, 0b1010, 0b1111, 0b1000]);
    assert_eq!(v.horizontal_and(), 0b1000);
    assert_eq!(v.horizontal_or(), 0b1111);
    assert_eq!(v.horizontal_xor(), 0b0001);
}

#[test]
fn max_and_min_compare_by_value() {
    let v = SimdI8::<4>::from_array([-1, 3, -128, 127]);
    assert_eq!(v.horizontal_max(), 127);
    assert_eq!(v.horizontal_min(), -128);
    let u = Simd::<u8, 4>::from_array([255, 3, 128, 127]);
    assert_eq!(u.horizontal_max(), 255);
    assert_eq!(u.horizontal_min(), 3);
    assert_eq!(Simd::<usize, 1>::from_array([9]).horizontal_max(), 9);
}

fn floats<const N: usize>(values: [f32; N]) -> SimdF32<N>
where
    SimdF32<N>: Vector,
{
    let mut bits = [0u32; N];
    for i in 0..N {
        bits[i] = values[i].to_bits();
    }
    SimdF32::from_bits(bits)
}

#[test]
fn float_sum_and_product_fold_in_order() {
    let values = [1.0e8f32, 1.0, -1.0e8, 0.5, 3.25, 1.0e-3, 7.0, -2.0];
    let v = floats(values);
    assert_eq!(v.horizontal_sum(), values.iter().fold(0.0f32, |a, b| a + *b).to_bits());
    assert_eq!(v.horizontal_product(), values.iter().fold(1.0f32, |a, b| a * *b).to_bits());
    assert_eq!(floats([1.0, 2.0, 3.0, 4.0]).horizontal_sum(), 10.0f32.to_bits());
    assert_eq!(floats([1.0, 2.0, 3.0, 4.0]).horizontal_product(), 24.0f32.to_bits());
    assert_eq!(floats([-0.0]).horizontal_sum(), 0.0f32.to_bits());
}

#[test]
fn float_max_and_min_pass_over_nan() {
    let v = floats([f32::NAN, -3.0, 2.5, f32::NEG_INFINITY]);
    assert_eq!(v.horizontal_max(), 2.5f32.to_bits());
    assert_eq!(v.horizontal_min(), f32::NEG_INFINITY.to_bits());
    let v = floats([1.0, f32::NAN, f32::INFINITY, f32::NAN]);
    assert_eq!(v.horizontal_max(), f32::INFINITY.to_bits());
    assert_eq!(v.horizontal_min(), 1.0f32.to_bits());
    let all_nan = floats([f32::NAN, f32::NAN]);
    assert!(f32::from_bits(all_nan.horizontal_max()).is_nan());
    assert!(f32::from_bits(all_nan.horizontal_min()).is_nan());
}

#[test]
fn float_max_of_the_two_zeros_is_a_zero() {
    let v = floats([-0.0, 0.0]);
    assert_eq!(f32::from_bits(v.horizontal_max()), 0.0);
    assert_eq!(f32::from_bits(v.horizontal_min()), 0.0);
    let v = floats([-1.0e-40, -0.0, -5.0, -5.0]);
    assert_eq!(v.horizontal_max(), (-0.0f32).to_bits());
    assert_eq!(v.horizontal_min(), (-5.0f32).to_bits());
}
