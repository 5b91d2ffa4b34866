use sdf_physics::fixed::{div_toward_zero, isqrt, magnitude, sat_add, sat_sub, saturate, scale_ratio};
use sdf_physics::vector::{Vec3, Vec4};

const ONE: i32 = 65536;

#[test]
fn division_rounds_toward_zero() {
    assert_eq!(div_toward_zero(7, 2), 3);
    assert_eq!(div_toward_zero(-7, 2), -3);
    assert_eq!(div_toward_zero(-1, 9), 0);
    assert_eq!(div_toward_zero(0, 5), 0);
    assert_eq!(scale_ratio(-7, 1, 2), -3);
    assert_eq!(scale_ratio(7, 1, 2), 3);
    assert_eq!(scale_ratio(7, -1, 2), -3);
    assert_eq!(scale_ratio(ONE, 9, 10), 58982);
}

#[test]
fn arithmetic_saturates() {
    assert_eq!(saturate(1i128 << 40), i32::MAX);
    assert_eq!(saturate(-(1i128 << 40)), i32::MIN);
    assert_eq!(saturate(-5), -5);
    assert_eq!(sat_add(i32::MAX, 1), i32::MAX);
    assert_eq!(sat_add(i32::MIN, -1), i32::MIN);
    assert_eq!(sat_sub(i32::MIN, 1), i32::MIN);
    assert_eq!(sat_sub(0, i32::MIN), i32::MAX);
    assert_eq!(sat_add(3, 4), 7);
    assert_eq!(scale_ratio(i32::MAX, 3, 1), i32::MAX);
    assert_eq!(scale_ratio(i32::MIN, 3, 1), i32::MIN);
    assert_eq!(scale_ratio(i32::MIN, i64::MIN, 1), i32::MAX);
    assert_eq!(magnitude(i32::MIN), 2147483648);
    assert_eq!(magnitude(-3), 3);
}

#[test]
fn integer_square_root_is_exact() {
    assert_eq!(isqrt(0), 0);
    assert_eq!(isqrt(1), 1);
    assert_eq!(isqrt(3), 1);
    assert_eq!(isqrt(4), 2);
    assert_eq!(isqrt(99), 9);
    assert_eq!(isqrt(100), 10);
    assert_eq!(isqrt(3 << 62), 3719550786);
    assert_eq!(isqrt(u64::MAX), 4294967295);
    for n in 0u64..2000 {
        let r = isqrt(n);
        assert!(r * r <= n && n < (r + 1) * (r + 1));
    }
}

#[test]
fn dot_and_length() {
    let a = Vec3::new(3 * ONE, 4 * ONE, 0);
    assert_eq!(a.dot(Vec3::new(ONE, ONE, ONE)), 7 * (ONE as i128) * (ONE as i128));
    assert_eq!(a.length_sq(), 25 * (ONE as u64) * (ONE as u64));
    assert_eq!(a.length(), 5 * ONE as i64);
    let big = Vec3::new(i32::MIN, i32::MIN, i32::MIN);
    assert_eq!(big.length_sq(), 3 << 62);
    assert_eq!(big.length(), 3719550786);
    assert_eq!(big.dot(Vec3::new(i32::MAX, i32::MAX, i32::MAX)), -3 * (1i128 << 31) * ((1i128 << 31) - 1));
}

#[test]
fn normalized_has_length_one() {
    assert_eq!(Vec3::new(3 * ONE, 4 * ONE, 0).normalized(), Vec3::new(39321, 52428, 0));
    assert_eq!(Vec3::new(0, 0, 0).normalized(), Vec3::new(0, 0, 0));
    assert_eq!(Vec3::new(0, -3, 0).normalized(), Vec3::new(0, -ONE, 0));
    assert_eq!(Vec3::new(ONE, 0, -ONE).normalized(), Vec3::new(46341, 0, -46341));
}

#[test]
fn slide_removes_the_component_along_the_normal() {
    assert_eq!(Vec3::new(ONE, -ONE, 0).slide(Vec3::new(0, ONE, 0)), Vec3::new(ONE, 0, 0));
    // The normal need not have length one.
    assert_eq!(Vec3::new(ONE, -ONE, 0).slide(Vec3::new(0, 17, 0)), Vec3::new(ONE, 0, 0));
    assert_eq!(Vec3::new(3, -7, 5).slide(Vec3::new(1, 2, 2)), Vec3::new(3, -7, 5));
    assert_eq!(Vec3::new(3, -7, 5).slide(Vec3::new(0, 0, 0)), Vec3::new(3, -7, 5));
    assert_eq!(Vec3::new(100, 100, 0).slide(Vec3::new(ONE, ONE, 0)), Vec3::new(0, 0, 0));
}

#[test]
fn capped_shortens_only_long_vectors() {
    assert_eq!(Vec3::new(2156080, 0, 0).capped(196608), Vec3::new(196608, 0, 0));
    assert_eq!(Vec3::new(1000, 0, -5).capped(196608), Vec3::new(1000, 0, -5));
    assert_eq!(Vec3::new(0, 6 * ONE, 8 * ONE).capped(5 * ONE), Vec3::new(0, 3 * ONE, 4 * ONE));
}

#[test]
fn componentwise_operations() {
    let a = Vec3::new(1, -2, i32::MAX);
    let b = Vec3::new(10, 20, 30);
    assert_eq!(a.plus(b), Vec3::new(11, 18, i32::MAX));
    assert_eq!(a.minus(b), Vec3::new(-9, -22, i32::MAX - 30));
    assert_eq!(Vec3::new(i32::MIN, 5, 0).negated(), Vec3::new(i32::MAX, -5, 0));
    assert_eq!(Vec3::new(100, -200, ONE).scaled(5, 1), Vec3::new(500, -1000, 5 * ONE));
    assert_eq!(Vec3::zero(), Vec3::new(0, 0, 0));
    assert_eq!(Vec4::zero(), Vec4::new(0, 0, 0, 0));
    assert_eq!(Vec4::new(1, 2, 3, 4).xyz(), Vec3::new(1, 2, 3));
    assert_eq!(Vec4::from_vec3(Vec3::new(1, 2, 3), 9), Vec4::new(1, 2, 3, 9));
}
