use terrain_grass::fixed::{fx_mul, isqrt_u128, FX_ONE};
use terrain_grass::geom::{cross, len_sq, normalize, v_add, v_sub, Vec3};

#[test]
fn fx_one_is_two_to_sixteen() {
    assert_eq!(FX_ONE, 65536);
}

#[test]
fn fx_mul_one_times_one() {
    assert_eq!(fx_mul(65536, 65536), 65536);
}

#[test]
fn fx_mul_half_times_half() {
    assert_eq!(fx_mul(32768, 32768), 16384);
}

#[test]
fn fx_mul_negative_truncates_toward_zero() {
    assert_eq!(fx_mul(-98304, 65536), -98304);
    assert_eq!(fx_mul(-1, 1), 0);
    assert_eq!(fx_mul(-65537, 65536), -65537);
}

#[test]
fn isqrt_small_values() {
    assert_eq!(isqrt_u128(0), 0);
    assert_eq!(isqrt_u128(1), 1);
    assert_eq!(isqrt_u128(15), 3);
    assert_eq!(isqrt_u128(16), 4);
    assert_eq!(isqrt_u128(17), 4);
}

#[test]
fn isqrt_large_value() {
    let n: u128 = (1u128 << 100) - 1;
    let r = isqrt_u128(n);
    assert!((r as u128) * (r as u128) <= n);
    assert!(((r as u128) + 1) * ((r as u128) + 1) > n);
}

#[test]
fn vector_sub_add_cross() {
    let a = Vec3 { x: 65536, y: 0, z: 0 };
    let b = Vec3 { x: 0, y: 0, z: 65536 };
    let d = v_sub(&a, &b);
    assert_eq!((d.x, d.y, d.z), (65536, 0, -65536));
    let s = v_add(&a, &b);
    assert_eq!((s.x, s.y, s.z), (65536, 0, 65536));
    // x cross z points downward in a right-handed frame.
    let c = cross(&a, &b);
    assert_eq!((c.x, c.y, c.z), (0, -65536i64 * 65536, 0));
}

#[test]
fn normalize_three_four_zero() {
    // (3.0, 4.0, 0) has length 5.0; components are floor(3/5), floor(4/5).
    let v = Vec3 { x: 3 * 65536, y: 4 * 65536, z: 0 };
    let n = normalize(&v);
    assert_eq!((n.x, n.y, n.z), (39321, 52428, 0));
}

#[test]
fn normalize_zero_is_zero() {
    let v = Vec3 { x: 0, y: 0, z: 0 };
    let n = normalize(&v);
    assert_eq!((n.x, n.y, n.z), (0, 0, 0));
}

#[test]
fn normalize_result_is_unit_length() {
    let v = Vec3 { x: 123456, y: -654321, z: 424242 };
    let n = normalize(&v);
    let ls = len_sq(&n) as i128;
    let one = (65536i128) * 65536;
    // Unit within the crate's proven rounding bound.
    assert!(ls > one - 6 * 65536 - 3);
    assert!(ls <= one + 2 * 65536 + 1);
}
