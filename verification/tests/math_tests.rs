use boids::math::{div_fix, isqrt, muldiv, v3_len, v3_normalize, V3};

#[test]
fn div_fix_truncates_toward_zero() {
    assert_eq!(div_fix(7, 2), 3);
    assert_eq!(div_fix(-7, 2), -3);
    assert_eq!(div_fix(0, 5), 0);
    assert_eq!(div_fix(-1, 1000), 0);
}

#[test]
fn muldiv_is_exact() {
    assert_eq!(muldiv(7, 3, 2), 10);
    assert_eq!(muldiv(-7, 3, 2), -10);
    assert_eq!(muldiv(4_000_000_000, 4_000_000_000, 2_000_000_000), 8_000_000_000);
}

#[test]
fn isqrt_exact_values() {
    assert_eq!(isqrt(0), 0);
    assert_eq!(isqrt(1), 1);
    assert_eq!(isqrt(3), 1);
    assert_eq!(isqrt(4), 2);
    assert_eq!(isqrt(40_000), 200);
    assert_eq!(isqrt(u128::from(u64::MAX)), 4_294_967_295);
}

#[test]
fn len_of_pythagorean_triple() {
    assert_eq!(v3_len(V3 { x: 3, y: 4, z: 0 }), 5);
    assert_eq!(v3_len(V3 { x: 0, y: 0, z: 0 }), 0);
}

#[test]
fn normalize_scales_to_unit() {
    let u = v3_normalize(V3 { x: 3000, y: 4000, z: 0 });
    assert_eq!(u, V3 { x: 600, y: 800, z: 0 });
}

#[test]
fn normalize_zero_is_zero() {
    let u = v3_normalize(V3 { x: 0, y: 0, z: 0 });
    assert_eq!(u, V3 { x: 0, y: 0, z: 0 });
}
