use nbody::fixed::Fixed;

fn fx(x: f64) -> Fixed {
    Fixed::from_raw((x * 1e9).round() as i64)
}

#[test]
fn fixed_constants_and_conversions() {
    assert_eq!(Fixed::zero().raw(), 0);
    assert_eq!(Fixed::one().raw(), 1_000_000_000);
    assert_eq!(Fixed::from_int(3).raw(), 3_000_000_000);
    assert_eq!(Fixed::from_int(-7).raw(), -7_000_000_000);
    assert_eq!(Fixed::from_raw(42).raw(), 42);
    assert_eq!(fx(0.5).raw(), 500_000_000);
}

#[test]
fn fixed_from_int_saturates() {
    assert_eq!(Fixed::from_int(i64::MAX).raw(), i64::MAX);
    assert_eq!(Fixed::from_int(i64::MIN).raw(), i64::MIN);
    assert_eq!(Fixed::from_int(10_000_000_000).raw(), i64::MAX);
}

#[test]
fn fixed_add_sub() {
    assert_eq!(fx(1.5).add(fx(2.25)), fx(3.75));
    assert_eq!(fx(1.5).sub(fx(2.25)), fx(-0.75));
    assert_eq!(Fixed::from_raw(i64::MAX).add(Fixed::from_raw(1)).raw(), i64::MAX);
    assert_eq!(Fixed::from_raw(i64::MIN).sub(Fixed::from_raw(1)).raw(), i64::MIN);
    assert_eq!(Fixed::from_raw(i64::MAX).add(Fixed::from_raw(i64::MIN)).raw(), -1);
}

#[test]
fn fixed_mul_rounds_toward_zero() {
    assert_eq!(fx(1.5).mul(fx(2.0)), fx(3.0));
    assert_eq!(fx(-1.5).mul(fx(2.0)), fx(-3.0));
    // 3e-9 * 0.5 = 1.5e-9, which becomes 1e-9 on both sides of zero
    assert_eq!(Fixed::from_raw(3).mul(fx(0.5)).raw(), 1);
    assert_eq!(Fixed::from_raw(-3).mul(fx(0.5)).raw(), -1);
    assert_eq!(Fixed::from_raw(1).mul(Fixed::from_raw(1)).raw(), 0);
}

#[test]
fn fixed_mul_saturates() {
    assert_eq!(fx(1e6).mul(fx(1e6)).raw(), i64::MAX);
    assert_eq!(fx(-1e6).mul(fx(1e6)).raw(), i64::MIN);
    assert_eq!(Fixed::from_raw(i64::MIN).mul(Fixed::from_raw(i64::MIN)).raw(), i64::MAX);
}

#[test]
fn fixed_div_rounds_toward_zero() {
    assert_eq!(fx(1.0).div(fx(4.0)), fx(0.25));
    assert_eq!(fx(-1.0).div(fx(4.0)), fx(-0.25));
    assert_eq!(fx(1.0).div(fx(-4.0)), fx(-0.25));
    assert_eq!(fx(-1.0).div(fx(-4.0)), fx(0.25));
    assert_eq!(fx(1.0).div(fx(3.0)).raw(), 333_333_333);
    assert_eq!(fx(-1.0).div(fx(3.0)).raw(), -333_333_333);
    assert_eq!(fx(2.0).div(fx(3.0)).raw(), 666_666_666);
}

#[test]
fn fixed_div_by_zero_saturates() {
    assert_eq!(fx(1.0).div(fx(0.0)).raw(), i64::MAX);
    assert_eq!(fx(-1.0).div(fx(0.0)).raw(), i64::MIN);
    assert_eq!(fx(0.0).div(fx(0.0)).raw(), 0);
    assert_eq!(fx(1e9).div(Fixed::from_raw(1)).raw(), i64::MAX);
}

#[test]
fn fixed_sqrt() {
    assert_eq!(fx(4.0).sqrt(), fx(2.0));
    assert_eq!(fx(1.0).sqrt(), fx(1.0));
    assert_eq!(fx(0.25).sqrt(), fx(0.5));
    assert_eq!(fx(2.0).sqrt().raw(), 1_414_213_562);
    assert_eq!(fx(0.0).sqrt().raw(), 0);
    assert_eq!(fx(-4.0).sqrt().raw(), 0);
    assert_eq!(Fixed::from_raw(1).sqrt().raw(), 31_622);
    assert_eq!(Fixed::from_raw(i64::MAX).sqrt().raw(), 96_038_388_349_944);
}

#[test]
fn fixed_halves() {
    assert_eq!(Fixed::from_raw(7).half_floor().raw(), 3);
    assert_eq!(Fixed::from_raw(7).half_ceil().raw(), 4);
    assert_eq!(Fixed::from_raw(-7).half_floor().raw(), -4);
    assert_eq!(Fixed::from_raw(-7).half_ceil().raw(), -3);
    assert_eq!(Fixed::from_raw(8).half_floor().raw(), 4);
    assert_eq!(Fixed::from_raw(8).half_ceil().raw(), 4);
    assert_eq!(Fixed::from_raw(i64::MIN).half_floor().raw(), i64::MIN / 2);
    assert_eq!(Fixed::from_raw(i64::MAX).half_ceil().raw(), i64::MAX / 2 + 1);
}

#[test]
fn fixed_comparisons() {
    assert!(fx(1.0).lt(fx(2.0)));
    assert!(!fx(2.0).lt(fx(2.0)));
    assert!(fx(2.0).le(fx(2.0)));
    assert!(fx(3.0).gt(fx(2.0)));
    assert!(!fx(2.0).gt(fx(2.0)));
}
