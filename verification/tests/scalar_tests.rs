use gravity::scalar::{Scalar, SCALE};

fn as_f64(s: Scalar) -> f64 {
    s.raw as f64 / SCALE as f64
}

#[test]
fn integers_embed_exactly() {
    assert_eq!(Scalar::from_int(0), Scalar::zero());
    assert_eq!(Scalar::from_int(1), Scalar::one());
    assert_eq!(Scalar::from_int(7).raw, 7 * SCALE);
    assert_eq!(Scalar::from_int(-3).raw, -3 * SCALE);
}

#[test]
fn ratio_is_truncated_division() {
    assert_eq!(Scalar::from_ratio(1, 2).raw, SCALE / 2);
    assert_eq!(Scalar::from_ratio(1, 3).raw, 1431655765);
    assert_eq!(Scalar::from_ratio(-1, 3).raw, -1431655765);
}

#[test]
fn exact_arithmetic() {
    let three = Scalar::from_int(3);
    let four = Scalar::from_int(4);
    assert_eq!(three.add(four), Scalar::from_int(7));
    assert_eq!(three.sub(four), Scalar::from_int(-1));
    assert_eq!(three.mul(four), Scalar::from_int(12));
    assert_eq!(Scalar::from_int(12).div(four), three);
    assert_eq!(three.neg(), Scalar::from_int(-3));
}

#[test]
fn multiplication_truncates_toward_zero() {
    let a = Scalar::from_ratio(1, 3);
    let b = Scalar::from_int(3);
    // 1/3 is not exact on the grid, so (1/3) * 3 falls one unit short of 1.
    assert_eq!(a.mul(b).raw, 3 * 1431655765);
    assert!(a.mul(b).raw < SCALE);
}

#[test]
fn division_by_zero_saturates_by_sign() {
    let zero = Scalar::zero();
    assert_eq!(Scalar::from_int(5).div(zero).raw, i64::MAX);
    assert_eq!(Scalar::from_int(-5).div(zero).raw, i64::MIN);
    assert_eq!(zero.div(zero).raw, 0);
}

#[test]
fn overflow_saturates() {
    let top = Scalar { raw: i64::MAX };
    assert_eq!(top.add(top).raw, i64::MAX);
    assert_eq!(top.neg().add(top.neg()).raw, i64::MIN);
    assert_eq!(top.mul(top).raw, i64::MAX);
    assert_eq!(top.mul(top.neg()).raw, i64::MIN);
}

#[test]
fn negation_round_trips_except_the_extreme() {
    let a = Scalar { raw: -12345 };
    assert_eq!(a.neg().neg(), a);
    assert_eq!(a.add(a.neg()), Scalar::zero());
    let b = Scalar::from_int(7);
    assert_eq!(b.sub(a), b.add(a.neg()));
    // The one asymmetric extreme of the raw range: its negation
    // saturates, so the round trip lands one unit short.
    let m = Scalar { raw: i64::MIN };
    assert_eq!(m.neg().raw, i64::MAX);
    assert_eq!(m.neg().neg().raw, -i64::MAX);
}

#[test]
fn square_roots() {
    assert_eq!(Scalar::from_int(4).sqrt(), Scalar::from_int(2));
    assert_eq!(Scalar::from_int(144).sqrt(), Scalar::from_int(12));
    // floor(sqrt(2) * 2^32)
    assert_eq!(Scalar::from_int(2).sqrt().raw, 6074000999);
    assert_eq!(Scalar::zero().sqrt(), Scalar::zero());
}

#[test]
fn integer_powers() {
    let three = Scalar::from_int(3);
    assert_eq!(three.pow(0), Scalar::one());
    assert_eq!(three.pow(2), Scalar::from_int(9));
    assert_eq!(three.pow(-2).raw, SCALE / 9);
    assert_eq!(Scalar::from_int(10).pow(-1).raw, SCALE / 10);
}

#[test]
fn hypotenuse() {
    let h = Scalar::from_int(3).hypot(Scalar::from_int(4));
    assert_eq!(h, Scalar::from_int(5));
    let d = Scalar::from_int(1).hypot(Scalar::from_int(1));
    assert!((as_f64(d) - std::f64::consts::SQRT_2).abs() < 1e-9);
}
