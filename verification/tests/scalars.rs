use shaderand::scalar::Scalar;

#[test]
fn scalar_add_sub_exact() {
    let two = Scalar::from_units(2);
    let three = Scalar::from_units(3);
    assert_eq!(two.add(three), Scalar::Num(5_000_000));
    assert_eq!(two.sub(three), Scalar::Num(-1_000_000));
    assert_eq!(Scalar::Nan.add(two), Scalar::Nan);
}

#[test]
fn scalar_mul_div_rem_exact() {
    let two = Scalar::from_units(2);
    let three = Scalar::from_units(3);
    assert_eq!(two.mul(three), Scalar::Num(6_000_000));
    assert_eq!(Scalar::from_units(1).div(three), Scalar::Num(333_333));
    assert_eq!(Scalar::from_units(7).rem(three), Scalar::Num(1_000_000));
    assert_eq!(Scalar::from_units(-7).rem(three), Scalar::Num(-1_000_000));
    assert_eq!(two.div(Scalar::Num(0)), Scalar::Nan);
    assert_eq!(two.rem(Scalar::Num(0)), Scalar::Nan);
}

#[test]
fn scalar_saturates_at_bound() {
    let big = Scalar::from_micros(1_000_000_000_000);
    assert_eq!(big.add(big), Scalar::Num(1_000_000_000_000));
    assert_eq!(big.mul(big), Scalar::Num(1_000_000_000_000));
    assert_eq!(Scalar::Num(0).sub(big).sub(big), Scalar::Num(-1_000_000_000_000));
}

#[test]
fn scalar_sqrt_exact() {
    assert_eq!(Scalar::from_units(4).sqrt(), Scalar::Num(2_000_000));
    assert_eq!(Scalar::from_units(2).sqrt(), Scalar::Num(1_414_213));
    assert_eq!(Scalar::from_units(-1).sqrt(), Scalar::Nan);
    assert_eq!(Scalar::Num(0).sqrt(), Scalar::Num(0));
}

#[test]
fn scalar_trig_exact() {
    assert_eq!(Scalar::Num(0).sin(), Scalar::Num(0));
    assert_eq!(Scalar::Num(1_570_796).sin(), Scalar::Num(1_000_000));
    assert_eq!(Scalar::Num(0).cos(), Scalar::Num(1_000_000));
    assert_eq!(Scalar::Num(3_141_592).sin(), Scalar::Num(0));
    assert_eq!(Scalar::from_units(1).sin(), Scalar::Num(840_218));
    assert_eq!(Scalar::from_units(1).cos(), Scalar::Num(540_001));
    assert_eq!(Scalar::from_units(1).tan(), Scalar::Num(1_555_956));
}

#[test]
fn scalar_compare_semantics() {
    let one = Scalar::from_units(1);
    let two = Scalar::from_units(2);
    assert!(one.lt(two));
    assert!(two.gt(one));
    assert!(one.le(one));
    assert!(one.ge(one));
    assert!(one.eq_val(one));
    assert!(one.ne_val(two));
    // Nan compares false under every ordering, and unequal to everything.
    assert!(!Scalar::Nan.lt(one));
    assert!(!Scalar::Nan.gt(one));
    assert!(!Scalar::Nan.eq_val(Scalar::Nan));
    assert!(Scalar::Nan.ne_val(Scalar::Nan));
}

#[test]
fn scalar_text_exact() {
    assert_eq!(Scalar::from_units(1).to_text(), "1");
    assert_eq!(Scalar::Num(500_000).to_text(), "0.5");
    assert_eq!(Scalar::Num(-250_000).to_text(), "-0.25");
    assert_eq!(Scalar::Num(0).to_text(), "0");
    assert_eq!(Scalar::Num(1_414_213).to_text(), "1.414213");
    assert_eq!(Scalar::Num(-1_000_000_000_000).to_text(), "-1000000");
    assert_eq!(Scalar::Nan.to_text(), "nan");
}

#[test]
fn scalar_nan_clamp() {
    assert_eq!(Scalar::Nan.nan_clamp(), Scalar::Num(0));
    assert_eq!(Scalar::Num(7).nan_clamp(), Scalar::Num(7));
    assert!(Scalar::Nan.check_nan());
    assert!(!Scalar::Num(0).check_nan());
}
