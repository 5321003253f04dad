use walk_engine::rational::Rat;

#[test]
fn test_rational_arithmetic_is_exact() {
    let a = Rat::new(1, 3);
    let b = Rat::new(1, 6);
    let sum = a.checked_add(&b).unwrap();
    assert!(sum.eq_rat(&Rat::new(1, 2)));
    // the result is reduced
    assert_eq!((sum.num, sum.den), (1, 2));

    let product = a.checked_mul(&b).unwrap();
    assert!(product.eq_rat(&Rat::new(1, 18)));

    let quotient = a.checked_div(&b).unwrap();
    assert!(quotient.eq_rat(&Rat::new(2, 1)));

    let difference = b.checked_sub(&a).unwrap();
    assert!(difference.eq_rat(&Rat::new(-1, 6)));
}

#[test]
fn test_rational_sign_normalization() {
    let x = Rat::new(3, -4);
    assert_eq!((x.num, x.den), (-3, 4));
    assert!(x.eq_rat(&Rat::new(-3, 4)));
    assert!(x.neg().eq_rat(&Rat::new(3, 4)));
    assert!(x.abs().eq_rat(&Rat::new(3, 4)));
    assert!(Rat::new(3, 4).abs().eq_rat(&Rat::new(3, 4)));
}

#[test]
fn test_rational_comparisons() {
    assert!(Rat::new(1, 3).le(&Rat::new(1, 2)));
    assert!(!Rat::new(1, 2).le(&Rat::new(1, 3)));
    assert!(Rat::new(2, 4).eq_rat(&Rat::new(1, 2)));
    assert!(Rat::zero().is_zero());
    assert!(Rat::one().is_one());
    assert!(Rat::new(5, 5).is_one());
}

#[test]
fn test_rational_overflow_reports_none() {
    let big = Rat::new(i64::MAX, 1);
    assert!(big.checked_add(&Rat::new(1, 1)).is_none());
    assert!(big.checked_mul(&big).is_none());
    // values that reduce back into range still succeed
    let half = Rat::new(1, 2);
    assert!(half.checked_mul(&Rat::new(2, 1)).unwrap().is_one());
}
