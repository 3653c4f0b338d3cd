use ml_prodcheck::field::Scalar;
use ml_prodcheck::mle::Mle;
use ml_prodcheck::prodcheck::compute_f;

#[test]
fn scalar_arithmetic_exact() {
    let three = Scalar::from_u64(3);
    let five = Scalar::from_u64(5);
    assert_eq!(three.add_mod(&five), Scalar::from_u64(8));
    assert_eq!(three.mul_mod(&five), Scalar::from_u64(15));
    assert_eq!(five.sub_mod(&three), Scalar::from_u64(2));

    // subtraction wraps to the field order minus one
    let z = Scalar::from_u64(0).sub_mod(&Scalar::from_u64(1));
    let pm1 = Scalar::from_limbs(
        0xffffffff00000000,
        0x53bda402fffe5bfe,
        0x3339d80809a1d805,
        0x73eda753299d7d48,
    )
    .unwrap();
    assert_eq!(z, pm1);
    assert_eq!(pm1.add_mod(&Scalar::from_u64(1)), Scalar::from_u64(0));
}

#[test]
fn limbs_above_order_refused() {
    // exactly the field order
    assert!(Scalar::from_limbs(
        0xffffffff00000001,
        0x53bda402fffe5bfe,
        0x3339d80809a1d805,
        0x73eda753299d7d48,
    )
    .is_none());
    assert!(Scalar::from_limbs(0, 0, 0, 0x73eda753299d7d49).is_none());
    // one below the field order
    let pm1 = Scalar::from_limbs(
        0xffffffff00000000,
        0x53bda402fffe5bfe,
        0x3339d80809a1d805,
        0x73eda753299d7d48,
    );
    assert!(pm1.is_some());
    let pm1 = pm1.unwrap();
    let l = pm1.limbs();
    assert_eq!(Scalar::from_limbs(l.0, l.1, l.2, l.3).unwrap(), pm1);
}

#[test]
fn evaluate_interpolates() {
    // one variable, hypercube values 2 and 3: the line 2 + x
    let m = Mle::new(1, vec![Scalar::from_u64(2), Scalar::from_u64(3)]).unwrap();
    assert_eq!(m.evaluate(&vec![Scalar::from_u64(0)]), Scalar::from_u64(2));
    assert_eq!(m.evaluate(&vec![Scalar::from_u64(1)]), Scalar::from_u64(3));
    assert_eq!(m.evaluate(&vec![Scalar::from_u64(5)]), Scalar::from_u64(7));

    // two variables, values 1, 2, 3, 4 at (0,0), (1,0), (0,1), (1,1)
    let m2 = Mle::new(
        2,
        vec![
            Scalar::from_u64(1),
            Scalar::from_u64(2),
            Scalar::from_u64(3),
            Scalar::from_u64(4),
        ],
    )
    .unwrap();
    assert_eq!(
        m2.evaluate(&vec![Scalar::from_u64(2), Scalar::from_u64(3)]),
        Scalar::from_u64(9)
    );
}

#[test]
fn mle_size_checked() {
    assert!(Mle::new(2, vec![Scalar::from_u64(1); 3]).is_none());
    assert!(Mle::new(2, vec![Scalar::from_u64(1); 4]).is_some());
    assert!(Mle::new(40, Vec::new()).is_none());
}

#[test]
fn zero_variable_encoding() {
    // a constant source: the flag-only encoding repeats the constant and the
    // claimed product is the constant itself
    let v = Mle::new(0, vec![Scalar::from_u64(9)]).unwrap();
    let (f, p) = compute_f(&v);
    assert_eq!(p, Scalar::from_u64(9));
    assert_eq!(f.num_vars(), 1);
    assert_eq!(f.evaluate(&vec![Scalar::from_u64(0)]), Scalar::from_u64(9));
    assert_eq!(f.evaluate(&vec![Scalar::from_u64(1)]), Scalar::from_u64(9));
}
