use ark_bls12_381::Fr;
use ark_ff::PrimeField;
use ark_std::test_rng;
use ark_std::UniformRand;
use ml_prodcheck::field::Scalar;
use ml_prodcheck::mle::Mle;
use ml_prodcheck::prodcheck::{compute_f, compute_mle_eq, compute_G};

fn to_scalar(x: &Fr) -> Scalar {
    let l = x.into_bigint().0;
    Scalar::from_limbs(l[0], l[1], l[2], l[3]).unwrap()
}

fn random_scalar(rng: &mut impl ark_std::rand::RngCore) -> Scalar {
    to_scalar(&Fr::rand(rng))
}

fn random_bool_scalar(rng: &mut impl ark_std::rand::RngCore) -> Scalar {
    let b = bool::rand(rng);
    Scalar::from_u64(b as u64)
}

#[test]
fn f_computed_correctly() {
    let mut rng = test_rng();
    for s in 0..=10usize {
        let evals: Vec<Scalar> = (0..(1usize << s)).map(|_| random_scalar(&mut rng)).collect();
        let v = Mle::new(s, evals).unwrap();
        let (f, p) = compute_f(&v);

        // assert f(1, 1, ..., 0) = P
        let mut f_point = vec![Scalar::from_u64(1); s];
        f_point.push(Scalar::from_u64(0));
        assert_eq!(p, f.evaluate(&f_point));

        // assert v(r) = f(0, r)
        for _ in 0..50 {
            let v_point: Vec<Scalar> = (0..s).map(|_| random_scalar(&mut rng)).collect();
            let mut f_point = vec![Scalar::from_u64(0)];
            f_point.extend(v_point.iter().cloned());
            assert_eq!(v.evaluate(&v_point), f.evaluate(&f_point));
        }

        // assert f(1, x) = f(x, 0) * f(x, 1); with no variables besides the
        // flag, the encoding pins f(1) to the constant itself instead
        if s > 0 {
            for _ in 0..50 {
                let x: Vec<Scalar> = (0..s).map(|_| random_bool_scalar(&mut rng)).collect();

                let mut f_point = vec![Scalar::from_u64(1)];
                f_point.extend(x.iter().cloned());

                let mut f_left = x.clone();
                f_left.push(Scalar::from_u64(0));
                let mut f_right = x.clone();
                f_right.push(Scalar::from_u64(1));

                assert_eq!(
                    f.evaluate(&f_point),
                    f.evaluate(&f_left).mul_mod(&f.evaluate(&f_right))
                );
            }
        }
    }
}

#[test]
fn mle_eq() {
    let mut rng = test_rng();
    for s in 0..=10usize {
        println!("s: {}", s);

        for _ in 0..50 {
            let bool_point: Vec<Scalar> = (0..s).map(|_| random_bool_scalar(&mut rng)).collect();
            let other_point: Vec<Scalar> = (0..s).map(|_| random_bool_scalar(&mut rng)).collect();
            if bool_point == other_point {
                println!("ups, points were equal");
                continue;
            }
            let eq = compute_mle_eq(&bool_point, s);
            assert_eq!(eq.evaluate(&bool_point), Scalar::from_u64(1));
            assert_eq!(eq.evaluate(&other_point), Scalar::from_u64(0));
        }
    }
}

#[test]
fn g_computed_correctly() {
    let mut rng = test_rng();
    for s in 4..=4usize {
        println!("s: {}", s);
        let evals: Vec<Scalar> = (0..(1usize << s)).map(|_| random_scalar(&mut rng)).collect();
        let v = Mle::new(s, evals).unwrap();
        let (f, _p) = compute_f(&v);

        let bool_point: Vec<Scalar> = (0..s).map(|_| random_bool_scalar(&mut rng)).collect();
        println!("bool_point: {:?}", bool_point);
        let g = compute_G(&f, &bool_point);
        assert_eq!(g.evaluate(&bool_point), Scalar::from_u64(0));

        let mut sum = Scalar::from_u64(0);
        for b in 0..(1usize << s) {
            let v_point: Vec<Scalar> = (0..s)
                .map(|j| {
                    if (b >> j) & 1 == 1 {
                        Scalar::from_u64(1)
                    } else {
                        Scalar::from_u64(0)
                    }
                })
                .collect();
            println!("v_point: {:?}", v_point);
            sum = sum.add_mod(&g.evaluate(&v_point));
        }
        assert_eq!(sum, Scalar::from_u64(0));
    }
}
