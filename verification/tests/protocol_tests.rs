use ark_bls12_381::Fr;
use ark_ff::PrimeField;
use ark_std::test_rng;
use ark_std::UniformRand;
use ml_prodcheck::field::Scalar;
use ml_prodcheck::mle::Mle;
use ml_prodcheck::prodcheck::compute_f;
use ml_prodcheck::engine::round_message_from_evaluations;
use ml_prodcheck::protocol::{MLProdcheck, ProdcheckError, SumcheckInfo};

fn to_scalar(x: &Fr) -> Scalar {
    let l = x.into_bigint().0;
    Scalar::from_limbs(l[0], l[1], l[2], l[3]).unwrap()
}

fn random_mle(s: usize, rng: &mut impl ark_std::rand::RngCore) -> Mle {
    let evals: Vec<Scalar> = (0..(1usize << s)).map(|_| to_scalar(&Fr::rand(rng))).collect();
    Mle::new(s, evals).unwrap()
}

#[test]
fn end_to_end_product_claim() {
    let vals = [2u64, 3, 5, 7, 1, 4, 6, 8];
    let evals: Vec<Scalar> = vals.iter().map(|&x| Scalar::from_u64(x)).collect();
    let v = Mle::new(3, evals).unwrap();
    let (_f, p) = compute_f(&v);
    assert_eq!(p, Scalar::from_u64(40320));

    let proof = MLProdcheck::prove(&v).unwrap();
    assert_eq!(proof.claimed_value, Scalar::from_u64(40320));
    assert_eq!(proof.sumcheck_proof.len(), 3);

    let info = SumcheckInfo { num_variables: 3, max_multiplicands: 1 };
    let sub = MLProdcheck::verify(&info, &proof).unwrap();
    assert_eq!(sub.point.len(), 3);
    assert_eq!(sub.expected_evaluation, Scalar::from_u64(0));
    assert_eq!(sub.claimed_product, Scalar::from_u64(40320));
}

#[test]
fn corrupted_round_message_rejected() {
    let mut rng = test_rng();
    let v = random_mle(3, &mut rng);
    let info = SumcheckInfo { num_variables: 3, max_multiplicands: 1 };
    for i in 0..3usize {
        let mut proof = MLProdcheck::prove(&v).unwrap();
        let junk = vec![to_scalar(&Fr::rand(&mut rng)), to_scalar(&Fr::rand(&mut rng))];
        proof.sumcheck_proof[i] = round_message_from_evaluations(&junk);
        let r = MLProdcheck::verify(&info, &proof);
        assert!(!r.is_ok());
    }
    // a round message of the wrong shape for the degree bound is rejected
    let mut proof = MLProdcheck::prove(&v).unwrap();
    let too_long = vec![Scalar::from_u64(0); 3];
    proof.sumcheck_proof[1] = round_message_from_evaluations(&too_long);
    let r = MLProdcheck::verify(&info, &proof);
    assert!(matches!(r, Err(ProdcheckError::Rejected)));
}

#[test]
fn repeated_proving_verifies_consistently() {
    let mut rng = test_rng();
    let v = random_mle(4, &mut rng);
    let info = SumcheckInfo { num_variables: 4, max_multiplicands: 1 };
    let proof_a = MLProdcheck::prove(&v).unwrap();
    let proof_b = MLProdcheck::prove(&v).unwrap();
    assert_eq!(proof_a.claimed_value, proof_b.claimed_value);
    let sa = MLProdcheck::verify(&info, &proof_a).unwrap();
    let sb = MLProdcheck::verify(&info, &proof_b).unwrap();
    assert_eq!(sa.point, sb.point);
    assert_eq!(sa.expected_evaluation, sb.expected_evaluation);
    assert_eq!(sa.claimed_product, sb.claimed_product);
}

#[test]
fn incomplete_proof_refused() {
    let mut rng = test_rng();
    let v = random_mle(3, &mut rng);
    let info = SumcheckInfo { num_variables: 3, max_multiplicands: 1 };
    let mut proof = MLProdcheck::prove(&v).unwrap();
    proof.sumcheck_proof.pop();
    let r = MLProdcheck::verify(&info, &proof);
    assert!(matches!(r, Err(ProdcheckError::ProofIncomplete)));
}
