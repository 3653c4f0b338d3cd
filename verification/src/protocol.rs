//! Protocol orchestration: the prover commits (stubbed), builds the product
//! tree encoding, derives the Fiat-Shamir challenge vector from a fresh
//! transcript session seeded with the public instance description, and runs
//! the sum-check reduction on the consistency polynomial, binding the
//! instance description and every round message into the reduction
//! transcript in the order the verifier replays them; the verifier checks
//! the proof's shape, hands the round messages to the engine's verification
//! against the consistency polynomial's true sum of zero, and carries the
//! claimed product into the final sub-claim for the opening protocol.
use vstd::prelude::*;

use crate::engine::{
    commitment_stub, engine_verify, field_elem_of_scalar, make_info, msg_num_evals, prover_degree,
    prover_rounds_done, prover_total_rounds, round_message_num_evals, sample_round,
    scalar_of_field_elem, single_polynomial_instance, subclaim_expected, subclaim_point_at,
    subclaim_expected_val, subclaim_point_len_exec, subclaim_point_vals, sumcheck_accepts,
    sumcheck_expected, sumcheck_point, sumcheck_prove_round, sumcheck_prover_init,
    transcript_feed_info, transcript_feed_msg, transcript_sample_field, transcript_setup,
    Challenge, Commitment, EngineSubClaim, FieldElem, RoundMessage, TranscriptFault,
};
use crate::field::Scalar;
use crate::mle::{pow2, seq_vals, Mle};
use crate::prodcheck::{
    compute_f, compute_G, encodes_product_tree, lemma_grand_product, stride_product,
};

verus! {

/// Errors surfaced by proving and verification.
#[derive(Clone, Copy, Debug, PartialEq, Eq, Structural)]
pub enum ProdcheckError {
    /// A transcript feed failed to serialize. The Blake2s transcript feeds
    /// an in-memory buffer, so this failure of the collaborator's interface
    /// does not occur in practice.
    Transcript,
    /// The proof holds fewer round messages than the instance has rounds.
    ProofIncomplete,
    /// A round message has the wrong shape for the degree bound, or the
    /// engine rejected the round messages against the claimed sum.
    Rejected,
}

/// The public description of the sum-check instance a proof is checked
/// against: the round count and the degree bound of each round polynomial.
pub struct SumcheckInfo {
    pub num_variables: usize,
    pub max_multiplicands: usize,
}

/// The claim that verification reduces to: the consistency polynomial must
/// evaluate to `expected_evaluation` at `point`, and the encoding must open
/// to `claimed_product` at the designated product entry — both left to the
/// opening protocol against the commitments.
pub struct ProdcheckSubClaim {
    pub point: Vec<Scalar>,
    pub expected_evaluation: Scalar,
    pub claimed_product: Scalar,
}

/// Proof generated by prover.
pub struct Proof {
    pub sumcheck_proof: Vec<RoundMessage>,
    pub comm_v: Commitment,
    pub comm_f: Commitment,
    pub claimed_value: Scalar,
}

/// The grand product argument.
pub struct MLProdcheck;

impl MLProdcheck {
    /// Generates a proof of the product of `v` over the boolean hypercube:
    /// the claimed value is the grand product of `v`'s hypercube values, and
    /// one round message of two evaluations per variable is bound into the
    /// reduction transcript after the instance description — exactly the
    /// sequence the verifier replays.
    pub fn prove(v: &Mle) -> (r: Result<Proof, ProdcheckError>)
        requires
            v.wf(),
            1 <= v.num_vars_spec(),
            v.num_vars_spec() <= 30,
        ensures
            r is Ok,
            ({
                let proof = r->Ok_0;
                &&& proof.claimed_value.wf()
                &&& exists|fv: Seq<nat>|
                    #[trigger] encodes_product_tree(v.values(), v.num_vars_spec(), fv)
                        && proof.claimed_value@ == fv[pow2(v.num_vars_spec()) as int - 1]
                &&& proof.claimed_value@ == stride_product(
                    v.values(),
                    0,
                    1,
                    pow2(v.num_vars_spec()),
                )
                &&& proof.sumcheck_proof@.len() == v.num_vars_spec()
                &&& forall|i: int| 0 <= i < proof.sumcheck_proof@.len() ==> msg_num_evals(
                    #[trigger] proof.sumcheck_proof@[i],
                ) == 2
            }),
    {
        let ghost sg = v.num_vars_spec();
        // 1. commit to v (stubbed)
        let comm_v = commitment_stub();
        // 2. build the product tree encoding and the claimed product
        let (f, p) = compute_f(v);
        // 3. commit to f (stubbed)
        let comm_f = commitment_stub();
        // 4. derive the challenge vector from a fresh transcript session
        // seeded with the public instance description; drawing advances a
        // transcript, so the challenges use their own session and the
        // reduction transcript below holds exactly what the verifier replays
        let s = v.num_vars();
        let instance_info = make_info(s, 1);
        let mut tau_rng = transcript_setup();
        match transcript_feed_info(&mut tau_rng, &instance_info) {
            Ok(_) => {},
            Err(_) => {
                return Err(ProdcheckError::Transcript);
            },
        }
        let mut tau: Vec<Scalar> = Vec::new();
        let mut k: usize = 0;
        while k < s
            invariant
                k <= s,
                tau@.len() == k,
                forall|u: int| 0 <= u < k ==> (#[trigger] tau@[u]).wf(),
            decreases s - k,
        {
            let c = transcript_sample_field(&mut tau_rng);
            tau.push(scalar_of_field_elem(&c));
            k += 1;
        }
        // 5. build the consistency polynomial and package it as a
        // single-term sum-check instance
        let g = compute_G(&f, &tau);
        let glen = g.len();
        let mut g_evals: Vec<FieldElem> = Vec::new();
        let mut i: usize = 0;
        while i < glen
            invariant
                i <= glen,
                g_evals@.len() == i,
                g.wf(),
                glen == g.values().len(),
            decreases glen - i,
        {
            let e = g.evaluation(i);
            g_evals.push(field_elem_of_scalar(&e));
            i += 1;
        }
        let one = Scalar::from_u64(1);
        let coeff = field_elem_of_scalar(&one);
        let poly = single_polynomial_instance(s, g_evals, coeff);
        // 6. run the reduction: seed the reduction transcript with the
        // instance description, then bind each round message into it before
        // the next challenge is drawn
        let mut fs_rng = transcript_setup();
        match transcript_feed_info(&mut fs_rng, &instance_info) {
            Ok(_) => {},
            Err(_) => {
                return Err(ProdcheckError::Transcript);
            },
        }
        let mut prover_state = sumcheck_prover_init(&poly);
        let mut verifier_msg: Option<Challenge> = None;
        let mut prover_msgs: Vec<RoundMessage> = Vec::new();
        let mut round: usize = 0;
        while round < s
            invariant
                round <= s,
                prover_msgs@.len() == round,
                prover_rounds_done(prover_state) == round,
                prover_total_rounds(prover_state) == s,
                prover_degree(prover_state) == 1,
                verifier_msg is Some <==> round > 0,
                forall|u: int| 0 <= u < round ==> msg_num_evals(#[trigger] prover_msgs@[u]) == 2,
            decreases s - round,
        {
            let prover_msg = sumcheck_prove_round(&mut prover_state, &verifier_msg);
            match transcript_feed_msg(&mut fs_rng, &prover_msg) {
                Ok(_) => {},
                Err(_) => {
                    return Err(ProdcheckError::Transcript);
                },
            }
            prover_msgs.push(prover_msg);
            let vm = sample_round(&mut fs_rng);
            verifier_msg = Some(vm);
            round += 1;
        }
        proof {
            assert(encodes_product_tree(v.values(), sg, f.values()));
            lemma_grand_product(v.values(), sg, f.values());
        }
        Ok(Proof { sumcheck_proof: prover_msgs, comm_v, comm_f, claimed_value: p })
    }

    /// Verifies a proof against the public instance description: refuses a
    /// proof with fewer round messages than rounds as incomplete, rejects a
    /// round message of the wrong shape for the degree bound, and otherwise
    /// accepts exactly when the engine's replay of the round messages proves
    /// that the consistency polynomial sums to zero; the claimed product is
    /// carried into the sub-claim for the opening protocol.
    pub fn verify(polynomial_info: &SumcheckInfo, proof: &Proof) -> (r: Result<
        ProdcheckSubClaim,
        ProdcheckError,
    >)
        requires
            1 <= polynomial_info.num_variables,
            1 <= polynomial_info.max_multiplicands,
            proof.claimed_value.wf(),
        ensures
            r == Result::<ProdcheckSubClaim, ProdcheckError>::Err(ProdcheckError::ProofIncomplete)
                <==> proof.sumcheck_proof@.len() < polynomial_info.num_variables,
            proof.sumcheck_proof@.len() >= polynomial_info.num_variables ==> (r is Ok <==> ((
            forall|i: int|
                0 <= i < polynomial_info.num_variables ==> msg_num_evals(
                    #[trigger] proof.sumcheck_proof@[i],
                ) == polynomial_info.max_multiplicands + 1) && sumcheck_accepts(
                polynomial_info.num_variables as nat,
                polynomial_info.max_multiplicands as nat,
                proof.sumcheck_proof@.take(polynomial_info.num_variables as int),
                0,
            ))),
            r is Err ==> (r->Err_0 == ProdcheckError::ProofIncomplete || r->Err_0
                == ProdcheckError::Rejected),
            r is Ok ==> ({
                let sub = r->Ok_0;
                &&& sub.point@.len() == polynomial_info.num_variables
                &&& forall|i: int| 0 <= i < sub.point@.len() ==> (#[trigger] sub.point@[i]).wf()
                &&& seq_vals(sub.point@) == sumcheck_point(
                    polynomial_info.num_variables as nat,
                    polynomial_info.max_multiplicands as nat,
                    proof.sumcheck_proof@.take(polynomial_info.num_variables as int),
                    0,
                )
                &&& sub.expected_evaluation.wf()
                &&& sub.expected_evaluation@ == sumcheck_expected(
                    polynomial_info.num_variables as nat,
                    polynomial_info.max_multiplicands as nat,
                    proof.sumcheck_proof@.take(polynomial_info.num_variables as int),
                    0,
                )
                &&& sub.claimed_product == proof.claimed_value
            }),
    {
        let nv = polynomial_info.num_variables;
        let deg = polynomial_info.max_multiplicands;
        // 1. a proof with fewer round messages than rounds is incomplete
        if proof.sumcheck_proof.len() < nv {
            return Err(ProdcheckError::ProofIncomplete);
        }
        // 2. a round message whose evaluation count is not the degree bound
        // plus one fails the shape check and is rejected
        let mut i: usize = 0;
        while i < nv
            invariant
                i <= nv,
                nv == polynomial_info.num_variables,
                deg == polynomial_info.max_multiplicands,
                1 <= deg,
                nv <= proof.sumcheck_proof@.len(),
                forall|u: int| 0 <= u < i ==> msg_num_evals(#[trigger] proof.sumcheck_proof@[u])
                    == deg + 1,
            decreases nv - i,
        {
            let l = round_message_num_evals(&proof.sumcheck_proof[i]);
            if l < 1 || l - 1 != deg {
                return Err(ProdcheckError::Rejected);
            }
            i += 1;
        }
        // 3. replay the reduction against the consistency polynomial's true
        // sum, which is zero; the claimed product is discharged by the
        // opening of the encoding at the designated entry
        let instance_info = make_info(nv, deg);
        let zero = Scalar::from_u64(0);
        let claimed_zero = field_elem_of_scalar(&zero);
        let outcome = engine_verify(&instance_info, claimed_zero, &proof.sumcheck_proof);
        subclaim_of_outcome(outcome, &proof.claimed_value)
    }
}

/// Maps the engine's verification outcome to the protocol's: an accepted
/// replay becomes the sub-claim left to the opening protocol, carrying the
/// claimed product; a rejected one becomes the rejection error.
fn subclaim_of_outcome(
    outcome: Result<EngineSubClaim, TranscriptFault>,
    claimed_value: &Scalar,
) -> (r: Result<ProdcheckSubClaim, ProdcheckError>)
    ensures
        r is Ok <==> outcome is Ok,
        outcome is Err ==> r == Result::<ProdcheckSubClaim, ProdcheckError>::Err(
            ProdcheckError::Rejected,
        ),
        r is Ok ==> ({
            let sub = r->Ok_0;
            &&& sub.point@.len() == subclaim_point_vals(outcome->Ok_0).len()
            &&& forall|i: int| 0 <= i < sub.point@.len() ==> (#[trigger] sub.point@[i]).wf()
            &&& seq_vals(sub.point@) == subclaim_point_vals(outcome->Ok_0)
            &&& sub.expected_evaluation.wf()
            &&& sub.expected_evaluation@ == subclaim_expected_val(outcome->Ok_0)
            &&& sub.claimed_product == *claimed_value
        }),
{
    match outcome {
        Ok(sub) => {
            let plen = subclaim_point_len_exec(&sub);
            let mut pts: Vec<Scalar> = Vec::new();
            let mut k: usize = 0;
            while k < plen
                invariant
                    k <= plen,
                    pts@.len() == k,
                    plen as nat == subclaim_point_vals(sub).len(),
                    forall|u: int| 0 <= u < k ==> (#[trigger] pts@[u]).wf() && pts@[u]@
                        == subclaim_point_vals(sub)[u],
                decreases plen - k,
            {
                let c = subclaim_point_at(&sub, k);
                pts.push(scalar_of_field_elem(&c));
                k += 1;
            }
            proof {
                assert(seq_vals(pts@) =~= subclaim_point_vals(sub));
            }
            let ev = scalar_of_field_elem(&subclaim_expected(&sub));
            Ok(
                ProdcheckSubClaim {
                    point: pts,
                    expected_evaluation: ev,
                    claimed_product: *claimed_value,
                },
            )
        },
        Err(_) => Err(ProdcheckError::Rejected),
    }
}

} // verus!
