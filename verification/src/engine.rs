//! Trusted boundary to the arkworks collaborators: the sum-check reduction
//! engine and the Blake2s Fiat-Shamir transcript of `ark_linear_sumcheck`,
//! the BLS12-381 scalar field, and the stubbed group commitment. The outside
//! values are held in opaque wrapper structs; the uninterpreted functions
//! name what those values hold (round counts, degree bounds, the lengths of
//! round polynomials, canonical representatives) and the one deterministic
//! outcome the protocol depends on (whether the engine accepts a list of
//! round messages), so that the orchestration can be verified against the
//! wrappers' contracts, which state only what the collaborators' sources
//! show.
use vstd::prelude::*;

use crate::field::Scalar;
use crate::mle::pow2;
use ark_bls12_381::{Fr, G1Projective};
use ark_ff::{BigInt, PrimeField};
use ark_linear_sumcheck::ml_sumcheck::data_structures::{
    ListOfProductsOfPolynomials, PolynomialInfo,
};
use ark_linear_sumcheck::ml_sumcheck::protocol::prover::{ProverMsg, ProverState};
use ark_linear_sumcheck::ml_sumcheck::protocol::verifier::{SubClaim, VerifierMsg};
use ark_linear_sumcheck::ml_sumcheck::protocol::IPForMLSumcheck;
use ark_linear_sumcheck::ml_sumcheck::MLSumcheck;
use ark_linear_sumcheck::rng::{Blake2s512Rng, FeedableRNG};
use ark_poly::DenseMultilinearExtension;
use ark_serialize::{CanonicalDeserialize, CanonicalSerialize};
use ark_std::rc::Rc;
use ark_std::UniformRand;

verus! {

/// An element of the engine's scalar field.
#[verifier::external_body]
pub struct FieldElem {
    inner: Fr,
}

/// A group element standing in for a commitment in the stubbed scheme.
#[verifier::external_body]
pub struct Commitment {
    inner: G1Projective,
}

/// One round message of the sum-check reduction: the round polynomial as its
/// evaluations at consecutive points.
#[verifier::external_body]
pub struct RoundMessage {
    inner: ProverMsg<Fr>,
}

/// One round challenge drawn from the transcript.
#[verifier::external_body]
pub struct Challenge {
    inner: VerifierMsg<Fr>,
}

/// The engine's final claim: an evaluation point and the value expected
/// there.
#[verifier::external_body]
pub struct EngineSubClaim {
    inner: SubClaim<Fr>,
}

/// The Fiat-Shamir transcript.
#[verifier::external_body]
pub struct Transcript {
    inner: Blake2s512Rng,
}

/// A transcript feed failure: the collaborator's serialization error.
#[verifier::external_body]
pub struct TranscriptFault {
    inner: ark_linear_sumcheck::Error,
}

/// The sum-check instance handed to the engine.
#[verifier::external_body]
pub struct Instance {
    inner: ListOfProductsOfPolynomials<Fr>,
}

/// The engine's public instance description.
#[verifier::external_body]
pub struct InstanceInfo {
    inner: PolynomialInfo,
}

/// The engine's prover state.
#[verifier::external_body]
pub struct SumcheckProver {
    inner: ProverState<Fr>,
}

/// The canonical representative of a field element, below the field order.
pub uninterp spec fn elem_val(e: FieldElem) -> nat;

/// The round count an instance was built with.
pub uninterp spec fn instance_rounds(p: Instance) -> nat;

/// The degree bound (largest number of multiplicands) of an instance.
pub uninterp spec fn instance_degree(p: Instance) -> nat;

/// How many rounds the prover has produced so far.
pub uninterp spec fn prover_rounds_done(s: SumcheckProver) -> nat;

/// The round count the prover was started with.
pub uninterp spec fn prover_total_rounds(s: SumcheckProver) -> nat;

/// The degree bound the prover was started with.
pub uninterp spec fn prover_degree(s: SumcheckProver) -> nat;

/// How many evaluations a round message carries.
pub uninterp spec fn msg_num_evals(m: RoundMessage) -> nat;

/// The round count a built instance description carries.
pub uninterp spec fn info_num_variables(i: InstanceInfo) -> nat;

/// The degree bound a built instance description carries.
pub uninterp spec fn info_max_multiplicands(i: InstanceInfo) -> nat;

/// The canonical representatives of a sub-claim's evaluation point.
pub uninterp spec fn subclaim_point_vals(c: EngineSubClaim) -> Seq<nat>;

/// The canonical representative of a sub-claim's expected evaluation.
pub uninterp spec fn subclaim_expected_val(c: EngineSubClaim) -> nat;

/// Whether the engine's verification accepts: the outcome of replaying a
/// fresh transcript over an instance description with the given round count
/// and degree bound and the given round messages, against the claimed sum.
/// The replay is a Blake2s stream over the fed bytes and the checks are
/// field arithmetic, so the outcome is a function of the arguments alone.
pub uninterp spec fn sumcheck_accepts(
    num_variables: nat,
    max_multiplicands: nat,
    msgs: Seq<RoundMessage>,
    claimed_sum: nat,
) -> bool;

/// The evaluation point of an accepted replay's sub-claim: one
/// transcript-derived challenge per round, in round order, as canonical
/// representatives — like the acceptance bit, a function of the arguments
/// alone.
pub uninterp spec fn sumcheck_point(
    num_variables: nat,
    max_multiplicands: nat,
    msgs: Seq<RoundMessage>,
    claimed_sum: nat,
) -> Seq<nat>;

/// The expected evaluation of an accepted replay's sub-claim: the final
/// interpolated claim of the run, as a canonical representative.
pub uninterp spec fn sumcheck_expected(
    num_variables: nat,
    max_multiplicands: nat,
    msgs: Seq<RoundMessage>,
    claimed_sum: nat,
) -> nat;

/// Relies on `Fr::from_bigint`: maps the canonical little-endian limbs of an
/// integer below the field order to the field element that represents it.
#[verifier::external_body]
pub(crate) fn field_elem_of_scalar(s: &Scalar) -> (r: FieldElem)
    requires
        s.wf(),
    ensures
        elem_val(r) == s@,
{
    let l = s.limbs();
    FieldElem { inner: Fr::from_bigint(BigInt::new([l.0, l.1, l.2, l.3])).unwrap() }
}

/// Relies on `Fr::into_bigint`: returns the canonical representative of a
/// field element, which lies below the field order.
#[verifier::external_body]
pub(crate) fn scalar_of_field_elem(x: &FieldElem) -> (r: Scalar)
    ensures
        r.wf(),
        r@ == elem_val(*x),
{
    let z = x.inner.into_bigint().0;
    Scalar::from_limbs(z[0], z[1], z[2], z[3]).unwrap()
}

/// Relies on `Blake2s512Rng::setup`: a fresh Fiat-Shamir transcript built on
/// the Blake2s digest, deterministic in the messages later fed to it.
#[verifier::external_body]
pub(crate) fn transcript_setup() -> Transcript {
    Transcript { inner: Blake2s512Rng::setup() }
}

/// Relies on `FeedableRNG::feed` for `Blake2s512Rng`: absorbs the serialized
/// round message into the transcript. Serialization writes into an
/// in-memory byte buffer, which cannot fail, so the feed always succeeds.
#[verifier::external_body]
pub(crate) fn transcript_feed_msg(rng: &mut Transcript, msg: &RoundMessage) -> (r: Result<
    (),
    TranscriptFault,
>)
    ensures
        r is Ok,
{
    match rng.inner.feed(&msg.inner) {
        Ok(()) => Ok(()),
        Err(e) => Err(TranscriptFault { inner: e }),
    }
}

/// Relies on `FeedableRNG::feed` for `Blake2s512Rng`: absorbs the serialized
/// instance description into the transcript. Serialization writes into an
/// in-memory byte buffer, which cannot fail, so the feed always succeeds.
#[verifier::external_body]
pub(crate) fn transcript_feed_info(rng: &mut Transcript, info: &InstanceInfo) -> (r: Result<
    (),
    TranscriptFault,
>)
    ensures
        r is Ok,
{
    match rng.inner.feed(&info.inner) {
        Ok(()) => Ok(()),
        Err(e) => Err(TranscriptFault { inner: e }),
    }
}

/// Relies on `Fr::rand` over the transcript stream: a field element that
/// depends on the transcript state.
#[verifier::external_body]
pub(crate) fn transcript_sample_field(rng: &mut Transcript) -> FieldElem {
    FieldElem { inner: Fr::rand(&mut rng.inner) }
}

/// Relies on `IPForMLSumcheck::sample_round`: draws a round challenge from
/// the transcript stream.
#[verifier::external_body]
pub(crate) fn sample_round(rng: &mut Transcript) -> Challenge {
    Challenge { inner: IPForMLSumcheck::sample_round(&mut rng.inner) }
}

/// Relies on the `Default` group element of `ark_bls12_381`: the neutral
/// element, standing in for a commitment in the stubbed scheme.
#[verifier::external_body]
pub(crate) fn commitment_stub() -> Commitment {
    Commitment { inner: G1Projective::default() }
}

/// Relies on the public fields of `PolynomialInfo`: builds the engine's
/// instance description from a round count and a degree bound.
#[verifier::external_body]
pub(crate) fn make_info(num_variables: usize, max_multiplicands: usize) -> (r: InstanceInfo)
    ensures
        info_num_variables(r) == num_variables as nat,
        info_max_multiplicands(r) == max_multiplicands as nat,
{
    InstanceInfo { inner: PolynomialInfo { max_multiplicands, num_variables } }
}

/// Relies on the derived `CanonicalSerialize` of `ProverMsg`: a round
/// message serializes uncompressed as an 8-byte length followed by 32 bytes
/// per field element, so the evaluation count is recovered from the
/// uncompressed size.
#[verifier::external_body]
pub fn round_message_num_evals(m: &RoundMessage) -> (r: usize)
    ensures
        r as nat == msg_num_evals(*m),
{
    (m.inner.uncompressed_size() - 8) / 32
}

/// Relies on the derived `CanonicalSerialize` and `CanonicalDeserialize` of
/// `ProverMsg`: a round message is exactly its vector of evaluations, so one
/// is built from field elements by encoding the vector and decoding it as a
/// message. Lets a caller assemble or alter a proof's round messages.
#[verifier::external_body]
pub fn round_message_from_evaluations(evals: &Vec<Scalar>) -> (r: RoundMessage)
    requires
        forall|i: int| 0 <= i < evals@.len() ==> #[trigger] evals@[i].wf(),
    ensures
        msg_num_evals(r) == evals@.len(),
{
    let frs: Vec<Fr> = evals.iter().map(|e| field_elem_of_scalar(e).inner).collect();
    let mut buf: Vec<u8> = Vec::new();
    frs.serialize_uncompressed(&mut buf).unwrap();
    RoundMessage { inner: ProverMsg::deserialize_uncompressed(buf.as_slice()).unwrap() }
}

/// Relies on `DenseMultilinearExtension::from_evaluations_vec`,
/// `ListOfProductsOfPolynomials::new` and `add_product`: builds the
/// sum-check instance made of one product of one multilinear polynomial with
/// the given hypercube evaluations and the given coefficient, so its degree
/// bound is one.
#[verifier::external_body]
pub(crate) fn single_polynomial_instance(nv: usize, evals: Vec<FieldElem>, coeff: FieldElem) -> (r:
    Instance)
    requires
        nv <= 30,
        evals@.len() == pow2(nv as nat),
    ensures
        instance_rounds(r) == nv as nat,
        instance_degree(r) == 1,
{
    let raw: Vec<Fr> = evals.into_iter().map(|e| e.inner).collect();
    let mle = DenseMultilinearExtension::from_evaluations_vec(nv, raw);
    let mut poly = ListOfProductsOfPolynomials::new(nv);
    poly.add_product(vec![Rc::new(mle)], coeff.inner);
    Instance { inner: poly }
}

/// Relies on `IPForMLSumcheck::prover_init`: starts the prover on the
/// instance; an instance without variables makes the engine panic, so it is
/// excluded.
#[verifier::external_body]
pub(crate) fn sumcheck_prover_init(poly: &Instance) -> (r: SumcheckProver)
    requires
        instance_rounds(*poly) >= 1,
    ensures
        prover_rounds_done(r) == 0,
        prover_total_rounds(r) == instance_rounds(*poly),
        prover_degree(r) == instance_degree(*poly),
{
    SumcheckProver { inner: IPForMLSumcheck::prover_init(&poly.inner) }
}

/// Relies on `IPForMLSumcheck::prove_round`: produces the round polynomial
/// as its evaluations at `0 ..= degree` and advances the round. The first
/// round takes no challenge and every later round takes one, and no round
/// may run past the instance's round count: the engine panics otherwise.
#[verifier::external_body]
pub(crate) fn sumcheck_prove_round(state: &mut SumcheckProver, v_msg: &Option<Challenge>) -> (r:
    RoundMessage)
    requires
        prover_rounds_done(*old(state)) < prover_total_rounds(*old(state)),
        v_msg is Some <==> prover_rounds_done(*old(state)) > 0,
    ensures
        prover_rounds_done(*final(state)) == prover_rounds_done(*old(state)) + 1,
        prover_total_rounds(*final(state)) == prover_total_rounds(*old(state)),
        prover_degree(*final(state)) == prover_degree(*old(state)),
        msg_num_evals(r) == prover_degree(*old(state)) + 1,
{
    let ark_msg = match v_msg {
        Some(c) => Some(VerifierMsg { randomness: c.inner.randomness }),
        None => None,
    };
    RoundMessage { inner: IPForMLSumcheck::prove_round(&mut state.inner, &ark_msg) }
}

/// Relies on `MLSumcheck::verify`: replays a fresh Blake2s transcript over
/// the instance description and the round messages in order, checks every
/// round polynomial against the running claim and the transcript-derived
/// challenge, and accepts exactly when the first `num_variables` messages
/// prove that the instance sums to the claimed value; only those messages
/// enter the outcome. The engine panics on fewer messages than rounds, on a
/// message whose evaluation count is not the degree bound plus one, and on
/// an instance with no round or a zero degree bound: all are excluded.
#[verifier::external_body]
pub(crate) fn engine_verify(
    info: &InstanceInfo,
    claimed_sum: FieldElem,
    msgs: &Vec<RoundMessage>,
) -> (r: Result<EngineSubClaim, TranscriptFault>)
    requires
        1 <= info_num_variables(*info),
        1 <= info_max_multiplicands(*info),
        info_num_variables(*info) <= msgs@.len(),
        forall|i: int| 0 <= i < info_num_variables(*info) ==> msg_num_evals(#[trigger] msgs@[i])
            == info_max_multiplicands(*info) + 1,
    ensures
        r is Ok <==> sumcheck_accepts(
            info_num_variables(*info),
            info_max_multiplicands(*info),
            msgs@.take(info_num_variables(*info) as int),
            elem_val(claimed_sum),
        ),
        r is Ok ==> subclaim_point_vals(r->Ok_0).len() == info_num_variables(*info),
        r is Ok ==> subclaim_point_vals(r->Ok_0) == sumcheck_point(
            info_num_variables(*info),
            info_max_multiplicands(*info),
            msgs@.take(info_num_variables(*info) as int),
            elem_val(claimed_sum),
        ),
        r is Ok ==> subclaim_expected_val(r->Ok_0) == sumcheck_expected(
            info_num_variables(*info),
            info_max_multiplicands(*info),
            msgs@.take(info_num_variables(*info) as int),
            elem_val(claimed_sum),
        ),
{
    let ark_msgs: Vec<ProverMsg<Fr>> = msgs.iter().map(|m| m.inner.clone()).collect();
    match MLSumcheck::verify(&info.inner, claimed_sum.inner, &ark_msgs) {
        Ok(sub) => Ok(EngineSubClaim { inner: sub }),
        Err(e) => Err(TranscriptFault { inner: e }),
    }
}

/// Relies on the public `point` field of `SubClaim`.
#[verifier::external_body]
pub(crate) fn subclaim_point_len_exec(c: &EngineSubClaim) -> (r: usize)
    ensures
        r as nat == subclaim_point_vals(*c).len(),
{
    c.inner.point.len()
}

/// Relies on the public `point` field of `SubClaim`.
#[verifier::external_body]
pub(crate) fn subclaim_point_at(c: &EngineSubClaim, i: usize) -> (r: FieldElem)
    requires
        i < subclaim_point_vals(*c).len(),
    ensures
        elem_val(r) == subclaim_point_vals(*c)[i as int],
{
    FieldElem { inner: c.inner.point[i] }
}

/// Relies on the public `expected_evaluation` field of `SubClaim`.
#[verifier::external_body]
pub(crate) fn subclaim_expected(c: &EngineSubClaim) -> (r: FieldElem)
    ensures
        elem_val(r) == subclaim_expected_val(*c),
{
    FieldElem { inner: c.inner.expected_evaluation }
}

} // verus!
