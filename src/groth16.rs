//! The verifier of the batched commit-carrying Groth16 proof: the challenge
//! over the per-item commitments and the proof-dependent commitment, the
//! public-input point, and the pairing check.
//!
//! The challenge schedule is this crate's own and is fixed here: a fresh
//! Keccak-256 transcript with labels on (`SHA3Base::new(true)`) takes, for
//! each list commitment in order, the label "list commitment" and the 64
//! bytes of the point (`x`, then `y`, big-endian); then the label "proof
//! dependent commitment" and that point's 64 bytes; `tau` is drawn under the
//! label "challenge". Provers must draw `tau` the same way; a transcript of
//! another kind (such as a merlin transcript) yields another `tau`.
use crate::aggregation::{tau_powers, AggregationTree};
use crate::field::scalar_of;
use crate::group::{g1_add_of, g1_msm_of, g1_mul_of, point_be, points_view, Point, PointView};
use crate::pairing::{g1_neg_of, g2_views, negate, pairing_check_of, pairing_product_is_one, G2Point};
use crate::transcript::{challenge_of, SHA3Base};
use vstd::prelude::*;
use vstd::string::StringSliceAdditionalSpecFns;

verus! {

/// The batched commit-carrying Groth16 scheme.
pub struct BccGroth16;

/// Each list commitment under the label "list commitment", in order.
pub open spec fn labelled_list(cs: Seq<Point>) -> Seq<u8>
    decreases cs.len(),
{
    if cs.len() == 0 {
        seq![]
    } else {
        labelled_list(cs.drop_last()) + "list commitment".spec_bytes() + point_be(cs.last())
    }
}

/// What the challenge `tau` hashes: the labelled list commitments, the
/// labelled proof-dependent commitment, the label "challenge".
pub open spec fn inputs_transcript(list: Seq<Point>, pd: Point) -> Seq<u8> {
    labelled_list(list) + "proof dependent commitment".spec_bytes() + point_be(pd)
        + "challenge".spec_bytes()
}

/// The public-input point: `gamma_abc[0] + sum_i tau^i * list[i] + pd + tau *
/// gamma_abc[1]`, with `tau` drawn from the commitments.
pub open spec fn prepared_inputs(gamma_abc: Seq<Point>, list: Seq<Point>, pd: Point) -> PointView {
    let tau = scalar_of(challenge_of(inputs_transcript(list, pd))).value();
    g1_add_of(
        g1_add_of(g1_add_of(gamma_abc[0]@, g1_msm_of(points_view(list), tau_powers(1, tau, list.len()))), pd@),
        g1_mul_of(gamma_abc[1]@, tau),
    )
}

impl BccGroth16 {
    /// The challenge `tau` over the list commitments and the proof-dependent
    /// commitment, from a fresh labelled transcript.
    pub fn inputs_challenge(list: &Vec<Point>, pd: &Point) -> (r: crate::field::Scalar)
        ensures
            r.wf(),
            r == scalar_of(challenge_of(inputs_transcript(list@, *pd))),
    {
        let mut t = SHA3Base::new(true);
        let mut i: usize = 0;
        while i < list.len()
            invariant
                i <= list.len(),
                t.use_label,
                t.bytes@ == labelled_list(list@.subrange(0, i as int)),
            decreases list.len() - i,
        {
            let mut b: Vec<u8> = Vec::new();
            list[i].push_be(&mut b);
            t.append("list commitment", b.as_slice());
            assert(list@.subrange(0, i + 1).drop_last() =~= list@.subrange(0, i as int));
            i = i + 1;
        }
        assert(list@.subrange(0, list.len() as int) =~= list@);
        let mut b: Vec<u8> = Vec::new();
        pd.push_be(&mut b);
        t.append("proof dependent commitment", b.as_slice());
        let tau = t.challenge_scalar("challenge");
        assert(labelled_list(list@) + "proof dependent commitment".spec_bytes() + b@
            + "challenge".spec_bytes() =~= inputs_transcript(list@, *pd));
        tau
    }

    /// The public-input point of a proof whose public inputs are the list
    /// commitments followed by the proof-dependent commitment. An error when
    /// there is no list commitment or the key has fewer than two entries.
    pub fn prepare_inputs(gamma_abc_g1: &Vec<Point>, public_inputs: &Vec<Point>) -> (r: Result<
        Point,
        (),
    >)
        ensures
            r is Err <==> (public_inputs.len() < 2 || gamma_abc_g1.len() < 2),
            r matches Ok(p) ==> p@ == prepared_inputs(
                gamma_abc_g1@,
                public_inputs@.drop_last(),
                public_inputs@.last(),
            ),
    {
        if public_inputs.len() < 2 || gamma_abc_g1.len() < 2 {
            return Err(());
        }
        let n = public_inputs.len() - 1;
        let list = crate::slices::take_range(public_inputs, 0, n);
        let pd = public_inputs[n];
        assert(list@ =~= public_inputs@.drop_last());
        let tau = Self::inputs_challenge(&list, &pd);
        let root = list.compute_root(&tau);
        let g_ic = gamma_abc_g1[0].add(&root).add(&pd).add(&gamma_abc_g1[1].scale(&tau));
        Ok(g_ic)
    }
}

/// The verifying key: `alpha` on G1, `beta`, `gamma`, `delta` on G2, and the
/// constant segment of the instance key.
#[derive(Clone, Debug)]
pub struct VerifyingKey {
    pub alpha_g1: Point,
    pub beta_g2: G2Point,
    pub gamma_g2: G2Point,
    pub delta_g2: G2Point,
    pub gamma_abc_g1: Vec<Point>,
}

/// A Groth16 proof.
#[derive(Clone, Copy, Debug)]
pub struct Proof {
    pub a: Point,
    pub b: G2Point,
    pub c: Point,
}

/// What the verifier accepts: `e(A, B) = e(alpha, beta) * e(g_ic, gamma) *
/// e(C, delta)`, checked as `e(A, B) * e(-alpha, beta) * e(-g_ic, gamma) *
/// e(-C, delta) = 1`; nothing when the final exponentiation fails.
pub open spec fn groth16_accepts(vk: &VerifyingKey, proof: &Proof, g_ic: PointView) -> Option<bool> {
    pairing_check_of(
        seq![proof.a@, g1_neg_of(vk.alpha_g1@), g1_neg_of(g_ic), g1_neg_of(proof.c@)],
        seq![proof.b@, vk.beta_g2@, vk.gamma_g2@, vk.delta_g2@],
    )
}

impl BccGroth16 {
    /// Checks a proof against the list commitments followed by the
    /// proof-dependent commitment. An error when there is no list commitment,
    /// the key has fewer than two entries, or the pairing's final
    /// exponentiation fails.
    pub fn verify_proof(vk: &VerifyingKey, proof: &Proof, public_inputs: &Vec<Point>) -> (r: Result<
        bool,
        (),
    >)
        ensures
            (public_inputs.len() < 2 || vk.gamma_abc_g1.len() < 2) ==> r is Err,
            !(public_inputs.len() < 2 || vk.gamma_abc_g1.len() < 2) ==> match groth16_accepts(
                vk,
                proof,
                prepared_inputs(vk.gamma_abc_g1@, public_inputs@.drop_last(), public_inputs@.last()),
            ) {
                Some(b) => r == Ok::<bool, ()>(b),
                None => r is Err,
            },
    {
        let g_ic = match Self::prepare_inputs(&vk.gamma_abc_g1, public_inputs) {
            Ok(p) => p,
            Err(_) => return Err(()),
        };
        let g1 = vec![proof.a, negate(&vk.alpha_g1), negate(&g_ic), negate(&proof.c)];
        let g2 = vec![proof.b, vk.beta_g2, vk.gamma_g2, vk.delta_g2];
        let ok = pairing_product_is_one(&g1, &g2);
        assert(points_view(g1@) =~= seq![proof.a@, g1_neg_of(vk.alpha_g1@), g1_neg_of(g_ic@), g1_neg_of(proof.c@)]);
        assert(g2_views(g2@) =~= seq![proof.b@, vk.beta_g2@, vk.gamma_g2@, vk.delta_g2@]);
        match ok {
            Some(b) => Ok(b),
            None => Err(()),
        }
    }
}

} // verus!
