//! Pedersen commitments to scalar vectors, and the challenge that binds a list
//! of commitments and the proof-dependent commitment.
use crate::field::{be_value, fr_modulus, limbs_be, Scalar};
use crate::group::{g1_add_of, g1_mul_of, g1_msm_of, msm, point_be, points_be, points_to_be, points_view, scalars_value, Point};
use crate::transcript::{keccak256, keccak256_of};
use vstd::prelude::*;

verus! {

/// The Pedersen commitment scheme over G1.
pub struct Pedersen;

/// The 32 big-endian bytes of each scalar, one after the other.
pub open spec fn scalars_be(s: Seq<Scalar>) -> Seq<u8>
    decreases s.len(),
{
    if s.len() == 0 {
        seq![]
    } else {
        scalars_be(s.drop_last()) + limbs_be(s.last().limbs)
    }
}

/// The bytes that the challenge hashes: the public inputs, then each
/// commitment's `x` and `y`, then those of the proof-dependent commitment.
pub open spec fn challenge_input(inputs: Seq<Scalar>, commitments: Seq<Point>, pd: Point) -> Seq<u8> {
    scalars_be(inputs) + points_be(commitments) + point_be(pd)
}

impl Pedersen {
    /// `sum_i scalars[i] * key[i]`.
    pub fn commit(key: &Vec<Point>, scalars: &Vec<Scalar>) -> (r: Point)
        requires
            key.len() == scalars.len(),
        ensures
            r.wf(),
            r@ == g1_msm_of(points_view(key@), scalars_value(scalars@)),
    {
        msm(key, scalars)
    }

    /// One commitment per row, all under `key`.
    pub fn batch_commit(key: &Vec<Point>, rows: &Vec<Vec<Scalar>>) -> (r: Vec<Point>)
        requires
            forall|i: int| 0 <= i < rows.len() ==> #[trigger] rows@[i]@.len() == key.len(),
        ensures
            r@.len() == rows@.len(),
            forall|i: int| 0 <= i < rows.len() ==> #[trigger] r@[i]@ == g1_msm_of(
                points_view(key@),
                scalars_value(rows@[i]@),
            ),
    {
        let mut out: Vec<Point> = Vec::new();
        let mut i: usize = 0;
        while i < rows.len()
            invariant
                i <= rows.len(),
                out@.len() == i,
                forall|k: int| 0 <= k < rows.len() ==> #[trigger] rows@[k]@.len() == key.len(),
                forall|k: int| 0 <= k < i ==> #[trigger] out@[k]@ == g1_msm_of(
                    points_view(key@),
                    scalars_value(rows@[k]@),
                ),
            decreases rows.len() - i,
        {
            assert(rows@[i as int]@.len() == key.len());
            out.push(Self::commit(key, &rows[i]));
            i = i + 1;
        }
        out
    }

    /// The Keccak-256 digest of the public inputs, the commitments and the
    /// proof-dependent commitment, read as a big-endian integer modulo `r`.
    pub fn challenge(public_inputs: &Vec<Scalar>, commitments: &Vec<Point>, proof_dependent_commitment: &Point) -> (r: Scalar)
        ensures
            r.wf(),
            r.value() == be_value(
                keccak256_of(challenge_input(public_inputs@, commitments@, *proof_dependent_commitment)),
            ) % fr_modulus(),
    {
        let mut bytes: Vec<u8> = Vec::new();
        let mut i: usize = 0;
        while i < public_inputs.len()
            invariant
                i <= public_inputs.len(),
                bytes@ == scalars_be(public_inputs@.subrange(0, i as int)),
            decreases public_inputs.len() - i,
        {
            crate::field::push_limbs_be(&mut bytes, &public_inputs[i].limbs);
            assert(public_inputs@.subrange(0, i + 1).drop_last() =~= public_inputs@.subrange(0, i as int));
            i = i + 1;
        }
        assert(public_inputs@.subrange(0, public_inputs.len() as int) =~= public_inputs@);
        let cm_bytes = points_to_be(commitments);
        let mut j: usize = 0;
        let ghost b1 = bytes@;
        while j < cm_bytes.len()
            invariant
                j <= cm_bytes.len(),
                bytes@ == b1 + cm_bytes@.subrange(0, j as int),
            decreases cm_bytes.len() - j,
        {
            bytes.push(cm_bytes[j]);
            j = j + 1;
            assert(bytes@ =~= b1 + cm_bytes@.subrange(0, j as int));
        }
        assert(cm_bytes@.subrange(0, cm_bytes.len() as int) =~= cm_bytes@);
        proof_dependent_commitment.push_be(&mut bytes);
        assert(bytes@ =~= challenge_input(public_inputs@, commitments@, *proof_dependent_commitment));
        let digest = keccak256(&bytes);
        Scalar::from_be_bytes_mod_order(&digest)
    }
}

/// Per-item commitments `m_i * ck[0] + o_i * ck[1]`.
pub struct BatchCommitment;

impl BatchCommitment {
    /// One commitment per message and opening, paired in order; as many as the
    /// shorter list.
    pub fn commit(ck: &Vec<Point>, messages: &Vec<Scalar>, opens: &Vec<Scalar>) -> (r: Vec<Point>)
        requires
            ck.len() >= 2,
        ensures
            r@.len() == if messages.len() <= opens.len() { messages.len() } else { opens.len() },
            forall|i: int| 0 <= i < r@.len() ==> #[trigger] r@[i]@ == g1_add_of(
                g1_mul_of(ck@[0]@, messages@[i].value()),
                g1_mul_of(ck@[1]@, opens@[i].value()),
            ),
    {
        let n = if messages.len() <= opens.len() {
            messages.len()
        } else {
            opens.len()
        };
        let mut out: Vec<Point> = Vec::new();
        let mut i: usize = 0;
        while i < n
            invariant
                n <= messages.len(),
                n <= opens.len(),
                ck.len() >= 2,
                i <= n,
                out@.len() == i,
                forall|k: int| 0 <= k < i ==> #[trigger] out@[k]@ == g1_add_of(
                    g1_mul_of(ck@[0]@, messages@[k].value()),
                    g1_mul_of(ck@[1]@, opens@[k].value()),
                ),
            decreases n - i,
        {
            out.push(ck[0].scale(&messages[i]).add(&ck[1].scale(&opens[i])));
            i = i + 1;
        }
        out
    }
}

} // verus!
