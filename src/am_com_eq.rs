//! The amortized commitment-equality sigma protocol: one commitment `c` to the
//! concatenated rows `w_0 || ... || w_(l-1)` under `(g, h)` holds the same rows
//! as the per-row commitments `c_hat[i]` under `(g_hat, h_hat)`.
use crate::aggregation::power_from;
use crate::field::{fr_modulus, limbs_be, scalar_of, Scalar};
use crate::group::{g1_add_of, g1_msm_of, g1_mul_of, msm, points_be, points_to_be, points_view, scalars_value, Point, PointView};
use crate::transcript::{challenge_of, label_bytes, SHA3Base};
use vstd::prelude::*;

verus! {

/// A Pedersen basis: `g` for the message, `h` for the blinding.
#[derive(Clone, Debug)]
pub struct CommittingKey {
    pub g: Vec<Point>,
    pub h: Vec<Point>,
}

/// `poly_ck` commits to all `l * d0` entries at once; `coeff_ck` to one row of
/// `d0` entries.
#[derive(Clone, Debug)]
pub struct PublicParameters {
    pub poly_ck: CommittingKey,
    pub coeff_ck: CommittingKey,
}

/// The commitment to all rows, and one commitment per row.
#[derive(Clone, Debug)]
pub struct Instance {
    pub c: Point,
    pub c_hat: Vec<Point>,
}

/// The rows `w`, the blinding `alpha` of `c`, and the blindings `beta[i]` of
/// `c_hat[i]`.
#[derive(Clone, Debug)]
pub struct Witness {
    pub w: Vec<Vec<Scalar>>,
    pub alpha: Vec<Scalar>,
    pub beta: Vec<Vec<Scalar>>,
}

/// The prover's masks: `r` for the entries, `delta` and `gamma` for the
/// blindings.
#[derive(Clone, Debug)]
pub struct Randomness {
    pub r: Vec<Scalar>,
    pub delta: Vec<Scalar>,
    pub gamma: Vec<Scalar>,
}

/// The first message.
#[derive(Clone, Copy, Debug)]
pub struct Commitment {
    pub a: Point,
    pub a_hat: Point,
}

/// The first message and the responses.
#[derive(Clone, Debug)]
pub struct Proof {
    pub commitment: Commitment,
    pub z: Vec<Scalar>,
    pub omega: Vec<Scalar>,
    pub omega_hat: Vec<Scalar>,
}

/// The amortized commitment-equality protocol.
pub struct AmComEq;

/// `sum_(i < n) vals[d0 * i + j] * xs[i]` in the scalar field, added in index
/// order.
pub open spec fn strided_sum(vals: Seq<nat>, xs: Seq<nat>, d0: nat, j: nat, n: nat) -> nat
    decreases n,
{
    if n == 0 {
        0
    } else {
        (strided_sum(vals, xs, d0, j, (n - 1) as nat) + (vals[d0 * (n - 1) + j] * xs[n - 1])
            % fr_modulus()) % fr_modulus()
    }
}

/// Column `j` of rows of length `d0` laid end to end, weighted by `xs`.
pub open spec fn strided_sums(vals: Seq<nat>, xs: Seq<nat>, d0: nat) -> Seq<nat> {
    Seq::new(d0, |j: int| strided_sum(vals, xs, d0, j as nat, xs.len()))
}

/// `sum_(i < n) rows[i][j] * xs[i]` in the scalar field, added in index order.
pub open spec fn column_sum(rows: Seq<Vec<Scalar>>, xs: Seq<nat>, j: int, n: nat) -> nat
    decreases n,
{
    if n == 0 {
        0
    } else {
        (column_sum(rows, xs, j, (n - 1) as nat) + (rows[n - 1]@[j].value() * xs[n - 1])
            % fr_modulus()) % fr_modulus()
    }
}

/// The rows laid end to end.
pub open spec fn concat_rows(rows: Seq<Vec<Scalar>>) -> Seq<Scalar>
    decreases rows.len(),
{
    if rows.len() == 0 {
        seq![]
    } else {
        concat_rows(rows.drop_last()) + rows.last()@
    }
}

/// `m + e * v` in the scalar field, entry by entry.
pub open spec fn respond(mask: Seq<nat>, e: nat, v: Seq<nat>) -> Seq<nat> {
    Seq::new(mask.len(), |i: int| (mask[i] + (e * v[i]) % fr_modulus()) % fr_modulus())
}

/// `msm(g, m) + msm(h, b)`: a blinded Pedersen commitment.
pub open spec fn pedersen(g: Seq<Point>, m: Seq<nat>, h: Seq<Point>, b: Seq<nat>) -> PointView {
    g1_add_of(g1_msm_of(points_view(g), m), g1_msm_of(points_view(h), b))
}

/// The transcript input that yields `x`: the label "instance" with `c` and
/// then each `c_hat[i]`, then the label "challenge".
pub open spec fn instance_input(state: Seq<u8>, use_label: bool, inst: &Instance) -> Seq<u8> {
    state + label_bytes(use_label, "instance") + points_be(seq![inst.c] + inst.c_hat@)
        + label_bytes(use_label, "challenge")
}

/// The challenge `x`.
pub open spec fn instance_challenge(state: Seq<u8>, use_label: bool, inst: &Instance) -> Scalar {
    scalar_of(challenge_of(instance_input(state, use_label, inst)))
}

/// The transcript input that yields `e`: the label "commitment" with `a` and
/// `a_hat`, then the label "challenge".
pub open spec fn commitment_input(state: Seq<u8>, use_label: bool, c: Commitment) -> Seq<u8> {
    state + label_bytes(use_label, "commitment") + points_be(seq![c.a, c.a_hat]) + label_bytes(
        use_label,
        "challenge",
    )
}

/// The challenge `e`.
pub open spec fn commitment_challenge(state: Seq<u8>, use_label: bool, c: Commitment) -> Scalar {
    scalar_of(challenge_of(commitment_input(state, use_label, c)))
}

/// `[x, x^2, ..., x^l]`.
pub open spec fn powers_of(x: nat, l: nat) -> Seq<nat> {
    Seq::new(l, |i: int| power_from(x, x, i as nat))
}

/// The first message for the masks `rnd` and the powers `xs`.
pub open spec fn commitment_spec(pp: &PublicParameters, xs: Seq<nat>, rnd: &Randomness) -> (
    PointView,
    PointView,
) {
    let d0 = pp.coeff_ck.g.len() as nat;
    (
        pedersen(pp.poly_ck.g@, scalars_value(rnd.r@), pp.poly_ck.h@, scalars_value(rnd.delta@)),
        pedersen(
            pp.coeff_ck.g@,
            strided_sums(scalars_value(rnd.r@), xs, d0),
            pp.coeff_ck.h@,
            scalars_value(rnd.gamma@),
        ),
    )
}

/// The shapes under which the responses line up with the bases.
pub open spec fn proof_shapes_ok(pp: &PublicParameters, l: nat, z: nat, omega: nat, omega_hat: nat) -> bool {
    &&& z == pp.poly_ck.g.len()
    &&& z == pp.coeff_ck.g.len() * l
    &&& omega == pp.poly_ck.h.len()
    &&& omega_hat == pp.coeff_ck.h.len()
}

/// What the verifier accepts, with the challenges `x` and `e` that the
/// transcript yields: `msm(g, z) + msm(h, omega) == a + e * c`, and
/// `msm(g_hat, sum_i x^(i+1) z_i) + msm(h_hat, omega_hat) == a_hat + e *
/// msm(c_hat, [x, ..., x^l])`.
pub open spec fn verify_outcome(
    pp: &PublicParameters,
    inst: &Instance,
    proof: &Proof,
    state: Seq<u8>,
    use_label: bool,
) -> bool {
    let x = instance_challenge(state, use_label, inst);
    let xs = powers_of(x.value(), inst.c_hat.len() as nat);
    let e = commitment_challenge(limbs_be(x.limbs), use_label, proof.commitment).value();
    let d0 = pp.coeff_ck.g.len() as nat;
    let zv = scalars_value(proof.z@);
    &&& pedersen(pp.poly_ck.g@, zv, pp.poly_ck.h@, scalars_value(proof.omega@)) == g1_add_of(
        proof.commitment.a@,
        g1_mul_of(inst.c@, e),
    )
    &&& pedersen(
        pp.coeff_ck.g@,
        strided_sums(zv, xs, d0),
        pp.coeff_ck.h@,
        scalars_value(proof.omega_hat@),
    ) == g1_add_of(proof.commitment.a_hat@, g1_mul_of(g1_msm_of(points_view(inst.c_hat@), xs), e))
}

proof fn lemma_stride_index(d0: nat, i: nat, j: nat, l: nat)
    requires
        i < l,
        j < d0,
    ensures
        d0 * i + j < d0 * l,
{
    assert(d0 * i + j < d0 * l) by (nonlinear_arith)
        requires
            i < l,
            j < d0,
    ;
}

impl AmComEq {
    /// Column sums of rows of length `d0` laid end to end, weighted by `xs`:
    /// entry `j` is `sum_i vals[d0 * i + j] * xs[i]`.
    pub fn strided_columns(vals: &Vec<Scalar>, xs: &Vec<Scalar>, d0: usize) -> (r: Vec<Scalar>)
        requires
            vals.len() == d0 * xs.len(),
        ensures
            scalars_value(r@) == strided_sums(scalars_value(vals@), scalars_value(xs@), d0 as nat),
            forall|j: int| 0 <= j < r@.len() ==> (#[trigger] r@[j]).wf(),
    {
        let ghost vv = scalars_value(vals@);
        let ghost xv = scalars_value(xs@);
        let l = xs.len();
        let mut out: Vec<Scalar> = Vec::new();
        let mut j: usize = 0;
        while j < d0
            invariant
                vals.len() == d0 * l,
                l == xs.len(),
                vv == scalars_value(vals@),
                xv == scalars_value(xs@),
                j <= d0,
                out@.len() == j,
                forall|m: int| 0 <= m < j ==> (#[trigger] out@[m]).wf() && out@[m].value() == strided_sum(vv, xv, d0 as nat, m as nat, l as nat),
            decreases d0 - j,
        {
            let mut acc = Scalar::zero();
            let mut i: usize = 0;
            while i < l
                invariant
                    vals.len() == d0 * l,
                    l == xs.len(),
                    vv == scalars_value(vals@),
                    xv == scalars_value(xs@),
                    j < d0,
                    i <= l,
                    acc.wf(),
                    acc.value() == strided_sum(vv, xv, d0 as nat, j as nat, i as nat),
                decreases l - i,
            {
                proof {
                    lemma_stride_index(d0 as nat, i as nat, j as nat, l as nat);
                }
                let t = vals[d0 * i + j].mul(&xs[i]);
                acc = acc.add(&t);
                i = i + 1;
            }
            out.push(acc);
            j = j + 1;
        }
        assert(scalars_value(out@) =~= strided_sums(vv, xv, d0 as nat));
        out
    }

    /// Feeds the instance to the transcript, draws `x`, and returns
    /// `[x, x^2, ..., x^l]` for the `l` row commitments.
    pub fn compute_powers_of_x(instance: &Instance, transcript: &mut SHA3Base) -> (r: Vec<Scalar>)
        ensures
            ({
                let x = instance_challenge(old(transcript).bytes@, old(transcript).use_label, instance);
                &&& scalars_value(r@) == powers_of(x.value(), instance.c_hat.len() as nat)
                &&& final(transcript).bytes@ == limbs_be(x.limbs)
            }),
            forall|i: int| 0 <= i < r@.len() ==> (#[trigger] r@[i]).wf(),
            final(transcript).use_label == old(transcript).use_label,
    {
        let mut pts: Vec<Point> = Vec::new();
        pts.push(instance.c);
        let mut i: usize = 0;
        while i < instance.c_hat.len()
            invariant
                i <= instance.c_hat.len(),
                pts@ == seq![instance.c] + instance.c_hat@.subrange(0, i as int),
            decreases instance.c_hat.len() - i,
        {
            pts.push(instance.c_hat[i]);
            i = i + 1;
            assert(pts@ =~= seq![instance.c] + instance.c_hat@.subrange(0, i as int));
        }
        assert(pts@ =~= seq![instance.c] + instance.c_hat@);
        let bytes = points_to_be(&pts);
        transcript.append("instance", bytes.as_slice());
        let x = transcript.challenge_scalar("challenge");
        assert(old(transcript).bytes@ + label_bytes(old(transcript).use_label, "instance") + bytes@
            + label_bytes(old(transcript).use_label, "challenge") =~= instance_input(
            old(transcript).bytes@,
            old(transcript).use_label,
            instance,
        ));
        let l = instance.c_hat.len();
        let mut powers: Vec<Scalar> = Vec::new();
        let mut cur = x;
        let mut k: usize = 0;
        proof {
            crate::aggregation::lemma_power_zero(x.value(), x.value());
        }
        while k < l
            invariant
                k <= l,
                x.wf(),
                cur.wf(),
                cur.value() == power_from(x.value(), x.value(), k as nat),
                powers@.len() == k,
                forall|m: int| 0 <= m < k ==> (#[trigger] powers@[m]).wf() && powers@[m].value() == power_from(x.value(), x.value(), m as nat),
            decreases l - k,
        {
            powers.push(cur);
            proof {
                crate::aggregation::lemma_power_step(x.value(), x.value(), k as nat);
            }
            cur = cur.mul(&x);
            k = k + 1;
        }
        assert(scalars_value(powers@) =~= powers_of(x.value(), l as nat));
        powers
    }

    /// Feeds the first message to the transcript and draws `e`.
    pub fn compute_e(commitment: &Commitment, transcript: &mut SHA3Base) -> (r: Scalar)
        ensures
            r.wf(),
            r == commitment_challenge(old(transcript).bytes@, old(transcript).use_label, *commitment),
            final(transcript).bytes@ == limbs_be(r.limbs),
            final(transcript).use_label == old(transcript).use_label,
    {
        let pts = vec![commitment.a, commitment.a_hat];
        assert(pts@ =~= seq![commitment.a, commitment.a_hat]);
        let bytes = points_to_be(&pts);
        transcript.append("commitment", bytes.as_slice());
        let r = transcript.challenge_scalar("challenge");
        assert(old(transcript).bytes@ + label_bytes(old(transcript).use_label, "commitment")
            + bytes@ + label_bytes(old(transcript).use_label, "challenge") =~= commitment_input(
            old(transcript).bytes@,
            old(transcript).use_label,
            *commitment,
        ));
        r
    }

    /// Whether `n == d0 * l`, without overflow.
    pub(crate) fn is_product(n: usize, d0: usize, l: usize) -> (r: bool)
        ensures
            r == (n == d0 * l),
    {
        if d0 == 0 {
            n == 0
        } else {
            let q = n / d0;
            let m = n % d0;
            proof {
                vstd::arithmetic::div_mod::lemma_fundamental_div_mod(n as int, d0 as int);
                if n == d0 * l {
                    vstd::arithmetic::div_mod::lemma_fundamental_div_mod_converse(n as int, d0 as int, l as int, 0);
                }
                assert(d0 * q == q * d0) by (nonlinear_arith);
            }
            m == 0 && q == l
        }
    }

    /// The first message from the masks `random` and the powers of `x`: `a`
    /// commits to `r` and `delta` under `(g, h)`; `a_hat` commits to the
    /// `x`-weighted column sums of `r` and to `gamma` under `(g_hat, h_hat)`.
    /// An error when a mask does not fit its basis.
    pub fn create_commitment_from_random(
        pp: &PublicParameters,
        powers_of_x: &Vec<Scalar>,
        random: &Randomness,
    ) -> (r: Result<Commitment, ()>)
        ensures
            r is Err <==> !(random.r.len() == pp.poly_ck.g.len() && random.r.len()
                == pp.coeff_ck.g.len() * powers_of_x.len() && random.delta.len() == pp.poly_ck.h.len()
                && random.gamma.len() == pp.coeff_ck.h.len()),
            r matches Ok(c) ==> (c.a@, c.a_hat@) == commitment_spec(
                pp,
                scalars_value(powers_of_x@),
                random,
            ),
    {
        let d0 = pp.coeff_ck.g.len();
        if random.r.len() != pp.poly_ck.g.len() || !Self::is_product(
            random.r.len(),
            d0,
            powers_of_x.len(),
        ) || random.delta.len() != pp.poly_ck.h.len() || random.gamma.len() != pp.coeff_ck.h.len() {
            return Err(());
        }
        let a = msm(&pp.poly_ck.g, &random.r).add(&msm(&pp.poly_ck.h, &random.delta));
        let agg = Self::strided_columns(&random.r, powers_of_x, d0);
        assert(agg@.len() == scalars_value(agg@).len());
        let a_hat = msm(&pp.coeff_ck.g, &agg).add(&msm(&pp.coeff_ck.h, &random.gamma));
        Ok(Commitment { a, a_hat })
    }

    /// `mask[i] + e * v[i]`, entry by entry.
    fn respond_vec(mask: &Vec<Scalar>, e: &Scalar, v: &Vec<Scalar>) -> (r: Vec<Scalar>)
        requires
            mask.len() == v.len(),
        ensures
            scalars_value(r@) == respond(scalars_value(mask@), e.value(), scalars_value(v@)),
    {
        let mut out: Vec<Scalar> = Vec::new();
        let mut i: usize = 0;
        while i < mask.len()
            invariant
                mask.len() == v.len(),
                i <= mask.len(),
                out@.len() == i,
                forall|m: int| 0 <= m < i ==> #[trigger] out@[m].value() == respond(scalars_value(mask@), e.value(), scalars_value(v@))[m],
            decreases mask.len() - i,
        {
            out.push(mask[i].add(&e.mul(&v[i])));
            i = i + 1;
        }
        assert(scalars_value(out@) =~= respond(scalars_value(mask@), e.value(), scalars_value(v@)));
        out
    }

    /// The rows laid end to end.
    pub fn concat(rows: &Vec<Vec<Scalar>>) -> (r: Vec<Scalar>)
        ensures
            r@ == concat_rows(rows@),
    {
        let mut out: Vec<Scalar> = Vec::new();
        let mut i: usize = 0;
        while i < rows.len()
            invariant
                i <= rows.len(),
                out@ == concat_rows(rows@.subrange(0, i as int)),
            decreases rows.len() - i,
        {
            let ghost before = out@;
            let row = &rows[i];
            let mut j: usize = 0;
            while j < row.len()
                invariant
                    j <= row.len(),
                    out@ == before + row@.subrange(0, j as int),
                decreases row.len() - j,
            {
                out.push(row[j]);
                j = j + 1;
                assert(out@ =~= before + row@.subrange(0, j as int));
            }
            assert(row@.subrange(0, row.len() as int) =~= row@);
            assert(rows@.subrange(0, i + 1).drop_last() =~= rows@.subrange(0, i as int));
            i = i + 1;
        }
        assert(rows@.subrange(0, rows.len() as int) =~= rows@);
        out
    }

    /// Entry `j` is `sum_i rows[i][j] * xs[i]`, for `j < d`.
    fn weighted_columns(rows: &Vec<Vec<Scalar>>, xs: &Vec<Scalar>, d: usize) -> (r: Vec<Scalar>)
        requires
            rows.len() == xs.len(),
            forall|i: int| 0 <= i < rows.len() ==> #[trigger] rows@[i]@.len() == d,
        ensures
            r@.len() == d,
            forall|j: int| 0 <= j < d ==> #[trigger] r@[j].value() == column_sum(rows@, scalars_value(xs@), j, rows.len() as nat),
    {
        let mut out: Vec<Scalar> = Vec::new();
        let mut j: usize = 0;
        while j < d
            invariant
                rows.len() == xs.len(),
                forall|i: int| 0 <= i < rows.len() ==> #[trigger] rows@[i]@.len() == d,
                j <= d,
                out@.len() == j,
                forall|m: int| 0 <= m < j ==> #[trigger] out@[m].value() == column_sum(rows@, scalars_value(xs@), m, rows.len() as nat),
            decreases d - j,
        {
            let mut acc = Scalar::zero();
            let mut i: usize = 0;
            while i < rows.len()
                invariant
                    rows.len() == xs.len(),
                    forall|k: int| 0 <= k < rows.len() ==> #[trigger] rows@[k]@.len() == d,
                    j < d,
                    i <= rows.len(),
                    acc.value() == column_sum(rows@, scalars_value(xs@), j as int, i as nat),
                decreases rows.len() - i,
            {
                assert(rows@[i as int]@.len() == d);
                let t = rows[i][j].mul(&xs[i]);
                acc = acc.add(&t);
                i = i + 1;
            }
            out.push(acc);
            j = j + 1;
        }
        out
    }

    /// The responses to challenge `e`: `z = r + e * (w_0 || ... || w_(l-1))`,
    /// `omega = delta + e * alpha`, `omega_hat = gamma + e * sum_i x^(i+1) *
    /// beta_i`. An error when a mask and what it hides differ in length.
    pub fn create_proof_with_assignment(
        pp: &PublicParameters,
        witness: &Witness,
        randomness: &Randomness,
        commitment: &Commitment,
        powers_of_x: &Vec<Scalar>,
        challenge: Scalar,
    ) -> (r: Result<Proof, ()>)
        ensures
            r is Err <==> !(randomness.r@.len() == concat_rows(witness.w@).len()
                && randomness.delta.len() == witness.alpha.len() && witness.beta.len()
                == powers_of_x.len() && randomness.gamma.len() == pp.coeff_ck.h.len() && forall|i: int|
                0 <= i < witness.beta.len() ==> #[trigger] witness.beta@[i]@.len()
                == pp.coeff_ck.h.len()),
            r matches Ok(p) ==> {
                let xs = scalars_value(powers_of_x@);
                let d2 = pp.coeff_ck.h.len();
                &&& p.commitment == *commitment
                &&& scalars_value(p.z@) == respond(
                    scalars_value(randomness.r@),
                    challenge.value(),
                    scalars_value(concat_rows(witness.w@)),
                )
                &&& scalars_value(p.omega@) == respond(
                    scalars_value(randomness.delta@),
                    challenge.value(),
                    scalars_value(witness.alpha@),
                )
                &&& scalars_value(p.omega_hat@) == respond(
                    scalars_value(randomness.gamma@),
                    challenge.value(),
                    Seq::new(d2 as nat, |j: int| column_sum(witness.beta@, xs, j, xs.len())),
                )
            },
    {
        let d2 = pp.coeff_ck.h.len();
        let flat = Self::concat(&witness.w);
        if randomness.r.len() != flat.len() || randomness.delta.len() != witness.alpha.len()
            || witness.beta.len() != powers_of_x.len() || randomness.gamma.len() != d2 {
            return Err(());
        }
        let mut i: usize = 0;
        while i < witness.beta.len()
            invariant
                i <= witness.beta.len(),
                d2 == pp.coeff_ck.h.len(),
                flat@ == concat_rows(witness.w@),
                randomness.r.len() == flat.len(),
                randomness.delta.len() == witness.alpha.len(),
                witness.beta.len() == powers_of_x.len(),
                randomness.gamma.len() == d2,
                forall|k: int| 0 <= k < i ==> #[trigger] witness.beta@[k]@.len() == d2,
            decreases witness.beta.len() - i,
        {
            if witness.beta[i].len() != d2 {
                return Err(());
            }
            i = i + 1;
        }
        let z = Self::respond_vec(&randomness.r, &challenge, &flat);
        let omega = Self::respond_vec(&randomness.delta, &challenge, &witness.alpha);
        let agg = Self::weighted_columns(&witness.beta, powers_of_x, d2);
        let omega_hat = Self::respond_vec(&randomness.gamma, &challenge, &agg);
        assert(scalars_value(agg@) =~= Seq::new(
            d2 as nat,
            |j: int| column_sum(witness.beta@, scalars_value(powers_of_x@), j, powers_of_x.len() as nat),
        ));
        Ok(Proof { commitment: *commitment, z, omega, omega_hat })
    }

    /// Proves the instance with the masks `randomness`: draws `x`, commits,
    /// draws `e`, responds.
    pub fn create_proof(
        pp: &PublicParameters,
        instance: &Instance,
        witness: &Witness,
        randomness: &Randomness,
        transcript: &mut SHA3Base,
    ) -> (r: Result<Proof, ()>)
        ensures
            r is Err <==> !(randomness.r.len() == pp.poly_ck.g.len() && randomness.r.len()
                == pp.coeff_ck.g.len() * instance.c_hat.len() && randomness.delta.len()
                == pp.poly_ck.h.len() && randomness.gamma.len() == pp.coeff_ck.h.len()
                && randomness.r@.len() == concat_rows(witness.w@).len() && randomness.delta.len()
                == witness.alpha.len() && witness.beta.len() == instance.c_hat.len() && forall|i: int|
                0 <= i < witness.beta.len() ==> #[trigger] witness.beta@[i]@.len()
                == pp.coeff_ck.h.len()),
            r matches Ok(p) ==> {
                let x = instance_challenge(old(transcript).bytes@, old(transcript).use_label, instance);
                let xs = powers_of(x.value(), instance.c_hat.len() as nat);
                let e = commitment_challenge(limbs_be(x.limbs), old(transcript).use_label, p.commitment);
                &&& (p.commitment.a@, p.commitment.a_hat@) == commitment_spec(pp, xs, randomness)
                &&& scalars_value(p.z@) == respond(
                    scalars_value(randomness.r@),
                    e.value(),
                    scalars_value(concat_rows(witness.w@)),
                )
                &&& scalars_value(p.omega@) == respond(
                    scalars_value(randomness.delta@),
                    e.value(),
                    scalars_value(witness.alpha@),
                )
                &&& scalars_value(p.omega_hat@) == respond(
                    scalars_value(randomness.gamma@),
                    e.value(),
                    Seq::new(
                        pp.coeff_ck.h.len() as nat,
                        |j: int| column_sum(witness.beta@, xs, j, xs.len()),
                    ),
                )
                &&& final(transcript).bytes@ == limbs_be(e.limbs)
            },
    {
        let powers = Self::compute_powers_of_x(instance, transcript);
        assert(powers@.len() == scalars_value(powers@).len());
        let commitment = match Self::create_commitment_from_random(pp, &powers, randomness) {
            Ok(c) => c,
            Err(_) => return Err(()),
        };
        let e = Self::compute_e(&commitment, transcript);
        Self::create_proof_with_assignment(pp, witness, randomness, &commitment, &powers, e)
    }

    /// Checks a proof: draws `x` and `e` again and tests both linear relations.
    /// A structural error, before any arithmetic, when the responses do not fit
    /// the bases.
    pub fn verify_proof(
        pp: &PublicParameters,
        instance: &Instance,
        proof: &Proof,
        transcript: &mut SHA3Base,
    ) -> (r: Result<bool, ()>)
        ensures
            r is Err <==> !proof_shapes_ok(
                pp,
                instance.c_hat.len() as nat,
                proof.z.len() as nat,
                proof.omega.len() as nat,
                proof.omega_hat.len() as nat,
            ),
            r is Err ==> final(transcript).bytes@ == old(transcript).bytes@
                && final(transcript).use_label == old(transcript).use_label,
            r matches Ok(b) ==> b == verify_outcome(
                pp,
                instance,
                proof,
                old(transcript).bytes@,
                old(transcript).use_label,
            ),
    {
        let d0 = pp.coeff_ck.g.len();
        let l = instance.c_hat.len();
        if proof.z.len() != pp.poly_ck.g.len() || !Self::is_product(proof.z.len(), d0, l)
            || proof.omega.len() != pp.poly_ck.h.len() || proof.omega_hat.len()
            != pp.coeff_ck.h.len() {
            return Err(());
        }
        let ghost b0 = transcript.bytes@;
        let ghost lab = transcript.use_label;
        let xs = Self::compute_powers_of_x(instance, transcript);
        assert(xs@.len() == scalars_value(xs@).len());
        let e = Self::compute_e(&proof.commitment, transcript);
        let s_real = msm(&pp.poly_ck.g, &proof.z).add(&msm(&pp.poly_ck.h, &proof.omega));
        let s_expected = proof.commitment.a.add(&instance.c.scale(&e));
        let agg = Self::strided_columns(&proof.z, &xs, d0);
        assert(agg@.len() == scalars_value(agg@).len());
        let m_real = msm(&pp.coeff_ck.g, &agg).add(&msm(&pp.coeff_ck.h, &proof.omega_hat));
        let m_expected = proof.commitment.a_hat.add(&msm(&instance.c_hat, &xs).scale(&e));
        let ok_s = s_real.equals(&s_expected);
        let ok_m = m_real.equals(&m_expected);
        Ok(ok_s && ok_m)
    }
}

} // verus!
