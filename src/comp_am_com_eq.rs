//! The compressed amortized commitment-equality argument: the responses of
//! the amortized protocol are not sent; their relation is handed to the
//! compressed discrete-log equality argument instead.
use crate::am_com_eq::{self, commitment_challenge, concat_rows, instance_challenge, powers_of, AmComEq};
use crate::comp_dl_eq::{self, accepts, pow2, CompDLEq, THRESHOLD};
use crate::field::{fr_modulus, limbs_be, Scalar};
use crate::group::{g1_add_of, g1_msm_of, g1_mul_of, msm, points_view, scalars_value, Point, PointView};
use crate::transcript::SHA3Base;
use vstd::prelude::*;

verus! {

/// The folding rounds, and the amortized proof whose `z` holds the two
/// entries left after them.
#[derive(Clone, Debug)]
pub struct Proof {
    pub commitments: Vec<comp_dl_eq::Commitment>,
    pub ace: am_com_eq::Proof,
}

/// The compressed amortized commitment-equality protocol.
pub struct CompAmComEq;

/// `-v` in the scalar field, entry by entry.
pub open spec fn negated(v: Seq<nat>) -> Seq<nat> {
    Seq::new(v.len(), |i: int| ((0 - v[i]) % (fr_modulus() as int)) as nat)
}

/// The second basis of the folded relation: `coeff_ck.g[j] * x^(i+1)` at
/// index `i * d0 + j`.
pub open spec fn scaled_bases(coeff_g: Seq<Point>, xs: Seq<nat>) -> Seq<PointView> {
    let d0 = coeff_g.len();
    Seq::new(xs.len() * d0, |k: int| g1_mul_of(coeff_g[k % d0 as int]@, xs[k / d0 as int]))
}

/// The statement of the folded relation: `y = a + e * c - <h, omega>` and
/// `y_hat = a_hat + e * <c_hat, xs> - <h_hat, omega_hat>`.
pub open spec fn folded_statement(
    pp: &am_com_eq::PublicParameters,
    instance: &am_com_eq::Instance,
    ace: &am_com_eq::Proof,
    xs: Seq<nat>,
    e: nat,
) -> (PointView, PointView) {
    (
        g1_add_of(
            g1_add_of(ace.commitment.a@, g1_mul_of(instance.c@, e)),
            g1_msm_of(points_view(pp.poly_ck.h@), negated(scalars_value(ace.omega@))),
        ),
        g1_add_of(
            g1_add_of(ace.commitment.a_hat@, g1_mul_of(g1_msm_of(points_view(instance.c_hat@), xs), e)),
            g1_msm_of(points_view(pp.coeff_ck.h@), negated(scalars_value(ace.omega_hat@))),
        ),
    )
}

proof fn lemma_split_index(k: int, d0: int, i: int, j: int)
    requires
        k == i * d0 + j,
        0 <= j < d0,
        0 <= i,
    ensures
        k / d0 == i,
        k % d0 == j,
{
    vstd::arithmetic::div_mod::lemma_fundamental_div_mod_converse(k, d0, i, j);
}

impl CompAmComEq {
    /// `-v[i]` for each entry.
    fn negate_all(v: &Vec<Scalar>) -> (r: Vec<Scalar>)
        ensures
            scalars_value(r@) == negated(scalars_value(v@)),
    {
        let mut out: Vec<Scalar> = Vec::new();
        let mut i: usize = 0;
        while i < v.len()
            invariant
                i <= v.len(),
                out@.len() == i,
                forall|m: int| 0 <= m < i ==> #[trigger] out@[m].value() == negated(scalars_value(v@))[m],
            decreases v.len() - i,
        {
            out.push(Scalar::zero().sub(&v[i]));
            i = i + 1;
        }
        assert(scalars_value(out@) =~= negated(scalars_value(v@)));
        out
    }

    /// `coeff_g[j] * xs[i]` at index `i * d0 + j`.
    fn scale_bases(coeff_g: &Vec<Point>, xs: &Vec<Scalar>) -> (r: Vec<Point>)
        ensures
            points_view(r@) == scaled_bases(coeff_g@, scalars_value(xs@)),
    {
        let d0 = coeff_g.len();
        let ghost xv = scalars_value(xs@);
        let mut out: Vec<Point> = Vec::new();
        let mut i: usize = 0;
        while i < xs.len()
            invariant
                d0 == coeff_g.len(),
                xv == scalars_value(xs@),
                i <= xs.len(),
                out@.len() == i * d0,
                forall|k: int| 0 <= k < out@.len() ==> #[trigger] out@[k]@ == g1_mul_of(coeff_g@[k % d0 as int]@, xv[k / d0 as int]),
            decreases xs.len() - i,
        {
            let mut j: usize = 0;
            while j < d0
                invariant
                    d0 == coeff_g.len(),
                    xv == scalars_value(xs@),
                    i < xs.len(),
                    j <= d0,
                    out@.len() == i * d0 + j,
                    forall|k: int| 0 <= k < out@.len() ==> #[trigger] out@[k]@ == g1_mul_of(coeff_g@[k % d0 as int]@, xv[k / d0 as int]),
                decreases d0 - j,
            {
                proof {
                    lemma_split_index((i * d0 + j) as int, d0 as int, i as int, j as int);
                }
                out.push(coeff_g[j].scale(&xs[i]));
                j = j + 1;
            }
            proof {
                assert((i + 1) * d0 == i * d0 + d0) by (nonlinear_arith);
            }
            i = i + 1;
        }
        proof {
            assert(xs.len() * d0 == xv.len() * d0);
        }
        assert(points_view(out@) =~= scaled_bases(coeff_g@, xv));
        out
    }

    /// The relation left after the amortized protocol's challenge: the bases
    /// `g` and the `x`-scaled `g_hat`, the statement of `folded_statement`, and
    /// the response `z` as witness. An error when `omega`, `omega_hat` or
    /// `powers_of_x` do not fit their bases.
    pub fn prepare_for_comp_dl_eq(
        pp: &am_com_eq::PublicParameters,
        instance: &am_com_eq::Instance,
        proof: &am_com_eq::Proof,
        powers_of_x: &Vec<Scalar>,
        challenge: Scalar,
    ) -> (r: Result<(comp_dl_eq::PublicParameters, comp_dl_eq::Instance, comp_dl_eq::Witness), ()>)
        ensures
            r is Err <==> (proof.omega.len() != pp.poly_ck.h.len() || proof.omega_hat.len()
                != pp.coeff_ck.h.len() || instance.c_hat.len() != powers_of_x.len()),
            r matches Ok((q, i, w)) ==> {
                let xs = scalars_value(powers_of_x@);
                &&& q.g@ == pp.poly_ck.g@
                &&& points_view(q.g_hat@) == scaled_bases(pp.coeff_ck.g@, xs)
                &&& (i.y@, i.y_hat@) == folded_statement(pp, instance, proof, xs, challenge.value())
                &&& w.z@ == proof.z@
            },
    {
        if proof.omega.len() != pp.poly_ck.h.len() || proof.omega_hat.len() != pp.coeff_ck.h.len()
            || instance.c_hat.len() != powers_of_x.len() {
            return Err(());
        }
        let g = crate::slices::take_range(&pp.poly_ck.g, 0, pp.poly_ck.g.len());
        let g_hat = Self::scale_bases(&pp.coeff_ck.g, powers_of_x);
        let neg_omega = Self::negate_all(&proof.omega);
        let neg_omega_hat = Self::negate_all(&proof.omega_hat);
        assert(neg_omega@.len() == scalars_value(neg_omega@).len());
        assert(neg_omega_hat@.len() == scalars_value(neg_omega_hat@).len());
        let y = proof.commitment.a.add(&instance.c.scale(&challenge)).add(
            &msm(&pp.poly_ck.h, &neg_omega),
        );
        let y_hat = proof.commitment.a_hat.add(&msm(&instance.c_hat, powers_of_x).scale(&challenge)).add(
            &msm(&pp.coeff_ck.h, &neg_omega_hat),
        );
        let z = crate::slices::take_range(&proof.z, 0, proof.z.len());
        assert(pp.poly_ck.g@.subrange(0, pp.poly_ck.g.len() as int) =~= pp.poly_ck.g@);
        assert(proof.z@.subrange(0, proof.z.len() as int) =~= proof.z@);
        Ok((
            comp_dl_eq::PublicParameters { g, g_hat },
            comp_dl_eq::Instance { y, y_hat },
            comp_dl_eq::Witness { z },
        ))
    }

    /// Checks a proof: draws `x` and `e` as the amortized verifier does, then
    /// checks the folding rounds on the relation that `prepare_for_comp_dl_eq`
    /// gives. A structural error when `z` does not have two entries or a
    /// length does not fit.
    #[verifier::rlimit(60)]
    pub fn verify_proof(
        pp: &am_com_eq::PublicParameters,
        instance: &am_com_eq::Instance,
        proof: &Proof,
        transcript: &mut SHA3Base,
    ) -> (r: Result<bool, ()>)
        requires
            pp.poly_ck.g.len() <= usize::MAX / 2,
        ensures
            r is Err <==> (proof.ace.z.len() != THRESHOLD || proof.ace.omega.len()
                != pp.poly_ck.h.len() || proof.ace.omega_hat.len() != pp.coeff_ck.h.len()
                || pp.poly_ck.g.len() != pp.coeff_ck.g.len() * instance.c_hat.len()
                || comp_dl_eq::rescaled(pp.poly_ck.g.len() as nat) != pow2(
                (proof.commitments.len() + 1) as nat,
            )),
            r is Err ==> final(transcript).bytes@ == old(transcript).bytes@
                && final(transcript).use_label == old(transcript).use_label,
            r matches Ok(b) ==> {
                let lab = old(transcript).use_label;
                let x = instance_challenge(old(transcript).bytes@, lab, instance);
                let xs = powers_of(x.value(), instance.c_hat.len() as nat);
                let e = commitment_challenge(limbs_be(x.limbs), lab, proof.ace.commitment);
                let st = folded_statement(pp, instance, &proof.ace, xs, e.value());
                let n = comp_dl_eq::rescaled(pp.poly_ck.g.len() as nat);
                b == accepts(
                    comp_dl_eq::padded_bases(points_view(pp.poly_ck.g@), n),
                    comp_dl_eq::padded_bases(scaled_bases(pp.coeff_ck.g@, xs), n),
                    st.0,
                    st.1,
                    proof.commitments@,
                    scalars_value(proof.ace.z@),
                    limbs_be(e.limbs),
                    lab,
                )
            },
    {
        let d0 = pp.coeff_ck.g.len();
        let l = instance.c_hat.len();
        if proof.ace.z.len() != THRESHOLD || proof.ace.omega.len() != pp.poly_ck.h.len()
            || proof.ace.omega_hat.len() != pp.coeff_ck.h.len() || !AmComEq::is_product(
            pp.poly_ck.g.len(),
            d0,
            l,
        ) {
            return Err(());
        }
        let n = CompDLEq::rescale_size(pp.poly_ck.g.len());
        proof {
            comp_dl_eq::lemma_rescaled_is(pp.poly_ck.g.len() as nat, n as nat);
        }
        let k = proof.commitments.len();
        match CompDLEq::checked_pow2(k) {
            Some(m) => {
                if n % 2 != 0 || n / 2 != m {
                    proof {
                        assert(pow2((k + 1) as nat) == 2 * pow2(k as nat));
                    }
                    return Err(());
                }
                proof {
                    assert(pow2((k + 1) as nat) == 2 * pow2(k as nat));
                }
            },
            None => {
                proof {
                    assert(pow2((k + 1) as nat) == 2 * pow2(k as nat));
                }
                return Err(());
            },
        }
        let xs = AmComEq::compute_powers_of_x(instance, transcript);
        assert(xs@.len() == scalars_value(xs@).len());
        let e = AmComEq::compute_e(&proof.ace.commitment, transcript);
        let (q, i, w) = match Self::prepare_for_comp_dl_eq(pp, instance, &proof.ace, &xs, e) {
            Ok(x) => x,
            Err(_) => return Err(()),
        };
        assert(q.g_hat@.len() == points_view(q.g_hat@).len());
        proof {
            let d = d0 as int;
            let li = l as int;
            assert(d * li == xs@.len() * d) by (nonlinear_arith)
                requires
                    xs@.len() == li,
            ;
        }
        let cde = comp_dl_eq::Proof {
            commitments: crate::slices::take_range(&proof.commitments, 0, proof.commitments.len()),
            z: w.z,
        };
        assert(proof.commitments@.subrange(0, proof.commitments.len() as int) =~= proof.commitments@);
        assert(points_view(q.g@) == points_view(pp.poly_ck.g@));
        CompDLEq::verify_proof(&q, &i, &cde, transcript)
    }

    /// Proves the instance with the masks `randomness`: the amortized
    /// protocol's first message and blinding responses, then the folding
    /// rounds on its relation in place of `z`. An error when a mask does not
    /// fit its basis, or when there is a round to make and `l * d0` is not a
    /// power of two.
    #[verifier::rlimit(60)]
    pub fn creat_proof_with_combined(
        pp: &am_com_eq::PublicParameters,
        instance: &am_com_eq::Instance,
        witness: &am_com_eq::Witness,
        randomness: &am_com_eq::Randomness,
        transcript: &mut SHA3Base,
    ) -> (r: Result<Proof, ()>)
        requires
            randomness.r.len() <= usize::MAX / 2,
            pp.poly_ck.g.len() <= usize::MAX / 2,
        ensures
            r is Err <==> !({
                &&& randomness.r.len() == pp.poly_ck.g.len()
                &&& randomness.r.len() == pp.coeff_ck.g.len() * instance.c_hat.len()
                &&& randomness.delta.len() == pp.poly_ck.h.len()
                &&& randomness.gamma.len() == pp.coeff_ck.h.len()
                &&& randomness.r@.len() == concat_rows(witness.w@).len()
                &&& randomness.delta.len() == witness.alpha.len()
                &&& witness.beta.len() == instance.c_hat.len()
                &&& forall|i: int| 0 <= i < witness.beta.len() ==> #[trigger] witness.beta@[i]@.len()
                    == pp.coeff_ck.h.len()
            }),
            r matches Ok(p) ==> {
                let lab = old(transcript).use_label;
                let x = instance_challenge(old(transcript).bytes@, lab, instance);
                let xs = powers_of(x.value(), instance.c_hat.len() as nat);
                let e = commitment_challenge(limbs_be(x.limbs), lab, p.ace.commitment);
                let n = comp_dl_eq::rescaled(pp.poly_ck.g.len() as nat);
                let zr = am_com_eq::respond(
                    scalars_value(randomness.r@),
                    e.value(),
                    scalars_value(concat_rows(witness.w@)),
                );
                &&& (p.ace.commitment.a@, p.ace.commitment.a_hat@) == am_com_eq::commitment_spec(
                    pp,
                    xs,
                    randomness,
                )
                &&& scalars_value(p.ace.omega@) == am_com_eq::respond(
                    scalars_value(randomness.delta@),
                    e.value(),
                    scalars_value(witness.alpha@),
                )
                &&& scalars_value(p.ace.omega_hat@) == am_com_eq::respond(
                    scalars_value(randomness.gamma@),
                    e.value(),
                    Seq::new(
                        pp.coeff_ck.h.len() as nat,
                        |j: int| am_com_eq::column_sum(witness.beta@, xs, j, xs.len()),
                    ),
                )
                &&& pp.poly_ck.g.len() <= THRESHOLD ==> p.commitments.len() == 0 && scalars_value(
                    p.ace.z@,
                ) == comp_dl_eq::padded(zr, n)
                &&& pp.poly_ck.g.len() > THRESHOLD ==> pow2((p.commitments.len() + 1) as nat) == n
                    && p.ace.z.len() == THRESHOLD
                &&& pp.poly_ck.g.len() > THRESHOLD ==> {
                    let chs = comp_dl_eq::round_challenges(limbs_be(e.limbs), lab, p.commitments@);
                    let zp = comp_dl_eq::padded(zr, n);
                    &&& scalars_value(p.ace.z@) == comp_dl_eq::witness_after(zp, chs)
                    &&& forall|k: int|
                        0 <= k < p.commitments@.len() ==> #[trigger] comp_dl_eq::commitment_views(
                            p.commitments@[k],
                        ) == comp_dl_eq::cross_terms(
                            comp_dl_eq::bases_after(
                                comp_dl_eq::padded_bases(points_view(pp.poly_ck.g@), n),
                                chs.subrange(0, k),
                            ),
                            comp_dl_eq::bases_after(
                                comp_dl_eq::padded_bases(scaled_bases(pp.coeff_ck.g@, xs), n),
                                chs.subrange(0, k),
                            ),
                            comp_dl_eq::witness_after(zp, chs.subrange(0, k)),
                        )
                }
                &&& final(transcript).bytes@ == comp_dl_eq::state_after(
                    limbs_be(e.limbs),
                    lab,
                    p.commitments@,
                )
                &&& final(transcript).use_label == lab
            },
    {
        let xs = AmComEq::compute_powers_of_x(instance, transcript);
        assert(xs@.len() == scalars_value(xs@).len());
        let commitment = match AmComEq::create_commitment_from_random(pp, &xs, randomness) {
            Ok(c) => c,
            Err(_) => return Err(()),
        };
        let e = AmComEq::compute_e(&commitment, transcript);
        let ace = match AmComEq::create_proof_with_assignment(
            pp,
            witness,
            randomness,
            &commitment,
            &xs,
            e,
        ) {
            Ok(p) => p,
            Err(_) => return Err(()),
        };
        assert(ace.omega@.len() == scalars_value(ace.omega@).len());
        assert(ace.omega_hat@.len() == scalars_value(ace.omega_hat@).len());
        assert(ace.z@.len() == scalars_value(ace.z@).len());
        let (q, i, w) = match Self::prepare_for_comp_dl_eq(pp, instance, &ace, &xs, e) {
            Ok(x) => x,
            Err(_) => return Err(()),
        };
        assert(q.g_hat@.len() == points_view(q.g_hat@).len());
        proof {
            let d0 = pp.coeff_ck.g.len() as int;
            let l = instance.c_hat.len() as int;
            assert(d0 * l == xs@.len() * d0) by (nonlinear_arith)
                requires
                    xs@.len() == l,
            ;
        }
        let cde = match CompDLEq::create_proof(&q, &i, &w, transcript) {
            Ok(p) => p,
            Err(_) => return Err(()),
        };
        Ok(Proof {
            commitments: cde.commitments,
            ace: am_com_eq::Proof {
                commitment,
                z: cde.z,
                omega: ace.omega,
                omega_hat: ace.omega_hat,
            },
        })
    }
}

} // verus!
