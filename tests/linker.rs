use ark_bn254::{Fr, G1Affine, G1Projective};
use ark_ec::{AffineRepr, CurveGroup};
use ark_ff::{BigInt, PrimeField};
use ark_std::UniformRand;
use cc_link::am_com_eq::{AmComEq, CommittingKey, Instance, PublicParameters, Randomness, Witness};
use cc_link::comp_am_com_eq::CompAmComEq;
use cc_link::comp_dl_eq;
use cc_link::comp_dl_eq::CompDLEq;
use cc_link::field::{Base, Scalar};
use cc_link::group::Point;
use cc_link::transcript::SHA3Base;

fn to_point(p: G1Affine) -> Point {
    Point {
        x: Base { limbs: p.x.into_bigint().0 },
        y: Base { limbs: p.y.into_bigint().0 },
        infinity: p.infinity,
    }
}

fn to_ark(p: &Point) -> G1Affine {
    if p.infinity {
        G1Affine::identity()
    } else {
        G1Affine::new_unchecked(
            ark_bn254::Fq::new(BigInt::new(p.x.limbs)),
            ark_bn254::Fq::new(BigInt::new(p.y.limbs)),
        )
    }
}

fn to_scalar(f: Fr) -> Scalar {
    Scalar { limbs: f.into_bigint().0 }
}

fn to_fr(s: &Scalar) -> Fr {
    Fr::new(BigInt::new(s.limbs))
}

fn rand_points<R: ark_std::rand::Rng>(n: usize, rng: &mut R) -> Vec<Point> {
    (0..n).map(|_| to_point(G1Projective::rand(rng).into_affine())).collect()
}

fn rand_scalars<R: ark_std::rand::Rng>(n: usize, rng: &mut R) -> Vec<Scalar> {
    (0..n).map(|_| to_scalar(Fr::rand(rng))).collect()
}

fn commit(g: &[Point], m: &[Scalar], h: &[Point], b: &[Scalar]) -> G1Projective {
    let mut acc = G1Projective::default();
    for (p, s) in g.iter().zip(m) {
        acc += to_ark(p) * to_fr(s);
    }
    for (p, s) in h.iter().zip(b) {
        acc += to_ark(p) * to_fr(s);
    }
    acc
}

fn linker_setup<R: ark_std::rand::Rng>(
    l: usize,
    d0: usize,
    d1: usize,
    d2: usize,
    rng: &mut R,
) -> (PublicParameters, Instance, Witness) {
    let g = rand_points(l * d0, rng);
    let h = rand_points(d1, rng);
    let g_hat = rand_points(d0, rng);
    let h_hat = rand_points(d2, rng);
    let w: Vec<Vec<Scalar>> = (0..l).map(|_| rand_scalars(d0, rng)).collect();
    let alpha = rand_scalars(d1, rng);
    let beta: Vec<Vec<Scalar>> = (0..l).map(|_| rand_scalars(d2, rng)).collect();
    let w_flat: Vec<Scalar> = w.iter().flatten().cloned().collect();
    let c = to_point(commit(&g, &w_flat, &h, &alpha).into_affine());
    let c_hat = w
        .iter()
        .zip(&beta)
        .map(|(w_i, beta_i)| to_point(commit(&g_hat, w_i, &h_hat, beta_i).into_affine()))
        .collect();
    (
        PublicParameters {
            poly_ck: CommittingKey { g, h },
            coeff_ck: CommittingKey { g: g_hat, h: h_hat },
        },
        Instance { c, c_hat },
        Witness { w, alpha, beta },
    )
}

fn randomness<R: ark_std::rand::Rng>(pp: &PublicParameters, rng: &mut R) -> Randomness {
    Randomness {
        r: rand_scalars(pp.poly_ck.g.len(), rng),
        delta: rand_scalars(pp.poly_ck.h.len(), rng),
        gamma: rand_scalars(pp.coeff_ck.h.len(), rng),
    }
}

#[test]
fn simple_am_com_eq_scenario() {
    let mut rng = ark_std::test_rng();
    let (pp, instance, witness) = linker_setup(2, 2, 2, 2, &mut rng);
    let rnd = randomness(&pp, &mut rng);

    let mut transcript = SHA3Base::new(false);
    let proof = AmComEq::create_proof(&pp, &instance, &witness, &rnd, &mut transcript)
        .expect("proof failed");

    let mut transcript = SHA3Base::new(false);
    assert!(AmComEq::verify_proof(&pp, &instance, &proof, &mut transcript).unwrap());
}

#[test]
fn comp_am_com_eq_scenario() {
    let mut rng = ark_std::test_rng();
    for n in 1..=3 {
        let l = 1 << n;
        let (pp, instance, witness) = linker_setup(l, 2, 2, 2, &mut rng);
        let rnd = randomness(&pp, &mut rng);

        let mut transcript = SHA3Base::new(true);
        let proof =
            CompAmComEq::creat_proof_with_combined(&pp, &instance, &witness, &rnd, &mut transcript)
                .expect("proof failed");
        assert_eq!(proof.ace.z.len(), 2);
        assert_eq!(1usize << (proof.commitments.len() + 1), l * 2);

        let mut transcript = SHA3Base::new(true);
        assert!(CompAmComEq::verify_proof(&pp, &instance, &proof, &mut transcript).unwrap());
    }
}

#[test]
fn am_com_eq_valid_witness_for_each_shape() {
    let mut rng = ark_std::test_rng();
    for l in [1usize, 2, 4, 8] {
        for d0 in 1..=3 {
            for d1 in 1..=3 {
                for d2 in 1..=3 {
                    let (pp, instance, witness) = linker_setup(l, d0, d1, d2, &mut rng);
                    let rnd = randomness(&pp, &mut rng);
                    let mut t = SHA3Base::new(true);
                    let proof = AmComEq::create_proof(&pp, &instance, &witness, &rnd, &mut t).unwrap();
                    let mut t = SHA3Base::new(true);
                    assert!(AmComEq::verify_proof(&pp, &instance, &proof, &mut t).unwrap());
                }
            }
        }
    }
}

#[test]
fn am_com_eq_rejects_wrong_commitment() {
    let mut rng = ark_std::test_rng();
    let (pp, instance, witness) = linker_setup(2, 2, 1, 1, &mut rng);
    let rnd = randomness(&pp, &mut rng);
    let mut t = SHA3Base::new(false);
    let proof = AmComEq::create_proof(&pp, &instance, &witness, &rnd, &mut t).unwrap();
    let mut accepted = 0;
    for _ in 0..100 {
        let other: Vec<Scalar> = rand_scalars(4, &mut rng);
        let c = to_point(commit(&pp.poly_ck.g, &other, &pp.poly_ck.h, &witness.alpha).into_affine());
        let forged = Instance { c, c_hat: instance.c_hat.clone() };
        let mut t = SHA3Base::new(false);
        if AmComEq::verify_proof(&pp, &forged, &proof, &mut t).unwrap() {
            accepted += 1;
        }
    }
    assert_eq!(accepted, 0);
}

#[test]
fn am_com_eq_rejects_tampered_response() {
    let mut rng = ark_std::test_rng();
    let (pp, instance, witness) = linker_setup(2, 2, 1, 1, &mut rng);
    let rnd = randomness(&pp, &mut rng);
    let mut t = SHA3Base::new(false);
    let proof = AmComEq::create_proof(&pp, &instance, &witness, &rnd, &mut t).unwrap();
    for i in 0..proof.z.len() {
        let mut bad = proof.clone();
        bad.z[i] = to_scalar(to_fr(&bad.z[i]) + Fr::from(1u64));
        let mut t = SHA3Base::new(false);
        assert!(!AmComEq::verify_proof(&pp, &instance, &bad, &mut t).unwrap());
    }
    let mut bad = proof.clone();
    bad.commitment.a = to_point((to_ark(&bad.commitment.a) + G1Affine::generator()).into_affine());
    let mut t = SHA3Base::new(false);
    assert!(!AmComEq::verify_proof(&pp, &instance, &bad, &mut t).unwrap());
}

#[test]
fn am_com_eq_shape_errors() {
    let mut rng = ark_std::test_rng();
    let (pp, instance, witness) = linker_setup(2, 2, 1, 1, &mut rng);
    let mut rnd = randomness(&pp, &mut rng);
    rnd.r.pop();
    let mut t = SHA3Base::new(false);
    assert!(AmComEq::create_proof(&pp, &instance, &witness, &rnd, &mut t).is_err());
    let rnd = randomness(&pp, &mut rng);
    let mut t = SHA3Base::new(false);
    let mut proof = AmComEq::create_proof(&pp, &instance, &witness, &rnd, &mut t).unwrap();
    proof.omega.push(Scalar::zero());
    let mut t = SHA3Base::new(false);
    assert!(AmComEq::verify_proof(&pp, &instance, &proof, &mut t).is_err());
}

fn dl_setup<R: ark_std::rand::Rng>(
    n: usize,
    rng: &mut R,
) -> (comp_dl_eq::PublicParameters, comp_dl_eq::Instance, comp_dl_eq::Witness) {
    let g = rand_points(n, rng);
    let g_hat = rand_points(n, rng);
    let z = rand_scalars(n, rng);
    let y = to_point(commit(&g, &z, &[], &[]).into_affine());
    let y_hat = to_point(commit(&g_hat, &z, &[], &[]).into_affine());
    (
        comp_dl_eq::PublicParameters { g, g_hat },
        comp_dl_eq::Instance { y, y_hat },
        comp_dl_eq::Witness { z },
    )
}

#[test]
fn comp_dl_eq_rounds_are_logarithmic() {
    let mut rng = ark_std::test_rng();
    for m in 1..=8 {
        let n = 1usize << m;
        let (pp, instance, witness) = dl_setup(n, &mut rng);
        let mut t = SHA3Base::new(true);
        let proof = CompDLEq::create_proof(&pp, &instance, &witness, &mut t).unwrap();
        assert_eq!(proof.commitments.len(), m - 1);
        assert_eq!(proof.z.len(), 2);
        let mut t = SHA3Base::new(true);
        assert!(CompDLEq::verify_proof(&pp, &instance, &proof, &mut t).unwrap());
    }
}

#[test]
fn comp_dl_eq_pads_the_witness() {
    let mut rng = ark_std::test_rng();
    for n in [3usize, 5, 6] {
        let (pp, instance, witness) = dl_setup(n, &mut rng);
        let padded = CompDLEq::prepare_public_parameters(&pp).unwrap();
        let size = CompDLEq::rescale_size(n);
        assert_eq!(padded.g.len(), size);
        assert_eq!(padded.g[size - 1], Point::generator());
        let w = CompDLEq::prepare_witness(&witness).unwrap();
        assert_eq!(w.z.len(), size);
        assert_eq!(w.z[n], Scalar::zero());
        let mut t = SHA3Base::new(true);
        let proof = CompDLEq::create_proof(&pp, &instance, &witness, &mut t).unwrap();
        assert_eq!(proof.z.len(), 2);
        let mut t = SHA3Base::new(true);
        assert!(CompDLEq::verify_proof(&padded, &instance, &proof, &mut t).unwrap());
    }
}

#[test]
fn comp_dl_eq_short_bases_give_the_padded_witness() {
    let mut rng = ark_std::test_rng();
    let (pp, instance, witness) = dl_setup(1, &mut rng);
    let mut t = SHA3Base::new(true);
    let proof = CompDLEq::create_proof(&pp, &instance, &witness, &mut t).unwrap();
    assert!(proof.commitments.is_empty());
    assert_eq!(proof.z, witness.z);
}

#[test]
fn comp_am_com_eq_rows_not_a_power_of_two() {
    let mut rng = ark_std::test_rng();
    let (pp, instance, witness) = linker_setup(3, 1, 2, 2, &mut rng);
    let rnd = randomness(&pp, &mut rng);
    let mut transcript = SHA3Base::new(true);
    let proof =
        CompAmComEq::creat_proof_with_combined(&pp, &instance, &witness, &rnd, &mut transcript)
            .unwrap();
    let mut transcript = SHA3Base::new(true);
    assert!(CompAmComEq::verify_proof(&pp, &instance, &proof, &mut transcript).unwrap());
}

#[test]
fn comp_dl_eq_shape_mismatch_is_an_error() {
    let mut rng = ark_std::test_rng();
    let (pp, instance, witness) = dl_setup(8, &mut rng);
    let mut t = SHA3Base::new(true);
    let proof = CompDLEq::create_proof(&pp, &instance, &witness, &mut t).unwrap();

    let mut short = proof.clone();
    short.z.pop();
    let mut t = SHA3Base::new(true);
    t.append("m", &[7u8]);
    let before = t.bytes.clone();
    assert!(CompDLEq::verify_proof(&pp, &instance, &short, &mut t).is_err());
    assert_eq!(t.bytes, before);

    let mut uneven = pp.clone();
    uneven.g_hat.pop();
    let mut t = SHA3Base::new(true);
    assert!(CompDLEq::verify_proof(&uneven, &instance, &proof, &mut t).is_err());
    assert!(CompDLEq::prepare_public_parameters(&uneven).is_err());

    let mut extra = proof.clone();
    extra.commitments.push(proof.commitments[0]);
    let mut t = SHA3Base::new(true);
    assert!(CompDLEq::verify_proof(&pp, &instance, &extra, &mut t).is_err());
}

#[test]
fn comp_dl_eq_rejects_tampering() {
    let mut rng = ark_std::test_rng();
    let (pp, instance, witness) = dl_setup(8, &mut rng);
    let mut t = SHA3Base::new(true);
    let proof = CompDLEq::create_proof(&pp, &instance, &witness, &mut t).unwrap();
    let mut bad = proof.clone();
    bad.z[1] = to_scalar(to_fr(&bad.z[1]) + Fr::from(1u64));
    let mut t = SHA3Base::new(true);
    assert!(!CompDLEq::verify_proof(&pp, &instance, &bad, &mut t).unwrap());
    let mut bad = proof.clone();
    bad.commitments[0].left = bad.commitments[0].right;
    let mut t = SHA3Base::new(true);
    assert!(!CompDLEq::verify_proof(&pp, &instance, &bad, &mut t).unwrap());
}

#[test]
fn rescale_size_values() {
    assert_eq!(CompDLEq::rescale_size(0), 1);
    assert_eq!(CompDLEq::rescale_size(1), 1);
    assert_eq!(CompDLEq::rescale_size(3), 4);
    assert_eq!(CompDLEq::rescale_size(1024), 1024);
    assert_eq!(CompDLEq::rescale_size(1025), 2048);
}

#[test]
fn comp_dl_eq_rounds_at_1024() {
    let mut rng = ark_std::test_rng();
    let (pp, instance, witness) = dl_setup(1024, &mut rng);
    let mut t = SHA3Base::new(true);
    let proof = CompDLEq::create_proof(&pp, &instance, &witness, &mut t).unwrap();
    assert_eq!(proof.commitments.len(), 9);
    let mut t = SHA3Base::new(true);
    assert!(CompDLEq::verify_proof(&pp, &instance, &proof, &mut t).unwrap());
}

#[test]
fn comp_dl_eq_witness_length_mismatch_is_an_error() {
    let mut rng = ark_std::test_rng();
    let (pp, instance, mut witness) = dl_setup(6, &mut rng);
    witness.z.pop();
    let mut t = SHA3Base::new(true);
    t.append("m", &[1u8]);
    let before = t.bytes.clone();
    assert!(CompDLEq::create_proof(&pp, &instance, &witness, &mut t).is_err());
    assert_eq!(t.bytes, before);
}

#[test]
fn comp_dl_eq_verifier_pads_like_the_prover() {
    let mut rng = ark_std::test_rng();
    let (pp, instance, witness) = dl_setup(5, &mut rng);
    let mut t = SHA3Base::new(true);
    let proof = CompDLEq::create_proof(&pp, &instance, &witness, &mut t).unwrap();
    assert_eq!(proof.commitments.len(), 2);
    let mut t = SHA3Base::new(true);
    assert!(CompDLEq::verify_proof(&pp, &instance, &proof, &mut t).unwrap());
}
