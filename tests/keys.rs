use ark_bn254::{Fr, G1Affine, G1Projective, G2Affine};
use ark_ec::{AffineRepr, CurveGroup};
use ark_ff::{BigInt, Field, PrimeField};
use ark_std::UniformRand;
use cc_link::am_com_eq::{CommittingKey, PublicParameters};
use cc_link::field::{Base, Scalar};
use cc_link::gro::{CCGroth16, QapEvaluation, SetupError, ToxicWaste};
use cc_link::groth16::{BccGroth16, Proof, VerifyingKey};
use cc_link::pairing::G2Point;
use cc_link::group::Point;
use cc_link::solidity::{to_g1_json, Solidity, ToVec};

fn to_point(p: G1Affine) -> Point {
    Point {
        x: Base { limbs: p.x.into_bigint().0 },
        y: Base { limbs: p.y.into_bigint().0 },
        infinity: p.infinity,
    }
}

fn to_g2(p: G2Affine) -> G2Point {
    let b = |f: ark_bn254::Fq| Base { limbs: f.into_bigint().0 };
    G2Point { x0: b(p.x.c0), x1: b(p.x.c1), y0: b(p.y.c0), y1: b(p.y.c1), infinity: p.infinity }
}

fn to_scalar(f: Fr) -> Scalar {
    Scalar { limbs: f.into_bigint().0 }
}

fn toxic<R: ark_std::rand::Rng>(rng: &mut R) -> (ToxicWaste, [Fr; 5]) {
    let v = [Fr::rand(rng), Fr::rand(rng), Fr::rand(rng), Fr::rand(rng), Fr::rand(rng)];
    (
        ToxicWaste {
            alpha: to_scalar(v[0]),
            beta: to_scalar(v[1]),
            gamma: to_scalar(v[2]),
            delta: to_scalar(v[3]),
            eta: to_scalar(v[4]),
        },
        v,
    )
}

#[test]
fn generator_splits_instance_segment() {
    let mut rng = ark_std::test_rng();
    let n_vars = 9;
    let a: Vec<Fr> = (0..n_vars).map(|_| Fr::rand(&mut rng)).collect();
    let b: Vec<Fr> = (0..n_vars).map(|_| Fr::rand(&mut rng)).collect();
    let c: Vec<Fr> = (0..n_vars).map(|_| Fr::rand(&mut rng)).collect();
    let t = Fr::rand(&mut rng);
    let zt = Fr::rand(&mut rng);
    let qap = QapEvaluation {
        a: a.iter().map(|x| to_scalar(*x)).collect(),
        b: b.iter().map(|x| to_scalar(*x)).collect(),
        c: c.iter().map(|x| to_scalar(*x)).collect(),
        zt: to_scalar(zt),
        t: to_scalar(t),
        num_instance_variables: 2,
        m_raw: 4,
    };
    let (tw, [alpha, beta, gamma, delta, eta]) = toxic(&mut rng);
    let g = G1Affine::generator();
    let p = CCGroth16::generate_parameters_with_qap(&qap, 1, 3, &tw, &to_point(g), &to_g2(G2Affine::generator())).unwrap();

    let gi = gamma.inverse().unwrap();
    let di = delta.inverse().unwrap();
    let q = |i: usize, inv: Fr| to_point((g * ((beta * a[i] + alpha * b[i] + c[i]) * inv)).into_affine());
    assert_eq!(p.gamma_abc_g1, vec![q(0, gi), q(1, gi)]);
    assert_eq!(p.ck.batch_g1, vec![q(2, gi)]);
    assert_eq!(p.ck.proof_dependent_g1, vec![q(3, gi), q(4, gi)]);
    assert_eq!(p.l_query, (5..n_vars).map(|i| q(i, di)).collect::<Vec<_>>());
    assert_eq!(p.a_query[4], to_point((g * a[4]).into_affine()));
    assert_eq!(p.b_g1_query[8], to_point((g * b[8]).into_affine()));
    assert_eq!(p.h_query.len(), 3);
    assert_eq!(p.h_query[2], to_point((g * (zt * di * t * t)).into_affine()));
    assert_eq!(p.alpha_g1, to_point((g * alpha).into_affine()));
    assert_eq!(p.delta_eta_g1, to_point((g * (di * eta)).into_affine()));
    assert_eq!(p.ck.gamma_eta_g1, to_point((g * (gi * eta)).into_affine()));
    let h = G2Affine::generator();
    assert_eq!(p.delta_g2, to_g2((h * delta).into_affine()));
    assert_eq!(p.b_g2_query[3], to_g2((h * b[3]).into_affine()));
    let vk = p.verifying_key();
    assert_eq!(vk.gamma_abc_g1, p.gamma_abc_g1);
    assert_eq!(vk.beta_g2, to_g2((h * beta).into_affine()));
}

#[test]
fn generator_errors() {
    let mut rng = ark_std::test_rng();
    let qap = QapEvaluation {
        a: vec![Scalar::one(); 4],
        b: vec![Scalar::one(); 4],
        c: vec![Scalar::one(); 4],
        zt: Scalar::one(),
        t: Scalar::from_u64(3),
        num_instance_variables: 1,
        m_raw: 2,
    };
    let (mut tw, _) = toxic(&mut rng);
    let g = Point::generator();
    assert_eq!(
        CCGroth16::generate_parameters_with_qap(&qap, 1, 4, &tw, &g, &to_g2(G2Affine::generator())).err(),
        Some(SetupError::ShapeMismatch)
    );
    assert_eq!(
        CCGroth16::generate_parameters_with_qap(&qap, 3, 2, &tw, &g, &to_g2(G2Affine::generator())).err(),
        Some(SetupError::ShapeMismatch)
    );
    tw.delta = Scalar::zero();
    assert_eq!(
        CCGroth16::generate_parameters_with_qap(&qap, 1, 2, &tw, &g, &to_g2(G2Affine::generator())).err(),
        Some(SetupError::UnexpectedIdentity)
    );
}

#[test]
fn h_query_scalars_are_powers() {
    let s = CCGroth16::h_query_scalars(3, &Scalar::from_u64(2), &Scalar::from_u64(5), &Scalar::from_u64(7));
    assert_eq!(s, vec![Scalar::from_u64(35), Scalar::from_u64(70), Scalar::from_u64(140)]);
}

#[test]
fn inverse_of_zero_is_none() {
    assert_eq!(Scalar::zero().inverse(), None);
    assert_eq!(Scalar::from_u64(2).inverse(), Some(to_scalar(Fr::from(2u64).inverse().unwrap())));
}

#[test]
fn solidity_renders_decimal() {
    assert_eq!(Scalar::zero().to_solidity(), vec!["0".to_string()]);
    assert_eq!(Scalar::from_u64(1234).to_solidity(), vec!["1234".to_string()]);
    assert_eq!(Point::generator().to_solidity(), vec!["1".to_string(), "2".to_string()]);
    let v = vec![Point::generator(), Point::identity()];
    assert_eq!(
        v.to_solidity(),
        vec!["1".to_string(), "2".to_string(), "0".to_string(), "0".to_string()]
    );
    let minus_one = to_scalar(-Fr::from(1u64));
    assert_eq!(minus_one.to_solidity(), vec![(-Fr::from(1u64)).to_string()]);
}

#[test]
fn to_vec_and_json() {
    assert_eq!(Point::generator().to_vec(), vec!["1".to_string(), "2".to_string()]);
    let mut rng = ark_std::test_rng();
    let p = G1Projective::rand(&mut rng).into_affine();
    let j = to_g1_json(&vec![to_point(p)]);
    assert_eq!(j[0].X, p.x.to_string());
    assert_eq!(j[0].Y, p.y.to_string());
}

#[test]
fn public_parameters_render_in_verifier_order() {
    let g = Point::generator();
    let pp = PublicParameters {
        poly_ck: CommittingKey { g: vec![g; 4], h: vec![g; 1] },
        coeff_ck: CommittingKey { g: vec![g; 2], h: vec![Point::identity(); 3] },
    };
    let s = pp.to_solidity();
    assert_eq!(&s[..4], &["2".to_string(), "2".to_string(), "1".to_string(), "3".to_string()]);
    assert_eq!(&s[4..6], &["1".to_string(), "2".to_string()]);
    assert_eq!(s.len(), 4 + 2 + 2 * (4 + 1) + 2 * (2 + 3));
    assert_eq!(s[s.len() - 1], "0".to_string());
}

#[test]
fn groth16_pairing_check_on_a_consistent_proof() {
    let mut rng = ark_std::test_rng();
    let g = G1Affine::generator();
    let h = G2Affine::generator();
    let (alpha, beta, gamma, delta) = (Fr::rand(&mut rng), Fr::rand(&mut rng), Fr::rand(&mut rng), Fr::rand(&mut rng));
    let (k0, k1) = (Fr::rand(&mut rng), Fr::rand(&mut rng));
    let m: Vec<Fr> = (0..8).map(|_| Fr::rand(&mut rng)).collect();
    let d = Fr::rand(&mut rng);
    let pt = |x: Fr| to_point((g * x).into_affine());
    let vk = VerifyingKey {
        alpha_g1: pt(alpha),
        beta_g2: to_g2((h * beta).into_affine()),
        gamma_g2: to_g2((h * gamma).into_affine()),
        delta_g2: to_g2((h * delta).into_affine()),
        gamma_abc_g1: vec![pt(k0), pt(k1)],
    };
    let list: Vec<Point> = m.iter().map(|x| pt(*x)).collect();
    let pd = pt(d);
    let tau = Fr::new(BigInt::new(BccGroth16::inputs_challenge(&list, &pd).limbs));
    let mut root = Fr::from(0u64);
    let mut p = Fr::from(1u64);
    for x in &m {
        root += *x * p;
        p *= tau;
    }
    let ic = k0 + root + d + tau * k1;
    let (a, b) = (Fr::rand(&mut rng), Fr::rand(&mut rng));
    let c = (a * b - alpha * beta - ic * gamma) * delta.inverse().unwrap();
    let proof = Proof { a: pt(a), b: to_g2((h * b).into_affine()), c: pt(c) };
    let mut inputs = list.clone();
    inputs.push(pd);
    assert_eq!(BccGroth16::verify_proof(&vk, &proof, &inputs), Ok(true));

    let tampered = Proof { c: pt(c + Fr::from(1u64)), ..proof };
    assert_eq!(BccGroth16::verify_proof(&vk, &tampered, &inputs), Ok(false));

    let mut wrong = inputs.clone();
    wrong[3] = pt(m[3] + Fr::from(1u64));
    assert_eq!(BccGroth16::verify_proof(&vk, &proof, &wrong), Ok(false));
    assert!(BccGroth16::verify_proof(&vk, &proof, &inputs[..1].to_vec()).is_err());
}

#[test]
fn groth16_degenerate_points_do_not_panic() {
    let mut rng = ark_std::test_rng();
    let zero_g1 = Point { x: Base::zero(), y: Base::zero(), infinity: false };
    let zero_g2 = G2Point { x0: Base::zero(), x1: Base::zero(), y0: Base::zero(), y1: Base::zero(), infinity: false };
    let vk = VerifyingKey {
        alpha_g1: zero_g1,
        beta_g2: zero_g2,
        gamma_g2: zero_g2,
        delta_g2: zero_g2,
        gamma_abc_g1: vec![zero_g1, zero_g1],
    };
    let proof = Proof { a: zero_g1, b: zero_g2, c: zero_g1 };
    let inputs = vec![to_point(G1Projective::rand(&mut rng).into_affine()), zero_g1];
    assert!(BccGroth16::verify_proof(&vk, &proof, &inputs).is_err());
}
