use ark_bn254::{Fr, G1Affine, G1Projective};
use ark_ec::{AffineRepr, CurveGroup};
use ark_ff::{BigInt, PrimeField};
use ark_std::UniformRand;
use cc_link::aggregation::AggregationTree;
use cc_link::cm::CM;
use cc_link::field::{Base, Scalar};
use cc_link::group::{msm, points_to_be, Point};
use cc_link::groth16::BccGroth16;
use cc_link::pedersen::{BatchCommitment, Pedersen};
use cc_link::solidity::Solidity;
use cc_link::transcript::SHA3Base;
use sha3::Digest;

fn to_point(p: G1Affine) -> Point {
    Point {
        x: Base { limbs: p.x.into_bigint().0 },
        y: Base { limbs: p.y.into_bigint().0 },
        infinity: p.infinity,
    }
}

fn to_ark(p: &Point) -> G1Affine {
    if p.infinity {
        G1Affine::identity()
    } else {
        G1Affine::new_unchecked(
            ark_bn254::Fq::new(BigInt::new(p.x.limbs)),
            ark_bn254::Fq::new(BigInt::new(p.y.limbs)),
        )
    }
}

fn to_scalar(f: Fr) -> Scalar {
    Scalar { limbs: f.into_bigint().0 }
}

fn to_fr(s: &Scalar) -> Fr {
    Fr::new(BigInt::new(s.limbs))
}

fn naive_sum(list: &[Fr], tau: Fr) -> Fr {
    let mut acc = Fr::from(0u64);
    let mut p = Fr::from(1u64);
    for x in list {
        acc += *x * p;
        p *= tau;
    }
    acc
}

#[test]
fn scalar_arithmetic_exact_values() {
    let a = Scalar::from_u64(7);
    let b = Scalar::from_u64(5);
    assert_eq!(a.add(&b), Scalar::from_u64(12));
    assert_eq!(a.mul(&b), Scalar::from_u64(35));
    assert_eq!(a.sub(&b), Scalar::from_u64(2));
    assert_eq!(b.sub(&a), to_scalar(-Fr::from(2u64)));
    let big = to_scalar(-Fr::from(1u64));
    assert_eq!(big.add(&Scalar::one()), Scalar::zero());
    assert_eq!(big.mul(&big), Scalar::one());
}

#[test]
fn scalar_bytes_round_trip() {
    let s = Scalar::from_u64(0x0102);
    let bytes = s.to_be_bytes();
    assert_eq!(bytes.len(), 32);
    assert_eq!(bytes[30], 1);
    assert_eq!(bytes[31], 2);
    assert_eq!(Scalar::from_be_bytes_mod_order(&bytes), s);
    assert_eq!(Scalar::from_be_bytes_mod_order(&vec![1u8]), Scalar::one());
    let all = vec![0xffu8; 32];
    assert_eq!(Scalar::from_be_bytes_mod_order(&all), to_scalar(Fr::from_be_bytes_mod_order(&all)));
}

#[test]
fn compute_root_matches_power_sum() {
    let mut rng = ark_std::test_rng();
    for len in [1usize, 2, 3, 5, 8, 16, 17, 100] {
        for _ in 0..50 {
            let list: Vec<Fr> = (0..len).map(|_| Fr::rand(&mut rng)).collect();
            let tau = Fr::rand(&mut rng);
            let v: Vec<Scalar> = list.iter().map(|x| to_scalar(*x)).collect();
            assert_eq!(v.compute_root(&to_scalar(tau)), to_scalar(naive_sum(&list, tau)));
        }
    }
}

#[test]
fn compute_root_small_values() {
    let list: Vec<Scalar> = vec![Scalar::one(); 4];
    assert_eq!(list.compute_root(&Scalar::from_u64(2)), Scalar::from_u64(15));
    let three: Vec<Scalar> = vec![Scalar::zero(), Scalar::zero(), Scalar::one()];
    assert_eq!(three.compute_root(&Scalar::one()), Scalar::one());
    assert_eq!(three.compute_root(&Scalar::from_u64(2)), Scalar::from_u64(4));
    let empty: Vec<Scalar> = Vec::new();
    assert_eq!(empty.compute_root(&Scalar::from_u64(2)), Scalar::zero());
}

#[test]
fn compute_root_on_points() {
    let mut rng = ark_std::test_rng();
    let g: Vec<G1Affine> = (0..5).map(|_| G1Projective::rand(&mut rng).into_affine()).collect();
    let tau = Fr::rand(&mut rng);
    let pts: Vec<Point> = g.iter().map(|p| to_point(*p)).collect();
    let mut expected = G1Projective::default();
    let mut p = Fr::from(1u64);
    for x in &g {
        expected += *x * p;
        p *= tau;
    }
    assert_eq!(pts.compute_root(&to_scalar(tau)), to_point(expected.into_affine()));
}

#[test]
fn aggregate_matches_direct_power_sum() {
    let mut rng = ark_std::test_rng();
    let tau = Fr::rand(&mut rng);
    for n in 1..=64usize {
        let cms: Vec<G1Affine> = (0..n).map(|_| G1Projective::rand(&mut rng).into_affine()).collect();
        let pts: Vec<Point> = cms.iter().map(|p| to_point(*p)).collect();
        let (agg, next) = Pedersen::aggregate(&pts, &to_scalar(tau), None);
        let mut direct = G1Projective::default();
        let mut p = tau;
        for c in &cms {
            direct += *c * p;
            p *= tau;
        }
        assert_eq!(agg, to_point(direct.into_affine()));
        assert_eq!(next, to_scalar(p));
    }
}

#[test]
fn scalar_aggregate_chains() {
    let mut rng = ark_std::test_rng();
    let tau = to_scalar(Fr::rand(&mut rng));
    let rows: Vec<Vec<Scalar>> =
        (0..5).map(|_| (0..3).map(|_| to_scalar(Fr::rand(&mut rng))).collect()).collect();
    let (whole, end) = Pedersen::scalar_aggregate(&rows, &tau, None);
    let (first, mid) = Pedersen::scalar_aggregate(&rows[..2].to_vec(), &tau, None);
    let (second, end2) = Pedersen::scalar_aggregate(&rows[2..].to_vec(), &tau, Some(mid));
    assert_eq!(end, end2);
    for c in 0..3 {
        assert_eq!(whole[c], first[c].add(&second[c]));
    }
    let t = to_fr(&tau);
    let expected = to_fr(&rows[0][1]) * t + to_fr(&rows[1][1]) * t * t;
    assert_eq!(first[1], to_scalar(expected));
}

#[test]
fn pedersen_commit_and_challenge() {
    let mut rng = ark_std::test_rng();
    let key: Vec<G1Affine> = (0..3).map(|_| G1Projective::rand(&mut rng).into_affine()).collect();
    let m: Vec<Fr> = (0..3).map(|_| Fr::rand(&mut rng)).collect();
    let pts: Vec<Point> = key.iter().map(|p| to_point(*p)).collect();
    let ms: Vec<Scalar> = m.iter().map(|x| to_scalar(*x)).collect();
    let expected = (key[0] * m[0] + key[1] * m[1] + key[2] * m[2]).into_affine();
    assert_eq!(Pedersen::commit(&pts, &ms), to_point(expected));
    assert_eq!(msm(&pts, &ms), to_point(expected));
    let rows = vec![ms.clone(), ms.clone()];
    assert_eq!(Pedersen::batch_commit(&pts, &rows), vec![to_point(expected); 2]);

    let ch = Pedersen::challenge(&ms, &pts, &pts[0]);
    let mut h = sha3::Keccak256::new();
    for x in &m {
        h.update(x.into_bigint().to_bytes_be_vec());
    }
    for p in key.iter().chain(std::iter::once(&key[0])) {
        h.update(p.x.into_bigint().to_bytes_be_vec());
        h.update(p.y.into_bigint().to_bytes_be_vec());
    }
    let digest = h.finalize();
    assert_eq!(ch, to_scalar(Fr::from_be_bytes_mod_order(&digest)));
}

trait BeBytes {
    fn to_bytes_be_vec(&self) -> Vec<u8>;
}

impl BeBytes for BigInt<4> {
    fn to_bytes_be_vec(&self) -> Vec<u8> {
        ark_ff::BigInteger::to_bytes_be(self)
    }
}

#[test]
fn transcript_challenge_restarts_from_its_bytes() {
    let mut t = SHA3Base::new(true);
    t.append("m", &[1u8, 2, 3]);
    assert_eq!(t.bytes, vec![b'm', 1, 2, 3]);
    let c = t.challenge_scalar("c");
    let digest = sha3::Keccak256::digest(&[b'm', 1, 2, 3, b'c']);
    assert_eq!(c, to_scalar(Fr::from_be_bytes_mod_order(&digest)));
    assert_eq!(t.bytes, c.to_be_bytes());

    let mut u = SHA3Base::new(false);
    u.append("m", &[1u8, 2, 3]);
    assert_eq!(u.bytes, vec![1u8, 2, 3]);
}

#[test]
fn point_operations_match_curve() {
    let mut rng = ark_std::test_rng();
    let a = G1Projective::rand(&mut rng).into_affine();
    let b = G1Projective::rand(&mut rng).into_affine();
    let s = Fr::rand(&mut rng);
    assert_eq!(to_point(a).add(&to_point(b)), to_point((a + b).into_affine()));
    assert_eq!(to_point(a).scale(&to_scalar(s)), to_point((a * s).into_affine()));
    assert_eq!(Point::generator(), to_point(G1Affine::generator()));
    assert_eq!(Point::identity(), to_point(G1Affine::identity()));
    assert!(to_point(a).equals(&to_point(a)));
    assert!(!to_point(a).equals(&to_point(b)));
    let bytes = points_to_be(&vec![Point::generator()]);
    assert_eq!(bytes.len(), 64);
    assert_eq!(bytes[31], 1);
    assert_eq!(bytes[63], 2);
}

#[test]
fn prepare_inputs_combines_root_and_key() {
    let mut rng = ark_std::test_rng();
    let gamma: Vec<G1Affine> = (0..2).map(|_| G1Projective::rand(&mut rng).into_affine()).collect();
    let inputs: Vec<G1Affine> = (0..4).map(|_| G1Projective::rand(&mut rng).into_affine()).collect();
    let gp: Vec<Point> = gamma.iter().map(|p| to_point(*p)).collect();
    let ip: Vec<Point> = inputs.iter().map(|p| to_point(*p)).collect();
    let list = ip[..3].to_vec();
    let tau = BccGroth16::inputs_challenge(&list, &ip[3]);
    let root = list.compute_root(&tau);
    let t = to_fr(&tau);
    let expected = (gamma[0] + to_ark(&root) + inputs[3] + gamma[1] * t).into_affine();
    assert_eq!(BccGroth16::prepare_inputs(&gp, &ip), Ok(to_point(expected)));
    assert!(BccGroth16::prepare_inputs(&gp, &ip[..1].to_vec()).is_err());
    assert!(BccGroth16::prepare_inputs(&gp[..1].to_vec(), &ip).is_err());
}

#[test]
fn cm_folds_entry_by_entry() {
    let a = CM { msg: Scalar::from_u64(3), rand: Scalar::from_u64(4) };
    let b = CM { msg: Scalar::from_u64(10), rand: Scalar::from_u64(1) };
    assert_eq!(a.add(&b), CM { msg: Scalar::from_u64(13), rand: Scalar::from_u64(5) });
    assert_eq!(b.sub(&a).msg, Scalar::from_u64(7));
    assert_eq!(b.sub(&a).rand, to_scalar(-Fr::from(3u64)));
    assert_eq!(a.mul(&Scalar::from_u64(2)), CM { msg: Scalar::from_u64(6), rand: Scalar::from_u64(8) });
    let mut c = a;
    c.add_assign(&b);
    c.sub_assign(&b);
    assert_eq!(c, a);
    assert!(CM::zero().is_zero());
    assert!(!a.is_zero());
    let list = vec![a, b, a, b];
    let root = list.compute_root(&Scalar::from_u64(2));
    let msgs: Vec<Scalar> = list.iter().map(|x| x.msg).collect();
    let rands: Vec<Scalar> = list.iter().map(|x| x.rand).collect();
    assert_eq!(root.msg, msgs.compute_root(&Scalar::from_u64(2)));
    assert_eq!(root.rand, rands.compute_root(&Scalar::from_u64(2)));
    // 3 + 10 * 2 + 3 * 4 + 10 * 8 = 115
    assert_eq!(root.msg, Scalar::from_u64(115));
}

#[test]
fn test_commitment_ops() {
    let coeff = Scalar::from_u64(3);
    let cm1 = CM { msg: Scalar::from_u64(1), rand: Scalar::from_u64(1) };
    let cm2 = CM { msg: Scalar::from_u64(2), rand: Scalar::from_u64(2) };
    let cm_list = vec![cm1, cm2, cm1, cm2];

    let add = cm1.add(&cm2);
    assert_eq!(add, CM { msg: Scalar::from_u64(3), rand: Scalar::from_u64(3) });
    let sub = cm1.sub(&cm2);
    let minus_one = to_scalar(-Fr::from(1u64));
    assert_eq!(sub, CM { msg: minus_one, rand: minus_one });
    let mul = cm1.mul(&coeff);
    assert_eq!(mul, CM { msg: Scalar::from_u64(3), rand: Scalar::from_u64(3) });
    let mut sum = CM::zero();
    for c in &cm_list {
        sum.add_assign(c);
    }
    assert_eq!(sum, CM { msg: Scalar::from_u64(6), rand: Scalar::from_u64(6) });
}

#[test]
fn solidity() {
    let mut rng = ark_std::test_rng();
    let g1_affine = G1Projective::rand(&mut rng).into_affine();
    let p = to_point(g1_affine);
    let s = p.to_solidity();
    assert_eq!(s.len(), 2);
    assert_eq!(s[0], g1_affine.x.to_string());
}

#[test]
fn batch_of_eight_commitments_scenario() {
    let mut rng = ark_std::test_rng();
    let ck: Vec<Point> = (0..2).map(|_| to_point(G1Projective::rand(&mut rng).into_affine())).collect();
    let gamma: Vec<Point> = (0..2).map(|_| to_point(G1Projective::rand(&mut rng).into_affine())).collect();
    let pd = to_point(G1Projective::rand(&mut rng).into_affine());
    let messages = vec![Scalar::from_u64(100); 8];
    let opens: Vec<Scalar> = (0..8).map(|_| to_scalar(Fr::rand(&mut rng))).collect();

    let cms = BatchCommitment::commit(&ck, &messages, &opens);
    assert_eq!(cms.len(), 8);
    let expected = (to_ark(&ck[0]) * Fr::from(100u64) + to_ark(&ck[1]) * to_fr(&opens[5])).into_affine();
    assert_eq!(cms[5], to_point(expected));

    let mut inputs = cms.clone();
    inputs.push(pd);
    let g_ic = BccGroth16::prepare_inputs(&gamma, &inputs).unwrap();

    let mut corrupted = messages.clone();
    corrupted[3] = Scalar::from_u64(101);
    let mut bad_inputs = BatchCommitment::commit(&ck, &corrupted, &opens);
    assert_ne!(bad_inputs[3], cms[3]);
    bad_inputs.push(pd);
    assert_ne!(BccGroth16::prepare_inputs(&gamma, &bad_inputs).unwrap(), g_ic);
}
