//! Points of the BN254 group G2 held as plain coordinates, and the pairing
//! check of the batched Groth16 verifier. Scalar multiplication on G2 and the
//! pairing product are delegated to `ark_bn254`; what they return is named by
//! the spec functions below.
use crate::field::{fr_modulus, Base, Scalar};
use crate::group::{g1_mul_of, points_view, Point, PointView};
use ark_ec::pairing::Pairing;
use ark_ec::{AffineRepr, CurveGroup};
use ark_ff::{BigInt, PrimeField};
use ark_std::Zero;
use ark_bn254::{Bn254, Fq, Fq2, Fr, G1Affine, G2Affine};
use vstd::prelude::*;

verus! {

/// A G2 point as plain values: the limbs of `x.c0`, `x.c1`, `y.c0`, `y.c1`,
/// and whether it is the point at infinity.
pub type G2View = (Seq<u64>, Seq<u64>, Seq<u64>, Seq<u64>, bool);

/// The affine scalar multiple `s * p` on G2, as `ark_bn254` computes it.
pub uninterp spec fn g2_mul_of(p: G2View, s: nat) -> G2View;

/// The product `prod_i e(g1[i], g2[i])` tested against the identity of the
/// target group, as `ark_bn254` computes it: nothing when the final
/// exponentiation fails (a zero Miller-loop value).
pub uninterp spec fn pairing_check_of(g1: Seq<PointView>, g2: Seq<G2View>) -> Option<bool>;

/// An affine point of G2, with coordinates `c0 + c1 * u` in the quadratic
/// extension.
#[derive(Clone, Copy, Debug, PartialEq, Eq)]
pub struct G2Point {
    pub x0: Base,
    pub x1: Base,
    pub y0: Base,
    pub y1: Base,
    pub infinity: bool,
}

impl View for G2Point {
    type V = G2View;

    open spec fn view(&self) -> G2View {
        (self.x0.limbs@, self.x1.limbs@, self.y0.limbs@, self.y1.limbs@, self.infinity)
    }
}

/// The views of a list of G2 points.
pub open spec fn g2_views(s: Seq<G2Point>) -> Seq<G2View> {
    s.map_values(|p: G2Point| p@)
}

impl G2Point {
    /// The scalar multiple `s * self`.
    pub fn scale(&self, s: &Scalar) -> (r: G2Point)
        ensures
            r@ == g2_mul_of(self@, s.value()),
    {
        g2_mul(self, s)
    }
}

/// Relies on `Mul<Fr>` of `G2Affine` and `CurveGroup::into_affine`:
/// the scalar multiple in normalized affine form.
#[verifier::external_body]
fn g2_mul(a: &G2Point, s: &Scalar) -> (r: G2Point)
    ensures
        r@ == g2_mul_of(a@, s.value()),
{
    let q = |l: &Base| Fq::new(BigInt::new(l.limbs));
    let p = G2Affine {
        x: Fq2::new(q(&a.x0), q(&a.x1)),
        y: Fq2::new(q(&a.y0), q(&a.y1)),
        infinity: a.infinity,
    };
    let v = (p * Fr::new(BigInt::new(s.limbs))).into_affine();
    let b = |f: Fq| Base { limbs: f.into_bigint().0 };
    G2Point { x0: b(v.x.c0), x1: b(v.x.c1), y0: b(v.y.c0), y1: b(v.y.c1), infinity: v.infinity }
}

/// Relies on `Pairing::multi_miller_loop` and `Pairing::final_exponentiation`
/// of `Bn254`, and `Zero` of the output: nothing when the final
/// exponentiation fails, else whether the product of the pairings of the
/// paired entries is the identity of the target group.
#[verifier::external_body]
pub(crate) fn pairing_product_is_one(g1: &Vec<Point>, g2: &Vec<G2Point>) -> (r: Option<bool>)
    requires
        g1.len() == g2.len(),
    ensures
        r == pairing_check_of(points_view(g1@), g2_views(g2@)),
{
    let q = |l: &Base| Fq::new(BigInt::new(l.limbs));
    let a: Vec<G1Affine> = g1.iter().map(|p| G1Affine { x: q(&p.x), y: q(&p.y), infinity: p.infinity }).collect();
    let b: Vec<G2Affine> = g2.iter().map(|p| G2Affine {
        x: Fq2::new(q(&p.x0), q(&p.x1)),
        y: Fq2::new(q(&p.y0), q(&p.y1)),
        infinity: p.infinity,
    }).collect();
    Bn254::final_exponentiation(Bn254::multi_miller_loop(a, b)).map(|o| o.is_zero())
}

/// The negation `(r - 1) * p` of a G1 point, over views.
pub open spec fn g1_neg_of(p: PointView) -> PointView {
    g1_mul_of(p, (fr_modulus() - 1) as nat)
}

/// `-p` on G1, as the multiple by `r - 1`.
pub fn negate(p: &Point) -> (r: Point)
    ensures
        r@ == g1_neg_of(p@),
{
    let minus_one = Scalar::zero().sub(&Scalar::one());
    assert(minus_one.value() == (fr_modulus() - 1) as nat) by {
        assert((0int - 1) % (fr_modulus() as int) == fr_modulus() - 1) by {
            vstd::arithmetic::div_mod::lemma_fundamental_div_mod_converse(-1, fr_modulus() as int, -1, fr_modulus() - 1);
        }
    }
    p.scale(&minus_one)
}

} // verus!
