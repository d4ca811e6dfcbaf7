//! Points of the BN254 curve group G1 in affine form, held as plain
//! coordinates. The group law and multi-scalar multiplication are delegated to
//! `ark_bn254`; what they return is named by the spec functions below.
use crate::field::{limbs_be, push_limbs_be, Base, Scalar};
use ark_ec::scalar_mul::fixed_base::FixedBase;
use ark_ec::{AffineRepr, CurveGroup, VariableBaseMSM};
use ark_ff::{BigInt, PrimeField};
use ark_bn254::{Fq, Fr, G1Affine, G1Projective};
use vstd::prelude::*;

verus! {

/// A point as plain values: the limbs of `x`, the limbs of `y`, and whether it
/// is the point at infinity.
pub type PointView = (Seq<u64>, Seq<u64>, bool);

/// The affine sum of two points, as `ark_bn254` computes it.
pub uninterp spec fn g1_add_of(p: PointView, q: PointView) -> PointView;

/// The affine scalar multiple `s * p`, as `ark_bn254` computes it.
pub uninterp spec fn g1_mul_of(p: PointView, s: nat) -> PointView;

/// The affine multi-scalar product of the bases with the scalars' integers,
/// as `ark_bn254` computes it: `sum_i scalars[i] * bases[i]` for scalars below
/// the group order.
pub uninterp spec fn g1_msm_of(bases: Seq<PointView>, scalars: Seq<nat>) -> PointView;

/// The view of the fixed generator `(1, 2)`.
pub open spec fn generator_view() -> PointView {
    (seq![1u64, 0u64, 0u64, 0u64], seq![2u64, 0u64, 0u64, 0u64], false)
}

/// The multiples `s * g` of `g`, one per scalar, as `ark_ec`'s fixed-base
/// table of window `w` computes them, in affine form.
pub uninterp spec fn g1_fixed_base_of(g: PointView, scalars: Seq<nat>, w: nat) -> Seq<PointView>;

/// The window width that `ark_ec` picks for a fixed-base table over `n`
/// scalars.
pub uninterp spec fn fixed_base_window_of(n: nat) -> nat;

/// An affine point of G1.
#[derive(Clone, Copy, Debug, PartialEq, Eq)]
pub struct Point {
    pub x: Base,
    pub y: Base,
    pub infinity: bool,
}

impl View for Point {
    type V = PointView;

    open spec fn view(&self) -> PointView {
        (self.x.limbs@, self.y.limbs@, self.infinity)
    }
}

/// The views of a list of points.
pub open spec fn points_view(s: Seq<Point>) -> Seq<PointView> {
    s.map_values(|p: Point| p@)
}

/// The field values of a list of scalars.
pub open spec fn scalars_value(s: Seq<Scalar>) -> Seq<nat> {
    s.map_values(|x: Scalar| x.value())
}

/// The 64 bytes that feed a point to a transcript: `x`, then `y`, each as 32
/// big-endian bytes.
pub open spec fn point_be(p: Point) -> Seq<u8> {
    limbs_be(p.x.limbs) + limbs_be(p.y.limbs)
}

/// The bytes of a list of points, one after the other.
pub open spec fn points_be(s: Seq<Point>) -> Seq<u8>
    decreases s.len(),
{
    if s.len() == 0 {
        seq![]
    } else {
        points_be(s.drop_last()) + point_be(s.last())
    }
}

impl Point {
    /// Canonical coordinates; the point at infinity has zero coordinates.
    pub open spec fn wf(&self) -> bool {
        &&& self.x.wf()
        &&& self.y.wf()
        &&& self.infinity ==> self.x.value() == 0 && self.y.value() == 0
    }

    /// The fixed generator `(1, 2)` of G1.
    pub fn generator() -> (r: Point)
        ensures
            r.wf(),
            !r.infinity,
            r.x.value() == 1,
            r.y.value() == 2,
            r@ == generator_view(),
    {
        let r = Point { x: Base { limbs: [1u64, 0u64, 0u64, 0u64] }, y: Base { limbs: [2u64, 0u64, 0u64, 0u64] }, infinity: false };
        assert(r.x.limbs@ =~= seq![1u64, 0u64, 0u64, 0u64]);
        assert(r.y.limbs@ =~= seq![2u64, 0u64, 0u64, 0u64]);
        r
    }

    /// The identity of G1.
    pub fn identity() -> (r: Point)
        ensures
            r.wf(),
            r.infinity,
            r.x.value() == 0,
            r.y.value() == 0,
    {
        Point { x: Base::zero(), y: Base::zero(), infinity: true }
    }

    /// Equality of the plain coordinates.
    pub fn equals(&self, o: &Point) -> (r: bool)
        ensures
            r == (self@ == o@),
    {
        let ex = self.x.equals(&o.x);
        let ey = self.y.equals(&o.y);
        ex && ey && self.infinity == o.infinity
    }

    /// The affine group sum.
    pub fn add(&self, o: &Point) -> (r: Point)
        ensures
            r.wf(),
            r@ == g1_add_of(self@, o@),
    {
        g1_add(self, o)
    }

    /// The scalar multiple `s * self`.
    pub fn scale(&self, s: &Scalar) -> (r: Point)
        ensures
            r.wf(),
            r@ == g1_mul_of(self@, s.value()),
    {
        g1_mul(self, s)
    }

    /// Appends the transcript bytes of the point.
    pub fn push_be(&self, out: &mut Vec<u8>)
        ensures
            final(out)@ == old(out)@ + point_be(*self),
    {
        push_limbs_be(out, &self.x.limbs);
        push_limbs_be(out, &self.y.limbs);
        assert(final(out)@ =~= old(out)@ + point_be(*self));
    }
}

/// The transcript bytes of a list of points.
pub fn points_to_be(s: &Vec<Point>) -> (r: Vec<u8>)
    ensures
        r@ == points_be(s@),
{
    let mut out: Vec<u8> = Vec::new();
    let mut i: usize = 0;
    while i < s.len()
        invariant
            i <= s.len(),
            out@ == points_be(s@.subrange(0, i as int)),
        decreases s.len() - i,
    {
        s[i].push_be(&mut out);
        proof {
            let t = s@.subrange(0, i + 1);
            assert(t.drop_last() =~= s@.subrange(0, i as int));
        }
        i = i + 1;
    }
    assert(s@.subrange(0, s.len() as int) =~= s@);
    out
}

/// Multi-scalar multiplication `sum_i scalars[i] * bases[i]`: a Pedersen
/// commitment to `scalars` under the basis `bases`.
pub fn msm(bases: &Vec<Point>, scalars: &Vec<Scalar>) -> (r: Point)
    requires
        bases.len() == scalars.len(),
    ensures
        r.wf(),
        r@ == g1_msm_of(points_view(bases@), scalars_value(scalars@)),
{
    g1_msm(bases, scalars)
}

/// Relies on `Add` of `G1Affine` and `CurveGroup::into_affine`: the
/// group sum in normalized affine form.
#[verifier::external_body]
fn g1_add(a: &Point, b: &Point) -> (r: Point)
    ensures
        r.wf(),
        r@ == g1_add_of(a@, b@),
{
    let f = |p: &Point| G1Affine {
        x: Fq::new(BigInt::new(p.x.limbs)),
        y: Fq::new(BigInt::new(p.y.limbs)),
        infinity: p.infinity,
    };
    let s = (f(a) + f(b)).into_affine();
    Point { x: Base { limbs: s.x.into_bigint().0 }, y: Base { limbs: s.y.into_bigint().0 }, infinity: s.infinity }
}

/// Relies on `Mul<Fr>` of `G1Affine` and `CurveGroup::into_affine`:
/// the scalar multiple in normalized affine form.
#[verifier::external_body]
fn g1_mul(a: &Point, s: &Scalar) -> (r: Point)
    ensures
        r.wf(),
        r@ == g1_mul_of(a@, s.value()),
{
    let p = G1Affine {
        x: Fq::new(BigInt::new(a.x.limbs)),
        y: Fq::new(BigInt::new(a.y.limbs)),
        infinity: a.infinity,
    };
    let v = (p * Fr::new(BigInt::new(s.limbs))).into_affine();
    Point { x: Base { limbs: v.x.into_bigint().0 }, y: Base { limbs: v.y.into_bigint().0 }, infinity: v.infinity }
}

/// Relies on `FixedBase::get_mul_window_size` of ark-ec: the window width of a
/// fixed-base table for `n` scalars, 3 below 32 scalars and
/// `log2(n) * 69 / 100` from there, so between 3 and 44.
#[verifier::external_body]
pub(crate) fn fixed_base_window(n: usize) -> (r: usize)
    ensures
        r == fixed_base_window_of(n as nat),
        3 <= r <= 44,
{
    FixedBase::get_mul_window_size(n)
}

/// Relies on `FixedBase::get_window_table` and `FixedBase::msm` of ark-ec over
/// `ark_bn254::G1Projective` with window `w`, and
/// `CurveGroup::normalize_batch`: one multiple of `g` per scalar, all from one
/// window table, in normalized affine form.
#[verifier::external_body]
pub(crate) fn g1_fixed_base(g: &Point, scalars: &Vec<Scalar>, w: usize) -> (r: Vec<Point>)
    requires
        3 <= w <= 44,
    ensures
        r@.len() == scalars@.len(),
        points_view(r@) == g1_fixed_base_of(g@, scalars_value(scalars@), w as nat),
        forall|i: int| 0 <= i < r@.len() ==> (#[trigger] r@[i]).wf(),
{
    let bits = Fr::MODULUS_BIT_SIZE as usize;
    let p = G1Affine { x: Fq::new(BigInt::new(g.x.limbs)), y: Fq::new(BigInt::new(g.y.limbs)), infinity: g.infinity };
    let t = FixedBase::get_window_table(bits, w, p.into_group());
    let s: Vec<_> = scalars.iter().map(|x| Fr::new(BigInt::new(x.limbs))).collect();
    let v = G1Projective::normalize_batch(&FixedBase::msm(bits, w, &t, &s));
    v.iter().map(|p| Point { x: Base { limbs: p.x.into_bigint().0 }, y: Base { limbs: p.y.into_bigint().0 }, infinity: p.infinity }).collect()
}

/// Relies on `VariableBaseMSM::msm_bigint` of `G1Projective` and
/// `CurveGroup::into_affine`: the multi-scalar product in normalized affine form.
#[verifier::external_body]
fn g1_msm(bases: &Vec<Point>, scalars: &Vec<Scalar>) -> (r: Point)
    requires
        bases.len() == scalars.len(),
    ensures
        r.wf(),
        r@ == g1_msm_of(points_view(bases@), scalars_value(scalars@)),
{
    let b: Vec<G1Affine> = bases.iter().map(|p| G1Affine {
        x: Fq::new(BigInt::new(p.x.limbs)),
        y: Fq::new(BigInt::new(p.y.limbs)),
        infinity: p.infinity,
    }).collect();
    let s: Vec<BigInt<4>> = scalars.iter().map(|x| BigInt::new(x.limbs)).collect();
    let v = G1Projective::msm_bigint(&b, &s).into_affine();
    Point { x: Base { limbs: v.x.into_bigint().0 }, y: Base { limbs: v.y.into_bigint().0 }, infinity: v.infinity }
}

} // verus!
