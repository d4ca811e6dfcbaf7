//! Key generation of the batched commit-carrying Groth16 scheme, on G1: the
//! query scalars from the QAP evaluations and the toxic waste, the fixed-base
//! products with the generator, and the split of the instance segment into
//! the constant, batch and proof-dependent parts.
use crate::aggregation::{fr_pow, power_from};
use crate::field::{fr_modulus, Scalar};
use crate::group::{
    fixed_base_window, fixed_base_window_of, g1_fixed_base, g1_fixed_base_of, g1_mul_of, points_view,
    scalars_value, Point, PointView,
};
use crate::groth16::VerifyingKey;
use crate::pairing::{g2_mul_of, g2_views, G2Point};
use vstd::prelude::*;

verus! {

/// The QAP polynomials evaluated at `t`, as the R1CS-to-QAP reduction gives
/// them: `a`, `b`, `c` per variable, the vanishing polynomial `zt` at `t`, the
/// number of instance variables and the domain size `m_raw`.
#[derive(Clone, Debug)]
pub struct QapEvaluation {
    pub a: Vec<Scalar>,
    pub b: Vec<Scalar>,
    pub c: Vec<Scalar>,
    pub zt: Scalar,
    pub t: Scalar,
    pub num_instance_variables: usize,
    pub m_raw: usize,
}

/// The secret scalars of the setup.
#[derive(Clone, Copy, Debug)]
pub struct ToxicWaste {
    pub alpha: Scalar,
    pub beta: Scalar,
    pub gamma: Scalar,
    pub delta: Scalar,
    pub eta: Scalar,
}

/// What fails in key generation.
#[derive(Clone, Copy, Debug, PartialEq, Eq)]
pub enum SetupError {
    /// `gamma` or `delta` is zero and has no inverse.
    UnexpectedIdentity,
    /// The evaluations do not cover the instance and committed variables, or
    /// the split does not fit, or the domain is empty.
    ShapeMismatch,
}

/// The committing key: the batch and proof-dependent segments and the
/// blinding base `gamma^-1 * eta * g`.
#[derive(Clone, Debug)]
pub struct CommittingKey {
    pub batch_g1: Vec<Point>,
    pub proof_dependent_g1: Vec<Point>,
    pub gamma_eta_g1: Point,
}

/// The proving key; its verifying part is `verifying_key`.
#[derive(Clone, Debug)]
pub struct ProvingKey {
    pub alpha_g1: Point,
    pub beta_g1: Point,
    pub delta_g1: Point,
    pub delta_eta_g1: Point,
    pub a_query: Vec<Point>,
    pub b_g1_query: Vec<Point>,
    pub h_query: Vec<Point>,
    pub l_query: Vec<Point>,
    pub gamma_abc_g1: Vec<Point>,
    pub ck: CommittingKey,
    pub beta_g2: G2Point,
    pub gamma_g2: G2Point,
    pub delta_g2: G2Point,
    pub b_g2_query: Vec<G2Point>,
}

/// The batched commit-carrying Groth16 scheme.
pub struct CCGroth16;

/// `(beta * a + alpha * b + c) * inv` in the scalar field.
pub open spec fn query_scalar(a: nat, b: nat, c: nat, alpha: nat, beta: nat, inv: nat) -> nat {
    ((beta * a + alpha * b + c) * inv) % fr_modulus()
}

/// `zt * delta^-1 * t^i` in the scalar field.
pub open spec fn h_scalar(t: nat, zt: nat, delta_inverse: nat, i: nat) -> nat {
    (((zt * delta_inverse) % fr_modulus()) * fr_pow(t, i)) % fr_modulus()
}

/// The query scalars `(beta * a[i] + alpha * b[i] + c[i]) * inv` for `i` in
/// `lo .. hi`.
pub open spec fn query_scalars(qap: &QapEvaluation, al: nat, be: nat, inv: nat, lo: int, hi: int) -> Seq<nat> {
    Seq::new(
        (hi - lo) as nat,
        |i: int| query_scalar(qap.a@[lo + i].value(), qap.b@[lo + i].value(), qap.c@[lo + i].value(), al, be, inv),
    )
}

/// The H-query scalars.
pub open spec fn h_scalars(qap: &QapEvaluation, di: nat) -> Seq<nat> {
    Seq::new((qap.m_raw - 1) as nat, |i: int| h_scalar(qap.t.value(), qap.zt.value(), di, i as nat))
}

/// Every scalar that multiplies the G1 generator through the one fixed-base
/// table: the A-query, the B-query, the H-query, the L-query, then the
/// instance segment.
pub open spec fn g1_setup_scalars(qap: &QapEvaluation, al: nat, be: nat, gi: nat, di: nat, n_cc: int) -> Seq<nat> {
    scalars_value(qap.a@) + scalars_value(qap.b@) + h_scalars(qap, di) + query_scalars(
        qap,
        al,
        be,
        di,
        n_cc,
        qap.a.len() as int,
    ) + query_scalars(qap, al, be, gi, 0, n_cc)
}

/// `inv` is the inverse of `x` in the scalar field.
pub open spec fn inverts(inv: &Scalar, x: &Scalar) -> bool {
    inv.wf() && (inv.value() * x.value()) % fr_modulus() == 1
}

/// The inverse of `x` in the scalar field.
pub open spec fn fr_inverse_of(x: nat) -> nat {
    choose|i: nat| i < fr_modulus() && #[trigger] ((i * x) % fr_modulus()) == 1
}

proof fn lemma_inverse_unique(i1: nat, i2: nat, x: nat)
    requires
        i1 < fr_modulus(),
        i2 < fr_modulus(),
        (i1 * x) % fr_modulus() == 1,
        (i2 * x) % fr_modulus() == 1,
    ensures
        i1 == i2,
{
    let m = fr_modulus() as int;
    vstd::arithmetic::div_mod::lemma_mul_mod_noop_right(i1 as int, (i2 * x) as int, m);
    vstd::arithmetic::div_mod::lemma_mul_mod_noop_right(i2 as int, (i1 * x) as int, m);
    assert(i1 * (i2 * x) == i2 * (i1 * x)) by (nonlinear_arith);
    vstd::arithmetic::div_mod::lemma_small_mod(i1, m as nat);
    vstd::arithmetic::div_mod::lemma_small_mod(i2, m as nat);
}

/// The returned inverse is the inverse.
proof fn lemma_is_inverse_of(inv: &Scalar, x: &Scalar)
    requires
        inverts(inv, x),
    ensures
        inv.value() == fr_inverse_of(x.value()),
{
    let j = fr_inverse_of(x.value());
    assert(inv.value() < fr_modulus() && (inv.value() * x.value()) % fr_modulus() == 1);
    lemma_inverse_unique(inv.value(), j, x.value());
}

/// The evaluations cover the instance and committed variables, the split
/// fits, and the domain is not empty.
pub open spec fn shapes_fit(qap: &QapEvaluation, n_agg: nat, n_cw: nat) -> bool {
    &&& qap.num_instance_variables + n_cw <= qap.a.len()
    &&& qap.a.len() == qap.b.len()
    &&& qap.a.len() == qap.c.len()
    &&& n_agg <= n_cw
    &&& qap.m_raw >= 1
}

proof fn lemma_linear_mod(x: int, y: int, z: int, w: int, m: int)
    requires
        m > 0,
    ensures
        ((((x % m + y % m) % m + z) % m) * w) % m == ((x + y + z) * w) % m,
{
    vstd::arithmetic::div_mod::lemma_add_mod_noop(x, y, m);
    vstd::arithmetic::div_mod::lemma_add_mod_noop((x + y), z, m);
    vstd::arithmetic::div_mod::lemma_add_mod_noop_right((x + y) % m, z, m);
    vstd::arithmetic::div_mod::lemma_mul_mod_noop_left(x + y + z, w, m);
}

impl CCGroth16 {
    /// `(beta * a[i] + alpha * b[i] + c[i]) * inv` for `i` in `lo .. hi`.
    fn query_range(
        qap: &QapEvaluation,
        alpha: &Scalar,
        beta: &Scalar,
        inv: &Scalar,
        lo: usize,
        hi: usize,
    ) -> (r: Vec<Scalar>)
        requires
            lo <= hi <= qap.a.len(),
            hi <= qap.b.len(),
            hi <= qap.c.len(),
        ensures
            r@.len() == hi - lo,
            forall|i: int| 0 <= i < hi - lo ==> (#[trigger] r@[i]).wf() && r@[i].value() == query_scalar(
                qap.a@[lo + i].value(),
                qap.b@[lo + i].value(),
                qap.c@[lo + i].value(),
                alpha.value(),
                beta.value(),
                inv.value(),
            ),
    {
        let mut out: Vec<Scalar> = Vec::new();
        let mut i: usize = lo;
        while i < hi
            invariant
                lo <= i <= hi,
                hi <= qap.a.len(),
                hi <= qap.b.len(),
                hi <= qap.c.len(),
                out@.len() == i - lo,
                forall|k: int| 0 <= k < i - lo ==> (#[trigger] out@[k]).wf() && out@[k].value() == query_scalar(
                    qap.a@[lo + k].value(),
                    qap.b@[lo + k].value(),
                    qap.c@[lo + k].value(),
                    alpha.value(),
                    beta.value(),
                    inv.value(),
                ),
            decreases hi - i,
        {
            let x = beta.mul(&qap.a[i]).add(&alpha.mul(&qap.b[i])).add(&qap.c[i]).mul(inv);
            proof {
                lemma_linear_mod(
                    (beta.value() * qap.a@[i as int].value()) as int,
                    (alpha.value() * qap.b@[i as int].value()) as int,
                    qap.c@[i as int].value() as int,
                    inv.value() as int,
                    fr_modulus() as int,
                );
            }
            out.push(x);
            i = i + 1;
        }
        out
    }

    /// The H-query scalars `zt * delta^-1 * t^i` for `i < max_power`.
    pub fn h_query_scalars(max_power: usize, t: &Scalar, zt: &Scalar, delta_inverse: &Scalar) -> (r: Vec<
        Scalar,
    >)
        requires
            t.wf(),
        ensures
            r@.len() == max_power,
            forall|i: int| 0 <= i < max_power ==> (#[trigger] r@[i]).wf() && r@[i].value() == h_scalar(
                t.value(),
                zt.value(),
                delta_inverse.value(),
                i as nat,
            ),
    {
        let base = zt.mul(delta_inverse);
        let mut out: Vec<Scalar> = Vec::new();
        let mut p = Scalar::one();
        let mut i: usize = 0;
        while i < max_power
            invariant
                i <= max_power,
                t.wf(),
                p.wf(),
                p.value() == fr_pow(t.value(), i as nat),
                base.value() == (zt.value() * delta_inverse.value()) % fr_modulus(),
                out@.len() == i,
                forall|k: int| 0 <= k < i ==> (#[trigger] out@[k]).wf() && out@[k].value() == h_scalar(
                    t.value(),
                    zt.value(),
                    delta_inverse.value(),
                    k as nat,
                ),
            decreases max_power - i,
        {
            out.push(base.mul(&p));
            p = p.mul(t);
            i = i + 1;
        }
        out
    }

    /// The G1 part of the keys from the QAP evaluations at `t`, the toxic
    /// waste and the generator `g`: the A-, B-, H- and L-queries, the
    /// instance segment `gamma^-1 * (beta * a + alpha * b + c)` split into the
    /// constant part, `num_aggregation_variables` batch entries and the
    /// proof-dependent rest, and the blinding bases.
    #[verifier::rlimit(100)]
    pub fn generate_parameters_with_qap(
        qap: &QapEvaluation,
        num_aggregation_variables: usize,
        num_committed_witness_variables: usize,
        toxic: &ToxicWaste,
        g1_generator: &Point,
        g2_generator: &G2Point,
    ) -> (r: Result<ProvingKey, SetupError>)
        requires
            toxic.alpha.wf(),
            toxic.beta.wf(),
            toxic.gamma.wf(),
            toxic.delta.wf(),
            toxic.eta.wf(),
            qap.t.wf(),
        ensures
            r matches Err(SetupError::ShapeMismatch) <==> !shapes_fit(
                qap,
                num_aggregation_variables as nat,
                num_committed_witness_variables as nat,
            ),
            r matches Err(SetupError::UnexpectedIdentity) <==> shapes_fit(
                qap,
                num_aggregation_variables as nat,
                num_committed_witness_variables as nat,
            ) && (toxic.gamma.value() == 0 || toxic.delta.value() == 0),
            r matches Ok(p) ==> {
                let g = g1_generator@;
                let gi = fr_inverse_of(toxic.gamma.value());
                let di = fr_inverse_of(toxic.delta.value());
                let al = toxic.alpha.value();
                let be = toxic.beta.value();
                let n = qap.num_instance_variables as int;
                let n_agg = num_aggregation_variables as int;
                let n_cc = n + num_committed_witness_variables as int;
                let all = g1_setup_scalars(qap, al, be, gi, di, n_cc);
                let pts = g1_fixed_base_of(g, all, fixed_base_window_of(all.len()));
                let na = qap.a.len() as int;
                let nh = qap.m_raw - 1;
                let o2 = 2 * na + nh;
                let off = o2 + na - n_cc;
                &&& p.alpha_g1@ == g1_mul_of(g, al)
                &&& p.beta_g1@ == g1_mul_of(g, be)
                &&& p.delta_g1@ == g1_mul_of(g, toxic.delta.value())
                &&& p.delta_eta_g1@ == g1_mul_of(g, (di * toxic.eta.value()) % fr_modulus())
                &&& p.ck.gamma_eta_g1@ == g1_mul_of(g, (gi * toxic.eta.value()) % fr_modulus())
                &&& points_view(p.a_query@) == pts.subrange(0, na)
                &&& points_view(p.b_g1_query@) == pts.subrange(na, 2 * na)
                &&& points_view(p.h_query@) == pts.subrange(2 * na, o2)
                &&& points_view(p.l_query@) == pts.subrange(o2, off)
                &&& points_view(p.gamma_abc_g1@) == pts.subrange(off, off + n)
                &&& points_view(p.ck.batch_g1@) == pts.subrange(off + n, off + n + n_agg)
                &&& points_view(p.ck.proof_dependent_g1@) == pts.subrange(off + n + n_agg, off + n_cc)
                &&& p.beta_g2@ == g2_mul_of(g2_generator@, be)
                &&& p.gamma_g2@ == g2_mul_of(g2_generator@, toxic.gamma.value())
                &&& p.delta_g2@ == g2_mul_of(g2_generator@, toxic.delta.value())
                &&& g2_views(p.b_g2_query@) == Seq::new(
                    qap.b.len() as nat,
                    |i: int| g2_mul_of(g2_generator@, qap.b@[i].value()),
                )
            },
    {
        let n = qap.num_instance_variables;
        if num_committed_witness_variables > qap.a.len() || n > qap.a.len() - num_committed_witness_variables
            || qap.a.len() != qap.b.len() || qap.a.len() != qap.c.len()
            || num_aggregation_variables > num_committed_witness_variables || qap.m_raw < 1 {
            return Err(SetupError::ShapeMismatch);
        }
        let n_cc = n + num_committed_witness_variables;
        let gamma_inverse = match toxic.gamma.inverse() {
            Some(i) => i,
            None => return Err(SetupError::UnexpectedIdentity),
        };
        let delta_inverse = match toxic.delta.inverse() {
            Some(i) => i,
            None => return Err(SetupError::UnexpectedIdentity),
        };
        proof {
            lemma_is_inverse_of(&gamma_inverse, &toxic.gamma);
            lemma_is_inverse_of(&delta_inverse, &toxic.delta);
        }
        let gamma_abc = Self::query_range(qap, &toxic.alpha, &toxic.beta, &gamma_inverse, 0, n_cc);
        let l = Self::query_range(qap, &toxic.alpha, &toxic.beta, &delta_inverse, n_cc, qap.a.len());
        let g = g1_generator;
        let alpha_g1 = g.scale(&toxic.alpha);
        let beta_g1 = g.scale(&toxic.beta);
        let delta_g1 = g.scale(&toxic.delta);
        let gamma_eta_g1 = g.scale(&gamma_inverse.mul(&toxic.eta));
        let delta_eta_g1 = g.scale(&delta_inverse.mul(&toxic.eta));
        let h = Self::h_query_scalars(qap.m_raw - 1, &qap.t, &qap.zt, &delta_inverse);
        let ghost gi = gamma_inverse.value();
        let ghost di = delta_inverse.value();
        let ghost al = toxic.alpha.value();
        let ghost be = toxic.beta.value();
        assert(scalars_value(h@) =~= h_scalars(qap, di));
        assert(scalars_value(l@) =~= query_scalars(qap, al, be, di, n_cc as int, qap.a.len() as int));
        assert(scalars_value(gamma_abc@) =~= query_scalars(qap, al, be, gi, 0, n_cc as int));
        let mut all = crate::slices::take_range(&qap.a, 0, qap.a.len());
        let mut part = crate::slices::take_range(&qap.b, 0, qap.b.len());
        all.append(&mut part);
        let o1 = all.len();
        let mut part = crate::slices::take_range(&h, 0, h.len());
        all.append(&mut part);
        let o2 = all.len();
        let mut part = crate::slices::take_range(&l, 0, l.len());
        all.append(&mut part);
        let off = all.len();
        let mut part = crate::slices::take_range(&gamma_abc, 0, gamma_abc.len());
        all.append(&mut part);
        assert(qap.a@.subrange(0, qap.a.len() as int) =~= qap.a@);
        assert(qap.b@.subrange(0, qap.b.len() as int) =~= qap.b@);
        assert(h@.subrange(0, h.len() as int) =~= h@);
        assert(l@.subrange(0, l.len() as int) =~= l@);
        assert(gamma_abc@.subrange(0, gamma_abc.len() as int) =~= gamma_abc@);
        assert(scalars_value(all@) =~= g1_setup_scalars(qap, al, be, gi, di, n_cc as int));
        let w = fixed_base_window(all.len());
        let pts = g1_fixed_base(g, &all, w);
        let ghost pv = points_view(pts@);
        let a_query = crate::slices::take_range(&pts, 0, qap.a.len());
        let b_g1_query = crate::slices::take_range(&pts, qap.a.len(), o1);
        let h_query = crate::slices::take_range(&pts, o1, o2);
        let l_query = crate::slices::take_range(&pts, o2, off);
        let gamma_abc_g1 = crate::slices::take_range(&pts, off, off + n);
        let batch_g1 = crate::slices::take_range(&pts, off + n, off + n + num_aggregation_variables);
        let proof_dependent_g1 = crate::slices::take_range(&pts, off + n + num_aggregation_variables, off + n_cc);
        assert(points_view(a_query@) =~= pv.subrange(0, qap.a.len() as int));
        assert(points_view(b_g1_query@) =~= pv.subrange(qap.a.len() as int, o1 as int));
        assert(points_view(h_query@) =~= pv.subrange(o1 as int, o2 as int));
        assert(points_view(l_query@) =~= pv.subrange(o2 as int, off as int));
        assert(points_view(gamma_abc_g1@) =~= pv.subrange(off as int, off + n));
        assert(points_view(batch_g1@) =~= pv.subrange(off + n, off + n + num_aggregation_variables));
        assert(points_view(proof_dependent_g1@) =~= pv.subrange(off + n + num_aggregation_variables, off + n_cc));
        Ok(ProvingKey {
            alpha_g1,
            beta_g1,
            delta_g1,
            delta_eta_g1,
            a_query,
            b_g1_query,
            h_query,
            l_query,
            gamma_abc_g1,
            ck: CommittingKey { batch_g1, proof_dependent_g1, gamma_eta_g1 },
            beta_g2: g2_generator.scale(&toxic.beta),
            gamma_g2: g2_generator.scale(&toxic.gamma),
            delta_g2: g2_generator.scale(&toxic.delta),
            b_g2_query: Self::fixed_base_mul_g2(g2_generator, &qap.b),
        })
    }

    /// `s * g` on G2 for each scalar `s`.
    pub fn fixed_base_mul_g2(g: &G2Point, scalars: &Vec<Scalar>) -> (r: Vec<G2Point>)
        ensures
            g2_views(r@) == Seq::new(scalars@.len(), |i: int| g2_mul_of(g@, scalars@[i].value())),
    {
        let mut out: Vec<G2Point> = Vec::new();
        let mut i: usize = 0;
        while i < scalars.len()
            invariant
                i <= scalars.len(),
                out@.len() == i,
                forall|k: int| 0 <= k < i ==> #[trigger] out@[k]@ == g2_mul_of(g@, scalars@[k].value()),
            decreases scalars.len() - i,
        {
            out.push(g.scale(&scalars[i]));
            i = i + 1;
        }
        assert(g2_views(out@) =~= Seq::new(scalars@.len(), |i: int| g2_mul_of(g@, scalars@[i].value())));
        out
    }
}

impl ProvingKey {
    /// The verifying key: `alpha`, `beta`, `gamma`, `delta` and the constant
    /// segment of the instance key.
    pub fn verifying_key(&self) -> (r: VerifyingKey)
        ensures
            r.alpha_g1 == self.alpha_g1,
            r.beta_g2 == self.beta_g2,
            r.gamma_g2 == self.gamma_g2,
            r.delta_g2 == self.delta_g2,
            r.gamma_abc_g1@ == self.gamma_abc_g1@,
    {
        VerifyingKey {
            alpha_g1: self.alpha_g1,
            beta_g2: self.beta_g2,
            gamma_g2: self.gamma_g2,
            delta_g2: self.delta_g2,
            gamma_abc_g1: crate::slices::take_range(&self.gamma_abc_g1, 0, self.gamma_abc_g1.len()),
        }
    }
}

} // verus!
