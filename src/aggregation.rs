//! Aggregation with the powers of a challenge: the root of a list of
//! commitments, scalars or openings, and the chained power-of-tau
//! aggregation of commitments and of scalar vectors.
use crate::cm::CM;
use crate::field::{fr_modulus, Scalar};
use crate::group::{g1_msm_of, msm, points_view, scalars_value, Point, PointView};
use crate::pedersen::Pedersen;
use vstd::prelude::*;

verus! {

impl View for Scalar {
    type V = nat;

    open spec fn view(&self) -> nat {
        self.value()
    }
}

/// `t^i` in the scalar field.
pub open spec fn fr_pow(t: nat, i: nat) -> nat
    decreases i,
{
    if i == 0 {
        1
    } else {
        (fr_pow(t, (i - 1) as nat) * t) % fr_modulus()
    }
}

/// `start * t^i` in the scalar field.
pub open spec fn power_from(start: nat, t: nat, i: nat) -> nat {
    (start * fr_pow(t, i)) % fr_modulus()
}

/// The `n` successive powers `start, start*t, ..., start*t^(n-1)`.
pub open spec fn tau_powers(start: nat, t: nat, n: nat) -> Seq<nat> {
    Seq::new(n, |i: int| power_from(start, t, i as nat))
}

/// Where a chain of powers starts: at `initial` when given, else at `tau`.
pub open spec fn start_of(tau: &Scalar, initial: Option<Scalar>) -> nat {
    match initial {
        Some(s) => s.value(),
        None => tau.value(),
    }
}

/// `sum_i vals[i] * start * t^i` in the scalar field.
pub open spec fn weighted_sum(vals: Seq<nat>, start: nat, t: nat) -> nat
    decreases vals.len(),
{
    if vals.len() == 0 {
        0
    } else {
        (weighted_sum(vals.drop_last(), start, t) + vals.last() * power_from(
            start,
            t,
            (vals.len() - 1) as nat,
        )) % fr_modulus()
    }
}

/// Column `c` of a list of rows.
pub open spec fn column(rows: Seq<Vec<Scalar>>, c: int) -> Seq<nat> {
    Seq::new(rows.len(), |i: int| rows[i]@[c].value())
}

pub(crate) proof fn lemma_power_zero(start: nat, t: nat)
    requires
        start < fr_modulus(),
    ensures
        power_from(start, t, 0) == start,
{
    assert(fr_pow(t, 0) == 1);
    assert(start * 1 == start);
    vstd::arithmetic::div_mod::lemma_small_mod(start, fr_modulus());
}

pub(crate) proof fn lemma_power_step(start: nat, t: nat, i: nat)
    ensures
        power_from(start, t, i + 1) == (power_from(start, t, i) * t) % fr_modulus(),
{
    let m = fr_modulus() as int;
    let p = fr_pow(t, i) as int;
    assert(fr_pow(t, i + 1) == (p * t) % m);
    vstd::arithmetic::div_mod::lemma_mul_mod_noop_right(start as int, p * t, m);
    vstd::arithmetic::div_mod::lemma_mul_mod_noop_left(start * p, t as int, m);
    assert(start * (p * t) == (start * p) * t) by (nonlinear_arith);
}

impl Pedersen {
    /// Aggregates commitments with successive powers of `tau`: the result is the
    /// multi-scalar product of `commitments` with `start, start*tau, ...`, where
    /// `start` is `initial` or else `tau`, together with the next unused power.
    pub fn aggregate(commitments: &Vec<Point>, tau: &Scalar, initial: Option<Scalar>) -> (r: (
        Point,
        Scalar,
    ))
        requires
            tau.wf(),
            initial matches Some(s) ==> s.wf(),
        ensures
            r.0.wf(),
            r.0@ == crate::group::g1_msm_of(
                crate::group::points_view(commitments@),
                tau_powers(start_of(tau, initial), tau.value(), commitments@.len()),
            ),
            r.1.wf(),
            r.1.value() == power_from(start_of(tau, initial), tau.value(), commitments@.len()),
    {
        let start = match initial {
            Some(s) => s,
            None => *tau,
        };
        let ghost st = start_of(tau, initial);
        proof {
            lemma_power_zero(st, tau.value());
        }
        let mut powers: Vec<Scalar> = Vec::new();
        let mut cur = start;
        let mut i: usize = 0;
        while i < commitments.len()
            invariant
                i <= commitments.len(),
                cur.wf(),
                tau.wf(),
                cur.value() == power_from(st, tau.value(), i as nat),
                powers@.len() == i,
                forall|k: int| 0 <= k < i ==> #[trigger] powers@[k].value() == power_from(st, tau.value(), k as nat),
            decreases commitments.len() - i,
        {
            powers.push(cur);
            proof {
                lemma_power_step(st, tau.value(), i as nat);
            }
            cur = cur.mul(tau);
            i = i + 1;
        }
        assert(crate::group::scalars_value(powers@) =~= tau_powers(st, tau.value(), commitments@.len()));
        (msm(commitments, &powers), cur)
    }

    /// Aggregates scalar vectors with successive powers of `tau`: entry `c` of the
    /// result is `sum_i rows[i][c] * start * tau^i`, where `start` is `initial` or
    /// else `tau`; the next unused power comes with it.
    pub fn scalar_aggregate(rows: &Vec<Vec<Scalar>>, tau: &Scalar, initial: Option<Scalar>) -> (r: (
        Vec<Scalar>,
        Scalar,
    ))
        requires
            rows.len() >= 1,
            tau.wf(),
            initial matches Some(s) ==> s.wf(),
            forall|i: int| 0 <= i < rows.len() ==> #[trigger] rows[i]@.len() >= rows[0]@.len(),
        ensures
            r.0@.len() == rows[0]@.len(),
            forall|c: int|
                0 <= c < r.0@.len() ==> (#[trigger] r.0@[c]).wf() && r.0@[c].value() == weighted_sum(
                    column(rows@, c),
                    start_of(tau, initial),
                    tau.value(),
                ),
            r.1.wf(),
            r.1.value() == power_from(start_of(tau, initial), tau.value(), rows@.len()),
    {
        let start = match initial {
            Some(s) => s,
            None => *tau,
        };
        let ghost st = start_of(tau, initial);
        proof {
            lemma_power_zero(st, tau.value());
        }
        let mut powers: Vec<Scalar> = Vec::new();
        let mut cur = start;
        let mut i: usize = 0;
        while i < rows.len()
            invariant
                i <= rows.len(),
                cur.wf(),
                tau.wf(),
                cur.value() == power_from(st, tau.value(), i as nat),
                powers@.len() == i,
                forall|k: int| 0 <= k < i ==> #[trigger] powers@[k].value() == power_from(st, tau.value(), k as nat),
            decreases rows.len() - i,
        {
            powers.push(cur);
            proof {
                lemma_power_step(st, tau.value(), i as nat);
            }
            cur = cur.mul(tau);
            i = i + 1;
        }
        let len = rows[0].len();
        let mut out: Vec<Scalar> = Vec::new();
        let mut c: usize = 0;
        while c < len
            invariant
                len == rows[0]@.len(),
                c <= len,
                out@.len() == c,
                powers@.len() == rows.len(),
                forall|k: int| 0 <= k < rows.len() ==> #[trigger] powers@[k].value() == power_from(st, tau.value(), k as nat),
                forall|i: int| 0 <= i < rows.len() ==> #[trigger] rows[i]@.len() >= rows[0]@.len(),
                forall|m: int|
                    0 <= m < c ==> (#[trigger] out@[m]).wf() && out@[m].value() == weighted_sum(
                        column(rows@, m),
                        st,
                        tau.value(),
                    ),
            decreases len - c,
        {
            let mut acc = Scalar::zero();
            let mut i: usize = 0;
            while i < rows.len()
                invariant
                    c < len,
                    len == rows[0]@.len(),
                    i <= rows.len(),
                    acc.wf(),
                    powers@.len() == rows.len(),
                    forall|k: int| 0 <= k < rows.len() ==> #[trigger] powers@[k].value() == power_from(st, tau.value(), k as nat),
                    forall|k: int| 0 <= k < rows.len() ==> #[trigger] rows[k]@.len() >= rows[0]@.len(),
                    acc.value() == weighted_sum(column(rows@, c as int).subrange(0, i as int), st, tau.value()),
                decreases rows.len() - i,
            {
                assert(rows[i as int]@.len() >= rows[0]@.len());
                let term = rows[i][c].mul(&powers[i]);
                acc = acc.add(&term);
                proof {
                    let col = column(rows@, c as int);
                    let s1 = col.subrange(0, i + 1);
                    assert(s1.drop_last() =~= col.subrange(0, i as int));
                    vstd::arithmetic::div_mod::lemma_add_mod_noop_right(
                        weighted_sum(col.subrange(0, i as int), st, tau.value()) as int,
                        (col[i as int] * power_from(st, tau.value(), i as nat)) as int,
                        fr_modulus() as int,
                    );
                }
                i = i + 1;
            }
            assert(column(rows@, c as int).subrange(0, rows.len() as int) =~= column(rows@, c as int));
            out.push(acc);
            c = c + 1;
        }
        (out, cur)
    }
}

/// Folds a list into one value with the powers of a challenge:
/// `list[0] + list[1] * tau + list[2] * tau^2 + ...`.
pub trait AggregationTree<T: View> {
    /// The root as a plain value.
    spec fn root_view(&self, tau: nat) -> T::V;

    fn compute_root(&self, tau: &Scalar) -> (r: T)
        requires
            tau.wf(),
        ensures
            r@ == self.root_view(tau.value()),
    ;
}

/// `sum_i vals[i] * start * t^i`, computed in index order.
pub fn power_sum(vals: &Vec<Scalar>, start: &Scalar, tau: &Scalar) -> (r: Scalar)
    requires
        start.wf(),
        tau.wf(),
    ensures
        r.wf(),
        r.value() == weighted_sum(scalars_value(vals@), start.value(), tau.value()),
{
    let ghost vv = scalars_value(vals@);
    let mut acc = Scalar::zero();
    let mut p = *start;
    let mut i: usize = 0;
    proof {
        lemma_power_zero(start.value(), tau.value());
    }
    while i < vals.len()
        invariant
            i <= vals.len(),
            vv == scalars_value(vals@),
            acc.wf(),
            p.wf(),
            tau.wf(),
            p.value() == power_from(start.value(), tau.value(), i as nat),
            acc.value() == weighted_sum(vv.subrange(0, i as int), start.value(), tau.value()),
        decreases vals.len() - i,
    {
        let t = vals[i].mul(&p);
        acc = acc.add(&t);
        proof {
            let s1 = vv.subrange(0, i + 1);
            assert(s1.drop_last() =~= vv.subrange(0, i as int));
            vstd::arithmetic::div_mod::lemma_add_mod_noop_right(
                weighted_sum(vv.subrange(0, i as int), start.value(), tau.value()) as int,
                (vv[i as int] * power_from(start.value(), tau.value(), i as nat)) as int,
                fr_modulus() as int,
            );
            lemma_power_step(start.value(), tau.value(), i as nat);
        }
        p = p.mul(tau);
        i = i + 1;
    }
    assert(vv.subrange(0, vals.len() as int) =~= vv);
    acc
}

impl AggregationTree<Scalar> for Vec<Scalar> {
    open spec fn root_view(&self, tau: nat) -> nat {
        weighted_sum(scalars_value(self@), 1, tau)
    }

    fn compute_root(&self, tau: &Scalar) -> (r: Scalar) {
        power_sum(self, &Scalar::one(), tau)
    }
}

impl AggregationTree<Point> for Vec<Point> {
    /// The multi-scalar product with `1, tau, tau^2, ...`.
    open spec fn root_view(&self, tau: nat) -> PointView {
        g1_msm_of(points_view(self@), tau_powers(1, tau, self@.len()))
    }

    fn compute_root(&self, tau: &Scalar) -> (r: Point) {
        Pedersen::aggregate(self, tau, Some(Scalar::one())).0
    }
}

impl AggregationTree<CM> for Vec<CM> {
    /// Messages and blindings, each folded on its own.
    open spec fn root_view(&self, tau: nat) -> (nat, nat) {
        (
            weighted_sum(self@.map_values(|c: CM| c.msg.value()), 1, tau),
            weighted_sum(self@.map_values(|c: CM| c.rand.value()), 1, tau),
        )
    }

    fn compute_root(&self, tau: &Scalar) -> (r: CM) {
        let mut msgs: Vec<Scalar> = Vec::new();
        let mut rands: Vec<Scalar> = Vec::new();
        let mut i: usize = 0;
        while i < self.len()
            invariant
                i <= self.len(),
                msgs@.len() == i,
                rands@.len() == i,
                forall|k: int| 0 <= k < i ==> #[trigger] msgs@[k] == self@[k].msg,
                forall|k: int| 0 <= k < i ==> #[trigger] rands@[k] == self@[k].rand,
            decreases self.len() - i,
        {
            msgs.push(self[i].msg);
            rands.push(self[i].rand);
            i = i + 1;
        }
        assert(scalars_value(msgs@) =~= self@.map_values(|c: CM| c.msg.value()));
        assert(scalars_value(rands@) =~= self@.map_values(|c: CM| c.rand.value()));
        let one = Scalar::one();
        CM { msg: power_sum(&msgs, &one, tau), rand: power_sum(&rands, &one, tau) }
    }
}

proof fn lemma_fr_pow_adds(t: nat, a: nat, j: nat)
    ensures
        fr_pow(t, a + j) == (fr_pow(t, a) * fr_pow(t, j)) % fr_modulus(),
    decreases j,
{
    let m = fr_modulus() as int;
    if j == 0 {
        assert(fr_pow(t, 0) == 1);
        assert(a + 0 == a);
        if a == 0 {
            vstd::arithmetic::div_mod::lemma_small_mod(1, m as nat);
        } else {
            vstd::arithmetic::div_mod::lemma_mod_twice((fr_pow(t, (a - 1) as nat) * t) as int, m);
        }
        assert(fr_pow(t, a) * 1 == fr_pow(t, a));
    } else {
        lemma_fr_pow_adds(t, a, (j - 1) as nat);
        let pa = fr_pow(t, a) as int;
        let pj1 = fr_pow(t, (j - 1) as nat) as int;
        assert(fr_pow(t, a + j) == (fr_pow(t, (a + j - 1) as nat) * t) % fr_modulus());
        assert((a + j - 1) as nat == a + (j - 1) as nat);
        // fr_pow(t, a + j) == (((pa * pj1) % m) * t) % m == (pa * (pj1 * t)) % m
        vstd::arithmetic::div_mod::lemma_mul_mod_noop_left(pa * pj1, t as int, m);
        vstd::arithmetic::div_mod::lemma_mul_mod_noop_right(pa, pj1 * t, m);
        assert((pa * pj1) * t == pa * (pj1 * t)) by (nonlinear_arith);
        assert(fr_pow(t, j) == (pj1 * t) % m);
    }
}

proof fn lemma_power_from_shift(start: nat, t: nat, a: nat, j: nat)
    ensures
        power_from(power_from(start, t, a), t, j) == power_from(start, t, a + j),
{
    let m = fr_modulus() as int;
    lemma_fr_pow_adds(t, a, j);
    let pa = fr_pow(t, a) as int;
    let pj = fr_pow(t, j) as int;
    vstd::arithmetic::div_mod::lemma_mul_mod_noop_left(start * pa, pj, m);
    vstd::arithmetic::div_mod::lemma_mul_mod_noop_right(start as int, pa * pj, m);
    assert((start * pa) * pj == start * (pa * pj)) by (nonlinear_arith);
}

proof fn lemma_weighted_sum_bound(v: Seq<nat>, start: nat, t: nat)
    ensures
        weighted_sum(v, start, t) < fr_modulus(),
{
    if v.len() > 0 {
        vstd::arithmetic::div_mod::lemma_mod_bound(
            (weighted_sum(v.drop_last(), start, t) + v.last() * power_from(start, t, (v.len() - 1) as nat)) as int,
            fr_modulus() as int,
        );
    }
}

proof fn lemma_add_mod_regroup(x: int, y: int, z: int, m: int)
    requires
        m > 0,
    ensures
        ((x + y) % m + z) % m == (x + (y + z) % m) % m,
{
    vstd::arithmetic::div_mod::lemma_add_mod_noop_right((x + y) % m, z, m);
    vstd::arithmetic::div_mod::lemma_add_mod_noop(x + y, z, m);
    vstd::arithmetic::div_mod::lemma_add_mod_noop_right(x, y + z, m);
    assert(x + y + z == x + (y + z));
}

/// Aggregation chains: aggregating `a` and then `b`, with `b`'s powers
/// starting where `a`'s ended, sums to aggregating `a + b` at once.
pub proof fn lemma_aggregate_chains(a: Seq<nat>, b: Seq<nat>, start: nat, t: nat)
    ensures
        weighted_sum(a + b, start, t) == (weighted_sum(a, start, t) + weighted_sum(
            b,
            power_from(start, t, a.len()),
            t,
        )) % fr_modulus(),
    decreases b.len(),
{
    let m = fr_modulus() as int;
    let s2 = power_from(start, t, a.len());
    lemma_weighted_sum_bound(a, start, t);
    if b.len() == 0 {
        assert(a + b =~= a);
        vstd::arithmetic::div_mod::lemma_small_mod(weighted_sum(a, start, t), m as nat);
    } else {
        let b1 = b.drop_last();
        lemma_aggregate_chains(a, b1, start, t);
        assert((a + b).drop_last() =~= a + b1);
        assert((a + b).last() == b.last());
        lemma_power_from_shift(start, t, a.len(), (b.len() - 1) as nat);
        assert(((a + b).len() - 1) as nat == a.len() + (b.len() - 1) as nat);
        lemma_add_mod_regroup(
            weighted_sum(a, start, t) as int,
            weighted_sum(b1, s2, t) as int,
            (b.last() * power_from(s2, t, (b.len() - 1) as nat)) as int,
            m,
        );
    }
}

/// The aggregation powers without an initial value are `tau^1, tau^2, ...`.
pub proof fn lemma_powers_start_at_tau(t: nat, i: nat)
    requires
        t < fr_modulus(),
    ensures
        power_from(t, t, i) == fr_pow(t, i + 1),
{
    lemma_fr_pow_adds(t, 1, i);
    assert(fr_pow(t, 1) == (fr_pow(t, 0) * t) % fr_modulus());
    assert(fr_pow(t, 0) == 1);
    vstd::arithmetic::div_mod::lemma_small_mod(t, fr_modulus());
    assert(1 * t == t);
    assert(i + 1 == 1 + i);
}

/// Aggregation without an initial power weighs entry `i` with `tau^(i + 1)`.
pub proof fn lemma_aggregate_is_power_sum(t: nat, n: nat)
    requires
        t < fr_modulus(),
    ensures
        tau_powers(t, t, n) == Seq::new(n, |i: int| fr_pow(t, (i + 1) as nat)),
{
    assert forall|i: int| 0 <= i < n implies #[trigger] tau_powers(t, t, n)[i] == fr_pow(t, (i + 1) as nat) by {
        lemma_powers_start_at_tau(t, i as nat);
    }
    assert(tau_powers(t, t, n) =~= Seq::new(n, |i: int| fr_pow(t, (i + 1) as nat)));
}

/// The root is the power sum with `list[0]` as the base:
/// `list[0] + sum_(i >= 1) list[i] * tau^i` in the scalar field.
pub proof fn lemma_root_is_power_sum(l: Seq<nat>, tau: nat)
    requires
        l.len() >= 1,
        l[0] < fr_modulus(),
        tau < fr_modulus(),
    ensures
        weighted_sum(l, 1, tau) == (l[0] + weighted_sum(l.drop_first(), tau, tau)) % fr_modulus(),
{
    let head = seq![l[0]];
    assert(head + l.drop_first() =~= l);
    lemma_aggregate_chains(head, l.drop_first(), 1, tau);
    lemma_power_zero(1, tau);
    assert(head.drop_last().len() == 0);
    assert(weighted_sum(head.drop_last(), 1, tau) == 0);
    assert(head.last() * power_from(1, tau, 0) == l[0]);
    vstd::arithmetic::div_mod::lemma_small_mod(l[0], fr_modulus());
    assert(weighted_sum(head, 1, tau) == l[0]);
    lemma_powers_start_at_tau(tau, 0);
    lemma_power_zero(tau, tau);
    assert(fr_pow(tau, 1) == (fr_pow(tau, 0) * tau) % fr_modulus());
    assert(fr_pow(tau, 0) == 1);
    assert(1 * tau == tau);
    vstd::arithmetic::div_mod::lemma_small_mod(tau, fr_modulus());
    assert(power_from(1, tau, 1) == (1 * fr_pow(tau, 1)) % fr_modulus());
    assert(power_from(1, tau, 1) == tau);
}

} // verus!
