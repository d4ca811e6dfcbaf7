//! The compressed discrete-log equality argument: a proof that one vector `z`
//! opens both `y = <g, z>` and `y_hat = <g_hat, z>`, folded in half round by
//! round until two entries are left.
use crate::field::{fr_modulus, limbs_be, scalar_of, Scalar};
use crate::group::{generator_view, g1_add_of, g1_msm_of, g1_mul_of, points_be, points_to_be, points_view, scalars_value, msm, Point, PointView};
use crate::slices::take_range;
use crate::transcript::{challenge_of, label_bytes, SHA3Base};
use vstd::prelude::*;

verus! {

/// `2^k`.
pub open spec fn pow2(k: nat) -> nat
    decreases k,
{
    if k == 0 {
        1
    } else {
        2 * pow2((k - 1) as nat)
    }
}

/// `n` is a power of two.
pub open spec fn is_pow2(n: nat) -> bool {
    exists|k: nat| pow2(k) == n
}

/// Public parameters: two bases of equal length.
#[derive(Clone, Debug)]
pub struct PublicParameters {
    pub g: Vec<Point>,
    pub g_hat: Vec<Point>,
}

/// The statement: `y = <g, z>` and `y_hat = <g_hat, z>`.
#[derive(Clone, Copy, Debug)]
pub struct Instance {
    pub y: Point,
    pub y_hat: Point,
}

/// The opening vector.
#[derive(Clone, Debug)]
pub struct Witness {
    pub z: Vec<Scalar>,
}

/// The cross terms of one folding round.
#[derive(Clone, Copy, Debug)]
pub struct Commitment {
    pub left: Point,
    pub right: Point,
    pub left_hat: Point,
    pub right_hat: Point,
}

/// One commitment per round, then the two entries left of `z`.
#[derive(Clone, Debug)]
pub struct Proof {
    pub commitments: Vec<Commitment>,
    pub z: Vec<Scalar>,
}

/// The compressed discrete-log equality protocol.
pub struct CompDLEq;

/// The rounds stop at this length.
pub const THRESHOLD: usize = 2;

/// The points of a round commitment, in transcript order.
pub open spec fn commitment_points(c: Commitment) -> Seq<Point> {
    seq![c.left, c.right, c.left_hat, c.right_hat]
}

/// The transcript input of a round: the label "commitments" with the four
/// points, then the label "challenge".
pub open spec fn round_input(state: Seq<u8>, use_label: bool, c: Commitment) -> Seq<u8> {
    state + label_bytes(use_label, "commitments") + points_be(commitment_points(c)) + label_bytes(
        use_label,
        "challenge",
    )
}

/// The challenge of a round, drawn from the transcript state `state`.
pub open spec fn round_challenge(state: Seq<u8>, use_label: bool, c: Commitment) -> Scalar {
    scalar_of(challenge_of(round_input(state, use_label, c)))
}

/// The transcript state after the rounds of `cs`.
pub open spec fn state_after(state: Seq<u8>, use_label: bool, cs: Seq<Commitment>) -> Seq<u8>
    decreases cs.len(),
{
    if cs.len() == 0 {
        state
    } else {
        let prev = state_after(state, use_label, cs.drop_last());
        limbs_be(round_challenge(prev, use_label, cs.last()).limbs)
    }
}

/// The challenges of successive rounds, each drawn after the one before.
pub open spec fn round_challenges(state: Seq<u8>, use_label: bool, cs: Seq<Commitment>) -> Seq<
    Scalar,
>
    decreases cs.len(),
{
    if cs.len() == 0 {
        seq![]
    } else {
        let prev = state_after(state, use_label, cs.drop_last());
        round_challenges(state, use_label, cs.drop_last()).push(
            round_challenge(prev, use_label, cs.last()),
        )
    }
}

/// `left + c * y + c^2 * right`: the statement of the folded relation.
pub open spec fn fold_point(y: PointView, left: PointView, right: PointView, c: nat) -> PointView {
    g1_add_of(g1_add_of(left, g1_mul_of(y, c)), g1_mul_of(right, (c * c) % fr_modulus()))
}

/// The bases folded in half: `g[i] * c + g[mid + i]`.
pub open spec fn fold_bases(g: Seq<PointView>, c: nat) -> Seq<PointView> {
    Seq::new(g.len() / 2, |i: int| g1_add_of(g1_mul_of(g[i], c), g[g.len() / 2 + i]))
}

/// The witness folded in half: `z[i] + c * z[mid + i]`.
pub open spec fn fold_witness(z: Seq<nat>, c: nat) -> Seq<nat> {
    Seq::new(z.len() / 2, |i: int| (z[i] + (c * z[z.len() / 2 + i]) % fr_modulus()) % fr_modulus())
}

/// The statement after folding with each commitment and its challenge in turn.
pub open spec fn fold_instance(y: PointView, y_hat: PointView, cs: Seq<Commitment>, chs: Seq<Scalar>) -> (
    PointView,
    PointView,
)
    decreases cs.len(),
{
    if cs.len() == 0 || chs.len() != cs.len() {
        (y, y_hat)
    } else {
        let prev = fold_instance(y, y_hat, cs.drop_last(), chs.drop_last());
        let c = cs.last();
        let e = chs.last().value();
        (fold_point(prev.0, c.left@, c.right@, e), fold_point(prev.1, c.left_hat@, c.right_hat@, e))
    }
}

/// The coefficient of the base at index `2 * idx + b` after all rounds: the
/// product of the challenges of the rounds in which that index sat in the
/// first half. Round `k - 1 - j` decides by bit `j` of `idx`.
pub open spec fn base_factor(chs: Seq<nat>, idx: nat, j: nat) -> nat
    decreases j,
{
    if j == 0 {
        1
    } else {
        let bit_is_zero = (idx / pow2((j - 1) as nat)) % 2 == 0;
        let rest = base_factor(chs, idx, (j - 1) as nat);
        if bit_is_zero {
            (rest * chs[chs.len() - j]) % fr_modulus()
        } else {
            rest
        }
    }
}

/// The coefficients of all `2^k` index pairs.
pub open spec fn base_factors(chs: Seq<nat>) -> Seq<nat> {
    Seq::new(pow2(chs.len()), |idx: int| base_factor(chs, idx as nat, chs.len()))
}

/// The entries at even (`b == 0`) or odd (`b == 1`) indices.
pub open spec fn parity_part<T>(s: Seq<T>, b: int) -> Seq<T> {
    Seq::new(s.len() / 2, |i: int| s[2 * i + b])
}

/// The closing check on the two bases `g0, g1` and the two entries of `z`.
pub open spec fn closing_point(g0: PointView, g1: PointView, z0: nat, z1: nat) -> PointView {
    g1_add_of(g1_mul_of(g0, z0), g1_mul_of(g1, z1))
}

/// What the verifier accepts, over plain values: with the challenges that the
/// transcript yields round by round, the folded statement equals the closing
/// relation on the folded bases.
pub open spec fn accepts(
    g: Seq<PointView>,
    h: Seq<PointView>,
    y: PointView,
    y_hat: PointView,
    cs: Seq<Commitment>,
    z: Seq<nat>,
    state: Seq<u8>,
    use_label: bool,
) -> bool {
    let chs = round_challenges(state, use_label, cs);
    let folded = fold_instance(y, y_hat, cs, chs);
    let f = base_factors(scalars_value(chs));
    &&& folded.0 == closing_point(
        g1_msm_of(parity_part(g, 0), f),
        g1_msm_of(parity_part(g, 1), f),
        z[0],
        z[1],
    )
    &&& folded.1 == closing_point(
        g1_msm_of(parity_part(h, 0), f),
        g1_msm_of(parity_part(h, 1), f),
        z[0],
        z[1],
    )
}

/// What the verifier accepts, on the bases padded with the generator to a
/// power of two.
pub open spec fn verify_outcome(
    pp: &PublicParameters,
    instance: &Instance,
    proof: &Proof,
    state: Seq<u8>,
    use_label: bool,
) -> bool {
    let n = rescaled(pp.g.len() as nat);
    accepts(
        padded_bases(points_view(pp.g@), n),
        padded_bases(points_view(pp.g_hat@), n),
        instance.y@,
        instance.y_hat@,
        proof.commitments@,
        scalars_value(proof.z@),
        state,
        use_label,
    )
}

/// The bases after folding with each challenge in turn.
pub open spec fn bases_after(g: Seq<PointView>, chs: Seq<Scalar>) -> Seq<PointView>
    decreases chs.len(),
{
    if chs.len() == 0 {
        g
    } else {
        fold_bases(bases_after(g, chs.drop_last()), chs.last().value())
    }
}

/// The witness after folding with each challenge in turn.
pub open spec fn witness_after(z: Seq<nat>, chs: Seq<Scalar>) -> Seq<nat>
    decreases chs.len(),
{
    if chs.len() == 0 {
        z
    } else {
        fold_witness(witness_after(z, chs.drop_last()), chs.last().value())
    }
}

/// The cross terms of a round on bases `g`, `h` and witness `z`: `left`,
/// `right`, `left_hat`, `right_hat`.
pub open spec fn cross_terms(g: Seq<PointView>, h: Seq<PointView>, z: Seq<nat>) -> Seq<PointView> {
    let mid = z.len() / 2;
    let lo = z.subrange(0, mid as int);
    let hi = z.subrange(mid as int, 2 * mid as int);
    seq![
        g1_msm_of(g.subrange(mid as int, 2 * mid as int), lo),
        g1_msm_of(g.subrange(0, mid as int), hi),
        g1_msm_of(h.subrange(mid as int, 2 * mid as int), lo),
        g1_msm_of(h.subrange(0, mid as int), hi),
    ]
}

/// The points of a round commitment as plain values.
pub open spec fn commitment_views(c: Commitment) -> Seq<PointView> {
    seq![c.left@, c.right@, c.left_hat@, c.right_hat@]
}

/// `v` followed by zeros up to length `n`.
pub open spec fn padded(v: Seq<nat>, n: nat) -> Seq<nat> {
    v + Seq::new((n - v.len()) as nat, |i: int| 0nat)
}

/// `g` followed by the generator up to length `n`.
pub open spec fn padded_bases(g: Seq<PointView>, n: nat) -> Seq<PointView> {
    g + Seq::new((n - g.len()) as nat, |i: int| generator_view())
}

/// The power of two that a length is padded to.
pub open spec fn rescaled(l: nat) -> nat {
    choose|r: nat| is_rescaled(l, r)
}

/// The smallest power of two that is at least `l` (and at least one).
pub open spec fn is_rescaled(l: nat, r: nat) -> bool {
    &&& is_pow2(r)
    &&& r >= l
    &&& (r == 1 || r / 2 < l)
}

/// A length's padded size is the one power of two that rescales it.
pub(crate) proof fn lemma_rescaled_is(l: nat, r: nat)
    requires
        is_rescaled(l, r),
    ensures
        rescaled(l) == r,
{
    let c = rescaled(l);
    assert(is_rescaled(l, c));
    lemma_rescaled_unique(l, c, r);
}

/// A length above two pads to a size above two, and no other does.
proof fn lemma_rescaled_big(l: nat, r: nat)
    requires
        is_rescaled(l, r),
    ensures
        (l > 2) == (r > 2),
{
    let k = choose|k: nat| pow2(k) == r;
    if r > 2 {
        if k >= 2 {
            lemma_pow2_grows(1, k);
            assert(pow2(1) == 2 * pow2(0));
            assert(pow2(0) == 1);
        } else if k == 1 {
            assert(pow2(1) == 2 * pow2(0));
            assert(pow2(0) == 1);
        } else {
            assert(pow2(0) == 1);
        }
    }
}

proof fn lemma_round_challenges_len(state: Seq<u8>, use_label: bool, cs: Seq<Commitment>)
    ensures
        round_challenges(state, use_label, cs).len() == cs.len(),
    decreases cs.len(),
{
    if cs.len() > 0 {
        lemma_round_challenges_len(state, use_label, cs.drop_last());
    }
}

proof fn lemma_after_push(g: Seq<PointView>, z: Seq<nat>, chs: Seq<Scalar>, ch: Scalar)
    ensures
        bases_after(g, chs.push(ch)) == fold_bases(bases_after(g, chs), ch.value()),
        witness_after(z, chs.push(ch)) == fold_witness(witness_after(z, chs), ch.value()),
{
    assert(chs.push(ch).drop_last() =~= chs);
}

/// One prover round keeps every commitment equal to the cross terms of the
/// bases and witness folded with the challenges before it.
proof fn lemma_prover_round(
    gv0: Seq<PointView>,
    hv0: Seq<PointView>,
    zp: Seq<nat>,
    before: Seq<Commitment>,
    chs: Seq<Scalar>,
    c: Commitment,
    ch: Scalar,
    g: Seq<Point>,
    h: Seq<Point>,
    z: Seq<Scalar>,
)
    requires
        chs.len() == before.len(),
        points_view(g) == bases_after(gv0, chs),
        points_view(h) == bases_after(hv0, chs),
        scalars_value(z) == witness_after(zp, chs),
        forall|j: int|
            0 <= j < before.len() ==> #[trigger] commitment_views(before[j]) == cross_terms(
                bases_after(gv0, chs.subrange(0, j)),
                bases_after(hv0, chs.subrange(0, j)),
                witness_after(zp, chs.subrange(0, j)),
            ),
        ({
            let mid = z.len() as int / 2;
            let z_lo = scalars_value(z.subrange(0, mid));
            let z_hi = scalars_value(z.subrange(mid, 2 * mid));
            &&& c.left@ == g1_msm_of(points_view(g.subrange(mid, 2 * mid)), z_lo)
            &&& c.right@ == g1_msm_of(points_view(g.subrange(0, mid)), z_hi)
            &&& c.left_hat@ == g1_msm_of(points_view(h.subrange(mid, 2 * mid)), z_lo)
            &&& c.right_hat@ == g1_msm_of(points_view(h.subrange(0, mid)), z_hi)
        }),
        z.len() == g.len(),
        z.len() == h.len(),
    ensures
        forall|j: int|
            0 <= j < before.len() + 1 ==> #[trigger] commitment_views(before.push(c)[j]) == cross_terms(
                bases_after(gv0, chs.push(ch).subrange(0, j)),
                bases_after(hv0, chs.push(ch).subrange(0, j)),
                witness_after(zp, chs.push(ch).subrange(0, j)),
            ),
{
    let mid = z.len() as int / 2;
    assert(points_view(g.subrange(mid, 2 * mid)) =~= points_view(g).subrange(mid, 2 * mid));
    assert(points_view(g.subrange(0, mid)) =~= points_view(g).subrange(0, mid));
    assert(points_view(h.subrange(mid, 2 * mid)) =~= points_view(h).subrange(mid, 2 * mid));
    assert(points_view(h.subrange(0, mid)) =~= points_view(h).subrange(0, mid));
    assert(scalars_value(z.subrange(0, mid)) =~= scalars_value(z).subrange(0, mid));
    assert(scalars_value(z.subrange(mid, 2 * mid)) =~= scalars_value(z).subrange(mid, 2 * mid));
    assert(commitment_views(c) =~= cross_terms(points_view(g), points_view(h), scalars_value(z)));
    let chs2 = chs.push(ch);
    assert forall|j: int| 0 <= j < before.len() + 1 implies #[trigger] commitment_views(
        before.push(c)[j],
    ) == cross_terms(
        bases_after(gv0, chs2.subrange(0, j)),
        bases_after(hv0, chs2.subrange(0, j)),
        witness_after(zp, chs2.subrange(0, j)),
    ) by {
        if j < before.len() {
            assert(chs2.subrange(0, j) =~= chs.subrange(0, j));
        } else {
            assert(chs2.subrange(0, j) =~= chs);
        }
    }
}

proof fn lemma_pow2_grows(a: nat, b: nat)
    requires
        a < b,
    ensures
        pow2(b) >= 2 * pow2(a),
    decreases b,
{
    if b > a + 1 {
        lemma_pow2_grows(a, (b - 1) as nat);
    }
    lemma_pow2_positive(a);
}

pub(crate) proof fn lemma_pow2_positive(a: nat)
    ensures
        pow2(a) >= 1,
    decreases a,
{
    if a > 0 {
        lemma_pow2_positive((a - 1) as nat);
    }
}

/// The power of two that rescales a length is unique.
proof fn lemma_rescaled_unique(l: nat, r1: nat, r2: nat)
    requires
        is_rescaled(l, r1),
        is_rescaled(l, r2),
    ensures
        r1 == r2,
{
    let a = choose|k: nat| pow2(k) == r1;
    let b = choose|k: nat| pow2(k) == r2;
    if a < b {
        lemma_pow2_grows(a, b);
    } else if b < a {
        lemma_pow2_grows(b, a);
    }
}

impl CompDLEq {
    /// The smallest power of two that is at least `l` (one for zero).
    pub fn rescale_size(l: usize) -> (r: usize)
        requires
            l <= usize::MAX / 2,
        ensures
            is_rescaled(l as nat, r as nat),
    {
        let mut r: usize = 1;
        let ghost mut k: nat = 0;
        while r < l
            invariant
                pow2(k) == r,
                r >= 1,
                r == 1 || r / 2 < l,
                l <= usize::MAX / 2,
            decreases 2 * l - r,
        {
            r = r * 2;
            proof {
                k = k + 1;
            }
        }
        r
    }

    /// Pads both bases with the generator up to a power of two; an error when
    /// their lengths differ.
    pub fn prepare_public_parameters(pp: &PublicParameters) -> (r: Result<PublicParameters, ()>)
        requires
            pp.g.len() <= usize::MAX / 2,
        ensures
            r is Err <==> pp.g.len() != pp.g_hat.len(),
            r matches Ok(q) ==> is_rescaled(pp.g.len() as nat, q.g.len() as nat),
            r matches Ok(q) ==> q.g.len() == q.g_hat.len(),
            r matches Ok(q) ==> q.g@.subrange(0, pp.g.len() as int) == pp.g@,
            r matches Ok(q) ==> q.g_hat@.subrange(0, pp.g.len() as int) == pp.g_hat@,
            r matches Ok(q) ==> points_view(q.g@) == padded_bases(points_view(pp.g@), q.g.len() as nat),
            r matches Ok(q) ==> points_view(q.g_hat@) == padded_bases(
                points_view(pp.g_hat@),
                q.g.len() as nat,
            ),
    {
        if pp.g.len() != pp.g_hat.len() {
            return Err(());
        }
        let size = Self::rescale_size(pp.g.len());
        let mut g = take_range(&pp.g, 0, pp.g.len());
        let mut g_hat = take_range(&pp.g_hat, 0, pp.g_hat.len());
        let ghost n = pp.g.len();
        while g.len() < size
            invariant
                g.len() == g_hat.len(),
                n <= g.len() <= size,
                g@.subrange(0, n as int) == pp.g@,
                g_hat@.subrange(0, n as int) == pp.g_hat@,
                forall|i: int| n <= i < g.len() ==> #[trigger] g@[i]@ == generator_view(),
                forall|i: int| n <= i < g.len() ==> #[trigger] g_hat@[i]@ == generator_view(),
            decreases size - g.len(),
        {
            let ghost g0 = g@;
            let ghost h0 = g_hat@;
            g.push(Point::generator());
            g_hat.push(Point::generator());
            assert(g@.subrange(0, n as int) =~= g0.subrange(0, n as int));
            assert(g_hat@.subrange(0, n as int) =~= h0.subrange(0, n as int));
        }
        assert(points_view(g@) =~= padded_bases(points_view(pp.g@), g.len() as nat)) by {
            assert forall|i: int| 0 <= i < n implies #[trigger] g@[i] == pp.g@[i] by {
                assert(g@.subrange(0, n as int)[i] == g@[i]);
            }
        }
        assert(points_view(g_hat@) =~= padded_bases(points_view(pp.g_hat@), g.len() as nat)) by {
            assert forall|i: int| 0 <= i < n implies #[trigger] g_hat@[i] == pp.g_hat@[i] by {
                assert(g_hat@.subrange(0, n as int)[i] == g_hat@[i]);
            }
        }
        Ok(PublicParameters { g, g_hat })
    }

    /// Pads `z` with zeros up to a power of two.
    pub fn prepare_witness(witness: &Witness) -> (r: Result<Witness, ()>)
        requires
            witness.z.len() <= usize::MAX / 2,
        ensures
            r matches Ok(w) && is_rescaled(witness.z.len() as nat, w.z.len() as nat)
                && w.z@.subrange(0, witness.z.len() as int) == witness.z@ && forall|i: int|
                witness.z.len() <= i < w.z.len() ==> (#[trigger] w.z@[i]).value() == 0,
    {
        let size = Self::rescale_size(witness.z.len());
        let mut z = take_range(&witness.z, 0, witness.z.len());
        let ghost n = witness.z.len();
        while z.len() < size
            invariant
                n <= z.len() <= size,
                z@.subrange(0, n as int) == witness.z@,
                forall|i: int| n <= i < z.len() ==> (#[trigger] z@[i]).value() == 0,
            decreases size - z.len(),
        {
            let ghost z0 = z@;
            z.push(Scalar::zero());
            assert(z@.subrange(0, n as int) =~= z0.subrange(0, n as int));
        }
        Ok(Witness { z })
    }

    /// Folds a base in half with challenge `c`.
    fn fold_base(g: &Vec<Point>, c: &Scalar) -> (r: Vec<Point>)
        ensures
            points_view(r@) == fold_bases(points_view(g@), c.value()),
    {
        let mid = g.len() / 2;
        let mut r: Vec<Point> = Vec::new();
        let mut i: usize = 0;
        while i < mid
            invariant
                mid == g.len() / 2,
                i <= mid,
                r@.len() == i,
                forall|k: int| 0 <= k < i ==> #[trigger] r@[k]@ == fold_bases(points_view(g@), c.value())[k],
            decreases mid - i,
        {
            let p = g[i].scale(c).add(&g[mid + i]);
            r.push(p);
            i = i + 1;
        }
        assert(points_view(r@) =~= fold_bases(points_view(g@), c.value()));
        r
    }

    /// Folds the bases and the statement with a round's commitment and
    /// challenge; an error when the bases differ in length.
    pub fn update_public_parameters_and_instance(
        pp: &PublicParameters,
        instance: &Instance,
        commitment: &Commitment,
        challenge: Scalar,
    ) -> (r: Result<(PublicParameters, Instance), ()>)
        requires
            challenge.wf(),
        ensures
            r is Err <==> pp.g.len() != pp.g_hat.len(),
            r matches Ok((q, i)) ==> {
                &&& points_view(q.g@) == fold_bases(points_view(pp.g@), challenge.value())
                &&& points_view(q.g_hat@) == fold_bases(points_view(pp.g_hat@), challenge.value())
                &&& i.y@ == fold_point(instance.y@, commitment.left@, commitment.right@, challenge.value())
                &&& i.y_hat@ == fold_point(
                    instance.y_hat@,
                    commitment.left_hat@,
                    commitment.right_hat@,
                    challenge.value(),
                )
            },
    {
        if pp.g.len() != pp.g_hat.len() {
            return Err(());
        }
        let sqr = challenge.mul(&challenge);
        let y = commitment.left.add(&instance.y.scale(&challenge)).add(&commitment.right.scale(&sqr));
        let y_hat = commitment.left_hat.add(&instance.y_hat.scale(&challenge)).add(
            &commitment.right_hat.scale(&sqr),
        );
        let g = Self::fold_base(&pp.g, &challenge);
        let g_hat = Self::fold_base(&pp.g_hat, &challenge);
        Ok((PublicParameters { g, g_hat }, Instance { y, y_hat }))
    }

    /// The cross terms of a round: `left = <g[mid..], z[..mid]>`,
    /// `right = <g[..mid], z[mid..]>`, and the same under `g_hat`; an error
    /// when `z`, `g` and `g_hat` differ in length.
    pub fn compute_depth_commitment_from_updated_parameters(
        pp: &PublicParameters,
        witness: &Witness,
    ) -> (r: Result<Commitment, ()>)
        ensures
            r is Err <==> (witness.z.len() != pp.g.len() || witness.z.len() != pp.g_hat.len()),
            r matches Ok(c) ==> {
                let n = witness.z@.len() as int;
                let mid = n / 2;
                let z_lo = scalars_value(witness.z@.subrange(0, mid));
                let z_hi = scalars_value(witness.z@.subrange(mid, 2 * mid));
                &&& c.left@ == g1_msm_of(points_view(pp.g@.subrange(mid, 2 * mid)), z_lo)
                &&& c.right@ == g1_msm_of(points_view(pp.g@.subrange(0, mid)), z_hi)
                &&& c.left_hat@ == g1_msm_of(points_view(pp.g_hat@.subrange(mid, 2 * mid)), z_lo)
                &&& c.right_hat@ == g1_msm_of(points_view(pp.g_hat@.subrange(0, mid)), z_hi)
            },
    {
        if witness.z.len() != pp.g.len() || witness.z.len() != pp.g_hat.len() {
            return Err(());
        }
        let n = witness.z.len();
        let mid = n / 2;
        let z_lo = take_range(&witness.z, 0, mid);
        let z_hi = take_range(&witness.z, mid, 2 * mid);
        let left = msm(&take_range(&pp.g, mid, 2 * mid), &z_lo);
        let right = msm(&take_range(&pp.g, 0, mid), &z_hi);
        let left_hat = msm(&take_range(&pp.g_hat, mid, 2 * mid), &z_lo);
        let right_hat = msm(&take_range(&pp.g_hat, 0, mid), &z_hi);
        Ok(Commitment { left, right, left_hat, right_hat })
    }

    /// Folds the witness in half: `z[i] + c * z[mid + i]`.
    pub fn update_witness(witness: &Witness, challenge: Scalar) -> (r: Result<Witness, ()>)
        ensures
            r matches Ok(w) && scalars_value(w.z@) == fold_witness(
                scalars_value(witness.z@),
                challenge.value(),
            ) && forall|i: int| 0 <= i < w.z@.len() ==> (#[trigger] w.z@[i]).wf(),
    {
        let mid = witness.z.len() / 2;
        let ghost zv = scalars_value(witness.z@);
        let mut z: Vec<Scalar> = Vec::new();
        let mut i: usize = 0;
        while i < mid
            invariant
                mid == witness.z.len() / 2,
                zv == scalars_value(witness.z@),
                i <= mid,
                z@.len() == i,
                forall|k: int| 0 <= k < i ==> (#[trigger] z@[k]).wf() && z@[k].value() == fold_witness(zv, challenge.value())[k],
            decreases mid - i,
        {
            let v = witness.z[i].add(&challenge.mul(&witness.z[mid + i]));
            z.push(v);
            i = i + 1;
        }
        assert(scalars_value(z@) =~= fold_witness(zv, challenge.value()));
        Ok(Witness { z })
    }

    /// Feeds a round's commitment to the transcript and draws its challenge.
    pub fn compute_challenge(commitment: &Commitment, transcript: &mut SHA3Base) -> (r: Scalar)
        ensures
            r.wf(),
            r == round_challenge(old(transcript).bytes@, old(transcript).use_label, *commitment),
            final(transcript).bytes@ == limbs_be(r.limbs),
            final(transcript).use_label == old(transcript).use_label,
    {
        let pts = vec![commitment.left, commitment.right, commitment.left_hat, commitment.right_hat];
        assert(pts@ =~= commitment_points(*commitment));
        let bytes = points_to_be(&pts);
        transcript.append("commitments", bytes.as_slice());
        let r = transcript.challenge_scalar("challenge");
        assert(old(transcript).bytes@ + label_bytes(old(transcript).use_label, "commitments")
            + bytes@ + label_bytes(old(transcript).use_label, "challenge") =~= round_input(
            old(transcript).bytes@,
            old(transcript).use_label,
            *commitment,
        ));
        r
    }

    /// Proves the statement by folding until two entries are left. The bases
    /// are padded with the generator and the witness with zeros, each to a
    /// power of two. An error, before the transcript is touched, when the
    /// bases and the witness do not all have the same length.
    pub fn create_proof(
        pp: &PublicParameters,
        instance: &Instance,
        witness: &Witness,
        transcript: &mut SHA3Base,
    ) -> (r: Result<Proof, ()>)
        requires
            witness.z.len() <= usize::MAX / 2,
            pp.g.len() <= usize::MAX / 2,
        ensures
            r is Err <==> (pp.g.len() != pp.g_hat.len() || witness.z.len() != pp.g.len()),
            r is Err ==> final(transcript).bytes@ == old(transcript).bytes@
                && final(transcript).use_label == old(transcript).use_label,
            r matches Ok(p) ==> {
                &&& final(transcript).bytes@ == state_after(
                    old(transcript).bytes@,
                    old(transcript).use_label,
                    p.commitments@,
                )
                &&& final(transcript).use_label == old(transcript).use_label
                &&& pp.g.len() > THRESHOLD ==> pow2((p.commitments.len() + 1) as nat) == rescaled(
                    pp.g.len() as nat,
                ) && p.z.len() == THRESHOLD
                &&& pp.g.len() <= THRESHOLD ==> p.commitments.len() == 0 && scalars_value(p.z@)
                    == padded(scalars_value(witness.z@), rescaled(witness.z.len() as nat))
                &&& pp.g.len() > THRESHOLD ==> {
                    let n = rescaled(pp.g.len() as nat);
                    let chs = round_challenges(
                        old(transcript).bytes@,
                        old(transcript).use_label,
                        p.commitments@,
                    );
                    let zp = padded(scalars_value(witness.z@), n);
                    &&& scalars_value(p.z@) == witness_after(zp, chs)
                    &&& forall|k: int|
                        0 <= k < p.commitments@.len() ==> #[trigger] commitment_views(
                            p.commitments@[k],
                        ) == cross_terms(
                            bases_after(padded_bases(points_view(pp.g@), n), chs.subrange(0, k)),
                            bases_after(padded_bases(points_view(pp.g_hat@), n), chs.subrange(0, k)),
                            witness_after(zp, chs.subrange(0, k)),
                        )
                }
            },
    {
        if pp.g.len() != pp.g_hat.len() || witness.z.len() != pp.g.len() {
            return Err(());
        }
        let ppad = match Self::prepare_public_parameters(pp) {
            Ok(q) => q,
            Err(_) => return Err(()),
        };
        let mut w = match Self::prepare_witness(witness) {
            Ok(w) => w,
            Err(_) => return Err(()),
        };
        let ghost n0 = ppad.g.len() as nat;
        let ghost ok = is_rescaled(witness.z.len() as nat, n0);
        let ghost gv0 = points_view(ppad.g@);
        let ghost hv0 = points_view(ppad.g_hat@);
        let ghost zp = padded(scalars_value(witness.z@), n0);
        proof {
            lemma_rescaled_is(pp.g.len() as nat, n0);
            lemma_rescaled_is(witness.z.len() as nat, w.z.len() as nat);
            lemma_rescaled_big(pp.g.len() as nat, n0);
            if ok {
                lemma_rescaled_unique(witness.z.len() as nat, w.z.len() as nat, n0);
            }
            assert(scalars_value(w.z@) =~= padded(scalars_value(witness.z@), w.z.len() as nat)) by {
                let n = witness.z.len() as int;
                assert forall|i: int| 0 <= i < w.z.len() implies #[trigger] scalars_value(w.z@)[i]
                    == padded(scalars_value(witness.z@), w.z.len() as nat)[i] by {
                    if i < n {
                        assert(w.z@.subrange(0, n)[i] == w.z@[i]);
                    }
                }
            }
            assert(pow2(0) == 1);
            assert(ok == (rescaled(witness.z.len() as nat) == n0));
            assert(ok);
        }
        let mut cur = PublicParameters {
            g: take_range(&ppad.g, 0, ppad.g.len()),
            g_hat: take_range(&ppad.g_hat, 0, ppad.g_hat.len()),
        };
        let mut inst = *instance;
        let mut commitments: Vec<Commitment> = Vec::new();
        let ghost mut k: nat = 0;
        let ghost b0 = transcript.bytes@;
        let ghost lab = transcript.use_label;
        let ghost mut chs: Seq<Scalar> = seq![];
        while cur.g.len() > THRESHOLD
            invariant
                ok == is_rescaled(witness.z.len() as nat, n0),
                n0 == ppad.g.len(),
                ppad.g.len() == ppad.g_hat.len(),
                n0 == rescaled(pp.g.len() as nat),
                (pp.g.len() > 2) == (n0 > 2),
                ok == (rescaled(witness.z.len() as nat) == n0),
                gv0 == padded_bases(points_view(pp.g@), n0),
                hv0 == padded_bases(points_view(pp.g_hat@), n0),
                k == 0 ==> transcript.bytes@ == b0,
                k == 0 ==> scalars_value(w.z@) == padded(
                    scalars_value(witness.z@),
                    rescaled(witness.z.len() as nat),
                ),
                cur.g.len() == cur.g_hat.len(),
                n0 > 2 ==> cur.g.len() >= 2,
                n0 > 2 && ok ==> w.z.len() == cur.g.len() && pow2(k) * cur.g.len() == n0,
                n0 > 2 && !ok ==> k == 0 && w.z.len() != cur.g.len() && cur.g.len() == n0,
                n0 <= 2 ==> k == 0 && cur.g.len() == n0,
                is_rescaled(witness.z.len() as nat, w.z.len() as nat) || k > 0,
                commitments@.len() == k,
                transcript.bytes@ == state_after(b0, lab, commitments@),
                transcript.use_label == lab,
                b0 == old(transcript).bytes@,
                lab == old(transcript).use_label,
                gv0 == points_view(ppad.g@),
                hv0 == points_view(ppad.g_hat@),
                zp == padded(scalars_value(witness.z@), n0),
                chs == round_challenges(b0, lab, commitments@),
                chs.len() == commitments@.len(),
                n0 > 2 && ok ==> points_view(cur.g@) == bases_after(gv0, chs),
                n0 > 2 && ok ==> points_view(cur.g_hat@) == bases_after(hv0, chs),
                n0 > 2 && ok ==> scalars_value(w.z@) == witness_after(zp, chs),
                n0 > 2 && ok ==> forall|j: int|
                    0 <= j < commitments@.len() ==> #[trigger] commitment_views(commitments@[j]) == cross_terms(
                        bases_after(gv0, chs.subrange(0, j)),
                        bases_after(hv0, chs.subrange(0, j)),
                        witness_after(zp, chs.subrange(0, j)),
                    ),
            decreases cur.g.len(),
        {
            let commitment = match Self::compute_depth_commitment_from_updated_parameters(&cur, &w) {
                Ok(c) => c,
                Err(_) => return Err(()),
            };
            let ghost before = commitments@;
            let ch = Self::compute_challenge(&commitment, transcript);
            let (np, ni) = match Self::update_public_parameters_and_instance(&cur, &inst, &commitment, ch) {
                Ok(x) => x,
                Err(_) => return Err(()),
            };
            let nw = match Self::update_witness(&w, ch) {
                Ok(x) => x,
                Err(_) => return Err(()),
            };
            commitments.push(commitment);
            proof {
                assert(commitments@.drop_last() =~= before);
                if n0 > 2 && ok {
                    lemma_prover_round(gv0, hv0, zp, before, chs, commitment, ch, cur.g@, cur.g_hat@, w.z@);
                    lemma_after_push(gv0, zp, chs, ch);
                    lemma_after_push(hv0, zp, chs, ch);
                }
                chs = chs.push(ch);
                assert(np.g@.len() == points_view(np.g@).len());
                assert(np.g_hat@.len() == points_view(np.g_hat@).len());
                assert(nw.z@.len() == scalars_value(nw.z@).len());
                let m = cur.g.len() as nat;
                assert(m % 2 == 0 && m >= 4) by {
                    if n0 > 2 && ok {
                        assert(is_pow2(n0));
                        let e = choose|j: nat| pow2(j) == n0;
                        assert(pow2(e) == n0);
                        lemma_pow2_even_split(k, e, m);
                    }
                }
                assert(pow2(k + 1) * (m / 2) == pow2(k) * m) by {
                    assert(pow2(k + 1) == 2 * pow2(k));
                    assert(2 * pow2(k) * (m / 2) == pow2(k) * (2 * (m / 2))) by (nonlinear_arith);
                }
                k = k + 1;
            }
            cur = np;
            inst = ni;
            w = nw;
        }
        proof {
            if n0 > 2 {
                assert(ok);
                assert(pow2(k) * 2 == n0);
                assert(pow2(k + 1) == 2 * pow2(k));
            }
        }
        Ok(Proof { commitments, z: w.z })
    }

    /// The coefficient of each index pair after the rounds of `challenges`.
    fn compute_factors(challenges: &Vec<Scalar>, n: usize) -> (r: Vec<Scalar>)
        requires
            n == pow2(challenges.len() as nat),
            forall|i: int| 0 <= i < challenges.len() ==> (#[trigger] challenges@[i]).wf(),
        ensures
            scalars_value(r@) == base_factors(scalars_value(challenges@)),
    {
        let ghost chs = scalars_value(challenges@);
        let k = challenges.len();
        let mut r: Vec<Scalar> = Vec::new();
        let mut idx: usize = 0;
        while idx < n
            invariant
                n == pow2(k as nat),
                k == challenges.len(),
                chs == scalars_value(challenges@),
                idx <= n,
                r@.len() == idx,
                forall|m: int| 0 <= m < idx ==> #[trigger] r@[m].value() == base_factor(chs, m as nat, k as nat),
            decreases n - idx,
        {
            let mut f = Scalar::one();
            let mut rem: usize = idx;
            let mut j: usize = 0;
            proof {
                vstd::arithmetic::div_mod::lemma_small_mod(1, fr_modulus());
                assert(pow2(0) == 1);
                assert(idx as nat / 1 == idx);
            }
            while j < k
                invariant
                    k == challenges.len(),
                    chs == scalars_value(challenges@),
                    j <= k,
                    rem == idx as nat / pow2(j as nat),
                    f.value() == base_factor(chs, idx as nat, j as nat),
                    f.wf(),
                decreases k - j,
            {
                proof {
                    lemma_pow2_positive(j as nat);
                    vstd::arithmetic::div_mod::lemma_div_denominator(idx as int, pow2(j as nat) as int, 2);
                    assert(pow2((j + 1) as nat) == pow2(j as nat) * 2);
                }
                if rem % 2 == 0 {
                    f = f.mul(&challenges[k - 1 - j]);
                }
                rem = rem / 2;
                j = j + 1;
            }
            r.push(f);
            idx = idx + 1;
        }
        assert(scalars_value(r@) =~= base_factors(chs));
        r
    }

    /// The entries at even (`b == 0`) or odd (`b == 1`) indices, copied.
    fn take_parity(v: &Vec<Point>, b: usize) -> (r: Vec<Point>)
        requires
            b <= 1,
        ensures
            points_view(r@) == parity_part(points_view(v@), b as int),
    {
        let half = v.len() / 2;
        let mut r: Vec<Point> = Vec::new();
        let mut i: usize = 0;
        while i < half
            invariant
                half == v.len() / 2,
                b <= 1,
                i <= half,
                r@.len() == i,
                forall|m: int| 0 <= m < i ==> #[trigger] r@[m] == v@[2 * m + b],
            decreases half - i,
        {
            r.push(v[2 * i + b]);
            i = i + 1;
        }
        assert(points_view(r@) =~= parity_part(points_view(v@), b as int));
        r
    }

    /// Both bases folded at once down to two entries, with the coefficients of
    /// all rounds; an error unless both bases have `2^(k + 1)` entries for `k`
    /// challenges.
    pub fn update_public_parameters_once(pp: &PublicParameters, challenges: &Vec<Scalar>) -> (r:
        Result<PublicParameters, ()>)
        requires
            forall|i: int| 0 <= i < challenges.len() ==> (#[trigger] challenges@[i]).wf(),
        ensures
            r is Err <==> (pp.g.len() != pow2((challenges.len() + 1) as nat) || pp.g_hat.len()
                != pow2((challenges.len() + 1) as nat)),
            r matches Ok(q) ==> {
                let f = base_factors(scalars_value(challenges@));
                let g = points_view(pp.g@);
                let h = points_view(pp.g_hat@);
                &&& points_view(q.g@) == seq![
                    g1_msm_of(parity_part(g, 0), f),
                    g1_msm_of(parity_part(g, 1), f),
                ]
                &&& points_view(q.g_hat@) == seq![
                    g1_msm_of(parity_part(h, 0), f),
                    g1_msm_of(parity_part(h, 1), f),
                ]
            },
    {
        let k = challenges.len();
        let n = match Self::checked_pow2(k) {
            Some(n) => n,
            None => {
                proof {
                    lemma_pow2_grows(k as nat, (k + 1) as nat);
                }
                return Err(());
            },
        };
        if pp.g.len() / 2 != n || pp.g.len() % 2 != 0 || pp.g_hat.len() != pp.g.len() {
            proof {
                assert(pow2((k + 1) as nat) == 2 * pow2(k as nat));
            }
            return Err(());
        }
        proof {
            assert(pow2((k + 1) as nat) == 2 * pow2(k as nat));
        }
        let f = Self::compute_factors(challenges, n);
        let ge = Self::take_parity(&pp.g, 0);
        let go = Self::take_parity(&pp.g, 1);
        let he = Self::take_parity(&pp.g_hat, 0);
        let ho = Self::take_parity(&pp.g_hat, 1);
        assert(ge@.len() == points_view(ge@).len() && go@.len() == points_view(go@).len());
        assert(he@.len() == points_view(he@).len() && ho@.len() == points_view(ho@).len());
        assert(f@.len() == scalars_value(f@).len());
        let g = vec![msm(&ge, &f), msm(&go, &f)];
        let g_hat = vec![msm(&he, &f), msm(&ho, &f)];
        let q = PublicParameters { g, g_hat };
        assert(points_view(q.g@) =~= seq![
            g1_msm_of(parity_part(points_view(pp.g@), 0), base_factors(scalars_value(challenges@))),
            g1_msm_of(parity_part(points_view(pp.g@), 1), base_factors(scalars_value(challenges@))),
        ]);
        assert(points_view(q.g_hat@) =~= seq![
            g1_msm_of(parity_part(points_view(pp.g_hat@), 0), base_factors(scalars_value(challenges@))),
            g1_msm_of(parity_part(points_view(pp.g_hat@), 1), base_factors(scalars_value(challenges@))),
        ]);
        Ok(q)
    }

    /// `2^k`, or nothing when it does not fit a `usize` half.
    pub(crate) fn checked_pow2(k: usize) -> (r: Option<usize>)
        ensures
            r matches Some(n) ==> n == pow2(k as nat) && 2 * n <= usize::MAX,
            r is None ==> pow2(k as nat) > usize::MAX / 2,
    {
        let mut n: usize = 1;
        let mut j: usize = 0;
        while j < k
            invariant
                j <= k,
                n == pow2(j as nat),
                2 * n <= usize::MAX,
            decreases k - j,
        {
            if n > usize::MAX / 4 {
                proof {
                    lemma_pow2_grows(j as nat, k as nat);
                }
                return None;
            }
            n = n * 2;
            j = j + 1;
        }
        Some(n)
    }

    /// Folds the statement with a round's commitment and challenge.
    fn update_instance(instance: &Instance, commitment: &Commitment, challenge: &Scalar) -> (r: Instance)
        ensures
            r.y@ == fold_point(instance.y@, commitment.left@, commitment.right@, challenge.value()),
            r.y_hat@ == fold_point(
                instance.y_hat@,
                commitment.left_hat@,
                commitment.right_hat@,
                challenge.value(),
            ),
    {
        let sqr = challenge.mul(challenge);
        let y = commitment.left.add(&instance.y.scale(challenge)).add(&commitment.right.scale(&sqr));
        let y_hat = commitment.left_hat.add(&instance.y_hat.scale(challenge)).add(
            &commitment.right_hat.scale(&sqr),
        );
        Instance { y, y_hat }
    }

    /// Checks a proof: pads both bases with the generator to a power of two
    /// as the prover does, replays the rounds' challenges and folds the
    /// statement, folds the bases at once, and tests the closing relation on
    /// the two entries of `z`. A structural error, before the transcript or
    /// any group arithmetic is touched, when `z` does not have two entries,
    /// the bases differ in length, or the padded length is not `2^(k + 1)`
    /// for `k` rounds.
    pub fn verify_proof(
        pp: &PublicParameters,
        instance: &Instance,
        proof: &Proof,
        transcript: &mut SHA3Base,
    ) -> (r: Result<bool, ()>)
        requires
            pp.g.len() <= usize::MAX / 2,
        ensures
            r is Err <==> (proof.z.len() != THRESHOLD || pp.g.len() != pp.g_hat.len() || rescaled(
                pp.g.len() as nat,
            ) != pow2((proof.commitments.len() + 1) as nat)),
            r is Err ==> final(transcript).bytes@ == old(transcript).bytes@
                && final(transcript).use_label == old(transcript).use_label,
            r matches Ok(b) ==> {
                &&& b == verify_outcome(
                    pp,
                    instance,
                    proof,
                    old(transcript).bytes@,
                    old(transcript).use_label,
                )
                &&& final(transcript).bytes@ == state_after(
                    old(transcript).bytes@,
                    old(transcript).use_label,
                    proof.commitments@,
                )
                &&& final(transcript).use_label == old(transcript).use_label
            },
    {
        if proof.z.len() != THRESHOLD || pp.g.len() != pp.g_hat.len() {
            return Err(());
        }
        let ppad = match Self::prepare_public_parameters(pp) {
            Ok(q) => q,
            Err(_) => return Err(()),
        };
        proof {
            lemma_rescaled_is(pp.g.len() as nat, ppad.g.len() as nat);
        }
        Self::verify_padded(&ppad, instance, proof, transcript)
    }

    /// The check on bases already padded to a power of two.
    fn verify_padded(
        pp: &PublicParameters,
        instance: &Instance,
        proof: &Proof,
        transcript: &mut SHA3Base,
    ) -> (r: Result<bool, ()>)
        ensures
            r is Err <==> (proof.z.len() != THRESHOLD || pp.g.len() != pp.g_hat.len() || pp.g.len()
                != pow2((proof.commitments.len() + 1) as nat)),
            r is Err ==> final(transcript).bytes@ == old(transcript).bytes@
                && final(transcript).use_label == old(transcript).use_label,
            r matches Ok(b) ==> {
                &&& b == accepts(
                    points_view(pp.g@),
                    points_view(pp.g_hat@),
                    instance.y@,
                    instance.y_hat@,
                    proof.commitments@,
                    scalars_value(proof.z@),
                    old(transcript).bytes@,
                    old(transcript).use_label,
                )
                &&& final(transcript).bytes@ == state_after(
                    old(transcript).bytes@,
                    old(transcript).use_label,
                    proof.commitments@,
                )
                &&& final(transcript).use_label == old(transcript).use_label
            },
    {
        if proof.z.len() != THRESHOLD || pp.g.len() != pp.g_hat.len() {
            return Err(());
        }
        let k = proof.commitments.len();
        match Self::checked_pow2(k) {
            Some(n) => {
                if pp.g.len() / 2 != n || pp.g.len() % 2 != 0 {
                    proof {
                        assert(pow2((k + 1) as nat) == 2 * pow2(k as nat));
                    }
                    return Err(());
                }
                proof {
                    assert(pow2((k + 1) as nat) == 2 * pow2(k as nat));
                }
            },
            None => {
                proof {
                    lemma_pow2_grows(k as nat, (k + 1) as nat);
                }
                return Err(());
            },
        }
        let ghost b0 = transcript.bytes@;
        let ghost lab = transcript.use_label;
        let ghost cs = proof.commitments@;
        let mut inst = *instance;
        let mut chs: Vec<Scalar> = Vec::new();
        let mut i: usize = 0;
        while i < k
            invariant
                k == proof.commitments.len(),
                cs == proof.commitments@,
                i <= k,
                chs@.len() == i,
                forall|m: int| 0 <= m < i ==> (#[trigger] chs@[m]).wf(),
                chs@ == round_challenges(b0, lab, cs.subrange(0, i as int)),
                transcript.bytes@ == state_after(b0, lab, cs.subrange(0, i as int)),
                transcript.use_label == lab,
                (inst.y@, inst.y_hat@) == fold_instance(
                    instance.y@,
                    instance.y_hat@,
                    cs.subrange(0, i as int),
                    chs@,
                ),
            decreases k - i,
        {
            let ghost before = chs@;
            let ch = Self::compute_challenge(&proof.commitments[i], transcript);
            inst = Self::update_instance(&inst, &proof.commitments[i], &ch);
            chs.push(ch);
            proof {
                let t = cs.subrange(0, i + 1);
                assert(t.drop_last() =~= cs.subrange(0, i as int));
                assert(t.last() == cs[i as int]);
                assert(chs@.drop_last() =~= before);
            }
            i = i + 1;
        }
        assert(cs.subrange(0, k as int) =~= cs);
        let folded = match Self::update_public_parameters_once(pp, &chs) {
            Ok(q) => q,
            Err(_) => return Err(()),
        };
        assert(folded.g@.len() == points_view(folded.g@).len());
        assert(folded.g_hat@.len() == points_view(folded.g_hat@).len());
        let y_real = folded.g[0].scale(&proof.z[0]).add(&folded.g[1].scale(&proof.z[1]));
        let y_hat_real = folded.g_hat[0].scale(&proof.z[0]).add(&folded.g_hat[1].scale(&proof.z[1]));
        let ok_y = inst.y.equals(&y_real);
        let ok_y_hat = inst.y_hat.equals(&y_hat_real);
        Ok(ok_y && ok_y_hat)
    }
}

/// In the folding loop of a power-of-two length, a length above two is even and
/// at least four.
proof fn lemma_pow2_even_split(k: nat, e: nat, m: nat)
    requires
        pow2(k) * m == pow2(e),
        m > 2,
    ensures
        m % 2 == 0,
        m >= 4,
    decreases k,
{
    lemma_pow2_positive(e);
    if k == 0 {
        assert(pow2(0) == 1);
        assert(pow2(k) * m == 1 * m);
        assert(m == pow2(e));
        if e == 0 {
        } else {
            assert(pow2(e) == 2 * pow2((e - 1) as nat));
            if e == 1 {
                assert(pow2(0) == 1);
            }
        }
    } else {
        assert(pow2(k) == 2 * pow2((k - 1) as nat));
        assert(e > 0) by {
            if e == 0 {
                lemma_pow2_positive((k - 1) as nat);
                assert(pow2(k) * m >= 2 * m) by (nonlinear_arith)
                    requires
                        pow2(k) >= 2,
                        m > 2,
                ;
            }
        }
        assert(pow2(e) == 2 * pow2((e - 1) as nat));
        assert(pow2((k - 1) as nat) * m == pow2((e - 1) as nat)) by (nonlinear_arith)
            requires
                2 * pow2((k - 1) as nat) * m == 2 * pow2((e - 1) as nat),
        {
            assert(2 * pow2((k - 1) as nat) * m == 2 * (pow2((k - 1) as nat) * m));
        }
        lemma_pow2_even_split((k - 1) as nat, (e - 1) as nat, m);
    }
}

} // verus!
