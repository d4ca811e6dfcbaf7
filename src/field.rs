//! Elements of the BN254 scalar field and base field, held as four canonical
//! little-endian 64-bit limbs. Field arithmetic is delegated to `ark_bn254`.
use ark_ff::{BigInt, PrimeField};
use vstd::prelude::*;

verus! {

/// The order `r` of the BN254 scalar field.
pub open spec fn fr_modulus() -> nat {
    21888242871839275222246405745257275088548364400416034343698204186575808495617nat
}

/// The order `q` of the BN254 base field.
pub open spec fn fq_modulus() -> nat {
    21888242871839275222246405745257275088696311157297823662689037894645226208583nat
}

/// The integer held by four little-endian 64-bit limbs.
pub open spec fn limbs_value(l: [u64; 4]) -> nat {
    (l[0] as nat) + (l[1] as nat) * 0x1_0000_0000_0000_0000nat
        + (l[2] as nat) * 0x1_0000_0000_0000_0000_0000_0000_0000_0000nat
        + (l[3] as nat) * 0x1_0000_0000_0000_0000_0000_0000_0000_0000_0000_0000_0000_0000nat
}

/// The eight big-endian bytes of a limb.
pub open spec fn u64_be(l: u64) -> Seq<u8> {
    seq![
        (l >> 56u64) as u8,
        (l >> 48u64) as u8,
        (l >> 40u64) as u8,
        (l >> 32u64) as u8,
        (l >> 24u64) as u8,
        (l >> 16u64) as u8,
        (l >> 8u64) as u8,
        l as u8,
    ]
}

/// The 32 big-endian bytes of the integer held by four limbs.
pub open spec fn limbs_be(l: [u64; 4]) -> Seq<u8> {
    u64_be(l[3]) + u64_be(l[2]) + u64_be(l[1]) + u64_be(l[0])
}

/// The integer that a byte string spells in big-endian order.
pub open spec fn be_value(s: Seq<u8>) -> nat
    decreases s.len(),
{
    if s.len() == 0 {
        0
    } else {
        be_value(s.drop_last()) * 256 + s.last() as nat
    }
}

/// Appends the big-endian bytes of a limb.
fn push_u64_be(out: &mut Vec<u8>, l: u64)
    ensures
        final(out)@ == old(out)@ + u64_be(l),
{
    out.push((l >> 56u64) as u8);
    out.push((l >> 48u64) as u8);
    out.push((l >> 40u64) as u8);
    out.push((l >> 32u64) as u8);
    out.push((l >> 24u64) as u8);
    out.push((l >> 16u64) as u8);
    out.push((l >> 8u64) as u8);
    out.push(l as u8);
    assert(final(out)@ =~= old(out)@ + u64_be(l));
}

/// Appends the 32 big-endian bytes of four limbs.
pub fn push_limbs_be(out: &mut Vec<u8>, l: &[u64; 4])
    ensures
        final(out)@ == old(out)@ + limbs_be(*l),
{
    push_u64_be(out, l[3]);
    push_u64_be(out, l[2]);
    push_u64_be(out, l[1]);
    push_u64_be(out, l[0]);
    assert(final(out)@ =~= old(out)@ + limbs_be(*l));
}

/// An element of the scalar field `F_r`.
#[derive(Clone, Copy, Debug, PartialEq, Eq)]
pub struct Scalar {
    pub limbs: [u64; 4],
}

/// An element of the base field `F_q`, a coordinate of a curve point.
#[derive(Clone, Copy, Debug, PartialEq, Eq)]
pub struct Base {
    pub limbs: [u64; 4],
}

impl Base {
    pub open spec fn value(&self) -> nat {
        limbs_value(self.limbs)
    }

    pub open spec fn wf(&self) -> bool {
        self.value() < fq_modulus()
    }

    pub fn zero() -> (r: Base)
        ensures
            r.wf(),
            r.value() == 0,
    {
        Base { limbs: [0u64, 0u64, 0u64, 0u64] }
    }

    pub fn from_u64(v: u64) -> (r: Base)
        ensures
            r.wf(),
            r.value() == v,
    {
        Base { limbs: [v, 0u64, 0u64, 0u64] }
    }

    /// Limb-wise equality, which is equality of the held integers.
    pub fn equals(&self, o: &Base) -> (r: bool)
        ensures
            r == (self.limbs@ == o.limbs@),
    {
        let r = self.limbs[0] == o.limbs[0] && self.limbs[1] == o.limbs[1] && self.limbs[2]
            == o.limbs[2] && self.limbs[3] == o.limbs[3];
        proof {
            if r {
                assert(self.limbs@ =~= o.limbs@);
            }
        }
        r
    }
}

impl Scalar {
    pub open spec fn value(&self) -> nat {
        limbs_value(self.limbs)
    }

    /// The limbs hold a canonical representative, below the modulus.
    pub open spec fn wf(&self) -> bool {
        self.value() < fr_modulus()
    }

    pub fn zero() -> (r: Scalar)
        ensures
            r.wf(),
            r.value() == 0,
    {
        Scalar { limbs: [0u64, 0u64, 0u64, 0u64] }
    }

    pub fn one() -> (r: Scalar)
        ensures
            r.wf(),
            r.value() == 1,
    {
        Scalar { limbs: [1u64, 0u64, 0u64, 0u64] }
    }

    pub fn from_u64(v: u64) -> (r: Scalar)
        ensures
            r.wf(),
            r.value() == v,
    {
        Scalar { limbs: [v, 0u64, 0u64, 0u64] }
    }

    pub fn add(&self, o: &Scalar) -> (r: Scalar)
        ensures
            r.wf(),
            r.value() == (self.value() + o.value()) % fr_modulus(),
    {
        fr_add(self, o)
    }

    pub fn sub(&self, o: &Scalar) -> (r: Scalar)
        ensures
            r.wf(),
            r.value() == (self.value() - o.value()) % (fr_modulus() as int),
    {
        fr_sub(self, o)
    }

    pub fn mul(&self, o: &Scalar) -> (r: Scalar)
        ensures
            r.wf(),
            r.value() == (self.value() * o.value()) % fr_modulus(),
    {
        fr_mul(self, o)
    }

    /// The multiplicative inverse; nothing for zero.
    pub fn inverse(&self) -> (r: Option<Scalar>)
        requires
            self.wf(),
        ensures
            r is None <==> self.value() == 0,
            r matches Some(i) ==> i.wf() && (i.value() * self.value()) % fr_modulus() == 1,
    {
        fr_inverse(self)
    }

    /// The element that the big-endian integer of `bytes` is congruent to.
    pub fn from_be_bytes_mod_order(bytes: &Vec<u8>) -> (r: Scalar)
        ensures
            r.wf(),
            r.value() == be_value(bytes@) % fr_modulus(),
    {
        fr_from_be_bytes(bytes)
    }

    /// The 32 big-endian bytes of the canonical representative.
    pub fn to_be_bytes(&self) -> (r: Vec<u8>)
        ensures
            r@ == limbs_be(self.limbs),
    {
        let mut out: Vec<u8> = Vec::new();
        push_limbs_be(&mut out, &self.limbs);
        assert(out@ =~= limbs_be(self.limbs));
        out
    }
}

/// Relies on `Fp::new`, `PrimeField::into_bigint` and `Add` of `ark_bn254::Fr`:
/// the sum modulo `r`, in canonical form.
#[verifier::external_body]
fn fr_add(a: &Scalar, b: &Scalar) -> (r: Scalar)
    ensures
        r.wf(),
        r.value() == (a.value() + b.value()) % fr_modulus(),
{
    let x = ark_bn254::Fr::new(BigInt::new(a.limbs)) + ark_bn254::Fr::new(BigInt::new(b.limbs));
    Scalar { limbs: x.into_bigint().0 }
}

/// Relies on `Fp::new`, `PrimeField::into_bigint` and `Sub` of `ark_bn254::Fr`:
/// the difference modulo `r`, in canonical form.
#[verifier::external_body]
fn fr_sub(a: &Scalar, b: &Scalar) -> (r: Scalar)
    ensures
        r.wf(),
        r.value() == (a.value() - b.value()) % (fr_modulus() as int),
{
    let x = ark_bn254::Fr::new(BigInt::new(a.limbs)) - ark_bn254::Fr::new(BigInt::new(b.limbs));
    Scalar { limbs: x.into_bigint().0 }
}

/// Relies on `Fp::new`, `PrimeField::into_bigint` and `Mul` of `ark_bn254::Fr`:
/// the product modulo `r`, in canonical form.
#[verifier::external_body]
fn fr_mul(a: &Scalar, b: &Scalar) -> (r: Scalar)
    ensures
        r.wf(),
        r.value() == (a.value() * b.value()) % fr_modulus(),
{
    let x = ark_bn254::Fr::new(BigInt::new(a.limbs)) * ark_bn254::Fr::new(BigInt::new(b.limbs));
    Scalar { limbs: x.into_bigint().0 }
}

/// Relies on `Field::inverse` of `ark_bn254::Fr`: nothing for zero, else the
/// inverse modulo `r`, in canonical form.
#[verifier::external_body]
fn fr_inverse(a: &Scalar) -> (r: Option<Scalar>)
    requires
        a.wf(),
    ensures
        r is None <==> a.value() == 0,
        r matches Some(i) ==> i.wf() && (i.value() * a.value()) % fr_modulus() == 1,
{
    let x = ark_ff::Field::inverse(&ark_bn254::Fr::new(BigInt::new(a.limbs)));
    x.map(|v| Scalar { limbs: v.into_bigint().0 })
}

/// Relies on `PrimeField::from_be_bytes_mod_order` of `ark_bn254::Fr`: the
/// big-endian integer of the bytes reduced modulo `r`, in canonical form.
#[verifier::external_body]
fn fr_from_be_bytes(bytes: &Vec<u8>) -> (r: Scalar)
    ensures
        r.wf(),
        r.value() == be_value(bytes@) % fr_modulus(),
{
    let x = ark_bn254::Fr::from_be_bytes_mod_order(bytes.as_slice());
    Scalar { limbs: x.into_bigint().0 }
}

} // verus!

verus! {

/// Four limbs are determined by the integer they hold.
pub proof fn lemma_limbs_unique(a: [u64; 4], b: [u64; 4])
    requires
        limbs_value(a) == limbs_value(b),
    ensures
        a == b,
{
    let w: int = 0x1_0000_0000_0000_0000;
    assert forall|l: [u64; 4]|
        #![trigger limbs_value(l)]
        limbs_value(l) == l[0] + w * (l[1] + w * (l[2] + w * (l[3] as int))) by {
        let (x0, x1, x2, x3) = (l[0] as int, l[1] as int, l[2] as int, l[3] as int);
        assert(x1 * 0x1_0000_0000_0000_0000 + x2 * 0x1_0000_0000_0000_0000_0000_0000_0000_0000
            + x3 * 0x1_0000_0000_0000_0000_0000_0000_0000_0000_0000_0000_0000_0000 == w * (x1 + w * (
        x2 + w * x3))) by (nonlinear_arith)
            requires
                w == 0x1_0000_0000_0000_0000,
        ;
    }
    let ta = a[1] + w * (a[2] + w * (a[3] as int));
    let tb = b[1] + w * (b[2] + w * (b[3] as int));
    assert(ta >= 0 && tb >= 0) by (nonlinear_arith)
        requires
            ta == a[1] + w * (a[2] + w * (a[3] as int)),
            tb == b[1] + w * (b[2] + w * (b[3] as int)),
            w > 0,
            a[1] >= 0,
            a[2] >= 0,
            a[3] >= 0,
            b[1] >= 0,
            b[2] >= 0,
            b[3] >= 0,
    ;
    vstd::arithmetic::div_mod::lemma_fundamental_div_mod_converse(limbs_value(a) as int, w, ta, a[0] as int);
    vstd::arithmetic::div_mod::lemma_fundamental_div_mod_converse(limbs_value(b) as int, w, tb, b[0] as int);
    let ua = a[2] + w * (a[3] as int);
    let ub = b[2] + w * (b[3] as int);
    assert(ua >= 0 && ub >= 0) by (nonlinear_arith)
        requires
            ua == a[2] + w * (a[3] as int),
            ub == b[2] + w * (b[3] as int),
            w > 0,
            a[2] >= 0,
            a[3] >= 0,
            b[2] >= 0,
            b[3] >= 0,
    ;
    vstd::arithmetic::div_mod::lemma_fundamental_div_mod_converse(ta, w, ua, a[1] as int);
    vstd::arithmetic::div_mod::lemma_fundamental_div_mod_converse(tb, w, ub, b[1] as int);
    vstd::arithmetic::div_mod::lemma_fundamental_div_mod_converse(ua, w, a[3] as int, a[2] as int);
    vstd::arithmetic::div_mod::lemma_fundamental_div_mod_converse(ub, w, b[3] as int, b[2] as int);
    assert(a@ =~= b@);
}

/// The canonical scalar that holds the field value `v`.
pub open spec fn scalar_of(v: nat) -> Scalar {
    choose|s: Scalar| s.value() == v
}

/// A scalar is the canonical scalar of its value.
pub proof fn lemma_scalar_of(s: Scalar)
    ensures
        scalar_of(s.value()) == s,
{
    let t = scalar_of(s.value());
    assert(t.value() == s.value());
    lemma_limbs_unique(t.limbs, s.limbs);
}

} // verus!
