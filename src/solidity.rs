//! Decimal renderings of field elements and points, in the order that the
//! on-chain verifiers read them.
use crate::field::{fq_modulus, fr_modulus, Base, Scalar};
use crate::group::Point;
use crate::{am_com_eq, comp_dl_eq};
use ark_ff::{BigInt, PrimeField};
use vstd::prelude::*;

verus! {

/// The decimal digit of `d < 10`.
pub open spec fn digit(d: nat) -> char {
    seq!['0', '1', '2', '3', '4', '5', '6', '7', '8', '9'][d as int]
}

/// The decimal digits of `v` without leading zeros; empty for zero. A field
/// element renders as the digits of its canonical integer.
pub open spec fn decimal(v: nat) -> Seq<char>
    decreases v,
{
    if v == 0 {
        seq![]
    } else {
        decimal(v / 10).push(digit(v % 10))
    }
}

/// The decimal digits of `v` reduced modulo `m`, and "0" for zero.
pub open spec fn solidity_digits(v: nat, m: nat) -> Seq<char> {
    if v == 0 {
        seq!['0']
    } else {
        decimal(v % m)
    }
}

/// The texts of a list of strings.
pub open spec fn texts(s: Seq<String>) -> Seq<Seq<char>> {
    s.map_values(|x: String| x@)
}

/// Relies on `Fp::new` and `Display` of `ark_bn254::Fr`: the decimal digits
/// of the element's canonical integer with leading zeros trimmed (empty for
/// zero).
#[verifier::external_body]
fn fr_decimal(a: &Scalar) -> (r: String)
    ensures
        r@ == decimal(a.value() % fr_modulus()),
{
    ark_bn254::Fr::new(BigInt::new(a.limbs)).to_string()
}

/// Relies on `Fp::new` and `Display` of `ark_bn254::Fq`: the decimal digits
/// of the element's canonical integer with leading zeros trimmed (empty for
/// zero).
#[verifier::external_body]
fn fq_decimal(a: &Base) -> (r: String)
    ensures
        r@ == decimal(a.value() % fq_modulus()),
{
    ark_bn254::Fq::new(BigInt::new(a.limbs)).to_string()
}

fn is_zero_limbs(l: &[u64; 4]) -> (r: bool)
    ensures
        r == (crate::field::limbs_value(*l) == 0),
{
    l[0] == 0 && l[1] == 0 && l[2] == 0 && l[3] == 0
}

/// Values that render as a list of decimal strings.
pub trait Solidity {
    spec fn solidity_view(&self) -> Seq<Seq<char>>;

    fn to_solidity(&self) -> (r: Vec<String>)
        ensures
            texts(r@) == self.solidity_view(),
    ;
}

impl Solidity for Scalar {
    open spec fn solidity_view(&self) -> Seq<Seq<char>> {
        seq![solidity_digits(self.value(), fr_modulus())]
    }

    fn to_solidity(&self) -> (r: Vec<String>) {
        proof {
            reveal_strlit("0");
        }
        let s = if is_zero_limbs(&self.limbs) {
            "0".to_owned()
        } else {
            fr_decimal(self)
        };
        assert(s@ == self.solidity_view()[0]) by {
            if self.value() == 0 {
                assert(s@ =~= seq!['0']);
            }
        }
        let r = vec![s];
        assert(texts(r@)[0] == s@);
        assert(texts(r@) =~= self.solidity_view());
        r
    }
}

impl Solidity for Base {
    open spec fn solidity_view(&self) -> Seq<Seq<char>> {
        seq![solidity_digits(self.value(), fq_modulus())]
    }

    fn to_solidity(&self) -> (r: Vec<String>) {
        proof {
            reveal_strlit("0");
        }
        let s = if is_zero_limbs(&self.limbs) {
            "0".to_owned()
        } else {
            fq_decimal(self)
        };
        assert(s@ == self.solidity_view()[0]) by {
            if self.value() == 0 {
                assert(s@ =~= seq!['0']);
            }
        }
        let r = vec![s];
        assert(texts(r@)[0] == s@);
        assert(texts(r@) =~= self.solidity_view());
        r
    }
}

impl Solidity for Point {
    /// `x`, then `y`.
    open spec fn solidity_view(&self) -> Seq<Seq<char>> {
        seq![solidity_digits(self.x.value(), fq_modulus()), solidity_digits(self.y.value(), fq_modulus())]
    }

    fn to_solidity(&self) -> (r: Vec<String>) {
        let mut r = self.x.to_solidity();
        let mut y = self.y.to_solidity();
        let ghost xs = r@;
        let ghost ys = y@;
        r.append(&mut y);
        assert(texts(r@) =~= texts(xs) + texts(ys));
        assert(texts(r@) =~= self.solidity_view());
        r
    }
}

/// The renderings of the entries one after the other.
pub open spec fn solidity_all<T: Solidity>(s: Seq<T>) -> Seq<Seq<char>>
    decreases s.len(),
{
    if s.len() == 0 {
        seq![]
    } else {
        solidity_all(s.drop_last()) + s.last().solidity_view()
    }
}

impl<T: Solidity> Solidity for Vec<T> {
    open spec fn solidity_view(&self) -> Seq<Seq<char>> {
        solidity_all(self@)
    }

    fn to_solidity(&self) -> (r: Vec<String>) {
        let mut out: Vec<String> = Vec::new();
        let mut i: usize = 0;
        while i < self.len()
            invariant
                i <= self.len(),
                texts(out@) == solidity_all(self@.subrange(0, i as int)),
            decreases self.len() - i,
        {
            let ghost before = out@;
            let mut part = self[i].to_solidity();
            let ghost ps = part@;
            out.append(&mut part);
            assert(self@.subrange(0, i + 1).drop_last() =~= self@.subrange(0, i as int));
            assert(texts(out@) =~= texts(before) + texts(ps));
            i = i + 1;
        }
        assert(self@.subrange(0, self.len() as int) =~= self@);
        out
    }
}

/// Coordinates rendered as decimal strings.
pub trait ToVec {
    spec fn strings_view(&self) -> Seq<Seq<char>>;

    fn to_vec(&self) -> (r: Vec<String>)
        ensures
            texts(r@) == self.strings_view(),
    ;
}

impl ToVec for Point {
    /// `x`, then `y`, as the fields print them.
    open spec fn strings_view(&self) -> Seq<Seq<char>> {
        seq![decimal(self.x.value() % fq_modulus()), decimal(self.y.value() % fq_modulus())]
    }

    fn to_vec(&self) -> (r: Vec<String>) {
        let r = vec![fq_decimal(&self.x), fq_decimal(&self.y)];
        assert(texts(r@) =~= self.strings_view());
        r
    }
}

/// A point with decimal coordinates.
#[allow(non_snake_case)]
#[derive(Clone, Debug)]
pub struct G1Json {
    pub X: String,
    pub Y: String,
}

/// Each point with its coordinates as the fields print them.
pub fn to_g1_json(cm_list: &Vec<Point>) -> (r: Vec<G1Json>)
    ensures
        r@.len() == cm_list@.len(),
        forall|i: int| 0 <= i < r@.len() ==> (#[trigger] r@[i]).X@ == decimal(cm_list@[i].x.value() % fq_modulus())
            && r@[i].Y@ == decimal(cm_list@[i].y.value() % fq_modulus()),
{
    let mut out: Vec<G1Json> = Vec::new();
    let mut i: usize = 0;
    while i < cm_list.len()
        invariant
            i <= cm_list.len(),
            out@.len() == i,
            forall|k: int| 0 <= k < i ==> (#[trigger] out@[k]).X@ == decimal(cm_list@[k].x.value() % fq_modulus())
                && out@[k].Y@ == decimal(cm_list@[k].y.value() % fq_modulus()),
        decreases cm_list.len() - i,
    {
        out.push(G1Json { X: fq_decimal(&cm_list[i].x), Y: fq_decimal(&cm_list[i].y) });
        i = i + 1;
    }
    out
}

/// Relies on `ToString` of `usize`: its decimal digits ("0" for zero).
#[verifier::external_body]
fn usize_decimal(n: usize) -> (r: String)
    ensures
        r@ == count_digits(n as nat),
{
    n.to_string()
}

/// Appends the renderings of `part`.
fn push_all(out: &mut Vec<String>, part: Vec<String>)
    ensures
        texts(final(out)@) == texts(old(out)@) + texts(part@),
{
    let mut part = part;
    let ghost ps = part@;
    out.append(&mut part);
    assert(texts(final(out)@) =~= texts(old(out)@) + texts(ps));
}

impl Solidity for am_com_eq::CommittingKey {
    /// `g`, then `h`.
    open spec fn solidity_view(&self) -> Seq<Seq<char>> {
        self.g.solidity_view() + self.h.solidity_view()
    }

    fn to_solidity(&self) -> (r: Vec<String>) {
        let mut r = self.g.to_solidity();
        push_all(&mut r, self.h.to_solidity());
        r
    }
}

impl Solidity for am_com_eq::Commitment {
    /// `a`, then `a_hat`.
    open spec fn solidity_view(&self) -> Seq<Seq<char>> {
        self.a.solidity_view() + self.a_hat.solidity_view()
    }

    fn to_solidity(&self) -> (r: Vec<String>) {
        let mut r = self.a.to_solidity();
        push_all(&mut r, self.a_hat.to_solidity());
        r
    }
}

impl Solidity for am_com_eq::Proof {
    /// `z`, `omega`, `omega_hat`, then the first message.
    open spec fn solidity_view(&self) -> Seq<Seq<char>> {
        self.z.solidity_view() + self.omega.solidity_view() + self.omega_hat.solidity_view()
            + self.commitment.solidity_view()
    }

    fn to_solidity(&self) -> (r: Vec<String>) {
        let mut r = self.z.to_solidity();
        push_all(&mut r, self.omega.to_solidity());
        push_all(&mut r, self.omega_hat.to_solidity());
        push_all(&mut r, self.commitment.to_solidity());
        r
    }
}

impl Solidity for comp_dl_eq::Commitment {
    /// `left`, `right`, `left_hat`, `right_hat`.
    open spec fn solidity_view(&self) -> Seq<Seq<char>> {
        self.left.solidity_view() + self.right.solidity_view() + self.left_hat.solidity_view()
            + self.right_hat.solidity_view()
    }

    fn to_solidity(&self) -> (r: Vec<String>) {
        let mut r = self.left.to_solidity();
        push_all(&mut r, self.right.to_solidity());
        push_all(&mut r, self.left_hat.to_solidity());
        push_all(&mut r, self.right_hat.to_solidity());
        r
    }
}

/// The number of rows `l = |poly_ck.g| / |coeff_ck.g|` (zero without a row
/// basis).
pub open spec fn row_count(pp: &am_com_eq::PublicParameters) -> nat {
    if pp.coeff_ck.g.len() == 0 {
        0
    } else {
        (pp.poly_ck.g.len() / pp.coeff_ck.g.len()) as nat
    }
}

/// The decimal digits of a count, "0" for zero.
pub open spec fn count_digits(n: nat) -> Seq<char> {
    if n == 0 {
        seq!['0']
    } else {
        decimal(n)
    }
}

impl Solidity for am_com_eq::PublicParameters {
    /// `l`, `d0`, `d1`, `d2`, the generator, then both committing keys.
    open spec fn solidity_view(&self) -> Seq<Seq<char>> {
        seq![
            count_digits(row_count(self)),
            count_digits(self.coeff_ck.g.len() as nat),
            count_digits(self.poly_ck.h.len() as nat),
            count_digits(self.coeff_ck.h.len() as nat),
        ] + seq![solidity_digits(1, fq_modulus()), solidity_digits(2, fq_modulus())]
            + self.poly_ck.solidity_view() + self.coeff_ck.solidity_view()
    }

    fn to_solidity(&self) -> (r: Vec<String>) {
        let d0 = self.coeff_ck.g.len();
        let l = if d0 == 0 {
            0
        } else {
            self.poly_ck.g.len() / d0
        };
        let mut r: Vec<String> = Vec::new();
        r.push(usize_decimal(l));
        r.push(usize_decimal(d0));
        r.push(usize_decimal(self.poly_ck.h.len()));
        r.push(usize_decimal(self.coeff_ck.h.len()));
        let gen = Point::generator();
        proof {
            assert(gen.x.value() % fq_modulus() == 1);
            assert(gen.y.value() % fq_modulus() == 2);
        }
        push_all(&mut r, gen.to_solidity());
        push_all(&mut r, self.poly_ck.to_solidity());
        push_all(&mut r, self.coeff_ck.to_solidity());
        assert(texts(r@) =~= self.solidity_view());
        r
    }
}

} // verus!
