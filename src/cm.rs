//! A committed value with its blinding, `(msg, rand)`, added and scaled
//! entry by entry: the opening side of a Pedersen commitment, which folds
//! with the powers of a challenge as the commitments do.
use crate::field::{fr_modulus, Scalar};
use vstd::prelude::*;

verus! {

/// A message and its blinding.
#[derive(Clone, Copy, Debug, PartialEq, Eq)]
pub struct CM {
    pub msg: Scalar,
    pub rand: Scalar,
}

impl View for CM {
    type V = (nat, nat);

    open spec fn view(&self) -> (nat, nat) {
        (self.msg.value(), self.rand.value())
    }
}

impl CM {
    pub open spec fn wf(&self) -> bool {
        self.msg.wf() && self.rand.wf()
    }

    pub fn zero() -> (r: CM)
        ensures
            r.wf(),
            r@ == (0nat, 0nat),
    {
        CM { msg: Scalar::zero(), rand: Scalar::zero() }
    }

    pub fn is_zero(&self) -> (r: bool)
        ensures
            r == (self.msg.limbs@ == seq![0u64, 0u64, 0u64, 0u64] && self.rand.limbs@ == seq![
                0u64,
                0u64,
                0u64,
                0u64,
            ]),
    {
        let r = self.msg.limbs[0] == 0 && self.msg.limbs[1] == 0 && self.msg.limbs[2] == 0
            && self.msg.limbs[3] == 0 && self.rand.limbs[0] == 0 && self.rand.limbs[1] == 0
            && self.rand.limbs[2] == 0 && self.rand.limbs[3] == 0;
        proof {
            if r {
                assert(self.msg.limbs@ =~= seq![0u64, 0u64, 0u64, 0u64]);
                assert(self.rand.limbs@ =~= seq![0u64, 0u64, 0u64, 0u64]);
            }
        }
        r
    }

    /// Entry-wise sum.
    pub fn add(&self, o: &CM) -> (r: CM)
        ensures
            r.wf(),
            r@ == ((self@.0 + o@.0) % fr_modulus(), (self@.1 + o@.1) % fr_modulus()),
    {
        CM { msg: self.msg.add(&o.msg), rand: self.rand.add(&o.rand) }
    }

    /// Entry-wise difference.
    pub fn sub(&self, o: &CM) -> (r: CM)
        ensures
            r.wf(),
            r.msg.value() == (self@.0 - o@.0) % (fr_modulus() as int),
            r.rand.value() == (self@.1 - o@.1) % (fr_modulus() as int),
    {
        CM { msg: self.msg.sub(&o.msg), rand: self.rand.sub(&o.rand) }
    }

    /// Both entries times `s`.
    pub fn mul(&self, s: &Scalar) -> (r: CM)
        ensures
            r.wf(),
            r@ == ((self@.0 * s.value()) % fr_modulus(), (self@.1 * s.value()) % fr_modulus()),
    {
        CM { msg: self.msg.mul(s), rand: self.rand.mul(s) }
    }

    pub fn add_assign(&mut self, o: &CM)
        ensures
            final(self)@ == ((old(self)@.0 + o@.0) % fr_modulus(), (old(self)@.1 + o@.1) % fr_modulus()),
    {
        *self = self.add(o);
    }

    pub fn sub_assign(&mut self, o: &CM)
        ensures
            final(self).msg.value() == (old(self)@.0 - o@.0) % (fr_modulus() as int),
            final(self).rand.value() == (old(self)@.1 - o@.1) % (fr_modulus() as int),
    {
        *self = self.sub(o);
    }
}

} // verus!
