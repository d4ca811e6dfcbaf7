//! The Fiat-Shamir transcript: messages accumulate as bytes; a challenge is the
//! Keccak-256 digest of what has accumulated, read as a big-endian integer
//! modulo the scalar field order, after which the transcript restarts from the
//! challenge's own 32 bytes.
use crate::field::{be_value, fr_modulus, lemma_scalar_of, limbs_be, scalar_of, Scalar};
use vstd::prelude::*;
use vstd::string::StringSliceAdditionalSpecFns;

verus! {

/// The Keccak-256 digest of `data`.
pub uninterp spec fn keccak256_of(data: Seq<u8>) -> Seq<u8>;

/// Relies on `sha3::Keccak256`'s `Digest::digest`: the 32-byte Keccak-256
/// digest of the input.
#[verifier::external_body]
pub(crate) fn keccak256(data: &Vec<u8>) -> (r: Vec<u8>)
    ensures
        r@ == keccak256_of(data@),
        r@.len() == 32,
{
    <sha3::Keccak256 as sha3::Digest>::digest(data.as_slice()).to_vec()
}

/// A hash-based transcript. When `use_label` is set, each label is fed in
/// before its message.
#[derive(Clone, Debug)]
pub struct SHA3Base {
    pub bytes: Vec<u8>,
    pub use_label: bool,
}

/// The bytes a label contributes.
pub open spec fn label_bytes(use_label: bool, label: &str) -> Seq<u8> {
    if use_label {
        label.spec_bytes()
    } else {
        seq![]
    }
}

/// The challenge that a transcript holding `bytes` yields.
pub open spec fn challenge_of(bytes: Seq<u8>) -> nat {
    be_value(keccak256_of(bytes)) % fr_modulus()
}

impl SHA3Base {
    pub fn new(use_label: bool) -> (r: SHA3Base)
        ensures
            r.bytes@ == Seq::<u8>::empty(),
            r.use_label == use_label,
    {
        SHA3Base { bytes: Vec::new(), use_label }
    }

    fn extend(&mut self, item: &[u8])
        ensures
            final(self).bytes@ == old(self).bytes@ + item@,
            final(self).use_label == old(self).use_label,
    {
        let mut i: usize = 0;
        while i < item.len()
            invariant
                i <= item@.len(),
                self.bytes@ == old(self).bytes@ + item@.subrange(0, i as int),
                self.use_label == old(self).use_label,
            decreases item@.len() - i,
        {
            self.bytes.push(item[i]);
            assert(item@.subrange(0, i + 1) =~= item@.subrange(0, i as int).push(item@[i as int]));
            i = i + 1;
        }
        assert(item@.subrange(0, item@.len() as int) =~= item@);
    }

    /// Feeds `item`, preceded by `label` when labels are in use.
    pub fn append(&mut self, label: &str, item: &[u8])
        ensures
            final(self).bytes@ == old(self).bytes@ + label_bytes(old(self).use_label, label)
                + item@,
            final(self).use_label == old(self).use_label,
    {
        if self.use_label {
            self.extend(label.as_bytes());
        }
        self.extend(item);
        assert(final(self).bytes@ =~= old(self).bytes@ + label_bytes(old(self).use_label, label)
            + item@);
    }

    /// Draws a challenge and restarts the transcript from its bytes.
    pub fn challenge_scalar(&mut self, label: &str) -> (r: Scalar)
        ensures
            r.wf(),
            r.value() == challenge_of(old(self).bytes@ + label_bytes(old(self).use_label, label)),
            r == scalar_of(challenge_of(old(self).bytes@ + label_bytes(old(self).use_label, label))),
            final(self).bytes@ == limbs_be(r.limbs),
            final(self).use_label == old(self).use_label,
    {
        if self.use_label {
            self.extend(label.as_bytes());
        }
        assert(self.bytes@ =~= old(self).bytes@ + label_bytes(old(self).use_label, label));
        let digest = keccak256(&self.bytes);
        let r = Scalar::from_be_bytes_mod_order(&digest);
        self.bytes = r.to_be_bytes();
        proof {
            lemma_scalar_of(r);
        }
        r
    }
}

} // verus!
