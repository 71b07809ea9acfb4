//! A hybrid public key: an Ed25519 key and an ML-DSA-44 key, both of which
//! must accept a signature.
use vstd::prelude::*;
use crate::crypto::{
    PqKeyAlgorithm, ed25519_verifies, ed25519_verify, mldsa_verifies, mldsa_verify,
};
use crate::msg::{copy_range, push_all};

verus! {

/// The error of a signature check that failed; it says no more.
#[derive(Clone, Copy, PartialEq, Eq, Debug, Structural)]
pub struct Unspecified;

/// Length of a raw Ed25519 public key.
pub const ED25519_PUBLIC_KEY_LEN: usize = 32;

/// A pair of public keys: Ed25519 (the traditional one) and ML-DSA-44 (the
/// post-quantum one), each held as its raw bytes. The Ed25519 key is always
/// `ED25519_PUBLIC_KEY_LEN` bytes long.
#[derive(Debug)]
pub struct SigPublicKey {
    trad_key_bytes: Vec<u8>,
    pqc_key_bytes: Vec<u8>,
}

impl SigPublicKey {
    #[verifier::type_invariant]
    spec fn well_formed(&self) -> bool {
        self.trad_key_bytes@.len() == ED25519_PUBLIC_KEY_LEN
    }

    /// The raw Ed25519 public key.
    pub closed spec fn trad_key(&self) -> Seq<u8> {
        self.trad_key_bytes@
    }

    /// The raw ML-DSA-44 public key.
    pub closed spec fn pqc_key(&self) -> Seq<u8> {
        self.pqc_key_bytes@
    }

    /// The pair of the two raw keys; `None` where the Ed25519 key is not
    /// `ED25519_PUBLIC_KEY_LEN` bytes long.
    pub fn from_parts(trad_key_bytes: Vec<u8>, pqc_key_bytes: Vec<u8>) -> (r: Option<SigPublicKey>)
        ensures
            r is Some <==> trad_key_bytes@.len() == ED25519_PUBLIC_KEY_LEN,
            r matches Some(k) ==> k.trad_key() == trad_key_bytes@ && k.pqc_key() == pqc_key_bytes@,
    {
        if trad_key_bytes.len() != ED25519_PUBLIC_KEY_LEN {
            return None;
        }
        Some(SigPublicKey { trad_key_bytes, pqc_key_bytes })
    }

    /// The Ed25519 key's bytes, then the ML-DSA-44 key's bytes.
    pub fn as_bytes(&self) -> (out: Vec<u8>)
        ensures
            out@ == self.trad_key() + self.pqc_key(),
            self.trad_key().len() == ED25519_PUBLIC_KEY_LEN,
    {
        proof {
            use_type_invariant(self);
        }
        let mut out: Vec<u8> = Vec::new();
        push_all(&mut out, self.trad_key_bytes.as_slice());
        push_all(&mut out, self.pqc_key_bytes.as_slice());
        out
    }

    /// Succeeds exactly when `ed_sig` is an Ed25519 signature of `msg` under
    /// the traditional key and `pqc_sig` an ML-DSA-44 signature of `msg`
    /// under the post-quantum key.
    pub fn verify(&self, msg: &[u8], ed_sig: &[u8], pqc_sig: &[u8]) -> (r: Result<(), Unspecified>)
        ensures
            r is Ok <==> ed25519_verifies(self.trad_key(), msg@, ed_sig@) && mldsa_verifies(
                PqKeyAlgorithm::MLDSA44,
                self.pqc_key(),
                msg@,
                pqc_sig@,
            ),
    {
        if !ed25519_verify(self.trad_key_bytes.as_slice(), msg, ed_sig) {
            return Err(Unspecified);
        }
        if mldsa_verify(PqKeyAlgorithm::MLDSA44, self.pqc_key_bytes.as_slice(), msg, pqc_sig) {
            Ok(())
        } else {
            Err(Unspecified)
        }
    }
}

impl Clone for SigPublicKey {
    fn clone(&self) -> (k: SigPublicKey)
        ensures
            k.trad_key() == self.trad_key(),
            k.pqc_key() == self.pqc_key(),
    {
        proof {
            use_type_invariant(self);
        }
        let trad_key_bytes = copy_range(self.trad_key_bytes.as_slice(), 0, self.trad_key_bytes.len());
        let pqc_key_bytes = copy_range(self.pqc_key_bytes.as_slice(), 0, self.pqc_key_bytes.len());
        assert(trad_key_bytes@ =~= self.trad_key());
        assert(pqc_key_bytes@ =~= self.pqc_key());
        SigPublicKey { trad_key_bytes, pqc_key_bytes }
    }
}

} // verus!
