//! The cryptographic operations that `aws_lc_rs` performs for the library,
//! on keys and data held as plain bytes.
use vstd::prelude::*;
use aws_lc_rs::signature::KeyPair;
use aws_lc_rs::kdf::{get_sskdf_digest_algorithm, sskdf_digest, SskdfDigestAlgorithmId};

verus! {

/// The ML-DSA parameter sets.
#[derive(Clone, Copy, PartialEq, Eq, Debug, Structural)]
pub enum PqKeyAlgorithm {
    MLDSA44,
    MLDSA65,
    MLDSA87,
}

/// The length of a signature under each parameter set (FIPS 204).
pub open spec fn signature_len(alg: PqKeyAlgorithm) -> nat {
    match alg {
        PqKeyAlgorithm::MLDSA44 => 2420,
        PqKeyAlgorithm::MLDSA65 => 3309,
        PqKeyAlgorithm::MLDSA87 => 4627,
    }
}

/// Whether `aws_lc_rs` accepts `sig` as an Ed25519 signature of `msg` under
/// the public key `key`.
pub uninterp spec fn ed25519_verifies(key: Seq<u8>, msg: Seq<u8>, sig: Seq<u8>) -> bool;

/// Whether `aws_lc_rs` accepts `sig` as an ML-DSA signature of `msg` under the
/// public key `key`, for the given parameter set.
pub uninterp spec fn mldsa_verifies(
    alg: PqKeyAlgorithm,
    key: Seq<u8>,
    msg: Seq<u8>,
    sig: Seq<u8>,
) -> bool;

/// The raw public key of the ML-DSA key pair that a PKCS#8 document holds,
/// or `None` where `aws_lc_rs` rejects the document for the parameter set.
pub uninterp spec fn mldsa_public_key(alg: PqKeyAlgorithm, pkcs8: Seq<u8>) -> Option<Seq<u8>>;

/// What `aws_lc_rs` decrypts from an AES-256-GCM ciphertext (ciphertext then
/// tag) with the key and the nonce, without associated data; `None` where
/// authentication fails.
pub uninterp spec fn aes256_gcm_open(key: Seq<u8>, nonce: Seq<u8>, sealed: Seq<u8>) -> Option<
    Seq<u8>,
>;

/// The key that SSKDF with SHA-256 derives from the secret and the info, of
/// the given length, or `None` where `aws_lc_rs` fails.
pub uninterp spec fn sskdf_sha256(secret: Seq<u8>, info: Seq<u8>, len: nat) -> Option<Seq<u8>>;

/// The shared secret that ML-KEM-1024 decapsulation of the ciphertext gives
/// with the decapsulation key, or `None` where `aws_lc_rs` fails.
pub uninterp spec fn ml_kem_decapsulate(decap: Seq<u8>, ciphertext: Seq<u8>) -> Option<Seq<u8>>;

/// The encapsulation key of the ML-KEM-1024 key pair whose decapsulation key
/// is these bytes (FIPS 203 stores it inside the decapsulation key), or
/// `None` where the bytes are not the decapsulation key of a key pair as key
/// generation makes one.
pub uninterp spec fn ml_kem_encapsulation_key(decap: Seq<u8>) -> Option<Seq<u8>>;

/// `ciphertext` carries `secret` to whoever holds a decapsulation key whose
/// encapsulation key is `encap`.
pub open spec fn ml_kem_carries(encap: Seq<u8>, ciphertext: Seq<u8>, secret: Seq<u8>) -> bool {
    forall|dk: Seq<u8>|
        #[trigger] ml_kem_encapsulation_key(dk) == Some(encap) ==> ml_kem_decapsulate(dk, ciphertext)
            == Some(secret)
}

/// Length of an AES-256 key.
pub const AES_256_KEY_LEN: usize = 32;

/// Length of an AES-GCM nonce.
pub const AES_GCM_NONCE_LEN: usize = 12;

/// Length of an AES-GCM tag.
pub const AES_GCM_TAG_LEN: usize = 16;

/// Calls `UnparsedPublicKey::new(&ED25519, key).verify(msg, sig)`; the
/// contract names its outcome.
#[verifier::external_body]
pub(crate) fn ed25519_verify(key: &[u8], msg: &[u8], sig: &[u8]) -> (ok: bool)
    ensures
        ok == ed25519_verifies(key@, msg@, sig@),
{
    let key = aws_lc_rs::signature::UnparsedPublicKey::new(&aws_lc_rs::signature::ED25519, key);
    key.verify(msg, sig).is_ok()
}

/// Calls `UnparsedPublicKey::new(&ML_DSA_*, key).verify(msg, sig)` for the
/// parameter set; the contract names its outcome.
#[verifier::external_body]
pub(crate) fn mldsa_verify(alg: PqKeyAlgorithm, key: &[u8], msg: &[u8], sig: &[u8]) -> (ok: bool)
    ensures
        ok == mldsa_verifies(alg, key@, msg@, sig@),
{
    let algorithm = match alg {
        PqKeyAlgorithm::MLDSA44 => &aws_lc_rs::signature::ML_DSA_44,
        PqKeyAlgorithm::MLDSA65 => &aws_lc_rs::signature::ML_DSA_65,
        PqKeyAlgorithm::MLDSA87 => &aws_lc_rs::signature::ML_DSA_87,
    };
    aws_lc_rs::signature::UnparsedPublicKey::new(algorithm, key).verify(msg, sig).is_ok()
}

/// Calls `PqdsaKeyPair::from_pkcs8` and returns the raw bytes of the public
/// key; the contract names the result.
#[verifier::external_body]
pub(crate) fn mldsa_public_key_bytes(alg: PqKeyAlgorithm, pkcs8: &[u8]) -> (r: Option<Vec<u8>>)
    ensures
        r matches Some(k) ==> mldsa_public_key(alg, pkcs8@) == Some(k@),
        r is None ==> mldsa_public_key(alg, pkcs8@) is None,
{
    let algorithm = match alg {
        PqKeyAlgorithm::MLDSA44 => &aws_lc_rs::signature::ML_DSA_44_SIGNING,
        PqKeyAlgorithm::MLDSA65 => &aws_lc_rs::signature::ML_DSA_65_SIGNING,
        PqKeyAlgorithm::MLDSA87 => &aws_lc_rs::signature::ML_DSA_87_SIGNING,
    };
    match aws_lc_rs::signature::PqdsaKeyPair::from_pkcs8(algorithm, pkcs8) {
        Ok(key) => Some(key.public_key().as_ref().to_vec()),
        Err(_) => None,
    }
}

/// Calls `PqdsaKeyPair::from_pkcs8` then `sign` into a buffer of
/// `signature_len()` bytes. Signing is randomised, so the signature is not
/// named; the contract claims that a document the crate rejects gives no
/// signature, and that a signature has the length of the parameter set and
/// verifies under the key pair's public key.
#[verifier::external_body]
pub(crate) fn mldsa_sign(alg: PqKeyAlgorithm, pkcs8: &[u8], msg: &[u8]) -> (r: Option<Vec<u8>>)
    ensures
        mldsa_public_key(alg, pkcs8@) is None ==> r is None,
        r matches Some(sig) ==> {
            &&& sig@.len() == signature_len(alg)
            &&& mldsa_public_key(alg, pkcs8@) matches Some(pk)
            &&& mldsa_verifies(alg, pk, msg@, sig@)
        },
{
    let algorithm = match alg {
        PqKeyAlgorithm::MLDSA44 => &aws_lc_rs::signature::ML_DSA_44_SIGNING,
        PqKeyAlgorithm::MLDSA65 => &aws_lc_rs::signature::ML_DSA_65_SIGNING,
        PqKeyAlgorithm::MLDSA87 => &aws_lc_rs::signature::ML_DSA_87_SIGNING,
    };
    let key = match aws_lc_rs::signature::PqdsaKeyPair::from_pkcs8(algorithm, pkcs8) {
        Ok(key) => key,
        Err(_) => return None,
    };
    let mut sig = vec![0u8; algorithm.signature_len()];
    match key.sign(msg, &mut sig) {
        Ok(_) => Some(sig),
        Err(_) => None,
    }
}

/// Calls `aws_lc_rs::rand::fill` on a buffer of `len` bytes. The bytes are
/// random: the contract claims only their number.
#[verifier::external_body]
pub(crate) fn random_bytes(len: usize) -> (r: Option<Vec<u8>>)
    ensures
        r matches Some(v) ==> v@.len() == len,
{
    let mut buf = vec![0u8; len];
    match aws_lc_rs::rand::fill(&mut buf) {
        Ok(()) => Some(buf),
        Err(_) => None,
    }
}

/// Calls `RandomizedNonceKey::new(&AES_256_GCM, key)` then
/// `seal_in_place_append_tag` without associated data. The nonce is random,
/// so the result is not named; the contract claims the lengths that AES-GCM
/// gives and that opening with the same key and the returned nonce gives the
/// plaintext back.
#[verifier::external_body]
pub(crate) fn aes256_gcm_seal(key: &[u8], plaintext: &[u8]) -> (r: Option<(Vec<u8>, Vec<u8>)>)
    ensures
        r matches Some((nonce, sealed)) ==> {
            &&& nonce@.len() == AES_GCM_NONCE_LEN
            &&& sealed@.len() == plaintext@.len() + AES_GCM_TAG_LEN
            &&& aes256_gcm_open(key@, nonce@, sealed@) == Some(plaintext@)
        },
{
    let key = aws_lc_rs::aead::RandomizedNonceKey::new(&aws_lc_rs::aead::AES_256_GCM, key).ok()?;
    let mut in_out = plaintext.to_vec();
    match key.seal_in_place_append_tag(aws_lc_rs::aead::Aad::empty(), &mut in_out) {
        Ok(nonce) => Some((nonce.as_ref().to_vec(), in_out)),
        Err(_) => None,
    }
}

/// Calls `RandomizedNonceKey::new(&AES_256_GCM, key)` then `open_in_place`
/// without associated data; the contract names the result.
#[verifier::external_body]
pub(crate) fn aes256_gcm_open_bytes(key: &[u8], nonce: &[u8], sealed: &[u8]) -> (r: Option<
    Vec<u8>,
>)
    requires
        nonce@.len() == AES_GCM_NONCE_LEN,
    ensures
        r matches Some(p) ==> aes256_gcm_open(key@, nonce@, sealed@) == Some(p@),
        r is None ==> aes256_gcm_open(key@, nonce@, sealed@) is None,
{
    let key = aws_lc_rs::aead::RandomizedNonceKey::new(&aws_lc_rs::aead::AES_256_GCM, key).ok()?;
    let nonce = aws_lc_rs::aead::Nonce::try_assume_unique_for_key(nonce).ok()?;
    let mut in_out = sealed.to_vec();
    match key.open_in_place(nonce, aws_lc_rs::aead::Aad::empty(), &mut in_out) {
        Ok(plain) => Some(plain.to_vec()),
        Err(_) => None,
    }
}

/// Calls `sskdf_digest` with the SHA-256 digest into a buffer of `len`
/// bytes; the contract names the result.
#[verifier::external_body]
pub(crate) fn sskdf_sha256_bytes(secret: &[u8], info: &[u8], len: usize) -> (r: Option<Vec<u8>>)
    ensures
        r matches Some(k) ==> sskdf_sha256(secret@, info@, len as nat) == Some(k@),
        r is None ==> sskdf_sha256(secret@, info@, len as nat) is None,
{
    let digest = get_sskdf_digest_algorithm(SskdfDigestAlgorithmId::Sha256)?;
    let mut out = vec![0u8; len];
    sskdf_digest(digest, secret, info, &mut out).ok()?;
    Some(out)
}

/// Calls `DecapsulationKey::generate(&ML_KEM_1024)` and returns the bytes of
/// the decapsulation key and of its encapsulation key. The keys are random;
/// the contract claims only that the second is the encapsulation key of the
/// first.
#[verifier::external_body]
pub(crate) fn ml_kem_generate() -> (r: Option<(Vec<u8>, Vec<u8>)>)
    ensures
        r matches Some((decap, encap)) ==> ml_kem_encapsulation_key(decap@) == Some(encap@),
{
    let decap = aws_lc_rs::kem::DecapsulationKey::generate(&aws_lc_rs::kem::ML_KEM_1024).ok()?;
    let decap_bytes = decap.key_bytes().ok()?.as_ref().to_vec();
    let encap_bytes = decap.encapsulation_key().ok()?.key_bytes().ok()?.as_ref().to_vec();
    Some((decap_bytes, encap_bytes))
}

/// Calls `DecapsulationKey::new(&ML_KEM_1024, decap)` then `decapsulate`;
/// the contract names the result.
#[verifier::external_body]
pub(crate) fn ml_kem_decapsulate_bytes(decap: &[u8], ciphertext: &[u8]) -> (r: Option<Vec<u8>>)
    ensures
        r matches Some(s) ==> ml_kem_decapsulate(decap@, ciphertext@) == Some(s@),
        r is None ==> ml_kem_decapsulate(decap@, ciphertext@) is None,
{
    let key = aws_lc_rs::kem::DecapsulationKey::new(&aws_lc_rs::kem::ML_KEM_1024, decap).ok()?;
    let secret = key.decapsulate(aws_lc_rs::kem::Ciphertext::from(ciphertext)).ok()?;
    Some(secret.as_ref().to_vec())
}

/// Calls `EncapsulationKey::new(&ML_KEM_1024, encap)` then `encapsulate`.
/// The ciphertext and the secret are random; the contract claims what the
/// crate's documentation of the KEM shows: decapsulating the ciphertext with
/// a decapsulation key of `encap` gives the same secret.
#[verifier::external_body]
pub(crate) fn ml_kem_encapsulate(encap: &[u8]) -> (r: Option<(Vec<u8>, Vec<u8>)>)
    ensures
        r matches Some((ciphertext, secret)) ==> ml_kem_carries(encap@, ciphertext@, secret@),
{
    let key = aws_lc_rs::kem::EncapsulationKey::new(&aws_lc_rs::kem::ML_KEM_1024, encap).ok()?;
    let (ciphertext, secret) = key.encapsulate().ok()?;
    Some((ciphertext.as_ref().to_vec(), secret.as_ref().to_vec()))
}

/// Calls `PqdsaKeyPair::generate` then `to_pkcs8v1`, and returns the document
/// with the raw public key. The key pair is random; the contract claims that
/// the document holds a key pair of the parameter set whose public key is
/// the one returned.
#[verifier::external_body]
pub(crate) fn mldsa_generate(alg: PqKeyAlgorithm) -> (r: Option<(Vec<u8>, Vec<u8>)>)
    ensures
        r matches Some((pkcs8, pk)) ==> mldsa_public_key(alg, pkcs8@) == Some(pk@),
{
    let algorithm = match alg {
        PqKeyAlgorithm::MLDSA44 => &aws_lc_rs::signature::ML_DSA_44_SIGNING,
        PqKeyAlgorithm::MLDSA65 => &aws_lc_rs::signature::ML_DSA_65_SIGNING,
        PqKeyAlgorithm::MLDSA87 => &aws_lc_rs::signature::ML_DSA_87_SIGNING,
    };
    let key = aws_lc_rs::signature::PqdsaKeyPair::generate(algorithm).ok()?;
    let pkcs8 = key.to_pkcs8v1().ok()?.as_ref().to_vec();
    Some((pkcs8, key.public_key().as_ref().to_vec()))
}

} // verus!
