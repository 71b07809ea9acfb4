use aws_lc_rs::signature::{Ed25519KeyPair, KeyPair};
use consh::auth::SigningKey;
use consh::{PqKeyAlgorithm, SigPublicKey};

#[test]
fn hybrid_signature_needs_both_halves() {
    let ed = Ed25519KeyPair::generate().unwrap();
    let (pq, pq_pub) = SigningKey::generate(PqKeyAlgorithm::MLDSA44).unwrap();
    let key = SigPublicKey::from_parts(ed.public_key().as_ref().to_vec(), pq_pub.clone()).unwrap();
    assert_eq!(key.as_bytes(), [ed.public_key().as_ref(), pq_pub.as_slice()].concat());
    assert_eq!(key.clone().as_bytes(), key.as_bytes());

    let msg = b"hello";
    let ed_sig = ed.sign(msg);
    let pq_pair = aws_lc_rs::signature::PqdsaKeyPair::from_pkcs8(
        &aws_lc_rs::signature::ML_DSA_44_SIGNING,
        &pq.pkcs8_bytes(),
    )
    .unwrap();
    let mut pq_sig = vec![0u8; 2420];
    pq_pair.sign(msg, &mut pq_sig).unwrap();

    assert!(key.verify(msg, ed_sig.as_ref(), &pq_sig).is_ok());
    assert!(key.verify(b"other", ed_sig.as_ref(), &pq_sig).is_err());
    let mut bad_ed = ed_sig.as_ref().to_vec();
    bad_ed[0] ^= 1;
    assert!(key.verify(msg, &bad_ed, &pq_sig).is_err());
    let mut bad_pq = pq_sig.clone();
    bad_pq[0] ^= 1;
    assert!(key.verify(msg, ed_sig.as_ref(), &bad_pq).is_err());
}

#[test]
fn ed25519_key_must_be_32_bytes() {
    assert!(SigPublicKey::from_parts(vec![0u8; 31], vec![1, 2, 3]).is_none());
    assert!(SigPublicKey::from_parts(vec![0u8; 33], vec![1, 2, 3]).is_none());
    let key = SigPublicKey::from_parts(vec![7u8; 32], vec![1, 2, 3]).unwrap();
    assert_eq!(key.as_bytes().len(), 35);
}
