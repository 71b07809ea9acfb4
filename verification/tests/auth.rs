use consh::auth::{
    accept_key, bad_opener_reply, bytes_eq, frame_body_len, malformed_signature_reply,
    prove_response, ChallengeError, Challenger, KeyError, ProveError, SigningKey, NONCE_LEN,
};
use consh::{ConMsg, MsgError, PqKeyAlgorithm};

fn body(frame: &[u8]) -> &[u8] {
    assert_eq!(frame_body_len(&frame[..4]), frame.len() - 4);
    &frame[4..]
}

#[test]
fn hello_gives_the_key() {
    let frame = ConMsg::Hello(b"pubkey".to_vec()).to_bytes();
    assert_eq!(accept_key(body(&frame)), Ok(b"pubkey".to_vec()));
}

#[test]
fn other_first_message_is_refused() {
    let frame = ConMsg::Command(b"ls".to_vec()).to_bytes();
    assert_eq!(accept_key(body(&frame)), Err(KeyError::NotHello));
    assert_eq!(accept_key(b"x"), Err(KeyError::Parse(MsgError::UnknownKind)));
    assert_eq!(bad_opener_reply(), ConMsg::Error(b"Bad handshake opener".to_vec()).to_bytes());
    assert_eq!(
        malformed_signature_reply(),
        ConMsg::Error(b"Malformed signature message".to_vec()).to_bytes()
    );
}

#[test]
fn honest_client_passes_the_challenge() {
    let (key, pk) = SigningKey::generate(PqKeyAlgorithm::MLDSA44).unwrap();
    assert_eq!(key.public_key().unwrap(), pk);
    let (challenger, frame) = Challenger::new(&pk, PqKeyAlgorithm::MLDSA44).unwrap();
    match ConMsg::from_bytes(body(&frame)).unwrap() {
        ConMsg::Challenge { nonce, signature, .. } => {
            assert_eq!(nonce.len(), NONCE_LEN);
            assert_eq!(signature, vec![0u8]);
        }
        other => panic!("not a challenge: {:?}", other),
    }
    let answer = prove_response(body(&frame), &key).unwrap();
    match &answer {
        ConMsg::Challenge { signature, .. } => assert_eq!(signature.len(), 2420),
        other => panic!("not a challenge: {:?}", other),
    }
    let answer_frame = answer.to_bytes();
    assert_eq!(challenger.check_response(body(&answer_frame)), Ok(()));
}

#[test]
fn nonces_are_fresh() {
    let (_, f1) = Challenger::new(b"k", PqKeyAlgorithm::MLDSA44).unwrap();
    let (_, f2) = Challenger::new(b"k", PqKeyAlgorithm::MLDSA44).unwrap();
    assert_ne!(&f1[9..21], &f2[9..21]);
}

#[test]
fn forged_answers_are_refused() {
    let (key, pk) = SigningKey::generate(PqKeyAlgorithm::MLDSA44).unwrap();
    let (other_key, _) = SigningKey::generate(PqKeyAlgorithm::MLDSA44).unwrap();
    let (challenger, frame) = Challenger::new(&pk, PqKeyAlgorithm::MLDSA44).unwrap();

    // Signed by another key.
    let forged = prove_response(body(&frame), &other_key).unwrap().to_bytes();
    assert_eq!(challenger.check_response(body(&forged)), Err(ChallengeError::BadSignature));

    // Another nonce.
    let (_, other_frame) = Challenger::new(&pk, PqKeyAlgorithm::MLDSA44).unwrap();
    let replay = prove_response(body(&other_frame), &key).unwrap().to_bytes();
    assert_eq!(challenger.check_response(body(&replay)), Err(ChallengeError::NonceMismatch));

    // Not a challenge at all.
    let hello = ConMsg::Hello(vec![1]).to_bytes();
    assert_eq!(challenger.check_response(body(&hello)), Err(ChallengeError::NotAChallenge));
    assert_eq!(challenger.check_response(b"7"), Err(ChallengeError::Parse(MsgError::UnknownKind)));
}

#[test]
fn prover_refuses_what_is_not_a_challenge() {
    let (key, _) = SigningKey::generate(PqKeyAlgorithm::MLDSA44).unwrap();
    assert_eq!(prove_response(b"1", &key).unwrap_err(), ProveError::NotAChallenge);
    assert_eq!(prove_response(b"z", &key).unwrap_err(), ProveError::Parse(MsgError::UnknownKind));
}

#[test]
fn bad_key_document_cannot_sign() {
    let (_, frame) = Challenger::new(b"k", PqKeyAlgorithm::MLDSA44).unwrap();
    let key = SigningKey::from_pkcs8(PqKeyAlgorithm::MLDSA44, vec![1, 2, 3]);
    assert!(key.public_key().is_none());
    assert_eq!(prove_response(body(&frame), &key).unwrap_err(), ProveError::Signing);
}

#[test]
fn key_document_reloads() {
    let (key, pk) = SigningKey::generate(PqKeyAlgorithm::MLDSA65).unwrap();
    let again = SigningKey::from_pkcs8(PqKeyAlgorithm::MLDSA65, key.pkcs8_bytes());
    assert_eq!(again.public_key().unwrap(), pk);
}

#[test]
fn byte_equality() {
    assert!(bytes_eq(b"ab", b"ab"));
    assert!(!bytes_eq(b"ab", b"ac"));
    assert!(!bytes_eq(b"ab", b"abc"));
}

#[test]
fn challenge_time_fits_its_bound() {
    let (_, frame) = Challenger::new(b"k", PqKeyAlgorithm::MLDSA44).unwrap();
    let time_len = frame.len() - (4 + 1 + 4 + NONCE_LEN + 4 + 4 + 1);
    assert!(time_len > 9);
    assert!(time_len <= consh::cbor::MAX_TIMESTAMP_BYTES);
}
