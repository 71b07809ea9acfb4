use aws_lc_rs::kdf::{get_sskdf_digest_algorithm, sskdf_digest, SskdfDigestAlgorithmId};
use aws_lc_rs::kem::{Ciphertext, DecapsulationKey, EncapsulationKey, ML_KEM_1024};
use consh::encrypt::{
    answer_server_key, ClientHandshake, HandshakeError, KeyValidate, ReadPlan, StreamError,
    StreamState, WritePlan,
};
use consh::{ConMsg, MsgError};

fn key(b: u8) -> Vec<u8> {
    vec![b; 32]
}

fn frame_for(state: &StreamState, data: &[u8]) -> Vec<u8> {
    match state.write_plan(data) {
        WritePlan::SendFrame(f) => f,
        _ => panic!("no frame"),
    }
}

#[test]
fn written_frame_reads_back() {
    let writer = StreamState::new(key(1), key(2));
    let mut reader = StreamState::new(key(2), key(1));
    let frame = frame_for(&writer, b"hello");
    assert_eq!(frame.len(), 8 + 12 + 5 + 16);
    assert_eq!(&frame[..8], &(12u64 + 5 + 16).to_be_bytes());
    let want = 5;
    let request = match reader.read_plan(want) {
        ReadPlan::Receive(n) => n,
        _ => panic!("expected a request"),
    };
    assert_eq!(request, 5 + 12 + 16 + 8);
    match reader.on_received(want, &frame) {
        ReadPlan::Done(p) => assert_eq!(p, b"hello".to_vec()),
        _ => panic!("expected plaintext"),
    }
}

#[test]
fn short_reads_deliver_in_order() {
    let writer = StreamState::new(key(1), key(2));
    let mut reader = StreamState::new(key(2), key(1));
    let frame = frame_for(&writer, b"abcdef");
    let request = match reader.read_plan(2) {
        ReadPlan::Receive(n) => n,
        _ => panic!(),
    };
    // The first request is sized for a 2-byte message: too short for this frame.
    assert_eq!(request, 2 + 36);
    match reader.on_received(2, &frame[..request]) {
        ReadPlan::Fail(StreamError::Interrupted) => {}
        _ => panic!("expected interruption"),
    }
    let rest = match reader.read_plan(2) {
        ReadPlan::Receive(n) => n,
        _ => panic!(),
    };
    assert_eq!(rest, frame.len() - request);
    match reader.on_received(2, &frame[request..]) {
        ReadPlan::Done(p) => assert_eq!(p, b"ab".to_vec()),
        _ => panic!(),
    }
    match reader.read_plan(3) {
        ReadPlan::Done(p) => assert_eq!(p, b"cde".to_vec()),
        _ => panic!(),
    }
    match reader.read_plan(10) {
        ReadPlan::Done(p) => assert_eq!(p, b"f".to_vec()),
        _ => panic!(),
    }
    match reader.read_plan(0) {
        ReadPlan::Done(p) => assert!(p.is_empty()),
        _ => panic!(),
    }
}

#[test]
fn whole_frame_shorter_than_requested_decrypts() {
    let writer = StreamState::new(key(1), key(2));
    let mut reader = StreamState::new(key(2), key(1));
    let frame = frame_for(&writer, b"hi");
    let request = match reader.read_plan(10) {
        ReadPlan::Receive(n) => n,
        _ => panic!("expected a request"),
    };
    assert_eq!(request, 10 + 36);
    assert!(frame.len() < request);
    match reader.on_received(10, &frame) {
        ReadPlan::Done(p) => assert_eq!(p, b"hi".to_vec()),
        _ => panic!("expected plaintext"),
    }
}

#[test]
fn retry_after_split_length_field() {
    let writer = StreamState::new(key(1), key(2));
    let mut reader = StreamState::new(key(2), key(1));
    let frame = frame_for(&writer, b"hi");
    assert!(matches!(reader.read_plan(10), ReadPlan::Receive(46)));
    match reader.on_received(10, &frame[..5]) {
        ReadPlan::Fail(StreamError::Interrupted) => {}
        _ => panic!("expected interruption"),
    }
    let rest = match reader.read_plan(10) {
        ReadPlan::Receive(n) => n,
        _ => panic!(),
    };
    assert_eq!(rest, 46 - 5);
    match reader.on_received(10, &frame[5..]) {
        ReadPlan::Done(p) => assert_eq!(p, b"hi".to_vec()),
        _ => panic!("expected plaintext"),
    }
}

#[test]
fn short_tampered_frame_is_refused() {
    let writer = StreamState::new(key(1), key(2));
    let mut reader = StreamState::new(key(2), key(1));
    let mut frame = frame_for(&writer, b"hi");
    let last = frame.len() - 1;
    frame[last] ^= 1;
    assert!(matches!(reader.read_plan(10), ReadPlan::Receive(46)));
    match reader.on_received(10, &frame) {
        ReadPlan::Fail(StreamError::InvalidCiphertext) => {}
        _ => panic!("expected refusal"),
    }
    assert!(matches!(reader.read_plan(10), ReadPlan::Receive(46)));
}

#[test]
fn frame_under_another_key_is_refused() {
    let writer = StreamState::new(key(1), key(2));
    let mut reader = StreamState::new(key(2), key(3));
    let frame = frame_for(&writer, b"secret");
    assert!(matches!(reader.read_plan(6), ReadPlan::Receive(_)));
    match reader.on_received(6, &frame) {
        ReadPlan::Fail(StreamError::InvalidCiphertext) => {}
        _ => panic!("expected refusal"),
    }
}

#[test]
fn malformed_length_is_refused() {
    let mut reader = StreamState::new(key(2), key(3));
    let n = match reader.read_plan(4) {
        ReadPlan::Receive(n) => n,
        _ => panic!(),
    };
    let mut bogus = vec![0u8; n];
    bogus[7] = 3;
    match reader.on_received(4, &bogus) {
        ReadPlan::Fail(StreamError::InvalidCiphertext) => {}
        _ => panic!("expected refusal"),
    }
}

#[test]
fn unsent_bytes_go_first() {
    let mut writer = StreamState::new(key(1), key(2));
    let frame = frame_for(&writer, b"data");
    writer.record_sent(&frame, 10);
    assert_eq!(writer.pending(), frame[10..].to_vec());
    match writer.write_plan(b"more") {
        WritePlan::SendPending(p) => assert_eq!(p, frame[10..].to_vec()),
        _ => panic!("expected the pending bytes"),
    }
    writer.clear_pending();
    assert!(writer.pending().is_empty());
    assert!(matches!(writer.write_plan(b""), WritePlan::Nothing));
}

#[test]
fn key_exchange_derives_the_server_keys() {
    let kdf = get_sskdf_digest_algorithm(SskdfDigestAlgorithmId::Sha256).unwrap();

    let (client, hello) = ClientHandshake::start().unwrap();
    let client_encap = match ConMsg::from_bytes(&hello[4..]).unwrap() {
        ConMsg::Hello(k) => k,
        _ => panic!(),
    };
    // The server encapsulates a secret for the client's key.
    let (ct, secret) = EncapsulationKey::new(&ML_KEM_1024, &client_encap).unwrap().encapsulate().unwrap();
    let mut expected = vec![0u8; 32];
    sskdf_digest(kdf, secret.as_ref(), b"consh-client", &mut expected).unwrap();
    let enc = ConMsg::Encapsulation(ct.as_ref().to_vec()).to_bytes();
    assert_eq!(client.send_key(&enc[4..]).unwrap(), expected);

    // The client encapsulates a secret for the server's key.
    let server = DecapsulationKey::generate(&ML_KEM_1024).unwrap();
    let server_encap = server.encapsulation_key().unwrap().key_bytes().unwrap().as_ref().to_vec();
    let server_hello = ConMsg::Hello(server_encap).to_bytes();
    let (ct, recv_key) = answer_server_key(&server_hello[4..]).unwrap();
    let secret = server.decapsulate(Ciphertext::from(ct.as_slice())).unwrap();
    let mut expected = vec![0u8; 32];
    sskdf_digest(kdf, secret.as_ref(), b"consh-client", &mut expected).unwrap();
    assert_eq!(recv_key, expected);
}

#[test]
fn key_exchange_follows_the_protocol() {
    let (client, _) = ClientHandshake::start().unwrap();
    let hello = ConMsg::Hello(vec![1]).to_bytes();
    assert_eq!(client.send_key(&hello[4..]), Err(HandshakeError::Protocol));
    assert_eq!(client.send_key(b"x"), Err(HandshakeError::Parse(MsgError::UnknownKind)));
    let enc = ConMsg::Encapsulation(vec![1, 2, 3]).to_bytes();
    assert_eq!(client.send_key(&enc[4..]), Err(HandshakeError::KeyExchange));
    let end = ConMsg::End(vec![]).to_bytes();
    assert_eq!(answer_server_key(&end[4..]), Err(HandshakeError::Protocol));
    assert_eq!(answer_server_key(&hello[4..]), Err(HandshakeError::KeyExchange));
}

#[test]
fn closures_validate_keys() {
    let check = |key: &[u8]| if key.len() == 32 { Ok(()) } else { Err("bad length") };
    assert_eq!(check.validate(&[0u8; 32]), Ok(()));
    assert_eq!(check.validate(&[0u8; 3]), Err("bad length"));
}
