use consh::msg::{ConMsg, MsgError};

#[test]
fn msg_to_vec() {
    let one: ConMsg = ConMsg::Hello(Vec::from(b"a"));
    let two: ConMsg = ConMsg::End(Vec::from(b"ab"));
    let three: ConMsg = ConMsg::Command(Vec::from(b"abc"));
    let four: ConMsg = ConMsg::Error(Vec::from(b"abcd"));
    assert_eq!(
        Vec::from(one),
        vec![b'\x00', b'\x00', b'\x00', b'\x02', b'0', b'a']
    );
    assert_eq!(
        Vec::from(two),
        vec![b'\x00', b'\x00', b'\x00', b'\x03', b'1', b'a', b'b']
    );
    assert_eq!(
        Vec::from(three),
        vec![b'\x00', b'\x00', b'\x00', b'\x04', b'2', b'a', b'b', b'c']
    );
    assert_eq!(
        Vec::from(four),
        vec![
            b'\x00', b'\x00', b'\x00', b'\x05', b'3', b'a', b'b', b'c', b'd'
        ]
    );
}

#[test]
fn str_to_msg() {
    let one: ConMsg = ConMsg::Hello(Vec::from(b"a"));
    let two: ConMsg = ConMsg::End(Vec::from(b"ab"));
    let three: ConMsg = ConMsg::Command(Vec::from(b"abc"));
    let four: ConMsg = ConMsg::Error(Vec::from(b"abcd"));
    assert_eq!(one, ConMsg::try_from(b"2:0a" as &[u8]).unwrap());
    assert_eq!(two, ConMsg::try_from(b"3:1ab" as &[u8]).unwrap());
    assert_eq!(three, ConMsg::try_from(b"4:2abc" as &[u8]).unwrap());
    assert_eq!(four, ConMsg::try_from(b"5:3abcd" as &[u8]).unwrap());
}

#[test]
fn encapsulation_frame_has_tag_five() {
    let msg = ConMsg::Encapsulation(vec![9, 8]);
    assert_eq!(msg.to_bytes(), vec![0, 0, 0, 3, b'5', 9, 8]);
}

#[test]
fn body_parses_every_simple_kind() {
    assert_eq!(ConMsg::from_bytes(b"0key").unwrap(), ConMsg::Hello(b"key".to_vec()));
    assert_eq!(ConMsg::from_bytes(b"1").unwrap(), ConMsg::End(vec![]));
    assert_eq!(ConMsg::from_bytes(b"2ls").unwrap(), ConMsg::Command(b"ls".to_vec()));
    assert_eq!(ConMsg::from_bytes(b"3no").unwrap(), ConMsg::Error(b"no".to_vec()));
    assert_eq!(ConMsg::from_bytes(b"5ct").unwrap(), ConMsg::Encapsulation(b"ct".to_vec()));
}

#[test]
fn unknown_tag_is_refused() {
    assert_eq!(ConMsg::from_bytes(b"9x"), Err(MsgError::UnknownKind));
}

#[test]
fn text_frame_errors() {
    assert_eq!(ConMsg::try_from(b"" as &[u8]), Err(MsgError::InvalidFrame));
    assert_eq!(ConMsg::try_from(b"2:0" as &[u8]), Err(MsgError::InvalidFrame));
    assert_eq!(ConMsg::try_from(b":0a" as &[u8]), Err(MsgError::InvalidFrame));
    assert_eq!(ConMsg::try_from(b"2x0a" as &[u8]), Err(MsgError::InvalidFrame));
    assert_eq!(ConMsg::try_from(b"0:" as &[u8]), Err(MsgError::UnknownKind));
    assert_eq!(ConMsg::try_from(b"2:9a" as &[u8]), Err(MsgError::UnknownKind));
    assert_eq!(ConMsg::try_from(b"99999999999999999999999:0a" as &[u8]), Err(MsgError::InvalidFrame));
}

#[test]
fn frame_round_trips() {
    let msg = ConMsg::Command(b"echo hi".to_vec());
    let frame = msg.to_bytes();
    assert_eq!(&frame[..4], &[0, 0, 0, 8]);
    assert_eq!(ConMsg::from_bytes(&frame[4..]).unwrap(), msg);
}

#[test]
fn challenge_round_trips_through_cbor() {
    let ts = consh::cbor::Timestamp {
        year: 2024, ordinal: 100, hour: 12, minute: 30, second: 5, nanosecond: 7,
        offset_hours: 0, offset_minutes: 0, offset_seconds: 0,
    };
    let msg = ConMsg::Challenge { nonce: vec![1, 2, 3], timestamp: ts, signature: vec![9] };
    let frame = msg.to_bytes();
    assert_eq!(frame[4], b'4');
    assert_eq!(&frame[5..9], &[0, 0, 0, 3]);
    assert_eq!(&frame[9..12], &[1, 2, 3]);
    // The timestamp field is the CBOR array of nine components, not empty.
    let tlen = u32::from_be_bytes([frame[12], frame[13], frame[14], frame[15]]) as usize;
    assert!(tlen > 9);
    assert_eq!(frame[16], 0x89);
    assert_eq!(ConMsg::from_bytes(&frame[4..]).unwrap(), msg);
    // The CBOR bytes are those of the same time as a time::OffsetDateTime.
    let odt = time::OffsetDateTime::from_unix_timestamp(0).unwrap()
        .replace_date(time::Date::from_ordinal_date(2024, 100).unwrap())
        .replace_time(time::Time::from_hms_nano(12, 30, 5, 7).unwrap());
    let mut expected = Vec::new();
    ciborium::into_writer(&odt, &mut expected).unwrap();
    assert_eq!(&frame[16..16 + tlen], expected.as_slice());
}

#[test]
fn challenge_with_invalid_time_is_refused() {
    let ts = consh::cbor::Timestamp {
        year: 2024, ordinal: 400, hour: 12, minute: 30, second: 5, nanosecond: 7,
        offset_hours: 0, offset_minutes: 0, offset_seconds: 0,
    };
    let msg = ConMsg::Challenge { nonce: vec![1], timestamp: ts, signature: vec![] };
    let frame = msg.to_bytes();
    assert_eq!(ConMsg::from_bytes(&frame[4..]), Err(MsgError::MalformedTimestamp));
}

#[test]
fn challenge_field_errors() {
    assert_eq!(ConMsg::from_bytes(b"4\x00\x00"), Err(MsgError::InvalidChallengeFormat));
    assert_eq!(ConMsg::from_bytes(b"4\x00\x00\x00\x05ab"), Err(MsgError::UnexpectedEof));
    assert_eq!(ConMsg::from_bytes(b"4\x00\x00\x00\x01a\x00"), Err(MsgError::InvalidChallengeFormat));
    assert_eq!(ConMsg::from_bytes(b"4\x00\x00\x00\x01a\x00\x00\x00\x09xx"), Err(MsgError::UnexpectedEof));
    assert_eq!(ConMsg::from_bytes(b"4\x00\x00\x00\x00\x00\x00\x00\x01\xff"), Err(MsgError::MalformedTimestamp));
}

#[test]
fn short_signature_length_reuses_time_length_bytes() {
    // A challenge that ends right after its timestamp: the signature length
    // is read from the timestamp's length field, left in the buffer.
    let ts = consh::cbor::Timestamp {
        year: 2024, ordinal: 1, hour: 0, minute: 0, second: 0, nanosecond: 0,
        offset_hours: 0, offset_minutes: 0, offset_seconds: 0,
    };
    let full = ConMsg::Challenge { nonce: vec![], timestamp: ts, signature: vec![] }.body();
    let cut = &full[..full.len() - 4];
    assert_eq!(ConMsg::from_bytes(cut), Err(MsgError::UnexpectedEof));
}

#[test]
fn text_frame_of_a_vector() {
    let v: Vec<u8> = b"3:2ls".to_vec();
    assert_eq!(ConMsg::try_from(&v).unwrap(), ConMsg::Command(b"ls".to_vec()));
}

#[test]
fn timestamp_is_written_as_shortest_cbor_integers() {
    let ts = consh::cbor::Timestamp {
        year: 2024,
        ordinal: 100,
        hour: 1,
        minute: 2,
        second: 30,
        nanosecond: 70000,
        offset_hours: -5,
        offset_minutes: 0,
        offset_seconds: 0,
    };
    let body = ConMsg::Challenge { nonce: vec![7], timestamp: ts, signature: vec![9] }.body();
    let expected_time = vec![
        0x89, 0x19, 0x07, 0xe8, 0x18, 0x64, 0x01, 0x02, 0x18, 0x1e, 0x1a, 0x00, 0x01, 0x11, 0x70,
        0x24, 0x00, 0x00,
    ];
    let mut expected = vec![b'4', 0, 0, 0, 1, 7, 0, 0, 0, expected_time.len() as u8];
    expected.extend_from_slice(&expected_time);
    expected.extend_from_slice(&[0, 0, 0, 1, 9]);
    assert_eq!(body, expected);
    assert!(expected_time.len() <= consh::cbor::MAX_TIMESTAMP_BYTES);
}
