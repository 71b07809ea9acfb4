use consh::client::{client_action, input_message, overwrite_answer, Answer, ClientAction};
use consh::{ConMsg, MsgError};

#[test]
fn client_prints_commands_and_ends() {
    match client_action(b"2out").unwrap() {
        ClientAction::Print(c) => assert_eq!(c, b"out".to_vec()),
        _ => panic!(),
    }
    assert!(matches!(client_action(b"1").unwrap(), ClientAction::Shutdown));
    assert!(matches!(client_action(b"0k").unwrap(), ClientAction::Unsupported));
    assert!(matches!(client_action(b"q"), Err(MsgError::UnknownKind)));
}

#[test]
fn ctrl_d_ends_the_session() {
    let (msg, go_on) = input_message(&[4]);
    assert_eq!(msg, ConMsg::End(vec![]));
    assert!(!go_on);
    let (msg, go_on) = input_message(b"ls\r");
    assert_eq!(msg, ConMsg::Command(b"ls\r".to_vec()));
    assert!(go_on);
    let (msg, go_on) = input_message(&[4, 4]);
    assert_eq!(msg, ConMsg::Command(vec![4, 4]));
    assert!(go_on);
}

#[test]
fn overwrite_answers() {
    assert_eq!(overwrite_answer(1, b"\n", b""), Answer::Keep);
    assert_eq!(overwrite_answer(2, b"y\n", b"y"), Answer::Yes);
    assert_eq!(overwrite_answer(4, b"yes\n", b"yes"), Answer::Yes);
    // "no" is compared before trimming: with its newline it asks again.
    assert_eq!(overwrite_answer(3, b"no\n", b"no"), Answer::Again);
    assert_eq!(overwrite_answer(2, b"no", b"no"), Answer::No);
    assert_eq!(overwrite_answer(6, b"maybe\n", b"maybe"), Answer::Again);
}
