use consh::server::{
    accepts_connection, admit_client, find_user, release, max_connections_reply, send_decision, server_action,
    user_in_passwd, AllowError, SendDecision, ServerAction, WriteOutcome,
};
use consh::{ConMsg, MsgError};

#[test]
fn server_runs_commands_and_ends() {
    match server_action(b"2ls -l").unwrap() {
        ServerAction::WriteToShell(c) => assert_eq!(c, b"ls -l".to_vec()),
        _ => panic!(),
    }
    assert!(matches!(server_action(b"1").unwrap(), ServerAction::Shutdown));
    assert!(matches!(server_action(b"0k").unwrap(), ServerAction::Unsupported));
    assert!(matches!(server_action(b"3e").unwrap(), ServerAction::Unsupported));
    assert!(matches!(server_action(b"x"), Err(MsgError::UnknownKind)));
}

#[test]
fn at_most_ten_clients() {
    assert!(accepts_connection(0));
    assert!(accepts_connection(9));
    assert!(!accepts_connection(10));
    assert!(!accepts_connection(200));
    assert_eq!(max_connections_reply(), ConMsg::Error(b"Max connections reached".to_vec()).to_bytes());
}

fn lines(ls: &[&str]) -> Vec<Vec<u8>> {
    ls.iter().map(|l| l.as_bytes().to_vec()).collect()
}

#[test]
fn first_listed_key_logs_in_its_user() {
    // "AQID" is [1, 2, 3].
    let list = lines(&["AQID\talice", "BAUG bob"]);
    assert_eq!(find_user(&list, false, &[1, 2, 3]), Ok(b"alice".to_vec()));
    assert_eq!(find_user(&list, false, &[9]), Err(AllowError::UnknownClient));
    assert_eq!(find_user(&list, true, &[9]), Err(AllowError::ReadFailed));
}

#[test]
fn decoded_keys_accumulate_over_lines() {
    // "BAUG" is [4, 5, 6]: the second line matches the two keys joined.
    let list = lines(&["AQID alice", "  BAUG   bob  "]);
    assert_eq!(find_user(&list, false, &[4, 5, 6]), Err(AllowError::UnknownClient));
    assert_eq!(find_user(&list, false, &[1, 2, 3, 4, 5, 6]), Ok(b"bob".to_vec()));
}

#[test]
fn malformed_allowlists() {
    assert_eq!(find_user(&lines(&[""]), false, &[1]), Err(AllowError::MalformedLine));
    assert_eq!(find_user(&lines(&["AQID"]), false, &[1, 2, 3]), Err(AllowError::MalformedLine));
    assert_eq!(find_user(&lines(&["!!!! x"]), false, &[1]), Err(AllowError::BadKey));
}

#[test]
fn passwd_lookup_by_first_field() {
    let passwd = lines(&["root:x:0:0:root:/root:/bin/bash\n", "alice:x:1000:1000::/home/alice:/bin/sh\n"]);
    assert!(user_in_passwd(&passwd, b"alice"));
    assert!(user_in_passwd(&passwd, b"root"));
    assert!(!user_in_passwd(&passwd, b"bob"));
    assert!(!user_in_passwd(&passwd, b"ali"));
    assert!(user_in_passwd(&lines(&["nocolon\n"]), b"nocolon\n"));
}

#[test]
fn sender_moves_on_stops_or_retries() {
    assert_eq!(send_decision(0, 10, WriteOutcome::Wrote(4)), SendDecision::Next(4));
    assert_eq!(send_decision(4, 10, WriteOutcome::Wrote(6)), SendDecision::Finished);
    assert_eq!(send_decision(4, 10, WriteOutcome::Wrote(0)), SendDecision::Abandon);
    assert_eq!(send_decision(4, 10, WriteOutcome::BrokenPipe), SendDecision::Abandon);
    assert_eq!(send_decision(4, 10, WriteOutcome::Failed), SendDecision::Retry);
}

#[test]
fn count_of_clients_stays_within_the_cap() {
    let mut active = 0u8;
    for _ in 0..10 {
        let (served, next) = admit_client(active);
        assert!(served);
        active = next;
    }
    assert_eq!(active, 10);
    assert_eq!(admit_client(active), (false, 10));
    active = release(active);
    assert_eq!(active, 9);
    assert_eq!(admit_client(active), (true, 10));
}
