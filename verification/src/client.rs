//! The client's rules: what it does with a message from the server, what it
//! sends for a chunk of keyboard input, and how it reads an answer to the
//! question whether to overwrite a key pair.
use vstd::prelude::*;
use crate::auth::bytes_eq;
use crate::msg::{ConMsg, MsgError, MsgValue, copy_range, parse_body};

verus! {

/// What the client does with a message from the server.
pub enum ClientAction {
    /// Write these bytes to the terminal.
    Print(Vec<u8>),
    /// End the session.
    Shutdown,
    /// Say that the operation is not supported, and go on.
    Unsupported,
}

/// The client prints commands, ends the session on `End`, and does not
/// support the other kinds.
pub fn client_action(body: &[u8]) -> (r: Result<ClientAction, MsgError>)
    requires
        body@.len() > 0,
    ensures
        match parse_body(body@) {
            Ok(MsgValue::Command(c)) => r matches Ok(ClientAction::Print(out)) && out@ == c,
            Ok(MsgValue::End(_)) => r matches Ok(ClientAction::Shutdown),
            Ok(_) => r matches Ok(ClientAction::Unsupported),
            Err(e) => r matches Err(e2) && e2 == e,
        },
{
    match ConMsg::from_bytes(body) {
        Ok(ConMsg::Command(c)) => Ok(ClientAction::Print(c)),
        Ok(ConMsg::End(_)) => Ok(ClientAction::Shutdown),
        Ok(_) => Ok(ClientAction::Unsupported),
        Err(e) => Err(e),
    }
}

/// The byte that a terminal in raw mode reads for Ctrl-D.
pub const END_OF_TRANSMISSION: u8 = 4;

/// The message for a chunk of keyboard input, and whether to keep reading: a
/// lone Ctrl-D ends the session, anything else is a command.
pub fn input_message(input: &[u8]) -> (r: (ConMsg, bool))
    ensures
        input@.len() == 1 && input@[0] == END_OF_TRANSMISSION ==> r.0@ == MsgValue::End(
            Seq::empty(),
        ) && !r.1,
        !(input@.len() == 1 && input@[0] == END_OF_TRANSMISSION) ==> r.0@ == MsgValue::Command(
            input@,
        ) && r.1,
{
    if input.len() == 1 && input[0] == END_OF_TRANSMISSION {
        let empty: Vec<u8> = Vec::new();
        assert(empty@ =~= Seq::<u8>::empty());
        (ConMsg::End(empty), false)
    } else {
        let copy = copy_range(input, 0, input.len());
        assert(copy@ =~= input@);
        (ConMsg::Command(copy), true)
    }
}

/// An answer to the question whether to overwrite an existing key pair.
#[derive(Clone, Copy, PartialEq, Eq, Debug, Structural)]
pub enum Answer {
    /// The line was empty: keep the old key pair.
    Keep,
    /// Overwrite.
    Yes,
    /// Do not overwrite.
    No,
    /// Ask again.
    Again,
}

/// The answer that a line of input gives, from the number of bytes read, the
/// line in lower case, and that with trailing whitespace trimmed: fewer than
/// two bytes keep the key pair, `y` or `yes` (trimmed) overwrite it, `n` or
/// `no` (untrimmed) do not, and anything else asks again.
pub fn overwrite_answer(read: usize, lower: &[u8], trimmed: &[u8]) -> (r: Answer)
    ensures
        read < 2 ==> r == Answer::Keep,
        read >= 2 && (trimmed@ == seq![0x79u8] || trimmed@ == seq![0x79u8, 0x65u8, 0x73u8])
            ==> r == Answer::Yes,
        read >= 2 && !(trimmed@ == seq![0x79u8] || trimmed@ == seq![0x79u8, 0x65u8, 0x73u8]) && (
        lower@ == seq![0x6eu8] || lower@ == seq![0x6eu8, 0x6fu8]) ==> r == Answer::No,
        read >= 2 && !(trimmed@ == seq![0x79u8] || trimmed@ == seq![0x79u8, 0x65u8, 0x73u8]) && !(
        lower@ == seq![0x6eu8] || lower@ == seq![0x6eu8, 0x6fu8]) ==> r == Answer::Again,
{
    if read < 2 {
        return Answer::Keep;
    }
    let y: [u8; 1] = [0x79];
    let yes: [u8; 3] = [0x79, 0x65, 0x73];
    let n: [u8; 1] = [0x6e];
    let no: [u8; 2] = [0x6e, 0x6f];
    assert(y@ =~= seq![0x79u8]);
    assert(yes@ =~= seq![0x79u8, 0x65u8, 0x73u8]);
    assert(n@ =~= seq![0x6eu8]);
    assert(no@ =~= seq![0x6eu8, 0x6fu8]);
    if bytes_eq(trimmed, &y) || bytes_eq(trimmed, &yes) {
        Answer::Yes
    } else if bytes_eq(lower, &n) || bytes_eq(lower, &no) {
        Answer::No
    } else {
        Answer::Again
    }
}

} // verus!
