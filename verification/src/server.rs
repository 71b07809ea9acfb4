//! The server's rules: what it does with a client's message, whom it admits,
//! and which user an authorised key logs in.
use vstd::prelude::*;
use vstd::string::StringSliceAdditionalSpecFns;
use std::io::Read;
use crate::msg::{ConMsg, MsgError, MsgValue, copy_range, frame_of, parse_body, push_all};

verus! {

// ---------------------------------------------------------------------------
// Messages from a client
// ---------------------------------------------------------------------------

/// What the server does with a message from a logged-in client.
pub enum ServerAction {
    /// Pass these bytes to the shell.
    WriteToShell(Vec<u8>),
    /// End the session.
    Shutdown,
    /// Log that the operation is not implemented, and go on.
    Unsupported,
}

/// The server passes commands to the shell, ends the session on `End`, and
/// does not implement the other kinds.
pub fn server_action(body: &[u8]) -> (r: Result<ServerAction, MsgError>)
    requires
        body@.len() > 0,
    ensures
        match parse_body(body@) {
            Ok(MsgValue::Command(c)) => r matches Ok(ServerAction::WriteToShell(out)) && out@ == c,
            Ok(MsgValue::End(_)) => r matches Ok(ServerAction::Shutdown),
            Ok(_) => r matches Ok(ServerAction::Unsupported),
            Err(e) => r matches Err(e2) && e2 == e,
        },
{
    match ConMsg::from_bytes(body) {
        Ok(ConMsg::Command(c)) => Ok(ServerAction::WriteToShell(c)),
        Ok(ConMsg::End(_)) => Ok(ServerAction::Shutdown),
        Ok(_) => Ok(ServerAction::Unsupported),
        Err(e) => Err(e),
    }
}

// ---------------------------------------------------------------------------
// Admission
// ---------------------------------------------------------------------------

/// The most clients served at once.
pub const MAX_CONNECTIONS: u8 = 10;

/// A new client is served while fewer than `MAX_CONNECTIONS` are.
pub fn accepts_connection(active: u8) -> (r: bool)
    ensures
        r == (active < MAX_CONNECTIONS),
{
    active < MAX_CONNECTIONS
}

/// What happens to the server's count of running clients.
pub enum ConnEvent {
    /// A client connects.
    Arrive,
    /// A running client's handler ends, however it ends.
    Finish,
}

/// The count after a client connects with `active` running: one more if it
/// is admitted, else the same (it is answered with the refusal).
pub open spec fn after_arrival(active: nat) -> nat {
    if active < MAX_CONNECTIONS { active + 1 } else { active }
}

/// The count of running clients after the events, from `active`. A handler
/// ends only while one runs.
pub open spec fn count_after(active: nat, events: Seq<ConnEvent>) -> nat
    decreases events.len(),
{
    if events.len() == 0 {
        active
    } else {
        let next = match events[0] {
            ConnEvent::Arrive => after_arrival(active),
            ConnEvent::Finish => if active > 0 { (active - 1) as nat } else { 0 },
        };
        count_after(next, events.subrange(1, events.len() as int))
    }
}

/// Takes in a client with `active` running: whether it is served, and the new
/// count.
pub fn admit_client(active: u8) -> (r: (bool, u8))
    ensures
        r.0 == (active < MAX_CONNECTIONS),
        r.1 == after_arrival(active as nat),
{
    if active < MAX_CONNECTIONS {
        (true, active + 1)
    } else {
        (false, active)
    }
}

/// The count once one of the `active` running handlers has ended.
pub fn release(active: u8) -> (r: u8)
    requires
        active > 0,
    ensures
        r == active - 1,
{
    active - 1
}

/// At every moment at most `MAX_CONNECTIONS` clients are served: from any
/// count within the cap, any arrivals and endings in any order keep it so.
pub proof fn lemma_connections_within_cap(active: nat, events: Seq<ConnEvent>)
    requires
        active <= MAX_CONNECTIONS,
    ensures
        count_after(active, events) <= MAX_CONNECTIONS,
    decreases events.len(),
{
    if events.len() > 0 {
        let next = match events[0] {
            ConnEvent::Arrive => after_arrival(active),
            ConnEvent::Finish => if active > 0 { (active - 1) as nat } else { 0 },
        };
        lemma_connections_within_cap(next, events.subrange(1, events.len() as int));
    }
}

/// The text of the error that answers a client beyond the limit.
pub open spec fn max_connections_text() -> Seq<u8> {
    "Max connections reached".spec_bytes()
}

/// The frame that answers a client beyond the limit.
pub fn max_connections_reply() -> (out: Vec<u8>)
    ensures
        out@ == frame_of(MsgValue::Error(max_connections_text())),
{
    let text = "Max connections reached".as_bytes();
    ConMsg::Error(copy_range(text, 0, text.len())).to_bytes()
}

// ---------------------------------------------------------------------------
// Sending a frame
// ---------------------------------------------------------------------------

/// What one write of the rest of a frame to the client came to.
#[derive(Clone, Copy, PartialEq, Eq, Debug, Structural)]
pub enum WriteOutcome {
    /// The connection took this many bytes.
    Wrote(usize),
    /// The client is gone.
    BrokenPipe,
    /// Any other error.
    Failed,
}

/// What the sender does next with the frame it is writing.
#[derive(Clone, Copy, PartialEq, Eq, Debug, Structural)]
pub enum SendDecision {
    /// Write again from this many bytes in.
    Next(usize),
    /// The whole frame is sent.
    Finished,
    /// The client closed the connection or went away: leave this frame.
    Abandon,
    /// Write the same bytes again.
    Retry,
}

/// The sender's decision after a write, with `sent` of the frame's `total`
/// bytes written before it.
pub open spec fn send_decision_spec(sent: nat, total: nat, outcome: WriteOutcome) -> SendDecision {
    match outcome {
        WriteOutcome::Wrote(n) => if n == 0 {
            SendDecision::Abandon
        } else if sent + n >= total {
            SendDecision::Finished
        } else {
            SendDecision::Next((sent + n) as usize)
        },
        WriteOutcome::BrokenPipe => SendDecision::Abandon,
        WriteOutcome::Failed => SendDecision::Retry,
    }
}

/// The sender writes every byte of a frame: after a write of `n > 0` bytes
/// it is finished exactly when `sent + n` reaches `total`, and otherwise
/// goes on from `sent + n`; a write of nothing or a broken pipe leaves the
/// frame, and any other error writes the same bytes again.
pub proof fn lemma_send_decision_meaning(sent: usize, total: usize, outcome: WriteOutcome)
    ensures
        ({
            let d = send_decision_spec(sent as nat, total as nat, outcome);
            &&& forall|n: usize|
                outcome == WriteOutcome::Wrote(n) && n > 0 && sent + n >= total ==> d
                    == SendDecision::Finished
            &&& forall|n: usize|
                outcome == WriteOutcome::Wrote(n) && n > 0 && sent + n < total ==> d
                    == SendDecision::Next((sent + n) as usize)
            &&& forall|m: usize|
                d == SendDecision::Next(m) ==> sent < m < total && outcome == WriteOutcome::Wrote(
                    (m - sent) as usize,
                )
            &&& d == SendDecision::Finished ==> exists|n: usize|
                outcome == WriteOutcome::Wrote(n) && n > 0 && sent + n >= total
            &&& d == SendDecision::Abandon <==> (outcome == WriteOutcome::Wrote(0) || outcome
                == WriteOutcome::BrokenPipe)
            &&& d == SendDecision::Retry <==> outcome == WriteOutcome::Failed
        }),
{
    if let WriteOutcome::Wrote(n) = outcome {
        if n > 0 && sent + n < total {
            assert(((sent + n) as usize - sent) as usize == n);
        }
        assert(outcome == WriteOutcome::Wrote(n));
    }
}

/// Decides what the sender does after a write: a write of nothing or a
/// broken pipe leaves the frame, another error retries, and bytes written
/// move on until the frame is sent.
pub fn send_decision(sent: usize, total: usize, outcome: WriteOutcome) -> (r: SendDecision)
    ensures
        r == send_decision_spec(sent as nat, total as nat, outcome),
        r matches SendDecision::Next(m) ==> sent < m < total,
{
    match outcome {
        WriteOutcome::Wrote(n) => {
            if n == 0 {
                SendDecision::Abandon
            } else if sent >= total || n >= total - sent {
                SendDecision::Finished
            } else {
                SendDecision::Next(sent + n)
            }
        },
        WriteOutcome::BrokenPipe => SendDecision::Abandon,
        WriteOutcome::Failed => SendDecision::Retry,
    }
}

// ---------------------------------------------------------------------------
// Words of a line
// ---------------------------------------------------------------------------

/// ASCII whitespace, as `u8::is_ascii_whitespace` has it.
pub open spec fn is_ascii_ws(c: u8) -> bool {
    c == 0x20 || c == 0x09 || c == 0x0a || c == 0x0c || c == 0x0d
}

/// The position of the first byte at or after `i` that is not whitespace.
pub open spec fn skip_ws_from(s: Seq<u8>, i: int) -> int
    decreases s.len() - i,
{
    if 0 <= i < s.len() && is_ascii_ws(s[i]) {
        skip_ws_from(s, i + 1)
    } else {
        i
    }
}

/// The position just after the run of non-whitespace bytes that starts at `i`.
pub open spec fn word_end_from(s: Seq<u8>, i: int) -> int
    decreases s.len() - i,
{
    if 0 <= i < s.len() && !is_ascii_ws(s[i]) {
        word_end_from(s, i + 1)
    } else {
        i
    }
}

/// The word at or after position `i`, with the position after it; `None`
/// where only whitespace remains (as `split_ascii_whitespace` has it).
pub open spec fn word_from(s: Seq<u8>, i: int) -> Option<(Seq<u8>, int)> {
    let a = skip_ws_from(s, i);
    if a >= s.len() {
        None
    } else {
        let b = word_end_from(s, a);
        Some((s.subrange(a, b), b))
    }
}

/// The first word of a line.
pub open spec fn first_word(s: Seq<u8>) -> Option<Seq<u8>> {
    match word_from(s, 0) {
        Some((w, _)) => Some(w),
        None => None,
    }
}

/// The second word of a line.
pub open spec fn second_word(s: Seq<u8>) -> Option<Seq<u8>> {
    match word_from(s, 0) {
        Some((_, e)) => match word_from(s, e) {
            Some((w, _)) => Some(w),
            None => None,
        },
        None => None,
    }
}

fn is_ascii_ws_exec(c: u8) -> (r: bool)
    ensures
        r == is_ascii_ws(c),
{
    c == 0x20 || c == 0x09 || c == 0x0a || c == 0x0c || c == 0x0d
}

/// The position of the first byte at or after `i` that is not whitespace.
fn skip_ws(s: &[u8], i: usize) -> (r: usize)
    requires
        i <= s@.len(),
    ensures
        r as int == skip_ws_from(s@, i as int),
        i <= r <= s@.len(),
{
    let mut j = i;
    while j < s.len() && is_ascii_ws_exec(s[j])
        invariant
            i <= j <= s@.len(),
            skip_ws_from(s@, j as int) == skip_ws_from(s@, i as int),
        decreases s@.len() - j,
    {
        j = j + 1;
    }
    j
}

/// The position just after the run of non-whitespace bytes that starts at `i`.
fn word_end(s: &[u8], i: usize) -> (r: usize)
    requires
        i <= s@.len(),
    ensures
        r as int == word_end_from(s@, i as int),
        i <= r <= s@.len(),
{
    let mut j = i;
    while j < s.len() && !is_ascii_ws_exec(s[j])
        invariant
            i <= j <= s@.len(),
            word_end_from(s@, j as int) == word_end_from(s@, i as int),
        decreases s@.len() - j,
    {
        j = j + 1;
    }
    j
}

/// The word at or after position `i`, with the position after it.
fn next_word(s: &[u8], i: usize) -> (r: Option<(Vec<u8>, usize)>)
    requires
        i <= s@.len(),
    ensures
        match word_from(s@, i as int) {
            Some((w, e)) => r matches Some((v, f)) && v@ == w && f as int == e && f <= s@.len(),
            None => r is None,
        },
{
    let a = skip_ws(s, i);
    if a >= s.len() {
        return None;
    }
    let b = word_end(s, a);
    Some((copy_range(s, a, b), b))
}

// ---------------------------------------------------------------------------
// The allowlist of keys
// ---------------------------------------------------------------------------

/// What `base64::read::DecoderReader` with the standard engine reads from the
/// bytes, or `None` where it fails.
pub uninterp spec fn base64_standard_decode(s: Seq<u8>) -> Option<Seq<u8>>;

/// Calls `read_to_end` on a `base64::read::DecoderReader` over the bytes with
/// `BASE64_STANDARD`; the contract names the result.
#[verifier::external_body]
pub(crate) fn base64_decode(s: &[u8]) -> (r: Option<Vec<u8>>)
    ensures
        r matches Some(d) ==> base64_standard_decode(s@) == Some(d@),
        r is None ==> base64_standard_decode(s@) is None,
{
    let mut out = Vec::new();
    let mut reader = base64::read::DecoderReader::new(s, &base64::prelude::BASE64_STANDARD);
    match reader.read_to_end(&mut out) {
        Ok(_) => Some(out),
        Err(_) => None,
    }
}

/// Why a key logs in no user.
#[derive(Clone, Copy, PartialEq, Eq, Debug, Structural)]
pub enum AllowError {
    /// A line has no key, or the matching line no user name.
    MalformedLine,
    /// A key is not base64.
    BadKey,
    /// The allowlist could not be read past the lines given.
    ReadFailed,
    /// No line matches.
    UnknownClient,
}

/// The user that the allowlist grants `key`, reading from line `i` on, where
/// `decoded` holds the keys decoded so far. Each line is a base64 key, then a
/// user name. The decoded keys accumulate: line `i` matches when all keys
/// decoded up to it, joined, equal `key`.
pub open spec fn lookup_from(
    lines: Seq<Seq<u8>>,
    i: int,
    decoded: Seq<u8>,
    key: Seq<u8>,
    read_failed: bool,
) -> Result<Seq<u8>, AllowError>
    decreases lines.len() - i,
{
    if i < 0 || i >= lines.len() {
        if read_failed {
            Err(AllowError::ReadFailed)
        } else {
            Err(AllowError::UnknownClient)
        }
    } else {
        match first_word(lines[i]) {
            None => Err(AllowError::MalformedLine),
            Some(w) => match base64_standard_decode(w) {
                None => Err(AllowError::BadKey),
                Some(d) => {
                    if decoded + d == key {
                        match second_word(lines[i]) {
                            None => Err(AllowError::MalformedLine),
                            Some(u) => Ok(u),
                        }
                    } else {
                        lookup_from(lines, i + 1, decoded + d, key, read_failed)
                    }
                },
            },
        }
    }
}

/// The user that the allowlist grants `key`. `lines` are the lines read
/// before the end of the list, or before a line that could not be read,
/// which `read_failed` tells.
pub fn find_user(lines: &Vec<Vec<u8>>, read_failed: bool, key: &[u8]) -> (r: Result<
    Vec<u8>,
    AllowError,
>)
    ensures
        match lookup_from(lines@.map_values(|l: Vec<u8>| l@), 0, Seq::empty(), key@, read_failed) {
            Ok(u) => r matches Ok(name) && name@ == u,
            Err(e) => r matches Err(e2) && e2 == e,
        },
{
    let ghost ls = lines@.map_values(|l: Vec<u8>| l@);
    let mut decoded: Vec<u8> = Vec::new();
    let mut i: usize = 0;
    while i < lines.len()
        invariant
            i <= lines@.len(),
            ls == lines@.map_values(|l: Vec<u8>| l@),
            lookup_from(ls, 0, Seq::empty(), key@, read_failed) == lookup_from(
                ls,
                i as int,
                decoded@,
                key@,
                read_failed,
            ),
        decreases lines@.len() - i,
    {
        let line = lines[i].as_slice();
        assert(line@ == ls[i as int]);
        let (word, end) = match next_word(line, 0) {
            Some(p) => p,
            None => {
                return Err(AllowError::MalformedLine);
            },
        };
        let d = match base64_decode(word.as_slice()) {
            Some(d) => d,
            None => {
                return Err(AllowError::BadKey);
            },
        };
        push_all(&mut decoded, d.as_slice());
        if crate::auth::bytes_eq(decoded.as_slice(), key) {
            return match next_word(line, end) {
                Some((user, _)) => Ok(user),
                None => Err(AllowError::MalformedLine),
            };
        }
        i = i + 1;
    }
    if read_failed {
        Err(AllowError::ReadFailed)
    } else {
        Err(AllowError::UnknownClient)
    }
}

/// The key on the first line of the allowlist logs in the user named on
/// that line.
pub proof fn lemma_first_line_key_logs_in(
    lines: Seq<Seq<u8>>,
    key: Seq<u8>,
    user: Seq<u8>,
    read_failed: bool,
)
    requires
        lines.len() > 0,
        first_word(lines[0]) matches Some(w) && base64_standard_decode(w) == Some(key),
        second_word(lines[0]) == Some(user),
    ensures
        lookup_from(lines, 0, Seq::empty(), key, read_failed) == Ok::<Seq<u8>, AllowError>(user),
{
    assert(Seq::<u8>::empty() + key =~= key);
}

// ---------------------------------------------------------------------------
// The password file
// ---------------------------------------------------------------------------

/// The first `:`-separated field of a line: the bytes before the first colon,
/// or the whole line.
pub open spec fn first_field(line: Seq<u8>) -> Seq<u8> {
    if exists|i: int| 0 <= i < line.len() && line[i] == 0x3a {
        let i = choose|i: int|
            0 <= i < line.len() && line[i] == 0x3a && forall|j: int| 0 <= j < i ==> line[j] != 0x3a;
        line.subrange(0, i)
    } else {
        line
    }
}

/// The first `:`-separated field of a line.
fn first_field_exec(line: &[u8]) -> (r: Vec<u8>)
    ensures
        r@ == first_field(line@),
{
    let mut i: usize = 0;
    while i < line.len() && line[i] != 0x3a
        invariant
            i <= line@.len(),
            forall|j: int| 0 <= j < i ==> line@[j] != 0x3a,
        decreases line@.len() - i,
    {
        i = i + 1;
    }
    if i < line.len() {
        let ghost w = choose|c: int|
            0 <= c < line@.len() && line@[c] == 0x3a && forall|j: int| 0 <= j < c ==> line@[j] != 0x3a;
        assert(0 <= i < line@.len() && line@[i as int] == 0x3a && forall|j: int|
            0 <= j < i ==> line@[j] != 0x3a);
        assert(w == i) by {
            if w < i {
                assert(line@[w] != 0x3a);
            } else if w > i {
                assert(line@[i as int] != 0x3a);
            }
        }
        copy_range(line, 0, i)
    } else {
        assert(line@.subrange(0, line@.len() as int) =~= line@);
        copy_range(line, 0, line.len())
    }
}

/// Whether a user of that name has a line in the password file: some line
/// read, newline included, whose first field is the name.
pub fn user_in_passwd(lines: &Vec<Vec<u8>>, uname: &[u8]) -> (r: bool)
    ensures
        r == exists|i: int| 0 <= i < lines@.len() && first_field(lines@[i]@) == uname@,
{
    let mut i: usize = 0;
    while i < lines.len()
        invariant
            i <= lines@.len(),
            forall|j: int| 0 <= j < i ==> first_field(lines@[j]@) != uname@,
        decreases lines@.len() - i,
    {
        let field = first_field_exec(lines[i].as_slice());
        if crate::auth::bytes_eq(field.as_slice(), uname) {
            return true;
        }
        i = i + 1;
    }
    false
}

} // verus!
