//! The messages of the protocol and their byte layout.
//!
//! A message travels as a frame: a 4-byte big-endian length, then a body of
//! that many bytes. A body is a tag byte (an ASCII digit naming the kind of
//! message) followed by the payload. A challenge's payload is three
//! length-prefixed fields: the nonce, the CBOR-encoded timestamp and the
//! signature.
use vstd::prelude::*;
use crate::cbor::{
    Timestamp, cbor_timestamp, cbor_timestamp_bytes, decode_timestamp, encode_timestamp,
    timestamp_round_trips, lemma_timestamp_bytes_len,
};

verus! {

/// Width in bytes of every length field of the wire format.
pub const LEN_WIDTH: usize = 4;

/// The tag bytes of the kinds of message: the ASCII digits `0` to `5`.
pub const TAG_HELLO: u8 = 0x30;
pub const TAG_END: u8 = 0x31;
pub const TAG_COMMAND: u8 = 0x32;
pub const TAG_ERROR: u8 = 0x33;
pub const TAG_CHALLENGE: u8 = 0x34;
pub const TAG_ENCAPSULATION: u8 = 0x35;

/// A protocol message.
#[derive(PartialEq, Debug)]
pub enum ConMsg {
    Hello(Vec<u8>),
    Encapsulation(Vec<u8>),
    End(Vec<u8>),
    Command(Vec<u8>),
    Error(Vec<u8>),
    Challenge { nonce: Vec<u8>, timestamp: Timestamp, signature: Vec<u8> },
}

/// The mathematical value of a message: its kind and its byte strings.
pub enum MsgValue {
    Hello(Seq<u8>),
    Encapsulation(Seq<u8>),
    End(Seq<u8>),
    Command(Seq<u8>),
    Error(Seq<u8>),
    Challenge { nonce: Seq<u8>, timestamp: Timestamp, signature: Seq<u8> },
}

impl View for ConMsg {
    type V = MsgValue;

    open spec fn view(&self) -> MsgValue {
        match self {
            ConMsg::Hello(p) => MsgValue::Hello(p@),
            ConMsg::Encapsulation(p) => MsgValue::Encapsulation(p@),
            ConMsg::End(p) => MsgValue::End(p@),
            ConMsg::Command(p) => MsgValue::Command(p@),
            ConMsg::Error(p) => MsgValue::Error(p@),
            ConMsg::Challenge { nonce, timestamp, signature } => MsgValue::Challenge {
                nonce: nonce@,
                timestamp: *timestamp,
                signature: signature@,
            },
        }
    }
}

/// Why a byte string is not a message.
#[derive(Clone, Copy, PartialEq, Eq, Debug, Structural)]
pub enum MsgError {
    /// The tag byte names no kind of message.
    UnknownKind,
    /// A length field of a challenge is cut short.
    InvalidChallengeFormat,
    /// A field is shorter than its length field says.
    UnexpectedEof,
    /// The timestamp of a challenge does not decode.
    MalformedTimestamp,
    /// A textual frame is not `<decimal length>:<body>` with a matching length.
    InvalidFrame,
}

// ---------------------------------------------------------------------------
// Byte layout
// ---------------------------------------------------------------------------

/// The 4-byte big-endian encoding of `n` modulo 2^32.
pub open spec fn be32(n: nat) -> Seq<u8> {
    seq![
        ((n / 0x100_0000) % 0x100) as u8,
        ((n / 0x1_0000) % 0x100) as u8,
        ((n / 0x100) % 0x100) as u8,
        (n % 0x100) as u8,
    ]
}

/// The number that four bytes encode, big-endian.
pub open spec fn be32_value(b: Seq<u8>) -> nat
    recommends
        b.len() == 4,
{
    (b[0] * 0x100_0000 + b[1] * 0x1_0000 + b[2] * 0x100 + b[3]) as nat
}

/// The body of a message: its tag, then its payload.
pub open spec fn body_of(m: MsgValue) -> Seq<u8> {
    match m {
        MsgValue::Challenge { nonce, timestamp, signature } => {
            let t = cbor_timestamp_bytes(timestamp);
            seq![TAG_CHALLENGE] + be32(nonce.len()) + nonce + be32(t.len()) + t + be32(
                signature.len(),
            ) + signature
        },
        MsgValue::Hello(p) => seq![TAG_HELLO] + p,
        MsgValue::End(p) => seq![TAG_END] + p,
        MsgValue::Command(p) => seq![TAG_COMMAND] + p,
        MsgValue::Error(p) => seq![TAG_ERROR] + p,
        MsgValue::Encapsulation(p) => seq![TAG_ENCAPSULATION] + p,
    }
}

/// The frame of a message: the length of its body, then the body.
pub open spec fn frame_of(m: MsgValue) -> Seq<u8> {
    be32(body_of(m).len()) + body_of(m)
}

/// A message whose frame describes it exactly: its body's length fits in the
/// 4-byte length field and a challenge's timestamp decodes back from its
/// bytes.
pub open spec fn encodable(m: MsgValue) -> bool {
    &&& body_of(m).len() < 0x1_0000_0000
    &&& m matches MsgValue::Challenge { timestamp, .. } ==> timestamp_round_trips(timestamp)
}

/// A message that its body describes exactly: a challenge's nonce and
/// signature fit their 4-byte length fields and its timestamp decodes back
/// from its bytes; every other message is described by its body.
pub open spec fn reads_back(m: MsgValue) -> bool {
    m matches MsgValue::Challenge { nonce, timestamp, signature } ==> {
        &&& nonce.len() < 0x1_0000_0000
        &&& signature.len() < 0x1_0000_0000
        &&& timestamp_round_trips(timestamp)
    }
}

/// The message that a body holds, read as the receiving side reads it.
///
/// The length of a challenge's signature is read with a plain `read` into the
/// buffer that still holds the timestamp's length field: where fewer than four
/// bytes remain, its last bytes are those of the timestamp's length field.
/// Bytes after the signature are ignored.
pub open spec fn parse_body(b: Seq<u8>) -> Result<MsgValue, MsgError>
    recommends
        b.len() > 0,
{
    let rest = b.subrange(1, b.len() as int);
    if b[0] == TAG_HELLO {
        Ok(MsgValue::Hello(rest))
    } else if b[0] == TAG_END {
        Ok(MsgValue::End(rest))
    } else if b[0] == TAG_COMMAND {
        Ok(MsgValue::Command(rest))
    } else if b[0] == TAG_ERROR {
        Ok(MsgValue::Error(rest))
    } else if b[0] == TAG_CHALLENGE {
        parse_challenge(b)
    } else if b[0] == TAG_ENCAPSULATION {
        Ok(MsgValue::Encapsulation(rest))
    } else {
        Err(MsgError::UnknownKind)
    }
}

/// The bytes from which the signature length of a challenge is read, where
/// `p` is the position of the timestamp's length field and `q` the position
/// just after the timestamp.
pub open spec fn sig_len_bytes(b: Seq<u8>, p: int, q: int) -> Seq<u8> {
    let k = if b.len() - q < 4 { b.len() - q } else { 4 };
    b.subrange(q, q + k) + b.subrange(p + k, p + 4)
}

/// The challenge that a body with the challenge tag holds.
pub open spec fn parse_challenge(b: Seq<u8>) -> Result<MsgValue, MsgError> {
    if b.len() < 5 {
        Err(MsgError::InvalidChallengeFormat)
    } else {
        let n = be32_value(b.subrange(1, 5)) as int;
        if b.len() - 5 < n {
            Err(MsgError::UnexpectedEof)
        } else {
            let p = 5 + n;
            if b.len() - p < 4 {
                Err(MsgError::InvalidChallengeFormat)
            } else {
                let tl = be32_value(b.subrange(p, p + 4)) as int;
                if b.len() - (p + 4) < tl {
                    Err(MsgError::UnexpectedEof)
                } else {
                    let q = p + 4 + tl;
                    match cbor_timestamp(b.subrange(p + 4, q)) {
                        None => Err(MsgError::MalformedTimestamp),
                        Some(ts) => {
                            let k = if b.len() - q < 4 { b.len() - q } else { 4int };
                            let sl = be32_value(sig_len_bytes(b, p, q)) as int;
                            if b.len() - (q + k) < sl {
                                Err(MsgError::UnexpectedEof)
                            } else {
                                Ok(
                                    MsgValue::Challenge {
                                        nonce: b.subrange(5, p),
                                        timestamp: ts,
                                        signature: b.subrange(q + k, q + k + sl),
                                    },
                                )
                            }
                        },
                    }
                }
            }
        }
    }
}

/// The view of a parse result.
pub open spec fn view_result(r: Result<ConMsg, MsgError>) -> Result<MsgValue, MsgError> {
    match r {
        Ok(m) => Ok(m@),
        Err(e) => Err(e),
    }
}

// ---------------------------------------------------------------------------
// Textual frames: `<decimal length>:<body>`
// ---------------------------------------------------------------------------

pub open spec fn is_digit(c: u8) -> bool {
    0x30 <= c <= 0x39
}

/// The number that a string of ASCII digits spells in decimal.
pub open spec fn decimal_value(s: Seq<u8>) -> nat
    decreases s.len(),
{
    if s.len() == 0 {
        0
    } else {
        decimal_value(s.drop_last()) * 10 + (s.last() - 0x30) as nat
    }
}

/// The decimal digits of `n`, most significant first, without leading zeros.
pub open spec fn decimal_digits(n: nat) -> Seq<u8>
    decreases n,
{
    if n < 10 {
        seq![(0x30 + n) as u8]
    } else {
        decimal_digits(n / 10) + seq![(0x30 + n % 10) as u8]
    }
}

/// `i` is the position of the colon that ends the leading run of digits.
pub open spec fn is_text_colon(s: Seq<u8>, i: int) -> bool {
    &&& 0 < i < s.len()
    &&& s[i] == 0x3a
    &&& forall|j: int| 0 <= j < i ==> is_digit(#[trigger] s[j])
}

/// The message that a textual frame holds: a run of decimal digits, a colon,
/// then exactly as many bytes of body as the digits say.
pub open spec fn parse_text(s: Seq<u8>) -> Result<MsgValue, MsgError> {
    if exists|i: int| is_text_colon(s, i) {
        let i = choose|i: int| is_text_colon(s, i);
        let body = s.subrange(i + 1, s.len() as int);
        if decimal_value(s.subrange(0, i)) != body.len() {
            Err(MsgError::InvalidFrame)
        } else if body.len() == 0 {
            Err(MsgError::UnknownKind)
        } else {
            parse_body(body)
        }
    } else {
        Err(MsgError::InvalidFrame)
    }
}

// ---------------------------------------------------------------------------
// Executable helpers
// ---------------------------------------------------------------------------

/// The 4-byte big-endian encoding of `n`.
pub fn be32_bytes(n: u32) -> (out: [u8; 4])
    ensures
        out@ == be32(n as nat),
{
    [
        (n / 0x100_0000) as u8,
        ((n / 0x1_0000) % 0x100) as u8,
        ((n / 0x100) % 0x100) as u8,
        (n % 0x100) as u8,
    ]
}

/// The number that the four bytes at `pos` encode, big-endian.
pub fn read_be32(b: &[u8], pos: usize) -> (n: u32)
    requires
        pos + 4 <= b@.len(),
    ensures
        n as nat == be32_value(b@.subrange(pos as int, pos + 4)),
{
    let b0 = b[pos] as u32;
    let b1 = b[pos + 1] as u32;
    let b2 = b[pos + 2] as u32;
    let b3 = b[pos + 3] as u32;
    b0 * 0x100_0000 + b1 * 0x1_0000 + b2 * 0x100 + b3
}

/// Appends `src` to `out`.
pub fn push_all(out: &mut Vec<u8>, src: &[u8])
    ensures
        final(out)@ == old(out)@ + src@,
{
    let mut i: usize = 0;
    while i < src.len()
        invariant
            i <= src@.len(),
            out@ == old(out)@ + src@.subrange(0, i as int),
        decreases src@.len() - i,
    {
        out.push(src[i]);
        i = i + 1;
        assert(out@ =~= old(out)@ + src@.subrange(0, i as int));
    }
    assert(src@.subrange(0, src@.len() as int) =~= src@);
}

/// The bytes of `b` from `start` to `end`.
pub fn copy_range(b: &[u8], start: usize, end: usize) -> (out: Vec<u8>)
    requires
        start <= end <= b@.len(),
    ensures
        out@ == b@.subrange(start as int, end as int),
{
    let mut out: Vec<u8> = Vec::new();
    let mut i: usize = start;
    while i < end
        invariant
            start <= i <= end <= b@.len(),
            out@ == b@.subrange(start as int, i as int),
        decreases end - i,
    {
        out.push(b[i]);
        i = i + 1;
        assert(out@ =~= b@.subrange(start as int, i as int));
    }
    out
}

/// The length of a byte string as written in a length field: its low 32 bits.
pub fn wire_len(n: usize) -> (w: u32)
    ensures
        w as nat == n as nat % 0x1_0000_0000,
{
    let n64 = n as u64;
    (n64 % 0x1_0000_0000) as u32
}

proof fn lemma_be32_mod(n: nat)
    ensures
        be32(n) == be32(n % 0x1_0000_0000),
{
    let m = n % 0x1_0000_0000;
    let q = n / 0x1_0000_0000;
    assert(n == 0x1_0000_0000 * q + m);
    assert(n / 0x100_0000 == 0x100 * q + m / 0x100_0000) by (nonlinear_arith)
        requires n == 0x1_0000_0000 * q + m, 0 <= m < 0x1_0000_0000, q >= 0;
    assert((n / 0x100_0000) % 0x100 == (m / 0x100_0000) % 0x100);
    assert((n / 0x1_0000) % 0x100 == (m / 0x1_0000) % 0x100) by (nonlinear_arith)
        requires m == n % 0x1_0000_0000;
    assert((n / 0x100) % 0x100 == (m / 0x100) % 0x100) by (nonlinear_arith)
        requires m == n % 0x1_0000_0000;
    assert(n % 0x100 == m % 0x100) by (nonlinear_arith)
        requires m == n % 0x1_0000_0000;
    assert(be32(n) =~= be32(m));
}

/// Appends the length field for a byte string of `n` bytes.
fn push_len(out: &mut Vec<u8>, n: usize)
    ensures
        final(out)@ == old(out)@ + be32(n as nat),
{
    let w = wire_len(n);
    let bytes = be32_bytes(w);
    push_all(out, &bytes);
    proof {
        lemma_be32_mod(n as nat);
    }
}

impl ConMsg {
    /// Width in bytes of every length field of the wire format.
    pub const LEN_WIDTH: usize = self::LEN_WIDTH;

    /// The body of this message: tag, then payload.
    pub fn body(&self) -> (out: Vec<u8>)
        ensures
            out@ == body_of(self@),
    {
        let mut out: Vec<u8> = Vec::new();
        match self {
            ConMsg::Challenge { nonce, timestamp, signature } => {
                let time_bytes = encode_timestamp(timestamp);
                out.push(TAG_CHALLENGE);
                push_len(&mut out, nonce.len());
                push_all(&mut out, nonce.as_slice());
                push_len(&mut out, time_bytes.len());
                push_all(&mut out, time_bytes.as_slice());
                push_len(&mut out, signature.len());
                push_all(&mut out, signature.as_slice());
            },
            ConMsg::Hello(p) => {
                out.push(TAG_HELLO);
                push_all(&mut out, p.as_slice());
            },
            ConMsg::End(p) => {
                out.push(TAG_END);
                push_all(&mut out, p.as_slice());
            },
            ConMsg::Command(p) => {
                out.push(TAG_COMMAND);
                push_all(&mut out, p.as_slice());
            },
            ConMsg::Error(p) => {
                out.push(TAG_ERROR);
                push_all(&mut out, p.as_slice());
            },
            ConMsg::Encapsulation(p) => {
                out.push(TAG_ENCAPSULATION);
                push_all(&mut out, p.as_slice());
            },
        }
        assert(out@ =~= body_of(self@));
        out
    }

    /// The frame of this message: the length of its body, then the body.
    pub fn to_bytes(&self) -> (out: Vec<u8>)
        ensures
            out@ == frame_of(self@),
    {
        let body = self.body();
        let mut out: Vec<u8> = Vec::new();
        push_len(&mut out, body.len());
        push_all(&mut out, body.as_slice());
        assert(out@ =~= frame_of(self@));
        out
    }
}

/// The number that the signature length field of a challenge holds (see
/// `sig_len_bytes`).
fn read_sig_len(msg: &[u8], p: usize, q: usize) -> (n: u32)
    requires
        p + 4 <= q <= msg@.len(),
    ensures
        n as nat == be32_value(sig_len_bytes(msg@, p as int, q as int)),
{
    let k: usize = if msg.len() - q < 4 { msg.len() - q } else { 4 };
    let mut field = copy_range(msg, q, q + k);
    let old_part = copy_range(msg, p + k, p + 4);
    push_all(&mut field, old_part.as_slice());
    assert(field@ =~= sig_len_bytes(msg@, p as int, q as int));
    let n = read_be32(field.as_slice(), 0);
    assert(field@.subrange(0, 4) =~= field@);
    n
}

/// The challenge that a body with the challenge tag holds.
fn parse_challenge_exec(msg: &[u8]) -> (r: Result<ConMsg, MsgError>)
    requires
        msg@.len() > 0,
    ensures
        view_result(r) == parse_challenge(msg@),
{
    let len = msg.len();
    if len < 5 {
        return Err(MsgError::InvalidChallengeFormat);
    }
    let n = read_be32(msg, 1) as usize;
    if len - 5 < n {
        return Err(MsgError::UnexpectedEof);
    }
    let p = 5 + n;
    let nonce = copy_range(msg, 5, p);
    if len - p < 4 {
        return Err(MsgError::InvalidChallengeFormat);
    }
    let tl = read_be32(msg, p) as usize;
    if len - (p + 4) < tl {
        return Err(MsgError::UnexpectedEof);
    }
    let q = p + 4 + tl;
    let time_bytes = copy_range(msg, p + 4, q);
    let timestamp = match decode_timestamp(time_bytes.as_slice()) {
        Some(t) => t,
        None => {
            return Err(MsgError::MalformedTimestamp);
        },
    };
    let k: usize = if len - q < 4 { len - q } else { 4 };
    let sl = read_sig_len(msg, p, q) as usize;
    if len - (q + k) < sl {
        return Err(MsgError::UnexpectedEof);
    }
    let signature = copy_range(msg, q + k, q + k + sl);
    Ok(ConMsg::Challenge { nonce, timestamp, signature })
}

impl ConMsg {
    /// The message that a body holds. An empty body has no tag to read: the
    /// caller does not pass one.
    pub fn from_bytes(msg: &[u8]) -> (r: Result<ConMsg, MsgError>)
        requires
            msg@.len() > 0,
        ensures
            view_result(r) == parse_body(msg@),
    {
        let len = msg.len();
        let tag = msg[0];
        if tag == TAG_HELLO {
            Ok(ConMsg::Hello(copy_range(msg, 1, len)))
        } else if tag == TAG_END {
            Ok(ConMsg::End(copy_range(msg, 1, len)))
        } else if tag == TAG_COMMAND {
            Ok(ConMsg::Command(copy_range(msg, 1, len)))
        } else if tag == TAG_ERROR {
            Ok(ConMsg::Error(copy_range(msg, 1, len)))
        } else if tag == TAG_CHALLENGE {
            parse_challenge_exec(msg)
        } else if tag == TAG_ENCAPSULATION {
            Ok(ConMsg::Encapsulation(copy_range(msg, 1, len)))
        } else {
            Err(MsgError::UnknownKind)
        }
    }
}


proof fn lemma_decimal_step(s: Seq<u8>, i: int)
    requires
        0 <= i < s.len(),
    ensures
        decimal_value(s.subrange(0, i + 1)) == decimal_value(s.subrange(0, i)) * 10 + (s[i]
            - 0x30) as nat,
{
    assert(s.subrange(0, i + 1).drop_last() =~= s.subrange(0, i));
}

impl<'a> TryFrom<&'a [u8]> for ConMsg {
    type Error = MsgError;

    /// The message that a textual frame `<decimal length>:<body>` holds.
    fn try_from(s: &'a [u8]) -> (r: Result<ConMsg, MsgError>)
        ensures
            view_result(r) == parse_text(s@),
    {
        let len = s.len();
        let mut i: usize = 0;
        let mut value: usize = 0;
        let mut too_big = false;
        while i < len && 0x30 <= s[i] && s[i] <= 0x39
            invariant
                i <= len == s@.len(),
                forall|j: int| 0 <= j < i ==> is_digit(#[trigger] s@[j]),
                !too_big ==> value == decimal_value(s@.subrange(0, i as int)) && value <= len,
                too_big ==> decimal_value(s@.subrange(0, i as int)) > len,
            decreases len - i,
        {
            let d = (s[i] - 0x30) as usize;
            proof {
                lemma_decimal_step(s@, i as int);
            }
            if !too_big {
                if d > len || value > (len - d) / 10 {
                    too_big = true;
                } else {
                    value = value * 10 + d;
                }
            }
            i = i + 1;
        }
        if i == 0 || i == len || s[i] != 0x3a {
            assert forall|c: int| !is_text_colon(s@, c) by {
                if is_text_colon(s@, c) {
                    if c < i {
                        assert(is_digit(s@[c]));
                    } else if c > i {
                        assert(is_digit(s@[i as int]));
                    }
                }
            }
            return Err(MsgError::InvalidFrame);
        }
        assert(is_text_colon(s@, i as int));
        assert forall|c: int| is_text_colon(s@, c) implies c == i by {
            if c < i {
                assert(is_digit(s@[c]));
            } else if c > i {
                assert(is_digit(s@[i as int]));
            }
        }
        if too_big || value != len - i - 1 {
            return Err(MsgError::InvalidFrame);
        }
        if i + 1 == len {
            return Err(MsgError::UnknownKind);
        }
        let body = copy_range(s, i + 1, len);
        ConMsg::from_bytes(body.as_slice())
    }
}

impl<'a> TryFrom<&'a Vec<u8>> for ConMsg {
    type Error = MsgError;

    /// The message that a textual frame held in a vector holds.
    fn try_from(s: &'a Vec<u8>) -> (r: Result<ConMsg, MsgError>)
        ensures
            view_result(r) == parse_text(s@),
    {
        ConMsg::try_from(s.as_slice())
    }
}

impl From<ConMsg> for Vec<u8> {
    /// The frame of the message.
    fn from(msg: ConMsg) -> (out: Vec<u8>)
        ensures
            out@ == frame_of(msg@),
    {
        msg.to_bytes()
    }
}

/// The library's own contract on `try_from` is `parse_text`; no `ConMsg` value
/// can be written in a specification from a `MsgValue`, so the generic
/// specification is not claimed.
impl<'a> vstd::std_specs::convert::TryFromSpecImpl<&'a [u8]> for ConMsg {
    open spec fn obeys_try_from_spec() -> bool {
        false
    }

    open spec fn try_from_spec(v: &'a [u8]) -> Result<ConMsg, MsgError> {
        Err(MsgError::InvalidFrame)
    }
}

/// The same, for a vector.
impl<'a> vstd::std_specs::convert::TryFromSpecImpl<&'a Vec<u8>> for ConMsg {
    open spec fn obeys_try_from_spec() -> bool {
        false
    }

    open spec fn try_from_spec(v: &'a Vec<u8>) -> Result<ConMsg, MsgError> {
        Err(MsgError::InvalidFrame)
    }
}

/// The library's own contract on `from` is `frame_of`; the generic
/// specification is not claimed, for the same reason.
impl vstd::std_specs::convert::FromSpecImpl<ConMsg> for Vec<u8> {
    open spec fn obeys_from_spec() -> bool {
        false
    }

    open spec fn from_spec(v: ConMsg) -> Vec<u8> {
        arbitrary()
    }
}

// ---------------------------------------------------------------------------
// Laws
// ---------------------------------------------------------------------------

/// A length field reads back the length that was written, below 2^32.
pub proof fn lemma_be32_round_trip(n: nat)
    requires
        n < 0x1_0000_0000,
    ensures
        be32(n).len() == 4,
        be32_value(be32(n)) == n,
{
    let b0 = n / 0x100_0000;
    let r0 = n % 0x100_0000;
    let b1 = r0 / 0x1_0000;
    let r1 = r0 % 0x1_0000;
    let b2 = r1 / 0x100;
    let b3 = r1 % 0x100;
    assert(n == b0 * 0x100_0000 + b1 * 0x1_0000 + b2 * 0x100 + b3 && b0 < 0x100) by (
    nonlinear_arith)
        requires
            b0 == n / 0x100_0000,
            r0 == n % 0x100_0000,
            b1 == r0 / 0x1_0000,
            r1 == r0 % 0x1_0000,
            b2 == r1 / 0x100,
            b3 == r1 % 0x100,
            n < 0x1_0000_0000,
    ;
    assert((n / 0x1_0000) % 0x100 == b1) by (nonlinear_arith)
        requires
            n == b0 * 0x100_0000 + b1 * 0x1_0000 + b2 * 0x100 + b3,
            b1 == r0 / 0x1_0000,
            r0 == n % 0x100_0000,
            b0 == n / 0x100_0000,
            r1 == r0 % 0x1_0000,
            b2 == r1 / 0x100,
            b3 == r1 % 0x100,
    ;
    assert((n / 0x100) % 0x100 == b2) by (nonlinear_arith)
        requires
            n == b0 * 0x100_0000 + b1 * 0x1_0000 + b2 * 0x100 + b3,
            b2 == r1 / 0x100,
            r1 == r0 % 0x1_0000,
            r0 == n % 0x100_0000,
            b3 == r1 % 0x100,
            b1 == r0 / 0x1_0000,
            b0 == n / 0x100_0000,
    ;
    assert(n % 0x100 == b3) by (nonlinear_arith)
        requires
            n == b0 * 0x100_0000 + b1 * 0x1_0000 + b2 * 0x100 + b3,
            b3 == r1 % 0x100,
            r1 == r0 % 0x1_0000,
            r0 == n % 0x100_0000,
            b2 == r1 / 0x100,
    ;
}

/// A frame begins with the big-endian length of its body: byte `i` of the
/// 4-byte field is the base-256 digit of the length for `256^(3 - i)`, and
/// the body follows it.
pub proof fn lemma_frame_length_field(m: MsgValue)
    requires
        body_of(m).len() < 0x1_0000_0000,
    ensures
        ({
            let f = frame_of(m);
            let l = body_of(m).len();
            &&& f.len() == 4 + l
            &&& f[0] == ((l / 0x100_0000) % 0x100) as u8
            &&& f[1] == ((l / 0x1_0000) % 0x100) as u8
            &&& f[2] == ((l / 0x100) % 0x100) as u8
            &&& f[3] == (l % 0x100) as u8
            &&& f.subrange(4, f.len() as int) == body_of(m)
        }),
{
    let f = frame_of(m);
    assert(f.subrange(4, f.len() as int) =~= body_of(m));
}

/// Reading a challenge's body gives the challenge back.
#[verifier::spinoff_prover]
#[verifier::rlimit(40)]
proof fn lemma_parse_challenge_body(nonce: Seq<u8>, timestamp: Timestamp, signature: Seq<u8>)
    requires
        reads_back(MsgValue::Challenge { nonce, timestamp, signature }),
    ensures
        parse_body(body_of(MsgValue::Challenge { nonce, timestamp, signature })) == Ok::<
            MsgValue,
            MsgError,
        >(MsgValue::Challenge { nonce, timestamp, signature }),
{
    let m = MsgValue::Challenge { nonce, timestamp, signature };
    let b = body_of(m);
    let t = cbor_timestamp_bytes(timestamp);
    let nl = nonce.len() as int;
    let tl = t.len() as int;
    let sl = signature.len() as int;
    lemma_timestamp_bytes_len(timestamp);
    lemma_be32_round_trip(nl as nat);
    lemma_be32_round_trip(tl as nat);
    lemma_be32_round_trip(sl as nat);
    let p = 5 + nl;
    let q = p + 4 + tl;
    assert(b.len() == q + 4 + sl);
    assert(b[0] == TAG_CHALLENGE);
    assert(b.subrange(1, 5) =~= be32(nl as nat));
    assert(b.subrange(5, p) =~= nonce);
    assert(b.subrange(p, p + 4) =~= be32(tl as nat));
    assert(b.subrange(p + 4, q) =~= t);
    assert(sig_len_bytes(b, p, q) =~= be32(sl as nat));
    assert(b.subrange(q + 4, q + 4 + sl) =~= signature);
}

/// Reading a message's body gives the message back.
pub proof fn lemma_parse_body_of(m: MsgValue)
    requires
        reads_back(m),
    ensures
        body_of(m).len() > 0,
        parse_body(body_of(m)) == Ok::<MsgValue, MsgError>(m),
{
    let b = body_of(m);
    match m {
        MsgValue::Challenge { nonce, timestamp, signature } => {
            lemma_parse_challenge_body(nonce, timestamp, signature);
        },
        MsgValue::Hello(pl) => {
            assert(b.subrange(1, b.len() as int) =~= pl);
        },
        MsgValue::End(pl) => {
            assert(b.subrange(1, b.len() as int) =~= pl);
        },
        MsgValue::Command(pl) => {
            assert(b.subrange(1, b.len() as int) =~= pl);
        },
        MsgValue::Error(pl) => {
            assert(b.subrange(1, b.len() as int) =~= pl);
        },
        MsgValue::Encapsulation(pl) => {
            assert(b.subrange(1, b.len() as int) =~= pl);
        },
    }
}

/// A frame is the length of the body, then the body; reading the body that
/// the length field delimits gives the message back.
pub proof fn lemma_frame_round_trip(m: MsgValue)
    requires
        encodable(m),
    ensures
        frame_of(m).len() == LEN_WIDTH + body_of(m).len(),
        be32_value(frame_of(m).subrange(0, LEN_WIDTH as int)) == body_of(m).len(),
        frame_of(m).subrange(LEN_WIDTH as int, frame_of(m).len() as int) == body_of(m),
        parse_body(frame_of(m).subrange(LEN_WIDTH as int, frame_of(m).len() as int)) == Ok::<
            MsgValue,
            MsgError,
        >(m),
{
    let f = frame_of(m);
    lemma_be32_round_trip(body_of(m).len());
    assert(f.subrange(0, 4) =~= be32(body_of(m).len()));
    assert(f.subrange(4, f.len() as int) =~= body_of(m));
    lemma_parse_body_of(m);
}

proof fn lemma_decimal_digits(n: nat)
    ensures
        decimal_digits(n).len() > 0,
        forall|j: int| 0 <= j < decimal_digits(n).len() ==> is_digit(#[trigger] decimal_digits(n)[j]),
        decimal_value(decimal_digits(n)) == n,
    decreases n,
{
    if n >= 10 {
        lemma_decimal_digits(n / 10);
        let d = decimal_digits(n);
        assert(d.drop_last() =~= decimal_digits(n / 10));
        assert(d.last() == (0x30 + n % 10) as u8);
        assert((n / 10) * 10 + n % 10 == n);
        assert(decimal_value(d) == decimal_value(d.drop_last()) * 10 + (d.last() - 0x30) as nat);
        assert(decimal_value(d.drop_last()) == n / 10);
        assert forall|j: int| 0 <= j < d.len() implies is_digit(#[trigger] d[j]) by {
            if j < d.len() - 1 {
                assert(d[j] == decimal_digits(n / 10)[j]);
            }
        }
    } else {
        let d = decimal_digits(n);
        assert(d.drop_last() =~= Seq::<u8>::empty());
        assert(decimal_value(d.drop_last()) == 0);
        assert(d.last() == (0x30 + n) as u8);
    }
}

/// The textual frame of a body, its length in decimal, a colon, then the
/// body, reads back as the body does.
pub proof fn lemma_text_frame_reads_body(body: Seq<u8>)
    requires
        body.len() > 0,
    ensures
        parse_text(decimal_digits(body.len()) + seq![0x3au8] + body) == parse_body(body),
{
    let d = decimal_digits(body.len());
    let s = d + seq![0x3au8] + body;
    lemma_decimal_digits(body.len());
    let i = d.len() as int;
    assert(is_text_colon(s, i)) by {
        assert forall|j: int| 0 <= j < i implies is_digit(#[trigger] s[j]) by {
            assert(s[j] == d[j]);
        }
    }
    let c = choose|c: int| is_text_colon(s, c);
    assert(c == i) by {
        if c < i {
            assert(s[c] == d[c]);
            assert(is_digit(d[c]));
        } else if c > i {
            assert(is_digit(s[i]));
        }
    }
    assert(s.subrange(0, i) =~= d);
    assert(s.subrange(i + 1, s.len() as int) =~= body);
}

} // verus!
