//! The encrypted stream: the client's key exchange and the framing and
//! buffering of encrypted data.
use vstd::prelude::*;
use vstd::string::StringSliceAdditionalSpecFns;
use crate::crypto::{
    AES_256_KEY_LEN, AES_GCM_NONCE_LEN, AES_GCM_TAG_LEN, aes256_gcm_open, aes256_gcm_open_bytes,
    aes256_gcm_seal, ml_kem_carries, ml_kem_decapsulate, ml_kem_decapsulate_bytes,
    ml_kem_encapsulate, ml_kem_encapsulation_key, ml_kem_generate, sskdf_sha256,
    sskdf_sha256_bytes,
};
use crate::msg::{ConMsg, MsgError, MsgValue, frame_of, parse_body};
use crate::msg::{be32, be32_bytes, be32_value, copy_range, lemma_be32_round_trip, push_all, read_be32};

verus! {

/// A check that a peer's public key is acceptable.
pub trait KeyValidate {
    type Error;

    /// Whether `validate` may be called on this key.
    spec fn can_validate(&self, key: &[u8]) -> bool;

    fn validate(&self, key: &[u8]) -> Result<(), Self::Error>
        requires
            self.can_validate(key),
    ;
}

/// A closure that checks a key is such a check.
impl<F: Fn(&[u8]) -> Result<(), E>, E> KeyValidate for F {
    type Error = E;

    open spec fn can_validate(&self, key: &[u8]) -> bool {
        call_requires(*self, (key,))
    }

    fn validate(&self, key: &[u8]) -> (r: Result<(), E>)
        ensures
            call_ensures(*self, (key,), r),
    {
        self(key)
    }
}


// ---------------------------------------------------------------------------
// Encrypted frames
// ---------------------------------------------------------------------------

/// Width of the length field of an encrypted frame.
pub const FRAME_LEN_WIDTH: usize = 8;

/// The 8-byte big-endian encoding of `n` modulo 2^64.
pub open spec fn be64(n: nat) -> Seq<u8> {
    be32((n / 0x1_0000_0000) % 0x1_0000_0000) + be32(n % 0x1_0000_0000)
}

/// The number that eight bytes encode, big-endian.
pub open spec fn be64_value(b: Seq<u8>) -> nat
    recommends
        b.len() == 8,
{
    be32_value(b.subrange(0, 4)) * 0x1_0000_0000 + be32_value(b.subrange(4, 8))
}

/// An encrypted frame: the length of what follows, the nonce, then the
/// ciphertext with its tag.
pub open spec fn sealed_frame(nonce: Seq<u8>, sealed: Seq<u8>) -> Seq<u8> {
    be64(nonce.len() + sealed.len()) + nonce + sealed
}

/// What the front of the received bytes holds.
pub enum FrameScan {
    /// Not yet a whole frame.
    Incomplete,
    /// A length field that no frame can have.
    Malformed,
    /// A whole frame of `total` bytes, with its nonce and sealed part.
    Complete { nonce: Seq<u8>, sealed: Seq<u8>, total: nat },
}

/// The frame at the front of the received bytes. A frame's length must
/// cover the nonce and the whole frame must be addressable.
pub open spec fn scan_frame(buf: Seq<u8>) -> FrameScan {
    if buf.len() < FRAME_LEN_WIDTH {
        FrameScan::Incomplete
    } else {
        let l = be64_value(buf.subrange(0, 8));
        if l < AES_GCM_NONCE_LEN || l > usize::MAX - FRAME_LEN_WIDTH {
            FrameScan::Malformed
        } else if buf.len() < FRAME_LEN_WIDTH + l {
            FrameScan::Incomplete
        } else {
            FrameScan::Complete {
                nonce: buf.subrange(8, 20),
                sealed: buf.subrange(20, 8 + l as int),
                total: (8 + l) as nat,
            }
        }
    }
}

/// `frame` is one whole encrypted frame that opens to `plaintext` with `key`.
pub open spec fn is_frame_of(key: Seq<u8>, plaintext: Seq<u8>, frame: Seq<u8>) -> bool {
    &&& scan_frame(frame) matches FrameScan::Complete { nonce, sealed, total }
    &&& total == frame.len()
    &&& aes256_gcm_open(key, nonce, sealed) == Some(plaintext)
}

/// `frame` is what one sealing of `plaintext` with `key` is sent as: the
/// length field, a 12-byte nonce, then the ciphertext with its 16-byte tag,
/// which open to `plaintext`.
pub open spec fn is_sealed_frame_of(key: Seq<u8>, plaintext: Seq<u8>, frame: Seq<u8>) -> bool {
    &&& is_frame_of(key, plaintext, frame)
    &&& frame.len() == plaintext.len() + AES_GCM_NONCE_LEN + AES_GCM_TAG_LEN + FRAME_LEN_WIDTH
    &&& scan_frame(frame) matches FrameScan::Complete { nonce, sealed, .. }
    &&& frame == sealed_frame(nonce, sealed)
    &&& sealed.len() == plaintext.len() + AES_GCM_TAG_LEN
}

/// The 8-byte big-endian encoding of `n`.
pub fn be64_bytes(n: u64) -> (out: Vec<u8>)
    ensures
        out@ == be64(n as nat),
{
    let hi = (n / 0x1_0000_0000) as u32;
    let lo = (n % 0x1_0000_0000) as u32;
    let mut out: Vec<u8> = Vec::new();
    push_all(&mut out, &be32_bytes(hi));
    push_all(&mut out, &be32_bytes(lo));
    assert((n / 0x1_0000_0000) % 0x1_0000_0000 == n / 0x1_0000_0000);
    out
}

/// The number that the eight bytes at `pos` encode, big-endian.
pub fn read_be64(b: &[u8], pos: usize) -> (n: u64)
    requires
        pos + 8 <= b@.len(),
    ensures
        n as nat == be64_value(b@.subrange(pos as int, pos + 8)),
{
    let len = b.len();
    assert(pos + 8 <= len);
    let hi = read_be32(b, pos) as u64;
    let lo = read_be32(b, pos + 4) as u64;
    assert(b@.subrange(pos as int, pos + 8).subrange(0, 4) =~= b@.subrange(pos as int, pos + 4));
    assert(b@.subrange(pos as int, pos + 8).subrange(4, 8) =~= b@.subrange(pos + 4, pos + 8));
    assert(hi * 0x1_0000_0000 + lo < 0x1_0000_0000_0000_0000) by (nonlinear_arith)
        requires
            hi < 0x1_0000_0000,
            lo < 0x1_0000_0000,
    ;
    hi * 0x1_0000_0000 + lo
}

/// The length field is big-endian: byte `i` of `be64(n)` is the base-256
/// digit of `n` for `256^(7 - i)`.
pub proof fn lemma_be64_digits(n: u64)
    ensures
        be64(n as nat).len() == 8,
        be64(n as nat)[0] == ((n / 0x100_0000_0000_0000) % 0x100) as u8,
        be64(n as nat)[1] == ((n / 0x1_0000_0000_0000) % 0x100) as u8,
        be64(n as nat)[2] == ((n / 0x100_0000_0000) % 0x100) as u8,
        be64(n as nat)[3] == ((n / 0x1_0000_0000) % 0x100) as u8,
        be64(n as nat)[4] == ((n / 0x100_0000) % 0x100) as u8,
        be64(n as nat)[5] == ((n / 0x1_0000) % 0x100) as u8,
        be64(n as nat)[6] == ((n / 0x100) % 0x100) as u8,
        be64(n as nat)[7] == (n % 0x100) as u8,
{
    let hi: u64 = (n / 0x1_0000_0000) % 0x1_0000_0000;
    let lo: u64 = n % 0x1_0000_0000;
    assert((hi / 0x100_0000) % 0x100 == (n / 0x100_0000_0000_0000) % 0x100) by (bit_vector)
        requires hi == (n / 0x1_0000_0000) % 0x1_0000_0000;
    assert((hi / 0x1_0000) % 0x100 == (n / 0x1_0000_0000_0000) % 0x100) by (bit_vector)
        requires hi == (n / 0x1_0000_0000) % 0x1_0000_0000;
    assert((hi / 0x100) % 0x100 == (n / 0x100_0000_0000) % 0x100) by (bit_vector)
        requires hi == (n / 0x1_0000_0000) % 0x1_0000_0000;
    assert(hi % 0x100 == (n / 0x1_0000_0000) % 0x100) by (bit_vector)
        requires hi == (n / 0x1_0000_0000) % 0x1_0000_0000;
    assert((lo / 0x100_0000) % 0x100 == (n / 0x100_0000) % 0x100) by (bit_vector)
        requires lo == n % 0x1_0000_0000;
    assert((lo / 0x1_0000) % 0x100 == (n / 0x1_0000) % 0x100) by (bit_vector)
        requires lo == n % 0x1_0000_0000;
    assert((lo / 0x100) % 0x100 == (n / 0x100) % 0x100) by (bit_vector)
        requires lo == n % 0x1_0000_0000;
    assert(lo % 0x100 == n % 0x100) by (bit_vector)
        requires lo == n % 0x1_0000_0000;
}

/// A sealed frame begins with the big-endian length of what follows it:
/// byte `i` of the 8-byte field is the base-256 digit of
/// `12 + plaintext.len() + 16` for `256^(7 - i)`.
pub proof fn lemma_sealed_frame_length_field(key: Seq<u8>, plaintext: Seq<u8>, frame: Seq<u8>)
    requires
        is_sealed_frame_of(key, plaintext, frame),
        plaintext.len() + AES_GCM_NONCE_LEN + AES_GCM_TAG_LEN <= u64::MAX,
    ensures
        ({
            let l = (plaintext.len() + AES_GCM_NONCE_LEN + AES_GCM_TAG_LEN) as u64;
            &&& frame[0] == ((l / 0x100_0000_0000_0000) % 0x100) as u8
            &&& frame[1] == ((l / 0x1_0000_0000_0000) % 0x100) as u8
            &&& frame[2] == ((l / 0x100_0000_0000) % 0x100) as u8
            &&& frame[3] == ((l / 0x1_0000_0000) % 0x100) as u8
            &&& frame[4] == ((l / 0x100_0000) % 0x100) as u8
            &&& frame[5] == ((l / 0x1_0000) % 0x100) as u8
            &&& frame[6] == ((l / 0x100) % 0x100) as u8
            &&& frame[7] == (l % 0x100) as u8
        }),
{
    let l = (plaintext.len() + AES_GCM_NONCE_LEN + AES_GCM_TAG_LEN) as u64;
    lemma_be64_digits(l);
    let (nonce, sealed) = match scan_frame(frame) {
        FrameScan::Complete { nonce, sealed, .. } => (nonce, sealed),
        _ => (Seq::empty(), Seq::empty()),
    };
    assert(nonce.len() + sealed.len() == l);
    assert(frame.subrange(0, 8) =~= be64(l as nat));
}

/// A length field reads back the length that was written, below 2^64.
pub proof fn lemma_be64_round_trip(n: nat)
    requires
        n < 0x1_0000_0000_0000_0000,
    ensures
        be64(n).len() == 8,
        be64_value(be64(n)) == n,
{
    let hi = n / 0x1_0000_0000;
    let lo = n % 0x1_0000_0000;
    assert(hi < 0x1_0000_0000) by (nonlinear_arith)
        requires
            hi == n / 0x1_0000_0000,
            n < 0x1_0000_0000_0000_0000,
    ;
    lemma_be32_round_trip(hi);
    lemma_be32_round_trip(lo);
    assert(be64(n).subrange(0, 4) =~= be32(hi));
    assert(be64(n).subrange(4, 8) =~= be32(lo));
    assert(n == hi * 0x1_0000_0000 + lo) by (nonlinear_arith)
        requires
            hi == n / 0x1_0000_0000,
            lo == n % 0x1_0000_0000,
    ;
}

/// The frame of a nonce and a sealed message.
pub fn frame_from_sealed(nonce: &[u8], sealed: &[u8]) -> (frame: Vec<u8>)
    requires
        nonce@.len() == AES_GCM_NONCE_LEN,
        nonce@.len() + sealed@.len() + FRAME_LEN_WIDTH <= usize::MAX,
    ensures
        frame@ == sealed_frame(nonce@, sealed@),
        scan_frame(frame@) == (FrameScan::Complete {
            nonce: nonce@,
            sealed: sealed@,
            total: frame@.len(),
        }),
{
    let len = nonce.len() + sealed.len();
    let mut frame = be64_bytes(len as u64);
    push_all(&mut frame, nonce);
    push_all(&mut frame, sealed);
    proof {
        lemma_be64_round_trip(len as nat);
        let f = frame@;
        assert(f.subrange(0, 8) =~= be64(len as nat));
        assert(f.subrange(8, 20) =~= nonce@);
        assert(f.subrange(20, 8 + len) =~= sealed@);
    }
    frame
}

/// The frame that carries `plaintext`, sealed with `key` under a fresh nonce.
pub fn seal_frame(key: &[u8], plaintext: &[u8]) -> (r: Option<Vec<u8>>)
    requires
        plaintext@.len() + AES_GCM_NONCE_LEN + AES_GCM_TAG_LEN + FRAME_LEN_WIDTH <= usize::MAX,
    ensures
        r matches Some(frame) ==> is_sealed_frame_of(key@, plaintext@, frame@),
{
    match aes256_gcm_seal(key, plaintext) {
        Some((nonce, sealed)) => Some(frame_from_sealed(nonce.as_slice(), sealed.as_slice())),
        None => None,
    }
}

// ---------------------------------------------------------------------------
// The buffers of an encrypted stream
// ---------------------------------------------------------------------------

/// Why an operation on an encrypted stream fails.
#[derive(Clone, Copy, PartialEq, Eq, Debug, Structural)]
pub enum StreamError {
    /// A received frame does not open with the key, or its length field is
    /// not that of a frame.
    InvalidCiphertext,
    /// The bytes received so far do not yet make a whole frame; they are
    /// kept, and the read should be retried.
    Interrupted,
    /// Sealing failed.
    EncryptionFailed,
}

/// What a read does next.
pub enum ReadPlan {
    /// Hand these bytes to the reader.
    Done(Vec<u8>),
    /// Receive up to this many bytes from the peer, then call `on_received`.
    Receive(usize),
    /// Fail.
    Fail(StreamError),
}

/// The value of a read plan.
pub enum ReadPlanValue {
    Done(Seq<u8>),
    Receive(nat),
    Fail(StreamError),
}

impl View for ReadPlan {
    type V = ReadPlanValue;

    open spec fn view(&self) -> ReadPlanValue {
        match self {
            ReadPlan::Done(b) => ReadPlanValue::Done(b@),
            ReadPlan::Receive(n) => ReadPlanValue::Receive(*n as nat),
            ReadPlan::Fail(e) => ReadPlanValue::Fail(*e),
        }
    }
}

/// What a write does next.
pub enum WritePlan {
    /// Send these bytes, left over from an earlier write, in full; then call
    /// `clear_pending` and report that none of the new bytes were written.
    SendPending(Vec<u8>),
    /// Nothing to write: report that none were written.
    Nothing,
    /// Send this frame; call `record_sent` with how much of it went out, and
    /// report the whole input as written.
    SendFrame(Vec<u8>),
    /// Fail.
    Fail(StreamError),
}

/// The value of a write plan.
pub enum WritePlanValue {
    SendPending(Seq<u8>),
    Nothing,
    SendFrame(Seq<u8>),
    Fail(StreamError),
}

impl View for WritePlan {
    type V = WritePlanValue;

    open spec fn view(&self) -> WritePlanValue {
        match self {
            WritePlan::SendPending(b) => WritePlanValue::SendPending(b@),
            WritePlan::Nothing => WritePlanValue::Nothing,
            WritePlan::SendFrame(f) => WritePlanValue::SendFrame(f@),
            WritePlan::Fail(e) => WritePlanValue::Fail(*e),
        }
    }
}

/// The mathematical state of an encrypted stream's buffers and keys.
pub struct StreamValue {
    pub send_key: Seq<u8>,
    pub recv_key: Seq<u8>,
    /// Frame bytes not yet sent.
    pub pending: Seq<u8>,
    /// Plaintext decrypted but not yet handed to a reader.
    pub decrypted: Seq<u8>,
    /// Bytes received but not yet decrypted.
    pub received: Seq<u8>,
}

/// The keys and buffers of an encrypted stream; the connection itself is the
/// caller's.
pub struct StreamState {
    send_key: Vec<u8>,
    recv_key: Vec<u8>,
    cipher_buf: Vec<u8>,
    decrypt_buf: Vec<u8>,
    recv_buf: Vec<u8>,
}

/// How many bytes a read asks for when no whole frame has been received:
/// enough for a frame of `want` bytes of plaintext while its length is not
/// yet known, else the rest of the frame.
pub open spec fn bytes_to_receive(want: nat, received: Seq<u8>) -> nat {
    if received.len() < FRAME_LEN_WIDTH {
        (want + AES_GCM_NONCE_LEN + AES_GCM_TAG_LEN + FRAME_LEN_WIDTH - received.len()) as nat
    } else {
        (FRAME_LEN_WIDTH + be64_value(received.subrange(0, 8)) - received.len()) as nat
    }
}

/// The step that hands at most `want` bytes of `decrypted` to a reader.
pub open spec fn deliver(st: StreamValue, want: nat) -> (ReadPlanValue, StreamValue) {
    let m = if want < st.decrypted.len() { want as int } else { st.decrypted.len() as int };
    (
        ReadPlanValue::Done(st.decrypted.subrange(0, m)),
        StreamValue { decrypted: st.decrypted.subrange(m, st.decrypted.len() as int), ..st },
    )
}

/// The step that decrypts the frame at the front of the received bytes, if
/// there is one; `incomplete` is what happens when there is not.
pub open spec fn open_front(st: StreamValue, want: nat, incomplete: ReadPlanValue) -> (
    ReadPlanValue,
    StreamValue,
) {
    match scan_frame(st.received) {
        FrameScan::Incomplete => (incomplete, st),
        FrameScan::Malformed => (
            ReadPlanValue::Fail(StreamError::InvalidCiphertext),
            StreamValue { received: Seq::empty(), ..st },
        ),
        FrameScan::Complete { nonce, sealed, total } => {
            let rest = st.received.subrange(total as int, st.received.len() as int);
            match aes256_gcm_open(st.recv_key, nonce, sealed) {
                None => (
                    ReadPlanValue::Fail(StreamError::InvalidCiphertext),
                    StreamValue { received: rest, ..st },
                ),
                Some(p) => deliver(
                    StreamValue { received: rest, decrypted: st.decrypted + p, ..st },
                    want,
                ),
            }
        },
    }
}

/// A read of at most `want` bytes: nothing for an empty read, else what was
/// decrypted before, else the next whole frame received, else a request for
/// more bytes.
pub open spec fn read_step(st: StreamValue, want: nat) -> (ReadPlanValue, StreamValue) {
    if want == 0 {
        (ReadPlanValue::Done(Seq::empty()), st)
    } else if st.decrypted.len() > 0 {
        deliver(st, want)
    } else {
        open_front(st, want, ReadPlanValue::Receive(bytes_to_receive(want, st.received)))
    }
}

/// The bytes `data` arrived from the connection: they are kept, and the
/// next whole frame is decrypted if there now is one; while there is not,
/// the read is interrupted.
pub open spec fn received_step(st: StreamValue, want: nat, data: Seq<u8>) -> (
    ReadPlanValue,
    StreamValue,
) {
    open_front(
        StreamValue { received: st.received + data, ..st },
        want,
        ReadPlanValue::Fail(StreamError::Interrupted),
    )
}

/// The plans a write of `buf` may make: what an earlier write left over is
/// sent first; an empty input writes nothing; else a frame that seals `buf`
/// with the sending key is sent, or sealing fails.
pub open spec fn write_allows(st: StreamValue, buf: Seq<u8>, plan: WritePlanValue) -> bool {
    if st.pending.len() > 0 {
        plan == WritePlanValue::SendPending(st.pending)
    } else if buf.len() == 0 {
        plan == WritePlanValue::Nothing
    } else {
        match plan {
            WritePlanValue::SendFrame(f) => is_sealed_frame_of(st.send_key, buf, f),
            WritePlanValue::Fail(e) => e == StreamError::EncryptionFailed,
            _ => false,
        }
    }
}

/// The state after the connection took the first `written` bytes of a
/// frame: the rest of it waits to be sent.
pub open spec fn after_sent(st: StreamValue, frame: Seq<u8>, written: nat) -> StreamValue {
    StreamValue { pending: st.pending + frame.subrange(written as int, frame.len() as int), ..st }
}

/// The first `n` bytes of `v` (all of them if it is shorter), which are
/// removed from it.
fn take_front(v: &mut Vec<u8>, n: usize) -> (out: Vec<u8>)
    ensures
        ({
            let m = if n < old(v)@.len() { n as int } else { old(v)@.len() as int };
            &&& out@ == old(v)@.subrange(0, m)
            &&& final(v)@ == old(v)@.subrange(m, old(v)@.len() as int)
        }),
{
    let m = if n < v.len() { n } else { v.len() };
    let out = copy_range(v.as_slice(), 0, m);
    let rest = copy_range(v.as_slice(), m, v.len());
    *v = rest;
    out
}

impl StreamState {
    pub closed spec fn value(&self) -> StreamValue {
        StreamValue {
            send_key: self.send_key@,
            recv_key: self.recv_key@,
            pending: self.cipher_buf@,
            decrypted: self.decrypt_buf@,
            received: self.recv_buf@,
        }
    }

    /// A stream with the two keys and empty buffers.
    pub fn new(send_key: Vec<u8>, recv_key: Vec<u8>) -> (st: StreamState)
        ensures
            st.value() == (StreamValue {
                send_key: send_key@,
                recv_key: recv_key@,
                pending: Seq::empty(),
                decrypted: Seq::empty(),
                received: Seq::empty(),
            }),
    {
        StreamState {
            send_key,
            recv_key,
            cipher_buf: Vec::new(),
            decrypt_buf: Vec::new(),
            recv_buf: Vec::new(),
        }
    }

    /// The front frame of the received bytes is decrypted, if whole.
    fn open_front_exec(&mut self, want: usize, incomplete: ReadPlan) -> (r: ReadPlan)
        ensures
            (r@, final(self).value()) == open_front(old(self).value(), want as nat, incomplete@),
    {
        let len = self.recv_buf.len();
        if len < FRAME_LEN_WIDTH {
            return incomplete;
        }
        let l = read_be64(self.recv_buf.as_slice(), 0);
        if l < AES_GCM_NONCE_LEN as u64 || l > (usize::MAX - FRAME_LEN_WIDTH) as u64 {
            self.recv_buf = Vec::new();
            return ReadPlan::Fail(StreamError::InvalidCiphertext);
        }
        let total = FRAME_LEN_WIDTH + l as usize;
        if len < total {
            return incomplete;
        }
        let nonce = copy_range(self.recv_buf.as_slice(), 8, 20);
        let sealed = copy_range(self.recv_buf.as_slice(), 20, total);
        let rest = copy_range(self.recv_buf.as_slice(), total, len);
        self.recv_buf = rest;
        match aes256_gcm_open_bytes(self.recv_key.as_slice(), nonce.as_slice(), sealed.as_slice()) {
            None => ReadPlan::Fail(StreamError::InvalidCiphertext),
            Some(plain) => {
                push_all(&mut self.decrypt_buf, plain.as_slice());
                ReadPlan::Done(take_front(&mut self.decrypt_buf, want))
            },
        }
    }

    /// The first half of a read of at most `want` bytes.
    pub fn read_plan(&mut self, want: usize) -> (r: ReadPlan)
        requires
            want + AES_GCM_NONCE_LEN + AES_GCM_TAG_LEN + FRAME_LEN_WIDTH <= usize::MAX,
        ensures
            (r@, final(self).value()) == read_step(old(self).value(), want as nat),
    {
        if want == 0 {
            return ReadPlan::Done(Vec::new());
        }
        if self.decrypt_buf.len() > 0 {
            return ReadPlan::Done(take_front(&mut self.decrypt_buf, want));
        }
        let len = self.recv_buf.len();
        let request = if len < FRAME_LEN_WIDTH {
            want + AES_GCM_NONCE_LEN + AES_GCM_TAG_LEN + FRAME_LEN_WIDTH - len
        } else {
            let l = read_be64(self.recv_buf.as_slice(), 0);
            if l < AES_GCM_NONCE_LEN as u64 || l > (usize::MAX - FRAME_LEN_WIDTH) as u64 {
                0
            } else if len < FRAME_LEN_WIDTH + l as usize {
                FRAME_LEN_WIDTH + l as usize - len
            } else {
                0
            }
        };
        self.open_front_exec(want, ReadPlan::Receive(request))
    }

    /// The second half of a read: `data` arrived from the connection.
    pub fn on_received(&mut self, want: usize, data: &[u8]) -> (r: ReadPlan)
        ensures
            (r@, final(self).value()) == received_step(old(self).value(), want as nat, data@),
    {
        push_all(&mut self.recv_buf, data);
        self.open_front_exec(want, ReadPlan::Fail(StreamError::Interrupted))
    }

    /// The first half of a write of `buf`: send what an earlier write left
    /// over, else nothing for an empty input, else a frame that carries it.
    pub fn write_plan(&self, buf: &[u8]) -> (r: WritePlan)
        requires
            buf@.len() + AES_GCM_NONCE_LEN + AES_GCM_TAG_LEN + FRAME_LEN_WIDTH <= usize::MAX,
        ensures
            write_allows(self.value(), buf@, r@),
    {
        if self.cipher_buf.len() > 0 {
            let pending = copy_range(self.cipher_buf.as_slice(), 0, self.cipher_buf.len());
            assert(pending@ =~= self.cipher_buf@);
            return WritePlan::SendPending(pending);
        }
        if buf.len() == 0 {
            return WritePlan::Nothing;
        }
        match seal_frame(self.send_key.as_slice(), buf) {
            Some(frame) => WritePlan::SendFrame(frame),
            None => WritePlan::Fail(StreamError::EncryptionFailed),
        }
    }

    /// The part of a frame that the connection did not take is kept to be
    /// sent later.
    pub fn record_sent(&mut self, frame: &[u8], written: usize)
        requires
            written <= frame@.len(),
        ensures
            final(self).value() == after_sent(old(self).value(), frame@, written as nat),
    {
        let rest = copy_range(frame, written, frame.len());
        push_all(&mut self.cipher_buf, rest.as_slice());
    }

    /// The frame bytes not yet sent.
    pub fn pending(&self) -> (out: Vec<u8>)
        ensures
            out@ == self.value().pending,
    {
        copy_range(self.cipher_buf.as_slice(), 0, self.cipher_buf.len())
    }

    /// Forgets the frame bytes not yet sent, once they are.
    pub fn clear_pending(&mut self)
        ensures
            final(self).value() == (StreamValue { pending: Seq::empty(), ..old(self).value() }),
    {
        self.cipher_buf = Vec::new();
    }
}

/// Reading gives back what was written: when the received bytes begin with
/// a frame that opens to `plaintext` under the receiving key, a read decrypts
/// exactly that frame, hands out the front of the plaintext and keeps the
/// rest of it, and leaves the bytes after the frame for the next read.
pub proof fn lemma_read_gives_back_written(
    st: StreamValue,
    want: nat,
    plaintext: Seq<u8>,
    frame: Seq<u8>,
    rest: Seq<u8>,
)
    requires
        is_frame_of(st.recv_key, plaintext, frame),
        st.received == frame + rest,
        st.decrypted.len() == 0,
        want > 0,
    ensures
        read_step(st, want) == deliver(
            StreamValue { received: rest, decrypted: plaintext, ..st },
            want,
        ),
{
    let buf = frame + rest;
    assert(buf.subrange(0, 8) =~= frame.subrange(0, 8));
    let l = be64_value(frame.subrange(0, 8));
    assert(buf.subrange(8, 20) =~= frame.subrange(8, 20));
    assert(buf.subrange(20, 8 + l as int) =~= frame.subrange(20, 8 + l as int));
    assert(buf.subrange(8 + l as int, buf.len() as int) =~= rest);
    assert(st.decrypted + plaintext =~= plaintext);
}

/// Bytes that arrive to complete a frame are read as that frame: when the
/// bytes kept from before, followed by the bytes that arrived, begin with a
/// frame that opens to `plaintext`, the read decrypts it and keeps what
/// follows it.
pub proof fn lemma_arrival_completes_frame(
    st: StreamValue,
    want: nat,
    data: Seq<u8>,
    plaintext: Seq<u8>,
    frame: Seq<u8>,
    rest: Seq<u8>,
)
    requires
        is_frame_of(st.recv_key, plaintext, frame),
        st.received + data == frame + rest,
        st.decrypted.len() == 0,
    ensures
        received_step(st, want, data) == deliver(
            StreamValue { received: rest, decrypted: plaintext, ..st },
            want,
        ),
{
    let buf = frame + rest;
    assert(buf.subrange(0, 8) =~= frame.subrange(0, 8));
    let l = be64_value(frame.subrange(0, 8));
    assert(buf.subrange(8, 20) =~= frame.subrange(8, 20));
    assert(buf.subrange(20, 8 + l as int) =~= frame.subrange(20, 8 + l as int));
    assert(buf.subrange(8 + l as int, buf.len() as int) =~= rest);
    assert(st.decrypted + plaintext =~= plaintext);
}

/// A frame that has only partly arrived is waited for, not refused: the read
/// asks for more bytes, and once the length field is in, for exactly the
/// rest of the frame.
pub proof fn lemma_partial_frame_asks_for_rest(
    st: StreamValue,
    want: nat,
    plaintext: Seq<u8>,
    frame: Seq<u8>,
    k: int,
)
    requires
        is_frame_of(st.recv_key, plaintext, frame),
        0 <= k < frame.len(),
        st.received == frame.subrange(0, k),
        st.decrypted.len() == 0,
        want > 0,
    ensures
        read_step(st, want) == (ReadPlanValue::Receive(bytes_to_receive(want, st.received)), st),
        k >= FRAME_LEN_WIDTH ==> bytes_to_receive(want, st.received) == frame.len() - k,
{
    if k >= FRAME_LEN_WIDTH {
        assert(st.received.subrange(0, 8) =~= frame.subrange(0, 8));
    }
}

/// One write, one read: a reader with nothing kept, asked for as many bytes
/// as a write sealed, asks the connection for exactly that write's frame,
/// and when the frame arrives hands out the whole plaintext and keeps
/// nothing.
pub proof fn lemma_one_write_one_read(st: StreamValue, plaintext: Seq<u8>, frame: Seq<u8>)
    requires
        is_sealed_frame_of(st.recv_key, plaintext, frame),
        plaintext.len() > 0,
        st.received.len() == 0,
        st.decrypted.len() == 0,
    ensures
        read_step(st, plaintext.len()) == (ReadPlanValue::Receive(frame.len()), st),
        received_step(st, plaintext.len(), frame) == (
            ReadPlanValue::Done(plaintext),
            StreamValue { received: Seq::<u8>::empty(), decrypted: Seq::<u8>::empty(), ..st },
        ),
{
    assert(st.received + frame =~= frame + Seq::<u8>::empty());
    lemma_arrival_completes_frame(
        st,
        plaintext.len(),
        frame,
        plaintext,
        frame,
        Seq::<u8>::empty(),
    );
    assert(plaintext.subrange(0, plaintext.len() as int) =~= plaintext);
    assert(plaintext.subrange(plaintext.len() as int, plaintext.len() as int) =~= Seq::<u8>::empty());
}

/// What one end writes, the other reads: when the writer's sending key is
/// the reader's receiving key and the reader has nothing kept, a read of as
/// many bytes as were written asks for exactly the written frame and, once
/// it arrives, hands out exactly the written bytes.
pub proof fn lemma_peer_reads_what_was_written(
    writer: StreamValue,
    reader: StreamValue,
    data: Seq<u8>,
    frame: Seq<u8>,
)
    requires
        write_allows(writer, data, WritePlanValue::SendFrame(frame)),
        writer.send_key == reader.recv_key,
        reader.received.len() == 0,
        reader.decrypted.len() == 0,
    ensures
        read_step(reader, data.len()) == (ReadPlanValue::Receive(frame.len()), reader),
        received_step(reader, data.len(), frame) == (
            ReadPlanValue::Done(data),
            StreamValue { received: Seq::<u8>::empty(), decrypted: Seq::<u8>::empty(), ..reader },
        ),
{
    lemma_one_write_one_read(reader, data, frame);
}

/// A write whose frame went out whole leaves nothing behind: the next write
/// of some bytes seals them (or fails to) rather than sending left-over
/// bytes or writing nothing.
pub proof fn lemma_full_send_leaves_nothing_pending(
    st: StreamValue,
    first: Seq<u8>,
    frame: Seq<u8>,
    second: Seq<u8>,
    plan: WritePlanValue,
)
    requires
        write_allows(st, first, WritePlanValue::SendFrame(frame)),
        second.len() > 0,
        write_allows(after_sent(st, frame, frame.len()), second, plan),
    ensures
        after_sent(st, frame, frame.len()).pending.len() == 0,
        plan matches WritePlanValue::SendFrame(f) ==> is_sealed_frame_of(st.send_key, second, f),
        plan matches WritePlanValue::Fail(e) ==> e == StreamError::EncryptionFailed,
        plan is SendFrame || plan is Fail,
{
    assert(frame.subrange(frame.len() as int, frame.len() as int) =~= Seq::<u8>::empty());
    assert(st.pending + Seq::<u8>::empty() =~= st.pending);
}

/// A read retried after part of a frame arrived gets the frame: the first
/// read asks for bytes and, given only a part of the frame, is interrupted
/// and keeps it; the retry asks for more, and once the rest arrives hands
/// out the frame's plaintext as a read of the whole frame would.
pub proof fn lemma_retry_after_partial_frame(
    st: StreamValue,
    want: nat,
    plaintext: Seq<u8>,
    frame: Seq<u8>,
    k: int,
)
    requires
        is_frame_of(st.recv_key, plaintext, frame),
        0 < k < frame.len(),
        st.received.len() == 0,
        st.decrypted.len() == 0,
        want > 0,
    ensures
        ({
            let (first, st1) = read_step(st, want);
            let (interrupted, st2) = received_step(st1, want, frame.subrange(0, k));
            let (retry, st3) = read_step(st2, want);
            &&& first == ReadPlanValue::Receive(bytes_to_receive(want, st.received))
            &&& st1 == st
            &&& interrupted == ReadPlanValue::Fail(StreamError::Interrupted)
            &&& st2 == StreamValue { received: frame.subrange(0, k), ..st }
            &&& retry == ReadPlanValue::Receive(bytes_to_receive(want, frame.subrange(0, k)))
            &&& st3 == st2
            &&& received_step(st3, want, frame.subrange(k, frame.len() as int)) == received_step(
                st,
                want,
                frame,
            )
            &&& received_step(st, want, frame) == deliver(
                StreamValue { decrypted: plaintext, ..st },
                want,
            )
        }),
{
    let st2 = StreamValue { received: frame.subrange(0, k), ..st };
    assert(st.received + frame.subrange(0, k) =~= frame.subrange(0, k));
    assert(frame.subrange(0, 0) =~= st.received);
    lemma_partial_frame_asks_for_rest(st, want, plaintext, frame, 0);
    lemma_partial_frame_asks_for_rest(st2, want, plaintext, frame, k);
    assert(scan_frame(frame.subrange(0, k)) is Incomplete);
    assert(received_step(st, want, frame.subrange(0, k)) == (
        ReadPlanValue::Fail(StreamError::Interrupted),
        st2,
    ));
    let rest = frame.subrange(k, frame.len() as int);
    assert(st2.received + rest =~= frame + Seq::<u8>::empty());
    assert(st.received + frame =~= frame + Seq::<u8>::empty());
    lemma_arrival_completes_frame(st2, want, rest, plaintext, frame, Seq::<u8>::empty());
    lemma_arrival_completes_frame(st, want, frame, plaintext, frame, Seq::<u8>::empty());
    assert(st.received =~= Seq::<u8>::empty());
}

/// While decrypted bytes wait, a read hands out the first of them, as many
/// as asked for or all there are, keeps exactly the rest in order, and
/// touches nothing else: nothing is handed out twice and nothing is lost.
pub proof fn lemma_buffered_read_hands_out_front(st: StreamValue, want: nat)
    requires
        want > 0,
        st.decrypted.len() > 0,
    ensures
        ({
            let (plan, st2) = read_step(st, want);
            let n = if want < st.decrypted.len() { want } else { st.decrypted.len() };
            &&& plan matches ReadPlanValue::Done(out)
            &&& out.len() == n
            &&& out + st2.decrypted == st.decrypted
            &&& st2.decrypted.len() == st.decrypted.len() - n
            &&& st2.received == st.received
            &&& st2.pending == st.pending
            &&& st2.send_key == st.send_key
            &&& st2.recv_key == st.recv_key
        }),
{
    let m = if want < st.decrypted.len() { want as int } else { st.decrypted.len() as int };
    assert(st.decrypted.subrange(0, m) + st.decrypted.subrange(m, st.decrypted.len() as int)
        =~= st.decrypted);
}

/// While decrypted bytes wait, a read hands some of them out and asks the
/// connection for nothing.
pub proof fn lemma_buffered_read_receives_nothing(st: StreamValue, want: nat)
    requires
        want > 0,
        st.decrypted.len() > 0,
    ensures
        read_step(st, want).0 matches ReadPlanValue::Done(out) && out.len() > 0,
        read_step(st, want).1.received == st.received,
{
}

/// When the bytes that arrived do not make a whole frame, the read is
/// interrupted and the bytes are kept for the retry.
pub proof fn lemma_short_receive_is_kept(st: StreamValue, want: nat, data: Seq<u8>)
    requires
        scan_frame(st.received + data) is Incomplete,
    ensures
        received_step(st, want, data) == (
            ReadPlanValue::Fail(StreamError::Interrupted),
            StreamValue { received: st.received + data, ..st },
        ),
{
}

/// A frame that does not open under the receiving key is refused, whatever
/// its length: the read fails, nothing of the frame is kept or handed out,
/// and the bytes after it wait for the next read.
pub proof fn lemma_forged_frame_refused(
    st: StreamValue,
    want: nat,
    data: Seq<u8>,
    nonce: Seq<u8>,
    sealed: Seq<u8>,
    total: nat,
)
    requires
        scan_frame(st.received + data) == (FrameScan::Complete { nonce, sealed, total }),
        aes256_gcm_open(st.recv_key, nonce, sealed) is None,
    ensures
        received_step(st, want, data) == (
            ReadPlanValue::Fail(StreamError::InvalidCiphertext),
            StreamValue {
                received: (st.received + data).subrange(total as int, (st.received + data).len() as int),
                ..st
            },
        ),
{
}

/// A read hands out the decrypted bytes in order and loses none: what it
/// hands out, followed by what it keeps, is what it had.
pub proof fn lemma_deliver_keeps_order(st: StreamValue, want: nat)
    ensures
        ({
            let (plan, st2) = deliver(st, want);
            &&& plan matches ReadPlanValue::Done(out)
            &&& out + st2.decrypted == st.decrypted
            &&& out.len() == if want < st.decrypted.len() { want } else { st.decrypted.len() }
        }),
{
    let m = if want < st.decrypted.len() { want as int } else { st.decrypted.len() as int };
    assert(st.decrypted.subrange(0, m) + st.decrypted.subrange(m, st.decrypted.len() as int)
        =~= st.decrypted);
}

// ---------------------------------------------------------------------------
// The client's key exchange
// ---------------------------------------------------------------------------

/// The info string of the key derivation.
pub open spec fn kdf_info() -> Seq<u8> {
    "consh-client".spec_bytes()
}

/// Why the key exchange fails.
#[derive(Clone, Copy, PartialEq, Eq, Debug, Structural)]
pub enum HandshakeError {
    /// No key pair could be generated.
    KeyGeneration,
    /// A message from the server is not a message.
    Parse(MsgError),
    /// The server sent another kind of message than the protocol asks for.
    Protocol,
    /// Encapsulation, decapsulation or key derivation failed.
    KeyExchange,
}

/// The session key derived from a shared secret.
pub fn session_key(secret: &[u8]) -> (r: Result<Vec<u8>, HandshakeError>)
    ensures
        match sskdf_sha256(secret@, kdf_info(), AES_256_KEY_LEN as nat) {
            Some(k) => r matches Ok(key) && key@ == k,
            None => r == Err::<Vec<u8>, HandshakeError>(HandshakeError::KeyExchange),
        },
{
    let info = "consh-client".as_bytes();
    match sskdf_sha256_bytes(secret, info, AES_256_KEY_LEN) {
        Some(k) => Ok(k),
        None => Err(HandshakeError::KeyExchange),
    }
}

/// The client's side of the key exchange: its ephemeral ML-KEM-1024 key.
pub struct ClientHandshake {
    decap: Vec<u8>,
    encap: Vec<u8>,
}

impl ClientHandshake {
    pub closed spec fn decap_key(&self) -> Seq<u8> {
        self.decap@
    }

    pub closed spec fn encap_key(&self) -> Seq<u8> {
        self.encap@
    }

    /// The handshake with the given key pair; the frame to send is the
    /// `Hello` that carries the encapsulation key.
    pub fn from_keys(decap: Vec<u8>, encap: Vec<u8>) -> (r: (ClientHandshake, Vec<u8>))
        ensures
            r.0.decap_key() == decap@,
            r.0.encap_key() == encap@,
            r.1@ == frame_of(MsgValue::Hello(encap@)),
    {
        let hello = ConMsg::Hello(copy_range(encap.as_slice(), 0, encap.len()));
        assert(encap@.subrange(0, encap@.len() as int) =~= encap@);
        let frame = hello.to_bytes();
        (ClientHandshake { decap, encap }, frame)
    }

    /// Generates the ephemeral key; the frame to send is the `Hello` that
    /// carries its encapsulation key.
    pub fn start() -> (r: Result<(ClientHandshake, Vec<u8>), HandshakeError>)
        ensures
            r matches Ok((h, frame)) ==> {
                &&& ml_kem_encapsulation_key(h.decap_key()) == Some(h.encap_key())
                &&& frame@ == frame_of(MsgValue::Hello(h.encap_key()))
            },
            r matches Err(e) ==> e == HandshakeError::KeyGeneration,
    {
        match ml_kem_generate() {
            Some((decap, encap)) => Ok(ClientHandshake::from_keys(decap, encap)),
            None => Err(HandshakeError::KeyGeneration),
        }
    }

    /// The key the client sends with: derived from the secret that the
    /// server's `Encapsulation` carries for the client's key.
    pub fn send_key(&self, body: &[u8]) -> (r: Result<Vec<u8>, HandshakeError>)
        requires
            body@.len() > 0,
        ensures
            match parse_body(body@) {
                Ok(MsgValue::Encapsulation(c)) => match ml_kem_decapsulate(self.decap_key(), c) {
                    None => r == Err::<Vec<u8>, HandshakeError>(HandshakeError::KeyExchange),
                    Some(secret) => match sskdf_sha256(secret, kdf_info(), AES_256_KEY_LEN as nat) {
                        Some(k) => r matches Ok(key) && key@ == k,
                        None => r == Err::<Vec<u8>, HandshakeError>(HandshakeError::KeyExchange),
                    },
                },
                Ok(_) => r == Err::<Vec<u8>, HandshakeError>(HandshakeError::Protocol),
                Err(e) => r == Err::<Vec<u8>, HandshakeError>(HandshakeError::Parse(e)),
            },
    {
        let ciphertext = match ConMsg::from_bytes(body) {
            Ok(ConMsg::Encapsulation(c)) => c,
            Ok(_) => {
                return Err(HandshakeError::Protocol);
            },
            Err(e) => {
                return Err(HandshakeError::Parse(e));
            },
        };
        match ml_kem_decapsulate_bytes(self.decap.as_slice(), ciphertext.as_slice()) {
            Some(secret) => session_key(secret.as_slice()),
            None => Err(HandshakeError::KeyExchange),
        }
    }
}

/// The answer to the server's `Hello`: a ciphertext that encapsulates a
/// fresh secret for the server's key, sent as it is, and the key the client
/// receives with, derived from that secret.
pub fn answer_server_key(body: &[u8]) -> (r: Result<(Vec<u8>, Vec<u8>), HandshakeError>)
    requires
        body@.len() > 0,
    ensures
        match parse_body(body@) {
            Ok(MsgValue::Hello(server_key)) => match r {
                Ok((ciphertext, key)) => exists|secret: Seq<u8>|
                    ml_kem_carries(server_key, ciphertext@, secret) && #[trigger] sskdf_sha256(
                        secret,
                        kdf_info(),
                        AES_256_KEY_LEN as nat,
                    ) == Some(key@),
                Err(e) => e == HandshakeError::KeyExchange,
            },
            Ok(_) => r == Err::<(Vec<u8>, Vec<u8>), HandshakeError>(HandshakeError::Protocol),
            Err(e) => r == Err::<(Vec<u8>, Vec<u8>), HandshakeError>(HandshakeError::Parse(e)),
        },
{
    let server_key = match ConMsg::from_bytes(body) {
        Ok(ConMsg::Hello(k)) => k,
        Ok(_) => {
            return Err(HandshakeError::Protocol);
        },
        Err(e) => {
            return Err(HandshakeError::Parse(e));
        },
    };
    let (ciphertext, secret) = match ml_kem_encapsulate(server_key.as_slice()) {
        Some(p) => p,
        None => {
            return Err(HandshakeError::KeyExchange);
        },
    };
    match session_key(secret.as_slice()) {
        Ok(k) => {
            assert(sskdf_sha256(secret@, kdf_info(), AES_256_KEY_LEN as nat) == Some(k@));
            Ok((ciphertext, k))
        },
        Err(e) => Err(e),
    }
}

/// Both ends reach the same secret: a ciphertext that carries a secret for
/// an encapsulation key decapsulates to that secret with the decapsulation
/// key it came from. So the key `send_key` derives from the server's
/// `Encapsulation` is the key the server derives from the secret it
/// encapsulated, and likewise for the key `answer_server_key` returns.
pub proof fn lemma_peers_share_secret(
    decap: Seq<u8>,
    encap: Seq<u8>,
    ciphertext: Seq<u8>,
    secret: Seq<u8>,
)
    requires
        ml_kem_encapsulation_key(decap) == Some(encap),
        ml_kem_carries(encap, ciphertext, secret),
    ensures
        ml_kem_decapsulate(decap, ciphertext) == Some(secret),
{
}

} // verus!
