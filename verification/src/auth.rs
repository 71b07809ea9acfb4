//! The authentication handshake: the server receives the client's public
//! key, challenges the client to sign a fresh nonce, and checks the answer.
//!
//! Each step here is the decision between two transfers; the transfers
//! themselves (reading a frame, writing one) are the caller's.
use vstd::prelude::*;
use vstd::string::StringSliceAdditionalSpecFns;
use crate::cbor::{Timestamp, now_timestamp, timestamp_round_trips};
use crate::crypto::{
    PqKeyAlgorithm, mldsa_generate, mldsa_public_key, mldsa_public_key_bytes, mldsa_sign, mldsa_verifies,
    mldsa_verify, random_bytes, signature_len,
};
use crate::msg::{
    ConMsg, MsgError, MsgValue, be32_value, body_of, copy_range, frame_of, reads_back,
    lemma_parse_body_of, parse_body, read_be32, LEN_WIDTH,
};

verus! {

/// Length of the nonce of a challenge.
pub const NONCE_LEN: usize = 12;

/// The length that a frame's 4-byte header announces for its body.
pub fn frame_body_len(header: &[u8]) -> (n: usize)
    requires
        header@.len() == LEN_WIDTH,
    ensures
        n as nat == be32_value(header@),
{
    let n = read_be32(header, 0);
    assert(header@.subrange(0, 4) =~= header@);
    n as usize
}

/// Whether two byte strings are equal.
pub fn bytes_eq(a: &[u8], b: &[u8]) -> (r: bool)
    ensures
        r == (a@ == b@),
{
    if a.len() != b.len() {
        return false;
    }
    let mut i: usize = 0;
    while i < a.len()
        invariant
            i <= a@.len() == b@.len(),
            forall|j: int| 0 <= j < i ==> a@[j] == b@[j],
        decreases a@.len() - i,
    {
        if a[i] != b[i] {
            return false;
        }
        i = i + 1;
    }
    assert(a@ =~= b@);
    true
}

// ---------------------------------------------------------------------------
// Receiving the client's key
// ---------------------------------------------------------------------------

/// Why a first message gives no key.
#[derive(Clone, Copy, PartialEq, Eq, Debug, Structural)]
pub enum KeyError {
    /// The body is not a message.
    Parse(MsgError),
    /// The message is not a `Hello`; the server answers with `bad_opener_reply`.
    NotHello,
}

/// The text of the error that answers a first message that is not a `Hello`.
pub open spec fn bad_opener_text() -> Seq<u8> {
    "Bad handshake opener".spec_bytes()
}

/// The frame that answers a first message that is not a `Hello`.
pub fn bad_opener_reply() -> (out: Vec<u8>)
    ensures
        out@ == frame_of(MsgValue::Error(bad_opener_text())),
{
    let text = "Bad handshake opener".as_bytes();
    ConMsg::Error(copy_range(text, 0, text.len())).to_bytes()
}

/// The key that a client's first message carries: the payload of a `Hello`.
pub fn accept_key(body: &[u8]) -> (r: Result<Vec<u8>, KeyError>)
    requires
        body@.len() > 0,
    ensures
        match parse_body(body@) {
            Ok(MsgValue::Hello(k)) => r matches Ok(key) && key@ == k,
            Ok(_) => r == Err::<Vec<u8>, KeyError>(KeyError::NotHello),
            Err(e) => r == Err::<Vec<u8>, KeyError>(KeyError::Parse(e)),
        },
{
    match ConMsg::from_bytes(body) {
        Ok(ConMsg::Hello(key)) => Ok(key),
        Ok(_) => Err(KeyError::NotHello),
        Err(e) => Err(KeyError::Parse(e)),
    }
}

// ---------------------------------------------------------------------------
// Challenging the client
// ---------------------------------------------------------------------------

/// Why a challenge fails.
#[derive(Clone, Copy, PartialEq, Eq, Debug, Structural)]
pub enum ChallengeError {
    /// No random nonce could be drawn.
    Random,
    /// The answer is not a message.
    Parse(MsgError),
    /// The answer is not a challenge; the server answers with
    /// `malformed_signature_reply`.
    NotAChallenge,
    /// The answer signs another nonce.
    NonceMismatch,
    /// The signature does not verify under the client's key.
    BadSignature,
}

/// The text of the error that answers an answer that is not a challenge.
pub open spec fn malformed_signature_text() -> Seq<u8> {
    "Malformed signature message".spec_bytes()
}

/// The frame that answers an answer that is not a challenge.
pub fn malformed_signature_reply() -> (out: Vec<u8>)
    ensures
        out@ == frame_of(MsgValue::Error(malformed_signature_text())),
{
    let text = "Malformed signature message".as_bytes();
    ConMsg::Error(copy_range(text, 0, text.len())).to_bytes()
}

/// The verdict on an answer to a challenge of `nonce`, for the public key
/// `key`: it must be a challenge that carries the same nonce and a signature
/// of that nonce under the key.
pub open spec fn response_verdict(
    nonce: Seq<u8>,
    key: Seq<u8>,
    alg: PqKeyAlgorithm,
    body: Seq<u8>,
) -> Result<(), ChallengeError> {
    match parse_body(body) {
        Err(e) => Err(ChallengeError::Parse(e)),
        Ok(MsgValue::Challenge { nonce: n, signature, .. }) => {
            if n != nonce {
                Err(ChallengeError::NonceMismatch)
            } else if !mldsa_verifies(alg, key, n, signature) {
                Err(ChallengeError::BadSignature)
            } else {
                Ok(())
            }
        },
        Ok(_) => Err(ChallengeError::NotAChallenge),
    }
}

/// The server's side of a challenge of key ownership: the nonce it sent and
/// the key the client claims.
pub struct Challenger {
    nonce: Vec<u8>,
    timestamp: Timestamp,
    pub_key: Vec<u8>,
    alg: PqKeyAlgorithm,
}

impl Challenger {
    pub closed spec fn nonce(&self) -> Seq<u8> {
        self.nonce@
    }

    pub closed spec fn timestamp(&self) -> Timestamp {
        self.timestamp
    }

    pub closed spec fn pub_key(&self) -> Seq<u8> {
        self.pub_key@
    }

    pub closed spec fn alg(&self) -> PqKeyAlgorithm {
        self.alg
    }

    /// The challenge that the server sends: the nonce, the time, and a
    /// one-byte placeholder signature.
    pub open spec fn challenge_msg(&self) -> MsgValue {
        MsgValue::Challenge { nonce: self.nonce(), timestamp: self.timestamp(), signature: seq![0u8] }
    }

    /// The challenger for a given nonce and time, with the frame of the
    /// challenge to send.
    pub fn with_nonce(pub_key: &[u8], alg: PqKeyAlgorithm, nonce: Vec<u8>, timestamp: Timestamp) -> (r: (
        Challenger,
        Vec<u8>,
    ))
        ensures
            r.0.nonce() == nonce@,
            r.0.timestamp() == timestamp,
            r.0.pub_key() == pub_key@,
            r.0.alg() == alg,
            r.1@ == frame_of(r.0.challenge_msg()),
            r.1@ == frame_of(MsgValue::Challenge { nonce: nonce@, timestamp, signature: seq![0u8] }),
    {
        let nonce_copy = copy_range(nonce.as_slice(), 0, nonce.len());
        assert(nonce_copy@ =~= nonce@);
        let c = Challenger { nonce, timestamp, pub_key: copy_range(pub_key, 0, pub_key.len()), alg };
        assert(c.pub_key@ =~= pub_key@);
        let mut placeholder: Vec<u8> = Vec::new();
        placeholder.push(0u8);
        assert(placeholder@ =~= seq![0u8]);
        let msg = ConMsg::Challenge { nonce: nonce_copy, timestamp, signature: placeholder };
        assert(msg@ == c.challenge_msg());
        let frame = msg.to_bytes();
        (c, frame)
    }

    /// Draws a fresh nonce and stamps the time, returning the challenger and
    /// the frame of the challenge to send.
    pub fn new(pub_key: &[u8], alg: PqKeyAlgorithm) -> (r: Result<(Challenger, Vec<u8>), ChallengeError>)
        ensures
            r matches Ok((c, frame)) ==> {
                &&& c.nonce().len() == NONCE_LEN
                &&& c.pub_key() == pub_key@
                &&& c.alg() == alg
                &&& timestamp_round_trips(c.timestamp())
                &&& frame@ == frame_of(c.challenge_msg())
                &&& frame@ == frame_of(
                    MsgValue::Challenge { nonce: c.nonce(), timestamp: c.timestamp(), signature: seq![0u8] },
                )
            },
            r matches Err(e) ==> e == ChallengeError::Random,
    {
        let nonce = match random_bytes(NONCE_LEN) {
            Some(n) => n,
            None => {
                return Err(ChallengeError::Random);
            },
        };
        let timestamp = now_timestamp();
        Ok(Challenger::with_nonce(pub_key, alg, nonce, timestamp))
    }

    /// The verdict on the client's answer.
    pub fn check_response(&self, body: &[u8]) -> (r: Result<(), ChallengeError>)
        requires
            body@.len() > 0,
        ensures
            r == response_verdict(self.nonce(), self.pub_key(), self.alg(), body@),
    {
        match ConMsg::from_bytes(body) {
            Err(e) => Err(ChallengeError::Parse(e)),
            Ok(ConMsg::Challenge { nonce, signature, .. }) => {
                if !bytes_eq(nonce.as_slice(), self.nonce.as_slice()) {
                    Err(ChallengeError::NonceMismatch)
                } else if !mldsa_verify(
                    self.alg,
                    self.pub_key.as_slice(),
                    nonce.as_slice(),
                    signature.as_slice(),
                ) {
                    Err(ChallengeError::BadSignature)
                } else {
                    Ok(())
                }
            },
            Ok(_) => Err(ChallengeError::NotAChallenge),
        }
    }
}

// ---------------------------------------------------------------------------
// Answering a challenge
// ---------------------------------------------------------------------------

/// An ML-DSA key pair, held as its PKCS#8 document, with its parameter set.
pub struct SigningKey {
    alg: PqKeyAlgorithm,
    pkcs8: Vec<u8>,
}

impl SigningKey {
    pub closed spec fn alg(&self) -> PqKeyAlgorithm {
        self.alg
    }

    pub closed spec fn pkcs8(&self) -> Seq<u8> {
        self.pkcs8@
    }

    /// The key pair that a PKCS#8 document holds.
    pub fn from_pkcs8(alg: PqKeyAlgorithm, pkcs8: Vec<u8>) -> (k: SigningKey)
        ensures
            k.alg() == alg,
            k.pkcs8() == pkcs8@,
    {
        SigningKey { alg, pkcs8 }
    }

    /// A fresh key pair of the parameter set, with its raw public key.
    pub fn generate(alg: PqKeyAlgorithm) -> (r: Option<(SigningKey, Vec<u8>)>)
        ensures
            r matches Some((k, pk)) ==> k.alg() == alg && mldsa_public_key(alg, k.pkcs8()) == Some(
                pk@,
            ),
    {
        match mldsa_generate(alg) {
            Some((pkcs8, pk)) => Some((SigningKey { alg, pkcs8 }, pk)),
            None => None,
        }
    }

    /// The PKCS#8 document of the key pair.
    pub fn pkcs8_bytes(&self) -> (out: Vec<u8>)
        ensures
            out@ == self.pkcs8(),
    {
        copy_range(self.pkcs8.as_slice(), 0, self.pkcs8.len())
    }

    /// The raw public key of the key pair, or `None` where the document is
    /// not a key pair of the parameter set.
    pub fn public_key(&self) -> (r: Option<Vec<u8>>)
        ensures
            r matches Some(k) ==> mldsa_public_key(self.alg(), self.pkcs8()) == Some(k@),
            r is None ==> mldsa_public_key(self.alg(), self.pkcs8()) is None,
    {
        mldsa_public_key_bytes(self.alg, self.pkcs8.as_slice())
    }
}

/// Why a client cannot answer a challenge.
#[derive(Clone, Copy, PartialEq, Eq, Debug, Structural)]
pub enum ProveError {
    /// The server's message is not a message.
    Parse(MsgError),
    /// The server's message is not a challenge.
    NotAChallenge,
    /// The key could not sign.
    Signing,
}

/// The nonce and time of the server's challenge.
pub fn read_challenge(body: &[u8]) -> (r: Result<(Vec<u8>, Timestamp), ProveError>)
    requires
        body@.len() > 0,
    ensures
        match parse_body(body@) {
            Err(e) => r == Err::<(Vec<u8>, Timestamp), ProveError>(ProveError::Parse(e)),
            Ok(MsgValue::Challenge { nonce, timestamp, .. }) => r matches Ok((n, t)) && n@
                == nonce && t == timestamp,
            Ok(_) => r == Err::<(Vec<u8>, Timestamp), ProveError>(ProveError::NotAChallenge),
        },
{
    match ConMsg::from_bytes(body) {
        Err(e) => Err(ProveError::Parse(e)),
        Ok(ConMsg::Challenge { nonce, timestamp, .. }) => Ok((nonce, timestamp)),
        Ok(_) => Err(ProveError::NotAChallenge),
    }
}

/// The client's answer to a challenge: the same nonce and time, with a
/// signature of the nonce by the key.
pub fn prove_response(body: &[u8], key: &SigningKey) -> (r: Result<ConMsg, ProveError>)
    requires
        body@.len() > 0,
    ensures
        match parse_body(body@) {
            Err(e) => r matches Err(e2) && e2 == ProveError::Parse(e),
            Ok(MsgValue::Challenge { nonce, timestamp, .. }) => match r {
                Ok(m) => {
                    &&& m@ matches MsgValue::Challenge { nonce: n, timestamp: t, signature }
                    &&& n == nonce
                    &&& t == timestamp
                    &&& signature.len() == signature_len(key.alg())
                    &&& mldsa_public_key(key.alg(), key.pkcs8()) matches Some(pk)
                    &&& mldsa_verifies(key.alg(), pk, nonce, signature)
                },
                Err(e) => e == ProveError::Signing,
            },
            Ok(_) => r matches Err(e) && e == ProveError::NotAChallenge,
        },
        mldsa_public_key(key.alg(), key.pkcs8()) is None ==> r is Err,
{
    let (nonce, timestamp) = match read_challenge(body) {
        Ok(c) => c,
        Err(e) => {
            return Err(e);
        },
    };
    match mldsa_sign(key.alg, key.pkcs8.as_slice(), nonce.as_slice()) {
        Some(signature) => Ok(ConMsg::Challenge { nonce, timestamp, signature }),
        None => Err(ProveError::Signing),
    }
}

// ---------------------------------------------------------------------------
// Laws
// ---------------------------------------------------------------------------

/// A challenger's challenge carries its own nonce and its own time, with a
/// one-byte placeholder signature.
pub proof fn lemma_challenge_carries_own_nonce_and_time(c: Challenger)
    ensures
        c.challenge_msg() == (MsgValue::Challenge {
            nonce: c.nonce(),
            timestamp: c.timestamp(),
            signature: seq![0u8],
        }),
{
}

/// A client's `Hello` carrying a key gives the server that key.
pub proof fn lemma_hello_gives_key(key: Seq<u8>)
    ensures
        parse_body(body_of(MsgValue::Hello(key))) == Ok::<MsgValue, MsgError>(MsgValue::Hello(key)),
{
    lemma_parse_body_of(MsgValue::Hello(key));
}

/// The challenge that the server sends reaches the client as sent: the
/// client reads the same nonce and time.
pub proof fn lemma_challenge_reaches_client(nonce: Seq<u8>, timestamp: Timestamp)
    requires
        nonce.len() < 0x1_0000_0000,
        timestamp_round_trips(timestamp),
    ensures
        parse_body(body_of(MsgValue::Challenge { nonce, timestamp, signature: seq![0u8] }))
            == Ok::<MsgValue, MsgError>(
            MsgValue::Challenge { nonce, timestamp, signature: seq![0u8] },
        ),
{
    lemma_parse_body_of(MsgValue::Challenge { nonce, timestamp, signature: seq![0u8] });
}

/// An honest answer is accepted: a challenge message that carries the
/// server's nonce and a signature of it under the claimed key passes the
/// check, whatever its time.
pub proof fn lemma_honest_answer_accepted(
    nonce: Seq<u8>,
    timestamp: Timestamp,
    signature: Seq<u8>,
    key: Seq<u8>,
    alg: PqKeyAlgorithm,
)
    requires
        mldsa_verifies(alg, key, nonce, signature),
        reads_back(MsgValue::Challenge { nonce, timestamp, signature }),
    ensures
        response_verdict(nonce, key, alg, body_of(MsgValue::Challenge { nonce, timestamp, signature }))
            == Ok::<(), ChallengeError>(()),
{
    lemma_parse_body_of(MsgValue::Challenge { nonce, timestamp, signature });
}

/// An honest prover is accepted. The challenge that `Challenger::new` sends
/// (a nonce of `NONCE_LEN` bytes and a valid time) reaches the client as
/// sent, and the answer that `prove_response` makes from it with the key
/// pair whose public key the server was given passes `check_response`.
pub proof fn lemma_honest_prover_accepted(
    nonce: Seq<u8>,
    timestamp: Timestamp,
    signature: Seq<u8>,
    alg: PqKeyAlgorithm,
    pkcs8: Seq<u8>,
    key: Seq<u8>,
)
    requires
        nonce.len() == NONCE_LEN,
        timestamp_round_trips(timestamp),
        mldsa_public_key(alg, pkcs8) == Some(key),
        signature.len() == signature_len(alg),
        mldsa_verifies(alg, key, nonce, signature),
    ensures
        parse_body(body_of(MsgValue::Challenge { nonce, timestamp, signature: seq![0u8] }))
            == Ok::<MsgValue, MsgError>(
            MsgValue::Challenge { nonce, timestamp, signature: seq![0u8] },
        ),
        response_verdict(nonce, key, alg, body_of(MsgValue::Challenge { nonce, timestamp, signature }))
            == Ok::<(), ChallengeError>(()),
{
    let sent = MsgValue::Challenge { nonce, timestamp, signature: seq![0u8] };
    let answer = MsgValue::Challenge { nonce, timestamp, signature };
    lemma_parse_body_of(sent);
    lemma_parse_body_of(answer);
}

/// An answer that signs any other nonce is refused.
pub proof fn lemma_other_nonce_refused(
    nonce: Seq<u8>,
    other: Seq<u8>,
    timestamp: Timestamp,
    signature: Seq<u8>,
    key: Seq<u8>,
    alg: PqKeyAlgorithm,
)
    requires
        other != nonce,
        reads_back(MsgValue::Challenge { nonce: other, timestamp, signature }),
    ensures
        response_verdict(
            nonce,
            key,
            alg,
            body_of(MsgValue::Challenge { nonce: other, timestamp, signature }),
        ) == Err::<(), ChallengeError>(ChallengeError::NonceMismatch),
{
    lemma_parse_body_of(MsgValue::Challenge { nonce: other, timestamp, signature });
}

} // verus!
