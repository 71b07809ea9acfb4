//! CBOR encoding of challenge timestamps, done by `ciborium` in the layout
//! that `time` gives an `OffsetDateTime`.
use vstd::prelude::*;

verus! {

/// A point in time with its UTC offset, held as the components that the
/// CBOR encoding of a `time::OffsetDateTime` carries, in that order.
#[derive(Clone, Copy, Debug, PartialEq, Eq, Structural)]
pub struct Timestamp {
    pub year: i32,
    pub ordinal: u16,
    pub hour: u8,
    pub minute: u8,
    pub second: u8,
    pub nanosecond: u32,
    pub offset_hours: i8,
    pub offset_minutes: i8,
    pub offset_seconds: i8,
}

/// What `ciborium::from_reader::<time::OffsetDateTime, _>` reads from the
/// bytes, taken apart into its components (`None` when it fails).
pub uninterp spec fn cbor_timestamp(bytes: Seq<u8>) -> Option<Timestamp>;

/// The last `n` bytes of `v`, big-endian.
pub open spec fn be_bytes(v: nat, n: nat) -> Seq<u8>
    decreases n,
{
    if n == 0 {
        Seq::empty()
    } else {
        be_bytes(v / 0x100, (n - 1) as nat).push((v % 0x100) as u8)
    }
}

/// A CBOR head of the major type with the argument in its shortest form:
/// the argument inside the first byte below 24, else after it in 1, 2, 4 or
/// 8 bytes.
pub open spec fn cbor_head(major: u8, v: nat) -> Seq<u8> {
    let m = major * 32;
    if v <= 23 {
        seq![(m + v) as u8]
    } else if v <= 0xff {
        seq![(m + 24) as u8] + be_bytes(v, 1)
    } else if v <= 0xffff {
        seq![(m + 25) as u8] + be_bytes(v, 2)
    } else if v <= 0xffff_ffff {
        seq![(m + 26) as u8] + be_bytes(v, 4)
    } else {
        seq![(m + 27) as u8] + be_bytes(v, 8)
    }
}

/// A CBOR integer: major type 0 with the value, or, below zero, major type 1
/// with `-1 - i`.
pub open spec fn cbor_int(i: int) -> Seq<u8> {
    if i >= 0 {
        cbor_head(0, i as nat)
    } else {
        cbor_head(1, (-1 - i) as nat)
    }
}

/// The bytes that `ciborium::into_writer` writes for the components of the
/// timestamp as a tuple: the head of an array of nine, then each component
/// as an integer.
pub open spec fn cbor_timestamp_bytes(t: Timestamp) -> Seq<u8> {
    cbor_head(4, 9) + cbor_int(t.year as int) + cbor_int(t.ordinal as int) + cbor_int(t.hour as int)
        + cbor_int(t.minute as int) + cbor_int(t.second as int) + cbor_int(t.nanosecond as int)
        + cbor_int(t.offset_hours as int) + cbor_int(t.offset_minutes as int) + cbor_int(
        t.offset_seconds as int,
    )
}

/// The CBOR bytes of the timestamp decode back to it: it is the timestamp of
/// a valid `time::OffsetDateTime`.
pub open spec fn timestamp_round_trips(t: Timestamp) -> bool {
    cbor_timestamp(cbor_timestamp_bytes(t)) == Some(t)
}

/// The most bytes that the CBOR encoding of a timestamp takes: the array
/// head, five bytes for the year and for the nanosecond, three for the day
/// of the year, and two for each other component.
pub const MAX_TIMESTAMP_BYTES: usize = 26;

proof fn lemma_be_bytes_len(v: nat, n: nat)
    ensures
        be_bytes(v, n).len() == n,
    decreases n,
{
    if n > 0 {
        lemma_be_bytes_len(v / 0x100, (n - 1) as nat);
    }
}

proof fn lemma_cbor_int_len(i: int, bound: nat, len: nat)
    requires
        -bound <= i < bound,
        bound == 0x100 && len == 2 || bound == 0x1_0000 && len == 3 || bound == 0x1_0000_0000
            && len == 5,
    ensures
        cbor_int(i).len() <= len,
{
    lemma_be_bytes_len(if i >= 0 { i as nat } else { (-1 - i) as nat }, 1);
    lemma_be_bytes_len(if i >= 0 { i as nat } else { (-1 - i) as nat }, 2);
    lemma_be_bytes_len(if i >= 0 { i as nat } else { (-1 - i) as nat }, 4);
}

/// The CBOR encoding of a timestamp takes at most `MAX_TIMESTAMP_BYTES`.
pub proof fn lemma_timestamp_bytes_len(t: Timestamp)
    ensures
        cbor_timestamp_bytes(t).len() <= MAX_TIMESTAMP_BYTES,
{
    lemma_cbor_int_len(t.year as int, 0x1_0000_0000, 5);
    lemma_cbor_int_len(t.ordinal as int, 0x1_0000, 3);
    lemma_cbor_int_len(t.hour as int, 0x100, 2);
    lemma_cbor_int_len(t.minute as int, 0x100, 2);
    lemma_cbor_int_len(t.second as int, 0x100, 2);
    lemma_cbor_int_len(t.nanosecond as int, 0x1_0000_0000, 5);
    lemma_cbor_int_len(t.offset_hours as int, 0x100, 2);
    lemma_cbor_int_len(t.offset_minutes as int, 0x100, 2);
    lemma_cbor_int_len(t.offset_seconds as int, 0x100, 2);
}

/// Calls `ciborium::into_writer` on the nine components as a tuple, which is
/// how `time` serialises an `OffsetDateTime` to a format that is not human
/// readable (CBOR is not). Writing into a `Vec` cannot fail. The contract
/// claims the bytes `ciborium` writes: the head of an array of nine, then
/// each integer as one head in its shortest form.
#[verifier::external_body]
pub(crate) fn encode_timestamp(t: &Timestamp) -> (out: Vec<u8>)
    ensures
        out@ == cbor_timestamp_bytes(*t),
{
    let mut out = Vec::new();
    let parts = (t.year, t.ordinal, t.hour, t.minute, t.second, t.nanosecond,
        t.offset_hours, t.offset_minutes, t.offset_seconds);
    let _ = ciborium::into_writer(&parts, &mut out);
    out
}

/// Calls `ciborium::from_reader` to read a `time::OffsetDateTime` from the
/// bytes and takes it apart. The contract claims that the result is a
/// function of the bytes, and that a decoded timestamp is decoded back from
/// its own encoding: `time` serialises an `OffsetDateTime` as these nine
/// components and rebuilds the same value from them.
#[verifier::external_body]
pub(crate) fn decode_timestamp(bytes: &[u8]) -> (r: Option<Timestamp>)
    ensures
        r == cbor_timestamp(bytes@),
        r matches Some(t) ==> timestamp_round_trips(t),
{
    match ciborium::from_reader::<time::OffsetDateTime, &[u8]>(bytes) {
        Ok(t) => Some(Timestamp {
            year: t.year(), ordinal: t.ordinal(), hour: t.hour(), minute: t.minute(),
            second: t.second(), nanosecond: t.nanosecond(),
            offset_hours: t.offset().whole_hours(),
            offset_minutes: t.offset().minutes_past_hour(),
            offset_seconds: t.offset().seconds_past_minute(),
        }),
        Err(_) => None,
    }
}

/// Calls `time::OffsetDateTime::now_utc` and takes the result apart. The
/// result depends on the clock; the contract claims only that, being a valid
/// `OffsetDateTime`, it is decoded back from its own encoding.
#[verifier::external_body]
pub(crate) fn now_timestamp() -> (t: Timestamp)
    ensures
        timestamp_round_trips(t),
{
    let t = time::OffsetDateTime::now_utc();
    Timestamp {
        year: t.year(), ordinal: t.ordinal(), hour: t.hour(), minute: t.minute(),
        second: t.second(), nanosecond: t.nanosecond(),
        offset_hours: t.offset().whole_hours(),
        offset_minutes: t.offset().minutes_past_hour(),
        offset_seconds: t.offset().seconds_past_minute(),
    }
}

} // verus!
