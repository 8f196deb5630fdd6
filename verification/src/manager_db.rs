//! Keys of the Manager RocksDB archive.

use vstd::prelude::*;

use crate::codec::{
    be4, be8, be_bytes_u32, be_value, bytes_lt, lemma_be_value_twelve,
    lemma_bytes_lt_is_value_order, read_be_u32, read_be_u64, signed64, to_signed64, to_unsigned64,
    unsigned64,
};

verus! {

/// Column family that always exists.
pub const DEFAULT_CF: &'static str = "default";

/// Column family of archived position updates.
pub const POSITION_UPDATES_CF: &'static str = "position_updates";

/// Big-endian timestamp key.
pub fn encode_ts_key(ts_us: i64) -> (r: [u8; 8])
    ensures
        r@.len() == 8,
        be8(r@, 0) == unsigned64(ts_us as int),
{
    let u = to_unsigned64(ts_us);
    let hi = be_bytes_u32((u / 0x1_0000_0000) as u32);
    let lo = be_bytes_u32((u % 0x1_0000_0000) as u32);
    [hi[0], hi[1], hi[2], hi[3], lo[0], lo[1], lo[2], lo[3]]
}

/// Why a sequence key cannot be built.
#[derive(Debug, Clone, Copy, PartialEq, Eq)]
pub enum SeqKeyError {
    /// The receive timestamp is zero or negative.
    NonPositiveTimestamp,
}

/// Operator-facing text of a sequence key that cannot be built.
pub open spec fn seq_key_error_text(e: SeqKeyError) -> Seq<char> {
    match e {
        SeqKeyError::NonPositiveTimestamp => "Manager RocksDB sequence key timestamp must be positive"@,
    }
}

impl SeqKeyError {
    /// Operator-facing text of the error.
    pub fn message(&self) -> (r: &'static str)
        ensures
            r@ == seq_key_error_text(*self),
    {
        match self {
            SeqKeyError::NonPositiveTimestamp => "Manager RocksDB sequence key timestamp must be positive",
        }
    }
}

/// `key` is the twelve-byte archive key of `(received_at_us, seq)`: the
/// timestamp big-endian, then the sequence number big-endian.
pub open spec fn is_seq_key_of(key: Seq<u8>, received_at_us: int, seq: int) -> bool {
    &&& key.len() == 12
    &&& be8(key, 0) == received_at_us
    &&& be4(key, 8) == seq
}

/// What `decode_seq_key` reads from a byte string.
pub open spec fn spec_decode_seq_key(bytes: Seq<u8>) -> Option<(i64, u32)> {
    if bytes.len() == 12 {
        Some((signed64(be8(bytes, 0)) as i64, be4(bytes, 8) as u32))
    } else {
        None
    }
}

/// Archive key of one position update; keys of one microsecond differ by `seq`.
pub fn encode_seq_key(received_at_us: i64, seq: u32) -> (r: Result<[u8; 12], SeqKeyError>)
    ensures
        r is Ok <==> received_at_us > 0,
        r matches Ok(key) ==> is_seq_key_of(key@, received_at_us as int, seq as int),
        r matches Err(e) ==> e == SeqKeyError::NonPositiveTimestamp,
{
    if received_at_us <= 0 {
        return Err(SeqKeyError::NonPositiveTimestamp);
    }
    let t = encode_ts_key(received_at_us);
    let q = be_bytes_u32(seq);
    let key = [t[0], t[1], t[2], t[3], t[4], t[5], t[6], t[7], q[0], q[1], q[2], q[3]];
    assert(be8(key@, 0) == be8(t@, 0));
    assert(be4(key@, 8) == be4(q@, 0));
    Ok(key)
}

/// Reads a twelve-byte archive key back into its timestamp and sequence number.
pub fn decode_seq_key(bytes: &[u8]) -> (r: Option<(i64, u32)>)
    ensures
        r == spec_decode_seq_key(bytes@),
{
    if bytes.len() != 12 {
        return None;
    }
    let t = to_signed64(read_be_u64(bytes, 0));
    let s = read_be_u32(bytes, 8);
    Some((t, s))
}

/// Decoding an archive key gives back the timestamp and sequence number it was
/// built from.
pub proof fn lemma_seq_key_roundtrip(key: Seq<u8>, received_at_us: i64, seq: u32)
    requires
        received_at_us > 0,
        is_seq_key_of(key, received_at_us as int, seq as int),
    ensures
        spec_decode_seq_key(key) == Some((received_at_us, seq)),
{
}

/// Archive keys sort bytewise exactly as `(received_at_us, seq)` pairs sort,
/// so updates of one microsecond stay in sequence order.
pub proof fn lemma_seq_key_order(
    k1: Seq<u8>,
    t1: i64,
    s1: u32,
    k2: Seq<u8>,
    t2: i64,
    s2: u32,
)
    requires
        t1 > 0,
        t2 > 0,
        is_seq_key_of(k1, t1 as int, s1 as int),
        is_seq_key_of(k2, t2 as int, s2 as int),
    ensures
        bytes_lt(k1, k2) <==> (t1 < t2 || (t1 == t2 && s1 < s2)),
{
    lemma_be_value_twelve(k1);
    lemma_be_value_twelve(k2);
    lemma_bytes_lt_is_value_order(k1, k2);
    assert(be_value(k1) == 0x1_0000_0000 * t1 + s1);
    assert(be_value(k2) == 0x1_0000_0000 * t2 + s2);
}

} // verus!
