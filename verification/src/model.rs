//! Binary records of the Exec persist_manager archive: uniform orders,
//! trade updates and order updates, keyed by 20-digit timestamps.

use vstd::prelude::*;
use vstd::utf8::{decode_utf8, valid_utf8};

use crate::codec::{le2, le4, le8, read_le_u16, read_le_u32, read_le_u64, signed64, to_signed64};
use crate::text::{concat2, concat3, debug_quoted, debug_string, decimal, decimal_string, slice_range};

verus! {

/// Column family of uniform order records.
pub const UNIFORM_ORDERS_CF: &'static str = "uniform_orders";

/// Column family of trade updates.
pub const TRADE_UPDATES_CF: &'static str = "trade_updates";

/// Column family of trade updates that matched no order.
pub const TRADE_UPDATES_UNMATCHED_CF: &'static str = "trade_updates_unmatched";

/// Column family of order updates.
pub const ORDER_UPDATES_CF: &'static str = "order_updates";

/// Column family of order updates that matched no order.
pub const ORDER_UPDATES_UNMATCHED_CF: &'static str = "order_updates_unmatched";

/// Width of one signal BBO leg.
pub const SIGNAL_BBO_LEG_BINARY_LEN: usize = 41;

/// Width of the signal BBO tail: a presence mask and two legs.
pub const SIGNAL_BBO_BINARY_LEN: usize = 83;

/// Which record a key or payload belongs to.
#[derive(Debug, Clone, Copy, PartialEq, Eq, Structural)]
pub enum RecordKind {
    UniformOrder,
    TradeUpdate,
    OrderUpdate,
}

impl RecordKind {
    /// Name of the record kind in messages.
    pub fn label(&self) -> (r: &'static str)
        ensures
            r@ == record_kind_label(*self),
    {
        match self {
            RecordKind::UniformOrder => "uniform order",
            RecordKind::TradeUpdate => "trade update",
            RecordKind::OrderUpdate => "order update",
        }
    }
}

/// Name of a record kind in messages.
pub open spec fn record_kind_label(k: RecordKind) -> Seq<char> {
    match k {
        RecordKind::UniformOrder => "uniform order"@,
        RecordKind::TradeUpdate => "trade update"@,
        RecordKind::OrderUpdate => "order update"@,
    }
}

/// Why a record could not be decoded.
#[derive(Debug, Clone, Copy, PartialEq, Eq)]
pub enum ModelError {
    /// The key bytes are not UTF-8.
    KeyNotUtf8 { kind: RecordKind },
    /// The key is not twenty ASCII digits.
    KeyNotTimestamp { kind: RecordKind },
    /// The key's value does not fit an `i64`.
    KeyExceedsI64 { kind: RecordKind },
    /// A length added to the read position overflows.
    LengthOverflow { field: &'static str },
    /// The payload ends inside a field.
    TooShort { field: &'static str, need: usize, have: usize },
    /// An optional-field flag is neither 0 nor 1.
    InvalidPresentFlag { field: &'static str, value: u8 },
    /// The signal BBO mask sets bits other than the two leg bits.
    InvalidSignalMask { mask: u8 },
    /// A signal BBO leg is not 41 bytes long.
    InvalidLegLength { length: usize },
    /// The uniform order tail after the BBO spread is neither empty nor 83 bytes.
    SignalBboLength { remaining: usize },
    /// Bytes are left after the last field.
    TrailingBytes { kind: RecordKind, remaining: usize },
    /// The trade update status-present flag is neither 0 nor 1.
    InvalidStatusFlag { value: u8 },
}

impl ModelError {
    /// Operator-facing text of the error.
    pub fn message(&self) -> (r: String)
        ensures
            r@ == model_error_text(*self),
    {
        match self {
            ModelError::KeyNotUtf8 { kind } => concat2(kind.label(), " key is not UTF-8"),
            ModelError::KeyNotTimestamp { kind } => concat2(kind.label(), " key is not a 20-digit timestamp"),
            ModelError::KeyExceedsI64 { kind } => concat2(kind.label(), " key exceeds i64"),
            ModelError::LengthOverflow { field } => concat2(field, " length overflow"),
            ModelError::TooShort { field, need, have } => {
                let mut out = concat3("payload too short for ", field, ": need ");
                out.append(decimal_string(*need as u64).as_str());
                out.append(", have ");
                out.append(decimal_string(*have as u64).as_str());
                out
            },
            ModelError::InvalidPresentFlag { field, value } => {
                let v = decimal_string(*value as u64);
                concat3(field, " has invalid present flag ", v.as_str())
            },
            ModelError::InvalidSignalMask { mask } => {
                let v = decimal_string(*mask as u64);
                concat2("invalid signal_bbo presence mask: ", v.as_str())
            },
            ModelError::InvalidLegLength { length } => {
                let v = decimal_string(*length as u64);
                concat2("invalid signal_bbo leg length: ", v.as_str())
            },
            ModelError::SignalBboLength { remaining } => {
                let v = decimal_string(*remaining as u64);
                concat2("uniform order signal_bbo must be 83 bytes, got ", v.as_str())
            },
            ModelError::InvalidStatusFlag { value } => {
                let v = decimal_string(*value as u64);
                concat2("trade update has invalid status-present flag ", v.as_str())
            },
            ModelError::TrailingBytes { kind, remaining } => {
                let v = decimal_string(*remaining as u64);
                let mut out = concat3(kind.label(), " payload has ", v.as_str());
                out.append(" trailing bytes");
                out
            },
        }
    }
}

/// Operator-facing text of the error a record under `key` gave: a key that
/// is no timestamp is quoted after the error's own text.
pub open spec fn model_error_text_at(e: ModelError, key: Seq<u8>) -> Seq<char> {
    match e {
        ModelError::KeyNotTimestamp { .. } => model_error_text(e) + ": "@ + debug_quoted(decode_utf8(key)),
        _ => model_error_text(e),
    }
}

impl ModelError {
    /// Operator-facing text of the error that the record under `key` gave.
    /// A key that is no timestamp decodes as UTF-8 before that check.
    pub fn message_at(&self, key: &[u8]) -> (r: String)
        requires
            *self is KeyNotTimestamp ==> valid_utf8(key@),
        ensures
            r@ == model_error_text_at(*self, key@),
    {
        let base = self.message();
        match self {
            ModelError::KeyNotTimestamp { .. } => {
                let text = match utf8_text(key) {
                    Some(t) => t,
                    None => String::new(),
                };
                let quoted = debug_string(text.as_str());
                let mut out = concat2(base.as_str(), ": ");
                out.append(quoted.as_str());
                proof {
                    reveal_strlit(": ");
                }
                out
            },
            _ => base,
        }
    }
}

/// Operator-facing text of a decoding error.
pub open spec fn model_error_text(e: ModelError) -> Seq<char> {
    match e {
        ModelError::KeyNotUtf8 { kind } => record_kind_label(kind) + " key is not UTF-8"@,
        ModelError::KeyNotTimestamp { kind } => record_kind_label(kind) + " key is not a 20-digit timestamp"@,
        ModelError::KeyExceedsI64 { kind } => record_kind_label(kind) + " key exceeds i64"@,
        ModelError::LengthOverflow { field } => field@ + " length overflow"@,
        ModelError::TooShort { field, need, have } => "payload too short for "@ + field@ + ": need "@ + decimal(
            need as nat,
        ) + ", have "@ + decimal(have as nat),
        ModelError::InvalidPresentFlag { field, value } => field@ + " has invalid present flag "@ + decimal(
            value as nat,
        ),
        ModelError::InvalidSignalMask { mask } => "invalid signal_bbo presence mask: "@ + decimal(mask as nat),
        ModelError::InvalidLegLength { length } => "invalid signal_bbo leg length: "@ + decimal(length as nat),
        ModelError::SignalBboLength { remaining } => "uniform order signal_bbo must be 83 bytes, got "@ + decimal(
            remaining as nat,
        ),
        ModelError::InvalidStatusFlag { value } => "trade update has invalid status-present flag "@ + decimal(
            value as nat,
        ),
        ModelError::TrailingBytes { kind, remaining } => record_kind_label(kind) + " payload has "@ + decimal(
            remaining as nat,
        ) + " trailing bytes"@,
    }
}

/// A record that could not be decoded, kept with its raw bytes.
#[derive(Debug, Clone)]
pub struct DecodeFailure {
    pub record_key: Vec<u8>,
    pub wire_payload: Vec<u8>,
    pub error: String,
}

/// Text that `String::from_utf8_lossy` makes of `bytes`: valid sequences
/// decoded, each maximal invalid subpart replaced by U+FFFD.
pub uninterp spec fn utf8_lossy(bytes: Seq<u8>) -> Seq<char>;

/// `String::from_utf8_lossy(bytes).into_owned()`. The result is named by
/// `utf8_lossy`; on valid UTF-8 it is the decoded text.
#[verifier::external_body]
fn lossy_text(bytes: &[u8]) -> (r: String)
    ensures
        r@ == utf8_lossy(bytes@),
        valid_utf8(bytes@) ==> r@ == decode_utf8(bytes@),
{
    String::from_utf8_lossy(bytes).into_owned()
}

/// `std::str::from_utf8(bytes)`, owned: `Some` exactly on valid UTF-8, with
/// the decoded text.
#[verifier::external_body]
pub(crate) fn utf8_text(bytes: &[u8]) -> (r: Option<String>)
    ensures
        r is Some <==> valid_utf8(bytes@),
        r matches Some(s) ==> s@ == decode_utf8(bytes@),
{
    std::str::from_utf8(bytes).ok().map(|s| s.to_string())
}

/// Sequential little-endian reader over one payload.
pub struct Decoder<'a> {
    input: &'a [u8],
    offset: usize,
}

impl<'a> Decoder<'a> {
    /// The payload being read.
    pub closed spec fn data(&self) -> Seq<u8> {
        self.input@
    }

    /// The read position.
    pub closed spec fn pos(&self) -> int {
        self.offset as int
    }

    /// The read position lies inside the payload.
    pub closed spec fn wf(&self) -> bool {
        self.offset <= self.input@.len()
    }

    /// A reader at the start of `input`.
    pub fn new(input: &'a [u8]) -> (d: Self)
        ensures
            d.wf(),
            d.data() == input@,
            d.pos() == 0,
    {
        Decoder { input, offset: 0 }
    }

    /// Bytes left after the read position.
    pub fn remaining(&self) -> (r: usize)
        requires
            self.wf(),
        ensures
            r == self.data().len() - self.pos(),
    {
        self.input.len() - self.offset
    }

    /// The next `length` bytes.
    pub fn bytes(&mut self, length: usize, field: &'static str) -> (r: Result<&'a [u8], ModelError>)
        requires
            old(self).wf(),
        ensures
            final(self).wf(),
            final(self).data() == old(self).data(),
            r is Ok <==> old(self).pos() + length <= old(self).data().len(),
            r matches Ok(v) ==> v@ == old(self).data().subrange(
                old(self).pos(),
                old(self).pos() + length,
            ) && final(self).pos() == old(self).pos() + length,
            r matches Err(e) ==> (e is TooShort || e is LengthOverflow) && final(self).pos()
                == old(self).pos(),
    {
        let end = match self.offset.checked_add(length) {
            Some(end) => end,
            None => {
                assert(self.input@.len() == self.input.len());
                return Err(ModelError::LengthOverflow { field });
            },
        };
        if end > self.input.len() {
            return Err(
                ModelError::TooShort { field, need: length, have: self.input.len() - self.offset },
            );
        }
        let value = &self.input[self.offset..end];
        self.offset = end;
        Ok(value)
    }

    /// The next `length` bytes as lossy UTF-8 text.
    pub fn lossy_string(&mut self, length: usize, field: &'static str) -> (r: Result<
        String,
        ModelError,
    >)
        requires
            old(self).wf(),
        ensures
            final(self).wf(),
            final(self).data() == old(self).data(),
            r is Ok <==> old(self).pos() + length <= old(self).data().len(),
            r matches Ok(s) ==> s@ == utf8_lossy(
                old(self).data().subrange(old(self).pos(), old(self).pos() + length),
            ) && final(self).pos() == old(self).pos() + length,
            r matches Err(e) ==> (e is TooShort || e is LengthOverflow),
    {
        let raw = self.bytes(length, field)?;
        Ok(lossy_text(raw))
    }

    /// A `u32` length, then that many bytes of lossy UTF-8 text.
    pub fn string(&mut self, field: &'static str, len_field: &'static str) -> (r: Result<
        String,
        ModelError,
    >)
        requires
            old(self).wf(),
        ensures
            final(self).wf(),
            final(self).data() == old(self).data(),
            r is Ok <==> string_fits(old(self).data(), old(self).pos()),
            r matches Ok(s) ==> s@ == string_at(old(self).data(), old(self).pos())
                && final(self).pos() == string_end(old(self).data(), old(self).pos()),
            r matches Err(e) ==> (e is TooShort || e is LengthOverflow),
    {
        let length = self.u32(len_field)? as usize;
        self.lossy_string(length, field)
    }

    /// A presence flag, then a string when the flag is 1.
    pub fn optional_string(
        &mut self,
        field: &'static str,
        present_field: &'static str,
        len_field: &'static str,
    ) -> (r: Result<Option<String>, ModelError>)
        requires
            old(self).wf(),
        ensures
            final(self).wf(),
            final(self).data() == old(self).data(),
            ({
                let d = old(self).data();
                let p = old(self).pos();
                &&& r is Ok <==> p + 1 <= d.len() && (d[p] == 0 || (d[p] == 1 && string_fits(
                    d,
                    p + 1,
                )))
                &&& r matches Ok(None) ==> d[p] == 0 && final(self).pos() == p + 1
                &&& r matches Ok(Some(s)) ==> d[p] == 1 && s@ == string_at(d, p + 1)
                    && final(self).pos() == string_end(d, p + 1)
                &&& r matches Err(e) ==> ((e is TooShort || e is LengthOverflow) <==> !(p + 1
                    <= d.len() && d[p] != 0 && d[p] != 1))
                &&& r matches Err(e) ==> (p + 1 <= d.len() && d[p] != 0 && d[p] != 1 ==> e
                    == ModelError::InvalidPresentFlag { field, value: d[p] })
            }),
    {
        let flag = self.u8(present_field)?;
        if flag == 0 {
            Ok(None)
        } else if flag == 1 {
            let s = self.string(field, len_field)?;
            Ok(Some(s))
        } else {
            Err(ModelError::InvalidPresentFlag { field, value: flag })
        }
    }

    /// The next byte.
    pub fn u8(&mut self, field: &'static str) -> (r: Result<u8, ModelError>)
        requires
            old(self).wf(),
        ensures
            final(self).wf(),
            final(self).data() == old(self).data(),
            r is Ok <==> old(self).pos() + 1 <= old(self).data().len(),
            r matches Ok(v) ==> v == old(self).data()[old(self).pos()] && final(self).pos()
                == old(self).pos() + 1,
            r matches Err(e) ==> (e is TooShort || e is LengthOverflow),
    {
        let raw = self.bytes(1, field)?;
        Ok(raw[0])
    }

    /// The next little-endian `u16`.
    pub fn u16(&mut self, field: &'static str) -> (r: Result<u16, ModelError>)
        requires
            old(self).wf(),
        ensures
            final(self).wf(),
            final(self).data() == old(self).data(),
            r is Ok <==> old(self).pos() + 2 <= old(self).data().len(),
            r matches Ok(v) ==> v == le2(old(self).data(), old(self).pos()) && final(self).pos()
                == old(self).pos() + 2,
            r matches Err(e) ==> (e is TooShort || e is LengthOverflow),
    {
        let raw = self.bytes(2, field)?;
        Ok(read_le_u16(raw, 0))
    }

    /// The next little-endian `u32`.
    pub fn u32(&mut self, field: &'static str) -> (r: Result<u32, ModelError>)
        requires
            old(self).wf(),
        ensures
            final(self).wf(),
            final(self).data() == old(self).data(),
            r is Ok <==> old(self).pos() + 4 <= old(self).data().len(),
            r matches Ok(v) ==> v == le4(old(self).data(), old(self).pos()) && final(self).pos()
                == old(self).pos() + 4,
            r matches Err(e) ==> (e is TooShort || e is LengthOverflow),
    {
        let raw = self.bytes(4, field)?;
        Ok(read_le_u32(raw, 0))
    }

    /// The next little-endian `i64`.
    pub fn i64(&mut self, field: &'static str) -> (r: Result<i64, ModelError>)
        requires
            old(self).wf(),
        ensures
            final(self).wf(),
            final(self).data() == old(self).data(),
            r is Ok <==> old(self).pos() + 8 <= old(self).data().len(),
            r matches Ok(v) ==> v == signed64(le8(old(self).data(), old(self).pos()))
                && final(self).pos() == old(self).pos() + 8,
            r matches Err(e) ==> (e is TooShort || e is LengthOverflow),
    {
        let raw = self.bytes(8, field)?;
        Ok(to_signed64(read_le_u64(raw, 0)))
    }

    /// The bit pattern of the next little-endian binary64 value.
    pub fn float_bits(&mut self, field: &'static str) -> (r: Result<u64, ModelError>)
        requires
            old(self).wf(),
        ensures
            final(self).wf(),
            final(self).data() == old(self).data(),
            r is Ok <==> old(self).pos() + 8 <= old(self).data().len(),
            r matches Ok(v) ==> v == le8(old(self).data(), old(self).pos()) && final(self).pos()
                == old(self).pos() + 8,
            r matches Err(e) ==> (e is TooShort || e is LengthOverflow),
    {
        let raw = self.bytes(8, field)?;
        Ok(read_le_u64(raw, 0))
    }
}

/// A length-prefixed string starting at `o` fits in `d`.
pub open spec fn string_fits(d: Seq<u8>, o: int) -> bool {
    o + 4 <= d.len() && o + 4 + le4(d, o) <= d.len()
}

/// End of the length-prefixed string starting at `o`.
pub open spec fn string_end(d: Seq<u8>, o: int) -> int {
    o + 4 + le4(d, o)
}

/// Text of the length-prefixed string starting at `o`.
pub open spec fn string_at(d: Seq<u8>, o: int) -> Seq<char> {
    utf8_lossy(d.subrange(o + 4, string_end(d, o)))
}

/// Twenty ASCII digits.
pub open spec fn is_timestamp_key(b: Seq<u8>) -> bool {
    b.len() == 20 && forall|i: int| 0 <= i < 20 ==> 48 <= #[trigger] b[i] <= 57
}

/// Decimal value of a string of ASCII digit bytes.
pub open spec fn digit_bytes_value(b: Seq<u8>) -> nat
    decreases b.len(),
{
    if b.len() == 0 {
        0
    } else {
        digit_bytes_value(b.drop_last()) * 10 + (b.last() - 48) as nat
    }
}

/// `10^n`.
pub open spec fn pow10(n: nat) -> nat
    decreases n,
{
    if n == 0 {
        1
    } else {
        10 * pow10((n - 1) as nat)
    }
}

/// The key is a UTF-8, 20-digit timestamp that fits an `i64`.
pub open spec fn key_ok(key: Seq<u8>) -> bool {
    valid_utf8(key) && is_timestamp_key(key) && digit_bytes_value(key) <= i64::MAX
}

/// The error a rejected timestamp key gives.
pub open spec fn key_error(key: Seq<u8>, kind: RecordKind) -> ModelError {
    if !valid_utf8(key) {
        ModelError::KeyNotUtf8 { kind }
    } else if !is_timestamp_key(key) {
        ModelError::KeyNotTimestamp { kind }
    } else {
        ModelError::KeyExceedsI64 { kind }
    }
}

/// Reads a 20-digit timestamp key: its text and its value.
pub fn decode_timestamp_key(key: &[u8], kind: RecordKind) -> (r: Result<(String, i64), ModelError>)
    ensures
        r is Ok <==> key_ok(key@),
        r matches Ok((s, t)) ==> s@ == decode_utf8(key@) && t as int == digit_bytes_value(key@),
        r matches Err(e) ==> e == key_error(key@, kind),
{
    let text = match utf8_text(key) {
        Some(text) => text,
        None => {
            return Err(ModelError::KeyNotUtf8 { kind });
        },
    };
    if key.len() != 20 {
        return Err(ModelError::KeyNotTimestamp { kind });
    }
    let mut i: usize = 0;
    while i < 20
        invariant
            key@.len() == 20,
            valid_utf8(key@),
            i <= 20,
            forall|k: int| 0 <= k < i ==> 48 <= #[trigger] key@[k] <= 57,
        decreases 20 - i,
    {
        if key[i] < 48 || key[i] > 57 {
            assert(!(48 <= key@[i as int] <= 57));
            return Err(ModelError::KeyNotTimestamp { kind });
        }
        i = i + 1;
    }
    let mut v: u128 = 0;
    let mut j: usize = 0;
    while j < 20
        invariant
            is_timestamp_key(key@),
            valid_utf8(key@),
            j <= 20,
            v as nat == digit_bytes_value(key@.take(j as int)),
            v < pow10(j as nat),
        decreases 20 - j,
    {
        let d: u128 = (key[j] - 48) as u128;
        assert(key@.take(j + 1).drop_last() =~= key@.take(j as int));
        assert(v * 10 + d < pow10(j as nat) * 10) by (nonlinear_arith)
            requires
                v < pow10(j as nat),
                d <= 9,
        ;
        assert(pow10(j as nat) <= pow10(20)) by {
            lemma_pow10_mono(j as nat, 20);
        }
        assert(pow10(20) == 100000000000000000000) by {
            reveal_with_fuel(pow10, 21);
        }
        v = v * 10 + d;
        j = j + 1;
    }
    assert(key@.take(20) =~= key@);
    if v > 0x7FFF_FFFF_FFFF_FFFF {
        return Err(ModelError::KeyExceedsI64 { kind });
    }
    Ok((text, v as i64))
}

/// `10^a <= 10^b` for `a <= b`.
pub proof fn lemma_pow10_mono(a: nat, b: nat)
    requires
        a <= b,
    ensures
        pow10(a) <= pow10(b),
    decreases b,
{
    if a < b {
        lemma_pow10_mono(a, (b - 1) as nat);
    }
}

/// Text for an unknown code: `UNKNOWN(<code>)`.
pub open spec fn unknown_label(v: u8) -> Seq<char> {
    "UNKNOWN("@ + decimal(v as nat) + ")"@
}

fn unknown_name(value: u8) -> (r: String)
    ensures
        r@ == unknown_label(value),
{
    let digits = decimal_string(value as u64);
    concat3("UNKNOWN(", digits.as_str(), ")")
}

/// Venue name of a venue code.
pub open spec fn venue_label(v: u8) -> Seq<char> {
    if v == 0 {
        "BinanceMargin"@
    } else if v == 1 {
        "BinanceFutures"@
    } else if v == 2 {
        "OkexMargin"@
    } else if v == 3 {
        "OkexFutures"@
    } else if v == 4 {
        "BybitMargin"@
    } else if v == 5 {
        "BybitFutures"@
    } else if v == 6 {
        "BitgetMargin"@
    } else if v == 7 {
        "BitgetFutures"@
    } else if v == 8 {
        "GateMargin"@
    } else if v == 9 {
        "GateFutures"@
    } else if v == 10 {
        "AsterMargin"@
    } else if v == 11 {
        "AsterFutures"@
    } else if v == 12 {
        "HyperliquidMargin"@
    } else if v == 13 {
        "HyperliquidFutures"@
    } else {
        unknown_label(v)
    }
}

/// Length, first and third character: enough to tell the venue names apart.
spec fn venue_code_of_name(s: Seq<char>) -> int {
    let n = s.len();
    if n == 14 {
        1
    } else if n == 17 {
        12
    } else if n == 18 {
        13
    } else if n == 10 {
        if s[0] == 'O' {
            2
        } else {
            8
        }
    } else if n == 11 {
        if s[0] == 'O' {
            3
        } else if s[0] == 'B' {
            4
        } else if s[0] == 'G' {
            9
        } else {
            10
        }
    } else if n == 12 {
        if s[0] == 'A' {
            11
        } else if s[2] == 'b' {
            5
        } else {
            6
        }
    } else if s[2] == 'n' {
        0
    } else {
        7
    }
}

proof fn lemma_venue_code_of_name(v: u8)
    requires
        v <= 13,
    ensures
        venue_code_of_name(venue_label(v)) == v,
{
    reveal_strlit("BinanceMargin");
    reveal_strlit("BinanceFutures");
    reveal_strlit("OkexMargin");
    reveal_strlit("OkexFutures");
    reveal_strlit("BybitMargin");
    reveal_strlit("BybitFutures");
    reveal_strlit("BitgetMargin");
    reveal_strlit("BitgetFutures");
    reveal_strlit("GateMargin");
    reveal_strlit("GateFutures");
    reveal_strlit("AsterMargin");
    reveal_strlit("AsterFutures");
    reveal_strlit("HyperliquidMargin");
    reveal_strlit("HyperliquidFutures");
}

/// Each venue code 0..=13 names its own venue: two different codes never
/// share a name. Code 2 is OKX margin and code 3 OKX futures.
pub proof fn lemma_venue_names_distinct(a: u8, b: u8)
    requires
        a <= 13,
        b <= 13,
        a != b,
    ensures
        venue_label(a) != venue_label(b),
        venue_label(2) == "OkexMargin"@,
        venue_label(3) == "OkexFutures"@,
{
    lemma_venue_code_of_name(a);
    lemma_venue_code_of_name(b);
}

/// The exchanges of the venue codes, two codes each (margin, then futures).
pub open spec fn venue_exchange_name(x: int) -> Seq<char> {
    if x == 0 {
        "Binance"@
    } else if x == 1 {
        "Okex"@
    } else if x == 2 {
        "Bybit"@
    } else if x == 3 {
        "Bitget"@
    } else if x == 4 {
        "Gate"@
    } else if x == 5 {
        "Aster"@
    } else {
        "Hyperliquid"@
    }
}

/// The venue codes come in pairs per exchange: an even code names the
/// exchange's margin venue, the odd code after it its futures venue.
pub proof fn lemma_venue_name_pairs(v: u8)
    requires
        v <= 13,
    ensures
        venue_label(v) == venue_exchange_name((v / 2) as int) + if v % 2 == 0 {
            "Margin"@
        } else {
            "Futures"@
        },
{
    reveal_strlit("Margin");
    reveal_strlit("Futures");
    reveal_strlit("Binance");
    reveal_strlit("Okex");
    reveal_strlit("Bybit");
    reveal_strlit("Bitget");
    reveal_strlit("Gate");
    reveal_strlit("Aster");
    reveal_strlit("Hyperliquid");
    reveal_strlit("BinanceMargin");
    reveal_strlit("BinanceFutures");
    reveal_strlit("OkexMargin");
    reveal_strlit("OkexFutures");
    reveal_strlit("BybitMargin");
    reveal_strlit("BybitFutures");
    reveal_strlit("BitgetMargin");
    reveal_strlit("BitgetFutures");
    reveal_strlit("GateMargin");
    reveal_strlit("GateFutures");
    reveal_strlit("AsterMargin");
    reveal_strlit("AsterFutures");
    reveal_strlit("HyperliquidMargin");
    reveal_strlit("HyperliquidFutures");
    let suffix = if v % 2 == 0 {
        "Margin"@
    } else {
        "Futures"@
    };
    assert(venue_label(v) =~= venue_exchange_name((v / 2) as int) + suffix);
}

/// Venue name of a venue code; `UNKNOWN(<code>)` for codes outside 0..=13.
pub fn venue_name(value: u8) -> (r: String)
    ensures
        r@ == venue_label(value),
{
    let name: &str = match value {
        0 => "BinanceMargin",
        1 => "BinanceFutures",
        2 => "OkexMargin",
        3 => "OkexFutures",
        4 => "BybitMargin",
        5 => "BybitFutures",
        6 => "BitgetMargin",
        7 => "BitgetFutures",
        8 => "GateMargin",
        9 => "GateFutures",
        10 => "AsterMargin",
        11 => "AsterFutures",
        12 => "HyperliquidMargin",
        13 => "HyperliquidFutures",
        _ => {
            return unknown_name(value);
        },
    };
    name.to_string()
}

/// Order type name of an order type code.
pub open spec fn order_type_label(v: u8) -> Seq<char> {
    if v == 1 {
        "LIMIT"@
    } else if v == 3 {
        "MARKET"@
    } else if v == 4 {
        "STOP_LOSS"@
    } else if v == 5 {
        "STOP_LOSS_LIMIT"@
    } else if v == 6 {
        "TAKE_PROFIT"@
    } else if v == 7 {
        "TAKE_PROFIT_LIMIT"@
    } else if v == 8 {
        "STOP_MARKET"@
    } else if v == 9 {
        "TAKE_PROFIT_MARKET"@
    } else {
        unknown_label(v)
    }
}

/// Order type name of an order type code.
pub fn order_type_name(value: u8) -> (r: String)
    ensures
        r@ == order_type_label(value),
{
    let name: &str = match value {
        1 => "LIMIT",
        3 => "MARKET",
        4 => "STOP_LOSS",
        5 => "STOP_LOSS_LIMIT",
        6 => "TAKE_PROFIT",
        7 => "TAKE_PROFIT_LIMIT",
        8 => "STOP_MARKET",
        9 => "TAKE_PROFIT_MARKET",
        _ => {
            return unknown_name(value);
        },
    };
    name.to_string()
}

/// Side name of a side code.
pub open spec fn side_label(v: u8) -> Seq<char> {
    if v == 1 {
        "BUY"@
    } else if v == 2 {
        "SELL"@
    } else {
        unknown_label(v)
    }
}

/// Side name of a side code.
pub fn side_name(value: u8) -> (r: String)
    ensures
        r@ == side_label(value),
{
    match value {
        1 => "BUY".to_string(),
        2 => "SELL".to_string(),
        _ => unknown_name(value),
    }
}

/// Status name of an order status code.
pub open spec fn status_label(v: u8) -> Seq<char> {
    if v == 1 {
        "NEW"@
    } else if v == 2 {
        "PARTIALLY_FILLED"@
    } else if v == 3 {
        "FILLED"@
    } else if v == 4 {
        "CANCELED"@
    } else if v == 5 {
        "EXPIRED"@
    } else if v == 6 {
        "EXPIRED_IN_MATCH"@
    } else {
        unknown_label(v)
    }
}

/// Status name of an order status code.
pub fn status_name(value: u8) -> (r: String)
    ensures
        r@ == status_label(value),
{
    let name: &str = match value {
        1 => "NEW",
        2 => "PARTIALLY_FILLED",
        3 => "FILLED",
        4 => "CANCELED",
        5 => "EXPIRED",
        6 => "EXPIRED_IN_MATCH",
        _ => {
            return unknown_name(value);
        },
    };
    name.to_string()
}

/// Best bid and offer seen by a signal on one venue; prices and quantities
/// are binary64 bit patterns.
#[derive(Debug, Clone, Copy, PartialEq, Eq, Structural)]
pub struct SignalBboLeg {
    pub venue_code: i16,
    pub ts_us: i64,
    pub bid_price_bits: u64,
    pub bid_quantity_bits: u64,
    pub ask_price_bits: u64,
    pub ask_quantity_bits: u64,
}

/// The signal leg encoded at `o`: venue byte, timestamp, bid price, bid
/// quantity, ask price, ask quantity.
pub open spec fn leg_at(p: Seq<u8>, o: int) -> SignalBboLeg {
    SignalBboLeg {
        venue_code: p[o] as i16,
        ts_us: signed64(le8(p, o + 1)) as i64,
        bid_price_bits: le8(p, o + 9) as u64,
        bid_quantity_bits: le8(p, o + 17) as u64,
        ask_price_bits: le8(p, o + 25) as u64,
        ask_quantity_bits: le8(p, o + 33) as u64,
    }
}

/// One signal leg, when its presence bit is set.
pub fn decode_signal_leg(raw: &[u8], present: bool) -> (r: Result<Option<SignalBboLeg>, ModelError>)
    ensures
        !present ==> (r matches Ok(None)),
        present && raw@.len() == SIGNAL_BBO_LEG_BINARY_LEN ==> (r matches Ok(Some(l)) && l
            == leg_at(raw@, 0)),
        present && raw@.len() != SIGNAL_BBO_LEG_BINARY_LEN ==> (r matches Err(e) && e
            == (ModelError::InvalidLegLength { length: raw@.len() as usize })),
{
    if !present {
        return Ok(None);
    }
    if raw.len() != SIGNAL_BBO_LEG_BINARY_LEN {
        return Err(ModelError::InvalidLegLength { length: raw.len() });
    }
    Ok(
        Some(
            SignalBboLeg {
                venue_code: raw[0] as i16,
                ts_us: to_signed64(read_le_u64(raw, 1)),
                bid_price_bits: read_le_u64(raw, 9),
                bid_quantity_bits: read_le_u64(raw, 17),
                ask_price_bits: read_le_u64(raw, 25),
                ask_quantity_bits: read_le_u64(raw, 33),
            },
        ),
    )
}

/// The open and hedge legs of a signal BBO tail.
pub type SignalLegs = (Option<SignalBboLeg>, Option<SignalBboLeg>);

/// Open leg of a signal BBO tail starting at `o` (mask byte at `o`).
pub open spec fn open_leg(p: Seq<u8>, o: int) -> Option<SignalBboLeg> {
    if p[o] % 2 == 1 {
        Some(leg_at(p, o + 1))
    } else {
        None
    }
}

/// Hedge leg of a signal BBO tail starting at `o`.
pub open spec fn hedge_leg(p: Seq<u8>, o: int) -> Option<SignalBboLeg> {
    if (p[o] / 2) % 2 == 1 {
        Some(leg_at(p, o + 42))
    } else {
        None
    }
}

/// The signal BBO tail: a presence mask (bit 0 open, bit 1 hedge) and two
/// 41-byte legs.
pub fn decode_signal_bbo(raw: &[u8]) -> (r: Result<SignalLegs, ModelError>)
    requires
        raw@.len() == SIGNAL_BBO_BINARY_LEN,
    ensures
        r is Ok <==> raw@[0] < 4,
        r matches Ok((o, h)) ==> o == open_leg(raw@, 0) && h == hedge_leg(raw@, 0),
        r matches Err(e) ==> e == (ModelError::InvalidSignalMask { mask: raw@[0] }),
{
    let mask = raw[0];
    if mask > 3 {
        return Err(ModelError::InvalidSignalMask { mask });
    }
    let open_raw = &raw[1..42];
    let hedge_raw = &raw[42..83];
    assert((mask & 1 != 0) == (mask % 2 == 1)) by (bit_vector);
    assert((mask & 2 != 0) == ((mask / 2) % 2 == 1)) by (bit_vector);
    let open = decode_signal_leg(open_raw, mask & 1 != 0)?;
    let hedge = decode_signal_leg(hedge_raw, mask & 2 != 0)?;
    proof {
        assert(open_raw@ =~= raw@.subrange(1, 42));
        assert(hedge_raw@ =~= raw@.subrange(42, 83));
        if mask % 2 == 1 {
            assert(leg_at(open_raw@, 0) == leg_at(raw@, 1));
        }
        if (mask / 2) % 2 == 1 {
            assert(leg_at(hedge_raw@, 0) == leg_at(raw@, 42));
        }
    }
    Ok((open, hedge))
}

/// One uniform order record; prices and amounts are binary64 bit patterns.
#[derive(Debug, Clone)]
pub struct UniformOrderEvent {
    pub record_key: String,
    pub event_ts_us: i64,
    pub recv_ts_us: i64,
    pub symbol: String,
    pub create_ts_us: i64,
    pub update_ts_us: i64,
    pub signal_ts_us: i64,
    pub submit_ts_us: i64,
    pub local_ts_us: i64,
    pub market_ts_us: i64,
    pub client_order_id: i64,
    pub venue_code: i16,
    pub venue: String,
    pub order_type_code: i16,
    pub order_type: String,
    pub side_code: i16,
    pub side: String,
    pub price_bits: u64,
    pub price_offset_bits: u64,
    pub amount_initial_bits: u64,
    pub amount_update_bits: u64,
    pub status_code: i16,
    pub status: String,
    pub from_key: Vec<u8>,
    pub from_key_text: String,
    pub bbo_spread: String,
    pub signal_open: Option<SignalBboLeg>,
    pub signal_hedge: Option<SignalBboLeg>,
    pub wire_payload: Vec<u8>,
}

/// End of the symbol of a uniform order payload (after the receive
/// timestamp and the `u16` symbol length).
pub open spec fn uo_symbol_end(p: Seq<u8>) -> int {
    10 + le2(p, 8)
}

/// Start of the `from_key` bytes: after seven timestamps and ids, three code
/// bytes, four binary64 values, the status byte and the `u32` length.
pub open spec fn uo_from_key_start(p: Seq<u8>) -> int {
    uo_symbol_end(p) + 96
}

/// End of the `from_key` bytes.
pub open spec fn uo_from_key_end(p: Seq<u8>) -> int {
    uo_from_key_start(p) + le4(p, uo_symbol_end(p) + 92)
}

/// The payload goes on after `from_key` (a BBO spread follows).
pub open spec fn uo_has_bbo(p: Seq<u8>) -> bool {
    p.len() != uo_from_key_end(p)
}

/// End of the BBO spread text (equal to the end of `from_key` when absent).
pub open spec fn uo_bbo_end(p: Seq<u8>) -> int {
    if uo_has_bbo(p) {
        uo_from_key_end(p) + 2 + le2(p, uo_from_key_end(p))
    } else {
        uo_from_key_end(p)
    }
}

/// The payload ends inside one of the fields up to the BBO spread.
pub open spec fn uo_truncated(p: Seq<u8>) -> bool {
    ||| p.len() < 10
    ||| p.len() < uo_from_key_start(p)
    ||| p.len() < uo_from_key_end(p)
    ||| (uo_has_bbo(p) && (p.len() < uo_from_key_end(p) + 2 || p.len() < uo_bbo_end(p)))
}

/// Bytes after the BBO spread.
pub open spec fn uo_tail_len(p: Seq<u8>) -> int {
    p.len() - uo_bbo_end(p)
}

/// The bytes after the BBO spread form a valid (possibly empty) signal tail.
pub open spec fn uo_tail_ok(p: Seq<u8>) -> bool {
    uo_tail_len(p) == 0 || (uo_tail_len(p) == 83 && p[uo_bbo_end(p)] < 4)
}

/// `e` holds the fields that `key` and payload `p` encode.
pub open spec fn uniform_order_fields(key: Seq<u8>, p: Seq<u8>, e: UniformOrderEvent) -> bool {
    let s = uo_symbol_end(p);
    let q = uo_from_key_end(p);
    let r = uo_bbo_end(p);
    &&& e.record_key@ == decode_utf8(key)
    &&& e.event_ts_us == digit_bytes_value(key)
    &&& e.recv_ts_us == signed64(le8(p, 0))
    &&& e.symbol@ == utf8_lossy(p.subrange(10, s))
    &&& e.create_ts_us == signed64(le8(p, s))
    &&& e.update_ts_us == signed64(le8(p, s + 8))
    &&& e.signal_ts_us == signed64(le8(p, s + 16))
    &&& e.submit_ts_us == signed64(le8(p, s + 24))
    &&& e.local_ts_us == signed64(le8(p, s + 32))
    &&& e.market_ts_us == signed64(le8(p, s + 40))
    &&& e.client_order_id == signed64(le8(p, s + 48))
    &&& e.venue_code == p[s + 56] && e.venue@ == venue_label(p[s + 56])
    &&& e.order_type_code == p[s + 57] && e.order_type@ == order_type_label(p[s + 57])
    &&& e.side_code == p[s + 58] && e.side@ == side_label(p[s + 58])
    &&& e.price_bits == le8(p, s + 59)
    &&& e.price_offset_bits == le8(p, s + 67)
    &&& e.amount_initial_bits == le8(p, s + 75)
    &&& e.amount_update_bits == le8(p, s + 83)
    &&& e.status_code == p[s + 91] && e.status@ == status_label(p[s + 91])
    &&& e.from_key@ == p.subrange(s + 96, q)
    &&& e.from_key_text@ == utf8_lossy(p.subrange(s + 96, q))
    &&& e.bbo_spread@ == (if uo_has_bbo(p) {
        utf8_lossy(p.subrange(q + 2, r))
    } else {
        Seq::<char>::empty()
    })
    &&& e.signal_open == (if p.len() == r {
        None
    } else {
        open_leg(p, r)
    })
    &&& e.signal_hedge == (if p.len() == r {
        None
    } else {
        hedge_leg(p, r)
    })
    &&& e.wire_payload@ == p
}

/// The fixed-width middle of a uniform order payload.
struct UniformOrderFixed {
    create_ts_us: i64,
    update_ts_us: i64,
    signal_ts_us: i64,
    submit_ts_us: i64,
    local_ts_us: i64,
    market_ts_us: i64,
    client_order_id: i64,
    venue_raw: u8,
    order_type_raw: u8,
    side_raw: u8,
    price_bits: u64,
    price_offset_bits: u64,
    amount_initial_bits: u64,
    amount_update_bits: u64,
    status_raw: u8,
}

/// `f` holds the 92 fixed-width bytes of a uniform order starting at `s`.
spec fn uo_fixed_matches(p: Seq<u8>, s: int, f: UniformOrderFixed) -> bool {
    &&& f.create_ts_us == signed64(le8(p, s))
    &&& f.update_ts_us == signed64(le8(p, s + 8))
    &&& f.signal_ts_us == signed64(le8(p, s + 16))
    &&& f.submit_ts_us == signed64(le8(p, s + 24))
    &&& f.local_ts_us == signed64(le8(p, s + 32))
    &&& f.market_ts_us == signed64(le8(p, s + 40))
    &&& f.client_order_id == signed64(le8(p, s + 48))
    &&& f.venue_raw == p[s + 56]
    &&& f.order_type_raw == p[s + 57]
    &&& f.side_raw == p[s + 58]
    &&& f.price_bits == le8(p, s + 59)
    &&& f.price_offset_bits == le8(p, s + 67)
    &&& f.amount_initial_bits == le8(p, s + 75)
    &&& f.amount_update_bits == le8(p, s + 83)
    &&& f.status_raw == p[s + 91]
}

fn read_uniform_order_fixed(d: &mut Decoder) -> (r: Result<UniformOrderFixed, ModelError>)
    requires
        old(d).wf(),
    ensures
        final(d).wf(),
        final(d).data() == old(d).data(),
        r is Ok <==> old(d).pos() + 92 <= old(d).data().len(),
        r matches Ok(f) ==> uo_fixed_matches(old(d).data(), old(d).pos(), f) && final(d).pos()
            == old(d).pos() + 92,
        r matches Err(e) ==> (e is TooShort || e is LengthOverflow),
{
    let create_ts_us = d.i64("create_ts")?;
    let update_ts_us = d.i64("update_ts")?;
    let signal_ts_us = d.i64("signal_ts")?;
    let submit_ts_us = d.i64("submit_ts")?;
    let local_ts_us = d.i64("local_ts")?;
    let market_ts_us = d.i64("mkt_ts")?;
    let client_order_id = d.i64("client_order_id")?;
    let venue_raw = d.u8("venue")?;
    let order_type_raw = d.u8("order_type")?;
    let side_raw = d.u8("side")?;
    let price_bits = d.float_bits("price")?;
    let price_offset_bits = d.float_bits("price_offset")?;
    let amount_initial_bits = d.float_bits("amount_init")?;
    let amount_update_bits = d.float_bits("amount_update")?;
    let status_raw = d.u8("status")?;
    Ok(
        UniformOrderFixed {
            create_ts_us,
            update_ts_us,
            signal_ts_us,
            submit_ts_us,
            local_ts_us,
            market_ts_us,
            client_order_id,
            venue_raw,
            order_type_raw,
            side_raw,
            price_bits,
            price_offset_bits,
            amount_initial_bits,
            amount_update_bits,
            status_raw,
        },
    )
}

/// The optional BBO spread text and signal legs that end a uniform order.
#[verifier::spinoff_prover]
#[verifier::rlimit(100)]
fn read_uniform_order_tail(d: &mut Decoder) -> (r: Result<(String, SignalLegs), ModelError>)
    requires
        old(d).wf(),
        old(d).pos() == uo_from_key_end(old(d).data()),
    ensures
        ({
            let p = old(d).data();
            let q = uo_from_key_end(p);
            let b = uo_bbo_end(p);
            let bbo_short = uo_has_bbo(p) && (p.len() < q + 2 || p.len() < b);
            &&& r is Ok <==> !bbo_short && uo_tail_ok(p)
            &&& r matches Ok((t, legs)) ==> t@ == (if uo_has_bbo(p) {
                utf8_lossy(p.subrange(q + 2, b))
            } else {
                Seq::<char>::empty()
            }) && legs.0 == (if p.len() == b {
                None
            } else {
                open_leg(p, b)
            }) && legs.1 == (if p.len() == b {
                None
            } else {
                hedge_leg(p, b)
            })
            &&& r matches Err(e) ==> ((e is TooShort || e is LengthOverflow) <==> bbo_short)
            &&& r matches Err(e) ==> (!bbo_short && uo_tail_len(p) != 0 && uo_tail_len(p) != 83
                ==> e == (ModelError::SignalBboLength { remaining: uo_tail_len(p) as usize }))
            &&& r matches Err(e) ==> (!bbo_short && uo_tail_len(p) == 83 && p[b] >= 4 ==> e == (
            ModelError::InvalidSignalMask { mask: p[b] }))
        }),
{
    let ghost p = d.data();
    let bbo_spread = if d.remaining() == 0 {
        String::new()
    } else {
        let length = d.u16("bbo_spread_len")? as usize;
        d.lossy_string(length, "bbo_spread")?
    };
    assert(d.pos() == uo_bbo_end(p));
    let rest = d.remaining();
    if rest == 0 {
        return Ok((bbo_spread, (None, None)));
    }
    if rest != SIGNAL_BBO_BINARY_LEN {
        return Err(ModelError::SignalBboLength { remaining: rest });
    }
    let raw = d.bytes(SIGNAL_BBO_BINARY_LEN, "signal_bbo")?;
    proof {
        assert(raw@[0] == p[uo_bbo_end(p)]);
    }
    let legs = decode_signal_bbo(raw)?;
    proof {
        assert(open_leg(raw@, 0) == open_leg(p, uo_bbo_end(p)));
        assert(hedge_leg(raw@, 0) == hedge_leg(p, uo_bbo_end(p)));
    }
    Ok((bbo_spread, legs))
}

/// Decodes one uniform order record: a 20-digit timestamp key and the v2
/// payload, whose BBO spread and signal tail are optional.
#[verifier::rlimit(60)]
pub fn decode_uniform_order(key: &[u8], payload: &[u8]) -> (r: Result<
    UniformOrderEvent,
    ModelError,
>)
    ensures
        r is Ok <==> key_ok(key@) && !uo_truncated(payload@) && uo_tail_ok(payload@),
        r matches Ok(e) ==> uniform_order_fields(key@, payload@, e),
        r matches Err(e) ==> (!key_ok(key@) ==> e == key_error(key@, RecordKind::UniformOrder)),
        r matches Err(e) ==> (key_ok(key@) ==> ((e is TooShort || e is LengthOverflow)
            <==> uo_truncated(payload@))),
        r matches Err(e) ==> (key_ok(key@) && !uo_truncated(payload@) && uo_tail_len(payload@)
            != 0 && uo_tail_len(payload@) != 83 ==> e == (ModelError::SignalBboLength {
            remaining: uo_tail_len(payload@) as usize,
        })),
        r matches Err(e) ==> (key_ok(key@) && !uo_truncated(payload@) && uo_tail_len(payload@)
            == 83 && payload@[uo_bbo_end(payload@)] >= 4 ==> e == (ModelError::InvalidSignalMask {
            mask: payload@[uo_bbo_end(payload@)],
        })),
{
    let (record_key, event_ts_us) = decode_timestamp_key(key, RecordKind::UniformOrder)?;
    let ghost p = payload@;
    let mut d = Decoder::new(payload);
    let recv_ts_us = d.i64("recv_ts_us")?;
    let symbol_len = d.u16("symbol_len")? as usize;
    let symbol = d.lossy_string(symbol_len, "symbol")?;
    let ghost s = uo_symbol_end(p);
    assert(d.pos() == s);
    let f = read_uniform_order_fixed(&mut d)?;
    let from_key_len = d.u32("from_key_len")? as usize;
    assert(d.pos() == uo_from_key_start(p));
    let from_key_raw = d.bytes(from_key_len, "from_key")?;
    assert(d.pos() == uo_from_key_end(p));
    let from_key_text = lossy_text(from_key_raw);
    let from_key = slice_range(from_key_raw, 0, from_key_raw.len());
    let (bbo_spread, legs) = read_uniform_order_tail(&mut d)?;
    let (signal_open, signal_hedge) = legs;
    let wire_payload = slice_range(payload, 0, payload.len());
    assert(from_key@ =~= p.subrange(s + 96, uo_from_key_end(p)));
    assert(wire_payload@ =~= p);
    Ok(
        UniformOrderEvent {
            record_key,
            event_ts_us,
            recv_ts_us,
            symbol,
            create_ts_us: f.create_ts_us,
            update_ts_us: f.update_ts_us,
            signal_ts_us: f.signal_ts_us,
            submit_ts_us: f.submit_ts_us,
            local_ts_us: f.local_ts_us,
            market_ts_us: f.market_ts_us,
            client_order_id: f.client_order_id,
            venue_code: f.venue_raw as i16,
            venue: venue_name(f.venue_raw),
            order_type_code: f.order_type_raw as i16,
            order_type: order_type_name(f.order_type_raw),
            side_code: f.side_raw as i16,
            side: side_name(f.side_raw),
            price_bits: f.price_bits,
            price_offset_bits: f.price_offset_bits,
            amount_initial_bits: f.amount_initial_bits,
            amount_update_bits: f.amount_update_bits,
            status_code: f.status_raw as i16,
            status: status_name(f.status_raw),
            from_key,
            from_key_text,
            bbo_spread,
            signal_open,
            signal_hedge,
            wire_payload,
        },
    )
}

/// One trade update; the price and filled quantity are binary64 bit patterns.
#[derive(Debug, Clone)]
pub struct TradeUpdateEvent {
    pub record_key: String,
    pub record_ts_us: i64,
    pub recv_ts_us: i64,
    pub event_ts_us: i64,
    pub trade_ts_us: i64,
    pub symbol: String,
    pub order_id: i64,
    pub client_order_id: i64,
    pub side_code: i16,
    pub price_bits: u64,
    pub is_maker: bool,
    pub venue_code: i16,
    pub cumulative_filled_quantity_bits: u64,
    pub status_code: Option<i16>,
}

/// End of the symbol of a trade update (three timestamps, then a `u32`
/// length and the text).
pub open spec fn tu_symbol_end(p: Seq<u8>) -> int {
    string_end(p, 24)
}

/// Position of the status-present flag of a trade update.
pub open spec fn tu_flag_at(p: Seq<u8>) -> int {
    tu_symbol_end(p) + 35
}

/// The trade update payload ends inside a field.
pub open spec fn tu_truncated(p: Seq<u8>) -> bool {
    ||| p.len() < 28
    ||| p.len() < tu_symbol_end(p) + 36
    ||| (p[tu_flag_at(p)] == 1 && p.len() < tu_symbol_end(p) + 37)
}

/// End of the last field of a trade update.
pub open spec fn tu_end(p: Seq<u8>) -> int {
    if p[tu_flag_at(p)] == 1 {
        tu_symbol_end(p) + 37
    } else {
        tu_symbol_end(p) + 36
    }
}

/// `e` holds the fields that `key` and trade update payload `p` encode.
pub open spec fn trade_update_fields(key: Seq<u8>, p: Seq<u8>, e: TradeUpdateEvent) -> bool {
    let s = tu_symbol_end(p);
    &&& e.record_key@ == decode_utf8(key)
    &&& e.record_ts_us == digit_bytes_value(key)
    &&& e.recv_ts_us == signed64(le8(p, 0))
    &&& e.event_ts_us == signed64(le8(p, 8))
    &&& e.trade_ts_us == signed64(le8(p, 16))
    &&& e.symbol@ == string_at(p, 24)
    &&& e.order_id == signed64(le8(p, s))
    &&& e.client_order_id == signed64(le8(p, s + 8))
    &&& e.side_code == p[s + 16]
    &&& e.price_bits == le8(p, s + 17)
    &&& e.is_maker == (p[s + 25] != 0)
    &&& e.venue_code == p[s + 26]
    &&& e.cumulative_filled_quantity_bits == le8(p, s + 27)
    &&& e.status_code == (if p[s + 35] == 1 {
        Some(p[s + 36] as i16)
    } else {
        None
    })
}

/// Decodes one trade update record.
#[verifier::rlimit(60)]
pub fn decode_trade_update(key: &[u8], payload: &[u8]) -> (r: Result<TradeUpdateEvent, ModelError>)
    ensures
        r is Ok <==> key_ok(key@) && !tu_truncated(payload@) && payload@[tu_flag_at(payload@)]
            <= 1 && payload@.len() == tu_end(payload@),
        r matches Ok(e) ==> trade_update_fields(key@, payload@, e),
        r matches Err(e) ==> (!key_ok(key@) ==> e == key_error(key@, RecordKind::TradeUpdate)),
        r matches Err(e) ==> (key_ok(key@) ==> ((e is TooShort || e is LengthOverflow)
            <==> tu_truncated(payload@))),
        r matches Err(e) ==> (key_ok(key@) && !tu_truncated(payload@) && payload@[tu_flag_at(
            payload@,
        )] > 1 ==> e == (ModelError::InvalidStatusFlag {
            value: payload@[tu_flag_at(payload@)],
        })),
        r matches Err(e) ==> (key_ok(key@) && !tu_truncated(payload@) && payload@[tu_flag_at(
            payload@,
        )] <= 1 && payload@.len() != tu_end(payload@) ==> e == (ModelError::TrailingBytes {
            kind: RecordKind::TradeUpdate,
            remaining: (payload@.len() - tu_end(payload@)) as usize,
        })),
{
    let (record_key, record_ts_us) = decode_timestamp_key(key, RecordKind::TradeUpdate)?;
    let ghost p = payload@;
    let mut d = Decoder::new(payload);
    let recv_ts_us = d.i64("recv_ts_us")?;
    let event_ts_us = d.i64("event_time")?;
    let trade_ts_us = d.i64("trade_time")?;
    let symbol = d.string("symbol", "symbol_len")?;
    assert(d.pos() == tu_symbol_end(p));
    let order_id = d.i64("order_id")?;
    let client_order_id = d.i64("client_order_id")?;
    let side = d.u8("side")?;
    let price_bits = d.float_bits("price")?;
    let is_maker = d.u8("is_maker")? != 0;
    let venue = d.u8("venue")?;
    let cumulative_filled_quantity_bits = d.float_bits("cumulative_filled_quantity")?;
    let flag = d.u8("status_present")?;
    let status_code = if flag == 0 {
        None
    } else if flag == 1 {
        Some(d.u8("status")? as i16)
    } else {
        return Err(ModelError::InvalidStatusFlag { value: flag });
    };
    assert(d.pos() == tu_end(p));
    if d.remaining() != 0 {
        return Err(
            ModelError::TrailingBytes { kind: RecordKind::TradeUpdate, remaining: d.remaining() },
        );
    }
    Ok(
        TradeUpdateEvent {
            record_key,
            record_ts_us,
            recv_ts_us,
            event_ts_us,
            trade_ts_us,
            symbol,
            order_id,
            client_order_id,
            side_code: side as i16,
            price_bits,
            is_maker,
            venue_code: venue as i16,
            cumulative_filled_quantity_bits,
            status_code,
        },
    )
}

/// One order update; price and quantities are binary64 bit patterns.
#[derive(Debug, Clone)]
pub struct OrderUpdateEvent {
    pub record_key: String,
    pub record_ts_us: i64,
    pub recv_ts_us: i64,
    pub event_ts_us: i64,
    pub symbol: String,
    pub order_id: i64,
    pub client_order_id: i64,
    pub client_order_id_text: Option<String>,
    pub side_code: i16,
    pub order_type_code: i16,
    pub time_in_force_code: i16,
    pub price_bits: u64,
    pub quantity_bits: u64,
    pub cumulative_filled_quantity_bits: u64,
    pub status_code: i16,
    pub raw_status: String,
    pub execution_type_code: i16,
    pub raw_execution_type: String,
    pub venue_code: i16,
}

/// End of the symbol of an order update.
pub open spec fn ou_symbol_end(p: Seq<u8>) -> int {
    string_end(p, 16)
}

/// Position of the client-order-id-text presence flag.
pub open spec fn ou_flag_at(p: Seq<u8>) -> int {
    ou_symbol_end(p) + 16
}

/// End of the optional client order id text.
pub open spec fn ou_cid_end(p: Seq<u8>) -> int {
    if p[ou_flag_at(p)] == 1 {
        string_end(p, ou_flag_at(p) + 1)
    } else {
        ou_flag_at(p) + 1
    }
}

/// End of the raw status text.
pub open spec fn ou_status_end(p: Seq<u8>) -> int {
    string_end(p, ou_cid_end(p) + 28)
}

/// End of the raw execution type text.
pub open spec fn ou_exec_end(p: Seq<u8>) -> int {
    string_end(p, ou_status_end(p) + 1)
}

/// The order update payload ends before the presence flag.
pub open spec fn ou_head_truncated(p: Seq<u8>) -> bool {
    p.len() < 20 || p.len() < ou_symbol_end(p) + 17
}

/// The order update payload ends inside a field after the presence flag.
pub open spec fn ou_tail_truncated(p: Seq<u8>) -> bool {
    ||| (p[ou_flag_at(p)] == 1 && !string_fits(p, ou_flag_at(p) + 1))
    ||| !string_fits(p, ou_cid_end(p) + 28)
    ||| !string_fits(p, ou_status_end(p) + 1)
    ||| p.len() < ou_exec_end(p) + 1
}

/// `e` holds the fields that `key` and order update payload `p` encode.
pub open spec fn order_update_fields(key: Seq<u8>, p: Seq<u8>, e: OrderUpdateEvent) -> bool {
    let s = ou_symbol_end(p);
    let c = ou_cid_end(p);
    let rs = ou_status_end(p);
    let re = ou_exec_end(p);
    &&& e.record_key@ == decode_utf8(key)
    &&& e.record_ts_us == digit_bytes_value(key)
    &&& e.recv_ts_us == signed64(le8(p, 0))
    &&& e.event_ts_us == signed64(le8(p, 8))
    &&& e.symbol@ == string_at(p, 16)
    &&& e.order_id == signed64(le8(p, s))
    &&& e.client_order_id == signed64(le8(p, s + 8))
    &&& (if p[s + 16] == 1 {
        e.client_order_id_text matches Some(t) && t@ == string_at(p, s + 17)
    } else {
        e.client_order_id_text is None
    })
    &&& e.side_code == p[c]
    &&& e.order_type_code == p[c + 1]
    &&& e.time_in_force_code == p[c + 2]
    &&& e.price_bits == le8(p, c + 3)
    &&& e.quantity_bits == le8(p, c + 11)
    &&& e.cumulative_filled_quantity_bits == le8(p, c + 19)
    &&& e.status_code == p[c + 27]
    &&& e.raw_status@ == string_at(p, c + 28)
    &&& e.execution_type_code == p[rs]
    &&& e.raw_execution_type@ == string_at(p, rs + 1)
    &&& e.venue_code == p[re]
}

/// The order quantities and codes between the client order id text and the
/// raw status text.
struct OrderUpdateFixed {
    side: u8,
    order_type: u8,
    time_in_force: u8,
    price_bits: u64,
    quantity_bits: u64,
    cumulative_filled_quantity_bits: u64,
    status: u8,
}

fn read_order_update_fixed(d: &mut Decoder) -> (r: Result<OrderUpdateFixed, ModelError>)
    requires
        old(d).wf(),
    ensures
        final(d).wf(),
        final(d).data() == old(d).data(),
        r is Ok <==> old(d).pos() + 28 <= old(d).data().len(),
        r matches Ok(f) ==> ({
            let p = old(d).data();
            let c = old(d).pos();
            &&& f.side == p[c]
            &&& f.order_type == p[c + 1]
            &&& f.time_in_force == p[c + 2]
            &&& f.price_bits == le8(p, c + 3)
            &&& f.quantity_bits == le8(p, c + 11)
            &&& f.cumulative_filled_quantity_bits == le8(p, c + 19)
            &&& f.status == p[c + 27]
            &&& final(d).pos() == c + 28
        }),
        r matches Err(e) ==> (e is TooShort || e is LengthOverflow),
{
    let side = d.u8("side")?;
    let order_type = d.u8("order_type")?;
    let time_in_force = d.u8("time_in_force")?;
    let price_bits = d.float_bits("price")?;
    let quantity_bits = d.float_bits("quantity")?;
    let cumulative_filled_quantity_bits = d.float_bits("cumulative_filled_quantity")?;
    let status = d.u8("status")?;
    Ok(
        OrderUpdateFixed {
            side,
            order_type,
            time_in_force,
            price_bits,
            quantity_bits,
            cumulative_filled_quantity_bits,
            status,
        },
    )
}

/// Decodes one order update record.
#[verifier::rlimit(80)]
pub fn decode_order_update(key: &[u8], payload: &[u8]) -> (r: Result<OrderUpdateEvent, ModelError>)
    ensures
        r is Ok <==> key_ok(key@) && !ou_head_truncated(payload@) && payload@[ou_flag_at(
            payload@,
        )] <= 1 && !ou_tail_truncated(payload@) && payload@.len() == ou_exec_end(payload@) + 1,
        r matches Ok(e) ==> order_update_fields(key@, payload@, e),
        r matches Err(e) ==> (!key_ok(key@) ==> e == key_error(key@, RecordKind::OrderUpdate)),
        r matches Err(e) ==> (key_ok(key@) ==> ((e is TooShort || e is LengthOverflow) <==> (
        ou_head_truncated(payload@) || (payload@[ou_flag_at(payload@)] <= 1
            && ou_tail_truncated(payload@))))),
        r matches Err(e) ==> (key_ok(key@) && !ou_head_truncated(payload@) && payload@[ou_flag_at(
            payload@,
        )] > 1 ==> e == (ModelError::InvalidPresentFlag {
            field: "client_order_id_str",
            value: payload@[ou_flag_at(payload@)],
        })),
        r matches Err(e) ==> (key_ok(key@) && !ou_head_truncated(payload@) && payload@[ou_flag_at(
            payload@,
        )] <= 1 && !ou_tail_truncated(payload@) && payload@.len() != ou_exec_end(payload@) + 1
            ==> e == (ModelError::TrailingBytes {
            kind: RecordKind::OrderUpdate,
            remaining: (payload@.len() - ou_exec_end(payload@) - 1) as usize,
        })),
{
    let (record_key, record_ts_us) = decode_timestamp_key(key, RecordKind::OrderUpdate)?;
    let ghost p = payload@;
    let mut d = Decoder::new(payload);
    let recv_ts_us = d.i64("recv_ts_us")?;
    let event_ts_us = d.i64("event_time")?;
    let symbol = d.string("symbol", "symbol_len")?;
    let order_id = d.i64("order_id")?;
    let client_order_id = d.i64("client_order_id")?;
    assert(d.pos() == ou_flag_at(p));
    let client_order_id_text = d.optional_string(
        "client_order_id_str",
        "client_order_id_str_present",
        "client_order_id_str_len",
    )?;
    assert(d.pos() == ou_cid_end(p));
    let f = read_order_update_fixed(&mut d)?;
    let raw_status = d.string("raw_status", "raw_status_len")?;
    assert(d.pos() == ou_status_end(p));
    let execution_type = d.u8("execution_type")?;
    let raw_execution_type = d.string("raw_execution_type", "raw_execution_type_len")?;
    assert(d.pos() == ou_exec_end(p));
    let venue = d.u8("venue")?;
    if d.remaining() != 0 {
        return Err(
            ModelError::TrailingBytes { kind: RecordKind::OrderUpdate, remaining: d.remaining() },
        );
    }
    Ok(
        OrderUpdateEvent {
            record_key,
            record_ts_us,
            recv_ts_us,
            event_ts_us,
            symbol,
            order_id,
            client_order_id,
            client_order_id_text,
            side_code: f.side as i16,
            order_type_code: f.order_type as i16,
            time_in_force_code: f.time_in_force as i16,
            price_bits: f.price_bits,
            quantity_bits: f.quantity_bits,
            cumulative_filled_quantity_bits: f.cumulative_filled_quantity_bits,
            status_code: f.status as i16,
            raw_status,
            execution_type_code: execution_type as i16,
            raw_execution_type,
            venue_code: venue as i16,
        },
    )
}

} // verus!
