//! Frames of the Exec account monitor's IPC stream: stable-coin wallet
//! snapshots and OKX unified-account risk samples, and what one source's
//! live state keeps of them. Floating-point amounts travel as their
//! binary64 bit patterns.

use vstd::prelude::*;
use vstd::utf8::{decode_utf8, encode_utf8, valid_utf8};

use crate::codec::{
    lemma_le_bytes4, lemma_le_bytes8, lemma_le_concat, le4, le8, le_bytes4, le_bytes8,
    push_le_u32, push_le_u64, read_le_u32, read_le_u64, signed64, to_signed64, to_unsigned64,
    unsigned64,
};
use crate::float_bits::{f64_is_finite, f64_lt_zero, is_finite, lt_zero};
use crate::model::utf8_text;
use crate::text::{
    ascii_upper, chars_of, owned, slice_range, str_eq, string_of, to_ascii_upper,
};

verus! {

/// Largest IPC payload, bytes.
pub const ACCOUNT_IPC_PAYLOAD: usize = 16_384;

/// Samples kept for late subscribers.
pub const ACCOUNT_IPC_HISTORY_SIZE: usize = 4_096;

/// Subscribers one service admits.
pub const ACCOUNT_IPC_MAX_SUBSCRIBERS: usize = 4;

/// Samples one subscriber buffers.
pub const ACCOUNT_IPC_SUBSCRIBER_BUFFER: usize = 4_096;

/// Event type of a wallet snapshot.
pub const WALLET_SNAPSHOT_TYPE: u32 = 4008;

/// Event type of an account risk sample.
pub const ACCOUNT_RISK_TYPE: u32 = 4007;

/// Scope of OKX unified-account risk samples.
pub const OKEX_UNIFIED_SCOPE: u32 = 10;

/// Event header: type, scope, body length.
pub const EVENT_HEADER_LEN: usize = 12;

/// Offset of the margin ratio in a risk body.
pub const ACCOUNT_RISK_MARGIN_RATIO_OFFSET: usize = 44;

/// Shortest wallet snapshot body: the fixed fields and five amounts.
pub const WALLET_SNAPSHOT_MIN_LEN: usize = 68;

/// One asset row of a wallet snapshot.
#[derive(Debug, Clone, PartialEq)]
pub struct WalletAssetSnapshot {
    /// Asset name, uppercased.
    pub asset: String,
    pub wallet_balance_bits: u64,
    pub unrealized_pnl_bits: u64,
    pub available_balance_bits: u64,
    pub ts_ms: i64,
}

/// A wallet row as (asset, wallet balance, unrealized PnL, available
/// balance, timestamp).
pub type WalletRow = (Seq<char>, u64, u64, u64, i64);

impl WalletAssetSnapshot {
    /// The row as plain values.
    pub open spec fn row(self) -> WalletRow {
        (
            self.asset@,
            self.wallet_balance_bits,
            self.unrealized_pnl_bits,
            self.available_balance_bits,
            self.ts_ms,
        )
    }
}

/// The wallet row of a snapshot body: type 4008, timestamp at 4, asset
/// length at 20, asset name at 28, then five amounts of which the second,
/// third and fourth are the wallet balance, unrealized PnL and available
/// balance. Only USDT and BFUSD rows (ASCII case ignored) with finite
/// amounts are kept.
pub open spec fn wallet_snapshot_of(data: Seq<u8>) -> Option<WalletRow> {
    if data.len() < WALLET_SNAPSHOT_MIN_LEN || le4(data, 0) != WALLET_SNAPSHOT_TYPE {
        None
    } else {
        let ns = 28 + le4(data, 20);
        if ns > usize::MAX || data.len() < ns + 40 {
            None
        } else {
            let name = data.subrange(28, ns);
            let asset = ascii_upper(decode_utf8(name));
            let wallet = le8(data, ns + 8) as u64;
            let pnl = le8(data, ns + 16) as u64;
            let available = le8(data, ns + 24) as u64;
            if !valid_utf8(name) || (asset != "USDT"@ && asset != "BFUSD"@) {
                None
            } else if !is_finite(wallet) || !is_finite(pnl) || !is_finite(available) {
                None
            } else {
                Some((asset, wallet, pnl, available, signed64(le8(data, 4)) as i64))
            }
        }
    }
}

/// The wallet row of an IPC event: a wallet snapshot header and a body of
/// the length it announces.
pub open spec fn wallet_asset_of(payload: Seq<u8>) -> Option<WalletRow> {
    if payload.len() < EVENT_HEADER_LEN || le4(payload, 0) != WALLET_SNAPSHOT_TYPE {
        None
    } else {
        let end = EVENT_HEADER_LEN + le4(payload, 8);
        if end > usize::MAX || payload.len() < end {
            None
        } else {
            wallet_snapshot_of(payload.subrange(EVENT_HEADER_LEN as int, end))
        }
    }
}

/// The (timestamp, margin ratio) of an OKX unified risk event: account
/// risk type and scope 10, a risk body of at least 52 bytes, a timestamp
/// that is not negative and a finite, non-negative ratio.
pub open spec fn okx_risk_of(payload: Seq<u8>) -> Option<(i64, u64)> {
    if payload.len() < EVENT_HEADER_LEN || le4(payload, 0) != ACCOUNT_RISK_TYPE || le4(payload, 4)
        != OKEX_UNIFIED_SCOPE {
        None
    } else {
        let body_len = le4(payload, 8);
        let end = EVENT_HEADER_LEN + body_len;
        if end > usize::MAX || payload.len() < end || body_len < ACCOUNT_RISK_MARGIN_RATIO_OFFSET
            + 8 {
            None
        } else {
            let body = payload.subrange(EVENT_HEADER_LEN as int, end);
            let ts = signed64(le8(body, 4));
            let ratio = le8(body, ACCOUNT_RISK_MARGIN_RATIO_OFFSET as int) as u64;
            if le4(body, 0) != ACCOUNT_RISK_TYPE || ts < 0 || !is_finite(ratio) || lt_zero(ratio) {
                None
            } else {
                Some((ts as i64, ratio))
            }
        }
    }
}

/// Reads the wallet row of a snapshot body.
pub fn parse_wallet_snapshot(data: &[u8]) -> (r: Option<WalletAssetSnapshot>)
    ensures
        match r {
            Some(s) => wallet_snapshot_of(data@) == Some(s.row()),
            None => wallet_snapshot_of(data@) is None,
        },
{
    if data.len() < WALLET_SNAPSHOT_MIN_LEN {
        return None;
    }
    let msg_type = read_le_u32(data, 0);
    if msg_type != WALLET_SNAPSHOT_TYPE {
        return None;
    }
    let timestamp = to_signed64(read_le_u64(data, 4));
    let asset_len = read_le_u32(data, 20) as usize;
    let numbers_start = match 28usize.checked_add(asset_len) {
        Some(v) => v,
        None => return None,
    };
    if numbers_start > data.len() || data.len() - numbers_start < 40 {
        return None;
    }
    let name = slice_range(data, 28, numbers_start);
    let text = match utf8_text(name.as_slice()) {
        Some(t) => t,
        None => return None,
    };
    let upper_chars = to_ascii_upper(chars_of(text.as_str()).as_slice());
    let asset = string_of(upper_chars.as_slice());
    if !str_eq(asset.as_str(), "USDT") && !str_eq(asset.as_str(), "BFUSD") {
        return None;
    }
    let wallet_balance_bits = read_le_u64(data, numbers_start + 8);
    let unrealized_pnl_bits = read_le_u64(data, numbers_start + 16);
    let available_balance_bits = read_le_u64(data, numbers_start + 24);
    if !f64_is_finite(wallet_balance_bits) || !f64_is_finite(unrealized_pnl_bits)
        || !f64_is_finite(available_balance_bits) {
        return None;
    }
    Some(
        WalletAssetSnapshot {
            asset,
            wallet_balance_bits,
            unrealized_pnl_bits,
            available_balance_bits,
            ts_ms: timestamp,
        },
    )
}

/// Reads the wallet row of an IPC event.
pub fn parse_wallet_asset(payload: &[u8]) -> (r: Option<WalletAssetSnapshot>)
    ensures
        match r {
            Some(s) => wallet_asset_of(payload@) == Some(s.row()),
            None => wallet_asset_of(payload@) is None,
        },
{
    if payload.len() < EVENT_HEADER_LEN {
        return None;
    }
    let event_type = read_le_u32(payload, 0);
    if event_type != WALLET_SNAPSHOT_TYPE {
        return None;
    }
    let body_len = read_le_u32(payload, 8) as usize;
    let end = match EVENT_HEADER_LEN.checked_add(body_len) {
        Some(v) => v,
        None => return None,
    };
    if payload.len() < end {
        return None;
    }
    let body = slice_range(payload, EVENT_HEADER_LEN, end);
    parse_wallet_snapshot(body.as_slice())
}

/// Reads the (timestamp, margin ratio bits) of an OKX unified risk event.
pub fn parse_okx_unified_risk(payload: &[u8]) -> (r: Option<(i64, u64)>)
    ensures
        r == okx_risk_of(payload@),
{
    if payload.len() < EVENT_HEADER_LEN {
        return None;
    }
    let event_type = read_le_u32(payload, 0);
    let scope = read_le_u32(payload, 4);
    if event_type != ACCOUNT_RISK_TYPE || scope != OKEX_UNIFIED_SCOPE {
        return None;
    }
    let body_len = read_le_u32(payload, 8) as usize;
    let end = match EVENT_HEADER_LEN.checked_add(body_len) {
        Some(v) => v,
        None => return None,
    };
    if payload.len() < end || body_len < ACCOUNT_RISK_MARGIN_RATIO_OFFSET + 8 {
        return None;
    }
    let body = slice_range(payload, EVENT_HEADER_LEN, end);
    let inner_type = read_le_u32(body.as_slice(), 0);
    if inner_type != ACCOUNT_RISK_TYPE {
        return None;
    }
    let ts_ms = to_signed64(read_le_u64(body.as_slice(), 4));
    let ratio = read_le_u64(body.as_slice(), ACCOUNT_RISK_MARGIN_RATIO_OFFSET);
    if ts_ms < 0 || !f64_is_finite(ratio) || f64_lt_zero(ratio) {
        return None;
    }
    Some((ts_ms, ratio))
}

/// The fixed fields of a wallet snapshot body before the asset name.
pub open spec fn wallet_body_head(ts_ms: i64, update_ms: i64, name_len: nat, margin: bool) -> Seq<u8> {
    le_bytes4(WALLET_SNAPSHOT_TYPE) + le_bytes8(unsigned64(ts_ms as int) as u64) + le_bytes8(
        unsigned64(update_ms as int) as u64,
    ) + le_bytes4((name_len % 0x1_0000_0000) as u32) + seq![
        if margin {
            1u8
        } else {
            0u8
        },
        0u8,
        0u8,
        0u8,
    ]
}

/// The five amounts closing a wallet snapshot body.
pub open spec fn wallet_body_tail(a: u64, b: u64, c: u64, d: u64, e: u64) -> Seq<u8> {
    le_bytes8(a) + le_bytes8(b) + le_bytes8(c) + le_bytes8(d) + le_bytes8(e)
}

/// The bytes of a wallet event: header (type, scope 3, body length) and a
/// body of the fixed fields, the asset name's bytes and the amounts
/// balance, cross wallet balance, cross unrealized PnL, available balance
/// and max withdraw amount.
pub open spec fn wallet_event_bytes(
    ts_ms: i64,
    update_ms: i64,
    name: Seq<u8>,
    margin: bool,
    balance: u64,
    cross_wallet: u64,
    cross_un_pnl: u64,
    available: u64,
    max_withdraw: u64,
) -> Seq<u8> {
    let body = wallet_body_head(ts_ms, update_ms, name.len(), margin) + name + wallet_body_tail(
        balance,
        cross_wallet,
        cross_un_pnl,
        available,
        max_withdraw,
    );
    le_bytes4(WALLET_SNAPSHOT_TYPE) + le_bytes4(3) + le_bytes4(((body.len() as u64) % 0x1_0000_0000) as u32)
        + body
}

/// Encodes a wallet event as the account monitor publishes it.
pub fn encode_wallet_event(
    timestamp_ms: i64,
    update_time_ms: i64,
    asset: &str,
    margin_available: bool,
    balance_bits: u64,
    cross_wallet_balance_bits: u64,
    cross_un_pnl_bits: u64,
    available_balance_bits: u64,
    max_withdraw_amount_bits: u64,
) -> (r: Vec<u8>)
    ensures
        r@ == wallet_event_bytes(
            timestamp_ms,
            update_time_ms,
            encode_utf8(asset@),
            margin_available,
            balance_bits,
            cross_wallet_balance_bits,
            cross_un_pnl_bits,
            available_balance_bits,
            max_withdraw_amount_bits,
        ),
{
    let name = asset.as_bytes();
    let mut body: Vec<u8> = Vec::new();
    push_le_u32(&mut body, WALLET_SNAPSHOT_TYPE);
    push_le_u64(&mut body, to_unsigned64(timestamp_ms));
    push_le_u64(&mut body, to_unsigned64(update_time_ms));
    push_le_u32(&mut body, ((name.len() as u64) % 0x1_0000_0000) as u32);
    body.push(if margin_available {
        1u8
    } else {
        0u8
    });
    body.push(0u8);
    body.push(0u8);
    body.push(0u8);
    let ghost head = body@;
    assert(head =~= wallet_body_head(timestamp_ms, update_time_ms, name@.len(), margin_available));
    let mut k: usize = 0;
    while k < name.len()
        invariant
            k <= name@.len(),
            body@ == head + name@.subrange(0, k as int),
        decreases name@.len() - k,
    {
        body.push(name[k]);
        k = k + 1;
        assert(body@ =~= head + name@.subrange(0, k as int));
    }
    assert(name@.subrange(0, name@.len() as int) =~= name@);
    push_le_u64(&mut body, balance_bits);
    push_le_u64(&mut body, cross_wallet_balance_bits);
    push_le_u64(&mut body, cross_un_pnl_bits);
    push_le_u64(&mut body, available_balance_bits);
    push_le_u64(&mut body, max_withdraw_amount_bits);
    assert(body@ =~= head + name@ + wallet_body_tail(
        balance_bits,
        cross_wallet_balance_bits,
        cross_un_pnl_bits,
        available_balance_bits,
        max_withdraw_amount_bits,
    ));
    let mut wrapped: Vec<u8> = Vec::new();
    push_le_u32(&mut wrapped, WALLET_SNAPSHOT_TYPE);
    push_le_u32(&mut wrapped, 3);
    push_le_u32(&mut wrapped, ((body.len() as u64) % 0x1_0000_0000) as u32);
    let ghost front = wrapped@;
    let mut j: usize = 0;
    while j < body.len()
        invariant
            j <= body@.len(),
            wrapped@ == front + body@.subrange(0, j as int),
        decreases body@.len() - j,
    {
        wrapped.push(body[j]);
        j = j + 1;
        assert(wrapped@ =~= front + body@.subrange(0, j as int));
    }
    assert(body@.subrange(0, body@.len() as int) =~= body@);
    wrapped
}

proof fn lemma_head_fields(ts_ms: i64, update_ms: i64, name_len: nat, margin: bool)
    ensures
        wallet_body_head(ts_ms, update_ms, name_len, margin).len() == 28,
        le4(wallet_body_head(ts_ms, update_ms, name_len, margin), 0) == WALLET_SNAPSHOT_TYPE,
        le8(wallet_body_head(ts_ms, update_ms, name_len, margin), 4) == unsigned64(ts_ms as int),
        le4(wallet_body_head(ts_ms, update_ms, name_len, margin), 20) == name_len % 0x1_0000_0000,
{
    let a = le_bytes4(WALLET_SNAPSHOT_TYPE);
    let b = le_bytes8(unsigned64(ts_ms as int) as u64);
    let c = le_bytes8(unsigned64(update_ms as int) as u64);
    let d = le_bytes4((name_len % 0x1_0000_0000) as u32);
    let e = seq![
        if margin {
            1u8
        } else {
            0u8
        },
        0u8,
        0u8,
        0u8,
    ];
    lemma_le_bytes4(WALLET_SNAPSHOT_TYPE);
    lemma_le_bytes8(unsigned64(ts_ms as int) as u64);
    lemma_le_bytes8(unsigned64(update_ms as int) as u64);
    lemma_le_bytes4((name_len % 0x1_0000_0000) as u32);
    lemma_le_concat(a, b, 0);
    lemma_le_concat(a, b, 4);
    lemma_le_concat(a + b, c, 0);
    lemma_le_concat(a + b, c, 4);
    lemma_le_concat(a + b + c, d, 0);
    lemma_le_concat(a + b + c, d, 4);
    lemma_le_concat(a + b + c, d, 20);
    lemma_le_concat(a + b + c + d, e, 0);
    lemma_le_concat(a + b + c + d, e, 4);
    lemma_le_concat(a + b + c + d, e, 20);
}

proof fn lemma_tail_fields(a: u64, b: u64, c: u64, d: u64, e: u64)
    ensures
        wallet_body_tail(a, b, c, d, e).len() == 40,
        le8(wallet_body_tail(a, b, c, d, e), 8) == b,
        le8(wallet_body_tail(a, b, c, d, e), 16) == c,
        le8(wallet_body_tail(a, b, c, d, e), 24) == d,
{
    let (pa, pb, pc, pd, pe) = (le_bytes8(a), le_bytes8(b), le_bytes8(c), le_bytes8(d), le_bytes8(e));
    lemma_le_bytes8(a);
    lemma_le_bytes8(b);
    lemma_le_bytes8(c);
    lemma_le_bytes8(d);
    lemma_le_bytes8(e);
    lemma_le_concat(pa, pb, 8);
    lemma_le_concat(pa + pb, pc, 8);
    lemma_le_concat(pa + pb, pc, 16);
    lemma_le_concat(pa + pb + pc, pd, 8);
    lemma_le_concat(pa + pb + pc, pd, 16);
    lemma_le_concat(pa + pb + pc, pd, 24);
    lemma_le_concat(pa + pb + pc + pd, pe, 8);
    lemma_le_concat(pa + pb + pc + pd, pe, 16);
    lemma_le_concat(pa + pb + pc + pd, pe, 24);
}

/// An event header around a body announces the body, and the event reads
/// as the body does.
proof fn lemma_event_unwraps(body: Seq<u8>)
    requires
        body.len() + EVENT_HEADER_LEN <= u32::MAX,
    ensures
        wallet_asset_of(
            le_bytes4(WALLET_SNAPSHOT_TYPE) + le_bytes4(3) + le_bytes4(
                (body.len() % 0x1_0000_0000) as u32,
            ) + body,
        ) == wallet_snapshot_of(body),
{
    let blen = (body.len() % 0x1_0000_0000) as u32;
    let x = le_bytes4(WALLET_SNAPSHOT_TYPE);
    let y = le_bytes4(3);
    let z = le_bytes4(blen);
    lemma_le_bytes4(WALLET_SNAPSHOT_TYPE);
    lemma_le_bytes4(3);
    lemma_le_bytes4(blen);
    let bytes = x + y + z + body;
    lemma_le_concat(x, y, 0);
    lemma_le_concat(x + y, z, 0);
    lemma_le_concat(x + y, z, 8);
    lemma_le_concat(x + y + z, body, 0);
    lemma_le_concat(x + y + z, body, 8);
    assert(le4(bytes, 8) == body.len());
    assert(bytes.subrange(12, 12 + body.len() as int) =~= body);
}

/// A snapshot body whose fields hold these values reads as their row when
/// the name is a stable coin and the amounts are finite.
proof fn lemma_snapshot_from_fields(
    body: Seq<u8>,
    asset: Seq<char>,
    ts_ms: i64,
    wallet: u64,
    pnl: u64,
    available: u64,
)
    requires
        encode_utf8(asset).len() + 80 <= u32::MAX,
        body.len() == 68 + encode_utf8(asset).len(),
        le4(body, 0) == WALLET_SNAPSHOT_TYPE,
        le4(body, 20) == encode_utf8(asset).len(),
        le8(body, 4) == unsigned64(ts_ms as int),
        body.subrange(28, 28 + encode_utf8(asset).len() as int) == encode_utf8(asset),
        le8(body, 28 + encode_utf8(asset).len() as int + 8) == wallet,
        le8(body, 28 + encode_utf8(asset).len() as int + 16) == pnl,
        le8(body, 28 + encode_utf8(asset).len() as int + 24) == available,
    ensures
        wallet_snapshot_of(body) == (if (ascii_upper(asset) == "USDT"@ || ascii_upper(asset)
            == "BFUSD"@) && is_finite(wallet) && is_finite(pnl) && is_finite(available) {
            Some((ascii_upper(asset), wallet, pnl, available, ts_ms))
        } else {
            None
        }),
{
    vstd::utf8::encode_utf8_valid_utf8(asset);
    vstd::utf8::encode_utf8_decode_utf8(asset);
    assert(signed64(unsigned64(ts_ms as int)) == ts_ms);
}

/// A snapshot body made of the fixed fields, a name and the amounts reads
/// as its row when the name is a stable coin and the amounts are finite.
#[verifier::rlimit(100)]
#[verifier::spinoff_prover]
proof fn lemma_body_reads(
    ts_ms: i64,
    update_ms: i64,
    asset: Seq<char>,
    margin: bool,
    balance: u64,
    cross_wallet: u64,
    cross_un_pnl: u64,
    available: u64,
    max_withdraw: u64,
)
    requires
        encode_utf8(asset).len() + 80 <= u32::MAX,
    ensures
        wallet_snapshot_of(
            wallet_body_head(ts_ms, update_ms, encode_utf8(asset).len(), margin) + encode_utf8(
                asset,
            ) + wallet_body_tail(balance, cross_wallet, cross_un_pnl, available, max_withdraw),
        ) == (if (ascii_upper(asset) == "USDT"@ || ascii_upper(asset) == "BFUSD"@) && is_finite(
            cross_wallet,
        ) && is_finite(cross_un_pnl) && is_finite(available) {
            Some((ascii_upper(asset), cross_wallet, cross_un_pnl, available, ts_ms))
        } else {
            None
        }),
{
    let name = encode_utf8(asset);
    let l = name.len() as int;
    let head = wallet_body_head(ts_ms, update_ms, name.len(), margin);
    let tail = wallet_body_tail(balance, cross_wallet, cross_un_pnl, available, max_withdraw);
    let body = head + name + tail;
    assert(body.len() == 68 + l) by {
        lemma_head_fields(ts_ms, update_ms, name.len(), margin);
        lemma_tail_fields(balance, cross_wallet, cross_un_pnl, available, max_withdraw);
    }
    assert(le4(body, 0) == WALLET_SNAPSHOT_TYPE) by {
        lemma_head_fields(ts_ms, update_ms, name.len(), margin);
        lemma_le_concat(head, name, 0);
        lemma_le_concat(head + name, tail, 0);
    }
    assert(le8(body, 4) == unsigned64(ts_ms as int)) by {
        lemma_head_fields(ts_ms, update_ms, name.len(), margin);
        lemma_le_concat(head, name, 4);
        lemma_le_concat(head + name, tail, 4);
    }
    assert(le4(body, 20) == l) by {
        lemma_head_fields(ts_ms, update_ms, name.len(), margin);
        lemma_le_concat(head, name, 20);
        lemma_le_concat(head + name, tail, 20);
    }
    assert(le8(body, 28 + l + 8) == cross_wallet) by {
        lemma_head_fields(ts_ms, update_ms, name.len(), margin);
        lemma_tail_fields(balance, cross_wallet, cross_un_pnl, available, max_withdraw);
        lemma_le_concat(head + name, tail, 28 + l + 8);
    }
    assert(le8(body, 28 + l + 16) == cross_un_pnl) by {
        lemma_head_fields(ts_ms, update_ms, name.len(), margin);
        lemma_tail_fields(balance, cross_wallet, cross_un_pnl, available, max_withdraw);
        lemma_le_concat(head + name, tail, 28 + l + 16);
    }
    assert(le8(body, 28 + l + 24) == available) by {
        lemma_head_fields(ts_ms, update_ms, name.len(), margin);
        lemma_tail_fields(balance, cross_wallet, cross_un_pnl, available, max_withdraw);
        lemma_le_concat(head + name, tail, 28 + l + 24);
    }
    assert(body.subrange(28, 28 + l) =~= name) by {
        lemma_head_fields(ts_ms, update_ms, name.len(), margin);
    }
    lemma_snapshot_from_fields(body, asset, ts_ms, cross_wallet, cross_un_pnl, available);
}

/// Reading back a wallet event gives its row (the asset name uppercased,
/// the cross wallet balance, cross unrealized PnL, available balance and
/// the event timestamp) when the asset is USDT or BFUSD, ASCII case
/// ignored, and those three amounts are finite; any other event is refused.
pub proof fn lemma_wallet_event_roundtrip(
    ts_ms: i64,
    update_ms: i64,
    asset: Seq<char>,
    margin: bool,
    balance: u64,
    cross_wallet: u64,
    cross_un_pnl: u64,
    available: u64,
    max_withdraw: u64,
)
    requires
        encode_utf8(asset).len() + 80 <= u32::MAX,
    ensures
        wallet_asset_of(
            wallet_event_bytes(
                ts_ms,
                update_ms,
                encode_utf8(asset),
                margin,
                balance,
                cross_wallet,
                cross_un_pnl,
                available,
                max_withdraw,
            ),
        ) == (if (ascii_upper(asset) == "USDT"@ || ascii_upper(asset) == "BFUSD"@) && is_finite(
            cross_wallet,
        ) && is_finite(cross_un_pnl) && is_finite(available) {
            Some((ascii_upper(asset), cross_wallet, cross_un_pnl, available, ts_ms))
        } else {
            None
        }),
{
    let name = encode_utf8(asset);
    let body = wallet_body_head(ts_ms, update_ms, name.len(), margin) + name + wallet_body_tail(
        balance,
        cross_wallet,
        cross_un_pnl,
        available,
        max_withdraw,
    );
    lemma_head_fields(ts_ms, update_ms, name.len(), margin);
    lemma_tail_fields(balance, cross_wallet, cross_un_pnl, available, max_withdraw);
    lemma_event_unwraps(body);
    lemma_body_reads(
        ts_ms,
        update_ms,
        asset,
        margin,
        balance,
        cross_wallet,
        cross_un_pnl,
        available,
        max_withdraw,
    );
}

/// Source label of live equity built from stable-coin wallet rows.
pub const LIVE_EQUITY_SOURCE: &'static str = "binance_std_um_stable_wallets";

/// The rows as plain values.
pub open spec fn rows_view(v: Seq<WalletAssetSnapshot>) -> Seq<WalletRow> {
    v.map_values(|r: WalletAssetSnapshot| r.row())
}

/// The poll time and rows after a row is taken.
pub type Accumulated = (Option<i64>, Seq<WalletRow>);

/// Rows of assets other than `asset`.
pub open spec fn other_assets(asset: Seq<char>) -> spec_fn(WalletRow) -> bool {
    |r: WalletRow| r.0 != asset
}

/// The rows after one row arrives: a row older than the current poll is
/// refused (`None`); a newer poll starts over; the row replaces the row of
/// its asset.
pub open spec fn accumulate(ts_ms: Option<i64>, rows: Seq<WalletRow>, row: WalletRow) -> Option<
    Accumulated,
> {
    match ts_ms {
        Some(t) if row.4 < t => None,
        _ => {
            let base = match ts_ms {
                Some(t) if row.4 > t => Seq::empty(),
                _ => rows,
            };
            Some((Some(row.4), base.filter(other_assets(row.0)).push(row)))
        },
    }
}

/// The stable-coin wallet rows of the latest poll, one per asset, whose
/// amounts add up to the source's live equity.
pub struct WalletAssetAccumulator {
    pub ts_ms: Option<i64>,
    pub assets: Vec<WalletAssetSnapshot>,
}

impl Default for WalletAssetAccumulator {
    fn default() -> (r: Self)
        ensures
            r.ts_ms is None,
            r.assets@.len() == 0,
    {
        WalletAssetAccumulator { ts_ms: None, assets: Vec::new() }
    }
}

fn copy_row(r: &WalletAssetSnapshot) -> (c: WalletAssetSnapshot)
    ensures
        c.row() == r.row(),
{
    WalletAssetSnapshot {
        asset: owned(r.asset.as_str()),
        wallet_balance_bits: r.wallet_balance_bits,
        unrealized_pnl_bits: r.unrealized_pnl_bits,
        available_balance_bits: r.available_balance_bits,
        ts_ms: r.ts_ms,
    }
}

impl WalletAssetAccumulator {
    /// Takes one row: `false`, with nothing changed, for a row older than
    /// the current poll; else `true`, the poll's rows now hold it.
    pub fn update(&mut self, row: WalletAssetSnapshot) -> (accepted: bool)
        ensures
            match accumulate(old(self).ts_ms, rows_view(old(self).assets@), row.row()) {
                None => !accepted && final(self).ts_ms == old(self).ts_ms && rows_view(
                    final(self).assets@,
                ) == rows_view(old(self).assets@),
                Some((t, rows)) => accepted && final(self).ts_ms == t && rows_view(
                    final(self).assets@,
                ) == rows,
            },
    {
        let newer = match self.ts_ms {
            Some(t) => {
                if row.ts_ms < t {
                    return false;
                }
                row.ts_ms > t
            },
            None => false,
        };
        let ghost base = if newer {
            Seq::<WalletRow>::empty()
        } else {
            rows_view(self.assets@)
        };
        let mut kept: Vec<WalletAssetSnapshot> = Vec::new();
        if !newer {
            let ghost keep = other_assets(row.asset@);
            let mut i: usize = 0;
            while i < self.assets.len()
                invariant
                    i <= self.assets@.len(),
                    base == rows_view(self.assets@),
                    keep == other_assets(row.asset@),
                    rows_view(kept@) == base.take(i as int).filter(keep),
                decreases self.assets@.len() - i,
            {
                let ghost prev = base.take(i as int);
                proof {
                    reveal(Seq::filter);
                    assert(base.take(i + 1).drop_last() =~= prev);
                    assert(base.take(i + 1).last() == self.assets@[i as int].row());
                }
                if !str_eq(self.assets[i].asset.as_str(), row.asset.as_str()) {
                    let c = copy_row(&self.assets[i]);
                    let ghost before = kept@;
                    kept.push(c);
                    assert(rows_view(kept@) =~= rows_view(before).push(c.row()));
                }
                i = i + 1;
            }
            assert(base.take(base.len() as int) =~= base);
        } else {
            proof {
                reveal(Seq::filter);
            }
            assert(base.filter(other_assets(row.asset@)) =~= Seq::<WalletRow>::empty());
        }
        let ghost r = row.row();
        let ghost before = kept@;
        self.ts_ms = Some(row.ts_ms);
        kept.push(row);
        assert(rows_view(kept@) =~= rows_view(before).push(r));
        self.assets = kept;
        true
    }
}

/// A live equity reading built from wallet rows (amounts as bit patterns).
#[derive(Debug, Clone, PartialEq)]
pub struct LiveEquitySnapshot {
    pub source: String,
    pub equity_usdt_bits: u64,
    pub wallet_balance_usdt_bits: u64,
    pub unrealized_pnl_usdt_bits: u64,
    pub available_balance_usdt_bits: u64,
    pub ts_ms: i64,
}

impl LiveEquitySnapshot {
    /// The snapshot as plain values.
    pub open spec fn fields(self) -> (Seq<char>, u64, u64, u64, u64, i64) {
        (
            self.source@,
            self.equity_usdt_bits,
            self.wallet_balance_usdt_bits,
            self.unrealized_pnl_usdt_bits,
            self.available_balance_usdt_bits,
            self.ts_ms,
        )
    }

    /// A copy with the same fields.
    pub fn copy(&self) -> (r: Self)
        ensures
            r.fields() == self.fields(),
    {
        LiveEquitySnapshot {
            source: owned(self.source.as_str()),
            equity_usdt_bits: self.equity_usdt_bits,
            wallet_balance_usdt_bits: self.wallet_balance_usdt_bits,
            unrealized_pnl_usdt_bits: self.unrealized_pnl_usdt_bits,
            available_balance_usdt_bits: self.available_balance_usdt_bits,
            ts_ms: self.ts_ms,
        }
    }
}

/// What one source's account stream says now.
#[derive(Debug, Clone, PartialEq)]
pub struct LiveAccountReading {
    pub equity: Option<LiveEquitySnapshot>,
    pub unified_account: bool,
    pub uni_mmr_bits: Option<u64>,
    pub uni_mmr_ts_ms: Option<i64>,
}

/// The live state of one source's account stream.
pub struct SourceLiveState {
    pub equity: Option<LiveEquitySnapshot>,
    pub unified_account: bool,
    pub uni_mmr_bits: Option<u64>,
    pub uni_mmr_ts_ms: Option<i64>,
}

impl Default for SourceLiveState {
    fn default() -> (r: Self)
        ensures
            r.equity is None,
            !r.unified_account,
            r.uni_mmr_bits is None,
            r.uni_mmr_ts_ms is None,
    {
        SourceLiveState { equity: None, unified_account: false, uni_mmr_bits: None, uni_mmr_ts_ms: None }
    }
}

impl SourceLiveState {
    /// The reading: none before equity or a unified-account sample arrived.
    pub fn reading(&self) -> (r: Option<LiveAccountReading>)
        ensures
            r is None <==> (self.equity is None && !self.unified_account),
            r matches Some(x) ==> x.unified_account == self.unified_account && x.uni_mmr_bits
                == self.uni_mmr_bits && x.uni_mmr_ts_ms == self.uni_mmr_ts_ms && (x.equity is Some
                <==> self.equity is Some) && (x.equity matches Some(e) ==> e.fields()
                == self.equity->0.fields()),
    {
        if self.equity.is_none() && !self.unified_account {
            return None;
        }
        let equity = match &self.equity {
            Some(e) => Some(e.copy()),
            None => None,
        };
        Some(
            LiveAccountReading {
                equity,
                unified_account: self.unified_account,
                uni_mmr_bits: self.uni_mmr_bits,
                uni_mmr_ts_ms: self.uni_mmr_ts_ms,
            },
        )
    }

    /// Takes an OKX unified risk sample unless it is older than the one
    /// held: the account is then unified and the sample is the latest.
    pub fn apply_okx_unified_risk(&mut self, ts_ms: i64, uni_mmr_bits: u64)
        ensures
            final(self).equity == old(self).equity,
            (old(self).uni_mmr_ts_ms matches Some(p) && ts_ms < p) ==> (final(self).unified_account
                == old(self).unified_account && final(self).uni_mmr_bits == old(self).uni_mmr_bits
                && final(self).uni_mmr_ts_ms == old(self).uni_mmr_ts_ms),
            !(old(self).uni_mmr_ts_ms matches Some(p) && ts_ms < p) ==> (final(self).unified_account
                && final(self).uni_mmr_bits == Some(uni_mmr_bits) && final(self).uni_mmr_ts_ms
                == Some(ts_ms)),
    {
        if let Some(previous) = self.uni_mmr_ts_ms {
            if ts_ms < previous {
                return;
            }
        }
        self.unified_account = true;
        self.uni_mmr_bits = Some(uni_mmr_bits);
        self.uni_mmr_ts_ms = Some(ts_ms);
    }
}

/// No asset has two rows.
pub open spec fn one_row_per_asset(rows: Seq<WalletRow>) -> bool {
    forall|i: int, j: int| 0 <= i < j < rows.len() ==> (#[trigger] rows[i]).0 != (#[trigger] rows[j]).0
}

proof fn lemma_filter_one_per_asset(rows: Seq<WalletRow>, asset: Seq<char>)
    requires
        one_row_per_asset(rows),
    ensures
        one_row_per_asset(rows.filter(other_assets(asset))),
        forall|i: int|
            0 <= i < rows.filter(other_assets(asset)).len() ==> (#[trigger] rows.filter(
                other_assets(asset),
            )[i]).0 != asset,
        forall|i: int|
            0 <= i < rows.filter(other_assets(asset)).len() ==> rows.contains(
                #[trigger] rows.filter(other_assets(asset))[i],
            ),
    decreases rows.len(),
{
    let p = other_assets(asset);
    rows.filter_lemma(p);
    if rows.len() > 0 {
        let init = rows.drop_last();
        assert(one_row_per_asset(init));
        lemma_filter_one_per_asset(init, asset);
        init.filter_lemma(p);
        reveal(Seq::filter);
        let sub = init.filter(p);
        assert forall|i: int| 0 <= i < sub.len() implies rows.contains(#[trigger] sub[i]) by {
            let k = choose|k: int| 0 <= k < init.len() && init[k] == sub[i];
            assert(rows[k] == init[k]);
        }
        assert(rows[rows.len() - 1] == rows.last());
        if p(rows.last()) {
            assert(rows.filter(p) == sub.push(rows.last()));
            assert forall|i: int, j: int|
                0 <= i < j < rows.filter(p).len() implies (#[trigger] rows.filter(p)[i]).0 != (
            #[trigger] rows.filter(p)[j]).0 by {
                if j == sub.len() {
                    assert(init.contains(sub[i]));
                    let k = choose|k: int| 0 <= k < init.len() && init[k] == sub[i];
                    assert(rows[k] == init[k]);
                    assert(rows[rows.len() - 1] == rows.last());
                } else {
                    assert(sub[i].0 != sub[j].0);
                }
            }
        } else {
            assert(rows.filter(p) == sub);
        }
    }
}

/// Taking a row keeps one row per asset.
pub proof fn lemma_accumulate_keeps_one_row_per_asset(
    ts_ms: Option<i64>,
    rows: Seq<WalletRow>,
    row: WalletRow,
)
    requires
        one_row_per_asset(rows),
    ensures
        accumulate(ts_ms, rows, row) matches Some((_, after)) ==> one_row_per_asset(after),
{
    if let Some((_, after)) = accumulate(ts_ms, rows, row) {
        let base = match ts_ms {
            Some(t) if row.4 > t => Seq::<WalletRow>::empty(),
            _ => rows,
        };
        lemma_filter_one_per_asset(base, row.0);
        let f = base.filter(other_assets(row.0));
        assert(after == f.push(row));
        assert forall|i: int, j: int| 0 <= i < j < after.len() implies (#[trigger] after[i]).0 != (
        #[trigger] after[j]).0 by {
            if j == f.len() {
                assert(f[i].0 != row.0);
            } else {
                assert(f[i].0 != f[j].0);
            }
        }
    }
}

} // verus!
