//! The text of DingTalk notices and heartbeats, and the signature of a
//! signed webhook call.

use vstd::prelude::*;
use vstd::utf8::{decode_utf8, encode_utf8, is_char_boundary};

use crate::auth::hmac_sha256_mac;
use crate::exchange_leverage::{b64_standard, sign_hmac_base64};
use crate::monitor::{notices_view, PendingNotice};
use crate::text::{concat2, concat3, decimal, decimal_string, owned};

verus! {

/// Notices listed in one message; the rest are counted.
pub const NOTICE_LINES_SHOWN: usize = 30;

/// Longest message body, bytes.
pub const NOTICE_CONTENT_MAX_BYTES: usize = 4_000;

/// Where an over-long body is cut, bytes.
pub const NOTICE_CONTENT_CUT_BYTES: usize = 3_980;

/// First line of every message: the host tag, when there is one, then the
/// product name.
pub open spec fn header_text(host_tag: Seq<char>) -> Seq<char> {
    if host_tag.len() == 0 {
        "[crypto_cta_manager] CTA 运行监控\n"@
    } else {
        "["@ + host_tag + "][crypto_cta_manager] CTA 运行监控\n"@
    }
}

/// The first line of a message.
pub fn notice_header(host_tag: &str) -> (r: String)
    ensures
        r@ == header_text(host_tag@),
{
    if host_tag.unicode_len() == 0 {
        owned("[crypto_cta_manager] CTA 运行监控\n")
    } else {
        concat3("[", host_tag, "][crypto_cta_manager] CTA 运行监控\n")
    }
}

/// A heartbeat message: the header and the heartbeat line.
pub fn heartbeat_content(host_tag: &str, message: &str) -> (r: String)
    ensures
        r@ == header_text(host_tag@) + "[心跳] "@ + message@ + "\n"@,
{
    let header = notice_header(host_tag);
    let head = concat2(header.as_str(), "[心跳] ");
    concat3(head.as_str(), message, "\n")
}

/// The lines of the first `n` notices: `[恢复]` or `[告警]`, a space, the
/// message.
pub open spec fn notice_lines(notices: Seq<(Seq<char>, Seq<char>, bool)>, n: int) -> Seq<char>
    decreases n,
{
    if n <= 0 {
        Seq::empty()
    } else {
        let (_, message, recovery) = notices[n - 1];
        notice_lines(notices, n - 1) + (if recovery {
            "[恢复]"@
        } else {
            "[告警]"@
        }) + " "@ + message + "\n"@
    }
}

/// A notice message before its length is limited: the header, the first
/// thirty notices, and a count of the others.
pub open spec fn notice_text(
    host_tag: Seq<char>,
    notices: Seq<(Seq<char>, Seq<char>, bool)>,
) -> Seq<char> {
    let shown = if notices.len() > NOTICE_LINES_SHOWN {
        NOTICE_LINES_SHOWN as int
    } else {
        notices.len() as int
    };
    header_text(host_tag) + notice_lines(notices, shown) + if notices.len() > NOTICE_LINES_SHOWN {
        "另有 "@ + decimal((notices.len() - NOTICE_LINES_SHOWN) as nat) + " 条告警未展开\n"@
    } else {
        Seq::empty()
    }
}

/// The message body before its length is limited.
pub fn notice_text_of(host_tag: &str, notices: &Vec<PendingNotice>) -> (r: String)
    ensures
        r@ == notice_text(host_tag@, notices_view(notices@)),
{
    let ghost nv = notices_view(notices@);
    let mut content = notice_header(host_tag);
    let shown = if notices.len() > NOTICE_LINES_SHOWN {
        NOTICE_LINES_SHOWN
    } else {
        notices.len()
    };
    let mut i: usize = 0;
    while i < shown
        invariant
            i <= shown <= notices@.len(),
            nv == notices_view(notices@),
            content@ == header_text(host_tag@) + notice_lines(nv, i as int),
        decreases shown - i,
    {
        let notice = &notices[i];
        assert(nv[i as int] == (notice.key@, notice.message@, notice.recovery));
        let prefix = if notice.recovery {
            "[恢复]"
        } else {
            "[告警]"
        };
        let head = concat3(content.as_str(), prefix, " ");
        content = concat3(head.as_str(), notice.message.as_str(), "\n");
        i = i + 1;
    }
    if notices.len() > NOTICE_LINES_SHOWN {
        let n = decimal_string((notices.len() - NOTICE_LINES_SHOWN) as u64);
        let more = concat3("另有 ", n.as_str(), " 条告警未展开\n");
        content = concat2(content.as_str(), more.as_str());
    } else {
        assert(content@ =~= content@ + Seq::<char>::empty());
    }
    content
}

/// The body can be limited: it is short enough, or the cut falls between
/// characters.
pub open spec fn fits_limit(text: Seq<char>) -> bool {
    encode_utf8(text).len() <= NOTICE_CONTENT_MAX_BYTES || is_char_boundary(
        encode_utf8(text),
        NOTICE_CONTENT_CUT_BYTES as int,
    )
}

/// A body over 4000 bytes cut to its first 3980 bytes and `...`.
pub open spec fn limited(text: Seq<char>) -> Seq<char> {
    if encode_utf8(text).len() > NOTICE_CONTENT_MAX_BYTES {
        decode_utf8(encode_utf8(text).subrange(0, NOTICE_CONTENT_CUT_BYTES as int)) + "...\n"@
    } else {
        text
    }
}

/// Limits a message body to 4000 bytes.
pub fn truncate_notice(content: String) -> (r: String)
    requires
        fits_limit(content@),
    ensures
        r@ == limited(content@),
{
    let s = content.as_str();
    if s.as_bytes().len() > NOTICE_CONTENT_MAX_BYTES {
        let (kept, _) = s.split_at(NOTICE_CONTENT_CUT_BYTES);
        proof {
            vstd::utf8::encode_utf8_decode_utf8(kept@);
        }
        concat2(kept, "...\n")
    } else {
        content
    }
}

/// A notice message: header, up to thirty notices and a count of the
/// others, limited to 4000 bytes.
pub fn notice_content(host_tag: &str, notices: &Vec<PendingNotice>) -> (r: String)
    requires
        fits_limit(notice_text(host_tag@, notices_view(notices@))),
    ensures
        r@ == limited(notice_text(host_tag@, notices_view(notices@))),
{
    truncate_notice(notice_text_of(host_tag, notices))
}

/// The text a signed webhook call signs: the time in milliseconds, a line
/// break, the secret.
pub open spec fn string_to_sign(timestamp_ms: u64, secret: Seq<char>) -> Seq<char> {
    decimal(timestamp_ms as nat) + "\n"@ + secret
}

/// The signature of a webhook call: Base64 of the HMAC-SHA256, keyed by
/// the secret, of the string to sign.
pub fn webhook_signature(timestamp_ms: u64, secret: &str) -> (r: String)
    ensures
        r@ == b64_standard(
            hmac_sha256_mac(encode_utf8(secret@), encode_utf8(string_to_sign(timestamp_ms, secret@))),
        ),
{
    let ts = decimal_string(timestamp_ms);
    let text = concat3(ts.as_str(), "\n", secret);
    sign_hmac_base64(secret, text.as_str())
}

} // verus!
