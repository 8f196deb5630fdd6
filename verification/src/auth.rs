//! Manager accounts: username and password rules, PBKDF2 password records,
//! session tokens and cookies, roles and source permissions.

use vstd::prelude::*;
use vstd::string::StringSliceAdditionalSpecFns;
use vstd::utf8::encode_utf8;

use base64::Engine;
use hmac::Mac;
use sha2::Digest;

use crate::text::{
    all_digits, chars_of, chars_start_with, concat2, concat3, decimal, decimal_string, digit_char,
    digits_value, is_whitespace, lemma_digits_value_prefix, lemma_split_on_nonempty,
    is_alnum, is_digit, owned, slice_range, split_chars, split_on, split_once, split_once_chars,
    str_eq, string_of, trim, trim_chars, trimmed, views, char_is_alnum,
};

verus! {

/// Name of the session cookie.
pub const SESSION_COOKIE: &'static str = "cta_session";

/// Lifetime of a session, in seconds (seven days).
pub const SESSION_TTL_SECS: i64 = 604_800;

/// PBKDF2 iterations of new password records.
pub const PASSWORD_ITERATIONS: u32 = 120_000;

/// A user as the account pages list it.
#[derive(Debug, Clone)]
pub struct UserView {
    pub user_id: i64,
    pub username: String,
    pub role: String,
    pub source_ids: Vec<String>,
}

/// The user of an authenticated request.
#[derive(Debug, Clone)]
pub struct AuthUser {
    pub user_id: i64,
    pub username: String,
    pub role: String,
}

impl AuthUser {
    /// The user has the `admin` role.
    pub fn is_admin(&self) -> (r: bool)
        ensures
            r == (self.role@ == "admin"@),
    {
        str_eq(self.role.as_str(), "admin")
    }
}

/// Registration form.
#[derive(Debug, Clone)]
pub struct RegisterRequest {
    pub username: String,
    pub password: String,
}

/// Login form.
#[derive(Debug, Clone)]
pub struct LoginRequest {
    pub username: String,
    pub password: String,
}

/// Source permissions form.
#[derive(Debug, Clone)]
pub struct SetSourcesRequest {
    pub source_ids: Vec<String>,
}

/// Role change form.
#[derive(Debug, Clone)]
pub struct SetRoleRequest {
    pub role: String,
}

/// Why an account request is refused.
#[derive(Debug, Clone, Copy, PartialEq, Eq, Structural)]
pub enum AuthError {
    UsernameLength,
    UsernameChars,
    PasswordTooShort,
    PasswordTooLong,
    InvalidRole,
    LastAdministrator,
    UnknownSource,
}

/// Operator-facing text of a refused account request.
pub open spec fn auth_error_text(e: AuthError) -> Seq<char> {
    match e {
        AuthError::UsernameLength => "username must be between 3 and 64 characters"@,
        AuthError::UsernameChars => "username contains unsupported characters"@,
        AuthError::PasswordTooShort => "password must contain at least 8 characters"@,
        AuthError::PasswordTooLong => "password must not contain more than 256 characters"@,
        AuthError::InvalidRole => "role must be admin or user"@,
        AuthError::LastAdministrator => "the last administrator cannot be demoted"@,
        AuthError::UnknownSource => "source_ids contains an unknown source"@,
    }
}

impl AuthError {
    /// Operator-facing text of the error.
    pub fn message(&self) -> (r: &'static str)
        ensures
            r@ == auth_error_text(*self),
    {
        match self {
            AuthError::UsernameLength => "username must be between 3 and 64 characters",
            AuthError::UsernameChars => "username contains unsupported characters",
            AuthError::PasswordTooShort => "password must contain at least 8 characters",
            AuthError::PasswordTooLong => "password must not contain more than 256 characters",
            AuthError::InvalidRole => "role must be admin or user",
            AuthError::LastAdministrator => "the last administrator cannot be demoted",
            AuthError::UnknownSource => "source_ids contains an unknown source",
        }
    }
}

/// Characters allowed in usernames.
pub open spec fn username_char(c: char) -> bool {
    is_alnum(c) || c == '_' || c == '-' || c == '.' || c == '@'
}

/// The error a username gives, if any: its trimmed form must be 3 to 64
/// bytes of ASCII letters, digits, `_`, `-`, `.` or `@`.
pub open spec fn username_error(u: Seq<char>) -> Option<AuthError> {
    let t = trim(u);
    let n = encode_utf8(t).len();
    if n < 3 || n > 64 {
        Some(AuthError::UsernameLength)
    } else if !(forall|i: int| 0 <= i < t.len() ==> username_char(#[trigger] t[i])) {
        Some(AuthError::UsernameChars)
    } else {
        None
    }
}

/// Checks a username and returns its trimmed form.
pub fn validate_username(username: &str) -> (r: Result<String, AuthError>)
    ensures
        r is Ok <==> username_error(username@) is None,
        r matches Ok(t) ==> t@ == trim(username@),
        r matches Err(e) ==> username_error(username@) == Some(e),
{
    let t = trimmed(username);
    let n = t.as_str().as_bytes().len();
    if n < 3 || n > 64 {
        return Err(AuthError::UsernameLength);
    }
    let cs = chars_of(t.as_str());
    let mut i: usize = 0;
    while i < cs.len()
        invariant
            cs@ == trim(username@),
            3 <= encode_utf8(trim(username@)).len() <= 64,
            i <= cs@.len(),
            forall|k: int| 0 <= k < i ==> username_char(#[trigger] cs@[k]),
        decreases cs@.len() - i,
    {
        let c = cs[i];
        if !(char_is_alnum(c) || c == '_' || c == '-' || c == '.' || c == '@') {
            assert(!username_char(cs@[i as int]));
            return Err(AuthError::UsernameChars);
        }
        i = i + 1;
    }
    Ok(t)
}

/// The error a password gives, if any: it must be 8 to 256 bytes long.
pub open spec fn password_error(p: Seq<char>) -> Option<AuthError> {
    let n = encode_utf8(p).len();
    if n < 8 {
        Some(AuthError::PasswordTooShort)
    } else if n > 256 {
        Some(AuthError::PasswordTooLong)
    } else {
        None
    }
}

/// Checks a password's length in bytes.
pub fn validate_password(password: &str) -> (r: Result<(), AuthError>)
    ensures
        r is Ok <==> password_error(password@) is None,
        r matches Err(e) ==> password_error(password@) == Some(e),
{
    let n = password.as_bytes().len();
    if n < 8 {
        return Err(AuthError::PasswordTooShort);
    }
    if n > 256 {
        return Err(AuthError::PasswordTooLong);
    }
    Ok(())
}

/// Characters of the URL-safe base64 alphabet.
pub open spec fn url_safe_char(c: char) -> bool {
    is_alnum(c) || c == '-' || c == '_'
}

/// Text that `URL_SAFE_NO_PAD.encode` makes of `bytes`: unpadded base64
/// with the URL-safe alphabet.
pub uninterp spec fn b64url(bytes: Seq<u8>) -> Seq<char>;

/// `base64::engine::general_purpose::URL_SAFE_NO_PAD.encode`. The result is
/// named by `b64url`; it uses only the URL-safe alphabet.
#[verifier::external_body]
fn b64url_encode(bytes: &[u8]) -> (r: String)
    ensures
        r@ == b64url(bytes@),
        forall|i: int| 0 <= i < r@.len() ==> url_safe_char(#[trigger] r@[i]),
{
    base64::engine::general_purpose::URL_SAFE_NO_PAD.encode(bytes)
}

/// `base64::engine::general_purpose::URL_SAFE_NO_PAD.decode`, with errors
/// mapped to `None`. The engine requires canonical unpadded input, so it
/// decodes exactly the texts that `encode` produces, each to the bytes it
/// was made from.
#[verifier::external_body]
fn b64url_decode(text: &str) -> (r: Option<Vec<u8>>)
    ensures
        r matches Some(v) ==> text@ == b64url(v@),
        forall|x: Seq<u8>| text@ == #[trigger] b64url(x) ==> r is Some && r.unwrap()@ == x,
{
    base64::engine::general_purpose::URL_SAFE_NO_PAD.decode(text).ok()
}

/// HMAC-SHA256 of `msg` under `key`.
pub uninterp spec fn hmac_sha256_mac(key: Seq<u8>, msg: Seq<u8>) -> Seq<u8>;

/// HMAC-SHA256 (`hmac::Hmac::<sha2::Sha256>`): a key of any length is
/// accepted, `msg` is fed once, the 32-byte tag is returned. The tag is
/// named by `hmac_sha256_mac`.
#[verifier::external_body]
pub(crate) fn hmac_sha256(key: &[u8], msg: &[u8]) -> (r: [u8; 32])
    ensures
        r@ == hmac_sha256_mac(key@, msg@),
{
    let mut mac = hmac::Hmac::<sha2::Sha256>::new_from_slice(key).expect(
        "HMAC accepts every key length",
    );
    mac.update(msg);
    mac.finalize().into_bytes().into()
}

/// SHA-256 digest of `bytes`.
pub uninterp spec fn sha256_digest(bytes: Seq<u8>) -> Seq<u8>;

/// `sha2::Sha256::digest`, as a vector. The digest is named by
/// `sha256_digest`.
#[verifier::external_body]
fn sha256(bytes: &[u8]) -> (r: Vec<u8>)
    ensures
        r@ == sha256_digest(bytes@),
{
    sha2::Sha256::digest(bytes).to_vec()
}

/// Bytewise XOR of two equally long byte strings.
pub open spec fn xor_seq(a: Seq<u8>, b: Seq<u8>) -> Seq<u8> {
    Seq::new(a.len(), |i: int| a[i] ^ b[i])
}

/// The `k`-th PBKDF2 block value `U_k` (first block, HMAC-SHA256).
pub open spec fn pbkdf2_u(p: Seq<u8>, s: Seq<u8>, k: nat) -> Seq<u8>
    decreases k,
{
    if k <= 1 {
        hmac_sha256_mac(p, s + seq![0u8, 0u8, 0u8, 1u8])
    } else {
        hmac_sha256_mac(p, pbkdf2_u(p, s, (k - 1) as nat))
    }
}

/// `U_1 ^ U_2 ^ ... ^ U_k`: the first PBKDF2-HMAC-SHA256 block after `k`
/// iterations (at least one).
pub open spec fn pbkdf2_block(p: Seq<u8>, s: Seq<u8>, k: nat) -> Seq<u8>
    decreases k,
{
    if k <= 1 {
        pbkdf2_u(p, s, 1)
    } else {
        xor_seq(pbkdf2_block(p, s, (k - 1) as nat), pbkdf2_u(p, s, k))
    }
}

/// PBKDF2-HMAC-SHA256 with a 32-byte output (one block); zero iterations
/// count as one.
pub fn pbkdf2_sha256(password: &[u8], salt: &[u8], iterations: u32) -> (r: [u8; 32])
    ensures
        r@ == pbkdf2_block(password@, salt@, iterations as nat),
{
    let mut input: Vec<u8> = slice_range(salt, 0, salt.len());
    input.push(0);
    input.push(0);
    input.push(0);
    input.push(1);
    assert(input@ =~= salt@ + seq![0u8, 0u8, 0u8, 1u8]);
    let mut block = hmac_sha256(password, input.as_slice());
    let mut output = block;
    let mut k: u32 = 1;
    while k < iterations
        invariant
            1 <= k,
            k <= iterations || iterations <= 1,
            iterations <= 1 ==> k == 1,
            block@ == pbkdf2_u(password@, salt@, k as nat),
            output@ == pbkdf2_block(password@, salt@, k as nat),
        decreases iterations - k,
    {
        block = hmac_sha256(password, &block);
        let mut j: usize = 0;
        let ghost before = output@;
        while j < 32
            invariant
                j <= 32,
                before.len() == 32,
                block@.len() == 32,
                forall|m: int| 0 <= m < j ==> output@[m] == before[m] ^ block@[m],
                forall|m: int| j <= m < 32 ==> output@[m] == before[m],
            decreases 32 - j,
        {
            output[j] = output[j] ^ block[j];
            j = j + 1;
        }
        k = k + 1;
        assert(output@ =~= xor_seq(before, block@));
    }
    output
}

/// Byte strings are equal; computed without an early exit.
fn constant_time_eq(a: &[u8], b: &[u8]) -> (r: bool)
    ensures
        r == (a@ == b@),
{
    if a.len() != b.len() {
        return false;
    }
    let mut difference: u8 = 0;
    let mut i: usize = 0;
    while i < a.len()
        invariant
            a@.len() == b@.len(),
            i <= a@.len(),
            (difference == 0) == (forall|k: int| 0 <= k < i ==> a@[k] == b@[k]),
        decreases a@.len() - i,
    {
        let x = a[i];
        let y = b[i];
        let d = difference;
        assert(((d | (x ^ y)) == 0) == (d == 0 && x == y)) by (bit_vector);
        difference = difference | (x ^ y);
        i = i + 1;
    }
    if difference == 0 {
        assert(a@ =~= b@);
    }
    difference == 0
}


/// `str::parse::<u32>`: an optional `+`, then one or more ASCII digits whose
/// value fits a `u32`.
pub open spec fn parse_u32_spec(s: Seq<char>) -> Option<u32> {
    let d = if s.len() > 0 && s[0] == '+' {
        s.skip(1)
    } else {
        s
    };
    if d.len() > 0 && all_digits(d) && digits_value(d) <= u32::MAX {
        Some(digits_value(d) as u32)
    } else {
        None
    }
}

/// Parses a decimal `u32` as `str::parse` does.
pub fn parse_u32(s: &[char]) -> (r: Option<u32>)
    ensures
        r == parse_u32_spec(s@),
{
    let start: usize = if s.len() > 0 && s[0] == '+' {
        1
    } else {
        0
    };
    let ghost d = s@.skip(start as int);
    assert(d =~= if s@.len() > 0 && s@[0] == '+' {
        s@.skip(1)
    } else {
        s@
    });
    if start == s.len() {
        return None;
    }
    let mut v: u64 = 0;
    let mut i: usize = start;
    while i < s.len()
        invariant
            start <= i <= s@.len(),
            start < s@.len(),
            d == s@.skip(start as int),
            d == (if s@.len() > 0 && s@[0] == '+' {
                s@.skip(1)
            } else {
                s@
            }),
            forall|k: int| 0 <= k < i - start ==> is_digit(#[trigger] d[k]),
            v as nat == digits_value(d.take(i - start)),
            v <= u32::MAX,
        decreases s@.len() - i,
    {
        let c = s[i];
        assert(d[i - start] == c);
        if c < '0' || c > '9' {
            assert(!is_digit(d[i - start]));
            return None;
        }
        assert(d.take(i - start + 1).drop_last() =~= d.take(i - start));
        assert(d.take(i - start + 1).last() == c);
        assert(digits_value(d.take(i - start + 1)) == digits_value(d.take(i - start)) * 10 + ((c as u32) - 48) as nat);
        let digit: u64 = ((c as u32) - 48) as u64;
        v = v * 10 + digit;
        i = i + 1;
        if v > 0xFFFF_FFFF {
            proof {
                assert(v as nat == digits_value(d.take(i - start)));
                if forall|k: int| 0 <= k < d.len() ==> is_digit(#[trigger] d[k]) {
                    lemma_digits_value_prefix(d, i - start);
                    assert(digits_value(d) > u32::MAX);
                }
            }
            return None;
        }
    }
    assert(d.take(d.len() as int) =~= d);
    Some(v as u32)
}

/// Some salt and digest encode, in the record's text, to `salt_text` and
/// `digest_text`, and the password's PBKDF2 value with that salt and
/// `n` iterations is the digest.
pub open spec fn record_matches(pw: Seq<u8>, salt_text: Seq<char>, digest_text: Seq<char>, n: u32) -> bool {
    exists|s: Seq<u8>, e: Seq<u8>|
        salt_text == #[trigger] b64url(s) && digest_text == #[trigger] b64url(e)
            && pbkdf2_block(pw, s, n as nat) == e
}

/// A password matches a record `pbkdf2-sha256$<iterations>$<salt>$<digest>`:
/// the algorithm is right, the password has a valid length, the iterations
/// lie in 10 000..=1 000 000, and the password's PBKDF2 digest with that salt
/// is the stored one.
pub open spec fn password_matches(password: Seq<char>, encoded: Seq<char>) -> bool {
    match split_once(encoded, '$') {
        None => false,
        Some((algorithm, rest)) => match split_once(rest, '$') {
            None => false,
            Some((iterations, rest2)) => match split_once(rest2, '$') {
                None => false,
                Some((salt, digest)) => {
                    &&& algorithm == "pbkdf2-sha256"@
                    &&& password_error(password) is None
                    &&& parse_u32_spec(iterations) matches Some(n) && 10_000 <= n <= 1_000_000
                        && record_matches(encode_utf8(password), salt, digest, n)
                },
            },
        },
    }
}

fn eq_chars_lit(t: &[char], lit: &str) -> (r: bool)
    ensures
        r == (t@ == lit@),
{
    let l = chars_of(lit);
    crate::text::chars_eq(t, l.as_slice())
}

/// Checks a password against a stored password record.
pub fn verify_password(password: &str, encoded_hash: &str) -> (r: bool)
    ensures
        r == password_matches(password@, encoded_hash@),
{
    let cs = chars_of(encoded_hash);
    let (algorithm, rest) = match split_once_chars(cs.as_slice(), '$') {
        Some(p) => p,
        None => {
            return false;
        },
    };
    let (iterations, rest2) = match split_once_chars(rest.as_slice(), '$') {
        Some(p) => p,
        None => {
            return false;
        },
    };
    let (salt, expected) = match split_once_chars(rest2.as_slice(), '$') {
        Some(p) => p,
        None => {
            return false;
        },
    };
    if !eq_chars_lit(algorithm.as_slice(), "pbkdf2-sha256") || validate_password(password).is_err() {
        return false;
    }
    let iterations = match parse_u32(iterations.as_slice()) {
        Some(n) => n,
        None => {
            return false;
        },
    };
    if iterations < 10_000 || iterations > 1_000_000 {
        return false;
    }
    let salt_text = string_of(salt.as_slice());
    let expected_text = string_of(expected.as_slice());
    let salt = match b64url_decode(salt_text.as_str()) {
        Some(v) => v,
        None => {
            return false;
        },
    };
    let expected = match b64url_decode(expected_text.as_str()) {
        Some(v) => v,
        None => {
            return false;
        },
    };
    let actual = pbkdf2_sha256(password.as_bytes(), salt.as_slice(), iterations);
    let r = constant_time_eq(&actual, expected.as_slice());
    proof {
        let pw = encode_utf8(password@);
        if r {
            assert(pbkdf2_block(pw, salt@, iterations as nat) == expected@);
            assert(record_matches(pw, salt_text@, expected_text@, iterations));
        } else {
            assert forall|s: Seq<u8>, e: Seq<u8>|
                salt_text@ == #[trigger] b64url(s) && expected_text@ == #[trigger] b64url(
                    e,
                ) implies pbkdf2_block(pw, s, iterations as nat) != e by {
                assert(s == salt@);
                assert(e == expected@);
            }
        }
    }
    r
}

/// The text after the prefix `cta_session=` of the first cookie piece (split
/// at `;`, trimmed) that carries it.
pub open spec fn session_prefix() -> Seq<char> {
    "cta_session="@
}

/// A trimmed cookie piece that starts with `cta_session=`.
pub open spec fn session_piece(p: Seq<char>) -> bool {
    p.len() >= session_prefix().len() && p.take(session_prefix().len() as int) == session_prefix()
}

/// The session token in a `Cookie` header.
pub open spec fn cookie_session_value(header: Seq<char>) -> Option<Seq<char>> {
    let ps = split_on(header, ';');
    if exists|i: int| 0 <= i < ps.len() && session_piece(trim(#[trigger] ps[i])) {
        let i = choose|i: int|
            0 <= i < ps.len() && session_piece(trim(#[trigger] ps[i])) && forall|k: int|
                0 <= k < i ==> !session_piece(trim(#[trigger] ps[k]));
        Some(trim(ps[i]).skip(session_prefix().len() as int))
    } else {
        None
    }
}

/// The session token of a `Cookie` header, if it carries one.
pub fn extract_session_cookie(cookie_header: Option<&str>) -> (r: Option<String>)
    ensures
        cookie_header is None ==> r is None,
        cookie_header matches Some(h) ==> (r is None <==> cookie_session_value(h@) is None),
        cookie_header matches Some(h) ==> (r matches Some(v) ==> cookie_session_value(h@) == Some(
            v@,
        )),
{
    let h = match cookie_header {
        Some(h) => h,
        None => {
            return None;
        },
    };
    let cs = chars_of(h);
    let parts = split_chars(cs.as_slice(), ';');
    let ghost ps = views(parts@);
    let prefix = chars_of("cta_session=");
    let mut i: usize = 0;
    while i < parts.len()
        invariant
            i <= parts@.len(),
            ps == views(parts@),
            ps == split_on(h@, ';'),
            cookie_header == Some(h),
            prefix@ == session_prefix(),
            forall|k: int| 0 <= k < i ==> !session_piece(trim(#[trigger] ps[k])),
        decreases parts@.len() - i,
    {
        let t = trim_chars(parts[i].as_slice());
        assert(ps[i as int] == parts@[i as int]@);
        if chars_start_with(t.as_slice(), prefix.as_slice()) {
            let v = string_of(slice_range(t.as_slice(), prefix.len(), t.len()).as_slice());
            proof {
                let j = choose|j: int|
                    0 <= j < ps.len() && session_piece(trim(#[trigger] ps[j])) && forall|k: int|
                        0 <= k < j ==> !session_piece(trim(#[trigger] ps[k]));
                assert(session_piece(trim(ps[i as int])));
                if j < i {
                    assert(!session_piece(trim(ps[j])));
                }
                if j > i {
                    assert(!session_piece(trim(ps[i as int])));
                }
                assert(j == i);
                assert(v@ =~= trim(ps[i as int]).skip(session_prefix().len() as int));
            }
            return Some(v);
        }
        i = i + 1;
    }
    None
}

/// The `Set-Cookie` value of a new session.
pub open spec fn session_cookie_text(token: Seq<char>) -> Seq<char> {
    "cta_session"@ + "="@ + token + "; Path=/; Max-Age="@ + decimal(SESSION_TTL_SECS as nat)
        + "; HttpOnly; SameSite=Strict"@
}

/// `Set-Cookie` value that stores a session token for seven days.
pub fn session_cookie(token: &str) -> (r: String)
    ensures
        r@ == session_cookie_text(token@),
{
    let ttl = decimal_string(SESSION_TTL_SECS as u64);
    let mut out = concat3(SESSION_COOKIE, "=", token);
    out.append("; Path=/; Max-Age=");
    out.append(ttl.as_str());
    out.append("; HttpOnly; SameSite=Strict");
    out
}

/// A text without `c` splits into itself alone.
proof fn lemma_split_on_without(s: Seq<char>, c: char)
    requires
        forall|i: int| 0 <= i < s.len() ==> s[i] != c,
    ensures
        split_on(s, c) == seq![s],
    decreases s.len(),
{
    if s.len() > 0 {
        lemma_split_on_without(s.drop_last(), c);
        assert(s.drop_last().push(s.last()) =~= s);
        assert(seq![s.drop_last()].update(0, s.drop_last().push(s.last())) =~= seq![s]);
    } else {
        assert(s =~= Seq::<char>::empty());
    }
}

/// A text holding `c` splits into at least two pieces.
proof fn lemma_split_on_with(s: Seq<char>, c: char, k: int)
    requires
        0 <= k < s.len(),
        s[k] == c,
    ensures
        split_on(s, c).len() >= 2,
    decreases s.len(),
{
    lemma_split_on_nonempty(s.drop_last(), c);
    if k < s.len() - 1 {
        lemma_split_on_with(s.drop_last(), c, k);
    }
}

/// The first piece of `a + r`, where `a` holds no `c` and `r` is empty or
/// starts with `c`, is `a`.
proof fn lemma_split_on_first(a: Seq<char>, r: Seq<char>, c: char)
    requires
        forall|i: int| 0 <= i < a.len() ==> a[i] != c,
        r.len() == 0 || r[0] == c,
    ensures
        split_on(a + r, c)[0] == a,
    decreases r.len(),
{
    if r.len() == 0 {
        assert(a + r =~= a);
        lemma_split_on_without(a, c);
    } else {
        let s = a + r;
        let shorter = a + r.drop_last();
        assert(s.drop_last() =~= shorter);
        lemma_split_on_nonempty(shorter, c);
        if r.len() == 1 {
            assert(shorter =~= a);
            lemma_split_on_without(a, c);
        } else {
            lemma_split_on_first(a, r.drop_last(), c);
            assert(shorter[a.len() as int] == c);
            lemma_split_on_with(shorter, c, a.len() as int);
        }
    }
}

/// A trimmed text is itself when it starts and ends with no whitespace.
proof fn lemma_trim_unchanged(s: Seq<char>)
    requires
        s.len() > 0,
        !is_whitespace(s[0]),
        !is_whitespace(s.last()),
    ensures
        trim(s) == s,
{
}

/// A header whose first piece is a session piece carrying `token` carries
/// `token`.
proof fn lemma_session_piece_first(a: Seq<char>, token: Seq<char>, r: Seq<char>)
    requires
        forall|i: int| 0 <= i < a.len() ==> a[i] != ';',
        session_piece(trim(a)),
        trim(a).skip(session_prefix().len() as int) == token,
        r.len() == 0 || r[0] == ';',
    ensures
        cookie_session_value(a + r) == Some(token),
{
    lemma_split_on_first(a, r, ';');
    lemma_split_on_nonempty(a + r, ';');
    let ps = split_on(a + r, ';');
    assert(session_piece(trim(ps[0])));
    let i = choose|i: int|
        0 <= i < ps.len() && session_piece(trim(#[trigger] ps[i])) && forall|k: int|
            0 <= k < i ==> !session_piece(trim(#[trigger] ps[k]));
    if i > 0 {
        assert(!session_piece(trim(ps[0])));
    }
}

/// What `session_cookie` sets is what `extract_session_cookie` reads back:
/// a header that starts with `cta_session=` and a token, followed by nothing
/// or by `;` and more, carries that token, for any token without `;` that
/// does not end in whitespace (session tokens are URL-safe Base64).
pub proof fn lemma_session_cookie_reads_back(token: Seq<char>, rest: Seq<char>)
    requires
        forall|i: int| 0 <= i < token.len() ==> token[i] != ';',
        token.len() == 0 || !is_whitespace(token.last()),
        rest.len() == 0 || rest[0] == ';',
    ensures
        cookie_session_value(session_prefix() + token + rest) == Some(token),
        cookie_session_value(session_cookie_text(token)) == Some(token),
{
    reveal_strlit("cta_session=");
    reveal_strlit("cta_session");
    reveal_strlit("=");
    reveal_strlit("; Path=/; Max-Age=");
    let a = session_prefix() + token;
    assert forall|i: int| 0 <= i < a.len() implies a[i] != ';' by {
        if i >= session_prefix().len() {
            assert(a[i] == token[i - session_prefix().len()]);
        }
    }
    assert(a[0] == 'c');
    assert(a.last() == if token.len() == 0 {
        '='
    } else {
        token.last()
    });
    lemma_trim_unchanged(a);
    assert(a.take(session_prefix().len() as int) =~= session_prefix());
    assert(session_piece(trim(a)));
    assert(trim(a).skip(session_prefix().len() as int) =~= token);
    lemma_session_piece_first(a, token, rest);
    let tail = "; Path=/; Max-Age="@ + decimal(SESSION_TTL_SECS as nat) + "; HttpOnly; SameSite=Strict"@;
    assert(session_cookie_text(token) =~= a + tail);
    assert(tail[0] == ';');
    lemma_session_piece_first(a, token, tail);
}

/// `Set-Cookie` value that removes the session cookie.
pub fn clear_session_cookie() -> (r: &'static str)
    ensures
        r@ == "cta_session=; Path=/; Max-Age=0; HttpOnly; SameSite=Strict"@,
{
    "cta_session=; Path=/; Max-Age=0; HttpOnly; SameSite=Strict"
}

/// The digest stored for a session token: SHA-256 of its UTF-8 bytes.
pub fn token_hash(token: &str) -> (r: Vec<u8>)
    ensures
        r@ == sha256_digest(encode_utf8(token@)),
{
    sha256(token.as_bytes())
}

/// The session token text of 32 random bytes: URL-safe base64 without
/// padding.
pub fn session_token_from_bytes(bytes: &[u8; 32]) -> (r: String)
    ensures
        r@ == b64url(bytes@),
        forall|i: int| 0 <= i < r@.len() ==> url_safe_char(#[trigger] r@[i]),
{
    b64url_encode(bytes)
}

/// The stored record of a password: algorithm, iterations, salt and digest,
/// separated by `$`.
pub open spec fn password_record_text(password: Seq<char>, salt: Seq<u8>) -> Seq<char> {
    "pbkdf2-sha256"@ + seq!['$'] + decimal(PASSWORD_ITERATIONS as nat) + seq!['$'] + b64url(salt)
        + seq!['$'] + b64url(pbkdf2_block(encode_utf8(password), salt, PASSWORD_ITERATIONS as nat))
}

/// `split_once(a + c + b, c)` splits at the `c` after `a` when `a` has no `c`.
pub proof fn lemma_split_once_concat(a: Seq<char>, b: Seq<char>, c: char)
    requires
        forall|i: int| 0 <= i < a.len() ==> a[i] != c,
    ensures
        split_once(a + seq![c] + b, c) == Some((a, b)),
{
    let s = a + seq![c] + b;
    assert(s[a.len() as int] == c);
    let i = choose|i: int| 0 <= i < s.len() && s[i] == c && forall|k: int| 0 <= k < i ==> s[k] != c;
    assert(0 <= i < s.len() && s[i] == c && forall|k: int| 0 <= k < i ==> s[k] != c) by {
        assert(0 <= a.len() < s.len() && s[a.len() as int] == c && forall|k: int|
            0 <= k < a.len() ==> s[k] != c);
    }
    if i < a.len() {
        assert(s[i] == a[i]);
    }
    if i > a.len() {
        assert(s[a.len() as int] == c);
    }
    assert(i == a.len());
    assert(s.take(i) =~= a);
    assert(s.skip(i + 1) =~= b);
}

/// The decimal text of `n` is digits and reads back as `n`.
pub proof fn lemma_decimal_parses(n: nat)
    ensures
        decimal(n).len() > 0,
        all_digits(decimal(n)),
        digits_value(decimal(n)) == n,
    decreases n,
{
    if n >= 10 {
        lemma_decimal_parses(n / 10);
        let d = decimal(n / 10);
        let x = decimal(n);
        let dd: int = (n % 10) as int;
        assert(0 <= dd < 10);
        assert(((((dd + 48) as u8) as char) as u32) == dd + 48);
        assert(x == d.push(digit_char(dd)));
        assert(x.drop_last() =~= d);
        assert(x.last() == digit_char(dd));
        assert(digits_value(x) == digits_value(d) * 10 + dd);
        assert((n / 10) * 10 + n % 10 == n) by (nonlinear_arith);
        assert forall|i: int| 0 <= i < x.len() implies is_digit(#[trigger] x[i]) by {
            if i < d.len() {
                assert(x[i] == d[i]);
            }
        }
    } else {
        let x = decimal(n);
        assert(((((n + 48) as u8) as char) as u32) == n + 48);
        assert(x =~= seq![digit_char(n as int)]);
        assert(x.drop_last() =~= Seq::<char>::empty());
        assert(digits_value(x) == digits_value(x.drop_last()) * 10 + ((x.last() as u32) - 48) as nat);
    }
}

/// A record built from the password's PBKDF2 digest verifies against it.
proof fn lemma_record_verifies(
    password: Seq<char>,
    salt: Seq<u8>,
    derived: Seq<u8>,
    st: Seq<char>,
    dt: Seq<char>,
    rec: Seq<char>,
)
    requires
        password_error(password) is None,
        derived == pbkdf2_block(encode_utf8(password), salt, PASSWORD_ITERATIONS as nat),
        st == b64url(salt),
        dt == b64url(derived),
        forall|i: int| 0 <= i < st.len() ==> url_safe_char(#[trigger] st[i]),
        rec == password_record_text(password, salt),
    ensures
        password_matches(password, rec),
{
    let pw = encode_utf8(password);
    let a = "pbkdf2-sha256"@;
    let it = decimal(PASSWORD_ITERATIONS as nat);
    reveal_strlit("pbkdf2-sha256");
    lemma_decimal_parses(PASSWORD_ITERATIONS as nat);
    assert(forall|i: int| 0 <= i < a.len() ==> a[i] != '$');
    assert forall|i: int| 0 <= i < it.len() implies it[i] != '$' by {
        assert(is_digit(it[i]));
    }
    assert forall|i: int| 0 <= i < st.len() implies st[i] != '$' by {
        assert(url_safe_char(st[i]));
    }
    let rest2 = st + seq!['$'] + dt;
    let rest1 = it + seq!['$'] + rest2;
    assert(rec =~= a + seq!['$'] + rest1);
    lemma_split_once_concat(a, rest1, '$');
    lemma_split_once_concat(it, rest2, '$');
    lemma_split_once_concat(st, dt, '$');
    assert(is_digit(it[0]));
    assert(parse_u32_spec(it) == Some(PASSWORD_ITERATIONS));
    assert(b64url(salt) == st && b64url(derived) == dt);
    assert(record_matches(pw, st, dt, PASSWORD_ITERATIONS));
}

/// Builds the stored record of a password for a given salt. The record
/// verifies against the password it was made from.
pub fn encode_password_record(password: &str, salt: &[u8]) -> (r: Result<String, AuthError>)
    ensures
        r is Ok <==> password_error(password@) is None,
        r matches Err(e) ==> password_error(password@) == Some(e),
        r matches Ok(rec) ==> rec@ == password_record_text(password@, salt@),
        r matches Ok(rec) ==> password_matches(password@, rec@),
{
    validate_password(password)?;
    let derived = pbkdf2_sha256(password.as_bytes(), salt, PASSWORD_ITERATIONS);
    let salt_text = b64url_encode(salt);
    let digest_text = b64url_encode(&derived);
    let iterations = decimal_string(PASSWORD_ITERATIONS as u64);
    let mut out = owned("pbkdf2-sha256");
    crate::text::push_char(&mut out, '$');
    out.append(iterations.as_str());
    crate::text::push_char(&mut out, '$');
    out.append(salt_text.as_str());
    crate::text::push_char(&mut out, '$');
    out.append(digest_text.as_str());
    proof {
        assert(out@ =~= password_record_text(password@, salt@));
        lemma_record_verifies(password@, salt@, derived@, salt_text@, digest_text@, out@);
    }
    Ok(out)
}

/// Role a new account gets: the first account administers.
pub fn registration_role(already_exists: bool) -> (r: &'static str)
    ensures
        r@ == (if already_exists {
            "user"@
        } else {
            "admin"@
        }),
{
    if already_exists {
        "user"
    } else {
        "admin"
    }
}

/// Accepts the roles `admin` and `user`.
pub fn validate_role(role: &str) -> (r: Result<(), AuthError>)
    ensures
        r is Ok <==> (role@ == "admin"@ || role@ == "user"@),
        r matches Err(e) ==> e == AuthError::InvalidRole,
{
    if str_eq(role, "admin") || str_eq(role, "user") {
        Ok(())
    } else {
        Err(AuthError::InvalidRole)
    }
}

/// A role change may not demote the last administrator.
pub fn check_role_change(current_role: &str, new_role: &str, admin_count: i64) -> (r: Result<
    (),
    AuthError,
>)
    ensures
        r is Ok <==> !(current_role@ == "admin"@ && new_role@ == "user"@ && admin_count <= 1),
        r matches Err(e) ==> e == AuthError::LastAdministrator,
{
    if str_eq(current_role, "admin") && str_eq(new_role, "user") && admin_count <= 1 {
        Err(AuthError::LastAdministrator)
    } else {
        Ok(())
    }
}

/// Some entry of `v` has the text `s`.
pub open spec fn contains_text(v: Seq<String>, s: Seq<char>) -> bool {
    exists|i: int| 0 <= i < v.len() && (#[trigger] v[i])@ == s
}

pub fn has_text(v: &Vec<String>, s: &str) -> (r: bool)
    ensures
        r == contains_text(v@, s@),
{
    let mut i: usize = 0;
    while i < v.len()
        invariant
            i <= v@.len(),
            forall|k: int| 0 <= k < i ==> (#[trigger] v@[k])@ != s@,
        decreases v@.len() - i,
    {
        if str_eq(v[i].as_str(), s) {
            return true;
        }
        i = i + 1;
    }
    false
}

/// The source ids a permission update grants: the requested ids trimmed,
/// each once. Refused when one is empty or not configured.
pub fn requested_source_ids(source_ids: &Vec<String>, configured: &Vec<String>) -> (r: Result<
    Vec<String>,
    AuthError,
>)
    ensures
        r is Ok <==> forall|i: int|
            0 <= i < source_ids@.len() ==> trim((#[trigger] source_ids@[i])@).len() > 0
                && contains_text(configured@, trim(source_ids@[i]@)),
        r matches Err(e) ==> e == AuthError::UnknownSource,
        r matches Ok(ids) ==> forall|s: Seq<char>|
            contains_text(ids@, s) <==> exists|i: int|
                0 <= i < source_ids@.len() && trim((#[trigger] source_ids@[i])@) == s,
        r matches Ok(ids) ==> forall|a: int, b: int|
            0 <= a < b < ids@.len() ==> (#[trigger] ids@[a])@ != (#[trigger] ids@[b])@,
{
    let mut out: Vec<String> = Vec::new();
    let mut i: usize = 0;
    while i < source_ids.len()
        invariant
            i <= source_ids@.len(),
            forall|k: int|
                0 <= k < i ==> trim((#[trigger] source_ids@[k])@).len() > 0 && contains_text(
                    configured@,
                    trim(source_ids@[k]@),
                ),
            forall|s: Seq<char>|
                contains_text(out@, s) <==> exists|k: int|
                    0 <= k < i && trim((#[trigger] source_ids@[k])@) == s,
            forall|a: int, b: int|
                0 <= a < b < out@.len() ==> (#[trigger] out@[a])@ != (#[trigger] out@[b])@,
        decreases source_ids@.len() - i,
    {
        let id = trimmed(source_ids[i].as_str());
        if id.as_str().unicode_len() == 0 || !has_text(configured, id.as_str()) {
            return Err(AuthError::UnknownSource);
        }
        if !has_text(&out, id.as_str()) {
            let ghost before = out@;
            out.push(id);
            proof {
                assert forall|s: Seq<char>| contains_text(out@, s) <==> exists|k: int|
                    0 <= k < i + 1 && trim((#[trigger] source_ids@[k])@) == s by {
                    if contains_text(out@, s) {
                        let j = choose|j: int| 0 <= j < out@.len() && (#[trigger] out@[j])@ == s;
                        if j < before.len() {
                            assert(contains_text(before, s));
                        }
                    }
                    if exists|k: int| 0 <= k < i + 1 && trim((#[trigger] source_ids@[k])@) == s {
                        let k = choose|k: int| 0 <= k < i + 1 && trim((#[trigger] source_ids@[k])@) == s;
                        if k < i {
                            assert(contains_text(before, s));
                            let j = choose|j: int| 0 <= j < before.len() && (#[trigger] before[j])@ == s;
                            assert(out@[j] == before[j]);
                        } else {
                            assert(out@[before.len() as int]@ == s);
                        }
                    }
                }
            }
        } else {
            proof {
                assert forall|s: Seq<char>| contains_text(out@, s) <==> exists|k: int|
                    0 <= k < i + 1 && trim((#[trigger] source_ids@[k])@) == s by {
                    if exists|k: int| 0 <= k < i + 1 && trim((#[trigger] source_ids@[k])@) == s {
                        let k = choose|k: int| 0 <= k < i + 1 && trim((#[trigger] source_ids@[k])@) == s;
                        if k == i {
                            assert(contains_text(out@, trim(source_ids@[i as int]@)));
                        }
                    }
                }
            }
        }
        i = i + 1;
    }
    Ok(out)
}

/// The sources a user may see: every configured source for an
/// administrator, else the granted ones that are configured.
pub fn permitted_source_ids(is_admin: bool, granted: &Vec<String>, configured: &Vec<String>) -> (r:
    Vec<String>)
    ensures
        is_admin ==> r@ == configured@,
        !is_admin ==> forall|s: Seq<char>|
            contains_text(r@, s) <==> contains_text(granted@, s) && contains_text(configured@, s),
{
    if is_admin {
        return configured.clone();
    }
    let mut out: Vec<String> = Vec::new();
    let mut i: usize = 0;
    while i < granted.len()
        invariant
            i <= granted@.len(),
            forall|s: Seq<char>|
                contains_text(out@, s) <==> (exists|k: int|
                    0 <= k < i && (#[trigger] granted@[k])@ == s) && contains_text(configured@, s),
        decreases granted@.len() - i,
    {
        let g = granted[i].as_str();
        if has_text(configured, g) {
            let ghost before = out@;
            out.push(owned(g));
            proof {
                assert forall|s: Seq<char>| contains_text(out@, s) <==> (exists|k: int|
                    0 <= k < i + 1 && (#[trigger] granted@[k])@ == s) && contains_text(
                    configured@,
                    s,
                ) by {
                    if contains_text(out@, s) {
                        let j = choose|j: int| 0 <= j < out@.len() && (#[trigger] out@[j])@ == s;
                        if j < before.len() {
                            assert(contains_text(before, s));
                        }
                    }
                    if (exists|k: int| 0 <= k < i + 1 && (#[trigger] granted@[k])@ == s)
                        && contains_text(configured@, s) {
                        let k = choose|k: int| 0 <= k < i + 1 && (#[trigger] granted@[k])@ == s;
                        if k < i {
                            assert(contains_text(before, s));
                            let j = choose|j: int| 0 <= j < before.len() && (#[trigger] before[j])@ == s;
                            assert(out@[j] == before[j]);
                        } else {
                            assert(out@[before.len() as int]@ == s);
                        }
                    }
                }
            }
        } else {
            proof {
                assert forall|s: Seq<char>| contains_text(out@, s) <==> (exists|k: int|
                    0 <= k < i + 1 && (#[trigger] granted@[k])@ == s) && contains_text(
                    configured@,
                    s,
                ) by {
                    if (exists|k: int| 0 <= k < i + 1 && (#[trigger] granted@[k])@ == s)
                        && contains_text(configured@, s) {
                        let k = choose|k: int| 0 <= k < i + 1 && (#[trigger] granted@[k])@ == s;
                        assert(k < i);
                    }
                }
            }
        }
        i = i + 1;
    }
    out
}

} // verus!
