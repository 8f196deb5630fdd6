//! Fixed-width integer layouts shared by the binary record formats.

use vstd::prelude::*;

verus! {

/// Two's-complement reading of a 64-bit unsigned value.
pub open spec fn signed64(v: int) -> int {
    if v < 0x8000_0000_0000_0000 {
        v
    } else {
        v - 0x1_0000_0000_0000_0000
    }
}

/// Unsigned 64-bit pattern of a signed value.
pub open spec fn unsigned64(v: int) -> int {
    if v >= 0 {
        v
    } else {
        v + 0x1_0000_0000_0000_0000
    }
}

/// Little-endian value of `b[o..o+2]`.
pub open spec fn le2(b: Seq<u8>, o: int) -> int {
    b[o] + 256 * b[o + 1]
}

/// Little-endian value of `b[o..o+4]`.
pub open spec fn le4(b: Seq<u8>, o: int) -> int {
    le2(b, o) + 65536 * le2(b, o + 2)
}

/// Little-endian value of `b[o..o+8]`.
pub open spec fn le8(b: Seq<u8>, o: int) -> int {
    le4(b, o) + 0x1_0000_0000 * le4(b, o + 4)
}

/// Big-endian value of `b[o..o+4]`.
pub open spec fn be4(b: Seq<u8>, o: int) -> int {
    0x100_0000 * b[o] + 0x1_0000 * b[o + 1] + 256 * b[o + 2] + b[o + 3]
}

/// Big-endian value of `b[o..o+8]`.
pub open spec fn be8(b: Seq<u8>, o: int) -> int {
    0x1_0000_0000 * be4(b, o) + be4(b, o + 4)
}

/// Signed value of a 64-bit unsigned pattern.
pub fn to_signed64(u: u64) -> (r: i64)
    ensures
        r as int == signed64(u as int),
{
    if u <= 0x7FFF_FFFF_FFFF_FFFF {
        u as i64
    } else if u == 0x8000_0000_0000_0000 {
        i64::MIN
    } else {
        let magnitude: u64 = u64::MAX - u + 1;
        -(magnitude as i64)
    }
}

/// Unsigned 64-bit pattern of a signed value.
pub fn to_unsigned64(v: i64) -> (r: u64)
    ensures
        r as int == unsigned64(v as int),
{
    if v >= 0 {
        v as u64
    } else {
        let below: u64 = (-(v + 1)) as u64;
        u64::MAX - below
    }
}

/// Little-endian `u16` at `o`.
pub fn read_le_u16(b: &[u8], o: usize) -> (r: u16)
    requires
        o + 2 <= b.len(),
    ensures
        r as int == le2(b@, o as int),
{
    (b[o] as u16) + (b[o + 1] as u16) * 256
}

/// Little-endian `u32` at `o`.
pub fn read_le_u32(b: &[u8], o: usize) -> (r: u32)
    requires
        o + 4 <= b.len(),
    ensures
        r as int == le4(b@, o as int),
{
    (b[o] as u32) + (b[o + 1] as u32) * 256 + (b[o + 2] as u32) * 0x1_0000 + (b[o + 3] as u32)
        * 0x100_0000
}

/// Little-endian `u64` at `o`.
pub fn read_le_u64(b: &[u8], o: usize) -> (r: u64)
    requires
        o + 8 <= b.len(),
    ensures
        r as int == le8(b@, o as int),
{
    let lo = read_le_u32(b, o) as u64;
    let hi = read_le_u32(b, o + 4) as u64;
    lo + hi * 0x1_0000_0000
}

/// Big-endian `u32` at `o`.
pub fn read_be_u32(b: &[u8], o: usize) -> (r: u32)
    requires
        o + 4 <= b.len(),
    ensures
        r as int == be4(b@, o as int),
{
    (b[o] as u32) * 0x100_0000 + (b[o + 1] as u32) * 0x1_0000 + (b[o + 2] as u32) * 256 + (b[o
        + 3] as u32)
}

/// Big-endian `u64` at `o`.
pub fn read_be_u64(b: &[u8], o: usize) -> (r: u64)
    requires
        o + 8 <= b.len(),
    ensures
        r as int == be8(b@, o as int),
{
    let hi = read_be_u32(b, o) as u64;
    let lo = read_be_u32(b, o + 4) as u64;
    hi * 0x1_0000_0000 + lo
}

/// Big-endian bytes of a `u32`.
pub fn be_bytes_u32(v: u32) -> (r: [u8; 4])
    ensures
        r@.len() == 4,
        be4(r@, 0) == v as int,
{
    let r = [
        (v / 0x100_0000) as u8,
        ((v / 0x1_0000) % 256) as u8,
        ((v / 256) % 256) as u8,
        (v % 256) as u8,
    ];
    r
}

/// `256^k`.
pub open spec fn pow256(k: nat) -> nat
    decreases k,
{
    if k == 0 {
        1
    } else {
        256 * pow256((k - 1) as nat)
    }
}

/// Big-endian value of a whole byte sequence.
pub open spec fn be_value(s: Seq<u8>) -> nat
    decreases s.len(),
{
    if s.len() == 0 {
        0
    } else {
        s[0] as nat * pow256((s.len() - 1) as nat) + be_value(s.drop_first())
    }
}

/// Lexicographic order of byte strings, as slices of `u8` compare.
pub open spec fn bytes_lt(a: Seq<u8>, b: Seq<u8>) -> bool
    decreases a.len(),
{
    if a.len() == 0 {
        b.len() > 0
    } else if b.len() == 0 {
        false
    } else if a[0] != b[0] {
        a[0] < b[0]
    } else {
        bytes_lt(a.drop_first(), b.drop_first())
    }
}

/// A big-endian value of `k` bytes is below `256^k`.
pub proof fn lemma_be_value_bound(s: Seq<u8>)
    ensures
        be_value(s) < pow256(s.len()),
    decreases s.len(),
{
    if s.len() > 0 {
        let p = pow256((s.len() - 1) as nat);
        lemma_be_value_bound(s.drop_first());
        assert(s.drop_first().len() == s.len() - 1);
        let d = s[0] as nat;
        let rest = be_value(s.drop_first());
        assert(d * p + rest < 256 * p) by (nonlinear_arith)
            requires
                d <= 255,
                rest < p,
        ;
    }
}

/// For byte strings of one length, byte order is numeric big-endian order.
pub proof fn lemma_bytes_lt_is_value_order(a: Seq<u8>, b: Seq<u8>)
    requires
        a.len() == b.len(),
    ensures
        bytes_lt(a, b) <==> be_value(a) < be_value(b),
    decreases a.len(),
{
    if a.len() > 0 {
        let p = pow256((a.len() - 1) as nat);
        let ta = a.drop_first();
        let tb = b.drop_first();
        lemma_be_value_bound(ta);
        lemma_be_value_bound(tb);
        lemma_bytes_lt_is_value_order(ta, tb);
        let x = a[0] as nat;
        let y = b[0] as nat;
        let va = be_value(ta);
        let vb = be_value(tb);
        if x < y {
            assert(x * p + va < y * p + vb) by (nonlinear_arith)
                requires
                    x < y,
                    va < p,
            ;
        } else if x > y {
            assert(y * p + vb < x * p + va) by (nonlinear_arith)
                requires
                    y < x,
                    vb < p,
            ;
        }
    }
}

/// Appending a byte shifts the big-endian value by one byte.
#[verifier::spinoff_prover]
pub proof fn lemma_be_value_push(s: Seq<u8>, k: int)
    requires
        0 <= k < s.len(),
    ensures
        be_value(s.take(k + 1)) == be_value(s.take(k)) * 256 + s[k],
    decreases k,
{
    let t = s.take(k + 1);
    if k == 0 {
        assert(t.drop_first().len() == 0);
        assert(s.take(0).len() == 0);
        assert(pow256(0) == 1);
        assert(t[0] == s[0]);
        assert(be_value(t.drop_first()) == 0);
        assert(be_value(s.take(0)) == 0);
        assert(be_value(t) == t[0] as nat * pow256(0) + be_value(t.drop_first()));
    } else {
        let u = s.drop_first();
        lemma_be_value_push(u, k - 1);
        assert(t.drop_first() =~= u.take(k));
        assert(s.take(k).drop_first() =~= u.take(k - 1));
        let p = pow256((k - 1) as nat);
        assert(pow256(k as nat) == 256 * p);
        let x = s[0] as nat;
        assert(t[0] == s[0]);
        assert(s.take(k)[0] == s[0]);
        assert(u[k - 1] == s[k]);
        let w = be_value(u.take(k - 1));
        assert(be_value(t) == x * pow256(k as nat) + be_value(t.drop_first()));
        assert(be_value(t.drop_first()) == w * 256 + s[k]);
        assert(be_value(s.take(k)) == x * p + w);
        assert(x * (256 * p) + (w * 256 + s[k]) == (x * p + w) * 256 + s[k]) by (nonlinear_arith);
    }
}

/// The big-endian value of twelve bytes splits into its first eight and last four.
pub proof fn lemma_be_value_twelve(s: Seq<u8>)
    requires
        s.len() == 12,
    ensures
        be_value(s) == 0x1_0000_0000 * be8(s, 0) + be4(s, 8),
{
    assert(s.take(0).len() == 0);
    lemma_be_value_push(s, 0);
    lemma_be_value_push(s, 1);
    lemma_be_value_push(s, 2);
    lemma_be_value_push(s, 3);
    lemma_be_value_push(s, 4);
    lemma_be_value_push(s, 5);
    lemma_be_value_push(s, 6);
    lemma_be_value_push(s, 7);
    lemma_be_value_push(s, 8);
    lemma_be_value_push(s, 9);
    lemma_be_value_push(s, 10);
    lemma_be_value_push(s, 11);
    assert(s.take(12) =~= s);
}

/// Little-endian bytes of a 32-bit value.
pub open spec fn le_bytes4(v: u32) -> Seq<u8> {
    seq![
        (v % 256) as u8,
        ((v / 256) % 256) as u8,
        ((v / 0x1_0000) % 256) as u8,
        (v / 0x100_0000) as u8,
    ]
}

/// Little-endian bytes of a 64-bit value.
pub open spec fn le_bytes8(v: u64) -> Seq<u8> {
    le_bytes4((v % 0x1_0000_0000) as u32) + le_bytes4((v / 0x1_0000_0000) as u32)
}

/// Reading back the bytes of a 32-bit value gives the value.
pub proof fn lemma_le_bytes4(v: u32)
    ensures
        le_bytes4(v).len() == 4,
        le4(le_bytes4(v), 0) == v,
{
    let b = le_bytes4(v);
    assert(b[0] == v % 256);
    assert(b[1] == (v / 256) % 256);
    assert(b[2] == (v / 0x1_0000) % 256);
    assert(b[3] == v / 0x100_0000);
}

/// Reading back the bytes of a 64-bit value gives the value.
pub proof fn lemma_le_bytes8(v: u64)
    ensures
        le_bytes8(v).len() == 8,
        le8(le_bytes8(v), 0) == v,
{
    let lo = (v % 0x1_0000_0000) as u32;
    let hi = (v / 0x1_0000_0000) as u32;
    lemma_le_bytes4(lo);
    lemma_le_bytes4(hi);
    let b = le_bytes8(v);
    assert(le4(b, 0) == le4(le_bytes4(lo), 0)) by {
        assert(b[0] == le_bytes4(lo)[0]);
        assert(b[1] == le_bytes4(lo)[1]);
        assert(b[2] == le_bytes4(lo)[2]);
        assert(b[3] == le_bytes4(lo)[3]);
    }
    assert(le4(b, 4) == le4(le_bytes4(hi), 0)) by {
        assert(b[4] == le_bytes4(hi)[0]);
        assert(b[5] == le_bytes4(hi)[1]);
        assert(b[6] == le_bytes4(hi)[2]);
        assert(b[7] == le_bytes4(hi)[3]);
    }
}

/// A little-endian read inside one part of a concatenation reads that part.
pub proof fn lemma_le_concat(a: Seq<u8>, b: Seq<u8>, o: int)
    requires
        0 <= o,
    ensures
        o + 4 <= a.len() ==> le4(a + b, o) == le4(a, o),
        o + 8 <= a.len() ==> le8(a + b, o) == le8(a, o),
        a.len() <= o && o + 4 <= a.len() + b.len() ==> le4(a + b, o) == le4(b, o - a.len()),
        a.len() <= o && o + 8 <= a.len() + b.len() ==> le8(a + b, o) == le8(b, o - a.len()),
{
    let s = a + b;
    if o + 8 <= a.len() {
        assert(s[o + 4] == a[o + 4]);
        assert(s[o + 5] == a[o + 5]);
        assert(s[o + 6] == a[o + 6]);
        assert(s[o + 7] == a[o + 7]);
    }
    if o + 4 <= a.len() {
        assert(s[o] == a[o]);
        assert(s[o + 1] == a[o + 1]);
        assert(s[o + 2] == a[o + 2]);
        assert(s[o + 3] == a[o + 3]);
    }
    let p = o - a.len();
    if a.len() <= o && o + 8 <= a.len() + b.len() {
        assert(s[o + 4] == b[p + 4]);
        assert(s[o + 5] == b[p + 5]);
        assert(s[o + 6] == b[p + 6]);
        assert(s[o + 7] == b[p + 7]);
    }
    if a.len() <= o && o + 4 <= a.len() + b.len() {
        assert(s[o] == b[p]);
        assert(s[o + 1] == b[p + 1]);
        assert(s[o + 2] == b[p + 2]);
        assert(s[o + 3] == b[p + 3]);
    }
}

/// Appends the little-endian bytes of a 32-bit value.
pub fn push_le_u32(out: &mut Vec<u8>, v: u32)
    ensures
        final(out)@ == old(out)@ + le_bytes4(v),
{
    out.push((v % 256) as u8);
    out.push(((v / 256) % 256) as u8);
    out.push(((v / 0x1_0000) % 256) as u8);
    out.push((v / 0x100_0000) as u8);
    assert(out@ =~= old(out)@ + le_bytes4(v));
}

/// Appends the little-endian bytes of a 64-bit value.
pub fn push_le_u64(out: &mut Vec<u8>, v: u64)
    ensures
        final(out)@ == old(out)@ + le_bytes8(v),
{
    push_le_u32(out, (v % 0x1_0000_0000) as u32);
    push_le_u32(out, (v / 0x1_0000_0000) as u32);
    assert(out@ =~= old(out)@ + le_bytes8(v));
}

} // verus!
