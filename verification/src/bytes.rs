//! Little-endian field access over byte sequences, stated once and reused by
//! every binary format of the crate.

use vstd::prelude::*;

verus! {

/// Little-endian value of the two bytes at `i`.
pub open spec fn le16(s: Seq<u8>, i: int) -> int {
    s[i] as int + 256 * (s[i + 1] as int)
}

/// Little-endian value of the three bytes at `i` (the FFS "UINT24" size).
pub open spec fn le24(s: Seq<u8>, i: int) -> int {
    le16(s, i) + 65536 * (s[i + 2] as int)
}

/// Little-endian value of the four bytes at `i`.
pub open spec fn le32(s: Seq<u8>, i: int) -> int {
    le24(s, i) + 16777216 * (s[i + 3] as int)
}

/// Little-endian value of the eight bytes at `i`.
pub open spec fn le64(s: Seq<u8>, i: int) -> int {
    le32(s, i) + 4294967296 * le32(s, i + 4)
}

/// The two little-endian bytes of `v`.
pub open spec fn le16_bytes(v: u16) -> Seq<u8> {
    seq![(v % 256) as u8, (v / 256) as u8]
}

/// The four little-endian bytes of `v`.
pub open spec fn le32_bytes(v: u32) -> Seq<u8> {
    seq![(v % 256) as u8, ((v / 256) % 256) as u8, ((v / 65536) % 256) as u8, (v / 16777216) as u8]
}

/// The eight little-endian bytes of `v`.
pub open spec fn le64_bytes(v: u64) -> Seq<u8> {
    le32_bytes((v % 4294967296) as u32) + le32_bytes((v / 4294967296) as u32)
}

/// `s` with `w` written over it starting at `at`.
pub open spec fn splice_at(s: Seq<u8>, at: int, w: Seq<u8>) -> Seq<u8> {
    s.subrange(0, at) + w + s.subrange(at + w.len(), s.len() as int)
}

/// Reading back the little-endian encoding of a `u16` gives the value.
pub proof fn law_le16_round_trip(v: u16)
    ensures
        le16(le16_bytes(v), 0) == v,
        le16_bytes(v).len() == 2,
{
}

/// Reading back the little-endian encoding of a `u32` gives the value.
pub proof fn law_le32_round_trip(v: u32)
    ensures
        le32(le32_bytes(v), 0) == v,
        le32_bytes(v).len() == 4,
{
}

/// Reads the little-endian `u16` at `i`.
pub fn read_u16(buf: &[u8], i: usize) -> (r: u16)
    requires
        i + 2 <= buf@.len(),
    ensures
        r == le16(buf@, i as int),
{
    let a = buf[i] as u16;
    let b = buf[i + 1] as u16;
    assert(a | (b << 8u16) == a + 256 * b) by (bit_vector)
        requires
            a < 256,
            b < 256,
    ;
    a | (b << 8u16)
}

/// Reads the little-endian three-byte value at `i`.
pub fn read_u24(buf: &[u8], i: usize) -> (r: u32)
    requires
        i + 3 <= buf@.len(),
    ensures
        r == le24(buf@, i as int),
{
    let a = buf[i] as u32;
    let b = buf[i + 1] as u32;
    let c = buf[i + 2] as u32;
    assert(a | (b << 8u32) | (c << 16u32) == a + 256 * b + 65536 * c) by (bit_vector)
        requires
            a < 256,
            b < 256,
            c < 256,
    ;
    a | (b << 8u32) | (c << 16u32)
}

/// Reads the little-endian `u32` at `i`.
pub fn read_u32(buf: &[u8], i: usize) -> (r: u32)
    requires
        i + 4 <= buf@.len(),
    ensures
        r == le32(buf@, i as int),
{
    let a = buf[i] as u32;
    let b = buf[i + 1] as u32;
    let c = buf[i + 2] as u32;
    let d = buf[i + 3] as u32;
    assert(a | (b << 8u32) | (c << 16u32) | (d << 24u32) == a + 256 * b + 65536 * c + 16777216 * d)
        by (bit_vector)
        requires
            a < 256,
            b < 256,
            c < 256,
            d < 256,
    ;
    a | (b << 8u32) | (c << 16u32) | (d << 24u32)
}

/// Reads the little-endian `u64` at `i`.
pub fn read_u64(buf: &[u8], i: usize) -> (r: u64)
    requires
        i + 8 <= buf@.len(),
    ensures
        r == le64(buf@, i as int),
{
    let n = buf.len();
    let lo = read_u32(buf, i) as u64;
    let hi = read_u32(buf, i + 4) as u64;
    assert(lo | (hi << 32u64) == lo + 4294967296 * hi) by (bit_vector)
        requires
            lo < 4294967296,
            hi < 4294967296,
    ;
    lo | (hi << 32u64)
}

/// The little-endian bytes of `v`.
pub fn u16_bytes(v: u16) -> (r: Vec<u8>)
    ensures
        r@ == le16_bytes(v),
{
    let mut r: Vec<u8> = Vec::new();
    r.push((v & 0xFF) as u8);
    r.push((v >> 8u16) as u8);
    assert((v & 0xFF) == v % 256 && (v >> 8u16) == v / 256) by (bit_vector);
    assert(r@ =~= le16_bytes(v));
    r
}

/// The little-endian bytes of `v`.
pub fn u32_bytes(v: u32) -> (r: Vec<u8>)
    ensures
        r@ == le32_bytes(v),
{
    let mut r: Vec<u8> = Vec::new();
    r.push((v & 0xFF) as u8);
    r.push(((v >> 8u32) & 0xFF) as u8);
    r.push(((v >> 16u32) & 0xFF) as u8);
    r.push((v >> 24u32) as u8);
    assert((v & 0xFF) == v % 256 && ((v >> 8u32) & 0xFF) == (v / 256) % 256 && ((v >> 16u32)
        & 0xFF) == (v / 65536) % 256 && (v >> 24u32) == v / 16777216) by (bit_vector);
    assert(r@ =~= le32_bytes(v));
    r
}

/// The little-endian bytes of `v`.
pub fn u64_bytes(v: u64) -> (r: Vec<u8>)
    ensures
        r@ == le64_bytes(v),
{
    let lo = (v & 0xFFFF_FFFF) as u32;
    let hi = (v >> 32u64) as u32;
    assert((v & 0xFFFF_FFFF) == v % 4294967296 && (v >> 32u64) == v / 4294967296) by (bit_vector);
    let mut r = u32_bytes(lo);
    let mut h = u32_bytes(hi);
    r.append(&mut h);
    r
}

/// Appends every byte of `src` to `dst`.
pub fn push_all(dst: &mut Vec<u8>, src: &[u8])
    ensures
        final(dst)@ == old(dst)@ + src@,
{
    let mut k: usize = 0;
    while k < src.len()
        invariant
            k <= src@.len(),
            dst@ == old(dst)@ + src@.subrange(0, k as int),
        decreases src@.len() - k,
    {
        dst.push(src[k]);
        k = k + 1;
        assert(src@.subrange(0, k as int) =~= src@.subrange(0, k - 1) + seq![src@[k - 1]]);
    }
    assert(src@.subrange(0, src@.len() as int) =~= src@);
}

/// A fresh vector holding `s[from..to]`.
pub fn copy_range(s: &[u8], from: usize, to: usize) -> (r: Vec<u8>)
    requires
        from <= to <= s@.len(),
    ensures
        r@ == s@.subrange(from as int, to as int),
{
    let mut r: Vec<u8> = Vec::new();
    let mut k = from;
    while k < to
        invariant
            from <= k <= to <= s@.len(),
            r@ == s@.subrange(from as int, k as int),
        decreases to - k,
    {
        r.push(s[k]);
        k = k + 1;
        assert(s@.subrange(from as int, k as int) =~= s@.subrange(from as int, k - 1) + seq![
            s@[k - 1],
        ]);
    }
    r
}

/// Writes `w` over `buf` starting at `at`.
pub fn write_at(buf: &mut [u8], at: usize, w: &[u8])
    requires
        at + w@.len() <= old(buf)@.len(),
    ensures
        final(buf)@ == splice_at(old(buf)@, at as int, w@),
        final(buf)@.len() == old(buf)@.len(),
{
    let n = buf.len();
    let mut k: usize = 0;
    while k < w.len()
        invariant
            n == buf@.len(),
            k <= w@.len(),
            at + w@.len() <= buf@.len(),
            buf@.len() == old(buf)@.len(),
            forall|j: int| 0 <= j < buf@.len() ==> #[trigger] buf@[j] == if at <= j < at + k {
                w@[j - at]
            } else {
                old(buf)@[j]
            },
        decreases w@.len() - k,
    {
        buf[at + k] = w[k];
        k = k + 1;
    }
    assert(buf@ =~= splice_at(old(buf)@, at as int, w@));
}

/// `pat` occurs in `s` at `p`.
pub open spec fn occurs_at(s: Seq<u8>, p: int, pat: Seq<u8>) -> bool {
    0 <= p && p + pat.len() <= s.len() && s.subrange(p, p + pat.len()) == pat
}

/// Whether `pat` occurs in `buf` at `p`.
pub fn bytes_at_eq(buf: &[u8], p: usize, pat: &[u8]) -> (r: bool)
    ensures
        r == occurs_at(buf@, p as int, pat@),
{
    let n = buf.len();
    if p > n || n - p < pat.len() {
        return false;
    }
    let mut k: usize = 0;
    while k < pat.len()
        invariant
            n == buf@.len(),
            p + pat@.len() <= n,
            k <= pat@.len(),
            forall|j: int| 0 <= j < k ==> buf@[p + j] == pat@[j],
        decreases pat@.len() - k,
    {
        if buf[p + k] != pat[k] {
            return false;
        }
        k = k + 1;
    }
    assert(buf@.subrange(p as int, p + pat@.len()) =~= pat@);
    true
}

pub proof fn lemma_le16_sub(r: Seq<u8>, s: int, t: int, k: int)
    requires
        0 <= s <= t <= r.len(),
        0 <= k,
        s + k + 2 <= t,
    ensures
        le16(r.subrange(s, t), k) == le16(r, s + k),
{
    assert(r.subrange(s, t)[k] == r[s + k]);
    assert(r.subrange(s, t)[k + 1] == r[s + k + 1]);
}

pub proof fn lemma_le32_sub(r: Seq<u8>, s: int, t: int, k: int)
    requires
        0 <= s <= t <= r.len(),
        0 <= k,
        s + k + 4 <= t,
    ensures
        le32(r.subrange(s, t), k) == le32(r, s + k),
{
    lemma_le16_sub(r, s, t, k);
    assert(r.subrange(s, t)[k + 2] == r[s + k + 2]);
    assert(r.subrange(s, t)[k + 3] == r[s + k + 3]);
}

pub proof fn lemma_le64_sub(r: Seq<u8>, s: int, t: int, k: int)
    requires
        0 <= s <= t <= r.len(),
        0 <= k,
        s + k + 8 <= t,
    ensures
        le64(r.subrange(s, t), k) == le64(r, s + k),
{
    lemma_le32_sub(r, s, t, k);
    lemma_le32_sub(r, s, t, k + 4);
}

} // verus!
