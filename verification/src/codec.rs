//! Little-endian integer and length-prefixed byte-string codecs. Everything
//! written to a redo log or a wire is framed with these.

use vstd::prelude::*;

verus! {

/// The little-endian bytes of a 32-bit value.
pub open spec fn enc_u32(x: u32) -> Seq<u8> {
    seq![
        (x % 256) as u8,
        ((x / 256) % 256) as u8,
        ((x / 65536) % 256) as u8,
        ((x / 16777216) % 256) as u8,
    ]
}

/// The value read back from four little-endian bytes.
pub open spec fn le_u32(s: Seq<u8>) -> u32
    recommends
        s.len() == 4,
{
    (s[0] + s[1] * 256 + s[2] * 65536 + s[3] * 16777216) as u32
}

/// The little-endian bytes of a 64-bit value.
pub open spec fn enc_u64(x: u64) -> Seq<u8> {
    enc_u32((x % 4294967296) as u32) + enc_u32((x / 4294967296) as u32)
}

/// The value read back from eight little-endian bytes.
pub open spec fn le_u64(s: Seq<u8>) -> u64
    recommends
        s.len() == 8,
{
    (le_u32(s.subrange(0, 4)) + le_u32(s.subrange(4, 8)) * 4294967296) as u64
}

/// The little-endian bytes of a 128-bit value.
pub open spec fn enc_u128(x: u128) -> Seq<u8> {
    enc_u64((x % 18446744073709551616) as u64) + enc_u64((x / 18446744073709551616) as u64)
}

/// The value read back from sixteen little-endian bytes.
pub open spec fn le_u128(s: Seq<u8>) -> u128
    recommends
        s.len() == 16,
{
    (le_u64(s.subrange(0, 8)) + le_u64(s.subrange(8, 16)) * 18446744073709551616) as u128
}

pub proof fn lemma_u32_round_trip(x: u32)
    ensures
        enc_u32(x).len() == 4,
        le_u32(enc_u32(x)) == x,
{
}

pub proof fn lemma_u64_round_trip(x: u64)
    ensures
        enc_u64(x).len() == 8,
        le_u64(enc_u64(x)) == x,
{
    let lo = (x % 4294967296) as u32;
    let hi = (x / 4294967296) as u32;
    assert(enc_u64(x).subrange(0, 4) =~= enc_u32(lo));
    assert(enc_u64(x).subrange(4, 8) =~= enc_u32(hi));
    lemma_u32_round_trip(lo);
    lemma_u32_round_trip(hi);
}

pub proof fn lemma_u128_round_trip(x: u128)
    ensures
        enc_u128(x).len() == 16,
        le_u128(enc_u128(x)) == x,
{
    let lo = (x % 18446744073709551616) as u64;
    let hi = (x / 18446744073709551616) as u64;
    lemma_u64_round_trip(lo);
    lemma_u64_round_trip(hi);
    assert(enc_u128(x).subrange(0, 8) =~= enc_u64(lo));
    assert(enc_u128(x).subrange(8, 16) =~= enc_u64(hi));
}

/// Append the four little-endian bytes of `x`.
pub fn push_u32(out: &mut Vec<u8>, x: u32)
    ensures
        final(out)@ == old(out)@ + enc_u32(x),
{
    out.push((x % 256) as u8);
    out.push(((x / 256) % 256) as u8);
    out.push(((x / 65536) % 256) as u8);
    out.push(((x / 16777216) % 256) as u8);
    assert(out@ =~= old(out)@ + enc_u32(x));
}

/// Append the eight little-endian bytes of `x`.
pub fn push_u64(out: &mut Vec<u8>, x: u64)
    ensures
        final(out)@ == old(out)@ + enc_u64(x),
{
    push_u32(out, (x % 4294967296) as u32);
    push_u32(out, (x / 4294967296) as u32);
    assert(out@ =~= old(out)@ + enc_u64(x));
}

/// Append the sixteen little-endian bytes of `x`.
pub fn push_u128(out: &mut Vec<u8>, x: u128)
    ensures
        final(out)@ == old(out)@ + enc_u128(x),
{
    push_u64(out, (x % 18446744073709551616) as u64);
    push_u64(out, (x / 18446744073709551616) as u64);
    assert(out@ =~= old(out)@ + enc_u128(x));
}

/// Read back the 32-bit value at `pos`.
pub fn read_u32(buf: &Vec<u8>, pos: usize) -> (r: u32)
    requires
        pos + 4 <= buf@.len(),
    ensures
        r == le_u32(buf@.subrange(pos as int, pos as int + 4)),
{
    let n = buf.len();
    let s = Ghost(buf@.subrange(pos as int, pos as int + 4));
    let b0 = buf[pos] as u32;
    let b1 = buf[pos + 1] as u32;
    let b2 = buf[pos + 2] as u32;
    let b3 = buf[pos + 3] as u32;
    assert(b0 == s@[0] && b1 == s@[1] && b2 == s@[2] && b3 == s@[3]);
    b0 + b1 * 256 + b2 * 65536 + b3 * 16777216
}

/// Read back the 64-bit value at `pos`.
pub fn read_u64(buf: &Vec<u8>, pos: usize) -> (r: u64)
    requires
        pos + 8 <= buf@.len(),
    ensures
        r == le_u64(buf@.subrange(pos as int, pos as int + 8)),
{
    let n = buf.len();
    let s = Ghost(buf@.subrange(pos as int, pos as int + 8));
    let lo = read_u32(buf, pos) as u64;
    let hi = read_u32(buf, pos + 4) as u64;
    assert(s@.subrange(0, 4) =~= buf@.subrange(pos as int, pos as int + 4));
    assert(s@.subrange(4, 8) =~= buf@.subrange(pos as int + 4, pos as int + 8));
    lo + hi * 4294967296
}

/// Read back the 128-bit value at `pos`.
pub fn read_u128(buf: &Vec<u8>, pos: usize) -> (r: u128)
    requires
        pos + 16 <= buf@.len(),
    ensures
        r == le_u128(buf@.subrange(pos as int, pos as int + 16)),
{
    let n = buf.len();
    let s = Ghost(buf@.subrange(pos as int, pos as int + 16));
    let lo = read_u64(buf, pos) as u128;
    let hi = read_u64(buf, pos + 8) as u128;
    assert(s@.subrange(0, 8) =~= buf@.subrange(pos as int, pos as int + 8));
    assert(s@.subrange(8, 16) =~= buf@.subrange(pos as int + 8, pos as int + 16));
    lo + hi * 18446744073709551616
}

/// Whether two byte slices hold the same bytes.
pub fn bytes_eq(a: &[u8], b: &[u8]) -> (r: bool)
    ensures
        r == (a@ == b@),
{
    if a.len() != b.len() {
        assert(a@.len() != b@.len());
        return false;
    }
    let n = a.len();
    let mut i: usize = 0;
    while i < n
        invariant
            n == a@.len() && n == b@.len(),
            i <= n,
            forall|j: int| 0 <= j < i ==> a@[j] == b@[j],
        decreases n - i,
    {
        if a[i] != b[i] {
            return false;
        }
        i = i + 1;
    }
    assert(a@ =~= b@);
    true
}

} // verus!
