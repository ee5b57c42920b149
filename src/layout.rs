//! Byte layout of a shared region: the header fields, little-endian integers,
//! and copies into and out of the region's bytes.
use vstd::prelude::*;

verus! {

/// Bytes of the region's prefix that hold the channel header (one cache line).
pub const HEADER_SIZE: usize = 64;

/// Marker written at offset 0 when a channel is created.
pub const MAGIC: u32 = 0x5348_4d52;

/// Layout version written at offset 4 when a channel is created.
pub const VERSION: u32 = 1;

/// Offset of the marker (`u32`).
pub const MAGIC_AT: usize = 0;

/// Offset of the layout version (`u32`).
pub const VERSION_AT: usize = 4;

/// Offset of the number of slots (`u32`).
pub const CAPACITY_AT: usize = 8;

/// Offset of the bytes per slot (`u32`).
pub const SLOT_SIZE_AT: usize = 12;

/// Offset of the write cursor (`u64`): slots claimed by the producer.
pub const WRITE_CURSOR_AT: usize = 16;

/// Offset of the read cursor (`u64`): slots released by the consumer.
pub const READ_CURSOR_AT: usize = 24;

/// Bytes of the length field at the start of a length-prefixed slot.
pub const LENGTH_PREFIX: usize = 4;

/// The value of the first four bytes of `b`, least significant first.
#[verifier::opaque]
pub open spec fn le_u32(b: Seq<u8>) -> nat {
    b[0] as nat + 256 * (b[1] as nat) + 65536 * (b[2] as nat) + 16777216 * (b[3] as nat)
}

/// The value of the first eight bytes of `b`, least significant first.
#[verifier::opaque]
pub open spec fn le_u64(b: Seq<u8>) -> nat {
    le_u32(b) + 4294967296 * le_u32(b.subrange(4, 8))
}

/// The four little-endian bytes of `v` (taken modulo 2^32).
pub open spec fn u32_le_bytes(v: nat) -> Seq<u8> {
    seq![
        (v % 256) as u8,
        ((v / 256) % 256) as u8,
        ((v / 65536) % 256) as u8,
        ((v / 16777216) % 256) as u8,
    ]
}

/// The eight little-endian bytes of `v` (taken modulo 2^64).
pub open spec fn u64_le_bytes(v: nat) -> Seq<u8> {
    u32_le_bytes(v % 4294967296) + u32_le_bytes((v / 4294967296) % 4294967296)
}

/// `s` with `t` written over it from position `start` on.
pub open spec fn splice(s: Seq<u8>, start: int, t: Seq<u8>) -> Seq<u8> {
    s.subrange(0, start) + t + s.subrange(start + t.len(), s.len() as int)
}

pub proof fn lemma_le_u32_bound(b: Seq<u8>)
    requires
        b.len() >= 4,
    ensures
        le_u32(b) < 0x1_0000_0000,
{
    reveal(le_u32);
}

pub proof fn lemma_le_u64_bound(b: Seq<u8>)
    requires
        b.len() >= 8,
    ensures
        le_u64(b) < 0x1_0000_0000_0000_0000,
{
    reveal(le_u64);
    lemma_le_u32_bound(b);
    lemma_le_u32_bound(b.subrange(4, 8));
}

pub proof fn lemma_u32_round_trip(v: nat)
    requires
        v < 4294967296,
    ensures
        u32_le_bytes(v).len() == 4,
        le_u32(u32_le_bytes(v)) == v,
{
    reveal(le_u32);
    let b = u32_le_bytes(v);
    let q1 = v / 256;
    let q2 = q1 / 256;
    let q3 = q2 / 256;
    assert(v == 256 * q1 + v % 256);
    assert(q1 == 256 * q2 + q1 % 256);
    assert(q2 == 256 * q3 + q2 % 256);
    assert(q3 < 256);
    assert(v / 65536 == q2) by {
        vstd::arithmetic::div_mod::lemma_div_denominator(v as int, 256, 256);
    }
    assert(v / 16777216 == q3) by {
        vstd::arithmetic::div_mod::lemma_div_denominator(v as int, 65536, 256);
    }
    assert(b[0] as nat == v % 256);
    assert(b[1] as nat == q1 % 256);
    assert(b[2] as nat == q2 % 256);
    assert(b[3] as nat == q3);
}

pub proof fn lemma_u64_round_trip(v: nat)
    requires
        v < 0x1_0000_0000_0000_0000,
    ensures
        u64_le_bytes(v).len() == 8,
        le_u64(u64_le_bytes(v)) == v,
{
    reveal(le_u64);
    reveal(le_u32);
    let lo = v % 4294967296;
    let hi = (v / 4294967296) % 4294967296;
    lemma_u32_round_trip(lo);
    lemma_u32_round_trip(hi);
    let b = u64_le_bytes(v);
    assert(b.subrange(4, 8) =~= u32_le_bytes(hi));
    assert(le_u32(b) == le_u32(u32_le_bytes(lo)));
    assert(v / 4294967296 < 4294967296);
    assert(hi == v / 4294967296);
    assert(v == 4294967296 * (v / 4294967296) + lo);
}

/// Writing over one range leaves every range outside it as it was.
pub proof fn lemma_splice_outside(s: Seq<u8>, start: int, t: Seq<u8>, lo: int, hi: int)
    requires
        0 <= start,
        start + t.len() <= s.len(),
        0 <= lo <= hi <= s.len(),
        hi <= start || start + t.len() <= lo,
    ensures
        splice(s, start, t).len() == s.len(),
        splice(s, start, t).subrange(lo, hi) == s.subrange(lo, hi),
{
    assert(splice(s, start, t).subrange(lo, hi) =~= s.subrange(lo, hi));
}

/// After writing `t` at `start`, the range written holds `t`.
pub proof fn lemma_splice_inside(s: Seq<u8>, start: int, t: Seq<u8>)
    requires
        0 <= start,
        start + t.len() <= s.len(),
    ensures
        splice(s, start, t).len() == s.len(),
        splice(s, start, t).subrange(start, start + t.len()) == t,
{
    assert(splice(s, start, t).subrange(start, start + t.len()) =~= t);
}

/// Reads the little-endian `u32` at `off`.
pub fn read_u32_le(b: &[u8], off: usize) -> (r: u32)
    requires
        off + 4 <= b@.len(),
    ensures
        r == le_u32(b@.subrange(off as int, off + 4)),
{
    reveal(le_u32);
    (b[off] as u32) + (b[off + 1] as u32) * 256 + (b[off + 2] as u32) * 65536 + (b[off + 3] as u32)
        * 16777216
}

/// Reads the little-endian `u64` at `off`.
pub fn read_u64_le(b: &[u8], off: usize) -> (r: u64)
    requires
        off + 8 <= b@.len(),
    ensures
        r == le_u64(b@.subrange(off as int, off + 8)),
{
    let _n = b.len();
    let lo = read_u32_le(b, off);
    let hi = read_u32_le(b, off + 4);
    proof {
        reveal(le_u64);
        reveal(le_u32);
        let w = b@.subrange(off as int, off + 8);
        assert(w.subrange(0, 4) =~= b@.subrange(off as int, off + 4));
        assert(w.subrange(4, 8) =~= b@.subrange(off + 4, off + 8));
        assert(le_u32(w) == le_u32(w.subrange(0, 4)));
    }
    (lo as u64) + (hi as u64) * 4294967296
}

/// The four little-endian bytes of `v`.
pub fn u32_to_le(v: u32) -> (r: Vec<u8>)
    ensures
        r@ == u32_le_bytes(v as nat),
{
    let mut r: Vec<u8> = Vec::new();
    r.push((v % 256) as u8);
    r.push(((v / 256) % 256) as u8);
    r.push(((v / 65536) % 256) as u8);
    r.push(((v / 16777216) % 256) as u8);
    assert(r@ =~= u32_le_bytes(v as nat));
    r
}

/// The eight little-endian bytes of `v`.
pub fn u64_to_le(v: u64) -> (r: Vec<u8>)
    ensures
        r@ == u64_le_bytes(v as nat),
{
    let mut r = u32_to_le((v % 4294967296) as u32);
    let mut hi = u32_to_le((v / 4294967296) as u32);
    assert((v / 4294967296) % 4294967296 == v / 4294967296);
    r.append(&mut hi);
    r
}

/// Writes `src` into `dst` from position `start` on.
pub fn copy_into(dst: &mut Vec<u8>, start: usize, src: &[u8])
    requires
        start + src@.len() <= old(dst)@.len(),
    ensures
        final(dst)@ == splice(old(dst)@, start as int, src@),
{
    let n = src.len();
    let m = dst.len();
    let mut i: usize = 0;
    while i < n
        invariant
            n == src@.len(),
            i <= n,
            start + n <= dst@.len(),
            dst@.len() == old(dst)@.len(),
            dst@.len() == m,
            forall|j: int| 0 <= j < start || start + i <= j < dst@.len() ==> dst@[j] == old(dst)@[j],
            forall|j: int| start <= j < start + i ==> dst@[j] == src@[j - start],
        decreases n - i,
    {
        dst.set(start + i, src[i]);
        i = i + 1;
    }
    assert(dst@ =~= splice(old(dst)@, start as int, src@));
}

/// A copy of the `len` bytes of `src` from position `start` on.
pub fn copy_out(src: &[u8], start: usize, len: usize) -> (r: Vec<u8>)
    requires
        start + len <= src@.len(),
    ensures
        r@ == src@.subrange(start as int, start + len),
{
    let _n = src.len();
    vstd::slice::slice_to_vec(vstd::slice::slice_subrange(src, start, start + len))
}

} // verus!
