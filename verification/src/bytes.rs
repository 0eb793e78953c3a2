//! Little-endian integer fields inside a byte buffer, and in-place overwrites.
use vstd::prelude::*;

verus! {

/// The unsigned 16-bit little-endian value stored at `o`.
pub open spec fn le16(d: Seq<u8>, o: int) -> int {
    d[o] + d[o + 1] * 256
}

/// The unsigned 32-bit little-endian value stored at `o`.
pub open spec fn le32(d: Seq<u8>, o: int) -> int {
    d[o] + d[o + 1] * 0x100 + d[o + 2] * 0x1_0000 + d[o + 3] * 0x100_0000
}

/// The unsigned 64-bit little-endian value stored at `o`.
pub open spec fn le64(d: Seq<u8>, o: int) -> int {
    le32(d, o) + le32(d, o + 4) * 0x1_0000_0000
}

/// The 2 bytes of `v` in little-endian order.
pub open spec fn u16_bytes(v: u16) -> Seq<u8> {
    seq![(v % 256) as u8, (v / 256) as u8]
}

/// The 4 bytes of `v` in little-endian order.
pub open spec fn u32_bytes(v: u32) -> Seq<u8> {
    seq![
        (v % 0x100) as u8,
        ((v / 0x100) % 0x100) as u8,
        ((v / 0x1_0000) % 0x100) as u8,
        (v / 0x100_0000) as u8,
    ]
}

/// The 8 bytes of `v` in little-endian order.
pub open spec fn u64_bytes(v: u64) -> Seq<u8> {
    u32_bytes((v % 0x1_0000_0000) as u32) + u32_bytes((v / 0x1_0000_0000) as u32)
}

/// `d` with the bytes from `o` on replaced by `b` (the length is kept).
pub open spec fn splice(d: Seq<u8>, o: int, b: Seq<u8>) -> Seq<u8> {
    d.take(o) + b + d.skip(o + b.len())
}

/// `d` with the bytes of `[start, end)` set to zero.
pub open spec fn zeroed(d: Seq<u8>, start: int, end: int) -> Seq<u8> {
    Seq::new(d.len(), |i: int| if start <= i < end { 0u8 } else { d[i] })
}

/// Reading back the bytes of a u32 gives the u32.
pub proof fn lemma_u32_roundtrip(v: u32)
    ensures
        le32(u32_bytes(v), 0) == v,
{
    let b = u32_bytes(v);
    assert(b[0] == v % 0x100);
    assert(b[1] == (v / 0x100) % 0x100);
    assert(b[2] == (v / 0x1_0000) % 0x100);
    assert(b[3] == v / 0x100_0000);
    assert(v == v % 0x100 + ((v / 0x100) % 0x100) * 0x100 + ((v / 0x1_0000) % 0x100) * 0x1_0000
        + (v / 0x100_0000) * 0x100_0000) by (nonlinear_arith);
}

/// Reading back the bytes of a u64 gives the u64.
pub proof fn lemma_u64_roundtrip(v: u64)
    ensures
        le64(u64_bytes(v), 0) == v,
{
    let lo = (v % 0x1_0000_0000) as u32;
    let hi = (v / 0x1_0000_0000) as u32;
    lemma_u32_roundtrip(lo);
    lemma_u32_roundtrip(hi);
    let b = u64_bytes(v);
    assert(b.subrange(0, 4) =~= u32_bytes(lo));
    assert(b.subrange(4, 8) =~= u32_bytes(hi));
    assert(le32(b, 0) == le32(u32_bytes(lo), 0));
    assert(le32(b, 4) == le32(u32_bytes(hi), 0));
    assert(v == v % 0x1_0000_0000 + (v / 0x1_0000_0000) * 0x1_0000_0000) by (nonlinear_arith);
}

/// A little-endian field read back from a spliced buffer at the spliced
/// position gives the spliced value.
pub proof fn lemma_le32_splice(d: Seq<u8>, o: int, v: u32)
    requires
        0 <= o,
        o + 4 <= d.len(),
    ensures
        le32(splice(d, o, u32_bytes(v)), o) == v,
        splice(d, o, u32_bytes(v)).len() == d.len(),
{
    let s = splice(d, o, u32_bytes(v));
    lemma_u32_roundtrip(v);
    assert(s[o] == u32_bytes(v)[0]);
    assert(s[o + 1] == u32_bytes(v)[1]);
    assert(s[o + 2] == u32_bytes(v)[2]);
    assert(s[o + 3] == u32_bytes(v)[3]);
}

/// The 16-bit field at a spliced position reads the spliced value.
pub proof fn lemma_le16_splice(d: Seq<u8>, o: int, v: u16)
    requires
        0 <= o,
        o + 2 <= d.len(),
    ensures
        le16(splice(d, o, u16_bytes(v)), o) == v,
        splice(d, o, u16_bytes(v)).len() == d.len(),
{
    let s = splice(d, o, u16_bytes(v));
    assert(s[o] == u16_bytes(v)[0]);
    assert(s[o + 1] == u16_bytes(v)[1]);
}

/// Reads the unsigned 16-bit little-endian value at `o`.
pub(crate) fn le_u16(d: &[u8], o: usize) -> (r: u16)
    requires
        o + 2 <= d@.len(),
    ensures
        r == le16(d@, o as int),
{
    d[o] as u16 + (d[o + 1] as u16) * 256
}

/// Reads the unsigned 32-bit little-endian value at `o`.
pub(crate) fn le_u32(d: &[u8], o: usize) -> (r: u32)
    requires
        o + 4 <= d@.len(),
    ensures
        r == le32(d@, o as int),
{
    d[o] as u32 + (d[o + 1] as u32) * 0x100 + (d[o + 2] as u32) * 0x1_0000 + (d[o + 3] as u32)
        * 0x100_0000
}

/// Reads the unsigned 64-bit little-endian value at `o`.
pub(crate) fn le_u64(d: &[u8], o: usize) -> (r: u64)
    requires
        o + 8 <= d@.len(),
    ensures
        r == le64(d@, o as int),
{
    let n = d.len();
    let lo = le_u32(d, o) as u64;
    let hi = le_u32(d, o + 4) as u64;
    lo + hi * 0x1_0000_0000
}

/// Overwrites the bytes from `o` on with `b`.
pub(crate) fn write_bytes(d: &mut Vec<u8>, o: usize, b: &[u8])
    requires
        o + b@.len() <= old(d)@.len(),
    ensures
        final(d)@ == splice(old(d)@, o as int, b@),
{
    let ghost d0 = d@;
    let n = d.len();
    let mut k: usize = 0;
    while k < b.len()
        invariant
            k <= b@.len(),
            o + b@.len() <= d0.len(),
            n == d0.len(),
            d@.len() == d0.len(),
            forall|i: int| 0 <= i < d0.len() ==> #[trigger] d@[i] == if o <= i < o + k {
                b@[i - o]
            } else {
                d0[i]
            },
        decreases b@.len() - k,
    {
        d[o + k] = b[k];
        k = k + 1;
    }
    assert(d@ =~= splice(d0, o as int, b@));
}

/// Overwrites the 2 bytes at `o` with `v` in little-endian order.
pub(crate) fn write_u16(d: &mut Vec<u8>, o: usize, v: u16)
    requires
        o + 2 <= old(d)@.len(),
    ensures
        final(d)@ == splice(old(d)@, o as int, u16_bytes(v)),
{
    let b: [u8; 2] = [(v % 256) as u8, (v / 256) as u8];
    assert(b@ =~= u16_bytes(v));
    write_bytes(d, o, &b);
}

/// Overwrites the 4 bytes at `o` with `v` in little-endian order.
pub(crate) fn write_u32(d: &mut Vec<u8>, o: usize, v: u32)
    requires
        o + 4 <= old(d)@.len(),
    ensures
        final(d)@ == splice(old(d)@, o as int, u32_bytes(v)),
{
    let b: [u8; 4] = [
        (v % 0x100) as u8,
        ((v / 0x100) % 0x100) as u8,
        ((v / 0x1_0000) % 0x100) as u8,
        (v / 0x100_0000) as u8,
    ];
    assert(b@ =~= u32_bytes(v));
    write_bytes(d, o, &b);
}

/// Sets the bytes of `[start, end)` to zero.
pub(crate) fn zero_range(d: &mut Vec<u8>, start: usize, end: usize)
    requires
        start <= end <= old(d)@.len(),
    ensures
        final(d)@ == zeroed(old(d)@, start as int, end as int),
{
    let ghost d0 = d@;
    let mut k: usize = start;
    while k < end
        invariant
            start <= k <= end,
            end <= d0.len(),
            d@.len() == d0.len(),
            forall|i: int| 0 <= i < d0.len() ==> #[trigger] d@[i] == if start <= i < k {
                0u8
            } else {
                d0[i]
            },
        decreases end - k,
    {
        d[k] = 0;
        k = k + 1;
    }
    assert(d@ =~= zeroed(d0, start as int, end as int));
}

} // verus!
