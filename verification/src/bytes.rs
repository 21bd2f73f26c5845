//! Little-endian byte images of fixed-width integers.
use vstd::prelude::*;

verus! {

/// The low 8 bits of `v`, as a byte.
pub open spec fn wrap8(v: int) -> u8 {
    (v % 0x100) as u8
}

/// The low 32 bits of `v` in two's complement.
pub open spec fn wrap32(v: int) -> u32 {
    (v % 0x1_0000_0000) as u32
}

/// The low 64 bits of `v` in two's complement.
pub open spec fn wrap64(v: int) -> u64 {
    (v % 0x1_0000_0000_0000_0000) as u64
}

/// The two bytes of `v`, low byte first.
pub open spec fn le16(v: u16) -> Seq<u8> {
    seq![(v % 256) as u8, (v / 256) as u8]
}

/// The four bytes of `v`, low byte first.
pub open spec fn le32(v: u32) -> Seq<u8> {
    seq![
        (v % 256) as u8,
        (v / 0x100 % 256) as u8,
        (v / 0x1_0000 % 256) as u8,
        (v / 0x100_0000) as u8,
    ]
}

/// The eight bytes of `v`, low byte first.
pub open spec fn le64(v: u64) -> Seq<u8> {
    le32((v % 0x1_0000_0000) as u32) + le32((v / 0x1_0000_0000) as u32)
}

/// The number whose four little-endian bytes stand at `at` in `s`.
pub open spec fn rd32(s: Seq<u8>, at: int) -> int {
    s[at] + 0x100 * s[at + 1] + 0x1_0000 * s[at + 2] + 0x100_0000 * s[at + 3]
}

/// The number whose eight little-endian bytes stand at `at` in `s`.
pub open spec fn rd64(s: Seq<u8>, at: int) -> int {
    rd32(s, at) + 0x1_0000_0000 * rd32(s, at + 4)
}

/// `n` zero bytes.
pub open spec fn zeros(n: nat) -> Seq<u8> {
    Seq::new(n, |i: int| 0u8)
}

/// Four bytes written by [`le32`] read back as the number they were made from.
pub proof fn le32_reads_back(v: u32)
    ensures
        rd32(le32(v), 0) == v,
        le32(v).len() == 4,
{
}

/// Eight bytes written by [`le64`] read back as the number they were made from.
pub proof fn le64_reads_back(v: u64)
    ensures
        rd64(le64(v), 0) == v,
        le64(v).len() == 8,
{
    let lo = (v % 0x1_0000_0000) as u32;
    let hi = (v / 0x1_0000_0000) as u32;
    le32_reads_back(lo);
    le32_reads_back(hi);
    assert(rd32(le64(v), 0) == rd32(le32(lo), 0));
    assert(rd32(le64(v), 4) == rd32(le32(hi), 0));
}

/// The two's-complement bits of `v`.
pub fn bits32(v: i32) -> (r: u32)
    ensures
        r == wrap32(v as int),
{
    if v >= 0 {
        v as u32
    } else {
        (v as i64 + 0x1_0000_0000) as u32
    }
}

/// The two's-complement bits of `v`.
pub fn bits64(v: i64) -> (r: u64)
    ensures
        r == wrap64(v as int),
{
    if v >= 0 {
        v as u64
    } else {
        (v as i128 + 0x1_0000_0000_0000_0000) as u64
    }
}

/// Appends a 16-bit little-endian value.
pub fn push_u16(buf: &mut Vec<u8>, v: u16)
    ensures
        final(buf)@ == old(buf)@ + le16(v),
{
    buf.push((v % 256) as u8);
    buf.push((v / 256) as u8);
    assert(buf@ =~= old(buf)@ + le16(v));
}

/// Appends a 32-bit little-endian value.
pub fn push_u32(buf: &mut Vec<u8>, v: u32)
    ensures
        final(buf)@ == old(buf)@ + le32(v),
{
    buf.push((v % 256) as u8);
    buf.push((v / 0x100 % 256) as u8);
    buf.push((v / 0x1_0000 % 256) as u8);
    buf.push((v / 0x100_0000) as u8);
    assert(buf@ =~= old(buf)@ + le32(v));
}

/// Appends a 64-bit little-endian value.
pub fn push_u64(buf: &mut Vec<u8>, v: u64)
    ensures
        final(buf)@ == old(buf)@ + le64(v),
{
    push_u32(buf, (v % 0x1_0000_0000) as u32);
    push_u32(buf, (v / 0x1_0000_0000) as u32);
    assert(buf@ =~= old(buf)@ + le64(v));
}

/// Appends every byte of `src`.
pub fn push_all(buf: &mut Vec<u8>, src: &[u8])
    ensures
        final(buf)@ == old(buf)@ + src@,
{
    let mut i: usize = 0;
    while i < src.len()
        invariant
            i <= src@.len(),
            buf@ == old(buf)@ + src@.take(i as int),
        decreases src@.len() - i,
    {
        buf.push(src[i]);
        assert(src@.take(i + 1) =~= src@.take(i as int).push(src@[i as int]));
        assert(buf@ =~= old(buf)@ + src@.take(i + 1));
        i = i + 1;
    }
    assert(src@.take(i as int) =~= src@);
}

/// A copy of `src`.
pub fn copy_bytes(src: &[u8]) -> (r: Vec<u8>)
    ensures
        r@ == src@,
{
    let mut out: Vec<u8> = Vec::new();
    push_all(&mut out, src);
    assert(out@ =~= src@);
    out
}

/// Appends `n` zero bytes.
pub fn push_zeros(buf: &mut Vec<u8>, n: usize)
    ensures
        final(buf)@ == old(buf)@ + zeros(n as nat),
{
    let mut i: usize = 0;
    assert(buf@ =~= old(buf)@ + zeros(0));
    while i < n
        invariant
            i <= n,
            buf@ == old(buf)@ + zeros(i as nat),
        decreases n - i,
    {
        buf.push(0);
        assert(buf@ =~= old(buf)@ + zeros((i + 1) as nat));
        i = i + 1;
    }
}

/// Whether two byte strings are equal.
pub fn same_bytes(a: &[u8], b: &[u8]) -> (r: bool)
    ensures
        r == (a@ == b@),
{
    if a.len() != b.len() {
        return false;
    }
    let mut i: usize = 0;
    while i < a.len()
        invariant
            i <= a@.len(),
            a@.len() == b@.len(),
            forall|k: int| 0 <= k < i ==> a@[k] == b@[k],
        decreases a@.len() - i,
    {
        if a[i] != b[i] {
            return false;
        }
        i = i + 1;
    }
    assert(a@ =~= b@);
    true
}

/// `s` with the four bytes at `at` replaced by `w`.
pub open spec fn splice32(s: Seq<u8>, at: int, w: u32) -> Seq<u8> {
    Seq::new(s.len(), |i: int| if at <= i < at + 4 { le32(w)[i - at] } else { s[i] })
}

/// `s` with the eight bytes at `at` replaced by `w`.
pub open spec fn splice64(s: Seq<u8>, at: int, w: u64) -> Seq<u8> {
    Seq::new(s.len(), |i: int| if at <= i < at + 8 { le64(w)[i - at] } else { s[i] })
}

/// Overwrites the four bytes at `at`.
pub fn write32(buf: &mut Vec<u8>, at: usize, w: u32)
    requires
        at + 4 <= old(buf)@.len(),
    ensures
        final(buf)@ == splice32(old(buf)@, at as int, w),
{
    let _len: usize = buf.len();
    buf[at] = (w % 256) as u8;
    buf[at + 1] = (w / 0x100 % 256) as u8;
    buf[at + 2] = (w / 0x1_0000 % 256) as u8;
    buf[at + 3] = (w / 0x100_0000) as u8;
    assert(buf@ =~= splice32(old(buf)@, at as int, w));
}

/// Overwrites the eight bytes at `at`.
pub fn write64(buf: &mut Vec<u8>, at: usize, w: u64)
    requires
        at + 8 <= old(buf)@.len(),
    ensures
        final(buf)@ == splice64(old(buf)@, at as int, w),
{
    let _len: usize = buf.len();
    write32(buf, at, (w % 0x1_0000_0000) as u32);
    write32(buf, at + 4, (w / 0x1_0000_0000) as u32);
    assert(buf@ =~= splice64(old(buf)@, at as int, w));
}

/// The four bytes that [`splice32`] wrote read back, and nothing else moved.
pub proof fn splice32_reads_back(s: Seq<u8>, at: int, w: u32)
    requires
        0 <= at,
        at + 4 <= s.len(),
    ensures
        splice32(s, at, w).len() == s.len(),
        rd32(splice32(s, at, w), at) == w,
        forall|i: int| 0 <= i < s.len() && !(at <= i < at + 4) ==> splice32(s, at, w)[i] == s[i],
{
    le32_reads_back(w);
}

/// The eight bytes that [`splice64`] wrote read back, and nothing else moved.
pub proof fn splice64_reads_back(s: Seq<u8>, at: int, w: u64)
    requires
        0 <= at,
        at + 8 <= s.len(),
    ensures
        splice64(s, at, w).len() == s.len(),
        rd64(splice64(s, at, w), at) == w,
        forall|i: int| 0 <= i < s.len() && !(at <= i < at + 8) ==> splice64(s, at, w)[i] == s[i],
{
    le64_reads_back(w);
    assert(rd32(splice64(s, at, w), at) == rd32(le64(w), 0));
    assert(rd32(splice64(s, at, w), at + 4) == rd32(le64(w), 4));
}

} // verus!
