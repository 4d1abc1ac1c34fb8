//! Byte-order helpers shared by the NTFS parser and the repair code.

use vstd::prelude::*;

verus! {

/// Little-endian value of the two bytes at `off`.
pub open spec fn le16(s: Seq<u8>, off: int) -> int {
    s[off] as int + 256 * s[off + 1] as int
}

/// Little-endian value of the four bytes at `off`.
pub open spec fn le32(s: Seq<u8>, off: int) -> int {
    le16(s, off) + 65536 * le16(s, off + 2)
}

/// Little-endian value of the eight bytes at `off`.
pub open spec fn le64(s: Seq<u8>, off: int) -> int {
    le32(s, off) + 0x1_0000_0000 * le32(s, off + 4)
}

/// Big-endian value of the two bytes at `off`.
pub open spec fn be16(s: Seq<u8>, off: int) -> int {
    256 * s[off] as int + s[off + 1] as int
}

/// Big-endian value of the four bytes at `off`.
pub open spec fn be32(s: Seq<u8>, off: int) -> int {
    65536 * be16(s, off) + be16(s, off + 2)
}

/// Whether `s` begins with `prefix`.
pub open spec fn starts_with(s: Seq<u8>, prefix: Seq<u8>) -> bool {
    prefix.len() <= s.len() && s.subrange(0, prefix.len() as int) == prefix
}

/// Whether `s` ends with `suffix`.
pub open spec fn ends_with(s: Seq<u8>, suffix: Seq<u8>) -> bool {
    suffix.len() <= s.len() && s.subrange(s.len() - suffix.len(), s.len() as int) == suffix
}

/// Whether the bytes of `s` at `off` spell `pat`.
pub open spec fn matches_at(s: Seq<u8>, off: int, pat: Seq<u8>) -> bool {
    0 <= off && off + pat.len() <= s.len() && s.subrange(off, off + pat.len()) == pat
}

/// Little-endian `u16` at `off`.
pub fn rd_le16(b: &[u8], off: usize) -> (r: u16)
    requires
        off + 2 <= b@.len(),
    ensures
        r == le16(b@, off as int),
{
    let _len = b.len();
    let lo = b[off] as u16;
    let hi = b[off + 1] as u16;
    assert(hi * 256 <= 0xff00) by (nonlinear_arith)
        requires
            hi <= 0xff,
    ;
    lo + hi * 256
}

/// Little-endian `u32` at `off`.
pub fn rd_le32(b: &[u8], off: usize) -> (r: u32)
    requires
        off + 4 <= b@.len(),
    ensures
        r == le32(b@, off as int),
{
    let _len = b.len();
    let lo = rd_le16(b, off) as u32;
    let hi = rd_le16(b, off + 2) as u32;
    assert(hi * 65536 <= 0xffff_0000) by (nonlinear_arith)
        requires
            hi <= 0xffff,
    ;
    lo + hi * 65536
}

/// Little-endian `u64` at `off`.
pub fn rd_le64(b: &[u8], off: usize) -> (r: u64)
    requires
        off + 8 <= b@.len(),
    ensures
        r == le64(b@, off as int),
{
    let _len = b.len();
    let lo = rd_le32(b, off) as u64;
    let hi = rd_le32(b, off + 4) as u64;
    assert(hi * 0x1_0000_0000 <= 0xffff_ffff_0000_0000) by (nonlinear_arith)
        requires
            hi <= 0xffff_ffff,
    ;
    lo + hi * 0x1_0000_0000
}

/// Big-endian `u16` at `off`.
pub fn rd_be16(b: &[u8], off: usize) -> (r: u16)
    requires
        off + 2 <= b@.len(),
    ensures
        r == be16(b@, off as int),
{
    let _len = b.len();
    let hi = b[off] as u16;
    let lo = b[off + 1] as u16;
    assert(hi * 256 <= 0xff00) by (nonlinear_arith)
        requires
            hi <= 0xff,
    ;
    hi * 256 + lo
}

/// Big-endian `u32` at `off`.
pub fn rd_be32(b: &[u8], off: usize) -> (r: u32)
    requires
        off + 4 <= b@.len(),
    ensures
        r == be32(b@, off as int),
{
    let _len = b.len();
    let hi = rd_be16(b, off) as u32;
    let lo = rd_be16(b, off + 2) as u32;
    assert(hi * 65536 <= 0xffff_0000) by (nonlinear_arith)
        requires
            hi <= 0xffff,
    ;
    hi * 65536 + lo
}

/// Whether the bytes of `s` at `off` spell `pat` (false when out of range).
pub fn bytes_at(s: &[u8], off: usize, pat: &[u8]) -> (r: bool)
    ensures
        r == matches_at(s@, off as int, pat@),
{
    if off > s.len() || pat.len() > s.len() - off {
        return false;
    }
    let mut i: usize = 0;
    while i < pat.len()
        invariant
            off + pat@.len() <= s@.len(),
            s@.len() <= usize::MAX,
            i <= pat@.len(),
            forall|k: int| 0 <= k < i ==> s@[off + k] == pat@[k],
        decreases pat@.len() - i,
    {
        if s[off + i] != pat[i] {
            assert(s@.subrange(off as int, off + pat@.len())[i as int] != pat@[i as int]);
            return false;
        }
        i += 1;
    }
    assert(s@.subrange(off as int, off + pat@.len()) =~= pat@);
    true
}

/// Whether `s` begins with `prefix`.
pub fn has_prefix(s: &[u8], prefix: &[u8]) -> (r: bool)
    ensures
        r == starts_with(s@, prefix@),
{
    bytes_at(s, 0, prefix)
}

/// Whether `s` ends with `suffix`.
pub fn has_suffix(s: &[u8], suffix: &[u8]) -> (r: bool)
    ensures
        r == ends_with(s@, suffix@),
{
    if suffix.len() > s.len() {
        return false;
    }
    bytes_at(s, s.len() - suffix.len(), suffix)
}

/// A copy of `s[from..to]`.
pub fn copy_range(s: &[u8], from: usize, to: usize) -> (r: Vec<u8>)
    requires
        from <= to <= s@.len(),
    ensures
        r@ == s@.subrange(from as int, to as int),
{
    let mut out: Vec<u8> = Vec::new();
    let mut i = from;
    while i < to
        invariant
            from <= i <= to <= s@.len(),
            out@ == s@.subrange(from as int, i as int),
        decreases to - i,
    {
        out.push(s[i]);
        i += 1;
    }
    out
}

/// Appends `s[from..to]` to `out`.
pub fn append_range(out: &mut Vec<u8>, s: &[u8], from: usize, to: usize)
    requires
        from <= to <= s@.len(),
    ensures
        final(out)@ == old(out)@ + s@.subrange(from as int, to as int),
{
    let mut i = from;
    while i < to
        invariant
            from <= i <= to <= s@.len(),
            out@ == old(out)@ + s@.subrange(from as int, i as int),
        decreases to - i,
    {
        out.push(s[i]);
        i += 1;
        assert(out@ =~= old(out)@ + s@.subrange(from as int, i as int));
    }
}

/// Appends all of `s` to `out`.
pub fn append_all(out: &mut Vec<u8>, s: &[u8])
    ensures
        final(out)@ == old(out)@ + s@,
{
    append_range(out, s, 0, s.len());
    assert(s@.subrange(0, s@.len() as int) =~= s@);
}

} // verus!
