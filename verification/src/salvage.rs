//! Footers, ZIP end records and GIF salvage: the pieces of deep repair that
//! only cut or patch the carved bytes.

use vstd::prelude::*;
use crate::bytes::{copy_range, ends_with, has_suffix, le16, matches_at, rd_le16, starts_with};
use crate::formats::FileType;

verus! {

/// The footer bytes a format ends with, when it has a fixed one.
pub open spec fn spec_footer_bytes(t: FileType) -> Option<Seq<u8>> {
    match t {
        FileType::JPEG => Some(seq![0xFFu8, 0xD9]),
        FileType::PNG => Some(seq![0x49u8, 0x45, 0x4E, 0x44, 0xAE, 0x42, 0x60, 0x82]),
        FileType::GIF => Some(seq![0x00u8, 0x3B]),
        FileType::PDF => Some(seq![0x25u8, 0x25, 0x45, 0x4F, 0x46]),
        _ => None,
    }
}

/// The footer bytes a format ends with, when it has a fixed one.
pub fn footer_bytes(t: FileType) -> (r: Option<Vec<u8>>)
    ensures
        match r {
            Some(v) => spec_footer_bytes(t) == Some(v@),
            None => spec_footer_bytes(t) is None,
        },
{
    match t {
        FileType::JPEG => {
            let v = vec![0xFFu8, 0xD9];
            assert(v@ == seq![0xFFu8, 0xD9]);
            Some(v)
        },
        FileType::PNG => {
            let v = vec![0x49u8, 0x45, 0x4E, 0x44, 0xAE, 0x42, 0x60, 0x82];
            assert(v@ == seq![0x49u8, 0x45, 0x4E, 0x44, 0xAE, 0x42, 0x60, 0x82]);
            Some(v)
        },
        FileType::GIF => {
            let v = vec![0x00u8, 0x3B];
            assert(v@ == seq![0x00u8, 0x3B]);
            Some(v)
        },
        FileType::PDF => {
            let v = vec![0x25u8, 0x25, 0x45, 0x4F, 0x46];
            assert(v@ == seq![0x25u8, 0x25, 0x45, 0x4F, 0x46]);
            Some(v)
        },
        _ => None,
    }
}

/// Whether the data ends with its format's footer (formats without a fixed
/// footer always pass).
pub open spec fn spec_check_footer(d: Seq<u8>, t: FileType) -> bool {
    match spec_footer_bytes(t) {
        Some(f) => ends_with(d, f),
        None => true,
    }
}

pub fn check_footer(data: &[u8], t: FileType) -> (r: bool)
    ensures
        r == spec_check_footer(data@, t),
{
    match footer_bytes(t) {
        Some(f) => has_suffix(data, f.as_slice()),
        None => true,
    }
}

pub open spec fn eocd_sig() -> Seq<u8> {
    seq![0x50u8, 0x4B, 0x05, 0x06]
}

/// The last ZIP end-of-central-directory signature at or before `i`.
pub open spec fn last_eocd_upto(d: Seq<u8>, i: int) -> Option<int>
    decreases i + 1,
{
    if i < 0 {
        None
    } else if matches_at(d, i, eocd_sig()) {
        Some(i)
    } else {
        last_eocd_upto(d, i - 1)
    }
}

/// Offset of the last ZIP end-of-central-directory record.
pub open spec fn spec_find_zip_eocd(d: Seq<u8>) -> Option<int> {
    if d.len() < 4 {
        None
    } else {
        last_eocd_upto(d, d.len() - 4)
    }
}

/// Offset of the last ZIP end-of-central-directory signature.
pub fn find_zip_eocd(data: &[u8]) -> (r: Option<usize>)
    ensures
        match r {
            Some(i) => spec_find_zip_eocd(data@) == Some(i as int) && i + 4 <= data@.len(),
            None => spec_find_zip_eocd(data@) is None,
        },
{
    if data.len() < 4 {
        return None;
    }
    let sig: [u8; 4] = [0x50, 0x4B, 0x05, 0x06];
    assert(sig@ == eocd_sig());
    let mut i: usize = data.len() - 4;
    loop
        invariant
            i + 4 <= data@.len(),
            sig@ == eocd_sig(),
            spec_find_zip_eocd(data@) == last_eocd_upto(data@, i as int),
        decreases i,
    {
        if crate::bytes::bytes_at(data, i, &sig) {
            return Some(i);
        }
        if i == 0 {
            assert(last_eocd_upto(data@, -1) is None);
            return None;
        }
        i -= 1;
    }
}

/// The ZIP archive that starts at `off`: it ends after the last end record
/// and its comment (cut at the end of the data).
pub open spec fn spec_repair_zip_from(d: Seq<u8>, off: int) -> Option<Seq<u8>> {
    match spec_find_zip_eocd(d) {
        None => None,
        Some(e) => if e + 22 > d.len() {
            None
        } else {
            let full = e + 22 + le16(d, e + 20);
            let end = if full < d.len() { full } else { d.len() as int };
            if end < off {
                None
            } else {
                Some(d.subrange(off, end))
            }
        },
    }
}

/// Cut a ZIP archive starting at `off` right after its end record and
/// comment, dropping trailing garbage.
pub fn repair_zip_from(data: &[u8], off: usize) -> (r: Option<Vec<u8>>)
    ensures
        match r {
            Some(v) => spec_repair_zip_from(data@, off as int) == Some(v@),
            None => spec_repair_zip_from(data@, off as int) is None,
        },
{
    let eocd = match find_zip_eocd(data) {
        Some(e) => e,
        None => return None,
    };
    if data.len() - eocd < 22 {
        return None;
    }
    let comment_len = rd_le16(data, eocd + 20) as usize;
    let full = (eocd + 22) as u128 + comment_len as u128;
    let end: usize = if full < data.len() as u128 {
        full as usize
    } else {
        data.len()
    };
    if end < off {
        return None;
    }
    Some(copy_range(data, off, end))
}

pub open spec fn gif89a() -> Seq<u8> {
    seq![0x47u8, 0x49, 0x46, 0x38, 0x39, 0x61]
}

/// Index of the last `0x3B` (GIF trailer) byte.
pub open spec fn last_trailer(d: Seq<u8>, i: int) -> Option<int>
    decreases i + 1,
{
    if i < 0 {
        None
    } else if d[i] == 0x3B {
        Some(i)
    } else {
        last_trailer(d, i - 1)
    }
}

pub fn find_trailer(data: &[u8]) -> (r: Option<usize>)
    ensures
        match r {
            Some(i) => last_trailer(data@, data@.len() - 1) == Some(i as int) && i < data@.len(),
            None => last_trailer(data@, data@.len() - 1) is None,
        },
{
    let mut i: usize = data.len();
    while i > 0
        invariant
            i <= data@.len(),
            last_trailer(data@, data@.len() - 1) == last_trailer(data@, i - 1),
        decreases i,
    {
        if data[i - 1] == 0x3B {
            return Some(i - 1);
        }
        i -= 1;
    }
    None
}

/// Whether `s` begins with a GIF signature (`GIF87a` or `GIF89a`).
pub open spec fn gif_header_ok(s: Seq<u8>) -> bool {
    s.len() >= 6 && s[0] == 0x47 && s[1] == 0x49 && s[2] == 0x46 && s[3] == 0x38 && (s[4] == 0x37 || s[4]
        == 0x39) && s[5] == 0x61
}

/// The salvaged GIF (see `salvage_gif`).
pub open spec fn spec_salvage_gif(d: Seq<u8>, off: int) -> Option<Seq<u8>> {
    if off > d.len() {
        None
    } else {
        let s = d.subrange(off, d.len() as int);
        if s.len() < 6 {
            None
        } else {
            let head = if gif_header_ok(s) { s.subrange(0, 6) } else { gif89a() };
            let body = if s.len() >= 13 {
                let packed = s[10];
                let gct: int = if packed >= 0x80 { (3 * vstd::arithmetic::power2::pow2(((packed % 8) + 1) as nat)) as int } else { 0 };
                let after: int = 13 + gct;
                s.subrange(6, 13) + if s.len() >= after {
                    let rest = s.subrange(after, s.len() as int);
                    s.subrange(13, after) + match last_trailer(rest, rest.len() - 1) {
                        Some(t) => rest.subrange(0, t + 1),
                        None => rest,
                    }
                } else {
                    Seq::empty()
                }
            } else {
                seq![0x01u8, 0x00, 0x01, 0x00, 0x00, 0x00, 0x00]
            };
            let out = head + body;
            Some(if ends_with(out, seq![0x3Bu8]) { out } else { out.push(0x3B) })
        }
    }
}

/// Guarantee the GIF opens: ensure a valid header, a logical screen
/// descriptor, and a trailer byte (0x3B). Keeps whatever image data is
/// salvageable.
pub fn salvage_gif(data: &[u8], off: usize) -> (r: Option<Vec<u8>>)
    requires
        off <= data@.len(),
    ensures
        match r {
            Some(v) => spec_salvage_gif(data@, off as int) == Some(v@),
            None => spec_salvage_gif(data@, off as int) is None,
        },
{
    let slice = copy_range(data, off, data.len());
    let n = slice.len();
    if n < 6 {
        return None;
    }
    let mut out: Vec<u8> = Vec::new();
    let header_ok = slice[0] == 0x47 && slice[1] == 0x49 && slice[2] == 0x46 && slice[3] == 0x38 && (slice[4]
        == 0x37 || slice[4] == 0x39) && slice[5] == 0x61;
    if header_ok {
        crate::bytes::append_range(&mut out, slice.as_slice(), 0, 6);
    } else {
        let h: [u8; 6] = [0x47, 0x49, 0x46, 0x38, 0x39, 0x61];
        assert(h@ == gif89a());
        crate::bytes::append_all(&mut out, &h);
    }
    let ghost head = out@;
    assert(head == (if gif_header_ok(slice@) { slice@.subrange(0, 6) } else { gif89a() }));
    if n >= 13 {
        crate::bytes::append_range(&mut out, slice.as_slice(), 6, 13);
        let packed = slice[10];
        let gct: usize = if packed >= 0x80 {
            let k = (packed % 8) + 1;
            let mut g: usize = 3;
            let mut c: u8 = 0;
            proof {
                vstd::arithmetic::power2::lemma2_to64();
            }
            while c < k
                invariant
                    c <= k <= 8,
                    g == 3 * vstd::arithmetic::power2::pow2(c as nat),
                decreases k - c,
            {
                proof {
                    vstd::arithmetic::power2::lemma_pow2_unfold((c + 1) as nat);
                    vstd::arithmetic::power2::lemma2_to64();
                    assert(vstd::arithmetic::power2::pow2(c as nat) <= 128) by {
                        if c < 7 {
                            vstd::arithmetic::power2::lemma_pow2_strictly_increases(c as nat, 7);
                        }
                    }
                }
                g = g * 2;
                c += 1;
            }
            g
        } else {
            0
        };
        let after = 13 + gct;
        let ghost s = slice@;
        assert(s.len() >= 13 && s[10] == packed);
        assert(gct == (if packed >= 0x80 { (3 * vstd::arithmetic::power2::pow2(((packed % 8) + 1) as nat)) as int } else { 0 }));
        if n >= after {
            crate::bytes::append_range(&mut out, slice.as_slice(), 13, after);
            let rest = copy_range(slice.as_slice(), after, n);
            match find_trailer(rest.as_slice()) {
                Some(t) => crate::bytes::append_range(&mut out, rest.as_slice(), 0, t + 1),
                None => crate::bytes::append_all(&mut out, rest.as_slice()),
            }
            assert(out@ =~= head + (s.subrange(6, 13) + (s.subrange(13, after as int) + match last_trailer(rest@, rest@.len() - 1) {
                Some(t) => rest@.subrange(0, t + 1),
                None => rest@,
            })));
        } else {
            assert(out@ =~= head + (s.subrange(6, 13) + Seq::<u8>::empty()));
        }
    } else {
        let lsd: [u8; 7] = [0x01, 0x00, 0x01, 0x00, 0x00, 0x00, 0x00];
        assert(lsd@ == seq![0x01u8, 0x00, 0x01, 0x00, 0x00, 0x00, 0x00]);
        crate::bytes::append_all(&mut out, &lsd);
        assert(out@ =~= head + seq![0x01u8, 0x00, 0x01, 0x00, 0x00, 0x00, 0x00]);
    }
    let tr: [u8; 1] = [0x3B];
    assert(tr@ == seq![0x3Bu8]);
    if !has_suffix(out.as_slice(), &tr) {
        out.push(0x3B);
    }
    Some(out)
}


/// A salvaged GIF starts with a valid GIF header (the original one when it
/// was valid, else `GIF89a`) and ends with the GIF trailer.
pub proof fn lemma_salvage_gif_shape(d: Seq<u8>, off: int)
    requires
        0 <= off,
    ensures
        spec_salvage_gif(d, off) matches Some(o) ==> gif_header_ok(o) && ends_with(o, seq![0x3Bu8]),
        spec_salvage_gif(d, off) matches Some(o) ==> (gif_header_ok(d.subrange(off, d.len() as int)) ==> o.subrange(0, 6) == d.subrange(off, off + 6)),
        spec_salvage_gif(d, off) matches Some(o) ==> (!gif_header_ok(d.subrange(off, d.len() as int)) ==> o.subrange(0, 6) == gif89a()),
{
    if 0 <= off <= d.len() {
        let s = d.subrange(off, d.len() as int);
        if s.len() >= 6 {
            let head = if gif_header_ok(s) { s.subrange(0, 6) } else { gif89a() };
            let body = if s.len() >= 13 {
                let packed = s[10];
                let gct: int = if packed >= 0x80 { (3 * vstd::arithmetic::power2::pow2(((packed % 8) + 1) as nat)) as int } else { 0 };
                let after: int = 13 + gct;
                s.subrange(6, 13) + if s.len() >= after {
                    let rest = s.subrange(after, s.len() as int);
                    s.subrange(13, after) + match last_trailer(rest, rest.len() - 1) {
                        Some(t) => rest.subrange(0, t + 1),
                        None => rest,
                    }
                } else {
                    Seq::empty()
                }
            } else {
                seq![0x01u8, 0x00, 0x01, 0x00, 0x00, 0x00, 0x00]
            };
            let out = head + body;
            assert(out.subrange(0, 6) =~= head);
            assert(head.len() == 6);
            if gif_header_ok(s) {
                assert(s.subrange(0, 6) =~= d.subrange(off, off + 6));
            }
            if ends_with(out, seq![0x3Bu8]) {
                assert(out[0] == head[0] && out[1] == head[1] && out[2] == head[2] && out[3] == head[3] && out[4] == head[4]
                    && out[5] == head[5]);
            } else {
                let o = out.push(0x3B);
                assert(o.subrange(0, 6) =~= head);
                assert(o.subrange(o.len() - 1, o.len() as int) =~= seq![0x3Bu8]);
                assert(o[0] == head[0] && o[1] == head[1] && o[2] == head[2] && o[3] == head[3] && o[4] == head[4] && o[5]
                    == head[5]);
            }
        }
    }
}

} // verus!
