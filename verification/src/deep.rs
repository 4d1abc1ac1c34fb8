//! Deep analysis: every known file signature anywhere in the data, where
//! each embedded candidate ends, whether it looks complete, and the
//! rebuilding of a chosen candidate.

use vstd::prelude::*;
use crate::bytes::{copy_range, le32, matches_at, rd_le32};
use crate::formats::FileType;

verus! {

/// Number of signatures the deep scan looks for.
pub const SIGNATURE_COUNT: usize = 22;

/// Most hits kept per signature.
pub const MAX_HITS: u64 = 64;

/// The byte patterns of the deep scan, in the order they are tried.
pub open spec fn sig_patterns() -> Seq<Seq<u8>> {
    seq![
        seq![0xFFu8, 0xD8, 0xFF],
        seq![0x89u8, 0x50, 0x4E, 0x47, 0x0D, 0x0A, 0x1A, 0x0A],
        seq![0x47u8, 0x49, 0x46, 0x38],
        seq![0x25u8, 0x50, 0x44, 0x46],
        seq![0x50u8, 0x4B, 0x03, 0x04],
        seq![0x50u8, 0x4B, 0x05, 0x06],
        seq![0x47u8, 0x49, 0x46, 0x38],
        seq![0x25u8, 0x50, 0x44, 0x46],
        seq![0x50u8, 0x4B, 0x03, 0x04],
        seq![0x50u8, 0x4B, 0x05, 0x06],
        seq![0x52u8, 0x49, 0x46, 0x46],
        seq![0x42u8, 0x4D],
        seq![0x7Fu8, 0x45, 0x4C, 0x46],
        seq![0x49u8, 0x44, 0x33],
        seq![0x66u8, 0x4C, 0x61, 0x43],
        seq![0x49u8, 0x49, 0x2A, 0x00],
        seq![0x4Du8, 0x4D, 0x00, 0x2A],
        seq![0x38u8, 0x42, 0x50, 0x53],
        seq![0x4Du8, 0x5A],
        seq![0xCAu8, 0xFE, 0xBA, 0xBE],
        seq![0x4Fu8, 0x67, 0x67, 0x53],
        seq![0x1Au8, 0x45, 0xDF, 0xA3],
    ]
}

/// The file type each signature announces.
pub open spec fn sig_types() -> Seq<FileType> {
    seq![
        FileType::JPEG,
        FileType::PNG,
        FileType::GIF,
        FileType::PDF,
        FileType::ZIP,
        FileType::ZIP,
        FileType::GIF,
        FileType::PDF,
        FileType::ZIP,
        FileType::ZIP,
        FileType::RIFF,
        FileType::BMP,
        FileType::ELF,
        FileType::MP3,
        FileType::FLAC,
        FileType::TIFF,
        FileType::TIFF,
        FileType::PSD,
        FileType::EXE,
        FileType::JavaClass,
        FileType::Unknown,
        FileType::Unknown,
    ]
}

/// The label of each signature.
pub open spec fn sig_labels() -> Seq<Seq<char>> {
    seq![
        seq!['J', 'P', 'E', 'G', ' ', 'i', 'm', 'a', 'g', 'e'],
        seq!['P', 'N', 'G', ' ', 'i', 'm', 'a', 'g', 'e'],
        seq!['G', 'I', 'F', ' ', 'i', 'm', 'a', 'g', 'e'],
        seq!['P', 'D', 'F', ' ', 'd', 'o', 'c', 'u', 'm', 'e', 'n', 't'],
        seq!['Z', 'I', 'P', ' ', 'a', 'r', 'c', 'h', 'i', 'v', 'e', ' ', '(', 'l', 'o', 'c', 'a', 'l', ' ', 'h', 'e', 'a', 'd', 'e', 'r', ')'],
        seq!['Z', 'I', 'P', ' ', 'a', 'r', 'c', 'h', 'i', 'v', 'e', ' ', '(', 'e', 'n', 'd', ' ', 'o', 'f', ' ', 'c', 'e', 'n', 't', 'r', 'a', 'l', ' ', 'd', 'i', 'r', ')'],
        seq!['G', 'I', 'F', ' ', 'i', 'm', 'a', 'g', 'e'],
        seq!['P', 'D', 'F', ' ', 'd', 'o', 'c', 'u', 'm', 'e', 'n', 't'],
        seq!['Z', 'I', 'P', ' ', 'a', 'r', 'c', 'h', 'i', 'v', 'e', ' ', '(', 'l', 'o', 'c', 'a', 'l', ' ', 'h', 'e', 'a', 'd', 'e', 'r', ')'],
        seq!['Z', 'I', 'P', ' ', 'a', 'r', 'c', 'h', 'i', 'v', 'e', ' ', '(', 'e', 'n', 'd', ' ', 'o', 'f', ' ', 'c', 'e', 'n', 't', 'r', 'a', 'l', ' ', 'd', 'i', 'r', ')'],
        seq!['R', 'I', 'F', 'F', ' ', '(', 'A', 'V', 'I', '/', 'W', 'A', 'V', ')'],
        seq!['B', 'M', 'P', ' ', 'i', 'm', 'a', 'g', 'e'],
        seq!['E', 'L', 'F', ' ', 'b', 'i', 'n', 'a', 'r', 'y'],
        seq!['M', 'P', '3', ' ', 'a', 'u', 'd', 'i', 'o', ' ', '(', 'I', 'D', '3', ' ', 't', 'a', 'g', ')'],
        seq!['F', 'L', 'A', 'C', ' ', 'a', 'u', 'd', 'i', 'o'],
        seq!['T', 'I', 'F', 'F', ' ', 'i', 'm', 'a', 'g', 'e', ' ', '(', 'l', 'i', 't', 't', 'l', 'e', '-', 'e', 'n', 'd', 'i', 'a', 'n', ')'],
        seq!['T', 'I', 'F', 'F', ' ', 'i', 'm', 'a', 'g', 'e', ' ', '(', 'b', 'i', 'g', '-', 'e', 'n', 'd', 'i', 'a', 'n', ')'],
        seq!['P', 'h', 'o', 't', 'o', 's', 'h', 'o', 'p', ' ', 'd', 'o', 'c', 'u', 'm', 'e', 'n', 't'],
        seq!['W', 'i', 'n', 'd', 'o', 'w', 's', ' ', 'e', 'x', 'e', 'c', 'u', 't', 'a', 'b', 'l', 'e'],
        seq!['J', 'a', 'v', 'a', ' ', 'c', 'l', 'a', 's', 's', ' ', 'f', 'i', 'l', 'e'],
        seq!['O', 'g', 'g', ' ', 'c', 'o', 'n', 't', 'a', 'i', 'n', 'e', 'r'],
        seq!['W', 'e', 'b', 'M', '/', 'M', 'a', 't', 'r', 'o', 's', 'k', 'a'],
    ]
}

/// The pattern, type and label of signature `k`.
pub fn signature(k: usize) -> (r: (Vec<u8>, FileType, &'static str))
    requires
        k < SIGNATURE_COUNT,
    ensures
        r.0@ == sig_patterns()[k as int],
        r.1 == sig_types()[k as int],
        r.2@ == sig_labels()[k as int],
{
    if k == 0 {
        proof {
            reveal_strlit("JPEG image");
        }
        let v = vec![0xFFu8, 0xD8, 0xFF];
        assert(v@ == sig_patterns()[0]);
        return (v, FileType::JPEG, "JPEG image");
    }
    if k == 1 {
        proof {
            reveal_strlit("PNG image");
        }
        let v = vec![0x89u8, 0x50, 0x4E, 0x47, 0x0D, 0x0A, 0x1A, 0x0A];
        assert(v@ == sig_patterns()[1]);
        return (v, FileType::PNG, "PNG image");
    }
    if k == 2 {
        proof {
            reveal_strlit("GIF image");
        }
        let v = vec![0x47u8, 0x49, 0x46, 0x38];
        assert(v@ == sig_patterns()[2]);
        return (v, FileType::GIF, "GIF image");
    }
    if k == 3 {
        proof {
            reveal_strlit("PDF document");
        }
        let v = vec![0x25u8, 0x50, 0x44, 0x46];
        assert(v@ == sig_patterns()[3]);
        return (v, FileType::PDF, "PDF document");
    }
    if k == 4 {
        proof {
            reveal_strlit("ZIP archive (local header)");
        }
        let v = vec![0x50u8, 0x4B, 0x03, 0x04];
        assert(v@ == sig_patterns()[4]);
        return (v, FileType::ZIP, "ZIP archive (local header)");
    }
    if k == 5 {
        proof {
            reveal_strlit("ZIP archive (end of central dir)");
        }
        let v = vec![0x50u8, 0x4B, 0x05, 0x06];
        assert(v@ == sig_patterns()[5]);
        return (v, FileType::ZIP, "ZIP archive (end of central dir)");
    }
    if k == 6 {
        proof {
            reveal_strlit("GIF image");
        }
        let v = vec![0x47u8, 0x49, 0x46, 0x38];
        assert(v@ == sig_patterns()[6]);
        return (v, FileType::GIF, "GIF image");
    }
    if k == 7 {
        proof {
            reveal_strlit("PDF document");
        }
        let v = vec![0x25u8, 0x50, 0x44, 0x46];
        assert(v@ == sig_patterns()[7]);
        return (v, FileType::PDF, "PDF document");
    }
    if k == 8 {
        proof {
            reveal_strlit("ZIP archive (local header)");
        }
        let v = vec![0x50u8, 0x4B, 0x03, 0x04];
        assert(v@ == sig_patterns()[8]);
        return (v, FileType::ZIP, "ZIP archive (local header)");
    }
    if k == 9 {
        proof {
            reveal_strlit("ZIP archive (end of central dir)");
        }
        let v = vec![0x50u8, 0x4B, 0x05, 0x06];
        assert(v@ == sig_patterns()[9]);
        return (v, FileType::ZIP, "ZIP archive (end of central dir)");
    }
    if k == 10 {
        proof {
            reveal_strlit("RIFF (AVI/WAV)");
        }
        let v = vec![0x52u8, 0x49, 0x46, 0x46];
        assert(v@ == sig_patterns()[10]);
        return (v, FileType::RIFF, "RIFF (AVI/WAV)");
    }
    if k == 11 {
        proof {
            reveal_strlit("BMP image");
        }
        let v = vec![0x42u8, 0x4D];
        assert(v@ == sig_patterns()[11]);
        return (v, FileType::BMP, "BMP image");
    }
    if k == 12 {
        proof {
            reveal_strlit("ELF binary");
        }
        let v = vec![0x7Fu8, 0x45, 0x4C, 0x46];
        assert(v@ == sig_patterns()[12]);
        return (v, FileType::ELF, "ELF binary");
    }
    if k == 13 {
        proof {
            reveal_strlit("MP3 audio (ID3 tag)");
        }
        let v = vec![0x49u8, 0x44, 0x33];
        assert(v@ == sig_patterns()[13]);
        return (v, FileType::MP3, "MP3 audio (ID3 tag)");
    }
    if k == 14 {
        proof {
            reveal_strlit("FLAC audio");
        }
        let v = vec![0x66u8, 0x4C, 0x61, 0x43];
        assert(v@ == sig_patterns()[14]);
        return (v, FileType::FLAC, "FLAC audio");
    }
    if k == 15 {
        proof {
            reveal_strlit("TIFF image (little-endian)");
        }
        let v = vec![0x49u8, 0x49, 0x2A, 0x00];
        assert(v@ == sig_patterns()[15]);
        return (v, FileType::TIFF, "TIFF image (little-endian)");
    }
    if k == 16 {
        proof {
            reveal_strlit("TIFF image (big-endian)");
        }
        let v = vec![0x4Du8, 0x4D, 0x00, 0x2A];
        assert(v@ == sig_patterns()[16]);
        return (v, FileType::TIFF, "TIFF image (big-endian)");
    }
    if k == 17 {
        proof {
            reveal_strlit("Photoshop document");
        }
        let v = vec![0x38u8, 0x42, 0x50, 0x53];
        assert(v@ == sig_patterns()[17]);
        return (v, FileType::PSD, "Photoshop document");
    }
    if k == 18 {
        proof {
            reveal_strlit("Windows executable");
        }
        let v = vec![0x4Du8, 0x5A];
        assert(v@ == sig_patterns()[18]);
        return (v, FileType::EXE, "Windows executable");
    }
    if k == 19 {
        proof {
            reveal_strlit("Java class file");
        }
        let v = vec![0xCAu8, 0xFE, 0xBA, 0xBE];
        assert(v@ == sig_patterns()[19]);
        return (v, FileType::JavaClass, "Java class file");
    }
    if k == 20 {
        proof {
            reveal_strlit("Ogg container");
        }
        let v = vec![0x4Fu8, 0x67, 0x67, 0x53];
        assert(v@ == sig_patterns()[20]);
        return (v, FileType::Unknown, "Ogg container");
    }
    {
        proof {
            reveal_strlit("WebM/Matroska");
        }
        let v = vec![0x1Au8, 0x45, 0xDF, 0xA3];
        assert(v@ == sig_patterns()[21]);
        return (v, FileType::Unknown, "WebM/Matroska");
    }
}

/// A plausible BMP header at `i`: pixel offset inside the data, DIB header
/// size between 12 and 256.
pub open spec fn spec_plausible_bmp(d: Seq<u8>, i: int) -> bool {
    i + 18 <= d.len() && 14 <= le32(d, i + 10) <= d.len() && 12 <= le32(d, i + 14) <= 256
}

/// A BMP header is plausible whenever its pixel offset lies in the data
/// (from 14 on) and its DIB header size is between 12 and 256: every
/// standard header (12, 40, 52, 56, 108 and 124 bytes) is accepted.
pub proof fn lemma_bmp_header_plausible(d: Seq<u8>, i: int)
    requires
        0 <= i,
        i + 18 <= d.len(),
        14 <= le32(d, i + 10) <= d.len(),
        12 <= le32(d, i + 14) <= 256,
    ensures
        spec_plausible_bmp(d, i),
{
}

/// A BMP header whose pixel offset lies before the end of the header or past
/// the data, or whose DIB header size is below 12 or above 256, is refused.
pub proof fn lemma_bmp_header_implausible(d: Seq<u8>, i: int)
    requires
        0 <= i,
        i + 18 <= d.len(),
        le32(d, i + 10) < 14 || le32(d, i + 10) > d.len() || le32(d, i + 14) < 12 || le32(d, i + 14) > 256,
    ensures
        !spec_plausible_bmp(d, i),
{
}

proof fn lemma_first_bmp_hit(d: Seq<u8>, j: int, i: int)
    requires
        0 <= j <= i,
        i + 18 <= d.len(),
        matches_at(d, i, seq![0x42u8, 0x4D]),
        forall|q: int| j <= q < i ==> !matches_at(d, q, seq![0x42u8, 0x4D]),
        spec_plausible_bmp(d, i),
    ensures
        hits_from(d, 11, j, 0).len() > 0 && hits_from(d, 11, j, 0)[0] == i,
    decreases i - j,
{
    assert(sig_patterns()[11] == seq![0x42u8, 0x4D]);
    assert(sig_types()[11] == FileType::BMP);
    if j < i {
        lemma_first_bmp_hit(d, j + 1, i);
    }
}

/// The deep scan finds the first BMP signature of the data whose header is
/// plausible: its offset is the first BMP hit, which `deep_scan` reports.
pub proof fn lemma_bmp_found(d: Seq<u8>, i: int)
    requires
        0 <= i,
        i + 18 <= d.len(),
        d[i] == 0x42 && d[i + 1] == 0x4D,
        forall|q: int| 0 <= q < i ==> !(#[trigger] d[q] == 0x42 && d[q + 1] == 0x4D),
        14 <= le32(d, i + 10) <= d.len(),
        12 <= le32(d, i + 14) <= 256,
    ensures
        sig_types()[11] == FileType::BMP,
        sig_hits(d, 11).len() > 0 && sig_hits(d, 11)[0] == i,
{
    assert(d.subrange(i, i + 2) =~= seq![0x42u8, 0x4D]);
    assert forall|q: int| 0 <= q < i implies !matches_at(d, q, seq![0x42u8, 0x4D]) by {
        if matches_at(d, q, seq![0x42u8, 0x4D]) {
            assert(d.subrange(q, q + 2)[0] == d[q]);
            assert(d.subrange(q, q + 2)[1] == d[q + 1]);
        }
    }
    lemma_first_bmp_hit(d, 0, i);
}

pub fn plausible_bmp(data: &[u8], i: usize) -> (r: bool)
    ensures
        r == spec_plausible_bmp(data@, i as int),
{
    if i > data.len() || data.len() - i < 18 {
        return false;
    }
    let off = rd_le32(data, i + 10) as u64;
    let dib = rd_le32(data, i + 14);
    14 <= off && off <= data.len() as u64 && 12 <= dib && dib <= 256
}

/// A plausible DOS/PE executable at `i`: the PE header pointer at 0x3C
/// leads to `PE\0\0` (or, with no room for the pointer, the file starts at
/// offset 0).
pub open spec fn spec_plausible_mz(d: Seq<u8>, i: int) -> bool {
    if i + 0x3C + 4 <= d.len() {
        let ptr = le32(d, i + 0x3C);
        ptr >= 0x40 && i + ptr + 4 <= d.len() && d.subrange(i + ptr, i + ptr + 4) == seq![0x50u8, 0x45, 0x00, 0x00]
    } else {
        i == 0
    }
}

pub fn plausible_mz(data: &[u8], i: usize) -> (r: bool)
    ensures
        r == spec_plausible_mz(data@, i as int),
{
    let len = data.len() as u128;
    if (i as u128) + 0x3C + 4 <= len {
        let ptr = rd_le32(data, i + 0x3C) as u128;
        if ptr >= 0x40 && (i as u128) + ptr + 4 <= len {
            let p = (i as u128 + ptr) as usize;
            let pe: [u8; 4] = [0x50, 0x45, 0x00, 0x00];
            assert(pe@ == seq![0x50u8, 0x45, 0x00, 0x00]);
            let r = crate::bytes::bytes_at(data, p, &pe);
            assert(r == (data@.subrange(p as int, p + 4) == seq![0x50u8, 0x45, 0x00, 0x00])) by {
                assert(matches_at(data@, p as int, pe@) == (data@.subrange(p as int, p + 4) =~= pe@));
            }
            r
        } else {
            false
        }
    } else {
        i == 0
    }
}

/// Whether the hit of signature `k` at `i` passes its plausibility check.
pub open spec fn sig_ok(d: Seq<u8>, k: int, i: int) -> bool {
    if sig_types()[k] == FileType::BMP {
        spec_plausible_bmp(d, i)
    } else if sig_types()[k] == FileType::EXE {
        spec_plausible_mz(d, i)
    } else {
        true
    }
}

/// The offsets of signature `k` found from `i` on (after `found` hits): a
/// plausible hit is kept and the scan skips past it; at most 64 hits.
pub open spec fn hits_from(d: Seq<u8>, k: int, i: int, found: int) -> Seq<int>
    decreases d.len() - i,
{
    let n = sig_patterns()[k].len();
    if i < 0 || found >= MAX_HITS || i + n > d.len() || n == 0 {
        Seq::empty()
    } else if matches_at(d, i, sig_patterns()[k]) && sig_ok(d, k, i) {
        seq![i] + if found + 1 >= MAX_HITS { Seq::empty() } else { hits_from(d, k, i + n, found + 1) }
    } else {
        hits_from(d, k, i + 1, found)
    }
}

/// The offsets of signature `k` in the data.
pub open spec fn sig_hits(d: Seq<u8>, k: int) -> Seq<int> {
    hits_from(d, k, 0, 0)
}

proof fn lemma_hits_sorted(d: Seq<u8>, k: int, i: int, found: int)
    requires
        0 <= k < SIGNATURE_COUNT,
    ensures
        forall|a: int, b: int| 0 <= a < b < hits_from(d, k, i, found).len() ==> hits_from(d, k, i, found)[a] < hits_from(d, k, i, found)[b],
        forall|a: int| 0 <= a < hits_from(d, k, i, found).len() ==> i <= #[trigger] hits_from(d, k, i, found)[a] < d.len(),
    decreases d.len() - i,
{
    let n = sig_patterns()[k].len() as int;
    if i < 0 || found >= MAX_HITS || i + n > d.len() || n == 0 {
    } else if matches_at(d, i, sig_patterns()[k]) && sig_ok(d, k, i) {
        let h = hits_from(d, k, i, found);
        if found + 1 < MAX_HITS {
            lemma_hits_sorted(d, k, i + n, found + 1);
            let t = hits_from(d, k, i + n, found + 1);
            assert(h == seq![i] + t);
            assert forall|a: int| 0 <= a < h.len() implies i <= #[trigger] h[a] < d.len() by {
                if a > 0 {
                    assert(h[a] == t[a - 1]);
                }
            }
            assert forall|a: int, b: int| 0 <= a < b < h.len() implies h[a] < h[b] by {
                assert(h[b] == t[b - 1]);
                if a > 0 {
                    assert(h[a] == t[a - 1]);
                }
            }
        } else {
            assert(h =~= seq![i]);
        }
    } else {
        lemma_hits_sorted(d, k, i + 1, found);
        assert(hits_from(d, k, i, found) == hits_from(d, k, i + 1, found));
    }
}

fn sig_ok_exec(data: &[u8], t: FileType, i: usize) -> (r: bool)
    ensures
        t == FileType::BMP ==> r == spec_plausible_bmp(data@, i as int),
        t == FileType::EXE ==> r == spec_plausible_mz(data@, i as int),
        t != FileType::BMP && t != FileType::EXE ==> r,
{
    match t {
        FileType::BMP => plausible_bmp(data, i),
        FileType::EXE => plausible_mz(data, i),
        _ => true,
    }
}

/// The offsets where signature `k` is found (see `hits_from`).
fn scan_signature(data: &[u8], k: usize) -> (r: Vec<usize>)
    requires
        k < SIGNATURE_COUNT,
    ensures
        r@.len() == sig_hits(data@, k as int).len(),
        forall|j: int| 0 <= j < r@.len() ==> r@[j] as int == #[trigger] sig_hits(data@, k as int)[j],
{
    let (sig, t, _label) = signature(k);
    let n = sig.len();
    let len = data.len();
    let mut out: Vec<usize> = Vec::new();
    let ghost target = sig_hits(data@, k as int);
    let mut i: usize = 0;
    let mut found: u64 = 0;
    assert(n >= 2);
    loop
        invariant_except_break
            target == out@.map_values(|x: usize| x as int) + hits_from(data@, k as int, i as int, found as int),
            found < MAX_HITS,
        invariant
            k < SIGNATURE_COUNT,
            sig@ == sig_patterns()[k as int],
            t == sig_types()[k as int],
            n == sig@.len(),
            n >= 2,
            len == data@.len(),
            target == sig_hits(data@, k as int),
        ensures
            target == out@.map_values(|x: usize| x as int),
        decreases len - i,
    {
        if i > len || len - i < n {
            assert(out@.map_values(|x: usize| x as int) + hits_from(data@, k as int, i as int, found as int)
                =~= out@.map_values(|x: usize| x as int));
            break;
        }
        if crate::bytes::bytes_at(data, i, sig.as_slice()) && sig_ok_exec(data, t, i) {
            let ghost before = out@.map_values(|x: usize| x as int);
            out.push(i);
            assert(out@.map_values(|x: usize| x as int) =~= before + seq![i as int]);
            found += 1;
            if found >= MAX_HITS {
                assert(before + hits_from(data@, k as int, i as int, (found - 1) as int) =~= out@.map_values(|x: usize| x as int));
                break;
            }
            assert(before + hits_from(data@, k as int, i as int, (found - 1) as int) =~= out@.map_values(|x: usize| x as int)
                + hits_from(data@, k as int, i + n, found as int));
            i = i + n;
            continue;
        }
        i += 1;
    }
    out
}

/// A file signature found by the deep scan.
#[derive(Debug, Clone, Copy)]
pub struct DeepSignature {
    pub offset: usize,
    pub label: &'static str,
    pub file_type: FileType,
}

/// The first signature (in table order) that has a hit at `o`, from index
/// `k` on.
pub open spec fn first_sig_from(d: Seq<u8>, o: int, k: int) -> Option<int>
    decreases SIGNATURE_COUNT - k,
{
    if k < 0 || k >= SIGNATURE_COUNT {
        None
    } else if sig_hits(d, k).contains(o) {
        Some(k)
    } else {
        first_sig_from(d, o, k + 1)
    }
}

/// The first signature (in table order) that has a hit at `o`.
pub open spec fn first_sig(d: Seq<u8>, o: int) -> Option<int> {
    first_sig_from(d, o, 0)
}

/// A deep-scan entry names the first signature found at its offset.
pub open spec fn entry_matches(d: Seq<u8>, e: DeepSignature) -> bool {
    match first_sig(d, e.offset as int) {
        Some(k) => e.file_type == sig_types()[k] && e.label@ == sig_labels()[k],
        None => false,
    }
}

proof fn lemma_first_sig(d: Seq<u8>, o: int, kk: int, k: int)
    requires
        0 <= k <= kk < SIGNATURE_COUNT,
        sig_hits(d, kk).contains(o),
        forall|q: int| 0 <= q < kk ==> !(#[trigger] sig_hits(d, q)).contains(o),
    ensures
        first_sig_from(d, o, k) == Some(kk),
    decreases kk - k,
{
    if k < kk {
        lemma_first_sig(d, o, kk, k + 1);
    }
}

/// Whether some entry of `out` is at offset `o`.
pub open spec fn covered(out: Seq<(usize, usize)>, o: int) -> bool {
    exists|a: int| 0 <= a < out.len() && out[a].0 == o
}

/// Whether some signature of `r` is at offset `o`.
pub open spec fn reported(r: Seq<DeepSignature>, o: int) -> bool {
    exists|a: int| 0 <= a < r.len() && r[a].offset == o
}

/// Scan the entire byte buffer for every known file signature: every hit
/// (up to 64 per signature), sorted by offset, one entry per offset naming
/// the first signature of the table found there.
pub fn deep_scan(data: &[u8]) -> (r: Vec<DeepSignature>)
    ensures
        forall|a: int, b: int| 0 <= a < b < r@.len() ==> r@[a].offset < r@[b].offset,
        forall|a: int| 0 <= a < r@.len() ==> entry_matches(data@, #[trigger] r@[a]),
        forall|k: int, b: int|
            0 <= k < SIGNATURE_COUNT && 0 <= b < sig_hits(data@, k).len() ==> reported(r@, #[trigger] sig_hits(data@, k)[b]),
{
    let mut out: Vec<(usize, usize)> = Vec::new();
    let mut k: usize = 0;
    while k < SIGNATURE_COUNT
        invariant
            k <= SIGNATURE_COUNT,
            forall|a: int, b: int| 0 <= a < b < out@.len() ==> out@[a].0 < out@[b].0,
            forall|a: int|
                0 <= a < out@.len() ==> {
                    let e = #[trigger] out@[a];
                    &&& e.1 < k
                    &&& sig_hits(data@, e.1 as int).contains(e.0 as int)
                    &&& forall|q: int| 0 <= q < e.1 ==> !(#[trigger] sig_hits(data@, q)).contains(e.0 as int)
                },
            forall|q: int, b: int|
                0 <= q < k && 0 <= b < sig_hits(data@, q).len() ==> covered(out@, #[trigger] sig_hits(data@, q)[b]),
        decreases SIGNATURE_COUNT - k,
    {
        let hits = scan_signature(data, k);
        let mut j: usize = 0;
        while j < hits.len()
            invariant
                k < SIGNATURE_COUNT,
                j <= hits@.len(),
                hits@.len() == sig_hits(data@, k as int).len(),
                forall|b: int| 0 <= b < hits@.len() ==> hits@[b] as int == #[trigger] sig_hits(data@, k as int)[b],
                forall|a: int, b: int| 0 <= a < b < out@.len() ==> out@[a].0 < out@[b].0,
                forall|a: int|
                    0 <= a < out@.len() ==> {
                        let e = #[trigger] out@[a];
                        &&& e.1 <= k
                        &&& sig_hits(data@, e.1 as int).contains(e.0 as int)
                        &&& forall|q: int| 0 <= q < e.1 ==> !(#[trigger] sig_hits(data@, q)).contains(e.0 as int)
                    },
                forall|q: int, b: int|
                    0 <= q < k && 0 <= b < sig_hits(data@, q).len() ==> covered(out@, #[trigger] sig_hits(data@, q)[b]),
                forall|b: int| 0 <= b < j ==> covered(out@, #[trigger] sig_hits(data@, k as int)[b]),
            decreases hits@.len() - j,
        {
            let h = hits[j];
            assert(sig_hits(data@, k as int)[j as int] == h);
            let mut p: usize = 0;
            while p < out.len() && out[p].0 < h
                invariant
                    p <= out@.len(),
                    forall|a: int| 0 <= a < p ==> (#[trigger] out@[a]).0 < h,
                decreases out@.len() - p,
            {
                p += 1;
            }
            if p < out.len() && out[p].0 == h {
                assert(out@[p as int].0 == sig_hits(data@, k as int)[j as int]);
                assert(covered(out@, sig_hits(data@, k as int)[j as int]));
            } else {
                proof {
                    assert forall|q: int| 0 <= q < k implies !(#[trigger] sig_hits(data@, q)).contains(h as int) by {
                        if sig_hits(data@, q).contains(h as int) {
                            let b = choose|b: int| 0 <= b < sig_hits(data@, q).len() && sig_hits(data@, q)[b] == h as int;
                            assert(covered(out@, sig_hits(data@, q)[b]));
                            let a = choose|a: int| 0 <= a < out@.len() && out@[a].0 == sig_hits(data@, q)[b];
                            if a < p {
                                assert(out@[a].0 < h);
                            } else if a == p {
                            } else {
                                assert(out@[p as int].0 < out@[a].0);
                                assert(out@[p as int].0 >= h);
                            }
                        }
                    }
                    assert(sig_hits(data@, k as int).contains(h as int));
                }
                let ghost old_out = out@;
                out.insert(p, (h, k));
                assert(out@[p as int].0 == sig_hits(data@, k as int)[j as int]);
                proof {
                    assert forall|a: int| 0 <= a < out@.len() implies {
                        let e = #[trigger] out@[a];
                        &&& e.1 <= k
                        &&& sig_hits(data@, e.1 as int).contains(e.0 as int)
                        &&& forall|q: int| 0 <= q < e.1 ==> !(#[trigger] sig_hits(data@, q)).contains(e.0 as int)
                    } by {
                        if a < p {
                            assert(out@[a] == old_out[a]);
                        } else if a > p {
                            assert(out@[a] == old_out[a - 1]);
                        }
                    }
                    assert forall|a: int, b: int| 0 <= a < b < out@.len() implies out@[a].0 < out@[b].0 by {
                        if b < p {
                            assert(out@[a] == old_out[a] && out@[b] == old_out[b]);
                        } else if b == p {
                            assert(out@[a] == old_out[a]);
                        } else if a < p {
                            assert(out@[a] == old_out[a] && out@[b] == old_out[b - 1]);
                            if p < old_out.len() {
                                assert(old_out[p as int].0 >= h);
                            }
                        } else if a == p {
                            assert(out@[b] == old_out[b - 1]);
                            assert(old_out[p as int].0 >= h);
                            if b - 1 > p {
                                assert(old_out[p as int].0 < old_out[b - 1].0);
                            }
                        } else {
                            assert(out@[a] == old_out[a - 1] && out@[b] == old_out[b - 1]);
                        }
                    }
                    assert forall|o: int| covered(old_out, o) implies covered(out@, o) by {
                        let a0 = choose|a: int| 0 <= a < old_out.len() && old_out[a].0 == o;
                        if a0 < p {
                            assert(out@[a0] == old_out[a0]);
                        } else {
                            assert(out@[a0 + 1] == old_out[a0]);
                        }
                    }
                    assert(covered(out@, sig_hits(data@, k as int)[j as int]));
                }
            }
            j += 1;
        }
        k += 1;
    }
    let ghost final_out = out@;
    let mut r: Vec<DeepSignature> = Vec::new();
    let mut i: usize = 0;
    while i < out.len()
        invariant
            i <= out@.len(),
            out@ == final_out,
            r@.len() == i,
            forall|a: int| 0 <= a < i ==> (#[trigger] r@[a]).offset == out@[a].0,
            forall|a: int| 0 <= a < i ==> entry_matches(data@, #[trigger] r@[a]),
            forall|a: int|
                0 <= a < out@.len() ==> {
                    let e = #[trigger] out@[a];
                    &&& e.1 < SIGNATURE_COUNT
                    &&& sig_hits(data@, e.1 as int).contains(e.0 as int)
                    &&& forall|q: int| 0 <= q < e.1 ==> !(#[trigger] sig_hits(data@, q)).contains(e.0 as int)
                },
        decreases out@.len() - i,
    {
        let (o, kk) = out[i];
        let (_pat, t, label) = signature(kk);
        let e = DeepSignature { offset: o, label, file_type: t };
        proof {
            lemma_first_sig(data@, o as int, kk as int, 0);
        }
        r.push(e);
        i += 1;
    }
    assert forall|o: int| covered(final_out, o) implies reported(r@, o) by {
        let a0 = choose|a: int| 0 <= a < final_out.len() && final_out[a].0 == o;
        assert(r@[a0].offset == final_out[a0].0);
    }
    r
}

pub open spec fn iend_at(d: Seq<u8>, i: int) -> bool {
    i + 4 <= d.len() && d.subrange(i, i + 4) == crate::png::iend_type()
}

/// First offset from `i` on where `IEND` starts.
pub open spec fn iend_from(d: Seq<u8>, i: int) -> Option<int>
    decreases d.len() - i,
{
    if i < 0 || i + 4 > d.len() {
        None
    } else if iend_at(d, i) {
        Some(i)
    } else {
        iend_from(d, i + 1)
    }
}

/// Where the candidate of type `t` at `off` ends, when its structure says.
pub open spec fn spec_signature_end(d: Seq<u8>, off: int, t: FileType) -> Option<int> {
    if off >= d.len() {
        None
    } else {
        let tail = d.subrange(off, d.len() as int);
        match t {
            FileType::JPEG => match crate::jpeg::spec_scan_jpeg(d, off).image_end {
                Some(e) => Some(e as int),
                None => None,
            },
            FileType::PNG => match iend_from(d, off) {
                Some(i) => Some(if i + 8 < d.len() { i + 8 } else { d.len() as int }),
                None => None,
            },
            FileType::BMP => match crate::containers::spec_scan_bmp(tail).pixel_end {
                Some(e) => Some(off + e),
                None => None,
            },
            FileType::RIFF => match crate::containers::spec_scan_riff(tail).last_chunk_end {
                Some(e) => Some(off + e),
                None => None,
            },
            FileType::ZIP => match crate::salvage::spec_find_zip_eocd(d) {
                Some(e) => if e >= off { Some(e) } else { None },
                None => None,
            },
            _ => None,
        }
    }
}

proof fn lemma_iend_after(d: Seq<u8>, i: int)
    ensures
        iend_from(d, i) matches Some(k) ==> k >= i,
    decreases d.len() - i,
{
    if !(i < 0 || i + 4 > d.len()) && !iend_at(d, i) {
        lemma_iend_after(d, i + 1);
    }
}

/// The end that the structure gives a candidate never lies before it.
pub proof fn lemma_signature_end_after(d: Seq<u8>, off: int, t: FileType)
    requires
        0 <= off,
        d.len() <= usize::MAX,
    ensures
        spec_signature_end(d, off, t) matches Some(e) ==> e >= off,
{
    crate::jpeg::lemma_scan_end_after(d, off);
    lemma_iend_after(d, off);
}

/// Where the candidate of type `ft` at `off` ends, when its structure says.
pub fn signature_end(data: &[u8], off: usize, ft: FileType) -> (r: Option<u128>)
    requires
        data@.len() < usize::MAX,
    ensures
        match r {
            Some(e) => spec_signature_end(data@, off as int, ft) == Some(e as int),
            None => spec_signature_end(data@, off as int, ft) is None,
        },
{
    let len = data.len();
    if off >= len {
        return None;
    }
    match ft {
        FileType::JPEG => match crate::jpeg::scan_jpeg(data, off).image_end {
            Some(e) => Some(e as u128),
            None => None,
        },
        FileType::PNG => {
            let t: [u8; 4] = [0x49, 0x45, 0x4E, 0x44];
            assert(t@ == crate::png::iend_type());
            let mut i = off;
            while i < len && len - i >= 4
                invariant
                    len == data@.len(),
                    off <= i,
                    off < len,
                    ft == FileType::PNG,
                    t@ == crate::png::iend_type(),
                    iend_from(data@, off as int) == iend_from(data@, i as int),
                decreases len - i,
            {
                if crate::bytes::bytes_at(data, i, &t) {
                    assert(iend_at(data@, i as int)) by {
                        assert(data@.subrange(i as int, i + 4) =~= t@);
                    }
                    assert(iend_from(data@, i as int) == Some(i as int));
                    return Some(if len - i > 8 { (i + 8) as u128 } else { len as u128 });
                }
                assert(!iend_at(data@, i as int)) by {
                    if iend_at(data@, i as int) {
                        assert(data@.subrange(i as int, i + 4) =~= t@);
                    }
                }
                i += 1;
            }
            None
        },
        FileType::BMP => {
            let tail = copy_range(data, off, len);
            match crate::containers::scan_bmp(tail.as_slice()).pixel_end {
                Some(e) => Some(off as u128 + e as u128),
                None => None,
            }
        },
        FileType::RIFF => {
            let tail = copy_range(data, off, len);
            let info = crate::containers::scan_riff(tail.as_slice());
            match info.last_chunk_end {
                Some(e) => Some(off as u128 + e as u128),
                None => None,
            }
        },
        FileType::ZIP => match crate::salvage::find_zip_eocd(data) {
            Some(e) => if e >= off {
                Some(e as u128)
            } else {
                None
            },
            None => None,
        },
        _ => None,
    }
}

/// Whether the candidate of type `t` at `off` looks complete.
pub open spec fn spec_candidate_valid(d: Seq<u8>, off: int, t: FileType) -> bool {
    if off >= d.len() {
        false
    } else {
        let tail = d.subrange(off, d.len() as int);
        match t {
            FileType::PNG => crate::png::spec_has_valid_iend(tail),
            FileType::JPEG => crate::jpeg::spec_scan_jpeg(d, off).terminated,
            FileType::BMP => crate::containers::spec_scan_bmp(tail).pixel_end is Some,
            FileType::RIFF => crate::containers::spec_scan_riff(tail).last_chunk_end is Some,
            FileType::ZIP => crate::salvage::spec_find_zip_eocd(d) matches Some(e) && e >= off,
            FileType::GIF => crate::salvage::spec_check_footer(tail, t),
            FileType::PDF => crate::salvage::spec_check_footer(tail, t),
            _ => true,
        }
    }
}

/// Whether the candidate of type `ft` at `off` looks complete.
pub fn candidate_valid(data: &[u8], off: usize, ft: FileType) -> (r: bool)
    requires
        data@.len() < usize::MAX,
    ensures
        r == spec_candidate_valid(data@, off as int, ft),
{
    let len = data.len();
    if off >= len {
        return false;
    }
    let tail = copy_range(data, off, len);
    match ft {
        FileType::PNG => crate::png::has_valid_iend(tail.as_slice()),
        FileType::JPEG => crate::jpeg::scan_jpeg(data, off).terminated,
        FileType::BMP => crate::containers::scan_bmp(tail.as_slice()).pixel_end.is_some(),
        FileType::RIFF => crate::containers::scan_riff(tail.as_slice()).last_chunk_end.is_some(),
        FileType::ZIP => match crate::salvage::find_zip_eocd(data) {
            Some(e) => e >= off,
            None => false,
        },
        FileType::GIF => crate::salvage::check_footer(tail.as_slice(), ft),
        FileType::PDF => crate::salvage::check_footer(tail.as_slice(), ft),
        _ => true,
    }
}

/// The PDF footer `%%EOF`.
pub open spec fn pdf_footer() -> Seq<u8> {
    seq![0x25u8, 0x25, 0x45, 0x4F, 0x46]
}

/// What `deep_repair_one` rebuilds for the candidate of type `t` at `off`.
pub open spec fn spec_deep_repair_one(d: Seq<u8>, off: int, t: FileType) -> Option<Seq<u8>> {
    match t {
        FileType::PNG => crate::png::spec_salvage_png(d, Some(off as usize)),
        FileType::JPEG => crate::jpeg::spec_repair_jpeg(d, Some(off as usize)),
        FileType::BMP => crate::containers::spec_repair_bmp(d, Some(off as usize)),
        FileType::RIFF => crate::containers::spec_repair_riff(d, Some(off as usize)),
        FileType::ZIP => crate::salvage::spec_repair_zip_from(d, off),
        FileType::GIF => crate::salvage::spec_salvage_gif(d, off),
        FileType::PDF => {
            let s = d.subrange(off, d.len() as int);
            if s.len() == 0 {
                None
            } else if !spec_candidate_valid(d, off, t) {
                Some(s + pdf_footer())
            } else {
                Some(s)
            }
        },
        _ => if off < d.len() || off == 0 {
            Some(d.subrange(off, d.len() as int))
        } else {
            None
        },
    }
}

/// Rebuild the candidate of type `ft` at `off` with the repair for its
/// format (a PDF gets its `%%EOF` footer when it looks incomplete; other
/// formats are cut out as they are).
pub fn deep_repair_one(data: &[u8], off: usize, ft: FileType) -> (r: Option<Vec<u8>>)
    requires
        off <= data@.len(),
        data@.len() < usize::MAX,
    ensures
        match r {
            Some(v) => spec_deep_repair_one(data@, off as int, ft) == Some(v@),
            None => spec_deep_repair_one(data@, off as int, ft) is None,
        },
{
    match ft {
        FileType::PNG => crate::png::salvage_png(data, Some(off)),
        FileType::JPEG => crate::jpeg::repair_jpeg(data, Some(off)),
        FileType::BMP => crate::containers::repair_bmp(data, Some(off)),
        FileType::RIFF => crate::containers::repair_riff(data, Some(off)),
        FileType::ZIP => crate::salvage::repair_zip_from(data, off),
        FileType::GIF => crate::salvage::salvage_gif(data, off),
        FileType::PDF => {
            let mut s = copy_range(data, off, data.len());
            if s.len() == 0 {
                return None;
            }
            if !candidate_valid(data, off, ft) {
                let f: [u8; 5] = [0x25, 0x25, 0x45, 0x4F, 0x46];
                assert(f@ == pdf_footer());
                crate::bytes::append_all(&mut s, &f);
            }
            Some(s)
        },
        _ => {
            if off < data.len() || off == 0 {
                Some(copy_range(data, off, data.len()))
            } else {
                None
            }
        },
    }
}

/// Whether a rebuilt candidate of type `t` is structurally complete.
pub open spec fn spec_deep_repair_valid(out: Seq<u8>, t: FileType) -> bool {
    match t {
        FileType::PNG => crate::bytes::starts_with(out, crate::png::png_sig()) && crate::png::spec_has_valid_iend(out),
        FileType::JPEG => crate::bytes::starts_with(out, crate::jpeg::jpeg_soi()) && crate::jpeg::spec_scan_jpeg(out, 0).terminated
            && crate::jpeg::spec_scan_jpeg(out, 0).has_sos,
        FileType::BMP => crate::bytes::starts_with(out, crate::containers::bmp_sig()),
        FileType::RIFF => crate::bytes::starts_with(out, crate::containers::riff_sig()),
        FileType::ZIP => crate::salvage::spec_find_zip_eocd(out) is Some,
        FileType::GIF => crate::salvage::spec_check_footer(out, t),
        FileType::PDF => crate::salvage::spec_check_footer(out, t),
        _ => out.len() > 0,
    }
}

pub fn deep_repair_valid(out: &[u8], ft: FileType) -> (r: bool)
    requires
        out@.len() < usize::MAX,
    ensures
        r == spec_deep_repair_valid(out@, ft),
{
    match ft {
        FileType::PNG => {
            let sig = crate::png::png_sig_vec();
            crate::bytes::has_prefix(out, sig.as_slice()) && crate::png::has_valid_iend(out)
        },
        FileType::JPEG => {
            let soi: [u8; 2] = [0xFF, 0xD8];
            assert(soi@ == crate::jpeg::jpeg_soi());
            if !crate::bytes::has_prefix(out, &soi) {
                return false;
            }
            let info = crate::jpeg::scan_jpeg(out, 0);
            info.terminated && info.has_sos
        },
        FileType::BMP => {
            let sig: [u8; 2] = [0x42, 0x4D];
            assert(sig@ == crate::containers::bmp_sig());
            crate::bytes::has_prefix(out, &sig)
        },
        FileType::RIFF => {
            let sig: [u8; 4] = [0x52, 0x49, 0x46, 0x46];
            assert(sig@ == crate::containers::riff_sig());
            crate::bytes::has_prefix(out, &sig)
        },
        FileType::ZIP => crate::salvage::find_zip_eocd(out).is_some(),
        FileType::GIF => crate::salvage::check_footer(out, ft),
        FileType::PDF => crate::salvage::check_footer(out, ft),
        _ => out.len() > 0,
    }
}

/// Number of `FF DA` (SOS) pairs in the bytes before `i`.
pub open spec fn sos_count(out: Seq<u8>, i: int) -> int
    decreases i,
{
    if i <= 0 || i >= out.len() {
        0
    } else {
        sos_count(out, i - 1) + if out[i - 1] == 0xFF && out[i] == 0xDA { 1int } else { 0int }
    }
}

/// Count the SOS (FF DA) markers in an output buffer: more scans means more
/// surviving image data.
pub fn jpeg_scan_count(out: &[u8]) -> (r: u64)
    ensures
        r == sos_count(out@, out@.len() - 1),
{
    let len = out.len();
    if len < 2 {
        return 0;
    }
    let mut n: u64 = 0;
    let mut i: usize = 1;
    while i < len
        invariant
            1 <= i <= len == out@.len(),
            n == sos_count(out@, i - 1),
            n <= i,
        decreases len - i,
    {
        if out[i - 1] == 0xFF && out[i] == 0xDA {
            n += 1;
        }
        i += 1;
    }
    n
}

/// How good a repair attempt is, compared lexicographically: whether it is
/// the primary candidate, its structural tier, its number of scans (JPEG)
/// and its size.
pub open spec fn spec_attempt_score(offset: usize, t: FileType, out: Seq<u8>, primary: Option<usize>) -> (u8, u8, u64, usize) {
    let bonus: u8 = if primary == Some(offset) { 1 } else { 0 };
    let tier: u8 = if t == FileType::JPEG {
        let info = crate::jpeg::spec_scan_jpeg(out, 0);
        if !info.has_sos {
            0
        } else {
            ((if info.width is Some && info.height is Some { 1int } else { 0int }) + (if info.has_dqt { 1int } else { 0int })
                + (if info.has_dht { 1int } else { 0int }) + 1 + (if info.terminated { 1int } else { 0int })) as u8
        }
    } else if spec_deep_repair_valid(out, t) {
        1
    } else {
        0
    };
    let rich: u64 = if t == FileType::JPEG { sos_count(out, out.len() - 1) as u64 } else { 0 };
    (bonus, tier, rich, out.len() as usize)
}

pub fn attempt_score(offset: usize, ft: FileType, out: &[u8], primary_off: Option<usize>) -> (r: (u8, u8, u64, usize))
    requires
        out@.len() < usize::MAX,
    ensures
        r == spec_attempt_score(offset, ft, out@, primary_off),
{
    let bonus: u8 = match primary_off {
        Some(p) => if p == offset {
            1
        } else {
            0
        },
        None => 0,
    };
    let valid = deep_repair_valid(out, ft);
    let tier: u8 = if ft == FileType::JPEG {
        let info = crate::jpeg::scan_jpeg(out, 0);
        if !info.has_sos {
            0
        } else {
            let mut t: u8 = 0;
            if info.width.is_some() && info.height.is_some() {
                t += 1;
            }
            if info.has_dqt {
                t += 1;
            }
            if info.has_dht {
                t += 1;
            }
            if info.has_sos {
                t += 1;
            }
            if info.terminated {
                t += 1;
            }
            t
        }
    } else if valid {
        1
    } else {
        0
    };
    let rich: u64 = if ft == FileType::JPEG {
        jpeg_scan_count(out)
    } else {
        0
    };
    (bonus, tier, rich, out.len())
}

/// What `str::to_lowercase` gives for a string (full Unicode lowercase
/// mapping).
pub uninterp spec fn unicode_lowercase(s: Seq<char>) -> Seq<char>;

/// `str::to_lowercase`: the Unicode lowercase of the string. Its result is a
/// function of the input characters alone, named `unicode_lowercase`;
/// nothing more is claimed of it.
#[verifier::external_body]
pub(crate) fn to_lowercase(s: &str) -> (r: String)
    ensures
        r@ == unicode_lowercase(s@),
{
    s.to_lowercase()
}

/// Whether the characters of `s` end with those of `suffix`.
pub open spec fn ends_with_chars(s: Seq<char>, suffix: Seq<char>) -> bool {
    suffix.len() <= s.len() && s.subrange(s.len() - suffix.len(), s.len() as int) == suffix
}

fn ends_with_exec(s: &Vec<char>, suffix: &Vec<char>) -> (r: bool)
    ensures
        r == ends_with_chars(s@, suffix@),
{
    if suffix.len() > s.len() {
        return false;
    }
    let slen = s.len();
    let base = slen - suffix.len();
    let mut i: usize = 0;
    while i < suffix.len()
        invariant
            slen == s@.len(),
            base + suffix@.len() == s@.len(),
            i <= suffix@.len(),
            forall|k: int| 0 <= k < i ==> s@[base + k] == suffix@[k],
        decreases suffix@.len() - i,
    {
        if s[base + i] != suffix[i] {
            assert(s@.subrange(base as int, s@.len() as int)[i as int] != suffix@[i as int]);
            return false;
        }
        i += 1;
    }
    assert(s@.subrange(base as int, s@.len() as int) =~= suffix@);
    true
}

/// The extension a recovered candidate of type `t` gets, unless the name
/// (lowercased) already ends with it (`None`: the name is kept).
pub open spec fn output_extension(lower: Seq<char>, t: FileType, riff_ext: Seq<char>) -> Option<Seq<char>> {
    match t {
        FileType::PNG => if ends_with_chars(lower, seq!['.', 'p', 'n', 'g']) { None } else { Some(seq!['.', 'p', 'n', 'g']) },
        FileType::JPEG => if ends_with_chars(lower, seq!['.', 'j', 'p', 'g']) || ends_with_chars(lower, seq!['.', 'j', 'p', 'e', 'g']) {
            None
        } else {
            Some(seq!['.', 'j', 'p', 'g'])
        },
        FileType::BMP => if ends_with_chars(lower, seq!['.', 'b', 'm', 'p']) { None } else { Some(seq!['.', 'b', 'm', 'p']) },
        FileType::GIF => if ends_with_chars(lower, seq!['.', 'g', 'i', 'f']) { None } else { Some(seq!['.', 'g', 'i', 'f']) },
        FileType::PDF => if ends_with_chars(lower, seq!['.', 'p', 'd', 'f']) { None } else { Some(seq!['.', 'p', 'd', 'f']) },
        FileType::ZIP => if ends_with_chars(lower, seq!['.', 'z', 'i', 'p']) { None } else { Some(seq!['.', 'z', 'i', 'p']) },
        FileType::RIFF => if ends_with_chars(lower, riff_ext) { None } else { Some(riff_ext) },
        _ => None,
    }
}

/// The output file name of a deep repair: the input name, with the
/// extension of the chosen candidate's type appended unless the name
/// already ends with it (ignoring case).
pub open spec fn spec_deep_output_name(filename: Seq<char>, t: FileType, offset: int, data: Seq<u8>) -> Seq<char> {
    match output_extension(unicode_lowercase(filename), t, crate::containers::spec_riff_extension(data, offset)) {
        Some(e) => filename + e,
        None => filename,
    }
}

fn chars_vec(v: &[char]) -> (r: Vec<char>)
    ensures
        r@ == v@,
{
    let mut r: Vec<char> = Vec::new();
    let mut i: usize = 0;
    while i < v.len()
        invariant
            i <= v@.len(),
            r@ == v@.subrange(0, i as int),
        decreases v@.len() - i,
    {
        r.push(v[i]);
        i += 1;
        assert(r@ =~= v@.subrange(0, i as int));
    }
    assert(v@.subrange(0, v@.len() as int) =~= v@);
    r
}

pub fn deep_output_name(filename: &str, ft: FileType, offset: usize, data: &[u8]) -> (r: String)
    ensures
        r@ == spec_deep_output_name(filename@, ft, offset as int, data@),
{
    let lower_s = to_lowercase(filename);
    let lower = crate::text::chars_of(lower_s.as_str());
    let riff = crate::containers::riff_extension(data, offset);
    let (e1, e2): ([char; 4], [char; 5]) = match ft {
        FileType::PNG => (['.', 'p', 'n', 'g'], ['.', 'p', 'n', 'g', '.']),
        FileType::JPEG => (['.', 'j', 'p', 'g'], ['.', 'j', 'p', 'e', 'g']),
        FileType::BMP => (['.', 'b', 'm', 'p'], ['.', 'b', 'm', 'p', '.']),
        FileType::GIF => (['.', 'g', 'i', 'f'], ['.', 'g', 'i', 'f', '.']),
        FileType::PDF => (['.', 'p', 'd', 'f'], ['.', 'p', 'd', 'f', '.']),
        FileType::ZIP => (['.', 'z', 'i', 'p'], ['.', 'z', 'i', 'p', '.']),
        _ => (['.', '.', '.', '.'], ['.', '.', '.', '.', '.']),
    };
    let ext: Option<Vec<char>> = match ft {
        FileType::RIFF => {
            let rc = crate::text::chars_of(riff.as_str());
            if ends_with_exec(&lower, &rc) {
                None
            } else {
                Some(rc)
            }
        },
        FileType::PNG | FileType::BMP | FileType::GIF | FileType::PDF | FileType::ZIP | FileType::JPEG => {
            let v1 = chars_vec(&e1);
            let hit1 = ends_with_exec(&lower, &v1);
            let hit2 = if ft == FileType::JPEG {
                let v2 = chars_vec(&e2);
                ends_with_exec(&lower, &v2)
            } else {
                false
            };
            if hit1 || hit2 {
                None
            } else {
                Some(v1)
            }
        },
        _ => None,
    };
    proof {
        assert(e1@ =~= match ft {
            FileType::PNG => seq!['.', 'p', 'n', 'g'],
            FileType::JPEG => seq!['.', 'j', 'p', 'g'],
            FileType::BMP => seq!['.', 'b', 'm', 'p'],
            FileType::GIF => seq!['.', 'g', 'i', 'f'],
            FileType::PDF => seq!['.', 'p', 'd', 'f'],
            FileType::ZIP => seq!['.', 'z', 'i', 'p'],
            _ => seq!['.', '.', '.', '.'],
        });
        if ft == FileType::JPEG {
            assert(e2@ =~= seq!['.', 'j', 'p', 'e', 'g']);
        }
    }
    assert(match ext {
        Some(v) => output_extension(lower@, ft, riff@) == Some(v@),
        None => output_extension(lower@, ft, riff@) is None,
    });
    let mut n = String::new();
    crate::text::push_str(&mut n, filename);
    match ext {
        Some(v) => {
            let ghost before = n@;
            let mut i: usize = 0;
            while i < v.len()
                invariant
                    i <= v@.len(),
                    n@ == before + v@.subrange(0, i as int),
                decreases v@.len() - i,
            {
                crate::text::push_char(&mut n, v[i]);
                i += 1;
                assert(n@ =~= before + v@.subrange(0, i as int));
            }
            assert(v@.subrange(0, v@.len() as int) =~= v@);
        },
        None => {},
    }
    n
}


/// The output name keeps the input name whole and at most appends an
/// extension; a name that already ends with the extension (in any case)
/// is kept as it is.
pub proof fn lemma_output_name_keeps_name(filename: Seq<char>, t: FileType, offset: int, data: Seq<u8>)
    ensures
        spec_deep_output_name(filename, t, offset, data).len() >= filename.len(),
        spec_deep_output_name(filename, t, offset, data).subrange(0, filename.len() as int) == filename,
        output_extension(unicode_lowercase(filename), t, crate::containers::spec_riff_extension(data, offset)) matches Some(e)
            ==> spec_deep_output_name(filename, t, offset, data) == filename + e,
        output_extension(unicode_lowercase(filename), t, crate::containers::spec_riff_extension(data, offset)) is None
            ==> spec_deep_output_name(filename, t, offset, data) == filename,
{
    match output_extension(unicode_lowercase(filename), t, crate::containers::spec_riff_extension(data, offset)) {
        Some(e) => {
            assert((filename + e).subrange(0, filename.len() as int) =~= filename);
        },
        None => {
            assert(filename.subrange(0, filename.len() as int) =~= filename);
        },
    }
}

} // verus!
