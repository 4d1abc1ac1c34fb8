//! PNG structure: chunk CRCs, the IHDR/IEND chunks, the chunk table of
//! carved data, the state of the IDAT payload, and the rebuilding of
//! damaged files.

use vstd::prelude::*;
use crate::bytes::{append_all, append_range, be32, copy_range, ends_with, has_suffix, matches_at, rd_be32, starts_with};
use crate::formats::PayloadStatus;
use crate::jpeg::be32_bytes;

verus! {

/// What `miniz_oxide::inflate::decompress_to_vec_zlib` gives for a zlib
/// stream: the decoded bytes, or `None` when it reports an error.
pub uninterp spec fn zlib_decompress(data: Seq<u8>) -> Option<Seq<u8>>;

/// What `miniz_oxide::deflate::compress_to_vec_zlib` gives for `data` at
/// compression `level`.
pub uninterp spec fn zlib_compress(data: Seq<u8>, level: u8) -> Seq<u8>;

/// `miniz_oxide::inflate::decompress_to_vec_zlib`: decodes a zlib stream
/// (header, deflate data, Adler-32 check). Its outcome is a function of the
/// input bytes alone, named `zlib_decompress`; the crate's error becomes
/// `None`. Nothing more is claimed of the decoded bytes.
#[verifier::external_body]
fn inflate_zlib(data: &[u8]) -> (r: Option<Vec<u8>>)
    ensures
        match r {
            Some(v) => zlib_decompress(data@) == Some(v@),
            None => zlib_decompress(data@) is None,
        },
{
    miniz_oxide::inflate::decompress_to_vec_zlib(data).ok()
}

/// `miniz_oxide::deflate::compress_to_vec_zlib`: compresses `data` into a
/// zlib stream at the given level. The output is a function of the input
/// and the level, named `zlib_compress`; nothing more is claimed of it.
#[verifier::external_body]
fn deflate_zlib(data: &[u8], level: u8) -> (r: Vec<u8>)
    ensures
        r@ == zlib_compress(data@, level),
{
    miniz_oxide::deflate::compress_to_vec_zlib(data, level)
}

pub open spec fn png_sig() -> Seq<u8> {
    seq![0x89u8, 0x50, 0x4E, 0x47, 0x0D, 0x0A, 0x1A, 0x0A]
}

pub fn png_sig_vec() -> (r: Vec<u8>)
    ensures
        r@ == png_sig(),
{
    let v = vec![0x89u8, 0x50, 0x4E, 0x47, 0x0D, 0x0A, 0x1A, 0x0A];
    assert(v@ == png_sig());
    v
}

/// One bit step of the reflected CRC-32 (polynomial 0xEDB88320).
pub open spec fn crc_bit(c: u32) -> u32 {
    if c & 1 != 0 {
        (c >> 1) ^ 0xEDB88320u32
    } else {
        c >> 1
    }
}

/// The CRC register after folding in byte `b`.
pub open spec fn crc_byte(c: u32, b: u8) -> u32 {
    crc_bit(crc_bit(crc_bit(crc_bit(crc_bit(crc_bit(crc_bit(crc_bit(c ^ (b as u32)))))))))
}

/// The CRC register after the first `n` bytes of `d`.
pub open spec fn crc_fold(d: Seq<u8>, n: int) -> u32
    decreases n,
{
    if n <= 0 {
        0xFFFF_FFFFu32
    } else {
        crc_byte(crc_fold(d, n - 1), d[n - 1])
    }
}

/// The CRC-32 of `d` (as PNG chunk CRCs use it).
pub open spec fn spec_crc(d: Seq<u8>) -> u32 {
    !crc_fold(d, d.len() as int)
}

/// CRC-32 of `data`.
pub fn calc_crc(data: &[u8]) -> (r: u32)
    ensures
        r == spec_crc(data@),
{
    let mut crc: u32 = 0xFFFF_FFFF;
    let mut i: usize = 0;
    while i < data.len()
        invariant
            i <= data@.len(),
            crc == crc_fold(data@, i as int),
        decreases data@.len() - i,
    {
        let mut c = crc ^ (data[i] as u32);
        let ghost c0 = c;
        let mut k: u8 = 0;
        while k < 8
            invariant
                k <= 8,
                c == (if k == 0 { c0 } else if k == 1 { crc_bit(c0) } else if k == 2 { crc_bit(crc_bit(c0)) } else if k == 3 {
                    crc_bit(crc_bit(crc_bit(c0)))
                } else if k == 4 { crc_bit(crc_bit(crc_bit(crc_bit(c0)))) } else if k == 5 {
                    crc_bit(crc_bit(crc_bit(crc_bit(crc_bit(c0)))))
                } else if k == 6 { crc_bit(crc_bit(crc_bit(crc_bit(crc_bit(crc_bit(c0)))))) } else if k == 7 {
                    crc_bit(crc_bit(crc_bit(crc_bit(crc_bit(crc_bit(crc_bit(c0)))))))
                } else { crc_bit(crc_bit(crc_bit(crc_bit(crc_bit(crc_bit(crc_bit(crc_bit(c0)))))))) }),
            decreases 8 - k,
        {
            c = if c & 1 != 0 {
                (c >> 1) ^ 0xEDB88320u32
            } else {
                c >> 1
            };
            k += 1;
        }
        crc = c;
        i += 1;
    }
    !crc
}

/// The PNG chunk of type `typ` carrying `body`: length, type, data, CRC.
pub open spec fn png_chunk(typ: Seq<u8>, body: Seq<u8>) -> Seq<u8> {
    be32_bytes((body.len() % 0x1_0000_0000) as u32) + typ + body + be32_bytes(spec_crc(typ + body))
}

pub open spec fn ihdr_type() -> Seq<u8> {
    seq![0x49u8, 0x48, 0x44, 0x52]
}

pub open spec fn idat_type() -> Seq<u8> {
    seq![0x49u8, 0x44, 0x41, 0x54]
}

pub open spec fn iend_type() -> Seq<u8> {
    seq![0x49u8, 0x45, 0x4E, 0x44]
}

/// The body of an IHDR chunk (no compression, filter or interlace).
pub open spec fn ihdr_body(width: u32, height: u32, bit_depth: u8, color_type: u8) -> Seq<u8> {
    be32_bytes(width) + be32_bytes(height) + seq![bit_depth, color_type, 0u8, 0u8, 0u8]
}

fn push_be32(out: &mut Vec<u8>, x: u32)
    ensures
        final(out)@ == old(out)@ + be32_bytes(x),
{
    out.push((x / 0x100_0000) as u8);
    out.push(((x / 0x1_0000) % 256) as u8);
    out.push(((x / 256) % 256) as u8);
    out.push((x % 256) as u8);
    assert(out@ =~= old(out)@ + be32_bytes(x));
}

/// Append the chunk of type `typ` carrying `body`.
fn push_chunk(out: &mut Vec<u8>, typ: &[u8], body: &[u8])
    ensures
        final(out)@ == old(out)@ + png_chunk(typ@, body@),
{
    push_be32(out, (body.len() as u64 % 0x1_0000_0000) as u32);
    let mut tb: Vec<u8> = Vec::new();
    append_all(&mut tb, typ);
    append_all(&mut tb, body);
    append_all(out, tb.as_slice());
    let crc = calc_crc(tb.as_slice());
    push_be32(out, crc);
    assert(out@ =~= old(out)@ + png_chunk(typ@, body@));
}

/// Build an IHDR chunk with a correct CRC.
pub fn build_ihdr(width: u32, height: u32, bit_depth: u8, color_type: u8) -> (r: Vec<u8>)
    ensures
        r@ == png_chunk(ihdr_type(), ihdr_body(width, height, bit_depth, color_type)),
{
    let t: [u8; 4] = [0x49, 0x48, 0x44, 0x52];
    assert(t@ == ihdr_type());
    let mut body: Vec<u8> = Vec::new();
    push_be32(&mut body, width);
    push_be32(&mut body, height);
    body.push(bit_depth);
    body.push(color_type);
    body.push(0);
    body.push(0);
    body.push(0);
    assert(body@ =~= ihdr_body(width, height, bit_depth, color_type));
    let mut out: Vec<u8> = Vec::new();
    push_chunk(&mut out, &t, body.as_slice());
    assert(out@ =~= png_chunk(ihdr_type(), ihdr_body(width, height, bit_depth, color_type)));
    out
}

/// Build an IEND chunk.
pub fn build_iend() -> (r: Vec<u8>)
    ensures
        r@ == png_chunk(iend_type(), Seq::empty()),
{
    let t: [u8; 4] = [0x49, 0x45, 0x4E, 0x44];
    assert(t@ == iend_type());
    let empty: Vec<u8> = Vec::new();
    let mut out: Vec<u8> = Vec::new();
    push_chunk(&mut out, &t, empty.as_slice());
    assert(out@ =~= png_chunk(iend_type(), Seq::empty()));
    out
}

/// The last eight bytes of a well-formed PNG: `IEND` and its CRC.
pub open spec fn iend_tail() -> Seq<u8> {
    seq![0x49u8, 0x45, 0x4E, 0x44, 0xAE, 0x42, 0x60, 0x82]
}

/// Whether the data ends with a proper IEND, or holds an `IEND` type past
/// the signature.
pub open spec fn spec_has_valid_iend(d: Seq<u8>) -> bool {
    d.len() >= 12 && (ends_with(d, iend_tail()) || exists|i: int| 8 <= i && i + 3 < d.len() && #[trigger] matches_at(d, i, iend_type()))
}

pub fn has_valid_iend(data: &[u8]) -> (r: bool)
    ensures
        r == spec_has_valid_iend(data@),
{
    if data.len() < 12 {
        return false;
    }
    let tail: [u8; 8] = [0x49, 0x45, 0x4E, 0x44, 0xAE, 0x42, 0x60, 0x82];
    assert(tail@ == iend_tail());
    if has_suffix(data, &tail) {
        return true;
    }
    let t: [u8; 4] = [0x49, 0x45, 0x4E, 0x44];
    assert(t@ == iend_type());
    let mut i: usize = data.len() - 3;
    while i > 8
        invariant
            8 <= i <= data@.len() - 3,
            t@ == iend_type(),
            forall|k: int| i <= k && k + 3 < data@.len() ==> !matches_at(data@, k, iend_type()),
        decreases i,
    {
        i -= 1;
        if crate::bytes::bytes_at(data, i, &t) {
            return true;
        }
    }
    false
}

/// First offset (before the last three bytes) where `pat` starts.
pub open spec fn find_from(d: Seq<u8>, pat: Seq<u8>, i: int) -> Option<int>
    decreases d.len() - i,
{
    if i < 0 || i + 3 >= d.len() {
        None
    } else if starts_with(d.subrange(i, d.len() as int), pat) {
        Some(i)
    } else {
        find_from(d, pat, i + 1)
    }
}

/// First offset where `chunk_type` starts.
pub fn find_chunk(data: &[u8], chunk_type: &[u8]) -> (r: Option<usize>)
    ensures
        match r {
            Some(i) => find_from(data@, chunk_type@, 0) == Some(i as int) && i + 3 < data@.len(),
            None => find_from(data@, chunk_type@, 0) is None,
        },
{
    let len = data.len();
    let mut i: usize = 0;
    while i < len && len - i > 3
        invariant
            len == data@.len(),
            find_from(data@, chunk_type@, 0) == find_from(data@, chunk_type@, i as int),
        decreases len - i,
    {
        if crate::bytes::bytes_at(data, i, chunk_type) {
            assert(starts_with(data@.subrange(i as int, len as int), chunk_type@)) by {
                assert(data@.subrange(i as int, len as int).subrange(0, chunk_type@.len() as int)
                    =~= data@.subrange(i as int, i + chunk_type@.len()));
            }
            return Some(i);
        }
        assert(!starts_with(data@.subrange(i as int, len as int), chunk_type@)) by {
            if chunk_type@.len() <= len - i {
                assert(data@.subrange(i as int, len as int).subrange(0, chunk_type@.len() as int)
                    =~= data@.subrange(i as int, i + chunk_type@.len()));
            }
        }
        i += 1;
    }
    None
}

/// Width, height, bit depth and color type.
pub type IhdrFields = (u32, u32, u8, u8);

/// The IHDR fields of the chunk whose type is at `pos`: read right after
/// the type when the size there is plausible, else through a length field
/// of 13 before it.
pub open spec fn spec_try_extract_ihdr(d: Seq<u8>, pos: int) -> Option<IhdrFields> {
    let ds = pos + 4;
    let direct = if ds + 13 <= d.len() {
        let w = be32(d, ds);
        let h = be32(d, ds + 4);
        if 0 < w <= 65536 && 0 < h <= 65536 { Some((w as u32, h as u32, d[ds + 8], d[ds + 9])) } else { None }
    } else {
        None
    };
    match direct {
        Some(f) => Some(f),
        None => if pos >= 4 && pos - 4 + 8 <= d.len() && be32(d, pos - 4) == 13 && pos - 4 + 25 <= d.len() {
            let ls = pos - 4;
            let w = be32(d, ls + 8);
            let h = be32(d, ls + 12);
            if 0 < w <= 65536 && 0 < h <= 65536 { Some((w as u32, h as u32, d[ls + 16], d[ls + 17])) } else { None }
        } else {
            None
        },
    }
}

pub fn try_extract_ihdr(data: &[u8], pos: usize) -> (r: Option<IhdrFields>)
    ensures
        r == spec_try_extract_ihdr(data@, pos as int),
{
    let len = data.len() as u128;
    let ds = pos as u128 + 4;
    if ds + 13 <= len {
        let d = ds as usize;
        let w = rd_be32(data, d);
        let h = rd_be32(data, d + 4);
        if w > 0 && w <= 65536 && h > 0 && h <= 65536 {
            return Some((w, h, data[d + 8], data[d + 9]));
        }
    }
    if pos >= 4 && (pos as u128) + 4 <= len {
        let ls = pos - 4;
        if rd_be32(data, ls) == 13 && (ls as u128) + 25 <= len {
            let w = rd_be32(data, ls + 8);
            let h = rd_be32(data, ls + 12);
            if w > 0 && w <= 65536 && h > 0 && h <= 65536 {
                return Some((w, h, data[ls + 16], data[ls + 17]));
            }
        }
    }
    None
}

/// The chunk types the chunk scan recognizes (the first five mark an
/// embedded PNG).
pub open spec fn png_chunk_types() -> Seq<Seq<u8>> {
    seq![
        seq![0x49u8, 0x48, 0x44, 0x52],
        seq![0x49u8, 0x44, 0x41, 0x54],
        seq![0x49u8, 0x45, 0x4E, 0x44],
        seq![0x50u8, 0x4C, 0x54, 0x45],
        seq![0x74u8, 0x45, 0x58, 0x74],
        seq![0x7Au8, 0x54, 0x58, 0x74],
        seq![0x69u8, 0x54, 0x58, 0x74],
        seq![0x74u8, 0x52, 0x4E, 0x53],
        seq![0x67u8, 0x41, 0x4D, 0x41],
        seq![0x63u8, 0x48, 0x52, 0x4D],
        seq![0x73u8, 0x52, 0x47, 0x42],
        seq![0x69u8, 0x43, 0x43, 0x50],
        seq![0x70u8, 0x48, 0x59, 0x73],
        seq![0x62u8, 0x4B, 0x47, 0x44],
    ]
}

/// The name of a recognized chunk type.
pub open spec fn png_chunk_names() -> Seq<Seq<char>> {
    seq![
        seq!['I', 'H', 'D', 'R'],
        seq!['I', 'D', 'A', 'T'],
        seq!['I', 'E', 'N', 'D'],
        seq!['P', 'L', 'T', 'E'],
        seq!['t', 'E', 'X', 't'],
        seq!['z', 'T', 'X', 't'],
        seq!['i', 'T', 'X', 't'],
        seq!['t', 'R', 'N', 'S'],
        seq!['g', 'A', 'M', 'A'],
        seq!['c', 'H', 'R', 'M'],
        seq!['s', 'R', 'G', 'B'],
        seq!['i', 'C', 'C', 'P'],
        seq!['p', 'H', 'Y', 's'],
        seq!['b', 'K', 'G', 'D'],
    ]
}

/// First recognized chunk type, from index `k` of the table on, whose four
/// bytes start at `i`.
pub open spec fn type_from(d: Seq<u8>, i: int, k: int) -> Option<int>
    decreases 14 - k,
{
    if k < 0 || k >= 14 {
        None
    } else if png_chunk_types()[k] == d.subrange(i, i + 4) {
        Some(k)
    } else {
        type_from(d, i, k + 1)
    }
}

/// Index of the recognized chunk type whose four bytes start at `i`.
pub open spec fn spec_chunk_type_at(d: Seq<u8>, i: int) -> Option<int> {
    if 0 <= i && i + 4 <= d.len() {
        type_from(d, i, 0)
    } else {
        None
    }
}

/// Index (into `png_chunk_types`) of the chunk type at `i`.
pub fn chunk_type_at(data: &[u8], i: usize) -> (r: Option<usize>)
    ensures
        r matches Some(k) ==> k < 14 && 0 <= i && i + 4 <= data@.len() && png_chunk_types()[k as int] == data@.subrange(i as int, i + 4),
        match r {
            Some(k) => spec_chunk_type_at(data@, i as int) == Some(k as int),
            None => spec_chunk_type_at(data@, i as int) is None,
        },
{
    if i > data.len() || data.len() - i < 4 {
        return None;
    }
    let w = copy_range(data, i, i + 4);
    let ghost ts = png_chunk_types();
    proof {
        reveal_with_fuel(type_from, 15);
    }
    if w[0] == 0x49 && w[1] == 0x48 && w[2] == 0x44 && w[3] == 0x52 {
        assert(w@ =~= ts[0]);
        return Some(0);
    }
    if w[0] == 0x49 && w[1] == 0x44 && w[2] == 0x41 && w[3] == 0x54 {
        assert(w@ =~= ts[1]);
        return Some(1);
    }
    if w[0] == 0x49 && w[1] == 0x45 && w[2] == 0x4E && w[3] == 0x44 {
        assert(w@ =~= ts[2]);
        return Some(2);
    }
    if w[0] == 0x50 && w[1] == 0x4C && w[2] == 0x54 && w[3] == 0x45 {
        assert(w@ =~= ts[3]);
        return Some(3);
    }
    if w[0] == 0x74 && w[1] == 0x45 && w[2] == 0x58 && w[3] == 0x74 {
        assert(w@ =~= ts[4]);
        return Some(4);
    }
    if w[0] == 0x7A && w[1] == 0x54 && w[2] == 0x58 && w[3] == 0x74 {
        assert(w@ =~= ts[5]);
        return Some(5);
    }
    if w[0] == 0x69 && w[1] == 0x54 && w[2] == 0x58 && w[3] == 0x74 {
        assert(w@ =~= ts[6]);
        return Some(6);
    }
    if w[0] == 0x74 && w[1] == 0x52 && w[2] == 0x4E && w[3] == 0x53 {
        assert(w@ =~= ts[7]);
        return Some(7);
    }
    if w[0] == 0x67 && w[1] == 0x41 && w[2] == 0x4D && w[3] == 0x41 {
        assert(w@ =~= ts[8]);
        return Some(8);
    }
    if w[0] == 0x63 && w[1] == 0x48 && w[2] == 0x52 && w[3] == 0x4D {
        assert(w@ =~= ts[9]);
        return Some(9);
    }
    if w[0] == 0x73 && w[1] == 0x52 && w[2] == 0x47 && w[3] == 0x42 {
        assert(w@ =~= ts[10]);
        return Some(10);
    }
    if w[0] == 0x69 && w[1] == 0x43 && w[2] == 0x43 && w[3] == 0x50 {
        assert(w@ =~= ts[11]);
        return Some(11);
    }
    if w[0] == 0x70 && w[1] == 0x48 && w[2] == 0x59 && w[3] == 0x73 {
        assert(w@ =~= ts[12]);
        return Some(12);
    }
    if w[0] == 0x62 && w[1] == 0x4B && w[2] == 0x47 && w[3] == 0x44 {
        assert(w@ =~= ts[13]);
        return Some(13);
    }
    None
}

/// The name of recognized chunk type `k`.
pub fn png_chunk_name(k: usize) -> (r: &'static str)
    requires
        k < 14,
    ensures
        r@ == png_chunk_names()[k as int],
{
    if k == 0 {
        proof {
            reveal_strlit("IHDR");
        }
        return "IHDR";
    }
    if k == 1 {
        proof {
            reveal_strlit("IDAT");
        }
        return "IDAT";
    }
    if k == 2 {
        proof {
            reveal_strlit("IEND");
        }
        return "IEND";
    }
    if k == 3 {
        proof {
            reveal_strlit("PLTE");
        }
        return "PLTE";
    }
    if k == 4 {
        proof {
            reveal_strlit("tEXt");
        }
        return "tEXt";
    }
    if k == 5 {
        proof {
            reveal_strlit("zTXt");
        }
        return "zTXt";
    }
    if k == 6 {
        proof {
            reveal_strlit("iTXt");
        }
        return "iTXt";
    }
    if k == 7 {
        proof {
            reveal_strlit("tRNS");
        }
        return "tRNS";
    }
    if k == 8 {
        proof {
            reveal_strlit("gAMA");
        }
        return "gAMA";
    }
    if k == 9 {
        proof {
            reveal_strlit("cHRM");
        }
        return "cHRM";
    }
    if k == 10 {
        proof {
            reveal_strlit("sRGB");
        }
        return "sRGB";
    }
    if k == 11 {
        proof {
            reveal_strlit("iCCP");
        }
        return "iCCP";
    }
    if k == 12 {
        proof {
            reveal_strlit("pHYs");
        }
        return "pHYs";
    }
    proof {
        reveal_strlit("bKGD");
    }
    "bKGD"
}

/// Every recognized chunk type in the data, as (offset, type index), from
/// offset `i` on.
pub open spec fn chunks_from(d: Seq<u8>, i: int) -> Seq<(usize, usize)>
    decreases d.len() - i,
{
    if i < 0 || i + 3 >= d.len() {
        Seq::empty()
    } else {
        match spec_chunk_type_at(d, i) {
            Some(k) => seq![(i as usize, k as usize)] + chunks_from(d, i + 1),
            None => chunks_from(d, i + 1),
        }
    }
}

/// Every recognized chunk type in the data, as (offset, type index).
pub fn find_any_png_chunks(data: &[u8]) -> (r: Vec<(usize, usize)>)
    ensures
        r@.len() == chunks_from(data@, 0).len(),
        r@ == chunks_from(data@, 0),
        forall|j: int| 0 <= j < r@.len() ==> #[trigger] r@[j].0 + 4 <= data@.len() && r@[j].1 < 14
            && png_chunk_types()[r@[j].1 as int] == data@.subrange(r@[j].0 as int, r@[j].0 + 4),
{
    let len = data.len();
    let mut out: Vec<(usize, usize)> = Vec::new();
    let mut i: usize = 0;
    while i < len && len - i > 3
        invariant
            len == data@.len(),
            chunks_from(data@, 0) == out@ + chunks_from(data@, i as int),
            forall|j: int| 0 <= j < out@.len() ==> #[trigger] out@[j].0 + 4 <= data@.len() && out@[j].1 < 14
                && png_chunk_types()[out@[j].1 as int] == data@.subrange(out@[j].0 as int, out@[j].0 + 4),
        decreases len - i,
    {
        let ghost before = out@;
        match chunk_type_at(data, i) {
            Some(k) => {
                out.push((i, k));
                assert(before + chunks_from(data@, i as int) =~= out@ + chunks_from(data@, i + 1));
            },
            None => {},
        }
        i += 1;
    }
    assert(out@ + chunks_from(data@, i as int) =~= out@);
    out
}

/// First offset from `i` on (and before the last seven bytes) where the PNG
/// signature starts.
pub open spec fn sig_from(d: Seq<u8>, i: int) -> Option<int>
    decreases d.len() - i,
{
    if i < 0 || i + 7 >= d.len() {
        None
    } else if matches_at(d, i, png_sig()) {
        Some(i)
    } else {
        sig_from(d, i + 1)
    }
}

/// First offset from `i` on where one of the chunk types that mark an
/// embedded PNG (IHDR, IDAT, IEND, PLTE, tEXt) follows a plausible length
/// field; the result is the offset of that length field.
pub open spec fn marker_chunk_from(d: Seq<u8>, i: int) -> Option<int>
    decreases d.len() - i,
{
    if i < 0 || i + 3 >= d.len() {
        None
    } else if i >= 4 && (spec_chunk_type_at(d, i) matches Some(k) && k < 5) && 0 < be32(d, i - 4) < 1_000_000 {
        Some(i - 4)
    } else {
        marker_chunk_from(d, i + 1)
    }
}

/// Where a PNG starts inside the data: a signature past offset 0, else the
/// length field of the first marker chunk.
pub open spec fn spec_find_embedded_png(d: Seq<u8>) -> Option<int> {
    if d.len() < 16 {
        None
    } else {
        match sig_from(d, 1) {
            Some(i) => Some(i),
            None => marker_chunk_from(d, 0),
        }
    }
}

pub fn find_embedded_png(data: &[u8]) -> (r: Option<usize>)
    ensures
        match r {
            Some(i) => spec_find_embedded_png(data@) == Some(i as int),
            None => spec_find_embedded_png(data@) is None,
        },
{
    let len = data.len();
    if len < 16 {
        return None;
    }
    let sig = png_sig_vec();
    let mut i: usize = 1;
    while i < len && len - i > 7
        invariant
            len == data@.len(),
            sig@ == png_sig(),
            1 <= i,
            len >= 16,
            sig_from(data@, 1) == sig_from(data@, i as int),
        decreases len - i,
    {
        if crate::bytes::bytes_at(data, i, sig.as_slice()) {
            assert(sig_from(data@, i as int) == Some(i as int));
            return Some(i);
        }
        i += 1;
    }
    let mut k: usize = 0;
    while k < len && len - k > 3
        invariant
            len == data@.len() >= 16,
            sig_from(data@, 1) is None,
            marker_chunk_from(data@, 0) == marker_chunk_from(data@, k as int),
        decreases len - k,
    {
        if k >= 4 {
            match chunk_type_at(data, k) {
                Some(t) => {
                    if t < 5 {
                        let claimed = rd_be32(data, k - 4);
                        if claimed > 0 && claimed < 1_000_000 {
                            return Some(k - 4);
                        }
                    }
                },
                None => {},
            }
        }
        k += 1;
    }
    None
}

/// Largest accepted IDAT chunk.
pub const MAX_IDAT_CHUNK: u64 = 10_000_000;

/// The IDAT bytes of the run of consecutive IDAT chunks at `pos`.
pub open spec fn idat_run(d: Seq<u8>, pos: int) -> Seq<u8>
    decreases d.len() - pos,
{
    if pos < 0 || pos + 12 > d.len() {
        Seq::empty()
    } else {
        let n = be32(d, pos);
        if n == 0 || n > MAX_IDAT_CHUNK || pos + 12 + n > d.len() || d.subrange(pos + 4, pos + 8) != idat_type() {
            Seq::empty()
        } else {
            d.subrange(pos + 8, pos + 8 + n) + idat_run(d, pos + 12 + n)
        }
    }
}

/// The decoded image data of the IDAT chunks at `start` (`None` when there
/// are none or they do not decode).
pub open spec fn spec_extract_idat(d: Seq<u8>, start: int) -> Option<Seq<u8>> {
    let c = idat_run(d, start);
    if c.len() == 0 {
        None
    } else {
        zlib_decompress(c)
    }
}

fn idat_run_exec(data: &[u8], start: usize) -> (r: Vec<u8>)
    ensures
        r@ == idat_run(data@, start as int),
{
    let len = data.len();
    let t: [u8; 4] = [0x49, 0x44, 0x41, 0x54];
    assert(t@ == idat_type());
    let mut out: Vec<u8> = Vec::new();
    let mut pos = start;
    loop
        invariant
            len == data@.len(),
            t@ == idat_type(),
            idat_run(data@, start as int) == out@ + idat_run(data@, pos as int),
        decreases len - pos,
    {
        if pos > len || len - pos < 12 {
            assert(out@ + idat_run(data@, pos as int) =~= out@);
            return out;
        }
        let n = rd_be32(data, pos) as usize;
        let is_idat = crate::bytes::bytes_at(data, pos + 4, &t);
        assert(is_idat == (data@.subrange(pos + 4, pos + 8) == idat_type())) by {
            assert(crate::bytes::matches_at(data@, pos + 4, t@) == (data@.subrange(pos + 4, pos + 8) =~= idat_type()));
        }
        if n == 0 || n as u64 > MAX_IDAT_CHUNK || n > len - pos - 12 || !is_idat {
            assert(out@ + idat_run(data@, pos as int) =~= out@);
            return out;
        }
        let ghost before = out@;
        append_range(&mut out, data, pos + 8, pos + 8 + n);
        assert(before + idat_run(data@, pos as int) =~= out@ + idat_run(data@, pos + 12 + n));
        pos = pos + 12 + n;
    }
}

/// Decode the IDAT chunks at `start`.
pub fn extract_idat_data(data: &[u8], start: usize) -> (r: Option<Vec<u8>>)
    ensures
        match r {
            Some(v) => spec_extract_idat(data@, start as int) == Some(v@),
            None => spec_extract_idat(data@, start as int) is None,
        },
{
    let c = idat_run_exec(data, start);
    if c.len() == 0 {
        return None;
    }
    inflate_zlib(c.as_slice())
}

/// The IDAT bytes found scanning from `i`: every IDAT chunk met (with a
/// plausible, fitting length) is taken, other bytes are stepped over one at
/// a time; the scan stops at the first IDAT chunk that does not fit.
pub open spec fn payload_scan(d: Seq<u8>, i: int) -> (bool, Seq<u8>)
    decreases d.len() - i,
{
    if i < 0 || i + 8 > d.len() {
        (false, Seq::empty())
    } else if d.subrange(i + 4, i + 8) == idat_type() {
        let n = be32(d, i);
        if n == 0 || n > MAX_IDAT_CHUNK || i + 12 + n > d.len() {
            (false, Seq::empty())
        } else {
            let rest = payload_scan(d, i + 12 + n);
            (true, d.subrange(i + 8, i + 8 + n) + rest.1)
        }
    } else {
        payload_scan(d, i + 1)
    }
}

/// First shift in `s..=8` (shorter than `c`) after which `c` decodes.
pub open spec fn first_shift(c: Seq<u8>, s: int) -> Option<int>
    decreases 9 - s,
{
    if s > 8 || c.len() <= s {
        None
    } else if zlib_decompress(c.subrange(s, c.len() as int)) is Some {
        Some(s)
    } else {
        first_shift(c, s + 1)
    }
}

/// The state of the PNG payload (see `png_payload_status`).
pub open spec fn spec_png_payload(d: Seq<u8>, offset: Option<usize>) -> PayloadStatus {
    let start: int = match offset {
        Some(o) => o as int,
        None => 0,
    };
    if start >= d.len() {
        PayloadStatus::Missing
    } else {
        let from = if starts_with(d.subrange(start, d.len() as int), png_sig()) { start + 8 } else { start };
        let (found, c) = payload_scan(d, from);
        if !found || c.len() == 0 {
            PayloadStatus::Missing
        } else if zlib_decompress(c) is Some {
            PayloadStatus::Sound
        } else if first_shift(c, 1) is Some {
            PayloadStatus::Shifted
        } else {
            PayloadStatus::Corrupt
        }
    }
}

/// Classify the state of the PNG image payload (the concatenated zlib stream
/// carried by the IDAT chunks): missing, undecodable (corrupt), decodable
/// only once its first few bytes are dropped (shifted), or sound.
pub fn png_payload_status(data: &[u8], offset: Option<usize>) -> (r: PayloadStatus)
    ensures
        r == spec_png_payload(data@, offset),
{
    let len = data.len();
    let start: usize = match offset {
        Some(o) => o,
        None => 0,
    };
    if start >= len {
        return PayloadStatus::Missing;
    }
    let sig = png_sig_vec();
    let has_sig = crate::bytes::bytes_at(data, start, sig.as_slice());
    assert(has_sig == starts_with(data@.subrange(start as int, len as int), png_sig())) by {
        if start + 8 <= len {
            assert(data@.subrange(start as int, len as int).subrange(0, 8) =~= data@.subrange(start as int, start + 8));
        }
    }
    let from = if has_sig {
        start + 8
    } else {
        start
    };
    let t: [u8; 4] = [0x49, 0x44, 0x41, 0x54];
    assert(t@ == idat_type());
    let mut compressed: Vec<u8> = Vec::new();
    let mut found = false;
    let mut i = from;
    let ghost target = payload_scan(data@, from as int);
    loop
        invariant
            len == data@.len(),
            t@ == idat_type(),
            target == payload_scan(data@, from as int),
            target.0 == (found || payload_scan(data@, i as int).0),
            found ==> target.0,
            target.1 == compressed@ + payload_scan(data@, i as int).1,
        ensures
            target.1 == compressed@,
            target.0 == found,
        decreases len - i,
    {
        if i > len || len - i < 8 {
            assert(compressed@ + payload_scan(data@, i as int).1 =~= compressed@);
            break;
        }
        let is_idat = crate::bytes::bytes_at(data, i + 4, &t);
        assert(is_idat == (data@.subrange(i + 4, i + 8) == idat_type())) by {
            assert(crate::bytes::matches_at(data@, i + 4, t@) == (data@.subrange(i + 4, i + 8) =~= idat_type()));
        }
        if is_idat {
            let n = rd_be32(data, i) as usize;
            if n == 0 || n as u64 > MAX_IDAT_CHUNK || (n as u64) > (len - i) as u64 || len - i - n < 12 {
                assert(compressed@ + payload_scan(data@, i as int).1 =~= compressed@);
                break;
            }
            found = true;
            let ghost before = compressed@;
            append_range(&mut compressed, data, i + 8, i + 8 + n);
            assert(before + payload_scan(data@, i as int).1 =~= compressed@ + payload_scan(data@, i + 12 + n).1);
            i = i + 12 + n;
        } else {
            i += 1;
        }
    }
    assert(compressed@ =~= target.1);
    if !found || compressed.len() == 0 {
        return PayloadStatus::Missing;
    }
    if inflate_zlib(compressed.as_slice()).is_some() {
        return PayloadStatus::Sound;
    }
    let ghost outcome = spec_png_payload(data@, offset);
    assert(outcome == (if first_shift(compressed@, 1) is Some { PayloadStatus::Shifted } else { PayloadStatus::Corrupt }));
    let mut shift: usize = 1;
    while shift <= 8 && shift < compressed.len()
        invariant
            1 <= shift <= 9,
            outcome == spec_png_payload(data@, offset),
            outcome == (if first_shift(compressed@, 1) is Some { PayloadStatus::Shifted } else { PayloadStatus::Corrupt }),
            first_shift(compressed@, 1) == first_shift(compressed@, shift as int),
        decreases 9 - shift,
    {
        let tail = copy_range(compressed.as_slice(), shift, compressed.len());
        if inflate_zlib(tail.as_slice()).is_some() {
            assert(tail@ == compressed@.subrange(shift as int, compressed@.len() as int));
            assert(first_shift(compressed@, shift as int) == Some(shift as int));
            return PayloadStatus::Shifted;
        }
        shift += 1;
    }
    PayloadStatus::Corrupt
}

/// Width/height ratios an estimated image size is matched against.
pub open spec fn aspect_pairs() -> Seq<(int, int)> {
    seq![(16int, 9int), (4int, 3int), (3int, 2int), (16int, 10int), (1int, 1int), (5int, 4int)]
}

pub open spec fn absdiff(a: int, b: int) -> int {
    if a > b {
        a - b
    } else {
        b - a
    }
}

/// Smallest distance of `w` x `h` from the aspect ratios `k..` (starting
/// from `cur`).
pub open spec fn aspect_dist(w: int, h: int, k: int, cur: int) -> int
    decreases 6 - k,
{
    if k < 0 || k >= 6 {
        cur
    } else {
        let d = absdiff(w * aspect_pairs()[k].1, h * aspect_pairs()[k].0);
        aspect_dist(w, h, k + 1, if d < cur { d } else { cur })
    }
}

/// Best guess so far: width, height, bit depth, color type and its score.
pub type Guess = (u32, u32, u8, u8, u64);

/// The guess after trying widths `16 + 8k` (for `k` up to 2046) for
/// `size` bytes of scanlines of color type `ct` with `ch` channels: a width
/// whose scanlines (plus filter byte) divide the size evenly and give a
/// plausible height is scored by its distance from common aspect ratios;
/// a lower score wins, and on a tie a wider image over 500 pixels wins.
pub open spec fn est_widths(size: int, ct: u8, ch: int, k: int, best: Option<Guess>) -> Option<Guess>
    decreases 2047 - k,
{
    if k < 0 || k > 2046 {
        best
    } else {
        let w = 16 + 8 * k;
        let stride = 1 + w * ch;
        let next = if size % stride != 0 || size / stride < 1 || size / stride > 65536 {
            best
        } else {
            let h = size / stride;
            let score = aspect_dist(w, h, 0, 0xFFFF_FFFF_FFFF_FFFF);
            let replace = match best {
                Some(b) => score < b.4 || (score == b.4 && w > 500 && w > b.0),
                None => true,
            };
            if replace { Some((w as u32, h as u32, 8u8, ct, score as u64)) } else { best }
        };
        est_widths(size, ct, ch, k + 1, next)
    }
}

/// The IHDR fields guessed for `size` bytes of decoded scanlines (RGB
/// first, then RGBA); 1x1 RGBA when nothing fits.
pub open spec fn spec_estimate_ihdr(size: int) -> IhdrFields {
    match est_widths(size, 6, 4, 0, est_widths(size, 2, 3, 0, None)) {
        Some(b) => (b.0, b.1, b.2, b.3),
        None => (1, 1, 8, 6),
    }
}

fn aspect_dist_exec(w: u64, h: u64) -> (r: u64)
    requires
        w <= 16384,
        h <= 65536,
    ensures
        r == aspect_dist(w as int, h as int, 0, 0xFFFF_FFFF_FFFF_FFFF),
{
    let aw: [u64; 6] = [16, 4, 3, 16, 1, 5];
    let ah: [u64; 6] = [9, 3, 2, 10, 1, 4];
    let mut best: u64 = 0xFFFF_FFFF_FFFF_FFFF;
    let mut k: usize = 0;
    while k < 6
        invariant
            k <= 6,
            w <= 16384,
            h <= 65536,
            forall|j: int| 0 <= j < 6 ==> aw@[j] == aspect_pairs()[j].0 && ah@[j] == aspect_pairs()[j].1,
            aspect_dist(w as int, h as int, 0, 0xFFFF_FFFF_FFFF_FFFF) == aspect_dist(w as int, h as int, k as int, best as int),
        decreases 6 - k,
    {
        let a = aw[k];
        let b = ah[k];
        assert(w * b <= 16384 * 16 && h * a <= 65536 * 16) by (nonlinear_arith)
            requires
                w <= 16384,
                h <= 65536,
                a <= 16,
                b <= 16,
        ;
        let x = w * b;
        let y = h * a;
        let d = if x > y {
            x - y
        } else {
            y - x
        };
        if d < best {
            best = d;
        }
        k += 1;
    }
    best
}

fn est_widths_exec(size: u64, ct: u8, ch: u64, best0: Option<Guess>) -> (r: Option<Guess>)
    requires
        1 <= ch <= 4,
    ensures
        r == est_widths(size as int, ct, ch as int, 0, best0),
{
    let mut best = best0;
    let mut k: u64 = 0;
    while k <= 2046
        invariant
            k <= 2047,
            1 <= ch <= 4,
            est_widths(size as int, ct, ch as int, 0, best0) == est_widths(size as int, ct, ch as int, k as int, best),
        decreases 2047 - k,
    {
        let w = 16 + 8 * k;
        assert(w * ch <= 16384 * 4) by (nonlinear_arith)
            requires
                w <= 16384,
                ch <= 4,
        ;
        let stride = 1 + w * ch;
        if size % stride == 0 && size / stride >= 1 && size / stride <= 65536 {
            let h = size / stride;
            let score = aspect_dist_exec(w, h);
            let replace = match best {
                Some(b) => score < b.4 || (score == b.4 && w > 500 && w > b.0 as u64),
                None => true,
            };
            if replace {
                best = Some((w as u32, h as u32, 8u8, ct, score));
            }
        }
        k += 1;
    }
    best
}

/// Guess plausible IHDR fields for decoded scanline data.
pub fn estimate_ihdr(decompressed: &[u8]) -> (r: IhdrFields)
    ensures
        r == spec_estimate_ihdr(decompressed@.len() as int),
{
    let s = decompressed.len() as u64;
    let first = est_widths_exec(s, 2, 3, None);
    match est_widths_exec(s, 6, 4, first) {
        Some(b) => (b.0, b.1, b.2, b.3),
        None => (1, 1, 8, 6),
    }
}

/// The metadata chunks (offset, end) found among `chunks` of `before`: a
/// chunk with a plausible length that ends inside `before`.
pub open spec fn meta_chunk(before: Seq<u8>, pos: int) -> Option<(int, int)> {
    if pos >= 4 && pos + 4 <= before.len() {
        let n = be32(before, pos - 4);
        let end = pos + 8 + n;
        if n > 0 && n < 1_000_000 && end <= before.len() { Some((pos - 4, end)) } else { None }
    } else {
        None
    }
}

/// The bytes of the non-overlapping metadata chunks taken from `chunks[j..]`
/// after `last_end`.
pub open spec fn meta_bytes(before: Seq<u8>, chunks: Seq<(usize, usize)>, j: int, last_end: int) -> Seq<u8>
    decreases chunks.len() - j,
{
    if j < 0 || j >= chunks.len() {
        Seq::empty()
    } else {
        match meta_chunk(before, chunks[j].0 as int) {
            Some((s, e)) => if s >= last_end {
                before.subrange(s, e) + meta_bytes(before, chunks, j + 1, e)
            } else {
                meta_bytes(before, chunks, j + 1, last_end)
            },
            None => meta_bytes(before, chunks, j + 1, last_end),
        }
    }
}

/// The metadata chunks that precede an embedded PNG at `offset` (after the
/// signature position), in order and without overlaps.
pub open spec fn spec_metadata_before(d: Seq<u8>, offset: int) -> Seq<u8> {
    if offset > 8 && offset <= d.len() {
        let before = d.subrange(8, offset);
        meta_bytes(before, chunks_from(before, 0), 0, 0)
    } else {
        Seq::empty()
    }
}

/// Copy the metadata chunks found before `offset` into `out`. The chunk
/// candidates come in increasing offset order, so they need no sorting.
pub fn copy_metadata_before(data: &[u8], offset: usize, out: &mut Vec<u8>)
    ensures
        final(out)@ == old(out)@ + spec_metadata_before(data@, offset as int),
{
    if offset > 8 && offset <= data.len() {
        let before = copy_range(data, 8, offset);
        let meta = find_any_png_chunks(before.as_slice());
        let blen = before.len();
        let mut last_end: usize = 0;
        let mut j: usize = 0;
        let ghost base = out@;
        while j < meta.len()
            invariant
                j <= meta@.len(),
                blen == before@.len(),
                meta@ == chunks_from(before@, 0),
                last_end <= blen,
                base + meta_bytes(before@, meta@, 0, 0) == out@ + meta_bytes(before@, meta@, j as int, last_end as int),
            decreases meta@.len() - j,
        {
            let pos = meta[j].0;
            if pos >= 4 && pos <= blen && blen - pos >= 4 {
                let n = rd_be32(before.as_slice(), pos - 4) as usize;
                if n > 0 && n < 1_000_000 && n <= blen - pos && blen - pos - n >= 8 {
                    let end = pos + 8 + n;
                    let s = pos - 4;
                    if s >= last_end {
                        let ghost o = out@;
                        append_range(out, before.as_slice(), s, end);
                        assert(o + meta_bytes(before@, meta@, j as int, last_end as int) =~= out@ + meta_bytes(
                            before@,
                            meta@,
                            j + 1,
                            end as int,
                        ));
                        last_end = end;
                    }
                }
            }
            j += 1;
        }
        assert(out@ + meta_bytes(before@, meta@, j as int, last_end as int) =~= out@);
    } else {
        assert(old(out)@ + Seq::<u8>::empty() =~= old(out)@);
    }
}

/// The IEND chunk.
pub open spec fn iend_chunk() -> Seq<u8> {
    png_chunk(iend_type(), Seq::empty())
}

/// `out` closed with an IEND chunk unless it already holds one.
pub open spec fn close_png(out: Seq<u8>) -> Seq<u8> {
    if spec_has_valid_iend(out) {
        out
    } else {
        out + iend_chunk()
    }
}

/// The IHDR chunk of a PNG rebuilt around an IHDR whose type is at `pos` of
/// `p`: rebuilt with a fresh CRC when its fields are plausible, else copied
/// with a recomputed CRC (`None` when the chunk runs past the data).
pub open spec fn kept_ihdr(p: Seq<u8>, pos: int) -> Option<Seq<u8>> {
    match spec_try_extract_ihdr(p, pos) {
        Some(f) => Some(png_chunk(ihdr_type(), ihdr_body(f.0, f.1, f.2, f.3))),
        None => if pos + 17 > p.len() {
            None
        } else {
            let ls = if pos >= 4 { pos - 4 } else { 0 };
            Some(p.subrange(ls, pos + 17) + be32_bytes(spec_crc(p.subrange(pos, pos + 17))))
        },
    }
}

/// The IHDR guessed from the IDAT data at `start` (1x1 RGBA when it does
/// not decode).
pub open spec fn guessed_ihdr(d: Seq<u8>, start: int) -> Seq<u8> {
    let f = match spec_extract_idat(d, start) {
        Some(dec) => spec_estimate_ihdr(dec.len() as int),
        None => (1u32, 1u32, 8u8, 6u8),
    };
    png_chunk(ihdr_type(), ihdr_body(f.0, f.1, f.2, f.3))
}

/// The PNG rebuilt around the one starting at `off` (see `repair_png`).
pub open spec fn repair_png_at(d: Seq<u8>, off: int) -> Option<Seq<u8>> {
    let tail = d.subrange(off, d.len() as int);
    let has_sig = starts_with(tail, png_sig());
    let p = if has_sig { d.subrange(off + 8, d.len() as int) } else { tail };
    let ihdr = if off < 1000 { find_from(p, ihdr_type(), 0) } else { None };
    let body: Option<Seq<u8>> = match ihdr {
        Some(pos) => match kept_ihdr(p, pos) {
            Some(h) => Some(h + if pos + 21 < p.len() { p.subrange(pos + 21, p.len() as int) } else { Seq::empty() }),
            None => None,
        },
        None => if find_from(p, idat_type(), 0) is Some {
            Some(guessed_ihdr(d, off) + spec_metadata_before(d, off) + if off < d.len() { tail } else { Seq::empty() })
        } else {
            let cs = if has_sig { off + 8 } else { off };
            Some(if cs < d.len() { d.subrange(cs, d.len() as int) } else { Seq::empty() })
        },
    };
    match body {
        Some(b) => Some(close_png(png_sig() + b)),
        None => None,
    }
}

/// First chunk of `chunks` from `j` on whose type is `k` and whose offset
/// is below `limit`.
pub open spec fn first_chunk_of(chunks: Seq<(usize, usize)>, k: usize, limit: int, j: int) -> Option<usize>
    decreases chunks.len() - j,
{
    if j < 0 || j >= chunks.len() {
        None
    } else if chunks[j].1 == k && chunks[j].0 < limit {
        Some(chunks[j].0)
    } else {
        first_chunk_of(chunks, k, limit, j + 1)
    }
}

/// The PNG rebuilt from loose chunks when no start was found (see
/// `repair_png`).
pub open spec fn repair_png_scan(d: Seq<u8>) -> Option<Seq<u8>> {
    let chunks = chunks_from(d, 0);
    if chunks.len() == 0 {
        None
    } else {
        match first_chunk_of(chunks, 0, 1000, 0) {
            Some(p0) => {
                let pos = p0 as int;
                let head = match spec_try_extract_ihdr(d, pos) {
                    Some(f) => png_chunk(ihdr_type(), ihdr_body(f.0, f.1, f.2, f.3)),
                    None => {
                        let s = if pos >= 4 { pos - 4 } else { 0 };
                        let e = if pos + 21 < d.len() { pos + 21 } else { d.len() as int };
                        d.subrange(s, e)
                    },
                };
                let s = if pos >= 4 { pos - 4 } else { 0 };
                let after = if pos + 21 > s + 25 { pos + 21 } else { s + 25 };
                Some(close_png(png_sig() + head + if after < d.len() { d.subrange(after, d.len() as int) } else { Seq::empty() }))
            },
            None => match first_chunk_of(chunks, 1, d.len() as int + 1, 0) {
                Some(i0) => {
                    let ip = i0 as int;
                    let cs = if ip >= 4 { ip - 4 } else { 0 };
                    Some(close_png(png_sig() + guessed_ihdr(d, cs) + spec_metadata_before(d, cs) + d.subrange(cs, d.len() as int)))
                },
                None => None,
            },
        }
    }
}

/// The PNG that `repair_png` rebuilds.
pub open spec fn spec_repair_png(d: Seq<u8>, known_offset: Option<usize>) -> Option<Seq<u8>> {
    let off = match known_offset {
        Some(o) => Some(o as int),
        None => spec_find_embedded_png(d),
    };
    match off {
        Some(o) => repair_png_at(d, o),
        None => repair_png_scan(d),
    }
}

fn close_png_exec(out: &mut Vec<u8>)
    ensures
        final(out)@ == close_png(old(out)@),
{
    if !has_valid_iend(out.as_slice()) {
        let e = build_iend();
        append_all(out, e.as_slice());
    }
}

fn guessed_ihdr_exec(data: &[u8], start: usize) -> (r: Vec<u8>)
    ensures
        r@ == guessed_ihdr(data@, start as int),
{
    let f = match extract_idat_data(data, start) {
        Some(dec) => estimate_ihdr(dec.as_slice()),
        None => (1u32, 1u32, 8u8, 6u8),
    };
    build_ihdr(f.0, f.1, f.2, f.3)
}

/// The bytes after the signature when the IHDR type is at `pos` of `p`.
fn ihdr_branch(p: &[u8], pos: usize) -> (r: Option<Vec<u8>>)
    requires
        pos + 4 <= p@.len(),
    ensures
        match r {
            Some(v) => (match kept_ihdr(p@, pos as int) {
                Some(h) => Some(h + if pos + 21 < p@.len() { p@.subrange(pos + 21, p@.len() as int) } else { Seq::empty() }),
                None => None::<Seq<u8>>,
            }) == Some(v@),
            None => kept_ihdr(p@, pos as int) is None,
        },
{
    let mut out: Vec<u8> = Vec::new();
    match try_extract_ihdr(p, pos) {
        Some(f) => {
            let h = build_ihdr(f.0, f.1, f.2, f.3);
            append_all(&mut out, h.as_slice());
        },
        None => {
            if p.len() - pos < 17 {
                return None;
            }
            let ls = if pos >= 4 {
                pos - 4
            } else {
                0
            };
            append_range(&mut out, p, ls, pos + 17);
            let c = copy_range(p, pos, pos + 17);
            let crc = calc_crc(c.as_slice());
            push_be32(&mut out, crc);
        },
    }
    let ghost h = out@;
    if p.len() - pos > 21 {
        append_range(&mut out, p, pos + 21, p.len());
    } else {
        assert(out@ =~= h + Seq::<u8>::empty());
    }
    Some(out)
}

/// The bytes after the signature when the payload `p` of the PNG at `off`
/// has no usable IHDR.
fn no_ihdr_branch(data: &[u8], off: usize, p: &[u8], has_sig: bool) -> (r: Vec<u8>)
    requires
        off <= data@.len(),
        p@ == (if has_sig { data@.subrange(off + 8, data@.len() as int) } else { data@.subrange(off as int, data@.len() as int) }),
        has_sig ==> off + 8 <= data@.len(),
    ensures
        r@ == (if find_from(p@, idat_type(), 0) is Some {
            guessed_ihdr(data@, off as int) + spec_metadata_before(data@, off as int) + if off < data@.len() {
                data@.subrange(off as int, data@.len() as int)
            } else {
                Seq::empty()
            }
        } else {
            let cs = if has_sig { off + 8 } else { off as int };
            if cs < data@.len() { data@.subrange(cs, data@.len() as int) } else { Seq::empty() }
        }),
{
    let len = data.len();
    let id: [u8; 4] = [0x49, 0x44, 0x41, 0x54];
    assert(id@ == idat_type());
    let mut out: Vec<u8> = Vec::new();
    if find_chunk(p, &id).is_some() {
        let g = guessed_ihdr_exec(data, off);
        append_all(&mut out, g.as_slice());
        copy_metadata_before(data, off, &mut out);
        let ghost m = out@;
        if off < len {
            append_range(&mut out, data, off, len);
        } else {
            assert(out@ =~= m + Seq::<u8>::empty());
        }
        assert(out@ =~= g@ + spec_metadata_before(data@, off as int) + (if off < data@.len() {
            data@.subrange(off as int, data@.len() as int)
        } else {
            Seq::empty()
        }));
    } else {
        let cs = if has_sig {
            off + 8
        } else {
            off
        };
        if cs < len {
            append_range(&mut out, data, cs, len);
        }
        assert(out@ =~= (if cs < data@.len() { data@.subrange(cs as int, data@.len() as int) } else { Seq::empty() }));
    }
    out
}

fn repair_png_at_exec(data: &[u8], off: usize) -> (r: Option<Vec<u8>>)
    requires
        off <= data@.len(),
    ensures
        match r {
            Some(v) => repair_png_at(data@, off as int) == Some(v@),
            None => repair_png_at(data@, off as int) is None,
        },
{
    let len = data.len();
    let tail = copy_range(data, off, len);
    let sig = png_sig_vec();
    let has_sig = crate::bytes::has_prefix(tail.as_slice(), sig.as_slice());
    let p = if has_sig {
        copy_range(data, off + 8, len)
    } else {
        copy_range(data, off, len)
    };
    let ih: [u8; 4] = [0x49, 0x48, 0x44, 0x52];
    assert(ih@ == ihdr_type());
    let ihdr = if off < 1000 {
        find_chunk(p.as_slice(), &ih)
    } else {
        None
    };
    let mut out = png_sig_vec();
    match ihdr {
        Some(pos) => match ihdr_branch(p.as_slice(), pos) {
            Some(b) => append_all(&mut out, b.as_slice()),
            None => return None,
        },
        None => {
            let b = no_ihdr_branch(data, off, p.as_slice(), has_sig);
            append_all(&mut out, b.as_slice());
        },
    }
    close_png_exec(&mut out);
    Some(out)
}

fn repair_png_scan_exec(data: &[u8]) -> (r: Option<Vec<u8>>)
    ensures
        match r {
            Some(v) => repair_png_scan(data@) == Some(v@),
            None => repair_png_scan(data@) is None,
        },
{
    let len = data.len();
    let chunks = find_any_png_chunks(data);
    if chunks.len() == 0 {
        return None;
    }
    let mut ihdr_pos: Option<usize> = None;
    let mut idat_pos: Option<usize> = None;
    let mut j: usize = chunks.len();
    while j > 0
        invariant
            j <= chunks@.len(),
            chunks@ == chunks_from(data@, 0),
            ihdr_pos == first_chunk_of(chunks@, 0, 1000, j as int),
            idat_pos == first_chunk_of(chunks@, 1, len + 1, j as int),
            forall|q: int| 0 <= q < chunks@.len() ==> #[trigger] chunks@[q].0 + 4 <= data@.len(),
            len == data@.len(),
            ihdr_pos matches Some(x) ==> x + 4 <= len,
            idat_pos matches Some(x) ==> x + 4 <= len,
        decreases j,
    {
        j -= 1;
        let c = chunks[j];
        if c.1 == 0 && c.0 < 1000 {
            ihdr_pos = Some(c.0);
        }
        if c.1 == 1 {
            idat_pos = Some(c.0);
        }
    }
    let mut out = png_sig_vec();
    match ihdr_pos {
        Some(pos) => {
            match try_extract_ihdr(data, pos) {
                Some(f) => {
                    let h = build_ihdr(f.0, f.1, f.2, f.3);
                    append_all(&mut out, h.as_slice());
                },
                None => {
                    let s = if pos >= 4 {
                        pos - 4
                    } else {
                        0
                    };
                    let e = if pos <= len && len - pos > 21 {
                        pos + 21
                    } else {
                        len
                    };
                    append_range(&mut out, data, s, e);
                },
            }
            let s = if pos >= 4 {
                pos - 4
            } else {
                0
            };
            let after: u128 = if (pos as u128) + 21 > (s as u128) + 25 {
                pos as u128 + 21
            } else {
                s as u128 + 25
            };
            if after < len as u128 {
                append_range(&mut out, data, after as usize, len);
            }
        },
        None => match idat_pos {
            Some(ip) => {
                let cs = if ip >= 4 {
                    ip - 4
                } else {
                    0
                };
                let g = guessed_ihdr_exec(data, cs);
                append_all(&mut out, g.as_slice());
                copy_metadata_before(data, cs, &mut out);
                append_range(&mut out, data, cs, len);
            },
            None => return None,
        },
    }
    close_png_exec(&mut out);
    Some(out)
}

/// Rebuild a PNG from a damaged or carved one: the signature is restored,
/// the IHDR is rebuilt (from its fields, or guessed from the image data
/// when it is missing), metadata chunks before an embedded image are kept,
/// and an IEND is appended when missing. Returns `None` when no PNG
/// structure is found (or the IHDR kept runs past the data).
pub fn repair_png(data: &[u8], known_offset: Option<usize>) -> (r: Option<Vec<u8>>)
    requires
        known_offset matches Some(o) ==> o <= data@.len(),
    ensures
        match r {
            Some(v) => spec_repair_png(data@, known_offset) == Some(v@),
            None => spec_repair_png(data@, known_offset) is None,
        },
{
    let off = match known_offset {
        Some(o) => Some(o),
        None => find_embedded_png(data),
    };
    match off {
        Some(o) => {
            proof {
                if known_offset is None {
                    lemma_embedded_in_bounds(data@);
                }
            }
            repair_png_at_exec(data, o)
        },
        None => repair_png_scan_exec(data),
    }
}

proof fn lemma_sig_from_bounds(d: Seq<u8>, i: int)
    ensures
        sig_from(d, i) is Some ==> 0 <= sig_from(d, i)->0 && sig_from(d, i)->0 + 7 < d.len(),
    decreases d.len() - i,
{
    if !(i < 0 || i + 7 >= d.len()) && !matches_at(d, i, png_sig()) {
        lemma_sig_from_bounds(d, i + 1);
    }
}

proof fn lemma_marker_bounds(d: Seq<u8>, i: int)
    ensures
        marker_chunk_from(d, i) is Some ==> 0 <= marker_chunk_from(d, i)->0 < d.len(),
    decreases d.len() - i,
{
    if !(i < 0 || i + 3 >= d.len()) {
        lemma_marker_bounds(d, i + 1);
    }
}

proof fn lemma_embedded_in_bounds(d: Seq<u8>)
    ensures
        spec_find_embedded_png(d) is Some ==> 0 <= spec_find_embedded_png(d)->0 <= d.len(),
{
    lemma_sig_from_bounds(d, 1);
    lemma_marker_bounds(d, 0);
}

/// A chunk of a PNG's chunk table.
#[derive(Debug, Clone, Copy)]
pub struct PngChunkRef {
    pub start: usize,
    pub len: usize,
    pub typ: [u8; 4],
}

/// The chunk table from `pos` on: well-formed chunks up to the first one
/// that runs past the data, stopping after IEND.
pub open spec fn chunk_table(d: Seq<u8>, pos: int) -> Seq<(int, int, Seq<u8>)>
    decreases d.len() - pos,
{
    if pos < 0 || pos + 12 > d.len() || pos + 12 + be32(d, pos) > d.len() {
        Seq::empty()
    } else {
        let n = be32(d, pos);
        let typ = d.subrange(pos + 4, pos + 8);
        seq![(pos, n, typ)] + if typ == iend_type() { Seq::empty() } else { chunk_table(d, pos + 12 + n) }
    }
}

/// The chunk table of a PNG (after its 8-byte signature).
pub open spec fn spec_png_chunks(d: Seq<u8>) -> Seq<(int, int, Seq<u8>)> {
    if d.len() < 8 {
        Seq::empty()
    } else {
        chunk_table(d, 8)
    }
}

pub open spec fn chunk_view(c: PngChunkRef) -> (int, int, Seq<u8>) {
    (c.start as int, c.len as int, c.typ@)
}

/// Parse the length/type/data/CRC chunk table that follows the 8-byte PNG
/// signature. Stops at the first out-of-bounds chunk, or after IEND.
pub fn png_chunks(data: &[u8]) -> (r: Vec<PngChunkRef>)
    ensures
        r@.map_values(|c: PngChunkRef| chunk_view(c)) == spec_png_chunks(data@),
{
    let mut v: Vec<PngChunkRef> = Vec::new();
    let len = data.len();
    if len < 8 {
        assert(v@.map_values(|c: PngChunkRef| chunk_view(c)) =~= spec_png_chunks(data@));
        return v;
    }
    let iend: [u8; 4] = [0x49, 0x45, 0x4E, 0x44];
    assert(iend@ == iend_type());
    let mut pos: usize = 8;
    loop
        invariant_except_break
            spec_png_chunks(data@) == v@.map_values(|c: PngChunkRef| chunk_view(c)) + chunk_table(data@, pos as int),
        invariant
            len == data@.len(),
            8 <= pos,
            iend@ == iend_type(),
        ensures
            spec_png_chunks(data@) == v@.map_values(|c: PngChunkRef| chunk_view(c)),
        decreases len - pos,
    {
        if pos > len || len - pos < 12 {
            assert(v@.map_values(|c: PngChunkRef| chunk_view(c)) + chunk_table(data@, pos as int) =~= v@.map_values(
                |c: PngChunkRef| chunk_view(c),
            ));
            break;
        }
        let n = rd_be32(data, pos) as usize;
        if n > len - pos - 12 {
            assert(v@.map_values(|c: PngChunkRef| chunk_view(c)) + chunk_table(data@, pos as int) =~= v@.map_values(
                |c: PngChunkRef| chunk_view(c),
            ));
            break;
        }
        let typ: [u8; 4] = [data[pos + 4], data[pos + 5], data[pos + 6], data[pos + 7]];
        assert(typ@ =~= data@.subrange(pos + 4, pos + 8));
        let ghost before = v@.map_values(|c: PngChunkRef| chunk_view(c));
        let c = PngChunkRef { start: pos, len: n, typ };
        v.push(c);
        assert(v@.map_values(|c: PngChunkRef| chunk_view(c)) =~= before + seq![chunk_view(c)]);
        let is_iend = typ[0] == 0x49 && typ[1] == 0x45 && typ[2] == 0x4E && typ[3] == 0x44;
        assert(is_iend == (typ@ == iend_type()));
        pos = pos + 12 + n;
        if is_iend {
            assert(v@.map_values(|c: PngChunkRef| chunk_view(c)) =~= before + chunk_table(data@, (pos - 12 - n) as int));
            break;
        }
    }
    v
}

/// Channels per pixel of a PNG color type.
pub open spec fn spec_png_channels(ct: u8) -> u64 {
    if ct == 0 {
        1
    } else if ct == 2 {
        3
    } else if ct == 3 {
        1
    } else if ct == 4 {
        2
    } else if ct == 6 {
        4
    } else {
        3
    }
}

pub fn png_channels(ct: u8) -> (r: u64)
    ensures
        r == spec_png_channels(ct),
{
    if ct == 0 {
        1
    } else if ct == 2 {
        3
    } else if ct == 3 {
        1
    } else if ct == 4 {
        2
    } else if ct == 6 {
        4
    } else {
        3
    }
}

/// Bytes per scanline (without the filter byte), at least one.
pub open spec fn row_bytes(width: u32, bit_depth: u8, color_type: u8) -> int {
    let bits = width * spec_png_channels(color_type) * bit_depth;
    let r = (bits + 7) / 8;
    if r < 1 { 1 } else { r }
}

/// `n` copies of `s`.
pub open spec fn repeat(s: Seq<u8>, n: nat) -> Seq<u8>
    decreases n,
{
    if n == 0 {
        Seq::empty()
    } else {
        repeat(s, (n - 1) as nat) + s
    }
}

/// The raw scanlines of a solid dark-gray image.
pub open spec fn solid_rows(width: u32, height: u32, bit_depth: u8, color_type: u8) -> Seq<u8> {
    repeat(seq![0u8] + Seq::new(row_bytes(width, bit_depth, color_type) as nat, |k: int| 0x33u8), height as nat)
}

/// Build a decodable IDAT payload for a solid-color (dark gray) image of the
/// given geometry.
pub fn synth_idat(width: u32, height: u32, bit_depth: u8, color_type: u8) -> (r: Vec<u8>)
    ensures
        r@ == zlib_compress(solid_rows(width, height, bit_depth, color_type), 6),
{
    let ch = png_channels(color_type);
    assert(width * ch * bit_depth <= 0xFFFF_FFFF * 4 * 255) by (nonlinear_arith)
        requires
            width <= 0xFFFF_FFFF,
            ch <= 4,
            bit_depth <= 255,
    ;
    let bits: u64 = (width as u64) * ch * (bit_depth as u64);
    let r0 = (bits + 7) / 8;
    let row: u64 = if r0 < 1 {
        1
    } else {
        r0
    };
    let ghost line = seq![0u8] + Seq::new(row as nat, |k: int| 0x33u8);
    let mut raw: Vec<u8> = Vec::new();
    let mut y: u32 = 0;
    while y < height
        invariant
            y <= height,
            line == seq![0u8] + Seq::new(row as nat, |k: int| 0x33u8),
            raw@ == repeat(line, y as nat),
        decreases height - y,
    {
        let ghost before = raw@;
        raw.push(0);
        let mut x: u64 = 0;
        while x < row
            invariant
                x <= row,
                raw@ == before + seq![0u8] + Seq::new(x as nat, |k: int| 0x33u8),
            decreases row - x,
        {
            raw.push(0x33);
            x += 1;
            assert(raw@ =~= before + seq![0u8] + Seq::new(x as nat, |k: int| 0x33u8));
        }
        assert(raw@ =~= before + line);
        y += 1;
    }
    assert(line == seq![0u8] + Seq::new(row_bytes(width, bit_depth, color_type) as nat, |k: int| 0x33u8));
    deflate_zlib(raw.as_slice(), 6)
}

/// What the chunk table of a rebuilt PNG carries: the IHDR fields (of its
/// last IHDR), the concatenated IDAT data, and whether any IDAT was seen.
pub open spec fn salvage_scan(base: Seq<u8>, chunks: Seq<(int, int, Seq<u8>)>, j: int, acc: (Option<IhdrFields>, Seq<u8>, bool)) -> (Option<IhdrFields>, Seq<u8>, bool)
    decreases chunks.len() - j,
{
    if j < 0 || j >= chunks.len() {
        acc
    } else {
        let c = chunks[j];
        let next = if c.2 == ihdr_type() {
            (spec_try_extract_ihdr(base, c.0 + 4), acc.1, acc.2)
        } else if c.2 == idat_type() {
            (acc.0, acc.1 + base.subrange(c.0 + 8, c.0 + 8 + c.1), true)
        } else {
            acc
        };
        salvage_scan(base, chunks, j + 1, next)
    }
}

/// The ancillary chunks of the table from `j` on, each with a recomputed CRC.
pub open spec fn kept_chunks(base: Seq<u8>, chunks: Seq<(int, int, Seq<u8>)>, j: int) -> Seq<u8>
    decreases chunks.len() - j,
{
    if j < 0 || j >= chunks.len() {
        Seq::empty()
    } else {
        let c = chunks[j];
        let end = c.0 + 8 + c.1;
        if c.2 == ihdr_type() || c.2 == idat_type() || c.2 == iend_type() || end > base.len() {
            kept_chunks(base, chunks, j + 1)
        } else {
            base.subrange(c.0, end) + be32_bytes(spec_crc(base.subrange(c.0 + 4, end))) + kept_chunks(base, chunks, j + 1)
        }
    }
}

/// The decodable PNG made from a rebuilt one (see `salvage_png`).
pub open spec fn salvage_from_base(base: Seq<u8>) -> Seq<u8> {
    let chunks = spec_png_chunks(base);
    if chunks.len() == 0 {
        base
    } else {
        let sc = salvage_scan(base, chunks, 0, (None, Seq::empty(), false));
        let f: IhdrFields = match sc.0 {
            Some(f) => f,
            None => match zlib_decompress(sc.1) {
                Some(dd) => spec_estimate_ihdr(dd.len() as int),
                None => (1u32, 1u32, 8u8, 2u8),
            },
        };
        let ok = sc.2 && match zlib_decompress(sc.1) {
            Some(dd) => dd.len() >= f.1 * (row_bytes(f.0, f.2, f.3) + 1),
            None => false,
        };
        let g: IhdrFields = if ok {
            f
        } else {
            (if f.0 < 1 { 1u32 } else { f.0 }, if f.1 < 1 { 1u32 } else { f.1 }, f.2, if f.3 == 3 { 2u8 } else { f.3 })
        };
        let idat = if ok { sc.1 } else { zlib_compress(solid_rows(g.0, g.1, g.2, g.3), 6) };
        png_sig() + png_chunk(ihdr_type(), ihdr_body(g.0, g.1, g.2, g.3)) + kept_chunks(base, chunks, 0) + png_chunk(
            idat_type(),
            idat,
        ) + iend_chunk()
    }
}

/// The PNG that `salvage_png` produces (see there).
pub open spec fn spec_salvage_png(d: Seq<u8>, offset: Option<usize>) -> Option<Seq<u8>> {
    match spec_repair_png(d, offset) {
        None => None,
        Some(base) => Some(salvage_from_base(base)),
    }
}

/// Whether the four type bytes `t` spell `k`.
pub(crate) fn typ_is(t: [u8; 4], k: &[u8; 4]) -> (r: bool)
    ensures
        r == (t@ == k@),
{
    let r = t[0] == k[0] && t[1] == k[1] && t[2] == k[2] && t[3] == k[3];
    if r {
        assert(t@ =~= k@);
    }
    r
}

fn salvage_scan_exec(base: &Vec<u8>, chunks: &Vec<PngChunkRef>) -> (r: (Option<IhdrFields>, Vec<u8>, bool))
    requires
        chunks@.map_values(|c: PngChunkRef| chunk_view(c)) == spec_png_chunks(base@),
    ensures
        salvage_scan(base@, spec_png_chunks(base@), 0, (None, Seq::empty(), false)) == (r.0, r.1@, r.2),
{
    let ghost cv = chunks@.map_values(|c: PngChunkRef| chunk_view(c));
    proof {
        lemma_chunk_table_fits(base@, 8);
    }
    let ih: [u8; 4] = [0x49, 0x48, 0x44, 0x52];
    let id: [u8; 4] = [0x49, 0x44, 0x41, 0x54];
    assert(ih@ == ihdr_type());
    assert(id@ == idat_type());
    let mut ihdr: Option<IhdrFields> = None;
    let mut idat: Vec<u8> = Vec::new();
    let mut saw_idat = false;
    let blen = base.len();
    let mut j: usize = 0;
    while j < chunks.len()
        invariant
            j <= chunks@.len(),
            blen == base@.len(),
            ih@ == ihdr_type(),
            id@ == idat_type(),
            cv == chunks@.map_values(|c: PngChunkRef| chunk_view(c)),
            cv == spec_png_chunks(base@),
            forall|q: int| 0 <= q < cv.len() ==> (#[trigger] cv[q]).0 + 12 + cv[q].1 <= base@.len(),
            salvage_scan(base@, cv, 0, (None, Seq::empty(), false)) == salvage_scan(base@, cv, j as int, (ihdr, idat@, saw_idat)),
        decreases chunks@.len() - j,
    {
        let c = chunks[j];
        assert(cv[j as int] == chunk_view(c));
        if typ_is(c.typ, &ih) {
            ihdr = try_extract_ihdr(base.as_slice(), c.start + 4);
        } else if typ_is(c.typ, &id) {
            saw_idat = true;
            append_range(&mut idat, base.as_slice(), c.start + 8, c.start + 8 + c.len);
        }
        j += 1;
    }
    (ihdr, idat, saw_idat)
}

pub(crate) proof fn lemma_chunk_table_fits(d: Seq<u8>, pos: int)
    ensures
        forall|q: int| 0 <= q < chunk_table(d, pos).len() ==> 0 <= (#[trigger] chunk_table(d, pos)[q]).0 && chunk_table(d, pos)[q].0 + 12 + chunk_table(d, pos)[q].1 <= d.len() && chunk_table(d, pos)[q].1 >= 0,
    decreases d.len() - pos,
{
    if !(pos < 0 || pos + 12 > d.len() || pos + 12 + be32(d, pos) > d.len()) {
        let n = be32(d, pos);
        let typ = d.subrange(pos + 4, pos + 8);
        if typ != iend_type() {
            lemma_chunk_table_fits(d, pos + 12 + n);
        }
        let t = chunk_table(d, pos);
        assert(n >= 0);
        assert forall|q: int| 0 <= q < t.len() implies 0 <= (#[trigger] t[q]).0 && t[q].0 + 12 + t[q].1 <= d.len() && t[q].1 >= 0 by {
            if q > 0 {
                assert(t[q] == chunk_table(d, pos + 12 + n)[q - 1]);
            }
        }
    }
}

fn kept_chunks_exec(base: &Vec<u8>, chunks: &Vec<PngChunkRef>, out: &mut Vec<u8>)
    ensures
        final(out)@ == old(out)@ + kept_chunks(base@, chunks@.map_values(|c: PngChunkRef| chunk_view(c)), 0),
{
    let ghost cv = chunks@.map_values(|c: PngChunkRef| chunk_view(c));
    let ih: [u8; 4] = [0x49, 0x48, 0x44, 0x52];
    let id: [u8; 4] = [0x49, 0x44, 0x41, 0x54];
    let ie: [u8; 4] = [0x49, 0x45, 0x4E, 0x44];
    assert(ih@ == ihdr_type());
    assert(id@ == idat_type());
    assert(ie@ == iend_type());
    let mut k: usize = 0;
    while k < chunks.len()
        invariant
            k <= chunks@.len(),
            ih@ == ihdr_type(),
            id@ == idat_type(),
            ie@ == iend_type(),
            cv == chunks@.map_values(|c: PngChunkRef| chunk_view(c)),
            old(out)@ + kept_chunks(base@, cv, 0) == out@ + kept_chunks(base@, cv, k as int),
        decreases chunks@.len() - k,
    {
        let c = chunks[k];
        assert(cv[k as int] == chunk_view(c));
        let skip = typ_is(c.typ, &ih) || typ_is(c.typ, &id) || typ_is(c.typ, &ie);
        let fits = c.start <= base.len() && base.len() - c.start >= 8 && c.len <= base.len() - c.start - 8;
        if !skip && fits {
            let end = c.start + 8 + c.len;
            let ghost o = out@;
            append_range(out, base.as_slice(), c.start, end);
            let body = copy_range(base.as_slice(), c.start + 4, end);
            let crc = calc_crc(body.as_slice());
            push_be32(out, crc);
            assert(o + kept_chunks(base@, cv, k as int) =~= out@ + kept_chunks(base@, cv, k + 1));
        }
        k += 1;
    }
    assert(out@ + kept_chunks(base@, cv, k as int) =~= out@);
}

/// Whether `n` decoded bytes hold the scanlines (with filter bytes) of the
/// image the fields describe.
fn idat_sufficient(n: usize, f: IhdrFields) -> (r: bool)
    ensures
        r == (n >= f.1 * (row_bytes(f.0, f.2, f.3) + 1)),
{
    let ch = png_channels(f.3);
    assert(f.0 * ch * f.2 <= 0xFFFF_FFFF * 4 * 255) by (nonlinear_arith)
        requires
            f.0 <= 0xFFFF_FFFF,
            ch <= 4,
            f.2 <= 255,
    ;
    let bits: u128 = (f.0 as u128) * (ch as u128) * (f.2 as u128);
    let r0 = (bits + 7) / 8;
    let row: u128 = if r0 < 1 {
        1
    } else {
        r0
    };
    assert((f.1 as u128) * (row + 1) <= 0xFFFF_FFFF * 0x1_0000_0000_0000) by (nonlinear_arith)
        requires
            f.1 <= 0xFFFF_FFFF,
            row <= 0xFFFF_FFFF_FFFF,
    ;
    n as u128 >= (f.1 as u128) * (row + 1)
}

fn salvage_base(base: Vec<u8>) -> (r: Vec<u8>)
    ensures
        r@ == salvage_from_base(base@),
{
    let chunks = png_chunks(base.as_slice());
    if chunks.len() == 0 {
        return base;
    }
    let (ihdr, idat, saw_idat) = salvage_scan_exec(&base, &chunks);
    let dec = inflate_zlib(idat.as_slice());
    let f: IhdrFields = match ihdr {
        Some(f) => f,
        None => match &dec {
            Some(dd) => estimate_ihdr(dd.as_slice()),
            None => (1u32, 1u32, 8u8, 2u8),
        },
    };
    let ok = saw_idat && match &dec {
        Some(dd) => idat_sufficient(dd.len(), f),
        None => false,
    };
    let g: IhdrFields = if ok {
        f
    } else {
        (if f.0 < 1 { 1u32 } else { f.0 }, if f.1 < 1 { 1u32 } else { f.1 }, f.2, if f.3 == 3 { 2u8 } else { f.3 })
    };
    let mut out = png_sig_vec();
    let h = build_ihdr(g.0, g.1, g.2, g.3);
    append_all(&mut out, h.as_slice());
    kept_chunks_exec(&base, &chunks, &mut out);
    let idat_data = if ok {
        idat
    } else {
        synth_idat(g.0, g.1, g.2, g.3)
    };
    let it: [u8; 4] = [0x49, 0x44, 0x41, 0x54];
    assert(it@ == idat_type());
    push_chunk(&mut out, &it, idat_data.as_slice());
    let e = build_iend();
    append_all(&mut out, e.as_slice());
    out
}

/// Guarantee the PNG is decodable by any image viewer: rebuild it, recompute
/// the CRC of every kept chunk, keep the original IDAT data only when it
/// decodes to at least the scanlines the IHDR calls for, and otherwise
/// replace it with a synthesized solid-color image of the same size (a
/// palette image becomes truecolor then, so it needs no palette).
pub fn salvage_png(data: &[u8], offset: Option<usize>) -> (r: Option<Vec<u8>>)
    requires
        offset matches Some(o) ==> o <= data@.len(),
    ensures
        match r {
            Some(v) => spec_salvage_png(data@, offset) == Some(v@),
            None => spec_salvage_png(data@, offset) is None,
        },
{
    match repair_png(data, offset) {
        Some(b) => Some(salvage_base(b)),
        None => None,
    }
}


/// Closing a PNG keeps what it holds and leaves an IEND in it.
proof fn lemma_close_png(out: Seq<u8>)
    requires
        starts_with(out, png_sig()),
    ensures
        close_png(out).subrange(0, out.len() as int) == out,
        starts_with(close_png(out), png_sig()),
        spec_has_valid_iend(close_png(out)),
{
    let c = close_png(out);
    if !spec_has_valid_iend(out) {
        assert(c.subrange(0, out.len() as int) =~= out);
        let i: int = out.len() as int + 4;
        assert(c.subrange(i, i + 4) =~= iend_type());
        assert(matches_at(c, i, iend_type()));
    } else {
        assert(c.subrange(0, out.len() as int) =~= out);
    }
    assert(c.subrange(0, 8) =~= out.subrange(0, 8));
}

/// `sig + b` starts with the signature.
proof fn lemma_sig_prefix(b: Seq<u8>)
    ensures
        starts_with(png_sig() + b, png_sig()),
{
    assert((png_sig() + b).subrange(0, 8) =~= png_sig());
}

/// A repaired PNG starts with the PNG signature and holds an IEND chunk.
pub proof fn lemma_repair_png_shape(d: Seq<u8>, known_offset: Option<usize>)
    ensures
        spec_repair_png(d, known_offset) matches Some(o) ==> starts_with(o, png_sig()) && spec_has_valid_iend(o),
{
    let off = match known_offset {
        Some(o) => Some(o as int),
        None => spec_find_embedded_png(d),
    };
    match off {
        Some(o) => {
            let tail = d.subrange(o, d.len() as int);
            let has_sig = starts_with(tail, png_sig());
            let p = if has_sig { d.subrange(o + 8, d.len() as int) } else { tail };
            let ihdr = if o < 1000 { find_from(p, ihdr_type(), 0) } else { None };
            let body: Option<Seq<u8>> = match ihdr {
                Some(pos) => match kept_ihdr(p, pos) {
                    Some(h) => Some(h + if pos + 21 < p.len() { p.subrange(pos + 21, p.len() as int) } else { Seq::empty() }),
                    None => None,
                },
                None => if find_from(p, idat_type(), 0) is Some {
                    Some(guessed_ihdr(d, o) + spec_metadata_before(d, o) + if o < d.len() { tail } else { Seq::empty() })
                } else {
                    let cs = if has_sig { o + 8 } else { o };
                    Some(if cs < d.len() { d.subrange(cs, d.len() as int) } else { Seq::empty() })
                },
            };
            match body {
                Some(b) => {
                    lemma_sig_prefix(b);
                    lemma_close_png(png_sig() + b);
                },
                None => {},
            }
        },
        None => {
            let chunks = chunks_from(d, 0);
            if chunks.len() > 0 {
                match first_chunk_of(chunks, 0, 1000, 0) {
                    Some(p0) => {
                        let pos = p0 as int;
                        let head = match spec_try_extract_ihdr(d, pos) {
                            Some(f) => png_chunk(ihdr_type(), ihdr_body(f.0, f.1, f.2, f.3)),
                            None => {
                                let s = if pos >= 4 { pos - 4 } else { 0 };
                                let e = if pos + 21 < d.len() { pos + 21 } else { d.len() as int };
                                d.subrange(s, e)
                            },
                        };
                        let s = if pos >= 4 { pos - 4 } else { 0 };
                        let after = if pos + 21 > s + 25 { pos + 21 } else { s + 25 };
                        let b = head + if after < d.len() { d.subrange(after, d.len() as int) } else { Seq::empty() };
                        assert(png_sig() + head + (if after < d.len() { d.subrange(after, d.len() as int) } else { Seq::empty() })
                            =~= png_sig() + b);
                        lemma_sig_prefix(b);
                        lemma_close_png(png_sig() + b);
                    },
                    None => match first_chunk_of(chunks, 1, d.len() as int + 1, 0) {
                        Some(i0) => {
                            let ip = i0 as int;
                            let cs = if ip >= 4 { ip - 4 } else { 0 };
                            let b = guessed_ihdr(d, cs) + spec_metadata_before(d, cs) + d.subrange(cs, d.len() as int);
                            assert(png_sig() + guessed_ihdr(d, cs) + spec_metadata_before(d, cs) + d.subrange(cs, d.len() as int)
                                =~= png_sig() + b);
                            lemma_sig_prefix(b);
                            lemma_close_png(png_sig() + b);
                        },
                        None => {},
                    },
                }
            }
        },
    }
}

/// A salvaged PNG starts with the PNG signature and holds an IEND chunk.
pub proof fn lemma_salvage_png_shape(d: Seq<u8>, offset: Option<usize>)
    ensures
        spec_salvage_png(d, offset) matches Some(o) ==> starts_with(o, png_sig()) && spec_has_valid_iend(o),
{
    lemma_repair_png_shape(d, offset);
    match spec_repair_png(d, offset) {
        Some(base) => {
            let chunks = spec_png_chunks(base);
            if chunks.len() > 0 {
                let o = salvage_from_base(base);
                let rest = o.subrange(8, o.len() as int);
                assert(o.subrange(0, 8) =~= png_sig());
                let i: int = o.len() - 8;
                assert(o.subrange(i, i + 4) =~= iend_type());
                assert(matches_at(o, i, iend_type()));
            }
        },
        None => {},
    }
}

/// Reading back the four big-endian bytes of `x` gives `x`.
proof fn lemma_be32_bytes(x: u32)
    ensures
        be32(be32_bytes(x), 0) == x,
        be32_bytes(x).len() == 4,
{
    let v = x as int;
    let b = be32_bytes(x);
    vstd::arithmetic::div_mod::lemma_fundamental_div_mod(v, 256);
    vstd::arithmetic::div_mod::lemma_fundamental_div_mod(v / 256, 256);
    vstd::arithmetic::div_mod::lemma_fundamental_div_mod(v / 0x1_0000, 256);
    vstd::arithmetic::div_mod::lemma_div_denominator(v, 256, 256);
    vstd::arithmetic::div_mod::lemma_div_denominator(v, 0x1_0000, 256);
    assert(v / 0x100_0000 < 256) by (nonlinear_arith)
        requires
            0 <= v < 0x1_0000_0000,
    ;
    assert(0 <= v / 0x100_0000) by (nonlinear_arith)
        requires
            0 <= v,
    ;
    assert(b[0] as int == v / 0x100_0000);
    assert(b[1] as int == (v / 0x1_0000) % 256);
    assert(b[2] as int == (v / 256) % 256);
    assert(b[3] as int == v % 256);
}

/// A chunk built by `png_chunk` carries the CRC of its type and body: the
/// stored CRC of a rebuilt chunk always checks.
pub proof fn lemma_png_chunk_crc(typ: Seq<u8>, body: Seq<u8>)
    requires
        typ.len() == 4,
        body.len() < 0x1_0000_0000,
    ensures
        png_chunk(typ, body).len() == body.len() + 12,
        be32(png_chunk(typ, body), 0) == body.len(),
        png_chunk(typ, body).subrange(4, 8) == typ,
        be32(png_chunk(typ, body), body.len() + 8int) == spec_crc(png_chunk(typ, body).subrange(4, body.len() + 8int)),
{
    let c = png_chunk(typ, body);
    let n = body.len() as int;
    assert(c.subrange(4, n + 8) =~= typ + body);
    assert(c.subrange(4, 8) =~= typ);
    lemma_be32_bytes(n as u32);
    lemma_be32_bytes(spec_crc(typ + body));
    assert(c.subrange(0, 4) =~= be32_bytes(n as u32));
    assert(c.subrange(n + 8, n + 12) =~= be32_bytes(spec_crc(typ + body)));
    assert(be32(c, 0) == be32(be32_bytes(n as u32), 0));
    assert(be32(c, n + 8) == be32(be32_bytes(spec_crc(typ + body)), 0));
}

} // verus!
