//! BMP and RIFF (WAV/AVI) containers: their headers, where they start inside
//! carved data, and the rebuilding of truncated or over-long files.

use vstd::prelude::*;
use crate::bytes::{copy_range, le16, le32, rd_le16, rd_le32};

verus! {

/// `s` with the little-endian bytes of `v` written at `off`.
pub open spec fn set_le32(s: Seq<u8>, off: int, v: int) -> Seq<u8> {
    s.update(off, (v % 256) as u8).update(off + 1, ((v / 256) % 256) as u8).update(
        off + 2,
        ((v / 0x1_0000) % 256) as u8,
    ).update(off + 3, ((v / 0x100_0000) % 256) as u8)
}

/// Writing a 32-bit value and reading it back gives the value; the other
/// bytes are unchanged.
pub proof fn lemma_set_le32(s: Seq<u8>, off: int, v: int)
    requires
        0 <= off,
        off + 4 <= s.len(),
        0 <= v < 0x1_0000_0000,
    ensures
        set_le32(s, off, v).len() == s.len(),
        le32(set_le32(s, off, v), off) == v,
        forall|i: int| 0 <= i < s.len() && (i < off || i >= off + 4) ==> #[trigger] set_le32(s, off, v)[i] == s[i],
{
    let t = set_le32(s, off, v);
    assert(t[off] == (v % 256) as u8);
    assert(t[off + 1] == ((v / 256) % 256) as u8);
    assert(t[off + 2] == ((v / 0x1_0000) % 256) as u8);
    assert(t[off + 3] == ((v / 0x100_0000) % 256) as u8);
    vstd::arithmetic::div_mod::lemma_fundamental_div_mod(v, 256);
    vstd::arithmetic::div_mod::lemma_fundamental_div_mod(v / 256, 256);
    vstd::arithmetic::div_mod::lemma_fundamental_div_mod(v / 0x1_0000, 256);
    vstd::arithmetic::div_mod::lemma_div_denominator(v, 256, 256);
    vstd::arithmetic::div_mod::lemma_div_denominator(v, 0x1_0000, 256);
    assert(v / 0x100_0000 < 256) by (nonlinear_arith)
        requires
            0 <= v < 0x1_0000_0000,
    ;
    assert(0 <= v / 0x100_0000) by (nonlinear_arith)
        requires
            0 <= v,
    ;
    vstd::arithmetic::div_mod::lemma_small_mod((v / 0x100_0000) as nat, 256);
    assert(le32(t, off) == t[off] as int + 256 * t[off + 1] as int + 65536 * (t[off + 2] as int + 256 * t[off + 3] as int));
}

/// Write the little-endian bytes of `v` at `off`.
pub fn put_le32(out: &mut Vec<u8>, off: usize, v: u32)
    requires
        off + 4 <= old(out)@.len(),
    ensures
        final(out)@ == set_le32(old(out)@, off as int, v as int),
{
    let _len = out.len();
    out.set(off, (v % 256) as u8);
    out.set(off + 1, ((v / 256) % 256) as u8);
    out.set(off + 2, ((v / 0x1_0000) % 256) as u8);
    out.set(off + 3, ((v / 0x100_0000) % 256) as u8);
}

/// What the header of a BMP file declares.
#[derive(Debug, Clone, Copy, PartialEq, Eq, Structural)]
pub struct BmpInfo {
    pub has_header: bool,
    pub width: Option<u32>,
    pub height: Option<u32>,
    pub bpp: Option<u16>,
    pub data_offset: u64,
    pub declared_size: u64,
    pub pixel_end: Option<u64>,
    pub dib_size: u32,
}

pub open spec fn bmp_sig() -> Seq<u8> {
    seq![0x42u8, 0x4D]
}

/// The pixel geometry of a BMP's DIB header (`None` fields when the header
/// is too short or the size is implausible).
pub open spec fn bmp_geometry(d: Seq<u8>, dib: u32) -> (Option<u32>, Option<u32>, Option<u16>) {
    if dib >= 40 {
        if d.len() < 30 {
            (None, None, None)
        } else {
            let w = le32(d, 18);
            let h = le32(d, 22);
            let ok = 0 < w <= 100_000 && 0 < h <= 100_000;
            (
                if ok { Some(w as u32) } else { None },
                if ok { Some(h as u32) } else { None },
                Some(le16(d, 28) as u16),
            )
        }
    } else if dib >= 12 {
        if d.len() < 26 {
            (None, None, None)
        } else {
            let w = le16(d, 18);
            let h = le16(d, 20);
            let ok = 0 < w && 0 < h;
            (
                if ok { Some(w as u32) } else { None },
                if ok { Some(h as u32) } else { None },
                Some(le16(d, 24) as u16),
            )
        }
    } else {
        (None, None, None)
    }
}

/// Bytes of pixel data of a `w` x `h` image at `bpp` bits per pixel (rows
/// padded to four bytes).
pub open spec fn bmp_image_size(w: u32, h: u32, bpp: u16) -> int {
    (((w * bpp) + 31) / 32) * 4 * h
}

/// The header fields of the BMP at the start of `d`.
pub open spec fn spec_scan_bmp(d: Seq<u8>) -> BmpInfo {
    let none = BmpInfo {
        has_header: false,
        width: None,
        height: None,
        bpp: None,
        data_offset: 0,
        declared_size: 0,
        pixel_end: None,
        dib_size: 0,
    };
    if d.len() < 14 {
        none
    } else {
        let base = BmpInfo {
            has_header: crate::bytes::starts_with(d, bmp_sig()),
            declared_size: le32(d, 2) as u64,
            data_offset: le32(d, 10) as u64,
            ..none
        };
        if d.len() < 18 {
            base
        } else {
            let dib = le32(d, 14) as u32;
            let g = bmp_geometry(d, dib);
            let with_dims = BmpInfo { dib_size: dib, width: g.0, height: g.1, bpp: g.2, ..base };
            match (g.0, g.1, g.2) {
                (Some(w), Some(h), Some(bpp)) => {
                    let img = bmp_image_size(w, h, bpp);
                    if base.data_offset > 0 && img <= 0xFFFF_FFFF {
                        BmpInfo { pixel_end: Some((base.data_offset + img) as u64), ..with_dims }
                    } else {
                        with_dims
                    }
                },
                _ => with_dims,
            }
        }
    }
}

/// Read the header of the BMP at the start of `data`.
pub fn scan_bmp(data: &[u8]) -> (r: BmpInfo)
    ensures
        r == spec_scan_bmp(data@),
{
    let mut info = BmpInfo {
        has_header: false,
        width: None,
        height: None,
        bpp: None,
        data_offset: 0,
        declared_size: 0,
        pixel_end: None,
        dib_size: 0,
    };
    if data.len() < 14 {
        return info;
    }
    let sig: [u8; 2] = [0x42, 0x4D];
    assert(sig@ == bmp_sig());
    info.has_header = crate::bytes::has_prefix(data, &sig);
    info.declared_size = rd_le32(data, 2) as u64;
    info.data_offset = rd_le32(data, 10) as u64;
    if data.len() < 18 {
        return info;
    }
    info.dib_size = rd_le32(data, 14);
    let dib = info.dib_size;
    if dib >= 40 {
        if data.len() < 30 {
            return info;
        }
        let w = rd_le32(data, 18);
        let h = rd_le32(data, 22);
        info.bpp = Some(rd_le16(data, 28));
        if w > 0 && w <= 100_000 && h > 0 && h <= 100_000 {
            info.width = Some(w);
            info.height = Some(h);
        }
    } else if dib >= 12 {
        if data.len() < 26 {
            return info;
        }
        let w = rd_le16(data, 18) as u32;
        let h = rd_le16(data, 20) as u32;
        info.bpp = Some(rd_le16(data, 24));
        if w > 0 && w <= 100_000 && h > 0 && h <= 100_000 {
            info.width = Some(w);
            info.height = Some(h);
        }
    }
    match (info.width, info.height, info.bpp) {
        (Some(w), Some(h), Some(bpp)) => {
            assert(w * bpp <= 100_000 * 0xFFFF) by (nonlinear_arith)
                requires
                    w <= 100_000,
                    bpp <= 0xFFFF,
            ;
            let row: u64 = ((w as u64) * (bpp as u64) + 31) / 32 * 4;
            assert(row * h <= 0x1_0000_0000 * 100_000) by (nonlinear_arith)
                requires
                    row <= 0x1_0000_0000,
                    h <= 100_000,
            ;
            let img: u64 = row * (h as u64);
            if info.data_offset > 0 && img <= 0xFFFF_FFFF {
                info.pixel_end = Some(info.data_offset + img);
            }
        },
        _ => {},
    }
    info
}

/// First offset (up to `len - 18`) where a plausible BMP header starts: the
/// `BM` signature with a pixel offset inside the data and a DIB header size
/// between 12 and 256.
pub open spec fn find_bmp_from(d: Seq<u8>, i: int) -> Option<int>
    decreases d.len() - i,
{
    if i < 0 || i + 18 > d.len() {
        None
    } else if d[i] == 0x42 && d[i + 1] == 0x4D && 14 <= le32(d, i + 10) <= d.len() && 12 <= le32(d, i + 14) <= 256 {
        Some(i)
    } else {
        find_bmp_from(d, i + 1)
    }
}

/// Locate the start of an embedded BMP.
pub fn find_bmp_start(data: &[u8]) -> (r: Option<usize>)
    ensures
        match r {
            Some(i) => find_bmp_from(data@, 0) == Some(i as int) && i + 18 <= data@.len(),
            None => find_bmp_from(data@, 0) is None,
        },
{
    let len = data.len();
    let mut i: usize = 0;
    while i < len && len - i >= 18
        invariant
            len == data@.len(),
            find_bmp_from(data@, 0) == find_bmp_from(data@, i as int),
        decreases len - i,
    {
        if data[i] == 0x42 && data[i + 1] == 0x4D {
            let off = rd_le32(data, i + 10) as u64;
            let dib = rd_le32(data, i + 14);
            if 14 <= off && off <= len as u64 && 12 <= dib && dib <= 256 {
                return Some(i);
            }
        }
        i += 1;
    }
    None
}

/// Where a repaired BMP ends: at the end of its pixel data, else at its
/// declared size, when that lies between the pixel offset and the end of
/// the data.
pub open spec fn bmp_end(info: BmpInfo, len: int) -> Option<int> {
    match info.pixel_end {
        Some(e) if info.data_offset <= e <= len => Some(e as int),
        _ => if info.data_offset <= info.declared_size <= len {
            Some(info.declared_size as int)
        } else {
            None
        },
    }
}

/// The BMP that `repair_bmp` rebuilds from `d` (see there).
pub open spec fn spec_repair_bmp(d: Seq<u8>, start_hint: Option<usize>) -> Option<Seq<u8>> {
    let start: int = match start_hint {
        Some(s) => s as int,
        None => match find_bmp_from(d, 0) {
            Some(s) => s,
            None => 0,
        },
    };
    if start >= d.len() {
        None
    } else {
        let s = d.subrange(start, d.len() as int);
        if !crate::bytes::starts_with(s, bmp_sig()) || s.len() < 14 {
            None
        } else {
            let cut = match bmp_end(spec_scan_bmp(s), s.len() as int) {
                Some(e) => s.subrange(0, e),
                None => s,
            };
            Some(if cut.len() >= 6 { set_le32(cut, 2, (cut.len() % 0x1_0000_0000) as int) } else { cut })
        }
    }
}

/// Rebuild a valid BMP: trims trailing garbage past the end of the pixel data
/// and rewrites the file-size field at offset 2 to match the actual length.
pub fn repair_bmp(data: &[u8], start: Option<usize>) -> (r: Option<Vec<u8>>)
    ensures
        match r {
            Some(v) => spec_repair_bmp(data@, start) == Some(v@),
            None => spec_repair_bmp(data@, start) is None,
        },
{
    let start: usize = match start {
        Some(s) => s,
        None => match find_bmp_start(data) {
            Some(s) => s,
            None => 0,
        },
    };
    if start >= data.len() {
        return None;
    }
    let slice = copy_range(data, start, data.len());
    let sig: [u8; 2] = [0x42, 0x4D];
    assert(sig@ == bmp_sig());
    if !crate::bytes::has_prefix(slice.as_slice(), &sig) || slice.len() < 14 {
        return None;
    }
    let info = scan_bmp(slice.as_slice());
    let len = slice.len() as u64;
    let end: Option<u64> = match info.pixel_end {
        Some(e) if info.data_offset <= e && e <= len => Some(e),
        _ => if info.data_offset <= info.declared_size && info.declared_size <= len {
            Some(info.declared_size)
        } else {
            None
        },
    };
    let mut out = match end {
        Some(e) => copy_range(slice.as_slice(), 0, e as usize),
        None => slice,
    };
    if out.len() >= 6 {
        let sz = (out.len() as u64 % 0x1_0000_0000) as u32;
        put_le32(&mut out, 2, sz);
    }
    Some(out)
}

pub open spec fn riff_sig() -> Seq<u8> {
    seq![0x52u8, 0x49, 0x46, 0x46]
}

/// What the chunk walk of a RIFF container finds.
#[derive(Debug, Clone, PartialEq, Eq)]
pub struct RiffInfo {
    pub has_header: bool,
    /// The four bytes of the form type (`WAVE`, `AVI `, ...).
    pub form_type: Vec<u8>,
    pub declared_size: u64,
    pub last_chunk_end: Option<u64>,
    pub partial_chunk: Option<u64>,
    pub chunk_count: u64,
}

/// Mathematical value of a `RiffInfo`.
pub struct RiffInfoV {
    pub has_header: bool,
    pub form_type: Seq<u8>,
    pub declared_size: u64,
    pub last_chunk_end: Option<u64>,
    pub partial_chunk: Option<u64>,
    pub chunk_count: u64,
}

impl View for RiffInfo {
    type V = RiffInfoV;

    open spec fn view(&self) -> RiffInfoV {
        RiffInfoV {
            has_header: self.has_header,
            form_type: self.form_type@,
            declared_size: self.declared_size,
            last_chunk_end: self.last_chunk_end,
            partial_chunk: self.partial_chunk,
            chunk_count: self.chunk_count,
        }
    }
}

/// Most chunks the RIFF walk visits.
pub const RIFF_GUARD: u64 = 1_000_000;

/// The chunk walk from `pos` (after `guard` chunks): whole chunks (with
/// their pad byte) are counted until one runs past the data.
pub open spec fn riff_walk(d: Seq<u8>, pos: int, info: RiffInfoV, guard: int) -> RiffInfoV
    decreases d.len() - pos,
{
    if pos < 0 || pos + 8 > d.len() || guard >= RIFF_GUARD {
        info
    } else {
        let size = le32(d, pos + 4);
        let end = pos + 8 + size + size % 2;
        if end > d.len() {
            RiffInfoV { partial_chunk: Some(pos as u64), ..info }
        } else {
            riff_walk(
                d,
                end,
                RiffInfoV { last_chunk_end: Some(end as u64), chunk_count: (info.chunk_count + 1) as u64, ..info },
                guard + 1,
            )
        }
    }
}

/// The structure of the RIFF container at the start of `d`.
pub open spec fn spec_scan_riff(d: Seq<u8>) -> RiffInfoV {
    let none = RiffInfoV {
        has_header: false,
        form_type: Seq::empty(),
        declared_size: 0,
        last_chunk_end: None,
        partial_chunk: None,
        chunk_count: 0,
    };
    if d.len() < 12 {
        none
    } else {
        riff_walk(
            d,
            12,
            RiffInfoV {
                has_header: crate::bytes::starts_with(d, riff_sig()),
                declared_size: le32(d, 4) as u64,
                form_type: d.subrange(8, 12),
                ..none
            },
            0,
        )
    }
}

/// Walk the chunks of the RIFF container at the start of `data`.
pub fn scan_riff(data: &[u8]) -> (r: RiffInfo)
    ensures
        r@ == spec_scan_riff(data@),
{
    let mut info = RiffInfo {
        has_header: false,
        form_type: Vec::new(),
        declared_size: 0,
        last_chunk_end: None,
        partial_chunk: None,
        chunk_count: 0,
    };
    if data.len() < 12 {
        return info;
    }
    let sig: [u8; 4] = [0x52, 0x49, 0x46, 0x46];
    assert(sig@ == riff_sig());
    info.has_header = crate::bytes::has_prefix(data, &sig);
    info.declared_size = rd_le32(data, 4) as u64;
    info.form_type = copy_range(data, 8, 12);
    let len = data.len();
    let mut pos: usize = 12;
    let mut guard: u64 = 0;
    while len - pos >= 8 && guard < RIFF_GUARD
        invariant_except_break
            spec_scan_riff(data@) == riff_walk(data@, pos as int, info@, guard as int),
        invariant
            len == data@.len(),
            12 <= pos <= len,
            guard <= RIFF_GUARD,
            info.chunk_count <= guard,
        ensures
            spec_scan_riff(data@) == info@,
        decreases len - pos,
    {
        let size = rd_le32(data, pos + 4) as u64;
        let end: u128 = pos as u128 + 8 + size as u128 + (size % 2) as u128;
        if end > len as u128 {
            info.partial_chunk = Some(pos as u64);
            break;
        }
        info.last_chunk_end = Some(end as u64);
        info.chunk_count = info.chunk_count + 1;
        pos = end as usize;
        guard += 1;
    }
    info
}

/// Whether every byte of the form type is an uppercase ASCII letter or a
/// space.
pub open spec fn plausible_form(f: Seq<u8>) -> bool {
    forall|k: int| 0 <= k < f.len() ==> (0x41 <= #[trigger] f[k] <= 0x5A || f[k] == 0x20)
}

/// First offset where a plausible RIFF header starts: `RIFF`, a size of at
/// least 4 that fits the data, and a plausible form type.
pub open spec fn find_riff_from(d: Seq<u8>, i: int) -> Option<int>
    decreases d.len() - i,
{
    if i < 0 || i + 12 > d.len() {
        None
    } else if crate::bytes::matches_at(d, i, riff_sig()) && le32(d, i + 4) >= 4 && i + 8 + le32(d, i + 4) <= d.len()
        && plausible_form(d.subrange(i + 8, i + 12)) {
        Some(i)
    } else {
        find_riff_from(d, i + 1)
    }
}

/// Locate the start of an embedded RIFF container.
pub fn find_riff_start(data: &[u8]) -> (r: Option<usize>)
    ensures
        match r {
            Some(i) => find_riff_from(data@, 0) == Some(i as int) && i + 12 <= data@.len(),
            None => find_riff_from(data@, 0) is None,
        },
{
    let len = data.len();
    let sig: [u8; 4] = [0x52, 0x49, 0x46, 0x46];
    assert(sig@ == riff_sig());
    let mut i: usize = 0;
    while i < len && len - i >= 12
        invariant
            len == data@.len(),
            sig@ == riff_sig(),
            find_riff_from(data@, 0) == find_riff_from(data@, i as int),
        decreases len - i,
    {
        if crate::bytes::bytes_at(data, i, &sig) {
            let sz = rd_le32(data, i + 4) as u64;
            if sz >= 4 && (i as u128) + 8 + (sz as u128) <= len as u128 {
                let mut ok = true;
                let mut k: usize = 0;
                while k < 4
                    invariant
                        i + 12 <= len == data@.len(),
                        k <= 4,
                        ok == (forall|m: int| 0 <= m < k ==> (0x41 <= #[trigger] data@[i + 8 + m] <= 0x5A || data@[i + 8 + m] == 0x20)),
                    decreases 4 - k,
                {
                    let b = data[i + 8 + k];
                    if !((0x41 <= b && b <= 0x5A) || b == 0x20) {
                        ok = false;
                    }
                    k += 1;
                }
                assert(ok == plausible_form(data@.subrange(i + 8, i + 12))) by {
                    if ok {
                        assert forall|m: int| 0 <= m < 4 implies (0x41 <= #[trigger] data@.subrange(i + 8, i + 12)[m] <= 0x5A
                            || data@.subrange(i + 8, i + 12)[m] == 0x20) by {
                            assert(data@.subrange(i + 8, i + 12)[m] == data@[i + 8 + m]);
                        }
                    } else {
                        let m = choose|m: int| 0 <= m < 4 && !(0x41 <= #[trigger] data@[i + 8 + m] <= 0x5A || data@[i + 8 + m] == 0x20);
                        assert(data@.subrange(i + 8, i + 12)[m] == data@[i + 8 + m]);
                    }
                }
                if ok {
                    return Some(i);
                }
            }
        }
        i += 1;
    }
    None
}

/// The RIFF container that `repair_riff` rebuilds from `d` (see there).
pub open spec fn spec_repair_riff(d: Seq<u8>, start_hint: Option<usize>) -> Option<Seq<u8>> {
    let start: int = match start_hint {
        Some(s) => s as int,
        None => match find_riff_from(d, 0) {
            Some(s) => s,
            None => 0,
        },
    };
    if start >= d.len() {
        None
    } else {
        let s = d.subrange(start, d.len() as int);
        if !crate::bytes::starts_with(s, riff_sig()) || s.len() < 12 {
            None
        } else {
            let info = spec_scan_riff(s);
            let declared_end = if info.declared_size >= 4 { info.declared_size + 8 } else { 0 };
            let out_len = if 12 <= declared_end <= s.len() { declared_end } else { s.len() as int };
            let out0 = s.subrange(0, out_len);
            let out1 = set_le32(out0, 4, ((out0.len() - 8) % 0x1_0000_0000) as int);
            Some(
                match info.partial_chunk {
                    Some(p) => if p >= 12 && p + 8 <= out1.len() {
                        let avail = out1.len() - p - 8;
                        set_le32(out1, p as int, ((avail - avail % 2) % 0x1_0000_0000) as int)
                    } else {
                        out1
                    },
                    None => out1,
                },
            )
        }
    }
}

/// Rebuild a valid RIFF container. The RIFF size field at offset 4 is treated
/// as authoritative: trailing bytes past the declared end are dropped as
/// garbage. If the file is shorter than declared (truncated mid-chunk), the
/// partial trailing chunk is kept and its own size field is corrected so the
/// salvaged data remains readable.
pub fn repair_riff(data: &[u8], start: Option<usize>) -> (r: Option<Vec<u8>>)
    ensures
        match r {
            Some(v) => spec_repair_riff(data@, start) == Some(v@),
            None => spec_repair_riff(data@, start) is None,
        },
{
    let start: usize = match start {
        Some(s) => s,
        None => match find_riff_start(data) {
            Some(s) => s,
            None => 0,
        },
    };
    if start >= data.len() {
        return None;
    }
    let slice = copy_range(data, start, data.len());
    let sig: [u8; 4] = [0x52, 0x49, 0x46, 0x46];
    assert(sig@ == riff_sig());
    if !crate::bytes::has_prefix(slice.as_slice(), &sig) || slice.len() < 12 {
        return None;
    }
    let len = slice.len() as u64;
    let info = scan_riff(slice.as_slice());
    let declared_end: u128 = if info.declared_size >= 4 {
        info.declared_size as u128 + 8
    } else {
        0
    };
    let out_len: u64 = if declared_end >= 12 && declared_end <= len as u128 {
        declared_end as u64
    } else {
        len
    };
    let mut out = copy_range(slice.as_slice(), 0, out_len as usize);
    let sz = ((out.len() - 8) as u64 % 0x1_0000_0000) as u32;
    put_le32(&mut out, 4, sz);
    match info.partial_chunk {
        Some(p) => {
            if p >= 12 && p <= out.len() as u64 && out.len() as u64 - p >= 8 {
                let avail = out.len() as u64 - p - 8;
                let even = avail - avail % 2;
                put_le32(&mut out, p as usize, (even % 0x1_0000_0000) as u32);
            }
        },
        None => {},
    }
    Some(out)
}

/// The file extension for the RIFF container at `start`.
pub open spec fn spec_riff_extension(d: Seq<u8>, start: int) -> Seq<char> {
    if start + 12 <= d.len() && d.subrange(start + 8, start + 12) == seq![0x57u8, 0x41, 0x56, 0x45] {
        seq!['.', 'w', 'a', 'v']
    } else if start + 12 <= d.len() && d.subrange(start + 8, start + 12) == seq![0x41u8, 0x56, 0x49, 0x20] {
        seq!['.', 'a', 'v', 'i']
    } else {
        seq!['.', 'r', 'i', 'f', 'f']
    }
}

/// The file extension for the RIFF container at `start`: `.wav`, `.avi`, or
/// `.riff` for any other (or unreadable) form type.
pub fn riff_extension(data: &[u8], start: usize) -> (r: String)
    ensures
        r@ == spec_riff_extension(data@, start as int),
{
    let wave: [u8; 4] = [0x57, 0x41, 0x56, 0x45];
    let avi: [u8; 4] = [0x41, 0x56, 0x49, 0x20];
    assert(wave@ == seq![0x57u8, 0x41, 0x56, 0x45]);
    assert(avi@ == seq![0x41u8, 0x56, 0x49, 0x20]);
    let mut out = String::new();
    if start <= data.len() && data.len() - start >= 12 {
        if crate::bytes::bytes_at(data, start + 8, &wave) {
            crate::text::push_char(&mut out, '.');
            crate::text::push_char(&mut out, 'w');
            crate::text::push_char(&mut out, 'a');
            crate::text::push_char(&mut out, 'v');
            assert(out@ =~= seq!['.', 'w', 'a', 'v']);
            return out;
        }
        if crate::bytes::bytes_at(data, start + 8, &avi) {
            crate::text::push_char(&mut out, '.');
            crate::text::push_char(&mut out, 'a');
            crate::text::push_char(&mut out, 'v');
            crate::text::push_char(&mut out, 'i');
            assert(out@ =~= seq!['.', 'a', 'v', 'i']);
            return out;
        }
    }
    crate::text::push_char(&mut out, '.');
    crate::text::push_char(&mut out, 'r');
    crate::text::push_char(&mut out, 'i');
    crate::text::push_char(&mut out, 'f');
    crate::text::push_char(&mut out, 'f');
    assert(out@ =~= seq!['.', 'r', 'i', 'f', 'f']);
    out
}


/// A repaired BMP of at least six bytes declares its own length as its
/// file size.
pub proof fn lemma_repair_bmp_declares_its_size(d: Seq<u8>, hint: Option<usize>)
    ensures
        spec_repair_bmp(d, hint) matches Some(o) ==> (o.len() >= 6 ==> le32(o, 2) == o.len() % 0x1_0000_0000),
        spec_repair_bmp(d, hint) matches Some(o) ==> o.len() >= 2 ==> crate::bytes::starts_with(o, bmp_sig()),
{
    let start: int = match hint {
        Some(s) => s as int,
        None => match find_bmp_from(d, 0) {
            Some(s) => s,
            None => 0,
        },
    };
    if start < d.len() {
        let s = d.subrange(start, d.len() as int);
        if crate::bytes::starts_with(s, bmp_sig()) && s.len() >= 14 {
            let cut = match bmp_end(spec_scan_bmp(s), s.len() as int) {
                Some(e) => s.subrange(0, e),
                None => s,
            };
            if cut.len() >= 6 {
                lemma_set_le32(cut, 2, (cut.len() % 0x1_0000_0000) as int);
                let o = set_le32(cut, 2, (cut.len() % 0x1_0000_0000) as int);
                assert(o[0] == cut[0] && o[1] == cut[1]);
                assert(cut[0] == s[0] && cut[1] == s[1]);
                assert(s.subrange(0, 2)[0] == s[0]);
                assert(o.subrange(0, 2) =~= s.subrange(0, 2));
            } else if cut.len() >= 2 {
                assert(cut.subrange(0, 2) =~= s.subrange(0, 2));
            }
        }
    }
}

/// A repaired RIFF container starts with its signature and declares its
/// length less the eight header bytes as its size.
pub proof fn lemma_repair_riff_declares_its_size(d: Seq<u8>, hint: Option<usize>)
    ensures
        spec_repair_riff(d, hint) matches Some(o) ==> o.len() >= 12 && crate::bytes::starts_with(o, riff_sig()) && le32(o, 4)
            == (o.len() - 8) % 0x1_0000_0000,
{
    let start: int = match hint {
        Some(s) => s as int,
        None => match find_riff_from(d, 0) {
            Some(s) => s,
            None => 0,
        },
    };
    if start < d.len() {
        let s = d.subrange(start, d.len() as int);
        if crate::bytes::starts_with(s, riff_sig()) && s.len() >= 12 {
            let info = spec_scan_riff(s);
            let declared_end = if info.declared_size >= 4 { info.declared_size + 8 } else { 0 };
            let out_len = if 12 <= declared_end <= s.len() { declared_end } else { s.len() as int };
            let out0 = s.subrange(0, out_len);
            let v = ((out0.len() - 8) % 0x1_0000_0000) as int;
            lemma_set_le32(out0, 4, v);
            let out1 = set_le32(out0, 4, v);
            assert(out1.subrange(0, 4) =~= s.subrange(0, 4));
            match info.partial_chunk {
                Some(p) => if p >= 12 && p + 8 <= out1.len() {
                    let avail = out1.len() - p - 8;
                    let w = ((avail - avail % 2) % 0x1_0000_0000) as int;
                    lemma_set_le32(out1, p as int, w);
                    let out2 = set_le32(out1, p as int, w);
                    assert(out2[4] == out1[4] && out2[5] == out1[5] && out2[6] == out1[6] && out2[7] == out1[7]);
                    assert(out2.subrange(0, 4) =~= s.subrange(0, 4));
                },
                None => {},
            }
        }
    }
}

} // verus!
