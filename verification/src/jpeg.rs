//! JPEG structure: the marker stream walk, the entropy-coded scan data, the
//! state of the image payload, and the rebuilding of damaged files.

use vstd::prelude::*;
use crate::bytes::{be16, rd_be16};
use crate::formats::PayloadStatus;

verus! {

/// Markers that start a segment (SOFn, DHT, DAC, SOS, DQT, DNL, DRI, DHP,
/// EXP, APPn, COM).
pub open spec fn spec_segment_marker(code: u8) -> bool {
    (0xC0 <= code <= 0xCF) || code == 0xDA || code == 0xDB || code == 0xDC || code == 0xDD || code
        == 0xDE || code == 0xDF || (0xE0 <= code <= 0xEF) || code == 0xFE
}

/// Start-of-frame markers (SOF0..SOF15 without DHT, JPG and DAC).
pub open spec fn spec_sof_marker(code: u8) -> bool {
    0xC0 <= code <= 0xCF && code != 0xC4 && code != 0xC8 && code != 0xCC
}

/// Restart markers RST0..RST7.
pub open spec fn spec_rst_marker(code: u8) -> bool {
    0xD0 <= code <= 0xD7
}

pub fn is_jpeg_segment_marker(code: u8) -> (r: bool)
    ensures
        r == spec_segment_marker(code),
{
    (0xC0 <= code && code <= 0xCF) || code == 0xDA || code == 0xDB || code == 0xDC || code == 0xDD
        || code == 0xDE || code == 0xDF || (0xE0 <= code && code <= 0xEF) || code == 0xFE
}

pub fn is_jpeg_sof(code: u8) -> (r: bool)
    ensures
        r == spec_sof_marker(code),
{
    0xC0 <= code && code <= 0xCF && code != 0xC4 && code != 0xC8 && code != 0xCC
}

/// End of the entropy-coded data that starts at `i`: the first `FF xx` that
/// is a real marker, skipping stuffed bytes (`FF 00`), padding (`FF FF`) and
/// restart markers; the end of the data when there is none.
pub open spec fn spec_entropy_end(d: Seq<u8>, i: int) -> int
    decreases d.len() + 2 - i,
{
    if i < 0 || i >= d.len() {
        d.len() as int
    } else if d[i] != 0xFF {
        spec_entropy_end(d, i + 1)
    } else if i + 1 >= d.len() {
        d.len() as int
    } else {
        let nxt = d[i + 1];
        if nxt == 0x00 || nxt == 0xFF || spec_rst_marker(nxt) {
            spec_entropy_end(d, i + 2)
        } else {
            i
        }
    }
}

pub proof fn lemma_entropy_end_bounds(d: Seq<u8>, i: int)
    requires
        0 <= i,
    ensures
        i <= d.len() ==> i <= spec_entropy_end(d, i),
        spec_entropy_end(d, i) <= d.len(),
    decreases d.len() + 2 - i,
{
    if i < d.len() {
        if d[i] != 0xFF {
            lemma_entropy_end_bounds(d, i + 1);
        } else if i + 1 < d.len() {
            lemma_entropy_end_bounds(d, i + 2);
        }
    }
}

/// Scan entropy-coded data from `start` until a real marker or the end of
/// the data. Skips stuffed bytes (FF 00), padding (FF FF), and RST markers
/// (FF D0-D7).
pub fn find_entropy_end(data: &[u8], start: usize) -> (r: usize)
    ensures
        r == spec_entropy_end(data@, start as int),
{
    let len = data.len();
    let mut i = start;
    while i < len
        invariant
            len == data@.len(),
            start <= i,
            spec_entropy_end(data@, start as int) == spec_entropy_end(data@, i as int),
        decreases len - i,
    {
        if data[i] != 0xFF {
            i += 1;
            continue;
        }
        if i + 1 >= len {
            return len;
        }
        let nxt = data[i + 1];
        if nxt == 0x00 || nxt == 0xFF || (0xD0 <= nxt && nxt <= 0xD7) {
            if i + 2 > len {
                return len;
            }
            i += 2;
            continue;
        }
        return i;
    }
    len
}

/// First index from `j` on whose byte is not `FF` (the data's length when
/// there is none).
pub open spec fn skip_ff(d: Seq<u8>, j: int) -> int
    decreases d.len() - j,
{
    if 0 <= j < d.len() && d[j] == 0xFF {
        skip_ff(d, j + 1)
    } else {
        j
    }
}

pub(crate) fn skip_ff_exec(data: &[u8], j0: usize) -> (r: usize)
    requires
        j0 <= data@.len(),
    ensures
        r == skip_ff(data@, j0 as int),
        j0 <= r <= data@.len(),
{
    let mut j = j0;
    while j < data.len() && data[j] == 0xFF
        invariant
            j0 <= j <= data@.len(),
            skip_ff(data@, j0 as int) == skip_ff(data@, j as int),
        decreases data@.len() - j,
    {
        j += 1;
    }
    j
}

/// The entropy walk of the structure scan: like `spec_entropy_end`, but a
/// lone `FF` in the last byte counts as padding, so the walk may end one
/// byte past the data.
pub open spec fn entropy_walk(d: Seq<u8>, p: int) -> int
    decreases d.len() + 2 - p,
{
    if p < 0 || p >= d.len() {
        p
    } else if d[p] != 0xFF {
        entropy_walk(d, p + 1)
    } else {
        let nxt = if p + 1 < d.len() { d[p + 1] } else { 0xFFu8 };
        if nxt == 0x00 || nxt == 0xFF || spec_rst_marker(nxt) {
            entropy_walk(d, p + 2)
        } else {
            p
        }
    }
}

pub proof fn lemma_entropy_walk_bounds(d: Seq<u8>, p: int)
    requires
        0 <= p <= d.len(),
    ensures
        p <= entropy_walk(d, p) <= d.len() + 1,
    decreases d.len() + 2 - p,
{
    if p < d.len() {
        if d[p] != 0xFF {
            lemma_entropy_walk_bounds(d, p + 1);
        } else {
            let nxt = if p + 1 < d.len() { d[p + 1] } else { 0xFFu8 };
            if nxt == 0x00 || nxt == 0xFF || spec_rst_marker(nxt) {
                if p + 2 <= d.len() {
                    lemma_entropy_walk_bounds(d, p + 2);
                } else {
                    assert(entropy_walk(d, p + 2) == p + 2);
                }
            }
        }
    }
}

fn entropy_walk_exec(data: &[u8], p0: usize) -> (r: usize)
    requires
        p0 <= data@.len(),
        data@.len() < usize::MAX,
    ensures
        r == entropy_walk(data@, p0 as int),
{
    let len = data.len();
    let mut p = p0;
    while p < len
        invariant
            len == data@.len() < usize::MAX,
            p0 <= p <= len + 1,
            entropy_walk(data@, p0 as int) == entropy_walk(data@, p as int),
        ensures
            entropy_walk(data@, p0 as int) == p,
        decreases len + 1 - p,
    {
        if data[p] != 0xFF {
            p += 1;
            continue;
        }
        let nxt = if p + 1 < len {
            data[p + 1]
        } else {
            0xFF
        };
        if nxt == 0x00 || nxt == 0xFF || (0xD0 <= nxt && nxt <= 0xD7) {
            p += 2;
            continue;
        }
        break;
    }
    p
}

/// What the walk of a JPEG marker stream records.
#[derive(Debug, Clone, Copy, PartialEq, Eq, Structural)]
pub struct JpegInfo {
    pub image_end: Option<usize>,
    pub width: Option<u32>,
    pub height: Option<u32>,
    pub has_sos: bool,
    pub has_dqt: bool,
    pub has_dht: bool,
    pub terminated: bool,
    pub marker_count: usize,
    /// Number of bytes of entropy-coded scan data walked after SOS.
    pub entropy_bytes: usize,
    /// Set when a segment length or marker overran the buffer mid-scan,
    /// i.e. the payload marker stream is structurally broken.
    pub seg_overrun: bool,
}

pub open spec fn empty_info() -> JpegInfo {
    JpegInfo {
        image_end: None,
        width: None,
        height: None,
        has_sos: false,
        has_dqt: false,
        has_dht: false,
        terminated: false,
        marker_count: 0,
        entropy_bytes: 0,
        seg_overrun: false,
    }
}

/// Most marker steps the structure walk takes.
pub const WALK_GUARD: u64 = 1_000_000;

/// `info` after a segment with marker `code` whose length field is at `lp`:
/// a start-of-frame segment gives the image size, DQT and DHT are noted.
pub open spec fn note_segment(d: Seq<u8>, info: JpegInfo, code: u8, lp: int) -> JpegInfo {
    let info_sof = if spec_sof_marker(code) && lp + 2 <= d.len() && be16(d, lp) >= 8 && lp + be16(d, lp) <= d.len()
        && be16(d, lp + 5) > 0 && be16(d, lp + 3) > 0 {
        JpegInfo { width: Some(be16(d, lp + 5) as u32), height: Some(be16(d, lp + 3) as u32), ..info }
    } else {
        info
    };
    let info_dqt = if code == 0xDB { JpegInfo { has_dqt: true, ..info_sof } } else { info_sof };
    if code == 0xC4 { JpegInfo { has_dht: true, ..info_dqt } } else { info_dqt }
}

/// The walk of the marker stream of `d` from `pos` on (the image starts at
/// `start`), after `guard` steps with `info` recorded so far.
pub open spec fn scan_walk(d: Seq<u8>, start: int, pos: int, info: JpegInfo, guard: int) -> JpegInfo
    decreases d.len() + 2 - pos,
{
    let len = d.len() as int;
    if pos < 0 || !(pos < len && guard < WALK_GUARD) || d[pos] != 0xFF {
        info
    } else {
        let j = skip_ff(d, pos + 1);
        if j >= len || j <= pos {
            info
        } else {
            let code = d[j];
            let info1 = JpegInfo { marker_count: (info.marker_count + 1) as usize, ..info };
            if code == 0x00 {
                info1
            } else if code == 0xD8 {
                if pos > start {
                    info1
                } else {
                    scan_walk(d, start, j + 1, info1, guard + 1)
                }
            } else if code == 0xD9 {
                JpegInfo { terminated: true, image_end: Some((j + 1) as usize), ..info1 }
            } else if code == 0x01 || spec_rst_marker(code) {
                scan_walk(d, start, j + 1, info1, guard + 1)
            } else if code == 0xDA {
                let info2 = JpegInfo { has_sos: true, ..info1 };
                let p = j + 1;
                if p + 2 > len {
                    info2
                } else {
                    let seg = be16(d, p);
                    if seg < 2 || p + seg > len {
                        let info3 = JpegInfo { seg_overrun: true, ..info2 };
                        let p2 = spec_entropy_end(d, p + 2);
                        if p2 < len && p2 > pos {
                            scan_walk(d, start, p2, info3, guard + 1)
                        } else {
                            info3
                        }
                    } else {
                        let ent_start = p + seg;
                        let p2 = entropy_walk(d, ent_start);
                        let info3 = JpegInfo {
                            entropy_bytes: (info2.entropy_bytes + (if p2 > ent_start { p2 - ent_start } else { 0 })) as usize,
                            ..info2
                        };
                        if p2 > pos && p2 <= len + 1 {
                            scan_walk(d, start, p2, info3, guard + 1)
                        } else {
                            info3
                        }
                    }
                }
            } else {
                let info3 = note_segment(d, info1, code, j + 1);
                let p = j + 1;
                let info_overrun = JpegInfo { seg_overrun: info3.seg_overrun || info3.has_sos, ..info3 };
                if p + 2 > len {
                    info_overrun
                } else {
                    let seg = be16(d, p);
                    if seg < 2 || p + seg > len {
                        info_overrun
                    } else {
                        scan_walk(d, start, p + seg, info3, guard + 1)
                    }
                }
            }
        }
    }
}

/// The walk only moves forward: where it records the end of the image, that
/// end lies after the position it started from.
pub proof fn lemma_walk_end_after(d: Seq<u8>, start: int, pos: int, info: JpegInfo, guard: int)
    requires
        d.len() <= usize::MAX,
    ensures
        ({
            let r = scan_walk(d, start, pos, info, guard);
            r.image_end == info.image_end || (r.image_end matches Some(e) && e > pos)
        }),
    decreases d.len() + 2 - pos,
{
    let len = d.len() as int;
    if pos < 0 || !(pos < len && guard < WALK_GUARD) || d[pos] != 0xFF {
    } else {
        let j = skip_ff(d, pos + 1);
        if j >= len || j <= pos {
        } else {
            let code = d[j];
            let info1 = JpegInfo { marker_count: (info.marker_count + 1) as usize, ..info };
            if code == 0x00 {
            } else if code == 0xD8 {
                if pos <= start {
                    lemma_walk_end_after(d, start, j + 1, info1, guard + 1);
                }
            } else if code == 0xD9 {
            } else if code == 0x01 || spec_rst_marker(code) {
                lemma_walk_end_after(d, start, j + 1, info1, guard + 1);
            } else if code == 0xDA {
                let info2 = JpegInfo { has_sos: true, ..info1 };
                let p = j + 1;
                if p + 2 <= len {
                    let seg = be16(d, p);
                    if seg < 2 || p + seg > len {
                        let info3 = JpegInfo { seg_overrun: true, ..info2 };
                        let p2 = spec_entropy_end(d, p + 2);
                        if p2 < len && p2 > pos {
                            lemma_walk_end_after(d, start, p2, info3, guard + 1);
                        }
                    } else {
                        let ent_start = p + seg;
                        let p2 = entropy_walk(d, ent_start);
                        let info3 = JpegInfo {
                            entropy_bytes: (info2.entropy_bytes + (if p2 > ent_start { p2 - ent_start } else { 0 })) as usize,
                            ..info2
                        };
                        if p2 > pos && p2 <= len + 1 {
                            lemma_walk_end_after(d, start, p2, info3, guard + 1);
                        }
                    }
                }
            } else {
                let info3 = note_segment(d, info1, code, j + 1);
                let p = j + 1;
                if p + 2 <= len {
                    let seg = be16(d, p);
                    if !(seg < 2 || p + seg > len) {
                        lemma_walk_end_after(d, start, p + seg, info3, guard + 1);
                    }
                }
            }
        }
    }
}

/// Where a scan from `start` finds the end of the image, the end lies after
/// `start`.
pub proof fn lemma_scan_end_after(d: Seq<u8>, start: int)
    requires
        d.len() <= usize::MAX,
    ensures
        spec_scan_jpeg(d, start).image_end matches Some(e) ==> e > start,
{
    lemma_walk_end_after(d, start, start, empty_info(), 0);
}

/// The structure of the JPEG stream that starts at `start`.
pub open spec fn spec_scan_jpeg(d: Seq<u8>, start: int) -> JpegInfo {
    scan_walk(d, start, start, empty_info(), 0)
}

/// Walk the JPEG marker stream from `start`, recording structure without
/// rebuilding the file.
#[verifier::spinoff_prover]
#[verifier::rlimit(50)]
pub fn scan_jpeg(data: &[u8], start: usize) -> (r: JpegInfo)
    requires
        data@.len() < usize::MAX,
    ensures
        r == spec_scan_jpeg(data@, start as int),
{
    let len = data.len();
    let mut info = JpegInfo {
        image_end: None,
        width: None,
        height: None,
        has_sos: false,
        has_dqt: false,
        has_dht: false,
        terminated: false,
        marker_count: 0,
        entropy_bytes: 0,
        seg_overrun: false,
    };
    if start >= len {
        return info;
    }
    let mut pos = start;
    let mut guard: u64 = 0;
    while pos < len && guard < WALK_GUARD
        invariant_except_break
            spec_scan_jpeg(data@, start as int) == scan_walk(data@, start as int, pos as int, info, guard as int),
            info.marker_count <= guard,
        invariant
            len == data@.len() < usize::MAX,
            start <= pos <= len + 1,
            guard <= WALK_GUARD,
            info.entropy_bytes <= pos,
        ensures
            spec_scan_jpeg(data@, start as int) == info,
        decreases len + 2 - pos,
    {
        if data[pos] != 0xFF {
            break;
        }
        let j = skip_ff_exec(data, pos + 1);
        if j >= len {
            break;
        }
        let code = data[j];
        info.marker_count = info.marker_count + 1;
        if code == 0x00 {
            break;
        }
        if code == 0xD8 {
            if pos > start {
                break;
            }
            pos = j + 1;
            guard += 1;
            continue;
        }
        if code == 0xD9 {
            info.terminated = true;
            info.image_end = Some(j + 1);
            break;
        }
        if code == 0x01 || (0xD0 <= code && code <= 0xD7) {
            pos = j + 1;
            guard += 1;
            continue;
        }
        if code == 0xDA {
            info.has_sos = true;
            let p = j + 1;
            if len - p < 2 {
                break;
            }
            let seg = rd_be16(data, p) as usize;
            if seg < 2 || seg > len - p {
                info.seg_overrun = true;
                proof {
                    lemma_entropy_end_bounds(data@, (p + 2) as int);
                }
                let p2 = find_entropy_end(data, p + 2);
                if p2 < len {
                    pos = p2;
                    guard += 1;
                    continue;
                }
                break;
            }
            let ent_start = p + seg;
            proof {
                lemma_entropy_walk_bounds(data@, ent_start as int);
            }
            let p2 = entropy_walk_exec(data, ent_start);
            info.entropy_bytes = info.entropy_bytes + (p2 - ent_start);
            pos = p2;
            guard += 1;
            continue;
        }
        let ghost info1 = info;
        if is_jpeg_sof(code) {
            let lp = j + 1;
            if len - lp >= 2 {
                let seg = rd_be16(data, lp) as usize;
                if seg >= 8 && seg <= len - lp {
                    let h = rd_be16(data, lp + 3) as u32;
                    let w = rd_be16(data, lp + 5) as u32;
                    if w > 0 && h > 0 {
                        info.width = Some(w);
                        info.height = Some(h);
                    }
                }
            }
        }
        if code == 0xDB {
            info.has_dqt = true;
        }
        if code == 0xC4 {
            info.has_dht = true;
        }
        assert(info == note_segment(data@, info1, code, j + 1));
        let p = j + 1;
        if len - p < 2 {
            if info.has_sos {
                info.seg_overrun = true;
            }
            break;
        }
        let seg = rd_be16(data, p) as usize;
        if seg < 2 || seg > len - p {
            if info.has_sos {
                info.seg_overrun = true;
            }
            break;
        }
        pos = p + seg;
        guard += 1;
    }
    info
}

/// Classify the state of the JPEG image payload (the entropy-coded scan
/// data after SOS). Without scan data the image itself is gone, and a broken
/// marker stream in the payload region means the data cannot be trusted.
pub open spec fn spec_payload_of(info: JpegInfo) -> PayloadStatus {
    if info.seg_overrun {
        PayloadStatus::Corrupt
    } else if !info.has_sos || info.entropy_bytes < 2 {
        PayloadStatus::Missing
    } else {
        PayloadStatus::Sound
    }
}

pub fn jpeg_payload_status(info: &JpegInfo) -> (r: PayloadStatus)
    ensures
        r == spec_payload_of(*info),
{
    if info.seg_overrun {
        return PayloadStatus::Corrupt;
    }
    if !info.has_sos || info.entropy_bytes < 2 {
        return PayloadStatus::Missing;
    }
    PayloadStatus::Sound
}

/// First `FF DA` whose length field is at least 2, anywhere in the data.
pub open spec fn spec_find_sos(d: Seq<u8>, i: int) -> Option<int>
    decreases d.len() - i,
{
    if i < 0 || i + 3 >= d.len() {
        None
    } else if d[i] == 0xFF && d[i + 1] == 0xDA && be16(d, i + 2) >= 2 {
        Some(i)
    } else {
        spec_find_sos(d, i + 1)
    }
}

/// Locate a Start Of Scan marker (`FF DA`) anywhere in the buffer, tolerant of
/// a destroyed SOI/APP/DQT header that would stop the normal marker walk.
pub fn find_sos_tolerant(data: &[u8]) -> (r: Option<usize>)
    ensures
        match r {
            Some(i) => spec_find_sos(data@, 0) == Some(i as int),
            None => spec_find_sos(data@, 0) is None,
        },
{
    let mut i: usize = 0;
    while i < data.len() && data.len() - i > 3
        invariant
            spec_find_sos(data@, 0) == spec_find_sos(data@, i as int),
        decreases data@.len() - i,
    {
        if data[i] == 0xFF && data[i + 1] == 0xDA && rd_be16(data, i + 2) >= 2 {
            return Some(i);
        }
        i += 1;
    }
    None
}

/// The payload state of the JPEG at `start`: the marker walk decides; when
/// header damage cut the walk short before any scan (no SOS, no overrun, no
/// EOI), a walk from a tolerantly located SOS decides instead.
pub open spec fn spec_payload_from_scan(d: Seq<u8>, start: int) -> PayloadStatus {
    let info = spec_scan_jpeg(d, start);
    if !info.has_sos && !info.seg_overrun && !info.terminated {
        match spec_find_sos(d, 0) {
            Some(sos) => spec_payload_of(spec_scan_jpeg(d, sos)),
            None => spec_payload_of(info),
        }
    } else {
        spec_payload_of(info)
    }
}

/// Payload check that first walks from the located JPEG start; if the walk is
/// cut short by header damage before the SOS, retry from a tolerantly located
/// SOS marker so intact scan data still counts as a recoverable payload.
pub fn jpeg_payload_from_scan(data: &[u8], start: usize) -> (r: PayloadStatus)
    requires
        data@.len() < usize::MAX,
    ensures
        r == spec_payload_from_scan(data@, start as int),
{
    let info = scan_jpeg(data, start);
    let mut status = jpeg_payload_status(&info);
    if !info.has_sos && !info.seg_overrun && !info.terminated {
        match find_sos_tolerant(data) {
            Some(sos) => {
                let info2 = scan_jpeg(data, sos);
                status = jpeg_payload_status(&info2);
            },
            None => {},
        }
    }
    status
}

// Standard tables of ISO 10918-1 Annex K.

pub open spec fn std_luma_qt() -> Seq<u8> {
    seq![16u8, 11, 10, 16, 24, 40, 51, 61, 12, 12, 14, 19, 26, 58, 60, 55, 14, 13, 16, 24, 40, 57, 69, 56, 14, 17, 22, 29, 51, 87, 80, 62, 18, 22, 37, 56, 68, 109, 103, 77, 24, 35, 55, 64, 81, 104, 113, 92, 49, 64, 78, 87, 103, 121, 120, 101, 72, 92, 95, 98, 112, 100, 103, 99]
}

fn std_luma_qt_exec() -> (r: Vec<u8>)
    ensures
        r@ == std_luma_qt(),
{
    let a: [u8; 64] = [16, 11, 10, 16, 24, 40, 51, 61, 12, 12, 14, 19, 26, 58, 60, 55, 14, 13, 16, 24, 40, 57, 69, 56, 14, 17, 22, 29, 51, 87, 80, 62, 18, 22, 37, 56, 68, 109, 103, 77, 24, 35, 55, 64, 81, 104, 113, 92, 49, 64, 78, 87, 103, 121, 120, 101, 72, 92, 95, 98, 112, 100, 103, 99];
    assert(a@ == std_luma_qt());
    crate::bytes::copy_range(&a, 0, 64)
}

pub open spec fn std_chroma_qt() -> Seq<u8> {
    seq![17u8, 18, 24, 47, 99, 99, 99, 99, 18, 21, 26, 66, 99, 99, 99, 99, 24, 26, 56, 99, 99, 99, 99, 99, 47, 66, 99, 99, 99, 99, 99, 99, 99, 99, 99, 99, 99, 99, 99, 99, 99, 99, 99, 99, 99, 99, 99, 99, 99, 99, 99, 99, 99, 99, 99, 99, 99, 99, 99, 99, 99, 99, 99, 99]
}

fn std_chroma_qt_exec() -> (r: Vec<u8>)
    ensures
        r@ == std_chroma_qt(),
{
    let a: [u8; 64] = [17, 18, 24, 47, 99, 99, 99, 99, 18, 21, 26, 66, 99, 99, 99, 99, 24, 26, 56, 99, 99, 99, 99, 99, 47, 66, 99, 99, 99, 99, 99, 99, 99, 99, 99, 99, 99, 99, 99, 99, 99, 99, 99, 99, 99, 99, 99, 99, 99, 99, 99, 99, 99, 99, 99, 99, 99, 99, 99, 99, 99, 99, 99, 99];
    assert(a@ == std_chroma_qt());
    crate::bytes::copy_range(&a, 0, 64)
}

pub open spec fn std_dc_luma_bits() -> Seq<u8> {
    seq![0u8, 1, 5, 1, 1, 1, 1, 1, 1, 0, 0, 0, 0, 0, 0, 0]
}

fn std_dc_luma_bits_exec() -> (r: Vec<u8>)
    ensures
        r@ == std_dc_luma_bits(),
{
    let a: [u8; 16] = [0, 1, 5, 1, 1, 1, 1, 1, 1, 0, 0, 0, 0, 0, 0, 0];
    assert(a@ == std_dc_luma_bits());
    crate::bytes::copy_range(&a, 0, 16)
}

pub open spec fn std_dc_luma_vals() -> Seq<u8> {
    seq![0u8, 1, 2, 3, 4, 5, 6, 7, 8, 9, 10, 11]
}

fn std_dc_luma_vals_exec() -> (r: Vec<u8>)
    ensures
        r@ == std_dc_luma_vals(),
{
    let a: [u8; 12] = [0, 1, 2, 3, 4, 5, 6, 7, 8, 9, 10, 11];
    assert(a@ == std_dc_luma_vals());
    crate::bytes::copy_range(&a, 0, 12)
}

pub open spec fn std_ac_luma_bits() -> Seq<u8> {
    seq![0u8, 2, 1, 3, 3, 2, 4, 3, 5, 5, 4, 4, 0, 0, 1, 125]
}

fn std_ac_luma_bits_exec() -> (r: Vec<u8>)
    ensures
        r@ == std_ac_luma_bits(),
{
    let a: [u8; 16] = [0, 2, 1, 3, 3, 2, 4, 3, 5, 5, 4, 4, 0, 0, 1, 125];
    assert(a@ == std_ac_luma_bits());
    crate::bytes::copy_range(&a, 0, 16)
}

pub open spec fn std_ac_luma_vals() -> Seq<u8> {
    seq![1u8, 2, 3, 0, 4, 17, 5, 18, 33, 49, 65, 6, 19, 81, 97, 7, 34, 113, 20, 50, 129, 145, 161, 8, 35, 66, 177, 193, 21, 82, 209, 240, 36, 51, 98, 114, 130, 9, 10, 22, 23, 24, 25, 26, 37, 38, 39, 40, 41, 42, 52, 53, 54, 55, 56, 57, 58, 67, 68, 69, 70, 71, 72, 73, 74, 83, 84, 85, 86, 87, 88, 89, 90, 99, 100, 101, 102, 103, 104, 105, 106, 115, 116, 117, 118, 119, 120, 121, 122, 131, 132, 133, 134, 135, 136, 137, 138, 146, 147, 148, 149, 150, 151, 152, 153, 154, 162, 163, 164, 165, 166, 167, 168, 169, 170, 178, 179, 180, 181, 182, 183, 184, 185, 186, 194, 195, 196, 197, 198, 199, 200, 201, 202, 210, 211, 212, 213, 214, 215, 216, 217, 218, 225, 226, 227, 228, 229, 230, 231, 232, 233, 234, 241, 242, 243, 244, 245, 246, 247, 248, 249, 250]
}

fn std_ac_luma_vals_exec() -> (r: Vec<u8>)
    ensures
        r@ == std_ac_luma_vals(),
{
    let a: [u8; 162] = [1, 2, 3, 0, 4, 17, 5, 18, 33, 49, 65, 6, 19, 81, 97, 7, 34, 113, 20, 50, 129, 145, 161, 8, 35, 66, 177, 193, 21, 82, 209, 240, 36, 51, 98, 114, 130, 9, 10, 22, 23, 24, 25, 26, 37, 38, 39, 40, 41, 42, 52, 53, 54, 55, 56, 57, 58, 67, 68, 69, 70, 71, 72, 73, 74, 83, 84, 85, 86, 87, 88, 89, 90, 99, 100, 101, 102, 103, 104, 105, 106, 115, 116, 117, 118, 119, 120, 121, 122, 131, 132, 133, 134, 135, 136, 137, 138, 146, 147, 148, 149, 150, 151, 152, 153, 154, 162, 163, 164, 165, 166, 167, 168, 169, 170, 178, 179, 180, 181, 182, 183, 184, 185, 186, 194, 195, 196, 197, 198, 199, 200, 201, 202, 210, 211, 212, 213, 214, 215, 216, 217, 218, 225, 226, 227, 228, 229, 230, 231, 232, 233, 234, 241, 242, 243, 244, 245, 246, 247, 248, 249, 250];
    assert(a@ == std_ac_luma_vals());
    crate::bytes::copy_range(&a, 0, 162)
}

pub open spec fn std_dc_chroma_bits() -> Seq<u8> {
    seq![0u8, 3, 1, 1, 1, 1, 1, 1, 1, 1, 1, 0, 0, 0, 0, 0]
}

fn std_dc_chroma_bits_exec() -> (r: Vec<u8>)
    ensures
        r@ == std_dc_chroma_bits(),
{
    let a: [u8; 16] = [0, 3, 1, 1, 1, 1, 1, 1, 1, 1, 1, 0, 0, 0, 0, 0];
    assert(a@ == std_dc_chroma_bits());
    crate::bytes::copy_range(&a, 0, 16)
}

pub open spec fn std_dc_chroma_vals() -> Seq<u8> {
    seq![0u8, 1, 2, 3, 4, 5, 6, 7, 8, 9, 10, 11]
}

fn std_dc_chroma_vals_exec() -> (r: Vec<u8>)
    ensures
        r@ == std_dc_chroma_vals(),
{
    let a: [u8; 12] = [0, 1, 2, 3, 4, 5, 6, 7, 8, 9, 10, 11];
    assert(a@ == std_dc_chroma_vals());
    crate::bytes::copy_range(&a, 0, 12)
}

pub open spec fn std_ac_chroma_bits() -> Seq<u8> {
    seq![0u8, 2, 1, 2, 4, 4, 3, 4, 7, 5, 4, 4, 0, 1, 2, 119]
}

fn std_ac_chroma_bits_exec() -> (r: Vec<u8>)
    ensures
        r@ == std_ac_chroma_bits(),
{
    let a: [u8; 16] = [0, 2, 1, 2, 4, 4, 3, 4, 7, 5, 4, 4, 0, 1, 2, 119];
    assert(a@ == std_ac_chroma_bits());
    crate::bytes::copy_range(&a, 0, 16)
}

pub open spec fn std_ac_chroma_vals() -> Seq<u8> {
    seq![0u8, 1, 2, 3, 17, 4, 5, 33, 49, 6, 18, 65, 81, 7, 97, 113, 19, 34, 50, 129, 8, 20, 66, 145, 161, 177, 193, 9, 35, 51, 82, 240, 21, 98, 114, 209, 10, 22, 36, 52, 225, 37, 241, 23, 24, 25, 26, 38, 39, 40, 41, 42, 53, 54, 55, 56, 57, 58, 67, 68, 69, 70, 71, 72, 73, 74, 83, 84, 85, 86, 87, 88, 89, 90, 99, 100, 101, 102, 103, 104, 105, 106, 115, 116, 117, 118, 119, 120, 121, 122, 130, 131, 132, 133, 134, 135, 136, 137, 138, 146, 147, 148, 149, 150, 151, 152, 153, 154, 162, 163, 164, 165, 166, 167, 168, 169, 170, 178, 179, 180, 181, 182, 183, 184, 185, 186, 194, 195, 196, 197, 198, 199, 200, 201, 202, 210, 211, 212, 213, 214, 215, 216, 217, 218, 226, 227, 228, 229, 230, 231, 232, 233, 234, 242, 243, 244, 245, 246, 247, 248, 249, 250]
}

fn std_ac_chroma_vals_exec() -> (r: Vec<u8>)
    ensures
        r@ == std_ac_chroma_vals(),
{
    let a: [u8; 162] = [0, 1, 2, 3, 17, 4, 5, 33, 49, 6, 18, 65, 81, 7, 97, 113, 19, 34, 50, 129, 8, 20, 66, 145, 161, 177, 193, 9, 35, 51, 82, 240, 21, 98, 114, 209, 10, 22, 36, 52, 225, 37, 241, 23, 24, 25, 26, 38, 39, 40, 41, 42, 53, 54, 55, 56, 57, 58, 67, 68, 69, 70, 71, 72, 73, 74, 83, 84, 85, 86, 87, 88, 89, 90, 99, 100, 101, 102, 103, 104, 105, 106, 115, 116, 117, 118, 119, 120, 121, 122, 130, 131, 132, 133, 134, 135, 136, 137, 138, 146, 147, 148, 149, 150, 151, 152, 153, 154, 162, 163, 164, 165, 166, 167, 168, 169, 170, 178, 179, 180, 181, 182, 183, 184, 185, 186, 194, 195, 196, 197, 198, 199, 200, 201, 202, 210, 211, 212, 213, 214, 215, 216, 217, 218, 226, 227, 228, 229, 230, 231, 232, 233, 234, 242, 243, 244, 245, 246, 247, 248, 249, 250];
    assert(a@ == std_ac_chroma_vals());
    crate::bytes::copy_range(&a, 0, 162)
}

/// A DQT segment (FF DB) with the standard luma and chroma quantization
/// tables.
pub open spec fn spec_standard_dqt() -> Seq<u8> {
    seq![0xFFu8, 0xDB, 0x00, 0x84, 0x00] + std_luma_qt() + seq![0x01u8] + std_chroma_qt()
}

/// Build a DQT segment (FF DB) with standard luma + chroma quantization tables.
pub fn build_standard_dqt() -> (r: Vec<u8>)
    ensures
        r@ == spec_standard_dqt(),
{
    let mut dqt: Vec<u8> = Vec::new();
    dqt.push(0xFF);
    dqt.push(0xDB);
    dqt.push(0x00);
    dqt.push(0x84);
    dqt.push(0x00);
    let l = std_luma_qt_exec();
    crate::bytes::append_all(&mut dqt, l.as_slice());
    dqt.push(0x01);
    let c = std_chroma_qt_exec();
    crate::bytes::append_all(&mut dqt, c.as_slice());
    assert(dqt@ =~= spec_standard_dqt());
    dqt
}

/// A DHT segment (FF C4) with the four standard Huffman tables.
pub open spec fn spec_standard_dht() -> Seq<u8> {
    seq![0xFFu8, 0xC4, 0x01, 0xA2] + seq![0x00u8] + std_dc_luma_bits() + std_dc_luma_vals() + seq![0x10u8]
        + std_ac_luma_bits() + std_ac_luma_vals() + seq![0x01u8] + std_dc_chroma_bits()
        + std_dc_chroma_vals() + seq![0x11u8] + std_ac_chroma_bits() + std_ac_chroma_vals()
}

fn push_dht_table(out: &mut Vec<u8>, class_id: u8, bits: &Vec<u8>, vals: &Vec<u8>)
    ensures
        final(out)@ == old(out)@ + seq![class_id] + bits@ + vals@,
{
    out.push(class_id);
    crate::bytes::append_all(out, bits.as_slice());
    crate::bytes::append_all(out, vals.as_slice());
    assert(out@ =~= old(out)@ + seq![class_id] + bits@ + vals@);
}

/// Build a DHT segment (FF C4) with all four standard Huffman tables.
pub fn build_standard_dht() -> (r: Vec<u8>)
    ensures
        r@ == spec_standard_dht(),
{
    let mut dht: Vec<u8> = Vec::new();
    dht.push(0xFF);
    dht.push(0xC4);
    dht.push(0x01);
    dht.push(0xA2);
    push_dht_table(&mut dht, 0x00, &std_dc_luma_bits_exec(), &std_dc_luma_vals_exec());
    push_dht_table(&mut dht, 0x10, &std_ac_luma_bits_exec(), &std_ac_luma_vals_exec());
    push_dht_table(&mut dht, 0x01, &std_dc_chroma_bits_exec(), &std_dc_chroma_vals_exec());
    push_dht_table(&mut dht, 0x11, &std_ac_chroma_bits_exec(), &std_ac_chroma_vals_exec());
    assert(dht@ =~= spec_standard_dht());
    dht
}

/// Big-endian bytes of a `u32`.
pub open spec fn be32_bytes(x: u32) -> Seq<u8> {
    seq![(x / 0x100_0000) as u8, ((x / 0x1_0000) % 256) as u8, ((x / 256) % 256) as u8, (x % 256) as u8]
}

fn push_be32(out: &mut Vec<u8>, x: u32)
    ensures
        final(out)@ == old(out)@ + be32_bytes(x),
{
    out.push((x / 0x100_0000) as u8);
    out.push(((x / 0x1_0000) % 256) as u8);
    out.push(((x / 256) % 256) as u8);
    out.push((x % 256) as u8);
    assert(out@ =~= old(out)@ + be32_bytes(x));
}

/// Component entries `i..n` of a built SOF0: id, sampling (2x2 for the
/// first of several components, else 1x1) and quantization table.
pub open spec fn sof_components(n: u8, i: int) -> Seq<u8>
    decreases n - i,
{
    if i < 0 || i >= n {
        Seq::empty()
    } else {
        seq![(i + 1) as u8, if n != 1 && i == 0 { 0x22u8 } else { 0x11u8 }, if i == 0 { 0u8 } else { 1u8 }]
            + sof_components(n, i + 1)
    }
}

/// A baseline SOF0 segment: its length field counts `8 + 3n` bytes, and
/// height and width follow as four big-endian bytes each.
pub open spec fn spec_sof0(width: u32, height: u32, n: u8) -> Seq<u8> {
    let payload = 8 + 3 * n;
    seq![0xFFu8, 0xC0, (payload / 256) as u8, (payload % 256) as u8, 8u8] + be32_bytes(height)
        + be32_bytes(width) + seq![n] + sof_components(n, 0)
}

/// Build a baseline SOF0 segment for the given geometry and component count.
pub fn build_sof0(width: u32, height: u32, ncomp: u8) -> (r: Vec<u8>)
    ensures
        r@ == spec_sof0(width, height, ncomp),
{
    let payload: u16 = 8 + 3 * (ncomp as u16);
    let mut sof: Vec<u8> = Vec::new();
    sof.push(0xFF);
    sof.push(0xC0);
    sof.push((payload / 256) as u8);
    sof.push((payload % 256) as u8);
    sof.push(8);
    push_be32(&mut sof, height);
    push_be32(&mut sof, width);
    sof.push(ncomp);
    let ghost head = sof@;
    let mut i: u8 = 0;
    while i < ncomp
        invariant
            i <= ncomp,
            head + sof_components(ncomp, 0) == sof@ + sof_components(ncomp, i as int),
        decreases ncomp - i,
    {
        let ghost before = sof@;
        sof.push(i + 1);
        sof.push(if ncomp != 1 && i == 0 { 0x22 } else { 0x11 });
        sof.push(if i == 0 { 0x00 } else { 0x01 });
        assert(before + sof_components(ncomp, i as int) =~= sof@ + sof_components(ncomp, i + 1));
        i += 1;
    }
    assert(sof@ + sof_components(ncomp, ncomp as int) =~= sof@);
    assert(sof@ =~= spec_sof0(width, height, ncomp));
    sof
}

/// Component entries `i..n` of a built SOS header: id and table selector.
pub open spec fn sos_components(n: u8, i: int) -> Seq<u8>
    decreases n - i,
{
    if i < 0 || i >= n {
        Seq::empty()
    } else {
        seq![(i + 1) as u8, if i == 0 { 0x00u8 } else { 0x11u8 }] + sos_components(n, i + 1)
    }
}

/// A baseline SOS header (FF DA) for `n` components.
pub open spec fn spec_sos_header(n: u8) -> Seq<u8> {
    let payload = 6 + 2 * n;
    seq![0xFFu8, 0xDA, (payload / 256) as u8, (payload % 256) as u8, n] + sos_components(n, 0) + seq![
        0x00u8,
        0x3F,
        0x00,
    ]
}

/// Build a baseline SOS header (FF DA) for the given component count.
pub fn build_sos_header(ncomp: u8) -> (r: Vec<u8>)
    ensures
        r@ == spec_sos_header(ncomp),
{
    let payload: u16 = 6 + 2 * (ncomp as u16);
    let mut sos: Vec<u8> = Vec::new();
    sos.push(0xFF);
    sos.push(0xDA);
    sos.push((payload / 256) as u8);
    sos.push((payload % 256) as u8);
    sos.push(ncomp);
    let ghost head = sos@;
    let mut i: u8 = 0;
    while i < ncomp
        invariant
            i <= ncomp,
            head + sos_components(ncomp, 0) == sos@ + sos_components(ncomp, i as int),
        decreases ncomp - i,
    {
        let ghost before = sos@;
        sos.push(i + 1);
        sos.push(if i == 0 { 0x00 } else { 0x11 });
        assert(before + sos_components(ncomp, i as int) =~= sos@ + sos_components(ncomp, i + 1));
        i += 1;
    }
    assert(sos@ + sos_components(ncomp, ncomp as int) =~= sos@);
    sos.push(0x00);
    sos.push(0x3F);
    sos.push(0x00);
    assert(sos@ =~= spec_sos_header(ncomp));
    sos
}

/// First `FF D8 FF` (from `i` on, before the last two bytes).
pub open spec fn find_soi_from(d: Seq<u8>, i: int) -> Option<int>
    decreases d.len() - i,
{
    if i < 0 || i + 2 >= d.len() {
        None
    } else if d[i] == 0xFF && d[i + 1] == 0xD8 && d[i + 2] == 0xFF {
        Some(i)
    } else {
        find_soi_from(d, i + 1)
    }
}

/// First `FF` followed by a segment marker (from `i` on).
pub open spec fn find_segment_from(d: Seq<u8>, i: int) -> Option<int>
    decreases d.len() - i,
{
    if i < 0 || i + 1 >= d.len() {
        None
    } else if d[i] == 0xFF && spec_segment_marker(d[i + 1]) {
        Some(i)
    } else {
        find_segment_from(d, i + 1)
    }
}

/// Where the JPEG data begins: the first explicit SOI (`FF D8 FF`), else
/// the first plausible segment marker (for images whose SOI was destroyed).
pub open spec fn spec_find_jpeg_start(d: Seq<u8>) -> Option<int> {
    if d.len() < 4 {
        None
    } else {
        match find_soi_from(d, 0) {
            Some(i) => Some(i),
            None => find_segment_from(d, 0),
        }
    }
}

/// Locate where the real JPEG data begins.
pub fn find_jpeg_start(data: &[u8]) -> (r: Option<usize>)
    ensures
        match r {
            Some(i) => spec_find_jpeg_start(data@) == Some(i as int),
            None => spec_find_jpeg_start(data@) is None,
        },
{
    let len = data.len();
    if len < 4 {
        return None;
    }
    let mut i: usize = 0;
    while i < len && len - i > 2
        invariant
            len == data@.len() >= 4,
            find_soi_from(data@, 0) == find_soi_from(data@, i as int),
        decreases len - i,
    {
        if data[i] == 0xFF && data[i + 1] == 0xD8 && data[i + 2] == 0xFF {
            return Some(i);
        }
        i += 1;
    }
    let mut k: usize = 0;
    while k < len && len - k > 1
        invariant
            len == data@.len() >= 4,
            find_soi_from(data@, 0) is None,
            find_segment_from(data@, 0) == find_segment_from(data@, k as int),
        decreases len - k,
    {
        if data[k] == 0xFF && is_jpeg_segment_marker(data[k + 1]) {
            return Some(k);
        }
        k += 1;
    }
    None
}

/// First `FF` from `p` on that is followed by a segment marker or EOI.
pub open spec fn spec_next_marker(d: Seq<u8>, p: int) -> Option<int>
    decreases d.len() - p,
{
    if p < 0 || p + 1 >= d.len() {
        None
    } else if d[p] == 0xFF && d[p + 1] != 0x00 && (spec_segment_marker(d[p + 1]) || d[p + 1] == 0xD9) {
        Some(p)
    } else {
        spec_next_marker(d, p + 1)
    }
}

/// When a segment's declared length is corrupt, scan forward to find the next
/// valid JPEG marker. Returns the byte offset of its FF byte, or None.
pub fn skip_to_next_marker(data: &[u8], pos: usize) -> (r: Option<usize>)
    ensures
        match r {
            Some(p) => spec_next_marker(data@, pos as int) == Some(p as int) && pos <= p && p + 1 < data@.len(),
            None => spec_next_marker(data@, pos as int) is None,
        },
{
    let len = data.len();
    let mut p = pos;
    while p < len && len - p > 1
        invariant
            len == data@.len(),
            pos <= p,
            spec_next_marker(data@, pos as int) == spec_next_marker(data@, p as int),
        decreases len - p,
    {
        if data[p] == 0xFF {
            let code = data[p + 1];
            if code != 0x00 && (is_jpeg_segment_marker(code) || code == 0xD9) {
                return Some(p);
            }
        }
        p += 1;
    }
    None
}

/// Unsigned 16-bit TIFF value at `off` in the byte order `le` selects.
pub open spec fn tiff_u16(le: bool, t: Seq<u8>, off: int) -> int {
    if le {
        crate::bytes::le16(t, off)
    } else {
        be16(t, off)
    }
}

/// Unsigned 32-bit TIFF value at `off` in the byte order `le` selects.
pub open spec fn tiff_u32(le: bool, t: Seq<u8>, off: int) -> int {
    if le {
        crate::bytes::le32(t, off)
    } else {
        crate::bytes::be32(t, off)
    }
}

fn tiff_u16_exec(le: bool, t: &[u8], off: usize) -> (r: u32)
    requires
        off + 2 <= t@.len(),
    ensures
        r == tiff_u16(le, t@, off as int),
{
    if le {
        crate::bytes::rd_le16(t, off) as u32
    } else {
        rd_be16(t, off) as u32
    }
}

fn tiff_u32_exec(le: bool, t: &[u8], off: usize) -> (r: u32)
    requires
        off + 4 <= t@.len(),
    ensures
        r == tiff_u32(le, t@, off as int),
{
    if le {
        crate::bytes::rd_le32(t, off)
    } else {
        crate::bytes::rd_be32(t, off)
    }
}

/// The value of one TIFF IFD entry of type `typ` and count `cnt` whose value
/// field is at `vf`: inline BYTE/SHORT/LONG values, or SHORT/LONG/RATIONAL
/// (numerator) values stored at the offset the field holds.
pub open spec fn spec_ifd_value(le: bool, t: Seq<u8>, typ: int, cnt: int, vf: int) -> Option<u32> {
    if vf + 4 > t.len() || !(typ == 1 || typ == 3 || typ == 4 || typ == 9 || typ == 5 || typ == 10) {
        None
    } else {
        let inline = if typ == 1 {
            cnt <= 4
        } else if typ == 3 {
            cnt <= 2
        } else if typ == 4 || typ == 9 {
            cnt <= 1
        } else {
            cnt <= 0
        };
        if inline {
            if typ == 1 {
                Some(t[vf] as u32)
            } else if typ == 3 {
                Some(tiff_u16(le, t, vf) as u32)
            } else if typ == 4 {
                Some(tiff_u32(le, t, vf) as u32)
            } else {
                None
            }
        } else {
            let off = tiff_u32(le, t, vf);
            if off + 4 > t.len() {
                None
            } else if typ == 3 {
                Some(tiff_u16(le, t, off) as u32)
            } else if typ == 4 || typ == 5 {
                Some(tiff_u32(le, t, off) as u32)
            } else {
                None
            }
        }
    }
}

/// Read one TIFF IFD entry value (see `spec_ifd_value`).
pub fn tiff_ifd_value(le: bool, t: &[u8], typ: u16, cnt: u64, vf: usize) -> (r: Option<u32>)
    ensures
        r == spec_ifd_value(le, t@, typ as int, cnt as int, vf as int),
{
    if vf > t.len() || t.len() - vf < 4 {
        return None;
    }
    if !(typ == 1 || typ == 3 || typ == 4 || typ == 9 || typ == 5 || typ == 10) {
        return None;
    }
    let inline = if typ == 1 {
        cnt <= 4
    } else if typ == 3 {
        cnt <= 2
    } else if typ == 4 || typ == 9 {
        cnt <= 1
    } else {
        cnt <= 0
    };
    if inline {
        if typ == 1 {
            Some(t[vf] as u32)
        } else if typ == 3 {
            Some(tiff_u16_exec(le, t, vf))
        } else if typ == 4 {
            Some(tiff_u32_exec(le, t, vf))
        } else {
            None
        }
    } else {
        let off = tiff_u32_exec(le, t, vf) as u64;
        if off + 4 > t.len() as u64 {
            None
        } else if typ == 3 {
            Some(tiff_u16_exec(le, t, off as usize))
        } else if typ == 4 || typ == 5 {
            Some(tiff_u32_exec(le, t, off as usize))
        } else {
            None
        }
    }
}

/// Pixel dimensions gathered while reading IFD entries, and the offset of
/// the Exif sub-IFD when IFD0 points at one.
#[derive(Debug, Clone, Copy, PartialEq, Eq, Structural)]
pub struct IfdDims {
    pub width: Option<u32>,
    pub height: Option<u32>,
    pub exif_ifd: Option<u64>,
}

/// Entries `e..count` of the IFD at `base` read on top of `acc`: the
/// PixelXDimension (0xA002) and PixelYDimension (0xA003) tags, and (in IFD0,
/// `main`) the Exif sub-IFD pointer (0x8769). Reading stops at the first
/// entry that runs past the data.
pub open spec fn ifd_scan(le: bool, t: Seq<u8>, base: int, count: int, e: int, acc: IfdDims, main: bool) -> IfdDims
    decreases count - e,
{
    if e < 0 || e >= count || base + 2 + 12 * e + 12 > t.len() {
        acc
    } else {
        let off = base + 2 + 12 * e;
        let tag = tiff_u16(le, t, off);
        let typ = tiff_u16(le, t, off + 2);
        let cnt = tiff_u32(le, t, off + 4);
        let acc2 = if main && tag == 0x8769 && typ == 4 && cnt == 1 {
            IfdDims { exif_ifd: Some(tiff_u32(le, t, off + 8) as u64), ..acc }
        } else if tag == 0xA002 {
            IfdDims { width: spec_ifd_value(le, t, typ, cnt, off + 8), ..acc }
        } else if tag == 0xA003 {
            IfdDims { height: spec_ifd_value(le, t, typ, cnt, off + 8), ..acc }
        } else {
            acc
        };
        ifd_scan(le, t, base, count, e + 1, acc2, main)
    }
}

fn ifd_scan_exec(le: bool, t: &[u8], base: u64, acc0: IfdDims, main: bool) -> (r: IfdDims)
    requires
        base + 2 <= t@.len(),
    ensures
        r == ifd_scan(le, t@, base as int, tiff_u16(le, t@, base as int), 0, acc0, main),
{
    let tl = t.len();
    let b = base as usize;
    assert(b == base);
    let count = tiff_u16_exec(le, t, b) as u64;
    let rem: u64 = t.len() as u64 - (base + 2);
    let mut acc = acc0;
    let mut e: u64 = 0;
    while e < count
        invariant_except_break
            ifd_scan(le, t@, base as int, count as int, 0, acc0, main) == ifd_scan(le, t@, base as int, count as int, e as int, acc, main),
        invariant
            count == tiff_u16(le, t@, base as int),
            count <= 0xFFFF,
            base + 2 <= t@.len(),
            t@.len() == tl,
            rem == t@.len() - (base + 2),
            e <= count,
        ensures
            ifd_scan(le, t@, base as int, count as int, 0, acc0, main) == acc,
        decreases count - e,
    {
        if 12 * e + 12 > rem {
            break;
        }
        let off = base + 2 + 12 * e;
        let o = off as usize;
        let tag = tiff_u16_exec(le, t, o);
        let typ = tiff_u16_exec(le, t, o + 2);
        let cnt = tiff_u32_exec(le, t, o + 4) as u64;
        if main && tag == 0x8769 && typ == 4 && cnt == 1 {
            acc.exif_ifd = Some(tiff_u32_exec(le, t, o + 8) as u64);
        } else if tag == 0xA002 {
            acc.width = tiff_ifd_value(le, t, typ as u16, cnt, o + 8);
        } else if tag == 0xA003 {
            acc.height = tiff_ifd_value(le, t, typ as u16, cnt, o + 8);
        }
        e += 1;
    }
    acc
}

/// The pixel size a TIFF/EXIF body records (IFD0, then the Exif sub-IFD
/// when IFD0 lacks one of the two tags).
pub open spec fn spec_tiff_dimensions(t: Seq<u8>) -> Option<(u32, u32)> {
    if t.len() < 8 || !((t[0] == 0x49 && t[1] == 0x49) || (t[0] == 0x4D && t[1] == 0x4D)) {
        None
    } else {
        let le = t[0] == 0x49;
        let ifd0 = tiff_u32(le, t, 4);
        if tiff_u16(le, t, 2) != 42 || ifd0 + 2 > t.len() {
            None
        } else {
            let none = IfdDims { width: None, height: None, exif_ifd: None };
            let a = ifd_scan(le, t, ifd0, tiff_u16(le, t, ifd0), 0, none, true);
            let b = if a.width is None || a.height is None {
                match a.exif_ifd {
                    Some(ifd) => if ifd + 2 <= t.len() {
                        ifd_scan(le, t, ifd as int, tiff_u16(le, t, ifd as int), 0, a, false)
                    } else {
                        a
                    },
                    None => a,
                }
            } else {
                a
            };
            match (b.width, b.height) {
                (Some(w), Some(h)) => Some((w, h)),
                _ => None,
            }
        }
    }
}

/// Pull the pixel width/height out of a TIFF/EXIF body (everything after the
/// leading "Exif\0\0").
pub fn tiff_dimensions(t: &[u8]) -> (r: Option<(u32, u32)>)
    ensures
        r == spec_tiff_dimensions(t@),
{
    if t.len() < 8 {
        return None;
    }
    let le = if t[0] == 0x49 && t[1] == 0x49 {
        true
    } else if t[0] == 0x4D && t[1] == 0x4D {
        false
    } else {
        return None;
    };
    if tiff_u16_exec(le, t, 2) != 42 {
        return None;
    }
    let ifd0 = tiff_u32_exec(le, t, 4) as u64;
    if ifd0 + 2 > t.len() as u64 {
        return None;
    }
    let none = IfdDims { width: None, height: None, exif_ifd: None };
    let a = ifd_scan_exec(le, t, ifd0, none, true);
    let b = if a.width.is_none() || a.height.is_none() {
        match a.exif_ifd {
            Some(ifd) => if ifd <= t.len() as u64 && t.len() as u64 - ifd >= 2 {
                ifd_scan_exec(le, t, ifd, a, false)
            } else {
                a
            },
            None => a,
        }
    } else {
        a
    };
    match (b.width, b.height) {
        (Some(w), Some(h)) => Some((w, h)),
        _ => None,
    }
}

/// The EXIF pixel size found by walking the marker stream from `pos`: the
/// first APP1 segment holding an `Exif\0\0` body with both dimensions. The
/// walk gives up at anything that is not a well-formed segment (a marker
/// whose length field would run past the data included).
pub open spec fn exif_walk(d: Seq<u8>, pos: int) -> Option<(u32, u32)>
    decreases d.len() - pos,
{
    let len = d.len() as int;
    if pos < 0 || pos + 4 > len || d[pos] != 0xFF {
        None
    } else {
        let j = skip_ff(d, pos + 1);
        if j >= len || j <= pos {
            None
        } else {
            let code = d[j];
            if code == 0xD8 || code == 0x01 || spec_rst_marker(code) {
                exif_walk(d, j + 1)
            } else if j + 3 > len {
                None
            } else {
                let seg = be16(d, j + 1);
                if seg < 2 || j + 1 + seg > len {
                    None
                } else {
                    let payload = d.subrange(j + 3, j + 1 + seg);
                    let found = if code == 0xE1 && crate::bytes::starts_with(payload, seq![0x45u8, 0x78, 0x69, 0x66, 0x00, 0x00]) {
                        spec_tiff_dimensions(payload.subrange(6, payload.len() as int))
                    } else {
                        None
                    };
                    match found {
                        Some(dims) => Some(dims),
                        None => exif_walk(d, j + 1 + seg),
                    }
                }
            }
        }
    }
}

/// Recover the pixel dimensions of a damaged photo from its EXIF APP1
/// segment.
pub fn exif_dimensions(data: &[u8]) -> (r: Option<(u32, u32)>)
    ensures
        r == exif_walk(data@, 0),
{
    let len = data.len();
    let mut pos: usize = 0;
    let exif: [u8; 6] = [0x45, 0x78, 0x69, 0x66, 0x00, 0x00];
    assert(exif@ == seq![0x45u8, 0x78, 0x69, 0x66, 0x00, 0x00]);
    while pos < len && len - pos >= 4
        invariant
            len == data@.len(),
            exif@ == seq![0x45u8, 0x78, 0x69, 0x66, 0x00, 0x00],
            exif_walk(data@, 0) == exif_walk(data@, pos as int),
        decreases len - pos,
    {
        if data[pos] != 0xFF {
            return None;
        }
        let j = skip_ff_exec(data, pos + 1);
        if j >= len {
            return None;
        }
        let code = data[j];
        if code == 0xD8 || code == 0x01 || (0xD0 <= code && code <= 0xD7) {
            pos = j + 1;
            continue;
        }
        if len - j < 3 {
            return None;
        }
        let seg = rd_be16(data, j + 1) as usize;
        if seg < 2 || seg > len - j - 1 {
            return None;
        }
        if code == 0xE1 {
            let payload = crate::bytes::copy_range(data, j + 3, j + 1 + seg);
            if crate::bytes::has_prefix(payload.as_slice(), &exif) {
                let body = crate::bytes::copy_range(payload.as_slice(), 6, payload.len());
                match tiff_dimensions(body.as_slice()) {
                    Some(d) => return Some(d),
                    None => {},
                }
            }
        }
        pos = j + 1 + seg;
    }
    None
}

/// The state of the rebuilding walk over a damaged JPEG.
pub struct RebuildState {
    /// Bytes emitted so far.
    pub out: Seq<u8>,
    pub saw_sos: bool,
    pub saw_dqt: bool,
    pub saw_sof: bool,
    pub saw_dht: bool,
    /// Width, height and component count of the first usable SOF.
    pub sof_dims: Option<(u32, u32, u8)>,
    /// Where the first SOS marker went in the output.
    pub sos_at: Option<int>,
}

/// `st` with `bytes` emitted.
pub open spec fn emit(st: RebuildState, bytes: Seq<u8>) -> RebuildState {
    RebuildState { out: st.out + bytes, ..st }
}

/// `st` after a well-formed segment with marker `code` whose length field is
/// at `p` (`seg` bytes): DQT and DHT are noted, a usable SOF gives the
/// geometry.
pub open spec fn rebuild_note(d: Seq<u8>, st: RebuildState, code: u8, p: int, seg: int) -> RebuildState {
    let st2 = RebuildState {
        saw_dqt: st.saw_dqt || code == 0xDB,
        saw_dht: st.saw_dht || code == 0xC4,
        ..st
    };
    if spec_sof_marker(code) && seg >= 9 {
        let nc = d[p + 7];
        let h = be16(d, p + 3);
        let w = be16(d, p + 5);
        if 1 <= nc <= 4 && seg >= 8 + 3 * nc && 0 < w <= 65536 && 0 < h <= 65536 {
            RebuildState { saw_sof: true, sof_dims: Some((w as u32, h as u32, nc)), ..st2 }
        } else {
            st2
        }
    } else {
        st2
    }
}

/// The rebuilding walk of the marker stream of `d` from `pos` on (the image
/// starts at `start`): every well-formed segment is copied, scans are copied
/// up to the end of their entropy-coded data, a segment with a broken length
/// is skipped up to the next plausible marker, and an SOS with a broken
/// header is replaced by one built from the SOF geometry.
pub open spec fn rebuild_walk(d: Seq<u8>, start: int, pos: int, st: RebuildState, guard: int) -> RebuildState
    decreases d.len() + 2 - pos,
{
    let len = d.len() as int;
    if pos < 0 || !(pos < len && guard < WALK_GUARD) || d[pos] != 0xFF {
        st
    } else {
        let j = skip_ff(d, pos + 1);
        if j >= len || j <= pos {
            st
        } else {
            let code = d[j];
            let mk = d.subrange(pos, j + 1);
            if code == 0x00 {
                st
            } else if code == 0xD8 {
                if pos > start {
                    st
                } else {
                    rebuild_walk(d, start, j + 1, emit(st, mk), guard + 1)
                }
            } else if code == 0xD9 {
                emit(st, mk)
            } else if code == 0x01 || spec_rst_marker(code) {
                rebuild_walk(d, start, j + 1, emit(st, mk), guard + 1)
            } else if code == 0xDA {
                let st1 = RebuildState {
                    sos_at: if st.sos_at is None { Some(st.out.len() as int) } else { st.sos_at },
                    out: st.out + mk,
                    ..st
                };
                let p = j + 1;
                if p + 2 <= len && be16(d, p) >= 2 && p + be16(d, p) <= len {
                    let q = p + be16(d, p);
                    let e = spec_entropy_end(d, q);
                    let st2 = RebuildState { out: st1.out + d.subrange(p, q) + d.subrange(q, e), saw_sos: true, ..st1 };
                    if e < len && e > pos {
                        rebuild_walk(d, start, e, st2, guard + 1)
                    } else {
                        st2
                    }
                } else {
                    match st1.sof_dims {
                        Some(dims) => {
                            let hdr = spec_sos_header(dims.2);
                            let es = if p + 2 < len { p + 2 } else { len };
                            let e = spec_entropy_end(d, es);
                            RebuildState {
                                out: st1.out + hdr.subrange(2, hdr.len() as int) + d.subrange(es, e),
                                saw_sos: true,
                                ..st1
                            }
                        },
                        None => st1,
                    }
                }
            } else {
                let st1 = emit(st, mk);
                let p = j + 1;
                if p + 2 > len || be16(d, p) < 2 || p + be16(d, p) > len {
                    match spec_next_marker(d, p) {
                        Some(np) => if pos < np < len {
                            rebuild_walk(d, start, np, st1, guard + 1)
                        } else {
                            st1
                        },
                        None => st1,
                    }
                } else {
                    let seg = be16(d, p);
                    let st3 = rebuild_note(d, st1, code, p, seg);
                    rebuild_walk(d, start, p + seg, emit(st3, d.subrange(p, p + seg)), guard + 1)
                }
            }
        }
    }
}

pub open spec fn jpeg_soi() -> Seq<u8> {
    seq![0xFFu8, 0xD8]
}

pub open spec fn jpeg_eoi() -> Seq<u8> {
    seq![0xFFu8, 0xD9]
}

/// The rebuilt JPEG (see `repair_jpeg`).
pub open spec fn spec_repair_jpeg(d: Seq<u8>, start_hint: Option<usize>) -> Option<Seq<u8>> {
    let len = d.len() as int;
    let start: int = match start_hint {
        Some(s) => s as int,
        None => match spec_find_jpeg_start(d) {
            Some(s) => s,
            None => 0,
        },
    };
    if start >= len {
        None
    } else {
        let init = if crate::bytes::starts_with(d.subrange(start, len), jpeg_soi()) { Seq::empty() } else { jpeg_soi() };
        let st = rebuild_walk(
            d,
            start,
            start,
            RebuildState {
                out: init,
                saw_sos: false,
                saw_dqt: false,
                saw_sof: false,
                saw_dht: false,
                sof_dims: None,
                sos_at: None,
            },
            0,
        );
        finish_spec(d, st)
    }
}

/// Insert the standard tables a walk did not meet (before the first scan,
/// with the SOF or EXIF geometry) and close the image with an EOI; `None`
/// when the walk met no scan.
pub open spec fn finish_spec(d: Seq<u8>, st: RebuildState) -> Option<Seq<u8>> {
    if !st.saw_sos {
        None
    } else {
        let out2 = if !st.saw_dqt || !st.saw_dht || !st.saw_sof {
            let dims: Option<(u32, u32, u8)> = match st.sof_dims {
                Some(x) => Some(x),
                None => match exif_walk(d, 0) {
                    Some(wh) => Some((wh.0, wh.1, 3u8)),
                    None => None,
                },
            };
            match dims {
                Some(x) => {
                    let at = match st.sos_at {
                        Some(a) => a,
                        None => st.out.len() as int,
                    };
                    st.out.subrange(0, at) + (if !st.saw_dqt { spec_standard_dqt() } else { Seq::empty() }) + (
                    if !st.saw_sof { spec_sof0(x.0, x.1, x.2) } else { Seq::empty() }) + (if !st.saw_dht {
                        spec_standard_dht()
                    } else {
                        Seq::empty()
                    }) + st.out.subrange(at, st.out.len() as int)
                },
                None => st.out,
            }
        } else {
            st.out
        };
        Some(if crate::bytes::ends_with(out2, jpeg_eoi()) { out2 } else { out2 + jpeg_eoi() })
    }
}

/// The exec state of the rebuilding walk.
pub struct Rebuilder {
    pub out: Vec<u8>,
    pub saw_sos: bool,
    pub saw_dqt: bool,
    pub saw_sof: bool,
    pub saw_dht: bool,
    pub sof_dims: Option<(u32, u32, u8)>,
    pub sos_at: Option<usize>,
}

impl View for Rebuilder {
    type V = RebuildState;

    open spec fn view(&self) -> RebuildState {
        RebuildState {
            out: self.out@,
            saw_sos: self.saw_sos,
            saw_dqt: self.saw_dqt,
            saw_sof: self.saw_sof,
            saw_dht: self.saw_dht,
            sof_dims: self.sof_dims,
            sos_at: match self.sos_at {
                Some(a) => Some(a as int),
                None => None,
            },
        }
    }
}

impl Rebuilder {
    pub open spec fn wf(&self) -> bool {
        self.sos_at matches Some(a) ==> a <= self.out@.len()
    }

    /// The SOS branch of one walk step: the marker `FF DA` spans
    /// `pos..=j`.
    fn sos_step(&mut self, data: &[u8], start: usize, pos: usize, j: usize, guard: u64) -> (r: Option<usize>)
        requires
            old(self).wf(),
            data@.len() < usize::MAX,
            pos < j < data@.len(),
            guard < WALK_GUARD,
            data[j as int] == 0xDA,
        ensures
            final(self).wf(),
            match r {
                Some(np) => pos < np < data@.len() && {
                    let st1 = RebuildState {
                        sos_at: if old(self)@.sos_at is None { Some(old(self)@.out.len() as int) } else { old(self)@.sos_at },
                        out: old(self)@.out + data@.subrange(pos as int, j + 1),
                        ..old(self)@
                    };
                    let p = j + 1;
                    let q = p + be16(data@, p);
                    &&& p + 2 <= data@.len() && be16(data@, p) >= 2 && q <= data@.len()
                    &&& np == spec_entropy_end(data@, q)
                    &&& final(self)@ == RebuildState { out: st1.out + data@.subrange(p, q) + data@.subrange(q, np as int), saw_sos: true, ..st1 }
                },
                None => {
                    let st1 = RebuildState {
                        sos_at: if old(self)@.sos_at is None { Some(old(self)@.out.len() as int) } else { old(self)@.sos_at },
                        out: old(self)@.out + data@.subrange(pos as int, j + 1),
                        ..old(self)@
                    };
                    let p = j + 1;
                    let len = data@.len() as int;
                    if p + 2 <= len && be16(data@, p) >= 2 && p + be16(data@, p) <= len {
                        let q = p + be16(data@, p);
                        let e = spec_entropy_end(data@, q);
                        e >= len && final(self)@ == RebuildState { out: st1.out + data@.subrange(p, q) + data@.subrange(q, e), saw_sos: true, ..st1 }
                    } else {
                        final(self)@ == match st1.sof_dims {
                            Some(dims) => {
                                let hdr = spec_sos_header(dims.2);
                                let es = if p + 2 < len { p + 2 } else { len };
                                let e = spec_entropy_end(data@, es);
                                RebuildState {
                                    out: st1.out + hdr.subrange(2, hdr.len() as int) + data@.subrange(es, e),
                                    saw_sos: true,
                                    ..st1
                                }
                            },
                            None => st1,
                        }
                    }
                },
            },
    {
        let len = data.len();
        if self.sos_at.is_none() {
            self.sos_at = Some(self.out.len());
        }
        crate::bytes::append_range(&mut self.out, data, pos, j + 1);
        let p = j + 1;
        if len - p >= 2 {
            let seg = rd_be16(data, p) as usize;
            if seg >= 2 && seg <= len - p {
                let q = p + seg;
                crate::bytes::append_range(&mut self.out, data, p, q);
                proof {
                    lemma_entropy_end_bounds(data@, q as int);
                }
                let e = find_entropy_end(data, q);
                crate::bytes::append_range(&mut self.out, data, q, e);
                self.saw_sos = true;
                if e < len {
                    return Some(e);
                }
                return None;
            }
        }
        match self.sof_dims {
            Some(dims) => {
                let hdr = build_sos_header(dims.2);
                crate::bytes::append_range(&mut self.out, hdr.as_slice(), 2, hdr.len());
                let es = if len - p > 2 {
                    p + 2
                } else {
                    len
                };
                proof {
                    lemma_entropy_end_bounds(data@, es as int);
                }
                let e = find_entropy_end(data, es);
                crate::bytes::append_range(&mut self.out, data, es, e);
                self.saw_sos = true;
            },
            None => {},
        }
        None
    }

    /// The branch of one walk step for any other segment marker `pos..=j`.
    fn segment_step(&mut self, data: &[u8], pos: usize, j: usize) -> (r: Option<usize>)
        requires
            old(self).wf(),
            pos < j < data@.len(),
        ensures
            final(self).wf(),
            ({
                let st1 = emit(old(self)@, data@.subrange(pos as int, j + 1));
                let p = j + 1;
                let len = data@.len() as int;
                if p + 2 > len || be16(data@, p) < 2 || p + be16(data@, p) > len {
                    match spec_next_marker(data@, p) {
                        Some(np) => r == Some(np as usize) && pos < np < len && final(self)@ == st1,
                        None => r is None && final(self)@ == st1,
                    }
                } else {
                    let seg = be16(data@, p);
                    r == Some((p + seg) as usize) && final(self)@ == emit(
                        rebuild_note(data@, st1, data@[j as int], p, seg),
                        data@.subrange(p, p + seg),
                    )
                }
            }),
    {
        let len = data.len();
        let code = data[j];
        crate::bytes::append_range(&mut self.out, data, pos, j + 1);
        let p = j + 1;
        let broken = if len - p < 2 {
            true
        } else {
            let s0 = rd_be16(data, p) as usize;
            s0 < 2 || s0 > len - p
        };
        if broken {
            return skip_to_next_marker(data, p);
        }
        let seg = rd_be16(data, p) as usize;
        let ghost st1 = self@;
        if code == 0xDB {
            self.saw_dqt = true;
        }
        if code == 0xC4 {
            self.saw_dht = true;
        }
        if is_jpeg_sof(code) && seg >= 9 {
            let nc = data[p + 7];
            let h = rd_be16(data, p + 3) as u32;
            let w = rd_be16(data, p + 5) as u32;
            if nc >= 1 && nc <= 4 && seg >= 8 + 3 * (nc as usize) && w > 0 && w <= 65536 && h > 0 && h <= 65536 {
                self.saw_sof = true;
                self.sof_dims = Some((w, h, nc));
            }
        }
        assert(self@ == rebuild_note(data@, st1, code, p as int, seg as int));
        crate::bytes::append_range(&mut self.out, data, p, p + seg);
        Some(p + seg)
    }
}

/// Walk the marker stream from `start` (see `rebuild_walk`).
fn rebuild_run(data: &[u8], start: usize, st: &mut Rebuilder)
    requires
        old(st).wf(),
        data@.len() < usize::MAX,
        start < data@.len(),
    ensures
        final(st).wf(),
        final(st)@ == rebuild_walk(data@, start as int, start as int, old(st)@, 0),
{
    let len = data.len();
    let mut pos = start;
    let mut guard: u64 = 0;
    while pos < len && guard < WALK_GUARD
        invariant_except_break
            rebuild_walk(data@, start as int, start as int, old(st)@, 0) == rebuild_walk(
                data@,
                start as int,
                pos as int,
                st@,
                guard as int,
            ),
        invariant
            len == data@.len() < usize::MAX,
            start <= pos <= len,
            guard <= WALK_GUARD,
            st.wf(),
        ensures
            rebuild_walk(data@, start as int, start as int, old(st)@, 0) == st@,
            st.wf(),
        decreases len + 2 - pos,
    {
        if data[pos] != 0xFF {
            break;
        }
        let j = skip_ff_exec(data, pos + 1);
        if j >= len {
            break;
        }
        let code = data[j];
        if code == 0x00 {
            break;
        }
        if code == 0xD8 {
            if pos > start {
                break;
            }
            crate::bytes::append_range(&mut st.out, data, pos, j + 1);
            pos = j + 1;
            guard += 1;
            continue;
        }
        if code == 0xD9 {
            crate::bytes::append_range(&mut st.out, data, pos, j + 1);
            break;
        }
        if code == 0x01 || (0xD0 <= code && code <= 0xD7) {
            crate::bytes::append_range(&mut st.out, data, pos, j + 1);
            pos = j + 1;
            guard += 1;
            continue;
        }
        if code == 0xDA {
            match st.sos_step(data, start, pos, j, guard) {
                Some(np) => {
                    pos = np;
                    guard += 1;
                    continue;
                },
                None => break,
            }
        }
        match st.segment_step(data, pos, j) {
            Some(np) => {
                pos = np;
                guard += 1;
            },
            None => break,
        }
    }
}

/// Rebuild a valid JPEG from possibly-corrupt/truncated/carved data:
/// restores a missing SOI, drops trailing garbage after the real EOI, and
/// terminates truncated entropy-coded scan data with a fresh EOI. When the
/// DQT, SOF or DHT headers are missing but SOS and entropy data survive,
/// the standard ISO 10918-1 Annex K tables are inserted before the first
/// scan (with the geometry of the SOF, or else of the EXIF data).
/// Returns `None` when no scan survives.
pub fn repair_jpeg(data: &[u8], start: Option<usize>) -> (r: Option<Vec<u8>>)
    requires
        data@.len() < usize::MAX,
    ensures
        match r {
            Some(v) => spec_repair_jpeg(data@, start) == Some(v@),
            None => spec_repair_jpeg(data@, start) is None,
        },
{
    let len = data.len();
    let start: usize = match start {
        Some(s) => s,
        None => match find_jpeg_start(data) {
            Some(s) => s,
            None => 0,
        },
    };
    if start >= len {
        return None;
    }
    let soi: [u8; 2] = [0xFF, 0xD8];
    assert(soi@ == jpeg_soi());
    let mut out: Vec<u8> = Vec::new();
    let has_soi = crate::bytes::bytes_at(data, start, &soi);
    assert(has_soi == crate::bytes::starts_with(data@.subrange(start as int, len as int), jpeg_soi())) by {
        if start + 2 <= len {
            assert(data@.subrange(start as int, len as int).subrange(0, 2) =~= data@.subrange(start as int, start + 2));
        }
    }
    if !has_soi {
        out.push(0xFF);
        out.push(0xD8);
    }
    assert(out@ == (if has_soi { Seq::<u8>::empty() } else { jpeg_soi() }));
    let mut st = Rebuilder {
        out,
        saw_sos: false,
        saw_dqt: false,
        saw_sof: false,
        saw_dht: false,
        sof_dims: None,
        sos_at: None,
    };
    rebuild_run(data, start, &mut st);
    finish_rebuild(data, st)
}

/// The last stage of `repair_jpeg`: insert the missing tables and close the
/// image with an EOI.
#[verifier::spinoff_prover]
#[verifier::rlimit(50)]
fn finish_rebuild(data: &[u8], st: Rebuilder) -> (r: Option<Vec<u8>>)
    requires
        st.wf(),
    ensures
        match r {
            Some(v) => finish_spec(data@, st@) == Some(v@),
            None => finish_spec(data@, st@) is None,
        },
{
    if !st.saw_sos {
        return None;
    }
    let mut out = st.out;
    if !st.saw_dqt || !st.saw_dht || !st.saw_sof {
        let dims: Option<(u32, u32, u8)> = match st.sof_dims {
            Some(x) => Some(x),
            None => match exif_dimensions(data) {
                Some(wh) => Some((wh.0, wh.1, 3u8)),
                None => None,
            },
        };
        match dims {
            Some(x) => {
                let at = match st.sos_at {
                    Some(a) => a,
                    None => out.len(),
                };
                let mut fixed: Vec<u8> = Vec::new();
                crate::bytes::append_range(&mut fixed, out.as_slice(), 0, at);
                if !st.saw_dqt {
                    let t = build_standard_dqt();
                    crate::bytes::append_all(&mut fixed, t.as_slice());
                }
                if !st.saw_sof {
                    let t = build_sof0(x.0, x.1, x.2);
                    crate::bytes::append_all(&mut fixed, t.as_slice());
                }
                if !st.saw_dht {
                    let t = build_standard_dht();
                    crate::bytes::append_all(&mut fixed, t.as_slice());
                }
                crate::bytes::append_range(&mut fixed, out.as_slice(), at, out.len());
                out = fixed;
            },
            None => {},
        }
    }
    let eoi: [u8; 2] = [0xFF, 0xD9];
    assert(eoi@ == jpeg_eoi());
    if !crate::bytes::has_suffix(out.as_slice(), &eoi) {
        out.push(0xFF);
        out.push(0xD9);
    }
    Some(out)
}


/// The rebuild walk only appends to what it emitted, and records where the
/// first scan went at or after the bytes emitted before it.
proof fn lemma_rebuild_extends(d: Seq<u8>, start: int, pos: int, st: RebuildState, guard: int)
    requires
        st.sos_at matches Some(a) ==> 0 <= a <= st.out.len(),
    ensures
        ({
            let r = rebuild_walk(d, start, pos, st, guard);
            &&& r.out.len() >= st.out.len()
            &&& r.out.subrange(0, st.out.len() as int) == st.out
            &&& (st.sos_at is Some ==> r.sos_at == st.sos_at)
            &&& (r.sos_at matches Some(a) ==> st.out.len() <= a || st.sos_at is Some)
            &&& (r.sos_at matches Some(a) ==> 0 <= a <= r.out.len())
        }),
    decreases d.len() + 2 - pos,
{
    let len = d.len() as int;
    if pos < 0 || !(pos < len && guard < WALK_GUARD) || d[pos] != 0xFF {
        assert(st.out.subrange(0, st.out.len() as int) =~= st.out);
    } else {
        let j = skip_ff(d, pos + 1);
        if j >= len || j <= pos {
            assert(st.out.subrange(0, st.out.len() as int) =~= st.out);
        } else {
            let code = d[j];
            let mk = d.subrange(pos, j + 1);
            assert(emit(st, mk).out.subrange(0, st.out.len() as int) =~= st.out);
            if code == 0x00 {
                assert(st.out.subrange(0, st.out.len() as int) =~= st.out);
            } else if code == 0xD8 {
                if pos > start {
                    assert(st.out.subrange(0, st.out.len() as int) =~= st.out);
                } else {
                    lemma_rebuild_extends(d, start, j + 1, emit(st, mk), guard + 1);
                    let r = rebuild_walk(d, start, j + 1, emit(st, mk), guard + 1);
                    assert(r.out.subrange(0, st.out.len() as int) =~= r.out.subrange(0, emit(st, mk).out.len() as int).subrange(
                        0,
                        st.out.len() as int,
                    ));
                }
            } else if code == 0xD9 {
            } else if code == 0x01 || spec_rst_marker(code) {
                lemma_rebuild_extends(d, start, j + 1, emit(st, mk), guard + 1);
                let r = rebuild_walk(d, start, j + 1, emit(st, mk), guard + 1);
                assert(r.out.subrange(0, st.out.len() as int) =~= r.out.subrange(0, emit(st, mk).out.len() as int).subrange(
                    0,
                    st.out.len() as int,
                ));
            } else if code == 0xDA {
                let st1 = RebuildState {
                    sos_at: if st.sos_at is None { Some(st.out.len() as int) } else { st.sos_at },
                    out: st.out + mk,
                    ..st
                };
                assert(st1.out.subrange(0, st.out.len() as int) =~= st.out);
                let p = j + 1;
                if p + 2 <= len && be16(d, p) >= 2 && p + be16(d, p) <= len {
                    let q = p + be16(d, p);
                    let e = spec_entropy_end(d, q);
                    let st2 = RebuildState { out: st1.out + d.subrange(p, q) + d.subrange(q, e), saw_sos: true, ..st1 };
                    assert(st2.out.subrange(0, st.out.len() as int) =~= st.out);
                    if e < len && e > pos {
                        lemma_rebuild_extends(d, start, e, st2, guard + 1);
                        let r = rebuild_walk(d, start, e, st2, guard + 1);
                        assert(r.out.subrange(0, st.out.len() as int) =~= r.out.subrange(0, st2.out.len() as int).subrange(
                            0,
                            st.out.len() as int,
                        ));
                    }
                } else {
                    match st1.sof_dims {
                        Some(dims) => {
                            let hdr = spec_sos_header(dims.2);
                            let es = if p + 2 < len { p + 2 } else { len };
                            let e = spec_entropy_end(d, es);
                            let r = RebuildState {
                                out: st1.out + hdr.subrange(2, hdr.len() as int) + d.subrange(es, e),
                                saw_sos: true,
                                ..st1
                            };
                            assert(r.out.subrange(0, st.out.len() as int) =~= st.out);
                        },
                        None => {},
                    }
                }
            } else {
                let st1 = emit(st, mk);
                let p = j + 1;
                if p + 2 > len || be16(d, p) < 2 || p + be16(d, p) > len {
                    match spec_next_marker(d, p) {
                        Some(np) => if pos < np < len {
                            lemma_rebuild_extends(d, start, np, st1, guard + 1);
                            let r = rebuild_walk(d, start, np, st1, guard + 1);
                            assert(r.out.subrange(0, st.out.len() as int) =~= r.out.subrange(0, st1.out.len() as int).subrange(
                                0,
                                st.out.len() as int,
                            ));
                        },
                        None => {},
                    }
                } else {
                    let seg = be16(d, p);
                    let st3 = rebuild_note(d, st1, code, p, seg);
                    let st4 = emit(st3, d.subrange(p, p + seg));
                    assert(st4.out.subrange(0, st.out.len() as int) =~= st.out);
                    lemma_rebuild_extends(d, start, p + seg, st4, guard + 1);
                    let r = rebuild_walk(d, start, p + seg, st4, guard + 1);
                    assert(r.out.subrange(0, st.out.len() as int) =~= r.out.subrange(0, st4.out.len() as int).subrange(
                        0,
                        st.out.len() as int,
                    ));
                }
            }
        }
    }
}

proof fn lemma_find_soi_after(d: Seq<u8>, i: int)
    ensures
        find_soi_from(d, i) matches Some(k) ==> k >= i,
    decreases d.len() - i,
{
    if !(i < 0 || i + 2 >= d.len()) && !(d[i] == 0xFF && d[i + 1] == 0xD8 && d[i + 2] == 0xFF) {
        lemma_find_soi_after(d, i + 1);
    }
}

proof fn lemma_find_segment_after(d: Seq<u8>, i: int)
    ensures
        find_segment_from(d, i) matches Some(k) ==> k >= i,
    decreases d.len() - i,
{
    if !(i < 0 || i + 1 >= d.len()) && !(d[i] == 0xFF && spec_segment_marker(d[i + 1])) {
        lemma_find_segment_after(d, i + 1);
    }
}

/// The missing tables go in after the SOI: the first two bytes stay.
proof fn lemma_tables_keep_soi(d: Seq<u8>, st: RebuildState)
    requires
        st.out.len() >= 2,
        st.out.subrange(0, 2) == jpeg_soi(),
        st.sos_at matches Some(a) ==> 2 <= a <= st.out.len(),
    ensures
        ({
            let out2 = if !st.saw_dqt || !st.saw_dht || !st.saw_sof {
                let dims: Option<(u32, u32, u8)> = match st.sof_dims {
                    Some(x) => Some(x),
                    None => match exif_walk(d, 0) {
                        Some(wh) => Some((wh.0, wh.1, 3u8)),
                        None => None,
                    },
                };
                match dims {
                    Some(x) => {
                        let at = match st.sos_at {
                            Some(a) => a,
                            None => st.out.len() as int,
                        };
                        st.out.subrange(0, at) + (if !st.saw_dqt { spec_standard_dqt() } else { Seq::empty() }) + (
                        if !st.saw_sof { spec_sof0(x.0, x.1, x.2) } else { Seq::empty() }) + (if !st.saw_dht {
                            spec_standard_dht()
                        } else {
                            Seq::empty()
                        }) + st.out.subrange(at, st.out.len() as int)
                    },
                    None => st.out,
                }
            } else {
                st.out
            };
            out2.len() >= 2 && out2.subrange(0, 2) == jpeg_soi()
        }),
{
    let dims: Option<(u32, u32, u8)> = match st.sof_dims {
        Some(x) => Some(x),
        None => match exif_walk(d, 0) {
            Some(wh) => Some((wh.0, wh.1, 3u8)),
            None => None,
        },
    };
    let at = match st.sos_at {
        Some(a) => a,
        None => st.out.len() as int,
    };
    match dims {
        Some(x) => {
            let t1 = if !st.saw_dqt { spec_standard_dqt() } else { Seq::empty() };
            let t2 = if !st.saw_sof { spec_sof0(x.0, x.1, x.2) } else { Seq::empty() };
            let t3 = if !st.saw_dht { spec_standard_dht() } else { Seq::empty() };
            let o = st.out.subrange(0, at) + t1 + t2 + t3 + st.out.subrange(at, st.out.len() as int);
            assert(o.subrange(0, 2) =~= st.out.subrange(0, 2));
        },
        None => {},
    }
}

/// Finishing a rebuild that starts with an SOI gives a JPEG that starts
/// with an SOI and ends with an EOI.
proof fn lemma_finish_shape(d: Seq<u8>, st: RebuildState)
    requires
        st.out.len() >= 2,
        st.out.subrange(0, 2) == jpeg_soi(),
        st.sos_at matches Some(a) ==> 2 <= a <= st.out.len(),
    ensures
        finish_spec(d, st) matches Some(o) ==> o.len() >= 2 && o.subrange(0, 2) == jpeg_soi() && crate::bytes::ends_with(o, jpeg_eoi()),
{
    lemma_tables_keep_soi(d, st);
    if st.saw_sos {
        let out2 = if !st.saw_dqt || !st.saw_dht || !st.saw_sof {
            let dims: Option<(u32, u32, u8)> = match st.sof_dims {
                Some(x) => Some(x),
                None => match exif_walk(d, 0) {
                    Some(wh) => Some((wh.0, wh.1, 3u8)),
                    None => None,
                },
            };
            match dims {
                Some(x) => {
                    let at = match st.sos_at {
                        Some(a) => a,
                        None => st.out.len() as int,
                    };
                    st.out.subrange(0, at) + (if !st.saw_dqt { spec_standard_dqt() } else { Seq::empty() }) + (
                    if !st.saw_sof { spec_sof0(x.0, x.1, x.2) } else { Seq::empty() }) + (if !st.saw_dht {
                        spec_standard_dht()
                    } else {
                        Seq::empty()
                    }) + st.out.subrange(at, st.out.len() as int)
                },
                None => st.out,
            }
        } else {
            st.out
        };
        if !crate::bytes::ends_with(out2, jpeg_eoi()) {
            let o = out2 + jpeg_eoi();
            assert(o.subrange(0, 2) =~= out2.subrange(0, 2));
            assert(o.subrange(o.len() - 2, o.len() as int) =~= jpeg_eoi());
        }
    }
}

/// A repaired JPEG starts with an SOI marker and ends with an EOI marker.
pub proof fn lemma_repair_jpeg_shape(d: Seq<u8>, start_hint: Option<usize>)
    ensures
        spec_repair_jpeg(d, start_hint) matches Some(o) ==> o.len() >= 2 && o.subrange(0, 2) == jpeg_soi()
            && crate::bytes::ends_with(o, jpeg_eoi()),
{
    lemma_find_soi_after(d, 0);
    lemma_find_segment_after(d, 0);
    let len = d.len() as int;
    let start: int = match start_hint {
        Some(s) => s as int,
        None => match spec_find_jpeg_start(d) {
            Some(s) => s,
            None => 0,
        },
    };
    if start < len {
        let has_soi = crate::bytes::starts_with(d.subrange(start, len), jpeg_soi());
        let init = if has_soi { Seq::empty() } else { jpeg_soi() };
        let st0 = RebuildState {
            out: init,
            saw_sos: false,
            saw_dqt: false,
            saw_sof: false,
            saw_dht: false,
            sof_dims: None,
            sos_at: None,
        };
        if has_soi {
            assert(d.subrange(start, len).subrange(0, 2) == jpeg_soi());
            assert(d[start] == 0xFF) by {
                assert(d.subrange(start, len)[0] == d[start]);
            }
            assert(d[start + 1] == 0xD8) by {
                assert(d.subrange(start, len)[1] == d[start + 1]);
            }
            assert(skip_ff(d, start + 1) == start + 1);
            let mk = d.subrange(start, start + 2);
            assert(mk =~= jpeg_soi());
            let st1 = emit(st0, mk);
            assert(st1.out =~= jpeg_soi());
            assert(rebuild_walk(d, start, start, st0, 0) == rebuild_walk(d, start, start + 2, st1, 1));
            lemma_rebuild_extends(d, start, start + 2, st1, 1);
            let r = rebuild_walk(d, start, start + 2, st1, 1);
            assert(r.out.subrange(0, 2) == jpeg_soi());
            lemma_finish_shape(d, r);
        } else {
            assert(st0.out =~= jpeg_soi());
            lemma_rebuild_extends(d, start, start, st0, 0);
            let r = rebuild_walk(d, start, start, st0, 0);
            assert(r.out.subrange(0, 2) == jpeg_soi());
            lemma_finish_shape(d, r);
        }
    }
}

/// A well-formed segment other than a scan at `pos`: `FF`, a marker code
/// that is neither padding, a stand-alone marker nor SOS, and a length field
/// of at least 2 whose segment lies within the first `n` bytes.
pub open spec fn plain_segment(d: Seq<u8>, n: int, pos: int) -> bool {
    &&& 0 <= pos && pos + 4 <= n <= d.len()
    &&& d[pos] == 0xFF
    &&& d[pos + 1] != 0xFF && d[pos + 1] != 0x00 && d[pos + 1] != 0x01
    &&& d[pos + 1] != 0xD8 && d[pos + 1] != 0xD9 && d[pos + 1] != 0xDA
    &&& !spec_rst_marker(d[pos + 1])
    &&& be16(d, pos + 2) >= 2
    &&& pos + 2 + be16(d, pos + 2) <= n
}

/// Where the segment at `pos` ends.
pub open spec fn segment_end(d: Seq<u8>, pos: int) -> int {
    pos + 2 + be16(d, pos + 2)
}

/// The bytes `pos..end` of `d` are a run of plain segments (within the
/// first `n` bytes).
pub open spec fn segments_to(d: Seq<u8>, n: int, pos: int, end: int) -> bool
    decreases end - pos,
{
    if pos >= end {
        pos == end
    } else if plain_segment(d, n, pos) && pos < segment_end(d, pos) <= end {
        segments_to(d, n, segment_end(d, pos), end)
    } else {
        false
    }
}

/// How many segments the run `pos..end` holds.
pub open spec fn segment_count(d: Seq<u8>, pos: int, end: int) -> nat
    decreases end - pos,
{
    if pos >= end || segment_end(d, pos) <= pos || segment_end(d, pos) > end {
        0
    } else {
        1 + segment_count(d, segment_end(d, pos), end)
    }
}

/// The rebuilding state after copying the run of segments `pos..end`.
pub open spec fn segments_state(d: Seq<u8>, pos: int, end: int, st: RebuildState) -> RebuildState
    decreases end - pos,
{
    if pos >= end || segment_end(d, pos) <= pos || segment_end(d, pos) > end {
        st
    } else {
        let p = pos + 2;
        let seg = be16(d, p);
        let st3 = rebuild_note(d, emit(st, d.subrange(pos, p)), d[pos + 1], p, seg);
        segments_state(d, segment_end(d, pos), end, emit(st3, d.subrange(p, p + seg)))
    }
}

/// The state of the rebuilding walk right after an SOI at the start of `d`.
pub open spec fn after_soi(d: Seq<u8>) -> RebuildState {
    RebuildState {
        out: d.subrange(0, 2),
        saw_sos: false,
        saw_dqt: false,
        saw_sof: false,
        saw_dht: false,
        sof_dims: None,
        sos_at: None,
    }
}

/// The first `n` bytes of `d` are an intact JPEG whose scan starts at `s`:
/// SOI, plain segments that include a DQT, a DHT and a usable SOF, one SOS
/// segment whose entropy-coded data runs up to the EOI that ends the `n`
/// bytes (no `FF` in it but stuffing, padding and restart markers).
pub open spec fn intact_jpeg_at(d: Seq<u8>, n: int, s: int) -> bool {
    &&& 4 <= n <= d.len()
    &&& d[0] == 0xFF && d[1] == 0xD8
    &&& segments_to(d, n, 2, s)
    &&& segments_state(d, 2, s, after_soi(d)).saw_dqt
    &&& segments_state(d, 2, s, after_soi(d)).saw_dht
    &&& segments_state(d, 2, s, after_soi(d)).saw_sof
    &&& segment_count(d, 2, s) + 3 < WALK_GUARD
    &&& s + 4 <= n
    &&& d[s] == 0xFF && d[s + 1] == 0xDA
    &&& be16(d, s + 2) >= 2
    &&& s + 4 + be16(d, s + 2) <= n
    &&& spec_entropy_end(d, s + 2 + be16(d, s + 2)) == n - 2
    &&& d[n - 2] == 0xFF && d[n - 1] == 0xD9
}

proof fn lemma_walk_segments(d: Seq<u8>, n: int, start: int, pos: int, end: int, st: RebuildState, guard: int)
    requires
        segments_to(d, n, pos, end),
        0 <= guard,
        guard + segment_count(d, pos, end) < WALK_GUARD,
        0 <= start < pos,
        end <= d.len(),
    ensures
        rebuild_walk(d, start, pos, st, guard) == rebuild_walk(
            d,
            start,
            end,
            segments_state(d, pos, end, st),
            guard + segment_count(d, pos, end),
        ),
        segments_state(d, pos, end, st).out == st.out + d.subrange(pos, end),
        segments_state(d, pos, end, st).sos_at == st.sos_at,
        segments_state(d, pos, end, st).saw_sos == st.saw_sos,
    decreases end - pos,
{
    if pos < end {
        let p = pos + 2;
        let seg = be16(d, p);
        assert(skip_ff(d, pos + 1) == pos + 1);
        let st3 = rebuild_note(d, emit(st, d.subrange(pos, p)), d[pos + 1], p, seg);
        let nst = emit(st3, d.subrange(p, p + seg));
        assert(d.subrange(pos, pos + 1 + 1) == d.subrange(pos, p));
        assert(rebuild_walk(d, start, pos, st, guard) == rebuild_walk(d, start, p + seg, nst, guard + 1));
        lemma_walk_segments(d, n, start, p + seg, end, nst, guard + 1);
        assert(st.out + d.subrange(pos, p) + d.subrange(p, p + seg) + d.subrange(p + seg, end) =~= st.out
            + d.subrange(pos, end));
    } else {
        assert(st.out + d.subrange(pos, end) =~= st.out);
    }
}

/// An intact JPEG passes through the repair unchanged, and whatever follows
/// its EOI is dropped: for any `d` whose first `n` bytes are an intact JPEG,
/// repairing `d` from its start, or from where the search for a start
/// finds it, gives those `n` bytes.
pub proof fn lemma_repair_intact_jpeg(d: Seq<u8>, n: int, s: int)
    requires
        intact_jpeg_at(d, n, s),
    ensures
        spec_repair_jpeg(d, Some(0)) == Some(d.subrange(0, n)),
        spec_repair_jpeg(d, None) == Some(d.subrange(0, n)),
{
    let len = d.len() as int;
    assert(d.subrange(0, len).subrange(0, 2) =~= jpeg_soi());
    let st0 = RebuildState {
        out: Seq::empty(),
        saw_sos: false,
        saw_dqt: false,
        saw_sof: false,
        saw_dht: false,
        sof_dims: None,
        sos_at: None,
    };
    assert(d[2] == 0xFF);
    assert(find_soi_from(d, 0) == Some(0int));
    assert(skip_ff(d, 1) == 1);
    assert(emit(st0, d.subrange(0, 2)) == after_soi(d)) by {
        assert(Seq::<u8>::empty() + d.subrange(0, 2) =~= d.subrange(0, 2));
    }
    assert(rebuild_walk(d, 0, 0, st0, 0) == rebuild_walk(d, 0, 2, after_soi(d), 1));
    lemma_walk_segments(d, n, 0, 2, s, after_soi(d), 1);
    let sst = segments_state(d, 2, s, after_soi(d));
    let g: int = 1 + segment_count(d, 2, s) as int;
    assert(sst.out =~= d.subrange(0, s)) by {
        assert(d.subrange(0, 2) + d.subrange(2, s) =~= d.subrange(0, s));
    }
    // the scan
    let p = s + 2;
    let q = p + be16(d, p);
    let e = n - 2;
    assert(skip_ff(d, s + 1) == s + 1);
    let st1 = RebuildState { sos_at: Some(sst.out.len() as int), out: sst.out + d.subrange(s, s + 2), ..sst };
    let st2 = RebuildState { out: st1.out + d.subrange(p, q) + d.subrange(q, e), saw_sos: true, ..st1 };
    assert(d.subrange(s, s + 1 + 1) == d.subrange(s, s + 2));
    assert(rebuild_walk(d, 0, s, sst, g) == rebuild_walk(d, 0, e, st2, g + 1));
    assert(skip_ff(d, e + 1) == e + 1);
    assert(d.subrange(e, e + 1 + 1) == d.subrange(e, n));
    assert(rebuild_walk(d, 0, e, st2, g + 1) == emit(st2, d.subrange(e, n)));
    let fin = emit(st2, d.subrange(e, n));
    assert(fin.out =~= d.subrange(0, n)) by {
        assert(d.subrange(0, s) + d.subrange(s, s + 2) + d.subrange(p, q) + d.subrange(q, e) + d.subrange(e, n)
            =~= d.subrange(0, n));
    }
    assert(fin.out.subrange(fin.out.len() - 2, fin.out.len() as int) =~= jpeg_eoi());
    assert(finish_spec(d, fin) == Some(d.subrange(0, n)));
}

} // verus!
