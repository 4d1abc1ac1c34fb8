//! The analysis of a damaged file: its type, whether header and footer are
//! present, where embedded data starts, a short structural description, and
//! the state of its image payload.

use vstd::prelude::*;
use crate::containers::{
    BmpInfo, RiffInfoV, find_bmp_from, find_bmp_start, find_riff_from, find_riff_start, scan_bmp,
    scan_riff, spec_scan_bmp, spec_scan_riff,
};
use crate::formats::{FileType, PayloadStatus, detect_type, spec_detect_type};
use crate::jpeg::{
    JpegInfo, find_jpeg_start, jpeg_payload_from_scan, scan_jpeg, spec_find_jpeg_start,
    spec_payload_from_scan, spec_scan_jpeg,
};
use crate::png::{find_embedded_png, png_payload_status, spec_find_embedded_png, spec_png_payload};
use crate::salvage::{check_footer, spec_check_footer};
use crate::deep::{
    DeepSignature, SIGNATURE_COUNT, candidate_valid, entry_matches, reported, sig_hits, signature_end,
    spec_candidate_valid, spec_signature_end,
};
use crate::metadata::{MetaLine, color_metadata, lines_v, spec_color_metadata};
use crate::text::{decimal, push_char, push_decimal, push_str, skip_lead_ws, skip_trail_ws};

verus! {

/// What the analysis of a file finds.
#[derive(Debug, Clone)]
pub struct FileAnalysis {
    pub file_type: FileType,
    pub has_header: bool,
    pub has_footer: bool,
    pub embedded_offset: Option<usize>,
    pub details: String,
    pub total_size: u64,
    pub payload: PayloadStatus,
}

/// Mathematical value of a `FileAnalysis`.
pub struct FileAnalysisV {
    pub file_type: FileType,
    pub has_header: bool,
    pub has_footer: bool,
    pub embedded_offset: Option<usize>,
    pub details: Seq<char>,
    pub total_size: u64,
    pub payload: PayloadStatus,
}

impl View for FileAnalysis {
    type V = FileAnalysisV;

    open spec fn view(&self) -> FileAnalysisV {
        FileAnalysisV {
            file_type: self.file_type,
            has_header: self.has_header,
            has_footer: self.has_footer,
            embedded_offset: self.embedded_offset,
            details: self.details@,
            total_size: self.total_size,
            payload: self.payload,
        }
    }
}

/// The items joined with `", "`.
pub open spec fn join_items(items: Seq<Seq<char>>) -> Seq<char>
    decreases items.len(),
{
    if items.len() == 0 {
        Seq::empty()
    } else if items.len() == 1 {
        items[0]
    } else {
        join_items(items.drop_last()) + seq![',', ' '] + items.last()
    }
}

/// Join strings with `", "`.
pub fn join_comma(parts: &Vec<String>) -> (r: String)
    ensures
        r@ == join_items(parts@.map_values(|p: String| p@)),
{
    let ghost items = parts@.map_values(|p: String| p@);
    let mut out = String::new();
    let mut i: usize = 0;
    while i < parts.len()
        invariant
            i <= parts@.len(),
            items == parts@.map_values(|p: String| p@),
            out@ == join_items(items.subrange(0, i as int)),
        decreases parts@.len() - i,
    {
        if i > 0 {
            push_char(&mut out, ',');
            push_char(&mut out, ' ');
        }
        push_str(&mut out, parts[i].as_str());
        proof {
            let pre = items.subrange(0, i + 1);
            assert(pre.drop_last() =~= items.subrange(0, i as int));
            if i == 0 {
                assert(out@ =~= pre[0]);
            }
        }
        i += 1;
    }
    assert(items.subrange(0, parts@.len() as int) =~= items);
    out
}

fn string_of_chars(cs: &[char]) -> (r: String)
    ensures
        r@ == cs@,
{
    let mut s = String::new();
    let mut i: usize = 0;
    while i < cs.len()
        invariant
            i <= cs@.len(),
            s@ == cs@.subrange(0, i as int),
        decreases cs@.len() - i,
    {
        push_char(&mut s, cs[i]);
        i += 1;
        assert(s@ =~= cs@.subrange(0, i as int));
    }
    assert(cs@.subrange(0, cs@.len() as int) =~= cs@);
    s
}

/// `"{w}x{h}"`.
pub open spec fn dims_text(w: u32, h: u32) -> Seq<char> {
    decimal(w as nat) + seq!['x'] + decimal(h as nat)
}

fn dims_string(w: u32, h: u32) -> (r: String)
    ensures
        r@ == dims_text(w, h),
{
    let mut s = String::new();
    push_decimal(&mut s, w as u64);
    push_char(&mut s, 'x');
    push_decimal(&mut s, h as u64);
    s
}

/// The description of a JPEG marker walk: its size, whether a scan was
/// seen, the number of markers, and whether an EOI ends it.
pub open spec fn spec_jpeg_details(info: JpegInfo) -> Seq<char> {
    let p1: Seq<Seq<char>> = match (info.width, info.height) {
        (Some(w), Some(h)) => seq![dims_text(w, h)],
        _ => Seq::empty(),
    };
    let p2: Seq<Seq<char>> = if info.has_sos { seq![seq!['S', 'O', 'S']] } else { Seq::empty() };
    let p3 = seq![decimal(info.marker_count as nat) + seq![' ', 'm', 'a', 'r', 'k', 'e', 'r', 's']];
    let p4 = if info.terminated { seq![seq!['E', 'O', 'I', ' ', 'f', 'o', 'u', 'n', 'd']] } else { seq![seq!['n', 'o', ' ', 'E', 'O', 'I']] };
    join_items(p1 + p2 + p3 + p4)
}

/// Append `s` to `parts`.
fn push_part(parts: &mut Vec<String>, s: String)
    ensures
        final(parts)@.map_values(|p: String| p@) == old(parts)@.map_values(|p: String| p@).push(s@),
{
    parts.push(s);
    assert(parts@.map_values(|p: String| p@) =~= old(parts)@.map_values(|p: String| p@).push(s@));
}

pub fn jpeg_details(info: &JpegInfo) -> (r: String)
    ensures
        r@ == spec_jpeg_details(*info),
{
    let ghost p1: Seq<Seq<char>> = match (info.width, info.height) {
        (Some(w), Some(h)) => seq![dims_text(w, h)],
        _ => Seq::empty(),
    };
    let ghost p2: Seq<Seq<char>> = if info.has_sos { seq![seq!['S', 'O', 'S']] } else { Seq::empty() };
    let ghost p3 = seq![decimal(info.marker_count as nat) + seq![' ', 'm', 'a', 'r', 'k', 'e', 'r', 's']];
    let ghost p4 = if info.terminated { seq![seq!['E', 'O', 'I', ' ', 'f', 'o', 'u', 'n', 'd']] } else { seq![seq!['n', 'o', ' ', 'E', 'O', 'I']] };
    let mut parts: Vec<String> = Vec::new();
    assert(parts@.map_values(|p: String| p@) =~= Seq::<Seq<char>>::empty());
    match (info.width, info.height) {
        (Some(w), Some(h)) => {
            push_part(&mut parts, dims_string(w, h));
        },
        _ => {},
    }
    assert(parts@.map_values(|p: String| p@) =~= p1);
    if info.has_sos {
        push_part(&mut parts, string_of_chars(&['S', 'O', 'S']));
    }
    assert(parts@.map_values(|p: String| p@) =~= p1 + p2);
    let mut m = String::new();
    push_decimal(&mut m, info.marker_count as u64);
    let suffix = string_of_chars(&[' ', 'm', 'a', 'r', 'k', 'e', 'r', 's']);
    push_str(&mut m, suffix.as_str());
    assert(m@ =~= p3[0]);
    push_part(&mut parts, m);
    assert(parts@.map_values(|p: String| p@) =~= p1 + p2 + p3);
    if info.terminated {
        push_part(&mut parts, string_of_chars(&['E', 'O', 'I', ' ', 'f', 'o', 'u', 'n', 'd']));
    } else {
        push_part(&mut parts, string_of_chars(&['n', 'o', ' ', 'E', 'O', 'I']));
    }
    assert(parts@.map_values(|p: String| p@) =~= p1 + p2 + p3 + p4);
    join_comma(&parts)
}

fn text_part(prefix: &[char], n: u64, suffix: &[char]) -> (r: String)
    ensures
        r@ == prefix@ + decimal(n as nat) + suffix@,
{
    let mut s = string_of_chars(prefix);
    push_decimal(&mut s, n);
    let t = string_of_chars(suffix);
    push_str(&mut s, t.as_str());
    s
}

/// The description of a BMP header: size, bits per pixel, pixel offset (or
/// that the header is missing), where the pixel data ends, declared size.
pub open spec fn spec_bmp_details(info: BmpInfo) -> Seq<char> {
    let p1: Seq<Seq<char>> = match (info.width, info.height) {
        (Some(w), Some(h)) => seq![dims_text(w, h)],
        _ => Seq::empty(),
    };
    let p2: Seq<Seq<char>> = match info.bpp {
        Some(b) => seq![decimal(b as nat) + seq!['b', 'p', 'p']],
        None => Seq::empty(),
    };
    let p3: Seq<Seq<char>> = if info.has_header {
        seq![seq!['p', 'i', 'x', 'e', 'l', ' ', 'o', 'f', 'f', 's', 'e', 't', ' '] + decimal(info.data_offset as nat)]
    } else {
        seq![seq!['h', 'e', 'a', 'd', 'e', 'r', ' ', 'm', 'i', 's', 's', 'i', 'n', 'g']]
    };
    let p4: Seq<Seq<char>> = match info.pixel_end {
        Some(e) => seq![seq!['p', 'i', 'x', 'e', 'l', ' ', 'd', 'a', 't', 'a', ' ', 'e', 'n', 'd', 's', ' ', 'a', 't', ' '] + decimal(e as nat)],
        None => Seq::empty(),
    };
    let p5 = seq![seq!['d', 'e', 'c', 'l', 'a', 'r', 'e', 'd', ' '] + decimal(info.declared_size as nat) + seq![' ', 'b', 'y', 't', 'e', 's']];
    join_items(p1 + p2 + p3 + p4 + p5)
}

pub fn bmp_details(info: &BmpInfo) -> (r: String)
    ensures
        r@ == spec_bmp_details(*info),
{
    let ghost p1: Seq<Seq<char>> = match (info.width, info.height) {
        (Some(w), Some(h)) => seq![dims_text(w, h)],
        _ => Seq::empty(),
    };
    let ghost p2: Seq<Seq<char>> = match info.bpp {
        Some(b) => seq![decimal(b as nat) + seq!['b', 'p', 'p']],
        None => Seq::empty(),
    };
    let ghost p3: Seq<Seq<char>> = if info.has_header {
        seq![seq!['p', 'i', 'x', 'e', 'l', ' ', 'o', 'f', 'f', 's', 'e', 't', ' '] + decimal(info.data_offset as nat)]
    } else {
        seq![seq!['h', 'e', 'a', 'd', 'e', 'r', ' ', 'm', 'i', 's', 's', 'i', 'n', 'g']]
    };
    let ghost p4: Seq<Seq<char>> = match info.pixel_end {
        Some(e) => seq![seq!['p', 'i', 'x', 'e', 'l', ' ', 'd', 'a', 't', 'a', ' ', 'e', 'n', 'd', 's', ' ', 'a', 't', ' '] + decimal(e as nat)],
        None => Seq::empty(),
    };
    let ghost p5 = seq![seq!['d', 'e', 'c', 'l', 'a', 'r', 'e', 'd', ' '] + decimal(info.declared_size as nat) + seq![' ', 'b', 'y', 't', 'e', 's']];
    let mut parts: Vec<String> = Vec::new();
    assert(parts@.map_values(|p: String| p@) =~= Seq::<Seq<char>>::empty());
    match (info.width, info.height) {
        (Some(w), Some(h)) => push_part(&mut parts, dims_string(w, h)),
        _ => {},
    }
    assert(parts@.map_values(|p: String| p@) =~= p1);
    match info.bpp {
        Some(b) => {
            let t = text_part(&[], b as u64, &['b', 'p', 'p']);
            assert(t@ =~= p2[0]);
            push_part(&mut parts, t);
        },
        None => {},
    }
    assert(parts@.map_values(|p: String| p@) =~= p1 + p2);
    if info.has_header {
        let t = text_part(&['p', 'i', 'x', 'e', 'l', ' ', 'o', 'f', 'f', 's', 'e', 't', ' '], info.data_offset, &[]);
        assert(t@ =~= p3[0]);
        push_part(&mut parts, t);
    } else {
        let t = string_of_chars(&['h', 'e', 'a', 'd', 'e', 'r', ' ', 'm', 'i', 's', 's', 'i', 'n', 'g']);
        push_part(&mut parts, t);
    }
    assert(parts@.map_values(|p: String| p@) =~= p1 + p2 + p3);
    match info.pixel_end {
        Some(e) => {
            let t = text_part(&['p', 'i', 'x', 'e', 'l', ' ', 'd', 'a', 't', 'a', ' ', 'e', 'n', 'd', 's', ' ', 'a', 't', ' '], e, &[]);
            assert(t@ =~= p4[0]);
            push_part(&mut parts, t);
        },
        None => {},
    }
    assert(parts@.map_values(|p: String| p@) =~= p1 + p2 + p3 + p4);
    let t = text_part(&['d', 'e', 'c', 'l', 'a', 'r', 'e', 'd', ' '], info.declared_size, &[' ', 'b', 'y', 't', 'e', 's']);
    push_part(&mut parts, t);
    assert(parts@.map_values(|p: String| p@) =~= p1 + p2 + p3 + p4 + p5);
    join_comma(&parts)
}

/// What `String::from_utf8_lossy` gives for some bytes: the text they
/// encode, with each invalid sequence replaced by U+FFFD.
pub uninterp spec fn utf8_lossy(b: Seq<u8>) -> Seq<char>;

/// `String::from_utf8_lossy`: decodes UTF-8, replacing invalid sequences.
/// Its result is a function of the bytes alone, named `utf8_lossy`; nothing
/// more is claimed of it.
#[verifier::external_body]
pub(crate) fn string_from_utf8_lossy(b: &[u8]) -> (r: String)
    ensures
        r@ == utf8_lossy(b@),
{
    String::from_utf8_lossy(b).into_owned()
}

/// The form type of a RIFF container as text, white space trimmed.
pub open spec fn riff_form_text(form: Seq<u8>) -> Seq<char> {
    skip_trail_ws(skip_lead_ws(utf8_lossy(form)))
}

/// The description of a RIFF container: its form type, number of chunks and
/// declared size.
pub open spec fn spec_riff_details(info: RiffInfoV) -> Seq<char> {
    let form = riff_form_text(info.form_type);
    let p1 = if form.len() > 0 { form + seq![' ', 'c', 'o', 'n', 't', 'a', 'i', 'n', 'e', 'r'] } else { seq!['R', 'I', 'F', 'F', ' ', 'c', 'o', 'n', 't', 'a', 'i', 'n', 'e', 'r'] };
    let p2 = decimal(info.chunk_count as nat) + seq![' ', 'c', 'h', 'u', 'n', 'k', 's'];
    let p3 = seq!['d', 'e', 'c', 'l', 'a', 'r', 'e', 'd', ' '] + decimal(info.declared_size as nat) + seq![' ', 'b', 'y', 't', 'e', 's'];
    join_items(seq![p1, p2, p3])
}

pub fn riff_details(info: &crate::containers::RiffInfo) -> (r: String)
    ensures
        r@ == spec_riff_details(info@),
{
    let f = string_from_utf8_lossy(info.form_type.as_slice());
    let fc = crate::text::chars_of(f.as_str());
    let (lo, hi) = crate::text::trim_bounds(&fc);
    let mut p1 = String::new();
    let mut i = lo;
    while i < hi
        invariant
            lo <= i <= hi <= fc@.len(),
            p1@ == fc@.subrange(lo as int, i as int),
        decreases hi - i,
    {
        push_char(&mut p1, fc[i]);
        i += 1;
        assert(p1@ =~= fc@.subrange(lo as int, i as int));
    }
    if hi > lo {
        let t = string_of_chars(&[' ', 'c', 'o', 'n', 't', 'a', 'i', 'n', 'e', 'r']);
        push_str(&mut p1, t.as_str());
    } else {
        p1 = string_of_chars(&['R', 'I', 'F', 'F', ' ', 'c', 'o', 'n', 't', 'a', 'i', 'n', 'e', 'r']);
    }
    let p2 = text_part(&[], info.chunk_count, &[' ', 'c', 'h', 'u', 'n', 'k', 's']);
    let p3 = text_part(&['d', 'e', 'c', 'l', 'a', 'r', 'e', 'd', ' '], info.declared_size, &[' ', 'b', 'y', 't', 'e', 's']);
    let mut parts: Vec<String> = Vec::new();
    let ghost e1 = p1@;
    let ghost e2 = p2@;
    let ghost e3 = p3@;
    push_part(&mut parts, p1);
    push_part(&mut parts, p2);
    push_part(&mut parts, p3);
    assert(parts@.map_values(|p: String| p@) =~= seq![e1, e2, e3]);
    assert(e2 =~= decimal(info.chunk_count as nat) + seq![' ', 'c', 'h', 'u', 'n', 'k', 's']);
    join_comma(&parts)
}

/// The description of one recognized PNG chunk: its name, and for an IHDR
/// with plausible fields the image size.
pub open spec fn chunk_item(d: Seq<u8>, c: (usize, usize)) -> Seq<char> {
    let name = crate::png::png_chunk_names()[c.1 as int];
    if c.1 == 0 {
        match crate::png::spec_try_extract_ihdr(d, c.0 as int) {
            Some(f) => name + seq![' ', '('] + dims_text(f.0, f.1) + seq![')'],
            None => name,
        }
    } else {
        name
    }
}

/// The recognized PNG chunk types in the data, in order.
pub open spec fn spec_png_chunks_desc(d: Seq<u8>) -> Seq<char> {
    join_items(crate::png::chunks_from(d, 0).map_values(|c: (usize, usize)| chunk_item(d, c)))
}

pub fn png_chunks_desc(data: &[u8]) -> (r: String)
    ensures
        r@ == spec_png_chunks_desc(data@),
{
    let chunks = crate::png::find_any_png_chunks(data);
    assert forall|q: int| 0 <= q < chunks@.len() implies (#[trigger] chunks@[q]).1 < 14 by {
        assert(chunks@[q].0 + 4 <= data@.len());
    }
    let mut parts: Vec<String> = Vec::new();
    let mut j: usize = 0;
    while j < chunks.len()
        invariant
            j <= chunks@.len(),
            chunks@ == crate::png::chunks_from(data@, 0),
            forall|q: int| 0 <= q < chunks@.len() ==> (#[trigger] chunks@[q]).1 < 14,
            parts@.map_values(|p: String| p@) == chunks@.subrange(0, j as int).map_values(|c: (usize, usize)| chunk_item(data@, c)),
        decreases chunks@.len() - j,
    {
        let (pos, k) = chunks[j];
        let mut t = String::new();
        push_str(&mut t, crate::png::png_chunk_name(k));
        if k == 0 {
            match crate::png::try_extract_ihdr(data, pos) {
                Some(f) => {
                    push_char(&mut t, ' ');
                    push_char(&mut t, '(');
                    let d = dims_string(f.0, f.1);
                    push_str(&mut t, d.as_str());
                    push_char(&mut t, ')');
                },
                None => {},
            }
        }
        assert(t@ =~= chunk_item(data@, chunks@[j as int]));
        push_part(&mut parts, t);
        assert(chunks@.subrange(0, j + 1).map_values(|c: (usize, usize)| chunk_item(data@, c)) =~= chunks@.subrange(0, j as int).map_values(
            |c: (usize, usize)| chunk_item(data@, c),
        ).push(chunk_item(data@, chunks@[j as int])));
        j += 1;
    }
    assert(chunks@.subrange(0, chunks@.len() as int) =~= chunks@);
    join_comma(&parts)
}


/// An analysis with the given fields.
pub open spec fn analysis_v(
    ft: FileType,
    has_header: bool,
    has_footer: bool,
    embedded: Option<usize>,
    details: Seq<char>,
    total: int,
    payload: PayloadStatus,
) -> FileAnalysisV {
    FileAnalysisV {
        file_type: ft,
        has_header,
        has_footer,
        embedded_offset: embedded,
        details,
        total_size: total as u64,
        payload,
    }
}

/// `d` from `start` on.
pub open spec fn tail(d: Seq<u8>, start: int) -> Seq<u8> {
    d.subrange(start, d.len() as int)
}

/// The analysis of data whose signature is not recognized: an embedded PNG
/// is looked for first, then a JPEG, a BMP and a RIFF start.
pub open spec fn spec_analyze_unknown(d: Seq<u8>) -> FileAnalysisV {
    let n = d.len() as int;
    match spec_find_embedded_png(d) {
        Some(e) => analysis_v(
            FileType::Unknown,
            false,
            false,
            Some(e as usize),
            spec_png_chunks_desc(d),
            n,
            spec_png_payload(d, Some(e as usize)),
        ),
        None => match spec_find_jpeg_start(d) {
            Some(j) => {
                let info = spec_scan_jpeg(d, j);
                analysis_v(
                    FileType::JPEG,
                    j == 0,
                    info.terminated,
                    Some(j as usize),
                    spec_jpeg_details(info),
                    n,
                    spec_payload_from_scan(d, j),
                )
            },
            None => match find_bmp_from(d, 0) {
                Some(b) => analysis_v(
                    FileType::BMP,
                    b == 0,
                    false,
                    Some(b as usize),
                    spec_bmp_details(spec_scan_bmp(tail(d, b))),
                    n,
                    PayloadStatus::Unknown,
                ),
                None => match find_riff_from(d, 0) {
                    Some(r) => analysis_v(
                        FileType::RIFF,
                        r == 0,
                        false,
                        Some(r as usize),
                        spec_riff_details(spec_scan_riff(tail(d, r))),
                        n,
                        PayloadStatus::Unknown,
                    ),
                    None => analysis_v(FileType::Unknown, false, false, None, Seq::empty(), n, PayloadStatus::Unknown),
                },
            },
        },
    }
}

/// A BMP is complete when its declared size is the data's length and its
/// pixel data ends inside it.
pub open spec fn bmp_complete(info: BmpInfo, len: int) -> bool {
    info.declared_size == len && match info.pixel_end {
        Some(e) => e <= len,
        None => false,
    }
}

/// The analysis of a file: its detected type, whether its header and footer
/// are present, where the image data starts, a description, its size and
/// the state of the image payload.
pub open spec fn spec_analyze(d: Seq<u8>) -> FileAnalysisV {
    let n = d.len() as int;
    let ft = spec_detect_type(d);
    match ft {
        FileType::Unknown => spec_analyze_unknown(d),
        FileType::JPEG => {
            let info = spec_scan_jpeg(d, 0);
            analysis_v(ft, true, info.terminated, Some(0), spec_jpeg_details(info), n, spec_payload_from_scan(d, 0))
        },
        FileType::PNG => {
            let off = match spec_find_embedded_png(d) {
                Some(e) => Some(e as usize),
                None => None,
            };
            analysis_v(ft, true, spec_check_footer(d, ft), off, spec_png_chunks_desc(d), n, spec_png_payload(d, off))
        },
        FileType::BMP => {
            let info = spec_scan_bmp(d);
            analysis_v(ft, true, bmp_complete(info, n), Some(0), spec_bmp_details(info), n, PayloadStatus::Unknown)
        },
        FileType::RIFF => {
            let info = spec_scan_riff(d);
            analysis_v(
                ft,
                true,
                info.last_chunk_end == Some(n as u64),
                Some(0),
                spec_riff_details(info),
                n,
                PayloadStatus::Unknown,
            )
        },
        _ => analysis_v(ft, true, spec_check_footer(d, ft), None, Seq::empty(), n, PayloadStatus::Unknown),
    }
}

fn analyze_unknown(data: &[u8]) -> (r: FileAnalysis)
    requires
        data@.len() < usize::MAX,
    ensures
        r@ == spec_analyze_unknown(data@),
{
    let total_size = data.len() as u64;
    let embedded = find_embedded_png(data);
    if embedded.is_some() {
        return FileAnalysis {
            file_type: FileType::Unknown,
            has_header: false,
            has_footer: false,
            embedded_offset: embedded,
            details: png_chunks_desc(data),
            total_size,
            payload: png_payload_status(data, embedded),
        };
    }
    match find_jpeg_start(data) {
        Some(jstart) => {
            let info = scan_jpeg(data, jstart);
            return FileAnalysis {
                file_type: FileType::JPEG,
                has_header: jstart == 0,
                has_footer: info.terminated,
                embedded_offset: Some(jstart),
                details: jpeg_details(&info),
                total_size,
                payload: jpeg_payload_from_scan(data, jstart),
            };
        },
        None => {},
    }
    match find_bmp_start(data) {
        Some(bstart) => {
            let rest = slice_from(data, bstart);
            let info = scan_bmp(rest);
            return FileAnalysis {
                file_type: FileType::BMP,
                has_header: bstart == 0,
                has_footer: false,
                embedded_offset: Some(bstart),
                details: bmp_details(&info),
                total_size,
                payload: PayloadStatus::Unknown,
            };
        },
        None => {},
    }
    match find_riff_start(data) {
        Some(rstart) => {
            let rest = slice_from(data, rstart);
            let info = scan_riff(rest);
            return FileAnalysis {
                file_type: FileType::RIFF,
                has_header: rstart == 0,
                has_footer: false,
                embedded_offset: Some(rstart),
                details: riff_details(&info),
                total_size,
                payload: PayloadStatus::Unknown,
            };
        },
        None => {},
    }
    FileAnalysis {
        file_type: FileType::Unknown,
        has_header: false,
        has_footer: false,
        embedded_offset: None,
        details: String::new(),
        total_size,
        payload: PayloadStatus::Unknown,
    }
}

/// `data[start..]`.
fn slice_from(data: &[u8], start: usize) -> (r: &[u8])
    requires
        start <= data@.len(),
    ensures
        r@ == tail(data@, start as int),
{
    vstd::slice::slice_subrange(data, start, data.len())
}

/// Analyze the bytes of a file (see `spec_analyze`).
pub fn analyze_bytes(data: &[u8]) -> (r: FileAnalysis)
    requires
        data@.len() < usize::MAX,
    ensures
        r@ == spec_analyze(data@),
{
    let total_size = data.len() as u64;
    let ft = detect_type(data);
    match ft {
        FileType::Unknown => analyze_unknown(data),
        FileType::JPEG => {
            let info = scan_jpeg(data, 0);
            let terminated = info.terminated;
            FileAnalysis {
                file_type: ft,
                has_header: true,
                has_footer: terminated,
                embedded_offset: Some(0),
                details: jpeg_details(&info),
                total_size,
                payload: jpeg_payload_from_scan(data, 0),
            }
        },
        FileType::PNG => {
            let off = find_embedded_png(data);
            FileAnalysis {
                file_type: ft,
                has_header: true,
                has_footer: check_footer(data, ft),
                embedded_offset: off,
                details: png_chunks_desc(data),
                total_size,
                payload: png_payload_status(data, off),
            }
        },
        FileType::BMP => {
            let info = scan_bmp(data);
            let complete = info.declared_size == total_size && match info.pixel_end {
                Some(e) => e <= total_size,
                None => false,
            };
            FileAnalysis {
                file_type: ft,
                has_header: true,
                has_footer: complete,
                embedded_offset: Some(0),
                details: bmp_details(&info),
                total_size,
                payload: PayloadStatus::Unknown,
            }
        },
        FileType::RIFF => {
            let info = scan_riff(data);
            let complete = match info.last_chunk_end {
                Some(e) => e == total_size,
                None => false,
            };
            FileAnalysis {
                file_type: ft,
                has_header: true,
                has_footer: complete,
                embedded_offset: Some(0),
                details: riff_details(&info),
                total_size,
                payload: PayloadStatus::Unknown,
            }
        },
        _ => FileAnalysis {
            file_type: ft,
            has_header: true,
            has_footer: check_footer(data, ft),
            embedded_offset: None,
            details: String::new(),
            total_size,
            payload: PayloadStatus::Unknown,
        },
    }
}


/// A file candidate found by the deep scan, with its extent when known.
#[derive(Debug, Clone, Copy)]
pub struct EmbeddedCandidate {
    pub offset: usize,
    pub file_type: FileType,
    pub label: &'static str,
    pub size: Option<u64>,
    pub valid: bool,
}

/// The size of the candidate of signature `idx`: up to where its structure
/// ends, else up to the next signature when that lies after it.
pub open spec fn candidate_size(d: Seq<u8>, sigs: Seq<DeepSignature>, idx: int) -> Option<u64> {
    let off = sigs[idx].offset as int;
    match spec_signature_end(d, off, sigs[idx].file_type) {
        Some(e) => Some((e - off) as u64),
        None => if idx + 1 < sigs.len() && sigs[idx + 1].offset > off {
            Some((sigs[idx + 1].offset - off) as u64)
        } else {
            None
        },
    }
}

/// The candidate that signature `idx` stands for.
pub open spec fn candidate_for(d: Seq<u8>, sigs: Seq<DeepSignature>, idx: int) -> EmbeddedCandidate {
    EmbeddedCandidate {
        offset: sigs[idx].offset,
        file_type: sigs[idx].file_type,
        label: sigs[idx].label,
        size: candidate_size(d, sigs, idx),
        valid: spec_candidate_valid(d, sigs[idx].offset as int, sigs[idx].file_type),
    }
}

/// One candidate per signature hit, in the same order.
pub fn embedded_candidates(data: &[u8], sigs: &Vec<DeepSignature>) -> (r: Vec<EmbeddedCandidate>)
    requires
        data@.len() < usize::MAX,
    ensures
        r@.len() == sigs@.len(),
        forall|i: int| 0 <= i < sigs@.len() ==> #[trigger] r@[i] == candidate_for(data@, sigs@, i),
{
    let mut out: Vec<EmbeddedCandidate> = Vec::new();
    let mut idx: usize = 0;
    while idx < sigs.len()
        invariant
            data@.len() < usize::MAX,
            idx <= sigs@.len(),
            out@.len() == idx,
            forall|i: int| 0 <= i < idx ==> #[trigger] out@[i] == candidate_for(data@, sigs@, i),
        decreases sigs@.len() - idx,
    {
        let sig = sigs[idx];
        let size = match signature_end(data, sig.offset, sig.file_type) {
            Some(e) => {
                proof {
                    crate::deep::lemma_signature_end_after(data@, sig.offset as int, sig.file_type);
                }
                Some((e - sig.offset as u128) as u64)
            },
            None => {
                if idx + 1 < sigs.len() && sigs[idx + 1].offset > sig.offset {
                    Some((sigs[idx + 1].offset - sig.offset) as u64)
                } else {
                    None
                }
            },
        };
        let valid = candidate_valid(data, sig.offset, sig.file_type);
        let c = EmbeddedCandidate { offset: sig.offset, file_type: sig.file_type, label: sig.label, size, valid };
        assert(c == candidate_for(data@, sigs@, idx as int));
        out.push(c);
        idx += 1;
    }
    out
}


/// Deep analysis of a file: the classic analysis, every signature found
/// anywhere in it, a candidate per signature, and the color metadata of the
/// primary type.
#[derive(Debug, Clone)]
pub struct DeepAnalysis {
    pub total_size: u64,
    pub primary: FileAnalysis,
    pub signatures: Vec<DeepSignature>,
    pub embedded_files: Vec<EmbeddedCandidate>,
    pub color_metadata: Vec<MetaLine>,
}

/// Deep analysis of the bytes of a file.
pub fn analyze_bytes_deep(data: &[u8]) -> (r: DeepAnalysis)
    requires
        data@.len() < usize::MAX,
    ensures
        r.total_size == data@.len(),
        r.primary@ == spec_analyze(data@),
        forall|a: int, b: int| 0 <= a < b < r.signatures@.len() ==> r.signatures@[a].offset < r.signatures@[b].offset,
        forall|a: int| 0 <= a < r.signatures@.len() ==> entry_matches(data@, #[trigger] r.signatures@[a]),
        forall|k: int, b: int|
            0 <= k < SIGNATURE_COUNT && 0 <= b < sig_hits(data@, k).len() ==> reported(
                r.signatures@,
                #[trigger] sig_hits(data@, k)[b],
            ),
        r.embedded_files@.len() == r.signatures@.len(),
        forall|i: int|
            0 <= i < r.signatures@.len() ==> #[trigger] r.embedded_files@[i] == candidate_for(data@, r.signatures@, i),
        lines_v(r.color_metadata@) == spec_color_metadata(data@, r.primary.file_type),
{
    let total_size = data.len() as u64;
    let primary = analyze_bytes(data);
    let signatures = crate::deep::deep_scan(data);
    let embedded_files = embedded_candidates(data, &signatures);
    let color = color_metadata(data, primary.file_type);
    DeepAnalysis { total_size, primary, signatures, embedded_files, color_metadata: color }
}

/// The one-line state of the primary file that the deep repair page shows.
pub open spec fn spec_primary_status(a: FileAnalysisV) -> Seq<char> {
    if a.file_type == FileType::Unknown {
        match a.embedded_offset {
            Some(o) => "unknown header, embedded data at offset "@ + decimal(o as nat),
            None => "unrecognized format"@,
        }
    } else if !a.has_header {
        "header damaged \u{2014} repair available"@
    } else if a.has_footer {
        "intact"@
    } else {
        "truncated \u{2014} repair possible"@
    }
}

/// The one-line state of the primary file that the deep repair page shows.
pub fn primary_status(a: &FileAnalysis) -> (r: String)
    ensures
        r@ == spec_primary_status(a@),
{
    let mut s = String::new();
    if a.file_type == FileType::Unknown {
        match a.embedded_offset {
            Some(o) => {
                push_str(&mut s, "unknown header, embedded data at offset ");
                push_decimal(&mut s, o as u64);
            },
            None => push_str(&mut s, "unrecognized format"),
        }
    } else if !a.has_header {
        push_str(&mut s, "header damaged \u{2014} repair available");
    } else if a.has_footer {
        push_str(&mut s, "intact");
    } else {
        push_str(&mut s, "truncated \u{2014} repair possible");
    }
    assert(s@ =~= spec_primary_status(a@));
    s
}

} // verus!
