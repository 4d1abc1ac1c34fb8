//! Human-readable color and geometry metadata of an image or audio file,
//! one line per fact.

use vstd::prelude::*;
use crate::analysis::{join_items, string_from_utf8_lossy, utf8_lossy};
use crate::bytes::{be16, be32, le16, le32, rd_be16, rd_be32, rd_le16, rd_le32, starts_with};
use crate::containers::{scan_bmp, spec_scan_bmp};
use crate::formats::FileType;
use crate::jpeg::{WALK_GUARD, is_jpeg_sof, skip_ff, skip_ff_exec, skip_to_next_marker, spec_next_marker, spec_rst_marker, spec_sof_marker};
use crate::png::typ_is;
use crate::text::{chars_of, decimal, push_char, push_decimal, push_str, skip_lead_ws, skip_trail_ws, trim_bounds};

verus! {

/// One line of metadata. A PNG gamma is kept as its stored value (gamma
/// times 100000): it is shown as a decimal fraction, which is left to the
/// presentation.
#[derive(Debug, Clone, PartialEq, Eq)]
pub enum MetaLine {
    Text(String),
    Gamma(u32),
}

/// Mathematical value of a `MetaLine`.
pub enum MetaLineV {
    Text(Seq<char>),
    Gamma(u32),
}

impl View for MetaLine {
    type V = MetaLineV;

    open spec fn view(&self) -> MetaLineV {
        match self {
            MetaLine::Text(s) => MetaLineV::Text(s@),
            MetaLine::Gamma(v) => MetaLineV::Gamma(*v),
        }
    }
}

/// The values of some lines.
pub open spec fn lines_v(v: Seq<MetaLine>) -> Seq<MetaLineV> {
    v.map_values(|l: MetaLine| l@)
}

/// A text line.
pub open spec fn tl(s: Seq<char>) -> MetaLineV {
    MetaLineV::Text(s)
}

/// `prefix`, the decimal `n`, `suffix`.
pub open spec fn num_text(prefix: Seq<char>, n: nat, suffix: Seq<char>) -> Seq<char> {
    prefix + decimal(n) + suffix
}

/// `"Dimensions: {w}x{h} px"`.
pub open spec fn dims_line(w: nat, h: nat) -> Seq<char> {
    "Dimensions: "@ + decimal(w) + "x"@ + decimal(h) + " px"@
}

fn text_line(prefix: &str, n: u64, suffix: &str) -> (r: String)
    ensures
        r@ == num_text(prefix@, n as nat, suffix@),
{
    let mut s = String::new();
    push_str(&mut s, prefix);
    push_decimal(&mut s, n);
    push_str(&mut s, suffix);
    s
}

fn dims_text(w: u64, h: u64) -> (r: String)
    ensures
        r@ == dims_line(w as nat, h as nat),
{
    let mut s = String::new();
    push_str(&mut s, "Dimensions: ");
    push_decimal(&mut s, w);
    push_str(&mut s, "x");
    push_decimal(&mut s, h);
    push_str(&mut s, " px");
    s
}

/// Append a text line.
fn push_line(lines: &mut Vec<MetaLine>, s: String)
    ensures
        lines_v(final(lines)@) == lines_v(old(lines)@).push(tl(s@)),
{
    lines.push(MetaLine::Text(s));
    assert(lines_v(lines@) =~= lines_v(old(lines)@).push(tl(s@)));
}

/// Append the text of a literal as a line.
fn push_lit(lines: &mut Vec<MetaLine>, t: &str)
    ensures
        lines_v(final(lines)@) == lines_v(old(lines)@).push(tl(t@)),
{
    let mut s = String::new();
    push_str(&mut s, t);
    push_line(lines, s);
}

// ---------------------------------------------------------------------------
// BMP
// ---------------------------------------------------------------------------

/// Name of a BMP compression method.
pub open spec fn bmp_compression_name(c: int) -> Seq<char> {
    if c == 0 {
        "BI_RGB (none)"@
    } else if c == 1 {
        "BI_RLE8"@
    } else if c == 2 {
        "BI_RLE4"@
    } else if c == 3 {
        "BI_BITFIELDS"@
    } else if c == 4 {
        "BI_JPEG"@
    } else if c == 5 {
        "BI_PNG"@
    } else if c == 6 {
        "BI_ALPHABITFIELDS"@
    } else {
        "Unknown"@
    }
}

fn bmp_compression_str(c: u32) -> (r: &'static str)
    ensures
        r@ == bmp_compression_name(c as int),
{
    match c {
        0 => "BI_RGB (none)",
        1 => "BI_RLE8",
        2 => "BI_RLE4",
        3 => "BI_BITFIELDS",
        4 => "BI_JPEG",
        5 => "BI_PNG",
        6 => "BI_ALPHABITFIELDS",
        _ => "Unknown",
    }
}

/// The metadata of a BMP: size and bits per pixel from its header, the
/// color planes and compression (with a full info header), the palette size
/// when one is declared.
pub open spec fn spec_bmp_metadata(d: Seq<u8>) -> Seq<MetaLineV> {
    let info = spec_scan_bmp(d);
    let l1: Seq<MetaLineV> = match (info.width, info.height) {
        (Some(w), Some(h)) => seq![tl(dims_line(w as nat, h as nat))],
        _ => Seq::empty(),
    };
    let l2: Seq<MetaLineV> = match info.bpp {
        Some(b) => seq![tl(num_text("Bits per pixel: "@, b as nat, ""@))],
        None => Seq::empty(),
    };
    let l3: Seq<MetaLineV> = if d.len() >= 34 {
        seq![
            tl(num_text("Color planes: "@, le16(d, 26) as nat, ""@)),
            tl("Compression: "@ + bmp_compression_name(le32(d, 30))),
        ]
    } else {
        Seq::empty()
    };
    let l4: Seq<MetaLineV> = if d.len() >= 50 && le32(d, 46) > 0 {
        seq![tl(num_text("Palette colors: "@, le32(d, 46) as nat, ""@))]
    } else {
        Seq::empty()
    };
    l1 + l2 + l3 + l4
}

fn bmp_metadata(data: &[u8]) -> (r: Vec<MetaLine>)
    ensures
        lines_v(r@) == spec_bmp_metadata(data@),
{
    let info = scan_bmp(data);
    let mut lines: Vec<MetaLine> = Vec::new();
    let ghost e = lines_v(lines@);
    assert(e =~= Seq::<MetaLineV>::empty());
    match (info.width, info.height) {
        (Some(w), Some(h)) => push_line(&mut lines, dims_text(w as u64, h as u64)),
        _ => {},
    }
    match info.bpp {
        Some(b) => push_line(&mut lines, text_line("Bits per pixel: ", b as u64, "")),
        None => {},
    }
    if data.len() >= 34 {
        let planes = rd_le16(data, 26);
        push_line(&mut lines, text_line("Color planes: ", planes as u64, ""));
        let comp = rd_le32(data, 30);
        let mut s = String::new();
        push_str(&mut s, "Compression: ");
        push_str(&mut s, bmp_compression_str(comp));
        push_line(&mut lines, s);
    }
    if data.len() >= 50 {
        let palette = rd_le32(data, 46);
        if palette > 0 {
            push_line(&mut lines, text_line("Palette colors: ", palette as u64, ""));
        }
    }
    assert(lines_v(lines@) =~= spec_bmp_metadata(data@));
    lines
}

// ---------------------------------------------------------------------------
// GIF
// ---------------------------------------------------------------------------

/// `2^(k+1)`: the size of a GIF global color table whose size field is `k`.
pub open spec fn gif_table_colors(k: nat) -> nat
    decreases k,
{
    if k == 0 {
        2
    } else {
        2 * gif_table_colors((k - 1) as nat)
    }
}

fn gif_colors(k: u8) -> (r: u32)
    requires
        k < 8,
    ensures
        r == gif_table_colors(k as nat),
{
    let mut c: u32 = 2;
    let mut i: u8 = 0;
    while i < k
        invariant
            i <= k < 8,
            c == gif_table_colors(i as nat),
            c <= 256,
        decreases k - i,
    {
        assert(gif_table_colors((i + 1) as nat) == 2 * gif_table_colors(i as nat));
        c = c * 2;
        i += 1;
        proof {
            assert(c <= 256) by {
                assert(gif_table_colors(i as nat) <= 256) by {
                    lemma_gif_colors_bound(i as nat);
                }
            }
        }
    }
    c
}

proof fn lemma_gif_colors_bound(k: nat)
    requires
        k < 8,
    ensures
        gif_table_colors(k) <= 256,
        gif_table_colors(k) * 2 <= 512,
    decreases k,
{
    reveal_with_fuel(gif_table_colors, 8);
}

/// The metadata of a GIF: its version, its logical screen size, its global
/// color table and its background color index.
pub open spec fn spec_gif_metadata(d: Seq<u8>) -> Seq<MetaLineV> {
    let l1: Seq<MetaLineV> = if d.len() >= 6 {
        seq![tl("Version: GIF"@ + utf8_lossy(d.subrange(3, 6)))]
    } else {
        Seq::empty()
    };
    let l2: Seq<MetaLineV> = if d.len() >= 13 {
        let packed = d[10];
        seq![
            tl(dims_line(le16(d, 6) as nat, le16(d, 8) as nat)),
            if packed >= 0x80 {
                tl(num_text("Global color table: "@, gif_table_colors((packed % 8) as nat), " colors"@))
            } else {
                tl("No global color table"@)
            },
            tl(num_text("Background index: "@, d[11] as nat, ""@)),
        ]
    } else {
        Seq::empty()
    };
    l1 + l2
}

fn gif_metadata(data: &[u8]) -> (r: Vec<MetaLine>)
    ensures
        lines_v(r@) == spec_gif_metadata(data@),
{
    let mut lines: Vec<MetaLine> = Vec::new();
    assert(lines_v(lines@) =~= Seq::<MetaLineV>::empty());
    if data.len() >= 6 {
        let v = vstd::slice::slice_subrange(data, 3, 6);
        let version = string_from_utf8_lossy(v);
        let mut s = String::new();
        push_str(&mut s, "Version: GIF");
        push_str(&mut s, version.as_str());
        push_line(&mut lines, s);
    }
    if data.len() >= 13 {
        let w = rd_le16(data, 6);
        let h = rd_le16(data, 8);
        push_line(&mut lines, dims_text(w as u64, h as u64));
        let packed = data[10];
        if packed >= 0x80 {
            let colors = gif_colors(packed % 8);
            push_line(&mut lines, text_line("Global color table: ", colors as u64, " colors"));
        } else {
            push_lit(&mut lines, "No global color table");
        }
        push_line(&mut lines, text_line("Background index: ", data[11] as u64, ""));
    }
    assert(lines_v(lines@) =~= spec_gif_metadata(data@));
    lines
}

// ---------------------------------------------------------------------------
// RIFF / WAV
// ---------------------------------------------------------------------------

/// Most chunks the RIFF chunk search visits.
pub const CHUNK_GUARD: u64 = 1_000_000;

/// The data offset and size of the first chunk with id `id`, searching the
/// chunk list from `pos` (after `guard` chunks).
pub open spec fn riff_chunk_from(d: Seq<u8>, id: Seq<u8>, pos: int, guard: int) -> Option<(int, int)>
    decreases d.len() - pos,
{
    if pos < 0 || pos + 8 > d.len() || guard >= CHUNK_GUARD {
        None
    } else {
        let sz = le32(d, pos + 4);
        if d.subrange(pos, pos + 4) == id {
            Some((pos + 8, sz))
        } else {
            let end = pos + 8 + sz + sz % 2;
            if end > d.len() {
                None
            } else {
                riff_chunk_from(d, id, end, guard + 1)
            }
        }
    }
}

fn find_riff_chunk(data: &[u8], id: &[u8; 4]) -> (r: Option<(usize, u32)>)
    ensures
        match r {
            Some((p, sz)) => riff_chunk_from(data@, id@, 12, 0) == Some((p as int, sz as int)),
            None => riff_chunk_from(data@, id@, 12, 0) is None,
        },
{
    let len = data.len();
    let mut pos: usize = 12;
    let mut guard: u64 = 0;
    while pos <= len && len - pos >= 8 && guard < CHUNK_GUARD
        invariant
            len == data@.len(),
            riff_chunk_from(data@, id@, 12, 0) == riff_chunk_from(data@, id@, pos as int, guard as int),
        decreases len - pos,
    {
        let sz = rd_le32(data, pos + 4);
        if data[pos] == id[0] && data[pos + 1] == id[1] && data[pos + 2] == id[2] && data[pos + 3] == id[3] {
            assert(data@.subrange(pos as int, pos + 4) =~= id@);
            return Some((pos + 8, sz));
        }
        assert(data@.subrange(pos as int, pos + 4) != id@) by {
            if data@.subrange(pos as int, pos + 4) == id@ {
                assert(data@.subrange(pos as int, pos + 4)[0] == id@[0]);
                assert(data@.subrange(pos as int, pos + 4)[1] == id@[1]);
                assert(data@.subrange(pos as int, pos + 4)[2] == id@[2]);
                assert(data@.subrange(pos as int, pos + 4)[3] == id@[3]);
            }
        }
        let end: u128 = pos as u128 + 8 + sz as u128 + (sz % 2) as u128;
        if end > len as u128 {
            return None;
        }
        pos = end as usize;
        guard += 1;
    }
    None
}

/// Name of a WAV audio format code.
pub open spec fn wav_format_name(f: int) -> Seq<char> {
    if f == 1 {
        "PCM"@
    } else if f == 3 {
        "IEEE float"@
    } else if f == 6 {
        "A-law"@
    } else if f == 7 {
        "mu-law"@
    } else if f == 0x11 {
        "IMA ADPCM"@
    } else if f == 0x55 {
        "MPEG Layer 3"@
    } else if f == 0xFFFE {
        "WAVE_FORMAT_EXTENSIBLE"@
    } else {
        "Unknown"@
    }
}

fn wav_format_str(f: u16) -> (r: &'static str)
    ensures
        r@ == wav_format_name(f as int),
{
    match f {
        1 => "PCM",
        3 => "IEEE float",
        6 => "A-law",
        7 => "mu-law",
        0x11 => "IMA ADPCM",
        0x55 => "MPEG Layer 3",
        0xFFFE => "WAVE_FORMAT_EXTENSIBLE",
        _ => "Unknown",
    }
}

/// The id of a WAV format chunk.
pub open spec fn fmt_id() -> Seq<u8> {
    seq![0x66u8, 0x6D, 0x74, 0x20]
}

/// The audio line of a WAV format chunk whose data starts at `p`.
pub open spec fn audio_line(d: Seq<u8>, p: int) -> Seq<char> {
    let af = le16(d, p);
    num_text("Audio: "@, af as nat, " ("@) + wav_format_name(af) + num_text("), "@, le16(d, p + 2) as nat, " channel(s), "@)
        + num_text(""@, le32(d, p + 4) as nat, " Hz, "@) + num_text(""@, le16(d, p + 14) as nat, " bits"@)
}

/// The metadata of a RIFF container: its form type and, for a WAVE, the
/// audio format of its `fmt ` chunk.
pub open spec fn spec_riff_metadata(d: Seq<u8>) -> Seq<MetaLineV> {
    if d.len() < 12 {
        Seq::empty()
    } else {
        let form = utf8_lossy(d.subrange(8, 12));
        let l1 = seq![tl("Container: "@ + skip_trail_ws(skip_lead_ws(form)))];
        let l2: Seq<MetaLineV> = if form == seq!['W', 'A', 'V', 'E'] {
            match riff_chunk_from(d, fmt_id(), 12, 0) {
                Some((p, sz)) => if sz >= 16 && p + 16 <= d.len() {
                    seq![tl(audio_line(d, p))]
                } else {
                    Seq::empty()
                },
                None => Seq::empty(),
            }
        } else {
            Seq::empty()
        };
        l1 + l2
    }
}

fn is_wave(cs: &Vec<char>) -> (r: bool)
    ensures
        r == (cs@ == seq!['W', 'A', 'V', 'E']),
{
    let ok = cs.len() == 4 && cs[0] == 'W' && cs[1] == 'A' && cs[2] == 'V' && cs[3] == 'E';
    proof {
        if ok {
            assert(cs@ =~= seq!['W', 'A', 'V', 'E']);
        } else if cs@ == seq!['W', 'A', 'V', 'E'] {
            assert(cs@[0] == 'W');
        }
    }
    ok
}

fn riff_metadata(data: &[u8]) -> (r: Vec<MetaLine>)
    ensures
        lines_v(r@) == spec_riff_metadata(data@),
{
    let mut lines: Vec<MetaLine> = Vec::new();
    if data.len() < 12 {
        assert(lines_v(lines@) =~= spec_riff_metadata(data@));
        return lines;
    }
    assert(lines_v(lines@) =~= Seq::<MetaLineV>::empty());
    let form = string_from_utf8_lossy(vstd::slice::slice_subrange(data, 8, 12));
    let fc = chars_of(form.as_str());
    let (lo, hi) = trim_bounds(&fc);
    let mut s = String::new();
    push_str(&mut s, "Container: ");
    let mut i = lo;
    while i < hi
        invariant
            lo <= i <= hi <= fc@.len(),
            s@ == "Container: "@ + fc@.subrange(lo as int, i as int),
        decreases hi - i,
    {
        push_char(&mut s, fc[i]);
        i += 1;
        assert(s@ =~= "Container: "@ + fc@.subrange(lo as int, i as int));
    }
    push_line(&mut lines, s);
    if is_wave(&fc) {
        let id: [u8; 4] = [0x66, 0x6D, 0x74, 0x20];
        assert(id@ =~= fmt_id());
        match find_riff_chunk(data, &id) {
            Some((p, sz)) => {
                if sz >= 16 && p <= data.len() && data.len() - p >= 16 {
                    let af = rd_le16(data, p);
                    let ch = rd_le16(data, p + 2);
                    let rate = rd_le32(data, p + 4);
                    let bits = rd_le16(data, p + 14);
                    let mut a = text_line("Audio: ", af as u64, " (");
                    push_str(&mut a, wav_format_str(af));
                    let t2 = text_line("), ", ch as u64, " channel(s), ");
                    push_str(&mut a, t2.as_str());
                    let t3 = text_line("", rate as u64, " Hz, ");
                    push_str(&mut a, t3.as_str());
                    let t4 = text_line("", bits as u64, " bits");
                    push_str(&mut a, t4.as_str());
                    assert(a@ =~= audio_line(data@, p as int));
                    push_line(&mut lines, a);
                }
            },
            None => {},
        }
    }
    assert(lines_v(lines@) =~= spec_riff_metadata(data@));
    lines
}


// ---------------------------------------------------------------------------
// PNG
// ---------------------------------------------------------------------------

/// Name of a PNG color type.
pub open spec fn color_type_name(ct: u8) -> Seq<char> {
    if ct == 0 {
        "Grayscale"@
    } else if ct == 2 {
        "Truecolor RGB"@
    } else if ct == 3 {
        "Indexed (palette)"@
    } else if ct == 4 {
        "Grayscale + Alpha"@
    } else if ct == 6 {
        "Truecolor RGBA"@
    } else {
        "Unknown"@
    }
}

fn color_type_str(ct: u8) -> (r: &'static str)
    ensures
        r@ == color_type_name(ct),
{
    match ct {
        0 => "Grayscale",
        2 => "Truecolor RGB",
        3 => "Indexed (palette)",
        4 => "Grayscale + Alpha",
        6 => "Truecolor RGBA",
        _ => "Unknown",
    }
}

/// Which of the metadata chunk types a chunk type is: gAMA, cHRM, sRGB,
/// iCCP, pHYs, tRNS, bKGD, PLTE, tEXt, zTXt, iTXt (0 to 10), or none (11).
pub open spec fn meta_kind(t: Seq<u8>) -> int {
    if t == seq![0x67u8, 0x41, 0x4d, 0x41] {
        0
    } else if t == seq![0x63u8, 0x48, 0x52, 0x4d] {
        1
    } else if t == seq![0x73u8, 0x52, 0x47, 0x42] {
        2
    } else if t == seq![0x69u8, 0x43, 0x43, 0x50] {
        3
    } else if t == seq![0x70u8, 0x48, 0x59, 0x73] {
        4
    } else if t == seq![0x74u8, 0x52, 0x4e, 0x53] {
        5
    } else if t == seq![0x62u8, 0x4b, 0x47, 0x44] {
        6
    } else if t == seq![0x50u8, 0x4c, 0x54, 0x45] {
        7
    } else if t == seq![0x74u8, 0x45, 0x58, 0x74] {
        8
    } else if t == seq![0x7au8, 0x54, 0x58, 0x74] {
        9
    } else if t == seq![0x69u8, 0x54, 0x58, 0x74] {
        10
    } else {
        11
    }
}

fn meta_kind_exec(t: [u8; 4]) -> (r: usize)
    ensures
        r == meta_kind(t@),
{
    let gama: [u8; 4] = [0x67, 0x41, 0x4d, 0x41];
    let chrm: [u8; 4] = [0x63, 0x48, 0x52, 0x4d];
    let srgb: [u8; 4] = [0x73, 0x52, 0x47, 0x42];
    let iccp: [u8; 4] = [0x69, 0x43, 0x43, 0x50];
    let phys: [u8; 4] = [0x70, 0x48, 0x59, 0x73];
    let trns: [u8; 4] = [0x74, 0x52, 0x4e, 0x53];
    let bkgd: [u8; 4] = [0x62, 0x4b, 0x47, 0x44];
    let plte: [u8; 4] = [0x50, 0x4c, 0x54, 0x45];
    let text: [u8; 4] = [0x74, 0x45, 0x58, 0x74];
    let ztxt: [u8; 4] = [0x7a, 0x54, 0x58, 0x74];
    let itxt: [u8; 4] = [0x69, 0x54, 0x58, 0x74];
    proof {
        assert(gama@ =~= seq![0x67u8, 0x41, 0x4d, 0x41]);
        assert(chrm@ =~= seq![0x63u8, 0x48, 0x52, 0x4d]);
        assert(srgb@ =~= seq![0x73u8, 0x52, 0x47, 0x42]);
        assert(iccp@ =~= seq![0x69u8, 0x43, 0x43, 0x50]);
        assert(phys@ =~= seq![0x70u8, 0x48, 0x59, 0x73]);
        assert(trns@ =~= seq![0x74u8, 0x52, 0x4e, 0x53]);
        assert(bkgd@ =~= seq![0x62u8, 0x4b, 0x47, 0x44]);
        assert(plte@ =~= seq![0x50u8, 0x4c, 0x54, 0x45]);
        assert(text@ =~= seq![0x74u8, 0x45, 0x58, 0x74]);
        assert(ztxt@ =~= seq![0x7au8, 0x54, 0x58, 0x74]);
        assert(itxt@ =~= seq![0x69u8, 0x54, 0x58, 0x74]);
    }
    if typ_is(t, &gama) {
        0
    } else if typ_is(t, &chrm) {
        1
    } else if typ_is(t, &srgb) {
        2
    } else if typ_is(t, &iccp) {
        3
    } else if typ_is(t, &phys) {
        4
    } else if typ_is(t, &trns) {
        5
    } else if typ_is(t, &bkgd) {
        6
    } else if typ_is(t, &plte) {
        7
    } else if typ_is(t, &text) {
        8
    } else if typ_is(t, &ztxt) {
        9
    } else if typ_is(t, &itxt) {
        10
    } else {
        11
    }
}

/// The fixed line of a metadata chunk kind (other than gAMA and PLTE).
pub open spec fn meta_fixed_text(k: int) -> Seq<char> {
    if k == 1 {
        "cHRM: chromaticities present"@
    } else if k == 2 {
        "sRGB: standard RGB profile"@
    } else if k == 3 {
        "iCCP: embedded ICC color profile"@
    } else if k == 4 {
        "pHYs: pixel aspect ratio"@
    } else if k == 5 {
        "tRNS: transparency present"@
    } else if k == 6 {
        "bKGD: background color"@
    } else if k == 8 {
        "tEXt: text metadata"@
    } else if k == 9 {
        "zTXt: text metadata"@
    } else {
        "iTXt: text metadata"@
    }
}

fn meta_fixed_str(k: usize) -> (r: &'static str)
    ensures
        r@ == meta_fixed_text(k as int),
{
    if k == 1 {
        "cHRM: chromaticities present"
    } else if k == 2 {
        "sRGB: standard RGB profile"
    } else if k == 3 {
        "iCCP: embedded ICC color profile"
    } else if k == 4 {
        "pHYs: pixel aspect ratio"
    } else if k == 5 {
        "tRNS: transparency present"
    } else if k == 6 {
        "bKGD: background color"
    } else if k == 8 {
        "tEXt: text metadata"
    } else if k == 9 {
        "zTXt: text metadata"
    } else {
        "iTXt: text metadata"
    }
}

/// The line (if any) a chunk `(start, length, type)` contributes.
pub open spec fn chunk_meta(d: Seq<u8>, c: (int, int, Seq<u8>)) -> Seq<MetaLineV> {
    let k = meta_kind(c.2);
    if k == 0 {
        if c.0 + 12 <= d.len() {
            seq![MetaLineV::Gamma(be32(d, c.0 + 8) as u32)]
        } else {
            Seq::empty()
        }
    } else if k == 7 {
        seq![tl(num_text("PLTE: palette ("@, (c.1 / 3) as nat, " entries)"@))]
    } else if k < 11 {
        seq![tl(meta_fixed_text(k))]
    } else {
        Seq::empty()
    }
}

/// The lines of the first `n` chunks.
pub open spec fn chunk_metas(d: Seq<u8>, cs: Seq<(int, int, Seq<u8>)>, n: int) -> Seq<MetaLineV>
    decreases n,
{
    if n <= 0 {
        Seq::empty()
    } else {
        chunk_metas(d, cs, n - 1) + chunk_meta(d, cs[n - 1])
    }
}

/// Index of the first IHDR chunk from `i` on.
pub open spec fn first_ihdr(cs: Seq<(int, int, Seq<u8>)>, i: int) -> Option<int>
    decreases cs.len() - i,
{
    if i < 0 || i >= cs.len() {
        None
    } else if cs[i].2 == crate::png::ihdr_type() {
        Some(i)
    } else {
        first_ihdr(cs, i + 1)
    }
}

/// The header lines of a PNG: size, bit depth and color type of its first
/// IHDR chunk, when its fields are plausible.
pub open spec fn png_header_lines(d: Seq<u8>, cs: Seq<(int, int, Seq<u8>)>) -> Seq<MetaLineV> {
    match first_ihdr(cs, 0) {
        Some(k) => match crate::png::spec_try_extract_ihdr(d, cs[k].0 + 4) {
            Some(f) => seq![
                tl(dims_line(f.0 as nat, f.1 as nat)),
                tl(num_text("Bit depth: "@, f.2 as nat, ""@)),
                tl(num_text("Color type: "@, f.3 as nat, " ("@) + color_type_name(f.3) + ")"@),
            ],
            None => Seq::empty(),
        },
        None => Seq::empty(),
    }
}

/// The metadata of a PNG: its header lines, then one line per color or
/// text chunk, in file order.
pub open spec fn spec_png_metadata(d: Seq<u8>) -> Seq<MetaLineV> {
    let cs = crate::png::spec_png_chunks(d);
    png_header_lines(d, cs) + chunk_metas(d, cs, cs.len() as int)
}

fn png_metadata(data: &[u8]) -> (r: Vec<MetaLine>)
    ensures
        lines_v(r@) == spec_png_metadata(data@),
{
    let chunks = crate::png::png_chunks(data);
    let ghost cs = chunks@.map_values(|c: crate::png::PngChunkRef| crate::png::chunk_view(c));
    let mut lines: Vec<MetaLine> = Vec::new();
    assert(lines_v(lines@) =~= Seq::<MetaLineV>::empty());
    let ihdr: [u8; 4] = [0x49, 0x48, 0x44, 0x52];
    assert(ihdr@ =~= crate::png::ihdr_type());
    let mut k: usize = 0;
    while k < chunks.len()
        invariant
            k <= chunks@.len(),
            cs == chunks@.map_values(|c: crate::png::PngChunkRef| crate::png::chunk_view(c)),
            ihdr@ == crate::png::ihdr_type(),
            first_ihdr(cs, 0) == first_ihdr(cs, k as int),
        ensures
            k <= chunks@.len(),
            first_ihdr(cs, 0) == first_ihdr(cs, k as int),
            k < chunks@.len() ==> chunks@[k as int].typ@ == crate::png::ihdr_type(),
        decreases chunks@.len() - k,
    {
        if typ_is(chunks[k].typ, &ihdr) {
            break;
        }
        k += 1;
    }
    proof {
        if data@.len() >= 8 {
            crate::png::lemma_chunk_table_fits(data@, 8);
        }
    }
    if k < chunks.len() {
        proof {
            assert(cs[k as int] == crate::png::chunk_view(chunks@[k as int]));
            assert(first_ihdr(cs, k as int) == Some(k as int));
            assert(cs == crate::png::spec_png_chunks(data@));
            assert(data@.len() >= 8);
            assert(cs[k as int] == crate::png::chunk_table(data@, 8)[k as int]);
            assert(0 <= cs[k as int].0 && cs[k as int].0 + 12 + cs[k as int].1 <= data@.len());
            assert(crate::png::chunk_table(data@, 8)[k as int].1 >= 0);
        }
        let _n = data.len();
        let st = chunks[k].start;
        assert(st == cs[k as int].0);
        assert(st + 12 <= data@.len());
        match crate::png::try_extract_ihdr(data, st + 4) {
            Some((w, h, bd, ct)) => {
                push_line(&mut lines, dims_text(w as u64, h as u64));
                push_line(&mut lines, text_line("Bit depth: ", bd as u64, ""));
                let mut s = text_line("Color type: ", ct as u64, " (");
                push_str(&mut s, color_type_str(ct));
                push_str(&mut s, ")");
                push_line(&mut lines, s);
            },
            None => {},
        }
    }
    proof {
        if k >= chunks.len() {
            assert(first_ihdr(cs, k as int) is None);
        }
    }
    assert(lines_v(lines@) =~= png_header_lines(data@, cs));
    let ghost head = lines_v(lines@);
    let mut i: usize = 0;
    while i < chunks.len()
        invariant
            i <= chunks@.len(),
            cs == chunks@.map_values(|c: crate::png::PngChunkRef| crate::png::chunk_view(c)),
            cs == crate::png::spec_png_chunks(data@),
            lines_v(lines@) == head + chunk_metas(data@, cs, i as int),
        decreases chunks@.len() - i,
    {
        let c = chunks[i];
        proof {
            assert(cs[i as int] == crate::png::chunk_view(chunks@[i as int]));
        }
        let kind = meta_kind_exec(c.typ);
        let ghost before = lines_v(lines@);
        if kind == 0 {
            if c.start <= data.len() && data.len() - c.start >= 12 {
                let v = rd_be32(data, c.start + 8);
                lines.push(MetaLine::Gamma(v));
                assert(lines_v(lines@) =~= before.push(MetaLineV::Gamma(v)));
            }
        } else if kind == 7 {
            push_line(&mut lines, text_line("PLTE: palette (", (c.len / 3) as u64, " entries)"));
        } else if kind < 11 {
            push_lit(&mut lines, meta_fixed_str(kind));
        }
        assert(lines_v(lines@) =~= head + chunk_metas(data@, cs, i + 1));
        i += 1;
    }
    lines
}


// ---------------------------------------------------------------------------
// JPEG
// ---------------------------------------------------------------------------

/// The frame header of the JPEG stream walked from `pos` (after `guard`
/// steps): precision, width, height and component count of the first
/// start-of-frame segment, if the walk reaches one before a scan.
pub open spec fn sof_walk(d: Seq<u8>, pos: int, guard: int) -> Option<(u8, u32, u32, u8)>
    decreases d.len() - pos,
{
    let len = d.len() as int;
    if pos < 0 || !(pos < len && guard < WALK_GUARD) || d[pos] != 0xFF {
        None
    } else {
        let j = skip_ff(d, pos + 1);
        if j >= len || j <= pos {
            None
        } else {
            let code = d[j];
            if code == 0xD8 || code == 0x01 || spec_rst_marker(code) {
                sof_walk(d, j + 1, guard + 1)
            } else if code == 0xD9 || code == 0xDA {
                None
            } else if spec_sof_marker(code) {
                let lp = j + 1;
                if lp + 2 <= len && be16(d, lp) >= 8 && lp + be16(d, lp) <= len {
                    Some((d[lp + 2], be16(d, lp + 5) as u32, be16(d, lp + 3) as u32, d[lp + 7]))
                } else {
                    None
                }
            } else {
                let p = j + 1;
                if p + 2 > len || be16(d, p) < 2 || p + be16(d, p) > len {
                    match spec_next_marker(d, p) {
                        Some(np) => if pos < np < len {
                            sof_walk(d, np, guard + 1)
                        } else {
                            None
                        },
                        None => None,
                    }
                } else {
                    sof_walk(d, p + be16(d, p), guard + 1)
                }
            }
        }
    }
}

fn jpeg_sof(data: &[u8], start: usize) -> (r: Option<(u8, u32, u32, u8)>)
    ensures
        r == sof_walk(data@, start as int, 0),
{
    let len = data.len();
    let mut pos = start;
    let mut guard: u64 = 0;
    while pos < len && guard < WALK_GUARD
        invariant
            len == data@.len(),
            sof_walk(data@, start as int, 0) == sof_walk(data@, pos as int, guard as int),
        decreases len - pos,
    {
        if data[pos] != 0xFF {
            return None;
        }
        let j = skip_ff_exec(data, pos + 1);
        if j >= len {
            return None;
        }
        let code = data[j];
        if code == 0xD8 || code == 0x01 || (0xD0 <= code && code <= 0xD7) {
            pos = j + 1;
            guard += 1;
            continue;
        }
        if code == 0xD9 || code == 0xDA {
            return None;
        }
        if is_jpeg_sof(code) {
            let lp = j + 1;
            if len - lp >= 2 {
                let seg = rd_be16(data, lp) as usize;
                if seg >= 8 && seg <= len - lp {
                    let h = rd_be16(data, lp + 3) as u32;
                    let w = rd_be16(data, lp + 5) as u32;
                    return Some((data[lp + 2], w, h, data[lp + 7]));
                }
            }
            return None;
        }
        let p = j + 1;
        let broken = if len - p < 2 {
            true
        } else {
            let s0 = rd_be16(data, p) as usize;
            s0 < 2 || s0 > len - p
        };
        if broken {
            match skip_to_next_marker(data, p) {
                Some(np) => {
                    pos = np;
                    guard += 1;
                    continue;
                },
                None => {
                    return None;
                },
            }
        }
        let seg = rd_be16(data, p) as usize;
        pos = p + seg;
        guard += 1;
    }
    None
}

/// The label of an APPn segment (`code`) with identifier bytes `id`.
pub open spec fn app_label(code: u8, id: Seq<u8>) -> Seq<char> {
    if starts_with(id, seq![0x4Au8, 0x46, 0x49, 0x46]) {
        "JFIF (JPEG File Interchange)"@
    } else if starts_with(id, seq![0x45u8, 0x78, 0x69, 0x66]) {
        "Exif metadata"@
    } else if starts_with(id, seq![0x49u8, 0x43, 0x43, 0x5F, 0x50, 0x52, 0x4F, 0x46, 0x49, 0x4C, 0x45]) {
        "ICC color profile"@
    } else if starts_with(id, seq![0x41u8, 0x64, 0x6F, 0x62, 0x65]) {
        "Adobe color transform"@
    } else if code == 0xE0 {
        "APP0 ("@ + utf8_lossy(id) + ")"@
    } else {
        num_text("APP"@, (code - 0xE0) as nat, ""@)
    }
}

/// The labels of the APPn segments met by the walk from `pos` (after
/// `guard` steps), up to the first scan or EOI.
pub open spec fn app_walk(d: Seq<u8>, pos: int, guard: int) -> Seq<Seq<char>>
    decreases d.len() - pos,
{
    let len = d.len() as int;
    if pos < 0 || !(pos < len && guard < WALK_GUARD) || d[pos] != 0xFF {
        Seq::empty()
    } else {
        let j = skip_ff(d, pos + 1);
        if j >= len || j <= pos {
            Seq::empty()
        } else {
            let code = d[j];
            if code == 0xD9 || code == 0xDA {
                Seq::empty()
            } else if code == 0xD8 || code == 0x01 || spec_rst_marker(code) {
                app_walk(d, j + 1, guard + 1)
            } else if 0xE0 <= code <= 0xEF {
                let lp = j + 1;
                if lp + 2 > len {
                    Seq::empty()
                } else {
                    let seg = be16(d, lp);
                    if lp + seg > len {
                        Seq::empty()
                    } else if seg >= 2 {
                        seq![app_label(code, d.subrange(lp + 2, lp + seg))] + app_walk(d, lp + seg, guard + 1)
                    } else {
                        app_walk(d, lp + seg, guard + 1)
                    }
                }
            } else {
                let p = j + 1;
                if p + 2 > len || be16(d, p) < 2 || p + be16(d, p) > len {
                    Seq::empty()
                } else {
                    app_walk(d, p + be16(d, p), guard + 1)
                }
            }
        }
    }
}

fn app_label_exec(code: u8, id: &[u8]) -> (r: String)
    requires
        0xE0 <= code,
    ensures
        r@ == app_label(code, id@),
{
    let jfif: [u8; 4] = [0x4A, 0x46, 0x49, 0x46];
    let exif: [u8; 4] = [0x45, 0x78, 0x69, 0x66];
    let icc: [u8; 11] = [0x49, 0x43, 0x43, 0x5F, 0x50, 0x52, 0x4F, 0x46, 0x49, 0x4C, 0x45];
    let adobe: [u8; 5] = [0x41, 0x64, 0x6F, 0x62, 0x65];
    proof {
        assert(jfif@ =~= seq![0x4Au8, 0x46, 0x49, 0x46]);
        assert(exif@ =~= seq![0x45u8, 0x78, 0x69, 0x66]);
        assert(icc@ =~= seq![0x49u8, 0x43, 0x43, 0x5F, 0x50, 0x52, 0x4F, 0x46, 0x49, 0x4C, 0x45]);
        assert(adobe@ =~= seq![0x41u8, 0x64, 0x6F, 0x62, 0x65]);
    }
    let mut s = String::new();
    if crate::bytes::has_prefix(id, &jfif) {
        push_str(&mut s, "JFIF (JPEG File Interchange)");
    } else if crate::bytes::has_prefix(id, &exif) {
        push_str(&mut s, "Exif metadata");
    } else if crate::bytes::has_prefix(id, &icc) {
        push_str(&mut s, "ICC color profile");
    } else if crate::bytes::has_prefix(id, &adobe) {
        push_str(&mut s, "Adobe color transform");
    } else if code == 0xE0 {
        push_str(&mut s, "APP0 (");
        let t = string_from_utf8_lossy(id);
        push_str(&mut s, t.as_str());
        push_str(&mut s, ")");
    } else {
        s = text_line("APP", (code - 0xE0) as u64, "");
    }
    s
}

fn jpeg_app_markers(data: &[u8], start: usize) -> (r: Vec<String>)
    ensures
        r@.map_values(|x: String| x@) == app_walk(data@, start as int, 0),
{
    let len = data.len();
    let mut out: Vec<String> = Vec::new();
    let mut pos = start;
    let mut guard: u64 = 0;
    loop
        invariant
            len == data@.len(),
            app_walk(data@, start as int, 0) == out@.map_values(|x: String| x@) + app_walk(data@, pos as int, guard as int),
        ensures
            app_walk(data@, start as int, 0) == out@.map_values(|x: String| x@),
        decreases len - pos,
    {
        let ghost before = out@.map_values(|x: String| x@);
        if !(pos < len && guard < WALK_GUARD) || data[pos] != 0xFF {
            assert(before + app_walk(data@, pos as int, guard as int) =~= before);
            break;
        }
        let j = skip_ff_exec(data, pos + 1);
        if j >= len {
            assert(before + app_walk(data@, pos as int, guard as int) =~= before);
            break;
        }
        let code = data[j];
        if code == 0xD9 || code == 0xDA {
            assert(before + app_walk(data@, pos as int, guard as int) =~= before);
            break;
        }
        if code == 0xD8 || code == 0x01 || (0xD0 <= code && code <= 0xD7) {
            pos = j + 1;
            guard += 1;
            continue;
        }
        if 0xE0 <= code && code <= 0xEF {
            let lp = j + 1;
            if len - lp < 2 {
                assert(before + app_walk(data@, pos as int, guard as int) =~= before);
                break;
            }
            let seg = rd_be16(data, lp) as usize;
            if seg > len - lp {
                assert(before + app_walk(data@, pos as int, guard as int) =~= before);
                break;
            }
            if seg >= 2 {
                let id = vstd::slice::slice_subrange(data, lp + 2, lp + seg);
                let label = app_label_exec(code, id);
                let ghost lv = label@;
                out.push(label);
                assert(out@.map_values(|x: String| x@) =~= before.push(lv));
                assert(before.push(lv) + app_walk(data@, (lp + seg) as int, guard + 1) =~= before + (seq![lv]
                    + app_walk(data@, (lp + seg) as int, guard + 1)));
            }
            pos = lp + seg;
            guard += 1;
            continue;
        }
        let p = j + 1;
        if len - p < 2 {
            assert(before + app_walk(data@, pos as int, guard as int) =~= before);
            break;
        }
        let seg = rd_be16(data, p) as usize;
        if seg < 2 || seg > len - p {
            assert(before + app_walk(data@, pos as int, guard as int) =~= before);
            break;
        }
        pos = p + seg;
        guard += 1;
    }
    out
}

/// Name of the color space of a JPEG with `comps` components.
pub open spec fn jpeg_colorspace(comps: u8) -> Seq<char> {
    if comps == 1 {
        "Grayscale"@
    } else if comps == 3 {
        "YCbCr (color)"@
    } else if comps == 4 {
        "CMYK"@
    } else {
        "Unknown"@
    }
}

fn jpeg_colorspace_str(comps: u8) -> (r: &'static str)
    ensures
        r@ == jpeg_colorspace(comps),
{
    match comps {
        1 => "Grayscale",
        3 => "YCbCr (color)",
        4 => "CMYK",
        _ => "Unknown",
    }
}

/// The metadata of a JPEG (walked from where its stream starts): the frame
/// header's precision, size and components, then the APPn markers.
pub open spec fn spec_jpeg_metadata(d: Seq<u8>) -> Seq<MetaLineV> {
    let start = match crate::jpeg::spec_find_jpeg_start(d) {
        Some(s) => s,
        None => 0,
    };
    let l1: Seq<MetaLineV> = match sof_walk(d, start, 0) {
        Some((p, w, h, c)) => seq![
            tl(num_text("Precision: "@, p as nat, " bits/component"@)),
            tl(dims_line(w as nat, h as nat)),
            tl(num_text("Components: "@, c as nat, " ("@) + jpeg_colorspace(c) + ")"@),
        ],
        None => Seq::empty(),
    };
    let app = app_walk(d, start, 0);
    let l2: Seq<MetaLineV> = if app.len() > 0 {
        seq![tl("Color/metadata markers: "@ + join_items(app))]
    } else {
        Seq::empty()
    };
    l1 + l2
}

fn jpeg_metadata(data: &[u8]) -> (r: Vec<MetaLine>)
    ensures
        lines_v(r@) == spec_jpeg_metadata(data@),
{
    let start: usize = match crate::jpeg::find_jpeg_start(data) {
        Some(s) => s,
        None => 0,
    };
    let mut lines: Vec<MetaLine> = Vec::new();
    assert(lines_v(lines@) =~= Seq::<MetaLineV>::empty());
    match jpeg_sof(data, start) {
        Some((p, w, h, c)) => {
            push_line(&mut lines, text_line("Precision: ", p as u64, " bits/component"));
            push_line(&mut lines, dims_text(w as u64, h as u64));
            let mut s = text_line("Components: ", c as u64, " (");
            push_str(&mut s, jpeg_colorspace_str(c));
            push_str(&mut s, ")");
            push_line(&mut lines, s);
        },
        None => {},
    }
    let app = jpeg_app_markers(data, start);
    if app.len() > 0 {
        let mut s = String::new();
        push_str(&mut s, "Color/metadata markers: ");
        let j = crate::analysis::join_comma(&app);
        push_str(&mut s, j.as_str());
        push_line(&mut lines, s);
    }
    assert(lines_v(lines@) =~= spec_jpeg_metadata(data@));
    lines
}

// ---------------------------------------------------------------------------
// Dispatch
// ---------------------------------------------------------------------------

/// The color and geometry metadata of a file of type `t` (no lines for a
/// type that carries none).
pub open spec fn spec_color_metadata(d: Seq<u8>, t: FileType) -> Seq<MetaLineV> {
    match t {
        FileType::PNG => spec_png_metadata(d),
        FileType::JPEG => spec_jpeg_metadata(d),
        FileType::BMP => spec_bmp_metadata(d),
        FileType::GIF => spec_gif_metadata(d),
        FileType::RIFF => spec_riff_metadata(d),
        _ => Seq::empty(),
    }
}

/// Extract human-readable color/geometry metadata for the given file type,
/// one line per fact (see `spec_color_metadata`).
pub fn color_metadata(data: &[u8], ft: FileType) -> (r: Vec<MetaLine>)
    ensures
        lines_v(r@) == spec_color_metadata(data@, ft),
{
    match ft {
        FileType::PNG => png_metadata(data),
        FileType::JPEG => jpeg_metadata(data),
        FileType::BMP => bmp_metadata(data),
        FileType::GIF => gif_metadata(data),
        FileType::RIFF => riff_metadata(data),
        _ => {
            let v: Vec<MetaLine> = Vec::new();
            assert(lines_v(v@) =~= Seq::<MetaLineV>::empty());
            v
        },
    }
}

} // verus!
