//! Header templates: the layout of the first bytes of common file formats,
//! drawn as a framed text table.

use vstd::prelude::*;
use crate::hexedit::{hex_digit, hex_digits, hex_padded, push_hex_padded, push_repeat, repeat_char};
use crate::bytes::ends_with;
use crate::formats::{spec_detect_type, spec_footer_hex, spec_header_hex, FileType};
use crate::salvage::{spec_check_footer, spec_footer_bytes};
use crate::text::{push_char, push_str};
use vstd::string::StrSliceExecFns;

verus! {

/// One line of a template: where a field starts, how many bytes it takes,
/// and what it holds.
#[derive(Debug, Clone, Copy)]
pub struct TemplateRow {
    pub offset: &'static str,
    pub size: &'static str,
    pub field: &'static str,
}

/// The header layout of one file format.
#[derive(Debug, Clone)]
pub struct HeaderTemplate {
    pub name: &'static str,
    pub ext: &'static str,
    pub signature: Vec<u8>,
    pub footer: Vec<u8>,
    pub endian: &'static str,
    pub rows: Vec<TemplateRow>,
}


/// `s` padded with `fill` to at least `w` characters.
pub open spec fn padded(s: Seq<char>, fill: char, w: nat) -> Seq<char> {
    if s.len() < w {
        s + repeat_char(fill, (w - s.len()) as nat)
    } else {
        s
    }
}

/// The bytes of `b` in two-digit upper-case hexadecimal, separated by
/// single spaces.
pub open spec fn hex_spaced(b: Seq<u8>) -> Seq<char>
    decreases b.len(),
{
    if b.len() == 0 {
        Seq::empty()
    } else if b.len() == 1 {
        hex_padded(b[0] as nat, 2)
    } else {
        hex_spaced(b.drop_last()) + seq![' '] + hex_padded(b.last() as nat, 2)
    }
}

/// Appends `s` padded with `fill` to at least `w` characters.
pub fn push_padded(out: &mut String, s: &str, fill: char, w: usize)
    ensures
        final(out)@ == old(out)@ + padded(s@, fill, w as nat),
{
    push_str(out, s);
    let n = s.unicode_len();
    if n < w {
        push_repeat(out, fill, w - n);
    }
    assert(out@ =~= old(out)@ + padded(s@, fill, w as nat));
}

/// Appends the bytes of `b` in two-digit hexadecimal, separated by spaces.
pub fn push_hex_spaced(out: &mut String, b: &[u8])
    ensures
        final(out)@ == old(out)@ + hex_spaced(b@),
{
    let mut i: usize = 0;
    while i < b.len()
        invariant
            i <= b@.len(),
            out@ == old(out)@ + hex_spaced(b@.subrange(0, i as int)),
        decreases b@.len() - i,
    {
        let ghost before = out@;
        if i > 0 {
            push_char(out, ' ');
        }
        push_hex_padded(out, b[i] as u64, 2);
        let ghost p = b@.subrange(0, i + 1);
        assert(p.drop_last() =~= b@.subrange(0, i as int));
        i += 1;
        assert(out@ =~= old(out)@ + hex_spaced(b@.subrange(0, i as int)));
    }
    assert(b@.subrange(0, i as int) =~= b@);
}

/// The bytes in two-digit upper-case hexadecimal, separated by spaces.
pub fn hex_str(bytes: &[u8]) -> (r: String)
    ensures
        r@ == hex_spaced(bytes@),
{
    let mut out = String::new();
    push_hex_spaced(&mut out, bytes);
    out
}

/// `s` padded with spaces to at least `w` characters.
pub fn pad_to(s: &str, w: usize) -> (r: String)
    ensures
        r@ == padded(s@, ' ', w as nat),
{
    pad_fill(s, ' ', w)
}

/// `s` padded with `fill` to at least `w` characters.
pub fn pad_fill(s: &str, fill: char, w: usize) -> (r: String)
    ensures
        r@ == padded(s@, fill, w as nat),
{
    let mut out = String::new();
    push_padded(&mut out, s, fill, w);
    assert(out@ =~= padded(s@, fill, w as nat));
    out
}

/// The text of column `col` (offset, size, field) of a row.
pub open spec fn cell(r: TemplateRow, col: int) -> Seq<char> {
    if col == 0 {
        r.offset@
    } else if col == 1 {
        r.size@
    } else {
        r.field@
    }
}

/// The length in bytes (`str::len`) of column `col` of a row.
pub open spec fn cell_len(r: TemplateRow, col: int) -> nat {
    if col == 0 {
        r.offset.len() as nat
    } else if col == 1 {
        r.size.len() as nat
    } else {
        r.field.len() as nat
    }
}

/// The largest byte length in column `col` of the first `k` rows (0 for
/// none).
pub open spec fn max_len_upto(rows: Seq<TemplateRow>, col: int, k: nat) -> nat
    decreases k,
{
    if k == 0 {
        0
    } else {
        let m = max_len_upto(rows, col, (k - 1) as nat);
        let l = cell_len(rows[k - 1], col);
        if l > m {
            l
        } else {
            m
        }
    }
}

pub open spec fn max_nat(a: nat, b: nat) -> nat {
    if a >= b {
        a
    } else {
        b
    }
}

/// Width of the offset column.
pub open spec fn offset_width(rows: Seq<TemplateRow>) -> nat {
    max_nat(max_len_upto(rows, 0, rows.len()), 8)
}

/// Width of the size column.
pub open spec fn size_width(rows: Seq<TemplateRow>) -> nat {
    max_nat(max_len_upto(rows, 1, rows.len()), 6)
}

/// Width of the field column.
pub open spec fn field_width(rows: Seq<TemplateRow>) -> nat {
    if rows.len() == 0 {
        5
    } else {
        max_len_upto(rows, 2, rows.len())
    }
}

/// The facts listed above the table: extensions, signature, footer (when
/// the format has one) and byte order.
pub open spec fn info_lines(t: HeaderTemplate) -> Seq<Seq<char>> {
    seq!["  Extensions  : "@ + t.ext@, "  Signature   : "@ + hex_spaced(t.signature@)] + if t.footer@.len()
        > 0 {
        seq!["  Footer      : "@ + hex_spaced(t.footer@)]
    } else {
        Seq::empty()
    } + seq!["  Byte order  : "@ + t.endian@]
}

/// The largest length in characters among the first `k` of `lines`.
pub open spec fn max_chars_upto(lines: Seq<Seq<char>>, k: nat) -> nat
    decreases k,
{
    if k == 0 {
        0
    } else {
        max_nat(max_chars_upto(lines, (k - 1) as nat), lines[k - 1].len())
    }
}

/// The title of the template.
pub open spec fn template_title(t: HeaderTemplate) -> Seq<char> {
    t.name@ + " Header Template"@
}

/// Width of the frame around the title and the facts.
pub open spec fn frame_width(t: HeaderTemplate) -> nat {
    let inner = offset_width(t.rows@) + size_width(t.rows@) + field_width(t.rows@) + 8;
    let info = info_lines(t);
    max_nat(
        max_nat(inner, max_chars_upto(info, info.len()) + 2),
        template_title(t).len() + 6,
    )
}

/// Whether the widths of the drawing fit in a `usize`.
pub open spec fn template_fits(t: HeaderTemplate) -> bool {
    let info = info_lines(t);
    &&& offset_width(t.rows@) + size_width(t.rows@) + field_width(t.rows@) + 8 <= usize::MAX
    &&& max_chars_upto(info, info.len()) + 2 <= usize::MAX
    &&& template_title(t).len() + 6 <= usize::MAX
}

/// The first `k` facts, each framed on a line of its own.
pub open spec fn framed_upto(lines: Seq<Seq<char>>, w: nat, k: nat) -> Seq<char>
    decreases k,
{
    if k == 0 {
        Seq::empty()
    } else {
        framed_upto(lines, w, (k - 1) as nat) + "║ "@ + padded(lines[k - 1], ' ', w) + "║\n"@
    }
}

/// A horizontal rule of the table, with the given corner and junction
/// characters.
pub open spec fn table_rule(a: nat, b: nat, c: nat, left: char, mid: char, right: char) -> Seq<
    char,
> {
    seq![left, '─'] + repeat_char('─', a) + seq!['─', mid, '─'] + repeat_char('─', b) + seq![
        '─',
        mid,
        '─',
    ] + repeat_char('─', c) + seq!['─', right, '\n']
}

/// A line of the table.
pub open spec fn table_line(a: nat, b: nat, c: nat, x: Seq<char>, y: Seq<char>, z: Seq<char>) -> Seq<
    char,
> {
    "│ "@ + padded(x, ' ', a) + " │ "@ + padded(y, ' ', b) + " │ "@ + padded(z, ' ', c) + " │\n"@
}

/// The first `k` rows of the table.
pub open spec fn table_rows_upto(rows: Seq<TemplateRow>, a: nat, b: nat, c: nat, k: nat) -> Seq<
    char,
>
    decreases k,
{
    if k == 0 {
        Seq::empty()
    } else {
        table_rows_upto(rows, a, b, c, (k - 1) as nat) + table_line(
            a,
            b,
            c,
            rows[k - 1].offset@,
            rows[k - 1].size@,
            rows[k - 1].field@,
        )
    }
}

/// The drawing of a template: a double-lined frame with the title and the
/// facts, then a table of the header's fields.
pub open spec fn spec_render_template(t: HeaderTemplate) -> Seq<char> {
    let rows = t.rows@;
    let a = offset_width(rows);
    let b = size_width(rows);
    let c = field_width(rows);
    let w = frame_width(t);
    let info = info_lines(t);
    "╔"@ + padded("══ "@ + template_title(t) + " "@, '═', w) + "╗\n"@ + framed_upto(
        info,
        w,
        info.len(),
    ) + "╚"@ + repeat_char('═', w) + "\n\n"@ + table_rule(a, b, c, '┌', '┬', '┐') + table_line(
        a,
        b,
        c,
        "Offset"@,
        "Size"@,
        "Field"@,
    ) + table_rule(a, b, c, '├', '┼', '┤') + table_rows_upto(rows, a, b, c, rows.len())
        + table_rule(a, b, c, '└', '┴', '┘')
}

/// Appends a horizontal rule of the table.
fn push_rule(out: &mut String, a: usize, b: usize, c: usize, left: char, mid: char, right: char)
    ensures
        final(out)@ == old(out)@ + table_rule(a as nat, b as nat, c as nat, left, mid, right),
{
    push_char(out, left);
    push_char(out, '─');
    push_repeat(out, '─', a);
    push_char(out, '─');
    push_char(out, mid);
    push_char(out, '─');
    push_repeat(out, '─', b);
    push_char(out, '─');
    push_char(out, mid);
    push_char(out, '─');
    push_repeat(out, '─', c);
    push_char(out, '─');
    push_char(out, right);
    push_char(out, '\n');
    assert(out@ =~= old(out)@ + table_rule(a as nat, b as nat, c as nat, left, mid, right));
}

/// Appends a line of the table.
fn push_table_line(out: &mut String, a: usize, b: usize, c: usize, x: &str, y: &str, z: &str)
    ensures
        final(out)@ == old(out)@ + table_line(a as nat, b as nat, c as nat, x@, y@, z@),
{
    push_str(out, "│ ");
    push_padded(out, x, ' ', a);
    push_str(out, " │ ");
    push_padded(out, y, ' ', b);
    push_str(out, " │ ");
    push_padded(out, z, ' ', c);
    push_str(out, " │\n");
    assert(out@ =~= old(out)@ + table_line(a as nat, b as nat, c as nat, x@, y@, z@));
}

/// The largest byte length in column `col` of `rows`.
fn max_len(rows: &Vec<TemplateRow>, col: usize) -> (r: usize)
    ensures
        r == max_len_upto(rows@, col as int, rows@.len()),
{
    let mut m: usize = 0;
    let mut i: usize = 0;
    while i < rows.len()
        invariant
            i <= rows@.len(),
            m == max_len_upto(rows@, col as int, i as nat),
        decreases rows@.len() - i,
    {
        let r = rows[i];
        let l = if col == 0 {
            r.offset.len()
        } else if col == 1 {
            r.size.len()
        } else {
            r.field.len()
        };
        if l > m {
            m = l;
        }
        i += 1;
    }
    m
}

/// The facts listed above the table.
fn make_info_lines(t: &HeaderTemplate) -> (r: Vec<String>)
    ensures
        r@.map_values(|s: String| s@) == info_lines(*t),
{
    let mut v: Vec<String> = Vec::new();
    let mut l = String::new();
    push_str(&mut l, "  Extensions  : ");
    push_str(&mut l, t.ext);
    v.push(l);
    let mut l = String::new();
    push_str(&mut l, "  Signature   : ");
    push_hex_spaced(&mut l, t.signature.as_slice());
    v.push(l);
    if t.footer.len() > 0 {
        let mut l = String::new();
        push_str(&mut l, "  Footer      : ");
        push_hex_spaced(&mut l, t.footer.as_slice());
        v.push(l);
    }
    let mut l = String::new();
    push_str(&mut l, "  Byte order  : ");
    push_str(&mut l, t.endian);
    v.push(l);
    assert(v@.map_values(|s: String| s@) =~= info_lines(*t));
    v
}

/// Draws a template: a double-lined frame with the title and the facts,
/// then a table of the header's fields.
pub fn render_template(t: &HeaderTemplate) -> (r: String)
    requires
        template_fits(*t),
    ensures
        r@ == spec_render_template(*t),
{
    let rows = &t.rows;
    let mo = max_len(rows, 0);
    let a: usize = if mo >= 8 {
        mo
    } else {
        8
    };
    let ms = max_len(rows, 1);
    let b: usize = if ms >= 6 {
        ms
    } else {
        6
    };
    let c: usize = if rows.len() == 0 {
        5
    } else {
        max_len(rows, 2)
    };
    let inner = a + b + c + 8;
    let mut title = String::new();
    push_str(&mut title, t.name);
    push_str(&mut title, " Header Template");
    let info = make_info_lines(t);
    let ghost info_v = info@.map_values(|s: String| s@);
    let mut info_w: usize = 0;
    let mut i: usize = 0;
    while i < info.len()
        invariant
            i <= info@.len(),
            info_v == info@.map_values(|s: String| s@),
            info_w == max_chars_upto(info_v, i as nat),
        decreases info@.len() - i,
    {
        let n = info[i].as_str().unicode_len();
        assert(info_v[i as int] == info@[i as int]@);
        if n > info_w {
            info_w = n;
        }
        i += 1;
    }
    let tl = title.as_str().unicode_len();
    let mut w = if inner >= info_w + 2 {
        inner
    } else {
        info_w + 2
    };
    if tl + 6 > w {
        w = tl + 6;
    }
    assert(w == frame_width(*t));
    let mut out = String::new();
    push_str(&mut out, "╔");
    let mut head = String::new();
    push_str(&mut head, "══ ");
    push_str(&mut head, title.as_str());
    push_str(&mut head, " ");
    push_padded(&mut out, head.as_str(), '═', w);
    push_str(&mut out, "╗\n");
    let ghost base = out@;
    let mut k: usize = 0;
    while k < info.len()
        invariant
            k <= info@.len(),
            info_v == info@.map_values(|s: String| s@),
            out@ == base + framed_upto(info_v, w as nat, k as nat),
        decreases info@.len() - k,
    {
        assert(info_v[k as int] == info@[k as int]@);
        push_str(&mut out, "║ ");
        push_padded(&mut out, info[k].as_str(), ' ', w);
        push_str(&mut out, "║\n");
        k += 1;
        assert(out@ =~= base + framed_upto(info_v, w as nat, k as nat));
    }
    push_str(&mut out, "╚");
    push_repeat(&mut out, '═', w);
    push_str(&mut out, "\n\n");
    push_rule(&mut out, a, b, c, '┌', '┬', '┐');
    push_table_line(&mut out, a, b, c, "Offset", "Size", "Field");
    push_rule(&mut out, a, b, c, '├', '┼', '┤');
    let ghost base2 = out@;
    let mut j: usize = 0;
    while j < rows.len()
        invariant
            j <= rows@.len(),
            out@ == base2 + table_rows_upto(rows@, a as nat, b as nat, c as nat, j as nat),
        decreases rows@.len() - j,
    {
        let row = rows[j];
        push_table_line(&mut out, a, b, c, row.offset, row.size, row.field);
        j += 1;
        assert(out@ =~= base2 + table_rows_upto(rows@, a as nat, b as nat, c as nat, j as nat));
    }
    push_rule(&mut out, a, b, c, '└', '┴', '┘');
    assert(out@ =~= spec_render_template(*t));
    out
}

fn row(offset: &'static str, size: &'static str, field: &'static str) -> (r: TemplateRow)
    ensures
        r.offset == offset,
        r.size == size,
        r.field == field,
{
    TemplateRow { offset, size, field }
}

/// The header templates of the formats the tool knows, in the order they
/// are listed.
pub fn header_templates() -> (r: Vec<HeaderTemplate>)
    ensures
        r@.len() == 15,
        r@[0].name@ == "JPEG"@ && r@[0].signature@ == seq![0xFFu8, 0xD8u8, 0xFFu8] && r@[0].footer@ == seq![0xFFu8, 0xD9u8]
            && r@[0].rows@.len() == 12,
        r@[1].name@ == "PNG"@ && r@[1].signature@ == seq![0x89u8, 0x50u8, 0x4Eu8, 0x47u8, 0x0Du8, 0x0Au8, 0x1Au8, 0x0Au8] && r@[1].footer@ == Seq::<u8>::empty()
            && r@[1].rows@.len() == 14,
        r@[2].name@ == "GIF"@ && r@[2].signature@ == seq![0x47u8, 0x49u8, 0x46u8, 0x38u8] && r@[2].footer@ == seq![0x3Bu8]
            && r@[2].rows@.len() == 10,
        r@[3].name@ == "PDF"@ && r@[3].signature@ == seq![0x25u8, 0x50u8, 0x44u8, 0x46u8] && r@[3].footer@ == seq![0x25u8, 0x25u8, 0x45u8, 0x4Fu8, 0x46u8]
            && r@[3].rows@.len() == 6,
        r@[4].name@ == "ZIP"@ && r@[4].signature@ == seq![0x50u8, 0x4Bu8, 0x03u8, 0x04u8] && r@[4].footer@ == Seq::<u8>::empty()
            && r@[4].rows@.len() == 12,
        r@[5].name@ == "BMP"@ && r@[5].signature@ == seq![0x42u8, 0x4Du8] && r@[5].footer@ == Seq::<u8>::empty()
            && r@[5].rows@.len() == 16,
        r@[6].name@ == "RIFF"@ && r@[6].signature@ == seq![0x52u8, 0x49u8, 0x46u8, 0x46u8] && r@[6].footer@ == Seq::<u8>::empty()
            && r@[6].rows@.len() == 7,
        r@[7].name@ == "MP3"@ && r@[7].signature@ == seq![0x49u8, 0x44u8, 0x33u8] && r@[7].footer@ == Seq::<u8>::empty()
            && r@[7].rows@.len() == 8,
        r@[8].name@ == "FLAC"@ && r@[8].signature@ == seq![0x66u8, 0x4Cu8, 0x61u8, 0x43u8] && r@[8].footer@ == Seq::<u8>::empty()
            && r@[8].rows@.len() == 6,
        r@[9].name@ == "TIFF"@ && r@[9].signature@ == seq![0x49u8, 0x49u8, 0x2Au8, 0x00u8] && r@[9].footer@ == Seq::<u8>::empty()
            && r@[9].rows@.len() == 6,
        r@[10].name@ == "ELF"@ && r@[10].signature@ == seq![0x7Fu8, 0x45u8, 0x4Cu8, 0x46u8] && r@[10].footer@ == Seq::<u8>::empty()
            && r@[10].rows@.len() == 19,
        r@[11].name@ == "EXE"@ && r@[11].signature@ == seq![0x4Du8, 0x5Au8] && r@[11].footer@ == Seq::<u8>::empty()
            && r@[11].rows@.len() == 13,
        r@[12].name@ == "WebM"@ && r@[12].signature@ == seq![0x1Au8, 0x45u8, 0xDFu8, 0xA3u8] && r@[12].footer@ == Seq::<u8>::empty()
            && r@[12].rows@.len() == 4,
        r@[13].name@ == "Ogg"@ && r@[13].signature@ == seq![0x4Fu8, 0x67u8, 0x67u8, 0x53u8] && r@[13].footer@ == Seq::<u8>::empty()
            && r@[13].rows@.len() == 10,
        r@[14].name@ == "Java Class"@ && r@[14].signature@ == seq![0xCAu8, 0xFEu8, 0xBAu8, 0xBEu8] && r@[14].footer@ == Seq::<u8>::empty()
            && r@[14].rows@.len() == 10,
{
    vec![
        HeaderTemplate {
            name: "JPEG",
            ext: ".jpg .jpeg .jfif",
            signature: vec![0xFF, 0xD8, 0xFF],
            footer: vec![0xFF, 0xD9],
            endian: "Big-endian",
            rows: vec![
                row("0x0000", "2", "SOI marker  (FF D8)"),
                row("0x0002", "2", "APP0 marker (FF E0)"),
                row("0x0004", "2", "Segment length"),
                row("0x0006", "5", "Identifier 'JFIF\\0'"),
                row("0x000B", "2", "Version (major.minor)"),
                row("0x000D", "1", "Units (0=none,1=dpi,2=dpcm)"),
                row("0x000E", "2", "X density"),
                row("0x0010", "2", "Y density"),
                row("0x0012", "2", "Thumbnail X/Y"),
                row("0x0014", "…", "DQT, SOF0, DHT, SOS segments"),
                row("…", "…", "Compressed scan data"),
                row("End", "2", "EOI marker  (FF D9)"),
            ],
        },
        HeaderTemplate {
            name: "PNG",
            ext: ".png",
            signature: vec![0x89, 0x50, 0x4E, 0x47, 0x0D, 0x0A, 0x1A, 0x0A],
            footer: Vec::new(),
            endian: "Big-endian",
            rows: vec![
                row("0x0000", "8", "PNG signature 89 50 4E 47 0D 0A 1A 0A"),
                row("0x0008", "4", "First chunk length (13)"),
                row("0x000C", "4", "Chunk type 'IHDR'"),
                row("0x0010", "4", "Width"),
                row("0x0014", "4", "Height"),
                row("0x0018", "1", "Bit depth"),
                row("0x0019", "1", "Color type"),
                row("0x001A", "1", "Compression method"),
                row("0x001B", "1", "Filter method"),
                row("0x001C", "1", "Interlace method"),
                row("0x001D", "4", "CRC-32 of IHDR"),
                row("0x0021", "…", "PLTE / tRNS / IDAT chunks"),
                row("…", "…", "Compressed image data"),
                row("End", "12", "IEND chunk (len 0 + 'IEND' + CRC)"),
            ],
        },
        HeaderTemplate {
            name: "GIF",
            ext: ".gif",
            signature: vec![0x47, 0x49, 0x46, 0x38],
            footer: vec![0x3B],
            endian: "Little-endian",
            rows: vec![
                row("0x0000", "3", "Signature 'GIF'"),
                row("0x0003", "3", "Version '87a' or '89a'"),
                row("0x0006", "2", "Logical screen width"),
                row("0x0008", "2", "Logical screen height"),
                row("0x000A", "1", "Packed fields (GCT flag/size)"),
                row("0x000B", "1", "Background color index"),
                row("0x000C", "1", "Pixel aspect ratio"),
                row("0x000D", "…", "Global Color Table (optional)"),
                row("0x000D", "…", "Image descriptors / extensions"),
                row("End", "1", "Trailer byte  (0x3B)"),
            ],
        },
        HeaderTemplate {
            name: "PDF",
            ext: ".pdf",
            signature: vec![0x25, 0x50, 0x44, 0x46],
            footer: vec![0x25, 0x25, 0x45, 0x4F, 0x46],
            endian: "n/a",
            rows: vec![
                row("0x0000", "5", "Header '%PDF-1.x'"),
                row("0x0005", "…", "Body (objects, streams)"),
                row("…", "…", "Cross-reference table"),
                row("…", "…", "Trailer dictionary"),
                row("…", "…", "startxref offset"),
                row("End", "5", "Indicator '%%EOF'"),
            ],
        },
        HeaderTemplate {
            name: "ZIP",
            ext: ".zip .jar .odt .docx",
            signature: vec![0x50, 0x4B, 0x03, 0x04],
            footer: Vec::new(),
            endian: "Little-endian",
            rows: vec![
                row("0x0000", "4", "Local file header sig 'PK\\x03\\x04'"),
                row("0x0004", "2", "Version needed"),
                row("0x0006", "2", "General purpose bit flag"),
                row("0x0008", "2", "Compression method"),
                row("0x000A", "2", "Last mod time"),
                row("0x000C", "2", "Last mod date"),
                row("0x000E", "4", "CRC-32"),
                row("0x0012", "4", "Compressed size"),
                row("0x0016", "4", "Uncompressed size"),
                row("0x001A", "2", "File name length"),
                row("0x001C", "2", "Extra field length"),
                row("0x001E", "…", "File name + extra field"),
            ],
        },
        HeaderTemplate {
            name: "BMP",
            ext: ".bmp .dib",
            signature: vec![0x42, 0x4D],
            footer: Vec::new(),
            endian: "Little-endian",
            rows: vec![
                row("0x0000", "2", "Signature 'BM'"),
                row("0x0002", "4", "File size"),
                row("0x0006", "4", "Reserved"),
                row("0x000A", "4", "Pixel data offset"),
                row("0x000E", "4", "DIB header size (40)"),
                row("0x0012", "4", "Width (signed)"),
                row("0x0016", "4", "Height (signed)"),
                row("0x001A", "2", "Color planes (1)"),
                row("0x001C", "2", "Bits per pixel"),
                row("0x001E", "4", "Compression (BI_RGB…)"),
                row("0x0022", "4", "Image size / 0"),
                row("0x0026", "4", "X pixels per meter"),
                row("0x002A", "4", "Y pixels per meter"),
                row("0x002E", "4", "Colors used"),
                row("0x0032", "4", "Important colors"),
                row("0x0036", "…", "Pixel array (BGR)"),
            ],
        },
        HeaderTemplate {
            name: "RIFF",
            ext: ".wav .avi .webp",
            signature: vec![0x52, 0x49, 0x46, 0x46],
            footer: Vec::new(),
            endian: "Little-endian",
            rows: vec![
                row("0x0000", "4", "Signature 'RIFF'"),
                row("0x0004", "4", "Chunk size (file size − 8)"),
                row("0x0008", "4", "Form type 'WAVE' / 'AVI '"),
                row("0x000C", "4", "Chunk ID"),
                row("0x0010", "4", "Chunk size"),
                row("0x0014", "…", "Chunk data (fmt/data for WAV)"),
                row("…", "…", "More chunks / LIST, movi for AVI"),
            ],
        },
        HeaderTemplate {
            name: "MP3",
            ext: ".mp3",
            signature: vec![0x49, 0x44, 0x33],
            footer: Vec::new(),
            endian: "Big-endian",
            rows: vec![
                row("0x0000", "3", "Tag identifier 'ID3'"),
                row("0x0003", "2", "Version (e.g. 03 00)"),
                row("0x0005", "1", "Flags (unsync/extended/exp)"),
                row("0x0006", "4", "Tag size (synchsafe)"),
                row("0x000A", "…", "Frames: ID + size + flags + data"),
                row("…", "4", "Audio frame sync 'FF FB' / 'FF F3'"),
                row("…", "2", "Frame header: version/layer/bitrate"),
                row("…", "…", "Side info + main data"),
            ],
        },
        HeaderTemplate {
            name: "FLAC",
            ext: ".flac",
            signature: vec![0x66, 0x4C, 0x61, 0x43],
            footer: Vec::new(),
            endian: "Big-endian",
            rows: vec![
                row("0x0000", "4", "Signal 'fLaC'"),
                row("0x0004", "1", "Metadata block header (type+last)"),
                row("0x0005", "3", "Metadata block length"),
                row("0x0008", "34", "STREAMINFO block"),
                row("0x002A", "…", "More blocks (VORBIS_COMMENT…)"),
                row("…", "…", "Audio frames (sync 'FF F8')"),
            ],
        },
        HeaderTemplate {
            name: "TIFF",
            ext: ".tif .tiff",
            signature: vec![0x49, 0x49, 0x2A, 0x00],
            footer: Vec::new(),
            endian: "II=LE / MM=BE",
            rows: vec![
                row("0x0000", "2", "Byte order 'II' (LE) / 'MM' (BE)"),
                row("0x0002", "2", "Version 42 (0x2A)"),
                row("0x0004", "4", "Offset to first IFD"),
                row("0x0008", "2", "Number of IFD entries"),
                row("0x000A", "12·n", "IFD entries (tag,type,count,value)"),
                row("…", "4", "Offset to next IFD / 0"),
            ],
        },
        HeaderTemplate {
            name: "ELF",
            ext: ".elf .o .so",
            signature: vec![0x7F, 0x45, 0x4C, 0x46],
            footer: Vec::new(),
            endian: "Class-dependent",
            rows: vec![
                row("0x0000", "4", "Magic 7F 'E' 'L' 'F'"),
                row("0x0004", "1", "Class (1=32-bit, 2=64-bit)"),
                row("0x0005", "1", "Data encoding (1=LE, 2=BE)"),
                row("0x0006", "1", "Version (1)"),
                row("0x0007", "1", "OS/ABI"),
                row("0x0008", "8", "Padding"),
                row("0x0010", "2", "Type (REL/EXEC/DYN)"),
                row("0x0012", "2", "Machine"),
                row("0x0014", "4", "Version"),
                row("0x0018", "4/8", "Entry point"),
                row("0x001C", "4/8", "Program header offset"),
                row("0x0020", "4/8", "Section header offset"),
                row("0x0028", "4", "Flags"),
                row("0x002C", "2", "ELF header size (52/64)"),
                row("0x002E", "2", "Program header entry size"),
                row("0x0030", "2", "Program header count"),
                row("0x0032", "2", "Section header entry size"),
                row("0x0034", "2", "Section header count"),
                row("0x0036", "2", "String table index"),
            ],
        },
        HeaderTemplate {
            name: "EXE",
            ext: ".exe .dll",
            signature: vec![0x4D, 0x5A],
            footer: Vec::new(),
            endian: "Little-endian",
            rows: vec![
                row("0x0000", "2", "DOS magic 'MZ'"),
                row("0x0002", "…", "DOS header / stub"),
                row("0x003C", "4", "e_lfanew → PE header offset"),
                row("e_lfanew", "4", "PE signature 'PE\\x00\\x00'"),
                row("+0x0004", "2", "Machine"),
                row("+0x0006", "2", "Number of sections"),
                row("+0x0008", "4", "TimeDateStamp"),
                row("+0x000C", "4", "Pointer to symbol table"),
                row("+0x0010", "4", "Number of symbols"),
                row("+0x0014", "2", "Size of optional header"),
                row("+0x0016", "2", "Characteristics"),
                row("+0x0018", "…", "Optional header (magic 0x10B/0x20B)"),
                row("…", "…", "Section table + raw data"),
            ],
        },
        HeaderTemplate {
            name: "WebM",
            ext: ".webm .mkv",
            signature: vec![0x1A, 0x45, 0xDF, 0xA3],
            footer: Vec::new(),
            endian: "VINT",
            rows: vec![
                row("0x0000", "4", "EBML element ID 1A 45 DF A3"),
                row("0x0004", "…", "EBML header (version, DocType)"),
                row("…", "…", "Segment element 18 53 80 67"),
                row("…", "…", "Info / Tracks / Cluster blocks"),
            ],
        },
        HeaderTemplate {
            name: "Ogg",
            ext: ".ogg .oga .ogv",
            signature: vec![0x4F, 0x67, 0x67, 0x53],
            footer: Vec::new(),
            endian: "Little-endian",
            rows: vec![
                row("0x0000", "4", "Capture pattern 'OggS'"),
                row("0x0004", "1", "Version (0)"),
                row("0x0005", "1", "Header type (BOS/EOS/cont)"),
                row("0x0006", "8", "Granule position"),
                row("0x000E", "4", "Bitstream serial"),
                row("0x0012", "4", "Page sequence"),
                row("0x0016", "4", "CRC-32"),
                row("0x001A", "1", "Segment count"),
                row("0x001B", "n", "Segment table"),
                row("…", "…", "Segment data (packets)"),
            ],
        },
        HeaderTemplate {
            name: "Java Class",
            ext: ".class",
            signature: vec![0xCA, 0xFE, 0xBA, 0xBE],
            footer: Vec::new(),
            endian: "Big-endian",
            rows: vec![
                row("0x0000", "4", "Magic 0xCAFEBABE"),
                row("0x0004", "2", "Minor version"),
                row("0x0006", "2", "Major version (52=Java 8)"),
                row("0x0008", "2", "Constant pool count"),
                row("0x000A", "…", "Constant pool entries"),
                row("…", "2", "Access flags"),
                row("…", "2", "This class (cp index)"),
                row("…", "2", "Super class (cp index)"),
                row("…", "2", "Interfaces count"),
                row("…", "…", "Interfaces / fields / methods"),
            ],
        },
    ]
}

/// A byte in two upper-case hexadecimal digits.
proof fn lemma_hex_byte(b: u8)
    ensures
        hex_padded(b as nat, 2) == seq![hex_digit((b / 16) as int), hex_digit((b % 16) as int)],
{
    let n = b as nat;
    if n < 16 {
        assert(hex_digits(n) == seq![hex_digit(n as int)]);
        assert(hex_digit(0) == '0');
        assert(repeat_char('0', 1) =~= seq!['0']);
        assert(seq!['0'] + seq![hex_digit(n as int)] =~= seq![hex_digit(0), hex_digit(n as int)]);
    } else {
        assert(n / 16 < 16);
        assert(hex_digits(n / 16) == seq![hex_digit((n / 16) as int)]);
        assert(hex_digits(n) =~= seq![hex_digit((n / 16) as int), hex_digit((n % 16) as int)]);
    }
}

/// Two hexadecimal digits and a separator.
proof fn lemma_hex_spaced_push(b: Seq<u8>, x: u8)
    requires
        b.len() > 0,
    ensures
        hex_spaced(b.push(x)) == hex_spaced(b) + seq![' ', hex_digit((x / 16) as int), hex_digit((x % 16) as int)],
{
    assert(b.push(x).drop_last() =~= b);
    lemma_hex_byte(x);
    assert(seq![' '] + seq![hex_digit((x / 16) as int), hex_digit((x % 16) as int)] =~= seq![
        ' ',
        hex_digit((x / 16) as int),
        hex_digit((x % 16) as int),
    ]);
    assert(hex_spaced(b) + seq![' '] + hex_padded(x as nat, 2) =~= hex_spaced(b) + seq![
        ' ',
        hex_digit((x / 16) as int),
        hex_digit((x % 16) as int),
    ]);
}

/// The footer shown for a file type is its footer bytes in spaced
/// hexadecimal (a dash when it has none), and the footer check of any data
/// is whether it ends with those bytes.
pub proof fn lemma_footer_hex(t: FileType)
    ensures
        match spec_footer_bytes(t) {
            Some(f) => spec_footer_hex(t) == hex_spaced(f),
            None => spec_footer_hex(t) == seq!['\u{2014}'],
        },
        forall|d: Seq<u8>| #[trigger] spec_check_footer(d, t) == (match spec_footer_bytes(t) {
            Some(f) => ends_with(d, f),
            None => true,
        }),
{
    assert(hex_digit(0) == '0' && hex_digit(2) == '2' && hex_digit(3) == '3' && hex_digit(4) == '4');
    assert(hex_digit(5) == '5' && hex_digit(6) == '6' && hex_digit(8) == '8' && hex_digit(9) == '9');
    assert(hex_digit(10) == 'A' && hex_digit(11) == 'B' && hex_digit(13) == 'D' && hex_digit(14) == 'E');
    assert(hex_digit(15) == 'F');
    match t {
        FileType::JPEG => {
            lemma_hex_byte(0xFF);
            lemma_hex_spaced_push(seq![0xFFu8], 0xD9);
            assert(seq![0xFFu8].push(0xD9) =~= seq![0xFFu8, 0xD9]);
            assert(hex_spaced(seq![0xFFu8, 0xD9]) =~= spec_footer_hex(t));
        },
        FileType::GIF => {
            lemma_hex_byte(0x00);
            lemma_hex_spaced_push(seq![0x00u8], 0x3B);
            assert(seq![0x00u8].push(0x3B) =~= seq![0x00u8, 0x3B]);
            assert(hex_spaced(seq![0x00u8, 0x3B]) =~= spec_footer_hex(t));
        },
        FileType::PDF => {
            let f = seq![0x25u8, 0x25, 0x45, 0x4F, 0x46];
            lemma_hex_byte(0x25);
            lemma_hex_spaced_push(f.take(1), 0x25);
            assert(f.take(1).push(0x25) =~= f.take(2));
            lemma_hex_spaced_push(f.take(2), 0x45);
            assert(f.take(2).push(0x45) =~= f.take(3));
            lemma_hex_spaced_push(f.take(3), 0x4F);
            assert(f.take(3).push(0x4F) =~= f.take(4));
            lemma_hex_spaced_push(f.take(4), 0x46);
            assert(f.take(4).push(0x46) =~= f);
            assert(hex_spaced(f) =~= spec_footer_hex(t));
        },
        FileType::PNG => {
            let f = seq![0x49u8, 0x45, 0x4E, 0x44, 0xAE, 0x42, 0x60, 0x82];
            lemma_hex_byte(0x49);
            lemma_hex_spaced_push(f.take(1), 0x45);
            assert(f.take(1).push(0x45) =~= f.take(2));
            lemma_hex_spaced_push(f.take(2), 0x4E);
            assert(f.take(2).push(0x4E) =~= f.take(3));
            lemma_hex_spaced_push(f.take(3), 0x44);
            assert(f.take(3).push(0x44) =~= f.take(4));
            lemma_hex_spaced_push(f.take(4), 0xAE);
            assert(f.take(4).push(0xAE) =~= f.take(5));
            lemma_hex_spaced_push(f.take(5), 0x42);
            assert(f.take(5).push(0x42) =~= f.take(6));
            lemma_hex_spaced_push(f.take(6), 0x60);
            assert(f.take(6).push(0x60) =~= f.take(7));
            lemma_hex_spaced_push(f.take(7), 0x82);
            assert(f.take(7).push(0x82) =~= f);
            assert(hex_spaced(f) =~= spec_footer_hex(t));
        },
        _ => {},
    }
}

/// The header signature a file type advertises, taking the first
/// alternative where its hexadecimal text offers two (none for `Unknown`).
pub open spec fn spec_header_bytes(t: FileType) -> Seq<u8> {
    match t {
        FileType::Unknown => Seq::empty(),
        FileType::JPEG => seq![0xFFu8, 0xD8, 0xFF, 0xE0],
        FileType::PNG => seq![0x89u8, 0x50, 0x4E, 0x47, 0x0D, 0x0A, 0x1A, 0x0A],
        FileType::GIF => seq![0x47u8, 0x49, 0x46, 0x38, 0x39, 0x61],
        FileType::PDF => seq![0x25u8, 0x50, 0x44, 0x46],
        FileType::ZIP => seq![0x50u8, 0x4B, 0x03, 0x04],
        FileType::BMP => seq![0x42u8, 0x4D],
        FileType::RIFF => seq![0x52u8, 0x49, 0x46, 0x46],
        FileType::ELF => seq![0x7Fu8, 0x45, 0x4C, 0x46],
        FileType::MP3 => seq![0x49u8, 0x44, 0x33],
        FileType::FLAC => seq![0x66u8, 0x4C, 0x61, 0x43],
        FileType::TIFF => seq![0x49u8, 0x49, 0x2A, 0x00],
        FileType::PSD => seq![0x38u8, 0x42, 0x50, 0x53],
        FileType::EXE => seq![0x4Du8, 0x5A],
        FileType::JavaClass => seq![0xCAu8, 0xFE, 0xBA, 0xBE],
    }
}

/// `b` followed by zeros up to four bytes.
pub open spec fn pad4(b: Seq<u8>) -> Seq<u8> {
    if b.len() < 4 {
        b + Seq::new((4 - b.len()) as nat, |i: int| 0u8)
    } else {
        b
    }
}

proof fn hex_digit_facts()
    ensures
        hex_digit(0) == '0' && hex_digit(1) == '1' && hex_digit(2) == '2' && hex_digit(3) == '3',
        hex_digit(4) == '4' && hex_digit(5) == '5' && hex_digit(6) == '6' && hex_digit(7) == '7',
        hex_digit(8) == '8' && hex_digit(9) == '9' && hex_digit(10) == 'A' && hex_digit(11) == 'B',
        hex_digit(12) == 'C' && hex_digit(13) == 'D' && hex_digit(14) == 'E' && hex_digit(15) == 'F',
{
}

proof fn lemma_detect_jpeg()
    ensures
        spec_detect_type(pad4(spec_header_bytes(FileType::JPEG))) == FileType::JPEG,
{
    let b = spec_header_bytes(FileType::JPEG);
    assert(b =~= seq![0xFFu8, 0xD8, 0xFF, 0xE0]);
    let p = pad4(b);
    assert(p =~= seq![0xFFu8, 0xD8, 0xFF, 0xE0]);
    assert(p.subrange(0, 2) =~= seq![0xFFu8, 0xD8]);
    assert(p.subrange(0, 3) =~= seq![0xFFu8, 0xD8, 0xFF]);
    assert(p.subrange(0, 4) =~= seq![0xFFu8, 0xD8, 0xFF, 0xE0]);
}

proof fn lemma_header_text_jpeg()
    ensures
        crate::system::starts_with_chars(spec_header_hex(FileType::JPEG), hex_spaced(spec_header_bytes(FileType::JPEG))),
{
    hex_digit_facts();
    let b = spec_header_bytes(FileType::JPEG);
    assert(b =~= seq![0xFFu8, 0xD8, 0xFF, 0xE0]);
    lemma_hex_byte(b[0]);
    assert(b.take(1) =~= seq![b[0]]);
    lemma_hex_spaced_push(b.take(1), b[1]);
    assert(b.take(1).push(b[1]) =~= b.take(2));
    lemma_hex_spaced_push(b.take(2), b[2]);
    assert(b.take(2).push(b[2]) =~= b.take(3));
    lemma_hex_spaced_push(b.take(3), b[3]);
    assert(b.take(3).push(b[3]) =~= b.take(4));
    assert(b.take(4) =~= b);
    assert(hex_spaced(b) =~= spec_header_hex(FileType::JPEG).subrange(0, 11));
}

proof fn lemma_detect_png()
    ensures
        spec_detect_type(pad4(spec_header_bytes(FileType::PNG))) == FileType::PNG,
{
    let b = spec_header_bytes(FileType::PNG);
    assert(b =~= seq![0x89u8, 0x50, 0x4E, 0x47, 0x0D, 0x0A, 0x1A, 0x0A]);
    let p = pad4(b);
    assert(p =~= seq![0x89u8, 0x50, 0x4E, 0x47, 0x0D, 0x0A, 0x1A, 0x0A]);
    assert(p.subrange(0, 2) =~= seq![0x89u8, 0x50]);
    assert(p.subrange(0, 3) =~= seq![0x89u8, 0x50, 0x4E]);
    assert(p.subrange(0, 4) =~= seq![0x89u8, 0x50, 0x4E, 0x47]);
    assert(p.subrange(0, 8) =~= seq![0x89u8, 0x50, 0x4E, 0x47, 0x0D, 0x0A, 0x1A, 0x0A]);
}

proof fn lemma_header_text_png()
    ensures
        spec_header_hex(FileType::PNG) == hex_spaced(spec_header_bytes(FileType::PNG)),
{
    hex_digit_facts();
    let b = spec_header_bytes(FileType::PNG);
    assert(b =~= seq![0x89u8, 0x50, 0x4E, 0x47, 0x0D, 0x0A, 0x1A, 0x0A]);
    lemma_hex_byte(b[0]);
    assert(b.take(1) =~= seq![b[0]]);
    lemma_hex_spaced_push(b.take(1), b[1]);
    assert(b.take(1).push(b[1]) =~= b.take(2));
    lemma_hex_spaced_push(b.take(2), b[2]);
    assert(b.take(2).push(b[2]) =~= b.take(3));
    lemma_hex_spaced_push(b.take(3), b[3]);
    assert(b.take(3).push(b[3]) =~= b.take(4));
    lemma_hex_spaced_push(b.take(4), b[4]);
    assert(b.take(4).push(b[4]) =~= b.take(5));
    lemma_hex_spaced_push(b.take(5), b[5]);
    assert(b.take(5).push(b[5]) =~= b.take(6));
    lemma_hex_spaced_push(b.take(6), b[6]);
    assert(b.take(6).push(b[6]) =~= b.take(7));
    lemma_hex_spaced_push(b.take(7), b[7]);
    assert(b.take(7).push(b[7]) =~= b.take(8));
    assert(b.take(8) =~= b);
    assert(hex_spaced(b) =~= spec_header_hex(FileType::PNG));
}

proof fn lemma_detect_gif()
    ensures
        spec_detect_type(pad4(spec_header_bytes(FileType::GIF))) == FileType::GIF,
{
    let b = spec_header_bytes(FileType::GIF);
    assert(b =~= seq![0x47u8, 0x49, 0x46, 0x38, 0x39, 0x61]);
    let p = pad4(b);
    assert(p =~= seq![0x47u8, 0x49, 0x46, 0x38, 0x39, 0x61]);
    assert(p.subrange(0, 2) =~= seq![0x47u8, 0x49]);
    assert(p.subrange(0, 3) =~= seq![0x47u8, 0x49, 0x46]);
    assert(p.subrange(0, 4) =~= seq![0x47u8, 0x49, 0x46, 0x38]);
}

proof fn lemma_detect_pdf()
    ensures
        spec_detect_type(pad4(spec_header_bytes(FileType::PDF))) == FileType::PDF,
{
    let b = spec_header_bytes(FileType::PDF);
    assert(b =~= seq![0x25u8, 0x50, 0x44, 0x46]);
    let p = pad4(b);
    assert(p =~= seq![0x25u8, 0x50, 0x44, 0x46]);
    assert(p.subrange(0, 2) =~= seq![0x25u8, 0x50]);
    assert(p.subrange(0, 3) =~= seq![0x25u8, 0x50, 0x44]);
    assert(p.subrange(0, 4) =~= seq![0x25u8, 0x50, 0x44, 0x46]);
}

proof fn lemma_header_text_pdf()
    ensures
        spec_header_hex(FileType::PDF) == hex_spaced(spec_header_bytes(FileType::PDF)),
{
    hex_digit_facts();
    let b = spec_header_bytes(FileType::PDF);
    assert(b =~= seq![0x25u8, 0x50, 0x44, 0x46]);
    lemma_hex_byte(b[0]);
    assert(b.take(1) =~= seq![b[0]]);
    lemma_hex_spaced_push(b.take(1), b[1]);
    assert(b.take(1).push(b[1]) =~= b.take(2));
    lemma_hex_spaced_push(b.take(2), b[2]);
    assert(b.take(2).push(b[2]) =~= b.take(3));
    lemma_hex_spaced_push(b.take(3), b[3]);
    assert(b.take(3).push(b[3]) =~= b.take(4));
    assert(b.take(4) =~= b);
    assert(hex_spaced(b) =~= spec_header_hex(FileType::PDF));
}

proof fn lemma_detect_zip()
    ensures
        spec_detect_type(pad4(spec_header_bytes(FileType::ZIP))) == FileType::ZIP,
{
    let b = spec_header_bytes(FileType::ZIP);
    assert(b =~= seq![0x50u8, 0x4B, 0x03, 0x04]);
    let p = pad4(b);
    assert(p =~= seq![0x50u8, 0x4B, 0x03, 0x04]);
    assert(p.subrange(0, 2) =~= seq![0x50u8, 0x4B]);
    assert(p.subrange(0, 3) =~= seq![0x50u8, 0x4B, 0x03]);
    assert(p.subrange(0, 4) =~= seq![0x50u8, 0x4B, 0x03, 0x04]);
}

proof fn lemma_header_text_zip()
    ensures
        spec_header_hex(FileType::ZIP) == hex_spaced(spec_header_bytes(FileType::ZIP)),
{
    hex_digit_facts();
    let b = spec_header_bytes(FileType::ZIP);
    assert(b =~= seq![0x50u8, 0x4B, 0x03, 0x04]);
    lemma_hex_byte(b[0]);
    assert(b.take(1) =~= seq![b[0]]);
    lemma_hex_spaced_push(b.take(1), b[1]);
    assert(b.take(1).push(b[1]) =~= b.take(2));
    lemma_hex_spaced_push(b.take(2), b[2]);
    assert(b.take(2).push(b[2]) =~= b.take(3));
    lemma_hex_spaced_push(b.take(3), b[3]);
    assert(b.take(3).push(b[3]) =~= b.take(4));
    assert(b.take(4) =~= b);
    assert(hex_spaced(b) =~= spec_header_hex(FileType::ZIP));
}

proof fn lemma_detect_bmp()
    ensures
        spec_detect_type(pad4(spec_header_bytes(FileType::BMP))) == FileType::BMP,
{
    let b = spec_header_bytes(FileType::BMP);
    assert(b =~= seq![0x42u8, 0x4D]);
    let p = pad4(b);
    assert(p =~= seq![0x42u8, 0x4D, 0x00, 0x00]);
    assert(p.subrange(0, 2) =~= seq![0x42u8, 0x4D]);
    assert(p.subrange(0, 3) =~= seq![0x42u8, 0x4D, 0x00]);
    assert(p.subrange(0, 4) =~= seq![0x42u8, 0x4D, 0x00, 0x00]);
}

proof fn lemma_header_text_bmp()
    ensures
        spec_header_hex(FileType::BMP) == hex_spaced(spec_header_bytes(FileType::BMP)),
{
    hex_digit_facts();
    let b = spec_header_bytes(FileType::BMP);
    assert(b =~= seq![0x42u8, 0x4D]);
    lemma_hex_byte(b[0]);
    assert(b.take(1) =~= seq![b[0]]);
    lemma_hex_spaced_push(b.take(1), b[1]);
    assert(b.take(1).push(b[1]) =~= b.take(2));
    assert(b.take(2) =~= b);
    assert(hex_spaced(b) =~= spec_header_hex(FileType::BMP));
}

proof fn lemma_detect_riff()
    ensures
        spec_detect_type(pad4(spec_header_bytes(FileType::RIFF))) == FileType::RIFF,
{
    let b = spec_header_bytes(FileType::RIFF);
    assert(b =~= seq![0x52u8, 0x49, 0x46, 0x46]);
    let p = pad4(b);
    assert(p =~= seq![0x52u8, 0x49, 0x46, 0x46]);
    assert(p.subrange(0, 2) =~= seq![0x52u8, 0x49]);
    assert(p.subrange(0, 3) =~= seq![0x52u8, 0x49, 0x46]);
    assert(p.subrange(0, 4) =~= seq![0x52u8, 0x49, 0x46, 0x46]);
}

proof fn lemma_header_text_riff()
    ensures
        spec_header_hex(FileType::RIFF) == hex_spaced(spec_header_bytes(FileType::RIFF)),
{
    hex_digit_facts();
    let b = spec_header_bytes(FileType::RIFF);
    assert(b =~= seq![0x52u8, 0x49, 0x46, 0x46]);
    lemma_hex_byte(b[0]);
    assert(b.take(1) =~= seq![b[0]]);
    lemma_hex_spaced_push(b.take(1), b[1]);
    assert(b.take(1).push(b[1]) =~= b.take(2));
    lemma_hex_spaced_push(b.take(2), b[2]);
    assert(b.take(2).push(b[2]) =~= b.take(3));
    lemma_hex_spaced_push(b.take(3), b[3]);
    assert(b.take(3).push(b[3]) =~= b.take(4));
    assert(b.take(4) =~= b);
    assert(hex_spaced(b) =~= spec_header_hex(FileType::RIFF));
}

proof fn lemma_detect_elf()
    ensures
        spec_detect_type(pad4(spec_header_bytes(FileType::ELF))) == FileType::ELF,
{
    let b = spec_header_bytes(FileType::ELF);
    assert(b =~= seq![0x7Fu8, 0x45, 0x4C, 0x46]);
    let p = pad4(b);
    assert(p =~= seq![0x7Fu8, 0x45, 0x4C, 0x46]);
    assert(p.subrange(0, 2) =~= seq![0x7Fu8, 0x45]);
    assert(p.subrange(0, 3) =~= seq![0x7Fu8, 0x45, 0x4C]);
    assert(p.subrange(0, 4) =~= seq![0x7Fu8, 0x45, 0x4C, 0x46]);
}

proof fn lemma_header_text_elf()
    ensures
        spec_header_hex(FileType::ELF) == hex_spaced(spec_header_bytes(FileType::ELF)),
{
    hex_digit_facts();
    let b = spec_header_bytes(FileType::ELF);
    assert(b =~= seq![0x7Fu8, 0x45, 0x4C, 0x46]);
    lemma_hex_byte(b[0]);
    assert(b.take(1) =~= seq![b[0]]);
    lemma_hex_spaced_push(b.take(1), b[1]);
    assert(b.take(1).push(b[1]) =~= b.take(2));
    lemma_hex_spaced_push(b.take(2), b[2]);
    assert(b.take(2).push(b[2]) =~= b.take(3));
    lemma_hex_spaced_push(b.take(3), b[3]);
    assert(b.take(3).push(b[3]) =~= b.take(4));
    assert(b.take(4) =~= b);
    assert(hex_spaced(b) =~= spec_header_hex(FileType::ELF));
}

proof fn lemma_detect_mp3()
    ensures
        spec_detect_type(pad4(spec_header_bytes(FileType::MP3))) == FileType::MP3,
{
    let b = spec_header_bytes(FileType::MP3);
    assert(b =~= seq![0x49u8, 0x44, 0x33]);
    let p = pad4(b);
    assert(p =~= seq![0x49u8, 0x44, 0x33, 0x00]);
    assert(p.subrange(0, 2) =~= seq![0x49u8, 0x44]);
    assert(p.subrange(0, 3) =~= seq![0x49u8, 0x44, 0x33]);
    assert(p.subrange(0, 4) =~= seq![0x49u8, 0x44, 0x33, 0x00]);
}

proof fn lemma_header_text_mp3()
    ensures
        spec_header_hex(FileType::MP3) == hex_spaced(spec_header_bytes(FileType::MP3)),
{
    hex_digit_facts();
    let b = spec_header_bytes(FileType::MP3);
    assert(b =~= seq![0x49u8, 0x44, 0x33]);
    lemma_hex_byte(b[0]);
    assert(b.take(1) =~= seq![b[0]]);
    lemma_hex_spaced_push(b.take(1), b[1]);
    assert(b.take(1).push(b[1]) =~= b.take(2));
    lemma_hex_spaced_push(b.take(2), b[2]);
    assert(b.take(2).push(b[2]) =~= b.take(3));
    assert(b.take(3) =~= b);
    assert(hex_spaced(b) =~= spec_header_hex(FileType::MP3));
}

proof fn lemma_detect_flac()
    ensures
        spec_detect_type(pad4(spec_header_bytes(FileType::FLAC))) == FileType::FLAC,
{
    let b = spec_header_bytes(FileType::FLAC);
    assert(b =~= seq![0x66u8, 0x4C, 0x61, 0x43]);
    let p = pad4(b);
    assert(p =~= seq![0x66u8, 0x4C, 0x61, 0x43]);
    assert(p.subrange(0, 2) =~= seq![0x66u8, 0x4C]);
    assert(p.subrange(0, 3) =~= seq![0x66u8, 0x4C, 0x61]);
    assert(p.subrange(0, 4) =~= seq![0x66u8, 0x4C, 0x61, 0x43]);
}

proof fn lemma_header_text_flac()
    ensures
        spec_header_hex(FileType::FLAC) == hex_spaced(spec_header_bytes(FileType::FLAC)),
{
    hex_digit_facts();
    let b = spec_header_bytes(FileType::FLAC);
    assert(b =~= seq![0x66u8, 0x4C, 0x61, 0x43]);
    lemma_hex_byte(b[0]);
    assert(b.take(1) =~= seq![b[0]]);
    lemma_hex_spaced_push(b.take(1), b[1]);
    assert(b.take(1).push(b[1]) =~= b.take(2));
    lemma_hex_spaced_push(b.take(2), b[2]);
    assert(b.take(2).push(b[2]) =~= b.take(3));
    lemma_hex_spaced_push(b.take(3), b[3]);
    assert(b.take(3).push(b[3]) =~= b.take(4));
    assert(b.take(4) =~= b);
    assert(hex_spaced(b) =~= spec_header_hex(FileType::FLAC));
}

proof fn lemma_detect_tiff()
    ensures
        spec_detect_type(pad4(spec_header_bytes(FileType::TIFF))) == FileType::TIFF,
{
    let b = spec_header_bytes(FileType::TIFF);
    assert(b =~= seq![0x49u8, 0x49, 0x2A, 0x00]);
    let p = pad4(b);
    assert(p =~= seq![0x49u8, 0x49, 0x2A, 0x00]);
    assert(p.subrange(0, 2) =~= seq![0x49u8, 0x49]);
    assert(p.subrange(0, 3) =~= seq![0x49u8, 0x49, 0x2A]);
    assert(p.subrange(0, 4) =~= seq![0x49u8, 0x49, 0x2A, 0x00]);
}

proof fn lemma_header_text_tiff()
    ensures
        crate::system::starts_with_chars(spec_header_hex(FileType::TIFF), hex_spaced(spec_header_bytes(FileType::TIFF))),
{
    hex_digit_facts();
    let b = spec_header_bytes(FileType::TIFF);
    assert(b =~= seq![0x49u8, 0x49, 0x2A, 0x00]);
    lemma_hex_byte(b[0]);
    assert(b.take(1) =~= seq![b[0]]);
    lemma_hex_spaced_push(b.take(1), b[1]);
    assert(b.take(1).push(b[1]) =~= b.take(2));
    lemma_hex_spaced_push(b.take(2), b[2]);
    assert(b.take(2).push(b[2]) =~= b.take(3));
    lemma_hex_spaced_push(b.take(3), b[3]);
    assert(b.take(3).push(b[3]) =~= b.take(4));
    assert(b.take(4) =~= b);
    assert(hex_spaced(b) =~= spec_header_hex(FileType::TIFF).subrange(0, 11));
}

proof fn lemma_detect_psd()
    ensures
        spec_detect_type(pad4(spec_header_bytes(FileType::PSD))) == FileType::PSD,
{
    let b = spec_header_bytes(FileType::PSD);
    assert(b =~= seq![0x38u8, 0x42, 0x50, 0x53]);
    let p = pad4(b);
    assert(p =~= seq![0x38u8, 0x42, 0x50, 0x53]);
    assert(p.subrange(0, 2) =~= seq![0x38u8, 0x42]);
    assert(p.subrange(0, 3) =~= seq![0x38u8, 0x42, 0x50]);
    assert(p.subrange(0, 4) =~= seq![0x38u8, 0x42, 0x50, 0x53]);
}

proof fn lemma_header_text_psd()
    ensures
        spec_header_hex(FileType::PSD) == hex_spaced(spec_header_bytes(FileType::PSD)),
{
    hex_digit_facts();
    let b = spec_header_bytes(FileType::PSD);
    assert(b =~= seq![0x38u8, 0x42, 0x50, 0x53]);
    lemma_hex_byte(b[0]);
    assert(b.take(1) =~= seq![b[0]]);
    lemma_hex_spaced_push(b.take(1), b[1]);
    assert(b.take(1).push(b[1]) =~= b.take(2));
    lemma_hex_spaced_push(b.take(2), b[2]);
    assert(b.take(2).push(b[2]) =~= b.take(3));
    lemma_hex_spaced_push(b.take(3), b[3]);
    assert(b.take(3).push(b[3]) =~= b.take(4));
    assert(b.take(4) =~= b);
    assert(hex_spaced(b) =~= spec_header_hex(FileType::PSD));
}

proof fn lemma_detect_exe()
    ensures
        spec_detect_type(pad4(spec_header_bytes(FileType::EXE))) == FileType::EXE,
{
    let b = spec_header_bytes(FileType::EXE);
    assert(b =~= seq![0x4Du8, 0x5A]);
    let p = pad4(b);
    assert(p =~= seq![0x4Du8, 0x5A, 0x00, 0x00]);
    assert(p.subrange(0, 2) =~= seq![0x4Du8, 0x5A]);
    assert(p.subrange(0, 3) =~= seq![0x4Du8, 0x5A, 0x00]);
    assert(p.subrange(0, 4) =~= seq![0x4Du8, 0x5A, 0x00, 0x00]);
}

proof fn lemma_header_text_exe()
    ensures
        spec_header_hex(FileType::EXE) == hex_spaced(spec_header_bytes(FileType::EXE)),
{
    hex_digit_facts();
    let b = spec_header_bytes(FileType::EXE);
    assert(b =~= seq![0x4Du8, 0x5A]);
    lemma_hex_byte(b[0]);
    assert(b.take(1) =~= seq![b[0]]);
    lemma_hex_spaced_push(b.take(1), b[1]);
    assert(b.take(1).push(b[1]) =~= b.take(2));
    assert(b.take(2) =~= b);
    assert(hex_spaced(b) =~= spec_header_hex(FileType::EXE));
}

proof fn lemma_detect_javaclass()
    ensures
        spec_detect_type(pad4(spec_header_bytes(FileType::JavaClass))) == FileType::JavaClass,
{
    let b = spec_header_bytes(FileType::JavaClass);
    assert(b =~= seq![0xCAu8, 0xFE, 0xBA, 0xBE]);
    let p = pad4(b);
    assert(p =~= seq![0xCAu8, 0xFE, 0xBA, 0xBE]);
    assert(p.subrange(0, 2) =~= seq![0xCAu8, 0xFE]);
    assert(p.subrange(0, 3) =~= seq![0xCAu8, 0xFE, 0xBA]);
    assert(p.subrange(0, 4) =~= seq![0xCAu8, 0xFE, 0xBA, 0xBE]);
}

proof fn lemma_header_text_javaclass()
    ensures
        spec_header_hex(FileType::JavaClass) == hex_spaced(spec_header_bytes(FileType::JavaClass)),
{
    hex_digit_facts();
    let b = spec_header_bytes(FileType::JavaClass);
    assert(b =~= seq![0xCAu8, 0xFE, 0xBA, 0xBE]);
    lemma_hex_byte(b[0]);
    assert(b.take(1) =~= seq![b[0]]);
    lemma_hex_spaced_push(b.take(1), b[1]);
    assert(b.take(1).push(b[1]) =~= b.take(2));
    lemma_hex_spaced_push(b.take(2), b[2]);
    assert(b.take(2).push(b[2]) =~= b.take(3));
    lemma_hex_spaced_push(b.take(3), b[3]);
    assert(b.take(3).push(b[3]) =~= b.take(4));
    assert(b.take(4) =~= b);
    assert(hex_spaced(b) =~= spec_header_hex(FileType::JavaClass));
}

/// Every advertised header is recognised as its own type, and the header
/// text spells it: in full, or for JPEG and TIFF, whose text lists another
/// signature after it, as the start of the text. (GIF's text gives the
/// other version byte in place, `39/37`.)
pub proof fn lemma_header_hex(t: FileType)
    requires
        t != FileType::Unknown,
    ensures
        spec_detect_type(pad4(spec_header_bytes(t))) == t,
        t != FileType::JPEG && t != FileType::GIF && t != FileType::TIFF ==> spec_header_hex(t) == hex_spaced(
            spec_header_bytes(t),
        ),
        t == FileType::JPEG || t == FileType::TIFF ==> crate::system::starts_with_chars(
            spec_header_hex(t),
            hex_spaced(spec_header_bytes(t)),
        ),
{
    match t {
        FileType::JPEG => lemma_detect_jpeg(),
        FileType::PNG => lemma_detect_png(),
        FileType::GIF => lemma_detect_gif(),
        FileType::PDF => lemma_detect_pdf(),
        FileType::ZIP => lemma_detect_zip(),
        FileType::BMP => lemma_detect_bmp(),
        FileType::RIFF => lemma_detect_riff(),
        FileType::ELF => lemma_detect_elf(),
        FileType::MP3 => lemma_detect_mp3(),
        FileType::FLAC => lemma_detect_flac(),
        FileType::TIFF => lemma_detect_tiff(),
        FileType::PSD => lemma_detect_psd(),
        FileType::EXE => lemma_detect_exe(),
        FileType::JavaClass => lemma_detect_javaclass(),
        FileType::Unknown => {},
    }
    match t {
        FileType::JPEG => lemma_header_text_jpeg(),
        FileType::PNG => lemma_header_text_png(),
        FileType::PDF => lemma_header_text_pdf(),
        FileType::ZIP => lemma_header_text_zip(),
        FileType::BMP => lemma_header_text_bmp(),
        FileType::RIFF => lemma_header_text_riff(),
        FileType::ELF => lemma_header_text_elf(),
        FileType::MP3 => lemma_header_text_mp3(),
        FileType::FLAC => lemma_header_text_flac(),
        FileType::TIFF => lemma_header_text_tiff(),
        FileType::PSD => lemma_header_text_psd(),
        FileType::EXE => lemma_header_text_exe(),
        FileType::JavaClass => lemma_header_text_javaclass(),
        _ => {},
    }
}

} // verus!
