//! File type detection and the state of an image's payload.

use vstd::prelude::*;
use crate::bytes::{has_prefix, starts_with};

verus! {

/// The file formats the repair tools recognize.
#[derive(Debug, Clone, Copy, PartialEq, Eq, Structural)]
pub enum FileType {
    Unknown,
    JPEG,
    PNG,
    GIF,
    PDF,
    ZIP,
    BMP,
    RIFF,
    ELF,
    MP3,
    FLAC,
    TIFF,
    PSD,
    EXE,
    JavaClass,
}

/// Display name of a file type.
pub open spec fn spec_type_name(t: FileType) -> Seq<char> {
    match t {
        FileType::Unknown => seq!['U', 'n', 'k', 'n', 'o', 'w', 'n'],
        FileType::JPEG => seq!['J', 'P', 'E', 'G', ' ', 'I', 'm', 'a', 'g', 'e'],
        FileType::PNG => seq!['P', 'N', 'G', ' ', 'I', 'm', 'a', 'g', 'e'],
        FileType::GIF => seq!['G', 'I', 'F', ' ', 'I', 'm', 'a', 'g', 'e'],
        FileType::PDF => seq!['P', 'D', 'F', ' ', 'D', 'o', 'c', 'u', 'm', 'e', 'n', 't'],
        FileType::ZIP => seq!['Z', 'I', 'P', ' ', 'A', 'r', 'c', 'h', 'i', 'v', 'e'],
        FileType::BMP => seq!['B', 'M', 'P', ' ', 'I', 'm', 'a', 'g', 'e'],
        FileType::RIFF => seq!['R', 'I', 'F', 'F', ' ', '(', 'A', 'V', 'I', '/', 'W', 'A', 'V', ')'],
        FileType::ELF => seq!['E', 'L', 'F', ' ', 'B', 'i', 'n', 'a', 'r', 'y'],
        FileType::MP3 => seq!['M', 'P', '3', ' ', 'A', 'u', 'd', 'i', 'o'],
        FileType::FLAC => seq!['F', 'L', 'A', 'C', ' ', 'A', 'u', 'd', 'i', 'o'],
        FileType::TIFF => seq!['T', 'I', 'F', 'F', ' ', 'I', 'm', 'a', 'g', 'e'],
        FileType::PSD => seq!['P', 'h', 'o', 't', 'o', 's', 'h', 'o', 'p', ' ', 'D', 'o', 'c', 'u', 'm', 'e', 'n', 't'],
        FileType::EXE => seq!['W', 'i', 'n', 'd', 'o', 'w', 's', ' ', 'E', 'x', 'e', 'c', 'u', 't', 'a', 'b', 'l', 'e'],
        FileType::JavaClass => seq!['J', 'a', 'v', 'a', ' ', 'C', 'l', 'a', 's', 's', ' ', 'F', 'i', 'l', 'e'],
    }
}

/// Hex signature shown for a file type.
pub open spec fn spec_header_hex(t: FileType) -> Seq<char> {
    match t {
        FileType::Unknown => seq!['\u{2014}'],
        FileType::JPEG => seq!['F', 'F', ' ', 'D', '8', ' ', 'F', 'F', ' ', 'E', '0', '/', 'E', '1'],
        FileType::PNG => seq!['8', '9', ' ', '5', '0', ' ', '4', 'E', ' ', '4', '7', ' ', '0', 'D', ' ', '0', 'A', ' ', '1', 'A', ' ', '0', 'A'],
        FileType::GIF => seq!['4', '7', ' ', '4', '9', ' ', '4', '6', ' ', '3', '8', ' ', '3', '9', '/', '3', '7', ' ', '6', '1'],
        FileType::PDF => seq!['2', '5', ' ', '5', '0', ' ', '4', '4', ' ', '4', '6'],
        FileType::ZIP => seq!['5', '0', ' ', '4', 'B', ' ', '0', '3', ' ', '0', '4'],
        FileType::BMP => seq!['4', '2', ' ', '4', 'D'],
        FileType::RIFF => seq!['5', '2', ' ', '4', '9', ' ', '4', '6', ' ', '4', '6'],
        FileType::ELF => seq!['7', 'F', ' ', '4', '5', ' ', '4', 'C', ' ', '4', '6'],
        FileType::MP3 => seq!['4', '9', ' ', '4', '4', ' ', '3', '3'],
        FileType::FLAC => seq!['6', '6', ' ', '4', 'C', ' ', '6', '1', ' ', '4', '3'],
        FileType::TIFF => seq!['4', '9', ' ', '4', '9', ' ', '2', 'A', ' ', '0', '0', ' ', '/', ' ', '4', 'D', ' ', '4', 'D', ' ', '0', '0', ' ', '2', 'A'],
        FileType::PSD => seq!['3', '8', ' ', '4', '2', ' ', '5', '0', ' ', '5', '3'],
        FileType::EXE => seq!['4', 'D', ' ', '5', 'A'],
        FileType::JavaClass => seq!['C', 'A', ' ', 'F', 'E', ' ', 'B', 'A', ' ', 'B', 'E'],
    }
}

/// Hex footer shown for a file type (a dash when it has none).
pub open spec fn spec_footer_hex(t: FileType) -> Seq<char> {
    match t {
        FileType::JPEG => seq!['F', 'F', ' ', 'D', '9'],
        FileType::PNG => seq!['4', '9', ' ', '4', '5', ' ', '4', 'E', ' ', '4', '4', ' ', 'A', 'E', ' ', '4', '2', ' ', '6', '0', ' ', '8', '2'],
        FileType::GIF => seq!['0', '0', ' ', '3', 'B'],
        FileType::PDF => seq!['2', '5', ' ', '2', '5', ' ', '4', '5', ' ', '4', 'F', ' ', '4', '6'],
        _ => seq!['\u{2014}'],
    }
}

/// The formats the repair tools can rebuild.
pub open spec fn spec_can_repair(t: FileType) -> bool {
    t == FileType::JPEG || t == FileType::PNG || t == FileType::GIF || t == FileType::PDF || t
        == FileType::Unknown
}

impl FileType {
    /// Display name.
    pub fn name(&self) -> (r: &'static str)
        ensures
            r@ == spec_type_name(*self),
    {
        match self {
            FileType::Unknown => {
                proof {
                    reveal_strlit("Unknown");
                }
                "Unknown"
            },
            FileType::JPEG => {
                proof {
                    reveal_strlit("JPEG Image");
                }
                "JPEG Image"
            },
            FileType::PNG => {
                proof {
                    reveal_strlit("PNG Image");
                }
                "PNG Image"
            },
            FileType::GIF => {
                proof {
                    reveal_strlit("GIF Image");
                }
                "GIF Image"
            },
            FileType::PDF => {
                proof {
                    reveal_strlit("PDF Document");
                }
                "PDF Document"
            },
            FileType::ZIP => {
                proof {
                    reveal_strlit("ZIP Archive");
                }
                "ZIP Archive"
            },
            FileType::BMP => {
                proof {
                    reveal_strlit("BMP Image");
                }
                "BMP Image"
            },
            FileType::RIFF => {
                proof {
                    reveal_strlit("RIFF (AVI/WAV)");
                }
                "RIFF (AVI/WAV)"
            },
            FileType::ELF => {
                proof {
                    reveal_strlit("ELF Binary");
                }
                "ELF Binary"
            },
            FileType::MP3 => {
                proof {
                    reveal_strlit("MP3 Audio");
                }
                "MP3 Audio"
            },
            FileType::FLAC => {
                proof {
                    reveal_strlit("FLAC Audio");
                }
                "FLAC Audio"
            },
            FileType::TIFF => {
                proof {
                    reveal_strlit("TIFF Image");
                }
                "TIFF Image"
            },
            FileType::PSD => {
                proof {
                    reveal_strlit("Photoshop Document");
                }
                "Photoshop Document"
            },
            FileType::EXE => {
                proof {
                    reveal_strlit("Windows Executable");
                }
                "Windows Executable"
            },
            FileType::JavaClass => {
                proof {
                    reveal_strlit("Java Class File");
                }
                "Java Class File"
            },
        }
    }

    /// Hex signature of the file header.
    pub fn header_hex(&self) -> (r: &'static str)
        ensures
            r@ == spec_header_hex(*self),
    {
        match self {
            FileType::Unknown => {
                proof {
                    reveal_strlit("\u{2014}");
                }
                "\u{2014}"
            },
            FileType::JPEG => {
                proof {
                    reveal_strlit("FF D8 FF E0/E1");
                }
                "FF D8 FF E0/E1"
            },
            FileType::PNG => {
                proof {
                    reveal_strlit("89 50 4E 47 0D 0A 1A 0A");
                }
                "89 50 4E 47 0D 0A 1A 0A"
            },
            FileType::GIF => {
                proof {
                    reveal_strlit("47 49 46 38 39/37 61");
                }
                "47 49 46 38 39/37 61"
            },
            FileType::PDF => {
                proof {
                    reveal_strlit("25 50 44 46");
                }
                "25 50 44 46"
            },
            FileType::ZIP => {
                proof {
                    reveal_strlit("50 4B 03 04");
                }
                "50 4B 03 04"
            },
            FileType::BMP => {
                proof {
                    reveal_strlit("42 4D");
                }
                "42 4D"
            },
            FileType::RIFF => {
                proof {
                    reveal_strlit("52 49 46 46");
                }
                "52 49 46 46"
            },
            FileType::ELF => {
                proof {
                    reveal_strlit("7F 45 4C 46");
                }
                "7F 45 4C 46"
            },
            FileType::MP3 => {
                proof {
                    reveal_strlit("49 44 33");
                }
                "49 44 33"
            },
            FileType::FLAC => {
                proof {
                    reveal_strlit("66 4C 61 43");
                }
                "66 4C 61 43"
            },
            FileType::TIFF => {
                proof {
                    reveal_strlit("49 49 2A 00 / 4D 4D 00 2A");
                }
                "49 49 2A 00 / 4D 4D 00 2A"
            },
            FileType::PSD => {
                proof {
                    reveal_strlit("38 42 50 53");
                }
                "38 42 50 53"
            },
            FileType::EXE => {
                proof {
                    reveal_strlit("4D 5A");
                }
                "4D 5A"
            },
            FileType::JavaClass => {
                proof {
                    reveal_strlit("CA FE BA BE");
                }
                "CA FE BA BE"
            },
        }
    }

    /// Hex signature of the file footer.
    pub fn footer_hex(&self) -> (r: &'static str)
        ensures
            r@ == spec_footer_hex(*self),
    {
        match self {
            FileType::JPEG => {
                proof {
                    reveal_strlit("FF D9");
                }
                "FF D9"
            },
            FileType::PNG => {
                proof {
                    reveal_strlit("49 45 4E 44 AE 42 60 82");
                }
                "49 45 4E 44 AE 42 60 82"
            },
            FileType::GIF => {
                proof {
                    reveal_strlit("00 3B");
                }
                "00 3B"
            },
            FileType::PDF => {
                proof {
                    reveal_strlit("25 25 45 4F 46");
                }
                "25 25 45 4F 46"
            },
            _ => {
                proof {
                    reveal_strlit("\u{2014}");
                }
                "\u{2014}"
            },
        }
    }

    /// Whether the repair tools can rebuild this format.
    pub fn can_repair(&self) -> (r: bool)
        ensures
            r == spec_can_repair(*self),
    {
        match self {
            FileType::JPEG | FileType::PNG | FileType::GIF | FileType::PDF | FileType::Unknown => true,
            _ => false,
        }
    }
}

/// State of the image data payload (scan/entropy data for JPEG, IDAT stream
/// for PNG). When the payload is missing, corrupted or shifted the image
/// content itself cannot be recovered, so a structural header/footer repair
/// would only produce a file that opens as blank/garbage.
#[derive(Debug, Clone, Copy, PartialEq, Eq, Structural)]
pub enum PayloadStatus {
    /// Not applicable (non-image formats or undetectable).
    Unknown,
    /// Payload present and structurally/decodably sound.
    Sound,
    /// No payload data at all.
    Missing,
    /// Payload present but undecodable.
    Corrupt,
    /// Payload present but offset by a few bytes (alignment shift).
    Shifted,
}

impl Default for PayloadStatus {
    fn default() -> (r: Self)
        ensures
            r == PayloadStatus::Unknown,
    {
        PayloadStatus::Unknown
    }
}

/// Short label of a payload state.
pub open spec fn spec_payload_label(p: PayloadStatus) -> Seq<char> {
    match p {
        PayloadStatus::Unknown => seq!['\u{2014}'],
        PayloadStatus::Sound => seq!['o', 'k'],
        PayloadStatus::Missing => seq!['m', 'i', 's', 's', 'i', 'n', 'g'],
        PayloadStatus::Corrupt => seq!['c', 'o', 'r', 'r', 'u', 'p', 't'],
        PayloadStatus::Shifted => seq!['s', 'h', 'i', 'f', 't', 'e', 'd'],
    }
}

/// The warning shown for a payload that cannot be repaired.
pub open spec fn spec_warn_text(p: PayloadStatus) -> Option<Seq<char>> {
    match p {
        PayloadStatus::Sound | PayloadStatus::Unknown => None,
        PayloadStatus::Missing => Some(seq!['I', 'm', 'a', 'g', 'e', ' ', 'd', 'a', 't', 'a', ' ', 'p', 'a', 'y', 'l', 'o', 'a', 'd', ' ', 'i', 's', ' ', 'm', 'i', 's', 's', 'i', 'n', 'g', ' ', '\u{2014}', ' ', 'c', 'a', 'n', 'n', 'o', 't', ' ', 'b', 'e', ' ', 'r', 'e', 'p', 'a', 'i', 'r', 'e', 'd']),
        PayloadStatus::Corrupt => Some(seq!['I', 'm', 'a', 'g', 'e', ' ', 'd', 'a', 't', 'a', ' ', 'p', 'a', 'y', 'l', 'o', 'a', 'd', ' ', 'i', 's', ' ', 'c', 'o', 'r', 'r', 'u', 'p', 't', 'e', 'd', ' ', '\u{2014}', ' ', 'c', 'a', 'n', 'n', 'o', 't', ' ', 'b', 'e', ' ', 'r', 'e', 'p', 'a', 'i', 'r', 'e', 'd']),
        PayloadStatus::Shifted => Some(seq!['I', 'm', 'a', 'g', 'e', ' ', 'd', 'a', 't', 'a', ' ', 'p', 'a', 'y', 'l', 'o', 'a', 'd', ' ', 'i', 's', ' ', 's', 'h', 'i', 'f', 't', 'e', 'd', ' ', '\u{2014}', ' ', 'c', 'a', 'n', 'n', 'o', 't', ' ', 'b', 'e', ' ', 'r', 'e', 'p', 'a', 'i', 'r', 'e', 'd']),
    }
}

impl PayloadStatus {
    /// Whether the image content can still be recovered.
    pub fn is_recoverable(&self) -> (r: bool)
        ensures
            r == (*self == PayloadStatus::Unknown || *self == PayloadStatus::Sound),
    {
        match self {
            PayloadStatus::Unknown | PayloadStatus::Sound => true,
            _ => false,
        }
    }

    /// Short label.
    pub fn label(&self) -> (r: &'static str)
        ensures
            r@ == spec_payload_label(*self),
    {
        match self {
            PayloadStatus::Unknown => {
                proof {
                    reveal_strlit("\u{2014}");
                }
                "\u{2014}"
            },
            PayloadStatus::Sound => {
                proof {
                    reveal_strlit("ok");
                }
                "ok"
            },
            PayloadStatus::Missing => {
                proof {
                    reveal_strlit("missing");
                }
                "missing"
            },
            PayloadStatus::Corrupt => {
                proof {
                    reveal_strlit("corrupt");
                }
                "corrupt"
            },
            PayloadStatus::Shifted => {
                proof {
                    reveal_strlit("shifted");
                }
                "shifted"
            },
        }
    }

    /// The warning for an unrecoverable payload; `None` when it is fine.
    pub fn warn_text(&self) -> (r: Option<&'static str>)
        ensures
            match r {
                Some(s) => spec_warn_text(*self) == Some(s@),
                None => spec_warn_text(*self) is None,
            },
    {
        match self {
            PayloadStatus::Sound | PayloadStatus::Unknown => None,
            PayloadStatus::Missing => {
                proof {
                    reveal_strlit("Image data payload is missing \u{2014} cannot be repaired");
                }
                Some("Image data payload is missing \u{2014} cannot be repaired")
            },
            PayloadStatus::Corrupt => {
                proof {
                    reveal_strlit("Image data payload is corrupted \u{2014} cannot be repaired");
                }
                Some("Image data payload is corrupted \u{2014} cannot be repaired")
            },
            PayloadStatus::Shifted => {
                proof {
                    reveal_strlit("Image data payload is shifted \u{2014} cannot be repaired");
                }
                Some("Image data payload is shifted \u{2014} cannot be repaired")
            },
        }
    }
}

/// A warning is shown exactly for the payload states that cannot be
/// recovered.
pub proof fn lemma_warning_iff_unrecoverable(p: PayloadStatus)
    ensures
        spec_warn_text(p) is None <==> (p == PayloadStatus::Unknown || p == PayloadStatus::Sound),
{
}

/// The type a file's leading bytes announce (`Unknown` for fewer than four
/// bytes or no known signature).
pub open spec fn spec_detect_type(d: Seq<u8>) -> FileType {
    if d.len() < 4 {
        FileType::Unknown
    } else if starts_with(d, seq![0xFFu8, 0xD8, 0xFF]) {
        FileType::JPEG
    } else if starts_with(d, seq![0x89u8, 0x50, 0x4E, 0x47, 0x0D, 0x0A, 0x1A, 0x0A]) {
        FileType::PNG
    } else if starts_with(d, seq![0x47u8, 0x49, 0x46, 0x38]) {
        FileType::GIF
    } else if starts_with(d, seq![0x25u8, 0x50, 0x44, 0x46]) {
        FileType::PDF
    } else if starts_with(d, seq![0x50u8, 0x4B, 0x03, 0x04]) || starts_with(d, seq![0x50u8, 0x4B, 0x05, 0x06]) || starts_with(d, seq![0x50u8, 0x4B, 0x07, 0x08]) {
        FileType::ZIP
    } else if starts_with(d, seq![0x42u8, 0x4D]) {
        FileType::BMP
    } else if starts_with(d, seq![0x52u8, 0x49, 0x46, 0x46]) {
        FileType::RIFF
    } else if starts_with(d, seq![0x7Fu8, 0x45, 0x4C, 0x46]) {
        FileType::ELF
    } else if starts_with(d, seq![0x49u8, 0x44, 0x33]) {
        FileType::MP3
    } else if starts_with(d, seq![0x66u8, 0x4C, 0x61, 0x43]) {
        FileType::FLAC
    } else if starts_with(d, seq![0x49u8, 0x49, 0x2A, 0x00]) || starts_with(d, seq![0x4Du8, 0x4D, 0x00, 0x2A]) {
        FileType::TIFF
    } else if starts_with(d, seq![0x38u8, 0x42, 0x50, 0x53]) {
        FileType::PSD
    } else if starts_with(d, seq![0x4Du8, 0x5A]) {
        FileType::EXE
    } else if starts_with(d, seq![0xCAu8, 0xFE, 0xBA, 0xBE]) {
        FileType::JavaClass
    } else {
        FileType::Unknown
    }
}

/// The first eight bytes of `d` (all of it when shorter).
pub open spec fn lead8(d: Seq<u8>) -> Seq<u8> {
    if d.len() < 8 {
        d
    } else {
        d.subrange(0, 8)
    }
}

/// Two inputs that agree on their first eight bytes agree on every
/// signature of at most eight bytes.
proof fn lemma_lead8_prefixes(a: Seq<u8>, b: Seq<u8>, m: Seq<u8>)
    requires
        lead8(a) == lead8(b),
        m.len() <= 8,
    ensures
        starts_with(a, m) == starts_with(b, m),
{
    if a.len() >= 8 && b.len() >= 8 {
        assert(a.subrange(0, m.len() as int) =~= a.subrange(0, 8).subrange(0, m.len() as int));
        assert(b.subrange(0, m.len() as int) =~= b.subrange(0, 8).subrange(0, m.len() as int));
    } else {
        assert(a.len() == b.len());
        assert(a =~= b);
    }
}

/// Detection by leading signature: every input of at least four bytes that
/// starts with one of the signatures below is detected as that signature's
/// type, whatever bytes follow (for JPEG whatever marker follows `FF D8 FF`:
/// JFIF `E0`, EXIF `E1`, ...). No signature is a prefix of another, so each
/// holds on its own.
pub proof fn lemma_detect_by_signature(d: Seq<u8>)
    requires
        d.len() >= 4,
    ensures
        d[0] == 0xFF && d[1] == 0xD8 && d[2] == 0xFF ==> spec_detect_type(d) == FileType::JPEG,
        d.len() >= 8 && d[0] == 0x89 && d[1] == 0x50 && d[2] == 0x4E && d[3] == 0x47 && d[4] == 0x0D && d[5] == 0x0A && d[6] == 0x1A && d[7] == 0x0A ==> spec_detect_type(d) == FileType::PNG,
        d[0] == 0x47 && d[1] == 0x49 && d[2] == 0x46 && d[3] == 0x38 ==> spec_detect_type(d) == FileType::GIF,
        d[0] == 0x25 && d[1] == 0x50 && d[2] == 0x44 && d[3] == 0x46 ==> spec_detect_type(d) == FileType::PDF,
        d[0] == 0x50 && d[1] == 0x4B && d[2] == 0x03 && d[3] == 0x04 ==> spec_detect_type(d) == FileType::ZIP,
        d[0] == 0x50 && d[1] == 0x4B && d[2] == 0x05 && d[3] == 0x06 ==> spec_detect_type(d) == FileType::ZIP,
        d[0] == 0x50 && d[1] == 0x4B && d[2] == 0x07 && d[3] == 0x08 ==> spec_detect_type(d) == FileType::ZIP,
        d[0] == 0x42 && d[1] == 0x4D ==> spec_detect_type(d) == FileType::BMP,
        d[0] == 0x52 && d[1] == 0x49 && d[2] == 0x46 && d[3] == 0x46 ==> spec_detect_type(d) == FileType::RIFF,
        d[0] == 0x7F && d[1] == 0x45 && d[2] == 0x4C && d[3] == 0x46 ==> spec_detect_type(d) == FileType::ELF,
        d[0] == 0x49 && d[1] == 0x44 && d[2] == 0x33 ==> spec_detect_type(d) == FileType::MP3,
        d[0] == 0x66 && d[1] == 0x4C && d[2] == 0x61 && d[3] == 0x43 ==> spec_detect_type(d) == FileType::FLAC,
        d[0] == 0x49 && d[1] == 0x49 && d[2] == 0x2A && d[3] == 0x00 ==> spec_detect_type(d) == FileType::TIFF,
        d[0] == 0x4D && d[1] == 0x4D && d[2] == 0x00 && d[3] == 0x2A ==> spec_detect_type(d) == FileType::TIFF,
        d[0] == 0x38 && d[1] == 0x42 && d[2] == 0x50 && d[3] == 0x53 ==> spec_detect_type(d) == FileType::PSD,
        d[0] == 0x4D && d[1] == 0x5A ==> spec_detect_type(d) == FileType::EXE,
        d[0] == 0xCA && d[1] == 0xFE && d[2] == 0xBA && d[3] == 0xBE ==> spec_detect_type(d) == FileType::JavaClass,
{
    if d[0] == 0xFF && d[1] == 0xD8 && d[2] == 0xFF {
        assert(d.subrange(0, 3) =~= seq![0xFFu8, 0xD8, 0xFF]);
    }
    if d.len() >= 8 && d[0] == 0x89 && d[1] == 0x50 && d[2] == 0x4E && d[3] == 0x47 && d[4] == 0x0D && d[5] == 0x0A && d[6] == 0x1A && d[7] == 0x0A {
        assert(d.subrange(0, 8) =~= seq![0x89u8, 0x50, 0x4E, 0x47, 0x0D, 0x0A, 0x1A, 0x0A]);
    }
    if d[0] == 0x47 && d[1] == 0x49 && d[2] == 0x46 && d[3] == 0x38 {
        assert(d.subrange(0, 4) =~= seq![0x47u8, 0x49, 0x46, 0x38]);
    }
    if d[0] == 0x25 && d[1] == 0x50 && d[2] == 0x44 && d[3] == 0x46 {
        assert(d.subrange(0, 4) =~= seq![0x25u8, 0x50, 0x44, 0x46]);
    }
    if d[0] == 0x50 && d[1] == 0x4B && d[2] == 0x03 && d[3] == 0x04 {
        assert(d.subrange(0, 4) =~= seq![0x50u8, 0x4B, 0x03, 0x04]);
    }
    if d[0] == 0x50 && d[1] == 0x4B && d[2] == 0x05 && d[3] == 0x06 {
        assert(d.subrange(0, 4) =~= seq![0x50u8, 0x4B, 0x05, 0x06]);
    }
    if d[0] == 0x50 && d[1] == 0x4B && d[2] == 0x07 && d[3] == 0x08 {
        assert(d.subrange(0, 4) =~= seq![0x50u8, 0x4B, 0x07, 0x08]);
    }
    if d[0] == 0x42 && d[1] == 0x4D {
        assert(d.subrange(0, 2) =~= seq![0x42u8, 0x4D]);
    }
    if d[0] == 0x52 && d[1] == 0x49 && d[2] == 0x46 && d[3] == 0x46 {
        assert(d.subrange(0, 4) =~= seq![0x52u8, 0x49, 0x46, 0x46]);
    }
    if d[0] == 0x7F && d[1] == 0x45 && d[2] == 0x4C && d[3] == 0x46 {
        assert(d.subrange(0, 4) =~= seq![0x7Fu8, 0x45, 0x4C, 0x46]);
    }
    if d[0] == 0x49 && d[1] == 0x44 && d[2] == 0x33 {
        assert(d.subrange(0, 3) =~= seq![0x49u8, 0x44, 0x33]);
    }
    if d[0] == 0x66 && d[1] == 0x4C && d[2] == 0x61 && d[3] == 0x43 {
        assert(d.subrange(0, 4) =~= seq![0x66u8, 0x4C, 0x61, 0x43]);
    }
    if d[0] == 0x49 && d[1] == 0x49 && d[2] == 0x2A && d[3] == 0x00 {
        assert(d.subrange(0, 4) =~= seq![0x49u8, 0x49, 0x2A, 0x00]);
    }
    if d[0] == 0x4D && d[1] == 0x4D && d[2] == 0x00 && d[3] == 0x2A {
        assert(d.subrange(0, 4) =~= seq![0x4Du8, 0x4D, 0x00, 0x2A]);
    }
    if d[0] == 0x38 && d[1] == 0x42 && d[2] == 0x50 && d[3] == 0x53 {
        assert(d.subrange(0, 4) =~= seq![0x38u8, 0x42, 0x50, 0x53]);
    }
    if d[0] == 0x4D && d[1] == 0x5A {
        assert(d.subrange(0, 2) =~= seq![0x4Du8, 0x5A]);
    }
    if d[0] == 0xCA && d[1] == 0xFE && d[2] == 0xBA && d[3] == 0xBE {
        assert(d.subrange(0, 4) =~= seq![0xCAu8, 0xFE, 0xBA, 0xBE]);
    }
    if d.len() >= 2 {
        assert forall|j: int| 0 <= j < 2 implies #[trigger] d.subrange(0, 2)[j] == d[j] by {}
    }
    if d.len() >= 3 {
        assert forall|j: int| 0 <= j < 3 implies #[trigger] d.subrange(0, 3)[j] == d[j] by {}
    }
    if d.len() >= 4 {
        assert forall|j: int| 0 <= j < 4 implies #[trigger] d.subrange(0, 4)[j] == d[j] by {}
    }
    if d.len() >= 8 {
        assert forall|j: int| 0 <= j < 8 implies #[trigger] d.subrange(0, 8)[j] == d[j] by {}
    }
}

/// Every input of at least four bytes that starts `FF D8 FF` is a JPEG,
/// whatever marker follows (JFIF `E0`, EXIF `E1`, a quantization table,
/// ...).
pub proof fn lemma_detect_jpeg(d: Seq<u8>)
    requires
        d.len() >= 4,
        d[0] == 0xFF && d[1] == 0xD8 && d[2] == 0xFF,
    ensures
        spec_detect_type(d) == FileType::JPEG,
{
    assert(d.subrange(0, 3) =~= seq![0xFFu8, 0xD8, 0xFF]);
}

/// Type detection depends on the leading bytes alone: inputs that agree on
/// their first eight bytes (or are equal, when shorter) get the same type.
pub proof fn lemma_detect_type_leading(a: Seq<u8>, b: Seq<u8>)
    requires
        lead8(a) == lead8(b),
    ensures
        spec_detect_type(a) == spec_detect_type(b),
{
    assert(a.len() >= 4 <==> b.len() >= 4) by {
        if a.len() < 8 || b.len() < 8 {
            assert(a.len() == b.len());
        }
    }
    lemma_lead8_prefixes(a, b, seq![0xFFu8, 0xD8, 0xFF]);
    lemma_lead8_prefixes(a, b, seq![0x89u8, 0x50, 0x4E, 0x47, 0x0D, 0x0A, 0x1A, 0x0A]);
    lemma_lead8_prefixes(a, b, seq![0x47u8, 0x49, 0x46, 0x38]);
    lemma_lead8_prefixes(a, b, seq![0x25u8, 0x50, 0x44, 0x46]);
    lemma_lead8_prefixes(a, b, seq![0x50u8, 0x4B, 0x03, 0x04]);
    lemma_lead8_prefixes(a, b, seq![0x50u8, 0x4B, 0x05, 0x06]);
    lemma_lead8_prefixes(a, b, seq![0x50u8, 0x4B, 0x07, 0x08]);
    lemma_lead8_prefixes(a, b, seq![0x42u8, 0x4D]);
    lemma_lead8_prefixes(a, b, seq![0x52u8, 0x49, 0x46, 0x46]);
    lemma_lead8_prefixes(a, b, seq![0x7Fu8, 0x45, 0x4C, 0x46]);
    lemma_lead8_prefixes(a, b, seq![0x49u8, 0x44, 0x33]);
    lemma_lead8_prefixes(a, b, seq![0x66u8, 0x4C, 0x61, 0x43]);
    lemma_lead8_prefixes(a, b, seq![0x49u8, 0x49, 0x2A, 0x00]);
    lemma_lead8_prefixes(a, b, seq![0x4Du8, 0x4D, 0x00, 0x2A]);
    lemma_lead8_prefixes(a, b, seq![0x38u8, 0x42, 0x50, 0x53]);
    lemma_lead8_prefixes(a, b, seq![0x4Du8, 0x5A]);
    lemma_lead8_prefixes(a, b, seq![0xCAu8, 0xFE, 0xBA, 0xBE]);
}

/// Detect a file's type from its leading signature bytes.
pub fn detect_type(data: &[u8]) -> (r: FileType)
    ensures
        r == spec_detect_type(data@),
{
    if data.len() < 4 {
        return FileType::Unknown;
    }
    let m0: [u8; 3] = [0xFF, 0xD8, 0xFF];
    assert(m0@ == seq![0xFFu8, 0xD8, 0xFF]);
    if has_prefix(data, &m0) {
        return FileType::JPEG;
    }
    let m1: [u8; 8] = [0x89, 0x50, 0x4E, 0x47, 0x0D, 0x0A, 0x1A, 0x0A];
    assert(m1@ == seq![0x89u8, 0x50, 0x4E, 0x47, 0x0D, 0x0A, 0x1A, 0x0A]);
    if has_prefix(data, &m1) {
        return FileType::PNG;
    }
    let m2: [u8; 4] = [0x47, 0x49, 0x46, 0x38];
    assert(m2@ == seq![0x47u8, 0x49, 0x46, 0x38]);
    if has_prefix(data, &m2) {
        return FileType::GIF;
    }
    let m3: [u8; 4] = [0x25, 0x50, 0x44, 0x46];
    assert(m3@ == seq![0x25u8, 0x50, 0x44, 0x46]);
    if has_prefix(data, &m3) {
        return FileType::PDF;
    }
    let m4: [u8; 4] = [0x50, 0x4B, 0x03, 0x04];
    assert(m4@ == seq![0x50u8, 0x4B, 0x03, 0x04]);
    let m5: [u8; 4] = [0x50, 0x4B, 0x05, 0x06];
    assert(m5@ == seq![0x50u8, 0x4B, 0x05, 0x06]);
    let m6: [u8; 4] = [0x50, 0x4B, 0x07, 0x08];
    assert(m6@ == seq![0x50u8, 0x4B, 0x07, 0x08]);
    if has_prefix(data, &m4) || has_prefix(data, &m5) || has_prefix(data, &m6) {
        return FileType::ZIP;
    }
    let m7: [u8; 2] = [0x42, 0x4D];
    assert(m7@ == seq![0x42u8, 0x4D]);
    if has_prefix(data, &m7) {
        return FileType::BMP;
    }
    let m8: [u8; 4] = [0x52, 0x49, 0x46, 0x46];
    assert(m8@ == seq![0x52u8, 0x49, 0x46, 0x46]);
    if has_prefix(data, &m8) {
        return FileType::RIFF;
    }
    let m9: [u8; 4] = [0x7F, 0x45, 0x4C, 0x46];
    assert(m9@ == seq![0x7Fu8, 0x45, 0x4C, 0x46]);
    if has_prefix(data, &m9) {
        return FileType::ELF;
    }
    let m10: [u8; 3] = [0x49, 0x44, 0x33];
    assert(m10@ == seq![0x49u8, 0x44, 0x33]);
    if has_prefix(data, &m10) {
        return FileType::MP3;
    }
    let m11: [u8; 4] = [0x66, 0x4C, 0x61, 0x43];
    assert(m11@ == seq![0x66u8, 0x4C, 0x61, 0x43]);
    if has_prefix(data, &m11) {
        return FileType::FLAC;
    }
    let m12: [u8; 4] = [0x49, 0x49, 0x2A, 0x00];
    assert(m12@ == seq![0x49u8, 0x49, 0x2A, 0x00]);
    let m13: [u8; 4] = [0x4D, 0x4D, 0x00, 0x2A];
    assert(m13@ == seq![0x4Du8, 0x4D, 0x00, 0x2A]);
    if has_prefix(data, &m12) || has_prefix(data, &m13) {
        return FileType::TIFF;
    }
    let m14: [u8; 4] = [0x38, 0x42, 0x50, 0x53];
    assert(m14@ == seq![0x38u8, 0x42, 0x50, 0x53]);
    if has_prefix(data, &m14) {
        return FileType::PSD;
    }
    let m15: [u8; 2] = [0x4D, 0x5A];
    assert(m15@ == seq![0x4Du8, 0x5A]);
    if has_prefix(data, &m15) {
        return FileType::EXE;
    }
    let m16: [u8; 4] = [0xCA, 0xFE, 0xBA, 0xBE];
    assert(m16@ == seq![0xCAu8, 0xFE, 0xBA, 0xBE]);
    if has_prefix(data, &m16) {
        return FileType::JavaClass;
    }
    FileType::Unknown
}

} // verus!
