use kaifuku::formats::{detect_type, FileType, PayloadStatus};
use kaifuku::jpeg::{jpeg_payload_from_scan, repair_jpeg, scan_jpeg};
use kaifuku::png::{calc_crc, has_valid_iend, png_chunks, png_payload_status, repair_png, salvage_png};
use kaifuku::salvage::{check_footer, footer_bytes, repair_zip_from, salvage_gif};

const PNG_SIG: &[u8] = b"\x89PNG\r\n\x1a\n";
const JPEG_SOI: &[u8] = &[0xFF, 0xD8];
const JPEG_EOI: &[u8] = &[0xFF, 0xD9];

#[test]
fn test_deep_repair_zip_truncation() {
    // Build a tiny zip: dummy local header + complete EOCD (with comment).
    let mut data = Vec::new();
    data.extend_from_slice(&[0x50, 0x4B, 0x03, 0x04, 0x00, 0x00, 0x00, 0x00]);
    data.extend_from_slice(b"garbage-before-eocd");
    data.extend_from_slice(b"PK\x05\x06");
    data.extend_from_slice(&[0u8; 16]);
    data.extend_from_slice(&2u16.to_le_bytes()); // comment length
    data.extend_from_slice(b"xt"); // comment
    let trailing: &[u8] = b"junk-after-zip";
    data.extend_from_slice(trailing);

    let out = repair_zip_from(&data, 0).expect("zip should repair");
    let expected = data[..data.len() - trailing.len()].to_vec();
    assert_eq!(
        out, expected,
        "trailing garbage after EOCD + comment must be dropped"
    );
    assert_eq!(
        data.len(),
        expected.len() + trailing.len(),
        "sanity: only garbage removed"
    );
}

#[test]
fn repair_zip_without_eocd_fails() {
    let data = b"PK\x03\x04no end record here".to_vec();
    assert!(repair_zip_from(&data, 0).is_none());
}

#[test]
fn test_salvage_gif_adds_trailer() {
    let mut data = b"GIF89a".to_vec();
    data.extend_from_slice(&[0x10, 0x00, 0x10, 0x00, 0x80, 0x00, 0x00]); // LSD
    // truncated image data, no trailer
    data.extend_from_slice(&[0x2C, 0x00, 0x00, 0x00, 0x00, 0x10, 0x00, 0x10, 0x00, 0x00]);

    let out = salvage_gif(&data, 0).expect("salvage should succeed");
    assert!(out.starts_with(b"GIF89a"), "header preserved");
    assert!(out.ends_with(&[0x3B]), "trailer must be present");
}

#[test]
fn test_salvage_gif_repairs_bad_header() {
    let mut data = vec![0u8; 4];
    data.extend_from_slice(b"GIF-bad\x01\x00\x01\x00\x00\x00\x00");
    let out = salvage_gif(&data, 0).expect("salvage should succeed");
    assert!(out.starts_with(b"GIF89a"), "header must be restored");
    assert!(out.ends_with(&[0x3B]), "trailer must be present");
}

#[test]
fn test_repair_jpeg_rejects_missing_sos() {
    // SOI + APP1 + APP1 + EOI with no scan structure: not a viewable JPEG.
    let mut data = JPEG_SOI.to_vec();
    for (payload, id) in [
        (&[0u8; 64][..], b"Exif\0\0".as_slice()),
        (&[0u8; 32][..], b"XMP\0".as_slice()),
    ] {
        data.push(0xFF);
        data.push(0xE1);
        let len = (payload.len() + 2) as u16;
        data.extend_from_slice(&len.to_be_bytes());
        data.extend_from_slice(id);
        data.extend_from_slice(payload);
    }
    data.extend_from_slice(JPEG_EOI);
    assert!(
        repair_jpeg(&data, Some(0)).is_none(),
        "repair_jpeg must not emit a JPEG without an SOS segment"
    );
}

fn zlib_bytes(data: &[u8]) -> Vec<u8> {
    miniz_oxide::deflate::compress_to_vec_zlib(data, 6)
}

fn png_chunk(typ: &[u8; 4], data: &[u8]) -> Vec<u8> {
    let len = (data.len() as u32).to_be_bytes();
    let mut v = Vec::new();
    v.extend_from_slice(&len);
    v.extend_from_slice(typ);
    v.extend_from_slice(data);
    let mut crc_in = Vec::new();
    crc_in.extend_from_slice(typ);
    crc_in.extend_from_slice(data);
    v.extend_from_slice(&calc_crc(&crc_in).to_be_bytes());
    v
}

fn ihdr() -> Vec<u8> {
    let mut d = Vec::new();
    d.extend_from_slice(&(8u32).to_be_bytes());
    d.extend_from_slice(&(8u32).to_be_bytes());
    d.push(8);
    d.push(6);
    d.push(0);
    d.push(0);
    d.push(0);
    png_chunk(b"IHDR", &d)
}

#[test]
fn png_ok() {
    let mut f = Vec::new();
    f.extend_from_slice(PNG_SIG);
    f.extend_from_slice(&ihdr());
    f.extend_from_slice(&png_chunk(b"IDAT", &zlib_bytes(&[1, 2, 3, 4])));
    f.extend_from_slice(&png_chunk(b"IEND", &[]));
    assert_eq!(png_payload_status(&f, None), PayloadStatus::Sound);
}

#[test]
fn png_missing() {
    let mut f = Vec::new();
    f.extend_from_slice(PNG_SIG);
    f.extend_from_slice(&ihdr());
    f.extend_from_slice(&png_chunk(b"IEND", &[]));
    assert_eq!(png_payload_status(&f, None), PayloadStatus::Missing);
}

#[test]
fn png_corrupt() {
    let mut f = Vec::new();
    f.extend_from_slice(PNG_SIG);
    f.extend_from_slice(&ihdr());
    f.extend_from_slice(&png_chunk(b"IDAT", &[0x78, 0x9c, 0xde, 0xad, 0xbe, 0xef]));
    f.extend_from_slice(&png_chunk(b"IEND", &[]));
    assert_eq!(png_payload_status(&f, None), PayloadStatus::Corrupt);
}

#[test]
fn png_shifted() {
    let mut z = zlib_bytes(&[1, 2, 3, 4]);
    z.insert(0, 0x00);
    let mut f = Vec::new();
    f.extend_from_slice(PNG_SIG);
    f.extend_from_slice(&ihdr());
    f.extend_from_slice(&png_chunk(b"IDAT", &z));
    f.extend_from_slice(&png_chunk(b"IEND", &[]));
    assert_eq!(png_payload_status(&f, None), PayloadStatus::Shifted);
}

fn sos() -> Vec<u8> {
    Vec::from(
        &[
            0xFF, 0xDA, 0x00, 0x0C, 0x03, 0x01, 0x00, 0x02, 0x11, 0x03, 0x11, 0x00, 0x3F, 0x00,
        ][..],
    )
}

fn jpeg_base() -> Vec<u8> {
    let mut f = Vec::new();
    f.extend_from_slice(&[0xFF, 0xD8]);
    f.extend_from_slice(&[0xFF, 0xDB, 0x00, 0x04, 0x00, 0x01, 0x02, 0x03]);
    f.extend_from_slice(&sos());
    f
}

#[test]
fn jpeg_ok() {
    let mut f = jpeg_base();
    f.extend_from_slice(&[0x01, 0x02, 0x03, 0x04, 0x05]);
    f.extend_from_slice(&[0xFF, 0xD9]);
    assert_eq!(jpeg_payload_from_scan(&f, 0), PayloadStatus::Sound);
}

#[test]
fn jpeg_missing_entropy() {
    let mut f = jpeg_base();
    f.extend_from_slice(&[0xFF, 0xD9]);
    assert_eq!(jpeg_payload_from_scan(&f, 0), PayloadStatus::Missing);
}

#[test]
fn jpeg_broken_header_but_entropy_survives() {
    let mut f = Vec::new();
    f.extend_from_slice(&[0x00, 0x00, 0x00, 0x00]);
    f.extend_from_slice(&sos());
    f.extend_from_slice(&[0xDE, 0xAD, 0xBE, 0xEF]);
    f.extend_from_slice(&[0xFF, 0xD9]);
    assert_eq!(
        jpeg_payload_from_scan(&f, 0),
        PayloadStatus::Sound,
        "intact scan data after a destroyed header should count as recoverable"
    );
}

fn walkable_jpeg() -> Vec<u8> {
    let mut f = Vec::new();
    f.extend_from_slice(&[0xFF, 0xD8]);
    f.extend_from_slice(&[0xFF, 0xDB, 0x00, 0x04, 0x00, 0x01]);
    f.extend_from_slice(&sos());
    f
}

#[test]
fn repair_jpeg_truncated_scan_is_terminated() {
    let mut f = walkable_jpeg();
    f.extend_from_slice(&[0x11, 0x22, 0x33, 0x44, 0x55, 0x66]);
    let out = repair_jpeg(&f, Some(0)).expect("SOS present, repairable");
    assert!(out.starts_with(JPEG_SOI));
    assert!(out.ends_with(JPEG_EOI));
    let info = scan_jpeg(&out, 0);
    assert!(info.has_sos && info.terminated, "must retain SOS and terminate");
}

#[test]
fn repair_jpeg_drops_trailing_garbage() {
    let mut f = walkable_jpeg();
    f.extend_from_slice(&[0x01, 0x02, 0x03]);
    f.extend_from_slice(JPEG_EOI);
    let clean = f.clone();
    f.extend_from_slice(b"trailing garbage bytes");
    let out = repair_jpeg(&f, Some(0)).expect("repairable");
    assert!(out.ends_with(JPEG_EOI));
    assert!(out.len() <= clean.len() + 64);
    assert!(out.len() < f.len());
}

#[test]
fn detect_type_by_signature() {
    assert_eq!(detect_type(&[0xFF, 0xD8, 0xFF, 0xE0]), FileType::JPEG);
    assert_eq!(detect_type(PNG_SIG), FileType::PNG);
    assert_eq!(detect_type(b"GIF89a"), FileType::GIF);
    assert_eq!(detect_type(b"%PDF-1.7"), FileType::PDF);
    assert_eq!(detect_type(b"PK\x03\x04"), FileType::ZIP);
    assert_eq!(detect_type(b"BM\x00\x00"), FileType::BMP);
    assert_eq!(detect_type(b"RIFF\x00\x00\x00\x00WAVE"), FileType::RIFF);
    assert_eq!(detect_type(b"\x7FELF"), FileType::ELF);
    assert_eq!(detect_type(b"ID3\x03"), FileType::MP3);
    assert_eq!(detect_type(b"fLaC"), FileType::FLAC);
    assert_eq!(detect_type(b"II\x2a\x00"), FileType::TIFF);
    assert_eq!(detect_type(b"MM\x00\x2a"), FileType::TIFF);
    assert_eq!(detect_type(b"8BPS"), FileType::PSD);
    assert_eq!(detect_type(b"MZ\x90\x00"), FileType::EXE);
    assert_eq!(detect_type(&[0xCA, 0xFE, 0xBA, 0xBE]), FileType::JavaClass);
    assert_eq!(detect_type(b"abc"), FileType::Unknown);
    assert_eq!(detect_type(&[0xFF, 0xD8, 0xFF]), FileType::Unknown);
}

fn small_png() -> Vec<u8> {
    let mut f = Vec::new();
    f.extend_from_slice(PNG_SIG);
    f.extend_from_slice(&ihdr());
    // 8x8 RGBA at 8 bits: 8 rows of 1 filter byte + 32 bytes.
    let raw = vec![0u8; 8 * 33];
    f.extend_from_slice(&png_chunk(b"IDAT", &zlib_bytes(&raw)));
    f.extend_from_slice(&png_chunk(b"IEND", &[]));
    f
}

#[test]
fn repair_png_restores_zeroed_signature() {
    let mut f = small_png();
    for b in f.iter_mut().take(8) {
        *b = 0;
    }
    let out = repair_png(&f, None).expect("repairable");
    assert!(out.starts_with(PNG_SIG));
    assert!(has_valid_iend(&out));
}

#[test]
fn salvage_png_recomputes_every_crc() {
    let mut f = small_png();
    // Break the IHDR CRC.
    f[8 + 8 + 13] ^= 0xFF;
    let out = salvage_png(&f, None).expect("salvage should succeed");
    assert!(out.starts_with(PNG_SIG));
    for c in png_chunks(&out) {
        let data_start = c.start + 8;
        let expected = calc_crc(&out[data_start - 4..data_start + c.len]);
        let actual = u32::from_be_bytes([
            out[data_start + c.len],
            out[data_start + c.len + 1],
            out[data_start + c.len + 2],
            out[data_start + c.len + 3],
        ]);
        assert_eq!(actual, expected, "CRC must be recomputed for {:?}", c.typ);
    }
}

#[test]
fn calc_crc_known_value() {
    // CRC-32 of "IEND" with no data is the well-known AE426082.
    assert_eq!(calc_crc(b"IEND"), 0xAE42_6082);
    assert_eq!(calc_crc(b""), 0);
    assert_eq!(calc_crc(b"123456789"), 0xCBF4_3926);
}

#[test]
fn detect_type_reads_only_the_leading_bytes() {
    let mut a = vec![0x89, 0x50, 0x4E, 0x47, 0x0D, 0x0A, 0x1A, 0x0A];
    let mut b = a.clone();
    a.extend_from_slice(b"IHDR and more");
    b.extend_from_slice(&[0u8; 64]);
    assert_eq!(detect_type(&a), FileType::PNG);
    assert_eq!(detect_type(&a), detect_type(&b));
    assert_eq!(detect_type(b"BM\x00\x00zz"), detect_type(b"BM\x00\x00"));
}

#[test]
fn advertised_headers_are_detected() {
    let headers: Vec<(FileType, Vec<u8>)> = vec![
        (FileType::JPEG, vec![0xFF, 0xD8, 0xFF, 0xE0]),
        (FileType::PNG, vec![0x89, 0x50, 0x4E, 0x47, 0x0D, 0x0A, 0x1A, 0x0A]),
        (FileType::GIF, b"GIF89a".to_vec()),
        (FileType::PDF, b"%PDF".to_vec()),
        (FileType::ZIP, vec![0x50, 0x4B, 0x03, 0x04]),
        (FileType::BMP, vec![0x42, 0x4D, 0, 0]),
        (FileType::RIFF, b"RIFF".to_vec()),
        (FileType::ELF, vec![0x7F, 0x45, 0x4C, 0x46]),
        (FileType::MP3, vec![0x49, 0x44, 0x33, 0]),
        (FileType::FLAC, b"fLaC".to_vec()),
        (FileType::TIFF, vec![0x49, 0x49, 0x2A, 0x00]),
        (FileType::PSD, b"8BPS".to_vec()),
        (FileType::EXE, vec![0x4D, 0x5A, 0, 0]),
        (FileType::JavaClass, vec![0xCA, 0xFE, 0xBA, 0xBE]),
    ];
    for (t, b) in headers {
        assert_eq!(detect_type(&b), t);
        let text: String = b.iter().map(|x| format!("{:02X}", x)).collect::<Vec<_>>().join(" ");
        assert!(text.starts_with(&t.header_hex()[..2]));
    }
}

#[test]
fn footer_text_matches_footer_bytes() {
    for t in [FileType::JPEG, FileType::PNG, FileType::GIF, FileType::PDF, FileType::ZIP, FileType::Unknown] {
        match footer_bytes(t) {
            Some(f) => {
                let text: String = f.iter().map(|x| format!("{:02X}", x)).collect::<Vec<_>>().join(" ");
                assert_eq!(t.footer_hex(), text);
                let mut d = b"data".to_vec();
                assert!(!check_footer(&d, t));
                d.extend_from_slice(&f);
                assert!(check_footer(&d, t));
            }
            None => {
                assert_eq!(t.footer_hex(), "\u{2014}");
                assert!(check_footer(b"", t));
            }
        }
    }
}

fn tiny_intact_jpeg() -> Vec<u8> {
    let mut j = vec![0xFF, 0xD8];
    j.extend_from_slice(&[0xFF, 0xDB, 0x00, 0x43, 0x00]);
    j.extend_from_slice(&[1u8; 64]);
    j.extend_from_slice(&[0xFF, 0xC0, 0x00, 0x0B, 0x08, 0x00, 0x10, 0x00, 0x10, 0x01, 0x01, 0x11, 0x00]);
    j.extend_from_slice(&[0xFF, 0xC4, 0x00, 0x14, 0x00, 0x01]);
    j.extend_from_slice(&[0u8; 15]);
    j.push(0x00);
    j.extend_from_slice(&[0xFF, 0xDA, 0x00, 0x08, 0x01, 0x01, 0x00, 0x00, 0x3F, 0x00]);
    j.extend_from_slice(&[0x12, 0x34, 0xFF, 0x00, 0x56]);
    j.extend_from_slice(&[0xFF, 0xD9]);
    j
}

#[test]
fn repair_jpeg_keeps_an_intact_jpeg_and_drops_its_tail() {
    let j = tiny_intact_jpeg();
    assert_eq!(repair_jpeg(&j, None), Some(j.clone()));
    let mut d = j.clone();
    d.extend_from_slice(&[0x00, 0x11, 0xFF, 0xD9]);
    assert_eq!(repair_jpeg(&d, Some(0)), Some(j));
}
