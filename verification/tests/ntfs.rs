use kaifuku::volume::{NtfsError, NtfsVolume};
use kaifuku::ntfs::{
    apply_fixups, find_seeded_copy, intact_head, lznt1_decompress, merge_ranges, parse_boot_sector,
    parse_mapping_pairs, path_within, read_data, resolve_dir_path, runs_are_stale, sanitize_component,
    stale_rebuild, u16le, ByteRange, DataAttr, MftEntry, Reader, Rebuild, Run, Tile,
};

fn boot_sector() -> Vec<u8> {
    let mut b = vec![0u8; 512];
    b[3..11].copy_from_slice(b"NTFS    ");
    b[0x0B..0x0D].copy_from_slice(&512u16.to_le_bytes());
    b[0x0D] = 8; // 8 sectors/cluster -> 4096 bytes
    b[0x28..0x30].copy_from_slice(&131071u64.to_le_bytes()); // total sectors
    b[0x30..0x38].copy_from_slice(&4u64.to_le_bytes()); // mft_lcn
    b[0x40] = 0xF6; // -10 -> 1024-byte records
    b[0x44] = 0xF7; // -9 -> 512-byte index records
    b
}

#[test]
fn parse_boot_sector_ok() {
    let g = parse_boot_sector(&boot_sector(), 512).expect("valid boot sector");
    assert_eq!(g.cluster_size, 4096);
    assert_eq!(g.sector_size, 512);
    assert_eq!(g.mft_lcn, 4);
    assert_eq!(g.mft_record_size, 1024);
    assert_eq!(g.index_record_size, 512);
    assert_eq!(g.total_sectors, 131071);
}

#[test]
fn parse_boot_sector_rejects_non_ntfs() {
    let b = boot_sector();
    assert!(parse_boot_sector(&b[..16], 512).is_none()); // too short
    let mut bad = b.clone();
    bad[0x03] = b'F';
    assert!(parse_boot_sector(&bad, 512).is_none());
    let mut bad = b.clone();
    bad[0x0D] = 0; // zero sectors/cluster
    assert!(parse_boot_sector(&bad, 512).is_none());
}

#[test]
fn parse_boot_sector_positive_record_size_in_clusters() {
    let mut b = boot_sector();
    b[0x40] = 1; // one cluster per record
    let g = parse_boot_sector(&b, 512).expect("valid");
    assert_eq!(g.mft_record_size, 4096);
}

#[test]
fn parse_mapping_pairs_single_run() {
    // VCN 0, length 19, LCN 4 (no offset byte needed: writes explicit).
    let pairs = [0x11, 0x13, 0x04];
    let runs = parse_mapping_pairs(&pairs, 0).expect("pairs");
    assert_eq!(
        runs,
        vec![Run {
            vcn: 0,
            cluster: 4,
            length: 19
        }]
    );
}

#[test]
fn parse_mapping_pairs_delta_and_zero_terminator() {
    // Run 1: len 5 @ LCN 10 (header 0x11: len=1, off=1). Run 2 via signed
    // delta: len 3, LCN -= 2 (header 0x21: len=1, off=2, delta 0xFFFE).
    let pairs = [0x11, 0x05, 10, 0x21, 0x03, 0xFE, 0xFF, 0x00];
    let runs = parse_mapping_pairs(&pairs, 0).expect("pairs");
    assert_eq!(
        runs,
        vec![
            Run {
                vcn: 0,
                cluster: 10,
                length: 5
            },
            Run {
                vcn: 5,
                cluster: 8,
                length: 3
            },
        ]
    );
}

#[test]
fn parse_mapping_pairs_sparse_run() {
    // Header 0x01: a negative length with no offset bytes -> sparse run.
    let pairs = [0x01, 0xFC, 0x00];
    let runs = parse_mapping_pairs(&pairs, 0).expect("pairs");
    assert_eq!(
        runs,
        vec![Run {
            vcn: 0,
            cluster: kaifuku::ntfs::SPARSE,
            length: 4
        }]
    );
}

#[test]
fn parse_mapping_pairs_without_offset_is_sparse() {
    // A run with no offset field is sparse; the next stored run's offset
    // still counts from the last stored cluster (7).
    let pairs = [0x11, 0x02, 0x07, 0x01, 0x03, 0x11, 0x04, 0x02, 0x00];
    let runs = parse_mapping_pairs(&pairs, 0).expect("pairs");
    assert_eq!(
        runs,
        vec![
            Run { vcn: 0, cluster: 7, length: 2 },
            Run { vcn: 2, cluster: kaifuku::ntfs::SPARSE, length: 3 },
            Run { vcn: 5, cluster: 9, length: 4 }
        ]
    );
    let runs = parse_mapping_pairs(&[0x01, 0x05, 0x00], 0).expect("pairs");
    assert_eq!(runs, vec![Run { vcn: 0, cluster: kaifuku::ntfs::SPARSE, length: 5 }]);
}

#[test]
fn parse_mapping_pairs_rejects_bad_header() {
    assert!(parse_mapping_pairs(&[0x10, 0x01], 0).is_none()); // zero length size
    assert!(parse_mapping_pairs(&[0x11, 0x05], 0).is_none()); // runs past the data
}

#[test]
fn parse_mapping_pairs_empty_is_empty() {
    let runs = parse_mapping_pairs(&[0x00], 0).expect("pairs");
    assert!(runs.is_empty());
}

#[test]
fn apply_fixups_restores_sector_ends() {
    let mut rec = vec![0u8; 1024];
    rec[0..4].copy_from_slice(b"FILE");
    rec[4..6].copy_from_slice(&0x18u16.to_le_bytes()); // usa_offset
    rec[6..8].copy_from_slice(&3u16.to_le_bytes()); // usa_count (2 sectors)
    rec[0x18..0x1A].copy_from_slice(&0xEEFFu16.to_le_bytes()); // signature
    rec[0x1A..0x1C].copy_from_slice(&0x1111u16.to_le_bytes()); // saved s1
    rec[0x1C..0x1E].copy_from_slice(&0x2222u16.to_le_bytes()); // saved s2
    rec[0x1FE..0x200].copy_from_slice(&0xEEFFu16.to_le_bytes()); // fixed state
    rec[0x3FE..0x400].copy_from_slice(&0xEEFFu16.to_le_bytes());
    assert!(apply_fixups(&mut rec));
    assert_eq!(u16le(&rec, 0x1FE), 0x1111, "saved value restored");
    assert_eq!(u16le(&rec, 0x3FE), 0x2222, "saved value restored");
}

#[test]
fn apply_fixups_accepts_unrestored_record() {
    let mut rec = vec![0u8; 1024];
    rec[0..4].copy_from_slice(b"FILE");
    rec[4..6].copy_from_slice(&0x18u16.to_le_bytes());
    rec[6..8].copy_from_slice(&3u16.to_le_bytes());
    rec[0x18..0x1A].copy_from_slice(&0xEEFFu16.to_le_bytes());
    rec[0x1A..0x1C].copy_from_slice(&0x1111u16.to_le_bytes());
    rec[0x1C..0x1E].copy_from_slice(&0x2222u16.to_le_bytes());
    // Sector ends carry originals already.
    rec[0x1FE..0x200].copy_from_slice(&0x1111u16.to_le_bytes());
    rec[0x3FE..0x400].copy_from_slice(&0x2222u16.to_le_bytes());
    assert!(apply_fixups(&mut rec));
}

#[test]
fn apply_fixups_rejects_corrupt() {
    let mut rec = vec![0u8; 1024];
    rec[0..4].copy_from_slice(b"FILE");
    rec[4..6].copy_from_slice(&0x18u16.to_le_bytes());
    rec[6..8].copy_from_slice(&3u16.to_le_bytes());
    rec[0x18..0x1A].copy_from_slice(&0xEEFFu16.to_le_bytes());
    rec[0x1A..0x1C].copy_from_slice(&0x1111u16.to_le_bytes());
    rec[0x1C..0x1E].copy_from_slice(&0x2222u16.to_le_bytes());
    rec[0x1FE] = 0x00; // matches neither signature nor saved value
    assert!(!apply_fixups(&mut rec));
}

#[test]
fn apply_fixups_twice_leaves_record_unchanged() {
    let mut rec = vec![0u8; 1024];
    rec[0..4].copy_from_slice(b"FILE");
    rec[4..6].copy_from_slice(&0x18u16.to_le_bytes());
    rec[6..8].copy_from_slice(&3u16.to_le_bytes());
    rec[0x18..0x1A].copy_from_slice(&0xEEFFu16.to_le_bytes());
    rec[0x1A..0x1C].copy_from_slice(&0x1111u16.to_le_bytes());
    rec[0x1C..0x1E].copy_from_slice(&0x2222u16.to_le_bytes());
    rec[0x1FE..0x200].copy_from_slice(&0xEEFFu16.to_le_bytes());
    rec[0x3FE..0x400].copy_from_slice(&0xEEFFu16.to_le_bytes());
    assert!(apply_fixups(&mut rec));
    let once = rec.clone();
    assert!(apply_fixups(&mut rec));
    assert_eq!(rec, once);
}

#[test]
fn lznt1_uncompressed_frame_passthrough() {
    // Header 0x000A: chunk length 11, compressed bit clear -> verbatim.
    let mut data = vec![0x0A, 0x00];
    data.extend_from_slice(b"hello world");
    assert_eq!(lznt1_decompress(&data), b"hello world");
}

#[test]
fn lznt1_backref_expansion() {
    // One chunk (compressed), block with 3 literals + 1 backref to "ABC".
    let chunk = [0x08, b'A', b'B', b'C', 0x00, 0x20];
    let mut data = vec![0x05, 0x80]; // chunk_len=6, compressed bit set
    data.extend_from_slice(&chunk);
    assert_eq!(lznt1_decompress(&data), b"ABCABC");
}

#[test]
fn lznt1_zero_header_is_one_literal_byte() {
    assert_eq!(lznt1_decompress(&[0x00, 0x00, 0x41]), b"A");
    // A chunk that runs past the data ends the stream.
    assert_eq!(lznt1_decompress(&[0x05, 0x00, 0x41]), b"");
}

#[test]
fn path_within_cases() {
    assert!(path_within("", "readme.txt"));
    assert!(path_within("Documents", "Documents/report.txt"));
    assert!(path_within("documents", "DOCUMENTS/REPORT.TXT")); // insensitive
    assert!(path_within("Documents/Data", "Documents/Data/secret.bin"));
    assert!(path_within("Documents", "Documents"));
    assert!(!path_within("Doc", "Other/file"));
    assert!(!path_within("DocumentsX", "Documents/report.txt")); // no prefix bleed
}

#[test]
fn sanitize_component_maps_illegal_chars() {
    assert_eq!(sanitize_component("a/b\\c:d\x01e"), "a_b_c_d_e");
    assert_eq!(sanitize_component("plain"), "plain");
    assert_eq!(sanitize_component(""), "");
}

#[test]
fn sanitize_component_keeps_length_in_chars() {
    let s = "ü/ñ:x\tz*";
    let out = sanitize_component(s);
    assert_eq!(out.chars().count(), s.chars().count());
    assert_eq!(out, "ü_ñ_x_z*");
}

#[test]
fn merge_ranges_merges_overlapping_and_adjacent() {
    let v = vec![
        ByteRange {
            offset: 100,
            size: 50,
        }, // 100-150
        ByteRange {
            offset: 140,
            size: 20,
        }, // overlaps
        ByteRange {
            offset: 150,
            size: 10,
        }, // adjacent
        ByteRange {
            offset: 500,
            size: 8,
        }, // disjoint
    ];
    let m = merge_ranges(v);
    assert_eq!(
        m,
        vec![
            ByteRange {
                offset: 100,
                size: 60
            },
            ByteRange {
                offset: 500,
                size: 8
            },
        ]
    );
}

#[test]
fn merge_ranges_sorts_by_offset() {
    let v = vec![
        ByteRange { offset: 50, size: 5 },
        ByteRange { offset: 10, size: 0 },
        ByteRange { offset: 0, size: 5 },
    ];
    let m = merge_ranges(v);
    assert_eq!(
        m,
        vec![
            ByteRange { offset: 0, size: 5 },
            ByteRange { offset: 10, size: 0 },
            ByteRange { offset: 50, size: 5 }
        ]
    );
}

fn dir(record: u64, name: &str, parent: u64) -> MftEntry {
    MftEntry {
        record,
        in_use: true,
        is_dir: true,
        parent,
        name: name.to_string(),
        data: None,
        used_runs: Vec::new(),
    }
}

#[test]
fn resolve_dir_path_uses_parent_chain() {
    let entries = vec![
        None,
        None,
        None,
        None,
        None,
        Some(dir(5, ".", 5)),         // root
        Some(dir(6, "Data", 7)),      // Data under Documents
        Some(dir(7, "Documents", 5)), // Documents under root
    ];
    assert_eq!(resolve_dir_path(&entries, 5), Some(String::new()));
    assert_eq!(resolve_dir_path(&entries, 7), Some("Documents".to_string()));
    assert_eq!(
        resolve_dir_path(&entries, 6),
        Some("Documents/Data".to_string())
    );
    // Broken chain -> None.
    assert_eq!(resolve_dir_path(&entries, 3), None);
}

#[test]
fn resolve_dir_path_rejects_cycles() {
    let entries = vec![
        None,
        None,
        None,
        None,
        None,
        Some(dir(5, ".", 5)),
        Some(dir(6, "A", 7)),
        Some(dir(7, "B", 6)),
    ];
    assert_eq!(resolve_dir_path(&entries, 6), None);
}

/// Tiniest possible volume mock: fixed-size clusters backed by a byte
/// buffer, with a per-cluster allocation map.
struct FakeTile {
    bytes: Vec<u8>,
    cs: u64,
    alloc: Vec<bool>,
}

impl FakeTile {
    fn new(cs: u64, alloc: &[bool]) -> Self {
        let n = alloc.len() as u64;
        Self {
            bytes: vec![0u8; (n * cs) as usize],
            cs,
            alloc: alloc.to_vec(),
        }
    }
    fn set(&mut self, cluster: u64, data: &[u8]) {
        let start = (cluster * self.cs) as usize;
        self.bytes[start..start + data.len()].copy_from_slice(data);
    }
}

impl Tile for FakeTile {
    fn cluster_size(&self) -> u64 {
        self.cs
    }
    fn cluster_count(&self) -> u64 {
        self.alloc.len() as u64
    }
    fn cluster_offset(&self, cluster: u64) -> u64 {
        cluster * self.cs
    }
    fn is_allocated(&self, cluster: u64) -> bool {
        self.alloc.get(cluster as usize).copied().unwrap_or(true)
    }
    fn read_at(&self, offset: u64, len: usize) -> Option<Vec<u8>> {
        let o = offset as usize;
        let end = o + len;
        if end > self.bytes.len() {
            return None;
        }
        Some(self.bytes[o..end].to_vec())
    }
}

const FAKE_CS: u64 = 8; // tiny clusters for compact fixtures

#[test]
fn runs_are_stale_only_when_bitmap_allocates() {
    let tile = FakeTile::new(FAKE_CS, &[false, true, false]);
    let runs = vec![Run {
        vcn: 0,
        cluster: 0,
        length: 1,
    }];
    assert!(!runs_are_stale(&tile, &runs));
    let runs = vec![Run {
        vcn: 0,
        cluster: 1,
        length: 1,
    }];
    assert!(runs_are_stale(&tile, &runs));
    // Partially allocated run is stale too.
    let runs = vec![Run {
        vcn: 0,
        cluster: 1,
        length: 2,
    }];
    assert!(runs_are_stale(&tile, &runs));
}

#[test]
fn intact_head_stops_at_overwritten_run() {
    let mut tile = FakeTile::new(FAKE_CS, &[false, true, false, false]);
    tile.set(0, b"HEAD#$AB");
    tile.set(1, b"STALEZZZ"); // stale, ignored
    tile.set(3, b"BODYZZZZ");
    let data = DataAttr::Runs {
        runs: vec![
            Run {
                vcn: 0,
                cluster: 0,
                length: 1,
            },
            Run {
                vcn: 1,
                cluster: 1,
                length: 1,
            },
            Run {
                vcn: 2,
                cluster: 3,
                length: 1,
            },
        ],
        real_size: 24,
        compressed: false,
    };
    // Head stops at the stale run 1 -> only cluster 0.
    assert_eq!(intact_head(&tile, &data), Some(b"HEAD#$AB".to_vec()));
    // Overwriting the very first cluster leaves nothing to seed.
    let data2 = DataAttr::Runs {
        runs: vec![Run {
            vcn: 0,
            cluster: 1,
            length: 1,
        }],
        real_size: 8,
        compressed: false,
    };
    assert!(intact_head(&tile, &data2).is_none());
}

#[test]
fn find_seeded_copy_prefers_free_and_skips_originals() {
    let mut tile = FakeTile::new(FAKE_CS, &[true, false, false, true, false]);
    tile.set(1, b"SEED0000"); // free copy (but it's the stale original)
    tile.set(2, b"SEED0000"); // free copy
    tile.set(4, b"SEED0000"); // allocated copy
    let skip = vec![Run {
        vcn: 0,
        cluster: 1,
        length: 1,
    }];
    let seed = b"SEED0000".to_vec();
    // Cluster 1 is skipped, cluster 2 is the first free match.
    assert_eq!(find_seeded_copy(&tile, &seed, &skip), Some(2));
    // With the free match gone it falls back to an allocated copy.
    tile.alloc[2] = true;
    assert_eq!(find_seeded_copy(&tile, &seed, &skip), Some(4));
}

fn runs_of(data: &DataAttr) -> Vec<Run> {
    match data {
        DataAttr::Runs { runs, .. } => runs.clone(),
        DataAttr::Resident(_) => Vec::new(),
    }
}

#[test]
fn stale_rebuild_finds_full_copy() {
    let mut tile = FakeTile::new(FAKE_CS, &[false, true, false, false, false]);
    // Original file: cluster 0 intact, cluster 1 overwritten.
    tile.set(0, b"\x89PNG\r\n\x1a\n");
    tile.set(1, b"GARBAGE!");
    // A surviving full copy at clusters 3..4 (free).
    tile.set(3, b"\x89PNG\r\n\x1a\n");
    tile.set(4, b"PART2XY!");
    let data = DataAttr::Runs {
        runs: vec![
            Run {
                vcn: 0,
                cluster: 0,
                length: 1,
            },
            Run {
                vcn: 1,
                cluster: 1,
                length: 1,
            },
        ],
        real_size: 16,
        compressed: false,
    };
    assert!(runs_are_stale(&tile, &runs_of(&data)));
    let mut out = Vec::new();
    assert!(matches!(
        stale_rebuild(&tile, &data, &mut out),
        Rebuild::Full
    ));
    assert_eq!(out, b"\x89PNG\r\n\x1a\nPART2XY!");
}

#[test]
fn stale_rebuild_partial_when_only_head_survives() {
    let mut tile = FakeTile::new(FAKE_CS, &[false, true]);
    tile.set(0, b"\x89PNG\r\n\x1a\n");
    tile.set(1, b"GARBAGE!");
    let data = DataAttr::Runs {
        runs: vec![
            Run {
                vcn: 0,
                cluster: 0,
                length: 1,
            },
            Run {
                vcn: 1,
                cluster: 1,
                length: 1,
            },
        ],
        real_size: 16,
        compressed: false,
    };
    let mut out = Vec::new();
    assert!(matches!(
        stale_rebuild(&tile, &data, &mut out),
        Rebuild::Partial
    ));
    assert_eq!(out, b"\x89PNG\r\n\x1a\n".to_vec());
}

#[test]
fn stale_rebuild_skips_when_head_overwritten_or_unknown() {
    // Head overwritten -> nothing to seed.
    let mut tile = FakeTile::new(FAKE_CS, &[true, false]);
    tile.set(0, b"GARBAGE!");
    tile.set(1, b"PARABLES");
    let data = DataAttr::Runs {
        runs: vec![Run {
            vcn: 0,
            cluster: 0,
            length: 1,
        }],
        real_size: 8,
        compressed: false,
    };
    let mut out = Vec::new();
    assert!(matches!(
        stale_rebuild(&tile, &data, &mut out),
        Rebuild::Skip
    ));
    // Intact head but no known signature and no copy -> skip (no garbage).
    let mut tile = FakeTile::new(FAKE_CS, &[false]);
    tile.set(0, b"PLAINTX1");
    let data = DataAttr::Runs {
        runs: vec![Run {
            vcn: 0,
            cluster: 0,
            length: 1,
        }],
        real_size: 8,
        compressed: false,
    };
    out.clear();
    assert!(matches!(
        stale_rebuild(&tile, &data, &mut out),
        Rebuild::Skip
    ));
}

#[test]
fn read_data_resident_and_runs() {
    let mut tile = FakeTile::new(FAKE_CS, &[false, false]);
    tile.set(0, b"ABCDEFGH");
    tile.set(1, b"IJKLMNOP");
    let mut out = Vec::new();
    assert!(kaifuku::ntfs::read_data(&tile, &DataAttr::Resident(b"xyz".to_vec()), &mut out));
    assert_eq!(out, b"xyz");
    let data = DataAttr::Runs {
        runs: vec![Run { vcn: 0, cluster: 0, length: 2 }],
        real_size: 11,
        compressed: false,
    };
    let mut out = Vec::new();
    assert!(kaifuku::ntfs::read_data(&tile, &data, &mut out));
    assert_eq!(out, b"ABCDEFGHIJK");
}

#[test]
fn lznt1_chunks_decode_on_their_own() {
    // A stored 16-byte chunk, then the compressed chunk of the
    // back-reference test: the back-reference counts from its own chunk.
    let mut data = vec![0x0F, 0x00];
    data.extend_from_slice(b"0123456789ABCDEF");
    data.extend_from_slice(&[0x05, 0x80, 0x08, b'A', b'B', b'C', 0x00, 0x20]);
    assert_eq!(lznt1_decompress(&data), b"0123456789ABCDEFABCABC".to_vec());
}

#[test]
fn resolve_dir_path_allows_repeated_names() {
    let entries = vec![
        None,
        None,
        None,
        None,
        None,
        Some(dir(5, ".", 5)),
        Some(dir(6, "A", 5)),
        Some(dir(7, "B", 6)),
        Some(dir(8, "A", 7)),
    ];
    assert_eq!(resolve_dir_path(&entries, 8), Some("A/B/A".to_string()));
}

#[test]
fn merge_ranges_keeps_an_isolated_empty_range() {
    let v = vec![
        ByteRange { offset: 100, size: 50 },
        ByteRange { offset: 200, size: 0 },
        ByteRange { offset: 150, size: 10 },
        ByteRange { offset: 500, size: 8 },
        ByteRange { offset: 160, size: 0 },
    ];
    assert_eq!(
        merge_ranges(v),
        vec![
            ByteRange { offset: 100, size: 60 },
            ByteRange { offset: 200, size: 0 },
            ByteRange { offset: 500, size: 8 },
        ]
    );
}

#[test]
fn read_data_copies_resident_payload() {
    let tile = FakeTile::new(FAKE_CS, &[false]);
    let data = DataAttr::Resident(b"resident".to_vec());
    let mut out = b">".to_vec();
    assert!(read_data(&tile, &data, &mut out));
    assert_eq!(out, b">resident".to_vec());
}

#[test]
fn read_data_copies_runs_with_sparse_zeros() {
    let mut tile = FakeTile::new(FAKE_CS, &[false, false]);
    tile.set(1, b"ABCDEFGH");
    let data = DataAttr::Runs {
        runs: vec![
            Run { vcn: 0, cluster: 1, length: 1 },
            Run { vcn: 1, cluster: u64::MAX, length: 1 },
        ],
        real_size: 12,
        compressed: false,
    };
    let mut out = Vec::new();
    assert!(read_data(&tile, &data, &mut out));
    assert_eq!(out, b"ABCDEFGH\0\0\0\0".to_vec());
}

#[test]
fn read_data_fails_past_the_device() {
    let tile = FakeTile::new(FAKE_CS, &[false]);
    let data = DataAttr::Runs {
        runs: vec![Run { vcn: 0, cluster: 3, length: 1 }],
        real_size: 8,
        compressed: false,
    };
    let mut out = Vec::new();
    assert!(!read_data(&tile, &data, &mut out));
}

/// A device held in memory.
struct MemReader {
    bytes: Vec<u8>,
}

impl Reader for MemReader {
    fn read_at(&self, offset: u64, len: usize) -> Option<Vec<u8>> {
        let o = offset as usize;
        if o.checked_add(len)? > self.bytes.len() {
            return None;
        }
        Some(self.bytes[o..o + len].to_vec())
    }
}

#[test]
fn open_fails_to_read_a_short_device() {
    let r = NtfsVolume::open(MemReader { bytes: vec![0u8; 100] }, 0, 512);
    assert!(matches!(r, Err(NtfsError::Read)));
}

#[test]
fn open_refuses_a_foreign_boot_sector() {
    let r = NtfsVolume::open(MemReader { bytes: vec![0u8; 4096] }, 0, 512);
    assert!(matches!(r, Err(NtfsError::NotNtfs)));
}

#[test]
fn open_checks_the_mft_record() {
    // An NTFS boot sector whose $MFT record (at cluster 4) is all zeros:
    // the update-sequence check fails.
    let mut disk = boot_sector();
    disk.resize(4096 * 6, 0);
    let r = NtfsVolume::open(MemReader { bytes: disk }, 0, 512);
    assert!(matches!(r, Err(NtfsError::BadMftRecord)));
}

#[test]
fn fixups_again_can_fail_when_the_array_overlaps_a_sector_end() {
    // The update sequence array at 0x1FD overlaps the end of sector 0
    // (0x1FE..0x200): the first pass rewrites part of the array itself.
    let mut rec = vec![0u8; 1024];
    rec[0..4].copy_from_slice(b"FILE");
    rec[4..6].copy_from_slice(&0x1FDu16.to_le_bytes());
    rec[6..8].copy_from_slice(&2u16.to_le_bytes());
    rec[0x1FD] = 0xAA;
    rec[0x1FE] = 0xAA;
    rec[0x1FF] = 0xAA;
    rec[0x200] = 0xBB;
    assert!(apply_fixups(&mut rec));
    assert!(!apply_fixups(&mut rec));
}
