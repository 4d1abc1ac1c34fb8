use kaifuku::filetypes::{CategoryMask, FileCategory};
use kaifuku::jpeg::build_standard_dqt;
use kaifuku::recovery::{normalize_filter, output_path};
use kaifuku::reference::dqt_has_valid_tables;
use kaifuku::session::{recovery_summary, RecoveredFile};

fn file(name: &str, ext: &str, size: u64) -> RecoveredFile {
    RecoveredFile {
        filename: name.to_string(),
        extension: ext.to_string(),
        size,
        status: "ok".to_string(),
    }
}

#[test]
fn output_path_drops_dot_components() {
    let p = output_path("/out", "../a/./b/../c:d");
    assert_eq!(
        p,
        vec!["/out".to_string(), "a".to_string(), "b".to_string(), "c_d".to_string()]
    );
}

#[test]
fn output_path_keeps_plain_components() {
    let p = output_path("/out", "Documents//Data/x.txt");
    assert_eq!(
        p,
        vec![
            "/out".to_string(),
            "Documents".to_string(),
            "Data".to_string(),
            "x.txt".to_string()
        ]
    );
}

#[test]
fn normalize_filter_turns_windows_paths_around() {
    assert_eq!(normalize_filter("  \\Documents\\Data "), "Documents/Data");
}

#[test]
fn standard_tables_are_usable_for_colour() {
    let dqt = build_standard_dqt();
    assert!(dqt_has_valid_tables(&dqt, 3));
    assert!(dqt_has_valid_tables(&dqt, 1));
}

#[test]
fn recovery_summary_counts_per_category() {
    let files = vec![
        file("a.jpg", "jpg", 100),
        file("b.png", "PNG", 50),
        file("c.mp4", "mp4", 1000),
        file("d.pdf", "pdf", 7),
        file("e.xyz", "xyz", 3),
    ];
    let (per, n, size) = recovery_summary(&files, CategoryMask::all());
    assert_eq!(per.len(), 6);
    assert_eq!(per[0], (FileCategory::Photo, 2, 150));
    assert_eq!(per[1], (FileCategory::Video, 1, 1000));
    assert_eq!(per[2], (FileCategory::Document, 1, 7));
    assert_eq!(per[3], (FileCategory::Audio, 0, 0));
    assert_eq!(per[4], (FileCategory::Archive, 0, 0));
    assert_eq!(per[5], (FileCategory::Other, 1, 3));
    assert_eq!((n, size), (5, 1160));
    let mask = CategoryMask::all().with_category(FileCategory::Photo, false);
    let (_, n, size) = recovery_summary(&files, mask);
    assert_eq!((n, size), (3, 1010));
}

#[test]
fn recovery_summary_of_nothing() {
    let (per, n, size) = recovery_summary(&Vec::new(), CategoryMask::all());
    assert_eq!(per.len(), 6);
    assert!(per.iter().all(|&(_, c, s)| c == 0 && s == 0));
    assert_eq!((n, size), (0, 0));
}

#[test]
fn listed_extensions_classify_in_their_category() {
    for c in [FileCategory::Photo, FileCategory::Video, FileCategory::Document, FileCategory::Audio, FileCategory::Archive] {
        let exts = c.extensions();
        assert!(!exts.is_empty());
        for e in exts {
            assert_eq!(FileCategory::classify(e), c);
            let shouted = format!(" .{} ", e.to_ascii_uppercase());
            assert_eq!(FileCategory::classify(&shouted), c);
        }
    }
    assert!(FileCategory::Other.extensions().is_empty());
}
