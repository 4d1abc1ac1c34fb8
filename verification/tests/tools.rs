use kaifuku::analysis::EmbeddedCandidate;
use kaifuku::repair::{push_candidate_attempts, push_fallback_attempts, RepairAttempt};
use kaifuku::deep::DeepSignature;
use kaifuku::formats::FileType;
use kaifuku::hexedit::{hex_dump, parse_hex, CloseAction, HexEditError, HexEditor, HEX_VIEW_LIMIT};
use kaifuku::scanreport::{detected_format, group_hits, scan_report};
use kaifuku::templates::{header_templates, hex_str, pad_fill, pad_to, render_template};
use kaifuku::usbwriter::{dd_arguments, dd_exit_message, parse_dd_bytes, usb_targets, write_percent};
use kaifuku::system::{partition_label, DiskInfo, PartitionInfo};
use kaifuku::analysis::{primary_status, FileAnalysis};
use kaifuku::formats::PayloadStatus;
use kaifuku::chooser::{build_filter, parse_pattern};
use kaifuku::reference::{synth_jpeg_scan, JpegTemplate};
use kaifuku::privileges::{device_access, pkexec_arguments, probe_devices, ProbeOutcome};
use kaifuku::recoverylog::{is_log_file, join_logs, recovery_log_paths, shown_log};
use kaifuku::scan::WorkerEvent;
use kaifuku::session::{make_log_line, AppState, Page, LOG_LINE_LIMIT};
use kaifuku::filetypes::{CategoryMask, FileCategory};
use kaifuku::repair::pick_original_sibling;
use kaifuku::scan::{default_image_path, disk_choice_label, start_scan_command, ScanForm, WorkerCommand};

#[test]
fn hex_dump_marks_edited_bytes_and_pads_the_last_line() {
    let data: Vec<u8> = b"Hello, World!\x00\x01\x02\x7fA ".to_vec();
    let mut modified = vec![false; data.len()];
    modified[1] = true;
    modified[17] = true;
    assert_eq!(hex_dump(&data, &modified, 65536), HEX1);
}

#[test]
fn hex_dump_notes_a_cut() {
    assert_eq!(hex_dump(&[1, 2, 3, 4, 5, 6], &[], 4), HEX2);
}

#[test]
fn hex_dump_of_nothing() {
    assert_eq!(hex_dump(&[], &[], 65536), HEX3);
    assert_eq!(hex_dump(&[9, 9], &[], 0), HEX3);
}

#[test]
fn hex_dump_three_lines() {
    let data: Vec<u8> = (0u8..40).collect();
    assert_eq!(hex_dump(&data, &[true, false], 100), HEX4);
}

#[test]
fn parse_hex_reads_what_the_editor_accepts() {
    assert_eq!(parse_hex("0x10", u64::MAX), Some(16));
    assert_eq!(parse_hex("0x0x1F", u64::MAX), Some(31));
    assert_eq!(parse_hex("+ff", 255), Some(255));
    assert_eq!(parse_hex("FF", 255), Some(255));
    assert_eq!(parse_hex("00000000", u64::MAX), Some(0));
    assert_eq!(parse_hex("100", 255), None);
    assert_eq!(parse_hex("", 255), None);
    assert_eq!(parse_hex("0x", 255), None);
    assert_eq!(parse_hex("+", 255), None);
    assert_eq!(parse_hex("-1", 255), None);
    assert_eq!(parse_hex("g1", 255), None);
    assert_eq!(parse_hex("0X10", 255), None);
    assert_eq!(parse_hex("FFFFFFFFFFFFFFFF", u64::MAX), Some(u64::MAX));
    assert_eq!(parse_hex("10000000000000000", u64::MAX), None);
}

#[test]
fn hex_editor_applies_and_counts_edits() {
    let mut ed = HexEditor::new(vec![0u8; 20], "/tmp/x.bin".to_string());
    assert!(!ed.is_dirty());
    assert_eq!(ed.modified_count(), 0);
    assert_eq!(ed.apply_edit("0x05", "ab"), Ok(()));
    assert_eq!(ed.data()[5], 0xAB);
    assert!(ed.is_dirty());
    assert_eq!(ed.modified_count(), 1);
    // editing the same byte again counts it once
    assert_eq!(ed.apply_edit("5", "0x01"), Ok(()));
    assert_eq!(ed.data()[5], 1);
    assert_eq!(ed.modified_count(), 1);
    assert_eq!(ed.apply_edit("13", "7"), Ok(()));
    assert_eq!(ed.modified_count(), 2);
    assert_eq!(ed.modified()[0x13], true);
    assert_eq!(ed.data().len(), 20);
}

#[test]
fn hex_editor_refusals_leave_the_bytes_alone() {
    let mut ed = HexEditor::new(vec![7u8; 4], "f".to_string());
    assert_eq!(ed.apply_edit("zz", "01"), Err(HexEditError::InvalidOffset));
    assert_eq!(ed.apply_edit("1", "100"), Err(HexEditError::InvalidValue));
    assert_eq!(ed.apply_edit("4", "01"), Err(HexEditError::OffsetBeyondEnd));
    assert_eq!(ed.apply_edit("zz", "zz"), Err(HexEditError::InvalidOffset));
    assert_eq!(ed.data(), &[7u8, 7, 7, 7][..]);
    assert_eq!(ed.modified_count(), 0);
    assert!(!ed.is_dirty());
    assert_eq!(HexEditError::InvalidOffset.message(), "Invalid offset (must be hex)");
    assert_eq!(HexEditError::InvalidValue.message(), "Invalid value (must be 00-FF)");
    assert_eq!(HexEditError::OffsetBeyondEnd.message(), "Offset exceeds file size");
}

#[test]
fn hex_editor_save_reload_and_close() {
    let mut ed = HexEditor::new(vec![1, 2, 3], "a.bin".to_string());
    assert_eq!(ed.close_action(None), CloseAction::Close);
    ed.apply_edit("0", "ff").unwrap();
    assert_eq!(ed.close_action(Some(0)), CloseAction::SaveAndClose);
    assert_eq!(ed.close_action(Some(1)), CloseAction::Close);
    assert_eq!(ed.close_action(Some(2)), CloseAction::Stay);
    assert_eq!(ed.close_action(None), CloseAction::Stay);
    assert!(ed.dump().contains("FF*"));
    ed.mark_saved();
    assert!(!ed.is_dirty());
    assert_eq!(ed.modified_count(), 0);
    assert_eq!(ed.data(), &[0xFFu8, 2, 3][..]);
    assert!(ed.dump().contains("FF 02 03"));
    ed.apply_edit("2", "0").unwrap();
    ed.reload(vec![9, 9, 9, 9, 9]);
    assert_eq!(ed.modified_count(), 0);
    assert_eq!(ed.modified().len(), 5);
    assert!(!ed.is_dirty());
    ed.apply_edit("4", "1").unwrap();
    ed.saved_as("b.bin".to_string());
    assert_eq!(ed.path(), "b.bin");
    assert_eq!(ed.modified_count(), 0);
    assert_eq!(HEX_VIEW_LIMIT, 65536);
}

#[test]
fn render_jpeg_template() {
    let t = &header_templates()[0];
    assert_eq!(render_template(t), JPEG_TEMPLATE);
}

#[test]
fn render_gif_template() {
    let t = &header_templates()[2];
    assert_eq!(render_template(t), GIF_TEMPLATE);
}

#[test]
fn header_templates_table() {
    let ts = header_templates();
    let names: Vec<&str> = ts.iter().map(|t| t.name).collect();
    assert_eq!(
        names,
        vec!["JPEG", "PNG", "GIF", "PDF", "ZIP", "BMP", "RIFF", "MP3", "FLAC", "TIFF", "ELF", "EXE", "WebM", "Ogg", "Java Class"]
    );
    assert_eq!(ts[1].signature, b"\x89PNG\r\n\x1a\n".to_vec());
    assert_eq!(ts[3].footer, b"%%EOF".to_vec());
    assert_eq!(ts[10].rows.len(), 19);
    for t in &ts {
        let text = render_template(t);
        assert!(text.starts_with("╔══ "));
        assert!(text.ends_with("┘\n"));
    }
}

#[test]
fn hex_str_and_padding() {
    assert_eq!(hex_str(&[0x00, 0xAB, 0x0F]), "00 AB 0F");
    assert_eq!(hex_str(&[]), "");
    assert_eq!(pad_to("ab", 5), "ab   ");
    assert_eq!(pad_to("abcdef", 3), "abcdef");
    assert_eq!(pad_fill("é", '═', 3), "é══");
}

fn sig(offset: usize, label: &'static str, file_type: FileType) -> DeepSignature {
    DeepSignature { offset, label, file_type }
}

#[test]
fn hits_are_grouped_by_label_in_first_seen_order() {
    let hits = vec![
        sig(0, "PNG image", FileType::PNG),
        sig(10, "JPEG image", FileType::JPEG),
        sig(20, "PNG image", FileType::PNG),
        sig(30, "JPEG image", FileType::JPEG),
        sig(40, "ZIP archive (local header)", FileType::ZIP),
    ];
    let groups = group_hits(&hits);
    assert_eq!(groups.len(), 3);
    assert_eq!(groups[0].label, "PNG image");
    assert_eq!(groups[0].offsets, vec![0, 20]);
    assert_eq!(groups[1].label, "JPEG image");
    assert_eq!(groups[1].offsets, vec![10, 30]);
    assert_eq!(groups[2].offsets, vec![40]);
    assert_eq!(detected_format(&groups), Some("PNG image"));
    let later = group_hits(&hits[1..]);
    assert_eq!(detected_format(&later), None);
}

#[test]
fn scan_report_text() {
    let mut hits = vec![sig(0, "JPEG image", FileType::JPEG)];
    for i in 0..18 {
        hits.push(sig(0x100 * (i + 1), "PDF document", FileType::PDF));
    }
    let (info, report) = scan_report("a.jpg", "2.0 KB", 2048, "3", &hits);
    assert_eq!(info, "a.jpg  ·  2.0 KB  ·  19 hits  ·  3 ms");
    let mut expected = String::from(
        "Signature Scan — a.jpg\nSize: 2.0 KB (2048 bytes)\nScanned in 3 ms — 19 signature match(es)\n\n✓ Detected format: JPEG image\n\n■ JPEG image — 1 hit(s):\n    0x00000000\n\n■ PDF document — 18 hit(s):\n",
    );
    for i in 0..16 {
        expected.push_str(&format!("    0x{:08X}\n", 0x100 * (i + 1)));
    }
    expected.push_str("    … and 2 more\n\n");
    assert_eq!(report, expected);
}

#[test]
fn scan_report_without_hits() {
    let (info, report) = scan_report("x", "10 B", 10, "0", &[]);
    assert_eq!(info, "x  ·  10 B  ·  0 hits  ·  0 ms");
    assert_eq!(
        report,
        "Signature Scan — x\nSize: 10 B (10 bytes)\nScanned in 0 ms — 0 signature match(es)\n\nNo known signatures found in this file.\n"
    );
}

fn disk(device: &str, removable: bool) -> DiskInfo {
    DiskInfo {
        device: device.to_string(),
        model: "m".to_string(),
        capacity: 1 << 30,
        sector_size: 512,
        removable,
    }
}

#[test]
fn only_removable_drives_are_targets() {
    let disks = vec![disk("/dev/sda", false), disk("/dev/sdb", true), disk("/dev/sdc", true)];
    assert_eq!(usb_targets(&disks), vec![1, 2]);
    assert_eq!(usb_targets(&[]), Vec::<usize>::new());
}

#[test]
fn dd_command_line() {
    assert_eq!(
        dd_arguments("/tmp/a.iso", "/dev/sdb"),
        vec!["if=/tmp/a.iso", "of=/dev/sdb", "bs=4M", "status=progress", "conv=fsync"]
    );
}

#[test]
fn dd_progress_lines() {
    assert_eq!(parse_dd_bytes("1048576 bytes (1.0 MB, 1.0 MiB) copied, 0.5 s, 2.1 MB/s"), Some(1048576));
    assert_eq!(parse_dd_bytes("\r  524288000 bytes (524 MB, 500 MiB) copied, 10 s\n"), Some(524288000));
    assert_eq!(parse_dd_bytes("+7 bytes x"), Some(7));
    assert_eq!(parse_dd_bytes("42 bytes"), None);
    assert_eq!(parse_dd_bytes("12a bytes copied"), None);
    assert_eq!(parse_dd_bytes(" bytes copied"), None);
    assert_eq!(parse_dd_bytes("3+0 records in"), None);
    assert_eq!(parse_dd_bytes("18446744073709551616 bytes copied"), None);
    assert_eq!(parse_dd_bytes("18446744073709551615 bytes copied"), Some(u64::MAX));
}

#[test]
fn usb_write_percent_and_outcome() {
    assert_eq!(write_percent(50, 200), 25);
    assert_eq!(write_percent(200, 200), 100);
    assert_eq!(write_percent(5, 0), 0);
    assert_eq!(dd_exit_message(true, Some(0)), "Write complete! You can safely remove the USB drive.");
    assert_eq!(dd_exit_message(false, Some(1)), "dd failed with exit code 1");
    assert_eq!(dd_exit_message(false, Some(-9)), "dd failed with exit code -9");
    assert_eq!(dd_exit_message(false, Some(i32::MIN)), "dd failed with exit code -2147483648");
    assert_eq!(dd_exit_message(false, None), "dd failed with exit code unknown");
}

#[test]
fn partition_labels() {
    let whole = PartitionInfo { offset: 0, size: 500, name: "sda".to_string() };
    assert_eq!(partition_label(&whole), "Whole Disk (sda)");
    let big = PartitionInfo { offset: 1048576, size: 3 * 1024 * 1024 * 1024 + 5, name: "sda1".to_string() };
    assert_eq!(partition_label(&big), "sda1  (3 GB, offset 1048576)");
    let small = PartitionInfo { offset: 512, size: 700 * 1024 * 1024, name: "sda2".to_string() };
    assert_eq!(partition_label(&small), "sda2  (700 MB, offset 512)");
    let empty = PartitionInfo { offset: 0, size: 0, name: "sdz".to_string() };
    assert_eq!(partition_label(&empty), "sdz  (0 MB, offset 0)");
}

fn analysis(file_type: FileType, has_header: bool, has_footer: bool, embedded: Option<usize>) -> FileAnalysis {
    FileAnalysis {
        file_type,
        has_header,
        has_footer,
        embedded_offset: embedded,
        details: String::new(),
        total_size: 0,
        payload: PayloadStatus::Unknown,
    }
}

#[test]
fn primary_status_lines() {
    assert_eq!(primary_status(&analysis(FileType::Unknown, false, false, Some(77))), "unknown header, embedded data at offset 77");
    assert_eq!(primary_status(&analysis(FileType::Unknown, false, false, None)), "unrecognized format");
    assert_eq!(primary_status(&analysis(FileType::PNG, false, true, None)), "header damaged \u{2014} repair available");
    assert_eq!(primary_status(&analysis(FileType::PNG, true, true, None)), "intact");
    assert_eq!(primary_status(&analysis(FileType::JPEG, true, false, None)), "truncated \u{2014} repair possible");
}

#[test]
fn reference_photo_beside_the_damaged_one() {
    let names: Vec<String> = ["a.jpg", "IMG_Original.JPG", "original.jpg", "b_ORIGINAL.png", "zzz_original"]
        .iter()
        .map(|s| s.to_string())
        .collect();
    assert_eq!(pick_original_sibling(&names), Some(2));
    let none: Vec<String> = vec!["a.jpg".to_string(), "orig.jpg".to_string()];
    assert_eq!(pick_original_sibling(&none), None);
    let tie: Vec<String> = vec!["x_original".to_string(), "y_original".to_string()];
    assert_eq!(pick_original_sibling(&tie), Some(0));
}

#[test]
fn drive_choice_and_image_path() {
    let mut d = disk("/dev/sdb", true);
    assert_eq!(disk_choice_label(&d), "/dev/sdb (m)");
    d.model.clear();
    assert_eq!(disk_choice_label(&d), "/dev/sdb (Unknown)");
    assert_eq!(default_image_path("/dev/sdb"), "/tmp/recovery/sdb.dd");
    assert_eq!(default_image_path("/dev/nvme0n1"), "/tmp/recovery/nvme0n1.dd");
    assert_eq!(default_image_path("sdc"), "/tmp/recovery/sdc.dd");
    assert_eq!(default_image_path(""), "/tmp/recovery/.dd");
}

#[test]
fn category_boxes_toggle_one_category() {
    let m = CategoryMask::all().with_category(FileCategory::Video, false);
    assert!(!m.video && m.photo && m.document && m.audio && m.archive && m.other);
    let m = m.with_category(FileCategory::Other, false).with_category(FileCategory::Video, true);
    assert!(m.video && !m.other && m.photo);
}

fn form(disk_index: usize, partition_index: usize) -> ScanForm {
    ScanForm {
        disk_index,
        partition_index,
        output_dir: String::new(),
        image_first: false,
        image_path: "/tmp/recovery/sdb.dd".to_string(),
        categories: CategoryMask::all(),
        frag_reassembly: true,
        fs_pass: false,
        dir_filter: "\\Documents".to_string(),
        scan_type: "Quick".to_string(),
    }
}

#[test]
fn start_scan_from_the_form() {
    let disks = vec![disk("/dev/sda", false), disk("/dev/sdb", true)];
    let parts = vec![PartitionInfo { offset: 1048576, size: 4096, name: "sdb1".to_string() }];
    assert!(start_scan_command(form(2, 0), &disks, &parts, "/home/u/Recovered").is_none());
    match start_scan_command(form(1, 0), &disks, &parts, "/home/u/Recovered") {
        Some(WorkerCommand::StartScan { device, output_dir, options, part_offset, part_size, dd_path, scan_type }) => {
            assert_eq!(device, "/dev/sdb");
            assert_eq!(output_dir, "/home/u/Recovered");
            assert_eq!(options.file_categories, Some(CategoryMask::all()));
            assert!(options.frag_reassembly && !options.fs_pass);
            assert_eq!(options.dir_filter, None);
            assert_eq!((part_offset, part_size), (1048576, 4096));
            assert_eq!(dd_path, None);
            assert_eq!(scan_type, "Quick");
        }
        _ => panic!("expected a scan"),
    }
    let mut f = form(0, 5);
    f.output_dir = "/mnt/out".to_string();
    f.image_first = true;
    f.fs_pass = true;
    match start_scan_command(f, &disks, &parts, "/home/u/Recovered") {
        Some(WorkerCommand::StartScan { device, output_dir, options, part_offset, part_size, dd_path, .. }) => {
            assert_eq!(device, "/dev/sda");
            assert_eq!(output_dir, "/mnt/out");
            assert_eq!(options.dir_filter.as_deref(), Some("\\Documents"));
            assert_eq!((part_offset, part_size), (0, 0));
            assert_eq!(dd_path.as_deref(), Some("/tmp/recovery/sdb.dd"));
        }
        _ => panic!("expected a scan"),
    }
}

#[test]
fn chooser_patterns() {
    assert_eq!(parse_pattern("*.iso"), (".iso".to_string(), vec!["iso".to_string()]));
    assert_eq!(
        parse_pattern("*.{jpg, png ,,gif}"),
        ("Files".to_string(), vec!["jpg".to_string(), "png".to_string(), "gif".to_string()])
    );
    assert_eq!(parse_pattern("*.{jpg}"), (".jpg".to_string(), vec!["jpg".to_string()]));
    assert_eq!(parse_pattern("  *.{}  "), ("Files".to_string(), Vec::<String>::new()));
    assert_eq!(parse_pattern(""), ("Files".to_string(), Vec::<String>::new()));
    assert_eq!(parse_pattern("{a,b"), (".{a,b".to_string(), vec!["{a,b".to_string()]));
}

#[test]
fn chooser_filter_lines() {
    assert_eq!(build_filter("*"), "All Files (*)");
    assert_eq!(build_filter(""), "All Files (*)");
    assert_eq!(build_filter("*.{}"), "All Files (*)");
    assert_eq!(build_filter("*.iso"), ".iso (*.iso)\tAll Files (*)");
    assert_eq!(build_filter("*.{jpg,png}"), "Files (*.jpg *.png)\tAll Files (*)");
    assert_eq!(build_filter(" * "), ".* (*.*)\tAll Files (*)");
}

#[test]
fn log_lines_are_time_stamped() {
    assert_eq!(make_log_line(Some(3661), "hi"), "[01:01:01] hi");
    assert_eq!(make_log_line(Some(86400 + 45296), "x"), "[12:34:56] x");
    assert_eq!(make_log_line(None, "y"), "[--:--:--] y");
}

#[test]
fn scan_session_follows_the_worker() {
    let mut st = AppState::new(0);
    assert_eq!(st.current_page(), Page::Menu);
    assert_eq!(st.last_output_dir(), "/tmp/recovery");
    assert_eq!(st.handle_event(WorkerEvent::Ready, 1, Some(0), ""), None);
    let r = st.handle_event(WorkerEvent::ScanStarted { output_dir: "/out".to_string() }, 100, Some(0), "");
    assert_eq!(r, Some(Page::Scanning));
    assert_eq!(st.current_page(), Page::Scanning);
    assert_eq!(st.scan_start_ms(), Some(100));
    assert_eq!(st.log_lines(), &vec!["[00:00:00] Recovery started — output: /out".to_string()]);
    let progress = |p: u32| WorkerEvent::ProgressUpdate { percent: p, current_file: "f".to_string(), files_found: 1 };
    assert_eq!(st.handle_event(progress(5), 200, Some(1), ""), None);
    assert_eq!(st.scan_progress().percent, 5);
    assert_eq!(st.handle_event(progress(6), 351, Some(1), ""), Some(Page::Scanning));
    assert_eq!(st.handle_event(progress(7), 500, Some(1), ""), None);
    let found = WorkerEvent::FileFound { filename: "f1.jpg".to_string(), extension: "jpg".to_string(), size: 2048 };
    assert_eq!(st.handle_event(found, 600, Some(2), "2.0 KiB"), None);
    assert_eq!(st.recovered_files().len(), 1);
    assert_eq!(st.recovered_files()[0].status, "Recovered");
    assert_eq!(st.log_lines().last().unwrap(), "[00:00:02] Recovered: f1.jpg (2.0 KiB)");
    assert_eq!(st.handle_event(WorkerEvent::Error("bad".to_string()), 700, Some(3), ""), None);
    assert_eq!(st.log_lines().last().unwrap(), "[00:00:03] Error: bad");
    assert_eq!(st.handle_event(WorkerEvent::ScanComplete, 800, Some(4), ""), Some(Page::Recovery));
    assert_eq!(st.log_lines().last().unwrap(), "[00:00:04] Scan complete — 1 files recovered");
    assert_eq!(st.current_page(), Page::Recovery);
    assert_eq!(st.handle_event(WorkerEvent::ScanStopped, 900, None, ""), Some(Page::Menu));
    assert_eq!(st.log_lines().last().unwrap(), "[--:--:--] Scan stopped by user");
    // a new scan starts afresh
    st.handle_event(WorkerEvent::ScanStarted { output_dir: "/o2".to_string() }, 1000, Some(0), "");
    assert_eq!(st.recovered_files().len(), 0);
    assert_eq!(st.log_lines().len(), 1);
}

#[test]
fn scan_log_keeps_the_newest_lines() {
    let mut st = AppState::new(0);
    for i in 0..(LOG_LINE_LIMIT + 7) {
        st.push_log(&i.to_string(), None);
    }
    assert_eq!(st.log_lines().len(), LOG_LINE_LIMIT);
    assert_eq!(st.log_lines()[0], "[--:--:--] 7");
    assert_eq!(st.log_lines().last().unwrap(), &format!("[--:--:--] {}", LOG_LINE_LIMIT + 6));
}

#[test]
fn recovery_log_files_and_text() {
    assert_eq!(recovery_log_paths()[0], "/tmp/repair_output/repair.log");
    assert_eq!(recovery_log_paths().len(), 3);
    assert!(is_log_file("photorec.log", true, 10));
    assert!(is_log_file("my_kaifuku_run", true, 999_999));
    assert!(!is_log_file("my_kaifuku_run", true, 1_000_000));
    assert!(!is_log_file("recovery", false, 1));
    assert!(!is_log_file("notes.txt", true, 1));
    let logs = vec![("a.log".to_string(), "one".to_string()), ("b.log".to_string(), "two\n".to_string())];
    assert_eq!(join_logs(&logs), "── a.log ──\none\n── b.log ──\ntwo\n");
    assert_eq!(join_logs(&vec![]), "");
    assert_eq!(shown_log("short"), "short");
    let long = "é".repeat(3000);
    let shown = shown_log(&long);
    assert_eq!(shown, format!("{}\n\n... (truncated)", "é".repeat(2500)));
    let exact = "x".repeat(5000);
    assert_eq!(shown_log(&exact), exact);
}

#[test]
fn device_access_from_probes() {
    assert_eq!(probe_devices()[0], "/dev/sda");
    assert_eq!(probe_devices().len(), 8);
    assert!(!device_access(&[]));
    assert!(device_access(&[ProbeOutcome::Failed, ProbeOutcome::Opened]));
    assert!(!device_access(&[ProbeOutcome::Failed, ProbeOutcome::Denied, ProbeOutcome::Opened]));
    assert!(!device_access(&[ProbeOutcome::Failed, ProbeOutcome::Failed]));
}

#[test]
fn pkexec_restart_arguments() {
    let args = vec!["scan".to_string(), "/dev/sdb".to_string()];
    assert_eq!(
        pkexec_arguments("/usr/bin/kaifuku", &args, Some(":0".to_string()), None, Some("/x".to_string())),
        vec!["env", "DISPLAY=:0", "XAUTHORITY=/x", "/usr/bin/kaifuku", "scan", "/dev/sdb"]
    );
    assert_eq!(pkexec_arguments("k", &vec![], None, Some("w".to_string()), None), vec!["env", "WAYLAND_DISPLAY=w", "k"]);
}

fn blank_template(dc: (u32, u8), eob: (u32, u8)) -> JpegTemplate {
    JpegTemplate {
        dqt: vec![],
        dht: vec![],
        sof: vec![],
        sos_payload: vec![],
        width: 8,
        height: 8,
        ncomp: 1,
        prec: 8,
        sampling: vec![(1, 1)],
        sos_comps: vec![(1, 0, 0)],
        hmax: 1,
        vmax: 1,
        baseline: true,
        dc_code0: vec![Some(dc)],
        eob_code: vec![Some(eob)],
    }
}

#[test]
fn blank_scan_packs_codes_most_significant_bit_first() {
    // two blocks of DC "00" and EOB "1010": 001010 001010, padded with zeros
    let t = blank_template((0b00, 2), (0b1010, 4));
    assert_eq!(synth_jpeg_scan(&t, 16, 8), Some(vec![0x28, 0xA0]));
}

#[test]
fn blank_scan_stuffs_a_zero_after_ff() {
    let t = blank_template((0xFF, 8), (0b1, 1));
    assert_eq!(synth_jpeg_scan(&t, 8, 8), Some(vec![0xFF, 0x00, 0x80]));
}

#[test]
fn shown_offsets_read_back() {
    for n in [0u64, 1, 0x1F, 0xFFFF, 0x1234_5678, 0xFFFF_FFFF, 0x1_0000_0000] {
        assert_eq!(parse_hex(&format!("{:08X}", n), u64::MAX), Some(n));
        assert_eq!(parse_hex(&format!("0x{:08X}", n), u64::MAX), Some(n));
    }
    for b in 0u64..=255 {
        assert_eq!(parse_hex(&format!("{:02X}", b), 255), Some(b));
    }
}

#[test]
fn dd_lines_read_back() {
    for n in [0u64, 7, 4194304, u64::MAX] {
        let line = format!("{} bytes ({} B) copied, 1 s, 1 B/s", n, n);
        assert_eq!(parse_dd_bytes(&line), Some(n));
    }
}

const HEX1: &str = "Offset      00 01 02 03 04 05 06 07  08 09 0A 0B 0C 0D 0E 0F  ASCII\n00000000  48 65*6C 6C 6F 2C 20 57  6F 72 6C 64 21 00 01 02  Hello, World!...\n00000010  7F 41*20                                          .A \n";
const HEX2: &str = "Offset      00 01 02 03 04 05 06 07  08 09 0A 0B 0C 0D 0E 0F  ASCII\n00000000  01 02 03 04                                       ....\n... showing 4 of 6 bytes\n";
const HEX3: &str = "Offset      00 01 02 03 04 05 06 07  08 09 0A 0B 0C 0D 0E 0F  ASCII\n(empty file)";
const HEX4: &str = "Offset      00 01 02 03 04 05 06 07  08 09 0A 0B 0C 0D 0E 0F  ASCII\n00000000  00*01 02 03 04 05 06 07  08 09 0A 0B 0C 0D 0E 0F  ................\n00000010  10 11 12 13 14 15 16 17  18 19 1A 1B 1C 1D 1E 1F  ................\n00000020  20 21 22 23 24 25 26 27                            !\"#$%&'\n";
const JPEG_TEMPLATE: &str = "╔══ JPEG Header Template ══════════════════════════╗\n║   Extensions  : .jpg .jpeg .jfif                  ║\n║   Signature   : FF D8 FF                          ║\n║   Footer      : FF D9                             ║\n║   Byte order  : Big-endian                        ║\n╚══════════════════════════════════════════════════\n\n┌──────────┬────────┬──────────────────────────────┐\n│ Offset   │ Size   │ Field                        │\n├──────────┼────────┼──────────────────────────────┤\n│ 0x0000   │ 2      │ SOI marker  (FF D8)          │\n│ 0x0002   │ 2      │ APP0 marker (FF E0)          │\n│ 0x0004   │ 2      │ Segment length               │\n│ 0x0006   │ 5      │ Identifier 'JFIF\\0'          │\n│ 0x000B   │ 2      │ Version (major.minor)        │\n│ 0x000D   │ 1      │ Units (0=none,1=dpi,2=dpcm)  │\n│ 0x000E   │ 2      │ X density                    │\n│ 0x0010   │ 2      │ Y density                    │\n│ 0x0012   │ 2      │ Thumbnail X/Y                │\n│ 0x0014   │ …      │ DQT, SOF0, DHT, SOS segments │\n│ …        │ …      │ Compressed scan data         │\n│ End      │ 2      │ EOI marker  (FF D9)          │\n└──────────┴────────┴──────────────────────────────┘\n";
const GIF_TEMPLATE: &str = "╔══ GIF Header Template ═════════════════════════════╗\n║   Extensions  : .gif                                ║\n║   Signature   : 47 49 46 38                         ║\n║   Footer      : 3B                                  ║\n║   Byte order  : Little-endian                       ║\n╚════════════════════════════════════════════════════\n\n┌──────────┬────────┬────────────────────────────────┐\n│ Offset   │ Size   │ Field                          │\n├──────────┼────────┼────────────────────────────────┤\n│ 0x0000   │ 3      │ Signature 'GIF'                │\n│ 0x0003   │ 3      │ Version '87a' or '89a'         │\n│ 0x0006   │ 2      │ Logical screen width           │\n│ 0x0008   │ 2      │ Logical screen height          │\n│ 0x000A   │ 1      │ Packed fields (GCT flag/size)  │\n│ 0x000B   │ 1      │ Background color index         │\n│ 0x000C   │ 1      │ Pixel aspect ratio             │\n│ 0x000D   │ …      │ Global Color Table (optional)  │\n│ 0x000D   │ …      │ Image descriptors / extensions │\n│ End      │ 1      │ Trailer byte  (0x3B)           │\n└──────────┴────────┴────────────────────────────────┘\n";

#[test]
fn candidate_past_the_end_yields_no_attempt() {
    let data = vec![0x47, 0x49, 0x46, 0x38, 0x39, 0x61, 0, 0];
    let cand = EmbeddedCandidate { offset: 8, file_type: FileType::GIF, label: "GIF", size: None, valid: true };
    let mut out = Vec::new();
    push_candidate_attempts(&data, &cand, None, Vec::new(), &mut out);
    assert!(out.is_empty());
}

#[test]
fn fallback_leaves_earlier_attempts_alone() {
    let data = b"plain text".to_vec();
    let primary = analysis(FileType::Unknown, false, false, None);
    let mut out = vec![RepairAttempt { offset: 0, file_type: FileType::GIF, label: "GIF", data: vec![1, 2, 3] }];
    push_fallback_attempts(&data, &primary, None, Vec::new(), &mut out);
    assert_eq!(out.len(), 1);
    assert_eq!(out[0].data, vec![1, 2, 3]);
}
