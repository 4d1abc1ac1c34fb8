//! The carving scan: its options, the commands and events exchanged with
//! the worker that runs it, and the decisions taken around the engine
//! (which extensions it looks for, how far a quick scan goes, what a found
//! file is reported as, which reads stay inside the scan area).

use vstd::prelude::*;
use vstd::string::StrSliceExecFns;
use crate::deep::unicode_lowercase;
use crate::filetypes::{CategoryMask, FileCategory, spec_classify};
use crate::ntfs::ByteRange;
use crate::system::{DiskInfo, PartitionInfo};
use crate::text::{chars_of, push_char, push_decimal, push_str};

verus! {

/// Options of a carving scan.
#[derive(Debug, Clone)]
pub struct PhotoRecOptions {
    /// Which categories of files to recover. `None` (the default) recovers
    /// every category with the engine's default settings.
    pub file_categories: Option<CategoryMask>,
    /// Run the engine's brute-force fragmented-file reassembly pass after the
    /// normal carve. Slower, but can re-join pieces of fragmented files.
    pub frag_reassembly: bool,
    /// Recover files using the filesystem structure first, before carving.
    pub fs_pass: bool,
    /// Optional Windows-style path (e.g. `\\Documents`) restricting the
    /// filesystem-structure pass to a single directory.
    pub dir_filter: Option<String>,
}

impl Default for PhotoRecOptions {
    fn default() -> (r: Self)
        ensures
            r.file_categories is None,
            !r.frag_reassembly,
            !r.fs_pass,
            r.dir_filter is None,
    {
        PhotoRecOptions { file_categories: None, frag_reassembly: false, fs_pass: false, dir_filter: None }
    }
}

/// A command to the scan worker.
#[derive(Debug, Clone)]
pub enum WorkerCommand {
    StartScan {
        device: String,
        output_dir: String,
        options: PhotoRecOptions,
        part_offset: u64,
        part_size: u64,
        dd_path: Option<String>,
        scan_type: String,
    },
    StopScan,
    Shutdown,
}

/// An event from the scan worker.
#[derive(Debug, Clone)]
pub enum WorkerEvent {
    Ready,
    ScanStarted { output_dir: String },
    ProgressUpdate { percent: u32, current_file: String, files_found: u64 },
    FileFound { filename: String, extension: String, size: u64 },
    LogMessage(String),
    ScanComplete,
    ScanStopped,
    Error(String),
}

/// An absolute byte range handed to the carving engine as already used.
#[derive(Debug, Clone, Copy, PartialEq, Eq, Structural)]
pub struct KaifukuRange {
    pub offset: u64,
    pub size: u64,
}

/// The used ranges found by the filesystem pass, as the engine takes them.
pub fn carve_ranges(used: &[ByteRange]) -> (r: Vec<KaifukuRange>)
    ensures
        r@.len() == used@.len(),
        forall|i: int| 0 <= i < used@.len() ==> #[trigger] r@[i] == (KaifukuRange { offset: used@[i].offset, size: used@[i].size }),
{
    let mut out: Vec<KaifukuRange> = Vec::new();
    let mut i: usize = 0;
    while i < used.len()
        invariant
            i <= used@.len(),
            out@.len() == i,
            forall|k: int| 0 <= k < i ==> #[trigger] out@[k] == (KaifukuRange { offset: used@[k].offset, size: used@[k].size }),
        decreases used@.len() - i,
    {
        out.push(KaifukuRange { offset: used[i].offset, size: used[i].size });
        i += 1;
    }
    out
}

/// The extensions of `known` whose category the mask selects, in order.
pub open spec fn selected_from(mask: CategoryMask, known: Seq<Seq<char>>) -> Seq<Seq<char>>
    decreases known.len(),
{
    if known.len() == 0 {
        Seq::empty()
    } else {
        let rest = selected_from(mask, known.drop_last());
        if mask.spec_includes(spec_classify(known.last())) {
            rest.push(known.last())
        } else {
            rest
        }
    }
}

/// The extension filter given to the engine: empty (the engine's defaults)
/// when every category is wanted, else the known extensions of the wanted
/// categories.
pub open spec fn spec_extension_filter(mask: Option<CategoryMask>, known: Seq<Seq<char>>) -> Seq<Seq<char>> {
    match mask {
        Some(m) => if (forall|c: FileCategory| #[trigger] m.spec_includes(c)) {
            Seq::empty()
        } else {
            selected_from(m, known)
        },
        None => Seq::empty(),
    }
}

/// The values of some strings.
pub open spec fn strings_v(v: Seq<String>) -> Seq<Seq<char>> {
    v.map_values(|s: String| s@)
}

fn copy_string(s: &String) -> (r: String)
    ensures
        r@ == s@,
{
    let mut t = String::new();
    push_str(&mut t, s.as_str());
    t
}

/// The extension filter for a scan (see `spec_extension_filter`).
pub fn extension_filter(mask: Option<CategoryMask>, known: &Vec<String>) -> (r: Vec<String>)
    ensures
        strings_v(r@) == spec_extension_filter(mask, strings_v(known@)),
{
    let mut out: Vec<String> = Vec::new();
    assert(strings_v(out@) =~= Seq::<Seq<char>>::empty());
    let m = match mask {
        Some(m) => m,
        None => {
            return out;
        },
    };
    if m.is_all() {
        return out;
    }
    let ghost ks = strings_v(known@);
    let mut i: usize = 0;
    while i < known.len()
        invariant
            i <= known@.len(),
            ks == strings_v(known@),
            strings_v(out@) == selected_from(m, ks.subrange(0, i as int)),
        decreases known@.len() - i,
    {
        let cat = FileCategory::classify(known[i].as_str());
        let ghost before = strings_v(out@);
        assert(ks.subrange(0, i + 1).drop_last() =~= ks.subrange(0, i as int));
        if m.includes(cat) {
            let e = copy_string(&known[i]);
            out.push(e);
            assert(strings_v(out@) =~= before.push(ks[i as int]));
        }
        i += 1;
    }
    assert(ks.subrange(0, known@.len() as int) =~= ks);
    out
}

/// Largest region a quick scan covers.
pub const QUICK_SCAN_LIMIT: u64 = 100_000_000;

/// How much of the partition a scan covers: a quick scan of a whole device
/// or of a large partition is limited.
pub open spec fn spec_scan_part_size(scan_type: Seq<char>, part_size: u64) -> u64 {
    if scan_type == seq!['Q', 'u', 'i', 'c', 'k'] && (part_size == 0 || part_size > QUICK_SCAN_LIMIT) {
        QUICK_SCAN_LIMIT
    } else {
        part_size
    }
}

fn is_quick(cs: &Vec<char>) -> (r: bool)
    ensures
        r == (cs@ == seq!['Q', 'u', 'i', 'c', 'k']),
{
    let ok = cs.len() == 5 && cs[0] == 'Q' && cs[1] == 'u' && cs[2] == 'i' && cs[3] == 'c' && cs[4] == 'k';
    proof {
        if ok {
            assert(cs@ =~= seq!['Q', 'u', 'i', 'c', 'k']);
        } else if cs@ == seq!['Q', 'u', 'i', 'c', 'k'] {
            assert(cs@[0] == 'Q');
        }
    }
    ok
}

/// The size of the region a scan covers (see `spec_scan_part_size`).
pub fn scan_part_size(scan_type: &str, part_size: u64) -> (r: u64)
    ensures
        r == spec_scan_part_size(scan_type@, part_size),
{
    let cs = chars_of(scan_type);
    if is_quick(&cs) && (part_size == 0 || part_size > QUICK_SCAN_LIMIT) {
        QUICK_SCAN_LIMIT
    } else {
        part_size
    }
}

/// Progress of a disk image copy, in percent, below 100 until the copy
/// ends (0 when the total is unknown).
pub fn dd_progress_percent(copied: u64, total: u64) -> (r: u32)
    requires
        copied * 100 <= u64::MAX,
    ensures
        total == 0 ==> r == 0,
        total > 0 ==> r == (if (copied * 100) / (total as int) < 99 { (copied * 100) / (total as int) } else { 99 }),
{
    if total > 0 {
        let p = copied * 100 / total;
        if p < 99 {
            p as u32
        } else {
            99
        }
    } else {
        0
    }
}

/// Index of the last `c` in `s` before `end`.
pub open spec fn last_index_of(s: Seq<char>, c: char, end: int) -> Option<int>
    decreases end,
{
    if end <= 0 {
        None
    } else if s[end - 1] == c {
        Some(end - 1)
    } else {
        last_index_of(s, c, end - 1)
    }
}

/// What follows the last `c` in `s` (all of `s` when there is none).
pub open spec fn after_last(s: Seq<char>, c: char) -> Seq<char> {
    match last_index_of(s, c, s.len() as int) {
        Some(k) => s.subrange(k + 1, s.len() as int),
        None => s,
    }
}

/// The extension reported for a file recovered at `path`: of its last path
/// component, the dot-separated part before the last dot, lowercased (empty
/// without a dot).
pub open spec fn spec_found_extension(path: Seq<char>) -> Seq<char> {
    let name = after_last(path, '/');
    match last_index_of(name, '.', name.len() as int) {
        Some(k) => unicode_lowercase(after_last(name.subrange(0, k), '.')),
        None => Seq::empty(),
    }
}

fn last_index_exec(s: &Vec<char>, c: char, end: usize) -> (r: Option<usize>)
    requires
        end <= s@.len(),
    ensures
        match r {
            Some(k) => last_index_of(s@, c, end as int) == Some(k as int) && k < end,
            None => last_index_of(s@, c, end as int) is None,
        },
{
    let mut e = end;
    while e > 0
        invariant
            e <= end <= s@.len(),
            last_index_of(s@, c, end as int) == last_index_of(s@, c, e as int),
        decreases e,
    {
        if s[e - 1] == c {
            return Some(e - 1);
        }
        e -= 1;
    }
    None
}

fn sub_chars(s: &Vec<char>, lo: usize, hi: usize) -> (r: Vec<char>)
    requires
        lo <= hi <= s@.len(),
    ensures
        r@ == s@.subrange(lo as int, hi as int),
{
    let mut out: Vec<char> = Vec::new();
    let mut i = lo;
    while i < hi
        invariant
            lo <= i <= hi <= s@.len(),
            out@ == s@.subrange(lo as int, i as int),
        decreases hi - i,
    {
        out.push(s[i]);
        i += 1;
        assert(out@ =~= s@.subrange(lo as int, i as int));
    }
    out
}

fn after_last_exec(s: &Vec<char>, c: char) -> (r: Vec<char>)
    ensures
        r@ == after_last(s@, c),
{
    match last_index_exec(s, c, s.len()) {
        Some(k) => sub_chars(s, k + 1, s.len()),
        None => {
            let r = sub_chars(s, 0, s.len());
            assert(s@.subrange(0, s@.len() as int) =~= s@);
            r
        },
    }
}

fn string_of(cs: &Vec<char>) -> (r: String)
    ensures
        r@ == cs@,
{
    let mut s = String::new();
    let mut i: usize = 0;
    while i < cs.len()
        invariant
            i <= cs@.len(),
            s@ == cs@.subrange(0, i as int),
        decreases cs@.len() - i,
    {
        push_char(&mut s, cs[i]);
        i += 1;
        assert(s@ =~= cs@.subrange(0, i as int));
    }
    assert(cs@.subrange(0, cs@.len() as int) =~= cs@);
    s
}

/// The extension reported for a file recovered at `path` (see
/// `spec_found_extension`).
pub fn found_extension(path: &str) -> (r: String)
    ensures
        r@ == spec_found_extension(path@),
{
    let p = chars_of(path);
    let name = after_last_exec(&p, '/');
    match last_index_exec(&name, '.', name.len()) {
        Some(k) => {
            let before = sub_chars(&name, 0, k);
            let seg = after_last_exec(&before, '.');
            let s = string_of(&seg);
            crate::deep::to_lowercase(s.as_str())
        },
        None => String::new(),
    }
}

/// The progress line of the filesystem pass.
pub open spec fn spec_ntfs_progress_label(files: u64, current: Seq<char>) -> Seq<char> {
    if current.len() == 0 {
        "NTFS structure pass: "@ + crate::text::decimal(files as nat) + " files"@
    } else {
        "NTFS: "@ + current
    }
}

/// The progress line of the filesystem pass (see
/// `spec_ntfs_progress_label`).
pub fn ntfs_progress_label(files: u64, current: &str) -> (r: String)
    ensures
        r@ == spec_ntfs_progress_label(files, current@),
{
    let mut s = String::new();
    if current.unicode_len() == 0 {
        push_str(&mut s, "NTFS structure pass: ");
        push_decimal(&mut s, files);
        push_str(&mut s, " files");
    } else {
        push_str(&mut s, "NTFS: ");
        push_str(&mut s, current);
    }
    s
}

/// Whether a read of `len` bytes at `offset` stays inside the scan area
/// that starts at `part_offset` and is `part_size` bytes long (the whole
/// device when the size is 0). An empty read always does.
pub open spec fn spec_read_in_scan_area(part_offset: u64, part_size: u64, offset: u64, len: u64) -> bool {
    len == 0 || (offset >= part_offset && (part_size == 0 || offset + len <= part_offset + part_size))
}

/// Whether a read stays inside the scan area (see `spec_read_in_scan_area`).
pub fn read_in_scan_area(part_offset: u64, part_size: u64, offset: u64, len: u64) -> (r: bool)
    requires
        part_offset + part_size <= u64::MAX,
        offset + len <= u64::MAX,
    ensures
        r == spec_read_in_scan_area(part_offset, part_size, offset, len),
{
    if len == 0 {
        return true;
    }
    if offset < part_offset {
        return false;
    }
    part_size == 0 || offset + len <= part_offset + part_size
}

/// How a drive is listed for the user to pick: its device and its model
/// (`Unknown` when the model is not known).
pub open spec fn spec_disk_choice_label(d: DiskInfo) -> Seq<char> {
    d.device@ + " ("@ + if d.model@.len() == 0 {
        "Unknown"@
    } else {
        d.model@
    } + ")"@
}

/// How a drive is listed for the user to pick.
pub fn disk_choice_label(d: &DiskInfo) -> (r: String)
    ensures
        r@ == spec_disk_choice_label(*d),
{
    let mut s = String::new();
    push_str(&mut s, d.device.as_str());
    push_str(&mut s, " (");
    if d.model.as_str().unicode_len() == 0 {
        push_str(&mut s, "Unknown");
    } else {
        push_str(&mut s, d.model.as_str());
    }
    push_str(&mut s, ")");
    assert(s@ =~= spec_disk_choice_label(*d));
    s
}

/// Where a disk image of `device` is written unless the user picks another
/// place: `/tmp/recovery/` and the device's name without `/dev/`.
pub open spec fn spec_default_image_path(device: Seq<char>) -> Seq<char> {
    let name = if device.len() >= 5 && device.subrange(0, 5) == "/dev/"@ {
        device.subrange(5, device.len() as int)
    } else {
        device
    };
    "/tmp/recovery/"@ + name + ".dd"@
}

/// Where a disk image of `device` is written unless the user picks another
/// place.
pub fn default_image_path(device: &str) -> (r: String)
    ensures
        r@ == spec_default_image_path(device@),
{
    let cs = chars_of(device);
    let prefix = ['/', 'd', 'e', 'v', '/'];
    proof {
        reveal_strlit("/dev/");
        assert(prefix@ =~= "/dev/"@);
    }
    let mut matched = cs.len() >= 5;
    let mut i: usize = 0;
    while matched && i < 5
        invariant
            matched ==> cs@.len() >= 5,
            i <= 5,
            prefix@ == "/dev/"@,
            matched ==> forall|q: int| 0 <= q < i ==> cs@[q] == prefix@[q],
            !matched ==> !(cs@.len() >= 5 && cs@.subrange(0, 5) == "/dev/"@),
        decreases 5 - i,
    {
        if cs[i] != prefix[i] {
            matched = false;
            assert(cs@.subrange(0, 5)[i as int] != prefix@[i as int]);
        }
        i += 1;
    }
    if matched {
        assert(cs@.subrange(0, 5) =~= "/dev/"@);
    }
    let start: usize = if matched {
        5
    } else {
        0
    };
    let mut s = String::new();
    push_str(&mut s, "/tmp/recovery/");
    let mut k: usize = start;
    let ghost base = s@;
    while k < cs.len()
        invariant
            start <= k <= cs@.len(),
            s@ == base + cs@.subrange(start as int, k as int),
        decreases cs@.len() - k,
    {
        push_char(&mut s, cs[k]);
        k += 1;
        assert(s@ =~= base + cs@.subrange(start as int, k as int));
    }
    push_str(&mut s, ".dd");
    assert(cs@.subrange(0, cs@.len() as int) =~= cs@);
    assert(s@ =~= spec_default_image_path(device@));
    s
}

/// What the scan page holds when the user starts a scan.
pub struct ScanForm {
    /// The drive picked, as an index into the listed drives.
    pub disk_index: usize,
    /// The partition picked, as an index into the listed partitions.
    pub partition_index: usize,
    /// The destination typed; empty for the default one.
    pub output_dir: String,
    /// Whether to scan a disk image written first, and where.
    pub image_first: bool,
    pub image_path: String,
    pub categories: CategoryMask,
    pub frag_reassembly: bool,
    pub fs_pass: bool,
    /// The directory filter typed; empty for none.
    pub dir_filter: String,
    pub scan_type: String,
}

/// The command that starts the scan the form describes: `None` when no
/// listed drive is picked; a partition index past the list scans the whole
/// drive; the default destination stands in for an empty one; the directory
/// filter applies only with the filesystem pass and when not empty.
pub fn start_scan_command(
    form: ScanForm,
    disks: &[DiskInfo],
    partitions: &[PartitionInfo],
    default_dir: &str,
) -> (r: Option<WorkerCommand>)
    ensures
        form.disk_index >= disks@.len() <==> r is None,
        r matches Some(WorkerCommand::StartScan {
            device,
            output_dir,
            options,
            part_offset,
            part_size,
            dd_path,
            scan_type,
        }) ==> {
            &&& device@ == disks@[form.disk_index as int].device@
            &&& output_dir@ == if form.output_dir@.len() == 0 {
                default_dir@
            } else {
                form.output_dir@
            }
            &&& options.file_categories == Some(form.categories)
            &&& options.frag_reassembly == form.frag_reassembly
            &&& options.fs_pass == form.fs_pass
            &&& if form.fs_pass && form.dir_filter@.len() > 0 {
                options.dir_filter matches Some(f) && f@ == form.dir_filter@
            } else {
                options.dir_filter is None
            }
            &&& if form.partition_index < partitions@.len() {
                part_offset == partitions@[form.partition_index as int].offset && part_size
                    == partitions@[form.partition_index as int].size
            } else {
                part_offset == 0 && part_size == 0
            }
            &&& if form.image_first {
                dd_path matches Some(p) && p@ == form.image_path@
            } else {
                dd_path is None
            }
            &&& scan_type@ == form.scan_type@
        },
        r is Some ==> r matches Some(WorkerCommand::StartScan { .. }),
{
    let (part_offset, part_size) = if form.partition_index < partitions.len() {
        (partitions[form.partition_index].offset, partitions[form.partition_index].size)
    } else {
        (0, 0)
    };
    if form.disk_index >= disks.len() {
        return None;
    }
    let device = copy_string(&disks[form.disk_index].device);
    let output_dir = if form.output_dir.as_str().unicode_len() == 0 {
        let mut d = String::new();
        push_str(&mut d, default_dir);
        d
    } else {
        form.output_dir
    };
    let dd_path = if form.image_first {
        Some(form.image_path)
    } else {
        None
    };
    let dir_filter = if form.fs_pass && form.dir_filter.as_str().unicode_len() > 0 {
        Some(form.dir_filter)
    } else {
        None
    };
    let options = PhotoRecOptions {
        file_categories: Some(form.categories),
        frag_reassembly: form.frag_reassembly,
        fs_pass: form.fs_pass,
        dir_filter,
    };
    Some(WorkerCommand::StartScan {
        device,
        output_dir,
        options,
        part_offset,
        part_size,
        dd_path,
        scan_type: form.scan_type,
    })
}

} // verus!
