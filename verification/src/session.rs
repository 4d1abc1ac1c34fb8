//! What the application keeps about the current scan between the worker's
//! events: the page shown, the progress, the files recovered so far and a
//! bounded, time-stamped log.

use vstd::prelude::*;
use crate::filetypes::{all_categories, all_categories_vec, spec_classify, CategoryMask, FileCategory};
use crate::scan::WorkerEvent;
use crate::text::{decimal, push_char, push_decimal, push_str};

verus! {

/// The pages of the application.
#[derive(Debug, Clone, Copy, PartialEq, Eq, Structural)]
pub enum Page {
    Menu,
    Scan,
    Scanning,
    Recovery,
    ImageScan,
    Advanced,
    Experimental,
    Repair,
    DeepRepair,
    Settings,
    About,
}

/// The last progress the worker reported.
#[derive(Debug, Clone)]
pub struct ScanProgress {
    pub percent: u32,
    pub current_file: String,
    pub files_found: u64,
}

/// A file the scan recovered.
#[derive(Debug, Clone)]
pub struct RecoveredFile {
    pub filename: String,
    pub extension: String,
    pub size: u64,
    pub status: String,
}

/// Most lines the log keeps; older ones are dropped first.
pub const LOG_LINE_LIMIT: usize = 5000;

/// Least time, in milliseconds, between two redraws of the scanning page
/// for progress.
pub const REDRAW_INTERVAL_MS: u64 = 250;

/// `n` (below 100) in two digits.
pub open spec fn two_digits(n: nat) -> Seq<char> {
    if n < 10 {
        seq!['0'] + decimal(n)
    } else {
        decimal(n)
    }
}

/// The time of day (UTC) of `clock` seconds after the epoch as
/// `HH:MM:SS`, or `--:--:--` when the clock is before the epoch.
pub open spec fn time_stamp(clock: Option<u64>) -> Seq<char> {
    match clock {
        Some(t) => {
            let secs = (t % 86400) as nat;
            two_digits(secs / 3600) + seq![':'] + two_digits((secs % 3600) / 60) + seq![':']
                + two_digits(secs % 60)
        },
        None => "--:--:--"@,
    }
}

/// A line of the log.
pub open spec fn log_line(clock: Option<u64>, msg: Seq<char>) -> Seq<char> {
    seq!['['] + time_stamp(clock) + "] "@ + msg
}

/// The log after `line` is added: the newest lines, at most
/// `LOG_LINE_LIMIT` of them.
pub open spec fn log_after(log: Seq<Seq<char>>, line: Seq<char>) -> Seq<Seq<char>> {
    let l = log.push(line);
    if l.len() > LOG_LINE_LIMIT {
        l.subrange(l.len() - LOG_LINE_LIMIT, l.len() as int)
    } else {
        l
    }
}

fn push_two_digits(s: &mut String, n: u64)
    requires
        n < 100,
    ensures
        final(s)@ == old(s)@ + two_digits(n as nat),
{
    if n < 10 {
        push_char(s, '0');
    }
    push_decimal(s, n);
    assert(s@ =~= old(s)@ + two_digits(n as nat));
}

/// A line of the log: the time stamp, then the message.
pub fn make_log_line(clock: Option<u64>, msg: &str) -> (r: String)
    ensures
        r@ == log_line(clock, msg@),
{
    let mut s = String::new();
    push_char(&mut s, '[');
    match clock {
        Some(t) => {
            let secs = t % 86400;
            push_two_digits(&mut s, secs / 3600);
            push_char(&mut s, ':');
            push_two_digits(&mut s, (secs % 3600) / 60);
            push_char(&mut s, ':');
            push_two_digits(&mut s, secs % 60);
        },
        None => push_str(&mut s, "--:--:--"),
    }
    push_str(&mut s, "] ");
    push_str(&mut s, msg);
    assert(s@ =~= log_line(clock, msg@));
    s
}

/// The log lines as values.
pub open spec fn lines_v(v: Seq<String>) -> Seq<Seq<char>> {
    v.map_values(|s: String| s@)
}

fn copy_text(s: &str) -> (r: String)
    ensures
        r@ == s@,
{
    let mut t = String::new();
    push_str(&mut t, s);
    t
}

/// The log keeps the newest lines in their order, the line just added last,
/// and never more than `LOG_LINE_LIMIT` of them.
pub proof fn lemma_log_keeps_newest(log: Seq<Seq<char>>, line: Seq<char>)
    ensures
        log_after(log, line).len() == if log.len() + 1 > LOG_LINE_LIMIT {
            LOG_LINE_LIMIT as int
        } else {
            log.len() + 1 as int
        },
        log_after(log, line).last() == line,
        forall|i: int|
            0 <= i < log_after(log, line).len() ==> #[trigger] log_after(log, line)[i] == log.push(line)[log.len()
                + 1 - log_after(log, line).len() + i],
{
}

/// The state the application keeps about the current scan.
pub struct AppState {
    current_page: Page,
    progress: ScanProgress,
    recovered: Vec<RecoveredFile>,
    log: Vec<String>,
    last_redraw_ms: u64,
    scan_start_ms: Option<u64>,
    last_output_dir: String,
}

impl AppState {
    /// The page shown.
    pub closed spec fn page(self) -> Page {
        self.current_page
    }

    /// The log, oldest line first.
    pub closed spec fn log_v(self) -> Seq<Seq<char>> {
        lines_v(self.log@)
    }

    /// The files recovered by the current scan.
    pub closed spec fn recovered_v(self) -> Seq<RecoveredFile> {
        self.recovered@
    }

    /// The last progress reported.
    pub closed spec fn progress_v(self) -> ScanProgress {
        self.progress
    }

    /// When the scanning page was last drawn for progress.
    pub closed spec fn last_redraw(self) -> u64 {
        self.last_redraw_ms
    }

    /// When the current scan started.
    pub closed spec fn started(self) -> Option<u64> {
        self.scan_start_ms
    }

    /// Where the current scan writes.
    pub closed spec fn output_dir(self) -> Seq<char> {
        self.last_output_dir@
    }

    /// The state at start-up: the menu, no scan, an empty log.
    pub fn new(now_ms: u64) -> (r: AppState)
        ensures
            r.page() == Page::Menu,
            r.log_v().len() == 0,
            r.recovered_v().len() == 0,
            r.started() is None,
            r.last_redraw() == now_ms,
            r.output_dir() == "/tmp/recovery"@,
    {
        let r = AppState {
            current_page: Page::Menu,
            progress: ScanProgress { percent: 0, current_file: String::new(), files_found: 0 },
            recovered: Vec::new(),
            log: Vec::new(),
            last_redraw_ms: now_ms,
            scan_start_ms: None,
            last_output_dir: copy_text("/tmp/recovery"),
        };
        assert(r.log_v() =~= Seq::<Seq<char>>::empty());
        r
    }

    /// The page shown.
    pub fn current_page(&self) -> (r: Page)
        ensures
            r == self.page(),
    {
        self.current_page
    }

    /// The log, oldest line first.
    pub fn log_lines(&self) -> (r: &Vec<String>)
        ensures
            lines_v(r@) == self.log_v(),
    {
        &self.log
    }

    /// The files recovered by the current scan.
    pub fn recovered_files(&self) -> (r: &Vec<RecoveredFile>)
        ensures
            r@ == self.recovered_v(),
    {
        &self.recovered
    }

    /// The last progress reported.
    pub fn scan_progress(&self) -> (r: &ScanProgress)
        ensures
            *r == self.progress_v(),
    {
        &self.progress
    }

    /// When the current scan started, if one did.
    pub fn scan_start_ms(&self) -> (r: Option<u64>)
        ensures
            r == self.started(),
    {
        self.scan_start_ms
    }

    /// Where the current scan writes.
    pub fn last_output_dir(&self) -> (r: &str)
        ensures
            r@ == self.output_dir(),
    {
        self.last_output_dir.as_str()
    }

    /// Shows `page`.
    pub fn show_page(&mut self, page: Page)
        ensures
            final(self).page() == page,
            final(self).log_v() == old(self).log_v(),
            final(self).recovered_v() == old(self).recovered_v(),
            final(self).progress_v() == old(self).progress_v(),
            final(self).last_redraw() == old(self).last_redraw(),
            final(self).started() == old(self).started(),
            final(self).output_dir() == old(self).output_dir(),
    {
        self.current_page = page;
    }

    /// Adds a line, stamped with the time of day of `clock` (seconds after
    /// the epoch), to the log, dropping the oldest lines beyond
    /// `LOG_LINE_LIMIT`.
    pub fn push_log(&mut self, msg: &str, clock: Option<u64>)
        ensures
            final(self).log_v() == log_after(old(self).log_v(), log_line(clock, msg@)),
            final(self).log_v().len() <= LOG_LINE_LIMIT,
            final(self).page() == old(self).page(),
            final(self).recovered_v() == old(self).recovered_v(),
            final(self).progress_v() == old(self).progress_v(),
            final(self).last_redraw() == old(self).last_redraw(),
            final(self).started() == old(self).started(),
            final(self).output_dir() == old(self).output_dir(),
    {
        let line = make_log_line(clock, msg);
        let ghost l = lines_v(self.log@).push(line@);
        self.log.push(line);
        assert(lines_v(self.log@) =~= l);
        while self.log.len() > LOG_LINE_LIMIT
            invariant
                l.len() >= lines_v(self.log@).len(),
                lines_v(self.log@).len() == self.log@.len(),
                self.log@.len() >= LOG_LINE_LIMIT || self.log@.len() == l.len(),
                lines_v(self.log@) == l.subrange(l.len() - lines_v(self.log@).len(), l.len() as int),
                self.current_page == old(self).current_page,
                self.recovered@ == old(self).recovered@,
                self.progress == old(self).progress,
                self.last_redraw_ms == old(self).last_redraw_ms,
                self.scan_start_ms == old(self).scan_start_ms,
                self.last_output_dir == old(self).last_output_dir,
            decreases self.log@.len(),
        {
            let ghost before = lines_v(self.log@);
            self.log.remove(0);
            assert(lines_v(self.log@) =~= before.subrange(1, before.len() as int));
            assert(lines_v(self.log@) =~= l.subrange(l.len() - lines_v(self.log@).len(), l.len() as int));
        }
        assert(lines_v(self.log@) =~= log_after(old(self).log_v(), log_line(clock, msg@)));
    }

    /// Handles an event of the scan worker at `now_ms` (a monotonic clock
    /// in milliseconds), with `clock` the seconds after the epoch for the
    /// log's time stamps and `found_size` how the size of a found file
    /// reads. Returns the page to draw (again), if any.
    ///
    /// A started scan resets the progress, the recovered files and the log,
    /// and shows the scanning page; progress redraws that page at most once
    /// every `REDRAW_INTERVAL_MS`; a found file is listed and logged; a
    /// complete scan shows the recovered files, a stopped one the menu.
    pub fn handle_event(&mut self, event: WorkerEvent, now_ms: u64, clock: Option<u64>, found_size: &str) -> (r: Option<Page>)
        ensures
            match event {
                WorkerEvent::Ready => r is None && *final(self) == *old(self),
                WorkerEvent::ScanStarted { output_dir } => {
                    &&& r == Some(Page::Scanning)
                    &&& final(self).page() == Page::Scanning
                    &&& final(self).output_dir() == output_dir@
                    &&& final(self).progress_v().percent == 0
                    &&& final(self).progress_v().current_file@.len() == 0
                    &&& final(self).progress_v().files_found == 0
                    &&& final(self).recovered_v().len() == 0
                    &&& final(self).log_v() == seq![log_line(clock, "Recovery started — output: "@ + output_dir@)]
                    &&& final(self).last_redraw() == now_ms
                    &&& final(self).started() == Some(now_ms)
                },
                WorkerEvent::ProgressUpdate { percent, current_file, files_found } => {
                    let redraw = old(self).page() == Page::Scanning && now_ms >= old(self).last_redraw()
                        && now_ms - old(self).last_redraw() > REDRAW_INTERVAL_MS;
                    &&& final(self).progress_v() == (ScanProgress { percent, current_file, files_found })
                    &&& r == if redraw { Some(Page::Scanning) } else { None }
                    &&& final(self).last_redraw() == if redraw { now_ms } else { old(self).last_redraw() }
                    &&& final(self).page() == old(self).page()
                    &&& final(self).log_v() == old(self).log_v()
                    &&& final(self).recovered_v() == old(self).recovered_v()
                    &&& final(self).started() == old(self).started()
                    &&& final(self).output_dir() == old(self).output_dir()
                },
                WorkerEvent::FileFound { filename, extension, size } => {
                    &&& r is None
                    &&& final(self).recovered_v().len() == old(self).recovered_v().len() + 1
                    &&& final(self).recovered_v().drop_last() == old(self).recovered_v()
                    &&& final(self).recovered_v().last().filename@ == filename@
                    &&& final(self).recovered_v().last().extension@ == extension@
                    &&& final(self).recovered_v().last().size == size
                    &&& final(self).recovered_v().last().status@ == "Recovered"@
                    &&& final(self).log_v() == log_after(
                        old(self).log_v(),
                        log_line(clock, "Recovered: "@ + filename@ + " ("@ + found_size@ + ")"@),
                    )
                    &&& final(self).page() == old(self).page()
                    &&& final(self).progress_v() == old(self).progress_v()
                },
                WorkerEvent::LogMessage(msg) => {
                    &&& r is None
                    &&& final(self).log_v() == log_after(old(self).log_v(), log_line(clock, msg@))
                    &&& final(self).page() == old(self).page()
                    &&& final(self).recovered_v() == old(self).recovered_v()
                },
                WorkerEvent::ScanComplete => {
                    &&& r == Some(Page::Recovery)
                    &&& final(self).page() == Page::Recovery
                    &&& final(self).log_v() == log_after(
                        old(self).log_v(),
                        log_line(
                            clock,
                            "Scan complete — "@ + decimal(old(self).recovered_v().len()) + " files recovered"@,
                        ),
                    )
                    &&& final(self).recovered_v() == old(self).recovered_v()
                },
                WorkerEvent::ScanStopped => {
                    &&& r == Some(Page::Menu)
                    &&& final(self).page() == Page::Menu
                    &&& final(self).log_v() == log_after(old(self).log_v(), log_line(clock, "Scan stopped by user"@))
                    &&& final(self).recovered_v() == old(self).recovered_v()
                },
                WorkerEvent::Error(err) => {
                    &&& r is None
                    &&& final(self).log_v() == log_after(old(self).log_v(), log_line(clock, "Error: "@ + err@))
                    &&& final(self).page() == old(self).page()
                    &&& final(self).recovered_v() == old(self).recovered_v()
                },
            },
    {
        match event {
            WorkerEvent::Ready => None,
            WorkerEvent::ScanStarted { output_dir } => {
                let mut msg = String::new();
                push_str(&mut msg, "Recovery started — output: ");
                push_str(&mut msg, output_dir.as_str());
                self.last_output_dir = output_dir;
                self.progress = ScanProgress { percent: 0, current_file: String::new(), files_found: 0 };
                self.recovered = Vec::new();
                self.log = Vec::new();
                self.push_log(msg.as_str(), clock);
                assert(self.log_v() =~= seq![log_line(clock, msg@)]);
                self.last_redraw_ms = now_ms;
                self.scan_start_ms = Some(now_ms);
                self.current_page = Page::Scanning;
                Some(Page::Scanning)
            },
            WorkerEvent::ProgressUpdate { percent, current_file, files_found } => {
                self.progress = ScanProgress { percent, current_file, files_found };
                if self.current_page == Page::Scanning && now_ms >= self.last_redraw_ms && now_ms
                    - self.last_redraw_ms > REDRAW_INTERVAL_MS {
                    self.last_redraw_ms = now_ms;
                    Some(Page::Scanning)
                } else {
                    None
                }
            },
            WorkerEvent::FileFound { filename, extension, size } => {
                let mut msg = String::new();
                push_str(&mut msg, "Recovered: ");
                push_str(&mut msg, filename.as_str());
                push_str(&mut msg, " (");
                push_str(&mut msg, found_size);
                push_str(&mut msg, ")");
                let status = copy_text("Recovered");
                self.recovered.push(RecoveredFile { filename, extension, size, status });
                self.push_log(msg.as_str(), clock);
                None
            },
            WorkerEvent::LogMessage(msg) => {
                self.push_log(msg.as_str(), clock);
                None
            },
            WorkerEvent::ScanComplete => {
                let mut msg = String::new();
                push_str(&mut msg, "Scan complete — ");
                push_decimal(&mut msg, self.recovered.len() as u64);
                push_str(&mut msg, " files recovered");
                self.push_log(msg.as_str(), clock);
                self.current_page = Page::Recovery;
                Some(Page::Recovery)
            },
            WorkerEvent::ScanStopped => {
                self.push_log("Scan stopped by user", clock);
                self.current_page = Page::Menu;
                Some(Page::Menu)
            },
            WorkerEvent::Error(err) => {
                let mut msg = String::new();
                push_str(&mut msg, "Error: ");
                push_str(&mut msg, err.as_str());
                self.push_log(msg.as_str(), clock);
                None
            },
        }
    }
}

/// The category of a recovered file: that of its extension.
#[verifier::opaque]
pub open spec fn category_of(f: RecoveredFile) -> FileCategory {
    spec_classify(f.extension@)
}

/// Number of the files whose extension falls in category `c`.
pub open spec fn cat_count(files: Seq<RecoveredFile>, c: FileCategory) -> nat
    decreases files.len(),
{
    if files.len() == 0 {
        0
    } else {
        cat_count(files.drop_last(), c) + if category_of(files.last()) == c { 1nat } else { 0nat }
    }
}

/// Total size of the files whose extension falls in category `c`.
pub open spec fn cat_size(files: Seq<RecoveredFile>, c: FileCategory) -> nat
    decreases files.len(),
{
    if files.len() == 0 {
        0
    } else {
        cat_size(files.drop_last(), c) + if category_of(files.last()) == c {
            files.last().size as nat
        } else {
            0nat
        }
    }
}

/// Number of the files whose category `mask` includes.
pub open spec fn masked_count(files: Seq<RecoveredFile>, mask: CategoryMask) -> nat
    decreases files.len(),
{
    if files.len() == 0 {
        0
    } else {
        masked_count(files.drop_last(), mask) + if mask.spec_includes(category_of(files.last())) {
            1nat
        } else {
            0nat
        }
    }
}

/// Total size of the files whose category `mask` includes.
pub open spec fn masked_size(files: Seq<RecoveredFile>, mask: CategoryMask) -> nat
    decreases files.len(),
{
    if files.len() == 0 {
        0
    } else {
        masked_size(files.drop_last(), mask) + if mask.spec_includes(category_of(files.last())) {
            files.last().size as nat
        } else {
            0nat
        }
    }
}

/// Total size of the files.
pub open spec fn total_size(files: Seq<RecoveredFile>) -> nat
    decreases files.len(),
{
    if files.len() == 0 {
        0
    } else {
        total_size(files.drop_last()) + files.last().size as nat
    }
}

proof fn lemma_sizes_bounded(files: Seq<RecoveredFile>, c: FileCategory, mask: CategoryMask)
    ensures
        cat_size(files, c) <= total_size(files),
        masked_size(files, mask) <= total_size(files),
        cat_count(files, c) <= files.len(),
        masked_count(files, mask) <= files.len(),
    decreases files.len(),
{
    if files.len() > 0 {
        lemma_sizes_bounded(files.drop_last(), c, mask);
    }
}

proof fn lemma_total_prefix(files: Seq<RecoveredFile>, i: int)
    requires
        0 <= i <= files.len(),
    ensures
        total_size(files.take(i)) <= total_size(files),
    decreases files.len(),
{
    if i < files.len() {
        assert(files.drop_last().take(i) =~= files.take(i));
        lemma_total_prefix(files.drop_last(), i);
    } else {
        assert(files.take(i) =~= files);
    }
}

/// Count and total size of the files of category `c`.
fn category_totals(files: &Vec<RecoveredFile>, c: FileCategory) -> (r: (u64, u64))
    requires
        total_size(files@) <= u64::MAX,
    ensures
        r.0 == cat_count(files@, c),
        r.1 == cat_size(files@, c),
{
    let mut n: u64 = 0;
    let mut size: u64 = 0;
    let mut i: usize = 0;
    while i < files.len()
        invariant
            i <= files@.len(),
            total_size(files@) <= u64::MAX,
            n == cat_count(files@.take(i as int), c),
            size == cat_size(files@.take(i as int), c),
        decreases files@.len() - i,
    {
        let ghost next = files@.take(i + 1);
        assert(next.drop_last() =~= files@.take(i as int));
        proof {
            lemma_sizes_bounded(next, c, CategoryMask { photo: true, video: true, document: true, audio: true, archive: true, other: true });
            lemma_total_prefix(files@, i + 1);
        }
        proof {
            reveal(category_of);
        }
        if FileCategory::classify(files[i].extension.as_str()) == c {
            n += 1;
            size += files[i].size;
        }
        i += 1;
    }
    assert(files@.take(files@.len() as int) =~= files@);
    (n, size)
}

/// Count and total size of the files whose category `mask` includes.
fn masked_totals(files: &Vec<RecoveredFile>, mask: CategoryMask) -> (r: (u64, u64))
    requires
        total_size(files@) <= u64::MAX,
    ensures
        r.0 == masked_count(files@, mask),
        r.1 == masked_size(files@, mask),
{
    let mut n: u64 = 0;
    let mut size: u64 = 0;
    let mut i: usize = 0;
    while i < files.len()
        invariant
            i <= files@.len(),
            total_size(files@) <= u64::MAX,
            n == masked_count(files@.take(i as int), mask),
            size == masked_size(files@.take(i as int), mask),
        decreases files@.len() - i,
    {
        let ghost next = files@.take(i + 1);
        assert(next.drop_last() =~= files@.take(i as int));
        proof {
            lemma_sizes_bounded(next, FileCategory::Other, mask);
            lemma_total_prefix(files@, i + 1);
        }
        proof {
            reveal(category_of);
        }
        if mask.includes(FileCategory::classify(files[i].extension.as_str())) {
            n += 1;
            size += files[i].size;
        }
        i += 1;
    }
    assert(files@.take(files@.len() as int) =~= files@);
    (n, size)
}

/// The summary of a finished recovery: for each category, in the order of
/// `all_categories`, the number and total size of the recovered files whose
/// extension falls in it; then the number and total size of the files of
/// the categories `mask` includes.
pub fn recovery_summary(files: &Vec<RecoveredFile>, mask: CategoryMask) -> (r: (Vec<(FileCategory, u64, u64)>, u64, u64))
    requires
        total_size(files@) <= u64::MAX,
    ensures
        r.0@.len() == all_categories().len(),
        forall|k: int|
            0 <= k < r.0@.len() ==> #[trigger] r.0@[k] == (
                all_categories()[k],
                cat_count(files@, all_categories()[k]) as u64,
                cat_size(files@, all_categories()[k]) as u64,
            ),
        r.1 == masked_count(files@, mask),
        r.2 == masked_size(files@, mask),
{
    let cats = all_categories_vec();
    let mut per: Vec<(FileCategory, u64, u64)> = Vec::new();
    let mut k: usize = 0;
    while k < cats.len()
        invariant
            k <= cats@.len(),
            cats@ == all_categories(),
            total_size(files@) <= u64::MAX,
            per@.len() == k,
            forall|j: int|
                0 <= j < k ==> #[trigger] per@[j] == (
                    all_categories()[j],
                    cat_count(files@, all_categories()[j]) as u64,
                    cat_size(files@, all_categories()[j]) as u64,
                ),
        decreases cats@.len() - k,
    {
        let c = cats[k];
        let (n, size) = category_totals(files, c);
        per.push((c, n, size));
        k += 1;
    }
    let (n, size) = masked_totals(files, mask);
    (per, n, size)
}

/// The number of files of the categories `mask` includes, summed category
/// by category.
pub open spec fn included_count(files: Seq<RecoveredFile>, mask: CategoryMask) -> nat {
    (if mask.photo { cat_count(files, FileCategory::Photo) } else { 0 })
        + (if mask.video { cat_count(files, FileCategory::Video) } else { 0 })
        + (if mask.document { cat_count(files, FileCategory::Document) } else { 0 })
        + (if mask.audio { cat_count(files, FileCategory::Audio) } else { 0 })
        + (if mask.archive { cat_count(files, FileCategory::Archive) } else { 0 })
        + (if mask.other { cat_count(files, FileCategory::Other) } else { 0 })
}

/// The size of the files of the categories `mask` includes, summed category
/// by category.
pub open spec fn included_size(files: Seq<RecoveredFile>, mask: CategoryMask) -> nat {
    (if mask.photo { cat_size(files, FileCategory::Photo) } else { 0 })
        + (if mask.video { cat_size(files, FileCategory::Video) } else { 0 })
        + (if mask.document { cat_size(files, FileCategory::Document) } else { 0 })
        + (if mask.audio { cat_size(files, FileCategory::Audio) } else { 0 })
        + (if mask.archive { cat_size(files, FileCategory::Archive) } else { 0 })
        + (if mask.other { cat_size(files, FileCategory::Other) } else { 0 })
}

/// The totals of a summary under a mask are the per-category figures summed
/// over the categories the mask includes; with every category included they
/// cover every file.
pub proof fn lemma_summary_totals(files: Seq<RecoveredFile>, mask: CategoryMask)
    ensures
        masked_count(files, mask) == included_count(files, mask),
        masked_size(files, mask) == included_size(files, mask),
        mask == (CategoryMask { photo: true, video: true, document: true, audio: true, archive: true, other: true }) ==> masked_count(files, mask) == files.len(),
        mask == (CategoryMask { photo: true, video: true, document: true, audio: true, archive: true, other: true }) ==> masked_size(files, mask) == total_size(files),
    decreases files.len(),
{
    if files.len() > 0 {
        let init = files.drop_last();
        lemma_summary_totals(init, mask);
        let c = category_of(files.last());
        assert(mask.spec_includes(c) == (match c {
            FileCategory::Photo => mask.photo,
            FileCategory::Video => mask.video,
            FileCategory::Document => mask.document,
            FileCategory::Audio => mask.audio,
            FileCategory::Archive => mask.archive,
            FileCategory::Other => mask.other,
        }));
    }
}

} // verus!
