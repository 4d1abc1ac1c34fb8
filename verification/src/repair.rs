//! The decisions of a repair run: whether it may start, how the bytes of the
//! file are rebuilt, what the output is named, and, in a deep repair, which
//! of the rebuilt candidates is kept.

use vstd::prelude::*;
use crate::analysis::{EmbeddedCandidate, FileAnalysis, FileAnalysisV};
use crate::bytes::{append_all, copy_range};
use crate::containers::{repair_bmp, repair_riff, spec_repair_bmp, spec_repair_riff};
use crate::deep::{attempt_score, deep_output_name, deep_repair_one, spec_attempt_score, spec_deep_output_name, spec_deep_repair_one};
use crate::formats::{FileType, PayloadStatus, spec_can_repair, spec_type_name, spec_warn_text};
use crate::jpeg::{repair_jpeg, scan_jpeg, spec_repair_jpeg, spec_scan_jpeg};
use crate::reference::{JpegTemplate, JpegTemplateV, code_lengths_fit, repair_jpeg_with_ref, spec_repair_with_ref};
use crate::png::{repair_png, salvage_png, spec_repair_png, spec_salvage_png};
use crate::salvage::{footer_bytes, salvage_gif, spec_footer_bytes, spec_salvage_gif};
use crate::deep::{to_lowercase, unicode_lowercase};
use crate::text::{chars_of, contains_chars, find_from, push_str};

verus! {

/// Why a repair is refused before it reads anything: the warning of an
/// unrecoverable payload (`None` when the payload allows the repair).
pub open spec fn spec_refusal(p: PayloadStatus) -> Option<Seq<char>> {
    if p == PayloadStatus::Unknown || p == PayloadStatus::Sound {
        None
    } else {
        match spec_warn_text(p) {
            Some(t) => Some(t),
            None => Some("Image data payload cannot be recovered"@),
        }
    }
}

/// The message that refuses a repair of this payload, if any.
pub fn refusal(p: PayloadStatus) -> (r: Option<&'static str>)
    ensures
        match r {
            Some(s) => spec_refusal(p) == Some(s@),
            None => spec_refusal(p) is None,
        },
{
    if p.is_recoverable() {
        None
    } else {
        match p.warn_text() {
            Some(t) => Some(t),
            None => Some("Image data payload cannot be recovered"),
        }
    }
}

/// A repair is refused exactly when the payload cannot be recovered, and
/// then with the payload's warning.
pub proof fn lemma_refusal_iff_unrecoverable(p: PayloadStatus)
    ensures
        (spec_refusal(p) is None) <==> (p == PayloadStatus::Unknown || p == PayloadStatus::Sound),
        spec_refusal(p) is Some ==> spec_refusal(p) == spec_warn_text(p),
{
}

/// The bytes of a classic repair: each image format has its own rebuild; a
/// format with a fixed footer that the analysis found missing gets it
/// appended; anything else is kept as it is.
pub open spec fn spec_classic_repair(d: Seq<u8>, a: FileAnalysisV) -> Option<Seq<u8>> {
    let t = a.file_type;
    let off = a.embedded_offset;
    if t == FileType::JPEG {
        spec_repair_jpeg(d, off)
    } else if t == FileType::PNG || t == FileType::Unknown {
        spec_repair_png(d, off)
    } else if t == FileType::BMP {
        spec_repair_bmp(d, off)
    } else if t == FileType::RIFF {
        spec_repair_riff(d, off)
    } else if spec_can_repair(t) && !a.has_footer {
        match spec_footer_bytes(t) {
            Some(f) => Some(d + f),
            None => Some(d),
        }
    } else {
        Some(d)
    }
}

/// `data` with the footer of `t` appended, when it has one.
fn with_footer(data: &[u8], t: FileType) -> (r: Vec<u8>)
    ensures
        r@ == match spec_footer_bytes(t) {
            Some(f) => data@ + f,
            None => data@,
        },
{
    let mut out = copy_range(data, 0, data.len());
    assert(data@.subrange(0, data@.len() as int) =~= data@);
    match footer_bytes(t) {
        Some(f) => append_all(&mut out, f.as_slice()),
        None => {},
    }
    out
}

/// Rebuild the bytes of a file as its analysis says (see
/// `spec_classic_repair`).
pub fn classic_repair(data: &[u8], analysis: &FileAnalysis) -> (r: Option<Vec<u8>>)
    requires
        data@.len() < usize::MAX,
        (analysis.file_type == FileType::PNG || analysis.file_type == FileType::Unknown)
            ==> (analysis.embedded_offset matches Some(o) ==> o <= data@.len()),
    ensures
        match r {
            Some(v) => spec_classic_repair(data@, analysis@) == Some(v@),
            None => spec_classic_repair(data@, analysis@) is None,
        },
{
    let ft = analysis.file_type;
    let off = analysis.embedded_offset;
    if ft == FileType::JPEG {
        repair_jpeg(data, off)
    } else if ft == FileType::PNG || ft == FileType::Unknown {
        repair_png(data, off)
    } else if ft == FileType::BMP {
        repair_bmp(data, off)
    } else if ft == FileType::RIFF {
        repair_riff(data, off)
    } else if ft.can_repair() && !analysis.has_footer {
        Some(with_footer(data, ft))
    } else {
        let v = copy_range(data, 0, data.len());
        assert(data@.subrange(0, data@.len() as int) =~= data@);
        Some(v)
    }
}

/// The type whose extension a classic repair appends to the output name:
/// a PNG found inside unrecognized data, a JPEG or BMP that did not start
/// at the beginning, a RIFF container.
pub open spec fn classic_name_type(t: FileType, off: Option<usize>) -> Option<FileType> {
    if t == FileType::Unknown && off is Some {
        Some(FileType::PNG)
    } else if t == FileType::JPEG && (off matches Some(o) && o > 0) {
        Some(FileType::JPEG)
    } else if t == FileType::BMP && (off matches Some(o) && o > 0) {
        Some(FileType::BMP)
    } else if t == FileType::RIFF && off is Some {
        Some(FileType::RIFF)
    } else {
        None
    }
}

/// The output name of a classic repair: the input name, with the extension
/// of the repaired type appended (see `classic_name_type`) unless the name
/// already ends with it, ignoring case.
pub open spec fn spec_repair_output_name(filename: Seq<char>, t: FileType, off: Option<usize>, d: Seq<u8>) -> Seq<char> {
    match classic_name_type(t, off) {
        Some(k) => spec_deep_output_name(filename, k, (match off { Some(o) => o, None => 0 }) as int, d),
        None => filename,
    }
}

/// The output name of a classic repair (see `spec_repair_output_name`).
pub fn repair_output_name(filename: &str, ft: FileType, off: Option<usize>, data: &[u8]) -> (r: String)
    ensures
        r@ == spec_repair_output_name(filename@, ft, off, data@),
{
    let o: usize = match off {
        Some(o) => o,
        None => 0,
    };
    let kind: Option<FileType> = if ft == FileType::Unknown && off.is_some() {
        Some(FileType::PNG)
    } else if ft == FileType::JPEG && o > 0 && off.is_some() {
        Some(FileType::JPEG)
    } else if ft == FileType::BMP && o > 0 && off.is_some() {
        Some(FileType::BMP)
    } else if ft == FileType::RIFF && off.is_some() {
        Some(FileType::RIFF)
    } else {
        None
    };
    assert(kind == classic_name_type(ft, off));
    match kind {
        Some(k) => deep_output_name(filename, k, o, data),
        None => {
            let mut s = String::new();
            push_str(&mut s, filename);
            s
        },
    }
}

/// The directory repaired files go to when none is chosen.
pub fn output_dir_or_default(dir: &str) -> (r: String)
    ensures
        dir@.len() == 0 ==> r@ == "/tmp/repair_output"@,
        dir@.len() > 0 ==> r@ == dir@,
{
    let mut s = String::new();
    if dir.unicode_len() == 0 {
        push_str(&mut s, "/tmp/repair_output");
    } else {
        push_str(&mut s, dir);
    }
    s
}

/// One rebuilt candidate of a deep repair: where it starts, its type, what
/// it is called, and its bytes.
#[derive(Debug, Clone)]
pub struct RepairAttempt {
    pub offset: usize,
    pub file_type: FileType,
    pub label: &'static str,
    pub data: Vec<u8>,
}

/// Mathematical value of a `RepairAttempt`.
pub struct RepairAttemptV {
    pub offset: usize,
    pub file_type: FileType,
    pub label: Seq<char>,
    pub data: Seq<u8>,
}

impl View for RepairAttempt {
    type V = RepairAttemptV;

    open spec fn view(&self) -> RepairAttemptV {
        RepairAttemptV { offset: self.offset, file_type: self.file_type, label: self.label@, data: self.data@ }
    }
}

/// The attempt a deep repair makes for one candidate: the candidate rebuilt
/// with the repair for its type, when it lies inside the data and the
/// rebuild succeeds.
pub open spec fn spec_candidate_attempt(d: Seq<u8>, c: EmbeddedCandidate) -> Option<RepairAttemptV> {
    if c.offset >= d.len() {
        None
    } else {
        match spec_deep_repair_one(d, c.offset as int, c.file_type) {
            Some(out) => Some(RepairAttemptV { offset: c.offset, file_type: c.file_type, label: c.label@, data: out }),
            None => None,
        }
    }
}

/// Rebuild one candidate (see `spec_candidate_attempt`).
pub fn candidate_attempt(data: &[u8], c: &EmbeddedCandidate) -> (r: Option<RepairAttempt>)
    requires
        data@.len() < usize::MAX,
    ensures
        match r {
            Some(a) => spec_candidate_attempt(data@, *c) == Some(a@),
            None => spec_candidate_attempt(data@, *c) is None,
        },
{
    if c.offset >= data.len() {
        return None;
    }
    match deep_repair_one(data, c.offset, c.file_type) {
        Some(out) => Some(RepairAttempt { offset: c.offset, file_type: c.file_type, label: c.label, data: out }),
        None => None,
    }
}

/// The attempt rebuilt with a reference template from where `hint` says
/// the image starts, reported at `offset`.
pub open spec fn spec_reference_attempt(d: Seq<u8>, offset: usize, hint: Option<usize>, t: JpegTemplateV) -> Option<RepairAttemptV> {
    match spec_repair_with_ref(d, hint, t) {
        Some(out) => Some(RepairAttemptV { offset, file_type: FileType::JPEG, label: "JPEG (reference)"@, data: out }),
        None => None,
    }
}

/// Rebuild with a reference template (see `spec_reference_attempt`).
pub fn reference_attempt(data: &[u8], offset: usize, hint: Option<usize>, t: &JpegTemplate) -> (r: Option<RepairAttempt>)
    requires
        data@.len() < usize::MAX,
        code_lengths_fit(t@),
    ensures
        match r {
            Some(a) => spec_reference_attempt(data@, offset, hint, t@) == Some(a@),
            None => spec_reference_attempt(data@, offset, hint, t@) is None,
        },
{
    match repair_jpeg_with_ref(data, hint, t) {
        Some(out) => Some(RepairAttempt { offset, file_type: FileType::JPEG, label: "JPEG (reference)", data: out }),
        None => None,
    }
}

/// The bytes of the fallback attempt, made when no candidate could be
/// rebuilt: the repair for the primary type (a PNG is salvaged, a GIF is
/// salvaged from its start), the footer for a format that misses it (unless
/// nothing is left), else the data as it is.
pub open spec fn spec_fallback_bytes(d: Seq<u8>, p: FileAnalysisV) -> Option<Seq<u8>> {
    let t = p.file_type;
    let off = p.embedded_offset;
    if t == FileType::JPEG {
        spec_repair_jpeg(d, off)
    } else if t == FileType::PNG || t == FileType::Unknown {
        spec_salvage_png(d, off)
    } else if t == FileType::GIF {
        spec_salvage_gif(d, 0)
    } else if t == FileType::BMP {
        spec_repair_bmp(d, off)
    } else if t == FileType::RIFF {
        spec_repair_riff(d, off)
    } else if spec_can_repair(t) && !p.has_footer {
        let out = match spec_footer_bytes(t) {
            Some(f) => d + f,
            None => d,
        };
        if out.len() > 0 { Some(out) } else { None }
    } else {
        Some(d)
    }
}

/// The fallback attempt of a deep repair: it starts at 0 and is named
/// after the primary type.
pub open spec fn spec_fallback_attempt(d: Seq<u8>, p: FileAnalysisV) -> Option<RepairAttemptV> {
    match spec_fallback_bytes(d, p) {
        Some(out) => Some(RepairAttemptV { offset: 0, file_type: p.file_type, label: spec_type_name(p.file_type), data: out }),
        None => None,
    }
}

/// The fallback attempt (see `spec_fallback_attempt`).
pub fn fallback_attempt(data: &[u8], primary: &FileAnalysis) -> (r: Option<RepairAttempt>)
    requires
        data@.len() < usize::MAX,
        (primary.file_type == FileType::PNG || primary.file_type == FileType::Unknown)
            ==> (primary.embedded_offset matches Some(o) ==> o <= data@.len()),
    ensures
        match r {
            Some(a) => spec_fallback_attempt(data@, primary@) == Some(a@),
            None => spec_fallback_attempt(data@, primary@) is None,
        },
{
    let ft = primary.file_type;
    let off = primary.embedded_offset;
    let out: Option<Vec<u8>> = if ft == FileType::JPEG {
        repair_jpeg(data, off)
    } else if ft == FileType::PNG || ft == FileType::Unknown {
        salvage_png(data, off)
    } else if ft == FileType::GIF {
        salvage_gif(data, 0)
    } else if ft == FileType::BMP {
        repair_bmp(data, off)
    } else if ft == FileType::RIFF {
        repair_riff(data, off)
    } else if ft.can_repair() && !primary.has_footer {
        let v = with_footer(data, ft);
        if v.len() > 0 {
            Some(v)
        } else {
            None
        }
    } else {
        let v = copy_range(data, 0, data.len());
        assert(data@.subrange(0, data@.len() as int) =~= data@);
        Some(v)
    };
    match out {
        Some(v) => Some(RepairAttempt { offset: 0, file_type: ft, label: ft.name(), data: v }),
        None => None,
    }
}

/// Why a deep repair ends without output.
#[derive(Debug, Clone, Copy, PartialEq, Eq, Structural)]
pub enum DeepRepairError {
    /// The file is a JPEG and no attempt kept a scan.
    UnviewableJpeg,
    /// Nothing could be rebuilt.
    NothingRebuilt,
}

impl DeepRepairError {
    /// The message shown for the error.
    pub fn message(&self) -> (r: &'static str)
        ensures
            r@ == match *self {
                DeepRepairError::UnviewableJpeg => "Could not reconstruct a viewable JPEG: its scan headers (SOF/DHT/DQT/SOS) are destroyed. Choose any JPEG photo taken with the same camera model as the reference and retry."@,
                DeepRepairError::NothingRebuilt => "Could not reconstruct file"@,
            },
    {
        match self {
            DeepRepairError::UnviewableJpeg => "Could not reconstruct a viewable JPEG: its scan headers (SOF/DHT/DQT/SOS) are destroyed. Choose any JPEG photo taken with the same camera model as the reference and retry.",
            DeepRepairError::NothingRebuilt => "Could not reconstruct file",
        }
    }
}

/// Lexicographic order of attempt scores.
pub open spec fn score_lt(a: (u8, u8, u64, usize), b: (u8, u8, u64, usize)) -> bool {
    a.0 < b.0 || (a.0 == b.0 && (a.1 < b.1 || (a.1 == b.1 && (a.2 < b.2 || (a.2 == b.2 && a.3 < b.3)))))
}

fn score_less(a: (u8, u8, u64, usize), b: (u8, u8, u64, usize)) -> (r: bool)
    ensures
        r == score_lt(a, b),
{
    a.0 < b.0 || (a.0 == b.0 && (a.1 < b.1 || (a.1 == b.1 && (a.2 < b.2 || (a.2 == b.2 && a.3 < b.3)))))
}

/// The score of an attempt.
pub open spec fn score_of(a: RepairAttemptV, primary: Option<usize>) -> (u8, u8, u64, usize) {
    spec_attempt_score(a.offset, a.file_type, a.data, primary)
}

/// Whether some JPEG attempt kept a scan.
pub open spec fn jpeg_scan_kept(atts: Seq<RepairAttemptV>) -> bool {
    exists|i: int| 0 <= i < atts.len() && atts[i].file_type == FileType::JPEG && spec_scan_jpeg(atts[i].data, 0).has_sos
}

/// The attempts' values.
pub open spec fn attempts_v(atts: Seq<RepairAttempt>) -> Seq<RepairAttemptV> {
    atts.map_values(|a: RepairAttempt| a@)
}

/// An attempt that was made, as a list of at most one.
pub open spec fn opt_attempt(a: Option<RepairAttemptV>) -> Seq<RepairAttemptV> {
    match a {
        Some(x) => seq![x],
        None => Seq::empty(),
    }
}

/// The reference-guided attempt, when a template is at hand.
pub open spec fn opt_reference(d: Seq<u8>, offset: usize, hint: Option<usize>, t: Option<JpegTemplateV>) -> Seq<RepairAttemptV> {
    match t {
        Some(tv) => opt_attempt(spec_reference_attempt(d, offset, hint, tv)),
        None => Seq::empty(),
    }
}

/// The attempts a deep repair makes for one embedded candidate, in order:
/// nothing for a candidate past the end of the data; else its own rebuild,
/// then for a JPEG the reference-guided rebuild and the attempts `extra` of
/// the jpegrepair operations.
pub open spec fn spec_candidate_attempts(
    d: Seq<u8>,
    c: EmbeddedCandidate,
    t: Option<JpegTemplateV>,
    extra: Seq<RepairAttemptV>,
) -> Seq<RepairAttemptV> {
    if c.offset >= d.len() {
        Seq::empty()
    } else if c.file_type == FileType::JPEG {
        opt_attempt(spec_candidate_attempt(d, c)) + opt_reference(d, c.offset, Some(c.offset), t) + extra
    } else {
        opt_attempt(spec_candidate_attempt(d, c))
    }
}

/// Append the attempts a deep repair makes for candidate `c` (see
/// `spec_candidate_attempts`); `extra` holds the jpegrepair attempts of a
/// JPEG candidate.
pub fn push_candidate_attempts(
    data: &[u8],
    c: &EmbeddedCandidate,
    t: Option<&JpegTemplate>,
    extra: Vec<RepairAttempt>,
    out: &mut Vec<RepairAttempt>,
)
    requires
        data@.len() < usize::MAX,
        t matches Some(tv) ==> code_lengths_fit(tv@),
    ensures
        attempts_v(final(out)@) == attempts_v(old(out)@) + spec_candidate_attempts(
            data@,
            *c,
            match t {
                Some(tv) => Some(tv@),
                None => None,
            },
            attempts_v(extra@),
        ),
{
    let ghost tv: Option<JpegTemplateV> = match t {
        Some(x) => Some(x@),
        None => None,
    };
    let ghost o = attempts_v(out@);
    let ghost ex = extra@;
    if c.offset >= data.len() {
        assert(attempts_v(out@) =~= o + Seq::<RepairAttemptV>::empty());
        return;
    }
    let ghost own = opt_attempt(spec_candidate_attempt(data@, *c));
    match candidate_attempt(data, c) {
        Some(a) => out.push(a),
        None => {},
    }
    assert(attempts_v(out@) =~= o + own);
    if c.file_type == FileType::JPEG {
        let ghost rf = opt_reference(data@, c.offset, Some(c.offset), tv);
        match t {
            Some(tpl) => match reference_attempt(data, c.offset, Some(c.offset), tpl) {
                Some(a) => out.push(a),
                None => {},
            },
            None => {},
        }
        assert(attempts_v(out@) =~= o + own + rf);
        let ghost before = out@;
        let mut extra = extra;
        out.append(&mut extra);
        assert(attempts_v(out@) =~= attempts_v(before) + attempts_v(ex)) by {
            assert(out@ =~= before + ex);
        }
        assert(attempts_v(out@) =~= o + (own + rf + attempts_v(ex)));
    } else {
        assert(attempts_v(out@) =~= o + own);
    }
}

/// The attempts of a deep repair's fall back, made only when no candidate
/// yielded an attempt: the classic repair of the primary type, then for a
/// JPEG the reference-guided rebuild from the start of the data and the
/// attempts `extra` of the jpegrepair operations.
pub open spec fn spec_fallback_attempts(
    d: Seq<u8>,
    p: FileAnalysisV,
    t: Option<JpegTemplateV>,
    extra: Seq<RepairAttemptV>,
) -> Seq<RepairAttemptV> {
    if p.file_type == FileType::JPEG {
        opt_attempt(spec_fallback_attempt(d, p)) + opt_reference(d, 0, p.embedded_offset, t) + extra
    } else {
        opt_attempt(spec_fallback_attempt(d, p))
    }
}

/// Fall back to the classic repair when `out` holds no attempt (see
/// `spec_fallback_attempts`); with attempts in `out`, nothing changes.
pub fn push_fallback_attempts(
    data: &[u8],
    primary: &FileAnalysis,
    t: Option<&JpegTemplate>,
    extra: Vec<RepairAttempt>,
    out: &mut Vec<RepairAttempt>,
)
    requires
        data@.len() < usize::MAX,
        t matches Some(tv) ==> code_lengths_fit(tv@),
        (primary.file_type == FileType::PNG || primary.file_type == FileType::Unknown)
            ==> (primary.embedded_offset matches Some(o) ==> o <= data@.len()),
    ensures
        old(out)@.len() > 0 ==> final(out)@ == old(out)@,
        old(out)@.len() == 0 ==> attempts_v(final(out)@) == spec_fallback_attempts(
            data@,
            primary@,
            match t {
                Some(tv) => Some(tv@),
                None => None,
            },
            attempts_v(extra@),
        ),
{
    if out.len() > 0 {
        return;
    }
    let ghost tv: Option<JpegTemplateV> = match t {
        Some(x) => Some(x@),
        None => None,
    };
    let ghost own = opt_attempt(spec_fallback_attempt(data@, primary@));
    let ghost ex = extra@;
    match fallback_attempt(data, primary) {
        Some(a) => out.push(a),
        None => {},
    }
    assert(attempts_v(out@) =~= own);
    if primary.file_type == FileType::JPEG {
        let ghost rf = opt_reference(data@, 0, primary@.embedded_offset, tv);
        match t {
            Some(tpl) => match reference_attempt(data, 0, primary.embedded_offset, tpl) {
                Some(a) => out.push(a),
                None => {},
            },
            None => {},
        }
        assert(attempts_v(out@) =~= own + rf);
        let ghost before = out@;
        let mut extra = extra;
        out.append(&mut extra);
        assert(out@ =~= before + ex);
        assert(attempts_v(out@) =~= own + rf + attempts_v(ex));
    }
}

/// Whether `i` is the attempt a deep repair keeps: one of highest score,
/// the last such in the list.
pub open spec fn is_best(atts: Seq<RepairAttemptV>, primary: Option<usize>, i: int) -> bool {
    &&& 0 <= i < atts.len()
    &&& forall|j: int| 0 <= j < atts.len() ==> !score_lt(score_of(atts[i], primary), #[trigger] score_of(atts[j], primary))
    &&& forall|j: int| i < j < atts.len() ==> score_lt(#[trigger] score_of(atts[j], primary), score_of(atts[i], primary))
}

proof fn lemma_score_order(a: (u8, u8, u64, usize), b: (u8, u8, u64, usize), c: (u8, u8, u64, usize))
    ensures
        score_lt(a, b) && score_lt(b, c) ==> score_lt(a, c),
        !score_lt(a, b) && !score_lt(b, a) ==> a == b,
        score_lt(a, b) ==> !score_lt(b, a),
        !score_lt(a, b) ==> score_lt(b, a) || a == b,
{
}

/// Choose the attempt a deep repair keeps. It fails when there is none, or
/// when the file is a JPEG and no JPEG attempt kept a scan.
pub fn select_attempt(attempts: &Vec<RepairAttempt>, primary: &FileAnalysis) -> (r: Result<usize, DeepRepairError>)
    requires
        forall|i: int| 0 <= i < attempts@.len() ==> (#[trigger] attempts@[i]).data@.len() < usize::MAX,
    ensures
        ({
            let atts = attempts_v(attempts@);
            let is_jpeg = primary.file_type == FileType::JPEG;
            if atts.len() == 0 || (is_jpeg && !jpeg_scan_kept(atts)) {
                r == Err::<usize, DeepRepairError>(
                    if is_jpeg { DeepRepairError::UnviewableJpeg } else { DeepRepairError::NothingRebuilt },
                )
            } else {
                r matches Ok(i) && is_best(atts, primary.embedded_offset, i as int)
            }
        }),
{
    let ghost atts = attempts_v(attempts@);
    let is_jpeg = primary.file_type == FileType::JPEG;
    let n = attempts.len();
    let mut sos_ok = false;
    let mut k: usize = 0;
    while k < n
        invariant
            n == attempts@.len(),
            atts == attempts_v(attempts@),
            k <= n,
            forall|i: int| 0 <= i < attempts@.len() ==> (#[trigger] attempts@[i]).data@.len() < usize::MAX,
            sos_ok == exists|i: int|
                0 <= i < k && atts[i].file_type == FileType::JPEG && spec_scan_jpeg(atts[i].data, 0).has_sos,
        decreases n - k,
    {
        assert(atts[k as int] == attempts@[k as int]@);
        if attempts[k].file_type == FileType::JPEG && !sos_ok {
            let info = scan_jpeg(attempts[k].data.as_slice(), 0);
            if info.has_sos {
                sos_ok = true;
            }
        }
        k += 1;
    }
    if n == 0 || (is_jpeg && !sos_ok) {
        return Err(if is_jpeg { DeepRepairError::UnviewableJpeg } else { DeepRepairError::NothingRebuilt });
    }
    let primary_off = primary.embedded_offset;
    let mut best: usize = 0;
    assert(atts[0] == attempts@[0]@);
    let mut best_score = attempt_score(attempts[0].offset, attempts[0].file_type, attempts[0].data.as_slice(), primary_off);
    let mut i: usize = 1;
    while i < n
        invariant
            n == attempts@.len(),
            atts == attempts_v(attempts@),
            1 <= i <= n,
            best < i,
            forall|q: int| 0 <= q < attempts@.len() ==> (#[trigger] attempts@[q]).data@.len() < usize::MAX,
            best_score == score_of(atts[best as int], primary_off),
            forall|j: int| 0 <= j < i ==> !score_lt(best_score, #[trigger] score_of(atts[j], primary_off)),
            forall|j: int| best < j < i ==> score_lt(#[trigger] score_of(atts[j], primary_off), best_score),
        decreases n - i,
    {
        assert(atts[i as int] == attempts@[i as int]@);
        let s = attempt_score(attempts[i].offset, attempts[i].file_type, attempts[i].data.as_slice(), primary_off);
        if !score_less(s, best_score) {
            proof {
                assert forall|j: int| 0 <= j < i + 1 implies !score_lt(s, #[trigger] score_of(atts[j], primary_off)) by {
                    lemma_score_order(s, best_score, score_of(atts[j], primary_off));
                    lemma_score_order(score_of(atts[j], primary_off), best_score, s);
                    lemma_score_order(best_score, s, score_of(atts[j], primary_off));
                }
            }
            best = i;
            best_score = s;
        }
        i += 1;
    }
    Ok(best)
}

/// Length in bytes of the UTF-8 encoding of `s`.
pub open spec fn byte_len(s: Seq<char>) -> nat {
    (vstd::utf8::encode_utf8(s).len() as usize) as nat
}

/// Whether a file name marks a complete reference photo: its lowercase
/// holds `original`.
pub open spec fn names_original(name: Seq<char>) -> bool {
    find_from(unicode_lowercase(name), "original"@, 0) is Some
}

/// Among the first `k` names, the first of the shortest (in bytes) that
/// mark a reference photo.
pub open spec fn spec_pick_original(names: Seq<Seq<char>>, k: nat) -> Option<int>
    decreases k,
{
    if k == 0 {
        None
    } else {
        let prev = spec_pick_original(names, (k - 1) as nat);
        if names_original(names[k - 1]) {
            match prev {
                Some(i) => if byte_len(names[k - 1]) < byte_len(names[i]) {
                    Some(k - 1)
                } else {
                    Some(i)
                },
                None => Some(k - 1),
            }
        } else {
            prev
        }
    }
}

proof fn lemma_pick_original_bound(names: Seq<Seq<char>>, k: nat)
    ensures
        spec_pick_original(names, k) matches Some(i) ==> 0 <= i < k,
    decreases k,
{
    if k > 0 {
        lemma_pick_original_bound(names, (k - 1) as nat);
    }
}

/// Which of the files beside a damaged photo (given by name, in directory
/// order) to offer as its reference: the first of the shortest names whose
/// lowercase holds `original` (such as `IMG_original.JPG`).
pub fn pick_original_sibling(names: &Vec<String>) -> (r: Option<usize>)
    ensures
        match spec_pick_original(names@.map_values(|s: String| s@), names@.len()) {
            Some(i) => r == Some(i as usize),
            None => r is None,
        },
{
    let ghost nv = names@.map_values(|s: String| s@);
    let key: Vec<char> = vec!['o', 'r', 'i', 'g', 'i', 'n', 'a', 'l'];
    proof {
        reveal_strlit("original");
        assert(key@ =~= "original"@);
    }
    let mut best: Option<usize> = None;
    let mut best_len: usize = 0;
    let mut k: usize = 0;
    while k < names.len()
        invariant
            k <= names@.len(),
            nv == names@.map_values(|s: String| s@),
            key@ == "original"@,
            match spec_pick_original(nv, k as nat) {
                Some(i) => best == Some(i as usize) && best_len == byte_len(nv[i]),
                None => best is None,
            },
        decreases names@.len() - k,
    {
        proof {
            lemma_pick_original_bound(nv, k as nat);
        }
        let lower = to_lowercase(names[k].as_str());
        let lc = chars_of(lower.as_str());
        assert(nv[k as int] == names@[k as int]@);
        if contains_chars(&lc, &key) {
            let l = names[k].as_str().len();
            match best {
                Some(_) => {
                    if l < best_len {
                        best = Some(k);
                        best_len = l;
                    }
                },
                None => {
                    best = Some(k);
                    best_len = l;
                },
            }
        }
        k += 1;
    }
    best
}

} // verus!
