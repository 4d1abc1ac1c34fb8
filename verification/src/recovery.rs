//! The NTFS recovery pass: walk every MFT record of an opened volume, decide
//! which files to recover and under which path, read (or rebuild) their
//! contents and hand them to a sink that stores them.

use vstd::prelude::*;
use vstd::string::StringSliceAdditionalSpecFns;
use crate::ntfs::{
    data_real_size, entries_view, in_ranges, merge_ranges, path_within, path_within_cut_ok,
    ranges_fit, ranges_separated, read_data, rebuilt_from_copy, resolve_dir_path, run_touched,
    runs_are_stale, sanitize_component, spec_data_bytes, spec_data_fits, spec_intact_head, spec_known_magic,
    spec_rebuild_fits, spec_rebuild_kind, DataAttrV,
    illegal_path_char, spec_path_within, spec_resolve, spec_sanitize, stale_rebuild, ByteRange, DataAttr, MftEntry,
    MftEntryV, Rebuild, Reader, Tile, MAX_PATH_DEPTH, SPARSE,
};
use crate::text::{chars_of, push_char, push_str, skip_lead_ws, skip_trail_ws, trim_bounds};
use crate::volume::{entry_v, NtfsVolume};

verus! {

/// `s` without its leading `/`.
pub open spec fn skip_lead_slash(s: Seq<char>) -> Seq<char>
    decreases s.len(),
{
    if s.len() > 0 && s[0] == '/' {
        skip_lead_slash(s.drop_first())
    } else {
        s
    }
}

/// Backslashes turned into forward slashes.
pub open spec fn forward_slashes(s: Seq<char>) -> Seq<char> {
    Seq::new(s.len(), |i: int| if s[i] == '\\' { '/' } else { s[i] })
}

/// A Windows-style directory filter (`\Documents\Data`) as the plain
/// forward-slash path the recovery pass compares with: white space trimmed,
/// backslashes turned into slashes, leading slashes dropped.
pub open spec fn spec_normalize_filter(s: Seq<char>) -> Seq<char> {
    skip_lead_slash(forward_slashes(skip_trail_ws(skip_lead_ws(s))))
}

/// Normalize a directory filter (see `spec_normalize_filter`).
pub fn normalize_filter(f: &str) -> (r: String)
    ensures
        r@ == spec_normalize_filter(f@),
{
    let cs = chars_of(f);
    let n = cs.len();
    let (lo, hi) = trim_bounds(&cs);
    let ghost trimmed = cs@.subrange(lo as int, hi as int);
    assert(skip_trail_ws(skip_lead_ws(cs@)) == trimmed);
    let mut m: usize = lo;
    while m < hi && (cs[m] == '/' || cs[m] == '\\')
        invariant
            n == cs@.len(),
            lo <= m <= hi <= n,
            trimmed == cs@.subrange(lo as int, hi as int),
            skip_lead_slash(forward_slashes(trimmed)) == skip_lead_slash(
                forward_slashes(cs@.subrange(m as int, hi as int)),
            ),
        decreases hi - m,
    {
        assert(forward_slashes(cs@.subrange(m as int, hi as int)).drop_first() =~= forward_slashes(
            cs@.subrange(m + 1, hi as int),
        ));
        m += 1;
    }
    let mut out = String::new();
    let mut k: usize = m;
    while k < hi
        invariant
            n == cs@.len(),
            m <= k <= hi <= n,
            out@ == forward_slashes(cs@.subrange(m as int, k as int)),
        decreases hi - k,
    {
        let c = cs[k];
        push_char(&mut out, if c == '\\' { '/' } else { c });
        assert(out@ =~= forward_slashes(cs@.subrange(m as int, k + 1)));
        k += 1;
    }
    assert(skip_lead_slash(forward_slashes(cs@.subrange(m as int, hi as int))) == forward_slashes(
        cs@.subrange(m as int, hi as int),
    ));
    out
}

/// The relative path a record is recovered under, when it is recovered at
/// all: directories, system files (`$...`), records without a name, without
/// `$DATA` or with an empty payload are skipped; a file whose directory chain
/// cannot be resolved goes under `$DELETED/` (and is skipped when a filter
/// is in force, since its place in the tree is unknown).
pub open spec fn spec_recover_path(entries: Seq<Option<MftEntryV>>, e: MftEntryV, filtered: bool) -> Option<Seq<char>> {
    if e.is_dir || e.name.len() == 0 || e.name[0] == '$' {
        None
    } else {
        match e.data {
            None => None,
            Some(d) => if data_real_size(d) == 0 {
                None
            } else {
                match spec_resolve(entries, e.parent, Seq::empty(), Seq::empty(), MAX_PATH_DEPTH as nat) {
                    Some(dir) => Some(if dir.len() == 0 { e.name } else { dir.push('/') + e.name }),
                    None => if filtered {
                        None
                    } else {
                        Some(seq!['$', 'D', 'E', 'L', 'E', 'T', 'E', 'D', '/'] + e.name)
                    },
                }
            },
        }
    }
}

/// The relative path record `entry` is recovered under (see
/// `spec_recover_path`), `None` when it is skipped.
pub fn recover_path(entries: &[Option<MftEntry>], entry: &MftEntry, filtered: bool) -> (r: Option<String>)
    ensures
        match r {
            Some(p) => spec_recover_path(entries_view(entries@), entry@, filtered) == Some(p@),
            None => spec_recover_path(entries_view(entries@), entry@, filtered) is None,
        },
{
    let name = chars_of(entry.name.as_str());
    if entry.is_dir || name.len() == 0 || name[0] == '$' {
        return None;
    }
    let data = match &entry.data {
        Some(d) => d,
        None => return None,
    };
    if data.real_size() == 0 {
        return None;
    }
    match resolve_dir_path(entries, entry.parent) {
        Some(dir) => {
            if chars_of(dir.as_str()).len() == 0 {
                let mut p = String::new();
                push_str(&mut p, entry.name.as_str());
                Some(p)
            } else {
                let mut p = String::new();
                push_str(&mut p, dir.as_str());
                push_char(&mut p, '/');
                push_str(&mut p, entry.name.as_str());
                Some(p)
            }
        },
        None => {
            if filtered {
                return None;
            }
            let mut p = String::new();
            push_char(&mut p, '$');
            push_char(&mut p, 'D');
            push_char(&mut p, 'E');
            push_char(&mut p, 'L');
            push_char(&mut p, 'E');
            push_char(&mut p, 'T');
            push_char(&mut p, 'E');
            push_char(&mut p, 'D');
            push_char(&mut p, '/');
            push_str(&mut p, entry.name.as_str());
            assert(p@ =~= seq!['$', 'D', 'E', 'L', 'E', 'T', 'E', 'D', '/'] + entry.name@);
            Some(p)
        },
    }
}

/// A path component that names an entry below its directory: not empty,
/// and neither `.` nor `..`.
pub open spec fn kept_component(c: Seq<char>) -> bool {
    c.len() > 0 && c != seq!['.'] && c != seq!['.', '.']
}

/// A component of an output location that stays below the output root: kept
/// and free of characters that cannot appear in a component (no separator).
pub open spec fn safe_component(c: Seq<char>) -> bool {
    kept_component(c) && forall|i: int| 0 <= i < c.len() ==> !illegal_path_char(#[trigger] c[i])
}

/// The kept `/`-separated components of `s` (from `cur`, the component
/// being read, and `acc`, those already complete).
pub open spec fn split_components(s: Seq<char>, cur: Seq<char>, acc: Seq<Seq<char>>) -> Seq<Seq<char>>
    decreases s.len(),
{
    if s.len() == 0 {
        if kept_component(cur) {
            acc.push(cur)
        } else {
            acc
        }
    } else if s[0] == '/' {
        split_components(s.drop_first(), Seq::empty(), if kept_component(cur) { acc.push(cur) } else { acc })
    } else {
        split_components(s.drop_first(), cur.push(s[0]), acc)
    }
}

/// The output location of a recovered file: the output root, then each
/// component of its relative path that names an entry (empty, `.` and `..`
/// components are dropped, so the file stays below the root) with illegal
/// characters replaced.
pub open spec fn spec_output_path(out_root: Seq<char>, full: Seq<char>) -> Seq<Seq<char>> {
    seq![out_root] + split_components(full, Seq::empty(), Seq::empty()).map_values(|c: Seq<char>| spec_sanitize(c))
}

fn string_of(cs: &Vec<char>) -> (r: String)
    ensures
        r@ == cs@,
{
    let mut s = String::new();
    let mut i: usize = 0;
    while i < cs.len()
        invariant
            i <= cs@.len(),
            s@ == cs@.subrange(0, i as int),
        decreases cs@.len() - i,
    {
        push_char(&mut s, cs[i]);
        assert(s@ =~= cs@.subrange(0, i + 1));
        i += 1;
    }
    assert(cs@.subrange(0, cs@.len() as int) =~= cs@);
    s
}

/// Whether `cur` is `.` or `..`.
fn is_dot_name(cur: &Vec<char>) -> (r: bool)
    ensures
        r == (cur@ == seq!['.'] || cur@ == seq!['.', '.']),
{
    if cur.len() == 1 && cur[0] == '.' {
        assert(cur@ =~= seq!['.']);
        true
    } else if cur.len() == 2 && cur[0] == '.' && cur[1] == '.' {
        assert(cur@ =~= seq!['.', '.']);
        true
    } else {
        proof {
            if cur@ == seq!['.'] {
                assert(cur@[0] == '.');
            }
            if cur@ == seq!['.', '.'] {
                assert(cur@[0] == '.' && cur@[1] == '.');
            }
        }
        false
    }
}

/// A kept component stays safe once sanitized.
proof fn lemma_sanitized_safe(c: Seq<char>)
    requires
        kept_component(c),
    ensures
        safe_component(spec_sanitize(c)),
{
    crate::ntfs::lemma_sanitize_clean(c);
    let t = spec_sanitize(c);
    if t == seq!['.'] {
        assert(t[0] == '.');
        assert(!illegal_path_char(c[0]));
        assert(c =~= seq!['.']);
    }
    if t == seq!['.', '.'] {
        assert(t[0] == '.' && t[1] == '.');
        assert(!illegal_path_char(c[0]) && !illegal_path_char(c[1]));
        assert(c =~= seq!['.', '.']);
    }
}

proof fn lemma_split_kept(s: Seq<char>, cur: Seq<char>, acc: Seq<Seq<char>>)
    requires
        forall|k: int| 0 <= k < acc.len() ==> kept_component(#[trigger] acc[k]),
    ensures
        forall|k: int| 0 <= k < split_components(s, cur, acc).len() ==> kept_component(
            #[trigger] split_components(s, cur, acc)[k],
        ),
    decreases s.len(),
{
    if s.len() == 0 {
        let r = split_components(s, cur, acc);
        assert forall|k: int| 0 <= k < r.len() implies kept_component(#[trigger] r[k]) by {
            if k < acc.len() {
                assert(r[k] == acc[k]);
            }
        }
    } else if s[0] == '/' {
        let acc2 = if kept_component(cur) { acc.push(cur) } else { acc };
        assert forall|k: int| 0 <= k < acc2.len() implies kept_component(#[trigger] acc2[k]) by {
            if k < acc.len() {
                assert(acc2[k] == acc[k]);
            }
        }
        lemma_split_kept(s.drop_first(), Seq::empty(), acc2);
        assert(split_components(s, cur, acc) == split_components(s.drop_first(), Seq::empty(), acc2));
    } else {
        lemma_split_kept(s.drop_first(), cur.push(s[0]), acc);
        assert(split_components(s, cur, acc) == split_components(s.drop_first(), cur.push(s[0]), acc));
    }
}

/// Recovered files stay below the output root: their output location is the
/// root followed by components that are neither empty, `.` nor `..`, and
/// hold no separator.
pub proof fn lemma_output_below_root(out_root: Seq<char>, full: Seq<char>)
    ensures
        spec_output_path(out_root, full)[0] == out_root,
        forall|k: int| 1 <= k < spec_output_path(out_root, full).len() ==> safe_component(
            #[trigger] spec_output_path(out_root, full)[k],
        ),
{
    let comps = split_components(full, Seq::empty(), Seq::empty());
    lemma_split_kept(full, Seq::empty(), Seq::empty());
    assert forall|k: int| 1 <= k < spec_output_path(out_root, full).len() implies safe_component(
        #[trigger] spec_output_path(out_root, full)[k],
    ) by {
        assert(spec_output_path(out_root, full)[k] == spec_sanitize(comps[k - 1]));
        lemma_sanitized_safe(comps[k - 1]);
    }
}

/// The output location of a recovered file (see `spec_output_path`): the
/// root, then components that each stay below it.
pub fn output_path(out_root: &str, full: &str) -> (r: Vec<String>)
    ensures
        r@.len() >= 1,
        forall|k: int| 0 <= k < r@.len() ==> #[trigger] r@[k]@ == spec_output_path(out_root@, full@)[k],
        r@.len() == spec_output_path(out_root@, full@).len(),
        forall|k: int| 1 <= k < r@.len() ==> safe_component(#[trigger] r@[k]@),
{
    let cs = chars_of(full);
    let ghost comps = split_components(full@, Seq::empty(), Seq::empty());
    let mut out: Vec<String> = Vec::new();
    let mut root = String::new();
    push_str(&mut root, out_root);
    out.push(root);
    let mut cur: Vec<char> = Vec::new();
    let ghost mut acc: Seq<Seq<char>> = Seq::empty();
    let mut i: usize = 0;
    assert(cs@.subrange(0, cs@.len() as int) =~= cs@);
    while i < cs.len()
        invariant
            cs@ == full@,
            i <= cs@.len(),
            comps == split_components(cs@.subrange(i as int, cs@.len() as int), cur@, acc),
            out@.len() == acc.len() + 1,
            out@[0]@ == out_root@,
            forall|k: int| 0 <= k < acc.len() ==> #[trigger] out@[k + 1]@ == spec_sanitize(acc[k]),
            forall|k: int| 0 <= k < acc.len() ==> kept_component(#[trigger] acc[k]),
        decreases cs@.len() - i,
    {
        assert(cs@.subrange(i as int, cs@.len() as int).drop_first() =~= cs@.subrange(i + 1, cs@.len() as int));
        let c = cs[i];
        if c == '/' {
            if cur.len() > 0 && !is_dot_name(&cur) {
                let t = string_of(&cur);
                let sc = sanitize_component(t.as_str());
                out.push(sc);
                proof {
                    acc = acc.push(cur@);
                }
            }
            cur = Vec::new();
        } else {
            cur.push(c);
        }
        i += 1;
    }
    if cur.len() > 0 && !is_dot_name(&cur) {
        let t = string_of(&cur);
        let sc = sanitize_component(t.as_str());
        out.push(sc);
        proof {
            acc = acc.push(cur@);
        }
    }
    assert(comps == acc);
    assert forall|k: int| 0 <= k < out@.len() implies #[trigger] out@[k]@ == spec_output_path(
        out_root@,
        full@,
    )[k] by {
        if k > 0 {
            assert(out@[(k - 1) + 1]@ == spec_sanitize(acc[k - 1]));
        }
    }
    assert forall|k: int| 1 <= k < out@.len() implies safe_component(#[trigger] out@[k]@) by {
        assert(out@[(k - 1) + 1]@ == spec_sanitize(acc[k - 1]));
        assert(kept_component(acc[k - 1]));
        lemma_sanitized_safe(acc[k - 1]);
    }
    out
}

/// Whether the filter `f` accepts the relative path `full`: `full` is `f` or
/// lies under it (ASCII case ignored). A path that `f`'s length would cut
/// inside a character is not accepted.
pub open spec fn filter_accepts(f: &str, full: &str) -> bool {
    path_within_cut_ok(f, full) && spec_path_within(f.spec_bytes(), full.spec_bytes())
}

fn filter_accepts_exec(f: &str, full: &str) -> (r: bool)
    ensures
        r == filter_accepts(f, full),
{
    let fb = f.as_bytes();
    let cb = full.as_bytes();
    if cb.len() >= fb.len() && !full.is_char_boundary(fb.len()) {
        return false;
    }
    path_within(f, full)
}

/// A file as a sink stored it: its relative path, its output location and
/// its bytes.
pub type Stored = (Seq<char>, Seq<Seq<char>>, Seq<u8>);

/// The components of an output location as character sequences.
pub open spec fn path_view(p: Seq<String>) -> Seq<Seq<char>> {
    p.map_values(|c: String| c@)
}

/// What the recovery pass needs from its caller: a stop request, progress
/// reports, and storage for the recovered files. The sink is modelled by the
/// files it stored, its last progress report, and whether a stop request
/// stands.
pub trait RecoverSink {
    /// The files stored so far, in order.
    open spec fn stored(&self) -> Seq<Stored> {
        crate::ntfs::unspecified(self, 8)
    }

    /// The last progress report: a count and a path.
    open spec fn last_report(&self) -> Option<(u64, Seq<char>)> {
        crate::ntfs::unspecified(self, 9)
    }

    /// Whether a stop request stands: every later `stopped` answers `true`.
    open spec fn stop_held(&self) -> bool {
        crate::ntfs::unspecified(self, 10)
    }

    /// Whether the caller never asks to stop: every later `stopped` answers
    /// `false`.
    open spec fn stop_never(&self) -> bool {
        crate::ntfs::unspecified(self, 11)
    }

    /// Whether every later store succeeds.
    open spec fn stores_ok(&self) -> bool {
        crate::ntfs::unspecified(self, 12)
    }

    /// Whether the caller asked the pass to stop.
    fn stopped(&mut self) -> (r: bool)
        ensures
            old(self).stop_held() ==> r,
            old(self).stop_never() ==> !r,
            final(self).stop_held() == old(self).stop_held(),
            final(self).stop_never() == old(self).stop_never(),
            final(self).stores_ok() == old(self).stores_ok(),
            final(self).stored() == old(self).stored(),
            final(self).last_report() == old(self).last_report(),
    ;

    /// A progress report: a count (records read, then files recovered) and
    /// the path of the file being written, if any.
    fn progress(&mut self, count: u64, path: &str)
        ensures
            final(self).last_report() == Some((count, path@)),
            final(self).stop_held() == old(self).stop_held(),
            final(self).stop_never() == old(self).stop_never(),
            final(self).stores_ok() == old(self).stores_ok(),
            final(self).stored() == old(self).stored(),
    ;

    /// Store `data` as the recovered file `full` (its relative path) at
    /// `out_path` (the output root, then the sanitized path components,
    /// without overwriting an existing file); whether it was stored.
    fn write_file(&mut self, full: &str, out_path: &[String], data: &[u8]) -> (r: bool)
        ensures
            r ==> final(self).stored() == old(self).stored().push((full@, path_view(out_path@), data@)),
            !r ==> final(self).stored() == old(self).stored(),
            old(self).stores_ok() ==> r,
            final(self).stop_held() == old(self).stop_held(),
            final(self).stop_never() == old(self).stop_never(),
            final(self).stores_ok() == old(self).stores_ok(),
            final(self).last_report() == old(self).last_report(),
    ;
}

pub struct RecoverParams {
    /// Optional Windows-style filter (e.g. `Documents`) limiting recovery to
    /// that subtree. `None` recovers the whole volume.
    pub filter: Option<String>,
    /// Destination directory.
    pub out_root: String,
}

pub struct RecoverResult {
    pub files: u64,
    pub used_ranges: Vec<ByteRange>,
}

/// The device bytes a run of `length` clusters of `cs` bytes at `offset`
/// occupies (its byte length wrapping as `u64`), cut at the end of the
/// `u64` offsets.
pub open spec fn spec_used_range(offset: u64, length: u64, cs: u64) -> ByteRange {
    let size = vstd::wrapping::u64_specs::wrapping_mul(length, cs);
    let room = (u64::MAX - offset) as u64;
    ByteRange {
        offset,
        size: if size <= room {
            size
        } else {
            room
        },
    }
}

/// The device ranges of the non-sparse runs among the first `k` of `runs`.
pub open spec fn runs_used<R: Reader>(vol: NtfsVolume<R>, runs: Seq<crate::ntfs::Run>, k: nat) -> Seq<ByteRange>
    decreases k,
{
    if k == 0 {
        Seq::empty()
    } else {
        let prev = runs_used(vol, runs, (k - 1) as nat);
        let r = runs[k - 1];
        if r.cluster != SPARSE {
            prev.push(spec_used_range(vol.spec_cluster_offset(r.cluster), r.length, vol.spec_geom().cluster_size as u64))
        } else {
            prev
        }
    }
}

/// The device ranges in use by the first `k` records of `es`.
pub open spec fn entries_used<R: Reader>(vol: NtfsVolume<R>, es: Seq<Option<MftEntryV>>, k: nat) -> Seq<ByteRange>
    decreases k,
{
    if k == 0 {
        Seq::empty()
    } else {
        entries_used(vol, es, (k - 1) as nat) + match es[k - 1] {
            Some(e) => runs_used(vol, e.used_runs, e.used_runs.len()),
            None => Seq::empty(),
        }
    }
}

proof fn lemma_entries_used_push<R: Reader>(vol: NtfsVolume<R>, es: Seq<Option<MftEntryV>>, x: Option<MftEntryV>, k: nat)
    requires
        k <= es.len(),
    ensures
        entries_used(vol, es.push(x), k) == entries_used(vol, es, k),
    decreases k,
{
    if k > 0 {
        lemma_entries_used_push(vol, es, x, (k - 1) as nat);
        assert(es.push(x)[k - 1] == es[k - 1]);
    }
}

/// The entry the pass reads for record `i`: records are read in batches of
/// 256 from record 0 on, the last batch cut at the record count.
pub open spec fn record_slot<R: Reader>(vol: NtfsVolume<R>, i: int) -> Option<MftEntryV> {
    let b = i - i % 256;
    let n = if vol.spec_record_count() - b < 256 { vol.spec_record_count() - b } else { 256 };
    vol.spec_bulk_slot(b as u64, n as u64, i - b)
}

/// The directory filter the pass applies, normalized.
pub open spec fn norm_filter(f: Option<String>) -> Option<Seq<char>> {
    match f {
        Some(s) => Some(spec_normalize_filter(s@)),
        None => None,
    }
}

/// Whether the (normalized) filter admits the relative path `full`: `full`
/// is the filter or lies under it (ASCII case ignored), compared on their
/// UTF-8 bytes; a path that the filter's length would cut inside a
/// character is not admitted.
pub open spec fn filter_admits(filter: Option<Seq<char>>, full: Seq<char>) -> bool {
    match filter {
        None => true,
        Some(f) => {
            let fb = vstd::utf8::encode_utf8(f);
            let pb = vstd::utf8::encode_utf8(full);
            &&& pb.len() >= fb.len() ==> vstd::utf8::is_char_boundary(pb, fb.len() as int)
            &&& spec_path_within(fb, pb)
        },
    }
}

/// What the pass owes for record `k` when every read succeeds: the record
/// is recovered under a path the filter admits, and its payload can be read
/// (or, for an overwritten file, a copy or its head rebuilt) inside the
/// device.
pub open spec fn owed_record<R: Reader>(vol: NtfsVolume<R>, es: Seq<Option<MftEntryV>>, filter: Option<Seq<char>>, k: int) -> bool {
    &&& 0 <= k < es.len()
    &&& es[k] matches Some(e)
    &&& spec_recover_path(es, e, filter is Some) matches Some(p)
    &&& filter_admits(filter, p)
    &&& e.data matches Some(d)
    &&& if is_stale(vol, e) {
        spec_rebuild_fits(&vol, d) && spec_rebuild_kind(&vol, d) != Rebuild::Skip
    } else {
        spec_data_fits(&vol, d)
    }
}

/// Whether the (deleted) file of `e` was overwritten, as far as the known
/// allocation bitmap tells: such a file is rebuilt rather than read.
pub open spec fn is_stale<R: Reader>(vol: NtfsVolume<R>, e: MftEntryV) -> bool {
    &&& vol.spec_bitmap().spec_count() > 0
    &&& !e.in_use
    &&& e.data matches Some(DataAttrV::Runs { runs, .. })
    &&& exists|k: int| 0 <= k < runs.len() && run_touched(&vol, #[trigger] runs[k])
}

/// Whether `data` is what the pass recovers for record `e`: its payload read
/// through the volume, or for an overwritten file a full copy found on the
/// volume or its intact head when that carries a known signature.
pub open spec fn recovered_payload<R: Reader>(vol: NtfsVolume<R>, e: MftEntryV, data: Seq<u8>) -> bool {
    match e.data {
        None => false,
        Some(d) => if is_stale(vol, e) {
            ||| exists|c: u64| #[trigger] rebuilt_from_copy(&vol, d, Seq::empty(), data, c)
            ||| (spec_intact_head(&vol, d) matches Some(seed) && spec_known_magic(seed) && data == seed)
        } else {
            data == spec_data_bytes(&vol, d)
        },
    }
}

/// The stored file `w` comes from record `k` of `es`: the record is
/// recovered under `w`'s relative path, the filter admits it, and it is
/// stored at its output location with its recovered payload.
pub open spec fn stored_from<R: Reader>(
    vol: NtfsVolume<R>,
    es: Seq<Option<MftEntryV>>,
    filter: Option<Seq<char>>,
    out_root: Seq<char>,
    w: Stored,
    k: int,
) -> bool {
    &&& 0 <= k < es.len()
    &&& es[k] matches Some(e)
    &&& spec_recover_path(es, e, filter is Some) == Some(w.0)
    &&& filter_admits(filter, w.0)
    &&& w.1 == spec_output_path(out_root, w.0)
    &&& recovered_payload(vol, e, w.2)
}

/// The stored files `ws` come, in order, from the distinct records `ks`
/// (increasing) of `es`.
pub open spec fn stored_in_order<R: Reader>(
    vol: NtfsVolume<R>,
    es: Seq<Option<MftEntryV>>,
    filter: Option<Seq<char>>,
    out_root: Seq<char>,
    ws: Seq<Stored>,
    ks: Seq<int>,
) -> bool {
    &&& ks.len() == ws.len()
    &&& forall|j: int, l: int| 0 <= j < l < ks.len() ==> ks[j] < ks[l]
    &&& forall|j: int| 0 <= j < ks.len() ==> #[trigger] stored_from(vol, es, filter, out_root, ws[j], ks[j])
}

/// The device bytes a run occupies, cut at the end of the `u64` offsets.
fn used_range(offset: u64, length: u64, cs: u64) -> (r: ByteRange)
    ensures
        r == spec_used_range(offset, length, cs),
        r.offset + r.size <= u64::MAX,
{
    let size = length.wrapping_mul(cs);
    let room = u64::MAX - offset;
    ByteRange { offset, size: if size <= room { size } else { room } }
}

/// Recover files from the volume, honoring the optional filter. Returns the
/// number recovered plus the (merged) device ranges in use, to hand to the
/// carve pass. The sink is asked to stop between steps; the ranges
/// collected until then are still returned. Every file stored comes, in
/// record order, from a record of the entry table the pass read (with sound
/// reads, what the device holds for each record), under its path, at its
/// output location below the output root and with its recovered payload;
/// the last progress report gives the number of files; a standing stop
/// request recovers nothing. When the caller never asks to stop, every
/// store succeeds and every read succeeds, every record owed (see
/// `owed_record`) is stored.
#[verifier::rlimit(80)]
#[verifier::spinoff_prover]
pub fn recover<R: Reader, S: RecoverSink>(volume: &NtfsVolume<R>, params: &RecoverParams, sink: &mut S) -> (r: RecoverResult)
    ensures
        ranges_separated(r.used_ranges@),
        ranges_fit(r.used_ranges@),
        r.files <= volume.spec_record_count(),
        final(sink).stored().len() == old(sink).stored().len() + r.files,
        final(sink).stored().subrange(0, old(sink).stored().len() as int) == old(sink).stored(),
        final(sink).last_report() == Some((r.files, Seq::<char>::empty())),
        old(sink).stop_held() ==> r.files == 0,
        exists|es: Seq<Option<MftEntryV>>|
            {
                &&& es.len() <= volume.spec_record_count()
                &&& old(sink).stop_never() ==> es.len() == volume.spec_record_count()
                &&& forall|i: int| 0 <= i < es.len() ==> (#[trigger] es[i] matches Some(e) ==> volume.entry_on_disk(e, i as u64))
                &&& volume.spec_reads_ok() ==> forall|i: int| 0 <= i < es.len() ==> #[trigger] es[i] == record_slot(*volume, i)
                &&& forall|x: int| in_ranges(r.used_ranges@, x) <==> in_ranges(
                    entries_used(*volume, es, es.len()) + runs_used(
                        *volume,
                        volume.spec_mft_runs(),
                        volume.spec_mft_runs().len(),
                    ),
                    x,
                )
                &&& exists|ks: Seq<int>|
                    {
                        &&& stored_in_order(
                            *volume,
                            es,
                            norm_filter(params.filter),
                            params.out_root@,
                            final(sink).stored().subrange(
                                old(sink).stored().len() as int,
                                final(sink).stored().len() as int,
                            ),
                            ks,
                        )
                        &&& old(sink).stop_never() && old(sink).stores_ok() && volume.spec_reads_ok() ==> forall|k: int|
                            #[trigger] owed_record(*volume, es, norm_filter(params.filter), k) ==> ks.contains(k)
                    }
            },
{
    let ghost s0 = old(sink).stored();
    let count = volume.record_count();
    let cs = volume.geometry().cluster_size as u64;
    let filter: Option<String> = match &params.filter {
        Some(f) => Some(normalize_filter(f.as_str())),
        None => None,
    };
    let ghost filt = norm_filter(params.filter);
    assert(filter.is_some() == filt is Some);
    assert(filter matches Some(f) ==> filt == Some(f@));
    // Pass 1: parse every record, building the indexed entry table and
    // collecting used runs.
    let mut entries: Vec<Option<MftEntry>> = Vec::new();
    let mut all_used: Vec<ByteRange> = Vec::new();
    let mut start: u64 = 0;
    while start < count
        invariant
            count == volume.spec_record_count(),
            count <= crate::ntfs::MAX_RECORDS,
            cs == volume.spec_geom().cluster_size as u64,
            start <= count,
            start % 256 == 0 || start == count,
            entries@.len() == start,
            sink.stored() == s0,
            sink.stop_held() == old(sink).stop_held(),
            sink.stop_never() == old(sink).stop_never(),
            sink.stores_ok() == old(sink).stores_ok(),
            sink.stop_held() ==> entries@.len() == 0,
            ranges_fit(all_used@),
            all_used@ == entries_used(*volume, entries_view(entries@), entries@.len()),
            forall|i: int|
                0 <= i < entries@.len() ==> (#[trigger] entries_view(entries@)[i] matches Some(e) ==> volume.entry_on_disk(
                    e,
                    i as u64,
                )),
            volume.spec_reads_ok() ==> forall|i: int|
                0 <= i < entries@.len() ==> #[trigger] entries_view(entries@)[i] == record_slot(*volume, i),
        ensures
            sink.stop_never() ==> entries@.len() == count,
        decreases count - start,
    {
        if sink.stopped() {
            break;
        }
        let n: u64 = if count - start < 256 {
            count - start
        } else {
            256
        };
        let mut parsed = volume.read_records_bulk(start, n);
        let ghost pv = parsed@;
        let ghost base = entries@.len();
        while parsed.len() > 0
            invariant
                count == volume.spec_record_count(),
                cs == volume.spec_geom().cluster_size as u64,
                pv.len() == n,
                base == start,
                start % 256 == 0,
                start + n <= count,
                n == (if count - start < 256 { count - start } else { 256 }),
                parsed@.len() <= n,
                parsed@ == pv.subrange(n - parsed@.len(), n as int),
                entries@.len() == base + (n - parsed@.len()),
                ranges_fit(all_used@),
                all_used@ == entries_used(*volume, entries_view(entries@), entries@.len()),
                forall|i: int|
                    0 <= i < n ==> (#[trigger] pv[i] matches Some(e) ==> volume.entry_on_disk(e@, (start + i) as u64)),
                volume.spec_reads_ok() ==> forall|i: int|
                    0 <= i < n ==> entry_v(#[trigger] pv[i]) == volume.spec_bulk_slot(start, n, i),
                forall|i: int|
                    0 <= i < entries@.len() ==> (#[trigger] entries_view(entries@)[i] matches Some(e) ==> volume.entry_on_disk(
                        e,
                        i as u64,
                    )),
                volume.spec_reads_ok() ==> forall|i: int|
                    0 <= i < entries@.len() ==> #[trigger] entries_view(entries@)[i] == record_slot(*volume, i),
            decreases parsed@.len(),
        {
            let ghost j = n - parsed@.len();
            let slot = parsed.remove(0);
            assert(slot == pv[j]);
            let ghost ev_before = entries_view(entries@);
            match slot {
                Some(entry) => {
                    let ghost used_before = all_used@;
                    let mut q: usize = 0;
                    while q < entry.used_runs.len()
                        invariant
                            q <= entry.used_runs@.len(),
                            cs == volume.spec_geom().cluster_size as u64,
                            ranges_fit(all_used@),
                            all_used@ == used_before + runs_used(*volume, entry.used_runs@, q as nat),
                        decreases entry.used_runs@.len() - q,
                    {
                        let r = entry.used_runs[q];
                        if r.cluster != SPARSE {
                            all_used.push(used_range(volume.cluster_to_offset(r.cluster), r.length, cs));
                        }
                        q += 1;
                        assert(all_used@ =~= used_before + runs_used(*volume, entry.used_runs@, q as nat));
                    }
                    entries.push(Some(entry));
                },
                None => entries.push(None),
            }
            assert(entries_view(entries@) =~= ev_before.push(
                match pv[j] {
                    Some(x) => Some(x@),
                    None => None,
                },
            ));
            proof {
                let x = match pv[j] {
                    Some(e) => Some(e@),
                    None => None,
                };
                lemma_entries_used_push(*volume, ev_before, x, ev_before.len());
                let p = start + j;
                assert(p % 256 == j && p - p % 256 == start) by (nonlinear_arith)
                    requires
                        p == start + j,
                        start % 256 == 0,
                        0 <= j < 256,
                ;
                assert(entries_view(entries@)[p] == entry_v(pv[j]));
            }
            assert(all_used@ =~= entries_used(*volume, entries_view(entries@), entries@.len()));
        }
        proof {
            assert((start + n) % 256 == 0 || start + n == count) by (nonlinear_arith)
                requires
                    start % 256 == 0,
                    n == 256 || start + n == count,
            ;
        }
        start += n;
        if start % 8192 == 0 {
            sink.progress(start, "");
        }
    }
    // The MFT file itself is in use too.
    let mft_runs = volume.mft_runs();
    let ghost from_records = all_used@;
    let mut q: usize = 0;
    while q < mft_runs.len()
        invariant
            q <= mft_runs@.len(),
            mft_runs@ == volume.spec_mft_runs(),
            cs == volume.spec_geom().cluster_size as u64,
            ranges_fit(all_used@),
            all_used@ == from_records + runs_used(*volume, mft_runs@, q as nat),
        decreases mft_runs@.len() - q,
    {
        let r = mft_runs[q];
        if r.cluster != SPARSE {
            all_used.push(used_range(volume.cluster_to_offset(r.cluster), r.length, cs));
        }
        q += 1;
        assert(all_used@ =~= from_records + runs_used(*volume, mft_runs@, q as nat));
    }
    let ghost es = entries_view(entries@);
    let ghost all_final = all_used@;
    assert(all_final == entries_used(*volume, es, es.len()) + runs_used(
        *volume,
        volume.spec_mft_runs(),
        volume.spec_mft_runs().len(),
    ));
    let used_ranges = merge_ranges(all_used);
    // Pass 2: recover every record carrying an un-named $DATA.
    let bitmap_known = volume.bitmap().cluster_count() > 0;
    let mut files: u64 = 0;
    let mut idx: usize = 0;
    let ghost mut ks: Seq<int> = Seq::empty();
    assert(sink.stored().subrange(s0.len() as int, sink.stored().len() as int) =~= Seq::<Stored>::empty());
    while idx < entries.len()
        invariant
            idx <= entries@.len(),
            entries@.len() <= volume.spec_record_count(),
            es == entries_view(entries@),
            files <= idx,
            bitmap_known == (volume.spec_bitmap().spec_count() > 0),
            filter.is_some() == filt is Some,
            filter matches Some(f) ==> filt == Some(f@),
            filt == norm_filter(params.filter),
            sink.stop_held() == old(sink).stop_held(),
            sink.stop_never() == old(sink).stop_never(),
            sink.stores_ok() == old(sink).stores_ok(),
            sink.stop_held() ==> files == 0,
            sink.stored().len() == s0.len() + files,
            sink.stored().subrange(0, s0.len() as int) == s0,
            stored_in_order(
                *volume,
                es,
                filt,
                params.out_root@,
                sink.stored().subrange(s0.len() as int, sink.stored().len() as int),
                ks,
            ),
            forall|j: int| 0 <= j < ks.len() ==> ks[j] < idx,
            sink.stop_never() && sink.stores_ok() && volume.spec_reads_ok() ==> forall|k: int|
                0 <= k < idx && #[trigger] owed_record(*volume, es, filt, k) ==> ks.contains(k),
            old(sink).stop_never() ==> es.len() == volume.spec_record_count(),
        ensures
            sink.stop_never() ==> idx >= entries@.len(),
        decreases entries@.len() - idx,
    {
        if sink.stopped() {
            break;
        }
        let ghost owed_prem = sink.stop_never() && sink.stores_ok() && volume.spec_reads_ok();
        let ghost ks0 = ks;
        let entry = match &entries[idx] {
            Some(e) => e,
            None => {
                assert(!owed_record(*volume, es, filt, idx as int));
                idx += 1;
                continue;
            },
        };
        assert(es[idx as int] == Some(entry@));
        let full = match recover_path(entries.as_slice(), entry, filter.is_some()) {
            Some(p) => p,
            None => {
                assert(!owed_record(*volume, es, filt, idx as int));
                idx += 1;
                continue;
            },
        };
        let accepted = match &filter {
            Some(f) => filter_accepts_exec(f.as_str(), full.as_str()),
            None => true,
        };
        assert(accepted == filter_admits(filt, full@));
        if !accepted {
            assert(!owed_record(*volume, es, filt, idx as int));
            idx += 1;
            continue;
        }
        let data = match &entry.data {
            Some(d) => d,
            None => {
                assert(!owed_record(*volume, es, filt, idx as int));
                idx += 1;
                continue;
            },
        };
        let mut buf: Vec<u8> = Vec::new();
        assert(entry@.data == Some(data@));
        let stale = if bitmap_known && !entry.in_use {
            match data {
                DataAttr::Runs { runs, .. } => {
                    let t = runs_are_stale(volume, runs.as_slice());
                    assert(data@ matches DataAttrV::Runs { runs: rv, .. } && rv == runs@);
                    assert(t == exists|k: int| 0 <= k < runs@.len() && run_touched(&*volume, #[trigger] runs@[k]));
                    t
                },
                DataAttr::Resident(_) => false,
            }
        } else {
            false
        };
        assert(entry@.in_use == entry.in_use);
        assert(stale == is_stale(*volume, entry@));
        proof {
            volume.lemma_tile_reads();
        }
        if stale {
            match stale_rebuild(volume, data, &mut buf) {
                Rebuild::Skip => {
                    assert(owed_prem ==> !owed_record(*volume, es, filt, idx as int));
                    idx += 1;
                    continue;
                },
                _ => {},
            }
        } else if !read_data(volume, data, &mut buf) {
            assert(owed_prem ==> !owed_record(*volume, es, filt, idx as int));
            idx += 1;
            continue;
        }
        assert(recovered_payload(*volume, entry@, buf@));
        let out_path = output_path(params.out_root.as_str(), full.as_str());
        assert(path_view(out_path@) =~= spec_output_path(params.out_root@, full@));
        let ghost before = sink.stored();
        let ghost w: Stored = (full@, path_view(out_path@), buf@);
        let stored_ok = sink.write_file(full.as_str(), out_path.as_slice(), buf.as_slice());
        assert(owed_prem ==> stored_ok);
        if stored_ok {
            files += 1;
            proof {
                let ws = sink.stored().subrange(s0.len() as int, sink.stored().len() as int);
                let wb = before.subrange(s0.len() as int, before.len() as int);
                assert(ws =~= wb.push(w));
                assert(stored_from(*volume, es, filt, params.out_root@, w, idx as int));
                let ks2 = ks.push(idx as int);
                assert forall|j: int| 0 <= j < ks2.len() implies #[trigger] stored_from(
                    *volume,
                    es,
                    filt,
                    params.out_root@,
                    ws[j],
                    ks2[j],
                ) by {
                    if j < ks.len() {
                        assert(ws[j] == wb[j]);
                        assert(ks2[j] == ks[j]);
                    }
                }
                assert(sink.stored().subrange(0, s0.len() as int) =~= before.subrange(0, s0.len() as int));
                ks = ks2;
            }
        }
        if files % 64 == 0 {
            sink.progress(files, full.as_str());
        }
        proof {
            assert forall|k: int| owed_prem && 0 <= k <= idx && #[trigger] owed_record(*volume, es, filt, k) implies ks.contains(
                k,
            ) by {
                if k < idx {
                    let j = choose|j: int| 0 <= j < ks0.len() && ks0[j] == k;
                    assert(ks[j] == k);
                } else {
                    assert(ks[ks.len() - 1] == idx);
                }
            }
        }
        idx += 1;
    }
    sink.progress(files, "");
    proof {
        reveal_strlit("");
    }
    let r = RecoverResult { files, used_ranges };
    assert(es.len() <= volume.spec_record_count() && (forall|i: int|
        0 <= i < es.len() ==> (#[trigger] es[i] matches Some(e) ==> volume.entry_on_disk(e, i as u64)))
        && (forall|x: int| in_ranges(r.used_ranges@, x) <==> in_ranges(all_final, x)));
    assert(stored_in_order(
        *volume,
        es,
        norm_filter(params.filter),
        params.out_root@,
        sink.stored().subrange(s0.len() as int, sink.stored().len() as int),
        ks,
    ));
    r
}

} // verus!
