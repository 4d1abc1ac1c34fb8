//! An opened NTFS volume: geometry from the boot sector, the run list of the
//! `$MFT` file, the cluster bitmap, and the reads of MFT records through a
//! `Reader`.

use vstd::prelude::*;
use crate::bytes::copy_range;
use crate::ntfs::{
    apply_fixups, lemma_geometry_positive, mft_record_is_malformed, mft_record_malformed, parse_boot_sector,
    parse_mft_record, spec_apply_fixups, spec_parse_boot_sector, spec_parse_mft_record, mul_wide,
    bit_set, ClusterBitmap, DataAttr, DataAttrV, Geometry, MftEntry, MftEntryV, Reader, Run, Tile,
    MAX_RECORDS, SPARSE,
};

verus! {

/// Why a volume could not be opened.
#[derive(Debug, Clone, Copy, PartialEq, Eq, Structural)]
pub enum NtfsError {
    /// A read of the device failed.
    Read,
    /// The boot sector is not an NTFS boot sector.
    NotNtfs,
    /// The `$MFT` record failed its update-sequence check.
    BadMftRecord,
    /// The `$MFT` record could not be parsed.
    UnparsableMftRecord,
    /// The `$MFT` record has no non-resident, uncompressed `$DATA`.
    NoMftData,
}

/// The MFT entry that the record image `bytes` holds for record number `n`:
/// `None` when the update-sequence check fails or the record does not parse.
pub open spec fn record_entry_of(bytes: Seq<u8>, n: u64) -> Option<MftEntryV> {
    let (ok, fixed) = spec_apply_fixups(bytes);
    if !ok || mft_record_malformed(fixed) {
        None
    } else {
        spec_parse_mft_record(fixed, n)
    }
}

/// Parse one raw MFT record image: fix it up, then parse it. A record whose
/// attribute list runs off its end counts as unparsable.
pub fn parse_record_image(rec: Vec<u8>, n: u64) -> (r: Option<MftEntry>)
    ensures
        match r {
            Some(e) => record_entry_of(rec@, n) == Some(e@),
            None => record_entry_of(rec@, n) is None,
        },
{
    let mut rec = rec;
    if !apply_fixups(&mut rec) {
        return None;
    }
    if mft_record_is_malformed(rec.as_slice()) {
        return None;
    }
    parse_mft_record(rec.as_slice(), n)
}

/// Byte offset of cluster `c` on a volume at `part_offset` with clusters of
/// `cs` bytes (wrapping around at 2^64 as a release build does).
pub open spec fn cluster_offset_at(part_offset: u64, cs: u64, c: u64) -> u64 {
    vstd::wrapping::u64_specs::wrapping_add(part_offset, vstd::wrapping::u64_specs::wrapping_mul(c, cs))
}

/// Number of clusters the geometry declares.
pub open spec fn geometry_cluster_count(g: Geometry) -> u64 {
    (vstd::wrapping::u64_specs::wrapping_mul(g.total_sectors, g.sector_size as u64) / (g.cluster_size as u64)) as u64
}

pub struct NtfsVolume<R: Reader> {
    reader: R,
    part_offset: u64,
    geom: Geometry,
    mft_runs: Vec<Run>,
    mft_real_size: u64,
    record_count: u64,
    bitmap: ClusterBitmap,
}

impl<R: Reader> NtfsVolume<R> {
    #[verifier::type_invariant]
    closed spec fn wf(self) -> bool {
        &&& self.geom.cluster_size > 0
        &&& self.geom.mft_record_size > 0
        &&& self.record_count <= MAX_RECORDS
    }

    pub closed spec fn spec_geom(&self) -> Geometry {
        self.geom
    }

    pub closed spec fn spec_part_offset(&self) -> u64 {
        self.part_offset
    }

    pub closed spec fn spec_disk(&self) -> Seq<u8> {
        self.reader.disk()
    }

    pub closed spec fn spec_mft_runs(&self) -> Seq<Run> {
        self.mft_runs@
    }

    pub closed spec fn spec_mft_real_size(&self) -> u64 {
        self.mft_real_size
    }

    pub closed spec fn spec_record_count(&self) -> u64 {
        self.record_count
    }

    pub closed spec fn spec_bitmap(&self) -> ClusterBitmap {
        self.bitmap
    }

    /// Byte offset of cluster `c` on this volume.
    pub open spec fn spec_cluster_offset(&self, c: u64) -> u64 {
        cluster_offset_at(self.spec_part_offset(), self.spec_geom().cluster_size as u64, c)
    }

    /// The record image of `$MFT` (record 0) on the device.
    pub open spec fn spec_mft_record_bytes(&self) -> Seq<u8> {
        let off = self.spec_cluster_offset(self.spec_geom().mft_lcn) as int;
        self.spec_disk().subrange(off, off + self.spec_geom().mft_record_size)
    }

    /// The run list, size and record count of the MFT were taken from the
    /// `$MFT` record on the device.
    pub open spec fn mft_loaded(&self) -> bool {
        match record_entry_of(self.spec_mft_record_bytes(), 0) {
            Some(e) => match e.data {
                Some(DataAttrV::Runs { runs, real_size, compressed }) => {
                    &&& !compressed
                    &&& self.spec_mft_runs() == runs
                    &&& self.spec_mft_real_size() == real_size
                    &&& self.spec_record_count() == (if real_size / (self.spec_geom().mft_record_size as u64) < MAX_RECORDS {
                        real_size / (self.spec_geom().mft_record_size as u64)
                    } else {
                        MAX_RECORDS
                    })
                },
                _ => false,
            },
            None => false,
        }
    }

    /// Geometry derived from the boot sector.
    pub fn geometry(&self) -> (r: &Geometry)
        ensures
            *r == self.spec_geom(),
    {
        &self.geom
    }

    /// The cluster bitmap (empty when `$Bitmap` could not be read).
    pub fn bitmap(&self) -> (r: &ClusterBitmap)
        ensures
            *r == self.spec_bitmap(),
    {
        &self.bitmap
    }

    /// Number of MFT records the recovery pass walks.
    pub fn record_count(&self) -> (r: u64)
        ensures
            r == self.spec_record_count(),
            r <= MAX_RECORDS,
    {
        proof {
            use_type_invariant(self);
        }
        self.record_count
    }

    /// Byte offset of `cluster` on the device.
    pub fn cluster_to_offset(&self, cluster: u64) -> (r: u64)
        ensures
            r == self.spec_cluster_offset(cluster),
    {
        self.part_offset.wrapping_add(cluster.wrapping_mul(self.geom.cluster_size as u64))
    }

    /// The run list of the `$MFT` file.
    pub fn mft_runs(&self) -> (r: &Vec<Run>)
        ensures
            r@ == self.spec_mft_runs(),
    {
        &self.mft_runs
    }
}

/// Index of the first non-sparse run of `runs` (from `i` on) whose virtual
/// clusters cover `vcn`.
pub open spec fn first_covering_run(runs: Seq<Run>, vcn: u64, i: int) -> Option<int>
    decreases runs.len() - i,
{
    if i < 0 || i >= runs.len() {
        None
    } else if runs[i].cluster != SPARSE && runs[i].vcn <= vcn < runs[i].vcn + runs[i].length {
        Some(i)
    } else {
        first_covering_run(runs, vcn, i + 1)
    }
}

impl<R: Reader> NtfsVolume<R> {
    /// Device offset of MFT record `n`, found through the `$MFT` run list.
    pub open spec fn spec_record_phys(&self, n: u64) -> Option<u64> {
        let rs = self.spec_geom().mft_record_size as int;
        let cs = self.spec_geom().cluster_size as int;
        let pos = n * rs;
        if pos + rs > self.spec_mft_real_size() {
            None
        } else {
            let vcn = (pos / cs) as u64;
            match first_covering_run(self.spec_mft_runs(), vcn, 0) {
                Some(k) => Some(
                    vstd::wrapping::u64_specs::wrapping_add(
                        self.spec_cluster_offset(self.spec_mft_runs()[k].cluster),
                        (pos - self.spec_mft_runs()[k].vcn * cs) as u64,
                    ),
                ),
                None => None,
            }
        }
    }

    /// Physical offset of MFT record `n` in the volume.
    fn record_phys(&self, n: u64) -> (r: Option<u64>)
        requires
            n <= 0xFFFF_FFFF,
        ensures
            r == self.spec_record_phys(n),
    {
        proof {
            use_type_invariant(self);
        }
        let rs = self.geom.mft_record_size as u64;
        let cs = self.geom.cluster_size as u64;
        assert(n * rs <= 0xFFFF_FFFF * 0xFFFF_FFFF) by (nonlinear_arith)
            requires
                n <= 0xFFFF_FFFF,
                rs <= 0xFFFF_FFFF,
        ;
        let pos = n * rs;
        if pos as u128 + rs as u128 > self.mft_real_size as u128 {
            return None;
        }
        let vcn = pos / cs;
        let mut i: usize = 0;
        while i < self.mft_runs.len()
            invariant
                i <= self.mft_runs@.len(),
                cs == self.geom.cluster_size,
                cs > 0,
                rs == self.geom.mft_record_size,
                pos == n * rs,
                pos + rs <= self.mft_real_size,
                vcn == pos / cs,
                first_covering_run(self.mft_runs@, vcn, 0) == first_covering_run(self.mft_runs@, vcn, i as int),
            decreases self.mft_runs@.len() - i,
        {
            let r = self.mft_runs[i];
            if r.cluster != SPARSE && vcn >= r.vcn && vcn - r.vcn < r.length {
                assert(r.vcn * cs <= vcn * cs) by (nonlinear_arith)
                    requires
                        r.vcn <= vcn,
                ;
                assert(vcn * cs <= pos) by (nonlinear_arith)
                    requires
                        vcn == pos / cs,
                        cs > 0,
                ;
                let base = mul_wide(r.vcn, cs);
                let within = (pos as u128 - base) as u64;
                return Some(self.cluster_to_offset(r.cluster).wrapping_add(within));
            }
            i += 1;
        }
        None
    }
}

/// The view of an optional entry.
pub open spec fn entry_v(e: Option<MftEntry>) -> Option<MftEntryV> {
    match e {
        Some(x) => Some(x@),
        None => None,
    }
}

impl<R: Reader> NtfsVolume<R> {
    /// Whether every read inside the device succeeds.
    pub closed spec fn spec_reads_ok(&self) -> bool {
        self.reader.reads_ok()
    }

    /// The volume read as a tile reads through its reader.
    pub proof fn lemma_tile_reads(&self)
        ensures
            self.tile_reads_ok() == self.spec_reads_ok(),
    {
    }

    /// The first run, from index `k` on, that holds the whole span of
    /// virtual clusters `vcn_start .. vcn_end` (the run a bulk read of
    /// records goes through).
    pub open spec fn bulk_run_from(&self, vcn_start: u64, vcn_end: int, k: int) -> Option<Run>
        decreases self.spec_mft_runs().len() - k,
    {
        let runs = self.spec_mft_runs();
        if k < 0 || k >= runs.len() {
            None
        } else if runs[k].cluster != SPARSE && vcn_start >= runs[k].vcn && vcn_end <= runs[k].vcn
            + runs[k].length {
            Some(runs[k])
        } else {
            self.bulk_run_from(vcn_start, vcn_end, k + 1)
        }
    }

    /// Device offset at which records `start .. start + count` are read in
    /// one piece, when one run holds them all.
    pub open spec fn spec_bulk_phys(&self, start: u64, count: u64) -> Option<u64> {
        let rs = self.spec_geom().mft_record_size as int;
        let cs = self.spec_geom().cluster_size as int;
        let pos = start * rs;
        let end = pos + count * rs;
        let vcn_start = (pos / cs) as u64;
        let vcn_end = end / cs + if end % cs == 0 { 0int } else { 1int };
        match self.bulk_run_from(vcn_start, vcn_end, 0) {
            Some(run) => Some(
                vstd::wrapping::u64_specs::wrapping_add(
                    self.spec_cluster_offset(run.cluster),
                    (pos - run.vcn * cs) as u64,
                ),
            ),
            None => None,
        }
    }

    /// Whether records `start .. start + count` are read in one piece that
    /// lies inside the device.
    pub open spec fn bulk_fits(&self, start: u64, count: u64) -> bool {
        let bytes = count * self.spec_geom().mft_record_size;
        match self.spec_bulk_phys(start, count) {
            Some(p) => bytes <= usize::MAX && p + bytes <= self.spec_disk().len(),
            None => false,
        }
    }

    /// What reading records `start .. start + count` gives for record
    /// `start + i` when every read inside the device succeeds: the entry of
    /// its image in the one-piece read when that read fits the device, else
    /// the entry of its image at its own place, if that fits the device.
    pub open spec fn spec_bulk_slot(&self, start: u64, count: u64, i: int) -> Option<MftEntryV> {
        let rs = self.spec_geom().mft_record_size as int;
        let disk = self.spec_disk();
        if self.bulk_fits(start, count) {
            let p = self.spec_bulk_phys(start, count)->Some_0 as int;
            record_entry_of(disk.subrange(p + i * rs, p + i * rs + rs), (start + i) as u64)
        } else {
            match self.spec_record_phys((start + i) as u64) {
                Some(q) => if q + rs <= disk.len() {
                    record_entry_of(disk.subrange(q as int, q + rs), (start + i) as u64)
                } else {
                    None
                },
                None => None,
            }
        }
    }
}

impl<R: Reader> NtfsVolume<R> {
    /// `e` is what some record image on the device gives for record `n`.
    pub open spec fn entry_on_disk(&self, e: MftEntryV, n: u64) -> bool {
        exists|p: int|
            0 <= p && p + self.spec_geom().mft_record_size <= self.spec_disk().len() && #[trigger] record_entry_of(
                self.spec_disk().subrange(p, p + self.spec_geom().mft_record_size),
                n,
            ) == Some(e)
    }

    /// Read MFT records `start..start+count`, one slot per record (`None` for
    /// records that could not be read or did not parse). Tries a single bulk
    /// read when the span falls inside one run.
    #[verifier::rlimit(40)]
    #[verifier::spinoff_prover]
    pub(crate) fn read_records_bulk(&self, start: u64, count: u64) -> (r: Vec<Option<MftEntry>>)
        requires
            start <= MAX_RECORDS,
            count <= 256,
        ensures
            r@.len() == count,
            forall|i: int|
                0 <= i < count ==> (#[trigger] r@[i] matches Some(e) ==> self.entry_on_disk(e@, (start + i) as u64)),
            self.spec_reads_ok() ==> forall|i: int|
                0 <= i < count ==> entry_v(#[trigger] r@[i]) == self.spec_bulk_slot(start, count, i),
    {
        proof {
            use_type_invariant(self);
        }
        let rs = self.geom.mft_record_size as u64;
        let cs = self.geom.cluster_size as u64;
        assert(start * rs <= 10_000_000 * 0xFFFF_FFFF) by (nonlinear_arith)
            requires
                start <= 10_000_000,
                rs <= 0xFFFF_FFFF,
        ;
        assert(count * rs <= 256 * 0xFFFF_FFFF) by (nonlinear_arith)
            requires
                count <= 256,
                rs <= 0xFFFF_FFFF,
        ;
        let pos = start * rs;
        let bytes = count * rs;
        let vcn_start = pos / cs;
        let vcn_end = (pos + bytes) / cs + if (pos + bytes) % cs == 0 { 0 } else { 1 };
        let mut out: Vec<Option<MftEntry>> = Vec::new();
        let mut k: usize = 0;
        let mut found: Option<Run> = None;
        let ghost vcn_end_i: int = (pos + bytes) / (cs as int) + if (pos + bytes) % (cs as int) == 0 {
            0int
        } else {
            1int
        };
        assert(vcn_end == vcn_end_i);
        while k < self.mft_runs.len()
            invariant_except_break
                found is None,
                self.bulk_run_from(vcn_start, vcn_end_i, 0) == self.bulk_run_from(vcn_start, vcn_end_i, k as int),
            invariant
                k <= self.mft_runs@.len(),
                vcn_end == vcn_end_i,
            ensures
                found matches Some(r) ==> r.vcn <= vcn_start,
                found == self.bulk_run_from(vcn_start, vcn_end_i, 0),
            decreases self.mft_runs@.len() - k,
        {
            let r = self.mft_runs[k];
            if r.cluster != SPARSE && vcn_start >= r.vcn && (vcn_end as u128) <= (r.vcn as u128) + (r.length as u128) {
                found = Some(r);
                break;
            }
            k += 1;
        }
        match found {
            Some(run) => {
                assert(run.vcn * cs <= vcn_start * cs) by (nonlinear_arith)
                    requires
                        run.vcn <= vcn_start,
                ;
                assert(vcn_start * cs <= pos) by (nonlinear_arith)
                    requires
                        vcn_start == pos / cs,
                        cs > 0,
                ;
                let base = mul_wide(run.vcn, cs);
                let phys = self.cluster_to_offset(run.cluster).wrapping_add((pos as u128 - base) as u64);
                assert(self.spec_bulk_phys(start, count) == Some(phys));
                if bytes <= usize::MAX as u64 {
                    match self.reader.read_at(phys, bytes as usize) {
                        Some(buf) => {
                            let mut i: u64 = 0;
                            while i < count
                                invariant
                                    i <= count <= 256,
                                    start <= MAX_RECORDS,
                                    rs == self.geom.mft_record_size,
                                    bytes == count * rs,
                                    bytes <= usize::MAX,
                                    buf@.len() == bytes,
                                    phys + bytes <= self.reader.disk().len(),
                                    buf@ == self.reader.disk().subrange(phys as int, phys + bytes),
                                    out@.len() == i,
                                    forall|j: int|
                                        0 <= j < i ==> (#[trigger] out@[j] matches Some(e) ==> self.entry_on_disk(
                                            e@,
                                            (start + j) as u64,
                                        )),
                                    self.spec_bulk_phys(start, count) == Some(phys),
                                    self.bulk_fits(start, count),
                                    forall|j: int|
                                        0 <= j < i ==> entry_v(#[trigger] out@[j]) == self.spec_bulk_slot(start, count, j),
                                decreases count - i,
                            {
                                assert((i + 1) * rs <= count * rs) by (nonlinear_arith)
                                    requires
                                        i < count,
                                ;
                                assert(i * rs + rs == (i + 1) * rs) by (nonlinear_arith);
                                let lo = (i * rs) as usize;
                                let hi = ((i + 1) * rs) as usize;
                                let rec = copy_range(buf.as_slice(), lo, hi);
                                let slot = parse_record_image(rec, start + i);
                                proof {
                                    let p = phys + i * rs;
                                    assert(rec@ =~= self.reader.disk().subrange(p, p + rs));
                                }
                                proof {
                                    let p = phys + i * rs;
                                    assert(rec@ =~= self.spec_disk().subrange(p, p + rs));
                                }
                                out.push(slot);
                                i += 1;
                            }
                            return out;
                        },
                        None => {},
                    }
                }
            },
            None => {},
        }
        let mut i: u64 = 0;
        while i < count
            invariant
                i <= count <= 256,
                start <= MAX_RECORDS,
                rs == self.geom.mft_record_size,
                out@.len() == i,
                self.spec_reads_ok() ==> !self.bulk_fits(start, count),
                self.spec_reads_ok() ==> forall|j: int|
                    0 <= j < i ==> entry_v(#[trigger] out@[j]) == self.spec_bulk_slot(start, count, j),
                forall|j: int|
                    0 <= j < i ==> (#[trigger] out@[j] matches Some(e) ==> self.entry_on_disk(
                        e@,
                        (start + j) as u64,
                    )),
            decreases count - i,
        {
            let slot = match self.record_phys(start + i) {
                Some(phys) => match self.reader.read_at(phys, rs as usize) {
                    Some(rec) => {
                        let ghost img = rec@;
                        let e = parse_record_image(rec, start + i);
                        proof {
                            if e is Some {
                                assert(img =~= self.reader.disk().subrange(phys as int, phys + rs));
                            }
                        }
                        e
                    },
                    None => None,
                },
                None => None,
            };
            out.push(slot);
            i += 1;
        }
        out
    }
}

/// The geometry the boot sector at `part_offset` declares, if the device
/// holds one there.
pub open spec fn boot_geometry(disk: Seq<u8>, part_offset: u64, sector_size: u16) -> Option<Geometry> {
    if part_offset + 512 > disk.len() {
        None
    } else {
        spec_parse_boot_sector(disk.subrange(part_offset as int, part_offset + 512), sector_size)
    }
}

/// The record image of `$MFT` (record 0) on the device for geometry `g`.
pub open spec fn mft_image(disk: Seq<u8>, part_offset: u64, g: Geometry) -> Seq<u8> {
    let off = cluster_offset_at(part_offset, g.cluster_size as u64, g.mft_lcn) as int;
    disk.subrange(off, off + g.mft_record_size)
}

/// Whether the device holds the boot sector at `part_offset` and, when that
/// is an NTFS boot sector, the `$MFT` record it points to.
pub open spec fn open_fits(disk: Seq<u8>, part_offset: u64, sector_size: u16) -> bool {
    &&& part_offset + 512 <= disk.len()
    &&& boot_geometry(disk, part_offset, sector_size) matches Some(g) ==> cluster_offset_at(
        part_offset,
        g.cluster_size as u64,
        g.mft_lcn,
    ) + g.mft_record_size <= disk.len()
}

/// The error that opening the volume on `disk` gives when every read
/// succeeds, or `None` when it opens: the boot sector must be an NTFS one,
/// and the `$MFT` record must pass its update-sequence check, parse, and
/// hold a non-resident, uncompressed `$DATA`.
pub open spec fn open_error(disk: Seq<u8>, part_offset: u64, sector_size: u16) -> Option<NtfsError> {
    match boot_geometry(disk, part_offset, sector_size) {
        None => Some(NtfsError::NotNtfs),
        Some(g) => {
            let img = mft_image(disk, part_offset, g);
            if !spec_apply_fixups(img).0 {
                Some(NtfsError::BadMftRecord)
            } else {
                match record_entry_of(img, 0) {
                    None => Some(NtfsError::UnparsableMftRecord),
                    Some(e) => if has_plain_runs(e) {
                        None
                    } else {
                        Some(NtfsError::NoMftData)
                    },
                }
            }
        },
    }
}

/// The entry holds a non-resident, uncompressed `$DATA`.
pub open spec fn has_plain_runs(e: MftEntryV) -> bool {
    e.data matches Some(DataAttrV::Runs { compressed, .. }) && !compressed
}

impl<R: Reader> Tile for NtfsVolume<R> {
    closed spec fn tile_cluster_size(&self) -> u64 {
        self.geom.cluster_size as u64
    }

    closed spec fn tile_cluster_count(&self) -> u64 {
        self.bitmap.spec_count()
    }

    closed spec fn tile_offset(&self, c: u64) -> u64 {
        cluster_offset_at(self.part_offset, self.geom.cluster_size as u64, c)
    }

    closed spec fn tile_allocated(&self, c: u64) -> bool {
        self.bitmap.spec_allocated(c as int)
    }

    closed spec fn tile_disk(&self) -> Seq<u8> {
        self.reader.disk()
    }

    closed spec fn tile_reads_ok(&self) -> bool {
        self.reader.reads_ok()
    }

    fn cluster_size(&self) -> (r: u64) {
        proof {
            use_type_invariant(self);
        }
        self.geom.cluster_size as u64
    }

    fn cluster_count(&self) -> (r: u64) {
        self.bitmap.cluster_count()
    }

    fn cluster_offset(&self, cluster: u64) -> (r: u64) {
        self.cluster_to_offset(cluster)
    }

    fn is_allocated(&self, cluster: u64) -> (r: bool) {
        self.bitmap.is_allocated(cluster)
    }

    fn read_at(&self, offset: u64, len: usize) -> (r: Option<Vec<u8>>) {
        self.reader.read_at(offset, len)
    }
}

impl<R: Reader> NtfsVolume<R> {
    /// Read the `$MFT` record and take the MFT's run list and size from its
    /// `$DATA`.
    fn load_mft(&mut self) -> (r: Result<(), NtfsError>)
        ensures
            final(self).spec_geom() == old(self).spec_geom(),
            final(self).spec_part_offset() == old(self).spec_part_offset(),
            final(self).spec_disk() == old(self).spec_disk(),
            final(self).spec_bitmap() == old(self).spec_bitmap(),
            r is Ok ==> final(self).mft_loaded(),
            r != Err::<(), NtfsError>(NtfsError::NotNtfs),
            old(self).spec_cluster_offset(old(self).spec_geom().mft_lcn) + old(self).spec_geom().mft_record_size
                > old(self).spec_disk().len() ==> r == Err::<(), NtfsError>(NtfsError::Read),
            old(self).spec_reads_ok() && old(self).spec_cluster_offset(old(self).spec_geom().mft_lcn)
                + old(self).spec_geom().mft_record_size <= old(self).spec_disk().len() ==> r != Err::<
                (),
                NtfsError,
            >(NtfsError::Read),
            r == Err::<(), NtfsError>(NtfsError::BadMftRecord) ==> !spec_apply_fixups(
                old(self).spec_mft_record_bytes(),
            ).0,
            r == Err::<(), NtfsError>(NtfsError::UnparsableMftRecord) ==> spec_apply_fixups(
                old(self).spec_mft_record_bytes(),
            ).0 && record_entry_of(old(self).spec_mft_record_bytes(), 0) is None,
            r == Err::<(), NtfsError>(NtfsError::NoMftData) ==> (record_entry_of(
                old(self).spec_mft_record_bytes(),
                0,
            ) matches Some(e) && !has_plain_runs(e)),
    {
        proof {
            use_type_invariant(&*self);
        }
        let rs = self.geom.mft_record_size;
        let off = self.cluster_to_offset(self.geom.mft_lcn);
        let rec = match self.reader.read_at(off, rs as usize) {
            Some(b) => b,
            None => return Err(NtfsError::Read),
        };
        assert(rec@ == self.spec_mft_record_bytes());
        let mut fixed = rec;
        if !apply_fixups(&mut fixed) {
            return Err(NtfsError::BadMftRecord);
        }
        if mft_record_is_malformed(fixed.as_slice()) {
            return Err(NtfsError::UnparsableMftRecord);
        }
        let entry = match parse_mft_record(fixed.as_slice(), 0) {
            Some(e) => e,
            None => return Err(NtfsError::UnparsableMftRecord),
        };
        match entry.data {
            Some(DataAttr::Runs { runs, real_size, compressed }) => {
                if compressed {
                    return Err(NtfsError::NoMftData);
                }
                let per = real_size / (rs as u64);
                self.mft_runs = runs;
                self.mft_real_size = real_size;
                self.record_count = if per < MAX_RECORDS {
                    per
                } else {
                    MAX_RECORDS
                };
                Ok(())
            },
            _ => Err(NtfsError::NoMftData),
        }
    }
}

/// `b` is the allocation bitmap of `cluster_count` clusters that the bytes
/// `raw` hold (bit `c % 8` of byte `c / 8` for cluster `c`; clusters past
/// the bytes or the count count as allocated).
pub open spec fn bitmap_of(b: ClusterBitmap, raw: Seq<u8>, cluster_count: u64) -> bool {
    &&& b.spec_count() == cluster_count
    &&& forall|c: int|
        0 <= c ==> #[trigger] b.spec_allocated(c) == (c >= cluster_count || (c / 8 < raw.len() && bit_set(
            raw[c / 8],
            (c % 8) as u8,
        )))
}

impl<R: Reader> NtfsVolume<R> {
    /// The bytes of a non-resident `$Bitmap` read from runs `i..` of `runs`
    /// on top of `acc`, `written` of its `real_size` bytes read so far:
    /// each non-sparse run gives its clusters, cut at the file size; `None`
    /// when a read would not fit in memory or in the device.
    pub open spec fn bitmap_runs_raw(&self, runs: Seq<Run>, real_size: u64, i: int, written: u64, acc: Seq<u8>) -> Option<
        Seq<u8>,
    >
        decreases runs.len() - i,
    {
        if i < 0 || i >= runs.len() {
            Some(acc)
        } else if runs[i].cluster != SPARSE && written < real_size {
            let chunk = runs[i].length * (self.spec_geom().cluster_size as int);
            let left = real_size - written;
            let emit = if chunk < left { chunk } else { left };
            let off = self.spec_cluster_offset(runs[i].cluster) as int;
            if emit > usize::MAX || off + emit > self.spec_disk().len() {
                None
            } else {
                self.bitmap_runs_raw(
                    runs,
                    real_size,
                    i + 1,
                    (written + emit) as u64,
                    acc + self.spec_disk().subrange(off, off + emit),
                )
            }
        } else {
            self.bitmap_runs_raw(runs, real_size, i + 1, written, acc)
        }
    }

    /// The bytes of `$Bitmap` (record 6), read as the volume reads its
    /// records, when every read inside the device succeeds: its resident
    /// data, or the data its uncompressed runs hold.
    pub open spec fn bitmap_source(&self) -> Option<Seq<u8>> {
        match self.spec_bulk_slot(6, 1, 0) {
            Some(e) => match e.data {
                Some(DataAttrV::Resident(v)) => Some(v),
                Some(DataAttrV::Runs { runs, real_size, compressed }) => if compressed {
                    None
                } else {
                    self.bitmap_runs_raw(runs, real_size, 0, 0, Seq::empty())
                },
                None => None,
            },
            None => None,
        }
    }
}

impl<R: Reader> NtfsVolume<R> {
    /// Best-effort parse of `$Bitmap` (record 6). On failure the bitmap is
    /// left as it was (the empty bitmap counts every cluster as allocated,
    /// which disables stale-file recovery).
    fn load_bitmap(&mut self)
        ensures
            final(self).spec_geom() == old(self).spec_geom(),
            final(self).spec_part_offset() == old(self).spec_part_offset(),
            final(self).spec_disk() == old(self).spec_disk(),
            final(self).spec_mft_runs() == old(self).spec_mft_runs(),
            final(self).spec_mft_real_size() == old(self).spec_mft_real_size(),
            final(self).spec_record_count() == old(self).spec_record_count(),
            final(self).spec_bitmap() == old(self).spec_bitmap() || final(self).spec_bitmap().spec_count()
                == geometry_cluster_count(old(self).spec_geom()),
            final(self).spec_reads_ok() == old(self).spec_reads_ok(),
            old(self).spec_reads_ok() ==> match old(self).bitmap_source() {
                Some(raw) => bitmap_of(final(self).spec_bitmap(), raw, geometry_cluster_count(old(self).spec_geom())),
                None => final(self).spec_bitmap() == old(self).spec_bitmap(),
            },
    {
        proof {
            use_type_invariant(&*self);
        }
        let cs = self.geom.cluster_size as u64;
        let cluster_count = self.geom.total_sectors.wrapping_mul(self.geom.sector_size as u64) / cs;
        let slot6 = self.read_records_bulk(6, 1);
        let entry = match &slot6[0] {
            Some(e) => e,
            None => return,
        };
        let data = match &entry.data {
            Some(d) => d,
            None => return,
        };
        let raw: Vec<u8> = match data {
            DataAttr::Resident(v) => copy_range(v.as_slice(), 0, v.len()),
            DataAttr::Runs { runs, real_size, compressed } => {
                if *compressed {
                    return;
                }
                let mut raw: Vec<u8> = Vec::new();
                let mut written: u64 = 0;
                let mut i: usize = 0;
                assert(self.spec_reads_ok() ==> self.bitmap_source() == self.bitmap_runs_raw(
                    runs@,
                    *real_size,
                    0,
                    0,
                    Seq::empty(),
                ));
                while i < runs.len()
                    invariant
                        i <= runs@.len(),
                        written <= *real_size,
                        cs == self.geom.cluster_size,
                        *self == *old(self),
                        self.spec_reads_ok() ==> self.bitmap_source() == self.bitmap_runs_raw(
                            runs@,
                            *real_size,
                            0,
                            0,
                            Seq::empty(),
                        ),
                        self.spec_reads_ok() ==> self.bitmap_runs_raw(runs@, *real_size, 0, 0, Seq::empty())
                            == self.bitmap_runs_raw(runs@, *real_size, i as int, written, raw@),
                    decreases runs@.len() - i,
                {
                    let r = runs[i];
                    if r.cluster != SPARSE && written < *real_size {
                        let chunk = mul_wide(r.length, cs);
                        let left = *real_size - written;
                        let emit: u64 = if chunk < left as u128 {
                            chunk as u64
                        } else {
                            left
                        };
                        if emit > usize::MAX as u64 {
                            return;
                        }
                        let buf = match self.reader.read_at(self.cluster_to_offset(r.cluster), emit as usize) {
                            Some(b) => b,
                            None => return,
                        };
                        crate::bytes::append_all(&mut raw, buf.as_slice());
                        written += emit;
                    }
                    i += 1;
                }
                raw
            },
        };
        self.bitmap = ClusterBitmap::from_bytes(raw.as_slice(), cluster_count);
    }

    /// Open and validate an NTFS volume whose boot sector is at `part_offset`.
    /// `Read` comes only from a failed read, and a boot sector or `$MFT`
    /// record that lies past the end of the device gives it; with a reader whose reads are
    /// sound and a device that holds the records read, the result is fixed by
    /// `open_error`.
    pub fn open(reader: R, part_offset: u64, sector_size: u16) -> (r: Result<Self, NtfsError>)
        ensures
            part_offset + 512 > reader.disk().len() ==> r == Err::<Self, NtfsError>(NtfsError::Read),
            (boot_geometry(reader.disk(), part_offset, sector_size) matches Some(g) && cluster_offset_at(
                part_offset,
                g.cluster_size as u64,
                g.mft_lcn,
            ) + g.mft_record_size > reader.disk().len()) ==> r == Err::<Self, NtfsError>(NtfsError::Read),
            reader.reads_ok() && open_fits(reader.disk(), part_offset, sector_size) ==> match open_error(
                reader.disk(),
                part_offset,
                sector_size,
            ) {
                Some(e) => r == Err::<Self, NtfsError>(e),
                None => r is Ok,
            },
            r matches Ok(v) ==> {
                &&& boot_geometry(reader.disk(), part_offset, sector_size) == Some(v.spec_geom())
                &&& v.spec_part_offset() == part_offset
                &&& v.spec_disk() == reader.disk()
                &&& v.mft_loaded()
                &&& (v.spec_bitmap().spec_count() == 0 || v.spec_bitmap().spec_count()
                    == geometry_cluster_count(v.spec_geom()))
            },
            r == Err::<Self, NtfsError>(NtfsError::NotNtfs) ==> part_offset + 512 <= reader.disk().len()
                && boot_geometry(reader.disk(), part_offset, sector_size) is None,
            r == Err::<Self, NtfsError>(NtfsError::BadMftRecord) ==> (boot_geometry(
                reader.disk(),
                part_offset,
                sector_size,
            ) matches Some(g) && !spec_apply_fixups(mft_image(reader.disk(), part_offset, g)).0),
            r == Err::<Self, NtfsError>(NtfsError::UnparsableMftRecord) ==> (boot_geometry(
                reader.disk(),
                part_offset,
                sector_size,
            ) matches Some(g) && spec_apply_fixups(mft_image(reader.disk(), part_offset, g)).0
                && record_entry_of(mft_image(reader.disk(), part_offset, g), 0) is None),
            r == Err::<Self, NtfsError>(NtfsError::NoMftData) ==> (boot_geometry(
                reader.disk(),
                part_offset,
                sector_size,
            ) matches Some(g) && record_entry_of(mft_image(reader.disk(), part_offset, g), 0) matches Some(
                e,
            ) && !has_plain_runs(e)),
    {
        let ghost disk = reader.disk();
        let boot = match reader.read_at(part_offset, 512) {
            Some(b) => b,
            None => return Err(NtfsError::Read),
        };
        let geom = match parse_boot_sector(boot.as_slice(), sector_size) {
            Some(g) => g,
            None => return Err(NtfsError::NotNtfs),
        };
        proof {
            lemma_geometry_positive(boot@, sector_size);
        }
        assert(boot_geometry(disk, part_offset, sector_size) == Some(geom));
        let mut vol = NtfsVolume {
            reader,
            part_offset,
            geom,
            mft_runs: Vec::new(),
            mft_real_size: 0,
            record_count: 0,
            bitmap: ClusterBitmap::empty(),
        };
        assert(vol.spec_mft_record_bytes() == mft_image(disk, part_offset, geom));
        match vol.load_mft() {
            Ok(()) => {},
            Err(e) => return Err(e),
        }
        vol.load_bitmap();
        Ok(vol)
    }
}

} // verus!
