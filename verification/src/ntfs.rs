//! NTFS structure pass.
//!
//! Recovers files by parsing the MFT directly: boot sector geometry, the
//! `$MFT` run list, per-record attributes, data-run resolution (which handles
//! fragmentation), `$FILE_NAME` parent chains for exact paths, and LZNT1
//! decompression for compressed files. Deleted files whose records are still
//! present in the MFT are recovered too.

use vstd::prelude::*;
use vstd::arithmetic::power2::{pow2, lemma2_to64, lemma_pow2_unfold};
use vstd::utf8::is_char_boundary;
use vstd::string::StringSliceAdditionalSpecFns;
use crate::text::{chars_of, eq_ic_bytes, lower_byte, push_char};
use crate::bytes::{append_all, copy_range, has_prefix, le16, le32, le64, rd_le16, rd_le32, rd_le64, starts_with};

verus! {

pub const ATTR_STANDARD_INFORMATION: u32 = 0x10;
pub const ATTR_ATTRIBUTE_LIST: u32 = 0x20;
pub const ATTR_FILE_NAME: u32 = 0x30;
pub const ATTR_OBJECT_ID: u32 = 0x40;
pub const ATTR_SECURITY_DESCRIPTOR: u32 = 0x50;
pub const ATTR_VOLUME_NAME: u32 = 0x60;
pub const ATTR_VOLUME_INFORMATION: u32 = 0x70;
pub const ATTR_DATA: u32 = 0x80;
pub const ATTR_INDEX_ROOT: u32 = 0x90;
pub const ATTR_INDEX_ALLOCATION: u32 = 0xA0;
pub const ATTR_BITMAP: u32 = 0xB0;
pub const ATTR_END: u32 = 0xFFFFFFFF;

pub const MFT_RECORD_ROOT: u64 = 5;

/// Cluster number marker for sparse runs (no physical clusters allocated).
pub const SPARSE: u64 = 0xFFFF_FFFF_FFFF_FFFF;

pub const MAX_RECORDS: u64 = 10_000_000;
pub const MAX_PATH_DEPTH: usize = 128;
/// Upper bound on how much of a deleted file's intact head is used as the
/// seed when scanning for a better copy to rebuild it from.
pub const SEED_PREFIX_MAX: u64 = 4096;

/// A contiguous run of clusters. For sparse runs `cluster == SPARSE`.
#[derive(Debug, Clone, Copy, PartialEq, Eq, Structural)]
pub struct Run {
    pub vcn: u64,
    pub cluster: u64,
    pub length: u64,
}

/// Absolute byte range on the scanned device.
#[derive(Debug, Clone, Copy, PartialEq, Eq, Structural)]
pub struct ByteRange {
    pub offset: u64,
    pub size: u64,
}

#[derive(Debug, Clone, Copy, PartialEq, Eq, Structural)]
pub struct Geometry {
    pub sector_size: u16,
    pub cluster_size: u32,
    pub mft_lcn: u64,
    pub mft_record_size: u32,
    pub index_record_size: u32,
    pub total_sectors: u64,
}

// ---------------------------------------------------------------------------
// Little-endian readers
// ---------------------------------------------------------------------------

/// Little-endian `u16` at `off`.
pub fn u16le(b: &[u8], off: usize) -> (r: u16)
    requires
        off + 2 <= b@.len(),
    ensures
        r == le16(b@, off as int),
{
    rd_le16(b, off)
}

/// Little-endian `u32` at `off`.
pub fn u32le(b: &[u8], off: usize) -> (r: u32)
    requires
        off + 4 <= b@.len(),
    ensures
        r == le32(b@, off as int),
{
    rd_le32(b, off)
}

/// Little-endian `u64` at `off`.
pub fn u64le(b: &[u8], off: usize) -> (r: u64)
    requires
        off + 8 <= b@.len(),
    ensures
        r == le64(b@, off as int),
{
    rd_le64(b, off)
}

pub open spec fn pow256(n: nat) -> int
    decreases n,
{
    if n == 0 {
        1
    } else {
        256 * pow256((n - 1) as nat)
    }
}

/// Unsigned little-endian value of the first `n` bytes of `s`.
pub open spec fn le_unsigned(s: Seq<u8>, n: nat) -> int
    decreases n,
{
    if n == 0 {
        0
    } else {
        le_unsigned(s, (n - 1) as nat) + s[n - 1] * pow256((n - 1) as nat)
    }
}

/// Two's-complement value of the first `n` (1..=8) little-endian bytes of `s`.
pub open spec fn le_signed(s: Seq<u8>, n: nat) -> int {
    let u = le_unsigned(s, n);
    if u >= pow256(n) / 2 {
        u - pow256(n)
    } else {
        u
    }
}

proof fn lemma_pow256_pos(n: nat)
    ensures
        pow256(n) >= 1,
    decreases n,
{
    if n > 0 {
        lemma_pow256_pos((n - 1) as nat);
    }
}

proof fn lemma_le_unsigned_bound(s: Seq<u8>, n: nat)
    requires
        n <= s.len(),
    ensures
        0 <= le_unsigned(s, n) < pow256(n),
    decreases n,
{
    if n > 0 {
        lemma_le_unsigned_bound(s, (n - 1) as nat);
        let p = pow256((n - 1) as nat);
        let b = s[n - 1] as int;
        assert(b * p <= 255 * p) by (nonlinear_arith)
            requires
                0 <= b <= 255,
                p >= 0,
        ;
        assert(0 <= b * p) by (nonlinear_arith)
            requires
                0 <= b,
                p >= 0,
        ;
    }
}

/// Signed little-endian value of the `n` (1..=8) bytes at `off`, with sign
/// extension.
pub fn read_signed(b: &[u8], off: usize, n: usize) -> (r: i64)
    requires
        1 <= n <= 8,
        off + n <= b@.len(),
    ensures
        r == le_signed(b@.subrange(off as int, off + n), n as nat),
{
    let _len = b.len();
    let ghost s = b@.subrange(off as int, off + n);
    let mut v: u128 = 0;
    let mut p: u128 = 1;
    let mut i: usize = 0;
    while i < n
        invariant
            1 <= n <= 8,
            off + n <= b@.len(),
            b@.len() <= usize::MAX,
            s == b@.subrange(off as int, off + n),
            i <= n,
            v == le_unsigned(s, i as nat),
            p == pow256(i as nat),
        decreases n - i,
    {
        proof {
            lemma_le_unsigned_bound(s, i as nat);
            reveal_with_fuel(pow256, 9);
            lemma_pow_mono(i as nat, 7);
            let bb = b@[off + i] as int;
            assert(bb * p <= 255 * p) by (nonlinear_arith)
                requires
                    0 <= bb <= 255,
                    p >= 0,
            ;
        }
        let byte = b[off + i] as u128;
        assert(s[i as int] == byte);
        v = v + byte * p;
        p = p * 256;
        i += 1;
    }
    proof {
        lemma_le_unsigned_bound(s, n as nat);
        reveal_with_fuel(pow256, 9);
        lemma_pow_mono(n as nat, 8);
    }
    let half = p / 2;
    if v >= half {
        let d: i128 = (v as i128) - (p as i128);
        d as i64
    } else {
        v as i64
    }
}

proof fn lemma_pow_mono(a: nat, b: nat)
    requires
        a <= b,
    ensures
        pow256(a) <= pow256(b),
    decreases b,
{
    if a < b {
        lemma_pow_mono(a, (b - 1) as nat);
        lemma_pow256_pos((b - 1) as nat);
    }
}

// ---------------------------------------------------------------------------
// Mapping pairs (data runs)
// ---------------------------------------------------------------------------

/// `x` reduced to the `i64` range with two's-complement wrap-around.
pub open spec fn wrap_i64(x: int) -> int {
    if x > 0x7FFF_FFFF_FFFF_FFFF {
        x - 0x1_0000_0000_0000_0000
    } else if x < -0x8000_0000_0000_0000 {
        x + 0x1_0000_0000_0000_0000
    } else {
        x
    }
}

/// `x` (in `0..2^65`) reduced modulo 2^64.
pub open spec fn wrap_u64(x: int) -> int {
    if x >= 0x1_0000_0000_0000_0000 {
        x - 0x1_0000_0000_0000_0000
    } else {
        x
    }
}

/// One decoded mapping-pairs entry.
pub enum MpItem {
    /// End of the list (end of buffer or a zero header).
    Stop,
    /// Malformed header or an entry that overruns the buffer.
    Bad,
    /// A run header with its signed `length`, whether it has no offset field
    /// (`sparse`: the run allocates no clusters), the updated last physical
    /// cluster `prev2` and the index `next` of the following header.
    Item { length: int, sparse: bool, prev2: int, next: int },
}

/// Decodes the entry whose header byte is at `i`, given the previous physical
/// cluster `prev`.
#[verifier::opaque]
pub open spec fn mp_item(data: Seq<u8>, i: int, prev: i64) -> MpItem {
    if i < 0 || i >= data.len() {
        MpItem::Stop
    } else {
        let header = data[i];
        let i1 = i + 1;
        let ls = (header % 16) as int;
        let os = (header / 16) as int;
        if header == 0 {
            MpItem::Stop
        } else if ls == 0 || ls > 8 || os > 8 {
            MpItem::Bad
        } else if i1 + ls + os > data.len() {
            MpItem::Bad
        } else {
            MpItem::Item {
                length: le_signed(data.subrange(i1, i1 + ls), ls as nat),
                sparse: os == 0,
                prev2: if os > 0 {
                    wrap_i64(prev + le_signed(data.subrange(i1 + ls, i1 + ls + os), os as nat))
                } else {
                    prev as int
                },
                next: i1 + ls + os,
            }
        }
    }
}

proof fn lemma_mp_item_facts(data: Seq<u8>, i: int, prev: i64)
    ensures
        mp_item(data, i, prev) matches MpItem::Item { length, prev2, next, .. } ==> (i + 2 <= next
            <= data.len() && -0x8000_0000_0000_0000 <= length <= 0x7FFF_FFFF_FFFF_FFFF
            && -0x8000_0000_0000_0000 <= prev2 <= 0x7FFF_FFFF_FFFF_FFFF),
{
    reveal(mp_item);
    if 0 <= i < data.len() {
        let header = data[i];
        let i1 = i + 1;
        let ls = (header % 16) as int;
        let os = (header / 16) as int;
        if header != 0 && !(ls == 0 || ls > 8 || os > 8) && !(i1 + ls + os > data.len()) {
            lemma_le_signed_range(data.subrange(i1, i1 + ls), ls as nat);
            if os > 0 {
                lemma_le_signed_range(data.subrange(i1 + ls, i1 + ls + os), os as nat);
            }
        }
    }
}

/// The run list decoded from the mapping-pairs bytes of `data` starting at
/// header byte `i`, where `vcn` is the next virtual cluster number and `prev`
/// the last stored physical cluster. A run with no offset field, or with a
/// negative length, is sparse. `None` marks a malformed list.
pub open spec fn spec_mapping_pairs(data: Seq<u8>, i: int, vcn: u64, prev: i64) -> Option<
    Seq<Run>,
>
    decreases data.len() - i,
{
    match mp_item(data, i, prev) {
        MpItem::Stop => Some(Seq::empty()),
        MpItem::Bad => None,
        MpItem::Item { length, sparse, prev2, next } => {
            if next <= i || i < 0 || next > data.len() {
                None
            } else if length > 0 && sparse {
                let run = Run { vcn, cluster: SPARSE, length: length as u64 };
                match spec_mapping_pairs(data, next, wrap_u64(vcn + length) as u64, prev2 as i64) {
                    Some(rest) => Some(seq![run] + rest),
                    None => None,
                }
            } else if length > 0 {
                if prev2 < 0 {
                    None
                } else {
                    let run = Run { vcn, cluster: prev2 as u64, length: length as u64 };
                    match spec_mapping_pairs(data, next, wrap_u64(vcn + length) as u64, prev2 as i64) {
                        Some(rest) => Some(seq![run] + rest),
                        None => None,
                    }
                }
            } else if length < 0 {
                let run = Run { vcn, cluster: SPARSE, length: (-length) as u64 };
                match spec_mapping_pairs(data, next, wrap_u64(vcn - length) as u64, prev2 as i64) {
                    Some(rest) => Some(seq![run] + rest),
                    None => None,
                }
            } else {
                Some(Seq::empty())
            }
        }
    }
}

/// Consecutive runs of a list tile the virtual cluster space: each run starts
/// where the previous one ended (modulo 2^64).
pub open spec fn runs_contiguous(runs: Seq<Run>) -> bool {
    forall|k: int|
        0 <= k < runs.len() - 1 ==> #[trigger] runs[k + 1].vcn == wrap_u64(
            runs[k].vcn + runs[k].length,
        )
}

proof fn lemma_le_signed_range(s: Seq<u8>, n: nat)
    requires
        1 <= n <= 8,
        n <= s.len(),
    ensures
        -0x8000_0000_0000_0000 <= le_signed(s, n) <= 0x7FFF_FFFF_FFFF_FFFF,
{
    lemma_le_unsigned_bound(s, n);
    reveal_with_fuel(pow256, 9);
    lemma_pow_mono(n, 8);
    assert(pow256(n) >= 256) by {
        lemma_pow_mono(1, n);
    }
}

proof fn lemma_cons_shape(run: Run, rest: Seq<Run>)
    requires
        runs_contiguous(rest),
        rest.len() > 0 ==> rest[0].vcn == wrap_u64(run.vcn + run.length),
        run.length > 0,
        forall|k: int| 0 <= k < rest.len() ==> #[trigger] rest[k].length > 0,
    ensures
        runs_contiguous(seq![run] + rest),
        forall|k: int| 0 <= k < (seq![run] + rest).len() ==> #[trigger] (seq![run] + rest)[k].length > 0,
{
    let runs = seq![run] + rest;
    assert(seq![run].len() == 1);
    assert(seq![run][0] == run);
    assert(runs.len() == rest.len() + 1);
    assert(runs[0] == run);
    assert forall|k: int| 0 <= k < runs.len() - 1 implies #[trigger] runs[k + 1].vcn == wrap_u64(
        runs[k].vcn + runs[k].length,
    ) by {
        assert(runs[k + 1] == rest[k]);
        if k > 0 {
            let j = k - 1;
            assert(runs[k] == rest[j]);
            assert(rest[j + 1].vcn == wrap_u64(rest[j].vcn + rest[j].length));
        }
    }
    assert forall|k: int| 0 <= k < runs.len() implies #[trigger] runs[k].length > 0 by {
        if k > 0 {
            assert(runs[k] == rest[k - 1]);
        }
    }
}

proof fn lemma_mapping_pairs_shape(data: Seq<u8>, i: int, vcn: u64, prev: i64)
    ensures
        spec_mapping_pairs(data, i, vcn, prev) matches Some(runs) ==> (runs_contiguous(runs) && (
        runs.len() > 0 ==> runs[0].vcn == vcn) && forall|k: int|
            0 <= k < runs.len() ==> #[trigger] runs[k].length > 0),
    decreases data.len() - i,
{
    lemma_mp_item_facts(data, i, prev);
    match mp_item(data, i, prev) {
        MpItem::Item { length, sparse, prev2, next } => {
            if next > i {
                if length > 0 && sparse {
                    let nv = wrap_u64(vcn + length) as u64;
                    lemma_mapping_pairs_shape(data, next, nv, prev2 as i64);
                    if let Some(rest) = spec_mapping_pairs(data, next, nv, prev2 as i64) {
                        lemma_cons_shape(Run { vcn, cluster: SPARSE, length: length as u64 }, rest);
                    }
                } else if length > 0 && prev2 >= 0 {
                    let nv = wrap_u64(vcn + length) as u64;
                    lemma_mapping_pairs_shape(data, next, nv, prev2 as i64);
                    if let Some(rest) = spec_mapping_pairs(data, next, nv, prev2 as i64) {
                        lemma_cons_shape(Run { vcn, cluster: prev2 as u64, length: length as u64 }, rest);
                    }
                } else if length < 0 {
                    let nv = wrap_u64(vcn - length) as u64;
                    lemma_mapping_pairs_shape(data, next, nv, prev2 as i64);
                    if let Some(rest) = spec_mapping_pairs(data, next, nv, prev2 as i64) {
                        lemma_cons_shape(Run { vcn, cluster: SPARSE, length: (-length) as u64 }, rest);
                    }
                }
            }
        },
        _ => {},
    }
}

proof fn lemma_snoc_assoc(runs: Seq<Run>, run: Run)
    ensures
        forall|rest: Seq<Run>| #![trigger runs + (seq![run] + rest)] runs + (seq![run] + rest) == runs.push(run) + rest,
{
    assert forall|rest: Seq<Run>| #![trigger runs + (seq![run] + rest)] runs + (seq![run] + rest) == runs.push(run) + rest by {
        assert(runs + (seq![run] + rest) =~= runs.push(run) + rest);
    }
}

/// Decodes the mapping-pairs entry whose header is at `i`: `(stop, bad,
/// length, prev2, next)` mirroring `mp_item`.
fn mp_decode(data: &[u8], i: usize, prev: i64) -> (r: (bool, bool, i64, i64, usize, bool))
    ensures
        r.0 ==> mp_item(data@, i as int, prev) == MpItem::Stop,
        !r.0 && r.1 ==> mp_item(data@, i as int, prev) == MpItem::Bad,
        !r.0 && !r.1 ==> mp_item(data@, i as int, prev) == (MpItem::Item {
            length: r.2 as int,
            sparse: r.5,
            prev2: r.3 as int,
            next: r.4 as int,
        }),
        !r.0 && !r.1 ==> i < r.4 <= data@.len(),
{
    reveal(mp_item);
    let len = data.len();
    if i >= len {
        return (true, false, 0, 0, 0, false);
    }
    let header = data[i];
    let i1 = i + 1;
    if header == 0 {
        return (true, false, 0, 0, 0, false);
    }
    let len_size = (header % 16) as usize;
    let off_size = (header / 16) as usize;
    if len_size == 0 || len_size > 8 || off_size > 8 {
        return (false, true, 0, 0, 0, false);
    }
    if len_size + off_size > len - i1 {
        return (false, true, 0, 0, 0, false);
    }
    let length = read_signed(data, i1, len_size);
    let mut prev2 = prev;
    if off_size > 0 {
        let delta = read_signed(data, i1 + len_size, off_size);
        prev2 = prev.wrapping_add(delta);
    }
    (false, false, length, prev2, i1 + len_size + off_size, off_size == 0)
}

/// Decode an NTFS mapping-pairs run list. `start` points at the first header
/// byte (attribute field `mapping_pairs_offset`).
pub fn parse_mapping_pairs(data: &[u8], start: usize) -> (r: Option<Vec<Run>>)
    ensures
        r matches Some(v) ==> spec_mapping_pairs(data@, start as int, 0, 0) == Some(v@),
        r is None ==> spec_mapping_pairs(data@, start as int, 0, 0) is None,
        r matches Some(v) ==> runs_contiguous(v@) && (v@.len() > 0 ==> v@[0].vcn == 0)
            && forall|k: int| 0 <= k < v@.len() ==> #[trigger] v@[k].length > 0,
{
    let len = data.len();
    let mut runs: Vec<Run> = Vec::new();
    let mut vcn: u64 = 0;
    let mut prev: i64 = 0;
    let mut i = start;
    proof {
        lemma_mapping_pairs_shape(data@, start as int, 0, 0);
        assert forall|rest: Seq<Run>| #![trigger Seq::<Run>::empty() + rest] Seq::<Run>::empty() + rest == rest by {
            assert(Seq::<Run>::empty() + rest =~= rest);
        }
    }
    loop
        invariant
            len == data@.len(),
            start <= i <= len || i == start,
            spec_mapping_pairs(data@, start as int, 0, 0) == match spec_mapping_pairs(data@, i as int, vcn, prev) {
                Some(rest) => Some(runs@ + rest),
                None => None::<Seq<Run>>,
            },
        decreases len - i,
    {
        let ghost i0 = i as int;
        let ghost vcn0 = vcn;
        let ghost prev0 = prev;
        let (stop, bad, length, prev2, next, sparse) = mp_decode(data, i, prev);
        if stop {
            assert(runs@ + Seq::<Run>::empty() =~= runs@);
            proof {
                lemma_mapping_pairs_shape(data@, start as int, 0, 0);
            }
            return Some(runs);
        }
        if bad {
            return None;
        }
        prev = prev2;
        i = next;
        if length > 0 && sparse {
            let run = Run { vcn, cluster: SPARSE, length: length as u64 };
            vcn = vcn.wrapping_add(length as u64);
            proof {
                assert(spec_mapping_pairs(data@, i0, vcn0, prev0) == match spec_mapping_pairs(data@, i as int, vcn, prev) {
                    Some(rest) => Some(seq![run] + rest),
                    None => None::<Seq<Run>>,
                });
                lemma_snoc_assoc(runs@, run);
            }
            runs.push(run);
        } else if length > 0 {
            if prev < 0 {
                return None;
            }
            let run = Run { vcn, cluster: prev as u64, length: length as u64 };
            vcn = vcn.wrapping_add(length as u64);
            proof {
                assert(spec_mapping_pairs(data@, i0, vcn0, prev0) == match spec_mapping_pairs(data@, i as int, vcn, prev) {
                    Some(rest) => Some(seq![run] + rest),
                    None => None::<Seq<Run>>,
                });
                lemma_snoc_assoc(runs@, run);
            }
            runs.push(run);
        } else if length < 0 {
            let neg: i128 = -(length as i128);
            let run = Run { vcn, cluster: SPARSE, length: neg as u64 };
            vcn = vcn.wrapping_add(neg as u64);
            proof {
                assert(spec_mapping_pairs(data@, i0, vcn0, prev0) == match spec_mapping_pairs(data@, i as int, vcn, prev) {
                    Some(rest) => Some(seq![run] + rest),
                    None => None::<Seq<Run>>,
                });
                lemma_snoc_assoc(runs@, run);
            }
            runs.push(run);
        } else {
            assert(runs@ + Seq::<Run>::empty() =~= runs@);
            proof {
                lemma_mapping_pairs_shape(data@, start as int, 0, 0);
            }
            return Some(runs);
        }
    }
}

// ---------------------------------------------------------------------------
// Boot sector
// ---------------------------------------------------------------------------

/// The `i8` read from the byte `b`.
pub open spec fn as_i8(b: u8) -> int {
    if b >= 128 {
        b - 256
    } else {
        b as int
    }
}

/// Record size encoded by the "clusters per record" byte: a positive value
/// counts clusters, a negative value `-n` means `2^n` bytes.
pub open spec fn spec_record_size(b: int, cluster_size: u32) -> Option<u32> {
    if b > 0 {
        if b * cluster_size <= 0xFFFF_FFFF {
            Some((b * cluster_size) as u32)
        } else {
            None
        }
    } else if b < 0 {
        if -b >= 32 {
            None
        } else {
            Some(pow2((-b) as nat) as u32)
        }
    } else {
        None
    }
}

proof fn lemma_pow2_bound(n: nat)
    requires
        n < 32,
    ensures
        1 <= pow2(n) <= 0x8000_0000,
{
    lemma2_to64();
    lemma_pow2_strictly_increases_le(n, 31);
    vstd::arithmetic::power2::lemma_pow2_pos(n);
}

proof fn lemma_pow2_strictly_increases_le(a: nat, b: nat)
    requires
        a <= b,
    ensures
        pow2(a) <= pow2(b),
{
    if a < b {
        vstd::arithmetic::power2::lemma_pow2_strictly_increases(a, b);
    }
}

pub fn record_size_from_byte(b: i8, cluster_size: u32) -> (r: Option<u32>)
    ensures
        r == spec_record_size(b as int, cluster_size),
{
    if b > 0 {
        (b as u32).checked_mul(cluster_size)
    } else if b < 0 {
        let shift = (-(b as i32)) as u32;
        if shift >= 32 {
            None
        } else {
            let mut v: u32 = 1;
            let mut k: u32 = 0;
            proof {
                lemma2_to64();
            }
            while k < shift
                invariant
                    k <= shift < 32,
                    v == pow2(k as nat),
                decreases shift - k,
            {
                proof {
                    lemma_pow2_bound(k as nat);
                    lemma_pow2_bound((k + 1) as nat);
                    lemma_pow2_unfold((k + 1) as nat);
                }
                v = v * 2;
                k += 1;
            }
            Some(v)
        }
    } else {
        None
    }
}

/// The OEM id of an NTFS boot sector, `"NTFS    "`.
pub open spec fn ntfs_oem() -> Seq<u8> {
    seq![0x4Eu8, 0x54, 0x46, 0x53, 0x20, 0x20, 0x20, 0x20]
}

pub open spec fn is_pow2_u8(x: u8) -> bool {
    x == 1 || x == 2 || x == 4 || x == 8 || x == 16 || x == 32 || x == 64 || x == 128
}

/// The geometry an NTFS boot sector declares, or `None` when `boot` is not a
/// usable NTFS boot sector for the given sector size.
pub open spec fn spec_parse_boot_sector(boot: Seq<u8>, sector_size: u16) -> Option<Geometry> {
    if boot.len() < 0x50 || boot.subrange(3, 11) != ntfs_oem() {
        None
    } else {
        let bps = le16(boot, 0x0B);
        let spc = boot[0x0D];
        if bps != sector_size || bps == 0 || spc == 0 || spc > 128 || !is_pow2_u8(spc) {
            None
        } else {
            let cluster_size = (bps * spc) as u32;
            let total_sectors = le64(boot, 0x28) as u64;
            let mft_lcn = le64(boot, 0x30) as u64;
            if mft_lcn == 0 || total_sectors == 0 {
                None
            } else {
                match (
                    spec_record_size(as_i8(boot[0x40]), cluster_size),
                    spec_record_size(as_i8(boot[0x44]), cluster_size),
                ) {
                    (Some(mrs), Some(irs)) => Some(
                        Geometry {
                            sector_size: bps as u16,
                            cluster_size,
                            mft_lcn,
                            mft_record_size: mrs,
                            index_record_size: irs,
                            total_sectors,
                        },
                    ),
                    _ => None,
                }
            }
        }
    }
}

/// An NTFS boot sector is accepted for every cluster of a power-of-two
/// number of sectors, from 1 to 128 (a 4K-native disk has one sector per
/// cluster): with the NTFS OEM id, the expected bytes per sector, a
/// non-zero MFT cluster and sector count, and record sizes that can be
/// encoded, the geometry is the one the fields give, its cluster size being
/// bytes per sector times sectors per cluster.
pub proof fn lemma_boot_sector_accepted(boot: Seq<u8>, sector_size: u16)
    requires
        boot.len() >= 0x50,
        boot.subrange(3, 11) == seq![0x4Eu8, 0x54, 0x46, 0x53, 0x20, 0x20, 0x20, 0x20],
        le16(boot, 0x0B) == sector_size,
        sector_size > 0,
        boot[0x0D] == 1 || boot[0x0D] == 2 || boot[0x0D] == 4 || boot[0x0D] == 8 || boot[0x0D] == 16
            || boot[0x0D] == 32 || boot[0x0D] == 64 || boot[0x0D] == 128,
        le64(boot, 0x28) != 0,
        le64(boot, 0x30) != 0,
        spec_record_size(as_i8(boot[0x40]), (sector_size * boot[0x0D]) as u32) is Some,
        spec_record_size(as_i8(boot[0x44]), (sector_size * boot[0x0D]) as u32) is Some,
    ensures
        spec_parse_boot_sector(boot, sector_size) matches Some(g) && {
            &&& g.sector_size == sector_size
            &&& g.cluster_size == sector_size * boot[0x0D]
            &&& g.total_sectors == le64(boot, 0x28)
            &&& g.mft_lcn == le64(boot, 0x30)
            &&& Some(g.mft_record_size) == spec_record_size(as_i8(boot[0x40]), g.cluster_size)
            &&& Some(g.index_record_size) == spec_record_size(as_i8(boot[0x44]), g.cluster_size)
        },
{
    assert(ntfs_oem() =~= seq![0x4Eu8, 0x54, 0x46, 0x53, 0x20, 0x20, 0x20, 0x20]);
    assert(sector_size * boot[0x0D] <= 0xFFFF * 128) by (nonlinear_arith)
        requires
            sector_size <= 0xFFFF,
            boot[0x0D] <= 128,
    ;
}

/// A boot sector is refused when it lacks the NTFS OEM id, when its bytes
/// per sector differ from the expected sector size, or when its sectors per
/// cluster is not a power of two from 1 to 128.
pub proof fn lemma_boot_sector_refused(boot: Seq<u8>, sector_size: u16)
    requires
        boot.len() >= 0x50,
        boot.subrange(3, 11) != seq![0x4Eu8, 0x54, 0x46, 0x53, 0x20, 0x20, 0x20, 0x20]
            || le16(boot, 0x0B) != sector_size
            || !(boot[0x0D] == 1 || boot[0x0D] == 2 || boot[0x0D] == 4 || boot[0x0D] == 8 || boot[0x0D] == 16
            || boot[0x0D] == 32 || boot[0x0D] == 64 || boot[0x0D] == 128),
    ensures
        spec_parse_boot_sector(boot, sector_size) is None,
{
    assert(ntfs_oem() =~= seq![0x4Eu8, 0x54, 0x46, 0x53, 0x20, 0x20, 0x20, 0x20]);
}

/// A geometry read from a boot sector has non-empty clusters and records.
pub proof fn lemma_geometry_positive(boot: Seq<u8>, sector_size: u16)
    requires
        spec_parse_boot_sector(boot, sector_size) is Some,
    ensures
        spec_parse_boot_sector(boot, sector_size)->0.cluster_size > 0,
        spec_parse_boot_sector(boot, sector_size)->0.mft_record_size > 0,
{
    let bps = le16(boot, 0x0B);
    let spc = boot[0x0D];
    assert(bps * spc > 0 && bps * spc <= 0xFFFF * 128) by (nonlinear_arith)
        requires
            1 <= bps <= 0xFFFF,
            1 <= spc <= 128,
    ;
    let cs = (bps * spc) as u32;
    let b = as_i8(boot[0x40]);
    if b > 0 {
        assert(b * cs > 0) by (nonlinear_arith)
            requires
                b > 0,
                cs > 0,
        ;
    } else if b < 0 && -b < 32 {
        lemma_pow2_bound((-b) as nat);
    }
}

/// The byte `b` reinterpreted as a two's-complement `i8`.
fn byte_as_i8(b: u8) -> (r: i8)
    ensures
        r == as_i8(b),
{
    if b >= 128 {
        ((b as i16) - 256) as i8
    } else {
        b as i8
    }
}

/// Parse the NTFS boot sector and derive geometry.
pub fn parse_boot_sector(boot: &[u8], sector_size: u16) -> (r: Option<Geometry>)
    ensures
        r == spec_parse_boot_sector(boot@, sector_size),
{
    let oem: [u8; 8] = [0x4E, 0x54, 0x46, 0x53, 0x20, 0x20, 0x20, 0x20];
    assert(oem@ == ntfs_oem());
    if boot.len() < 0x50 || !crate::bytes::bytes_at(boot, 3, &oem) {
        return None;
    }
    let bps = u16le(boot, 0x0B);
    let spc = boot[0x0D];
    let pow2_spc = spc == 1 || spc == 2 || spc == 4 || spc == 8 || spc == 16 || spc == 32
        || spc == 64 || spc == 128;
    if bps != sector_size || bps == 0 || spc == 0 || spc > 128 || !pow2_spc {
        return None;
    }
    assert(bps * spc <= 0xFFFF * 128) by (nonlinear_arith)
        requires
            bps <= 0xFFFF,
            spc <= 128,
    ;
    let cluster_size = (bps as u32) * (spc as u32);
    let total_sectors = u64le(boot, 0x28);
    let mft_lcn = u64le(boot, 0x30);
    if mft_lcn == 0 || total_sectors == 0 {
        return None;
    }
    let cpf = byte_as_i8(boot[0x40]);
    let cpi = byte_as_i8(boot[0x44]);
    let mft_record_size = match record_size_from_byte(cpf, cluster_size) {
        Some(v) => v,
        None => return None,
    };
    let index_record_size = match record_size_from_byte(cpi, cluster_size) {
        Some(v) => v,
        None => return None,
    };
    Some(
        Geometry {
            sector_size: bps,
            cluster_size,
            mft_lcn,
            mft_record_size,
            index_record_size,
            total_sectors,
        },
    )
}

// ---------------------------------------------------------------------------
// Update sequence array (fixups)
// ---------------------------------------------------------------------------

/// Applies the fixups for sectors `i..count-1` to `rec`, where `usa` is the
/// update sequence number and the saved sector ends follow it at `usa_off`.
/// Returns whether every sector end matched and the resulting bytes.
pub open spec fn fixup_from(rec: Seq<u8>, usa_off: int, count: int, usa: int, i: int) -> (bool, Seq<u8>)
    decreases count - i,
{
    if i < 0 || i >= count - 1 {
        (true, rec)
    } else {
        let se = (i + 1) * 512 - 2;
        if se + 2 > rec.len() {
            (true, rec)
        } else {
            let saved = le16(rec, usa_off + 2 + i * 2);
            let current = le16(rec, se);
            if current != usa && current != saved {
                (false, rec)
            } else {
                fixup_from(
                    rec.update(se, (saved % 256) as u8).update(se + 1, (saved / 256) as u8),
                    usa_off,
                    count,
                    usa,
                    i + 1,
                )
            }
        }
    }
}

/// The effect of applying the update sequence array of `rec`: whether the
/// record is consistent, and the record bytes afterwards.
pub open spec fn spec_apply_fixups(rec: Seq<u8>) -> (bool, Seq<u8>) {
    if rec.len() < 0x30 {
        (false, rec)
    } else {
        let usa_off = le16(rec, 0x04);
        let count = le16(rec, 0x06);
        if count < 2 || usa_off + count * 2 > rec.len() {
            (false, rec)
        } else {
            fixup_from(rec, usa_off, count, le16(rec, usa_off), 0)
        }
    }
}

/// Apply the update sequence array (fixup) to a record. On disk the last two
/// bytes of every 512-byte sector have been overwritten with the raw
/// signature; the USA array holds the true values, which are restored. Accepts
/// both written-out (sector ends match the signature) and already-restored
/// (sector ends match the saved value) records. Returns false for a corrupt
/// record.
pub fn apply_fixups(rec: &mut Vec<u8>) -> (r: bool)
    ensures
        (r, final(rec)@) == spec_apply_fixups(old(rec)@),
{
    let len = rec.len();
    if len < 0x30 {
        return false;
    }
    let usa_offset = u16le(rec.as_slice(), 0x04) as usize;
    let usa_count = u16le(rec.as_slice(), 0x06) as usize;
    if usa_count < 2 || usa_offset + usa_count * 2 > len {
        return false;
    }
    let usa = u16le(rec.as_slice(), usa_offset);
    let mut i: usize = 0;
    while i < usa_count - 1
        invariant
            len == rec@.len() == old(rec)@.len(),
            2 <= usa_count <= 0xFFFF,
            usa_offset + usa_count * 2 <= len,
            i <= usa_count - 1,
            spec_apply_fixups(old(rec)@) == fixup_from(rec@, usa_offset as int, usa_count as int, usa as int, i as int),
        decreases usa_count - 1 - i,
    {
        let sector_end = (i + 1) * 512 - 2;
        if sector_end + 2 > len {
            return true;
        }
        let saved = u16le(rec.as_slice(), usa_offset + 2 + i * 2);
        let current = u16le(rec.as_slice(), sector_end);
        if current != usa && current != saved {
            return false;
        }
        rec.set(sector_end, (saved % 256) as u8);
        rec.set(sector_end + 1, (saved / 256) as u8);
        i += 1;
    }
    true
}

/// Whether byte `p` of a record of `len` bytes is one of the two last bytes
/// of a sector `j` with `i <= j < count - 1` that lies wholly in the record:
/// the bytes that the fixups from sector `i` on may rewrite.
pub open spec fn fixup_byte(p: int, i: int, count: int, len: int) -> bool {
    &&& p >= 0
    &&& p % 512 >= 510
    &&& i <= p / 512 < count - 1
    &&& (p / 512 + 1) * 512 <= len
}

/// Whether the update sequence array of `rec` lies apart from every sector
/// end that its fixups rewrite.
pub open spec fn fixups_apart(rec: Seq<u8>) -> bool {
    let usa_off = le16(rec, 0x04);
    let count = le16(rec, 0x06);
    forall|p: int| usa_off <= p < usa_off + count * 2 ==> !fixup_byte(p, 0, count, rec.len() as int)
}

proof fn lemma_sector_end_bytes(i: int)
    requires
        i >= 0,
    ensures
        (512 * i + 510) % 512 == 510,
        (512 * i + 510) / 512 == i,
        (512 * i + 511) % 512 == 511,
        (512 * i + 511) / 512 == i,
{
    assert((512 * i + 510) % 512 == 510 && (512 * i + 510) / 512 == i) by (nonlinear_arith)
        requires
            i >= 0,
    ;
    assert((512 * i + 511) % 512 == 511 && (512 * i + 511) / 512 == i) by (nonlinear_arith)
        requires
            i >= 0,
    ;
}

/// The fixups from sector `i` on keep the length and change no byte but
/// the sector ends they rewrite.
proof fn lemma_fixup_frame(rec: Seq<u8>, usa_off: int, count: int, usa: int, i: int)
    requires
        i >= 0,
    ensures
        fixup_from(rec, usa_off, count, usa, i).1.len() == rec.len(),
        forall|p: int|
            0 <= p < rec.len() && !fixup_byte(p, i, count, rec.len() as int) ==> #[trigger] fixup_from(
                rec,
                usa_off,
                count,
                usa,
                i,
            ).1[p] == rec[p],
    decreases count - i,
{
    if i >= count - 1 {
    } else {
        let se = (i + 1) * 512 - 2;
        if se + 2 > rec.len() {
        } else {
            let saved = le16(rec, usa_off + 2 + i * 2);
            let current = le16(rec, se);
            if current != usa && current != saved {
            } else {
                let next = rec.update(se, (saved % 256) as u8).update(se + 1, (saved / 256) as u8);
                lemma_fixup_frame(next, usa_off, count, usa, i + 1);
                lemma_sector_end_bytes(i);
                assert forall|p: int|
                    0 <= p < rec.len() && !fixup_byte(p, i, count, rec.len() as int) implies #[trigger] fixup_from(
                    rec,
                    usa_off,
                    count,
                    usa,
                    i,
                ).1[p] == rec[p] by {
                    assert(p != se && p != se + 1);
                    assert(!fixup_byte(p, i + 1, count, rec.len() as int));
                }
            }
        }
    }
}

/// Once the fixups from sector `i` on succeeded, running them again over
/// their result changes nothing, as long as the saved sector ends lie apart
/// from the sector ends.
proof fn lemma_fixup_again(rec: Seq<u8>, usa_off: int, count: int, usa: int, i: int)
    requires
        i >= 0,
        0 <= usa_off,
        usa_off + count * 2 <= rec.len(),
        forall|p: int| usa_off <= p < usa_off + count * 2 ==> !fixup_byte(p, 0, count, rec.len() as int),
        fixup_from(rec, usa_off, count, usa, i).0,
    ensures
        fixup_from(fixup_from(rec, usa_off, count, usa, i).1, usa_off, count, usa, i) == fixup_from(
            rec,
            usa_off,
            count,
            usa,
            i,
        ),
    decreases count - i,
{
    let out = fixup_from(rec, usa_off, count, usa, i).1;
    lemma_fixup_frame(rec, usa_off, count, usa, i);
    if i >= count - 1 {
    } else {
        let se = (i + 1) * 512 - 2;
        if se + 2 > rec.len() {
        } else {
            let saved = le16(rec, usa_off + 2 + i * 2);
            let next = rec.update(se, (saved % 256) as u8).update(se + 1, (saved / 256) as u8);
            assert(next.len() == rec.len());
            lemma_fixup_again(next, usa_off, count, usa, i + 1);
            lemma_fixup_frame(next, usa_off, count, usa, i + 1);
            lemma_sector_end_bytes(i);
            // the saved value is read from the array, which no fixup touches
            let q = usa_off + 2 + i * 2;
            assert(!fixup_byte(q, 0, count, rec.len() as int));
            assert(!fixup_byte(q + 1, 0, count, rec.len() as int));
            assert(!fixup_byte(q, i + 1, count, rec.len() as int));
            assert(!fixup_byte(q + 1, i + 1, count, rec.len() as int));
            assert(out[q] == next[q] && out[q + 1] == next[q + 1]);
            assert(le16(out, q) == saved);
            // this sector's end already holds the saved value
            assert(!fixup_byte(se, i + 1, count, rec.len() as int));
            assert(!fixup_byte(se + 1, i + 1, count, rec.len() as int));
            assert(out[se] == next[se] && out[se + 1] == next[se + 1]);
            assert(0 <= saved < 65536);
            assert(le16(out, se) == saved);
            let out2 = out.update(se, (saved % 256) as u8).update(se + 1, (saved / 256) as u8);
            assert(out2 =~= out);
        }
    }
}

/// Fixups keep the record's length and, whether they succeed or not, change
/// no byte but the last two of the sectors that the update sequence count
/// covers.
pub proof fn lemma_apply_fixups_frame(rec: Seq<u8>)
    ensures
        spec_apply_fixups(rec).1.len() == rec.len(),
        forall|p: int|
            0 <= p < rec.len() && !fixup_byte(p, 0, le16(rec, 0x06), rec.len() as int) ==> #[trigger] spec_apply_fixups(
                rec,
            ).1[p] == rec[p],
{
    if rec.len() >= 0x30 {
        let usa_off = le16(rec, 0x04);
        let count = le16(rec, 0x06);
        if !(count < 2 || usa_off + count * 2 > rec.len()) {
            lemma_fixup_frame(rec, usa_off, count, le16(rec, usa_off), 0);
        }
    }
}

/// Fixups can be applied again: a record whose fixups were applied is
/// accepted a second time and left as it was, provided its update sequence
/// array lies apart from the sector ends that the fixups rewrite.
pub proof fn lemma_apply_fixups_twice(rec: Seq<u8>)
    requires
        spec_apply_fixups(rec).0,
        fixups_apart(rec),
    ensures
        spec_apply_fixups(spec_apply_fixups(rec).1) == spec_apply_fixups(rec),
{
    let usa_off = le16(rec, 0x04);
    let count = le16(rec, 0x06);
    let usa = le16(rec, usa_off);
    let out = spec_apply_fixups(rec).1;
    lemma_fixup_frame(rec, usa_off, count, usa, 0);
    lemma_fixup_again(rec, usa_off, count, usa, 0);
    assert(!fixup_byte(4, 0, count, rec.len() as int));
    assert(!fixup_byte(5, 0, count, rec.len() as int));
    assert(!fixup_byte(6, 0, count, rec.len() as int));
    assert(!fixup_byte(7, 0, count, rec.len() as int));
    assert(le16(out, 0x04) == usa_off);
    assert(le16(out, 0x06) == count);
    assert(!fixup_byte(usa_off, 0, count, rec.len() as int));
    assert(!fixup_byte(usa_off + 1, 0, count, rec.len() as int));
    assert(le16(out, usa_off) == usa);
}

// ---------------------------------------------------------------------------
// Cluster allocation bitmap
// ---------------------------------------------------------------------------

/// Whether bit `k` (LSB first) of `b` is set.
pub open spec fn bit_set(b: u8, k: u8) -> bool {
    (b >> k) & 1u8 == 1u8
}

/// Allocated-cluster set parsed from the `$Bitmap` file (MFT record 6).
/// Used to tell whether a deleted file's runs still point at untouched
/// (unallocated) clusters or were overwritten by newer data.
#[derive(Debug, Clone)]
pub struct ClusterBitmap {
    /// One bit per cluster, LSB first; bits past `cluster_count` are ignored.
    bits: Vec<u8>,
    pub cluster_count: u64,
}

impl ClusterBitmap {
    /// Number of clusters the bitmap covers.
    pub fn cluster_count(&self) -> (r: u64)
        ensures
            r == self.spec_count(),
    {
        self.cluster_count
    }

    /// Whether cluster `c` counts as allocated: every cluster outside the
    /// volume does, and inside it the stored bit decides (missing bits are
    /// free).
    pub closed spec fn spec_allocated(&self, c: int) -> bool {
        c >= self.cluster_count || (0 <= c && c / 8 < self.bits@.len() && bit_set(
            self.bits@[c / 8],
            (c % 8) as u8,
        ))
    }

    /// The raw bitmap bytes kept.
    pub closed spec fn spec_bits(&self) -> Seq<u8> {
        self.bits@
    }

    /// Number of clusters the bitmap covers.
    pub closed spec fn spec_count(&self) -> u64 {
        self.cluster_count
    }

    /// An empty bitmap of a zero-cluster volume: every cluster is allocated.
    pub fn empty() -> (r: Self)
        ensures
            r.spec_count() == 0,
            forall|c: int| 0 <= c ==> #[trigger] r.spec_allocated(c),
    {
        ClusterBitmap { bits: Vec::new(), cluster_count: 0 }
    }

    /// Build from raw `$Bitmap` payload bytes. Bits beyond the cluster count
    /// are ignored.
    pub fn from_bytes(bytes: &[u8], cluster_count: u64) -> (r: Self)
        ensures
            r.spec_count() == cluster_count,
            forall|c: int|
                0 <= c ==> #[trigger] r.spec_allocated(c) == (c >= cluster_count || (c / 8
                    < bytes@.len() && bit_set(bytes@[c / 8], (c % 8) as u8))),
    {
        let max_byte: u64 = cluster_count / 8 + if cluster_count % 8 == 0 { 0 } else { 1 };
        let take: usize = if (bytes.len() as u64) < max_byte {
            bytes.len()
        } else {
            max_byte as usize
        };
        let bits = copy_range(bytes, 0, take);
        let r = ClusterBitmap { bits, cluster_count };
        assert forall|c: int| 0 <= c implies #[trigger] r.spec_allocated(c) == (c >= cluster_count
            || (c / 8 < bytes@.len() && bit_set(bytes@[c / 8], (c % 8) as u8))) by {
            if c < cluster_count {
                assert(c / 8 < max_byte);
            }
        }
        r
    }

    pub fn is_allocated(&self, cluster: u64) -> (r: bool)
        ensures
            r == self.spec_allocated(cluster as int),
    {
        if cluster >= self.cluster_count {
            return true;
        }
        let idx = cluster / 8;
        if idx >= self.bits.len() as u64 {
            return false;
        }
        let b = self.bits[idx as usize];
        let k = (cluster % 8) as u8;
        (b >> k) & 1u8 == 1u8
    }
}

// ---------------------------------------------------------------------------
// MFT records and attributes
// ---------------------------------------------------------------------------

/// The un-named $DATA payload of a file record.
#[derive(Debug, Clone)]
pub enum DataAttr {
    Resident(Vec<u8>),
    /// Non-resident. `compressed` selects LZNT1 decoding of the run data.
    Runs { runs: Vec<Run>, real_size: u64, compressed: bool },
}

/// Mathematical value of a `DataAttr`.
pub enum DataAttrV {
    Resident(Seq<u8>),
    Runs { runs: Seq<Run>, real_size: u64, compressed: bool },
}

impl View for DataAttr {
    type V = DataAttrV;

    open spec fn view(&self) -> DataAttrV {
        match self {
            DataAttr::Resident(v) => DataAttrV::Resident(v@),
            DataAttr::Runs { runs, real_size, compressed } => DataAttrV::Runs {
                runs: runs@,
                real_size: *real_size,
                compressed: *compressed,
            },
        }
    }
}

/// Logical size of the payload a `DataAttrV` describes.
pub open spec fn data_real_size(d: DataAttrV) -> int {
    match d {
        DataAttrV::Resident(v) => v.len() as int,
        DataAttrV::Runs { real_size, .. } => real_size as int,
    }
}

impl DataAttr {
    pub fn real_size(&self) -> (r: u64)
        ensures
            r == data_real_size(self@),
    {
        match self {
            DataAttr::Resident(v) => v.len() as u64,
            DataAttr::Runs { real_size, .. } => *real_size,
        }
    }
}

/// Parsed MFT record entry used by the recovery pass.
pub struct MftEntry {
    pub record: u64,
    pub in_use: bool,
    pub is_dir: bool,
    pub parent: u64,
    pub name: String,
    pub data: Option<DataAttr>,
    /// All non-resident runs of every attribute (for used-space marking).
    pub used_runs: Vec<Run>,
}

/// Mathematical value of an `MftEntry`.
pub struct MftEntryV {
    pub record: u64,
    pub in_use: bool,
    pub is_dir: bool,
    pub parent: u64,
    pub name: Seq<char>,
    pub data: Option<DataAttrV>,
    pub used_runs: Seq<Run>,
}

pub open spec fn opt_data_view(d: Option<DataAttr>) -> Option<DataAttrV> {
    match d {
        Some(x) => Some(x@),
        None => None,
    }
}

impl View for MftEntry {
    type V = MftEntryV;

    open spec fn view(&self) -> MftEntryV {
        MftEntryV {
            record: self.record,
            in_use: self.in_use,
            is_dir: self.is_dir,
            parent: self.parent,
            name: self.name@,
            data: opt_data_view(self.data),
            used_runs: self.used_runs@,
        }
    }
}

/// UTF-16 decoding with each unpaired surrogate replaced by U+FFFD.
pub open spec fn utf16_decode(u: Seq<u16>) -> Seq<char>
    decreases u.len(),
{
    if u.len() == 0 {
        Seq::empty()
    } else if u[0] < 0xD800 || u[0] > 0xDFFF {
        seq![u[0] as char] + utf16_decode(u.drop_first())
    } else if u[0] <= 0xDBFF && u.len() >= 2 && 0xDC00 <= u[1] <= 0xDFFF {
        seq![(0x10000 + (u[0] - 0xD800) * 0x400 + (u[1] - 0xDC00)) as char] + utf16_decode(
            u.subrange(2, u.len() as int),
        )
    } else {
        seq!['\u{FFFD}'] + utf16_decode(u.drop_first())
    }
}

/// The little-endian 16-bit units of `s` (a trailing odd byte is dropped).
pub open spec fn utf16_units(s: Seq<u8>) -> Seq<u16> {
    Seq::new(s.len() / 2, |i: int| le16(s, 2 * i) as u16)
}

/// `String::from_utf16_lossy`: std documents it as decoding UTF-16 and
/// replacing invalid data (unpaired surrogates) with U+FFFD, which is what
/// `utf16_decode` states.
#[verifier::external_body]
fn string_from_utf16_lossy(units: &[u16]) -> (r: String)
    ensures
        r@ == utf16_decode(units@),
{
    String::from_utf16_lossy(units)
}

/// Decodes UTF-16LE bytes (unpaired surrogates become U+FFFD).
pub fn decode_utf16le(bytes: &[u8]) -> (r: String)
    ensures
        r@ == utf16_decode(utf16_units(bytes@)),
{
    let mut units: Vec<u16> = Vec::new();
    let len = bytes.len();
    let n = len / 2;
    let mut i: usize = 0;
    while i < n
        invariant
            len == bytes@.len(),
            n == bytes@.len() / 2,
            i <= n,
            units@ == utf16_units(bytes@).subrange(0, i as int),
        decreases n - i,
    {
        let u = u16le(bytes, 2 * i);
        units.push(u);
        i += 1;
        assert(units@ =~= utf16_units(bytes@).subrange(0, i as int));
    }
    assert(units@ =~= utf16_units(bytes@));
    string_from_utf16_lossy(units.as_slice())
}

/// The `$FILE` record signature.
pub open spec fn mft_magic() -> Seq<u8> {
    seq![0x46u8, 0x49, 0x4C, 0x45]
}

/// What the attribute walk of a record has gathered so far.
pub struct AttrState {
    pub parent: u64,
    pub name: Option<Seq<char>>,
    pub data: Option<DataAttrV>,
    pub used: Seq<Run>,
}

/// Whether the attribute `a` carries a (well-placed) name.
pub open spec fn attr_has_name(a: Seq<u8>) -> bool {
    a[9] > 0 && le16(a, 0x0A) + a[9] * 2 <= a.len()
}

/// The effect of one resident `$FILE_NAME` value `v` on the walk state.
pub open spec fn file_name_effect(v: Seq<u8>, st: AttrState) -> AttrState {
    let parent_ref = (le64(v, 0) % 0x1_0000_0000_0000) as u64;
    let name_len = v[0x40] as int;
    let namespace = v[0x41];
    if name_len > 0 && 0x42 + name_len * 2 <= v.len() {
        let n = utf16_decode(utf16_units(v.subrange(0x42, 0x42 + name_len * 2)));
        // Prefer the most descriptive namespace: anything replaces nothing,
        // Win32 / Win32&DOS / POSIX replace an earlier name, DOS does not.
        let keep = st.name is None || namespace == 1 || namespace == 3 || namespace == 0;
        if keep {
            AttrState { parent: parent_ref, name: Some(n), ..st }
        } else {
            st
        }
    } else {
        st
    }
}

/// The name a `$FILE_NAME` value holds: `v[0x40]` UTF-16 units from 0x42.
pub open spec fn file_name_of(v: Seq<u8>) -> Seq<char> {
    utf16_decode(utf16_units(v.subrange(0x42, 0x42 + v[0x40] * 2)))
}

/// `v` is a `$FILE_NAME` value holding a non-empty name in namespace `ns`
/// (0 POSIX, 1 Win32, 2 DOS, 3 Win32 and DOS).
pub open spec fn named_value(v: Seq<u8>, ns: u8) -> bool {
    v.len() >= 0x42 && v[0x40] > 0 && 0x42 + v[0x40] * 2 <= v.len() && v[0x41] == ns
}

/// `a` is a resident attribute whose value is `v`.
pub open spec fn resident_value(a: Seq<u8>, v: Seq<u8>) -> bool {
    &&& a.len() >= 0x18
    &&& a[8] == 0
    &&& le16(a, 0x14) + le32(a, 0x10) <= a.len()
    &&& v == a.subrange(le16(a, 0x14), le16(a, 0x14) + le32(a, 0x10))
}

/// A record's name is its most descriptive one: a `$FILE_NAME` in the POSIX,
/// Win32 or Win32-and-DOS namespace is never replaced by a DOS short name,
/// whether the DOS name comes after it or before it (the long name then
/// replaces it); either way the long name is kept.
pub proof fn lemma_long_name_kept(a1: Seq<u8>, v1: Seq<u8>, ns1: u8, a2: Seq<u8>, v2: Seq<u8>, st: AttrState)
    requires
        resident_value(a1, v1),
        named_value(v1, ns1),
        ns1 == 0 || ns1 == 1 || ns1 == 3,
        resident_value(a2, v2),
        named_value(v2, 2),
    ensures
        attr_effect(a1, ATTR_FILE_NAME as int, st).name == Some(file_name_of(v1)),
        st.name is None ==> attr_effect(a2, ATTR_FILE_NAME as int, st).name == Some(file_name_of(v2)),
        st.name is Some ==> attr_effect(a2, ATTR_FILE_NAME as int, st).name == st.name,
        attr_effect(a2, ATTR_FILE_NAME as int, attr_effect(a1, ATTR_FILE_NAME as int, st)).name == Some(
            file_name_of(v1),
        ),
        attr_effect(a1, ATTR_FILE_NAME as int, attr_effect(a2, ATTR_FILE_NAME as int, st)).name == Some(
            file_name_of(v1),
        ),
{
}

/// The effect of one attribute `a` (at least 14 bytes) of type `atype`.
pub open spec fn attr_effect(a: Seq<u8>, atype: int, st: AttrState) -> AttrState {
    let non_resident = a[8] != 0;
    let named = attr_has_name(a);
    let flags = le16(a, 0x0C);
    if non_resident {
        if a.len() >= 0x40 && le16(a, 0x20) < a.len() {
            match spec_mapping_pairs(a, le16(a, 0x20), 0, 0) {
                Some(runs) => {
                    let used = if runs.len() > 0 && atype != ATTR_ATTRIBUTE_LIST {
                        st.used + runs
                    } else {
                        st.used
                    };
                    let data = if atype == ATTR_DATA && !named && runs.len() > 0 {
                        Some(
                            DataAttrV::Runs {
                                runs,
                                real_size: le64(a, 0x30) as u64,
                                compressed: flags % 2 == 1,
                            },
                        )
                    } else {
                        st.data
                    };
                    AttrState { used, data, ..st }
                },
                None => st,
            }
        } else {
            st
        }
    } else if a.len() < 0x18 {
        st
    } else {
        let value_len = le32(a, 0x10);
        let value_off = le16(a, 0x14);
        if value_off + value_len <= a.len() {
            let v = a.subrange(value_off, value_off + value_len);
            if atype == ATTR_DATA && !named {
                AttrState { data: Some(DataAttrV::Resident(v)), ..st }
            } else if atype == ATTR_FILE_NAME && v.len() >= 0x42 {
                file_name_effect(v, st)
            } else {
                st
            }
        } else {
            st
        }
    }
}

/// The attribute walk of `rec` from offset `p`; `None` when the walk reaches
/// an attribute of 12 or 13 bytes, whose flags field lies past its end.
pub open spec fn scan_attrs(rec: Seq<u8>, p: int, st: AttrState) -> Option<AttrState>
    decreases rec.len() - p,
{
    if p < 0 || p + 8 > rec.len() {
        Some(st)
    } else {
        let atype = le32(rec, p);
        let alen = le32(rec, p + 4);
        if atype == ATTR_END || alen == 0 || p + alen > rec.len() {
            Some(st)
        } else if alen < 12 {
            scan_attrs(rec, p + alen, st)
        } else if alen < 14 {
            None
        } else {
            scan_attrs(rec, p + alen, attr_effect(rec.subrange(p, p + alen), atype, st))
        }
    }
}

/// Whether the attribute walk of `rec` from `p` meets an attribute of 12 or
/// 13 bytes.
pub open spec fn scan_hits_short_attr(rec: Seq<u8>, p: int) -> bool
    decreases rec.len() - p,
{
    if p < 0 || p + 8 > rec.len() {
        false
    } else {
        let atype = le32(rec, p);
        let alen = le32(rec, p + 4);
        if atype == ATTR_END || alen == 0 || p + alen > rec.len() {
            false
        } else if alen < 12 {
            scan_hits_short_attr(rec, p + alen)
        } else if alen < 14 {
            true
        } else {
            scan_hits_short_attr(rec, p + alen)
        }
    }
}

proof fn lemma_scan_none(rec: Seq<u8>, p: int, st: AttrState)
    ensures
        scan_attrs(rec, p, st) is None <==> scan_hits_short_attr(rec, p),
    decreases rec.len() - p,
{
    if 0 <= p && p + 8 <= rec.len() {
        let atype = le32(rec, p);
        let alen = le32(rec, p + 4);
        if !(atype == ATTR_END || alen == 0 || p + alen > rec.len()) {
            if alen < 12 {
                lemma_scan_none(rec, p + alen, st);
            } else if alen >= 14 {
                lemma_scan_none(rec, p + alen, attr_effect(rec.subrange(p, p + alen), atype, st));
            }
        }
    }
}

pub open spec fn attr_state0() -> AttrState {
    AttrState { parent: 0, name: None, data: None, used: Seq::empty() }
}

/// Whether parsing `rec` would meet an attribute too short to hold its flags.
pub open spec fn mft_record_malformed(rec: Seq<u8>) -> bool {
    rec.len() >= 0x38 && rec.subrange(0, 4) == mft_magic() && scan_hits_short_attr(rec, 0x38)
}

/// The entry a record buffer describes, or `None` when it is not a `$FILE`
/// record.
pub open spec fn spec_parse_mft_record(rec: Seq<u8>, record_number: u64) -> Option<MftEntryV> {
    if rec.len() < 0x38 || rec.subrange(0, 4) != mft_magic() {
        None
    } else {
        let flags = le16(rec, 0x16);
        let st = scan_attrs(rec, 0x38, attr_state0())->0;
        Some(
            MftEntryV {
                record: record_number,
                in_use: flags % 2 == 1,
                is_dir: (flags / 2) % 2 == 1,
                parent: st.parent,
                name: match st.name {
                    Some(n) => n,
                    None => Seq::empty(),
                },
                data: st.data,
                used_runs: st.used,
            },
        )
    }
}

pub open spec fn opt_string_view(n: Option<String>) -> Option<Seq<char>> {
    match n {
        Some(x) => Some(x@),
        None => None,
    }
}

/// Applies one attribute (`a`, at least 14 bytes) to the walk state.
fn apply_attr(
    a: &[u8],
    atype: u32,
    parent: &mut u64,
    name: &mut Option<String>,
    data: &mut Option<DataAttr>,
    used: &mut Vec<Run>,
)
    requires
        a@.len() >= 14,
    ensures
        attr_effect(
            a@,
            atype as int,
            AttrState {
                parent: *old(parent),
                name: opt_string_view(*old(name)),
                data: opt_data_view(*old(data)),
                used: old(used)@,
            },
        ) == (AttrState {
            parent: *final(parent),
            name: opt_string_view(*final(name)),
            data: opt_data_view(*final(data)),
            used: final(used)@,
        }),
{
    let alen = a.len();
    let non_resident = a[8] != 0;
    let name_len = a[9] as usize;
    let name_off = u16le(a, 0x0A) as usize;
    let attr_flags = u16le(a, 0x0C);
    let named = name_len > 0 && name_off + name_len * 2 <= alen;
    if non_resident {
        if alen >= 0x40 {
            let map_off = u16le(a, 0x20) as usize;
            let real_size = u64le(a, 0x30);
            if map_off < alen {
                if let Some(runs) = parse_mapping_pairs(a, map_off) {
                    if runs.len() > 0 && atype != ATTR_ATTRIBUTE_LIST {
                        let mut k: usize = 0;
                        while k < runs.len()
                            invariant
                                k <= runs@.len(),
                                used@ == old(used)@ + runs@.subrange(0, k as int),
                            decreases runs@.len() - k,
                        {
                            used.push(runs[k]);
                            k += 1;
                            assert(used@ =~= old(used)@ + runs@.subrange(0, k as int));
                        }
                        assert(runs@.subrange(0, runs@.len() as int) =~= runs@);
                    }
                    if atype == ATTR_DATA && !named && runs.len() > 0 {
                        let compressed = attr_flags % 2 == 1;
                        *data = Some(DataAttr::Runs { runs, real_size, compressed });
                    }
                }
            }
        }
    } else if alen >= 0x18 {
        let value_len = u32le(a, 0x10) as usize;
        let value_off = u16le(a, 0x14) as usize;
        if value_off <= alen && value_len <= alen - value_off {
            if atype == ATTR_DATA && !named {
                *data = Some(DataAttr::Resident(copy_range(a, value_off, value_off + value_len)));
            } else if atype == ATTR_FILE_NAME && value_len >= 0x42 {
                let v = &a[value_off..value_off + value_len];
                let parent_ref = u64le(v, 0) % 0x1_0000_0000_0000;
                let nlen = v[0x40] as usize;
                let namespace = v[0x41];
                if nlen > 0 && 0x42 + nlen * 2 <= value_len {
                    let n = decode_utf16le(&v[0x42..0x42 + nlen * 2]);
                    let keep = name.is_none() || namespace == 1 || namespace == 3 || namespace == 0;
                    if keep {
                        *parent = parent_ref;
                        *name = Some(n);
                    }
                }
            }
        }
    }
}

/// Whether parsing `rec` would meet an attribute too short to hold its flags
/// (such records cannot be parsed).
pub fn mft_record_is_malformed(rec: &[u8]) -> (r: bool)
    ensures
        r == mft_record_malformed(rec@),
{
    let len = rec.len();
    let magic: [u8; 4] = [0x46, 0x49, 0x4C, 0x45];
    assert(magic@ == mft_magic());
    if len < 0x38 || !crate::bytes::bytes_at(rec, 0, &magic) {
        assert(rec@.subrange(0, 4) == rec@.subrange(0int, 0int + 4));
        return false;
    }
    assert(rec@.subrange(0, 4) == rec@.subrange(0int, 0int + 4));
    let mut p: usize = 0x38;
    while p <= len && 8 <= len - p
        invariant
            len == rec@.len(),
            p >= 0x38,
            len >= 0x38,
            rec@.subrange(0, 4) == mft_magic(),
            scan_hits_short_attr(rec@, 0x38) == scan_hits_short_attr(rec@, p as int),
        decreases len - p,
    {
        let atype = u32le(rec, p);
        let alen = u32le(rec, p + 4) as usize;
        if atype == ATTR_END || alen == 0 || alen > len - p {
            return false;
        }
        if alen >= 12 && alen < 14 {
            assert(scan_hits_short_attr(rec@, p as int));
            return true;
        }
        p += alen;
    }
    false
}

/// Parse a single MFT record buffer into an `MftEntry` (None if the buffer
/// does not contain a valid `$FILE` record).
pub fn parse_mft_record(rec: &[u8], record_number: u64) -> (r: Option<MftEntry>)
    requires
        !mft_record_malformed(rec@),
    ensures
        match r {
            Some(e) => spec_parse_mft_record(rec@, record_number) == Some(e@),
            None => spec_parse_mft_record(rec@, record_number) is None,
        },
{
    let len = rec.len();
    let magic: [u8; 4] = [0x46, 0x49, 0x4C, 0x45];
    assert(magic@ == mft_magic());
    if len < 0x38 || !crate::bytes::bytes_at(rec, 0, &magic) {
        assert(rec@.subrange(0, 4) == rec@.subrange(0int, 0int + 4));
        return None;
    }
    assert(rec@.subrange(0, 4) == rec@.subrange(0int, 0int + 4));
    let flags = u16le(rec, 0x16);
    let in_use = flags % 2 == 1;
    let is_dir = (flags / 2) % 2 == 1;
    let mut parent: u64 = 0;
    let mut name: Option<String> = None;
    let mut data: Option<DataAttr> = None;
    let mut used_runs: Vec<Run> = Vec::new();
    let mut p: usize = 0x38;
    proof {
        lemma_scan_none(rec@, 0x38, attr_state0());
    }
    while p <= len && 8 <= len - p
        invariant
            len == rec@.len(),
            scan_attrs(rec@, 0x38, attr_state0()) == scan_attrs(
                rec@,
                p as int,
                AttrState {
                    parent,
                    name: opt_string_view(name),
                    data: opt_data_view(data),
                    used: used_runs@,
                },
            ),
            scan_attrs(rec@, 0x38, attr_state0()) is Some,
        ensures
            scan_attrs(rec@, 0x38, attr_state0()) == Some(
                AttrState {
                    parent,
                    name: opt_string_view(name),
                    data: opt_data_view(data),
                    used: used_runs@,
                },
            ),
        decreases len - p,
    {
        let atype = u32le(rec, p);
        let alen = u32le(rec, p + 4) as usize;
        if atype == ATTR_END || alen == 0 || alen > len - p {
            break;
        }
        if alen >= 14 {
            apply_attr(&rec[p..p + alen], atype, &mut parent, &mut name, &mut data, &mut used_runs);
        }
        p += alen;
    }
    let st_name = match name {
        Some(n) => n,
        None => String::new(),
    };
    Some(
        MftEntry {
            record: record_number,
            in_use,
            is_dir,
            parent,
            name: st_name,
            data,
            used_runs,
        },
    )
}

// ---------------------------------------------------------------------------
// LZNT1 decompression
// ---------------------------------------------------------------------------

/// Length mask and offset shift of an LZNT1 back-reference, given the
/// position of the last output byte (`usize::MAX` when nothing was output).
pub open spec fn lz_params(pos: usize, l_mask: u16, o_shift: u32) -> (u16, u32)
    decreases pos,
{
    if pos >= 0x10 {
        lz_params(pos / 2, l_mask / 2, if o_shift == 0 { 0 } else { (o_shift - 1) as u32 })
    } else {
        (l_mask, o_shift)
    }
}

/// Appends `n` bytes copied from the window that starts at `start` and
/// repeats every `offset` bytes (an overlapping back-reference copy).
pub open spec fn lz_copy(out: Seq<u8>, start: int, offset: int, n: nat) -> Seq<u8>
    decreases n,
{
    if n == 0 {
        out
    } else {
        lz_copy(out.push(out[start + (out.len() - start) % offset]), start, offset, (n - 1) as nat)
    }
}

/// Decodes compressed chunk `c` from a flag byte at `j`, appending to `out`.
/// Nothing more is decoded once `out` holds 4096 bytes.
pub open spec fn lz_chunk(c: Seq<u8>, j: int, out: Seq<u8>) -> Seq<u8>
    decreases c.len() - j, 0int,
{
    if j < 0 || j >= c.len() || out.len() >= 4096 {
        out
    } else {
        lz_group(c, j + 1, c[j], 0, out)
    }
}

/// Decodes the items of the flag group with flag byte `flags`, at item `i`,
/// whose next byte is at `j`.
pub open spec fn lz_group(c: Seq<u8>, j: int, flags: u8, i: int, out: Seq<u8>) -> Seq<u8>
    decreases c.len() - j, 9 - i,
{
    if j < 0 || j > c.len() || i < 0 || i > 8 {
        out
    } else if i >= 8 || j >= c.len() || out.len() >= 4096 {
        lz_chunk(c, j, out)
    } else if !bit_set(flags, i as u8) {
        lz_group(c, j + 1, flags, i + 1, out.push(c[j]))
    } else if c.len() - j < 2 {
        out
    } else {
        let word = le16(c, j) as u16;
        let pos: usize = if out.len() == 0 { usize::MAX } else { (out.len() - 1) as usize };
        let params = lz_params(pos, 0x0FFF, 12);
        let length = (word & params.0) as int + 3;
        let offset0 = (word >> params.1) as int + 1;
        let offset = if offset0 > out.len() { out.len() as int } else { offset0 };
        if offset == 0 {
            lz_group(c, j + 2, flags, i + 1, out)
        } else {
            lz_group(c, j + 2, flags, i + 1, lz_copy(out, out.len() - offset, offset, length as nat))
        }
    }
}

/// Decodes the LZNT1 stream `data` from the chunk header at `i`, appending to
/// `out`. A chunk that overruns the buffer ends the stream.
pub open spec fn lz_stream(data: Seq<u8>, i: int, out: Seq<u8>) -> Seq<u8>
    decreases data.len() - i,
{
    if i < 0 || i + 2 > data.len() {
        out
    } else {
        let header = le16(data, i);
        let chunk_len = header % 4096 + 1;
        let i2 = i + 2;
        if i2 + chunk_len > data.len() {
            out
        } else {
            let chunk = data.subrange(i2, i2 + chunk_len);
            let out2 = if header >= 0x8000 {
                out + lz_chunk(chunk, 0, Seq::empty())
            } else {
                out + chunk
            };
            lz_stream(data, i2 + chunk_len, out2)
        }
    }
}

/// The offset/length split of an LZNT1 back-reference follows the standard
/// table: while the last output position is below 16, 12 bits of length and
/// 4 of offset; each doubling of the position moves one bit from the length
/// to the offset, down to 4 bits of length from position 2048 on. In every
/// case the length mask covers exactly the bits below the offset shift.
pub proof fn lemma_lz_split(p: usize)
    requires
        p < 4096,
    ensures
        p < 16 ==> lz_params(p, 0x0FFF, 12) == (0x0FFFu16, 12u32),
        16 <= p < 32 ==> lz_params(p, 0x0FFF, 12) == (0x07FFu16, 11u32),
        32 <= p < 64 ==> lz_params(p, 0x0FFF, 12) == (0x03FFu16, 10u32),
        64 <= p < 128 ==> lz_params(p, 0x0FFF, 12) == (0x01FFu16, 9u32),
        128 <= p < 256 ==> lz_params(p, 0x0FFF, 12) == (0x00FFu16, 8u32),
        256 <= p < 512 ==> lz_params(p, 0x0FFF, 12) == (0x007Fu16, 7u32),
        512 <= p < 1024 ==> lz_params(p, 0x0FFF, 12) == (0x003Fu16, 6u32),
        1024 <= p < 2048 ==> lz_params(p, 0x0FFF, 12) == (0x001Fu16, 5u32),
        2048 <= p < 4096 ==> lz_params(p, 0x0FFF, 12) == (0x000Fu16, 4u32),
        lz_params(p, 0x0FFF, 12).0 + 1 == vstd::arithmetic::power2::pow2(lz_params(p, 0x0FFF, 12).1 as nat),
{
    reveal_with_fuel(lz_params, 10);
    vstd::arithmetic::power2::lemma2_to64();
}

fn lz_params_exec(pos0: usize) -> (r: (u16, u32))
    ensures
        r == lz_params(pos0, 0x0FFF, 12),
        r.1 <= 12,
{
    let mut pos = pos0;
    let mut l_mask: u16 = 0x0FFF;
    let mut o_shift: u32 = 12;
    while pos >= 0x10
        invariant
            lz_params(pos0, 0x0FFF, 12) == lz_params(pos, l_mask, o_shift),
            o_shift <= 12,
        decreases pos,
    {
        l_mask = l_mask / 2;
        o_shift = if o_shift == 0 { 0 } else { o_shift - 1 };
        pos = pos / 2;
    }
    (l_mask, o_shift)
}

proof fn lemma_lz_copy_len(out: Seq<u8>, start: int, offset: int, n: nat)
    ensures
        lz_copy(out, start, offset, n).len() == out.len() + n,
    decreases n,
{
    if n > 0 {
        lemma_lz_copy_len(out.push(out[start + (out.len() - start) % offset]), start, offset, (n - 1) as nat);
    }
}

/// Decodes one compressed chunk `chunk`, appending it to `out`. A chunk
/// decodes on its own: its back-references, their offset/length split and
/// its 4096-byte cap count from the chunk's own start.
pub fn lznt1_decompress_chunk(chunk: &[u8], out: &mut Vec<u8>)
    ensures
        final(out)@ == old(out)@ + lz_chunk(chunk@, 0, Seq::empty()),
{
    let mut part: Vec<u8> = Vec::new();
    decode_chunk_into(chunk, &mut part);
    crate::bytes::append_all(out, part.as_slice());
}

/// Decodes one compressed chunk `chunk` after the bytes already in `out`.
fn decode_chunk_into(chunk: &[u8], out: &mut Vec<u8>)
    ensures
        final(out)@ == lz_chunk(chunk@, 0, old(out)@),
{
    let clen = chunk.len();
    let mut j: usize = 0;
    // Outer loop: one flag group per iteration.
    while j < clen && out.len() < 4096
        invariant
            clen == chunk@.len(),
            j <= clen,
            lz_chunk(chunk@, 0, old(out)@) == lz_chunk(chunk@, j as int, out@),
        decreases clen - j,
    {
        let flags = chunk[j];
        j += 1;
        let ghost j1 = j;
        let mut i: u8 = 0;
        while i < 8
            invariant
                clen == chunk@.len(),
                1 <= j1 <= j <= clen,
                i <= 8,
                lz_chunk(chunk@, 0, old(out)@) == lz_group(chunk@, j as int, flags, i as int, out@),
            ensures
                lz_chunk(chunk@, 0, old(out)@) == lz_chunk(chunk@, j as int, out@),
                j1 <= j <= clen,
            decreases clen - j, 8 - i,
        {
            if j >= clen || out.len() >= 4096 {
                break;
            }
            if (flags >> i) & 1u8 != 1u8 {
                out.push(chunk[j]);
                j += 1;
            } else {
                if clen - j < 2 {
                    return;
                }
                let word = u16le(chunk, j);
                j += 2;
                let olen = out.len();
                let pos: usize = if olen == 0 { usize::MAX } else { olen - 1 };
                let (l_mask, o_shift) = lz_params_exec(pos);
                let length = (word & l_mask) as usize + 3;
                let mut offset = (word >> o_shift) as usize + 1;
                if offset > olen {
                    offset = olen;
                }
                if offset > 0 {
                    let start = olen - offset;
                    let ghost out0 = out@;
                    let mut k: usize = 0;
                    proof {
                        lemma_lz_copy_len(out0, start as int, offset as int, length as nat);
                    }
                    while k < length
                        invariant
                            k <= length,
                            0 < offset <= out0.len(),
                            start == out0.len() - offset,
                            out@.len() == out0.len() + k,
                            lz_copy(out0, start as int, offset as int, length as nat) == lz_copy(
                                out@,
                                start as int,
                                offset as int,
                                (length - k) as nat,
                            ),
                        decreases length - k,
                    {
                        let src = start + (out.len() - start) % offset;
                        let b = out[src];
                        out.push(b);
                        k += 1;
                    }
                }
            }
            i += 1;
        }
    }
}

/// Decompresses an LZNT1 stream (a sequence of compressed or stored chunks).
pub fn lznt1_decompress(data: &[u8]) -> (r: Vec<u8>)
    ensures
        r@ == lz_stream(data@, 0, Seq::empty()),
{
    let len = data.len();
    let mut out: Vec<u8> = Vec::new();
    let mut i: usize = 0;
    while i <= len && 2 <= len - i
        invariant
            len == data@.len(),
            i <= len,
            lz_stream(data@, 0, Seq::empty()) == lz_stream(data@, i as int, out@),
        decreases len - i,
    {
        let header = u16le(data, i);
        i += 2;
        let chunk_len = (header % 4096) as usize + 1;
        if chunk_len > len - i {
            return out;
        }
        let chunk = &data[i..i + chunk_len];
        i += chunk_len;
        if header >= 0x8000 {
            lznt1_decompress_chunk(chunk, &mut out);
        } else {
            crate::bytes::append_all(&mut out, chunk);
        }
    }
    out
}

// ---------------------------------------------------------------------------
// Paths
// ---------------------------------------------------------------------------

/// Whether the path with UTF-8 bytes `child` lies within (or is) the
/// directory path `parent`, comparing ASCII letters case-insensitively.
pub open spec fn spec_path_within(parent: Seq<u8>, child: Seq<u8>) -> bool {
    parent.len() == 0 || (child.len() >= parent.len() && eq_ic_bytes(
        parent,
        child.subrange(0, parent.len() as int),
    ) && (child.len() == parent.len() || child[parent.len() as int] == 0x2F))
}

/// Whether cutting `child` after `parent.len()` bytes splits no character
/// (the comparison slices `child` there).
pub open spec fn path_within_cut_ok(parent: &str, child: &str) -> bool {
    child.spec_bytes().len() >= parent.spec_bytes().len() ==> is_char_boundary(
        child.spec_bytes(),
        parent.spec_bytes().len() as int,
    )
}

#[verifier::loop_isolation(false)]
pub fn path_within(parent: &str, child: &str) -> (r: bool)
    requires
        path_within_cut_ok(parent, child),
    ensures
        r == spec_path_within(parent.spec_bytes(), child.spec_bytes()),
{
    let p = parent.as_bytes();
    let c = child.as_bytes();
    if p.len() == 0 {
        return true;
    }
    if c.len() >= p.len() {
        let mut i: usize = 0;
        while i < p.len()
            invariant
                i <= p@.len() <= c@.len(),
                forall|k: int| 0 <= k < i ==> lower_byte(#[trigger] p@[k]) == lower_byte(c@[k]),
            decreases p@.len() - i,
        {
            if lower_byte_exec(p[i]) != lower_byte_exec(c[i]) {
                assert(c@.subrange(0, p@.len() as int)[i as int] == c@[i as int]);
                assert(lower_byte(p@[i as int]) != lower_byte(c@.subrange(0, p@.len() as int)[i as int]));
                assert(!eq_ic_bytes(p@, c@.subrange(0, p@.len() as int)));
                return false;
            }
            i += 1;
        }
        assert(eq_ic_bytes(p@, c@.subrange(0, p@.len() as int)));
        return c.len() == p.len() || c[p.len()] == 0x2F;
    }
    false
}

fn lower_byte_exec(b: u8) -> (r: u8)
    ensures
        r == lower_byte(b),
{
    if 65 <= b && b <= 90 {
        b + 32
    } else {
        b
    }
}

/// Whether `c` cannot appear in an output path component.
pub open spec fn illegal_path_char(c: char) -> bool {
    c == '/' || c == '\\' || c == ':' || (c as u32) < 0x20
}

/// `s` with every character that cannot appear in a path component replaced
/// by `_`.
pub open spec fn spec_sanitize(s: Seq<char>) -> Seq<char> {
    Seq::new(s.len(), |i: int| if illegal_path_char(s[i]) { '_' } else { s[i] })
}

pub fn sanitize_component(s: &str) -> (r: String)
    ensures
        r@ == spec_sanitize(s@),
{
    let mut out = String::new();
    for c in it: s.chars()
        invariant
            it.seq() == s@,
            out@ == spec_sanitize(s@).subrange(0, it.index() as int),
    {
        let d = if c == '/' || c == '\\' || c == ':' || (c as u32) < 0x20 {
            '_'
        } else {
            c
        };
        push_char(&mut out, d);
        assert(out@ =~= spec_sanitize(s@).subrange(0, it.index() + 1));
    }
    assert(spec_sanitize(s@).subrange(0, s@.len() as int) =~= spec_sanitize(s@));
    out
}

/// Names joined with `/`.
pub open spec fn join_slash(parts: Seq<Seq<char>>) -> Seq<char>
    decreases parts.len(),
{
    if parts.len() == 0 {
        Seq::empty()
    } else if parts.len() == 1 {
        parts[0]
    } else {
        join_slash(parts.drop_last()).push('/') + parts.last()
    }
}

/// The chain walk behind `resolve_dir_path`: `parts` holds the names met so
/// far (deepest first) and `steps` the remaining depth budget.
pub open spec fn spec_resolve(entries: Seq<Option<MftEntryV>>, cur: u64, parts: Seq<Seq<char>>, visited: Seq<u64>, steps: nat) -> Option<Seq<char>>
    decreases steps,
{
    if steps == 0 {
        None
    } else if cur == MFT_RECORD_ROOT {
        Some(join_slash(parts.reverse()))
    } else if cur >= entries.len() || visited.contains(cur) {
        None
    } else {
        match entries[cur as int] {
            None => None,
            Some(e) => {
                if e.name.len() == 0 {
                    None
                } else {
                    spec_resolve(entries, e.parent, parts.push(e.name), visited.push(cur), (steps - 1) as nat)
                }
            },
        }
    }
}

pub open spec fn entries_view(entries: Seq<Option<MftEntry>>) -> Seq<Option<MftEntryV>> {
    entries.map_values(|e: Option<MftEntry>| match e {
        Some(x) => Some(x@),
        None => None,
    })
}

/// Joins `parts` in reverse order with `/`.
fn join_reversed(parts: &Vec<Vec<char>>) -> (r: String)
    ensures
        r@ == join_slash(parts@.map_values(|v: Vec<char>| v@).reverse()),
{
    let ghost pv = parts@.map_values(|v: Vec<char>| v@);
    let ghost rv = pv.reverse();
    let mut out = String::new();
    let n = parts.len();
    let mut k: usize = 0;
    while k < n
        invariant
            n == parts@.len(),
            pv == parts@.map_values(|v: Vec<char>| v@),
            rv == pv.reverse(),
            k <= n,
            out@ == join_slash(rv.subrange(0, k as int)),
        decreases n - k,
    {
        let part = &parts[n - 1 - k];
        if k > 0 {
            push_char(&mut out, '/');
        }
        let ghost before = out@;
        let mut t: usize = 0;
        while t < part.len()
            invariant
                t <= part@.len(),
                out@ == before + part@.subrange(0, t as int),
            decreases part@.len() - t,
        {
            push_char(&mut out, part[t]);
            t += 1;
            assert(out@ =~= before + part@.subrange(0, t as int));
        }
        assert(part@.subrange(0, part@.len() as int) =~= part@);
        assert(rv[k as int] == part@);
        assert(rv.subrange(0, k + 1).drop_last() =~= rv.subrange(0, k as int));
        if k == 0 {
            assert(out@ =~= join_slash(rv.subrange(0, k + 1)));
        }
        k += 1;
    }
    assert(rv.subrange(0, n as int) =~= rv);
    out
}

/// Resolve the full path of `record` using $FILE_NAME parent chains: the
/// record's own $FILE_NAME (when `record` is not the root) followed by each
/// parent's, joined with '/'. Returns None when the chain is broken or
/// cyclic. The root yields `Some("")`. Recovery uses this with
/// `entry.parent`, so the results are directory prefixes.
#[verifier::loop_isolation(false)]
pub fn resolve_dir_path(entries: &[Option<MftEntry>], record: u64) -> (r: Option<String>)
    ensures
        match r {
            Some(s) => spec_resolve(entries_view(entries@), record, Seq::empty(), Seq::empty(), MAX_PATH_DEPTH as nat)
                == Some(s@),
            None => spec_resolve(entries_view(entries@), record, Seq::empty(), Seq::empty(), MAX_PATH_DEPTH as nat) is None,
        },
{
    let ghost ev = entries_view(entries@);
    let mut parts: Vec<Vec<char>> = Vec::new();
    let mut visited: Vec<u64> = Vec::new();
    let mut cur = record;
    let mut steps: usize = 0;
    assert(parts@.map_values(|v: Vec<char>| v@) =~= Seq::<Seq<char>>::empty());
    while steps < MAX_PATH_DEPTH
        invariant
            ev == entries_view(entries@),
            steps <= MAX_PATH_DEPTH,
            spec_resolve(ev, record, Seq::empty(), Seq::empty(), MAX_PATH_DEPTH as nat) == spec_resolve(
                ev,
                cur,
                parts@.map_values(|v: Vec<char>| v@),
                visited@,
                (MAX_PATH_DEPTH - steps) as nat,
            ),
        decreases MAX_PATH_DEPTH - steps,
    {
        let ghost pv = parts@.map_values(|v: Vec<char>| v@);
        if cur == MFT_RECORD_ROOT {
            return Some(join_reversed(&parts));
        }
        if cur >= entries.len() as u64 {
            return None;
        }
        let mut k: usize = 0;
        while k < visited.len()
            invariant
                k <= visited@.len(),
                forall|q: int| 0 <= q < k ==> visited@[q] != cur,
            decreases visited@.len() - k,
        {
            if visited[k] == cur {
                assert(visited@.contains(cur));
                return None;
            }
            k += 1;
        }
        assert(!visited@.contains(cur));
        let entry = match &entries[cur as usize] {
            Some(e) => e,
            None => return None,
        };
        assert(ev[cur as int] == Some(entry@));
        let name = chars_of(entry.name.as_str());
        if name.len() == 0 {
            return None;
        }
        parts.push(name);
        assert(parts@.map_values(|v: Vec<char>| v@) =~= pv.push(entry.name@));
        visited.push(cur);
        cur = entry.parent;
        steps += 1;
    }
    None
}

// ---------------------------------------------------------------------------
// Used byte ranges
// ---------------------------------------------------------------------------

/// Whether byte `x` lies in one of the ranges of `s`.
pub open spec fn in_ranges(s: Seq<ByteRange>, x: int) -> bool {
    exists|k: int| 0 <= k < s.len() && #[trigger] s[k].offset <= x < s[k].offset + s[k].size
}

/// No range of `s` reaches past the end of the `u64` address space.
pub open spec fn ranges_fit(s: Seq<ByteRange>) -> bool {
    forall|k: int| 0 <= k < s.len() ==> #[trigger] s[k].offset + s[k].size <= u64::MAX
}

/// Ranges sorted by offset, pairwise separated by at least one byte.
pub open spec fn ranges_separated(s: Seq<ByteRange>) -> bool {
    forall|k: int| 0 <= k < s.len() - 1 ==> #[trigger] s[k].offset + s[k].size < s[k + 1].offset
}

/// `slice::sort_unstable_by_key` keyed by the offset: std documents the
/// result as the same elements ordered by key (equal keys in any order).
#[verifier::external_body]
fn sort_ranges_by_offset(v: &mut Vec<ByteRange>)
    ensures
        final(v)@.to_multiset() == old(v)@.to_multiset(),
        forall|i: int, j: int| 0 <= i <= j < final(v)@.len() ==> final(v)@[i].offset <= final(v)@[j].offset,
{
    v.sort_unstable_by_key(|r| r.offset)
}

/// Some range of `v` starts at `o`.
pub open spec fn starts_some(v: Seq<ByteRange>, o: u64) -> bool {
    exists|j: int| 0 <= j < v.len() && #[trigger] v[j].offset == o
}

/// Byte `o` lies in one of the ranges of `r` or just past its end.
pub open spec fn touches(r: Seq<ByteRange>, o: int) -> bool {
    exists|k: int| 0 <= k < r.len() && #[trigger] r[k].offset <= o <= r[k].offset + r[k].size
}

proof fn lemma_same_multiset_ranges(a: Seq<ByteRange>, b: Seq<ByteRange>)
    requires
        a.to_multiset() == b.to_multiset(),
    ensures
        forall|x: int| in_ranges(a, x) <==> in_ranges(b, x),
        ranges_fit(a) ==> ranges_fit(b),
        forall|e: ByteRange| a.contains(e) <==> b.contains(e),
{
    broadcast use vstd::seq_lib::group_to_multiset_ensures;
    assert forall|e: ByteRange| a.contains(e) <==> b.contains(e) by {
        if a.contains(e) {
            assert(a.to_multiset().count(e) > 0);
        }
        if b.contains(e) {
            assert(b.to_multiset().count(e) > 0);
        }
    }
    broadcast use vstd::seq_lib::to_multiset_contains;
    assert forall|x: int| in_ranges(a, x) implies in_ranges(b, x) by {
        let k = choose|k: int| 0 <= k < a.len() && #[trigger] a[k].offset <= x < a[k].offset + a[k].size;
        assert(a.contains(a[k]));
        assert(a.to_multiset().count(a[k]) > 0);
        assert(b.contains(a[k]));
        let j = choose|j: int| 0 <= j < b.len() && b[j] == a[k];
        assert(b[j].offset <= x < b[j].offset + b[j].size);
    }
    assert forall|x: int| in_ranges(b, x) implies in_ranges(a, x) by {
        let k = choose|k: int| 0 <= k < b.len() && #[trigger] b[k].offset <= x < b[k].offset + b[k].size;
        assert(b.contains(b[k]));
        assert(b.to_multiset().count(b[k]) > 0);
        assert(a.contains(b[k]));
        let j = choose|j: int| 0 <= j < a.len() && a[j] == b[k];
        assert(a[j].offset <= x < a[j].offset + a[j].size);
    }
    if ranges_fit(a) {
        assert forall|k: int| 0 <= k < b.len() implies #[trigger] b[k].offset + b[k].size <= u64::MAX by {
            assert(b.contains(b[k]));
            assert(b.to_multiset().count(b[k]) > 0);
            assert(a.contains(b[k]));
            let j = choose|j: int| 0 <= j < a.len() && a[j] == b[k];
            assert(a[j].offset + a[j].size <= u64::MAX);
        }
    }
}

/// Sorts the ranges by offset and merges overlapping or adjacent ones.
/// The result covers exactly the bytes the input covers, sorted, with a gap
/// of at least one byte between consecutive ranges; each result range starts
/// where an input range does, an empty result range is an input range, and
/// every empty input range lies in or at the end of a result range. These
/// fix the result: the merge of the input.
pub fn merge_ranges(v: Vec<ByteRange>) -> (r: Vec<ByteRange>)
    requires
        ranges_fit(v@),
    ensures
        v@.len() < 2 ==> r@ == v@,
        ranges_separated(r@),
        ranges_fit(r@),
        forall|x: int| in_ranges(r@, x) <==> in_ranges(v@, x),
        r@.len() <= v@.len(),
        forall|k: int| 0 <= k < r@.len() ==> starts_some(v@, #[trigger] r@[k].offset),
        forall|k: int| 0 <= k < r@.len() && (#[trigger] r@[k]).size == 0 ==> v@.contains(r@[k]),
        forall|j: int| 0 <= j < v@.len() && (#[trigger] v@[j]).size == 0 ==> touches(r@, v@[j].offset as int),
{
    if v.len() < 2 {
        proof {
            if v@.len() == 1 {
                assert(ranges_separated(v@));
            }
            assert forall|k: int| 0 <= k < v@.len() implies starts_some(v@, #[trigger] v@[k].offset) by {
                assert(v@[k].offset == v@[k].offset);
            }
            assert forall|j: int| 0 <= j < v@.len() && (#[trigger] v@[j]).size == 0 implies touches(
                v@,
                v@[j].offset as int,
            ) by {
                assert(v@[j].offset <= v@[j].offset <= v@[j].offset + v@[j].size);
            }
        }
        return v;
    }
    let mut v = v;
    let ghost orig = v@;
    sort_ranges_by_offset(&mut v);
    proof {
        lemma_same_multiset_ranges(orig, v@);
        broadcast use vstd::seq_lib::group_to_multiset_ensures;
        assert(v@.len() == v@.to_multiset().len());
        assert(orig.len() == orig.to_multiset().len());
    }
    let n = v.len();
    let mut merged: Vec<ByteRange> = Vec::new();
    merged.push(v[0]);
    let mut i: usize = 1;
    proof {
        assert(v@[0].offset == merged@[0].offset);
        assert(starts_some(v@, merged@[0].offset));
        if v@[0].size == 0 {
            assert(v@.contains(v@[0]));
            assert(merged@[0].offset <= v@[0].offset <= merged@[0].offset + merged@[0].size);
        }
        assert forall|x: int| in_ranges(merged@, x) <==> in_ranges(v@.subrange(0, 1), x) by {
            if in_ranges(merged@, x) {
                assert(v@.subrange(0, 1)[0] == v@[0]);
            }
            if in_ranges(v@.subrange(0, 1), x) {
                assert(merged@[0] == v@[0]);
            }
        }
    }
    while i < n
        invariant
            n == v@.len(),
            1 <= i <= n,
            ranges_fit(v@),
            forall|a: int, b: int| 0 <= a <= b < v@.len() ==> v@[a].offset <= v@[b].offset,
            1 <= merged@.len() <= i,
            ranges_separated(merged@),
            ranges_fit(merged@),
            merged@.last().offset <= v@[i - 1].offset,
            forall|k: int| 0 <= k < i ==> #[trigger] v@[k].offset + v@[k].size <= merged@.last().offset + merged@.last().size,
            forall|k: int| 0 <= k < merged@.len() ==> #[trigger] merged@[k].offset <= merged@.last().offset,
            forall|x: int| in_ranges(merged@, x) <==> in_ranges(v@.subrange(0, i as int), x),
            forall|k: int| 0 <= k < merged@.len() ==> starts_some(v@, #[trigger] merged@[k].offset),
            forall|k: int| 0 <= k < merged@.len() && (#[trigger] merged@[k]).size == 0 ==> v@.contains(merged@[k]),
            forall|j: int| 0 <= j < i && (#[trigger] v@[j]).size == 0 ==> touches(merged@, v@[j].offset as int),
        decreases n - i,
    {
        let r = v[i];
        let ghost before = merged@;
        let ghost prefix = v@.subrange(0, i as int);
        let ghost prefix2 = v@.subrange(0, i + 1);
        let m = merged.len();
        let last = merged[m - 1];
        if r.offset <= last.offset + last.size {
            let r_end = r.offset + r.size;
            let l_end = last.offset + last.size;
            let end = if r_end > l_end { r_end } else { l_end };
            let nl = ByteRange { offset: last.offset, size: end - last.offset };
            merged.set(m - 1, nl);
            proof {
                assert forall|x: int| in_ranges(merged@, x) <==> in_ranges(prefix2, x) by {
                    if in_ranges(merged@, x) {
                        let k = choose|k: int| 0 <= k < merged@.len() && #[trigger] merged@[k].offset <= x < merged@[k].offset + merged@[k].size;
                        if k == m - 1 {
                            if x < l_end {
                                assert(in_ranges(before, x));
                                assert(in_ranges(prefix, x));
                                let q = choose|q: int| 0 <= q < prefix.len() && #[trigger] prefix[q].offset <= x < prefix[q].offset + prefix[q].size;
                                assert(prefix2[q] == prefix[q]);
                            } else {
                                assert(prefix2[i as int] == r);
                            }
                        } else {
                            assert(before[k] == merged@[k]);
                            assert(in_ranges(before, x));
                            let q = choose|q: int| 0 <= q < prefix.len() && #[trigger] prefix[q].offset <= x < prefix[q].offset + prefix[q].size;
                            assert(prefix2[q] == prefix[q]);
                        }
                    }
                    if in_ranges(prefix2, x) {
                        let q = choose|q: int| 0 <= q < prefix2.len() && #[trigger] prefix2[q].offset <= x < prefix2[q].offset + prefix2[q].size;
                        if q == i {
                            assert(merged@[m - 1].offset <= x < merged@[m - 1].offset + merged@[m - 1].size);
                        } else {
                            assert(prefix[q] == prefix2[q]);
                            assert(in_ranges(prefix, x));
                            assert(in_ranges(before, x));
                            let k = choose|k: int| 0 <= k < before.len() && #[trigger] before[k].offset <= x < before[k].offset + before[k].size;
                            if k == m - 1 {
                                assert(merged@[m - 1].offset <= x < merged@[m - 1].offset + merged@[m - 1].size);
                            } else {
                                assert(merged@[k] == before[k]);
                            }
                        }
                    }
                }
                assert forall|k: int| 0 <= k < merged@.len() - 1 implies #[trigger] merged@[k].offset + merged@[k].size < merged@[k + 1].offset by {
                    assert(before[k] == merged@[k]);
                    assert(before[k + 1].offset == merged@[k + 1].offset);
                }
                assert forall|k: int| 0 <= k < merged@.len() implies starts_some(v@, #[trigger] merged@[k].offset) by {
                    assert(before[k].offset == merged@[k].offset);
                }
                assert forall|k: int| 0 <= k < merged@.len() && (#[trigger] merged@[k]).size == 0 implies v@.contains(
                    merged@[k],
                ) by {
                    assert(before[k] == merged@[k]);
                }
                assert forall|j: int| 0 <= j < i + 1 && (#[trigger] v@[j]).size == 0 implies touches(
                    merged@,
                    v@[j].offset as int,
                ) by {
                    if j == i {
                        assert(merged@[m - 1].offset <= v@[j].offset <= merged@[m - 1].offset + merged@[m - 1].size);
                    } else {
                        let k = choose|k: int| 0 <= k < before.len() && #[trigger] before[k].offset <= v@[j].offset
                            <= before[k].offset + before[k].size;
                        assert(merged@[k].offset <= v@[j].offset <= merged@[k].offset + merged@[k].size);
                    }
                }
            }
        } else {
            merged.push(r);
            proof {
                assert forall|x: int| in_ranges(merged@, x) <==> in_ranges(prefix2, x) by {
                    if in_ranges(merged@, x) {
                        let k = choose|k: int| 0 <= k < merged@.len() && #[trigger] merged@[k].offset <= x < merged@[k].offset + merged@[k].size;
                        if k == m {
                            assert(prefix2[i as int] == r);
                        } else {
                            assert(before[k] == merged@[k]);
                            assert(in_ranges(before, x));
                            let q = choose|q: int| 0 <= q < prefix.len() && #[trigger] prefix[q].offset <= x < prefix[q].offset + prefix[q].size;
                            assert(prefix2[q] == prefix[q]);
                        }
                    }
                    if in_ranges(prefix2, x) {
                        let q = choose|q: int| 0 <= q < prefix2.len() && #[trigger] prefix2[q].offset <= x < prefix2[q].offset + prefix2[q].size;
                        if q == i {
                            assert(merged@[m as int] == r);
                        } else {
                            assert(prefix[q] == prefix2[q]);
                            assert(in_ranges(prefix, x));
                            assert(in_ranges(before, x));
                            let k = choose|k: int| 0 <= k < before.len() && #[trigger] before[k].offset <= x < before[k].offset + before[k].size;
                            assert(merged@[k] == before[k]);
                        }
                    }
                }
                assert forall|k: int| 0 <= k < merged@.len() - 1 implies #[trigger] merged@[k].offset + merged@[k].size < merged@[k + 1].offset by {
                    if k < m - 1 {
                        assert(before[k] == merged@[k]);
                        assert(before[k + 1] == merged@[k + 1]);
                    }
                }
                assert forall|k: int| 0 <= k < merged@.len() implies starts_some(v@, #[trigger] merged@[k].offset) by {
                    if k < m {
                        assert(before[k] == merged@[k]);
                    } else {
                        assert(v@[i as int].offset == merged@[k].offset);
                    }
                }
                assert forall|k: int| 0 <= k < merged@.len() && (#[trigger] merged@[k]).size == 0 implies v@.contains(
                    merged@[k],
                ) by {
                    if k < m {
                        assert(before[k] == merged@[k]);
                    } else {
                        assert(v@[i as int] == merged@[k]);
                    }
                }
                assert forall|j: int| 0 <= j < i + 1 && (#[trigger] v@[j]).size == 0 implies touches(
                    merged@,
                    v@[j].offset as int,
                ) by {
                    if j == i {
                        assert(merged@[m as int].offset <= v@[j].offset <= merged@[m as int].offset + merged@[m as int].size);
                    } else {
                        let k = choose|k: int| 0 <= k < before.len() && #[trigger] before[k].offset <= v@[j].offset
                            <= before[k].offset + before[k].size;
                        assert(merged@[k] == before[k]);
                    }
                }
            }
        }
        i += 1;
    }
    assert(v@.subrange(0, n as int) =~= v@);
    proof {
        assert forall|k: int| 0 <= k < merged@.len() implies starts_some(orig, #[trigger] merged@[k].offset) by {
            let j = choose|j: int| 0 <= j < v@.len() && #[trigger] v@[j].offset == merged@[k].offset;
            assert(v@.contains(v@[j]));
            let q = choose|q: int| 0 <= q < orig.len() && orig[q] == v@[j];
            assert(orig[q].offset == merged@[k].offset);
        }
        assert forall|j: int| 0 <= j < orig.len() && (#[trigger] orig[j]).size == 0 implies touches(
            merged@,
            orig[j].offset as int,
        ) by {
            assert(orig.contains(orig[j]));
            let q = choose|q: int| 0 <= q < v@.len() && v@[q] == orig[j];
            assert(v@[q].size == 0);
        }
    }
    merged
}

// ---------------------------------------------------------------------------
// Disk access
// ---------------------------------------------------------------------------

/// A fixed but otherwise unspecified value for `x` (and the tag `k`, which
/// keeps the values of different uses apart): what a spec function of a
/// trait gives for an implementation that does not define it, as one
/// outside verified code cannot. Such an implementation is held to the
/// trait's contracts for these values: it behaves as they say for some
/// value of each.
pub open spec fn unspecified<A, B>(x: A, k: int) -> B {
    (choose|v: (A, int, B)| (#[trigger] v.0) == x && v.1 == k).2
}

/// Abstraction over the underlying disk so the parser can be exercised
/// against a plain file or the scan engine's device.
pub trait Reader {
    /// The bytes of the device, by absolute offset.
    open spec fn disk(&self) -> Seq<u8> {
        unspecified(self, 0)
    }

    /// Whether every read that lies inside the device succeeds.
    open spec fn reads_ok(&self) -> bool {
        unspecified(self, 1)
    }

    /// Read exactly `len` bytes at absolute byte `offset`; a read that
    /// succeeds returns the device bytes there, and a reader whose reads are
    /// sound succeeds on every read inside the device.
    fn read_at(&self, offset: u64, len: usize) -> (r: Option<Vec<u8>>)
        ensures
            r matches Some(v) ==> offset + len <= self.disk().len() && v@ == self.disk().subrange(
                offset as int,
                offset + len,
            ),
            self.reads_ok() && offset + len <= self.disk().len() ==> r is Some,
    ;
}

/// Abstraction over the volume needed by the seeded-rebuild helpers, so they
/// can be exercised against a synthetic volume as well as a real one.
pub trait Tile {
    /// Bytes per cluster.
    open spec fn tile_cluster_size(&self) -> u64 {
        unspecified(self, 2)
    }

    /// Number of clusters of the volume.
    open spec fn tile_cluster_count(&self) -> u64 {
        unspecified(self, 3)
    }

    /// Absolute byte offset of the start of cluster `c`.
    open spec fn tile_offset(&self, c: u64) -> u64 {
        unspecified((self, c), 4)
    }

    /// Whether cluster `c` is allocated.
    open spec fn tile_allocated(&self, c: u64) -> bool {
        unspecified((self, c), 5)
    }

    /// The bytes of the device, by absolute offset.
    open spec fn tile_disk(&self) -> Seq<u8> {
        unspecified(self, 6)
    }

    fn cluster_size(&self) -> (r: u64)
        ensures
            r == self.tile_cluster_size(),
            r > 0,
    ;

    fn cluster_count(&self) -> (r: u64)
        ensures
            r == self.tile_cluster_count(),
    ;

    /// Absolute byte offset of the start of `cluster`.
    fn cluster_offset(&self, cluster: u64) -> (r: u64)
        ensures
            r == self.tile_offset(cluster),
    ;

    fn is_allocated(&self, cluster: u64) -> (r: bool)
        ensures
            r == self.tile_allocated(cluster),
    ;

    /// Whether every read that lies inside the device succeeds.
    open spec fn tile_reads_ok(&self) -> bool {
        unspecified(self, 7)
    }

    /// Read exactly `len` bytes at absolute byte `offset`; a read that
    /// succeeds returns the device bytes there, and a tile whose reads are
    /// sound succeeds on every read inside the device.
    fn read_at(&self, offset: u64, len: usize) -> (r: Option<Vec<u8>>)
        ensures
            r matches Some(v) ==> offset + len <= self.tile_disk().len() && v@
                == self.tile_disk().subrange(offset as int, offset + len),
            self.tile_reads_ok() && offset + len <= self.tile_disk().len() ==> r is Some,
    ;
}

/// Device bytes of `len` bytes at `off` as seen through a tile.
pub open spec fn tile_bytes<T: Tile>(t: &T, off: u64, len: int) -> Seq<u8> {
    t.tile_disk().subrange(off as int, off + len)
}

/// Cluster `c + k`, wrapping around at 2^64 as the cluster arithmetic of a
/// release build does.
pub open spec fn cluster_plus(c: u64, k: u64) -> u64 {
    vstd::wrapping::u64_specs::wrapping_add(c, k)
}

/// Whether some cluster of the non-sparse run `r` is allocated.
pub open spec fn run_touched<T: Tile>(t: &T, r: Run) -> bool {
    r.cluster != SPARSE && exists|j: u64| j < r.length && #[trigger] t.tile_allocated(cluster_plus(r.cluster, j))
}

/// Whether every cluster of the non-sparse run `r` is free.
pub open spec fn run_free<T: Tile>(t: &T, r: Run) -> bool {
    r.cluster != SPARSE && forall|j: u64| j < r.length ==> !#[trigger] t.tile_allocated(cluster_plus(r.cluster, j))
}

fn run_touched_exec<T: Tile>(tile: &T, r: Run) -> (b: bool)
    ensures
        b == run_touched(tile, r),
{
    if r.cluster == SPARSE {
        return false;
    }
    let mut k: u64 = 0;
    while k < r.length
        invariant
            r.cluster != SPARSE,
            k <= r.length,
            forall|j: u64| j < k ==> !#[trigger] tile.tile_allocated(cluster_plus(r.cluster, j)),
        decreases r.length - k,
    {
        if tile.is_allocated(r.cluster.wrapping_add(k)) {
            assert(tile.tile_allocated(cluster_plus(r.cluster, k)));
            return true;
        }
        k += 1;
    }
    false
}

/// Whether any cluster of a deleted file's runs is currently allocated (i.e.
/// has been overwritten by newer data).
pub fn runs_are_stale<T: Tile>(tile: &T, runs: &[Run]) -> (r: bool)
    ensures
        r == exists|k: int| 0 <= k < runs@.len() && run_touched(tile, #[trigger] runs@[k]),
{
    let mut i: usize = 0;
    while i < runs.len()
        invariant
            i <= runs@.len(),
            forall|k: int| 0 <= k < i ==> !run_touched(tile, #[trigger] runs@[k]),
        decreases runs@.len() - i,
    {
        if run_touched_exec(tile, runs[i]) {
            return true;
        }
        i += 1;
    }
    false
}

fn run_free_exec<T: Tile>(tile: &T, r: Run) -> (b: bool)
    ensures
        b == run_free(tile, r),
{
    if r.cluster == SPARSE {
        return false;
    }
    let mut k: u64 = 0;
    while k < r.length
        invariant
            r.cluster != SPARSE,
            k <= r.length,
            forall|j: u64| j < k ==> !#[trigger] tile.tile_allocated(cluster_plus(r.cluster, j)),
        decreases r.length - k,
    {
        if tile.is_allocated(r.cluster.wrapping_add(k)) {
            assert(tile.tile_allocated(cluster_plus(r.cluster, k)));
            return false;
        }
        k += 1;
    }
    true
}

pub open spec fn min3(a: int, b: int, c: int) -> int {
    if a <= b && a <= c {
        a
    } else if b <= c {
        b
    } else {
        c
    }
}

/// The head gathered from runs `i..` on top of `acc`, where `cap` bounds its
/// length and `real_size` is the file size.
pub open spec fn spec_head_from<T: Tile>(t: &T, runs: Seq<Run>, real_size: u64, cap: int, i: int, acc: Seq<u8>) -> Seq<u8>
    decreases runs.len() - i,
{
    if i < 0 || i >= runs.len() || !run_free(t, runs[i]) {
        acc
    } else {
        let emit = min3(runs[i].length * t.tile_cluster_size(), real_size - acc.len(), cap - acc.len());
        if emit <= 0 {
            acc
        } else {
            let acc2 = acc + tile_bytes(t, t.tile_offset(runs[i].cluster), emit);
            if acc2.len() >= cap {
                acc2
            } else {
                spec_head_from(t, runs, real_size, cap, i + 1, acc2)
            }
        }
    }
}

/// The intact head of a deleted file: the leading bytes held by runs whose
/// clusters are all still free, up to one cluster (at most 4096 bytes).
pub open spec fn spec_intact_head<T: Tile>(t: &T, d: DataAttrV) -> Option<Seq<u8>> {
    match d {
        DataAttrV::Resident(_) => None,
        DataAttrV::Runs { runs, real_size, .. } => {
            if real_size == 0 {
                None
            } else {
                let cs = t.tile_cluster_size() as int;
                let cap = if SEED_PREFIX_MAX < cs { SEED_PREFIX_MAX as int } else { cs };
                let h = spec_head_from(t, runs, real_size, cap, 0, Seq::empty());
                if h.len() == 0 {
                    None
                } else {
                    Some(h)
                }
            }
        },
    }
}

/// Whether the reads that gather the head from runs `i..` on top of `acc`
/// all lie inside the device.
pub open spec fn spec_head_fits_from<T: Tile>(t: &T, runs: Seq<Run>, real_size: u64, cap: int, i: int, acc: Seq<u8>) -> bool
    decreases runs.len() - i,
{
    if i < 0 || i >= runs.len() || !run_free(t, runs[i]) {
        true
    } else {
        let emit = min3(runs[i].length * t.tile_cluster_size(), real_size - acc.len(), cap - acc.len());
        if emit <= 0 {
            true
        } else {
            let acc2 = acc + tile_bytes(t, t.tile_offset(runs[i].cluster), emit);
            &&& t.tile_offset(runs[i].cluster) + emit <= t.tile_disk().len()
            &&& (acc2.len() >= cap || spec_head_fits_from(t, runs, real_size, cap, i + 1, acc2))
        }
    }
}

/// Whether the reads that gather the intact head of `d` all lie inside the
/// device.
pub open spec fn spec_head_fits<T: Tile>(t: &T, d: DataAttrV) -> bool {
    match d {
        DataAttrV::Resident(_) => true,
        DataAttrV::Runs { runs, real_size, .. } => {
            let cs = t.tile_cluster_size() as int;
            let cap = if SEED_PREFIX_MAX < cs { SEED_PREFIX_MAX as int } else { cs };
            real_size == 0 || spec_head_fits_from(t, runs, real_size, cap, 0, Seq::empty())
        },
    }
}

/// The intact head of a (deleted) file, taken from leading runs whose
/// clusters are still untouched. Returns `None` when the very first bytes of
/// the file were overwritten (nothing left to seed a scan with) or a read
/// fails.
pub fn intact_head<T: Tile>(tile: &T, data: &DataAttr) -> (r: Option<Vec<u8>>)
    ensures
        r matches Some(v) ==> spec_intact_head(tile, data@) == Some(v@),
        spec_intact_head(tile, data@) is None ==> r is None,
        tile.tile_reads_ok() && spec_head_fits(tile, data@) ==> match spec_intact_head(tile, data@) {
            Some(h) => r matches Some(v) && v@ == h,
            None => r is None,
        },
{
    let (runs, real_size) = match data {
        DataAttr::Runs { runs, real_size, .. } => (runs, *real_size),
        DataAttr::Resident(_) => return None,
    };
    if real_size == 0 {
        return None;
    }
    let cs = tile.cluster_size();
    let cap: u64 = if SEED_PREFIX_MAX < cs { SEED_PREFIX_MAX } else { cs };
    assert(spec_head_fits(tile, data@) == spec_head_fits_from(tile, runs@, real_size, cap as int, 0, Seq::empty()));
    let mut out: Vec<u8> = Vec::new();
    let mut i: usize = 0;
    while i < runs.len()
        invariant_except_break
            out@.len() < cap,
            spec_head_from(tile, runs@, real_size, cap as int, 0, Seq::empty()) == spec_head_from(
                tile,
                runs@,
                real_size,
                cap as int,
                i as int,
                out@,
            ),
            tile.tile_reads_ok() && spec_head_fits_from(tile, runs@, real_size, cap as int, 0, Seq::empty())
                ==> spec_head_fits_from(tile, runs@, real_size, cap as int, i as int, out@),
            spec_head_fits(tile, data@) == spec_head_fits_from(tile, runs@, real_size, cap as int, 0, Seq::empty()),
        invariant
            i <= runs@.len(),
            cs == tile.tile_cluster_size(),
            cs > 0,
            cap == (if SEED_PREFIX_MAX < cs { SEED_PREFIX_MAX as int } else { cs as int }),
            out@.len() <= real_size,
            out@.len() <= cap,
        ensures
            spec_head_from(tile, runs@, real_size, cap as int, 0, Seq::empty()) == out@,
        decreases runs@.len() - i,
    {
        let r = runs[i];
        if !run_free_exec(tile, r) {
            break;
        }
        let len128: u128 = r.length as u128;
        let cs128: u128 = cs as u128;
        assert(len128 * cs128 <= 0xffff_ffff_ffff_ffff * 0xffff_ffff_ffff_ffffu128) by (nonlinear_arith)
            requires
                len128 <= 0xffff_ffff_ffff_ffff,
                cs128 <= 0xffff_ffff_ffff_ffff,
        ;
        let chunk: u128 = len128 * cs128;
        let a: u128 = (real_size - out.len() as u64) as u128;
        let b: u128 = (cap - out.len() as u64) as u128;
        let emit128 = if chunk <= a && chunk <= b {
            chunk
        } else if a <= b {
            a
        } else {
            b
        };
        assert(emit128 == min3(runs@[i as int].length * cs, real_size - out@.len(), cap - out@.len()));
        if emit128 == 0 {
            break;
        }
        let emit = emit128 as usize;
        let off = tile.cluster_offset(r.cluster);
        assert(tile.tile_reads_ok() && spec_head_fits_from(tile, runs@, real_size, cap as int, 0, Seq::empty())
            ==> off + emit <= tile.tile_disk().len());
        let buf = match tile.read_at(off, emit) {
            Some(b) => b,
            None => return None,
        };
        let ghost before = out@;
        crate::bytes::append_all(&mut out, buf.as_slice());
        assert(out@ == before + tile_bytes(tile, tile.tile_offset(runs@[i as int].cluster), emit as int));
        if out.len() as u64 >= cap {
            break;
        }
        i += 1;
    }
    if out.len() == 0 {
        None
    } else {
        Some(out)
    }
}

/// The signatures (JPEG, PNG, PDF, ZIP, GIF87a, GIF89a, BMP, little- and
/// big-endian TIFF) that tell a plausible file head from garbage.
pub open spec fn known_magics() -> Seq<Seq<u8>> {
    seq![
        seq![0xFFu8, 0xD8, 0xFF],
        seq![0x89u8, 0x50, 0x4E, 0x47, 0x0D, 0x0A, 0x1A, 0x0A],
        seq![0x25u8, 0x50, 0x44, 0x46, 0x2D],
        seq![0x50u8, 0x4B, 0x03, 0x04],
        seq![0x47u8, 0x49, 0x46, 0x38, 0x37, 0x61],
        seq![0x47u8, 0x49, 0x46, 0x38, 0x39, 0x61],
        seq![0x42u8, 0x4D],
        seq![0x49u8, 0x49, 0x2A, 0x00],
        seq![0x4Du8, 0x4D, 0x00, 0x2A],
    ]
}

/// Whether `b` begins with one of the known signatures.
pub open spec fn spec_known_magic(b: Seq<u8>) -> bool {
    exists|k: int| 0 <= k < known_magics().len() && starts_with(b, #[trigger] known_magics()[k])
}

/// Whether `bytes` begins with a well-known file signature.
pub fn has_known_magic(bytes: &[u8]) -> (r: bool)
    ensures
        r == spec_known_magic(bytes@),
{
    let m0: [u8; 3] = [0xFF, 0xD8, 0xFF];
    let m1: [u8; 8] = [0x89, 0x50, 0x4E, 0x47, 0x0D, 0x0A, 0x1A, 0x0A];
    let m2: [u8; 5] = [0x25, 0x50, 0x44, 0x46, 0x2D];
    let m3: [u8; 4] = [0x50, 0x4B, 0x03, 0x04];
    let m4: [u8; 6] = [0x47, 0x49, 0x46, 0x38, 0x37, 0x61];
    let m5: [u8; 6] = [0x47, 0x49, 0x46, 0x38, 0x39, 0x61];
    let m6: [u8; 2] = [0x42, 0x4D];
    let m7: [u8; 4] = [0x49, 0x49, 0x2A, 0x00];
    let m8: [u8; 4] = [0x4D, 0x4D, 0x00, 0x2A];
    assert(m0@ == known_magics()[0]);
    assert(m1@ == known_magics()[1]);
    assert(m2@ == known_magics()[2]);
    assert(m3@ == known_magics()[3]);
    assert(m4@ == known_magics()[4]);
    assert(m5@ == known_magics()[5]);
    assert(m6@ == known_magics()[6]);
    assert(m7@ == known_magics()[7]);
    assert(m8@ == known_magics()[8]);
    let r = has_prefix(bytes, &m0) || has_prefix(bytes, &m1) || has_prefix(bytes, &m2)
        || has_prefix(bytes, &m3) || has_prefix(bytes, &m4) || has_prefix(bytes, &m5)
        || has_prefix(bytes, &m6) || has_prefix(bytes, &m7) || has_prefix(bytes, &m8);
    assert(known_magics().len() == 9);
    r
}

/// Whether cluster `c` lies inside one of the (non-sparse) runs.
pub open spec fn in_runs(runs: Seq<Run>, c: u64) -> bool {
    exists|k: int|
        0 <= k < runs.len() && (#[trigger] runs[k]).cluster != SPARSE && runs[k].cluster <= c
            < runs[k].cluster + runs[k].length
}

fn in_runs_exec(runs: &[Run], c: u64) -> (r: bool)
    ensures
        r == in_runs(runs@, c),
{
    let mut i: usize = 0;
    while i < runs.len()
        invariant
            i <= runs@.len(),
            forall|k: int|
                0 <= k < i ==> !((#[trigger] runs@[k]).cluster != SPARSE && runs@[k].cluster <= c
                    < runs@[k].cluster + runs@[k].length),
        decreases runs@.len() - i,
    {
        let r = runs[i];
        if r.cluster != SPARSE && c >= r.cluster && c - r.cluster < r.length {
            assert(runs@[i as int] == r);
            return true;
        }
        i += 1;
    }
    false
}

/// Cluster `c` is a copy candidate for `seed`: it lies on the volume, outside
/// the file's own runs, and its leading bytes spell the seed (up to one
/// cluster of it).
pub open spec fn seeded_match<T: Tile>(t: &T, seed: Seq<u8>, skip: Seq<Run>, c: u64) -> bool {
    let cs = t.tile_cluster_size() as int;
    let need = if seed.len() < cs { seed.len() as int } else { cs };
    &&& c < t.tile_cluster_count()
    &&& !in_runs(skip, c)
    &&& tile_bytes(t, t.tile_offset(c), need) == seed.subrange(0, need)
}

/// How many leading bytes of the seed are compared with a cluster: the
/// seed, up to one cluster of it.
pub open spec fn seed_need<T: Tile>(t: &T, seed: Seq<u8>) -> int {
    let cs = t.tile_cluster_size() as int;
    if seed.len() < cs { seed.len() as int } else { cs }
}

/// Whether reading the compared bytes of every cluster of the volume stays
/// inside the device.
pub open spec fn seed_reads_fit<T: Tile>(t: &T, seed: Seq<u8>) -> bool {
    forall|c: u64| c < t.tile_cluster_count() ==> #[trigger] t.tile_offset(c) + seed_need(t, seed) <= t.tile_disk().len()
}

/// Cluster `a` is tried before cluster `b`: free clusters come first, and
/// clusters of one kind in increasing order.
pub open spec fn searched_before<T: Tile>(t: &T, a: u64, b: u64) -> bool {
    (!t.tile_allocated(a) && t.tile_allocated(b)) || (t.tile_allocated(a) == t.tile_allocated(b) && a < b)
}

/// Scan the whole volume for a surviving copy of the deleted file, seeded by
/// its (intact) head bytes. The file's own original clusters are skipped to
/// avoid matching the stale location itself. Unallocated clusters are tried
/// first (untouched copies), then allocated ones (e.g. a re-saved version).
pub fn find_seeded_copy<T: Tile>(tile: &T, seed: &[u8], skip_runs: &[Run]) -> (r: Option<u64>)
    ensures
        r matches Some(c) ==> seeded_match(tile, seed@, skip_runs@, c),
        tile.tile_reads_ok() && seed_reads_fit(tile, seed@) ==> {
            &&& r is None ==> forall|c: u64| !#[trigger] seeded_match(tile, seed@, skip_runs@, c)
            &&& r matches Some(c) ==> forall|c2: u64|
                searched_before(tile, c2, c) ==> !#[trigger] seeded_match(tile, seed@, skip_runs@, c2)
        },
{
    let cs = tile.cluster_size();
    let n = tile.cluster_count();
    let need: usize = if (seed.len() as u64) < cs {
        seed.len()
    } else {
        cs as usize
    };
    assert(need == (if seed@.len() < cs { seed@.len() as int } else { cs as int }));
    let ghost ok = tile.tile_reads_ok() && seed_reads_fit(tile, seed@);
    let mut pass: u8 = 0;
    while pass < 2
        invariant
            pass <= 2,
            cs == tile.tile_cluster_size(),
            n == tile.tile_cluster_count(),
            need <= seed@.len(),
            need == (if seed@.len() < cs { seed@.len() as int } else { cs as int }),
            ok == (tile.tile_reads_ok() && seed_reads_fit(tile, seed@)),
            ok && pass >= 1 ==> forall|c2: u64|
                !tile.tile_allocated(c2) ==> !#[trigger] seeded_match(tile, seed@, skip_runs@, c2),
            ok && pass >= 2 ==> forall|c2: u64|
                tile.tile_allocated(c2) ==> !#[trigger] seeded_match(tile, seed@, skip_runs@, c2),
        decreases 2 - pass,
    {
        let want_free = pass == 0;
        let mut c: u64 = 0;
        while c < n
            invariant
                pass < 2,
                want_free == (pass == 0),
                c <= n,
                cs == tile.tile_cluster_size(),
                n == tile.tile_cluster_count(),
                need <= seed@.len(),
                need == (if seed@.len() < cs { seed@.len() as int } else { cs as int }),
                ok == (tile.tile_reads_ok() && seed_reads_fit(tile, seed@)),
                ok && pass >= 1 ==> forall|c2: u64|
                    !tile.tile_allocated(c2) ==> !#[trigger] seeded_match(tile, seed@, skip_runs@, c2),
                ok ==> forall|c2: u64|
                    c2 < c && tile.tile_allocated(c2) != want_free ==> !#[trigger] seeded_match(
                        tile,
                        seed@,
                        skip_runs@,
                        c2,
                    ),
            decreases n - c,
        {
            if !in_runs_exec(skip_runs, c) && tile.is_allocated(c) != want_free {
                let off = tile.cluster_offset(c);
                assert(ok ==> off + need <= tile.tile_disk().len());
                match tile.read_at(off, need) {
                    Some(buf) => {
                        if crate::bytes::bytes_at(seed, 0, buf.as_slice()) {
                            assert(buf@ == seed@.subrange(0, need as int));
                            return Some(c);
                        }
                        assert(!seeded_match(tile, seed@, skip_runs@, c));
                    },
                    None => {},
                }
            }
            c += 1;
        }
        pass += 1;
    }
    None
}

/// Bytes of `size` bytes read from consecutive clusters starting at `c`
/// (cluster numbers wrap around at 2^64).
pub open spec fn spec_read_from<T: Tile>(t: &T, c: u64, size: nat) -> Seq<u8>
    decreases size,
{
    if size == 0 {
        Seq::empty()
    } else {
        let cs = if t.tile_cluster_size() == 0 { 1 } else { t.tile_cluster_size() as nat };
        let emit: nat = if cs < size { cs } else { size };
        tile_bytes(t, t.tile_offset(c), emit as int) + spec_read_from(
            t,
            vstd::wrapping::u64_specs::wrapping_add(c, 1),
            (size - emit) as nat,
        )
    }
}

/// Whether the reads of `size` bytes from consecutive clusters starting at
/// `c` all lie inside the device and each fits in memory.
pub open spec fn spec_reads_fit<T: Tile>(t: &T, c: u64, size: nat) -> bool
    decreases size,
{
    if size == 0 {
        true
    } else {
        let cs = if t.tile_cluster_size() == 0 { 1 } else { t.tile_cluster_size() as nat };
        let emit: nat = if cs < size { cs } else { size };
        &&& t.tile_offset(c) + emit <= t.tile_disk().len()
        &&& emit <= usize::MAX
        &&& spec_reads_fit(t, vstd::wrapping::u64_specs::wrapping_add(c, 1), (size - emit) as nat)
    }
}

/// Read `size` bytes of consecutive clusters starting at `start`: they are
/// returned whenever the tile's reads are sound and every read lies inside
/// the device.
pub fn read_from<T: Tile>(tile: &T, start: u64, size: u64) -> (r: Option<Vec<u8>>)
    ensures
        r matches Some(v) ==> v@ == spec_read_from(tile, start, size as nat),
        tile.tile_reads_ok() && spec_reads_fit(tile, start, size as nat) ==> r is Some,
{
    let cs = tile.cluster_size();
    let mut out: Vec<u8> = Vec::new();
    let mut written: u64 = 0;
    let mut c = start;
    while written < size
        invariant
            cs == tile.tile_cluster_size(),
            cs > 0,
            written <= size,
            spec_read_from(tile, start, size as nat) == out@ + spec_read_from(
                tile,
                c,
                (size - written) as nat,
            ),
            tile.tile_reads_ok() && spec_reads_fit(tile, start, size as nat) ==> spec_reads_fit(
                tile,
                c,
                (size - written) as nat,
            ),
        decreases size - written,
    {
        let emit = if cs < size - written {
            cs
        } else {
            size - written
        };
        if emit > usize::MAX as u64 {
            return None;
        }
        let off = tile.cluster_offset(c);
        let buf = match tile.read_at(off, emit as usize) {
            Some(b) => b,
            None => return None,
        };
        let ghost before = out@;
        let ghost rest = spec_read_from(tile, c.wrapping_add(1), (size - written - emit) as nat);
        assert(spec_read_from(tile, c, (size - written) as nat) == buf@ + rest);
        append_all(&mut out, buf.as_slice());
        assert(before + (buf@ + rest) =~= out@ + rest);
        written += emit;
        c = c.wrapping_add(1);
    }
    assert(out@ + spec_read_from(tile, c, 0) =~= out@);
    Some(out)
}

/// Outcome of rebuilding an overwritten deleted file.
#[derive(Debug, Clone, Copy, PartialEq, Eq, Structural)]
pub enum Rebuild {
    /// Found and read a surviving copy of the full file.
    Full,
    /// No surviving copy, but the intact head carries a known signature; the
    /// (truncated) head is the best we can do.
    Partial,
    /// Nothing salvageable; the caller should skip the file instead of
    /// writing garbage.
    Skip,
}

/// `after` is `before` followed by a full copy of the file read from cluster
/// `c`, a copy candidate for the file's intact head.
pub open spec fn rebuilt_from_copy<T: Tile>(t: &T, d: DataAttrV, before: Seq<u8>, after: Seq<u8>, c: u64) -> bool {
    match d {
        DataAttrV::Runs { runs, real_size, .. } => match spec_intact_head(t, d) {
            Some(seed) => seeded_match(t, seed, runs, c) && after == before + spec_read_from(
                t,
                c,
                real_size as nat,
            ),
            None => false,
        },
        DataAttrV::Resident(_) => false,
    }
}

/// Cluster `c` is the copy candidate for `seed` that the scan meets first.
pub open spec fn first_copy<T: Tile>(t: &T, seed: Seq<u8>, skip: Seq<Run>, c: u64) -> bool {
    &&& seeded_match(t, seed, skip, c)
    &&& forall|c2: u64| searched_before(t, c2, c) ==> !#[trigger] seeded_match(t, seed, skip, c2)
}

/// Whether every read that rebuilding `d` can make lies inside the device:
/// gathering the intact head, comparing it with every cluster, and reading
/// the whole file from any copy candidate.
pub open spec fn spec_rebuild_fits<T: Tile>(t: &T, d: DataAttrV) -> bool {
    &&& spec_head_fits(t, d)
    &&& match (d, spec_intact_head(t, d)) {
        (DataAttrV::Runs { runs, real_size, .. }, Some(seed)) => {
            &&& seed_reads_fit(t, seed)
            &&& forall|c: u64| #[trigger] seeded_match(t, seed, runs, c) ==> spec_reads_fit(t, c, real_size as nat)
        },
        _ => true,
    }
}

/// What rebuilding `d` owes when every read succeeds: the full file when a
/// copy candidate of its intact head exists, else the head itself when it
/// carries a known signature, else nothing.
pub open spec fn spec_rebuild_kind<T: Tile>(t: &T, d: DataAttrV) -> Rebuild {
    match (d, spec_intact_head(t, d)) {
        (DataAttrV::Runs { runs, .. }, Some(seed)) => if exists|c: u64| #[trigger] seeded_match(t, seed, runs, c) {
            Rebuild::Full
        } else if spec_known_magic(seed) {
            Rebuild::Partial
        } else {
            Rebuild::Skip
        },
        _ => Rebuild::Skip,
    }
}

/// Rebuild an overwritten deleted file: use its intact head as a seed to
/// scan the volume for a surviving full copy; otherwise fall back to writing
/// the intact head when it matches a known file signature. With sound reads
/// that all lie inside the device, the outcome is `spec_rebuild_kind` and a
/// full rebuild reads the first copy candidate the scan meets.
pub fn stale_rebuild<T: Tile>(tile: &T, data: &DataAttr, out: &mut Vec<u8>) -> (r: Rebuild)
    ensures
        r is Skip ==> final(out)@ == old(out)@,
        r is Full ==> exists|c: u64| #[trigger] rebuilt_from_copy(tile, data@, old(out)@, final(out)@, c),
        r is Partial ==> (spec_intact_head(tile, data@) matches Some(seed) && spec_known_magic(seed)
            && final(out)@ == old(out)@ + seed),
        spec_intact_head(tile, data@) is None ==> r is Skip,
        tile.tile_reads_ok() && spec_rebuild_fits(tile, data@) ==> {
            &&& r == spec_rebuild_kind(tile, data@)
            &&& r is Full ==> exists|c: u64| #[trigger] rebuilt_from_copy(tile, data@, old(out)@, final(out)@, c)
                && first_copy(tile, spec_intact_head(tile, data@)->0, data@->runs, c)
        },
{
    let (runs, real_size) = match data {
        DataAttr::Runs { runs, real_size, .. } => (runs, *real_size),
        DataAttr::Resident(_) => return Rebuild::Skip,
    };
    let seed = match intact_head(tile, data) {
        Some(s) => s,
        None => return Rebuild::Skip,
    };
    match find_seeded_copy(tile, seed.as_slice(), runs.as_slice()) {
        Some(copy) => {
            match read_from(tile, copy, real_size) {
                Some(bytes) => {
                    append_all(out, bytes.as_slice());
                    assert(seeded_match(tile, seed@, runs@, copy) && final(out)@ == old(out)@
                        + spec_read_from(tile, copy, real_size as nat));
                    assert(data@ is Runs);
                    assert(spec_intact_head(tile, data@) == Some(seed@));
                    assert(rebuilt_from_copy(tile, data@, old(out)@, out@, copy));
                    assert(tile.tile_reads_ok() && spec_rebuild_fits(tile, data@) ==> first_copy(
                        tile,
                        seed@,
                        runs@,
                        copy,
                    ));
                    return Rebuild::Full;
                },
                None => {},
            }
        },
        None => {},
    }
    if has_known_magic(seed.as_slice()) {
        append_all(out, seed.as_slice());
        return Rebuild::Partial;
    }
    Rebuild::Skip
}

/// The uncompressed payload of runs `i..` once `written` of the `target`
/// bytes are out: each run gives up to its clusters' worth, a sparse run as
/// zeros.
pub open spec fn spec_run_bytes<T: Tile>(t: &T, runs: Seq<Run>, i: int, written: nat, target: nat) -> Seq<u8>
    decreases runs.len() - i,
{
    if i < 0 || i >= runs.len() || written >= target {
        Seq::empty()
    } else {
        let chunk = runs[i].length * t.tile_cluster_size();
        let emit: nat = if chunk < target - written { chunk as nat } else { (target - written) as nat };
        let part = if runs[i].cluster == SPARSE {
            Seq::new(emit, |k: int| 0u8)
        } else {
            tile_bytes(t, t.tile_offset(runs[i].cluster), emit as int)
        };
        part + spec_run_bytes(t, runs, i + 1, written + emit, target)
    }
}

/// The raw (still compressed) bytes of runs `i..`: every cluster of every
/// non-sparse run.
pub open spec fn spec_raw_runs<T: Tile>(t: &T, runs: Seq<Run>, i: int) -> Seq<u8>
    decreases runs.len() - i,
{
    if i < 0 || i >= runs.len() {
        Seq::empty()
    } else if runs[i].cluster == SPARSE {
        spec_raw_runs(t, runs, i + 1)
    } else {
        tile_bytes(t, t.tile_offset(runs[i].cluster), runs[i].length * t.tile_cluster_size())
            + spec_raw_runs(t, runs, i + 1)
    }
}

/// Whether the runs `i..` can each be read whole: every non-sparse run's
/// clusters fit in memory and lie inside the device.
pub open spec fn spec_raw_fits<T: Tile>(t: &T, runs: Seq<Run>, i: int) -> bool
    decreases runs.len() - i,
{
    if i < 0 || i >= runs.len() {
        true
    } else {
        let n = runs[i].length * t.tile_cluster_size();
        &&& (runs[i].cluster == SPARSE || (n <= usize::MAX && t.tile_offset(runs[i].cluster) + n
            <= t.tile_disk().len()))
        &&& spec_raw_fits(t, runs, i + 1)
    }
}

/// Whether the reads that copy runs `i..` (once `written` of the `target`
/// bytes are out) each fit in memory and lie inside the device.
pub open spec fn spec_run_fits<T: Tile>(t: &T, runs: Seq<Run>, i: int, written: nat, target: nat) -> bool
    decreases runs.len() - i,
{
    if i < 0 || i >= runs.len() || written >= target {
        true
    } else {
        let chunk = runs[i].length * t.tile_cluster_size();
        let emit: nat = if chunk < target - written { chunk as nat } else { (target - written) as nat };
        &&& emit <= usize::MAX
        &&& (runs[i].cluster == SPARSE || t.tile_offset(runs[i].cluster) + emit <= t.tile_disk().len())
        &&& spec_run_fits(t, runs, i + 1, written + emit, target)
    }
}

/// Whether every read that copying the payload of `d` makes fits in memory
/// and lies inside the device.
pub open spec fn spec_data_fits<T: Tile>(t: &T, d: DataAttrV) -> bool {
    match d {
        DataAttrV::Resident(_) => true,
        DataAttrV::Runs { runs, real_size, compressed } => if compressed {
            spec_raw_fits(t, runs, 0)
        } else {
            spec_run_fits(t, runs, 0, 0, real_size as nat)
        },
    }
}

/// `s` cut to at most `n` bytes.
pub open spec fn truncated(s: Seq<u8>, n: int) -> Seq<u8> {
    if s.len() > n {
        s.subrange(0, n)
    } else {
        s
    }
}

/// The payload a `DataAttrV` describes, as read through `t`.
pub open spec fn spec_data_bytes<T: Tile>(t: &T, d: DataAttrV) -> Seq<u8> {
    match d {
        DataAttrV::Resident(v) => v,
        DataAttrV::Runs { runs, real_size, compressed } => if compressed {
            truncated(lz_stream(spec_raw_runs(t, runs, 0), 0, Seq::empty()), real_size as int)
        } else {
            spec_run_bytes(t, runs, 0, 0, real_size as nat)
        },
    }
}

/// The exact product of two `u64` values.
pub fn mul_wide(a: u64, b: u64) -> (r: u128)
    ensures
        r == a * b,
{
    let a128 = a as u128;
    let b128 = b as u128;
    assert(a128 * b128 <= 0xffff_ffff_ffff_ffff * 0xffff_ffff_ffff_ffffu128) by (nonlinear_arith)
        requires
            a128 <= 0xffff_ffff_ffff_ffff,
            b128 <= 0xffff_ffff_ffff_ffff,
    ;
    a128 * b128
}

fn push_zeros(out: &mut Vec<u8>, n: usize)
    ensures
        final(out)@ == old(out)@ + Seq::new(n as nat, |k: int| 0u8),
{
    let mut k: usize = 0;
    while k < n
        invariant
            k <= n,
            out@ == old(out)@ + Seq::new(k as nat, |j: int| 0u8),
        decreases n - k,
    {
        out.push(0);
        k += 1;
        assert(out@ =~= old(out)@ + Seq::new(k as nat, |j: int| 0u8));
    }
}

/// Read the payload of a `DataAttr` into `out`. Returns `false` when a read
/// of the volume fails (`out` then holds a partial payload); resident data,
/// and data whose reads all lie inside the device of a tile whose reads are
/// sound, are always read.
pub fn read_data<T: Tile>(tile: &T, data: &DataAttr, out: &mut Vec<u8>) -> (ok: bool)
    ensures
        ok ==> final(out)@ == old(out)@ + spec_data_bytes(tile, data@),
        data@ is Resident ==> ok,
        tile.tile_reads_ok() && spec_data_fits(tile, data@) ==> ok,
{
    match data {
        DataAttr::Resident(v) => {
            append_all(out, v.as_slice());
            true
        },
        DataAttr::Runs { runs, real_size, compressed } => {
            let cs = tile.cluster_size();
            let target = *real_size;
            if *compressed {
                let mut raw: Vec<u8> = Vec::new();
                let mut i: usize = 0;
                while i < runs.len()
                    invariant
                        i <= runs@.len(),
                        data@ == (DataAttrV::Runs { runs: runs@, real_size: target, compressed: true }),
                        cs == tile.tile_cluster_size(),
                        spec_raw_runs(tile, runs@, 0) == raw@ + spec_raw_runs(tile, runs@, i as int),
                        tile.tile_reads_ok() && spec_raw_fits(tile, runs@, 0) ==> spec_raw_fits(
                            tile,
                            runs@,
                            i as int,
                        ),
                    decreases runs@.len() - i,
                {
                    let r = runs[i];
                    if r.cluster != SPARSE {
                        let n: u128 = mul_wide(r.length, cs);
                        if n > usize::MAX as u128 {
                            return false;
                        }
                        let buf = match tile.read_at(tile.cluster_offset(r.cluster), n as usize) {
                            Some(b) => b,
                            None => return false,
                        };
                        let ghost before = raw@;
                        append_all(&mut raw, buf.as_slice());
                        assert(before + (buf@ + spec_raw_runs(tile, runs@, i + 1)) =~= raw@
                            + spec_raw_runs(tile, runs@, i + 1));
                    }
                    i += 1;
                }
                assert(raw@ + spec_raw_runs(tile, runs@, runs@.len() as int) =~= raw@);
                let dec = lznt1_decompress(raw.as_slice());
                if (dec.len() as u64) > target {
                    crate::bytes::append_range(out, dec.as_slice(), 0, target as usize);
                } else {
                    append_all(out, dec.as_slice());
                }
                true
            } else {
                let mut written: u64 = 0;
                let mut i: usize = 0;
                while i < runs.len()
                    invariant_except_break
                        spec_data_bytes(tile, data@) == out@.subrange(old(out)@.len() as int, out@.len() as int)
                            + spec_run_bytes(tile, runs@, i as int, written as nat, target as nat),
                    invariant
                        i <= runs@.len(),
                        cs == tile.tile_cluster_size(),
                        written <= target,
                        data@ == (DataAttrV::Runs { runs: runs@, real_size: target, compressed: false }),
                        tile.tile_reads_ok() && spec_run_fits(tile, runs@, 0, 0, target as nat)
                            ==> spec_run_fits(tile, runs@, i as int, written as nat, target as nat),
                        out@.len() >= old(out)@.len(),
                        out@.subrange(0, old(out)@.len() as int) == old(out)@,
                    ensures
                        spec_data_bytes(tile, data@) == out@.subrange(old(out)@.len() as int, out@.len() as int),
                    decreases runs@.len() - i,
                {
                    if written >= target {
                        break;
                    }
                    let r = runs[i];
                    let chunk: u128 = mul_wide(r.length, cs);
                    let left: u64 = target - written;
                    let emit: u64 = if chunk < left as u128 {
                        chunk as u64
                    } else {
                        left
                    };
                    if emit as u128 > usize::MAX as u128 {
                        return false;
                    }
                    let ghost before = out@;
                    if r.cluster == SPARSE {
                        push_zeros(out, emit as usize);
                    } else {
                        let buf = match tile.read_at(tile.cluster_offset(r.cluster), emit as usize) {
                            Some(b) => b,
                            None => return false,
                        };
                        append_all(out, buf.as_slice());
                    }
                    assert(out@.subrange(old(out)@.len() as int, out@.len() as int) =~= before.subrange(
                        old(out)@.len() as int,
                        before.len() as int,
                    ) + out@.subrange(before.len() as int, out@.len() as int));
                    assert(out@.subrange(0, old(out)@.len() as int) =~= before.subrange(0, old(out)@.len() as int));
                    written += emit;
                    i += 1;
                }
                assert(out@ =~= old(out)@ + out@.subrange(old(out)@.len() as int, out@.len() as int));
                true
            }
        },
    }
}


/// A sanitized path component has as many characters as the original, no
/// character that cannot appear in a component, and every other character
/// unchanged; sanitizing it again changes nothing.
pub proof fn lemma_sanitize_clean(s: Seq<char>)
    ensures
        spec_sanitize(s).len() == s.len(),
        forall|i: int| 0 <= i < s.len() ==> !illegal_path_char(#[trigger] spec_sanitize(s)[i]),
        forall|i: int| 0 <= i < s.len() && !illegal_path_char(s[i]) ==> #[trigger] spec_sanitize(s)[i] == s[i],
        spec_sanitize(spec_sanitize(s)) == spec_sanitize(s),
{
    assert forall|i: int| 0 <= i < s.len() implies !illegal_path_char(#[trigger] spec_sanitize(s)[i]) by {
        assert(('_' as u32) == 0x5F);
    }
    assert(spec_sanitize(spec_sanitize(s)) =~= spec_sanitize(s));
}

/// Every path lies within the empty filter and within itself.
pub proof fn lemma_path_within_reflexive(p: Seq<u8>, c: Seq<u8>)
    ensures
        spec_path_within(Seq::empty(), c),
        spec_path_within(p, p),
{
    assert(p.subrange(0, p.len() as int) =~= p);
}

} // verus!
