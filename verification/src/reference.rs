//! Repair of a JPEG whose headers are destroyed, with the tables of an
//! intact reference photo (one taken with the same camera): the structural
//! pieces of both files, the reference template, and the rebuilt file.

use vstd::prelude::*;
use crate::bytes::{be16, copy_range, rd_be16};
use crate::jpeg::{
    WALK_GUARD, find_entropy_end, is_jpeg_sof, skip_ff, skip_ff_exec, skip_to_next_marker, spec_entropy_end,
    spec_next_marker, spec_rst_marker, spec_sof_marker,
};

verus! {

/// The concatenation of some byte strings.
pub open spec fn cat(ss: Seq<Seq<u8>>) -> Seq<u8>
    decreases ss.len(),
{
    if ss.len() == 0 {
        Seq::empty()
    } else {
        cat(ss.drop_last()) + ss.last()
    }
}

/// The values of some byte vectors.
pub open spec fn vecs_v(v: Seq<Vec<u8>>) -> Seq<Seq<u8>> {
    v.map_values(|x: Vec<u8>| x@)
}

/// Concatenate byte vectors.
pub fn concat(v: &Vec<Vec<u8>>) -> (r: Vec<u8>)
    ensures
        r@ == cat(vecs_v(v@)),
{
    let ghost vv = vecs_v(v@);
    let mut out: Vec<u8> = Vec::new();
    let mut i: usize = 0;
    while i < v.len()
        invariant
            i <= v@.len(),
            vv == vecs_v(v@),
            out@ == cat(vv.subrange(0, i as int)),
        decreases v@.len() - i,
    {
        crate::bytes::append_all(&mut out, v[i].as_slice());
        assert(vv.subrange(0, i + 1).drop_last() =~= vv.subrange(0, i as int));
        i += 1;
    }
    assert(vv.subrange(0, v@.len() as int) =~= vv);
    out
}

/// The structural pieces of a JPEG found by walking its markers.
#[derive(Debug, Clone)]
pub struct JpegParts {
    /// Every DQT segment (marker included), in order.
    pub dqt: Vec<Vec<u8>>,
    /// Every DHT segment (marker included), in order.
    pub dht: Vec<Vec<u8>>,
    /// The last usable start-of-frame segment.
    pub sof: Option<Vec<u8>>,
    /// Width, height, components and precision of that frame.
    pub sof_dims: Option<(u32, u32, u8, u8)>,
    /// The SOS header (after the marker).
    pub sos_payload: Option<Vec<u8>>,
    /// Start and end of the entropy-coded scan data.
    pub entropy: Option<(usize, usize)>,
}

/// Mathematical value of a `JpegParts`.
pub struct JpegPartsV {
    pub dqt: Seq<Seq<u8>>,
    pub dht: Seq<Seq<u8>>,
    pub sof: Option<Seq<u8>>,
    pub sof_dims: Option<(u32, u32, u8, u8)>,
    pub sos_payload: Option<Seq<u8>>,
    pub entropy: Option<(usize, usize)>,
}

pub open spec fn opt_v(o: Option<Vec<u8>>) -> Option<Seq<u8>> {
    match o {
        Some(v) => Some(v@),
        None => None,
    }
}

impl View for JpegParts {
    type V = JpegPartsV;

    open spec fn view(&self) -> JpegPartsV {
        JpegPartsV {
            dqt: vecs_v(self.dqt@),
            dht: vecs_v(self.dht@),
            sof: opt_v(self.sof),
            sof_dims: self.sof_dims,
            sos_payload: opt_v(self.sos_payload),
            entropy: self.entropy,
        }
    }
}

/// Geometry of a start-of-frame segment (marker included): width, height,
/// components and precision, when the segment is long enough for its
/// components and the size is not zero.
pub open spec fn spec_sof_dims(seg: Seq<u8>) -> Option<(u32, u32, u8, u8)> {
    if seg.len() < 11 || seg[0] != 0xFF || !spec_sof_marker(seg[1]) {
        None
    } else {
        let nc = seg[9];
        if nc == 0 || seg.len() < 10 + nc * 3 {
            None
        } else {
            let h = be16(seg, 5);
            let w = be16(seg, 7);
            if w == 0 || h == 0 {
                None
            } else {
                Some((w as u32, h as u32, nc, seg[4]))
            }
        }
    }
}

pub fn jpeg_sof_dims(seg: &[u8]) -> (r: Option<(u32, u32, u8, u8)>)
    ensures
        r == spec_sof_dims(seg@),
{
    if seg.len() < 11 || seg[0] != 0xFF || !is_jpeg_sof(seg[1]) {
        return None;
    }
    let nc = seg[9];
    if nc == 0 || seg.len() < 10 + nc as usize * 3 {
        return None;
    }
    let h = rd_be16(seg, 5);
    let w = rd_be16(seg, 7);
    if w == 0 || h == 0 {
        return None;
    }
    Some((w as u32, h as u32, nc, seg[4]))
}

/// End of the scan data from `i`, tolerant of stray `FF` bytes: only an EOI
/// or an `FF xx` followed by a length that fits the data ends it.
pub open spec fn tolerant_end(d: Seq<u8>, i: int) -> int
    decreases d.len() + 2 - i,
{
    let len = d.len() as int;
    if i < 0 || i >= len {
        len
    } else if d[i] != 0xFF {
        tolerant_end(d, i + 1)
    } else if i + 1 >= len {
        len
    } else {
        let nxt = d[i + 1];
        if nxt == 0x00 || nxt == 0xFF || spec_rst_marker(nxt) {
            tolerant_end(d, i + 2)
        } else if nxt == 0xD9 {
            i
        } else if i + 3 < len && be16(d, i + 2) >= 2 && i + 2 + be16(d, i + 2) <= len {
            i
        } else {
            tolerant_end(d, i + 1)
        }
    }
}

fn find_entropy_end_tolerant(data: &[u8], start: usize) -> (r: usize)
    ensures
        r == tolerant_end(data@, start as int),
        start <= data@.len() ==> start <= r <= data@.len(),
{
    let len = data.len();
    let mut i = start;
    proof {
        lemma_tolerant_end_bounds(data@, start as int);
    }
    while i < len
        invariant
            len == data@.len(),
            start <= i,
            tolerant_end(data@, start as int) == tolerant_end(data@, i as int),
        decreases len - i,
    {
        if data[i] != 0xFF {
            i += 1;
            continue;
        }
        if i + 1 >= len {
            return len;
        }
        let nxt = data[i + 1];
        if nxt == 0x00 || nxt == 0xFF || (0xD0 <= nxt && nxt <= 0xD7) {
            if len - i < 2 {
                return len;
            }
            i += 2;
            continue;
        }
        if nxt == 0xD9 {
            return i;
        }
        if len - i > 3 {
            let seg = rd_be16(data, i + 2) as usize;
            if seg >= 2 && seg <= len - i - 2 {
                return i;
            }
        }
        i += 1;
    }
    len
}

proof fn lemma_tolerant_end_bounds(d: Seq<u8>, i: int)
    requires
        0 <= i,
    ensures
        i <= d.len() ==> i <= tolerant_end(d, i),
        tolerant_end(d, i) <= d.len(),
    decreases d.len() + 2 - i,
{
    if i < d.len() {
        if d[i] != 0xFF {
            lemma_tolerant_end_bounds(d, i + 1);
        } else if i + 1 < d.len() {
            let nxt = d[i + 1];
            if nxt == 0x00 || nxt == 0xFF || spec_rst_marker(nxt) {
                lemma_tolerant_end_bounds(d, i + 2);
            } else if nxt == 0xD9 {
            } else if i + 3 < d.len() && be16(d, i + 2) >= 2 && i + 2 + be16(d, i + 2) <= d.len() {
            } else {
                lemma_tolerant_end_bounds(d, i + 1);
            }
        }
    }
}

/// Whether an `FF DA` at `i` starts a structurally valid SOS header:
/// one to four components and the matching length, inside the data.
pub open spec fn sos_header_ok(d: Seq<u8>, i: int) -> bool {
    let p = i + 2;
    let ns = d[p + 2] as int;
    d[i] == 0xFF && d[i + 1] == 0xDA && 1 <= ns <= 4 && be16(d, p) >= 6 && be16(d, p) == 6 + 2 * ns && p + be16(d, p)
        <= d.len()
}

/// The largest scan (SOS header, data start, data end) of those whose
/// header starts at `i` or later, given the best one before.
pub open spec fn best_scan_from(d: Seq<u8>, i: int, best: Option<(Seq<u8>, int, int)>) -> Option<(Seq<u8>, int, int)>
    decreases d.len() - i,
{
    if i < 0 || i + 6 > d.len() {
        best
    } else {
        let next = if sos_header_ok(d, i) {
            let p = i + 2;
            let es = p + be16(d, p);
            let ee = tolerant_end(d, es);
            if ee > es && match best {
                Some(b) => b.2 - b.1 < ee - es,
                None => true,
            } {
                Some((d.subrange(p, es), es, ee))
            } else {
                best
            }
        } else {
            best
        };
        best_scan_from(d, i + 1, next)
    }
}

pub open spec fn best_v(b: Option<(Vec<u8>, usize, usize)>) -> Option<(Seq<u8>, int, int)> {
    match b {
        Some((p, s, e)) => Some((p@, s as int, e as int)),
        None => None,
    }
}

/// The SOS marker whose scan data is the largest, located anywhere in the
/// data (used when the marker walk cannot reach the scan).
pub fn find_best_scan(data: &[u8]) -> (r: Option<(Vec<u8>, usize, usize)>)
    ensures
        match r {
            Some((p, es, ee)) => best_scan_from(data@, 0, None) == Some((p@, es as int, ee as int)) && es < ee <= data@.len(),
            None => best_scan_from(data@, 0, None) is None,
        },
{
    let len = data.len();
    let mut best: Option<(Vec<u8>, usize, usize)> = None;
    let mut i: usize = 0;
    while i <= len && len - i >= 6
        invariant
            len == data@.len(),
            best_scan_from(data@, 0, None) == best_scan_from(data@, i as int, best_v(best)),
            best matches Some((p, s, e)) ==> s < e <= len,
        decreases len - i,
    {
        if data[i] == 0xFF && data[i + 1] == 0xDA {
            let p = i + 2;
            let seg = rd_be16(data, p) as usize;
            let ns = data[p + 2] as usize;
            if 1 <= ns && ns <= 4 && seg >= 6 && seg == 6 + 2 * ns && seg <= len - p {
                let es = p + seg;
                let ee = find_entropy_end_tolerant(data, es);
                if ee > es {
                    let bigger = match &best {
                        Some((_, s, e)) => e - s < ee - es,
                        None => true,
                    };
                    if bigger {
                        best = Some((copy_range(data, p, es), es, ee));
                    }
                }
            }
        }
        i += 1;
    }
    best
}


pub open spec fn empty_parts() -> JpegPartsV {
    JpegPartsV { dqt: Seq::empty(), dht: Seq::empty(), sof: None, sof_dims: None, sos_payload: None, entropy: None }
}

/// The marker walk of `jpeg_parts` from `pos` (the image starts at
/// `start`), after `guard` steps, with `st` collected so far. A destroyed
/// marker (`FF 00`) or a corrupt length is skipped over to the next real
/// marker while no scan was found; the walk stops at the first scan.
pub open spec fn parts_walk(d: Seq<u8>, start: int, pos: int, st: JpegPartsV, guard: int) -> JpegPartsV
    decreases d.len() - pos, WALK_GUARD - guard,
{
    let len = d.len() as int;
    if pos < 0 || !(pos < len && guard < WALK_GUARD) || d[pos] != 0xFF {
        st
    } else {
        let j = skip_ff(d, pos + 1);
        if j >= len || j <= pos {
            st
        } else {
            let code = d[j];
            if code == 0x00 {
                if st.entropy is None {
                    match spec_next_marker(d, pos) {
                        Some(np) => if pos <= np < len {
                            parts_walk(d, start, np, st, guard + 1)
                        } else {
                            st
                        },
                        None => st,
                    }
                } else {
                    st
                }
            } else if code == 0xD8 {
                if pos > start {
                    st
                } else {
                    parts_walk(d, start, j + 1, st, guard + 1)
                }
            } else if code == 0xD9 || code == 0x01 || spec_rst_marker(code) {
                st
            } else {
                let s0 = j + 1;
                if s0 + 2 > len {
                    st
                } else {
                    let sl = be16(d, s0);
                    if sl < 2 || s0 + sl > len {
                        if st.entropy is None {
                            match spec_next_marker(d, pos) {
                                Some(np) => if pos <= np < len {
                                    parts_walk(d, start, np, st, guard + 1)
                                } else {
                                    st
                                },
                                None => st,
                            }
                        } else {
                            st
                        }
                    } else {
                        let seg = d.subrange(s0 - 2, s0 + sl);
                        if code == 0xDB {
                            parts_walk(d, start, s0 + sl, JpegPartsV { dqt: st.dqt.push(seg), ..st }, guard + 1)
                        } else if code == 0xC4 {
                            parts_walk(d, start, s0 + sl, JpegPartsV { dht: st.dht.push(seg), ..st }, guard + 1)
                        } else if code == 0xDA {
                            let es = s0 + sl;
                            let ee = spec_entropy_end(d, es);
                            JpegPartsV {
                                sos_payload: Some(d.subrange(s0, s0 + sl)),
                                entropy: if ee > es { Some((es as usize, ee as usize)) } else { st.entropy },
                                ..st
                            }
                        } else {
                            let st2 = if spec_sof_marker(code) {
                                match spec_sof_dims(seg) {
                                    Some(dm) => JpegPartsV { sof: Some(seg), sof_dims: Some(dm), ..st },
                                    None => st,
                                }
                            } else {
                                st
                            };
                            parts_walk(d, start, s0 + sl, st2, guard + 1)
                        }
                    }
                }
            }
        }
    }
}

/// The structural pieces of the JPEG that starts at `start`: those of the
/// marker walk, and, when it found no scan data, the largest scan found
/// anywhere in the data.
pub open spec fn spec_jpeg_parts(d: Seq<u8>, start: int) -> JpegPartsV {
    let st = parts_walk(d, start, start, empty_parts(), 0);
    if st.entropy is None {
        match best_scan_from(d, 0, None) {
            Some((p, es, ee)) => JpegPartsV { sos_payload: Some(p), entropy: Some((es as usize, ee as usize)), ..st },
            None => st,
        }
    } else {
        st
    }
}

proof fn lemma_push_view(v: Seq<Vec<u8>>, x: Vec<u8>)
    ensures
        vecs_v(v.push(x)) == vecs_v(v).push(x@),
{
    assert(vecs_v(v.push(x)) =~= vecs_v(v).push(x@));
}

/// Walk the marker stream and collect the structural pieces a repair
/// needs (see `spec_jpeg_parts`).
pub fn jpeg_parts(data: &[u8], start: usize) -> (r: JpegParts)
    requires
        data@.len() < usize::MAX,
    ensures
        r@ == spec_jpeg_parts(data@, start as int),
        r.entropy matches Some((es, ee)) ==> es < ee <= data@.len(),
{
    let len = data.len();
    let mut parts = JpegParts { dqt: Vec::new(), dht: Vec::new(), sof: None, sof_dims: None, sos_payload: None, entropy: None };
    assert(vecs_v(parts.dqt@) =~= Seq::<Seq<u8>>::empty());
    assert(vecs_v(parts.dht@) =~= Seq::<Seq<u8>>::empty());
    assert(parts@ == empty_parts());
    let mut pos = start;
    let mut guard: u64 = 0;
    loop
        invariant
            len == data@.len() < usize::MAX,
            parts_walk(data@, start as int, start as int, empty_parts(), 0) == parts_walk(
                data@,
                start as int,
                pos as int,
                parts@,
                guard as int,
            ),
            parts.entropy matches Some((es, ee)) ==> es < ee <= len,
        ensures
            parts_walk(data@, start as int, start as int, empty_parts(), 0) == parts@,
            parts.entropy matches Some((es, ee)) ==> es < ee <= len,
        decreases len - pos, WALK_GUARD - guard,
    {
        if !(pos < len && guard < WALK_GUARD) || data[pos] != 0xFF {
            break;
        }
        let j = skip_ff_exec(data, pos + 1);
        if j >= len {
            break;
        }
        let code = data[j];
        if code == 0x00 {
            if parts.entropy.is_none() {
                match skip_to_next_marker(data, pos) {
                    Some(np) => {
                        pos = np;
                        guard += 1;
                        continue;
                    },
                    None => {},
                }
            }
            break;
        }
        if code == 0xD8 {
            if pos > start {
                break;
            }
            pos = j + 1;
            guard += 1;
            continue;
        }
        if code == 0xD9 || code == 0x01 || (0xD0 <= code && code <= 0xD7) {
            break;
        }
        let s0 = j + 1;
        if len - s0 < 2 {
            break;
        }
        let sl = rd_be16(data, s0) as usize;
        if sl < 2 || sl > len - s0 {
            if parts.entropy.is_none() {
                match skip_to_next_marker(data, pos) {
                    Some(np) => {
                        pos = np;
                        guard += 1;
                        continue;
                    },
                    None => {},
                }
            }
            break;
        }
        let seg = copy_range(data, s0 - 2, s0 + sl);
        if code == 0xDB {
            let ghost old_parts = parts@;
            let ghost sv = seg@;
            proof {
                lemma_push_view(parts.dqt@, seg);
            }
            parts.dqt.push(seg);
            assert(parts@ == JpegPartsV { dqt: old_parts.dqt.push(sv), ..old_parts });
        } else if code == 0xC4 {
            let ghost old_parts = parts@;
            let ghost sv = seg@;
            proof {
                lemma_push_view(parts.dht@, seg);
            }
            parts.dht.push(seg);
            assert(parts@ == JpegPartsV { dht: old_parts.dht.push(sv), ..old_parts });
        } else if code == 0xDA {
            let es = s0 + sl;
            let ee = find_entropy_end(data, es);
            proof {
                crate::jpeg::lemma_entropy_end_bounds(data@, es as int);
            }
            parts.sos_payload = Some(copy_range(data, s0, es));
            if ee > es {
                parts.entropy = Some((es, ee));
            }
            break;
        } else if is_jpeg_sof(code) {
            match jpeg_sof_dims(seg.as_slice()) {
                Some(dm) => {
                    parts.sof = Some(seg);
                    parts.sof_dims = Some(dm);
                },
                None => {},
            }
        }
        pos = s0 + sl;
        guard += 1;
    }
    if parts.entropy.is_none() {
        match find_best_scan(data) {
            Some((p, es, ee)) => {
                parts.sos_payload = Some(p);
                parts.entropy = Some((es, ee));
            },
            None => {},
        }
    }
    parts
}


// ---------------------------------------------------------------------------
// Table segments
// ---------------------------------------------------------------------------

/// Sum of the `k` bytes of `d` from `p`.
pub open spec fn count_sum(d: Seq<u8>, p: int, k: int) -> int
    decreases k,
{
    if k <= 0 {
        0
    } else {
        count_sum(d, p, k - 1) + d[p + k - 1]
    }
}

proof fn lemma_count_sum_bound(d: Seq<u8>, p: int, k: int)
    requires
        0 <= k,
    ensures
        0 <= count_sum(d, p, k) <= 255 * k,
    decreases k,
{
    if k > 0 {
        lemma_count_sum_bound(d, p, k - 1);
    }
}

fn sum16(d: &[u8], p: usize) -> (r: usize)
    requires
        p + 16 <= d@.len(),
    ensures
        r == count_sum(d@, p as int, 16),
{
    let _n = d.len();
    let mut t: usize = 0;
    let mut k: usize = 0;
    while k < 16
        invariant
            p + 16 <= d@.len() <= usize::MAX,
            k <= 16,
            t == count_sum(d@, p as int, k as int),
            t <= 255 * k,
        decreases 16 - k,
    {
        t = t + d[p + k] as usize;
        k += 1;
    }
    t
}

/// The Huffman tables (class, id, symbols) of one DHT segment body, from
/// `p` up to `end`.
pub open spec fn dht_inner(d: Seq<u8>, p: int, end: int) -> Seq<(u8, u8, Seq<u8>)>
    decreases end - p,
{
    if p < 0 || p + 17 > end {
        Seq::empty()
    } else {
        let q = p + 17;
        let total = count_sum(d, p + 1, 16);
        if total < 0 || q + total > end {
            Seq::empty()
        } else {
            seq![(d[p] / 16, d[p] % 16, d.subrange(q, q + total))] + dht_inner(d, q + total, end)
        }
    }
}

/// The Huffman tables of the DHT segments that follow each other from `i`.
pub open spec fn dht_outer(d: Seq<u8>, i: int) -> Seq<(u8, u8, Seq<u8>)>
    decreases d.len() - i,
{
    let len = d.len() as int;
    if i < 0 || i + 4 > len || d[i] != 0xFF || d[i + 1] != 0xC4 {
        Seq::empty()
    } else {
        let sl = be16(d, i + 2);
        if sl < 2 || i + 2 + sl > len {
            Seq::empty()
        } else {
            dht_inner(d, i + 4, i + 2 + sl) + dht_outer(d, i + 2 + sl)
        }
    }
}

/// The values of parsed Huffman tables.
pub open spec fn tables_v(v: Seq<(u8, u8, Vec<u8>)>) -> Seq<(u8, u8, Seq<u8>)> {
    v.map_values(|t: (u8, u8, Vec<u8>)| (t.0, t.1, t.2@))
}

/// Parse the Huffman tables of a list of DHT segments.
pub fn parse_dht_tables(dht: &[u8]) -> (r: Vec<(u8, u8, Vec<u8>)>)
    ensures
        tables_v(r@) == dht_outer(dht@, 0),
{
    let len = dht.len();
    let mut out: Vec<(u8, u8, Vec<u8>)> = Vec::new();
    let mut i: usize = 0;
    assert(tables_v(out@) =~= Seq::<(u8, u8, Seq<u8>)>::empty());
    while i <= len && len - i >= 4 && dht[i] == 0xFF && dht[i + 1] == 0xC4
        invariant
            len == dht@.len(),
            dht_outer(dht@, 0) == tables_v(out@) + dht_outer(dht@, i as int),
        ensures
            dht_outer(dht@, 0) == tables_v(out@),
        decreases len - i,
    {
        let sl = rd_be16(dht, i + 2) as usize;
        if sl < 2 || sl > len - i - 2 {
            assert(tables_v(out@) + dht_outer(dht@, i as int) =~= tables_v(out@));
            break;
        }
        let end = i + 2 + sl;
        let mut p = i + 4;
        let ghost seg_start = tables_v(out@);
        while p <= end && end - p >= 17
            invariant
                len == dht@.len(),
                i + 4 <= p,
                end == i + 2 + sl <= len,
                dht_inner(dht@, (i + 4) as int, end as int) == tables_v(out@).subrange(seg_start.len() as int, tables_v(out@).len() as int) + dht_inner(dht@, p as int, end as int),
                tables_v(out@).subrange(0, seg_start.len() as int) == seg_start,
                seg_start.len() <= tables_v(out@).len(),
            ensures
                i + 4 <= p,
                dht_inner(dht@, (i + 4) as int, end as int) == tables_v(out@).subrange(seg_start.len() as int, tables_v(out@).len() as int),
                tables_v(out@).subrange(0, seg_start.len() as int) == seg_start,
                seg_start.len() <= tables_v(out@).len(),
            decreases end - p,
        {
            let tc = dht[p] / 16;
            let th = dht[p] % 16;
            let q = p + 17;
            let total = sum16(dht, p + 1);
            proof {
                lemma_count_sum_bound(dht@, (p + 1) as int, 16);
            }
            if total > end - q {
                assert(dht_inner(dht@, p as int, end as int) =~= Seq::<(u8, u8, Seq<u8>)>::empty());
                assert(tables_v(out@).subrange(seg_start.len() as int, tables_v(out@).len() as int) + dht_inner(dht@, p as int, end as int) =~= tables_v(out@).subrange(seg_start.len() as int, tables_v(out@).len() as int));
                break;
            }
            let syms = copy_range(dht, q, q + total);
            let ghost before = tables_v(out@);
            let ghost item = (tc, th, syms@);
            out.push((tc, th, syms));
            assert(tables_v(out@) =~= before.push(item));
            assert(tables_v(out@).subrange(seg_start.len() as int, tables_v(out@).len() as int) =~= before.subrange(
                seg_start.len() as int,
                before.len() as int,
            ).push(item));
            assert(tables_v(out@).subrange(0, seg_start.len() as int) =~= before.subrange(0, seg_start.len() as int));
            p = q + total;
        }
        proof {
            assert(tables_v(out@) =~= seg_start + tables_v(out@).subrange(seg_start.len() as int, tables_v(out@).len() as int));
        }
        i = end;
    }
    out
}


/// Size of a quantization table whose precision/id byte is `b`.
pub open spec fn qt_size(b: u8) -> int {
    if b / 16 == 0 { 64 } else { 128 }
}

/// Number of whole quantization tables in one DQT body, from `p` to `end`.
pub open spec fn dqt_inner_count(d: Seq<u8>, p: int, end: int) -> int
    decreases end - p,
{
    if p < 0 || p >= end || p + 1 + qt_size(d[p]) > end {
        0
    } else {
        1 + dqt_inner_count(d, p + 1 + qt_size(d[p]), end)
    }
}

/// Number of quantization tables in the DQT segments that follow each
/// other from `i`.
pub open spec fn dqt_outer_count(d: Seq<u8>, i: int) -> int
    decreases d.len() - i,
{
    let len = d.len() as int;
    if i < 0 || i + 4 > len || d[i] != 0xFF || d[i + 1] != 0xDB {
        0
    } else {
        let sl = be16(d, i + 2);
        if sl < 2 || i + 2 + sl > len {
            0
        } else {
            dqt_inner_count(d, i + 4, i + 2 + sl) + dqt_outer_count(d, i + 2 + sl)
        }
    }
}

proof fn lemma_dqt_inner_count_bound(d: Seq<u8>, p: int, end: int)
    ensures
        0 <= dqt_inner_count(d, p, end),
        p >= 0 ==> dqt_inner_count(d, p, end) <= if end > p { end - p } else { 0 },
    decreases end - p,
{
    if !(p < 0 || p >= end || p + 1 + qt_size(d[p]) > end) {
        lemma_dqt_inner_count_bound(d, p + 1 + qt_size(d[p]), end);
    }
}

proof fn lemma_dqt_outer_count_bound(d: Seq<u8>, i: int)
    ensures
        0 <= dqt_outer_count(d, i),
        i >= 0 ==> dqt_outer_count(d, i) <= if d.len() > i { d.len() - i } else { 0 },
    decreases d.len() - i,
{
    let len = d.len() as int;
    if !(i < 0 || i + 4 > len || d[i] != 0xFF || d[i + 1] != 0xDB) {
        let sl = be16(d, i + 2);
        if !(sl < 2 || i + 2 + sl > len) {
            lemma_dqt_inner_count_bound(d, i + 4, i + 2 + sl);
            lemma_dqt_outer_count_bound(d, i + 2 + sl);
        }
    }
}

/// Count the quantization tables of a list of DQT segments.
pub fn dqt_table_count(dqt: &[u8]) -> (r: usize)
    ensures
        r == dqt_outer_count(dqt@, 0),
{
    let len = dqt.len();
    proof {
        lemma_dqt_outer_count_bound(dqt@, 0);
    }
    let mut n: usize = 0;
    let mut i: usize = 0;
    while i <= len && len - i >= 4 && dqt[i] == 0xFF && dqt[i + 1] == 0xDB
        invariant
            len == dqt@.len(),
            i <= len,
            n + dqt_outer_count(dqt@, i as int) == dqt_outer_count(dqt@, 0),
            dqt_outer_count(dqt@, 0) <= len,
        ensures
            n == dqt_outer_count(dqt@, 0),
        decreases len - i,
    {
        proof {
            lemma_dqt_outer_count_bound(dqt@, i as int);
        }
        let sl = rd_be16(dqt, i + 2) as usize;
        if sl < 2 || sl > len - i - 2 {
            break;
        }
        let end = i + 2 + sl;
        let mut p = i + 4;
        proof {
            lemma_dqt_outer_count_bound(dqt@, end as int);
        }
        while p < end
            invariant
                len == dqt@.len(),
                i + 4 <= p,
                end == i + 2 + sl <= len,
                n + dqt_inner_count(dqt@, p as int, end as int) + dqt_outer_count(dqt@, end as int) == dqt_outer_count(dqt@, 0),
                dqt_outer_count(dqt@, 0) <= len,
                0 <= dqt_outer_count(dqt@, end as int),
            ensures
                n + dqt_outer_count(dqt@, end as int) == dqt_outer_count(dqt@, 0),
            decreases end - p,
        {
            let size: usize = if dqt[p] / 16 == 0 { 64 } else { 128 };
            if size + 1 > end - p {
                break;
            }
            proof {
                lemma_dqt_inner_count_bound(dqt@, (p + 1 + size) as int, end as int);
                assert(dqt_inner_count(dqt@, p as int, end as int) == 1 + dqt_inner_count(dqt@, (p + 1 + size) as int, end as int));
            }
            n += 1;
            p = p + 1 + size;
        }
        i = end;
    }
    n
}

/// Whether one DQT body from `p` to `end` is made of whole tables whose
/// first value is not zero, and how many there are.
pub open spec fn dqt_inner_valid(d: Seq<u8>, p: int, end: int) -> Option<int>
    decreases end - p,
{
    if p < 0 || p >= end {
        if p == end { Some(0) } else { None }
    } else if p + 1 + qt_size(d[p]) > end || d[p + 1] == 0 {
        None
    } else {
        match dqt_inner_valid(d, p + 1 + qt_size(d[p]), end) {
            Some(k) => Some(k + 1),
            None => None,
        }
    }
}

/// Whether the DQT segments from `i` hold only well-formed tables, and how
/// many tables they hold (`None` when one is malformed).
pub open spec fn dqt_outer_valid(d: Seq<u8>, i: int) -> Option<int>
    decreases d.len() - i,
{
    let len = d.len() as int;
    if i < 0 || i + 4 > len || d[i] != 0xFF || d[i + 1] != 0xDB {
        Some(0)
    } else {
        let sl = be16(d, i + 2);
        if sl < 2 || i + 2 + sl > len {
            None
        } else {
            match (dqt_inner_valid(d, i + 4, i + 2 + sl), dqt_outer_valid(d, i + 2 + sl)) {
                (Some(a), Some(b)) => Some(a + b),
                _ => None,
            }
        }
    }
}

/// Whether the DQT segments are usable: not empty, every table whole and
/// plausible, and enough tables for the frame: one for a grayscale frame,
/// two (luminance, and chrominance shared by the colour components) for a
/// frame of several components.
pub open spec fn spec_dqt_valid(d: Seq<u8>, ncomp: u8) -> bool {
    d.len() > 0 && match dqt_outer_valid(d, 0) {
        Some(n) => n >= 1 && (ncomp > 1 ==> n >= 2),
        None => false,
    }
}

proof fn lemma_dqt_inner_valid_bound(d: Seq<u8>, p: int, end: int)
    ensures
        dqt_inner_valid(d, p, end) matches Some(k) ==> 0 <= k && (p >= 0 ==> k <= end - p),
    decreases end - p,
{
    if !(p < 0 || p >= end) && !(p + 1 + qt_size(d[p]) > end || d[p + 1] == 0) {
        lemma_dqt_inner_valid_bound(d, p + 1 + qt_size(d[p]), end);
    }
}

proof fn lemma_dqt_outer_valid_bound(d: Seq<u8>, i: int)
    ensures
        dqt_outer_valid(d, i) matches Some(k) ==> 0 <= k && (i >= 0 ==> k <= if d.len() > i { d.len() - i } else { 0 }),
    decreases d.len() - i,
{
    let len = d.len() as int;
    if !(i < 0 || i + 4 > len || d[i] != 0xFF || d[i + 1] != 0xDB) {
        let sl = be16(d, i + 2);
        if !(sl < 2 || i + 2 + sl > len) {
            lemma_dqt_inner_valid_bound(d, i + 4, i + 2 + sl);
            lemma_dqt_outer_valid_bound(d, i + 2 + sl);
        }
    }
}

/// Whether DQT segments are usable for `ncomp` components (see
/// `spec_dqt_valid`).
pub fn dqt_has_valid_tables(dqt: &[u8], ncomp: u8) -> (r: bool)
    ensures
        r == spec_dqt_valid(dqt@, ncomp),
{
    let len = dqt.len();
    if len == 0 {
        return false;
    }
    let mut n: usize = 0;
    let mut i: usize = 0;
    proof {
        lemma_dqt_outer_valid_bound(dqt@, 0);
    }
    while i <= len && len - i >= 4 && dqt[i] == 0xFF && dqt[i + 1] == 0xDB
        invariant
            len == dqt@.len(),
            i <= len,
            n <= i,
            match dqt_outer_valid(dqt@, i as int) {
                Some(k) => dqt_outer_valid(dqt@, 0) == Some(n + k),
                None => dqt_outer_valid(dqt@, 0) is None,
            },
        ensures
            n <= len,
            dqt_outer_valid(dqt@, 0) == Some(n as int),
        decreases len - i,
    {
        proof {
            lemma_dqt_outer_valid_bound(dqt@, i as int);
        }
        let sl = rd_be16(dqt, i + 2) as usize;
        if sl < 2 || sl > len - i - 2 {
            return false;
        }
        let end = i + 2 + sl;
        let mut p = i + 4;
        let n0 = n;
        proof {
            lemma_dqt_outer_valid_bound(dqt@, end as int);
        }
        while p < end
            invariant
                len == dqt@.len(),
                i + 4 <= p <= end,
                end == i + 2 + sl <= len,
                n0 <= n,
                n - n0 <= p - (i + 4),
                n0 <= i,
                i + 4 <= len,
                dqt@[i as int] == 0xFF,
                dqt@[i + 1] == 0xDB,
                sl == be16(dqt@, i + 2),
                match dqt_outer_valid(dqt@, i as int) {
                    Some(k) => dqt_outer_valid(dqt@, 0) == Some(n0 + k),
                    None => dqt_outer_valid(dqt@, 0) is None,
                },
                match dqt_inner_valid(dqt@, i + 4, end as int) {
                    Some(a) => dqt_inner_valid(dqt@, p as int, end as int) == Some(a - (n - n0)),
                    None => dqt_inner_valid(dqt@, p as int, end as int) is None,
                },
            decreases end - p,
        {
            let size: usize = if dqt[p] / 16 == 0 { 64 } else { 128 };
            if size + 1 > end - p {
                return false;
            }
            if dqt[p + 1] == 0 {
                return false;
            }
            n += 1;
            p = p + 1 + size;
        }
        i = end;
    }
    n >= 1 && (ncomp <= 1 || n >= 2)
}


/// The components (id, DC table, AC table) an SOS header lists, as far as
/// the header holds them.
pub open spec fn sos_comps_upto(p: Seq<u8>, k: int) -> Seq<(u8, u8, u8)>
    decreases k,
{
    if k <= 0 {
        Seq::empty()
    } else {
        let prev = sos_comps_upto(p, k - 1);
        let base = 3 + 2 * (k - 1);
        if prev.len() == k - 1 && base + 1 < p.len() {
            prev.push((p[base], p[base + 1] / 16, p[base + 1] % 16))
        } else {
            prev
        }
    }
}

/// The components of an SOS header (empty when it is shorter than three
/// bytes).
pub open spec fn spec_sos_components(p: Seq<u8>) -> Seq<(u8, u8, u8)> {
    if p.len() < 3 {
        Seq::empty()
    } else {
        sos_comps_upto(p, p[2] as int)
    }
}

proof fn lemma_sos_comps_tail(p: Seq<u8>, k: int, m: int)
    requires
        0 <= k <= m,
        sos_comps_upto(p, k).len() < k,
    ensures
        sos_comps_upto(p, m) == sos_comps_upto(p, k),
    decreases m - k,
{
    if m > k {
        lemma_sos_comps_tail(p, k, m - 1);
    }
}

/// The components listed by an SOS header.
pub fn jpeg_sos_components(payload: &[u8]) -> (r: Vec<(u8, u8, u8)>)
    ensures
        r@ == spec_sos_components(payload@),
{
    let mut out: Vec<(u8, u8, u8)> = Vec::new();
    if payload.len() < 3 {
        return out;
    }
    let n = payload[2] as usize;
    let mut i: usize = 0;
    while i < n
        invariant
            payload@.len() >= 3,
            n == payload@[2] as int,
            i <= n,
            out@ == sos_comps_upto(payload@, i as int),
            out@.len() == i,
        ensures
            out@ == sos_comps_upto(payload@, n as int),
        decreases n - i,
    {
        let base = 3 + i * 2;
        if base + 1 < payload.len() {
            out.push((payload[base], payload[base + 1] / 16, payload[base + 1] % 16));
        } else {
            proof {
                assert(sos_comps_upto(payload@, i + 1) == sos_comps_upto(payload@, i as int));
                lemma_sos_comps_tail(payload@, (i + 1) as int, n as int);
            }
            break;
        }
        i += 1;
    }
    out
}

/// The sampling factors (horizontal, vertical) of each of `ncomp`
/// components of a frame header (1x1 where the header is too short).
pub open spec fn spec_sampling(seg: Seq<u8>, ncomp: int) -> Seq<(u8, u8)> {
    Seq::new(
        ncomp as nat,
        |i: int| {
            let base = 10 + i * 3;
            if base + 2 < seg.len() {
                (seg[base + 1] / 16, seg[base + 1] % 16)
            } else {
                (1u8, 1u8)
            }
        },
    )
}

/// The sampling factors of a frame's components (see `spec_sampling`).
pub fn jpeg_sampling_components(seg: &[u8], ncomp: u8) -> (r: Vec<(u8, u8)>)
    ensures
        r@ == spec_sampling(seg@, ncomp as int),
{
    let mut out: Vec<(u8, u8)> = Vec::new();
    let mut i: usize = 0;
    while i < ncomp as usize
        invariant
            i <= ncomp,
            out@ == spec_sampling(seg@, ncomp as int).subrange(0, i as int),
        decreases ncomp - i,
    {
        let base = 10 + i * 3;
        if base + 2 < seg.len() {
            out.push((seg[base + 1] / 16, seg[base + 1] % 16));
        } else {
            out.push((1, 1));
        }
        i += 1;
        assert(out@ =~= spec_sampling(seg@, ncomp as int).subrange(0, i as int));
    }
    assert(spec_sampling(seg@, ncomp as int).subrange(0, ncomp as int) =~= spec_sampling(seg@, ncomp as int));
    out
}

/// Whether the tables hold a non-empty table of class `tc` and id `th`.
pub open spec fn has_table(tables: Seq<(u8, u8, Seq<u8>)>, tc: u8, th: u8) -> bool {
    exists|k: int| 0 <= k < tables.len() && tables[k].0 == tc && tables[k].1 == th && tables[k].2.len() > 0
}

/// Whether DHT segments can decode a scan: they hold tables, and a
/// non-empty DC and AC table for every component the SOS header lists.
pub open spec fn spec_dht_usable(dht: Seq<u8>, sos: Seq<u8>) -> bool {
    let tables = dht_outer(dht, 0);
    tables.len() > 0 && forall|c: int|
        0 <= c < spec_sos_components(sos).len() ==> has_table(tables, 0, (#[trigger] spec_sos_components(sos)[c]).1)
            && has_table(tables, 1, spec_sos_components(sos)[c].2)
}

fn find_table(tables: &Vec<(u8, u8, Vec<u8>)>, tc: u8, th: u8) -> (r: bool)
    ensures
        r == has_table(tables_v(tables@), tc, th),
{
    let ghost tv = tables_v(tables@);
    let mut k: usize = 0;
    while k < tables.len()
        invariant
            k <= tables@.len(),
            tv == tables_v(tables@),
            forall|q: int| 0 <= q < k ==> !(tv[q].0 == tc && tv[q].1 == th && tv[q].2.len() > 0),
        decreases tables@.len() - k,
    {
        assert(tv[k as int] == (tables@[k as int].0, tables@[k as int].1, tables@[k as int].2@));
        if tables[k].0 == tc && tables[k].1 == th && tables[k].2.len() > 0 {
            return true;
        }
        k += 1;
    }
    false
}

/// Whether DHT segments can decode the scan whose header is `sos` (see
/// `spec_dht_usable`).
pub fn dht_usable(dht: &[u8], sos: &[u8]) -> (r: bool)
    ensures
        r == spec_dht_usable(dht@, sos@),
{
    let tables = parse_dht_tables(dht);
    if tables.len() == 0 {
        return false;
    }
    let comps = jpeg_sos_components(sos);
    let mut c: usize = 0;
    while c < comps.len()
        invariant
            c <= comps@.len(),
            comps@ == spec_sos_components(sos@),
            tables_v(tables@) == dht_outer(dht@, 0),
            forall|q: int|
                0 <= q < c ==> has_table(dht_outer(dht@, 0), 0, (#[trigger] comps@[q]).1) && has_table(
                    dht_outer(dht@, 0),
                    1,
                    comps@[q].2,
                ),
        decreases comps@.len() - c,
    {
        let (_, dct, act) = comps[c];
        if !find_table(&tables, 0, dct) || !find_table(&tables, 1, act) {
            return false;
        }
        c += 1;
    }
    true
}

/// The 16 symbol counts of the first table of class `tc` and id `th` in
/// one DHT body, from `p` to `end`.
pub open spec fn counts_inner(d: Seq<u8>, p: int, end: int, tc: u8, th: u8) -> Option<Seq<u8>>
    decreases end - p,
{
    if p < 0 || p + 17 > end {
        None
    } else if d[p] / 16 == tc && d[p] % 16 == th {
        Some(d.subrange(p + 1, p + 17))
    } else {
        let total = count_sum(d, p + 1, 16);
        if total < 0 || p + 17 + total > end {
            None
        } else {
            counts_inner(d, p + 17 + total, end, tc, th)
        }
    }
}

/// The symbol counts of the first table of class `tc` and id `th` in the
/// DHT segments that follow each other from `i`.
pub open spec fn counts_outer(d: Seq<u8>, i: int, tc: u8, th: u8) -> Option<Seq<u8>>
    decreases d.len() - i,
{
    let len = d.len() as int;
    if i < 0 || i + 4 > len || d[i] != 0xFF || d[i + 1] != 0xC4 {
        None
    } else {
        let sl = be16(d, i + 2);
        if sl < 2 || i + 2 + sl > len {
            None
        } else {
            match counts_inner(d, i + 4, i + 2 + sl, tc, th) {
                Some(c) => Some(c),
                None => counts_outer(d, i + 2 + sl, tc, th),
            }
        }
    }
}

/// The symbol counts of a Huffman table (see `counts_outer`).
pub fn dht_counts_for(dht: &[u8], tc: u8, th: u8) -> (r: Option<Vec<u8>>)
    ensures
        match r {
            Some(v) => counts_outer(dht@, 0, tc, th) == Some(v@) && v@.len() == 16,
            None => counts_outer(dht@, 0, tc, th) is None,
        },
{
    let len = dht.len();
    let mut i: usize = 0;
    while i <= len && len - i >= 4 && dht[i] == 0xFF && dht[i + 1] == 0xC4
        invariant
            len == dht@.len(),
            counts_outer(dht@, 0, tc, th) == counts_outer(dht@, i as int, tc, th),
        decreases len - i,
    {
        let sl = rd_be16(dht, i + 2) as usize;
        if sl < 2 || sl > len - i - 2 {
            return None;
        }
        let end = i + 2 + sl;
        let mut p = i + 4;
        while p <= end && end - p >= 17
            invariant
                len == dht@.len(),
                end == i + 2 + sl <= len,
                i + 4 <= len,
                dht@[i as int] == 0xFF,
                dht@[i + 1] == 0xC4,
                sl == be16(dht@, i + 2),
                counts_outer(dht@, 0, tc, th) == counts_outer(dht@, i as int, tc, th),
                counts_inner(dht@, (i + 4) as int, end as int, tc, th) == counts_inner(dht@, p as int, end as int, tc, th),
            ensures
                counts_inner(dht@, (i + 4) as int, end as int, tc, th) is None,
            decreases end - p,
        {
            if dht[p] / 16 == tc && dht[p] % 16 == th {
                return Some(copy_range(dht, p + 1, p + 17));
            }
            let total = sum16(dht, p + 1);
            proof {
                lemma_count_sum_bound(dht@, (p + 1) as int, 16);
            }
            if total > end - p - 17 {
                break;
            }
            p = p + 17 + total;
        }
        i = end;
    }
    None
}

/// A frame header with the image size replaced.
pub open spec fn spec_rewrite_sof(sof: Seq<u8>, w: u32, h: u32) -> Seq<u8> {
    if sof.len() >= 9 {
        sof.update(5, (h / 256 % 256) as u8).update(6, (h % 256) as u8).update(7, (w / 256 % 256) as u8).update(
            8,
            (w % 256) as u8,
        )
    } else {
        sof
    }
}

/// Replace the image size of a frame header (see `spec_rewrite_sof`).
pub fn rewrite_sof_dims(sof: &[u8], w: u32, h: u32) -> (r: Vec<u8>)
    ensures
        r@ == spec_rewrite_sof(sof@, w, h),
{
    let mut out = copy_range(sof, 0, sof.len());
    assert(sof@.subrange(0, sof@.len() as int) =~= sof@);
    if out.len() >= 9 {
        out.set(5, (h / 256 % 256) as u8);
        out.set(6, (h % 256) as u8);
        out.set(7, (w / 256 % 256) as u8);
        out.set(8, (w % 256) as u8);
    }
    out
}


// ---------------------------------------------------------------------------
// Huffman codes
// ---------------------------------------------------------------------------

/// The first code of the next length: the codes used so far, doubled
/// (in 32 bits).
pub open spec fn huff_next(code: int, n: int) -> int {
    ((code + n) * 2) % 0x1_0000_0000
}

/// The check of the canonical code assignment from length `bits` on: the
/// number of codes and the longest length in use, or `None` when a code
/// would not fit in 16 bits.
pub open spec fn huff_check(counts: Seq<u8>, bits: int, code: int, k: int, maxl: int) -> Option<(int, int)>
    decreases 17 - bits,
{
    if bits < 1 || bits > 16 {
        Some((k, maxl))
    } else {
        let n = counts[bits - 1] as int;
        if n > 0 && code + n - 1 > 0xFFFF {
            None
        } else {
            huff_check(counts, bits + 1, huff_next(code, n), k + n, if n > 0 { bits } else { maxl })
        }
    }
}

/// The canonical codes (code, length) from length `bits` on, the first of
/// them being `c`.
pub open spec fn huff_codes_from(counts: Seq<u8>, bits: int, c: int) -> Seq<(u32, u8)>
    decreases 17 - bits,
{
    if bits < 1 || bits > 16 {
        Seq::empty()
    } else {
        let n = counts[bits - 1] as int;
        Seq::new(n as nat, |i: int| ((c + i) as u32, bits as u8)) + huff_codes_from(counts, bits + 1, huff_next(c, n))
    }
}

/// The canonical Huffman codes of a table with these 16 symbol counts and
/// symbols, with the longest code length; `None` when the counts do not
/// match the symbols or a code does not fit in 16 bits.
pub open spec fn spec_build_huffman(counts: Seq<u8>, syms: Seq<u8>) -> Option<(Seq<(u32, u8)>, u8)> {
    match huff_check(counts, 1, 0, 0, 0) {
        None => None,
        Some((k, maxl)) => if k != syms.len() {
            None
        } else {
            Some((huff_codes_from(counts, 1, 0), maxl as u8))
        },
    }
}

proof fn lemma_huff_check_k(counts: Seq<u8>, bits: int, code: int, k: int, maxl: int)
    requires
        1 <= bits <= 17,
        0 <= maxl < bits,
    ensures
        huff_check(counts, bits, code, k, maxl) matches Some((k2, m2)) ==> k <= k2 <= k + 255 * (17 - bits) && 0 <= m2 <= 16,
    decreases 17 - bits,
{
    if bits <= 16 {
        let n = counts[bits - 1] as int;
        if !(n > 0 && code + n - 1 > 0xFFFF) {
            lemma_huff_check_k(counts, bits + 1, huff_next(code, n), k + n, if n > 0 { bits } else { maxl });
        }
    }
}

proof fn lemma_huff_codes_len(counts: Seq<u8>, bits: int, c: int, code: int, k: int, maxl: int)
    requires
        1 <= bits <= 17,
    ensures
        huff_check(counts, bits, code, k, maxl) matches Some((k2, m2)) ==> huff_codes_from(counts, bits, c).len() == k2 - k,
    decreases 17 - bits,
{
    if bits <= 16 {
        let n = counts[bits - 1] as int;
        lemma_huff_codes_len(counts, bits + 1, huff_next(c, n), huff_next(code, n), k + n, if n > 0 { bits } else { maxl });
    }
}

/// Build the canonical Huffman codes of a table (see `spec_build_huffman`).
pub fn build_huffman_codes(counts: &[u8], syms: &[u8]) -> (r: Option<(Vec<(u32, u8)>, u8)>)
    requires
        counts@.len() == 16,
    ensures
        match r {
            Some((v, m)) => spec_build_huffman(counts@, syms@) == Some((v@, m)) && v@.len() == syms@.len(),
            None => spec_build_huffman(counts@, syms@) is None,
        },
{
    let mut code: u32 = 0;
    let mut k: usize = 0;
    let mut maxl: u8 = 0;
    let mut bits: u8 = 1;
    while bits <= 16
        invariant
            counts@.len() == 16,
            1 <= bits <= 17,
            maxl < bits,
            k <= 255 * (bits - 1),
            huff_check(counts@, 1, 0, 0, 0) == huff_check(counts@, bits as int, code as int, k as int, maxl as int),
        decreases 17 - bits,
    {
        let n = counts[(bits - 1) as usize];
        let mut j: u8 = 0;
        let c0 = code;
        while j < n
            invariant
                j <= n,
                code == c0 + j,
                c0 + j - 1 <= 0xFFFF || j == 0,
                counts@.len() == 16,
                1 <= bits <= 16,
                n == counts@[bits - 1],
                huff_check(counts@, 1, 0, 0, 0) == huff_check(counts@, bits as int, c0 as int, k as int, maxl as int),
            decreases n - j,
        {
            if code > 0xFFFF {
                assert(c0 + n - 1 > 0xFFFF);
                return None;
            }
            code = code + 1;
            j += 1;
        }
        if n > 0 {
            maxl = bits;
        }
        let ghost before = code as int;
        assert((code << 1u32) == (code as int * 2) % 0x1_0000_0000) by (bit_vector);
        code = code << 1u32;
        assert(code as int == huff_next(c0 as int, n as int));
        k = k + n as usize;
        bits = bits + 1;
    }
    proof {
        lemma_huff_check_k(counts@, 1, 0, 0, 0);
    }
    if k != syms.len() {
        return None;
    }
    let ghost total = k;
    proof {
        lemma_huff_codes_len(counts@, 1, 0, 0, 0, 0);
    }
    let mut out: Vec<(u32, u8)> = Vec::new();
    let mut c: u32 = 0;
    let mut b: u8 = 1;
    let ghost mut kk: int = 0;
    let ghost mut ml: int = 0;
    while b <= 16
        invariant
            counts@.len() == 16,
            1 <= b <= 17,
            0 <= ml < b,
            huff_check(counts@, 1, 0, 0, 0) == huff_check(counts@, b as int, c as int, kk, ml),
            huff_check(counts@, 1, 0, 0, 0) == Some((total as int, maxl as int)),
            huff_codes_from(counts@, 1, 0) == out@ + huff_codes_from(counts@, b as int, c as int),
        decreases 17 - b,
    {
        let n = counts[(b - 1) as usize];
        let ghost c0 = c as int;
        assert(!(n > 0 && c0 + n - 1 > 0xFFFF));
        let ghost level = Seq::new(n as nat, |i: int| ((c0 + i) as u32, b as u8));
        let ghost base = out@;
        let mut j: u8 = 0;
        while j < n
            invariant
                j <= n,
                c == c0 + j,
                n == 0 || c0 + n - 1 <= 0xFFFF,
                1 <= b <= 16,
                level == Seq::new(n as nat, |i: int| ((c0 + i) as u32, b as u8)),
                out@ == base + level.subrange(0, j as int),
            decreases n - j,
        {
            out.push((c, b));
            c = c + 1;
            j += 1;
            assert(out@ =~= base + level.subrange(0, j as int));
        }
        assert(level.subrange(0, n as int) =~= level);
        assert((c << 1u32) == (c as int * 2) % 0x1_0000_0000) by (bit_vector);
        c = c << 1u32;
        proof {
            assert(huff_codes_from(counts@, b as int, c0) == level + huff_codes_from(counts@, b + 1, huff_next(c0, n as int)));
            assert(base + level + huff_codes_from(counts@, b + 1, c as int) =~= out@ + huff_codes_from(counts@, b + 1, c as int));
            ml = if n > 0 { b as int } else { ml };
            kk = kk + n;
        }
        b = b + 1;
    }
    assert(out@ + huff_codes_from(counts@, 17, c as int) =~= out@);
    Some((out, maxl))
}

/// Index of the first `x` in `s` from `i` on.
pub open spec fn first_index(s: Seq<u8>, x: u8, i: int) -> Option<int>
    decreases s.len() - i,
{
    if i < 0 || i >= s.len() {
        None
    } else if s[i] == x {
        Some(i)
    } else {
        first_index(s, x, i + 1)
    }
}

/// The code of the first occurrence of `sym` among the symbols.
pub fn huff_lookup(codes: &Vec<(u32, u8)>, syms: &[u8], sym: u8) -> (r: Option<(u32, u8)>)
    requires
        codes@.len() == syms@.len(),
    ensures
        match first_index(syms@, sym, 0) {
            Some(i) => r == Some(codes@[i]),
            None => r is None,
        },
{
    let mut i: usize = 0;
    while i < syms.len()
        invariant
            i <= syms@.len(),
            codes@.len() == syms@.len(),
            first_index(syms@, sym, 0) == first_index(syms@, sym, i as int),
        decreases syms@.len() - i,
    {
        if syms[i] == sym {
            return Some(codes[i]);
        }
        i += 1;
    }
    None
}


// ---------------------------------------------------------------------------
// Reference template
// ---------------------------------------------------------------------------

/// The reusable structure of an intact JPEG from the reference camera.
#[derive(Debug, Clone)]
pub struct JpegTemplate {
    pub dqt: Vec<u8>,
    pub dht: Vec<u8>,
    pub sof: Vec<u8>,
    pub sos_payload: Vec<u8>,
    pub width: u32,
    pub height: u32,
    pub ncomp: u8,
    pub prec: u8,
    pub sampling: Vec<(u8, u8)>,
    pub sos_comps: Vec<(u8, u8, u8)>,
    pub hmax: u8,
    pub vmax: u8,
    pub baseline: bool,
    /// Per DC table id (0 to 3): the code of the zero difference.
    pub dc_code0: Vec<Option<(u32, u8)>>,
    /// Per AC table id (0 to 3): the end-of-block code.
    pub eob_code: Vec<Option<(u32, u8)>>,
}

/// Mathematical value of a `JpegTemplate`.
pub struct JpegTemplateV {
    pub dqt: Seq<u8>,
    pub dht: Seq<u8>,
    pub sof: Seq<u8>,
    pub sos_payload: Seq<u8>,
    pub width: u32,
    pub height: u32,
    pub ncomp: u8,
    pub prec: u8,
    pub sampling: Seq<(u8, u8)>,
    pub sos_comps: Seq<(u8, u8, u8)>,
    pub hmax: u8,
    pub vmax: u8,
    pub baseline: bool,
    pub dc_code0: Seq<Option<(u32, u8)>>,
    pub eob_code: Seq<Option<(u32, u8)>>,
}

impl View for JpegTemplate {
    type V = JpegTemplateV;

    open spec fn view(&self) -> JpegTemplateV {
        JpegTemplateV {
            dqt: self.dqt@,
            dht: self.dht@,
            sof: self.sof@,
            sos_payload: self.sos_payload@,
            width: self.width,
            height: self.height,
            ncomp: self.ncomp,
            prec: self.prec,
            sampling: self.sampling@,
            sos_comps: self.sos_comps@,
            hmax: self.hmax,
            vmax: self.vmax,
            baseline: self.baseline,
            dc_code0: self.dc_code0@,
            eob_code: self.eob_code@,
        }
    }
}

/// Largest horizontal (`vert` false) or vertical sampling factor among the
/// first `n` components.
pub open spec fn max_factor(s: Seq<(u8, u8)>, n: int, vert: bool) -> u8
    decreases n,
{
    if n <= 0 {
        0
    } else {
        let m = max_factor(s, n - 1, vert);
        let f = if vert { s[n - 1].1 } else { s[n - 1].0 };
        if f > m { f } else { m }
    }
}

/// The code of symbol `sym` in a table, if it has that symbol.
pub open spec fn lookup(codes: Seq<(u32, u8)>, syms: Seq<u8>, sym: u8) -> Option<(u32, u8)> {
    match first_index(syms, sym, 0) {
        Some(i) => Some(codes[i]),
        None => None,
    }
}

/// The zero-difference DC codes and end-of-block codes of the first `n`
/// Huffman tables (tables with an id of 4 or more are skipped); `None` when
/// a table's counts cannot be found or its codes cannot be built.
pub open spec fn template_codes(dht: Seq<u8>, tables: Seq<(u8, u8, Seq<u8>)>, n: int) -> Option<
    (Seq<Option<(u32, u8)>>, Seq<Option<(u32, u8)>>),
>
    decreases n,
{
    if n <= 0 {
        Some((seq![None, None, None, None], seq![None, None, None, None]))
    } else {
        match template_codes(dht, tables, n - 1) {
            None => None,
            Some((dc, eob)) => {
                let t = tables[n - 1];
                if t.1 >= 4 {
                    Some((dc, eob))
                } else {
                    match counts_outer(dht, 0, t.0, t.1) {
                        None => None,
                        Some(counts) => match spec_build_huffman(counts, t.2) {
                            None => None,
                            Some((codes, _m)) => if t.0 == 0 {
                                Some((dc.update(t.1 as int, lookup(codes, t.2, 0)), eob))
                            } else {
                                Some((dc, eob.update(t.1 as int, lookup(codes, t.2, 0))))
                            },
                        },
                    }
                }
            },
        }
    }
}

/// The template of a reference JPEG: its tables, frame and scan headers,
/// size, sampling, and the codes a blank scan is made of; `None` when the
/// reference lacks a usable frame, scan header, or tables.
pub open spec fn spec_extract_template(d: Seq<u8>) -> Option<JpegTemplateV> {
    let start = match crate::jpeg::spec_find_jpeg_start(d) {
        Some(s) => s,
        None => 0,
    };
    let parts = spec_jpeg_parts(d, start);
    match (parts.sof, parts.sof_dims, parts.sos_payload) {
        (Some(sof), Some((w, h, nc, prec)), Some(sos)) => {
            if nc == 0 || w == 0 || h == 0 || parts.dqt.len() == 0 || parts.dht.len() == 0 {
                None
            } else {
                let sampling = spec_sampling(sof, nc as int);
                let comps = spec_sos_components(sos);
                if comps.len() != nc {
                    None
                } else {
                    let dht = cat(parts.dht);
                    let tables = dht_outer(dht, 0);
                    match template_codes(dht, tables, tables.len() as int) {
                        None => None,
                        Some((dc, eob)) => Some(
                            JpegTemplateV {
                                dqt: cat(parts.dqt),
                                dht,
                                sof,
                                sos_payload: sos,
                                width: w,
                                height: h,
                                ncomp: nc,
                                prec,
                                sampling,
                                sos_comps: comps,
                                hmax: max_factor(sampling, nc as int, false),
                                vmax: max_factor(sampling, nc as int, true),
                                baseline: sof.len() > 1 && sof[1] == 0xC0,
                                dc_code0: dc,
                                eob_code: eob,
                            },
                        ),
                    }
                }
            }
        },
        _ => None,
    }
}

fn max_factors(s: &Vec<(u8, u8)>) -> (r: (u8, u8))
    ensures
        r == (max_factor(s@, s@.len() as int, false), max_factor(s@, s@.len() as int, true)),
{
    let mut h: u8 = 0;
    let mut v: u8 = 0;
    let mut i: usize = 0;
    while i < s.len()
        invariant
            i <= s@.len(),
            h == max_factor(s@, i as int, false),
            v == max_factor(s@, i as int, true),
        decreases s@.len() - i,
    {
        if s[i].0 > h {
            h = s[i].0;
        }
        if s[i].1 > v {
            v = s[i].1;
        }
        i += 1;
    }
    (h, v)
}

/// Extract the template of a reference JPEG (see `spec_extract_template`).
pub fn extract_jpeg_template(data: &[u8]) -> (r: Option<JpegTemplate>)
    requires
        data@.len() < usize::MAX,
    ensures
        match r {
            Some(t) => spec_extract_template(data@) == Some(t@),
            None => spec_extract_template(data@) is None,
        },
{
    let start: usize = match crate::jpeg::find_jpeg_start(data) {
        Some(s) => s,
        None => 0,
    };
    let parts = jpeg_parts(data, start);
    let sof = match parts.sof {
        Some(s) => s,
        None => {
            return None;
        },
    };
    let (w, h, nc, prec) = match parts.sof_dims {
        Some(x) => x,
        None => {
            return None;
        },
    };
    let sos = match parts.sos_payload {
        Some(p) => p,
        None => {
            return None;
        },
    };
    if nc == 0 || w == 0 || h == 0 || parts.dqt.len() == 0 || parts.dht.len() == 0 {
        return None;
    }
    let sampling = jpeg_sampling_components(sof.as_slice(), nc);
    let comps = jpeg_sos_components(sos.as_slice());
    if comps.len() != nc as usize {
        return None;
    }
    let (hmax, vmax) = max_factors(&sampling);
    let dht = concat(&parts.dht);
    let dqt = concat(&parts.dqt);
    let tables = parse_dht_tables(dht.as_slice());
    let mut dc: Vec<Option<(u32, u8)>> = vec![None, None, None, None];
    let mut eob: Vec<Option<(u32, u8)>> = vec![None, None, None, None];
    assert(dc@ =~= seq![None, None, None, None]);
    assert(eob@ =~= seq![None, None, None, None]);
    let ghost tv = tables_v(tables@);
    assert(template_codes(dht@, tv, tv.len() as int) is None ==> spec_extract_template(data@) is None);
    let mut k: usize = 0;
    while k < tables.len()
        invariant
            k <= tables@.len(),
            tv == tables_v(tables@),
            template_codes(dht@, tv, tv.len() as int) is None ==> spec_extract_template(data@) is None,
            tv == dht_outer(dht@, 0),
            dc@.len() == 4,
            eob@.len() == 4,
            template_codes(dht@, tv, k as int) == Some((dc@, eob@)),
        decreases tables@.len() - k,
    {
        let tc = tables[k].0;
        let th = tables[k].1;
        assert(tv[k as int] == (tc, th, tables@[k as int].2@));
        if th < 4 {
            let counts = match dht_counts_for(dht.as_slice(), tc, th) {
                Some(c) => c,
                None => {
                    assert(template_codes(dht@, tv, k + 1) is None);
                    proof {
                        lemma_template_codes_none(dht@, tv, k + 1, tv.len() as int);
                    }
                    return None;
                },
            };
            let (codes, _m) = match build_huffman_codes(counts.as_slice(), tables[k].2.as_slice()) {
                Some(x) => x,
                None => {
                    assert(template_codes(dht@, tv, k + 1) is None);
                    proof {
                        lemma_template_codes_none(dht@, tv, k + 1, tv.len() as int);
                    }
                    return None;
                },
            };
            let code = huff_lookup(&codes, tables[k].2.as_slice(), 0);
            if tc == 0 {
                dc.set(th as usize, code);
            } else {
                eob.set(th as usize, code);
            }
        }
        k += 1;
    }
    let baseline = sof.len() > 1 && sof[1] == 0xC0;
    Some(
        JpegTemplate {
            dqt,
            dht,
            sof,
            sos_payload: sos,
            width: w,
            height: h,
            ncomp: nc,
            prec,
            sampling,
            sos_comps: comps,
            hmax,
            vmax,
            baseline,
            dc_code0: dc,
            eob_code: eob,
        },
    )
}

proof fn lemma_template_codes_none(dht: Seq<u8>, tables: Seq<(u8, u8, Seq<u8>)>, k: int, n: int)
    requires
        0 <= k <= n,
        template_codes(dht, tables, k) is None,
    ensures
        template_codes(dht, tables, n) is None,
    decreases n - k,
{
    if n > k {
        lemma_template_codes_none(dht, tables, k, n - 1);
    }
}


// ---------------------------------------------------------------------------
// Blank scan
// ---------------------------------------------------------------------------

/// A byte of entropy-coded data as written: `FF` is followed by a stuffed
/// zero.
pub open spec fn stuffed(b: u8) -> Seq<u8> {
    if b == 0xFF { seq![0xFFu8, 0x00] } else { seq![b] }
}

/// The state of the bit writer: the bytes written and the pending bits
/// (`nbits` of them, the low bits of `acc`).
pub struct BitState {
    pub out: Seq<u8>,
    pub acc: u32,
    pub nbits: u32,
}

/// The mask of the low `shift` bits.
pub open spec fn low_mask(shift: u32) -> u32 {
    if shift == 0 { 0 } else { ((1u32 << shift) - 1) as u32 }
}

/// Write out the whole bytes among the pending bits, most significant
/// first.
pub open spec fn bw_drain(st: BitState) -> BitState
    decreases st.nbits,
{
    if st.nbits < 8 {
        st
    } else {
        let shift = (st.nbits - 8) as u32;
        let b = ((st.acc >> shift) & 0xFF) as u8;
        bw_drain(BitState { out: st.out + stuffed(b), acc: st.acc & low_mask(shift), nbits: shift })
    }
}

/// Append the `len` low bits of `code` to the pending bits, and write out
/// the whole bytes.
pub open spec fn bw_put(st: BitState, code: u32, len: u8) -> BitState {
    bw_drain(BitState { acc: (st.acc << (len as u32)) | code, nbits: (st.nbits + len) as u32, ..st })
}

/// The bytes written after the pending bits are padded with zeros to a
/// whole byte.
pub open spec fn bw_flush(st: BitState) -> Seq<u8> {
    if st.nbits > 0 {
        st.out + stuffed(((st.acc << ((8 - st.nbits) as u32)) & 0xFF) as u8)
    } else {
        st.out
    }
}

/// The writer after the codes of `codes` were put in order.
pub open spec fn bw_run(st: BitState, codes: Seq<(u32, u8)>) -> BitState
    decreases codes.len(),
{
    if codes.len() == 0 {
        st
    } else {
        let c = codes.last();
        bw_put(bw_run(st, codes.drop_last()), c.0, c.1)
    }
}

/// `s` repeated `n` times.
pub open spec fn repeat<A>(s: Seq<A>, n: int) -> Seq<A>
    decreases n,
{
    if n <= 0 {
        Seq::empty()
    } else {
        repeat(s, n - 1) + s
    }
}

/// The sampling factors of the component with id `cid` (1x1 when the frame
/// does not list it).
pub open spec fn comp_sampling(sampling: Seq<(u8, u8)>, cid: u8) -> (u8, u8) {
    let idx = if cid >= 1 { cid - 1 } else { 0 };
    if idx < sampling.len() { sampling[idx] } else { (1u8, 1u8) }
}

/// The codes of one component in one MCU: for each of its blocks, the
/// zero DC difference and the end of block.
pub open spec fn comp_codes(t: JpegTemplateV, c: (u8, u8, u8)) -> Seq<(u32, u8)> {
    let hv = comp_sampling(t.sampling, c.0);
    repeat(seq![t.dc_code0[c.1 as int].unwrap(), t.eob_code[c.2 as int].unwrap()], (hv.0 * hv.1) as int)
}

/// The codes of one MCU: those of the first `n` scan components.
pub open spec fn mcu_codes(t: JpegTemplateV, n: int) -> Seq<(u32, u8)>
    decreases n,
{
    if n <= 0 {
        Seq::empty()
    } else {
        mcu_codes(t, n - 1) + comp_codes(t, t.sos_comps[n - 1])
    }
}

/// Whether every scan component has a DC and an end-of-block code.
pub open spec fn codes_present(t: JpegTemplateV) -> bool {
    forall|k: int|
        0 <= k < t.sos_comps.len() ==> {
            let c = #[trigger] t.sos_comps[k];
            c.1 < t.dc_code0.len() && t.dc_code0[c.1 as int] is Some && c.2 < t.eob_code.len() && t.eob_code[c.2 as int] is Some
        }
}

/// Whether every code of the template is shorter than 32 bits.
pub open spec fn code_lengths_fit(t: JpegTemplateV) -> bool {
    &&& forall|k: int| 0 <= k < t.dc_code0.len() ==> (#[trigger] t.dc_code0[k] matches Some(c) ==> c.1 < 32)
    &&& forall|k: int| 0 <= k < t.eob_code.len() ==> (#[trigger] t.eob_code[k] matches Some(c) ==> c.1 < 32)
}

pub open spec fn mcu_count(size: u32, f: u8) -> int {
    (size + 8 * f - 1) / (8 * f)
}

/// The entropy-coded data of a blank (all-zero coefficients) image of
/// `w` by `h` pixels with the template's Huffman codes: every block is a
/// zero DC difference and an end of block, packed most significant bit
/// first; `None` for a non-baseline template, a missing sampling factor or
/// code, or an empty image.
pub open spec fn spec_synth_scan(t: JpegTemplateV, w: u32, h: u32) -> Option<Seq<u8>> {
    if !t.baseline || t.hmax == 0 || t.vmax == 0 {
        None
    } else {
        let mw = mcu_count(w, t.hmax);
        let mh = mcu_count(h, t.vmax);
        if mw == 0 || mh == 0 || !codes_present(t) {
            None
        } else {
            let init = BitState { out: Seq::empty(), acc: 0, nbits: 0 };
            Some(bw_flush(bw_run(init, repeat(mcu_codes(t, t.sos_comps.len() as int), mw * mh))))
        }
    }
}

struct BitWriter {
    out: Vec<u8>,
    acc: u32,
    nbits: u32,
}

impl BitWriter {
    spec fn state(&self) -> BitState {
        BitState { out: self.out@, acc: self.acc, nbits: self.nbits }
    }

    fn emit(&mut self, b: u8)
        ensures
            final(self).out@ == old(self).out@ + stuffed(b),
            final(self).acc == old(self).acc,
            final(self).nbits == old(self).nbits,
    {
        self.out.push(b);
        if b == 0xFF {
            self.out.push(0);
        }
        assert(self.out@ =~= old(self).out@ + stuffed(b));
    }

    fn put_bits(&mut self, code: u32, len: u8)
        requires
            old(self).nbits < 8,
            len < 32,
        ensures
            final(self).state() == bw_put(old(self).state(), code, len),
            final(self).nbits < 8,
    {
        self.acc = (self.acc << (len as u32)) | code;
        self.nbits = self.nbits + len as u32;
        while self.nbits >= 8
            invariant
                self.nbits < 40,
                bw_drain(self.state()) == bw_put(old(self).state(), code, len),
            ensures
                self.nbits < 8,
                self.state() == bw_put(old(self).state(), code, len),
            decreases self.nbits,
        {
            let shift = self.nbits - 8;
            let b = ((self.acc >> shift) & 0xFF) as u8;
            let mask: u32 = if shift == 0 {
                0
            } else {
                assert(shift < 32 ==> (1u32 << shift) >= 1u32) by (bit_vector);
                (1u32 << shift) - 1
            };
            assert(mask == low_mask(shift));
            self.acc = self.acc & mask;
            self.nbits = shift;
            self.emit(b);
        }
    }

    fn flush(&mut self) -> (r: Vec<u8>)
        requires
            old(self).nbits < 8,
        ensures
            r@ == bw_flush(old(self).state()),
    {
        if self.nbits > 0 {
            let b = ((self.acc << (8 - self.nbits)) & 0xFF) as u8;
            self.emit(b);
        }
        let mut v: Vec<u8> = Vec::new();
        std::mem::swap(&mut v, &mut self.out);
        v
    }
}

proof fn lemma_repeat_push<A>(s: Seq<A>, n: int)
    requires
        n >= 0,
    ensures
        repeat(s, n + 1) == repeat(s, n) + s,
{
}

proof fn lemma_run_append(st: BitState, a: Seq<(u32, u8)>, b: Seq<(u32, u8)>)
    ensures
        bw_run(st, a + b) == bw_run(bw_run(st, a), b),
    decreases b.len(),
{
    if b.len() == 0 {
        assert(a + b =~= a);
    } else {
        assert((a + b).drop_last() =~= a + b.drop_last());
        lemma_run_append(st, a, b.drop_last());
    }
}

/// Whether every `FF` byte of `s` is followed by a stuffed zero, so that no
/// marker can be read inside entropy-coded data.
pub open spec fn ff_stuffed(s: Seq<u8>) -> bool {
    forall|i: int| 0 <= i < s.len() && #[trigger] s[i] == 0xFF ==> i + 1 < s.len() && s[i + 1] == 0
}

proof fn lemma_stuffed_append(a: Seq<u8>, b: u8)
    requires
        ff_stuffed(a),
    ensures
        ff_stuffed(a + stuffed(b)),
{
    let s = a + stuffed(b);
    assert forall|i: int| 0 <= i < s.len() && #[trigger] s[i] == 0xFF implies i + 1 < s.len() && s[i + 1] == 0 by {
        if i < a.len() {
            assert(s[i] == a[i]);
            if i + 1 < a.len() {
                assert(a[i + 1] == 0);
            } else {
                assert(a[i] == 0xFF);
                assert(false);
            }
        }
    }
}

proof fn lemma_drain_stuffed(st: BitState)
    requires
        ff_stuffed(st.out),
    ensures
        ff_stuffed(bw_drain(st).out),
    decreases st.nbits,
{
    if st.nbits >= 8 {
        let shift = (st.nbits - 8) as u32;
        let b = ((st.acc >> shift) & 0xFF) as u8;
        lemma_stuffed_append(st.out, b);
        lemma_drain_stuffed(BitState { out: st.out + stuffed(b), acc: st.acc & low_mask(shift), nbits: shift });
    }
}

proof fn lemma_run_stuffed(st: BitState, codes: Seq<(u32, u8)>)
    requires
        ff_stuffed(st.out),
    ensures
        ff_stuffed(bw_run(st, codes).out),
    decreases codes.len(),
{
    if codes.len() > 0 {
        lemma_run_stuffed(st, codes.drop_last());
        let prev = bw_run(st, codes.drop_last());
        let c = codes.last();
        lemma_drain_stuffed(BitState { acc: (prev.acc << (c.1 as u32)) | c.0, nbits: (prev.nbits + c.1) as u32, ..prev });
    }
}

/// A synthesized scan holds no marker: every `FF` byte in it is followed by
/// a stuffed zero.
pub proof fn lemma_synth_scan_stuffed(t: JpegTemplateV, w: u32, h: u32)
    ensures
        spec_synth_scan(t, w, h) matches Some(s) ==> ff_stuffed(s),
{
    if spec_synth_scan(t, w, h) is Some {
        let mw = mcu_count(w, t.hmax);
        let mh = mcu_count(h, t.vmax);
        let init = BitState { out: Seq::empty(), acc: 0, nbits: 0 };
        let codes = repeat(mcu_codes(t, t.sos_comps.len() as int), mw * mh);
        lemma_run_stuffed(init, codes);
        let fin = bw_run(init, codes);
        if fin.nbits > 0 {
            lemma_stuffed_append(fin.out, ((fin.acc << ((8 - fin.nbits) as u32)) & 0xFF) as u8);
        }
    }
}

/// Bit `k` (counted from the least significant) of `x`.
pub open spec fn bit(x: u32, k: int) -> bool {
    ((x >> (k as u32)) & 1u32) == 1u32
}

/// The `len` low bits of `code`, most significant first.
pub open spec fn code_bits(code: u32, len: nat) -> Seq<bool> {
    Seq::new(len, |i: int| bit(code, len - 1 - i))
}

/// The bits of the bytes `s`, each most significant first.
pub open spec fn bytes_bits(s: Seq<u8>) -> Seq<bool>
    decreases s.len(),
{
    if s.len() == 0 {
        Seq::empty()
    } else {
        bytes_bits(s.drop_last()) + code_bits(s.last() as u32, 8)
    }
}

/// Entropy-coded bytes with the zero after each `FF` taken out.
pub open spec fn unstuff(s: Seq<u8>) -> Seq<u8>
    decreases s.len(),
{
    if s.len() == 0 {
        Seq::empty()
    } else if s[0] == 0xFF && s.len() > 1 && s[1] == 0 {
        seq![0xFFu8] + unstuff(s.subrange(2, s.len() as int))
    } else {
        seq![s[0]] + unstuff(s.subrange(1, s.len() as int))
    }
}

/// The bits of the codes `codes`, in order.
pub open spec fn codes_bits(codes: Seq<(u32, u8)>) -> Seq<bool>
    decreases codes.len(),
{
    if codes.len() == 0 {
        Seq::empty()
    } else {
        codes_bits(codes.drop_last()) + code_bits(codes.last().0, codes.last().1 as nat)
    }
}

/// Whether a code fits its length and the writer's accumulator.
pub open spec fn code_ok(c: (u32, u8)) -> bool {
    c.1 <= 24 && c.0 < (1u32 << (c.1 as u32))
}

/// A writer between codes: fewer than eight pending bits, nothing above
/// them, and its bytes stuffed.
pub open spec fn writer_ok(st: BitState) -> bool {
    st.nbits < 8 && st.acc < (1u32 << st.nbits) && ff_stuffed(st.out)
}

/// Every bit put into the writer so far: those written out, then those
/// pending.
pub open spec fn written_bits(st: BitState) -> Seq<bool> {
    bytes_bits(unstuff(st.out)) + code_bits(st.acc, st.nbits as nat)
}

proof fn bv_or_low(acc: u32, code: u32, len: u32, k: u32)
    by (bit_vector)
    requires
        len < 32,
        k < len,
        code < (1u32 << len),
    ensures
        (((acc << len) | code) >> k) & 1u32 == (code >> k) & 1u32,
{
}

proof fn bv_or_high(acc: u32, code: u32, len: u32, k: u32)
    by (bit_vector)
    requires
        len <= k,
        k < 32,
        code < (1u32 << len),
    ensures
        (((acc << len) | code) >> k) & 1u32 == (acc >> ((k - len) as u32)) & 1u32,
{
}

proof fn bv_or_bound(acc: u32, code: u32, n: u32, len: u32)
    by (bit_vector)
    requires
        n + len <= 31,
        acc < (1u32 << n),
        code < (1u32 << len),
    ensures
        ((acc << len) | code) < (1u32 << ((n + len) as u32)),
{
}

proof fn bv_top_byte(acc: u32, shift: u32, j: u32)
    by (bit_vector)
    requires
        shift < 24,
        j < 8,
    ensures
        ((((acc >> shift) & 0xFFu32) as u8 as u32) >> j) & 1u32 == (acc >> ((shift + j) as u32)) & 1u32,
{
}

proof fn bv_low_mask(acc: u32, shift: u32, k: u32)
    by (bit_vector)
    requires
        0 < shift < 32,
        k < shift,
    ensures
        ((acc & low_mask(shift)) >> k) & 1u32 == (acc >> k) & 1u32,
        (acc & low_mask(shift)) < (1u32 << shift),
{
}

proof fn bv_pad_byte(acc: u32, s: u32, k: u32)
    by (bit_vector)
    requires
        0 < s < 8,
        k < 8,
    ensures
        k >= s ==> (((((acc << s) & 0xFFu32) as u8) as u32 >> k) & 1u32) == (acc >> ((k - s) as u32)) & 1u32,
        k < s ==> (((((acc << s) & 0xFFu32) as u8) as u32 >> k) & 1u32) == 0u32,
{
}

proof fn bv_zero_bits(x: u32, k: u32)
    by (bit_vector)
    requires
        k < 32,
    ensures
        (0u32 >> k) & 1u32 == 0u32,
        0u32 < (1u32 << 0u32),
        x & low_mask(0u32) == 0u32,
{
}

proof fn lemma_unstuff_append(a: Seq<u8>, b: u8)
    requires
        ff_stuffed(a),
    ensures
        unstuff(a + stuffed(b)) == unstuff(a) + seq![b],
    decreases a.len(),
{
    let s = a + stuffed(b);
    if a.len() == 0 {
        assert(s =~= stuffed(b));
        assert(unstuff(a) =~= Seq::<u8>::empty());
        if b == 0xFF {
            assert(s.subrange(2, s.len() as int) =~= Seq::<u8>::empty());
            assert(unstuff(s) =~= seq![0xFFu8] + unstuff(Seq::<u8>::empty()));
        } else {
            assert(s.subrange(1, s.len() as int) =~= Seq::<u8>::empty());
            assert(unstuff(s) =~= seq![b] + unstuff(Seq::<u8>::empty()));
        }
        assert(unstuff(s) =~= unstuff(a) + seq![b]);
    } else if a[0] == 0xFF {
        assert(a.len() > 1 && a[1] == 0);
        let a2 = a.subrange(2, a.len() as int);
        assert forall|i: int| 0 <= i < a2.len() && #[trigger] a2[i] == 0xFF implies i + 1 < a2.len() && a2[i + 1] == 0 by {
            assert(a[i + 2] == 0xFF);
        }
        lemma_unstuff_append(a2, b);
        assert(s.subrange(2, s.len() as int) =~= a2 + stuffed(b));
        assert(s[0] == 0xFF && s[1] == 0);
        assert(unstuff(a) == seq![0xFFu8] + unstuff(a2));
        assert(unstuff(s) == seq![0xFFu8] + unstuff(a2 + stuffed(b)));
        assert(unstuff(s) =~= unstuff(a) + seq![b]);
    } else {
        let a1 = a.subrange(1, a.len() as int);
        assert forall|i: int| 0 <= i < a1.len() && #[trigger] a1[i] == 0xFF implies i + 1 < a1.len() && a1[i + 1] == 0 by {
            assert(a[i + 1] == 0xFF);
        }
        lemma_unstuff_append(a1, b);
        assert(s.subrange(1, s.len() as int) =~= a1 + stuffed(b));
        assert(s[0] == a[0]);
        assert(unstuff(a) == seq![a[0]] + unstuff(a1));
        assert(unstuff(s) == seq![a[0]] + unstuff(a1 + stuffed(b)));
        assert(unstuff(s) =~= unstuff(a) + seq![b]);
    }
}

proof fn lemma_drain_bits(st: BitState)
    requires
        st.nbits < 32,
        st.acc < (1u32 << st.nbits),
        ff_stuffed(st.out),
    ensures
        writer_ok(bw_drain(st)),
        written_bits(bw_drain(st)) == written_bits(st),
    decreases st.nbits,
{
    if st.nbits >= 8 {
        let shift = (st.nbits - 8) as u32;
        let b = ((st.acc >> shift) & 0xFF) as u8;
        let next = BitState { out: st.out + stuffed(b), acc: st.acc & low_mask(shift), nbits: shift };
        lemma_stuffed_append(st.out, b);
        lemma_unstuff_append(st.out, b);
        if shift > 0 {
            assert forall|k: u32| k < shift implies #[trigger] bit(next.acc, k as int) == bit(st.acc, k as int) by {
                bv_low_mask(st.acc, shift, k);
            }
            bv_low_mask(st.acc, shift, 0);
        } else {
            bv_zero_bits(st.acc, 0);
        }
        assert(next.acc < (1u32 << shift));
        lemma_drain_bits(next);
        // the pending bits split into the byte written and the rest
        let u = unstuff(st.out);
        assert(bytes_bits(u + seq![b]) =~= bytes_bits(u) + code_bits(b as u32, 8)) by {
            assert((u + seq![b]).drop_last() =~= u);
        }
        assert(code_bits(st.acc, st.nbits as nat) =~= code_bits(b as u32, 8) + code_bits(next.acc, shift as nat)) by {
            assert forall|i: int| 0 <= i < st.nbits implies #[trigger] code_bits(st.acc, st.nbits as nat)[i] == (
            code_bits(b as u32, 8) + code_bits(next.acc, shift as nat))[i] by {
                if i < 8 {
                    bv_top_byte(st.acc, shift, (7 - i) as u32);
                } else {
                    if shift > 0 {
                        bv_low_mask(st.acc, shift, (st.nbits - 1 - i) as u32);
                    }
                }
            }
        }
        assert(written_bits(next) =~= written_bits(st));
    } else {
        assert(writer_ok(st));
    }
}

proof fn lemma_put_bits(st: BitState, code: u32, len: u8)
    requires
        writer_ok(st),
        code_ok((code, len)),
    ensures
        writer_ok(bw_put(st, code, len)),
        written_bits(bw_put(st, code, len)) == written_bits(st) + code_bits(code, len as nat),
{
    let n = st.nbits;
    let l = len as u32;
    let acc2 = (st.acc << l) | code;
    let mid = BitState { acc: acc2, nbits: (n + len) as u32, ..st };
    bv_or_bound(st.acc, code, n, l);
    assert(code_bits(acc2, (n + l) as nat) =~= code_bits(st.acc, n as nat) + code_bits(code, len as nat)) by {
        assert forall|i: int| 0 <= i < n + l implies #[trigger] code_bits(acc2, (n + l) as nat)[i] == (code_bits(
            st.acc,
            n as nat,
        ) + code_bits(code, len as nat))[i] by {
            let k = (n + l - 1 - i) as u32;
            if i < n {
                bv_or_high(st.acc, code, l, k);
            } else {
                bv_or_low(st.acc, code, l, k);
            }
        }
    }
    lemma_drain_bits(mid);
    assert(written_bits(mid) =~= written_bits(st) + code_bits(code, len as nat));
}

proof fn lemma_run_bits(st: BitState, codes: Seq<(u32, u8)>)
    requires
        writer_ok(st),
        forall|i: int| 0 <= i < codes.len() ==> code_ok(#[trigger] codes[i]),
    ensures
        writer_ok(bw_run(st, codes)),
        written_bits(bw_run(st, codes)) == written_bits(st) + codes_bits(codes),
    decreases codes.len(),
{
    if codes.len() == 0 {
        assert(written_bits(st) + codes_bits(codes) =~= written_bits(st));
    } else {
        let init = codes.drop_last();
        assert forall|i: int| 0 <= i < init.len() implies code_ok(#[trigger] init[i]) by {
            assert(init[i] == codes[i]);
        }
        lemma_run_bits(st, init);
        let c = codes.last();
        assert(code_ok(codes[codes.len() - 1]));
        lemma_put_bits(bw_run(st, init), c.0, c.1);
        assert(written_bits(st) + codes_bits(init) + code_bits(c.0, c.1 as nat) =~= written_bits(st)
            + codes_bits(codes));
    }
}

/// The bits of the bytes a writer ends with: every bit put, then zeros up
/// to a whole byte.
proof fn lemma_flush_bits(st: BitState)
    requires
        writer_ok(st),
    ensures
        ff_stuffed(bw_flush(st)),
        bytes_bits(unstuff(bw_flush(st))) == written_bits(st) + Seq::new(
            if st.nbits == 0 {
                0nat
            } else {
                (8 - st.nbits) as nat
            },
            |i: int| false,
        ),
{
    if st.nbits > 0 {
        let s = (8 - st.nbits) as u32;
        let b = ((st.acc << s) & 0xFF) as u8;
        lemma_stuffed_append(st.out, b);
        lemma_unstuff_append(st.out, b);
        let u = unstuff(st.out);
        assert((u + seq![b]).drop_last() =~= u);
        let zeros = Seq::new(s as nat, |i: int| false);
        assert(code_bits(b as u32, 8) =~= code_bits(st.acc, st.nbits as nat) + zeros) by {
            assert forall|i: int| 0 <= i < 8 implies #[trigger] code_bits(b as u32, 8)[i] == (code_bits(
                st.acc,
                st.nbits as nat,
            ) + zeros)[i] by {
                bv_pad_byte(st.acc, s, (7 - i) as u32);
            }
        }
        assert(bytes_bits(unstuff(bw_flush(st))) =~= written_bits(st) + zeros);
    } else {
        assert(bytes_bits(unstuff(bw_flush(st))) =~= written_bits(st) + Seq::new(0nat, |i: int| false));
    }
}

/// Whether every code that the template's scan uses fits its length and
/// is at most 24 bits long (true of the codes of a valid Huffman table).
pub open spec fn codes_ok(t: JpegTemplateV) -> bool {
    forall|k: int|
        0 <= k < t.sos_comps.len() ==> {
            let c = #[trigger] t.sos_comps[k];
            code_ok(t.dc_code0[c.1 as int].unwrap()) && code_ok(t.eob_code[c.2 as int].unwrap())
        }
}

proof fn lemma_repeat_ok(s: Seq<(u32, u8)>, n: int)
    requires
        forall|i: int| 0 <= i < s.len() ==> code_ok(#[trigger] s[i]),
    ensures
        forall|i: int| 0 <= i < repeat(s, n).len() ==> code_ok(#[trigger] repeat(s, n)[i]),
    decreases n,
{
    if n > 0 {
        lemma_repeat_ok(s, n - 1);
        let r = repeat(s, n - 1);
        assert forall|i: int| 0 <= i < repeat(s, n).len() implies code_ok(#[trigger] repeat(s, n)[i]) by {
            if i < r.len() {
                assert(repeat(s, n)[i] == r[i]);
            } else {
                assert(repeat(s, n)[i] == s[i - r.len()]);
            }
        }
    }
}

proof fn lemma_mcu_ok(t: JpegTemplateV, n: int)
    requires
        codes_ok(t),
        n <= t.sos_comps.len(),
    ensures
        forall|i: int| 0 <= i < mcu_codes(t, n).len() ==> code_ok(#[trigger] mcu_codes(t, n)[i]),
    decreases n,
{
    if n > 0 {
        lemma_mcu_ok(t, n - 1);
        let c = t.sos_comps[n - 1];
        let pair = seq![t.dc_code0[c.1 as int].unwrap(), t.eob_code[c.2 as int].unwrap()];
        assert(code_ok(pair[0]) && code_ok(pair[1]));
        assert forall|i: int| 0 <= i < pair.len() implies code_ok(#[trigger] pair[i]) by {}
        let hv = comp_sampling(t.sampling, c.0);
        lemma_repeat_ok(pair, (hv.0 * hv.1) as int);
        let a = mcu_codes(t, n - 1);
        let b = comp_codes(t, c);
        assert forall|i: int| 0 <= i < mcu_codes(t, n).len() implies code_ok(#[trigger] mcu_codes(t, n)[i]) by {
            if i < a.len() {
                assert(mcu_codes(t, n)[i] == a[i]);
            } else {
                assert(mcu_codes(t, n)[i] == b[i - a.len()]);
            }
        }
    }
}

/// A synthesized scan is the template's codes for every block, most
/// significant bit first, padded with zero bits to a whole byte, with a
/// zero stuffed after each `FF` byte.
pub proof fn lemma_synth_scan_bits(t: JpegTemplateV, w: u32, h: u32)
    requires
        codes_ok(t),
    ensures
        spec_synth_scan(t, w, h) matches Some(s) ==> {
            let codes = repeat(mcu_codes(t, t.sos_comps.len() as int), mcu_count(w, t.hmax) * mcu_count(h, t.vmax));
            let n = codes_bits(codes).len();
            &&& ff_stuffed(s)
            &&& bytes_bits(unstuff(s)) == codes_bits(codes) + Seq::new(
                ((8 - n % 8) % 8) as nat,
                |i: int| false,
            )
        },
{
    if spec_synth_scan(t, w, h) is Some {
        let mw = mcu_count(w, t.hmax);
        let mh = mcu_count(h, t.vmax);
        let init = BitState { out: Seq::empty(), acc: 0, nbits: 0 };
        let codes = repeat(mcu_codes(t, t.sos_comps.len() as int), mw * mh);
        lemma_mcu_ok(t, t.sos_comps.len() as int);
        lemma_repeat_ok(mcu_codes(t, t.sos_comps.len() as int), mw * mh);
        bv_zero_bits(0, 0);
        assert(writer_ok(init));
        lemma_run_bits(init, codes);
        let fin = bw_run(init, codes);
        lemma_flush_bits(fin);
        assert(written_bits(init) =~= Seq::<bool>::empty()) by {
            assert(unstuff(Seq::<u8>::empty()) =~= Seq::<u8>::empty());
            assert(code_bits(0, 0) =~= Seq::<bool>::empty());
        }
        let n = codes_bits(codes).len();
        assert(written_bits(fin) =~= codes_bits(codes));
        // the bits written out fill whole bytes, so the pending ones are
        // what is left of the total
        assert(fin.nbits as int == n % 8) by {
            lemma_bytes_bits_len(unstuff(fin.out));
            let m = unstuff(fin.out).len() as int;
            assert(n == 8 * m + fin.nbits);
            assert((8 * m + fin.nbits) % 8 == fin.nbits as int) by (nonlinear_arith)
                requires
                    fin.nbits < 8,
                    m >= 0,
            ;
        }
    }
}

proof fn lemma_bytes_bits_len(s: Seq<u8>)
    ensures
        bytes_bits(s).len() == 8 * s.len(),
    decreases s.len(),
{
    if s.len() > 0 {
        lemma_bytes_bits_len(s.drop_last());
    }
}

/// Encode the entropy-coded data of a blank image (see `spec_synth_scan`).
pub fn synth_jpeg_scan(t: &JpegTemplate, w: u32, h: u32) -> (r: Option<Vec<u8>>)
    requires
        code_lengths_fit(t@),
    ensures
        match r {
            Some(v) => spec_synth_scan(t@, w, h) == Some(v@),
            None => spec_synth_scan(t@, w, h) is None,
        },
{
    if !t.baseline || t.hmax == 0 || t.vmax == 0 {
        return None;
    }
    let mw: u64 = (w as u64 + 8 * t.hmax as u64 - 1) / (8 * t.hmax as u64);
    let mh: u64 = (h as u64 + 8 * t.vmax as u64 - 1) / (8 * t.vmax as u64);
    if mw == 0 || mh == 0 {
        return None;
    }
    let mut k: usize = 0;
    while k < t.sos_comps.len()
        invariant
            k <= t.sos_comps@.len(),
            forall|q: int|
                0 <= q < k ==> {
                    let c = #[trigger] t.sos_comps@[q];
                    c.1 < t.dc_code0@.len() && t.dc_code0@[c.1 as int] is Some && c.2 < t.eob_code@.len()
                        && t.eob_code@[c.2 as int] is Some
                },
        decreases t.sos_comps@.len() - k,
    {
        let (_, dct, act) = t.sos_comps[k];
        if dct as usize >= t.dc_code0.len() || t.dc_code0[dct as usize].is_none() {
            return None;
        }
        if act as usize >= t.eob_code.len() || t.eob_code[act as usize].is_none() {
            return None;
        }
        k += 1;
    }
    assert(codes_present(t@));
    let ghost tv = t@;
    let ghost mcu = mcu_codes(tv, tv.sos_comps.len() as int);
    assert(mw <= 0x2100_0000 && mh <= 0x2100_0000) by (nonlinear_arith)
        requires
            mw == (w as u64 + 8 * t.hmax as u64 - 1) / (8 * t.hmax as u64),
            mh == (h as u64 + 8 * t.vmax as u64 - 1) / (8 * t.vmax as u64),
            t.hmax >= 1,
            t.vmax >= 1,
    ;
    assert(mw * mh <= 0x2100_0000 * 0x2100_0000) by (nonlinear_arith)
        requires
            mw <= 0x2100_0000,
            mh <= 0x2100_0000,
    ;
    let total: u64 = mw * mh;
    let mut bw = BitWriter { out: Vec::new(), acc: 0, nbits: 0 };
    let ghost init = bw.state();
    let mut m: u64 = 0;
    while m < total
        invariant
            tv == t@,
            codes_present(tv),
            code_lengths_fit(tv),
            mcu == mcu_codes(tv, tv.sos_comps.len() as int),
            m <= total,
            bw.nbits < 8,
            bw.state() == bw_run(init, repeat(mcu, m as int)),
        decreases total - m,
    {
        let ghost at_mcu = bw.state();
        let mut ci: usize = 0;
        while ci < t.sos_comps.len()
            invariant
                tv == t@,
                codes_present(tv),
                code_lengths_fit(tv),
                ci <= tv.sos_comps.len(),
                bw.nbits < 8,
                bw.state() == bw_run(at_mcu, mcu_codes(tv, ci as int)),
            decreases tv.sos_comps.len() - ci,
        {
            let (cid, dct, act) = t.sos_comps[ci];
            proof {
                assert(tv.sos_comps[ci as int] == (cid, dct, act));
            }
            let idx: usize = if cid >= 1 { (cid - 1) as usize } else { 0 };
            let (sh, sv) = if idx < t.sampling.len() { t.sampling[idx] } else { (1u8, 1u8) };
            assert((sh, sv) == comp_sampling(tv.sampling, cid));
            let dc = t.dc_code0[dct as usize].unwrap();
            let eob = t.eob_code[act as usize].unwrap();
            let ghost pair = seq![dc, eob];
            let ghost at_comp = bw.state();
            assert((sh as u32) * (sv as u32) <= 65025) by (nonlinear_arith)
                requires
                    sh <= 255,
                    sv <= 255,
            ;
            let blocks: u32 = sh as u32 * sv as u32;
            let mut b: u32 = 0;
            while b < blocks
                invariant
                    b <= blocks,
                    bw.nbits < 8,
                    dc.1 < 32,
                    eob.1 < 32,
                    pair == seq![dc, eob],
                    bw.state() == bw_run(at_comp, repeat(pair, b as int)),
                decreases blocks - b,
            {
                let ghost x = bw.state();
                bw.put_bits(dc.0, dc.1);
                bw.put_bits(eob.0, eob.1);
                proof {
                    lemma_run_append(at_comp, repeat(pair, b as int), pair);
                    assert(pair.drop_last() =~= seq![dc]);
                    assert(seq![dc].drop_last() =~= Seq::<(u32, u8)>::empty());
                    assert(bw_run(x, Seq::<(u32, u8)>::empty()) == x);
                    assert(bw_run(x, seq![dc]) == bw_put(bw_run(x, Seq::<(u32, u8)>::empty()), dc.0, dc.1));
                    assert(bw_run(x, pair) == bw_put(bw_run(x, seq![dc]), eob.0, eob.1));
                    lemma_repeat_push(pair, b as int);
                }
                b += 1;
            }
            proof {
                assert(repeat(pair, blocks as int) == comp_codes(tv, tv.sos_comps[ci as int]));
                lemma_run_append(at_mcu, mcu_codes(tv, ci as int), comp_codes(tv, tv.sos_comps[ci as int]));
            }
            ci += 1;
        }
        proof {
            lemma_run_append(init, repeat(mcu, m as int), mcu);
        }
        m += 1;
    }
    Some(bw.flush())
}


/// Every code of the canonical codes has a length between 1 and 16.
proof fn lemma_huff_code_lengths(counts: Seq<u8>, bits: int, c: int)
    requires
        1 <= bits <= 17,
    ensures
        forall|k: int| 0 <= k < huff_codes_from(counts, bits, c).len() ==> 1 <= (#[trigger] huff_codes_from(counts, bits, c)[k]).1 <= 16,
    decreases 17 - bits,
{
    if bits <= 16 {
        let n = counts[bits - 1] as int;
        lemma_huff_code_lengths(counts, bits + 1, huff_next(c, n));
        let level = Seq::new(n as nat, |i: int| ((c + i) as u32, bits as u8));
        let rest = huff_codes_from(counts, bits + 1, huff_next(c, n));
        assert forall|k: int| 0 <= k < (level + rest).len() implies 1 <= #[trigger] (level + rest)[k].1 <= 16 by {
            if k >= level.len() {
                assert((level + rest)[k] == rest[k - level.len()]);
            }
        }
    }
}

/// The codes a template holds are at most 16 bits long.
pub open spec fn codes_short(s: Seq<Option<(u32, u8)>>) -> bool {
    forall|k: int| 0 <= k < s.len() ==> (#[trigger] s[k] matches Some(c) ==> c.1 <= 16)
}

proof fn lemma_template_codes_short(dht: Seq<u8>, tables: Seq<(u8, u8, Seq<u8>)>, n: int)
    ensures
        template_codes(dht, tables, n) matches Some((dc, eob)) ==> codes_short(dc) && codes_short(eob) && dc.len() == 4 && eob.len()
            == 4,
    decreases n,
{
    if n > 0 {
        lemma_template_codes_short(dht, tables, n - 1);
        match template_codes(dht, tables, n - 1) {
            Some((dc, eob)) => {
                let t = tables[n - 1];
                if t.1 < 4 {
                    match counts_outer(dht, 0, t.0, t.1) {
                        Some(counts) => match spec_build_huffman(counts, t.2) {
                            Some((codes, _m)) => {
                                lemma_huff_code_lengths(counts, 1, 0);
                                let l = lookup(codes, t.2, 0);
                                match first_index(t.2, 0, 0) {
                                    Some(i) => {
                                        lemma_first_index_in(t.2, 0, 0);
                                        lemma_huff_check_k(counts, 1, 0, 0, 0);
                                        lemma_huff_codes_len(counts, 1, 0, 0, 0, 0);
                                    },
                                    None => {},
                                }
                                if t.0 == 0 {
                                    let dc2 = dc.update(t.1 as int, l);
                                    assert forall|k: int| 0 <= k < dc2.len() implies (#[trigger] dc2[k] matches Some(c) ==> c.1 <= 16) by {
                                        if k == t.1 {
                                        } else {
                                            assert(dc2[k] == dc[k]);
                                        }
                                    }
                                } else {
                                    let eob2 = eob.update(t.1 as int, l);
                                    assert forall|k: int| 0 <= k < eob2.len() implies (#[trigger] eob2[k] matches Some(c) ==> c.1 <= 16) by {
                                        if k == t.1 {
                                        } else {
                                            assert(eob2[k] == eob[k]);
                                        }
                                    }
                                }
                            },
                            None => {},
                        },
                        None => {},
                    }
                }
            },
            None => {},
        }
    } else {
        let dc: Seq<Option<(u32, u8)>> = seq![None, None, None, None];
        assert forall|k: int| 0 <= k < dc.len() implies (#[trigger] dc[k] matches Some(c) ==> c.1 <= 16) by {
        }
    }
}

proof fn lemma_first_index_in(s: Seq<u8>, x: u8, i: int)
    ensures
        first_index(s, x, i) matches Some(k) ==> 0 <= k < s.len(),
    decreases s.len() - i,
{
    if !(i < 0 || i >= s.len()) && s[i] != x {
        lemma_first_index_in(s, x, i + 1);
    }
}

/// The codes of an extracted template are at most 16 bits long.
pub proof fn lemma_template_code_lengths(d: Seq<u8>)
    ensures
        spec_extract_template(d) matches Some(t) ==> code_lengths_fit(t),
{
    let start = match crate::jpeg::spec_find_jpeg_start(d) {
        Some(s) => s,
        None => 0,
    };
    let parts = spec_jpeg_parts(d, start);
    let dht = cat(parts.dht);
    let tables = dht_outer(dht, 0);
    lemma_template_codes_short(dht, tables, tables.len() as int);
}

/// A one-line description of a reference template.
pub open spec fn spec_template_info(t: JpegTemplateV) -> Seq<char> {
    crate::text::decimal(t.width as nat) + "x"@ + crate::text::decimal(t.height as nat) + ", "@ + crate::text::decimal(
        t.prec as nat,
    ) + "-bit, "@ + crate::text::decimal(t.ncomp as nat) + " components, "@ + crate::text::decimal(
        dqt_outer_count(t.dqt, 0) as nat,
    ) + " DQT table(s), "@ + crate::text::decimal(dht_outer(t.dht, 0).len()) + " Huffman tables"@ + if t.baseline {
        ""@
    } else {
        " (non-baseline)"@
    }
}

/// Describe a reference template (see `spec_template_info`).
pub fn jpeg_template_info(t: &JpegTemplate) -> (r: String)
    ensures
        r@ == spec_template_info(t@),
{
    let mut s = String::new();
    crate::text::push_decimal(&mut s, t.width as u64);
    crate::text::push_str(&mut s, "x");
    crate::text::push_decimal(&mut s, t.height as u64);
    crate::text::push_str(&mut s, ", ");
    crate::text::push_decimal(&mut s, t.prec as u64);
    crate::text::push_str(&mut s, "-bit, ");
    crate::text::push_decimal(&mut s, t.ncomp as u64);
    crate::text::push_str(&mut s, " components, ");
    let nq = dqt_table_count(t.dqt.as_slice());
    crate::text::push_decimal(&mut s, nq as u64);
    crate::text::push_str(&mut s, " DQT table(s), ");
    let tables = parse_dht_tables(t.dht.as_slice());
    assert(tables_v(tables@).len() == tables@.len());
    crate::text::push_decimal(&mut s, tables.len() as u64);
    crate::text::push_str(&mut s, " Huffman tables");
    if !t.baseline {
        crate::text::push_str(&mut s, " (non-baseline)");
    } else {
        crate::text::push_str(&mut s, "");
    }
    s
}


// ---------------------------------------------------------------------------
// Repair with a reference
// ---------------------------------------------------------------------------

/// The JPEG rebuilt from a damaged file with a reference template: the
/// damaged file's own frame, tables and scan header where they are usable,
/// else the template's (the frame resized to the damaged image's size, from
/// its own frame, its EXIF data, or the reference); its own scan data when
/// at least eight bytes survive, else a blank scan. `None` when the start is
/// past the data, the component counts differ, a missing frame would have
/// to come from a non-baseline reference, the size is zero, or a blank scan
/// cannot be made.
pub open spec fn spec_repair_with_ref(d: Seq<u8>, start_hint: Option<usize>, t: JpegTemplateV) -> Option<Seq<u8>> {
    let len = d.len() as int;
    let start: int = match start_hint {
        Some(s) => s as int,
        None => match crate::jpeg::spec_find_jpeg_start(d) {
            Some(s) => s,
            None => 0,
        },
    };
    if start >= len {
        None
    } else {
        let parts = spec_jpeg_parts(d, start);
        let ncomp = match parts.sof_dims {
            Some(x) => x.2,
            None => t.ncomp,
        };
        if ncomp != t.ncomp || (parts.sof is None && !t.baseline) {
            None
        } else {
            let wh: (u32, u32) = match parts.sof_dims {
                Some(x) => (x.0, x.1),
                None => match crate::jpeg::exif_walk(d, 0) {
                    Some(e) => e,
                    None => (t.width, t.height),
                },
            };
            if wh.0 == 0 || wh.1 == 0 {
                None
            } else {
                let sos = match parts.sos_payload {
                    Some(p) => if p.len() >= 3 && p[2] == ncomp { p } else { t.sos_payload },
                    None => t.sos_payload,
                };
                let own_dqt = cat(parts.dqt);
                let own_dht = cat(parts.dht);
                let dqt = if spec_dqt_valid(own_dqt, ncomp) { own_dqt } else { t.dqt };
                let dht = if spec_dht_usable(own_dht, sos) { own_dht } else { t.dht };
                let sof = match parts.sof {
                    Some(f) => f,
                    None => spec_rewrite_sof(t.sof, wh.0, wh.1),
                };
                let own_scan: Option<Seq<u8>> = match parts.entropy {
                    Some((es, ee)) => if ee - es >= 8 { Some(d.subrange(es as int, ee as int)) } else { None },
                    None => None,
                };
                let scan = match own_scan {
                    Some(x) => Some(x),
                    None => spec_synth_scan(t, wh.0, wh.1),
                };
                match scan {
                    Some(x) => Some(
                        crate::jpeg::jpeg_soi() + dqt + sof + dht + seq![0xFFu8, 0xDA] + sos + x + crate::jpeg::jpeg_eoi(),
                    ),
                    None => None,
                }
            }
        }
    }
}

fn copy_vec(v: &Vec<u8>) -> (r: Vec<u8>)
    ensures
        r@ == v@,
{
    let r = copy_range(v.as_slice(), 0, v.len());
    assert(v@.subrange(0, v@.len() as int) =~= v@);
    r
}

fn assemble(dqt: &Vec<u8>, sof: &Vec<u8>, dht: &Vec<u8>, sos: &Vec<u8>, scan: &Vec<u8>) -> (r: Vec<u8>)
    ensures
        r@ == crate::jpeg::jpeg_soi() + dqt@ + sof@ + dht@ + seq![0xFFu8, 0xDA] + sos@ + scan@ + crate::jpeg::jpeg_eoi(),
{
    let mut out: Vec<u8> = Vec::new();
    out.push(0xFF);
    out.push(0xD8);
    crate::bytes::append_all(&mut out, dqt.as_slice());
    crate::bytes::append_all(&mut out, sof.as_slice());
    crate::bytes::append_all(&mut out, dht.as_slice());
    out.push(0xFF);
    out.push(0xDA);
    crate::bytes::append_all(&mut out, sos.as_slice());
    crate::bytes::append_all(&mut out, scan.as_slice());
    out.push(0xFF);
    out.push(0xD9);
    assert(out@ =~= crate::jpeg::jpeg_soi() + dqt@ + sof@ + dht@ + seq![0xFFu8, 0xDA] + sos@ + scan@ + crate::jpeg::jpeg_eoi());
    out
}

/// Rebuild a JPEG with a reference template (see `spec_repair_with_ref`).
#[verifier::spinoff_prover]
#[verifier::rlimit(40)]
pub fn repair_jpeg_with_ref(data: &[u8], start: Option<usize>, t: &JpegTemplate) -> (r: Option<Vec<u8>>)
    requires
        data@.len() < usize::MAX,
        code_lengths_fit(t@),
    ensures
        match r {
            Some(v) => spec_repair_with_ref(data@, start, t@) == Some(v@),
            None => spec_repair_with_ref(data@, start, t@) is None,
        },
{
    let start: usize = match start {
        Some(s) => s,
        None => match crate::jpeg::find_jpeg_start(data) {
            Some(s) => s,
            None => 0,
        },
    };
    if start >= data.len() {
        return None;
    }
    let parts = jpeg_parts(data, start);
    let ncomp = match parts.sof_dims {
        Some(x) => x.2,
        None => t.ncomp,
    };
    if ncomp != t.ncomp {
        return None;
    }
    if parts.sof.is_none() && !t.baseline {
        return None;
    }
    let (w, h): (u32, u32) = match parts.sof_dims {
        Some(x) => (x.0, x.1),
        None => match crate::jpeg::exif_dimensions(data) {
            Some(e) => e,
            None => (t.width, t.height),
        },
    };
    if w == 0 || h == 0 {
        return None;
    }
    let sos: Vec<u8> = match &parts.sos_payload {
        Some(p) => if p.len() >= 3 && p[2] == ncomp {
            copy_vec(p)
        } else {
            copy_vec(&t.sos_payload)
        },
        None => copy_vec(&t.sos_payload),
    };
    let own_dqt = concat(&parts.dqt);
    let own_dht = concat(&parts.dht);
    let dqt = if dqt_has_valid_tables(own_dqt.as_slice(), ncomp) {
        own_dqt
    } else {
        copy_vec(&t.dqt)
    };
    let dht = if dht_usable(own_dht.as_slice(), sos.as_slice()) {
        own_dht
    } else {
        copy_vec(&t.dht)
    };
    let sof = match &parts.sof {
        Some(f) => copy_vec(f),
        None => rewrite_sof_dims(t.sof.as_slice(), w, h),
    };
    let own_scan: Option<Vec<u8>> = match parts.entropy {
        Some((es, ee)) => if ee - es >= 8 {
            Some(copy_range(data, es, ee))
        } else {
            None
        },
        None => None,
    };
    let scan = match own_scan {
        Some(x) => x,
        None => match synth_jpeg_scan(t, w, h) {
            Some(x) => x,
            None => {
                return None;
            },
        },
    };
    Some(assemble(&dqt, &sof, &dht, &sos, &scan))
}


/// A JPEG rebuilt with a reference starts with an SOI marker, ends with an
/// EOI marker, and holds a scan header.
pub proof fn lemma_repair_with_ref_shape(d: Seq<u8>, start_hint: Option<usize>, t: JpegTemplateV)
    ensures
        spec_repair_with_ref(d, start_hint, t) matches Some(o) ==> o.subrange(0, 2) == crate::jpeg::jpeg_soi()
            && crate::bytes::ends_with(o, crate::jpeg::jpeg_eoi()),
{
    match spec_repair_with_ref(d, start_hint, t) {
        Some(o) => {
            assert(o.subrange(0, 2) =~= crate::jpeg::jpeg_soi());
            assert(o.subrange(o.len() - 2, o.len() as int) =~= crate::jpeg::jpeg_eoi());
        },
        None => {},
    }
}

} // verus!
