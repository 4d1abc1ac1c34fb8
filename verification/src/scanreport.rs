//! The report of a signature scan of one file: its hits grouped by
//! signature, the format detected at its start, and the text shown.

use vstd::prelude::*;
use crate::deep::DeepSignature;
use crate::hexedit::{hex_padded, push_hex_padded};
use crate::text::{decimal, push_decimal, push_str, str_eq};

verus! {

/// The hits of one signature, in the order they were found.
#[derive(Debug, Clone)]
pub struct HitGroup {
    pub label: &'static str,
    pub offsets: Vec<usize>,
}

/// A group as values: the label and the offsets.
pub open spec fn group_v(g: HitGroup) -> (Seq<char>, Seq<usize>) {
    (g.label@, g.offsets@)
}

/// The groups as values.
pub open spec fn groups_v(s: Seq<HitGroup>) -> Seq<(Seq<char>, Seq<usize>)> {
    s.map_values(|g: HitGroup| group_v(g))
}

/// The index of the first group labelled `l`.
pub open spec fn group_index(groups: Seq<(Seq<char>, Seq<usize>)>, l: Seq<char>, k: nat) -> Option<
    int,
>
    decreases k,
{
    if k == 0 {
        None
    } else {
        match group_index(groups, l, (k - 1) as nat) {
            Some(i) => Some(i),
            None => if groups[k - 1].0 == l {
                Some(k - 1)
            } else {
                None
            },
        }
    }
}

/// The groups of the first `k` hits: one per label, in the order the
/// labels first occur, each with its offsets in hit order.
pub open spec fn spec_groups(hits: Seq<DeepSignature>, k: nat) -> Seq<(Seq<char>, Seq<usize>)>
    decreases k,
{
    if k == 0 {
        Seq::empty()
    } else {
        let g = spec_groups(hits, (k - 1) as nat);
        let h = hits[k - 1];
        match group_index(g, h.label@, g.len()) {
            Some(i) => g.update(i, (g[i].0, g[i].1.push(h.offset))),
            None => g.push((h.label@, seq![h.offset])),
        }
    }
}

proof fn lemma_group_index_stable(g: Seq<(Seq<char>, Seq<usize>)>, l: Seq<char>, k: nat, k2: nat)
    requires
        k <= k2,
    ensures
        group_index(g, l, k) matches Some(i) ==> 0 <= i < k && group_index(g, l, k2) == Some(i),
    decreases k2,
{
    if k2 > k {
        lemma_group_index_stable(g, l, k, (k2 - 1) as nat);
    } else if k > 0 {
        lemma_group_index_stable(g, l, (k - 1) as nat, (k - 1) as nat);
    }
}

fn find_group(groups: &Vec<HitGroup>, label: &str) -> (r: Option<usize>)
    ensures
        r matches Some(i) ==> i < groups@.len() && group_index(groups_v(groups@), label@, groups@.len())
            == Some(i as int),
        r is None ==> group_index(groups_v(groups@), label@, groups@.len()) is None,
{
    let ghost gv = groups_v(groups@);
    let mut i: usize = 0;
    while i < groups.len()
        invariant
            i <= groups@.len(),
            gv == groups_v(groups@),
            group_index(gv, label@, i as nat) is None,
        decreases groups@.len() - i,
    {
        if str_eq(groups[i].label, label) {
            assert(gv[i as int].0 == label@);
            proof {
                lemma_group_index_stable(gv, label@, (i + 1) as nat, groups@.len());
            }
            return Some(i);
        }
        i += 1;
    }
    None
}

/// Groups the hits of a scan by signature label, keeping the order in
/// which each label first occurs and the order of the offsets.
pub fn group_hits(hits: &[DeepSignature]) -> (r: Vec<HitGroup>)
    ensures
        groups_v(r@) == spec_groups(hits@, hits@.len()),
{
    let mut groups: Vec<HitGroup> = Vec::new();
    let mut k: usize = 0;
    while k < hits.len()
        invariant
            k <= hits@.len(),
            groups_v(groups@) == spec_groups(hits@, k as nat),
        decreases hits@.len() - k,
    {
        let h = hits[k];
        let ghost before = groups_v(groups@);
        assert(before.len() == groups@.len());
        match find_group(&groups, h.label) {
            Some(i) => {
                let mut offs = groups[i].offsets.clone();
                assert(offs@ == groups@[i as int].offsets@);
                offs.push(h.offset);
                let label = groups[i].label;
                groups.set(i, HitGroup { label, offsets: offs });
                assert(groups_v(groups@) =~= before.update(
                    i as int,
                    (before[i as int].0, before[i as int].1.push(h.offset)),
                ));
            },
            None => {
                let mut offs: Vec<usize> = Vec::new();
                offs.push(h.offset);
                groups.push(HitGroup { label: h.label, offsets: offs });
                assert(groups_v(groups@) =~= before.push(
                    (h.label@, seq![h.offset]),
                ));
            },
        }
        k += 1;
        assert(groups_v(groups@) =~= spec_groups(hits@, k as nat));
    }
    groups
}

/// The first group, in order, that has a hit at offset 0.
pub open spec fn spec_detected(groups: Seq<(Seq<char>, Seq<usize>)>, k: nat) -> Option<int>
    decreases k,
{
    if k == 0 {
        None
    } else {
        match spec_detected(groups, (k - 1) as nat) {
            Some(i) => Some(i),
            None => if groups[k - 1].1.contains(0usize) {
                Some(k - 1)
            } else {
                None
            },
        }
    }
}

proof fn lemma_detected_stable(g: Seq<(Seq<char>, Seq<usize>)>, k: nat, k2: nat)
    requires
        k <= k2,
    ensures
        spec_detected(g, k) matches Some(i) ==> 0 <= i < k && spec_detected(g, k2) == Some(i),
    decreases k2,
{
    if k2 > k {
        lemma_detected_stable(g, k, (k2 - 1) as nat);
    } else if k > 0 {
        lemma_detected_stable(g, (k - 1) as nat, (k - 1) as nat);
    }
}

fn has_zero(offs: &Vec<usize>) -> (r: bool)
    ensures
        r == offs@.contains(0usize),
{
    let mut j: usize = 0;
    while j < offs.len()
        invariant
            j <= offs@.len(),
            forall|q: int| 0 <= q < j ==> offs@[q] != 0usize,
        decreases offs@.len() - j,
    {
        if offs[j] == 0 {
            assert(offs@[j as int] == 0usize);
            return true;
        }
        j += 1;
    }
    false
}

/// The format detected at the start of the file: the label of the first
/// group with a hit at offset 0.
pub fn detected_format(groups: &Vec<HitGroup>) -> (r: Option<&'static str>)
    ensures
        match spec_detected(groups_v(groups@), groups@.len()) {
            Some(i) => r matches Some(l) && l@ == groups@[i].label@,
            None => r is None,
        },
{
    let ghost gv = groups_v(groups@);
    let mut i: usize = 0;
    while i < groups.len()
        invariant
            i <= groups@.len(),
            gv == groups_v(groups@),
            spec_detected(gv, i as nat) is None,
        decreases groups@.len() - i,
    {
        let found = has_zero(&groups[i].offsets);
        assert(gv[i as int].1 == groups@[i as int].offsets@);
        if found {
            proof {
                lemma_detected_stable(gv, (i + 1) as nat, groups@.len());
            }
            return Some(groups[i].label);
        }
        i += 1;
    }
    None
}

/// Offsets listed per group; the rest are counted.
pub const LISTED_OFFSETS: usize = 16;

/// The listed offsets among the first `k` of `offs`.
pub open spec fn offset_lines(offs: Seq<usize>, k: nat) -> Seq<char>
    decreases k,
{
    if k == 0 {
        Seq::empty()
    } else {
        offset_lines(offs, (k - 1) as nat) + "    0x"@ + hex_padded(offs[k - 1] as nat, 8) + "\n"@
    }
}

/// The part of the report for one group.
pub open spec fn group_text(g: (Seq<char>, Seq<usize>)) -> Seq<char> {
    let n = g.1.len();
    "■ "@ + g.0 + " — "@ + decimal(n) + " hit(s):\n"@ + offset_lines(
        g.1,
        if n < 16 {
            n
        } else {
            16
        },
    ) + if n > 16 {
        "    … and "@ + decimal((n - 16) as nat) + " more\n"@
    } else {
        Seq::empty()
    } + "\n"@
}

/// The parts for the first `k` groups.
pub open spec fn groups_text(groups: Seq<(Seq<char>, Seq<usize>)>, k: nat) -> Seq<char>
    decreases k,
{
    if k == 0 {
        Seq::empty()
    } else {
        groups_text(groups, (k - 1) as nat) + group_text(groups[k - 1])
    }
}

/// The line naming the format detected at the start of the file, if any.
pub open spec fn detected_line(groups: Seq<(Seq<char>, Seq<usize>)>) -> Seq<char> {
    match spec_detected(groups, groups.len()) {
        Some(i) => "✓ Detected format: "@ + groups[i].0 + "\n\n"@,
        None => Seq::empty(),
    }
}

/// The report of a scan of the file `name` of `len` bytes (`size_text`
/// is that size for people), done in `elapsed_ms` milliseconds.
pub open spec fn spec_scan_report(
    name: Seq<char>,
    size_text: Seq<char>,
    len: nat,
    elapsed_ms: Seq<char>,
    hits: Seq<DeepSignature>,
) -> Seq<char> {
    let groups = spec_groups(hits, hits.len());
    "Signature Scan — "@ + name + "\n"@ + "Size: "@ + size_text + " ("@ + decimal(len) + " bytes)\n"@
        + "Scanned in "@ + elapsed_ms + " ms — "@ + decimal(hits.len()) + " signature match(es)\n"@
        + "\n"@ + if groups.len() == 0 {
        "No known signatures found in this file.\n"@
    } else {
        detected_line(groups) + groups_text(groups, groups.len())
    }
}

/// The one-line summary of a scan.
pub open spec fn spec_scan_summary(
    name: Seq<char>,
    size_text: Seq<char>,
    elapsed_ms: Seq<char>,
    hit_count: nat,
) -> Seq<char> {
    name + "  ·  "@ + size_text + "  ·  "@ + decimal(hit_count) + " hits  ·  "@ + elapsed_ms + " ms"@
}

fn push_group_text(out: &mut String, g: &HitGroup)
    ensures
        final(out)@ == old(out)@ + group_text(group_v(*g)),
{
    let n = g.offsets.len();
    push_str(out, "■ ");
    push_str(out, g.label);
    push_str(out, " — ");
    push_decimal(out, n as u64);
    push_str(out, " hit(s):\n");
    let ghost base = out@;
    let shown: usize = if n < LISTED_OFFSETS {
        n
    } else {
        LISTED_OFFSETS
    };
    let mut i: usize = 0;
    while i < shown
        invariant
            shown <= n == g.offsets@.len(),
            i <= shown,
            out@ == base + offset_lines(g.offsets@, i as nat),
        decreases shown - i,
    {
        push_str(out, "    0x");
        push_hex_padded(out, g.offsets[i] as u64, 8);
        push_str(out, "\n");
        i += 1;
        assert(out@ =~= base + offset_lines(g.offsets@, i as nat));
    }
    if n > LISTED_OFFSETS {
        push_str(out, "    … and ");
        push_decimal(out, (n - LISTED_OFFSETS) as u64);
        push_str(out, " more\n");
    }
    push_str(out, "\n");
    assert(out@ =~= old(out)@ + group_text(group_v(*g)));
}

/// The report of a signature scan and its one-line summary: the file
/// `name` of `len` bytes (`size_text` is that size for people), scanned in
/// `elapsed_ms` milliseconds, with the hits `hits`.
pub fn scan_report(name: &str, size_text: &str, len: usize, elapsed_ms: &str, hits: &[DeepSignature]) -> (r: (String, String))
    ensures
        r.0@ == spec_scan_summary(name@, size_text@, elapsed_ms@, hits@.len()),
        r.1@ == spec_scan_report(name@, size_text@, len as nat, elapsed_ms@, hits@),
{
    let groups = group_hits(hits);
    let ghost gv = groups_v(groups@);
    let mut out = String::new();
    push_str(&mut out, "Signature Scan — ");
    push_str(&mut out, name);
    push_str(&mut out, "\n");
    push_str(&mut out, "Size: ");
    push_str(&mut out, size_text);
    push_str(&mut out, " (");
    push_decimal(&mut out, len as u64);
    push_str(&mut out, " bytes)\n");
    push_str(&mut out, "Scanned in ");
    push_str(&mut out, elapsed_ms);
    push_str(&mut out, " ms — ");
    push_decimal(&mut out, hits.len() as u64);
    push_str(&mut out, " signature match(es)\n");
    push_str(&mut out, "\n");
    assert(gv.len() == groups@.len());
    if groups.len() == 0 {
        push_str(&mut out, "No known signatures found in this file.\n");
    } else {
        let ghost before = out@;
        match detected_format(&groups) {
            Some(l) => {
                push_str(&mut out, "✓ Detected format: ");
                push_str(&mut out, l);
                push_str(&mut out, "\n\n");
                proof {
                    let i = spec_detected(gv, gv.len())->Some_0;
                    lemma_detected_stable(gv, gv.len(), gv.len());
                    assert(gv[i].0 == groups@[i].label@);
                }
                assert(out@ =~= before + detected_line(gv));
            },
            None => {
                assert(out@ =~= before + detected_line(gv));
            },
        }
        let ghost base = out@;
        let mut k: usize = 0;
        while k < groups.len()
            invariant
                k <= groups@.len(),
                gv == groups_v(groups@),
                out@ == base + groups_text(gv, k as nat),
            decreases groups@.len() - k,
        {
            push_group_text(&mut out, &groups[k]);
            assert(gv[k as int] == group_v(groups@[k as int]));
            k += 1;
            assert(out@ =~= base + groups_text(gv, k as nat));
        }
    }
    assert(out@ =~= spec_scan_report(name@, size_text@, len as nat, elapsed_ms@, hits@));
    let mut info = String::new();
    push_str(&mut info, name);
    push_str(&mut info, "  ·  ");
    push_str(&mut info, size_text);
    push_str(&mut info, "  ·  ");
    push_decimal(&mut info, hits.len() as u64);
    push_str(&mut info, " hits  ·  ");
    push_str(&mut info, elapsed_ms);
    push_str(&mut info, " ms");
    assert(info@ =~= spec_scan_summary(name@, size_text@, elapsed_ms@, hits@.len()));
    (info, out)
}

} // verus!
