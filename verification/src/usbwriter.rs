//! Writing an ISO image to a USB drive with `dd`: the drives offered, the
//! command's arguments, the progress it reports and the outcome shown.

use vstd::prelude::*;
use crate::hexedit::unsigned_digits;
use crate::system::DiskInfo;
use crate::text::{chars_of, decimal, find_from, is_white_space, push_char, push_decimal, push_str,
    skip_lead_ws, skip_trail_ws, trim_bounds};

verus! {

/// Indices of the removable drives among the first `k` of `disks`.
pub open spec fn removable_upto(disks: Seq<DiskInfo>, k: nat) -> Seq<usize>
    decreases k,
{
    if k == 0 {
        Seq::empty()
    } else if disks[k - 1].removable {
        removable_upto(disks, (k - 1) as nat).push((k - 1) as usize)
    } else {
        removable_upto(disks, (k - 1) as nat)
    }
}

/// Indices, in order, of the drives that can be written to: the removable
/// ones.
pub fn usb_targets(disks: &[DiskInfo]) -> (r: Vec<usize>)
    ensures
        r@ == removable_upto(disks@, disks@.len()),
{
    let mut v: Vec<usize> = Vec::new();
    let mut i: usize = 0;
    while i < disks.len()
        invariant
            i <= disks@.len(),
            v@ == removable_upto(disks@, i as nat),
        decreases disks@.len() - i,
    {
        if disks[i].removable {
            v.push(i);
        }
        i += 1;
    }
    v
}

/// The arguments of the `dd` command that writes `iso` to `target`.
pub open spec fn spec_dd_arguments(iso: Seq<char>, target: Seq<char>) -> Seq<Seq<char>> {
    seq!["if="@ + iso, "of="@ + target, "bs=4M"@, "status=progress"@, "conv=fsync"@]
}

fn text(s: &str) -> (r: String)
    ensures
        r@ == s@,
{
    let mut t = String::new();
    push_str(&mut t, s);
    t
}

/// The arguments of the `dd` command that writes `iso` to `target`, in
/// 4 MiB blocks, reporting progress and syncing at the end.
pub fn dd_arguments(iso: &str, target: &str) -> (r: Vec<String>)
    ensures
        r@.map_values(|s: String| s@) == spec_dd_arguments(iso@, target@),
{
    let mut a = String::new();
    push_str(&mut a, "if=");
    push_str(&mut a, iso);
    let mut b = String::new();
    push_str(&mut b, "of=");
    push_str(&mut b, target);
    let v = vec![a, b, text("bs=4M"), text("status=progress"), text("conv=fsync")];
    assert(v@.map_values(|s: String| s@) =~= spec_dd_arguments(iso@, target@));
    v
}

/// Whether `c` is a decimal digit.
pub open spec fn is_dec_char(c: char) -> bool {
    '0' <= c <= '9'
}

/// The value of the decimal digits `d`.
pub open spec fn dec_value(d: Seq<char>) -> nat
    decreases d.len(),
{
    if d.len() == 0 {
        0
    } else {
        dec_value(d.drop_last()) * 10 + (d.last() as int - 48) as nat
    }
}

/// The number that `s` spells in decimal (what `u64::from_str` accepts:
/// an optional `+`, then digits), if it is at most `max`.
pub open spec fn spec_parse_decimal(s: Seq<char>, max: nat) -> Option<nat> {
    match unsigned_digits(s) {
        None => None,
        Some(d) => if (forall|i: int| 0 <= i < d.len() ==> is_dec_char(#[trigger] d[i])) && dec_value(d)
            <= max {
            Some(dec_value(d))
        } else {
            None
        },
    }
}

/// The number of bytes copied that a line of `dd`'s progress output
/// reports: the decimal number before the first `" bytes "` of the trimmed
/// line.
pub open spec fn spec_parse_dd_bytes(line: Seq<char>) -> Option<nat> {
    let t = skip_trail_ws(skip_lead_ws(line));
    match find_from(t, " bytes "@, 0) {
        None => None,
        Some(i) => spec_parse_decimal(t.subrange(0, i), u64::MAX as nat),
    }
}

proof fn lemma_dec_value_prefix(d: Seq<char>, j: int)
    requires
        0 <= j <= d.len(),
    ensures
        dec_value(d.subrange(0, j)) <= dec_value(d),
    decreases d.len() - j,
{
    if j < d.len() {
        lemma_dec_value_prefix(d, j + 1);
        assert(d.subrange(0, j + 1).drop_last() =~= d.subrange(0, j));
    } else {
        assert(d.subrange(0, j) =~= d);
    }
}

/// Parses `cs[lo..hi]` as a decimal `u64`.
fn parse_decimal_range(cs: &Vec<char>, lo: usize, hi: usize) -> (r: Option<u64>)
    requires
        lo <= hi <= cs@.len(),
    ensures
        match spec_parse_decimal(cs@.subrange(lo as int, hi as int), u64::MAX as nat) {
            Some(v) => r == Some(v as u64),
            None => r is None,
        },
{
    let ghost s = cs@.subrange(lo as int, hi as int);
    if lo == hi {
        return None;
    }
    let mut p = lo;
    if cs[p] == '-' {
        return None;
    }
    if cs[p] == '+' {
        if p + 1 == hi {
            return None;
        }
        p += 1;
    }
    let ghost d = cs@.subrange(p as int, hi as int);
    assert(unsigned_digits(s) == Some(d)) by {
        if s[0] == '+' {
            assert(s.drop_first() =~= d);
        } else {
            assert(s =~= d);
        }
    }
    let start = p;
    let mut acc: u64 = 0;
    let mut i: usize = p;
    assert(d.subrange(0, 0) =~= Seq::<char>::empty());
    while i < hi
        invariant
            start <= i <= hi <= cs@.len(),
            s == cs@.subrange(lo as int, hi as int),
            d == cs@.subrange(start as int, hi as int),
            unsigned_digits(s) == Some(d),
            acc == dec_value(d.subrange(0, i - start)),
            forall|k: int| 0 <= k < i - start ==> is_dec_char(#[trigger] d[k]),
        decreases hi - i,
    {
        let c = cs[i];
        if !('0' <= c && c <= '9') {
            assert(!is_dec_char(d[i - start]));
            return None;
        }
        let dv = (c as u64) - 48;
        let ghost pre1 = d.subrange(0, i - start + 1);
        assert(pre1.drop_last() =~= d.subrange(0, i - start));
        let bound = (u64::MAX - dv) / 10;
        if acc > bound {
            assert(acc * 10 + dv > u64::MAX) by (nonlinear_arith)
                requires
                    acc > bound,
                    bound == (u64::MAX - dv) / 10,
                    dv <= 9,
            ;
            proof {
                if forall|k: int| 0 <= k < d.len() ==> is_dec_char(#[trigger] d[k]) {
                    lemma_dec_value_prefix(d, i - start + 1);
                }
            }
            return None;
        }
        assert(acc * 10 + dv <= u64::MAX) by (nonlinear_arith)
            requires
                acc <= bound,
                bound == (u64::MAX - dv) / 10,
                dv <= 9,
        ;
        acc = acc * 10 + dv;
        i += 1;
    }
    assert(d.subrange(0, i - start) =~= d);
    Some(acc)
}

/// The number of bytes copied that a line of `dd`'s progress output
/// reports (`"123456 bytes (123 kB) copied, ..."`), if the line is such a
/// report.
pub fn parse_dd_bytes(line: &str) -> (r: Option<u64>)
    ensures
        match spec_parse_dd_bytes(line@) {
            Some(v) => r == Some(v as u64),
            None => r is None,
        },
{
    let cs = chars_of(line);
    let (lo, hi) = trim_bounds(&cs);
    let ghost t = cs@.subrange(lo as int, hi as int);
    assert(t == skip_trail_ws(skip_lead_ws(line@)));
    let pat = ['\u{20}', 'b', 'y', 't', 'e', 's', '\u{20}'];
    proof {
        reveal_strlit(" bytes ");
        assert(pat@ =~= " bytes "@);
    }
    let mut i: usize = lo;
    while hi - i >= 7
        invariant
            lo <= i <= hi <= cs@.len(),
            t == cs@.subrange(lo as int, hi as int),
            pat@ == " bytes "@,
            pat@.len() == 7,
            t == skip_trail_ws(skip_lead_ws(line@)),
            find_from(t, " bytes "@, 0) == find_from(t, " bytes "@, i - lo),
        decreases hi - i,
    {
        let mut j: usize = 0;
        let mut same = true;
        while j < 7
            invariant
                lo <= i,
                i + 7 <= hi <= cs@.len(),
                j <= 7,
                pat@.len() == 7,
                same == (forall|q: int| 0 <= q < j ==> cs@[i + q] == pat@[q]),
            decreases 7 - j,
        {
            if cs[i + j] != pat[j] {
                same = false;
            }
            j += 1;
        }
        if same {
            assert(t.subrange(i - lo, i - lo + 7) =~= pat@);
            assert(find_from(t, " bytes "@, i - lo) == Some(i - lo));
            assert(t.subrange(0, i - lo) =~= cs@.subrange(lo as int, i as int));
            assert(spec_parse_dd_bytes(line@) == spec_parse_decimal(
                cs@.subrange(lo as int, i as int),
                u64::MAX as nat,
            ));
            return parse_decimal_range(&cs, lo, i);
        }
        assert(t.subrange(i - lo, i - lo + 7) != pat@) by {
            let q = choose|q: int| 0 <= q < 7 && cs@[i + q] != pat@[q];
            assert(t.subrange(i - lo, i - lo + 7)[q] == cs@[i + q]);
        }
        i += 1;
    }
    None
}

proof fn lemma_decimal_value(n: nat)
    ensures
        dec_value(decimal(n)) == n,
        decimal(n).len() >= 1,
        forall|i: int| 0 <= i < decimal(n).len() ==> is_dec_char(#[trigger] decimal(n)[i]),
    decreases n,
{
    let d = decimal(n);
    if n < 10 {
        assert(d.drop_last() =~= Seq::<char>::empty());
        assert(d.last() == (48 + n) as char);
        assert(((48 + n) as char) as int == 48 + n);
        assert(dec_value(d) == dec_value(d.drop_last()) * 10 + (d.last() as int - 48) as nat);
        assert(dec_value(d) == n);
    } else {
        lemma_decimal_value(n / 10);
        assert(((48 + n % 10) as char) as int == 48 + n % 10);
        assert(d.drop_last() =~= decimal(n / 10));
        assert(d.last() == (48 + n % 10) as char);
        assert((n / 10) * 10 + n % 10 == n);
        assert(dec_value(d) == dec_value(d.drop_last()) * 10 + (d.last() as int - 48) as nat);
        assert(dec_value(d) == n);
        assert forall|i: int| 0 <= i < d.len() implies is_dec_char(#[trigger] d[i]) by {
            if i < d.len() - 1 {
                assert(d[i] == decimal(n / 10)[i]);
            }
        }
    }
}

proof fn lemma_no_match_before(s: Seq<char>, p: Seq<char>, k: int, i: int)
    requires
        0 <= i <= k,
        k + p.len() <= s.len(),
        p.len() > 0,
        forall|j: int| 0 <= j < k ==> s[j] != p[0],
        s.subrange(k, k + p.len()) == p,
    ensures
        find_from(s, p, i) == Some(k),
    decreases k - i,
{
    if i < k {
        assert(s.subrange(i, i + p.len())[0] == s[i]);
        lemma_no_match_before(s, p, k, i + 1);
    }
}

/// A progress line as `dd` prints it is read back as the number of bytes it
/// reports: the number, `" bytes "`, then the rest of the line, which ends
/// in something other than white space.
pub proof fn lemma_dd_line_read_back(n: nat, rest: Seq<char>)
    requires
        n <= u64::MAX,
        rest.len() > 0,
        !is_white_space(rest.last()),
    ensures
        spec_parse_dd_bytes(decimal(n) + " bytes "@ + rest) == Some(n),
{
    reveal_strlit(" bytes ");
    let d = decimal(n);
    let line = d + " bytes "@ + rest;
    lemma_decimal_value(n);
    assert(skip_lead_ws(line) == line) by {
        assert(line[0] == d[0]);
    }
    assert(skip_trail_ws(line) == line) by {
        assert(line.last() == rest.last());
    }
    let p = " bytes "@;
    assert(line.subrange(d.len() as int, d.len() + 7int) =~= p);
    assert forall|j: int| 0 <= j < d.len() implies line[j] != p[0] by {
        assert(line[j] == d[j]);
    }
    lemma_no_match_before(line, p, d.len() as int, 0);
    assert(line.subrange(0, d.len() as int) =~= d);
    assert(unsigned_digits(d) == Some(d)) by {
        assert(is_dec_char(d[0]));
    }
}

/// How far a write has come, in percent (0 while the size of the image is
/// not known).
pub fn write_percent(bytes: u64, total: u64) -> (r: u64)
    requires
        bytes * 100 <= u64::MAX,
    ensures
        r == if total > 0 {
            (bytes * 100) / (total as int)
        } else {
            0
        },
{
    if total > 0 {
        bytes * 100 / total
    } else {
        0
    }
}

/// The message shown when `dd` ends: whether it succeeded, and its exit
/// code when it failed with one.
pub open spec fn spec_dd_exit_message(success: bool, code: Option<i32>) -> Seq<char> {
    if success {
        "Write complete! You can safely remove the USB drive."@
    } else {
        "dd failed with exit code "@ + match code {
            Some(c) => if c < 0 {
                seq!['-'] + decimal((-c) as nat)
            } else {
                decimal(c as nat)
            },
            None => "unknown"@,
        }
    }
}

/// The message shown when `dd` ends, with the exit status it ended with.
pub fn dd_exit_message(success: bool, code: Option<i32>) -> (r: String)
    ensures
        r@ == spec_dd_exit_message(success, code),
{
    let mut s = String::new();
    if success {
        push_str(&mut s, "Write complete! You can safely remove the USB drive.");
        return s;
    }
    push_str(&mut s, "dd failed with exit code ");
    match code {
        Some(c) => {
            if c < 0 {
                push_char(&mut s, '-');
                let m: u64 = (0i64 - (c as i64)) as u64;
                push_decimal(&mut s, m);
            } else {
                push_decimal(&mut s, c as u64);
            }
        },
        None => {
            push_str(&mut s, "unknown");
        },
    }
    assert(s@ =~= spec_dd_exit_message(success, code));
    s
}

} // verus!
