//! The hex editor: its dump of a file's bytes, the parsing of the offset
//! and value that the user types, and the state of an editing session.

use vstd::prelude::*;
use crate::text::{char_from_ascii_code, chars_of, decimal, push_char, push_decimal, push_str};

verus! {

/// The upper-case hexadecimal digit of `n` (`0 <= n < 16`).
pub open spec fn hex_digit(n: int) -> char {
    if n < 10 {
        (48 + n) as char
    } else {
        (55 + n) as char
    }
}

/// Upper-case hexadecimal digits of `n`, without leading zeros.
pub open spec fn hex_digits(n: nat) -> Seq<char>
    decreases n,
{
    if n < 16 {
        seq![hex_digit(n as int)]
    } else {
        hex_digits(n / 16).push(hex_digit((n % 16) as int))
    }
}

/// `k` copies of the character `c`.
pub open spec fn repeat_char(c: char, k: nat) -> Seq<char> {
    Seq::new(k, |i: int| c)
}

/// `n` in upper-case hexadecimal, zero-padded to at least `w` digits
/// (what `{:0wX}` prints).
pub open spec fn hex_padded(n: nat, w: nat) -> Seq<char> {
    let d = hex_digits(n);
    if d.len() < w {
        repeat_char('0', (w - d.len()) as nat) + d
    } else {
        d
    }
}

fn hex_digit_exec(n: u64) -> (r: char)
    requires
        n < 16,
    ensures
        r == hex_digit(n as int),
{
    let u = n as u32;
    if u < 10 {
        char_from_ascii_code(48 + u)
    } else {
        char_from_ascii_code(55 + u)
    }
}

/// `16` to the power `k`.
pub open spec fn pow16(k: nat) -> nat
    decreases k,
{
    if k == 0 {
        1
    } else {
        16 * pow16((k - 1) as nat)
    }
}

proof fn lemma_hex_digits_len(n: nat, k: nat)
    requires
        1 <= k,
        n < pow16(k),
    ensures
        hex_digits(n).len() <= k,
    decreases k,
{
    if n >= 16 {
        if k == 1 {
            assert(pow16(1) == 16) by {
                assert(pow16(0) == 1);
            }
        } else {
            let p = pow16((k - 1) as nat);
            assert(n / 16 < p) by (nonlinear_arith)
                requires
                    n < 16 * p,
            ;
            lemma_hex_digits_len(n / 16, (k - 1) as nat);
        }
    }
}

/// Number of hexadecimal digits of `n`.
fn hex_len(n: u64) -> (r: usize)
    ensures
        r == hex_digits(n as nat).len(),
        r <= 16,
    decreases n,
{
    proof {
        assert(pow16(16) == 0x1_0000_0000_0000_0000) by {
            reveal_with_fuel(pow16, 17);
        }
        lemma_hex_digits_len(n as nat, 16);
    }
    if n < 16 {
        1
    } else {
        let k = hex_len(n / 16);
        k + 1
    }
}

/// Appends the hexadecimal digits of `n` to `s`.
fn push_hex(s: &mut String, n: u64)
    ensures
        final(s)@ == old(s)@ + hex_digits(n as nat),
    decreases n,
{
    if n >= 16 {
        push_hex(s, n / 16);
    }
    let c = hex_digit_exec(n % 16);
    push_char(s, c);
    assert(s@ =~= old(s)@ + hex_digits(n as nat));
}

/// Appends `k` copies of `c` to `s`.
pub fn push_repeat(s: &mut String, c: char, k: usize)
    ensures
        final(s)@ == old(s)@ + repeat_char(c, k as nat),
{
    let mut i: usize = 0;
    while i < k
        invariant
            i <= k,
            s@ == old(s)@ + repeat_char(c, i as nat),
        decreases k - i,
    {
        push_char(s, c);
        i += 1;
        assert(s@ =~= old(s)@ + repeat_char(c, i as nat));
    }
}

/// Appends `n` in upper-case hexadecimal, zero-padded to `w` digits.
pub fn push_hex_padded(s: &mut String, n: u64, w: usize)
    ensures
        final(s)@ == old(s)@ + hex_padded(n as nat, w as nat),
{
    let k = hex_len(n);
    if k < w {
        push_repeat(s, '0', w - k);
    }
    push_hex(s, n);
    assert(s@ =~= old(s)@ + hex_padded(n as nat, w as nat));
}


/// The column header of the dump.
pub open spec fn dump_header() -> Seq<char> {
    "Offset      00 01 02 03 04 05 06 07  08 09 0A 0B 0C 0D 0E 0F  ASCII\n"@
}

/// The whole dump of an empty view.
pub open spec fn dump_empty() -> Seq<char> {
    "Offset      00 01 02 03 04 05 06 07  08 09 0A 0B 0C 0D 0E 0F  ASCII\n(empty file)"@
}

/// The cell of byte `i` in a row that ends before `end`: two digits and a
/// `*` for an edited byte, or blanks past the end.
pub open spec fn dump_cell(data: Seq<u8>, modified: Seq<bool>, i: int, end: int) -> Seq<char> {
    if i < end {
        hex_padded(data[i] as nat, 2).push(
            if i < modified.len() && modified[i] {
                '*'
            } else {
                ' '
            },
        )
    } else {
        seq![' ', ' ', ' ']
    }
}

/// The first `k` cells of the row at `off`, with the gap after the eighth.
pub open spec fn dump_cells(data: Seq<u8>, modified: Seq<bool>, off: int, end: int, k: nat) -> Seq<
    char,
>
    decreases k,
{
    if k == 0 {
        Seq::empty()
    } else {
        let c = dump_cells(data, modified, off, end, (k - 1) as nat) + dump_cell(
            data,
            modified,
            off + k - 1,
            end,
        );
        if k == 8 {
            c.push(' ')
        } else {
            c
        }
    }
}

/// How a byte shows in the text column.
pub open spec fn ascii_char(b: u8) -> char {
    if 0x20 <= b <= 0x7E {
        b as char
    } else {
        '.'
    }
}

/// The text column of the bytes `off .. end`.
pub open spec fn dump_ascii(data: Seq<u8>, off: int, end: int) -> Seq<char> {
    Seq::new((end - off) as nat, |j: int| ascii_char(data[off + j]))
}

/// The line of the dump that starts at byte `off`, of `show` bytes shown.
pub open spec fn dump_row(data: Seq<u8>, modified: Seq<bool>, off: int, show: int) -> Seq<char> {
    let end = if off + 16 <= show {
        off + 16
    } else {
        show
    };
    hex_padded(off as nat, 8) + seq![' ', ' '] + dump_cells(data, modified, off, end, 16) + seq![' ']
        + dump_ascii(data, off, end) + seq!['\n']
}

/// The first `r` lines of the dump.
pub open spec fn dump_rows(data: Seq<u8>, modified: Seq<bool>, show: int, r: nat) -> Seq<char>
    decreases r,
{
    if r == 0 {
        Seq::empty()
    } else {
        dump_rows(data, modified, show, (r - 1) as nat) + dump_row(data, modified, 16 * (r - 1), show)
    }
}

/// The hex dump of at most `max_bytes` bytes of `data`, sixteen to a line,
/// edited bytes marked with `*`, and a note when the data was cut short.
pub open spec fn spec_hex_dump(data: Seq<u8>, modified: Seq<bool>, max_bytes: int) -> Seq<char> {
    let show = if data.len() < max_bytes {
        data.len() as int
    } else {
        max_bytes
    };
    if show == 0 {
        dump_empty()
    } else {
        dump_header() + dump_rows(data, modified, show, ((show + 15) / 16) as nat) + if data.len()
            > max_bytes {
            "... showing "@ + decimal(max_bytes as nat) + " of "@ + decimal(data.len()) + " bytes\n"@
        } else {
            Seq::empty()
        }
    }
}

/// Appends the line of the dump that starts at `off`.
fn push_dump_row(out: &mut String, data: &[u8], modified: &[bool], off: usize, show: usize)
    requires
        off < show <= data@.len(),
    ensures
        final(out)@ == old(out)@ + dump_row(data@, modified@, off as int, show as int),
{
    let end: usize = if show - off > 16 {
        off + 16
    } else {
        show
    };
    push_hex_padded(out, off as u64, 8);
    push_char(out, ' ');
    push_char(out, ' ');
    let ghost mid = out@;
    let mut j: usize = 0;
    while j < 16
        invariant
            off < end <= show <= data@.len(),
            end == (if off + 16 <= show { off + 16 } else { show as int }),
            j <= 16,
            out@ == mid + dump_cells(data@, modified@, off as int, end as int, j as nat),
        decreases 16 - j,
    {
        let ghost before = out@;
        if j < end - off {
            let i = off + j;
            push_hex_padded(out, data[i] as u64, 2);
            if i < modified.len() && modified[i] {
                push_char(out, '*');
            } else {
                push_char(out, ' ');
            }
        } else {
            push_char(out, ' ');
            push_char(out, ' ');
            push_char(out, ' ');
        }
        assert(out@ =~= before + dump_cell(data@, modified@, off + j, end as int));
        if j == 7 {
            push_char(out, ' ');
        }
        j += 1;
        assert(out@ =~= mid + dump_cells(data@, modified@, off as int, end as int, j as nat));
    }
    push_char(out, ' ');
    let ghost mid2 = out@;
    let mut i: usize = off;
    while i < end
        invariant
            off <= i <= end <= data@.len(),
            out@ == mid2 + dump_ascii(data@, off as int, i as int),
        decreases end - i,
    {
        let c = data[i];
        if (0x20 <= c && c <= 0x7E) {
            push_char(out, c as char);
        } else {
            push_char(out, '.');
        }
        i += 1;
        assert(out@ =~= mid2 + dump_ascii(data@, off as int, i as int));
    }
    push_char(out, '\n');
    assert(out@ =~= old(out)@ + dump_row(data@, modified@, off as int, show as int));
}

/// The hex dump of at most `max_bytes` bytes of `data`; `modified` marks
/// the edited bytes.
pub fn hex_dump(data: &[u8], modified: &[bool], max_bytes: usize) -> (r: String)
    ensures
        r@ == spec_hex_dump(data@, modified@, max_bytes as int),
{
    let show: usize = if data.len() < max_bytes {
        data.len()
    } else {
        max_bytes
    };
    if show == 0 {
        let r = String::from_str(
            "Offset      00 01 02 03 04 05 06 07  08 09 0A 0B 0C 0D 0E 0F  ASCII\n(empty file)",
        );
        return r;
    }
    let mut out = String::new();
    push_str(&mut out, "Offset      00 01 02 03 04 05 06 07  08 09 0A 0B 0C 0D 0E 0F  ASCII\n");
    let mut off: usize = 0;
    let mut rows: usize = 0;
    loop
        invariant_except_break
            off == 16 * rows,
            off < show,
            out@ == dump_header() + dump_rows(data@, modified@, show as int, rows as nat),
        invariant
            0 < show <= data@.len(),
        ensures
            out@ == dump_header() + dump_rows(data@, modified@, show as int, ((show + 15) / 16) as nat),
        decreases show - off,
    {
        push_dump_row(&mut out, data, modified, off, show);
        rows += 1;
        assert(out@ =~= dump_header() + dump_rows(data@, modified@, show as int, rows as nat));
        if show - off <= 16 {
            assert(rows == (show + 15) / 16);
            break;
        }
        off += 16;
    }
    if data.len() > max_bytes {
        push_str(&mut out, "... showing ");
        push_decimal(&mut out, max_bytes as u64);
        push_str(&mut out, " of ");
        push_decimal(&mut out, data.len() as u64);
        push_str(&mut out, " bytes\n");
    }
    assert(out@ =~= spec_hex_dump(data@, modified@, max_bytes as int));
    out
}

/// `s` without every leading `"0x"` (what `trim_start_matches("0x")` leaves).
pub open spec fn strip_hex_prefix(s: Seq<char>) -> Seq<char>
    decreases s.len(),
{
    if s.len() >= 2 && s[0] == '0' && s[1] == 'x' {
        strip_hex_prefix(s.subrange(2, s.len() as int))
    } else {
        s
    }
}

/// Whether `c` is a hexadecimal digit of either case.
pub open spec fn is_hex_char(c: char) -> bool {
    ('0' <= c <= '9') || ('a' <= c <= 'f') || ('A' <= c <= 'F')
}

/// The value of the hexadecimal digit `c`.
pub open spec fn hex_char_value(c: char) -> nat {
    if '0' <= c <= '9' {
        (c as int - 48) as nat
    } else if 'a' <= c <= 'f' {
        (c as int - 87) as nat
    } else {
        (c as int - 55) as nat
    }
}

/// The value of the hexadecimal digits `d`.
pub open spec fn hex_value(d: Seq<char>) -> nat
    decreases d.len(),
{
    if d.len() == 0 {
        0
    } else {
        hex_value(d.drop_last()) * 16 + hex_char_value(d.last())
    }
}

/// The digits that radix-16 parsing of an unsigned integer reads from `s`:
/// a leading `+` is dropped, and an empty string or a lone sign reads none.
pub open spec fn unsigned_digits(s: Seq<char>) -> Option<Seq<char>> {
    if s.len() == 0 {
        None
    } else if s[0] == '+' || s[0] == '-' {
        if s.len() == 1 || s[0] == '-' {
            None
        } else {
            Some(s.drop_first())
        }
    } else {
        Some(s)
    }
}

/// The number that `s` spells in hexadecimal, after its `"0x"` prefixes,
/// if it is at most `max`.
pub open spec fn spec_parse_hex(s: Seq<char>, max: nat) -> Option<nat> {
    match unsigned_digits(strip_hex_prefix(s)) {
        None => None,
        Some(d) => if (forall|i: int| 0 <= i < d.len() ==> is_hex_char(#[trigger] d[i])) && hex_value(
            d,
        ) <= max {
            Some(hex_value(d))
        } else {
            None
        },
    }
}

proof fn lemma_hex_value_prefix(d: Seq<char>, j: int)
    requires
        0 <= j <= d.len(),
    ensures
        hex_value(d.subrange(0, j)) <= hex_value(d),
    decreases d.len() - j,
{
    if j < d.len() {
        lemma_hex_value_prefix(d, j + 1);
        let p = d.subrange(0, j + 1);
        assert(p.drop_last() =~= d.subrange(0, j));
    } else {
        assert(d.subrange(0, j) =~= d);
    }
}

/// Parses `s` as the hex editor reads an offset or a value: every leading
/// `"0x"` is skipped, then radix 16; `None` where that fails or the number
/// exceeds `max`.
pub fn parse_hex(s: &str, max: u64) -> (r: Option<u64>)
    requires
        max >= 15,
    ensures
        match spec_parse_hex(s@, max as nat) {
            Some(v) => r == Some(v as u64),
            None => r is None,
        },
{
    let cs = chars_of(s);
    let n = cs.len();
    let mut p: usize = 0;
    assert(cs@.subrange(0, n as int) =~= cs@);
    while n - p >= 2 && cs[p] == '0' && cs[p + 1] == 'x'
        invariant
            n == cs@.len(),
            p <= n,
            strip_hex_prefix(cs@) == strip_hex_prefix(cs@.subrange(p as int, n as int)),
        decreases n - p,
    {
        assert(cs@.subrange(p as int, n as int).subrange(2, n - p) =~= cs@.subrange(p + 2, n as int));
        p += 2;
    }
    let ghost rest = cs@.subrange(p as int, n as int);
    assert(strip_hex_prefix(rest) == rest);
    if p == n {
        return None;
    }
    if cs[p] == '-' {
        return None;
    }
    if cs[p] == '+' {
        if p + 1 == n {
            return None;
        }
        p += 1;
    }
    let ghost d = cs@.subrange(p as int, n as int);
    assert(unsigned_digits(rest) == Some(d)) by {
        if rest[0] == '+' {
            assert(rest.drop_first() =~= d);
        } else {
            assert(rest =~= d);
        }
    }
    let start = p;
    let mut acc: u64 = 0;
    let mut i: usize = p;
    assert(d.subrange(0, 0) =~= Seq::<char>::empty());
    while i < n
        invariant
            start <= i <= n,
            n == cs@.len(),
            d == cs@.subrange(start as int, n as int),
            unsigned_digits(strip_hex_prefix(s@)) == Some(d),
            max >= 15,
            acc <= max,
            acc == hex_value(d.subrange(0, i - start)),
            forall|k: int| 0 <= k < i - start ==> is_hex_char(#[trigger] d[k]),
        decreases n - i,
    {
        let c = cs[i];
        let dv: u64 = if '0' <= c && c <= '9' {
            (c as u64) - 48
        } else if 'a' <= c && c <= 'f' {
            (c as u64) - 87
        } else if 'A' <= c && c <= 'F' {
            (c as u64) - 55
        } else {
            assert(!is_hex_char(d[i - start]));
            return None;
        };
        assert(dv == hex_char_value(c) && dv < 16);
        let bound = (max - dv) / 16;
        let ghost pre = d.subrange(0, i - start);
        let ghost pre1 = d.subrange(0, i - start + 1);
        assert(pre1.drop_last() =~= pre);
        if acc > bound {
            assert(acc * 16 + dv > max) by (nonlinear_arith)
                requires
                    acc > bound,
                    bound == (max - dv) / 16,
                    dv <= max,
            ;
            proof {
                if forall|k: int| 0 <= k < d.len() ==> is_hex_char(#[trigger] d[k]) {
                    lemma_hex_value_prefix(d, i - start + 1);
                }
            }
            return None;
        }
        assert(acc * 16 + dv <= max) by (nonlinear_arith)
            requires
                acc <= bound,
                bound == (max - dv) / 16,
                dv <= max,
        ;
        acc = acc * 16 + dv;
        i += 1;
    }
    assert(d.subrange(0, i - start) =~= d);
    Some(acc)
}

proof fn lemma_hex_digit_roundtrip(n: int)
    requires
        0 <= n < 16,
    ensures
        is_hex_char(hex_digit(n)),
        hex_char_value(hex_digit(n)) == n,
        hex_digit(n) != 'x' && hex_digit(n) != '+' && hex_digit(n) != '-',
{
}

proof fn lemma_digits_value(n: nat)
    ensures
        hex_value(hex_digits(n)) == n,
        forall|i: int| 0 <= i < hex_digits(n).len() ==> is_hex_char(#[trigger] hex_digits(n)[i]) && hex_digits(
            n,
        )[i] != 'x',
    decreases n,
{
    if n < 16 {
        lemma_hex_digit_roundtrip(n as int);
        assert(hex_digits(n).drop_last() =~= Seq::<char>::empty());
        assert(hex_value(Seq::<char>::empty()) == 0);
        assert(hex_digits(n).last() == hex_digit(n as int));
    } else {
        lemma_digits_value(n / 16);
        lemma_hex_digit_roundtrip((n % 16) as int);
        assert(hex_digits(n).drop_last() =~= hex_digits(n / 16));
        assert(hex_digits(n).last() == hex_digit((n % 16) as int));
        assert((n / 16) * 16 + n % 16 == n);
        let d = hex_digits(n);
        assert forall|i: int| 0 <= i < d.len() implies is_hex_char(#[trigger] d[i]) && d[i] != 'x' by {
            if i < d.len() - 1 {
                assert(d[i] == hex_digits(n / 16)[i]);
            }
        }
    }
}

proof fn lemma_leading_zeros(k: nat, d: Seq<char>)
    ensures
        hex_value(repeat_char('0', k) + d) == hex_value(d),
    decreases d.len(), k,
{
    if d.len() == 0 {
        assert(repeat_char('0', k) + d =~= repeat_char('0', k));
        if k > 0 {
            assert(repeat_char('0', k).drop_last() =~= repeat_char('0', (k - 1) as nat));
            lemma_leading_zeros((k - 1) as nat, d);
            assert(repeat_char('0', (k - 1) as nat) + d =~= repeat_char('0', (k - 1) as nat));
        }
    } else {
        lemma_leading_zeros(k, d.drop_last());
        assert((repeat_char('0', k) + d).drop_last() =~= repeat_char('0', k) + d.drop_last());
    }
}

/// What the dump shows an offset or a byte as, typed back into the editor,
/// reads as that number: the offset column of the dump can be used to
/// address an edit.
pub proof fn lemma_parse_shown_hex(n: nat, w: nat, max: nat)
    requires
        n <= max,
    ensures
        spec_parse_hex(hex_padded(n, w), max) == Some(n),
{
    let d = hex_digits(n);
    let s = hex_padded(n, w);
    lemma_digits_value(n);
    assert(d.len() >= 1) by {
        reveal_with_fuel(hex_digits, 2);
    }
    let k: nat = if d.len() < w {
        (w - d.len()) as nat
    } else {
        0
    };
    assert(s =~= repeat_char('0', k) + d);
    lemma_leading_zeros(k, d);
    assert forall|i: int| 0 <= i < s.len() implies is_hex_char(#[trigger] s[i]) && s[i] != 'x' by {
        if i >= k {
            assert(s[i] == d[i - k]);
        }
    }
    assert(strip_hex_prefix(s) == s) by {
        if s.len() >= 2 {
            assert(s[1] != 'x');
        }
    }
    assert(s[0] != '+' && s[0] != '-');
    assert(unsigned_digits(s) == Some(s));
}

/// Bytes of a file that the hex editor shows.
pub const HEX_VIEW_LIMIT: usize = 65536;

/// Why the hex editor refused an edit.
#[derive(Debug, Clone, Copy, PartialEq, Eq, Structural)]
pub enum HexEditError {
    InvalidOffset,
    InvalidValue,
    OffsetBeyondEnd,
}

impl HexEditError {
    /// The message shown for the error.
    pub fn message(&self) -> (r: &'static str)
        ensures
            r@ == match *self {
                HexEditError::InvalidOffset => "Invalid offset (must be hex)"@,
                HexEditError::InvalidValue => "Invalid value (must be 00-FF)"@,
                HexEditError::OffsetBeyondEnd => "Offset exceeds file size"@,
            },
    {
        match self {
            HexEditError::InvalidOffset => "Invalid offset (must be hex)",
            HexEditError::InvalidValue => "Invalid value (must be 00-FF)",
            HexEditError::OffsetBeyondEnd => "Offset exceeds file size",
        }
    }
}

/// What closing the editor window does.
#[derive(Debug, Clone, Copy, PartialEq, Eq, Structural)]
pub enum CloseAction {
    /// Close without writing.
    Close,
    /// Write the file, then close.
    SaveAndClose,
    /// Keep the window open.
    Stay,
}

/// Number of `true` flags in `m`.
pub open spec fn count_true(m: Seq<bool>) -> nat
    decreases m.len(),
{
    if m.len() == 0 {
        0
    } else {
        count_true(m.drop_last()) + if m.last() {
            1nat
        } else {
            0nat
        }
    }
}

/// `n` flags, all `false`.
pub open spec fn all_clear(n: nat) -> Seq<bool> {
    Seq::new(n, |i: int| false)
}

/// An open hex editing session: the bytes, which of them were edited
/// since the last load or save, the file they belong to, and whether
/// there are unsaved edits.
pub struct HexEditor {
    data: Vec<u8>,
    modified: Vec<bool>,
    path: String,
    dirty: bool,
}

impl HexEditor {
    /// One edit flag per byte.
    pub closed spec fn well_formed(self) -> bool {
        self.modified@.len() == self.data@.len()
    }

    /// The bytes being edited.
    pub closed spec fn bytes(self) -> Seq<u8> {
        self.data@
    }

    /// Which bytes were edited since the last load or save.
    pub closed spec fn edited(self) -> Seq<bool> {
        self.modified@
    }

    /// The file the bytes are saved to.
    pub closed spec fn file(self) -> Seq<char> {
        self.path@
    }

    /// Whether there are unsaved edits.
    pub closed spec fn unsaved(self) -> bool {
        self.dirty
    }

    fn clear_flags(n: usize) -> (r: Vec<bool>)
        ensures
            r@ == all_clear(n as nat),
    {
        let mut v: Vec<bool> = Vec::new();
        let mut i: usize = 0;
        while i < n
            invariant
                i <= n,
                v@ == all_clear(i as nat),
            decreases n - i,
        {
            v.push(false);
            i += 1;
            assert(v@ =~= all_clear(i as nat));
        }
        v
    }

    /// A session on the bytes of the file at `path`, with no edits.
    pub fn new(data: Vec<u8>, path: String) -> (r: HexEditor)
        ensures
            r.bytes() == data@,
            r.edited() == all_clear(data@.len()),
            r.file() == path@,
            !r.unsaved(),
            r.well_formed(),
    {
        let modified = Self::clear_flags(data.len());
        HexEditor { data, modified, path, dirty: false }
    }

    /// The bytes being edited.
    pub fn data(&self) -> (r: &[u8])
        ensures
            r@ == self.bytes(),
    {
        self.data.as_slice()
    }

    /// Which bytes were edited since the last load or save.
    pub fn modified(&self) -> (r: &[bool])
        ensures
            r@ == self.edited(),
    {
        self.modified.as_slice()
    }

    /// The file the bytes are saved to.
    pub fn path(&self) -> (r: &str)
        ensures
            r@ == self.file(),
    {
        self.path.as_str()
    }

    /// Whether there are unsaved edits.
    pub fn is_dirty(&self) -> (r: bool)
        ensures
            r == self.unsaved(),
    {
        self.dirty
    }

    /// Sets the byte at the offset typed in `offset_text` to the value typed
    /// in `value_text`, both hexadecimal; the offset is checked first, then
    /// the value, then that the offset lies in the file.
    pub fn apply_edit(&mut self, offset_text: &str, value_text: &str) -> (r: Result<(), HexEditError>)
        requires
            old(self).well_formed(),
        ensures
            final(self).well_formed(),
            match spec_parse_hex(offset_text@, usize::MAX as nat) {
                None => r == Err::<(), HexEditError>(HexEditError::InvalidOffset),
                Some(off) => match spec_parse_hex(value_text@, 255) {
                    None => r == Err::<(), HexEditError>(HexEditError::InvalidValue),
                    Some(v) => if off < old(self).bytes().len() {
                        r is Ok
                    } else {
                        r == Err::<(), HexEditError>(HexEditError::OffsetBeyondEnd)
                    },
                },
            },
            r is Ok ==> {
                let off = spec_parse_hex(offset_text@, usize::MAX as nat)->Some_0 as int;
                let v = spec_parse_hex(value_text@, 255)->Some_0 as u8;
                &&& final(self).bytes() == old(self).bytes().update(off, v)
                &&& final(self).edited() == old(self).edited().update(off, true)
                &&& final(self).unsaved()
                &&& final(self).file() == old(self).file()
            },
            r is Err ==> *final(self) == *old(self),
    {
        let off = match parse_hex(offset_text, usize::MAX as u64) {
            Some(v) => v as usize,
            None => return Err(HexEditError::InvalidOffset),
        };
        let value = match parse_hex(value_text, 255) {
            Some(v) => v as u8,
            None => return Err(HexEditError::InvalidValue),
        };
        if off >= self.data.len() {
            return Err(HexEditError::OffsetBeyondEnd);
        }
        self.data.set(off, value);
        self.modified.set(off, true);
        self.dirty = true;
        Ok(())
    }

    /// Number of bytes edited since the last load or save.
    pub fn modified_count(&self) -> (r: usize)
        ensures
            r == count_true(self.edited()),
    {
        let mut k: usize = 0;
        let mut i: usize = 0;
        while i < self.modified.len()
            invariant
                i <= self.modified@.len(),
                k == count_true(self.modified@.subrange(0, i as int)),
                k <= i,
            decreases self.modified@.len() - i,
        {
            assert(self.modified@.subrange(0, i + 1).drop_last() =~= self.modified@.subrange(0, i as int));
            if self.modified[i] {
                k += 1;
            }
            i += 1;
        }
        assert(self.modified@.subrange(0, i as int) =~= self.modified@);
        k
    }

    /// Replaces the bytes with those read again from the file, dropping
    /// every edit.
    pub fn reload(&mut self, data: Vec<u8>)
        ensures
            final(self).bytes() == data@,
            final(self).edited() == all_clear(data@.len()),
            !final(self).unsaved(),
            final(self).file() == old(self).file(),
            final(self).well_formed(),
    {
        let modified = Self::clear_flags(data.len());
        let path = self.path.clone();
        *self = HexEditor { data, modified, path, dirty: false };
    }

    /// Records that the bytes were written to the file.
    pub fn mark_saved(&mut self)
        ensures
            final(self).well_formed(),
            final(self).bytes() == old(self).bytes(),
            final(self).edited() == all_clear(old(self).bytes().len()),
            !final(self).unsaved(),
            final(self).file() == old(self).file(),
    {
        let modified = Self::clear_flags(self.data.len());
        self.modified = modified;
        self.dirty = false;
    }

    /// Records that the bytes were written to the file at `path`, which the
    /// session now belongs to.
    pub fn saved_as(&mut self, path: String)
        ensures
            final(self).well_formed(),
            final(self).bytes() == old(self).bytes(),
            final(self).edited() == all_clear(old(self).bytes().len()),
            !final(self).unsaved(),
            final(self).file() == path@,
    {
        self.mark_saved();
        self.path = path;
    }

    /// The dump shown in the editor window.
    pub fn dump(&self) -> (r: String)
        ensures
            r@ == spec_hex_dump(self.bytes(), self.edited(), HEX_VIEW_LIMIT as int),
    {
        hex_dump(self.data.as_slice(), self.modified.as_slice(), HEX_VIEW_LIMIT)
    }

    /// What closing the window does, given the button picked in the
    /// unsaved-changes dialog (`0` save, `1` discard, anything else or no
    /// answer cancels); without unsaved edits no dialog is shown.
    pub fn close_action(&self, choice: Option<i32>) -> (r: CloseAction)
        ensures
            r == if !self.unsaved() {
                CloseAction::Close
            } else {
                match choice {
                    Some(0) => CloseAction::SaveAndClose,
                    Some(1) => CloseAction::Close,
                    _ => CloseAction::Stay,
                }
            },
    {
        if !self.dirty {
            return CloseAction::Close;
        }
        match choice {
            Some(0) => CloseAction::SaveAndClose,
            Some(1) => CloseAction::Close,
            _ => CloseAction::Stay,
        }
    }
}

proof fn lemma_count_update(m: Seq<bool>, i: int, b: bool)
    requires
        0 <= i < m.len(),
    ensures
        count_true(m.update(i, b)) + (if m[i] { 1int } else { 0int }) == count_true(m) + (if b {
            1int
        } else {
            0int
        }),
    decreases m.len(),
{
    let u = m.update(i, b);
    if i == m.len() - 1 {
        assert(u.drop_last() =~= m.drop_last());
    } else {
        lemma_count_update(m.drop_last(), i, b);
        assert(u.drop_last() =~= m.drop_last().update(i, b));
    }
}

/// An accepted edit raises the count of edited bytes by one when it edits
/// a byte not yet edited, and leaves it as it was otherwise.
pub proof fn lemma_edit_counts_each_byte_once(before: HexEditor, after: HexEditor, off: int)
    requires
        0 <= off < before.edited().len(),
        after.edited() == before.edited().update(off, true),
    ensures
        count_true(after.edited()) == count_true(before.edited()) + if before.edited()[off] {
            0int
        } else {
            1int
        },
{
    lemma_count_update(before.edited(), off, true);
}

} // verus!
