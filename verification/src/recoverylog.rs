//! The recovery log viewer: which files hold a log, how several are put
//! together, and how much of the text is shown.

use vstd::prelude::*;
use crate::text::{chars_of, contains_chars, find_from, push_str};
use vstd::string::StringSliceAdditionalSpecFns;
use vstd::utf8::encode_utf8;

verus! {

/// The log files looked at first, in order.
pub open spec fn spec_log_paths() -> Seq<Seq<char>> {
    seq!["/tmp/repair_output/repair.log"@, "/tmp/recovery_log.txt"@, "/tmp/kaifuku_recovery.log"@]
}

fn text(s: &str) -> (r: String)
    ensures
        r@ == s@,
{
    let mut t = String::new();
    push_str(&mut t, s);
    t
}

/// The log files looked at first, in order.
pub fn recovery_log_paths() -> (r: Vec<String>)
    ensures
        r@.map_values(|s: String| s@) == spec_log_paths(),
{
    let v = vec![
        text("/tmp/repair_output/repair.log"),
        text("/tmp/recovery_log.txt"),
        text("/tmp/kaifuku_recovery.log"),
    ];
    assert(v@.map_values(|s: String| s@) =~= spec_log_paths());
    v
}

/// Files in `/tmp` at or above this size are not shown as logs.
pub const LOG_FILE_LIMIT: u64 = 1_000_000;

/// Bytes of log text shown; the rest is cut off.
pub const SHOWN_LOG_BYTES: usize = 5000;

/// Whether a file in `/tmp` is taken for a log: a regular file under
/// `LOG_FILE_LIMIT` bytes whose name mentions recovery, PhotoRec or Kaifuku.
pub open spec fn spec_is_log_file(name: Seq<char>, is_file: bool, size: u64) -> bool {
    &&& find_from(name, "recovery"@, 0) is Some || find_from(name, "photorec"@, 0) is Some || find_from(
        name,
        "kaifuku"@,
        0,
    ) is Some
    &&& is_file
    &&& size < LOG_FILE_LIMIT
}

/// Whether a file in `/tmp` is taken for a log.
pub fn is_log_file(name: &str, is_file: bool, size: u64) -> (r: bool)
    ensures
        r == spec_is_log_file(name@, is_file, size),
{
    let cs = chars_of(name);
    let a = chars_of("recovery");
    let b = chars_of("photorec");
    let c = chars_of("kaifuku");
    (contains_chars(&cs, &a) || contains_chars(&cs, &b) || contains_chars(&cs, &c)) && is_file && size
        < LOG_FILE_LIMIT
}

/// The first `k` logs, each under a rule with its file name, separated by
/// new lines.
pub open spec fn joined_upto(logs: Seq<(Seq<char>, Seq<char>)>, k: nat) -> Seq<char>
    decreases k,
{
    if k == 0 {
        Seq::empty()
    } else {
        let part = "── "@ + logs[k - 1].0 + " ──\n"@ + logs[k - 1].1;
        if k == 1 {
            part
        } else {
            joined_upto(logs, (k - 1) as nat) + "\n"@ + part
        }
    }
}

/// The logs found in `/tmp`, by file name and text, put together.
pub fn join_logs(logs: &Vec<(String, String)>) -> (r: String)
    ensures
        r@ == joined_upto(logs@.map_values(|e: (String, String)| (e.0@, e.1@)), logs@.len()),
{
    let ghost lv = logs@.map_values(|e: (String, String)| (e.0@, e.1@));
    let mut out = String::new();
    let mut k: usize = 0;
    while k < logs.len()
        invariant
            k <= logs@.len(),
            lv == logs@.map_values(|e: (String, String)| (e.0@, e.1@)),
            out@ == joined_upto(lv, k as nat),
        decreases logs@.len() - k,
    {
        if k > 0 {
            push_str(&mut out, "\n");
        }
        push_str(&mut out, "── ");
        push_str(&mut out, logs[k].0.as_str());
        push_str(&mut out, " ──\n");
        push_str(&mut out, logs[k].1.as_str());
        assert(lv[k as int] == (logs@[k as int].0@, logs@[k as int].1@));
        k += 1;
        assert(out@ =~= joined_upto(lv, k as nat));
    }
    out
}

/// The text the viewer shows of a log: all of it up to `SHOWN_LOG_BYTES`
/// bytes, else those first bytes and a note that the rest was cut.
pub fn shown_log(content: &str) -> (r: String)
    requires
        content.len() > SHOWN_LOG_BYTES ==> vstd::utf8::is_char_boundary(
            content.spec_bytes(),
            SHOWN_LOG_BYTES as int,
        ),
    ensures
        content.len() <= SHOWN_LOG_BYTES ==> r@ == content@,
        content.len() > SHOWN_LOG_BYTES ==> exists|head: Seq<char>|
            encode_utf8(head) == content.spec_bytes().subrange(0, SHOWN_LOG_BYTES as int) && r@ == head
                + "\n\n... (truncated)"@,
{
    let mut out = String::new();
    if content.len() > SHOWN_LOG_BYTES {
        let (head, _rest) = content.split_at(SHOWN_LOG_BYTES);
        push_str(&mut out, head);
        push_str(&mut out, "\n\n... (truncated)");
        assert(encode_utf8(head@) == content.spec_bytes().subrange(0, SHOWN_LOG_BYTES as int) && out@
            == head@ + "\n\n... (truncated)"@);
    } else {
        push_str(&mut out, content);
    }
    out
}

} // verus!
