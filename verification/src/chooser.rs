//! The file-type filters of the file choosers: a pattern such as `*.iso` or
//! `*.{jpg,png}` turns into a named list of extensions and a filter line.

use vstd::prelude::*;
use crate::text::{chars_of, push_char, push_str, skip_lead_ws, skip_trail_ws, trim_bounds};

verus! {

/// `s` without a leading `*.`.
pub open spec fn strip_star_dot(s: Seq<char>) -> Seq<char> {
    if s.len() >= 2 && s[0] == '*' && s[1] == '.' {
        s.subrange(2, s.len() as int)
    } else {
        s
    }
}

/// `s` without white space at either end.
pub open spec fn trim(s: Seq<char>) -> Seq<char> {
    skip_trail_ws(skip_lead_ws(s))
}

/// Splitting the first `k` characters of `s` at commas: the fields ended by
/// a comma, trimmed, empty ones left out, and the field still open.
pub open spec fn comma_fields(s: Seq<char>, k: nat) -> (Seq<Seq<char>>, Seq<char>)
    decreases k,
{
    if k == 0 {
        (Seq::empty(), Seq::empty())
    } else {
        let (done, cur) = comma_fields(s, (k - 1) as nat);
        if s[k - 1] == ',' {
            (
                if trim(cur).len() > 0 {
                    done.push(trim(cur))
                } else {
                    done
                },
                Seq::empty(),
            )
        } else {
            (done, cur.push(s[k - 1]))
        }
    }
}

/// The comma-separated items of `s`, trimmed, empty ones left out.
pub open spec fn comma_items(s: Seq<char>) -> Seq<Seq<char>> {
    let (done, cur) = comma_fields(s, s.len());
    if trim(cur).len() > 0 {
        done.push(trim(cur))
    } else {
        done
    }
}

/// The extensions a pattern names: those in braces after `*.`, or the one
/// after `*.`.
pub open spec fn pattern_exts(pattern: Seq<char>) -> Seq<Seq<char>> {
    let content = strip_star_dot(trim(pattern));
    if content.len() > 0 && content[0] == '{' && content.last() == '}' {
        comma_items(content.subrange(1, content.len() - 1))
    } else if content.len() > 0 {
        seq![content]
    } else {
        Seq::empty()
    }
}

/// The name of a filter: the extension itself when there is one, else
/// `Files`.
pub open spec fn pattern_name(exts: Seq<Seq<char>>) -> Seq<char> {
    if exts.len() == 1 {
        seq!['.'] + exts[0]
    } else {
        "Files"@
    }
}

fn trimmed(cs: &Vec<char>) -> (r: Vec<char>)
    ensures
        r@ == trim(cs@),
{
    let (lo, hi) = trim_bounds(cs);
    let mut v: Vec<char> = Vec::new();
    let mut i = lo;
    while i < hi
        invariant
            lo <= i <= hi <= cs@.len(),
            v@ == cs@.subrange(lo as int, i as int),
        decreases hi - i,
    {
        v.push(cs[i]);
        i += 1;
        assert(v@ =~= cs@.subrange(lo as int, i as int));
    }
    v
}

fn string_of(cs: &Vec<char>) -> (r: String)
    ensures
        r@ == cs@,
{
    let mut s = String::new();
    let mut i: usize = 0;
    while i < cs.len()
        invariant
            i <= cs@.len(),
            s@ == cs@.subrange(0, i as int),
        decreases cs@.len() - i,
    {
        push_char(&mut s, cs[i]);
        i += 1;
        assert(s@ =~= cs@.subrange(0, i as int));
    }
    assert(cs@.subrange(0, i as int) =~= cs@);
    s
}

/// The comma-separated items of `cs[lo..hi]`.
fn split_items(cs: &Vec<char>, lo: usize, hi: usize) -> (r: Vec<String>)
    requires
        lo <= hi <= cs@.len(),
    ensures
        r@.map_values(|s: String| s@) == comma_items(cs@.subrange(lo as int, hi as int)),
{
    let ghost s = cs@.subrange(lo as int, hi as int);
    let mut done: Vec<String> = Vec::new();
    let mut cur: Vec<char> = Vec::new();
    let mut i = lo;
    while i < hi
        invariant
            lo <= i <= hi <= cs@.len(),
            s == cs@.subrange(lo as int, hi as int),
            (done@.map_values(|s: String| s@), cur@) == comma_fields(s, (i - lo) as nat),
        decreases hi - i,
    {
        let c = cs[i];
        assert(s[i - lo] == c);
        if c == ',' {
            let t = trimmed(&cur);
            if t.len() > 0 {
                done.push(string_of(&t));
            }
            cur = Vec::new();
        } else {
            cur.push(c);
        }
        i += 1;
        assert(done@.map_values(|s: String| s@) =~= comma_fields(s, (i - lo) as nat).0);
        assert(cur@ =~= comma_fields(s, (i - lo) as nat).1);
    }
    let t = trimmed(&cur);
    if t.len() > 0 {
        done.push(string_of(&t));
    }
    assert(done@.map_values(|s: String| s@) =~= comma_items(s));
    done
}

/// The name and the extensions of a file-chooser pattern such as `*.iso`
/// or `*.{jpg,png}`.
pub fn parse_pattern(pattern: &str) -> (r: (String, Vec<String>))
    ensures
        r.1@.map_values(|s: String| s@) == pattern_exts(pattern@),
        r.0@ == pattern_name(pattern_exts(pattern@)),
{
    let raw = chars_of(pattern);
    let p = trimmed(&raw);
    let n = p.len();
    let start: usize = if n >= 2 && p[0] == '*' && p[1] == '.' {
        2
    } else {
        0
    };
    let ghost content = p@.subrange(start as int, n as int);
    assert(content == strip_star_dot(trim(pattern@))) by {
        if start == 0 {
            assert(p@.subrange(0, n as int) =~= p@);
        }
    }
    let exts: Vec<String> = if n > start && p[start] == '{' && p[n - 1] == '}' {
        assert(content[0] == '{' && content.last() == '}');
        let v = split_items(&p, start + 1, n - 1);
        assert(content.subrange(1, content.len() - 1) =~= p@.subrange(start + 1, n - 1));
        v
    } else if n > start {
        let mut c: Vec<char> = Vec::new();
        let mut i = start;
        while i < n
            invariant
                start <= i <= n == p@.len(),
                c@ == p@.subrange(start as int, i as int),
            decreases n - i,
        {
            c.push(p[i]);
            i += 1;
            assert(c@ =~= p@.subrange(start as int, i as int));
        }
        let v = vec![string_of(&c)];
        assert(v@.map_values(|s: String| s@) =~= seq![content]);
        v
    } else {
        let v: Vec<String> = Vec::new();
        assert(v@.map_values(|s: String| s@) =~= Seq::<Seq<char>>::empty());
        v
    };
    let ghost ev = exts@.map_values(|s: String| s@);
    let mut name = String::new();
    if exts.len() == 1 {
        push_char(&mut name, '.');
        push_str(&mut name, exts[0].as_str());
        assert(ev[0] == exts@[0]@);
    } else {
        push_str(&mut name, "Files");
    }
    assert(name@ =~= pattern_name(ev));
    (name, exts)
}

/// `"*."` before each extension, separated by spaces.
pub open spec fn globs_upto(exts: Seq<Seq<char>>, k: nat) -> Seq<char>
    decreases k,
{
    if k == 0 {
        Seq::empty()
    } else if k == 1 {
        "*."@ + exts[0]
    } else {
        globs_upto(exts, (k - 1) as nat) + seq![' '] + "*."@ + exts[k - 1]
    }
}

/// The filter line of a file chooser for `pattern`: every file for an empty
/// pattern, `*`, or a pattern without extensions; else the named globs,
/// then every file.
pub open spec fn spec_build_filter(pattern: Seq<char>) -> Seq<char> {
    let exts = pattern_exts(pattern);
    if pattern.len() == 0 || pattern == "*"@ || exts.len() == 0 {
        "All Files (*)"@
    } else {
        pattern_name(exts) + " ("@ + globs_upto(exts, exts.len()) + ")\tAll Files (*)"@
    }
}

/// The filter line of a file chooser for `pattern`.
pub fn build_filter(pattern: &str) -> (r: String)
    ensures
        r@ == spec_build_filter(pattern@),
{
    let cs = chars_of(pattern);
    let star = cs.len() == 1 && cs[0] == '*';
    proof {
        reveal_strlit("*");
        if cs@.len() == 1 && cs@[0] == '*' {
            assert(pattern@ =~= "*"@);
        }
        if pattern@ == "*"@ {
            assert(cs@[0] == '*');
        }
    }
    let mut out = String::new();
    if cs.len() == 0 || star {
        push_str(&mut out, "All Files (*)");
        return out;
    }
    let (name, exts) = parse_pattern(pattern);
    let ghost ev = exts@.map_values(|s: String| s@);
    if exts.len() == 0 {
        push_str(&mut out, "All Files (*)");
        return out;
    }
    push_str(&mut out, name.as_str());
    push_str(&mut out, " (");
    let ghost base = out@;
    let mut k: usize = 0;
    while k < exts.len()
        invariant
            k <= exts@.len(),
            ev == exts@.map_values(|s: String| s@),
            out@ == base + globs_upto(ev, k as nat),
        decreases exts@.len() - k,
    {
        if k > 0 {
            push_char(&mut out, ' ');
        }
        push_str(&mut out, "*.");
        push_str(&mut out, exts[k].as_str());
        assert(ev[k as int] == exts@[k as int]@);
        k += 1;
        assert(out@ =~= base + globs_upto(ev, k as nat));
    }
    push_str(&mut out, ")\tAll Files (*)");
    assert(out@ =~= spec_build_filter(pattern@));
    out
}

} // verus!
