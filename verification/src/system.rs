//! Settings of the application and the block devices it can scan.

use vstd::prelude::*;
use crate::text::{chars_of, decimal, push_char, push_decimal, push_str};

verus! {

/// Application configuration.
#[derive(Debug, Clone)]
pub struct Config {
    pub default_recovery_folder: String,
    pub auto_save_log: bool,
    pub photorec_path: Option<String>,
}

/// `base` joined with the relative path `name` the way a file system path
/// is extended: a separator is put between them unless `base` is empty or
/// already ends with one.
pub open spec fn path_join(base: Seq<char>, name: Seq<char>) -> Seq<char> {
    if base.len() == 0 {
        name
    } else if base.last() == '/' {
        base + name
    } else {
        base + seq!['/'] + name
    }
}

/// Join a relative path onto a base path (see `path_join`).
pub fn join_path(base: &str, name: &str) -> (r: String)
    ensures
        r@ == path_join(base@, name@),
{
    let b = chars_of(base);
    let mut s = String::new();
    push_str(&mut s, base);
    if b.len() > 0 && b[b.len() - 1] != '/' {
        push_char(&mut s, '/');
    }
    push_str(&mut s, name);
    s
}

impl Config {
    /// The default configuration for a user whose home directory is
    /// `home`: recovered files go to its `recovery` folder, the log is saved
    /// automatically, and no engine path is set.
    pub fn with_home(home: &str) -> (r: Config)
        ensures
            r.default_recovery_folder@ == path_join(home@, "recovery"@),
            r.auto_save_log,
            r.photorec_path is None,
    {
        Config { default_recovery_folder: join_path(home, "recovery"), auto_save_log: true, photorec_path: None }
    }
}

/// A block device that can be scanned.
#[derive(Debug, Clone)]
pub struct DiskInfo {
    pub device: String,
    pub model: String,
    pub capacity: u64,
    pub sector_size: u64,
    pub removable: bool,
}

/// A partition of a block device.
#[derive(Debug, Clone)]
pub struct PartitionInfo {
    pub offset: u64,
    pub size: u64,
    pub name: String,
}

/// Whether `s` starts with `p`.
pub open spec fn starts_with_chars(s: Seq<char>, p: Seq<char>) -> bool {
    p.len() <= s.len() && s.subrange(0, p.len() as int) == p
}

fn starts_with_exec(s: &Vec<char>, p: &[char]) -> (r: bool)
    ensures
        r == starts_with_chars(s@, p@),
{
    if p.len() > s.len() {
        return false;
    }
    let mut i: usize = 0;
    while i < p.len()
        invariant
            p@.len() <= s@.len(),
            i <= p@.len(),
            forall|k: int| 0 <= k < i ==> s@[k] == p@[k],
        decreases p@.len() - i,
    {
        if s[i] != p[i] {
            assert(s@.subrange(0, p@.len() as int)[i as int] != p@[i as int]);
            return false;
        }
        i += 1;
    }
    assert(s@.subrange(0, p@.len() as int) =~= p@);
    true
}

/// Whether a block device is a loop, RAM or device-mapper device, which
/// are not offered for recovery.
pub open spec fn spec_is_virtual_device(name: Seq<char>) -> bool {
    starts_with_chars(name, seq!['l', 'o', 'o', 'p']) || starts_with_chars(name, seq!['r', 'a', 'm'])
        || starts_with_chars(name, seq!['d', 'm', '-'])
}

/// Whether a block device is left out of the device list (see
/// `spec_is_virtual_device`).
pub fn is_virtual_device(name: &str) -> (r: bool)
    ensures
        r == spec_is_virtual_device(name@),
{
    let cs = chars_of(name);
    starts_with_exec(&cs, &['l', 'o', 'o', 'p']) || starts_with_exec(&cs, &['r', 'a', 'm']) || starts_with_exec(
        &cs,
        &['d', 'm', '-'],
    )
}

/// A partition from its start and size in 512-byte sectors.
pub fn partition_from_sectors(start: u64, size: u64, name: String) -> (r: PartitionInfo)
    requires
        start * 512 <= u64::MAX,
        size * 512 <= u64::MAX,
    ensures
        r.offset == start * 512,
        r.size == size * 512,
        r.name@ == name@,
{
    PartitionInfo { offset: start * 512, size: size * 512, name }
}

/// How a partition is listed for the user to pick: the whole disk by its
/// name, another partition by its name, size (in GiB when at least one,
/// else in MiB, rounded down) and offset.
pub open spec fn spec_partition_label(p: PartitionInfo) -> Seq<char> {
    let mb = p.size as nat / 1048576;
    let gb = mb / 1024;
    if p.offset == 0 && p.size > 0 {
        "Whole Disk ("@ + p.name@ + ")"@
    } else if gb > 0 {
        p.name@ + "  ("@ + decimal(gb as nat) + " GB, offset "@ + decimal(p.offset as nat) + ")"@
    } else {
        p.name@ + "  ("@ + decimal(mb as nat) + " MB, offset "@ + decimal(p.offset as nat) + ")"@
    }
}

/// How a partition is listed for the user to pick.
pub fn partition_label(p: &PartitionInfo) -> (r: String)
    ensures
        r@ == spec_partition_label(*p),
{
    let mut s = String::new();
    if p.offset == 0 && p.size > 0 {
        push_str(&mut s, "Whole Disk (");
        push_str(&mut s, p.name.as_str());
        push_str(&mut s, ")");
    } else {
        let mb: u64 = p.size / (1024 * 1024);
        let gb: u64 = mb / 1024;
        push_str(&mut s, p.name.as_str());
        push_str(&mut s, "  (");
        if gb > 0 {
            push_decimal(&mut s, gb);
            push_str(&mut s, " GB, offset ");
        } else {
            push_decimal(&mut s, mb);
            push_str(&mut s, " MB, offset ");
        }
        push_decimal(&mut s, p.offset);
        push_str(&mut s, ")");
    }
    assert(s@ =~= spec_partition_label(*p));
    s
}

} // verus!
