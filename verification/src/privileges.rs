//! Whether the process may read the storage devices, and how it asks for
//! root privileges when it may not.

use vstd::prelude::*;
use crate::scan::strings_v;
use crate::text::push_str;

verus! {

/// The devices tried, in order, to find out whether devices can be opened.
pub open spec fn spec_probe_devices() -> Seq<Seq<char>> {
    seq![
        "/dev/sda"@,
        "/dev/sdb"@,
        "/dev/nvme0n1"@,
        "/dev/nvme0n2"@,
        "/dev/hda"@,
        "/dev/mmcblk0"@,
        "/dev/vda"@,
        "/dev/xvda"@,
    ]
}

fn text(s: &str) -> (r: String)
    ensures
        r@ == s@,
{
    let mut t = String::new();
    push_str(&mut t, s);
    t
}

/// The devices tried, in order, to find out whether devices can be opened.
pub fn probe_devices() -> (r: Vec<String>)
    ensures
        strings_v(r@) == spec_probe_devices(),
{
    let v = vec![
        text("/dev/sda"),
        text("/dev/sdb"),
        text("/dev/nvme0n1"),
        text("/dev/nvme0n2"),
        text("/dev/hda"),
        text("/dev/mmcblk0"),
        text("/dev/vda"),
        text("/dev/xvda"),
    ];
    assert(strings_v(v@) =~= spec_probe_devices());
    v
}

/// What opening a device for reading gave.
#[derive(Debug, Clone, Copy, PartialEq, Eq, Structural)]
pub enum ProbeOutcome {
    /// The device opened.
    Opened,
    /// Opening it was refused for want of permission.
    Denied,
    /// It failed otherwise (for instance, it does not exist).
    Failed,
}

/// Whether devices can be read, from the outcomes of the first `k` probes:
/// the first probe that opened or was refused decides; when none did, they
/// cannot.
pub open spec fn spec_device_access(outcomes: Seq<ProbeOutcome>) -> bool
    decreases outcomes.len(),
{
    if outcomes.len() == 0 {
        false
    } else if outcomes[0] == ProbeOutcome::Opened {
        true
    } else if outcomes[0] == ProbeOutcome::Denied {
        false
    } else {
        spec_device_access(outcomes.drop_first())
    }
}

/// Whether devices can be read, given the outcomes of the probes in order.
pub fn device_access(outcomes: &[ProbeOutcome]) -> (r: bool)
    ensures
        r == spec_device_access(outcomes@),
{
    let mut i: usize = 0;
    assert(outcomes@.subrange(0, outcomes@.len() as int) =~= outcomes@);
    while i < outcomes.len()
        invariant
            i <= outcomes@.len(),
            spec_device_access(outcomes@) == spec_device_access(outcomes@.subrange(i as int, outcomes@.len() as int)),
        decreases outcomes@.len() - i,
    {
        let ghost rest = outcomes@.subrange(i as int, outcomes@.len() as int);
        assert(rest[0] == outcomes@[i as int]);
        match outcomes[i] {
            ProbeOutcome::Opened => return true,
            ProbeOutcome::Denied => return false,
            ProbeOutcome::Failed => {},
        }
        assert(rest.drop_first() =~= outcomes@.subrange(i + 1, outcomes@.len() as int));
        i += 1;
    }
    false
}

/// The arguments of `pkexec` that restart `exe` with `args` as root, passing
/// on the display variables that are set.
pub open spec fn spec_pkexec_arguments(
    exe: Seq<char>,
    args: Seq<Seq<char>>,
    display: Option<Seq<char>>,
    wayland_display: Option<Seq<char>>,
    xauthority: Option<Seq<char>>,
) -> Seq<Seq<char>> {
    seq!["env"@] + match display {
        Some(d) => seq!["DISPLAY="@ + d],
        None => Seq::empty(),
    } + match wayland_display {
        Some(w) => seq!["WAYLAND_DISPLAY="@ + w],
        None => Seq::empty(),
    } + match xauthority {
        Some(x) => seq!["XAUTHORITY="@ + x],
        None => Seq::empty(),
    } + seq![exe] + args
}

/// The text held, if any.
pub open spec fn opt_view(o: Option<String>) -> Option<Seq<char>> {
    match o {
        Some(s) => Some(s@),
        None => None,
    }
}

fn push_var(v: &mut Vec<String>, name: &str, value: &Option<String>)
    ensures
        strings_v(final(v)@) == strings_v(old(v)@) + match opt_view(
            *value,
        ) {
            Some(x) => seq![name@ + x],
            None => Seq::<Seq<char>>::empty(),
        },
{
    let ghost before = strings_v(v@);
    match value {
        Some(x) => {
            let mut t = String::new();
            push_str(&mut t, name);
            push_str(&mut t, x.as_str());
            v.push(t);
        },
        None => {},
    }
    assert(strings_v(v@) =~= before + match opt_view(*value) {
        Some(x) => seq![name@ + x],
        None => Seq::<Seq<char>>::empty(),
    });
}

/// The arguments of `pkexec` that restart `exe` with `args` as root, passing
/// on the display variables that are set (`DISPLAY`, `WAYLAND_DISPLAY`,
/// `XAUTHORITY`, in that order).
pub fn pkexec_arguments(
    exe: &str,
    args: &Vec<String>,
    display: Option<String>,
    wayland_display: Option<String>,
    xauthority: Option<String>,
) -> (r: Vec<String>)
    ensures
        strings_v(r@) == spec_pkexec_arguments(
            exe@,
            strings_v(args@),
            opt_view(display),
            opt_view(wayland_display),
            opt_view(xauthority),
        ),
{
    let mut v: Vec<String> = Vec::new();
    v.push(text("env"));
    assert(strings_v(v@) =~= seq!["env"@]);
    push_var(&mut v, "DISPLAY=", &display);
    push_var(&mut v, "WAYLAND_DISPLAY=", &wayland_display);
    push_var(&mut v, "XAUTHORITY=", &xauthority);
    v.push(text(exe));
    let ghost base = strings_v(v@);
    let ghost av = strings_v(args@);
    let mut i: usize = 0;
    while i < args.len()
        invariant
            i <= args@.len(),
            av == strings_v(args@),
            strings_v(v@) == base + av.subrange(0, i as int),
        decreases args@.len() - i,
    {
        let ghost before = strings_v(v@);
        let t = text(args[i].as_str());
        v.push(t);
        assert(strings_v(v@) =~= before.push(args@[i as int]@));
        assert(av[i as int] == args@[i as int]@);
        i += 1;
        assert(strings_v(v@) =~= base + av.subrange(0, i as int));
    }
    assert(av.subrange(0, i as int) =~= av);
    v
}

/// The message shown when no way to become root was found.
pub fn no_elevation_message() -> (r: &'static str)
    ensures
        r@ == "Kaifuku needs root privileges to access storage devices, but no privilege elevation tool (lxqt-sudo or pkexec) was found.\n\nPlease run the application as root, or install lxqt-sudo or pkexec and try again."@,
{
    "Kaifuku needs root privileges to access storage devices, but no privilege elevation tool (lxqt-sudo or pkexec) was found.\n\nPlease run the application as root, or install lxqt-sudo or pkexec and try again."
}

} // verus!
