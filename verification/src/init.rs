//! Starting the system: finding and mounting what comes next.
use vstd::prelude::*;

use crate::chroot;
use crate::downloader::AttemptStep;
use crate::text;

verus! {

/// How often devices are searched for the system image.
pub const SCAN_ATTEMPTS: u32 = 15;

/// How often mounting the root filesystem is tried.
pub const MOUNT_ATTEMPTS: u32 = 10;

/// Text without a prefix, however often it stands at the beginning.
pub open spec fn without_prefix(s: Seq<char>, p: Seq<char>) -> Seq<char>
    decreases s.len(),
{
    if p.len() > 0 && text::has_prefix(s, p) {
        without_prefix(s.skip(p.len() as int), p)
    } else {
        s
    }
}

/// Text without a prefix, however often it stands at the beginning.
pub fn trim_prefix(s: &str, p: &str) -> (r: String)
    ensures
        r@ == without_prefix(s@, p@),
    decreases s@.len(),
{
    if p.is_empty() {
        return s.to_owned();
    }
    match text::strip_prefix(s, p) {
        Some(rest) => trim_prefix(&rest, p),
        None => s.to_owned(),
    }
}

/// The value of the first word, from the `i`th on, that begins with a parameter.
pub open spec fn param_from(words: Seq<Seq<char>>, param: Seq<char>, i: int) -> Seq<char>
    decreases words.len() - i,
{
    if i < 0 || i >= words.len() {
        seq![]
    } else if text::has_prefix(words[i], param) {
        without_prefix(words[i], param)
    } else {
        param_from(words, param, i + 1)
    }
}

/// The value of a parameter of the kernel's command line; empty if there is none.
pub fn get_cmdline_param(cmdline: &str, param: &str) -> (r: String)
    ensures
        r@ == param_from(text::words_of(cmdline@), param@, 0),
{
    let words = text::words(cmdline);
    let ghost all = text::words_of(cmdline@);
    let mut i: usize = 0;
    while i < words.len()
        invariant
            i <= words@.len(),
            all == text::texts(words@),
            all == text::words_of(cmdline@),
            param_from(all, param@, 0) == param_from(all, param@, i as int),
        decreases words@.len() - i,
    {
        assert(all[i as int] == words@[i as int]@);
        if text::starts_with(&words[i], param) {
            return trim_prefix(&words[i], param);
        }
        i = i + 1;
    }
    let r = String::new();
    assert(r@ =~= seq![]);
    r
}

/// Whether a device is named by what it holds, and has to be looked up.
pub open spec fn is_named(target: Seq<char>) -> bool {
    text::has_prefix(target, "UUID="@) || text::has_prefix(target, "LABEL="@) || text::has_prefix(
        target,
        "PARTUUID="@,
    )
}

/// The device of the first line, from the `i`th on, that holds a name.
pub open spec fn device_in(lines: Seq<Seq<char>>, target: Seq<char>, i: int) -> Option<Seq<char>>
    decreases lines.len() - i,
{
    if i < 0 || i >= lines.len() {
        None
    } else if text::find_text(lines[i], target) is Some {
        Some(text::trimmed(text::first_piece(lines[i], ':')))
    } else {
        device_in(lines, target, i + 1)
    }
}

/// The device that a name stands for: one that is named by what it holds is
/// looked up in what `blkid` printed; else the name is the device.
pub open spec fn device_of(target: Seq<char>, blkid: Option<Seq<char>>) -> Seq<char> {
    match blkid {
        Some(out) => if is_named(target) {
            match device_in(text::lines_of(out), target, 0) {
                Some(d) => d,
                None => target,
            }
        } else {
            target
        },
        None => target,
    }
}

/// The device that a name stands for.
pub fn resolve_device(target: &str, blkid: &Option<String>) -> (r: String)
    ensures
        r@ == device_of(target@, crate::cli::opt_text(*blkid)),
{
    if text::starts_with(target, "UUID=") || text::starts_with(target, "LABEL=")
        || text::starts_with(target, "PARTUUID=") {
        if let Some(out) = blkid {
            let lines = text::lines(out);
            let ghost all = text::lines_of(out@);
            let mut i: usize = 0;
            while i < lines.len()
                invariant
                    i <= lines@.len(),
                    all == text::texts(lines@),
                    all == text::lines_of(out@),
                    is_named(target@),
                    *blkid == Some(*out),
                    device_in(all, target@, 0) == device_in(all, target@, i as int),
                decreases lines@.len() - i,
            {
                assert(all[i as int] == lines@[i as int]@);
                if text::contains(&lines[i], target) {
                    return text::trim(&text::first_part(&lines[i], ':'));
                }
                i = i + 1;
            }
        }
    }
    target.to_owned()
}

/// Whether a device can hold the system image.
pub fn may_hold_image(device: &str) -> (r: bool)
    ensures
        r == (text::has_prefix(device@, "/dev/sd"@) || text::has_prefix(device@, "/dev/nvme"@)
            || text::has_prefix(device@, "/dev/vd"@) || text::has_prefix(device@, "/dev/sr"@)),
{
    text::starts_with(device, "/dev/sd") || text::starts_with(device, "/dev/nvme")
        || text::starts_with(device, "/dev/vd") || text::starts_with(device, "/dev/sr")
}

/// The modules of the kernel that are loaded before the root is mounted.
pub open spec fn modules() -> Seq<Seq<char>> {
    seq![
        "ahci"@,
        "ata_piix"@,
        "libata"@,
        "sd_mod"@,
        "scsi_mod"@,
        "virtio_blk"@,
        "virtio_pci"@,
        "nvme"@,
        "ext4"@,
        "btrfs"@,
        "xfs"@,
        "f2fs"@,
        "vfat"@,
        "overlay"@,
    ]
}

/// The modules of the kernel that are loaded before the root is mounted.
pub fn essential_modules() -> (r: Vec<String>)
    ensures
        text::texts(r@) == modules(),
{
    let r = vec![
        "ahci".to_owned(),
        "ata_piix".to_owned(),
        "libata".to_owned(),
        "sd_mod".to_owned(),
        "scsi_mod".to_owned(),
        "virtio_blk".to_owned(),
        "virtio_pci".to_owned(),
        "nvme".to_owned(),
        "ext4".to_owned(),
        "btrfs".to_owned(),
        "xfs".to_owned(),
        "f2fs".to_owned(),
        "vfat".to_owned(),
        "overlay".to_owned(),
    ];
    assert(text::texts(r@) =~= modules());
    r
}

/// The directories whose filesystems move into the new root.
pub open spec fn moved_dirs() -> Seq<Seq<char>> {
    seq!["dev"@, "proc"@, "sys"@, "run"@]
}

/// What moves into the new root: each old place with its new one.
pub fn virtual_mounts(sysroot: &str) -> (r: Vec<(String, String)>)
    ensures
        crate::database::pair_texts(r@) == moved_dirs().map_values(
            |d: Seq<char>| ("/"@ + d, sysroot@ + "/"@ + d),
        ),
{
    let r = vec![
        (text::join2("/", "dev"), text::join3(sysroot, "/", "dev")),
        (text::join2("/", "proc"), text::join3(sysroot, "/", "proc")),
        (text::join2("/", "sys"), text::join3(sysroot, "/", "sys")),
        (text::join2("/", "run"), text::join3(sysroot, "/", "run")),
    ];
    assert(crate::database::pair_texts(r@) =~= moved_dirs().map_values(
        |d: Seq<char>| ("/"@ + d, sysroot@ + "/"@ + d),
    ));
    r
}

/// The programs that can be the first process, the most likely first.
pub open spec fn init_programs() -> Seq<Seq<char>> {
    seq!["/sbin/init"@, "/usr/bin/rustysd"@, "/usr/lib/systemd/systemd"@]
}

/// The programs that can be the first process, the most likely first.
pub fn init_candidates() -> (r: Vec<String>)
    ensures
        text::texts(r@) == init_programs(),
{
    let r = vec![
        "/sbin/init".to_owned(),
        "/usr/bin/rustysd".to_owned(),
        "/usr/lib/systemd/systemd".to_owned(),
    ];
    assert(text::texts(r@) =~= init_programs());
    r
}

/// The first process to start, given which of the programs are present.
pub fn find_rustysd_binary(present: &Vec<bool>) -> (r: String)
    ensures
        r@ == (match chroot::first_present(init_programs(), present@, 0) {
            Some(p) => p,
            None => "/sbin/init"@,
        }),
{
    match chroot::pick_present(&init_candidates(), present) {
        Some(p) => p,
        None => "/sbin/init".to_owned(),
    }
}

// ---------------------------------------------------------------------------
// The course of the start

/// A stage of starting the system.
#[derive(PartialEq, Eq, Structural, Clone, Copy, Debug)]
pub enum BootStage {
    /// Mount what the kernel shows of itself.
    MountPseudo,
    /// Search the devices for the system image.
    ScanDevices,
    /// Mount the system image, with a layer above it that can be written.
    MountImage,
    LoadModules,
    /// Mount the root filesystem that the command line names.
    MountRoot,
    /// Move what the kernel shows of itself into the new root.
    MoveMounts,
    /// Make the new root the root, and start the first process.
    SwitchRoot,
}

/// Where a start is.
#[derive(PartialEq, Eq, Structural, Clone, Copy, Debug)]
pub enum BootStep {
    At(BootStage),
    /// Nothing to start from was found: the user gets a shell.
    Emergency,
    /// The start has failed.
    Fail,
}

/// What follows a stage, from an image or from a disk.
pub open spec fn step_after(from_image: bool, stage: BootStage, succeeded: bool) -> BootStep {
    match stage {
        BootStage::MountPseudo => if from_image {
            BootStep::At(BootStage::ScanDevices)
        } else {
            BootStep::At(BootStage::LoadModules)
        },
        BootStage::ScanDevices => if succeeded {
            BootStep::At(BootStage::MountImage)
        } else {
            BootStep::Emergency
        },
        BootStage::MountImage => if succeeded {
            BootStep::At(BootStage::MoveMounts)
        } else {
            BootStep::Fail
        },
        BootStage::LoadModules => BootStep::At(BootStage::MountRoot),
        BootStage::MountRoot => if succeeded {
            BootStep::At(BootStage::MoveMounts)
        } else {
            BootStep::Emergency
        },
        BootStage::MoveMounts => BootStep::At(BootStage::SwitchRoot),
        BootStage::SwitchRoot => BootStep::Fail,
    }
}

/// What follows a stage, from an image or from a disk, given whether it
/// succeeded. The last stage does not come back if it succeeds.
pub fn next(from_image: bool, stage: BootStage, succeeded: bool) -> (r: BootStep)
    ensures
        r == step_after(from_image, stage, succeeded),
{
    match stage {
        BootStage::MountPseudo => if from_image {
            BootStep::At(BootStage::ScanDevices)
        } else {
            BootStep::At(BootStage::LoadModules)
        },
        BootStage::ScanDevices => if succeeded {
            BootStep::At(BootStage::MountImage)
        } else {
            BootStep::Emergency
        },
        BootStage::MountImage => if succeeded {
            BootStep::At(BootStage::MoveMounts)
        } else {
            BootStep::Fail
        },
        BootStage::LoadModules => BootStep::At(BootStage::MountRoot),
        BootStage::MountRoot => if succeeded {
            BootStep::At(BootStage::MoveMounts)
        } else {
            BootStep::Emergency
        },
        BootStage::MoveMounts => BootStep::At(BootStage::SwitchRoot),
        BootStage::SwitchRoot => BootStep::Fail,
    }
}

/// Where a start is after stages that ended as given.
pub open spec fn step_at(from_image: bool, outcomes: Seq<bool>) -> BootStep
    decreases outcomes.len(),
{
    if outcomes.len() == 0 {
        BootStep::At(BootStage::MountPseudo)
    } else {
        match step_at(from_image, outcomes.drop_last()) {
            BootStep::At(stage) => step_after(from_image, stage, outcomes.last()),
            step => step,
        }
    }
}

/// The root is switched only after a new root was mounted: the image, which
/// was found before, or the disk.
pub proof fn a_root_is_mounted_first(from_image: bool, outcomes: Seq<bool>)
    requires
        step_at(from_image, outcomes) == BootStep::At(BootStage::SwitchRoot),
    ensures
        outcomes.len() == 4,
        outcomes[2],
        step_at(from_image, outcomes.take(2)) == BootStep::At(
            if from_image {
                BootStage::MountImage
            } else {
                BootStage::MountRoot
            },
        ),
        from_image ==> outcomes[1],
{
    let o3 = outcomes.drop_last();
    let o2 = o3.drop_last();
    let o1 = o2.drop_last();
    assert(outcomes.len() > 0);
    assert(step_at(from_image, o3) == BootStep::At(BootStage::MoveMounts));
    assert(o3.len() > 0);
    assert(step_at(from_image, o2) is At);
    assert(o2.len() > 0);
    assert(step_at(from_image, o1) is At);
    assert(o1.len() > 0);
    assert(step_at(from_image, o1.drop_last()) == BootStep::At(BootStage::MountPseudo));
    start_is_first(from_image, o1.drop_last());
    assert(outcomes.take(2) =~= o2);
}

proof fn start_is_first(from_image: bool, outcomes: Seq<bool>)
    requires
        step_at(from_image, outcomes) == BootStep::At(BootStage::MountPseudo),
    ensures
        outcomes.len() == 0,
{
}

/// What to do after an attempt that is made again for a while: at most as
/// often as the limit says.
pub fn attempted(attempt: u32, limit: u32, succeeded: bool) -> (r: AttemptStep)
    ensures
        r == (if succeeded {
            AttemptStep::Done
        } else if attempt < limit {
            AttemptStep::Retry
        } else {
            AttemptStep::GiveUp
        }),
{
    if succeeded {
        AttemptStep::Done
    } else if attempt < limit {
        AttemptStep::Retry
    } else {
        AttemptStep::GiveUp
    }
}

/// The first word of the command line that begins with a parameter gives its
/// value; without such a word it is empty.
pub proof fn first_parameter_counts(
    words: Seq<Seq<char>>,
    param: Seq<char>,
    i: int,
    value: Seq<char>,
)
    requires
        0 <= i <= words.len(),
        param.len() > 0,
        forall|k: int| 0 <= k < i ==> !text::has_prefix(#[trigger] words[k], param),
        i < words.len() ==> words[i] == param + value && !text::has_prefix(value, param),
    ensures
        param_from(words, param, 0) == (if i < words.len() {
            value
        } else {
            seq![]
        }),
{
    parameter_from(words, param, 0, i);
    if i < words.len() {
        text::prefix_leaves_the_rest(words[i], param, value);
        assert(without_prefix(value, param) == value);
        assert(without_prefix(words[i], param) == value);
    } else {
        assert(param_from(words, param, i) =~= seq![]);
    }
}

proof fn parameter_from(words: Seq<Seq<char>>, param: Seq<char>, from: int, i: int)
    requires
        0 <= from <= i <= words.len(),
        forall|k: int| 0 <= k < i ==> !text::has_prefix(#[trigger] words[k], param),
    ensures
        param_from(words, param, from) == param_from(words, param, i),
    decreases i - from,
{
    if from < i {
        assert(!text::has_prefix(words[from], param));
        parameter_from(words, param, from + 1, i);
    }
}

/// A device that is named by what it holds is the one on the first line that
/// tells of it; if no line does, or if it is named by its path, it stays.
pub proof fn first_line_names_the_device(
    target: Seq<char>,
    out: Seq<char>,
    i: int,
)
    requires
        ({
            let lines = text::lines_of(out);
            &&& 0 <= i <= lines.len()
            &&& forall|k: int|
                0 <= k < i ==> text::find_text(#[trigger] lines[k], target) is None
            &&& i < lines.len() ==> text::find_text(lines[i], target) is Some
        }),
    ensures
        ({
            let lines = text::lines_of(out);
            let named = text::has_prefix(target, "UUID="@) || text::has_prefix(target, "LABEL="@)
                || text::has_prefix(target, "PARTUUID="@);
            &&& named && i < lines.len() ==> device_of(target, Some(out)) == text::trimmed(
                text::first_piece(lines[i], ':'),
            )
            &&& named && i == lines.len() ==> device_of(target, Some(out)) == target
            &&& !named ==> device_of(target, Some(out)) == target
            &&& device_of(target, None) == target
        }),
{
    device_from(text::lines_of(out), target, 0, i);
}

proof fn device_from(lines: Seq<Seq<char>>, target: Seq<char>, from: int, i: int)
    requires
        0 <= from <= i <= lines.len(),
        forall|k: int| 0 <= k < i ==> text::find_text(#[trigger] lines[k], target) is None,
    ensures
        device_in(lines, target, from) == device_in(lines, target, i),
    decreases i - from,
{
    if from < i {
        assert(text::find_text(lines[from], target) is None);
        device_from(lines, target, from + 1, i);
    }
}

/// A start-up that meets no failure goes through its stages to the end: from
/// an image by way of the devices, otherwise by way of the modules.
pub proof fn a_start_up_goes_on(from_image: bool, outcomes: Seq<bool>)
    requires
        forall|i: int| 0 <= i < outcomes.len() ==> outcomes[i],
        outcomes.len() <= 4,
    ensures
        ({
            let step = step_at(from_image, outcomes);
            &&& outcomes.len() == 0 ==> step == BootStep::At(BootStage::MountPseudo)
            &&& outcomes.len() == 1 && from_image ==> step == BootStep::At(BootStage::ScanDevices)
            &&& outcomes.len() == 1 && !from_image ==> step == BootStep::At(BootStage::LoadModules)
            &&& outcomes.len() == 2 && from_image ==> step == BootStep::At(BootStage::MountImage)
            &&& outcomes.len() == 2 && !from_image ==> step == BootStep::At(BootStage::MountRoot)
            &&& outcomes.len() == 3 ==> step == BootStep::At(BootStage::MoveMounts)
            &&& outcomes.len() == 4 ==> step == BootStep::At(BootStage::SwitchRoot)
        }),
    decreases outcomes.len(),
{
    if outcomes.len() > 0 {
        let init = outcomes.drop_last();
        assert forall|i: int| 0 <= i < init.len() implies init[i] by {
            assert(outcomes[i]);
        }
        a_start_up_goes_on(from_image, init);
        assert(outcomes[outcomes.len() - 1]);
    }
}

/// Only a root that cannot be found or mounted calls for help; an image that
/// cannot be mounted, and a switch that returns, are failures.
pub proof fn what_a_failure_leads_to(from_image: bool)
    ensures
        step_after(from_image, BootStage::ScanDevices, false) is Emergency,
        step_after(from_image, BootStage::MountRoot, false) is Emergency,
        step_after(from_image, BootStage::MountImage, false) is Fail,
        step_after(from_image, BootStage::SwitchRoot, false) is Fail,
        step_after(from_image, BootStage::LoadModules, false) == BootStep::At(
            BootStage::MountRoot,
        ),
        step_after(from_image, BootStage::MoveMounts, false) == BootStep::At(
            BootStage::SwitchRoot,
        ),
{
}

} // verus!
