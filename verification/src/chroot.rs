//! Running commands inside another root directory.
use vstd::prelude::*;

use crate::cli;
use crate::error;
use crate::error::LkpmError;
use crate::path;
use crate::text;

verus! {

// ---------------------------------------------------------------------------
// Mounts

/// A filesystem to mount.
pub struct MountRequest {
    pub source: String,
    pub target: String,
    pub fstype: String,
    pub options: String,
}

/// A filesystem to mount, with its texts taken as sequences of characters.
pub struct MountView {
    pub source: Seq<char>,
    pub target: Seq<char>,
    pub fstype: Seq<char>,
    pub options: Seq<char>,
}

impl View for MountRequest {
    type V = MountView;

    open spec fn view(&self) -> MountView {
        MountView {
            source: self.source@,
            target: self.target@,
            fstype: self.fstype@,
            options: self.options@,
        }
    }
}

/// The filesystems of a list.
pub open spec fn mounts_of(v: Seq<MountRequest>) -> Seq<MountView> {
    v.map_values(|m: MountRequest| m@)
}

/// A filesystem to mount below a root.
pub open spec fn mount_view(
    root: Seq<char>,
    source: Seq<char>,
    below: Seq<char>,
    fstype: Seq<char>,
    options: Seq<char>,
) -> MountView {
    MountView { source, target: path::joined(root, below), fstype, options }
}

/// The filesystems that a command inside another root cannot do without.
pub open spec fn required_mounts(root: Seq<char>) -> Seq<MountView> {
    seq![
        mount_view(root, "proc"@, "proc"@, "proc"@, "nosuid,noexec,nodev"@),
        mount_view(root, "sysfs"@, "sys"@, "sysfs"@, "nosuid,noexec,nodev"@),
        mount_view(root, "devtmpfs"@, "dev"@, "devtmpfs"@, "mode=0755,nosuid"@),
        mount_view(root, "devpts"@, "dev/pts"@, "devpts"@, "mode=0620,gid=5,nosuid,noexec"@),
        mount_view(root, "shm"@, "dev/shm"@, "tmpfs"@, "mode=1777,nosuid,nodev"@),
    ]
}

fn mount_request(root: &str, source: &str, below: &str, fstype: &str, options: &str) -> (r:
    MountRequest)
    ensures
        r@ == mount_view(root@, source@, below@, fstype@, options@),
{
    MountRequest {
        source: source.to_owned(),
        target: path::join(root, below),
        fstype: fstype.to_owned(),
        options: options.to_owned(),
    }
}

/// The filesystems that a command inside another root cannot do without.
pub fn pseudo_filesystems(root: &str) -> (r: Vec<MountRequest>)
    ensures
        mounts_of(r@) == required_mounts(root@),
{
    let r = vec![
        mount_request(root, "proc", "proc", "proc", "nosuid,noexec,nodev"),
        mount_request(root, "sysfs", "sys", "sysfs", "nosuid,noexec,nodev"),
        mount_request(root, "devtmpfs", "dev", "devtmpfs", "mode=0755,nosuid"),
        mount_request(root, "devpts", "dev/pts", "devpts", "mode=0620,gid=5,nosuid,noexec"),
        mount_request(root, "shm", "dev/shm", "tmpfs", "mode=1777,nosuid,nodev"),
    ];
    assert(mounts_of(r@) =~= required_mounts(root@));
    r
}

/// The arguments of `mount` for a filesystem.
pub open spec fn mount_args(m: MountView) -> Seq<Seq<char>> {
    seq!["-t"@, m.fstype, "-o"@, m.options, m.source, m.target]
}

/// The arguments of `mount` that show one directory at another place.
pub open spec fn bind_args(source: Seq<char>, target: Seq<char>) -> Seq<Seq<char>> {
    seq!["--bind"@, source, target]
}

impl MountRequest {
    /// The arguments of `mount`.
    pub fn args(&self) -> (r: Vec<String>)
        ensures
            text::texts(r@) == mount_args(self@),
    {
        let r = vec![
            "-t".to_owned(),
            text::copy(&self.fstype),
            "-o".to_owned(),
            text::copy(&self.options),
            text::copy(&self.source),
            text::copy(&self.target),
        ];
        assert(text::texts(r@) =~= mount_args(self@));
        r
    }
}

/// The arguments of `mount` that show one directory at another place.
pub fn bind_mount_args(source: &str, target: &str) -> (r: Vec<String>)
    ensures
        text::texts(r@) == bind_args(source@, target@),
{
    let r = vec!["--bind".to_owned(), source.to_owned(), target.to_owned()];
    assert(text::texts(r@) =~= bind_args(source@, target@));
    r
}

/// What is mounted, in the order in which it was.
pub struct MountGuard {
    pub mounts: Vec<String>,
}

impl View for MountGuard {
    type V = Seq<Seq<char>>;

    open spec fn view(&self) -> Seq<Seq<char>> {
        text::texts(self.mounts@)
    }
}

impl MountGuard {
    /// Nothing is mounted.
    pub fn new() -> (r: MountGuard)
        ensures
            r@ == Seq::<Seq<char>>::empty(),
    {
        let r = MountGuard { mounts: Vec::new() };
        assert(r@ =~= Seq::<Seq<char>>::empty());
        r
    }

    /// Takes down what came of mounting at a place. What failed is not kept.
    pub fn mount(&mut self, target: &str, succeeded: bool) -> (r: bool)
        ensures
            r == succeeded,
            final(self)@ == (if succeeded {
                old(self)@.push(target@)
            } else {
                old(self)@
            }),
    {
        if succeeded {
            let ghost before = self@;
            self.mounts.push(target.to_owned());
            assert(self@ =~= before.push(target@));
        }
        succeeded
    }

    /// What to unmount, in order: what was mounted last comes first.
    pub fn unmount_order(&self) -> (r: Vec<String>)
        ensures
            text::texts(r@) == self@.reverse(),
    {
        let mut out: Vec<String> = Vec::new();
        let n: usize = self.mounts.len();
        let mut i: usize = 0;
        while i < n
            invariant
                n == self.mounts@.len(),
                i <= n,
                text::texts(out@) == self@.reverse().take(i as int),
            decreases n - i,
        {
            let ghost before = out@;
            out.push(text::copy(&self.mounts[n - 1 - i]));
            assert(text::texts(out@) =~= text::texts(before).push(self@.reverse()[i as int]));
            i = i + 1;
            assert(text::texts(out@) =~= self@.reverse().take(i as int));
        }
        assert(self@.reverse().take(n as int) =~= self@.reverse());
        out
    }
}

// ---------------------------------------------------------------------------
// Candidates

/// The first candidate from the `i`th on that is present.
pub open spec fn first_present(
    candidates: Seq<Seq<char>>,
    present: Seq<bool>,
    i: int,
) -> Option<Seq<char>>
    decreases candidates.len() - i,
{
    if i < 0 || i >= candidates.len() || i >= present.len() {
        None
    } else if present[i] {
        Some(candidates[i])
    } else {
        first_present(candidates, present, i + 1)
    }
}

/// The first candidate that is present.
pub fn pick_present(candidates: &Vec<String>, present: &Vec<bool>) -> (r: Option<String>)
    ensures
        match r {
            Some(s) => first_present(text::texts(candidates@), present@, 0) == Some(s@),
            None => first_present(text::texts(candidates@), present@, 0) is None,
        },
{
    let ghost all = text::texts(candidates@);
    let mut i: usize = 0;
    while i < candidates.len() && i < present.len()
        invariant
            i <= candidates@.len(),
            all == text::texts(candidates@),
            first_present(all, present@, 0) == first_present(all, present@, i as int),
        decreases candidates@.len() - i,
    {
        assert(all[i as int] == candidates@[i as int]@);
        if present[i] {
            return Some(text::copy(&candidates[i]));
        }
        i = i + 1;
    }
    None
}

/// Candidates below a root.
pub open spec fn below(root: Seq<char>, candidates: Seq<Seq<char>>) -> Seq<Seq<char>> {
    candidates.map_values(|c: Seq<char>| path::joined(root, text::without_leading(c, '/')))
}

/// Candidates below a root.
pub fn place_below(root: &str, candidates: &Vec<String>) -> (r: Vec<String>)
    ensures
        text::texts(r@) == below(root@, text::texts(candidates@)),
{
    let ghost want = below(root@, text::texts(candidates@));
    let mut out: Vec<String> = Vec::new();
    let mut i: usize = 0;
    while i < candidates.len()
        invariant
            i <= candidates@.len(),
            want == below(root@, text::texts(candidates@)),
            text::texts(out@) == want.take(i as int),
        decreases candidates@.len() - i,
    {
        let ghost before = out@;
        out.push(path::join(root, &text::trim_leading(&candidates[i], '/')));
        assert(text::texts(out@) =~= text::texts(before).push(want[i as int]));
        i = i + 1;
        assert(text::texts(out@) =~= want.take(i as int));
    }
    assert(want.take(candidates@.len() as int) =~= want);
    out
}

/// The shells to look for, the most comfortable first.
pub open spec fn interactive_shells() -> Seq<Seq<char>> {
    seq![
        "/usr/bin/zsh"@,
        "/bin/zsh"@,
        "/usr/bin/bash"@,
        "/bin/bash"@,
        "/usr/bin/sh"@,
        "/bin/sh"@,
    ]
}

/// The shells to look for, the most comfortable first.
pub fn shell_candidates() -> (r: Vec<String>)
    ensures
        text::texts(r@) == interactive_shells(),
{
    let r = vec![
        "/usr/bin/zsh".to_owned(),
        "/bin/zsh".to_owned(),
        "/usr/bin/bash".to_owned(),
        "/bin/bash".to_owned(),
        "/usr/bin/sh".to_owned(),
        "/bin/sh".to_owned(),
    ];
    assert(text::texts(r@) =~= interactive_shells());
    r
}

/// The shell to start, given which of the candidates are present.
pub fn find_interactive_shell(present: &Vec<bool>) -> (r: String)
    ensures
        r@ == (match first_present(interactive_shells(), present@, 0) {
            Some(s) => s,
            None => "/bin/sh"@,
        }),
{
    match pick_present(&shell_candidates(), present) {
        Some(s) => s,
        None => "/bin/sh".to_owned(),
    }
}

/// What has to be done so that the root has a shell.
pub enum ShellFix {
    /// It has one.
    Nothing,
    /// Make `sh` a link to the busybox at this place.
    LinkBusybox(String),
    /// Copy busybox from the first place to the second, and make `sh` a link to it.
    CopyBusybox(String, String),
    /// There is no shell to be had.
    Fail(LkpmError),
}

/// What has to be done so that the root has a shell, given which shells it
/// has, which busybox it has, and which busybox the host has.
pub fn ensure_posix_shell(
    root: &str,
    shells: &Vec<bool>,
    busybox: &Vec<bool>,
    host_busybox: &Vec<bool>,
) -> (r: ShellFix)
    ensures
        ({
            let any_shell = exists|i: int| 0 <= i < shells@.len() && #[trigger] shells@[i];
            let own = first_present(busybox_places(root@), busybox@, 0);
            let host = first_present(host_busybox_places(), host_busybox@, 0);
            if any_shell {
                r is Nothing
            } else {
                match (own, host) {
                    (Some(p), _) => r matches ShellFix::LinkBusybox(q) && q@ == p,
                    (None, Some(h)) => r matches ShellFix::CopyBusybox(from, to) && from@ == h
                        && to@ == path::joined(path::joined(root@, "usr/bin"@), "busybox"@),
                    (None, None) => r matches ShellFix::Fail(e) && e@ == error::ErrorView::Other(
                        "Target has no shell and busybox, the host has no busybox to fall back to! Install a base system or busybox into the target first!"@,
                    ),
                }
            }
        }),
{
    let mut i: usize = 0;
    while i < shells.len()
        invariant
            i <= shells@.len(),
            forall|k: int| 0 <= k < i ==> !#[trigger] shells@[k],
        decreases shells@.len() - i,
    {
        if shells[i] {
            return ShellFix::Nothing;
        }
        i = i + 1;
    }
    match pick_present(&own_busybox(root), busybox) {
        Some(p) => ShellFix::LinkBusybox(p),
        None => match pick_present(&their_busybox(), host_busybox) {
            Some(h) => ShellFix::CopyBusybox(
                h,
                path::join(&path::join(root, "usr/bin"), "busybox"),
            ),
            None => ShellFix::Fail(
                error::other(
                    "Target has no shell and busybox, the host has no busybox to fall back to! Install a base system or busybox into the target first!",
                ),
            ),
        },
    }
}

/// The places below a root that a shell can be at.
pub open spec fn shell_places(root: Seq<char>) -> Seq<Seq<char>> {
    below(
        root,
        seq![
            "usr/bin/bash"@,
            "bin/bash"@,
            "usr/bin/zsh"@,
            "bin/zsh"@,
            "usr/bin/sh"@,
            "bin/sh"@,
        ],
    )
}

/// The places below a root that a shell can be at.
pub fn real_shells(root: &str) -> (r: Vec<String>)
    ensures
        text::texts(r@) == shell_places(root@),
{
    let v = vec![
        "usr/bin/bash".to_owned(),
        "bin/bash".to_owned(),
        "usr/bin/zsh".to_owned(),
        "bin/zsh".to_owned(),
        "usr/bin/sh".to_owned(),
        "bin/sh".to_owned(),
    ];
    assert(text::texts(v@) =~= seq![
        "usr/bin/bash"@,
        "bin/bash"@,
        "usr/bin/zsh"@,
        "bin/zsh"@,
        "usr/bin/sh"@,
        "bin/sh"@,
    ]);
    place_below(root, &v)
}

/// The places below a root that busybox can be at.
pub open spec fn busybox_places(root: Seq<char>) -> Seq<Seq<char>> {
    below(root, seq!["usr/bin/busybox"@, "bin/busybox"@])
}

/// The places below a root that busybox can be at.
pub fn own_busybox(root: &str) -> (r: Vec<String>)
    ensures
        text::texts(r@) == busybox_places(root@),
{
    let v = vec!["usr/bin/busybox".to_owned(), "bin/busybox".to_owned()];
    assert(text::texts(v@) =~= seq!["usr/bin/busybox"@, "bin/busybox"@]);
    place_below(root, &v)
}

/// The places of the host that busybox can be at.
pub open spec fn host_busybox_places() -> Seq<Seq<char>> {
    seq!["/usr/bin/busybox"@, "/bin/busybox"@]
}

/// The places of the host that busybox can be at.
pub fn their_busybox() -> (r: Vec<String>)
    ensures
        text::texts(r@) == host_busybox_places(),
{
    let r = vec!["/usr/bin/busybox".to_owned(), "/bin/busybox".to_owned()];
    assert(text::texts(r@) =~= host_busybox_places());
    r
}

/// The links beside a busybox that are to be replaced: that of `sh`, which
/// is made anew, and that of `bash`.
pub open spec fn busybox_links(busybox: Seq<char>) -> Option<(Seq<char>, Seq<char>)> {
    match path::parent_of(busybox) {
        Some(dir) => Some((path::joined(dir, "sh"@), path::joined(dir, "bash"@))),
        None => None,
    }
}

/// The links beside a busybox that are to be replaced: that of `sh` and that of `bash`.
pub fn link_busybox_sh(busybox: &str) -> (r: Option<(String, String)>)
    ensures
        match r {
            Some(p) => busybox_links(busybox@) == Some((p.0@, p.1@)),
            None => busybox_links(busybox@) is None,
        },
{
    match path::parent(busybox) {
        Some(dir) => Some((path::join(&dir, "sh"), path::join(&dir, "bash"))),
        None => None,
    }
}

/// What has to be done so that the root has bash.
pub enum BashFix {
    /// It has it.
    Nothing,
    /// Copy bash from the first place to the second, and what it links to.
    Copy(String, String),
    /// There is no bash to be had.
    Fail(LkpmError),
}

/// The places below a root that bash can be at.
pub open spec fn bash_places(root: Seq<char>) -> Seq<Seq<char>> {
    below(root, seq!["usr/bin/bash"@, "bin/bash"@])
}

/// The places below a root that bash can be at.
pub fn own_bash(root: &str) -> (r: Vec<String>)
    ensures
        text::texts(r@) == bash_places(root@),
{
    let v = vec!["usr/bin/bash".to_owned(), "bin/bash".to_owned()];
    assert(text::texts(v@) =~= seq!["usr/bin/bash"@, "bin/bash"@]);
    place_below(root, &v)
}

/// The places of the host that bash can be at.
pub open spec fn host_bash_places() -> Seq<Seq<char>> {
    seq!["/usr/bin/bash"@, "/bin/bash"@]
}

/// The places of the host that bash can be at.
pub fn their_bash() -> (r: Vec<String>)
    ensures
        text::texts(r@) == host_bash_places(),
{
    let r = vec!["/usr/bin/bash".to_owned(), "/bin/bash".to_owned()];
    assert(text::texts(r@) =~= host_bash_places());
    r
}

/// What has to be done so that the root has bash, given which bash it has,
/// and which bash the host has.
pub fn ensure_bash(root: &str, own: &Vec<bool>, host: &Vec<bool>) -> (r: BashFix)
    ensures
        match (
            first_present(bash_places(root@), own@, 0),
            first_present(host_bash_places(), host@, 0),
        ) {
            (Some(_), _) => r is Nothing,
            (None, Some(h)) => r matches BashFix::Copy(from, to) && from@ == h && to@
                == path::joined(path::joined(root@, "usr/bin"@), "bash"@),
            (None, None) => r matches BashFix::Fail(e) && e@ == error::ErrorView::Other(
                "Target and host has no bash at all!"@,
            ),
        },
{
    if pick_present(&own_bash(root), own).is_some() {
        return BashFix::Nothing;
    }
    match pick_present(&their_bash(), host) {
        Some(h) => BashFix::Copy(h, path::join(&path::join(root, "usr/bin"), "bash")),
        None => BashFix::Fail(error::other("Target and host has no bash at all!")),
    }
}

/// Where a file of the host goes below a root.
pub open spec fn copy_place(root: Seq<char>, host_path: Seq<char>) -> Seq<char> {
    path::joined(
        root,
        match path::relative_to(host_path, "/"@) {
            Some(rel) => rel,
            None => host_path,
        },
    )
}

/// Where a file of the host goes below a root.
pub fn copy_into_target(root: &str, host_path: &str) -> (r: String)
    ensures
        r@ == copy_place(root@, host_path@),
{
    match path::strip_prefix(host_path, "/") {
        Some(rel) => path::join(root, &rel),
        None => path::join(root, host_path),
    }
}

// ---------------------------------------------------------------------------
// Shared libraries

/// What stands after the first arrow of a line, or the whole line.
pub open spec fn after_arrow(line: Seq<char>) -> Seq<char> {
    match text::find_text(line, "=>"@) {
        Some(i) => line.skip(i as int + 2),
        None => line,
    }
}

/// The file that a line of `ldd` names: the first word after the arrow, or
/// of the line, if it is an absolute path and not the kernel's own object.
pub open spec fn line_library(line: Seq<char>) -> Option<Seq<char>> {
    let t = text::trimmed(line);
    let words = text::words_of(after_arrow(t));
    if text::find_text(t, "linux-vdso.so"@) is Some || words.len() == 0 || !text::has_prefix(
        words[0],
        "/"@,
    ) {
        None
    } else {
        Some(words[0])
    }
}

/// The files that the lines of `ldd` name.
pub open spec fn libraries_in(lines: Seq<Seq<char>>) -> Seq<Seq<char>>
    decreases lines.len(),
{
    if lines.len() == 0 {
        seq![]
    } else {
        match line_library(lines.last()) {
            Some(p) => libraries_in(lines.drop_last()).push(p),
            None => libraries_in(lines.drop_last()),
        }
    }
}

fn library_of(line: &str) -> (r: Option<String>)
    ensures
        match r {
            Some(p) => line_library(line@) == Some(p@),
            None => line_library(line@) is None,
        },
{
    let t = text::trim(line);
    if text::contains(&t, "linux-vdso.so") {
        return None;
    }
    let c = text::to_chars(&t);
    let arrow = text::to_chars("=>");
    proof {
        reveal_strlit("=>");
    }
    let rest = match text::find(&c, &arrow) {
        Some(i) => {
            let n: usize = c.len();
            assert(c@.skip(i + 2) =~= c@.subrange(i + 2, c@.len() as int));
            text::range_string(&c, i + 2, n)
        },
        None => text::copy(&t),
    };
    let words = text::words(&rest);
    let ghost all = text::words_of(after_arrow(t@));
    assert(words@.len() == all.len());
    if words.len() == 0 {
        return None;
    }
    assert(all[0] == words@[0]@);
    if text::starts_with(&words[0], "/") {
        Some(text::copy(&words[0]))
    } else {
        None
    }
}

/// The files that `ldd` names for a binary.
pub fn resolve_shared_libs(output: &str) -> (r: Vec<String>)
    ensures
        text::texts(r@) == libraries_in(text::lines_of(output@)),
{
    let lines = text::lines(output);
    let ghost all = text::lines_of(output@);
    let mut out: Vec<String> = Vec::new();
    let mut i: usize = 0;
    assert(text::texts(out@) =~= libraries_in(all.take(0)));
    while i < lines.len()
        invariant
            i <= lines@.len(),
            all == text::texts(lines@),
            text::texts(out@) == libraries_in(all.take(i as int)),
        decreases lines@.len() - i,
    {
        assert(all.take(i + 1).drop_last() =~= all.take(i as int));
        assert(all[i as int] == lines@[i as int]@);
        let ghost before = out@;
        if let Some(p) = library_of(&lines[i]) {
            out.push(p);
            assert(text::texts(out@) =~= text::texts(before).push(p@));
        }
        i = i + 1;
    }
    assert(all.take(all.len() as int) =~= all);
    out
}

// ---------------------------------------------------------------------------
// The command

/// Calls `libc::WIFEXITED`: whether the low seven bits of the status are zero.
#[verifier::external_body]
fn exited(status: i32) -> (r: bool)
    ensures
        r == (status & 0x7f == 0),
{
    libc::WIFEXITED(status)
}

/// Calls `libc::WEXITSTATUS`: the second lowest byte of the status.
#[verifier::external_body]
fn exit_status(status: i32) -> (r: i32)
    ensures
        r == (status >> 8) & 0xff,
{
    libc::WEXITSTATUS(status)
}

/// Calls `libc::WIFSIGNALED`: whether the low seven bits of the status are
/// neither all zero nor all one.
#[verifier::external_body]
fn signaled(status: i32) -> (r: bool)
    ensures
        r == (status & 0x7f != 0 && status & 0x7f != 0x7f),
{
    libc::WIFSIGNALED(status)
}

/// Calls `libc::WTERMSIG`: the low seven bits of the status.
#[verifier::external_body]
fn termination_signal(status: i32) -> (r: i32)
    ensures
        r == status & 0x7f,
{
    libc::WTERMSIG(status)
}

/// The code that a finished child process stands for: that with which it
/// ended, or that of the signal that ended it.
pub open spec fn child_code(status: i32) -> int {
    if status & 0x7f == 0 {
        ((status >> 8) & 0xff) as int
    } else if status & 0x7f != 0x7f {
        128 + (status & 0x7f)
    } else {
        1
    }
}

/// The code that a finished child process stands for.
pub fn exit_code(status: i32) -> (r: i32)
    ensures
        r == child_code(status),
{
    if exited(status) {
        exit_status(status)
    } else if signaled(status) {
        assert(0 <= (status & 0x7f) <= 0x7f) by (bit_vector);
        128 + termination_signal(status)
    } else {
        1
    }
}

/// What to run inside another root.
pub enum Shell {
    /// An interactive shell.
    Auto,
    /// A command for whatever shell there is.
    Posix(String),
    /// A command for bash.
    Bash(String),
}

/// What is run inside another root once everything is mounted.
pub struct ChrootCommand {
    /// Whether bash itself is needed, and not just any shell.
    pub needs_bash: bool,
    pub shell_bin: String,
    /// The command; an interactive shell that is still to be found if there is none.
    pub command: Option<String>,
    /// Where the host's `/run` is shown, if it exists.
    pub run_dir: String,
}

/// What to run inside another root, given whether each of the filesystems
/// that it cannot do without was mounted.
pub fn run_in_chroot(target_dir: &str, shell: &Shell, mounted: &Vec<bool>) -> (r: Result<
    ChrootCommand,
    LkpmError,
>)
    ensures
        match r {
            Ok(c) => {
                &&& forall|i: int| 0 <= i < mounted@.len() ==> #[trigger] mounted@[i]
                &&& c.run_dir@ == path::joined(target_dir@, "run"@)
                &&& match *shell {
                    Shell::Auto => !c.needs_bash && c.shell_bin@ == "sh"@ && c.command is None,
                    Shell::Posix(cmd) => !c.needs_bash && c.shell_bin@ == "sh"@
                        && cli::opt_text(c.command) == Some(cmd@),
                    Shell::Bash(cmd) => c.needs_bash && c.shell_bin@ == "/usr/bin/bash"@
                        && cli::opt_text(c.command) == Some(cmd@),
                }
            },
            Err(e) => {
                &&& exists|i: int| 0 <= i < mounted@.len() && !#[trigger] mounted@[i]
                &&& e@ == error::ErrorView::Other(
                    "Failed to set up one or more required chroot mounts"@,
                )
            },
        },
{
    let mut i: usize = 0;
    while i < mounted.len()
        invariant
            i <= mounted@.len(),
            forall|k: int| 0 <= k < i ==> #[trigger] mounted@[k],
        decreases mounted@.len() - i,
    {
        if !mounted[i] {
            return Err(error::other("Failed to set up one or more required chroot mounts"));
        }
        i = i + 1;
    }
    let run_dir = path::join(target_dir, "run");
    Ok(
        match shell {
            Shell::Auto => ChrootCommand {
                needs_bash: false,
                shell_bin: "sh".to_owned(),
                command: None,
                run_dir,
            },
            Shell::Posix(cmd) => ChrootCommand {
                needs_bash: false,
                shell_bin: "sh".to_owned(),
                command: Some(text::copy(cmd)),
                run_dir,
            },
            Shell::Bash(cmd) => ChrootCommand {
                needs_bash: true,
                shell_bin: "/usr/bin/bash".to_owned(),
                command: Some(text::copy(cmd)),
                run_dir,
            },
        },
    )
}

// ---------------------------------------------------------------------------
// What is chosen and where it goes

/// The first candidate that is there is the one that is taken; if none is,
/// none is taken.
pub proof fn first_present_is_taken(candidates: Seq<Seq<char>>, present: Seq<bool>, i: int)
    requires
        candidates.len() == present.len(),
        0 <= i <= candidates.len(),
        forall|k: int| 0 <= k < i ==> !present[k],
        i < present.len() ==> present[i],
    ensures
        first_present(candidates, present, 0) == (if i < candidates.len() {
            Some(candidates[i])
        } else {
            None
        }),
{
    present_from(candidates, present, 0, i);
}

proof fn present_from(candidates: Seq<Seq<char>>, present: Seq<bool>, from: int, i: int)
    requires
        candidates.len() == present.len(),
        0 <= from <= i <= candidates.len(),
        forall|k: int| 0 <= k < i ==> !present[k],
    ensures
        first_present(candidates, present, from) == first_present(candidates, present, i),
    decreases i - from,
{
    if from < i {
        assert(!present[from]);
        present_from(candidates, present, from + 1, i);
    }
}

/// Each candidate is placed below the root, with or without a slash at its
/// start, in order.
pub proof fn candidates_lie_below_the_root(
    root: Seq<char>,
    candidates: Seq<Seq<char>>,
    k: int,
    rel: Seq<char>,
)
    requires
        0 <= k < candidates.len(),
        rel.len() > 0 && rel[0] != '/',
        candidates[k] == rel || candidates[k] == seq!['/'] + rel,
    ensures
        below(root, candidates).len() == candidates.len(),
        below(root, candidates)[k] == path::joined(root, rel),
{
    assert((seq!['/'] + rel).drop_first() =~= rel);
    assert(text::without_leading(rel, '/') == rel);
    assert(text::without_leading(seq!['/'] + rel, '/') == rel);
}

/// A mount is asked for with its kind and options, from its source, at its
/// place.
pub proof fn mounts_are_asked_for_in_full(m: MountView, source: Seq<char>, target: Seq<char>)
    ensures
        mount_args(m).len() == 6,
        mount_args(m)[0] == "-t"@ && mount_args(m)[1] == m.fstype,
        mount_args(m)[2] == "-o"@ && mount_args(m)[3] == m.options,
        mount_args(m)[4] == m.source,
        mount_args(m)[5] == m.target,
        bind_args(source, target)[0] == "--bind"@,
        bind_args(source, target)[1] == source,
        bind_args(source, target)[2] == target,
{
}

/// Every mount that is needed has its place below the root, and a directory
/// that holds another is mounted before it.
pub proof fn mounts_lie_below_the_root(root: Seq<char>)
    ensures
        ({
            let m = required_mounts(root);
            &&& m.len() == 5
            &&& m[0].target == path::joined(root, "proc"@) && m[0].fstype == "proc"@
            &&& m[1].target == path::joined(root, "sys"@) && m[1].fstype == "sysfs"@
            &&& m[2].target == path::joined(root, "dev"@) && m[2].fstype == "devtmpfs"@
            &&& m[3].target == path::joined(root, "dev/pts"@) && m[3].fstype == "devpts"@
            &&& m[4].target == path::joined(root, "dev/shm"@) && m[4].fstype == "tmpfs"@
        }),
{
}

/// The shells that a busybox stands in for lie beside it.
pub proof fn links_lie_beside_busybox(up: Seq<char>, dir: Seq<char>, name: Seq<char>)
    requires
        path::is_plain(dir),
        path::is_plain(name) && name != ".."@,
    ensures
        busybox_links(up + "/"@ + dir + "/"@ + name) == Some(
            (up + "/"@ + dir + "/"@ + "sh"@, up + "/"@ + dir + "/"@ + "bash"@),
        ),
{
    reveal_strlit("sh");
    reveal_strlit("bash");
    reveal_strlit("/");
    path::last_name_can_be_replaced(up, dir, name, name);
    let parent = up + "/"@ + dir;
    assert(parent.last() == dir[dir.len() - 1]);
    assert(dir[dir.len() - 1] != '/');
}

/// What is copied into a root goes to the same place below it.
pub proof fn copies_keep_their_place(root: Seq<char>, parts: Seq<Seq<char>>)
    requires
        parts.len() > 0,
        forall|i: int| 0 <= i < parts.len() ==> path::is_plain(#[trigger] parts[i]),
    ensures
        ({
            let rel = text::joined(parts, "/"@);
            copy_place(root, path::joined("/"@, rel)) == path::joined(root, rel)
        }),
{
    reveal_strlit("/");
    path::relative_below("/"@, parts);
}

/// A library is told by the word behind its arrow, or by the first word of a
/// line that has none.
pub proof fn libraries_are_told_by_their_paths(
    line: Seq<char>,
    name: Seq<char>,
    file: Seq<char>,
    rest: Seq<char>,
)
    requires
        file.len() > 1 && file[0] == '/',
        forall|i: int| 0 <= i < file.len() ==> !text::is_space(#[trigger] file[i]),
        text::trimmed(line) == name + "=> "@ + file.push(' ') + rest,
        text::find_text(text::trimmed(line), "=>"@) == Some(name.len()),
        text::find_text(text::trimmed(line), "linux-vdso.so"@) is None,
    ensures
        line_library(line) == Some(file),
{
    reveal_strlit("=> ");
    reveal_strlit("/");
    let t = text::trimmed(line);
    let tail = file.push(' ') + rest;
    assert(t.skip(name.len() as int + 2) =~= seq![' '] + tail);
    text::space_parts_words(file, ' ', rest);
    text::space_parts_words(file, ' ', tail);
    assert(text::words_of(after_arrow(t)) == seq![file] + text::words_of(rest));
    assert((seq![file] + text::words_of(rest))[0] == file);
    assert(file.take(1) =~= "/"@);
}

/// Every line that tells of a library gives it, in order, and the others give
/// nothing.
pub proof fn every_library_is_listed(a: Seq<Seq<char>>, b: Seq<Seq<char>>)
    ensures
        libraries_in(a + b) == libraries_in(a) + libraries_in(b),
        b.len() == 1 ==> libraries_in(b) == (match line_library(b[0]) {
            Some(p) => seq![p],
            None => seq![],
        }),
    decreases b.len(),
{
    if b.len() == 0 {
        assert(a + b =~= a);
        assert(libraries_in(a) + libraries_in(b) =~= libraries_in(a));
    } else {
        every_library_is_listed(a, b.drop_last());
        assert((a + b).drop_last() =~= a + b.drop_last());
        assert((a + b).last() == b.last());
        assert(libraries_in(a + b) =~= libraries_in(a) + libraries_in(b));
        if b.len() == 1 {
            assert(b.drop_last() =~= seq![]);
            assert(libraries_in(b.drop_last()) =~= seq![]);
            assert(libraries_in(b) =~= (match line_library(b[0]) {
                Some(p) => seq![p],
                None => seq![],
            }));
        }
    }
}

/// A child that exits hands on its code; one that is ended by a signal gives
/// its number, counted from one hundred and twenty-eight.
pub proof fn child_codes_are_handed_on(code: i32, signal: i32)
    requires
        0 <= code < 256,
        0 < signal < 127,
    ensures
        child_code((code * 256) as i32) == code,
        child_code(signal) == 128 + signal,
{
    let status = (code * 256) as i32;
    assert(status == code * 256);
    assert(status & 0x7f == 0 && (status >> 8) & 0xff == code) by (bit_vector)
        requires
            0 <= code < 256,
            status == code * 256,
    ;
    assert(signal & 0x7f == signal) by (bit_vector)
        requires
            0 < signal < 127,
    ;
}

} // verus!
