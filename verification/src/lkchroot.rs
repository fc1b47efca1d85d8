//! Entering another root from the command line.
use vstd::prelude::*;

use crate::chroot;
use crate::chroot::MountRequest;
use crate::text;

verus! {

/// Whether the help text is asked for: it is if no directory is given. The
/// first argument is the program.
pub fn wants_help(args: &Vec<String>) -> (r: bool)
    ensures
        r == (args@.len() < 2 || args@[1]@ == "--help"@),
{
    args.len() < 2 || text::same(&args[1], "--help")
}

/// The lines of the help text.
pub open spec fn help_text() -> Seq<Seq<char>> {
    seq![
        ""@,
        "--------------------------------"@,
        "::: [ Liska Chroot (1.0.0) ] :::"@,
        "--------------------------------"@,
        ""@,
        "Usage: lkchroot <target-directory> [command (optional)]"@,
        ""@,
    ]
}

/// The lines of the help text.
pub fn help_lines() -> (r: Vec<String>)
    ensures
        text::texts(r@) == help_text(),
{
    let r = vec![
        "".to_owned(),
        "--------------------------------".to_owned(),
        "::: [ Liska Chroot (1.0.0) ] :::".to_owned(),
        "--------------------------------".to_owned(),
        "".to_owned(),
        "Usage: lkchroot <target-directory> [command (optional)]".to_owned(),
        "".to_owned(),
    ];
    assert(text::texts(r@) =~= help_text());
    r
}

/// The shells to look for, the most comfortable first.
pub open spec fn shells() -> Seq<Seq<char>> {
    seq!["/usr/bin/zsh"@, "/bin/zsh"@, "/usr/bin/bash"@, "/bin/bash"@, "/bin/sh"@]
}

/// The shells to look for, the most comfortable first.
pub fn shell_candidates() -> (r: Vec<String>)
    ensures
        text::texts(r@) == shells(),
{
    let r = vec![
        "/usr/bin/zsh".to_owned(),
        "/bin/zsh".to_owned(),
        "/usr/bin/bash".to_owned(),
        "/bin/bash".to_owned(),
        "/bin/sh".to_owned(),
    ];
    assert(text::texts(r@) =~= shells());
    r
}

/// The shell to start, given which of the candidates are present.
pub fn find_shell(present: &Vec<bool>) -> (r: String)
    ensures
        r@ == (match chroot::first_present(shells(), present@, 0) {
            Some(s) => s,
            None => "/bin/sh"@,
        }),
{
    match chroot::pick_present(&shell_candidates(), present) {
        Some(s) => s,
        None => "/bin/sh".to_owned(),
    }
}

/// The command to run: what follows the directory, or else a shell.
pub fn chroot_command(args: &Vec<String>, present: &Vec<bool>) -> (r: String)
    ensures
        r@ == (if args@.len() > 2 {
            text::joined(text::texts(args@).skip(2), " "@)
        } else {
            match chroot::first_present(shells(), present@, 0) {
                Some(s) => s,
                None => "/bin/sh"@,
            }
        }),
{
    if args.len() > 2 {
        let mut rest: Vec<String> = Vec::new();
        let mut i: usize = 2;
        while i < args.len()
            invariant
                2 <= i <= args@.len(),
                text::texts(rest@) == text::texts(args@).subrange(2, i as int),
            decreases args@.len() - i,
        {
            let ghost before = rest@;
            rest.push(text::copy(&args[i]));
            assert(text::texts(rest@) =~= text::texts(before).push(text::texts(args@)[i as int]));
            i = i + 1;
            assert(text::texts(rest@) =~= text::texts(args@).subrange(2, i as int));
        }
        assert(text::texts(args@).subrange(2, args@.len() as int) =~= text::texts(args@).skip(2));
        text::join(&rest, " ")
    } else {
        find_shell(present)
    }
}

/// The filesystems that the plain tool mounts; it goes on without those that
/// cannot be mounted.
pub fn basic_filesystems(root: &str) -> (r: Vec<MountRequest>)
    ensures
        chroot::mounts_of(r@) == chroot::required_mounts(root@).take(4),
{
    let mut r = chroot::pseudo_filesystems(root);
    let ghost all = r@;
    assert(chroot::mounts_of(all).len() == 5);
    r.truncate(4);
    assert(chroot::mounts_of(r@) =~= chroot::mounts_of(all).take(4));
    r
}

/// The code with which the tool ends: that of the command, or one if a signal
/// ended it.
pub fn end_code(code: Option<i32>) -> (r: i32)
    ensures
        r == (match code {
            Some(c) => c,
            None => 1,
        }),
{
    match code {
        Some(c) => c,
        None => 1,
    }
}

} // verus!
