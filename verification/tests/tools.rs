use lkpm::chroot::{
    bind_mount_args, copy_into_target, ensure_bash, ensure_posix_shell, exit_code,
    find_interactive_shell, link_busybox_sh, place_below, pseudo_filesystems, real_shells,
    resolve_shared_libs, run_in_chroot, shell_candidates, BashFix, MountGuard, Shell, ShellFix,
};
use lkpm::downloader::AttemptStep;
use lkpm::error::LkpmError;
use lkpm::init::{
    attempted, essential_modules, find_rustysd_binary, get_cmdline_param, init_candidates,
    may_hold_image, resolve_device, trim_prefix, virtual_mounts, BootStage, BootStep,
    MOUNT_ATTEMPTS, SCAN_ATTEMPTS,
};
use lkpm::lkinit::{
    build_dir, built_program, cache_dir, compile_init_template, find_busybox, find_kernel_version,
    generate_liska_initramfs, library_list, pack_initramfs_with_progress, template_paths, InitStep,
    TreeEntry,
};
use lkpm::lkmake::{
    array_script, build_options, check_integrity, check_source, expected_checksums,
    function_exists_script, list_functions_script, printed_checksum, printed_entries, printed_size,
    read_checksum_entry, resolve_and_install_deps, run_lkpm, run_pkg_function, run_pkg_phase,
    source_path, variable_script, BuildOptions, ChecksumEntry, SourceState,
};
use lkpm::making::{next, phase, start, BuildStage, BuildStep};
use lkpm::pkg_utils::{parse_buildinfo_sha256, parse_pkginfo};
use lkpm::recipe::{package_archive, read_pkgname, write_buildinfo, write_pkginfo, BuildFacts, Recipe};

fn s(v: &[&str]) -> Vec<String> {
    v.iter().map(|x| x.to_string()).collect()
}

#[test]
fn filesystems_are_mounted_below_the_root() {
    let all = pseudo_filesystems("/mnt");
    assert_eq!(all.len(), 5);
    assert_eq!(
        all[0].args(),
        s(&["-t", "proc", "-o", "nosuid,noexec,nodev", "proc", "/mnt/proc"])
    );
    assert_eq!(
        all[4].args(),
        s(&["-t", "tmpfs", "-o", "mode=1777,nosuid,nodev", "shm", "/mnt/dev/shm"])
    );
    assert_eq!(bind_mount_args("/run", "/mnt/run"), s(&["--bind", "/run", "/mnt/run"]));
    assert_eq!(lkpm::lkchroot::basic_filesystems("/mnt").len(), 4);
}

#[test]
fn mounts_are_undone_in_reverse() {
    let mut guard = MountGuard::new();
    assert!(guard.mount("/a", true));
    assert!(!guard.mount("/b", false));
    assert!(guard.mount("/c", true));
    assert_eq!(guard.unmount_order(), s(&["/c", "/a"]));
}

#[test]
fn shells_are_found() {
    assert_eq!(find_interactive_shell(&vec![false, false, true, true, false, false]), "/usr/bin/bash");
    assert_eq!(find_interactive_shell(&vec![false; 6]), "/bin/sh");
    assert_eq!(place_below("/mnt", &shell_candidates())[0], "/mnt/usr/bin/zsh");
    assert_eq!(real_shells("/mnt")[5], "/mnt/bin/sh");
    assert_eq!(lkpm::lkchroot::find_shell(&vec![false, true]), "/bin/zsh");
    assert_eq!(lkpm::lkchroot::find_shell(&Vec::new()), "/bin/sh");
}

#[test]
fn a_root_gets_a_shell() {
    let no = vec![false, false];
    assert!(matches!(ensure_posix_shell("/m", &vec![false, true], &no, &no), ShellFix::Nothing));
    assert!(matches!(
        ensure_posix_shell("/m", &no, &vec![false, true], &no),
        ShellFix::LinkBusybox(p) if p == "/m/bin/busybox"
    ));
    assert!(matches!(
        ensure_posix_shell("/m", &no, &no, &vec![true, true]),
        ShellFix::CopyBusybox(a, b) if a == "/usr/bin/busybox" && b == "/m/usr/bin/busybox"
    ));
    assert!(matches!(ensure_posix_shell("/m", &no, &no, &no), ShellFix::Fail(LkpmError::Other(_))));
    assert_eq!(
        link_busybox_sh("/m/bin/busybox"),
        Some(("/m/bin/sh".to_string(), "/m/bin/bash".to_string()))
    );
    assert!(matches!(ensure_bash("/m", &vec![false, true], &no), BashFix::Nothing));
    assert!(matches!(
        ensure_bash("/m", &no, &vec![false, true]),
        BashFix::Copy(a, b) if a == "/bin/bash" && b == "/m/usr/bin/bash"
    ));
    assert!(matches!(ensure_bash("/m", &no, &no), BashFix::Fail(e) if e.message() == "Target and host has no bash at all!"));
}

#[test]
fn shared_libraries_are_read() {
    let out = "\tlinux-vdso.so.1 (0x00007ffd)\n\tlibtinfo.so.6 => /usr/lib/libtinfo.so.6 (0x1)\n\tlibx.so => not found\n\t/lib64/ld-linux-x86-64.so.2 (0x2)\n";
    assert_eq!(resolve_shared_libs(out), s(&["/usr/lib/libtinfo.so.6", "/lib64/ld-linux-x86-64.so.2"]));
    assert_eq!(copy_into_target("/m", "/usr/lib/x.so"), "/m/usr/lib/x.so");
    assert_eq!(copy_into_target("/m", "x.so"), "/m/x.so");
}

#[test]
fn statuses_are_codes() {
    assert_eq!(exit_code(0), 0);
    assert_eq!(exit_code(3 << 8), 3);
    assert_eq!(exit_code(9), 137);
    assert_eq!(exit_code(0x137f), 1);
    assert_eq!(lkpm::lkchroot::end_code(Some(4)), 4);
    assert_eq!(lkpm::lkchroot::end_code(None), 1);
}

#[test]
fn commands_run_inside_a_root() {
    let all = vec![true; 5];
    let c = run_in_chroot("/m", &Shell::Bash("x".to_string()), &all).unwrap();
    assert!(c.needs_bash);
    assert_eq!((c.shell_bin.as_str(), c.command.as_deref(), c.run_dir.as_str()), ("/usr/bin/bash", Some("x"), "/m/run"));
    let c = run_in_chroot("/m", &Shell::Posix("y".to_string()), &all).unwrap();
    assert_eq!((c.needs_bash, c.shell_bin.as_str(), c.command.as_deref()), (false, "sh", Some("y")));
    assert!(run_in_chroot("/m", &Shell::Auto, &all).unwrap().command.is_none());
    assert!(matches!(
        run_in_chroot("/m", &Shell::Auto, &vec![true, false, true]),
        Err(LkpmError::Other(m)) if m == "Failed to set up one or more required chroot mounts"
    ));
}

#[test]
fn the_chroot_tool_reads_its_arguments() {
    assert!(lkpm::lkchroot::wants_help(&s(&["lkchroot"])));
    assert!(lkpm::lkchroot::wants_help(&s(&["lkchroot", "--help"])));
    assert!(!lkpm::lkchroot::wants_help(&s(&["lkchroot", "/m"])));
    assert_eq!(lkpm::lkchroot::chroot_command(&s(&["lkchroot", "/m", "ls", "-l"]), &Vec::new()), "ls -l");
    assert_eq!(lkpm::lkchroot::chroot_command(&s(&["lkchroot", "/m"]), &vec![false, false, true]), "/usr/bin/bash");
    assert_eq!(lkpm::lkchroot::help_lines()[5], "Usage: lkchroot <target-directory> [command (optional)]");
}

#[test]
fn the_image_tool_reads_its_arguments() {
    assert_eq!(
        lkpm::lkinit::parse_args(&s(&["lkinit"])),
        ("/".to_string(), "/boot/initramfs-liska.img".to_string())
    );
    assert_eq!(
        lkpm::lkinit::parse_args(&s(&["lkinit", "x", "--output", "/o", "--root", "/r", "--root"])),
        ("/r".to_string(), "/o".to_string())
    );
    assert!(lkpm::lkinit::wants_help(&s(&["lkinit", "-h"])));
    assert!(!lkpm::lkinit::wants_help(&s(&["lkinit"])));
    assert_eq!(cache_dir("/"), "/var/cache/lkinit");
    assert_eq!(
        find_kernel_version(&vec![("x".to_string(), false), ("6.1".to_string(), true), ("6.2".to_string(), true)]),
        Ok("6.1".to_string())
    );
    assert_eq!(find_kernel_version(&Vec::new()), Err("FATAL: kernel version not found!".to_string()));
}

#[test]
fn an_image_is_filled() {
    let busybox = find_busybox("/", false, true);
    assert_eq!(busybox.as_deref(), Some("/bin/busybox"));
    let entries = vec![("README".to_string(), false), ("6.1".to_string(), true)];
    let steps = generate_liska_initramfs("/", "/c", &entries, &busybox, &vec![true, false, false, false]).unwrap();
    assert!(matches!(&steps[0], InitStep::Remove(p) if p == "/c/ramdisk"));
    assert!(matches!(&steps[1], InitStep::Create(p) if p == "/c/ramdisk/dev"));
    assert!(matches!(&steps[10], InitStep::Link(a, b) if a == "usr/bin" && b == "/c/ramdisk/bin"));
    assert!(steps.iter().any(|x| matches!(x, InitStep::Run(p, a) if p == "cp" && a == &s(&["-ax", "/usr/lib/modules", "/c/ramdisk/usr/lib/"]))));
    assert!(steps.iter().any(|x| matches!(x, InitStep::Run(p, a) if p == "sh" && a == &s(&["-c", "find /c/ramdisk/usr/lib/modules/6.1 -name '*.ko.zst' -exec unzstd -q --rm -f {} \\;"]))));
    assert!(steps.iter().any(|x| matches!(x, InitStep::Run(p, a) if p == "depmod" && a == &s(&["-a", "-b", "/c/ramdisk", "6.1"]))));
    assert!(steps.iter().any(|x| matches!(x, InitStep::Copy(a, b) if a == "/bin/busybox" && b == "/c/ramdisk/usr/bin/busybox")));
    assert!(steps.iter().any(|x| matches!(x, InitStep::Link(a, b) if a == "busybox" && b == "/c/ramdisk/usr/bin/modprobe")));
    assert!(matches!(steps.last(), Some(InitStep::Run(p, a)) if p == "cp" && a == &s(&["-L", "/usr/lib/ld-linux-x86-64.so.2", "/c/ramdisk/usr/lib/"])));
    let without = generate_liska_initramfs("/", "/c", &entries, &None, &Vec::new()).unwrap();
    assert!(without.len() < steps.len());
    assert!(!without.iter().any(|x| matches!(x, InitStep::Copy(_, _))));
    assert_eq!(library_list().len(), 4);
    let kernelless = generate_liska_initramfs("/", "/c", &entries[..1].to_vec(), &busybox, &Vec::new());
    assert_eq!(kernelless.err(), Some("FATAL: kernel version not found!".to_string()));
}

#[test]
fn the_first_program_is_built() {
    assert_eq!(template_paths("/r", true).0, "/r/etc/lkinit.d/init.rs");
    assert_eq!(template_paths("/r", false).1, "/etc/lkinit.d/Cargo.toml");
    let dir = build_dir("/c");
    assert_eq!(
        compile_init_template(&dir),
        s(&["build", "--manifest-path", "/c/init/Cargo.toml", "--release", "--target", "x86_64-unknown-linux-musl"])
    );
    assert_eq!(built_program(&dir), "/c/init/target/x86_64-unknown-linux-musl/release/init");
}

#[test]
fn what_is_packed_is_measured() {
    let e = |rel: Option<&str>, is_file: bool, size: u64| TreeEntry {
        rel: rel.map(|x| x.to_string()),
        is_file,
        size,
    };
    assert_eq!(
        pack_initramfs_with_progress(&vec![e(Some("a"), true, 3), e(Some("d"), false, 100), e(None, true, 4)]),
        (s(&["a", "d"]), 7)
    );
    assert_eq!(pack_initramfs_with_progress(&Vec::new()), (Vec::new(), 1));
}

#[test]
fn the_command_line_names_the_root() {
    assert_eq!(get_cmdline_param("quiet root=UUID=ab rw root=x", "root="), "UUID=ab");
    assert_eq!(get_cmdline_param("quiet", "root="), "");
    assert_eq!(trim_prefix("aab", "a"), "b");
    assert_eq!(trim_prefix("ab", ""), "ab");
    let blkid = Some("/dev/sda1: UUID=cd TYPE=x\n /dev/sda2 : UUID=ab\n".to_string());
    assert_eq!(resolve_device("UUID=ab", &blkid), "/dev/sda2");
    assert_eq!(resolve_device("UUID=zz", &blkid), "UUID=zz");
    assert_eq!(resolve_device("/dev/sda1", &blkid), "/dev/sda1");
    assert_eq!(resolve_device("UUID=ab", &None), "UUID=ab");
    assert!(may_hold_image("/dev/nvme0n1"));
    assert!(!may_hold_image("/dev/tty"));
    assert_eq!(virtual_mounts("/new")[3], ("/run".to_string(), "/new/run".to_string()));
    assert_eq!(find_rustysd_binary(&vec![false, true]), "/usr/bin/rustysd");
    assert_eq!(find_rustysd_binary(&vec![false; 3]), "/sbin/init");
    assert_eq!(init_candidates().len(), 3);
    assert_eq!(essential_modules()[0], "ahci");
}

#[test]
fn a_root_is_mounted_before_it_is_switched_to() {
    let run = |from_image: bool, outcomes: &[bool]| {
        let mut at = BootStep::At(BootStage::MountPseudo);
        for ok in outcomes {
            if let BootStep::At(stage) = at {
                at = lkpm::init::next(from_image, stage, *ok);
            }
        }
        at
    };
    assert_eq!(run(true, &[true, true, true, true]), BootStep::At(BootStage::SwitchRoot));
    assert_eq!(run(false, &[true, true, true, true]), BootStep::At(BootStage::SwitchRoot));
    assert_eq!(run(true, &[true, false]), BootStep::Emergency);
    assert_eq!(run(true, &[true, true, false]), BootStep::Fail);
    assert_eq!(run(false, &[false, false, false, true]), BootStep::Emergency);
    assert_eq!(run(false, &[true, true, true, true, false]), BootStep::Fail);
    assert_eq!(attempted(1, SCAN_ATTEMPTS, false), AttemptStep::Retry);
    assert_eq!(attempted(15, SCAN_ATTEMPTS, false), AttemptStep::GiveUp);
    assert_eq!(attempted(10, MOUNT_ATTEMPTS, true), AttemptStep::Done);
}

#[test]
fn builds_are_asked_for() {
    assert_eq!(
        build_options(&s(&["lkmake", "--nodeps", "-i"])),
        BuildOptions { skip_deps: true, install_after: true, clean_after: false }
    );
    assert!(lkpm::lkmake::wants_help(&s(&["lkmake", "--help"])));
    assert!(!lkpm::lkmake::wants_help(&s(&["lkmake", "-c", "--help"])));
    assert_eq!(lkpm::lkmake::help_lines().len(), 10);
    assert_eq!(run_lkpm(0, &s(&["-i"])), s(&["lkpm", "-i"]));
    assert_eq!(run_lkpm(7, &s(&["-i"])), s(&["sudo", "lkpm", "-i"]));
    assert_eq!(resolve_and_install_deps(&s(&["b", "a", "b"])), s(&["b", "a"]));
}

#[test]
fn scripts_ask_the_recipe() {
    assert_eq!(
        array_script("/p", "arch"),
        "source \"/p\" >/dev/null 2>&1 && printf '%s\\n' \"${arch[@]}\""
    );
    assert_eq!(variable_script("url"), "source ./PKGBUILD >/dev/null 2>&1 && printf '%s' \"${url}\"");
    assert_eq!(
        function_exists_script("/p", "build"),
        "source \"/p\" >/dev/null 2>&1 && type -t \"build\" >/dev/null 2>&1"
    );
    assert_eq!(
        list_functions_script("/p", "build"),
        "source \"/p\" >/dev/null 2>&1 && declare -F | awk '{print $3}' | grep -E '^build_+' | sort -u"
    );
    assert_eq!(
        run_pkg_function("package_x", "/p", "/s", "/g", "/d"),
        ("PKGDEST=\"/d\" SRCDEST=\"/s\" srcdir=\"/s\" pkgdir=\"/g\"; export PKGDEST SRCDEST srcdir pkgdir; source \"/p\" >/dev/null 2>&1 && set -e && package_x".to_string(), true)
    );
    assert!(!run_pkg_function("build", "", "", "", "").1);
    assert_eq!(run_pkg_phase("build", true, &s(&["build_a"])), s(&["build", "build_a"]));
    assert_eq!(run_pkg_phase("build", false, &Vec::new()), Vec::<String>::new());
    assert_eq!(printed_entries(" a \n\n b\n"), s(&["a", "b"]));
    assert_eq!(printed_size(" 42\n"), 42);
    assert_eq!(printed_size("x"), 0);
}

#[test]
fn sources_are_held_against_checksums() {
    assert_eq!(source_path("src", "https://x/y/z.tar"), "src/z.tar");
    assert_eq!(printed_checksum("abc  file\n"), "abc");
    assert_eq!(printed_checksum(" "), "");
    assert!(matches!(read_checksum_entry(" SKIP "), ChecksumEntry::Nothing));
    assert!(matches!(read_checksum_entry("abc"), ChecksumEntry::Invalid(e) if e == "abc"));
    let (expected, invalid) = expected_checksums(&s(&["1 a", "SKIP", "2 b", "3", "4 a"]));
    assert_eq!(expected, vec![("b".to_string(), "2".to_string()), ("a".to_string(), "4".to_string())]);
    assert_eq!(invalid, s(&["3"]));
    let states = vec![SourceState::Checksum("2".to_string()), SourceState::Checksum("5".to_string())];
    assert_eq!(check_integrity(&expected, &states), s(&["Checksum mismatch for a: expected 4 got 5"]));
    assert_eq!(check_source("a", "4", &SourceState::Missing).as_deref(), Some("Expected source file a is missing"));
    assert_eq!(check_source("a", "4", &SourceState::Unreadable).as_deref(), Some("Failed to compute sha256 for a"));
    assert_eq!(check_source("a", "4", &SourceState::Checksum("4".to_string())), None);
}

#[test]
fn builds_go_through_their_stages() {
    let walk = |options: BuildOptions, failing: &[BuildStage]| {
        let mut seen = Vec::new();
        let mut at = start(&options);
        while let BuildStep::At(stage) = at {
            seen.push(stage);
            at = next(&options, stage, !failing.contains(&stage));
        }
        (seen, at)
    };
    let all = BuildOptions { skip_deps: false, install_after: true, clean_after: true };
    let (seen, end) = walk(all, &[]);
    assert_eq!(seen.len(), 12);
    assert_eq!(end, BuildStep::End);
    let (seen, end) = walk(all, &[BuildStage::CheckIntegrity]);
    assert_eq!(seen.last(), Some(&BuildStage::CheckIntegrity));
    assert_eq!(end, BuildStep::Abort);
    assert_eq!(walk(all, &[BuildStage::Package]).1, BuildStep::Abort);
    let (seen, end) = walk(all, &[BuildStage::Archive, BuildStage::Download]);
    assert!(!seen.contains(&BuildStage::Install));
    assert_eq!(seen.last(), Some(&BuildStage::Clean));
    assert_eq!(end, BuildStep::End);
    let least = BuildOptions { skip_deps: true, install_after: false, clean_after: false };
    let (seen, _) = walk(least, &[]);
    assert_eq!((seen[0], seen.len()), (BuildStage::Download, 9));
    assert_eq!(phase(BuildStage::Check).as_deref(), Some("check"));
    assert_eq!(phase(BuildStage::Extract), None);
}

fn recipe() -> Recipe {
    Recipe {
        pkgbase: String::new(),
        pkgver: "1.2".to_string(),
        pkgrel: "3".to_string(),
        pkgnames: s(&["tool"]),
        pkgdesc: " a  small\ttool ".to_string(),
        url: "https://x".to_string(),
        packager: "me".to_string(),
        builddate: "7".to_string(),
        arch: "any".to_string(),
        license: s(&["MIT"]),
        replaces: Vec::new(),
        groups: s(&["g"]),
        conflicts: s(&["old<2"]),
        provides: s(&["sh"]),
        backups: s(&["/etc/t"]),
        depends: s(&["glibc>=2", "kernel"]),
        optdepends: s(&["opt: for x"]),
        makedepends: s(&["gcc"]),
        checkdepends: s(&["check"]),
        xdata: s(&["k=v"]),
        pkgtype: Some("  ".to_string()),
        size: 12,
        fakeroot: None,
        tool_version: "1.1.0".to_string(),
    }
}

#[test]
fn package_information_is_read_back() {
    let text = write_pkginfo(&recipe());
    assert_eq!(
        text,
        "# Generated by lkmake 1.1.0\n# using lkmake\npkgname = tool\npkgbase = tool\nxdata = pkgtype=lsk\nxdata = k=v\npkgver = 1.2-3\npkgdesc = a small tool\nurl = https://x\nbuilddate = 7\npackager = me\nsize = 12\narch = any\nlicense = MIT\ngroup = g\nconflict = old<2\nprovides = sh\nbackup = /etc/t\ndepend = glibc>=2\ndepend = kernel\noptdepend = opt: for x\nmakedepend = gcc\ncheckdepend = check\n"
    );
    let m = parse_pkginfo(&text).unwrap();
    assert_eq!((m.name.as_str(), m.version.as_str(), m.arch.as_str()), ("tool", "1.2-3", "any"));
    assert_eq!(m.depends, s(&["glibc", "linux"]));
    assert_eq!(m.optdepends, s(&["opt"]));
    assert_eq!(m.provides, s(&["bash"]));
    assert_eq!(m.conflicts, s(&["old"]));
    assert_eq!(m.backups, s(&["etc/t"]));
    let mut returned = recipe();
    returned.url = "https://x\r".to_string();
    returned.arch = "any\r".to_string();
    returned.depends = s(&["glibc\r", "sh: shell\r"]);
    returned.backups = s(&["/etc/t\r"]);
    let m = parse_pkginfo(&write_pkginfo(&returned)).unwrap();
    assert_eq!(m.arch, "any");
    assert_eq!(m.depends, s(&["glibc", "bash"]));
    assert_eq!(m.backups, s(&["etc/t"]));
    let mut nameless = recipe();
    nameless.pkgnames = Vec::new();
    assert!(matches!(parse_pkginfo(&write_pkginfo(&nameless)), Err(e) if e.message() == "Package metadata missing pkgname!"));
}

#[test]
fn build_information_is_read_back() {
    let mut r = recipe();
    r.fakeroot = Some("fakeroot version 1\n".to_string());
    assert!(write_pkginfo(&r).contains("\n# using fakeroot version 1\n"));
    let facts = BuildFacts {
        pkgarch: "any".to_string(),
        checksum: "ab12".to_string(),
        packager: "me".to_string(),
        builddate: "7".to_string(),
        builddir: "/b".to_string(),
        startdir: "/s".to_string(),
        buildenv: s(&["!distcc"]),
        options: s(&["strip"]),
        installed: Some(" a-1 \n\nb-2\n".to_string()),
    };
    let text = write_buildinfo(&r, &facts);
    assert_eq!(
        text,
        "format = 2\npkgname = tool\npkgbase = tool\npkgver = 1.2-3\npkgarch = any\npkgbuild_sha256sum = ab12\npackager = me\nbuilddate = 7\nbuilddir = /b\nstartdir = /s\nbuildtool = lkmake\nbuildtoolver = 1.0.0\nbuildenv = !distcc\noptions = strip\ninstalled = a-1\ninstalled = b-2\n"
    );
    assert_eq!(parse_buildinfo_sha256(&text).as_deref(), Some("ab12"));
    assert_eq!(parse_buildinfo_sha256("pkgbuild_sha256sum =\npkgbuild_sha256sum = [x] y\n").as_deref(), Some("x"));
    assert_eq!(parse_buildinfo_sha256("pkgbuild_sha256sum\n"), None);
}

#[test]
fn packages_are_named() {
    assert_eq!(read_pkgname(&s(&["a", "b"]), &None, &None, "1", "2", "any"), "a-1-2-any");
    assert_eq!(read_pkgname(&Vec::new(), &None, &Some("base".to_string()), "1", "2", "x"), "base-1-2-x");
    assert_eq!(read_pkgname(&Vec::new(), &None, &None, "", "", ""), "package-unknown---");
    assert_eq!(package_archive(".", "a-1-2-any"), "./a-1-2-any.lsk.tar.zst");
}
