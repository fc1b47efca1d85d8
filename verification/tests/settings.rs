use lkpm::cli::{parse_args, Command};
use lkpm::config::{Config, Mirrorlist, ScriptSettings};

fn s(v: &[&str]) -> Vec<String> {
    v.iter().map(|x| x.to_string()).collect()
}

fn nothing() -> ScriptSettings {
    ScriptSettings {
        parallel_operation: None,
        install_root: None,
        cache_path: None,
        log_path: None,
        arch: None,
        blocked_packages: None,
        no_update: None,
    }
}

#[test]
fn arguments_become_commands() {
    assert!(matches!(parse_args(Vec::new()), Ok(Command::Help)));
    assert!(matches!(parse_args(s(&["--help"])), Ok(Command::Help)));
    assert!(matches!(
        parse_args(s(&["-di", "a", "b", "--root=/mnt"])),
        Ok(Command::Install { packages, install_deps: true, local: false, noconfirm: false, root: Some(r) })
            if packages == s(&["a", "b"]) && r == "/mnt"
    ));
    assert!(matches!(parse_args(s(&["-r", "--root", "/x"])), Ok(Command::Refresh { root: Some(r) }) if r == "/x"));
    assert!(matches!(parse_args(s(&["-p", "a"])), Ok(Command::Package { package, .. }) if package == "a"));
    assert!(matches!(parse_args(s(&["-u"])), Ok(Command::Update { packages, .. }) if packages.is_empty()));
}

#[test]
fn bad_arguments_are_refused() {
    for (args, message) in [
        (vec!["-i"], "-i argument requires at least one package!"),
        (vec!["-id"], "-id or -di argument requires at least one package!"),
        (vec!["-l"], "-l argument requires at least one local package file!"),
        (vec!["-dl"], "-ld or -dl argument requires at least one local package file!"),
        (vec!["-d"], "-d argument requires at least one package!"),
        (vec!["-p", "a", "b"], "-p argument requires a package!"),
        (vec!["-x"], "Unknown option -x"),
        (vec!["--root"], "--root argument requires a path!"),
        (vec!["-u", "--root="], "--root argument requires a path!"),
    ] {
        assert_eq!(parse_args(s(&args)).err().as_deref(), Some(message));
    }
}

#[test]
fn noconfirm_may_stand_anywhere() {
    for args in [["--noconfirm", "-d", "a"], ["-d", "--noconfirm", "a"], ["-d", "a", "--noconfirm"]] {
        assert!(matches!(
            parse_args(s(&args)),
            Ok(Command::Delete { packages, noconfirm: true, .. }) if packages == s(&["a"])
        ));
    }
    let refused = parse_args(s(&["--root=", "-u"])).err();
    assert_eq!(parse_args(s(&["--root=", "--noconfirm", "-u"])).err(), refused);
    assert!(matches!(
        parse_args(s(&["-u", "--root", "--noconfirm"])),
        Ok(Command::Update { noconfirm: false, root: Some(r), .. }) if r == "--noconfirm"
    ));
}

#[test]
fn mirror_lists_have_sections() {
    let m = Mirrorlist::parse("https://none\n[ Core ]\nhttps://a # note\n; all of it\n\nhttps://b\n[extra]\nhttps://c\n[other]\nhttps://d\n");
    assert_eq!(m.core, s(&["https://a", "https://b"]));
    assert_eq!(m.extra, s(&["https://c"]));
}

#[test]
fn configurations_are_loaded() {
    let (cfg, dirs) = Config::load("[core]\nhttps://a\n", "  \n", Some(nothing()));
    assert_eq!(cfg.core_repos, s(&["https://a"]));
    assert_eq!(cfg.arch, "x86_64");
    assert_eq!(cfg.parallel_operation, 5);
    assert!(dirs.is_empty());
    let mut set = nothing();
    set.log_path = Some("/l".to_string());
    set.cache_path = Some("/c".to_string());
    set.blocked_packages = Some(s(&["x"]));
    let (cfg, dirs) = Config::load("", "x = 1", Some(set));
    assert_eq!((cfg.cache_path.as_str(), cfg.log_path.as_str()), ("/c", "/l"));
    assert_eq!(cfg.blocked_packages, s(&["x"]));
    assert_eq!(dirs, s(&["/c", "/l"]));
    let (cfg, _) = Config::load("", "broken (", None);
    assert_eq!(cfg.cache_path, "/var/cache/lkpm");
}

#[test]
fn directories_of_a_configuration() {
    let mut cfg = Config::defaults();
    cfg.install_root = "/mnt".to_string();
    assert_eq!(cfg.download_dir(), "/var/cache/lkpm/download");
    assert_eq!(cfg.install_script_dir(), "/var/cache/lkpm/tmp-script");
    assert_eq!(cfg.pkg_backup_dir(), "/var/cache/lkpm/pkg-backup");
    assert_eq!(cfg.tmp_install_dir(), "/var/cache/lkpm/tmp-install");
    assert_eq!(cfg.backup_dir(), "/mnt/etc/lkpm.d/backup");
    assert_eq!(cfg.update_backup_dir(), "/mnt/etc/lkpm.d/backup/pkg-update");
    assert_eq!(cfg.delete_backup_dir(), "/mnt/etc/lkpm.d/backup/pkg-delete");
    assert_eq!(Config::lkpmsave_path("/b", "pkg", "f.conf"), "/b/pkg/f.conf.lkpmsave");
    let modes = Config::ensure_private_dir("/a/b");
    let got: Vec<(String, u32)> = modes.into_iter().map(|m| (m.path, m.mode)).collect();
    assert_eq!(got, vec![("/".to_string(), 0o755), ("/a".to_string(), 0o755), ("/a/b".to_string(), 0o700)]);
    assert_eq!(Config::ensure_dir("a").len(), 2);
}

#[test]
fn the_mirror_list_of_a_root_comes_first() {
    let mut cfg = Config::defaults();
    cfg.reload_mirrorlist_for_root(None, Some("[core]\nsys\n".to_string()), "[core]\ndef\n");
    assert_eq!(cfg.core_repos, s(&["sys"]));
    cfg.reload_mirrorlist_for_root(None, None, "[core]\ndef\n");
    assert_eq!(cfg.core_repos, s(&["def"]));
    cfg.reload_mirrorlist_for_root(Some("[extra]\nroot\n".to_string()), None, "");
    assert_eq!(cfg.core_repos, s(&["def"]));
    assert_eq!(cfg.extra_mirrors, s(&["root"]));
}

#[test]
fn a_root_may_be_given_in_two_ways() {
    for args in [["-r", "--root=/x", "--noconfirm"].to_vec(), ["-r", "--root", "/x", "--noconfirm"].to_vec()] {
        assert!(matches!(parse_args(s(&args)), Ok(Command::Refresh { root: Some(r) }) if r == "/x"));
    }
}
