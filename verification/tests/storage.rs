use lkpm::config::Config;
use lkpm::database::{
    decode_row, default_source_kind, encode_row, Database, InstalledPackage, PackageRow,
};
use lkpm::downloader::{
    accept_status, announced_length, download_failure, download_label, download_once,
    download_packages_concurrently, download_to, taken_back, worker_count, AttemptStep,
};
use lkpm::error::LkpmError;
use lkpm::hash::file_sha256;
use lkpm::hooks::{hook_result, run_install_hook, shell_quote, HookOutcome};
use lkpm::removal::{
    cleaned_packages, cleanup_package_assets, delete_records, file_fate, is_hidden_path,
    needs_content, status_of, summarize, CleanupOutcome, CleanupStep, FileFate,
};
use lkpm::staging::{
    backup_keys, install_package, install_package_with_backups, is_backup, modified_locally, staged_place,
    staging_dir, BackupsAwareInstall, Existing, StagedFile,
};

const ABC: &str = "ba7816bf8f01cfea414140de5dae2223b00361a396177a9cb410ff61f20015ad";

fn s(v: &[&str]) -> Vec<String> {
    v.iter().map(|x| x.to_string()).collect()
}

fn raw(v: &[&str]) -> Vec<Vec<u8>> {
    v.iter().map(|x| x.as_bytes().to_vec()).collect()
}

fn installed(name: &str) -> InstalledPackage {
    InstalledPackage {
        name: name.to_string(),
        version: "1-1".to_string(),
        source: "https://host.example/x.tar".to_string(),
        source_kind: "remote".to_string(),
        package_path: "/cache/x.tar".to_string(),
        checksum: "c".to_string(),
        files: s(&["/usr/bin/x", "/etc/x \"q\".conf"]),
        requires: s(&["a"]),
        optdepends: s(&["b"]),
        conflicts: s(&["c"]),
        provides: s(&["d"]),
        backups: s(&["/etc/x.conf"]),
        backups_hashes: vec![("etc/x.conf".to_string(), ABC.to_string())],
        install_script: Some("s".to_string()),
    }
}

#[test]
fn checksums_are_sha256() {
    assert_eq!(file_sha256(b"abc"), ABC);
    assert_eq!(
        file_sha256(b""),
        "e3b0c44298fc1c149afbf4c8996fb92427ae41e4649b934ca495991b7852b855"
    );
}

#[test]
fn rows_keep_packages() {
    let row = encode_row(&installed("x")).unwrap();
    assert_eq!(row.files, "[\"/usr/bin/x\",\"/etc/x \\\"q\\\".conf\"]");
    assert_eq!(row.requires, "[\"a\"]");
    let p = decode_row(&row);
    assert_eq!(p.files, installed("x").files);
    assert_eq!(p.backups_hashes, installed("x").backups_hashes);
    assert_eq!(p.install_script.as_deref(), Some("s"));
    let broken = PackageRow { files: "not json".to_string(), ..row };
    assert!(decode_row(&broken).files.is_empty());
    assert_eq!(default_source_kind(), "unknown");
}

#[test]
fn a_read_gives_back_what_was_written() {
    let cfg = Config::defaults();
    assert_eq!(Database::file_of(&cfg), "/var/db/lkpm/lkpm-database.db");
    let mut db = Database::load(&cfg, &Vec::new());
    let row = db.register(installed("x")).unwrap();
    db.register(installed("y")).unwrap();
    let mut again = installed("x");
    again.version = "2-1".to_string();
    db.register(again).unwrap();
    assert_eq!(db.list().unwrap().len(), 2);
    assert_eq!(db.find("x").unwrap().unwrap().version, "2-1");
    assert_eq!(db.remove("x").unwrap().unwrap().version, "2-1");
    assert!(db.get("x").unwrap().is_none());
    assert!(db.remove("x").unwrap().is_none());
    assert_eq!(db.get("y").unwrap().unwrap().name, "y");
    let loaded = Database::load(&cfg, &vec![row]);
    assert_eq!(loaded.get("x").unwrap().unwrap().provides, s(&["d"]));
}

#[test]
fn quotes_are_read_back_by_a_shell() {
    assert_eq!(shell_quote("plain"), "'plain'");
    assert_eq!(shell_quote("it's"), "'it'\\''s'");
    assert_eq!(shell_quote(""), "''");
}

#[test]
fn hooks_are_run_where_the_files_are() {
    let mut cfg = Config::defaults();
    let args = s(&["2-1", "1'1"]);
    assert!(run_install_hook(&cfg, "x", &None, "post_install", &args, 7).is_none());
    let run = run_install_hook(&cfg, "x", &Some("body".to_string()), "post_upgrade", &args, 7).unwrap();
    assert_eq!(run.host_path, "/var/cache/lkpm/tmp-script/x-post_upgrade-7.sh");
    assert_eq!(run.script, "body");
    assert!(!run.in_chroot);
    assert_eq!(run.command, "source '/var/cache/lkpm/tmp-script/x-post_upgrade-7.sh' >/dev/null 2>&1 && if declare -f post_upgrade >/dev/null 2>&1; then post_upgrade '2-1' '1'\\''1'; fi");
    cfg.install_root = "/mnt".to_string();
    cfg.cache_path = "/mnt/var/cache/lkpm".to_string();
    let run = run_install_hook(&cfg, "x", &Some("body".to_string()), "pre_install", &Vec::new(), 7).unwrap();
    assert!(run.in_chroot);
    assert!(run.command.starts_with("source '/var/cache/lkpm/tmp-script/x-pre_install-7.sh' "));
    cfg.cache_path = "/var/cache/lkpm".to_string();
    let run = run_install_hook(&cfg, "x", &Some("body".to_string()), "pre_install", &Vec::new(), 7).unwrap();
    assert!(run.command.starts_with("source '/var/cache/lkpm/tmp-script/x-pre_install-7.sh' "));
}

#[test]
fn hooks_fail_with_a_reason() {
    let cfg = Config::defaults();
    let run = run_install_hook(&cfg, "x", &Some("b".to_string()), "f", &Vec::new(), 1).unwrap();
    let why = |o: HookOutcome| match hook_result(&cfg, &run, "f", &o) {
        Err(LkpmError::Other(m)) => m,
        Err(_) => panic!("other error"),
        Ok(_) => "fine".to_string(),
    };
    assert_eq!(why(HookOutcome::Code(0)), "fine");
    assert_eq!(why(HookOutcome::Code(-3)), "install script hook f exited with status code -3");
    assert_eq!(why(HookOutcome::Code(130)), "install script hook f exited with status code 130");
    assert_eq!(why(HookOutcome::ChrootFailed), "failed to run install script hook f inside chroot");
    assert_eq!(why(HookOutcome::Status(true, "exit status: 0".to_string())), "fine");
    assert_eq!(why(HookOutcome::Status(false, "exit status: 2".to_string())), "install script hook f exited with exit status: 2");
    assert_eq!(why(HookOutcome::NotStarted), "failed to run install script hook f");
    assert_eq!(why(HookOutcome::NoDirectory), "failed to create /var/cache/lkpm/tmp-script");
    assert_eq!(why(HookOutcome::NotWritten), "failed to write install script cache file /var/cache/lkpm/tmp-script/x-f-1.sh");
}

#[test]
fn files_that_the_user_changed_are_kept() {
    let old = vec![("etc/x.conf".to_string(), ABC.to_string())];
    let mut r = BackupsAwareInstall::new();
    assert_eq!(r.place_file(b"/", b"usr/bin/x"), b"/usr/bin/x");
    let changed = Existing::Content(b"mine".to_vec());
    assert_eq!(r.place_backup(b"/", b"/bk", b"etc/x.conf", b"new", &changed, &old), b"/bk/etc/x.conf");
    let same = Existing::Content(b"abc".to_vec());
    assert_eq!(r.place_backup(b"/", b"/bk", b"etc/x.conf", b"new", &same, &old), b"/etc/x.conf");
    assert_eq!(r.place_backup(b"/", b"/bk", b"etc/y.conf", b"new", &Existing::Missing, &old), b"/etc/y.conf");
    assert_eq!(r.place_backup(b"/", b"/bk", b"etc/y.conf", b"new", &Existing::Unreadable, &Vec::new()), b"/bk/etc/y.conf");
    assert_eq!(r.installed_files.len(), 5);
    assert_eq!(r.update_backups, raw(&["/bk/etc/x.conf", "/bk/etc/y.conf"]));
    assert_eq!(r.backups_hashes[0].0, "etc/x.conf");
    assert_eq!(r.backups_hashes[0].1, file_sha256(b"new"));
    assert!(!modified_locally(&Existing::Content(b"abc".to_vec()), &None, ABC));
}

#[test]
fn members_are_staged() {
    let cfg = Config::defaults();
    assert_eq!(staging_dir(&cfg, 12, 34567890123456789012), "/var/cache/lkpm/tmp-install/extract_12_34567890123456789012");
    assert_eq!(staged_place(b"./usr/bin/x").unwrap().as_deref(), Some(b"usr/bin/x".as_slice()));
    assert_eq!(staged_place(b".PKGINFO").unwrap(), None);
    assert_eq!(staged_place(b".MTREE").unwrap().as_deref(), Some(b".MTREE".as_slice()));
    assert!(staged_place(b"../x").is_err());
    let keys = backup_keys(&s(&["/etc/a", "etc\\b"]));
    assert_eq!(keys, s(&["etc/a", "etc/b"]));
    assert!(is_backup(&keys, b"etc/b"));
    assert!(!is_backup(&keys, b"etc/c"));
}

#[test]
fn deleted_packages_leave_what_was_changed() {
    let cfg = Config::defaults();
    let p = installed("x");
    assert!(is_hidden_path("/home/.x/y"));
    assert!(!is_hidden_path("/a/../b"));
    assert!(matches!(file_fate(&cfg, &p, "/root/.rc", true, &None), FileFate::Keep));
    assert!(matches!(file_fate(&cfg, &p, "/usr/bin/x", true, &None), FileFate::Remove));
    match file_fate(&cfg, &p, "/etc/x.conf", true, &Some(b"mine".to_vec())) {
        FileFate::Save(to, said) => {
            assert_eq!(to, "/etc/x.conf.lkpmsave");
            assert_eq!(said, "/etc/x.conf was modified locally! Kept saved as /etc/x.conf.lkpmsave.");
        }
        _ => panic!("not saved"),
    }
    assert!(matches!(file_fate(&cfg, &p, "/etc/x.conf", true, &Some(b"abc".to_vec())), FileFate::Remove));
    assert!(matches!(file_fate(&cfg, &p, "/etc/x.conf", true, &None), FileFate::Remove));
    assert!(needs_content(&p, "/etc/x.conf"));
    assert!(!needs_content(&p, "/usr/bin/x"));
}

#[test]
fn deletions_run_in_order() {
    let steps = cleanup_package_assets(&installed("x"));
    assert_eq!(steps.len(), 5);
    assert!(matches!(&steps[0], CleanupStep::Hook(f) if f == "pre_remove"));
    assert!(matches!(&steps[1], CleanupStep::RemovePackageFile(f) if f == "/cache/x.tar"));
    assert!(matches!(&steps[2], CleanupStep::File(f) if f == "/usr/bin/x"));
    assert!(matches!(&steps[4], CleanupStep::Hook(f) if f == "post_remove"));
}

#[test]
fn deleted_records_are_gone() {
    let cfg = Config::defaults();
    let mut db = Database::load(&cfg, &Vec::new());
    for n in ["x", "y", "z"] {
        db.register(installed(n)).unwrap();
    }
    let records = vec![installed("x"), installed("y"), installed("x")];
    let outcomes = vec![
        CleanupOutcome::Cleaned,
        CleanupOutcome::Failed(LkpmError::Io("busy".to_string())),
        CleanupOutcome::Cleaned,
    ];
    let mut results: Vec<_> = records
        .iter()
        .zip(outcomes.iter())
        .map(|(r, o)| summarize(&cfg, r, o, 1, 2))
        .collect();
    assert_eq!(results[0].source, "host.example");
    assert_eq!(results[1].status, "error: busy");
    let names = cleaned_packages(&records, &outcomes);
    assert_eq!(names, s(&["x", "x"]));
    let gone = delete_records(&mut db, &names, &mut results).unwrap();
    assert_eq!(gone, s(&["x"]));
    assert_eq!(results[0].status, "Error while deleting x: package record is missing!");
    assert_eq!(results[2].status, "deleted");
    assert!(db.get("x").unwrap().is_none());
    assert!(db.get("y").unwrap().is_some());
    assert_eq!(status_of(&CleanupOutcome::Lost), "error: cleanup result missing");
}

#[test]
fn downloads_are_tried_three_times() {
    assert_eq!(download_to(1, true), AttemptStep::Done);
    assert_eq!(download_to(1, false), AttemptStep::Retry);
    assert_eq!(download_to(2, false), AttemptStep::Retry);
    assert_eq!(download_to(3, false), AttemptStep::GiveUp);
    assert!(matches!(download_failure("u"), LkpmError::Other(m) if m == "Failed to download from u!"));
}

#[test]
fn downloads_must_be_complete() {
    assert_eq!(announced_length(&Some("123".to_string())), 123);
    assert_eq!(announced_length(&Some("x".to_string())), 0);
    assert_eq!(announced_length(&None), 0);
    assert!(download_once(0, 5, false).is_ok());
    assert!(download_once(5, 5, false).is_ok());
    assert!(matches!(download_once(5, 5, true), Err(LkpmError::Other(m)) if m == "Connection disconnected when trying to download the data!"));
    assert_eq!(taken_back(5, &download_once(5, 5, false)), 0);
    assert_eq!(taken_back(5, &download_once(9, 5, false)), 5);
    assert!(accept_status(200, "200 OK").is_ok());
    assert!(accept_status(299, "299").is_ok());
    assert!(accept_status(199, "199").is_err());
    assert!(matches!(accept_status(404, "404 Not Found"), Err(LkpmError::Other(m)) if m == "HTTP error status: 404 Not Found"));
    assert!(accept_status(300, "300 Multiple Choices").is_err());
    assert!(matches!(download_once(9, 5, false), Err(LkpmError::Other(m)) if m == "Downloaded file size not matched with the actual file size! (5/9 bytes)"));
}

#[test]
fn arrivals_are_put_in_order() {
    let one = vec![(2, Some("c".to_string())), (0, Some("a".to_string())), (1, None)];
    let two = vec![(0, Some("a".to_string())), (1, None), (2, Some("c".to_string()))];
    let want = vec![Some("a".to_string()), None, Some("c".to_string())];
    assert_eq!(download_packages_concurrently(3, &one), want);
    assert_eq!(download_packages_concurrently(3, &two), want);
    assert_eq!(download_label("https://r/foo-1.0-1-x86_64.lsk.tar.zst"), "foo");
    let mut cfg = Config::defaults();
    assert_eq!(worker_count(&cfg, 3), 3);
    assert_eq!(worker_count(&cfg, 9), 5);
    cfg.parallel_operation = 0;
    assert_eq!(worker_count(&cfg, 9), 1);
    assert_eq!(worker_count(&cfg, 0), 0);
}

#[test]
fn what_was_recorded_is_what_is_compared() {
    let mut cfg = Config::defaults();
    cfg.install_root = "/mnt/".to_string();
    let mut first = BackupsAwareInstall::new();
    let at = first.place_backup(b"/mnt/", b"/bk", b"etc/x.conf", b"one", &Existing::Missing, &Vec::new());
    assert_eq!(at, b"/mnt/etc/x.conf");
    let untouched = Existing::Content(b"one".to_vec());
    let edited = Existing::Content(b"mine".to_vec());
    let mut second = BackupsAwareInstall::new();
    assert_eq!(second.place_backup(b"/mnt/", b"/bk", b"etc/x.conf", b"two", &untouched, &first.backups_hashes), at);
    assert_eq!(second.place_backup(b"/mnt/", b"/bk", b"etc/x.conf", b"two", &edited, &first.backups_hashes), b"/bk/etc/x.conf");
    let mut p = installed("x");
    p.backups = s(&["/mnt/etc/x.conf"]);
    p.backups_hashes = first.backups_hashes;
    let at = String::from_utf8(at).unwrap();
    assert!(matches!(file_fate(&cfg, &p, &at, true, &Some(b"one".to_vec())), FileFate::Remove));
    assert!(matches!(file_fate(&cfg, &p, &at, true, &Some(b"mine".to_vec())), FileFate::Save(_, _)));
}

#[test]
fn a_package_is_put_in_place() {
    let file = |rel: &str, content: Result<Vec<u8>, String>, existing: Existing| StagedFile {
        rel: rel.as_bytes().to_vec(),
        content,
        existing,
    };
    let staged = vec![
        file("usr/bin/x", Ok(Vec::new()), Existing::Missing),
        file("etc/x.conf", Ok(b"new".to_vec()), Existing::Content(b"mine".to_vec())),
        file("etc/y.conf", Ok(b"new".to_vec()), Existing::Missing),
    ];
    let hashes = vec![("etc/x.conf".to_string(), ABC.to_string())];
    let p = install_package_with_backups(b"/r", &s(&["etc/x.conf", "/etc/y.conf"]), &hashes, b"/u", &staged).ok().unwrap();
    assert_eq!(p.places, raw(&["/r/usr/bin/x", "/u/etc/x.conf", "/r/etc/y.conf"]));
    assert_eq!(p.result.installed_files, raw(&["/r/usr/bin/x", "/r/etc/x.conf", "/r/etc/y.conf"]));
    assert_eq!(p.result.update_backups, raw(&["/u/etc/x.conf"]));
    assert_eq!(p.result.backups_hashes.len(), 2);
    assert_eq!(install_package(b"/r", &staged).unwrap(), p.result.installed_files);
    let broken = vec![
        file("usr/bin/x", Ok(Vec::new()), Existing::Missing),
        file("etc/x.conf", Err("gone".to_string()), Existing::Missing),
        file("usr/bin/y", Ok(Vec::new()), Existing::Missing),
    ];
    match install_package_with_backups(b"/r", &s(&["etc/x.conf"]), &hashes, b"/u", &broken) {
        Err(h) => {
            assert_eq!(h.reason.message(), "gone");
            assert_eq!(h.places, raw(&["/r/usr/bin/x"]));
        }
        Ok(_) => panic!("a file cannot be read"),
    }
    assert!(install_package(b"/r", &broken).is_ok());
    let mut odd = vec![file("etc/x.conf", Ok(b"new".to_vec()), Existing::Missing)];
    odd[0].rel = b"etc/\xff.conf".to_vec();
    let kept = s(&["etc/\u{fffd}.conf"]);
    let p = install_package_with_backups(b"/r", &kept, &hashes, b"/u", &odd).ok().unwrap();
    assert_eq!(p.places, vec![b"/r/etc/\xff.conf".to_vec()]);
    assert_eq!(p.result.installed_files, p.places);
    assert_eq!(p.result.backups_hashes[0].0, "etc/\u{fffd}.conf");
}
