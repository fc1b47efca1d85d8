use lkpm::batch::{
    clears_downloads, make_record, prepare_all, removes_file, source_label, summarize, Batch, BatchAction, BatchItem, BatchKind,
    Prepared,
};
use lkpm::config::Config;
use lkpm::database::{Database, InstalledPackage};
use lkpm::error::LkpmError;
use lkpm::extract::{
    backup_action, backup_previous_files, backup_root, extract_package, freed_backup,
    hook_failure_notice, next_extraction_step, post_hook, post_hook_failure, post_hook_reason,
    pre_hook, pre_hook_error, preserved_notice, removal_hook, restore_action, roll_back_table,
    rollback_extracted_package, CopyAction, ExtractedPackage, Extraction, ExtractionStep, FileKind,
    RollbackStep, TableChange,
};
use lkpm::pkg_utils::{parse_pkginfo, PackageMetadata};
use lkpm::staging::BackupsAwareInstall;

fn meta(name: &str, version: &str) -> PackageMetadata {
    parse_pkginfo(&format!(
        "pkgname = {}\npkgver = {}\ndepend = glibc\nprovides = {}-lib\nbackup = etc/{}.conf\n",
        name, version, name, name
    ))
    .unwrap()
}

fn installed(name: &str, version: &str) -> InstalledPackage {
    InstalledPackage {
        name: name.to_string(),
        version: version.to_string(),
        source: "https://old/x".to_string(),
        source_kind: "remote".to_string(),
        package_path: "/old/path".to_string(),
        checksum: "old".to_string(),
        files: vec!["/usr/bin/a".to_string(), "/usr/share/a".to_string()],
        requires: Vec::new(),
        optdepends: Vec::new(),
        conflicts: Vec::new(),
        provides: vec!["kept".to_string()],
        backups: Vec::new(),
        backups_hashes: Vec::new(),
        install_script: None,
    }
}

fn item(name: &str, version: &str) -> BatchItem {
    BatchItem {
        metadata: meta(name, version),
        path: format!("/cache/{}.tar", name),
        source: format!("https://r/{}.tar", name),
        checksum: "sum".to_string(),
        record: None,
    }
}

fn placed(files: &[&str]) -> BackupsAwareInstall {
    BackupsAwareInstall {
        installed_files: files.iter().map(|f| f.as_bytes().to_vec()).collect(),
        backups_hashes: vec![("etc/a.conf".to_string(), "h".to_string())],
        update_backups: vec![b"/etc/lkpm.d/backup/pkg-update/etc/a.conf".to_vec()],
    }
}

fn extracted(name: &str, version: &str, previous: Option<InstalledPackage>) -> ExtractedPackage {
    let cfg = Config::defaults();
    let backup = previous.as_ref().map(|p| backup_root(&cfg, p));
    extract_package(
        &cfg,
        &meta(name, version),
        Some("script".to_string()),
        previous,
        placed(&["/usr/bin/a", "/usr/bin/new"]),
        backup,
    )
    .unwrap()
}

#[test]
fn extracted_packages_know_what_they_left() {
    let e = extracted("a", "2-1", Some(installed("a", "1-1")));
    assert_eq!(e.backups_paths, vec!["/etc/a.conf"]);
    assert_eq!(e.installed_files, vec!["/usr/bin/a", "/usr/bin/new"]);
    assert_eq!(e.backup_dir.as_deref(), Some("/var/cache/lkpm/pkg-backup/a-1-1"));
    assert_eq!(
        preserved_notice(b"/backup/etc/a.conf"),
        "/backup/etc/a was modified locally! New package version saved to /backup/etc/a.conf."
    );
    assert_eq!(
        preserved_notice(b"/b/\xff.conf"),
        "/b/\u{fffd} was modified locally! New package version saved to /b/\u{fffd}.conf."
    );
    let mut odd = placed(&["/usr/bin/a"]);
    odd.installed_files.push(b"/usr/bin/\xff".to_vec());
    let refused = extract_package(&Config::defaults(), &meta("a", "1-1"), None, None, odd, None);
    assert!(matches!(
        refused,
        Err(LkpmError::Other(m)) if m == "lkpm-database.db serialize files error: path contains invalid UTF-8 characters"
    ));
}

#[test]
fn hooks_are_told_the_versions() {
    let m = meta("a", "2-1");
    let first = pre_hook(&m, &None);
    assert_eq!((first.function.as_str(), first.args.len()), ("pre_install", 1));
    let upgrade = pre_hook(&m, &Some(installed("a", "1-1")));
    assert_eq!(upgrade.function, "pre_upgrade");
    assert_eq!(upgrade.args, vec!["2-1", "1-1"]);
    assert_eq!(post_hook(&extracted("a", "2-1", None)).function, "post_install");
    let post = post_hook(&extracted("a", "2-1", Some(installed("a", "1-1"))));
    assert_eq!(post.function, "post_upgrade");
    assert_eq!(post.args, vec!["2-1", "1-1"]);
    let gone = removal_hook("pre_remove", &installed("a", "1-1"));
    assert_eq!((gone.function.as_str(), gone.args), ("pre_remove", vec!["1-1".to_string()]));
    let why = LkpmError::Other("boom".to_string());
    assert_eq!(hook_failure_notice("pre_remove", "a", &why), "pre_remove hook failed for a: boom");
    assert_eq!(post_hook_reason("post_install", &why), "post_install hook failed: boom");
    match pre_hook_error("pre_install", "a", &why) {
        LkpmError::Other(m) => assert_eq!(m, "pre_install hook failed for a: boom"),
        _ => panic!("other error"),
    }
}

#[test]
fn files_come_after_the_first_hook() {
    let m = meta("a", "2-1");
    let boom = || LkpmError::Io("boom".to_string());
    let mut done = Extraction { hook: None, backup: None, install: None };
    assert!(matches!(next_extraction_step(&m, &None, &done), ExtractionStep::RunHook(h) if h.function == "pre_install"));
    let mut old = installed("a", "1-1");
    old.backups_hashes = vec![("etc/a.conf".to_string(), "ab".to_string())];
    let old = Some(old);
    assert!(matches!(next_extraction_step(&m, &old, &done), ExtractionStep::RunHook(h) if h.function == "pre_upgrade"));
    done.hook = Some(Err(boom()));
    assert!(matches!(
        next_extraction_step(&m, &old, &done),
        ExtractionStep::Fail(LkpmError::Other(m)) if m == "pre_upgrade hook failed for a: boom"
    ));
    done.hook = Some(Ok(()));
    assert!(matches!(next_extraction_step(&m, &None, &done), ExtractionStep::Install(h) if h.is_empty()));
    assert!(matches!(next_extraction_step(&m, &old, &done), ExtractionStep::BackUp));
    done.backup = Some(Err(boom()));
    assert!(matches!(next_extraction_step(&m, &old, &done), ExtractionStep::Fail(LkpmError::Io(m)) if m == "boom"));
    done.backup = Some(Ok("/b".to_string()));
    assert!(matches!(next_extraction_step(&m, &old, &done), ExtractionStep::Install(h) if h[0].1 == "ab"));
    done.install = Some(Err(boom()));
    assert!(matches!(next_extraction_step(&m, &old, &done), ExtractionStep::Fail(LkpmError::Io(_))));
    done.install = Some(Ok(placed(&["/usr/bin/a"])));
    assert!(matches!(next_extraction_step(&m, &old, &done), ExtractionStep::Finish));
    done.hook = Some(Err(boom()));
    assert!(matches!(next_extraction_step(&m, &old, &done), ExtractionStep::Fail(LkpmError::Other(_))));
}

#[test]
fn copies_are_kept_after_a_failed_hook() {
    let upgraded = extracted("a", "2-1", Some(installed("a", "1-1")));
    let fresh = extracted("b", "1-1", None);
    assert_eq!(post_hook_failure(&upgraded, &Ok(())), None);
    let why = Err(LkpmError::Other("boom".to_string()));
    let failure = post_hook_failure(&upgraded, &why);
    assert_eq!(failure.as_deref(), Some("post_upgrade hook failed: boom"));
    assert_eq!(post_hook_failure(&fresh, &why).as_deref(), Some("post_install hook failed: boom"));
    assert_eq!(freed_backup(&upgraded, &failure), None);
    assert_eq!(freed_backup(&upgraded, &None).as_deref(), Some("/var/cache/lkpm/pkg-backup/a-1-1"));
    assert_eq!(freed_backup(&fresh, &None), None);
}

#[test]
fn copies_go_by_what_is_there() {
    assert_eq!(backup_action(FileKind::Link), CopyAction::Link);
    assert_eq!(backup_action(FileKind::File), CopyAction::Copy);
    assert_eq!(backup_action(FileKind::Special), CopyAction::Skip);
    assert_eq!(backup_action(FileKind::Missing), CopyAction::Skip);
    assert_eq!(restore_action(FileKind::Link), CopyAction::ReplaceByLink);
    assert_eq!(restore_action(FileKind::File), CopyAction::ReplaceByCopy);
    assert_eq!(restore_action(FileKind::Special), CopyAction::Skip);
    assert_eq!(restore_action(FileKind::Missing), CopyAction::Skip);
}

#[test]
fn downloads_go_only_if_extraction_fails() {
    assert!(clears_downloads(BatchKind::Remote, false));
    assert!(clears_downloads(BatchKind::Update, false));
    assert!(!clears_downloads(BatchKind::Remote, true));
    assert!(!clears_downloads(BatchKind::Local, false));
}

#[test]
fn copies_mirror_the_root() {
    let mut cfg = Config::defaults();
    cfg.install_root = "/mnt".to_string();
    let mut p = installed("a", "1-1");
    p.files = vec!["/mnt/usr/bin/a".to_string(), "/elsewhere/b".to_string()];
    assert_eq!(
        backup_previous_files(&cfg, "/bk", &p),
        vec![
            ("/mnt/usr/bin/a".to_string(), "/bk/usr/bin/a".to_string()),
            ("/elsewhere/b".to_string(), "/elsewhere/b".to_string()),
        ]
    );
}

#[test]
fn an_upgrade_is_rolled_back_to_the_old_files() {
    let cfg = Config::defaults();
    let steps = rollback_extracted_package(&cfg, &extracted("a", "2-1", Some(installed("a", "1-1"))));
    assert_eq!(steps.len(), 8);
    assert!(matches!(&steps[0], RollbackStep::Warn(m) if m == "Rolling back a (2-1)...."));
    assert!(matches!(&steps[1], RollbackStep::RemoveQuietly(f) if f == "/etc/lkpm.d/backup/pkg-update/etc/a.conf"));
    assert!(matches!(&steps[2], RollbackStep::Restore(c, f, _)
        if c == "/var/cache/lkpm/pkg-backup/a-1-1/usr/bin/a" && f == "/usr/bin/a"));
    assert!(matches!(&steps[3], RollbackStep::Restore(_, f, m)
        if f == "/usr/share/a" && m == "Failed to restore /usr/share/a from backup while rolling back a: "));
    assert!(matches!(&steps[4], RollbackStep::Remove(f, m)
        if f == "/usr/bin/new" && m == "Failed to remove new file /usr/bin/new while rolling back a: "));
    assert!(matches!(&steps[5], RollbackStep::RegisterPrevious(m)
        if m == "Failed to restore a to 1-1 in the package database: "));
    assert!(matches!(&steps[6], RollbackStep::RemoveBackup(d, m)
        if d == "/var/cache/lkpm/pkg-backup/a-1-1" && m == "Failed to clean up backup for a: "));
    assert!(matches!(&steps[7], RollbackStep::Warn(m) if m == "a restored to 1-1."));
}

#[test]
fn other_rollbacks_take_everything_out() {
    let cfg = Config::defaults();
    let steps = rollback_extracted_package(&cfg, &extracted("a", "2-1", None));
    assert_eq!(steps.len(), 5);
    assert!(matches!(&steps[2], RollbackStep::Remove(f, m)
        if f == "/usr/bin/a" && m == "Failed to remove /usr/bin/a while rolling back a: "));
    assert!(matches!(&steps[4], RollbackStep::RemoveRecord(n, m)
        if n == "a" && m == "Failed to remove a from the package database during rollback: "));
    let mut lost = extracted("a", "2-1", Some(installed("a", "1-1")));
    lost.backup_dir = None;
    let steps = rollback_extracted_package(&cfg, &lost);
    assert!(matches!(&steps[2], RollbackStep::RemoveQuietly(f) if f == "/usr/bin/a"));
    assert!(matches!(steps.last(), Some(RollbackStep::Warn(m))
        if m == "a was upgrading from 1-1 but no backup was found! Rollback removed its new files but it could not be restored to 1-1!"));
}

#[test]
fn the_database_is_as_it_was_after_a_rollback() {
    let mut db = Database::load(&Config::defaults(), &Vec::new());
    db.register(installed("other", "3")).unwrap();
    let fresh = extracted("a", "2-1", None);
    db.register(make_record(BatchKind::Remote, &item("a", "2-1"), &fresh)).unwrap();
    assert!(matches!(roll_back_table(&mut db, &fresh), Ok(TableChange::Delete(n)) if n == "a"));
    assert_eq!(db.packages.len(), 1);
    db.register(installed("a", "1-1")).unwrap();
    let up = extracted("a", "2-1", Some(installed("a", "1-1")));
    db.register(make_record(BatchKind::Remote, &item("a", "2-1"), &up)).unwrap();
    assert_eq!(db.get("a").unwrap().unwrap().version, "2-1");
    assert!(matches!(roll_back_table(&mut db, &up), Ok(TableChange::Write(row)) if row.version == "1-1"));
    assert_eq!(db.get("a").unwrap().unwrap().version, "1-1");
    assert_eq!(db.get("other").unwrap().unwrap().version, "3");
}

#[test]
fn records_of_installs_and_updates() {
    let e = extracted("a", "2-1", None);
    let local = make_record(BatchKind::Local, &item("a", "2-1"), &e);
    assert_eq!(local.source_kind, "local");
    assert_eq!(local.requires, vec!["glibc"]);
    assert_eq!(local.provides, vec!["a-lib"]);
    assert_eq!(local.install_script.as_deref(), Some("script"));
    let mut update = item("a", "2-1");
    update.record = Some(installed("a", "1-1"));
    let r = make_record(BatchKind::Update, &update, &e);
    assert_eq!(r.version, "2-1");
    assert_eq!(r.source, "https://old/x");
    assert_eq!(r.provides, vec!["kept"]);
    assert_eq!(r.package_path, "/cache/a.tar");
}

#[test]
fn a_batch_that_succeeds_runs_its_hooks_last() {
    let mut b = Batch::new(BatchKind::Remote, vec![item("a", "1"), item("b", "2")]);
    assert_eq!(b.action(), BatchAction::Extract(0));
    assert_eq!(b.record(&extracted("a", "1", None)).unwrap().name, "a");
    b.on_extracted(extracted("a", "1", None));
    assert_eq!(b.action(), BatchAction::Extract(1));
    b.on_hook(&None);
    assert_eq!(b.action(), BatchAction::Extract(1));
    b.on_extracted(extracted("b", "2", None));
    assert_eq!(b.action(), BatchAction::RunHook(0));
    assert!(b.record(&extracted("b", "2", None)).is_none());
    b.on_hook(&Some("post_install hook failed: x".to_string()));
    assert_eq!(b.action(), BatchAction::RunHook(1));
    b.on_hook(&None);
    assert_eq!(b.action(), BatchAction::Finish);
    assert_eq!(
        b.statuses,
        vec!["installed (warning: post_install hook failed: x)", "installed"]
    );
    assert!(b.into_result().is_ok());
}

#[test]
fn a_batch_that_fails_is_undone_in_reverse() {
    let mut b = Batch::new(BatchKind::Local, vec![item("a", "1"), item("b", "2"), item("c", "3")]);
    b.on_extracted(extracted("a", "1", None));
    b.on_extracted(extracted("b", "2", None));
    b.on_not_extracted(&LkpmError::Other("disk full".to_string()));
    assert_eq!(b.action(), BatchAction::RollBack(1));
    b.on_rolled_back();
    assert_eq!(b.action(), BatchAction::RollBack(0));
    b.on_rolled_back();
    assert_eq!(b.action(), BatchAction::Fail);
    assert!(b.statuses.is_empty());
    match b.into_result() {
        Err(LkpmError::Other(m)) => assert_eq!(m, "Failed to extract c (3): disk full. Aborting the whole installation! No post_install hooks were run for any package in this batch."),
        _ => panic!("no error"),
    }
}

#[test]
fn other_ends_of_a_batch() {
    assert_eq!(Batch::new(BatchKind::Local, Vec::new()).action(), BatchAction::Finish);
    let mut up = item("a", "2");
    up.record = Some(installed("a", "1"));
    let mut b = Batch::new(BatchKind::Update, vec![up]);
    b.on_not_extracted(&LkpmError::PermissionDenied);
    match b.into_result() {
        Err(LkpmError::Other(m)) => assert_eq!(m, "Failed to extract a (2): Root permission required. Use 'sudo' for this operation!. Aborting the whole update! No post_upgrade hooks were run for any package in this batch."),
        _ => panic!("no error"),
    }
    let mut b = Batch::new(BatchKind::Remote, vec![item("a", "1")]);
    b.on_not_registered(LkpmError::Io("locked".to_string()));
    assert!(matches!(b.into_result(), Err(LkpmError::Io(m)) if m == "locked"));
    let mut b = Batch::new(BatchKind::Update, vec![item("a", "1")]);
    b.on_extracted(extracted("a", "1", None));
    b.on_hook(&None);
    assert_eq!(b.statuses, vec!["updated"]);
}

#[test]
fn summaries_of_a_batch() {
    let cfg = Config::defaults();
    let i = item("a", "1");
    assert_eq!(source_label(&cfg, BatchKind::Local, &i), "/cache/a.tar");
    assert_eq!(source_label(&cfg, BatchKind::Remote, &i), "r");
    let e = summarize(BatchKind::Remote, &i, "r", 10, 2, "installed");
    assert_eq!((e.name.as_str(), e.version.as_str(), e.size, e.duration), ("a", "1", 10, 2));
    assert!(removes_file(BatchKind::Remote, &i));
    assert!(!removes_file(BatchKind::Local, &i));
}

#[test]
fn a_batch_is_undone_from_its_end() {
    let cfg = Config::defaults();
    let mut db = Database::load(&cfg, &vec![]);
    db.register(installed("a", "1-1")).unwrap();
    let upgrade = extracted("a", "2-1", Some(installed("a", "1-1")));
    let fresh = extracted("b", "1-1", None);
    for e in [&upgrade, &fresh] {
        let mut record = installed(&e.metadata.name, &e.metadata.version);
        record.files = e.installed_files.clone();
        db.register(record).unwrap();
    }
    assert_eq!(db.get("a").unwrap().unwrap().version, "2-1");
    for e in [&fresh, &upgrade] {
        roll_back_table(&mut db, e).unwrap();
    }
    assert_eq!(db.get("a").unwrap().unwrap().version, "1-1");
    assert!(db.get("b").unwrap().is_none());
}

#[test]
fn the_first_failure_ends_the_preparation() {
    let ready = |name: &str| Some(Prepared::Ready(item(name, "1-1")));
    let skipped = Some(Prepared::Skipped("left out".to_string()));
    let all = prepare_all(vec![ready("a"), None, skipped, ready("b")]);
    assert_eq!(all.items.len(), 2);
    assert_eq!(all.items[1].metadata.name, "b");
    assert_eq!(all.messages, vec!["left out"]);
    assert!(all.failure.is_none());
    let failed = |m: &str| Some(Prepared::Failed(LkpmError::Other(m.to_string())));
    let some = prepare_all(vec![ready("a"), failed("one"), ready("b"), failed("two")]);
    assert_eq!(some.items.len(), 1);
    assert_eq!(some.failure.unwrap().message(), "one");
}
