use lkpm::cli::{parse_args, Command};
use lkpm::config::{Config, ScriptSettings};
use lkpm::database::{Database, InstalledPackage};
use lkpm::error::LkpmError;
use lkpm::manager::{
    apply_root_override, build_install_target, build_install_targets,
    check_repository_connections, confirm_operation, describe_package, ensure_none_blocked,
    find_dependents, find_installed_package, find_known_package, find_removals,
    find_update_candidates, find_updates, home_candidate, missing_dependencies,
    original_user_home, package_list_contains, ready_notice, refresh_notice, require_local_file,
    require_root, require_root_for_install_root, resolve_local_package_path, source_is_remote,
    target_dependencies, target_label, target_urls, update_line, validate_package_metadata,
};
use lkpm::pkg_utils::parse_pkginfo;
use lkpm::plan::InstallTarget;
use lkpm::repo::{JsonRepoPackage, PackageLocation, RepoIndex};
use lkpm::session::{
    after_candidates, after_question, after_updates, following_update, handle, help_lines,
    missing_install, question, require_packages, Stage, StageOutcome,
};
use lkpm::ui::Notice;

fn s(v: &[&str]) -> Vec<String> {
    v.iter().map(|x| x.to_string()).collect()
}

fn installed(name: &str, version: &str, requires: &[&str], provides: &[&str]) -> InstalledPackage {
    InstalledPackage {
        name: name.to_string(),
        version: version.to_string(),
        source: String::new(),
        source_kind: "remote".to_string(),
        package_path: String::new(),
        checksum: String::new(),
        files: Vec::new(),
        requires: s(requires),
        optdepends: Vec::new(),
        conflicts: Vec::new(),
        provides: s(provides),
        backups: Vec::new(),
        backups_hashes: Vec::new(),
        install_script: None,
    }
}

fn db() -> Database {
    let mut d = Database::load(&Config::defaults(), &Vec::new());
    d.register(installed("bash", "5", &["glibc"], &[])).unwrap();
    d.register(installed("glibc", "2", &[], &["libc.so=6"])).unwrap();
    d.register(installed("app", "1", &["glibc", "bash"], &["app-*"])).unwrap();
    d
}

fn repo_package(name: &str, version: &str, url: &str) -> JsonRepoPackage {
    JsonRepoPackage {
        name: name.to_string(),
        version: version.to_string(),
        origin: Some("origin".to_string()),
        sha256: None,
        url: url.to_string(),
        provides: Vec::new(),
        depends: s(&["glibc", "extra"]),
        optdepends: s(&["vim"]),
        conflicts: s(&["foe"]),
    }
}

fn repos() -> Vec<RepoIndex> {
    vec![RepoIndex {
        repo_url: "https://core.example/repo".to_string(),
        packages: Some(vec![
            repo_package("app", "2", "app-2-1-x86_64.lsk.tar.zst"),
            repo_package("glibc", "2", "https://cdn.example/glibc.tar.zst"),
            repo_package("new", "1", "new.tar.zst"),
        ]),
    }]
}

#[test]
fn lists_name_packages() {
    assert!(package_list_contains(&s(&["Linux"]), "kernel"));
    assert!(package_list_contains(&s(&["lib*"]), "LibFoo"));
    assert!(package_list_contains(&s(&["**"]), "anything"));
    assert!(package_list_contains(&s(&["ba*"]), "sh"));
    assert!(!package_list_contains(&s(&["bash-completion"]), "bash"));
    assert!(!package_list_contains(&Vec::new(), "bash"));
}

#[test]
fn installed_packages_are_found_by_what_they_are() {
    let d = db();
    assert_eq!(find_installed_package(&d, "bash>=4").unwrap().unwrap().name, "bash");
    assert_eq!(find_installed_package(&d, "sh").unwrap().unwrap().name, "bash");
    assert_eq!(find_installed_package(&d, "libc.so").unwrap().unwrap().name, "glibc");
    assert_eq!(find_installed_package(&d, "app-extra").unwrap().unwrap().name, "app");
    assert!(find_installed_package(&d, "nothing").unwrap().is_none());
}

#[test]
fn permissions() {
    let mut cfg = Config::defaults();
    assert!(require_root(0).is_ok());
    assert!(matches!(require_root(1000), Err(LkpmError::Other(m)) if m == "Operation not permitted (os error 1)!"));
    assert!(require_root_for_install_root(&cfg, 1000).is_err());
    assert!(require_root_for_install_root(&cfg, 0).is_ok());
    cfg.install_root = "/mnt".to_string();
    assert!(require_root_for_install_root(&cfg, 1000).is_ok());
    assert!(source_is_remote("https://x"));
    assert!(!source_is_remote("/x"));
}

#[test]
fn packages_are_validated() {
    let mut cfg = Config::defaults();
    cfg.blocked_packages = s(&["bad*"]);
    let any = parse_pkginfo("pkgname = ok\npkgver = 1\narch = any\n").unwrap();
    assert!(validate_package_metadata(&cfg, &any).is_ok());
    let none = parse_pkginfo("pkgname = ok\npkgver = 1\n").unwrap();
    assert!(validate_package_metadata(&cfg, &none).is_ok());
    let bad = parse_pkginfo("pkgname = badness\npkgver = 1\n").unwrap();
    assert!(matches!(validate_package_metadata(&cfg, &bad), Err(LkpmError::PackageNotFound(m)) if m == "badness"));
    let arm = parse_pkginfo("pkgname = ok\npkgver = 1\narch = arm\n").unwrap();
    assert!(matches!(validate_package_metadata(&cfg, &arm), Err(LkpmError::Other(m)) if m == "Package architecture mismatch: expected x86_64 but found arm."));
    assert!(matches!(ensure_none_blocked(&cfg, &vec![installed("a", "1", &[], &[]), installed("bad", "1", &[], &[])]), Err(LkpmError::PackageNotFound(m)) if m == "bad"));
    assert!(ensure_none_blocked(&cfg, &Vec::new()).is_ok());
}

#[test]
fn questions_are_answered() {
    assert!(confirm_operation(true, &Some("no".to_string()), false));
    assert!(confirm_operation(false, &Some(" YES \n".to_string()), false));
    assert!(confirm_operation(false, &Some("\n".to_string()), true));
    assert!(!confirm_operation(false, &Some("maybe".to_string()), true));
    assert!(!confirm_operation(false, &None, false));
}

#[test]
fn another_root_moves_the_paths() {
    let mut cfg = Config::defaults();
    let settings = ScriptSettings {
        parallel_operation: Some(2),
        install_root: Some("/ignored".to_string()),
        cache_path: Some("/ignored/cache".to_string()),
        log_path: None,
        arch: Some("aarch64".to_string()),
        blocked_packages: None,
        no_update: None,
    };
    let dirs = apply_root_override(
        &mut cfg,
        &Some("/mnt".to_string()),
        "x = 1",
        Some(settings),
        "[core]\nhttps://c\n",
    )
    .unwrap();
    assert_eq!(dirs, s(&["/ignored/cache"]));
    assert_eq!(cfg.install_root, "/mnt");
    assert_eq!(cfg.db_path, "/mnt/var/db/lkpm");
    assert_eq!(cfg.cache_path, "/mnt/var/cache/lkpm");
    assert_eq!(cfg.parallel_operation, 2);
    assert_eq!(cfg.arch, "aarch64");
    assert_eq!(cfg.core_repos, s(&["https://c"]));
    assert!(matches!(
        apply_root_override(&mut cfg, &Some(String::new()), "", None, ""),
        Err(LkpmError::Other(m)) if m == "Install root cannot be empty!"
    ));
    assert!(apply_root_override(&mut cfg, &None, "", None, "").unwrap().is_empty());
}

#[test]
fn connections_are_reported() {
    let mut cfg = Config::defaults();
    cfg.core_repos = s(&["https://a", "https://b"]);
    cfg.extra_mirrors = s(&["https://c"]);
    let (said, result) = check_repository_connections(
        &cfg,
        &vec![Ok(true), Ok(false)],
        &vec![Err(LkpmError::Io("timeout".to_string()))],
    );
    assert!(result.is_ok());
    assert_eq!(said.len(), 5);
    assert!(matches!(&said[1], Notice::Success(m) if m == "Connected: https://a"));
    assert!(matches!(&said[2], Notice::Error(m) if m == "Failed to connect https://b!"));
    assert!(matches!(&said[3], Notice::Error(m) if m == "Failed to connect https://c/! Error message: timeout"));
    assert!(matches!(&said[4], Notice::Success(m) if m == "Repository check completed: (1/3) repositories reachable!"));
    let (said, result) = check_repository_connections(&cfg, &vec![Ok(false), Ok(false)], &vec![Ok(true)]);
    assert_eq!(said.len(), 4);
    assert!(matches!(result, Err(LkpmError::Network(m)) if m == "No core repositories are reachable at this time!"));
    let none = Config::defaults();
    let (said, result) = check_repository_connections(&none, &Vec::new(), &Vec::new());
    assert!(result.is_ok() && said.len() == 1);
    assert!(matches!(refresh_notice(&none, &Vec::new()), Notice::Error(_)));
    assert!(matches!(refresh_notice(&cfg, &Vec::new()), Notice::Warning(_)));
    assert!(matches!(refresh_notice(&cfg, &s(&["x"])), Notice::Success(_)));
    assert!(matches!(ready_notice(&Vec::new()), Notice::Warning(_)));
    assert!(matches!(ready_notice(&s(&["x"])), Notice::Success(_)));
}

#[test]
fn targets_are_built() {
    let mut cfg = Config::defaults();
    cfg.blocked_packages = s(&["glibc"]);
    let t = build_install_target(&cfg, &repos(), "app").unwrap();
    assert_eq!(t.requested_name.as_deref(), Some("app"));
    assert_eq!(t.source, "https://core.example/repo/app-2-1-x86_64.lsk.tar.zst");
    assert_eq!(target_label(&t), "app");
    let url = build_install_target(&cfg, &repos(), "https://x/y.tar").unwrap();
    assert_eq!(target_label(&url), "https://x/y.tar");
    assert_eq!(target_urls(&vec![t, url]), s(&["https://core.example/repo/app-2-1-x86_64.lsk.tar.zst", "https://x/y.tar"]));
    assert!(matches!(build_install_target(&cfg, &repos(), "glibc"), Err(LkpmError::PackageNotFound(m)) if m == "glibc"));
    assert!(matches!(build_install_target(&cfg, &repos(), "zzz"), Err(LkpmError::PackageNotFound(m)) if m == "zzz not found in repositories!"));
    assert!(build_install_targets(&cfg, &repos(), &s(&["app", "zzz", "glibc"])).is_err());
    assert_eq!(build_install_targets(&cfg, &repos(), &s(&["app", "new"])).unwrap().len(), 2);
}

#[test]
fn local_packages() {
    assert_eq!(original_user_home(None), "/root");
    assert_eq!(original_user_home(Some("/home/u".to_string())), "/home/u");
    assert_eq!(home_candidate("/home/u", "a.tar"), "/home/u/a.tar");
    assert_eq!(resolve_local_package_path("a.tar", true, "/h", true), "a.tar");
    assert_eq!(resolve_local_package_path("a.tar", false, "/h", true), "/h/a.tar");
    assert_eq!(resolve_local_package_path("a.tar", false, "/h", false), "a.tar");
    assert!(matches!(require_local_file("a.tar", false), Err(LkpmError::Other(m)) if m == "Local package file a.tar was not found!"));
    assert!(require_local_file("a.tar", true).is_ok());
    let a = parse_pkginfo("pkgname = a\npkgver = 1\ndepend = glibc\ndepend = x\ndepend = y>1\n").unwrap();
    let b = parse_pkginfo("pkgname = b\npkgver = 1\ndepend = x=2\ndepend = kernel\n").unwrap();
    assert_eq!(missing_dependencies(&db(), &vec![a, b]).unwrap(), s(&["x", "y", "linux"]));
}

#[test]
fn deletions_and_dependents() {
    let d = db();
    let gone = find_removals(&d, &s(&["glibc", "sh"])).unwrap();
    assert_eq!(gone.len(), 2);
    assert_eq!(find_dependents(&d, &gone), s(&["app", "bash"]));
    assert!(find_dependents(&d, &find_removals(&d, &s(&["app"])).unwrap()).is_empty());
    assert!(matches!(find_removals(&d, &s(&["glibc", "nope"])), Err(LkpmError::Other(m)) if m == "nope is not installed on the system!"));
}

#[test]
fn updates_are_found() {
    let d = db();
    let mut cfg = Config::defaults();
    assert_eq!(find_update_candidates(&d, &Vec::new()).unwrap().len(), 3);
    let some = find_update_candidates(&d, &s(&["app", "nope", "sh"])).unwrap();
    assert_eq!(some.len(), 2);
    let ups = find_updates(&cfg, &repos(), &find_update_candidates(&d, &Vec::new()).unwrap()).unwrap();
    assert_eq!(ups.len(), 1);
    assert_eq!(update_line(&ups[0]), "    ‣ app (1 ➔ 2)");
    cfg.no_update_packages = s(&["APP"]);
    assert!(find_updates(&cfg, &repos(), &some).unwrap().is_empty());
}

#[test]
fn packages_are_described() {
    let d = db();
    let (p, from_repo) = find_known_package(&d, &repos(), "sh").unwrap();
    assert!(!from_repo && p.name == "bash");
    let (p, from_repo) = find_known_package(&d, &repos(), "new").unwrap();
    assert!(from_repo && p.source == "origin" && p.source_kind == "remote");
    assert_eq!(
        describe_package(&d, &p).unwrap().unwrap(),
        s(&[
            "Required dependencies found (3):",
            "    ‣ glibc (installed)",
            "    ‣ extra (missing)",
            "    ‣ vim (optional)",
            "Conflicting packages (1):",
            "    ‣ foe",
        ])
    );
    assert!(describe_package(&d, &installed("g", "1", &[], &[])).unwrap().is_none());
    assert!(matches!(find_known_package(&d, &repos(), "zzz"), Err(LkpmError::Other(m)) if m == "zzz is not installed on the system and no metadata was found in any configured repository!"));
}

#[test]
fn known_dependencies_of_targets() {
    let m = parse_pkginfo("pkgname = a\npkgver = 1\ndepend = x\ndepend = glibc\noptdepend = o\n").unwrap();
    let t = |m| InstallTarget {
        requested_name: None,
        source: "u".to_string(),
        location: PackageLocation::Remote("u".to_string()),
        metadata: m,
    };
    let (req, opt) = target_dependencies(&db(), &vec![t(None), t(Some(m))]).unwrap();
    assert_eq!(req, vec![("glibc".to_string(), true), ("x".to_string(), false)]);
    assert_eq!(opt, s(&["o"]));
}

#[test]
fn commands_go_through_their_stages() {
    let cmd = parse_args(s(&["-d", "app"])).unwrap();
    let mut session = handle(&cmd);
    let mut seen = Vec::new();
    while let Some(stage) = session.stage() {
        seen.push(stage);
        session.advance(StageOutcome::Done);
    }
    assert_eq!(
        seen,
        vec![
            Stage::ApplyRoot,
            Stage::EnsureStorage,
            Stage::LoadDatabase,
            Stage::RequirePackages,
            Stage::RequireRoot,
            Stage::FindRemovals,
            Stage::ReportDependents,
            Stage::Confirm,
            Stage::Cleanup,
            Stage::DeleteRecords,
            Stage::Summarize,
        ]
    );
    assert!(session.into_result().is_ok());
    let mut refused = handle(&cmd);
    refused.advance(StageOutcome::Done);
    refused.advance(StageOutcome::Failed(LkpmError::PermissionDenied));
    assert_eq!(refused.stage(), None);
    refused.advance(StageOutcome::Done);
    assert!(matches!(refused.into_result(), Err(LkpmError::PermissionDenied)));
    let mut stopped = handle(&cmd);
    stopped.advance(StageOutcome::Stop);
    assert_eq!(stopped.stage(), None);
    assert!(stopped.into_result().is_ok());
    assert!(handle(&parse_args(s(&["-id", "a"])).unwrap()).stages.contains(&Stage::ResolvePlan));
    assert!(!handle(&parse_args(s(&["-i", "a"])).unwrap()).stages.contains(&Stage::ResolvePlan));
    assert!(handle(&parse_args(s(&["-ld", "a"])).unwrap()).stages.contains(&Stage::InstallMissing));
    assert!(!handle(&parse_args(s(&["-l", "a"])).unwrap()).stages.contains(&Stage::Download));
    assert_eq!(handle(&Command::Help).stages.last(), Some(&Stage::ShowHelp));
}

#[test]
fn commands_ask_their_questions() {
    let delete = Command::Delete { packages: Vec::new(), noconfirm: false, root: None };
    let q = question(&delete).unwrap();
    assert_eq!((q.prompt.as_str(), q.default), ("Proceed to delete?", false));
    assert!(matches!(require_packages(&delete), Err(LkpmError::Other(m)) if m == "No packages specified for deletion!"));
    let install = |local| Command::Install {
        packages: Vec::new(),
        install_deps: false,
        local,
        noconfirm: false,
        root: None,
    };
    assert!(matches!(require_packages(&install(false)), Err(LkpmError::Other(m)) if m == "No packages specified for installation!"));
    assert!(matches!(require_packages(&install(true)), Err(LkpmError::Other(m)) if m == "No local package file(s) specified for installation!"));
    assert!(require_packages(&Command::Help).is_ok());
    assert!(question(&Command::Help).is_none());
    assert_eq!(question(&install(true)).unwrap().refusal, "Installation aborted by the user.");
    let ur = parse_args(s(&["-ur", "a", "--noconfirm"])).unwrap();
    assert_eq!(question(&ur).unwrap().prompt, "Proceed with update after refresh?");
    assert!(matches!(following_update(&ur), Some(Command::Update { noconfirm: true, packages, .. }) if packages == s(&["a"])));
    assert!(following_update(&Command::Help).is_none());
    let below = parse_args(s(&["-ld", "f.tar", "--root=/mnt"])).unwrap();
    match missing_install(&below, &s(&["x"])) {
        Command::Install { packages, install_deps: true, local: false, noconfirm: true, root } => {
            assert_eq!(packages, s(&["x"]));
            assert_eq!(root.as_deref(), Some("/mnt"));
        }
        _ => panic!("another command"),
    }
    assert!(matches!(missing_install(&install(true), &s(&["x"])), Command::Install { root: None, .. }));
    assert_eq!(help_lines().len(), 20);
    assert_eq!(help_lines()[2], "::: [ Liska Package Manager (1.1.0) ] :::");
}

#[test]
fn without_work_a_command_stops() {
    let (outcome, notice) = after_candidates(&Vec::new());
    assert!(matches!(outcome, StageOutcome::Stop));
    assert!(matches!(notice, Some(Notice::Warning(m)) if m == "No installed packages found to update!"));
    let (outcome, notice) = after_candidates(&vec![installed("a", "1-1", &[], &[])]);
    assert!(matches!(outcome, StageOutcome::Done) && notice.is_none());
    let (outcome, notice) = after_updates(&Vec::new());
    assert!(matches!(outcome, StageOutcome::Stop));
    assert!(matches!(notice, Some(Notice::Success(m)) if m == "No updates available at this time."));
    assert!(matches!(after_question(true), StageOutcome::Done));
    let update = parse_args(s(&["-u"])).unwrap();
    let mut session = handle(&update);
    session.advance(after_question(false));
    assert!(session.stage().is_none());
    assert!(session.into_result().is_ok());
}
