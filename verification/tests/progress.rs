use lkpm::batch::{install_requests, local_item, update_requests, BatchItem, BatchKind};
use lkpm::cli::{parse_args, Command};
use lkpm::database::InstalledPackage;
use lkpm::manager::UpdateTarget;
use lkpm::pkg_utils::parse_pkginfo;
use lkpm::plan::InstallTarget;
use lkpm::progress::{
    announcement, batch_notice, delete_preview, download_notice, hooks_notice, install_preview,
    item_notice, local_preview, update_preview,
};
use lkpm::repo::PackageLocation;
use lkpm::session::batch_kind;

fn s(v: &[&str]) -> Vec<String> {
    v.iter().map(|x| x.to_string()).collect()
}

fn command(args: &[&str]) -> Command {
    parse_args(s(args)).unwrap()
}

fn record() -> InstalledPackage {
    InstalledPackage {
        name: "x".to_string(),
        version: "1-1".to_string(),
        source: "https://old/x.tar".to_string(),
        source_kind: "remote".to_string(),
        package_path: String::new(),
        checksum: String::new(),
        files: Vec::new(),
        requires: Vec::new(),
        optdepends: Vec::new(),
        conflicts: Vec::new(),
        provides: Vec::new(),
        backups: Vec::new(),
        backups_hashes: Vec::new(),
        install_script: None,
    }
}

fn update() -> UpdateTarget {
    UpdateTarget {
        record: record(),
        location: PackageLocation::Remote("https://new/x.tar".to_string()),
        remote_version: "2-1".to_string(),
    }
}

#[test]
fn commands_know_what_they_name() {
    let delete = command(&["-d", "a", "b", "--noconfirm"]);
    assert_eq!(delete.packages(), s(&["a", "b"]));
    assert!(delete.noconfirm());
    let package = command(&["-p", "a"]);
    assert_eq!(package.packages(), s(&["a"]));
    assert!(!package.noconfirm());
    assert!(command(&["-r"]).packages().is_empty());
    assert_eq!(batch_kind(&command(&["-l", "f"])), BatchKind::Local);
    assert_eq!(batch_kind(&command(&["-i", "f"])), BatchKind::Remote);
    assert_eq!(batch_kind(&command(&["-u"])), BatchKind::Update);
}

#[test]
fn commands_are_announced() {
    assert_eq!(announcement(&command(&["-l", "f"])).as_deref(), Some("Starting local installation...."));
    assert_eq!(announcement(&command(&["-i", "f"])).as_deref(), Some("Starting the operation...."));
    assert_eq!(announcement(&command(&["-d", "f"])).as_deref(), Some("Starting the operation...."));
    assert_eq!(announcement(&command(&["-u"])).as_deref(), Some("Checking for system update...."));
    assert_eq!(announcement(&command(&["-p", "f"])).as_deref(), Some("Fetching f information...."));
    assert_eq!(announcement(&command(&["-r"])), None);
}

#[test]
fn what_is_about_to_happen_is_listed() {
    assert_eq!(install_preview(&s(&["a", "b"])), s(&["About to install 2 package(s):", "    ‣ a", "    ‣ b"]));
    assert_eq!(delete_preview(&s(&["a"])), s(&["About to delete 1 package(s):", "    ‣ a"]));
    let m = parse_pkginfo("pkgname = t\npkgver = 1-1\n").unwrap();
    assert_eq!(
        local_preview(&vec![("/t.tar".to_string(), m)]),
        s(&["About to install 1 local package(s):", "    ‣ t (1-1) [/t.tar]"])
    );
    assert_eq!(update_preview(&vec![update()]), s(&["Available updates (1):", "    ‣ x (1-1 ➔ 2-1)"]));
}

#[test]
fn downloads_know_what_they_are_for() {
    let target = InstallTarget {
        requested_name: None,
        source: "https://h/a.tar".to_string(),
        location: PackageLocation::Remote("https://h/a.tar".to_string()),
        metadata: None,
    };
    let r = install_requests(&vec![target]);
    assert_eq!((r[0].label.as_str(), r[0].url.as_str()), ("https://h/a.tar", "https://h/a.tar"));
    assert!(r[0].record.is_none());
    let r = update_requests(&vec![update()]);
    assert_eq!(
        (r[0].label.as_str(), r[0].source.as_str(), r[0].url.as_str()),
        ("x", "https://old/x.tar", "https://new/x.tar")
    );
    assert_eq!(r[0].record.as_ref().unwrap().name, "x");
}

#[test]
fn what_is_happening_is_said() {
    assert_eq!(download_notice(BatchKind::Update, 2), "Updating 2 package(s)....");
    assert_eq!(download_notice(BatchKind::Remote, 2), "Downloading 2 package(s)....");
    assert_eq!(batch_notice(BatchKind::Local, 1), "Installing 1 package(s)....");
    assert_eq!(batch_notice(BatchKind::Remote, 1), "Installing 1 package(s) to system:");
    assert_eq!(batch_notice(BatchKind::Update, 1), "Updating 1 package(s) to system:");
    assert_eq!(hooks_notice(BatchKind::Update, 3), "Running post-upgrade hooks for 3 package(s)....");
    assert_eq!(hooks_notice(BatchKind::Local, 3), "Running post-install hooks for 3 package(s)....");
    let m = parse_pkginfo("pkgname = t\npkgver = 2-1\n").unwrap();
    let (item, _) = local_item("/t.tar", &m, &Ok(Vec::new()));
    assert_eq!(item_notice(BatchKind::Local, &item), "➔ Installing t (2-1) from /t.tar....");
    assert_eq!(item_notice(BatchKind::Remote, &item), "➔ Installing t (2-1)....");
    let updating = BatchItem { record: Some(record()), ..item };
    assert_eq!(item_notice(BatchKind::Update, &updating), "➔ Updating x (1-1 ➔ 2-1)...");
}

#[test]
fn an_update_goes_on() {
    let (outcome, notice) = lkpm::session::after_updates(&vec![update()]);
    assert!(matches!(outcome, lkpm::session::StageOutcome::Done));
    assert!(notice.is_none());
}
