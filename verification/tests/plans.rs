use lkpm::config::Config;
use lkpm::database::{Database, InstalledPackage};
use lkpm::plan::{
    install_order, is_bootstrap_essential, kept_name, plan_installation,
    resolve_installation_plan, topological_install_order_from_planned, InstallTarget,
    PlannedInstall,
};
use lkpm::repo::{JsonRepoPackage, PackageLocation, RepoIndex};

fn s(v: &[&str]) -> Vec<String> {
    v.iter().map(|x| x.to_string()).collect()
}

fn target(name: &str) -> InstallTarget {
    InstallTarget {
        requested_name: Some(name.to_string()),
        source: format!("https://r/{}", name),
        location: PackageLocation::Remote(format!("https://r/{}", name)),
        metadata: None,
    }
}

fn planned(name: &str, depends: &[&str]) -> PlannedInstall {
    PlannedInstall { name: name.to_string(), target: target(name), depends: s(depends) }
}

fn repo_package(name: &str, depends: &[&str]) -> JsonRepoPackage {
    JsonRepoPackage {
        name: name.to_string(),
        version: "1-1".to_string(),
        origin: None,
        sha256: None,
        url: format!("{}-1-1-x86_64.lsk.tar.zst", name),
        provides: Vec::new(),
        depends: s(depends),
        optdepends: Vec::new(),
        conflicts: Vec::new(),
    }
}

fn installed(name: &str, provides: &[&str]) -> InstalledPackage {
    InstalledPackage {
        name: name.to_string(),
        version: "1-1".to_string(),
        source: String::new(),
        source_kind: "remote".to_string(),
        package_path: String::new(),
        checksum: String::new(),
        files: Vec::new(),
        requires: Vec::new(),
        optdepends: Vec::new(),
        conflicts: Vec::new(),
        provides: s(provides),
        backups: Vec::new(),
        backups_hashes: Vec::new(),
        install_script: None,
    }
}

fn db(packages: Vec<InstalledPackage>) -> Database {
    let mut d = Database::load(&Config::defaults(), &Vec::new());
    for p in packages {
        d.register(p).unwrap();
    }
    d
}

fn names(v: &[InstallTarget]) -> Vec<String> {
    v.iter().map(|t| t.requested_name.clone().unwrap()).collect()
}

#[test]
fn dependencies_are_installed_first() {
    let plan = vec![
        planned("app", &["lib", "tool>=2"]),
        planned("lib", &["base: why"]),
        planned("tool", &["lib"]),
        planned("base", &[]),
    ];
    assert_eq!(
        topological_install_order_from_planned(&plan),
        s(&["base", "lib", "tool", "app"])
    );
}

#[test]
fn essential_packages_come_first_whenever_they_can() {
    let plan = vec![
        planned("aaa", &[]),
        planned("glibc", &["filesystem"]),
        planned("filesystem", &[]),
        planned("zzz", &[]),
        planned("bash", &["glibc"]),
    ];
    assert_eq!(
        topological_install_order_from_planned(&plan),
        s(&["filesystem", "glibc", "bash", "aaa", "zzz"])
    );
    assert!(is_bootstrap_essential("kmod"));
    assert!(!is_bootstrap_essential("linux"));
}

#[test]
fn circles_are_broken_by_what_waits_for_least() {
    let plan = vec![
        planned("c", &["a", "b"]),
        planned("a", &["b"]),
        planned("b", &["a"]),
        planned("self", &["self", "outside"]),
    ];
    assert_eq!(
        topological_install_order_from_planned(&plan),
        s(&["self", "a", "b", "c"])
    );
    assert_eq!(install_order(&plan), vec![3, 1, 2, 0]);
    assert!(topological_install_order_from_planned(&Vec::new()).is_empty());
}

#[test]
fn the_order_of_the_plan_does_not_matter() {
    let one = vec![planned("x", &["y"]), planned("y", &[]), planned("w", &["x"])];
    let two = vec![planned("w", &["x"]), planned("x", &["y"]), planned("y", &[])];
    assert_eq!(
        topological_install_order_from_planned(&one),
        topological_install_order_from_planned(&two)
    );
}

#[test]
fn names_are_kept_under_their_canonical_form() {
    assert_eq!(kept_name("sh: a shell"), "bash");
    assert_eq!(kept_name(" kernel >= 6 "), "linux");
    assert_eq!(kept_name(&kept_name("systemd=255")), "lksystem");
}

fn repos() -> Vec<RepoIndex> {
    vec![
        RepoIndex { repo_url: "https://core".to_string(), packages: None },
        RepoIndex {
            repo_url: "https://extra".to_string(),
            packages: Some(vec![
                repo_package("app", &["lib>=1", "sh", "ghost"]),
                repo_package("lib", &["base"]),
                repo_package("base", &["lib"]),
                repo_package("bash", &["base"]),
            ]),
        },
    ]
}

#[test]
fn plans_hold_all_that_is_needed() {
    let plan = plan_installation(&db(vec![]), &repos(), vec![target("app")]).unwrap();
    let got: Vec<String> = plan.iter().map(|p| p.name.clone()).collect();
    assert_eq!(got, s(&["app", "lib", "bash", "base"]));
    assert_eq!(plan[0].depends, s(&["lib", "sh", "ghost"]));
    let order = resolve_installation_plan(&db(vec![]), &repos(), vec![target("app")]).unwrap();
    assert_eq!(names(&order), s(&["base", "bash", "lib", "app"]));
}

#[test]
fn what_is_installed_or_unknown_is_not_planned() {
    let d = db(vec![installed("base", &[]), installed("dash", &["sh"])]);
    let plan = plan_installation(&d, &repos(), vec![target("app"), target("ghost"), target("app")]).unwrap();
    let got: Vec<String> = plan.iter().map(|p| p.name.clone()).collect();
    assert_eq!(got, s(&["app", "lib", "bash"]));
    let none = resolve_installation_plan(&d, &repos(), vec![target("base")]).unwrap();
    assert!(none.is_empty());
}
