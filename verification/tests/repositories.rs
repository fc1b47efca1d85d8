use lkpm::config::Config;
use lkpm::database::Database;
use lkpm::error::LkpmError;
use lkpm::repo::{
    address_label, canonical_package_name, download_pkg_path, extract_package_version,
    file_name_from_href, find_pkg_in_repos_location, find_repo_package_info, json_repo_base_url,
    json_repo_index_url, looks_like_arch, looks_like_version, normalize_json_package_url,
    normalize_url, package_file_name_from_url, package_name_from_file_name,
    package_name_matches_request, parse_package_file_metadata, reachability_probes,
    read_or_refresh_json_repo, refresh_json_repo, refresh_repo_metadata, repo_is_reachable,
    repo_match_prefix, repo_roots, repo_source_label, repo_urls, soname_root,
    strip_package_extension, FetchOutcome, IndexStep, JsonRepoPackage, PackageLocation, RepoIndex,
};

fn s(v: &[&str]) -> Vec<String> {
    v.iter().map(|x| x.to_string()).collect()
}

fn config() -> Config {
    let mut cfg = Config::defaults();
    cfg.core_repos = s(&["https://core.example/x86_64/"]);
    cfg.extra_mirrors = s(&["https://extra.example/db.json.tar.zst"]);
    cfg
}

fn package(name: &str, url: &str, provides: &[&str]) -> JsonRepoPackage {
    JsonRepoPackage {
        name: name.to_string(),
        version: "1-1".to_string(),
        origin: None,
        sha256: None,
        url: url.to_string(),
        provides: s(provides),
        depends: Vec::new(),
        optdepends: Vec::new(),
        conflicts: Vec::new(),
    }
}

#[test]
fn names_have_aliases() {
    assert_eq!(canonical_package_name("kernel"), "linux");
    assert_eq!(canonical_package_name("bsdtar"), "libarchive");
    assert_eq!(canonical_package_name("linux"), "linux");
    assert!(package_name_matches_request("sh>=1", "Bash"));
    assert!(!package_name_matches_request("Sh", "bash"));
    assert!(package_name_matches_request("x", "X"));
    assert!(package_name_matches_request("libfoo.so=1-64", "libfoo"));
    assert!(package_name_matches_request("libfoo", "libfoo.so.2"));
    assert!(!package_name_matches_request("foo", "libfoo"));
    assert_eq!(soname_root("libX.SO.1").as_deref(), Some("libX"));
    assert_eq!(soname_root("x.so"), None);
}

#[test]
fn file_names_are_taken_apart() {
    assert_eq!(strip_package_extension("a-1.PKG.tar.zst").as_deref(), Some("a-1"));
    assert_eq!(strip_package_extension("a-1.zip"), None);
    let m = parse_package_file_metadata("foo-bar-1.2-3-x86_64.lsk.tar.zst").unwrap();
    assert_eq!((m.name.as_str(), m.version.as_str()), ("foo-bar", "1.2-3"));
    let m = parse_package_file_metadata("foo-1.2-any.tar").unwrap();
    assert_eq!((m.name.as_str(), m.version.as_str()), ("foo", "1.2"));
    let m = parse_package_file_metadata("foo-1.2.tar.gz").unwrap();
    assert_eq!((m.name.as_str(), m.version.as_str()), ("foo", "1.2"));
    assert!(parse_package_file_metadata("foo.tar.gz").is_none());
    assert_eq!(package_name_from_file_name("foo-1.2-3-any.tar.xz"), "foo");
    assert_eq!(package_name_from_file_name("foo.bin"), "foo.bin");
    for arch in ["any", "x86_64", "i686", "aarch64", "armv7h", "riscv64"] {
        for ending in [
            ".pkg.tar.zst", ".pkg.tar.xz", ".pkg.tar.gz", ".lsk.tar.zst", ".lsk.tar.xz",
            ".lsk.tar.gz", ".tar.zst", ".tar.xz", ".tar.gz", ".tar",
        ] {
            let file = format!("lib-foo-2-1.2.pkg-3-{}{}", arch, ending);
            assert_eq!(package_name_from_file_name(&file), "lib-foo-2");
        }
    }
    assert_eq!(package_name_from_file_name("caf\u{e9}-1-1-any.pkg.tar.zst"), "caf\u{e9}");
    assert_eq!(package_name_from_file_name("\u{130}\u{3a3}-1\u{212a}-\u{3a3}-x86_64.tar.gz"), "\u{130}\u{3a3}");
    assert_eq!(package_name_from_file_name("\u{130}.zip"), "\u{130}.zip");
    assert_eq!(extract_package_version("foo", "foo-1.2-3-any.tar.xz").as_deref(), Some("1.2-3"));
    assert_eq!(extract_package_version("bar", "foo-1.2-3-any.tar.xz"), None);
    assert!(looks_like_arch("riscv64"));
    assert!(!looks_like_arch("X86_64"));
    assert!(looks_like_version("1x"));
    assert!(!looks_like_version("v1"));
    assert!(!looks_like_version(""));
}

#[test]
fn addresses_are_completed() {
    assert_eq!(normalize_url("https://h/a/b", "http://x/y"), "http://x/y");
    assert_eq!(normalize_url("https://h/a/b", "/y"), "https://h/y");
    assert_eq!(normalize_url("https://h/a/b//", "y"), "https://h/a/b/y");
    assert_eq!(file_name_from_href("a/b.tar?x=/1"), "b.tar");
    assert_eq!(package_file_name_from_url("https://h/a/b.tar/?q"), "b.tar");
    assert_eq!(json_repo_index_url("https://h/a/"), "https://h/a/db.json.tar.zst");
    assert_eq!(json_repo_index_url("https://h/x.json.tar.zst"), "https://h/x.json.tar.zst");
    assert_eq!(json_repo_base_url("https://h/x.json.tar.zst"), "https://h");
    assert_eq!(json_repo_base_url("https://h/a/"), "https://h/a");
    assert_eq!(normalize_json_package_url("https://h/a/", "p.tar"), "https://h/a/p.tar");
    assert_eq!(repo_match_prefix("https://h/a/x.json/"), "https://h/a");
    assert_eq!(repo_urls(&config()).len(), 2);
    assert_eq!(
        repo_roots(&config()),
        s(&["https://core.example/x86_64/", "https://extra.example/db.json.tar.zst/"])
    );
    assert_eq!(download_pkg_path(&config(), "https://h/p-1.tar?x"), "/var/cache/lkpm/p-1.tar");
}

#[test]
fn sources_are_labelled_by_their_host() {
    let cfg = config();
    assert_eq!(repo_source_label(&cfg, "https://core.example/x86_64/p.tar"), "core.example");
    assert_eq!(repo_source_label(&cfg, "https://other.example:8080/p.tar"), "other.example");
    assert_eq!(repo_source_label(&cfg, "/home/p.tar"), "/home/p.tar");
    assert_eq!(address_label("a".to_string(), Some("h".to_string())), "h");
    assert_eq!(address_label("a".to_string(), None), "a");
}

#[test]
fn repositories_are_probed() {
    assert_eq!(reachability_probes("https://h"), s(&["https://h/db.json.tar.zst", "https://h"]));
    assert_eq!(reachability_probes("https://h/i.json.tar.zst"), s(&["https://h/i.json.tar.zst"]));
    assert!(repo_is_reachable(&vec![None, Some(204)]));
    assert!(!repo_is_reachable(&vec![Some(404), None]));
    assert!(!repo_is_reachable(&Vec::new()));
}

#[test]
fn packages_are_found_in_indexes() {
    let repos = vec![
        RepoIndex { repo_url: "https://a/".to_string(), packages: None },
        RepoIndex {
            repo_url: "https://b/".to_string(),
            packages: Some(vec![package("x", "x.tar", &[]), package("y", "https://c/y.tar", &["sh"])]),
        },
    ];
    assert_eq!(find_repo_package_info(&repos, "X>1").unwrap().unwrap().name, "x");
    assert_eq!(find_repo_package_info(&repos, "sh").unwrap().unwrap().name, "y");
    assert!(find_repo_package_info(&repos, "z").unwrap().is_none());
    assert!(matches!(
        find_pkg_in_repos_location(&repos, "x"),
        Ok(Some(PackageLocation::Remote(u))) if u == "https://b/x.tar"
    ));
    assert!(matches!(
        find_pkg_in_repos_location(&repos, "y"),
        Ok(Some(PackageLocation::Remote(u))) if u == "https://c/y.tar"
    ));
    assert!(find_pkg_in_repos_location(&repos, "z").unwrap().is_none());
}

#[test]
fn an_index_is_fetched_when_it_is_not_there() {
    let cfg = config();
    let mut db = Database::load(&cfg, &Vec::new());
    assert!(matches!(read_or_refresh_json_repo(&db, "https://h", false), IndexStep::Refresh));
    assert!(matches!(
        read_or_refresh_json_repo(&db, "https://h", true),
        IndexStep::Fail(LkpmError::Other(m)) if m == "Repository index not available for https://h"
    ));
    db.store_repo_index("https://h/db.json.tar.zst", "t");
    assert!(matches!(read_or_refresh_json_repo(&db, "https://h/", false), IndexStep::Use(t) if t == "t"));
    assert!(matches!(
        refresh_json_repo(&cfg, &mut db, "https://h", &FetchOutcome::Response(404, Vec::new())),
        Err(LkpmError::Network(m)) if m == "Failed to fetch https://h/db.json.tar.zst"
    ));
    assert!(matches!(
        refresh_json_repo(&cfg, &mut db, "https://h", &FetchOutcome::Failure("down".to_string())),
        Err(LkpmError::Network(m)) if m == "down"
    ));
    assert_eq!(db.read_repo_index("https://h/db.json.tar.zst").as_deref(), Some("t"));
}

#[test]
fn a_stored_index_replaces_the_older_one() {
    let mut db = Database::load(&config(), &Vec::new());
    db.store_repo_index("a", "1");
    db.store_repo_index("b", "2");
    db.store_repo_index("a", "3");
    assert_eq!(db.read_repo_index("a").as_deref(), Some("3"));
    assert_eq!(db.read_repo_index("b").as_deref(), Some("2"));
    assert_eq!(db.read_repo_index("c"), None);
    assert_eq!(db.repo_cache.len(), 2);
}

#[test]
fn one_refreshed_repository_is_enough() {
    let cfg = config();
    let bad = || Err(LkpmError::Other("x".to_string()));
    assert_eq!(
        refresh_repo_metadata(&cfg, &vec![bad(), Ok(Some("/db".to_string()))]).unwrap(),
        s(&["/db"])
    );
    assert!(matches!(
        refresh_repo_metadata(&cfg, &vec![bad(), Ok(None)]),
        Err(LkpmError::Network(m)) if m == "Failed to refresh any configured repositories: https://core.example/x86_64/: x; https://extra.example/db.json.tar.zst: metadata refresh returned no data"
    ));
    assert!(refresh_repo_metadata(&Config::defaults(), &Vec::new()).unwrap().is_empty());
}
