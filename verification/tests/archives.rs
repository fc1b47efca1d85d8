use lkpm::batch::{local_item, prepare_item, prepare_package, read_local_package, Prepared};
use lkpm::config::Config;
use lkpm::error::LkpmError;
use lkpm::pkg_utils::{
    detect_format, list_package_files, open_package, package_buildinfo_sha256, package_format,
    parse_buildinfo_sha256, parse_pkginfo, read_package_install_script, read_package_metadata,
    sanitize_entry_path, PackageFormat,
};
use lkpm::database::Database;
use lkpm::repo::{index_from_response, refresh_json_repo, FetchOutcome};
use lkpm::staging::{install_package, staged_place, Existing, StagedFile};
use std::io::Write;

fn tar_of(files: &[(&str, &[u8])]) -> Vec<u8> {
    let mut builder = tar::Builder::new(Vec::new());
    for (name, content) in files {
        let mut header = tar::Header::new_gnu();
        header.set_size(content.len() as u64);
        header.set_mode(0o644);
        header.set_cksum();
        builder.append_data(&mut header, name, *content).unwrap();
    }
    builder.into_inner().unwrap()
}

fn tar_with_dir() -> Vec<u8> {
    let mut builder = tar::Builder::new(Vec::new());
    let mut dir = tar::Header::new_gnu();
    dir.set_entry_type(tar::EntryType::Directory);
    dir.set_size(0);
    dir.set_mode(0o755);
    dir.set_cksum();
    builder.append_data(&mut dir, "usr/", std::io::empty()).unwrap();
    for (name, content) in [
        (".PKGINFO", "pkgname = demo\npkgver = 1-1\n"),
        (".MTREE", "x"),
        (".INSTALL", "post_install() { :; }"),
        (".BUILDINFO", "pkgbuild_sha256sum = [abc]\n"),
        ("usr/bin/demo", "run"),
        ("etc/demo.conf", "conf"),
    ] {
        let mut header = tar::Header::new_gnu();
        header.set_size(content.len() as u64);
        header.set_mode(0o644);
        header.set_cksum();
        builder.append_data(&mut header, name, content.as_bytes()).unwrap();
    }
    builder.into_inner().unwrap()
}

fn raw_entry(name: &[u8], content: &[u8]) -> Vec<u8> {
    let mut header = tar::Header::new_gnu();
    {
        let bytes = header.as_mut_bytes();
        for (i, b) in name.iter().enumerate() {
            bytes[i] = *b;
        }
    }
    header.set_size(content.len() as u64);
    header.set_mode(0o644);
    header.set_cksum();
    let mut out = header.as_bytes().to_vec();
    out.extend_from_slice(content);
    while out.len() % 512 != 0 {
        out.push(0);
    }
    out.extend_from_slice(&[0u8; 1024]);
    out
}

fn zst(data: &[u8]) -> Vec<u8> {
    zstd::encode_all(data, 3).unwrap()
}

fn xz(data: &[u8]) -> Vec<u8> {
    let mut enc = xz2::write::XzEncoder::new(Vec::new(), 3);
    enc.write_all(data).unwrap();
    enc.finish().unwrap()
}

fn gz(data: &[u8]) -> Vec<u8> {
    let mut enc = flate2::write::GzEncoder::new(Vec::new(), flate2::Compression::default());
    enc.write_all(data).unwrap();
    enc.finish().unwrap()
}

const INFO: &str = "# Generated by lkmake 1.0.0\npkgname = demo\npkgver = 1.2-1\narch = x86_64\ndepend = glibc>=2.3\ndepend = sh\noptdepends = vim: editing\nprovides = demo-lib=1\nconflict = olddemo<2\nbackup = /etc/demo.conf\n";

#[test]
fn metadata_from_every_compression() {
    let tar = tar_of(&[("./.PKGINFO", INFO.as_bytes()), ("usr/bin/demo", b"x")]);
    for (path, data) in [
        ("/tmp/demo.lsk.tar.zst", zst(&tar)),
        ("/tmp/demo.pkg.tar.XZ", xz(&tar)),
        ("/tmp/demo.tar.gz", gz(&tar)),
        ("/tmp/demo.tar", tar.clone()),
    ] {
        let m = read_package_metadata(path, &data).unwrap();
        assert_eq!(m.name, "demo");
        assert_eq!(m.version, "1.2-1");
        assert_eq!(m.arch, "x86_64");
        assert_eq!(m.depends, vec!["glibc", "bash"]);
        assert_eq!(m.optdepends, vec!["vim"]);
        assert_eq!(m.provides, vec!["demo-lib"]);
        assert_eq!(m.conflicts, vec!["olddemo"]);
        assert_eq!(m.backups, vec!["etc/demo.conf"]);
    }
}

#[test]
fn formats_by_ending() {
    assert_eq!(package_format("a.lsk.tar.zst"), Some(PackageFormat::Zstd));
    assert_eq!(package_format("a.tar.xz"), Some(PackageFormat::Xz));
    assert_eq!(package_format("a.tar.gz"), Some(PackageFormat::Gzip));
    assert_eq!(package_format("a.pkg.tar"), Some(PackageFormat::Plain));
    assert_eq!(package_format("a.zip"), None);
    assert_eq!(detect_format("/x/A.TAR.ZST"), Ok(PackageFormat::Zstd));
    assert_eq!(detect_format("a.zip"), Err("Unsupported package format: a.zip".to_string()));
    assert_eq!(
        open_package("/x/a.zip", b"").err(),
        Some("Unsupported package format: /x/a.zip".to_string())
    );
}

#[test]
fn broken_archives_are_refused() {
    assert!(read_package_metadata("a.tar.zst", b"no zstd at all").is_err());
    assert!(read_package_metadata("a.tar.xz", b"no xz at all").is_err());
    assert!(read_package_metadata("a.tar.gz", b"no gzip at all").is_err());
    assert!(read_package_metadata("a.tar", &[7u8; 600]).is_err());
}

#[test]
fn missing_metadata_is_said() {
    let tar = tar_of(&[("usr/bin/demo", b"x")]);
    match read_package_metadata("/tmp/demo.tar", &tar) {
        Err(LkpmError::Other(m)) => assert_eq!(m, ".PKGINFO is missing on /tmp/demo.tar!"),
        _ => panic!("no error"),
    }
}

#[test]
fn metadata_must_be_text() {
    let tar = tar_of(&[(".PKGINFO", &[0xff, 0xfe, 0x00])]);
    match read_package_metadata("/tmp/demo.tar", &tar) {
        Err(LkpmError::Other(m)) => assert_eq!(m, "stream did not contain valid UTF-8"),
        _ => panic!("no error"),
    }
}

#[test]
fn files_scripts_and_checksums_of_a_package() {
    let tar = tar_with_dir();
    assert_eq!(
        list_package_files("demo.tar", &tar).unwrap(),
        vec![b"usr/bin/demo".to_vec(), b"etc/demo.conf".to_vec()]
    );
    assert_eq!(
        read_package_install_script("demo.tar", &tar).unwrap().as_deref(),
        Some("post_install() { :; }")
    );
    assert_eq!(
        package_buildinfo_sha256("demo.tar", &tar).unwrap().as_deref(),
        Some("abc")
    );
    let bare = tar_of(&[(".PKGINFO", INFO.as_bytes())]);
    assert_eq!(read_package_install_script("demo.tar", &bare).unwrap(), None);
    assert_eq!(package_buildinfo_sha256("demo.tar", &bare).unwrap(), None);
}

#[test]
fn a_member_that_leaves_the_root_is_refused() {
    let data = raw_entry(b"usr/../../etc/passwd", b"x");
    match list_package_files("demo.tar", &data) {
        Err(LkpmError::Other(m)) => {
            assert_eq!(m, "Package contains unsafe path: usr/../../etc/passwd")
        }
        _ => panic!("no error"),
    }
    assert_eq!(sanitize_entry_path(b"./a//b/./c/").unwrap(), b"a/b/c");
    assert_eq!(sanitize_entry_path(b"/etc/x").unwrap(), b"etc/x");
    assert_eq!(sanitize_entry_path(b"./").unwrap(), b"");
    assert!(sanitize_entry_path(b"..").is_err());
}

#[test]
fn metadata_needs_a_name_and_a_version() {
    match parse_pkginfo("pkgver = 1\n") {
        Err(LkpmError::Other(m)) => assert_eq!(m, "Package metadata missing pkgname!"),
        _ => panic!("no error"),
    }
    match parse_pkginfo("pkgname = a\r\npkgver =\n") {
        Err(LkpmError::Other(m)) => assert_eq!(m, "Package metadata missing pkgver!"),
        _ => panic!("no error"),
    }
    let m = parse_pkginfo("pkgname = a\r\npkgname = b\r\npkgver = 2\r\ndepends = \r\nbackup = /\r\n").unwrap();
    assert_eq!(m.name, "b");
    assert_eq!(m.version, "2");
    assert!(m.depends.is_empty());
    assert!(m.backups.is_empty());
}

#[test]
fn build_checksums_are_found() {
    assert_eq!(parse_buildinfo_sha256("format = 2\n  pkgbuild_sha256sum=abc def\n").as_deref(), Some("abc"));
    assert_eq!(parse_buildinfo_sha256("pkgbuild_sha256sum = \npkgbuild_sha256sum [x]").as_deref(), Some("x"));
    assert_eq!(parse_buildinfo_sha256("pkgbuild_sha256sum = []"), None);
    assert_eq!(parse_buildinfo_sha256("other = 1"), None);
}

#[test]
fn indexes_are_read_from_responses() {
    let tar = zst(&tar_of(&[("repo/README", b"no"), ("repo/db.json", b"[]")]));
    assert_eq!(index_from_response("u", &tar).unwrap(), "[]");
    let none = zst(&tar_of(&[("repo/README", b"no")]));
    match index_from_response("http://r/db.json.tar.zst", &none) {
        Err(LkpmError::Network(m)) => assert_eq!(m, "db.json not found in http://r/db.json.tar.zst"),
        _ => panic!("no error"),
    }
    let cfg = Config::defaults();
    let mut db = Database::load(&cfg, &Vec::new());
    assert!(matches!(
        refresh_json_repo(&cfg, &mut db, "http://r", &FetchOutcome::Response(200, tar)),
        Ok(Some(p)) if p == "/var/db/lkpm/db.sqlite"
    ));
    assert!(db.read_repo_index("http://r/db.json.tar.zst").is_some());
    assert!(matches!(
        refresh_json_repo(&cfg, &mut db, "http://r", &FetchOutcome::Response(404, Vec::new())),
        Err(LkpmError::Network(_))
    ));
    match refresh_json_repo(&cfg, &mut db, "http://r", &FetchOutcome::Failure("down".to_string())) {
        Err(LkpmError::Network(m)) => assert_eq!(m, "down"),
        _ => panic!("no error"),
    }
}

#[test]
fn downloads_are_prepared() {
    let cfg = Config::defaults();
    let tar = tar_of(&[(".PKGINFO", INFO.as_bytes())]);
    match prepare_package(&cfg, "demo", "https://r/demo.tar", None, "/c/demo.tar", &Ok(tar.clone())) {
        Prepared::Ready(item) => {
            assert_eq!(item.metadata.name, "demo");
            assert_eq!(item.source, "https://r/demo.tar");
            assert_eq!(item.path, "/c/demo.tar");
            assert_eq!(item.checksum.len(), 64);
        }
        _ => panic!("not ready"),
    }
    match prepare_package(&cfg, "demo", "s", None, "f.tar", &Err("denied".to_string())) {
        Prepared::Skipped(m) => assert_eq!(m, "Failed to calculate checksum for demo: denied"),
        _ => panic!("not skipped"),
    }
    assert!(matches!(
        prepare_package(&cfg, "demo", "s", None, "f.zip", &Ok(tar.clone())),
        Prepared::Failed(LkpmError::Other(_))
    ));
    assert!(matches!(
        prepare_item(&cfg, "s", None, "f", String::new(), Err(LkpmError::PermissionDenied)),
        Prepared::Failed(LkpmError::PermissionDenied)
    ));
    let mut arm = Config::defaults();
    arm.arch = "aarch64".to_string();
    match read_local_package(&arm, "demo.tar", &tar) {
        Err(LkpmError::Other(m)) => assert_eq!(
            m,
            "Package architecture mismatch: expected aarch64 but found x86_64."
        ),
        _ => panic!("no error"),
    }
    let m = read_local_package(&cfg, "demo.tar", &tar).unwrap();
    let (item, said) = local_item("demo.tar", &m, &Err("gone".to_string()));
    assert_eq!(item.checksum, "");
    assert_eq!(item.source, "demo.tar");
    assert_eq!(said.as_deref(), Some("Failed to calculate checksum for demo: gone"));
    let (item, said) = local_item("demo.tar", &m, &Ok(b"abc".to_vec()));
    assert_eq!(
        item.checksum,
        "ba7816bf8f01cfea414140de5dae2223b00361a396177a9cb410ff61f20015ad"
    );
    assert_eq!(said, None);
}

#[test]
fn what_is_listed_is_put_in_place() {
    let tar = tar_of(&[
        ("./.PKGINFO", INFO.as_bytes()),
        (".INSTALL", b"x"),
        (".BUILDINFO", b"x"),
        ("./usr/bin/demo", b"x"),
        ("etc/demo.conf", b"y"),
    ]);
    let mut staged = Vec::new();
    for member in open_package("demo.tar", &tar).unwrap().iter() {
        let member = member.as_ref().unwrap();
        if let Some(rel) = staged_place(&member.path).unwrap() {
            if !member.directory {
                staged.push(StagedFile {
                    rel,
                    content: Ok(Vec::new()),
                    existing: Existing::Missing,
                });
            }
        }
    }
    staged.reverse();
    let mut installed = install_package(b"/mnt", &staged).unwrap();
    installed.sort();
    let mut listed: Vec<Vec<u8>> = list_package_files("demo.tar", &tar)
        .unwrap()
        .iter()
        .map(|p| [b"/mnt/".as_slice(), p.as_slice()].concat())
        .collect();
    listed.sort();
    assert_eq!(installed, listed);
    assert_eq!(installed, vec![b"/mnt/etc/demo.conf".to_vec(), b"/mnt/usr/bin/demo".to_vec()]);
}

#[test]
fn names_that_are_not_text_keep_their_bytes() {
    let data = raw_entry(b"./usr//\xff\xfe/\xe9", b"x");
    assert_eq!(list_package_files("demo.tar", &data).unwrap(), vec![b"usr/\xff\xfe/\xe9".to_vec()]);
    let text = raw_entry("usr/caf\u{e9}".as_bytes(), b"x");
    assert_eq!(list_package_files("demo.tar", &text).unwrap(), vec!["usr/caf\u{e9}".as_bytes().to_vec()]);
    assert!(matches!(
        read_package_metadata("demo.tar", &data),
        Err(LkpmError::Other(m)) if m == ".PKGINFO is missing on demo.tar!"
    ));
    let upwards = raw_entry(b"\xff/../x", b"x");
    assert!(matches!(
        list_package_files("demo.tar", &upwards),
        Err(LkpmError::Other(m)) if m == "Package contains unsafe path: \u{fffd}/../x"
    ));
}
