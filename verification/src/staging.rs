//! Putting the files of an unpacked package in place.
use vstd::prelude::*;

use crate::archive;
use crate::config::Config;
use crate::database;
use crate::error;
use crate::error::LkpmError;
use crate::hash;
use crate::path;
use crate::pkg_utils;
use crate::rawpath;
use crate::text;

verus! {

/// What a package left on the system, and what was put aside. Paths are bytes.
pub struct BackupsAwareInstall {
    pub installed_files: Vec<Vec<u8>>,
    /// The checksums that the package's own version of the files to preserve has.
    pub backups_hashes: Vec<(String, String)>,
    /// Where new versions of files that the user has changed were put.
    pub update_backups: Vec<Vec<u8>>,
}

/// What a package left on the system, with its texts taken as sequences of characters.
#[verifier::ext_equal]
pub struct InstallView {
    pub installed_files: Seq<Seq<u8>>,
    pub backups_hashes: Seq<(Seq<char>, Seq<char>)>,
    pub update_backups: Seq<Seq<u8>>,
}

impl View for BackupsAwareInstall {
    type V = InstallView;

    open spec fn view(&self) -> InstallView {
        InstallView {
            installed_files: rawpath::raws(self.installed_files@),
            backups_hashes: database::pair_texts(self.backups_hashes@),
            update_backups: rawpath::raws(self.update_backups@),
        }
    }
}

/// The file that stands where a new one is to go.
pub enum Existing {
    Missing,
    /// It cannot be read.
    Unreadable,
    Content(Vec<u8>),
}

/// Where a package is unpacked to before its files are put in place.
pub fn staging_dir(cfg: &Config, pid: u32, nanos: u128) -> (r: String)
    ensures
        r@ == path::joined(
            path::joined(cfg@.cache_path, "tmp-install"@),
            "extract_"@ + text::decimal_of(pid as nat) + "_"@ + text::decimal_of(nanos as nat),
        ),
{
    path::join(
        &cfg.tmp_install_dir(),
        &text::join4("extract_", &text::decimal(pid as u64), "_", &text::decimal_wide(nanos)),
    )
}

/// Whether a member of a package is unpacked.
pub open spec fn is_unpacked(place: Seq<u8>) -> bool {
    let name = rawpath::units(place);
    name != ".PKGINFO"@ && name != ".INSTALL"@ && name != ".BUILDINFO"@
}

/// Where a member of a package is unpacked to below the staging directory,
/// if it is; why it cannot be.
pub open spec fn staged_path(member: Seq<u8>) -> Result<Option<Seq<u8>>, Seq<char>> {
    match pkg_utils::clean_path(member) {
        None => Err(pkg_utils::unsafe_path(member)),
        Some(p) => if is_unpacked(p) {
            Ok(Some(p))
        } else {
            Ok(None)
        },
    }
}

/// Where a member of a package is unpacked to below the staging directory,
/// if it is.
pub fn staged_place(member: &[u8]) -> (r: Result<Option<Vec<u8>>, LkpmError>)
    ensures
        match r {
            Ok(Some(p)) => staged_path(member@) == Ok::<Option<Seq<u8>>, Seq<char>>(Some(p@)),
            Ok(None) => staged_path(member@) == Ok::<Option<Seq<u8>>, Seq<char>>(None),
            Err(e) => staged_path(member@) matches Err(m) && e@ == error::ErrorView::Other(m),
        },
{
    let place = match pkg_utils::sanitize_entry_path(member) {
        Ok(p) => p,
        Err(e) => {
            return Err(e);
        },
    };
    let name = rawpath::unit_text(place.as_slice());
    if text::same(&name, ".PKGINFO") || text::same(&name, ".INSTALL") || text::same(
        &name,
        ".BUILDINFO",
    ) {
        Ok(None)
    } else {
        Ok(Some(place))
    }
}

/// A path below a root with slashes only, as files to preserve are kept by.
pub open spec fn backup_key(rel: Seq<char>) -> Seq<char> {
    text::replaced(rel, '\\', "/"@)
}

/// The key that a file below the root is looked for by: its path as it is shown.
pub open spec fn path_key(rel: Seq<u8>) -> Seq<char> {
    backup_key(rawpath::shown_as(rel))
}

fn key_of_path(rel: &[u8]) -> (r: String)
    ensures
        r@ == path_key(rel@),
{
    text::replace(&rawpath::shown(rel), '\\', "/")
}

/// The keys of the files to preserve.
pub open spec fn keys_of(backups: Seq<Seq<char>>) -> Seq<Seq<char>> {
    backups.map_values(|b: Seq<char>| backup_key(text::without_leading(b, '/')))
}

/// The keys of the files to preserve.
pub fn backup_keys(backups: &Vec<String>) -> (r: Vec<String>)
    ensures
        text::texts(r@) == keys_of(text::texts(backups@)),
{
    let ghost want = keys_of(text::texts(backups@));
    let mut out: Vec<String> = Vec::new();
    let mut i: usize = 0;
    while i < backups.len()
        invariant
            i <= backups@.len(),
            want == keys_of(text::texts(backups@)),
            text::texts(out@) == want.take(i as int),
        decreases backups@.len() - i,
    {
        let ghost before = out@;
        out.push(text::replace(&text::trim_leading(&backups[i], '/'), '\\', "/"));
        assert(text::texts(out@) =~= text::texts(before).push(want[i as int]));
        i = i + 1;
        assert(text::texts(out@) =~= want.take(i as int));
    }
    assert(want.take(backups@.len() as int) =~= want);
    out
}

/// Whether a file below the root is one to preserve.
pub fn is_backup(keys: &Vec<String>, rel: &[u8]) -> (r: bool)
    ensures
        r == text::texts(keys@).contains(path_key(rel@)),
{
    text::list_contains(keys, &key_of_path(rel))
}

/// The checksum of the file that stands where a new one is to go; empty if it
/// cannot be read.
pub open spec fn existing_checksum(existing: Existing) -> Seq<char> {
    match existing {
        Existing::Content(data) => hash::checksum_of(data@),
        _ => seq![],
    }
}

/// Whether the user has changed a file: it is there, and is neither as the
/// package left it nor, if that is not known, as the new package has it.
pub open spec fn changed_by_user(
    existing: Existing,
    pristine: Option<Seq<char>>,
    new_checksum: Seq<char>,
) -> bool {
    match pristine {
        Some(p) => !(existing is Missing) && existing_checksum(existing) != p,
        None => !(existing is Missing) && existing_checksum(existing) != new_checksum,
    }
}

/// Whether the user has changed a file.
pub fn modified_locally(existing: &Existing, pristine: &Option<String>, new_checksum: &str) -> (r:
    bool)
    ensures
        r == changed_by_user(*existing, crate::cli::opt_text(*pristine), new_checksum@),
{
    let found = match existing {
        Existing::Missing => {
            return false;
        },
        Existing::Unreadable => String::new(),
        Existing::Content(data) => hash::file_sha256(data.as_slice()),
    };
    assert(found@ =~= existing_checksum(*existing));
    match pristine {
        Some(p) => !text::same(&found, p),
        None => !text::same(&found, new_checksum),
    }
}

/// What a package left once one more file of it is in place that need not be
/// preserved.
pub open spec fn with_file(v: InstallView, root: Seq<u8>, rel: Seq<u8>) -> InstallView {
    InstallView { installed_files: v.installed_files.push(rawpath::joined(root, rel)), ..v }
}

/// What a package left once one more file of it is in place that has to be
/// preserved. A file that the user has changed stays; the new version is put
/// aside.
pub open spec fn with_backup(
    v: InstallView,
    root: Seq<u8>,
    update_root: Seq<u8>,
    rel: Seq<u8>,
    new_checksum: Seq<char>,
    changed: bool,
) -> InstallView {
    InstallView {
        installed_files: v.installed_files.push(rawpath::joined(root, rel)),
        backups_hashes: v.backups_hashes.push((path_key(rel), new_checksum)),
        update_backups: if changed {
            v.update_backups.push(rawpath::joined(update_root, rel))
        } else {
            v.update_backups
        },
    }
}

impl BackupsAwareInstall {
    /// Nothing has been put in place.
    pub fn new() -> (r: BackupsAwareInstall)
        ensures
            r@ == (InstallView {
                installed_files: seq![],
                backups_hashes: seq![],
                update_backups: seq![],
            }),
    {
        let r = BackupsAwareInstall {
            installed_files: Vec::new(),
            backups_hashes: Vec::new(),
            update_backups: Vec::new(),
        };
        assert(r@ =~= InstallView {
            installed_files: seq![],
            backups_hashes: seq![],
            update_backups: seq![],
        });
        r
    }

    /// Takes down a file that need not be preserved; gives where it goes.
    pub fn place_file(&mut self, install_root: &[u8], rel: &[u8]) -> (r: Vec<u8>)
        ensures
            r@ == rawpath::joined(install_root@, rel@),
            final(self)@ == with_file(old(self)@, install_root@, rel@),
    {
        let target = rawpath::join(install_root, rel);
        let ghost before = self.installed_files@;
        self.installed_files.push(rawpath::copy(target.as_slice()));
        assert(rawpath::raws(self.installed_files@) =~= rawpath::raws(before).push(target@));
        target
    }

    /// Takes down a file that has to be preserved; gives where its new version
    /// goes: to its place, or aside if the user has changed what is there.
    pub fn place_backup(
        &mut self,
        install_root: &[u8],
        update_root: &[u8],
        rel: &[u8],
        content: &[u8],
        existing: &Existing,
        previous_hashes: &Vec<(String, String)>,
    ) -> (r: Vec<u8>)
        ensures
            ({
                let pristine = database::lookup(
                    database::pair_texts(previous_hashes@),
                    path_key(rel@),
                );
                let new_checksum = hash::checksum_of(content@);
                let changed = changed_by_user(*existing, pristine, new_checksum);
                &&& r@ == (if changed {
                    rawpath::joined(update_root@, rel@)
                } else {
                    rawpath::joined(install_root@, rel@)
                })
                &&& final(self)@ == with_backup(
                    old(self)@,
                    install_root@,
                    update_root@,
                    rel@,
                    new_checksum,
                    changed,
                )
            }),
    {
        let key = key_of_path(rel);
        let new_checksum = hash::file_sha256(content);
        let pristine = database::lookup_pair(previous_hashes, &key);
        let changed = modified_locally(existing, &pristine, &new_checksum);
        let ghost was = self@;
        let ghost files = self.installed_files@;
        let ghost hashes = self.backups_hashes@;
        let ghost aside = self.update_backups@;
        let ghost pair = (key@, new_checksum@);
        self.backups_hashes.push((key, new_checksum));
        assert(database::pair_texts(self.backups_hashes@) =~= database::pair_texts(hashes).push(
            pair,
        ));
        let target = rawpath::join(install_root, rel);
        self.installed_files.push(rawpath::copy(target.as_slice()));
        assert(rawpath::raws(self.installed_files@) =~= rawpath::raws(files).push(target@));
        if changed {
            let stash = rawpath::join(update_root, rel);
            self.update_backups.push(rawpath::copy(stash.as_slice()));
            assert(rawpath::raws(self.update_backups@) =~= rawpath::raws(aside).push(stash@));
            stash
        } else {
            target
        }
    }
}

// ---------------------------------------------------------------------------
// Whole packages

/// A file that was unpacked: its path below the root, its content, and what
/// stands where it is to go. The content is looked at only if the file has to
/// be preserved.
pub struct StagedFile {
    pub rel: Vec<u8>,
    pub content: Result<Vec<u8>, String>,
    pub existing: Existing,
}

/// What a package leaves, and where the files go.
pub struct Placement {
    pub result: BackupsAwareInstall,
    /// Where each of the files goes, in order.
    pub places: Vec<Vec<u8>>,
}

/// Why a package could not be put in place, and what was in place by then.
pub struct Halt {
    /// Where each of the files before the one that failed goes, in order.
    pub places: Vec<Vec<u8>>,
    pub reason: LkpmError,
}

/// What a package left, and where its last file goes, once one more file of
/// it has been dealt with; why that failed if it did.
pub open spec fn with_staged(
    v: InstallView,
    root: Seq<u8>,
    update_root: Seq<u8>,
    keys: Seq<Seq<char>>,
    hashes: Seq<(Seq<char>, Seq<char>)>,
    f: StagedFile,
) -> Result<(InstallView, Seq<u8>), Seq<char>> {
    if !keys.contains(path_key(f.rel@)) {
        Ok((with_file(v, root, f.rel@), rawpath::joined(root, f.rel@)))
    } else {
        match f.content {
            Err(reason) => Err(reason@),
            Ok(data) => {
                let sum = hash::checksum_of(data@);
                let changed = changed_by_user(
                    f.existing,
                    database::lookup(hashes, path_key(f.rel@)),
                    sum,
                );
                Ok(
                    (
                        with_backup(v, root, update_root, f.rel@, sum, changed),
                        if changed {
                            rawpath::joined(update_root, f.rel@)
                        } else {
                            rawpath::joined(root, f.rel@)
                        },
                    ),
                )
            },
        }
    }
}

/// Nothing has been put in place.
pub open spec fn nothing_placed() -> InstallView {
    InstallView { installed_files: seq![], backups_hashes: seq![], update_backups: seq![] }
}

/// What a package leaves, and where its files go; why that failed if it did.
pub open spec fn placed(
    root: Seq<u8>,
    update_root: Seq<u8>,
    keys: Seq<Seq<char>>,
    hashes: Seq<(Seq<char>, Seq<char>)>,
    files: Seq<StagedFile>,
) -> Result<(InstallView, Seq<Seq<u8>>), Seq<char>>
    decreases files.len(),
{
    if files.len() == 0 {
        Ok((nothing_placed(), seq![]))
    } else {
        match placed(root, update_root, keys, hashes, files.drop_last()) {
            Err(e) => Err(e),
            Ok((v, places)) => match with_staged(v, root, update_root, keys, hashes, files.last()) {
                Err(e) => Err(e),
                Ok((w, place)) => Ok((w, places.push(place))),
            },
        }
    }
}

/// Where the files of a package go, up to the first one that fails.
pub open spec fn places_until_failure(
    root: Seq<u8>,
    update_root: Seq<u8>,
    keys: Seq<Seq<char>>,
    hashes: Seq<(Seq<char>, Seq<char>)>,
    files: Seq<StagedFile>,
) -> Seq<Seq<u8>>
    decreases files.len(),
{
    match placed(root, update_root, keys, hashes, files) {
        Ok(p) => p.1,
        Err(_) => if files.len() == 0 {
            seq![]
        } else {
            places_until_failure(root, update_root, keys, hashes, files.drop_last())
        },
    }
}

/// What has failed stays failed, and no more files are put in place.
proof fn failure_stays(
    root: Seq<u8>,
    update_root: Seq<u8>,
    keys: Seq<Seq<char>>,
    hashes: Seq<(Seq<char>, Seq<char>)>,
    files: Seq<StagedFile>,
    k: int,
)
    requires
        0 <= k <= files.len(),
        placed(root, update_root, keys, hashes, files.take(k)) is Err,
    ensures
        placed(root, update_root, keys, hashes, files) == placed(
            root,
            update_root,
            keys,
            hashes,
            files.take(k),
        ),
        places_until_failure(root, update_root, keys, hashes, files) == places_until_failure(
            root,
            update_root,
            keys,
            hashes,
            files.take(k),
        ),
    decreases files.len(),
{
    if k == files.len() {
        assert(files.take(k) =~= files);
    } else {
        assert(files.drop_last().take(k) =~= files.take(k));
        failure_stays(root, update_root, keys, hashes, files.drop_last(), k);
    }
}

/// Deals with the files of a package one after the other. A file that has to
/// be preserved and that the user has changed is left alone; its new version
/// goes aside.
pub fn process_staged_entries(
    install_root: &[u8],
    update_root: &[u8],
    keys: &Vec<String>,
    previous_hashes: &Vec<(String, String)>,
    files: &Vec<StagedFile>,
) -> (r: Result<Placement, Halt>)
    ensures
        ({
            let keys = text::texts(keys@);
            let hashes = database::pair_texts(previous_hashes@);
            match r {
                Ok(p) => placed(install_root@, update_root@, keys, hashes, files@) == Ok::<
                    (InstallView, Seq<Seq<u8>>),
                    Seq<char>,
                >((p.result@, rawpath::raws(p.places@))),
                Err(h) => placed(install_root@, update_root@, keys, hashes, files@) == Err::<
                    (InstallView, Seq<Seq<u8>>),
                    Seq<char>,
                >(error::error_message(h.reason@)) && h.reason@ is Other && rawpath::raws(h.places@)
                    == places_until_failure(install_root@, update_root@, keys, hashes, files@),
            }
        }),
{
    let ghost ks = text::texts(keys@);
    let ghost hs = database::pair_texts(previous_hashes@);
    let mut result = BackupsAwareInstall::new();
    let mut places: Vec<Vec<u8>> = Vec::new();
    let mut i: usize = 0;
    assert(rawpath::raws(places@) =~= seq![]);
    while i < files.len()
        invariant
            i <= files@.len(),
            ks == text::texts(keys@),
            hs == database::pair_texts(previous_hashes@),
            placed(install_root@, update_root@, ks, hs, files@.take(i as int)) == Ok::<
                (InstallView, Seq<Seq<u8>>),
                Seq<char>,
            >((result@, rawpath::raws(places@))),
        decreases files@.len() - i,
    {
        assert(files@.take(i + 1).drop_last() =~= files@.take(i as int));
        let file = &files[i];
        let ghost before = places@;
        let place = if is_backup(keys, file.rel.as_slice()) {
            match &file.content {
                Ok(data) => result.place_backup(
                    install_root,
                    update_root,
                    file.rel.as_slice(),
                    data.as_slice(),
                    &file.existing,
                    previous_hashes,
                ),
                Err(reason) => {
                    proof {
                        assert(places_until_failure(
                            install_root@,
                            update_root@,
                            ks,
                            hs,
                            files@.take(i as int),
                        ) == rawpath::raws(places@));
                        failure_stays(install_root@, update_root@, ks, hs, files@, i + 1);
                    }
                    return Err(Halt { places, reason: error::other(reason) });
                },
            }
        } else {
            result.place_file(install_root, file.rel.as_slice())
        };
        let ghost pv = place@;
        places.push(place);
        assert(rawpath::raws(places@) =~= rawpath::raws(before).push(pv));
        i = i + 1;
    }
    assert(files@.take(files@.len() as int) =~= files@);
    Ok(Placement { result, places })
}

/// Deals with the files of a package, given the files that its metadata says
/// are to be preserved and what was taken down when it was last installed.
pub fn install_package_with_backups(
    install_root: &[u8],
    backups: &Vec<String>,
    previous_hashes: &Vec<(String, String)>,
    update_root: &[u8],
    files: &Vec<StagedFile>,
) -> (r: Result<Placement, Halt>)
    ensures
        ({
            let keys = keys_of(text::texts(backups@));
            let hashes = database::pair_texts(previous_hashes@);
            match r {
                Ok(p) => placed(install_root@, update_root@, keys, hashes, files@) == Ok::<
                    (InstallView, Seq<Seq<u8>>),
                    Seq<char>,
                >((p.result@, rawpath::raws(p.places@))),
                Err(h) => placed(install_root@, update_root@, keys, hashes, files@) == Err::<
                    (InstallView, Seq<Seq<u8>>),
                    Seq<char>,
                >(error::error_message(h.reason@)) && h.reason@ is Other && rawpath::raws(h.places@)
                    == places_until_failure(install_root@, update_root@, keys, hashes, files@),
            }
        }),
{
    process_staged_entries(install_root, update_root, &backup_keys(backups), previous_hashes, files)
}

/// Deals with the files of a package that has nothing to preserve: every file
/// goes to its place.
pub fn install_package(install_root: &[u8], files: &Vec<StagedFile>) -> (r: Result<
    Vec<Vec<u8>>,
    LkpmError,
>)
    ensures
        r matches Ok(v) && rawpath::raws(v@) == files@.map_values(
            |f: StagedFile| rawpath::joined(install_root@, f.rel@),
        ),
{
    let update_root = rawpath::join(install_root, "etc/lkpm.d/backup".as_bytes());
    let none: Vec<String> = Vec::new();
    let no_hashes: Vec<(String, String)> = Vec::new();
    proof {
        assert(keys_of(text::texts(none@)) =~= seq![]);
        nothing_to_preserve(
            install_root@,
            update_root@,
            database::pair_texts(no_hashes@),
            files@,
        );
    }
    match install_package_with_backups(install_root, &none, &no_hashes, &update_root, files) {
        Ok(p) => Ok(p.result.installed_files),
        Err(h) => Err(h.reason),
    }
}

/// If nothing has to be preserved, every file goes to its place, nothing goes
/// aside, and nothing fails.
pub proof fn nothing_to_preserve(
    root: Seq<u8>,
    update_root: Seq<u8>,
    hashes: Seq<(Seq<char>, Seq<char>)>,
    files: Seq<StagedFile>,
)
    ensures
        ({
            let targets = files.map_values(|f: StagedFile| rawpath::joined(root, f.rel@));
            placed(root, update_root, seq![], hashes, files) == Ok::<
                (InstallView, Seq<Seq<u8>>),
                Seq<char>,
            >(
                (
                    InstallView {
                        installed_files: targets,
                        backups_hashes: seq![],
                        update_backups: seq![],
                    },
                    targets,
                ),
            )
        }),
    decreases files.len(),
{
    let targets = files.map_values(|f: StagedFile| rawpath::joined(root, f.rel@));
    if files.len() == 0 {
        assert(targets =~= seq![]);
    } else {
        nothing_to_preserve(root, update_root, hashes, files.drop_last());
        let before = files.drop_last().map_values(|f: StagedFile| rawpath::joined(root, f.rel@));
        assert(before.push(rawpath::joined(root, files.last().rel@)) =~= targets);
    }
}

/// Whatever has to be preserved, a package that is put in place owns all of
/// its files, at the places that they have below the root.
pub proof fn every_file_is_taken_down(
    root: Seq<u8>,
    update_root: Seq<u8>,
    keys: Seq<Seq<char>>,
    hashes: Seq<(Seq<char>, Seq<char>)>,
    files: Seq<StagedFile>,
)
    ensures
        placed(root, update_root, keys, hashes, files) matches Ok(p) ==> {
            &&& p.0.installed_files == files.map_values(
                |f: StagedFile| rawpath::joined(root, f.rel@),
            )
            &&& p.1.len() == files.len()
        },
    decreases files.len(),
{
    let targets = files.map_values(|f: StagedFile| rawpath::joined(root, f.rel@));
    if files.len() == 0 {
        assert(targets =~= seq![]);
    } else {
        every_file_is_taken_down(root, update_root, keys, hashes, files.drop_last());
        let before = files.drop_last().map_values(|f: StagedFile| rawpath::joined(root, f.rel@));
        assert(before.push(rawpath::joined(root, files.last().rel@)) =~= targets);
    }
}

/// What goes aside is text if all that a package owns is, so it is the
/// package's own files that decide whether it can be registered.
pub proof fn what_goes_aside_is_text(
    root: Seq<char>,
    update_root: Seq<char>,
    keys: Seq<Seq<char>>,
    hashes: Seq<(Seq<char>, Seq<char>)>,
    files: Seq<StagedFile>,
)
    ensures
        placed(
            rawpath::bytes_of(root),
            rawpath::bytes_of(update_root),
            keys,
            hashes,
            files,
        ) matches Ok(p) ==> rawpath::are_text(p.0.installed_files) ==> rawpath::are_text(
            p.0.update_backups,
        ),
    decreases files.len(),
{
    let r = rawpath::bytes_of(root);
    let u = rawpath::bytes_of(update_root);
    if files.len() > 0 {
        let init = files.drop_last();
        what_goes_aside_is_text(root, update_root, keys, hashes, init);
        rawpath::text_below_text(root, files.last().rel@);
        rawpath::text_below_text(update_root, files.last().rel@);
        if placed(r, u, keys, hashes, files) is Ok {
            let before = placed(r, u, keys, hashes, init)->Ok_0.0;
            let now = placed(r, u, keys, hashes, files)->Ok_0.0;
            let n = before.installed_files.len() as int;
            if rawpath::are_text(now.installed_files) {
                assert(now.installed_files.drop_last() =~= before.installed_files);
                assert forall|i: int| 0 <= i < n implies vstd::utf8::valid_utf8(
                    #[trigger] before.installed_files[i],
                ) by {
                    assert(vstd::utf8::valid_utf8(now.installed_files[i]));
                }
                assert(vstd::utf8::valid_utf8(now.installed_files[n]));
                assert forall|i: int| 0 <= i < now.update_backups.len() implies vstd::utf8::valid_utf8(
                    #[trigger] now.update_backups[i],
                ) by {
                    if i < before.update_backups.len() {
                        assert(now.update_backups[i] == before.update_backups[i]);
                    }
                }
            }
        }
    }
}

/// What unpacking a package leaves: where its members go that are not
/// directories, in order; why that failed if it did.
pub open spec fn unpacked(members: archive::Listing) -> Result<Seq<Seq<u8>>, Seq<char>>
    decreases members.len(),
{
    if members.len() == 0 {
        Ok(seq![])
    } else {
        match unpacked(members.drop_last()) {
            Err(e) => Err(e),
            Ok(files) => match members.last() {
                Err(e) => Err(e),
                Ok(m) => match staged_path(m.path) {
                    Err(e) => Err(e),
                    Ok(Some(c)) => if m.directory {
                        Ok(files)
                    } else {
                        Ok(files.push(c))
                    },
                    Ok(None) => Ok(files),
                },
            },
        }
    }
}

/// Whether none of the members is a list of files as some build tools add it.
pub open spec fn without_mtree(members: archive::Listing) -> bool {
    forall|i: int|
        0 <= i < members.len() ==> ((#[trigger] members[i]) matches Ok(m) ==> (
        pkg_utils::clean_path(m.path) matches Some(p) ==> rawpath::units(p) != ".MTREE"@))
}

/// The files that unpacking leaves are those that the package is said to hold.
proof fn unpacked_is_listed(members: archive::Listing)
    requires
        without_mtree(members),
    ensures
        unpacked(members) == pkg_utils::files_among(members),
        pkg_utils::files_among(members) matches Ok(files) ==> (forall|i: int|
            0 <= i < files.len() ==> !pkg_utils::is_metadata_place(#[trigger] files[i])),
    decreases members.len(),
{
    if members.len() > 0 {
        let init = members.drop_last();
        assert forall|i: int| 0 <= i < init.len() implies ((#[trigger] init[i]) matches Ok(m) ==> (
        pkg_utils::clean_path(m.path) matches Some(p) ==> rawpath::units(p) != ".MTREE"@)) by {
            assert(init[i] == members[i]);
        }
        unpacked_is_listed(init);
        assert(members[members.len() - 1] == members.last());
    }
}

/// Paths that are the same up to their order stay so when the same is done to
/// each.
proof fn same_up_to_order(a: Seq<Seq<u8>>, b: Seq<Seq<u8>>, f: spec_fn(Seq<u8>) -> Seq<u8>)
    requires
        a.to_multiset() == b.to_multiset(),
    ensures
        a.map_values(f).to_multiset() == b.map_values(f).to_multiset(),
    decreases a.len(),
{
    broadcast use vstd::seq_lib::group_to_multiset_ensures;

    assert(a.len() == a.to_multiset().len());
    assert(b.len() == b.to_multiset().len());
    if a.len() == 0 {
        assert(a.map_values(f) =~= b.map_values(f));
    } else {
        let x = a.last();
        let init = a.drop_last();
        assert(a =~= init.push(x));
        assert(a.contains(x));
        assert(b.to_multiset().count(x) > 0);
        let j = choose|j: int| 0 <= j < b.len() && b[j] == x;
        let rest = b.remove(j);
        assert(rest.to_multiset() =~= b.to_multiset().remove(x));
        assert(init.to_multiset() =~= rest.to_multiset());
        same_up_to_order(init, rest, f);
        assert(a.map_values(f) =~= init.map_values(f).push(f(x)));
        let mapped = b.map_values(f);
        assert(mapped.remove(j) =~= rest.map_values(f));
        assert(mapped[j] == f(x));
        assert(mapped.contains(f(x)));
        assert(mapped.to_multiset().remove(f(x)).insert(f(x)) =~= mapped.to_multiset());
    }
}

/// Paths as places below a root.
pub open spec fn below(root: Seq<u8>, paths: Seq<Seq<u8>>) -> Seq<Seq<u8>> {
    paths.map_values(|p: Seq<u8>| rawpath::joined(root, p))
}

/// What is put in place is what the package is said to hold: a package that
/// holds no list of files of its own, and of which the files that were
/// unpacked are found again, in whatever order, owns exactly the files that
/// are listed for it, at their places below the root. No file of its metadata
/// is among them.
pub proof fn listed_files_are_put_in_place(
    root: Seq<u8>,
    update_root: Seq<u8>,
    keys: Seq<Seq<char>>,
    hashes: Seq<(Seq<char>, Seq<char>)>,
    members: archive::Listing,
    files: Seq<StagedFile>,
)
    requires
        without_mtree(members),
        unpacked(members) matches Ok(found) && files.map_values(
            |f: StagedFile| f.rel@,
        ).to_multiset() == found.to_multiset(),
        placed(root, update_root, keys, hashes, files) is Ok,
    ensures
        pkg_utils::files_among(members) matches Ok(listed) && placed(
            root,
            update_root,
            keys,
            hashes,
            files,
        )->Ok_0.0.installed_files.to_multiset() == below(root, listed).to_multiset()
            && (forall|i: int|
            0 <= i < listed.len() ==> !pkg_utils::is_metadata_place(#[trigger] listed[i])),
{
    unpacked_is_listed(members);
    every_file_is_taken_down(root, update_root, keys, hashes, files);
    let rels = files.map_values(|f: StagedFile| f.rel@);
    let listed = pkg_utils::files_among(members)->Ok_0;
    let f = |p: Seq<u8>| rawpath::joined(root, p);
    same_up_to_order(rels, listed, f);
    assert(rels.map_values(f) =~= files.map_values(|f: StagedFile| rawpath::joined(root, f.rel@)));
    assert(listed.map_values(f) =~= below(root, listed));
}

/// Nothing is written over a file that has to be preserved and that the user
/// has changed: its new version goes aside.
pub proof fn changed_files_are_left_alone(
    root: Seq<u8>,
    update_root: Seq<u8>,
    keys: Seq<Seq<char>>,
    hashes: Seq<(Seq<char>, Seq<char>)>,
    files: Seq<StagedFile>,
    k: int,
)
    requires
        0 <= k < files.len(),
        placed(root, update_root, keys, hashes, files) is Ok,
        keys.contains(path_key(files[k].rel@)),
        database::lookup(hashes, path_key(files[k].rel@)) matches Some(p) && existing_checksum(
            files[k].existing,
        ) != p,
        !(files[k].existing is Missing),
    ensures
        placed(root, update_root, keys, hashes, files)->Ok_0.1[k] == rawpath::joined(
            update_root,
            files[k].rel@,
        ),
    decreases files.len(),
{
    let init = files.drop_last();
    every_file_is_taken_down(root, update_root, keys, hashes, init);
    if k < init.len() {
        assert(init[k] == files[k]);
        changed_files_are_left_alone(root, update_root, keys, hashes, init, k);
    }
}

/// What one installation of a file takes down is what the next one holds the
/// file against: it is taken for changed exactly if it no longer has the
/// content that it was installed with, as far as checksums tell.
pub proof fn a_second_installation_sees_changes(
    v: InstallView,
    root: Seq<u8>,
    update_root: Seq<u8>,
    rel: Seq<u8>,
    installed: Seq<u8>,
    changed_before: bool,
    found: Vec<u8>,
    new_checksum: Seq<char>,
)
    ensures
        ({
            let left = with_backup(
                v,
                root,
                update_root,
                rel,
                hash::checksum_of(installed),
                changed_before,
            );
            let pristine = database::lookup(left.backups_hashes, path_key(rel));
            changed_by_user(Existing::Content(found), pristine, new_checksum) == (
            hash::checksum_of(found@) != hash::checksum_of(installed))
        }),
{
}

/// A file that is not there is not taken for changed, so the new version
/// takes its place.
pub proof fn missing_files_are_put_back(pristine: Option<Seq<char>>, new_checksum: Seq<char>)
    ensures
        !changed_by_user(Existing::Missing, pristine, new_checksum),
{
}

// ---------------------------------------------------------------------------
// Files that the user has changed

/// A file that is there is taken for changed exactly if its checksum is not
/// the one that was taken down for it; if none was, exactly if it is not that
/// of the new version. So a first installation spares what the user already
/// has. A file that cannot be read has no checksum.
pub proof fn changes_show_in_checksums(
    data: Vec<u8>,
    taken_down: Option<Seq<char>>,
    new_checksum: Seq<char>,
)
    ensures
        changed_by_user(Existing::Content(data), taken_down, new_checksum) <==> hash::checksum_of(
            data@,
        ) != (match taken_down {
            Some(c) => c,
            None => new_checksum,
        }),
        changed_by_user(Existing::Unreadable, taken_down, new_checksum) <==> (match taken_down {
            Some(c) => c,
            None => new_checksum,
        }).len() > 0,
        !changed_by_user(Existing::Missing, taken_down, new_checksum),
{
    let c = match taken_down {
        Some(c) => c,
        None => new_checksum,
    };
    if c.len() == 0 {
        assert(c =~= seq![]);
    }
}

/// The place that a file to preserve goes to, told by what stands there: if
/// that differs from what was taken down for it, or, where nothing was, from
/// the new version, nothing is written over it and the new version goes aside;
/// otherwise the new version takes its place. The place and the checksum of
/// the new version are taken down either way.
pub proof fn preserved_files_are_not_written_over(
    root: Seq<u8>,
    update_root: Seq<u8>,
    keys: Seq<Seq<char>>,
    hashes: Seq<(Seq<char>, Seq<char>)>,
    files: Seq<StagedFile>,
    k: int,
)
    requires
        0 <= k < files.len(),
        placed(root, update_root, keys, hashes, files) is Ok,
        keys.contains(path_key(files[k].rel@)),
    ensures
        ({
            let done = placed(root, update_root, keys, hashes, files)->Ok_0;
            let rel = files[k].rel@;
            let sum = hash::checksum_of(files[k].content->Ok_0@);
            let known = database::lookup(hashes, path_key(rel));
            let differs = match files[k].existing {
                Existing::Missing => false,
                Existing::Unreadable => (match known {
                    Some(c) => c,
                    None => sum,
                }).len() > 0,
                Existing::Content(data) => hash::checksum_of(data@) != (match known {
                    Some(c) => c,
                    None => sum,
                }),
            };
            &&& files[k].content is Ok
            &&& done.1.len() == files.len()
            &&& done.1[k] == (if differs {
                rawpath::joined(update_root, rel)
            } else {
                rawpath::joined(root, rel)
            })
            &&& differs ==> done.0.update_backups.contains(rawpath::joined(update_root, rel))
            &&& done.0.backups_hashes.contains((path_key(rel), sum))
            &&& done.0.installed_files[k] == rawpath::joined(root, rel)
        }),
    decreases files.len(),
{
    let init = files.drop_last();
    let before = placed(root, update_root, keys, hashes, init)->Ok_0;
    let done = placed(root, update_root, keys, hashes, files)->Ok_0;
    every_file_is_taken_down(root, update_root, keys, hashes, init);
    every_file_is_taken_down(root, update_root, keys, hashes, files);
    if k < init.len() {
        assert(init[k] == files[k]);
        preserved_files_are_not_written_over(root, update_root, keys, hashes, init, k);
        let rel = files[k].rel@;
        let pair = (path_key(rel), hash::checksum_of(files[k].content->Ok_0@));
        let aside = rawpath::joined(update_root, rel);
        let n = choose|n: int|
            0 <= n < before.0.backups_hashes.len() && before.0.backups_hashes[n] == pair;
        assert(done.0.backups_hashes[n] == pair);
        if before.0.update_backups.contains(aside) {
            let m = choose|m: int|
                0 <= m < before.0.update_backups.len() && before.0.update_backups[m] == aside;
            assert(done.0.update_backups[m] == aside);
        }
    } else {
        let rel = files[k].rel@;
        let sum = hash::checksum_of(files[k].content->Ok_0@);
        let known = database::lookup(hashes, path_key(rel));
        let n = before.0.backups_hashes.len() as int;
        assert(done.0.backups_hashes[n] == (path_key(rel), sum));
        if let Existing::Content(data) = files[k].existing {
            changes_show_in_checksums(data, known, sum);
        } else if let Existing::Unreadable = files[k].existing {
            let c = match known {
                Some(c) => c,
                None => sum,
            };
            if c.len() == 0 {
                assert(c =~= seq![]);
            }
        }
        if changed_by_user(files[k].existing, known, sum) {
            let m = before.0.update_backups.len() as int;
            assert(done.0.update_backups[m] == rawpath::joined(update_root, rel));
        }
    }
}

/// A file that need not be preserved goes to its place, whatever stands there.
pub proof fn other_files_go_to_their_place(
    root: Seq<u8>,
    update_root: Seq<u8>,
    keys: Seq<Seq<char>>,
    hashes: Seq<(Seq<char>, Seq<char>)>,
    files: Seq<StagedFile>,
    k: int,
)
    requires
        0 <= k < files.len(),
        placed(root, update_root, keys, hashes, files) is Ok,
        !keys.contains(path_key(files[k].rel@)),
    ensures
        placed(root, update_root, keys, hashes, files)->Ok_0.1[k] == rawpath::joined(
            root,
            files[k].rel@,
        ),
    decreases files.len(),
{
    let init = files.drop_last();
    every_file_is_taken_down(root, update_root, keys, hashes, init);
    if k < init.len() {
        assert(init[k] == files[k]);
        other_files_go_to_their_place(root, update_root, keys, hashes, init, k);
    }
}

/// Putting files in place fails only where a file to preserve cannot be read.
pub proof fn readable_files_are_put_in_place(
    root: Seq<u8>,
    update_root: Seq<u8>,
    keys: Seq<Seq<char>>,
    hashes: Seq<(Seq<char>, Seq<char>)>,
    files: Seq<StagedFile>,
)
    requires
        forall|k: int|
            0 <= k < files.len() ==> keys.contains(path_key((#[trigger] files[k]).rel@))
                ==> files[k].content is Ok,
    ensures
        placed(root, update_root, keys, hashes, files) is Ok,
    decreases files.len(),
{
    if files.len() > 0 {
        let init = files.drop_last();
        assert(forall|k: int| 0 <= k < init.len() ==> #[trigger] init[k] == files[k]);
        readable_files_are_put_in_place(root, update_root, keys, hashes, init);
        assert(files[files.len() - 1] == files.last());
    }
}

/// A file that a package lists to be preserved is preserved, whether it is
/// listed with or without a slash at its start.
pub proof fn listed_files_are_preserved(backups: Seq<Seq<char>>, rel: Seq<char>)
    requires
        rel.len() > 0 && rel[0] != '/',
        text::first_index(rel, '\\') == rel.len(),
        backups.contains(rel) || backups.contains("/"@ + rel),
    ensures
        keys_of(backups).contains(path_key(rawpath::bytes_of(rel))),
{
    reveal_strlit("/");
    rawpath::text_is_shown(rel);
    text::first_index_bounds(rel, '\\');
    text::only_that_character_is_replaced(seq![], rel, '\\', "/"@);
    assert(text::without_leading(rel, '/') == rel);
    assert(("/"@ + rel).drop_first() =~= rel);
    assert(text::without_leading("/"@ + rel, '/') == rel);
    let i = choose|i: int|
        0 <= i < backups.len() && (backups[i] == rel || backups[i] == "/"@ + rel);
    assert(keys_of(backups)[i] == backup_key(rel));
}

/// The first file to preserve that cannot be read ends the installation with
/// its reason, and the files before it are those that have been put in place.
pub proof fn an_unreadable_file_ends_it(
    root: Seq<u8>,
    update_root: Seq<u8>,
    keys: Seq<Seq<char>>,
    hashes: Seq<(Seq<char>, Seq<char>)>,
    files: Seq<StagedFile>,
    file: StagedFile,
    more: Seq<StagedFile>,
)
    requires
        placed(root, update_root, keys, hashes, files) is Ok,
        keys.contains(path_key(file.rel@)),
        file.content is Err,
    ensures
        placed(root, update_root, keys, hashes, files.push(file) + more) == Err::<
            (InstallView, Seq<Seq<u8>>),
            Seq<char>,
        >(file.content->Err_0@),
        places_until_failure(root, update_root, keys, hashes, files.push(file) + more) == placed(
            root,
            update_root,
            keys,
            hashes,
            files,
        )->Ok_0.1,
    decreases more.len(),
{
    let all = files.push(file) + more;
    if more.len() == 0 {
        assert(all =~= files.push(file));
        assert(all.drop_last() =~= files);
        assert(all.last() == file);
        assert(places_until_failure(root, update_root, keys, hashes, files) == placed(
            root,
            update_root,
            keys,
            hashes,
            files,
        )->Ok_0.1);
    } else {
        an_unreadable_file_ends_it(
            root,
            update_root,
            keys,
            hashes,
            files,
            file,
            more.drop_last(),
        );
        assert(all.drop_last() =~= files.push(file) + more.drop_last());
    }
}

/// Every member is unpacked to its own place but for what describes the
/// package, and one that leads up is refused.
pub proof fn members_are_unpacked_to_their_place(member: Seq<u8>, place: Seq<u8>)
    ensures
        ({
            let name = rawpath::units(place);
            let own = name == ".PKGINFO"@ || name == ".INSTALL"@ || name == ".BUILDINFO"@;
            &&& pkg_utils::clean_path(member) == Some(place) && !own ==> staged_path(member) == Ok::<
                Option<Seq<u8>>,
                Seq<char>,
            >(Some(place))
            &&& pkg_utils::clean_path(member) == Some(place) && own ==> staged_path(member) == Ok::<
                Option<Seq<u8>>,
                Seq<char>,
            >(None)
            &&& pkg_utils::clean_path(member) is None <==> staged_path(member) is Err
        }),
{
}

} // verus!
