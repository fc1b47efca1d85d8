//! Deleting installed packages.
use vstd::prelude::*;

use crate::config;
use crate::config::Config;
use crate::database;
use crate::database::Database;
use crate::database::InstalledPackage;
use crate::error;
use crate::error::LkpmError;
use crate::hash;
use crate::path;
use crate::rawpath;
use crate::repo;
use crate::staging;
use crate::text;
use crate::ui;
use crate::ui::PackageSummary;

verus! {

// ---------------------------------------------------------------------------
// Files

/// Whether a path has a name that begins with a dot, other than one that only
/// stays or goes up.
pub open spec fn is_hidden(p: Seq<char>) -> bool {
    exists|i: int|
        {
            &&& 0 <= i < path::names(p).len()
            &&& text::has_prefix(#[trigger] path::names(p)[i], "."@)
            &&& path::names(p)[i] != "."@
            &&& path::names(p)[i] != ".."@
        }
}

/// Whether a path has a hidden name.
pub fn is_hidden_path(p: &str) -> (r: bool)
    ensures
        r == is_hidden(p@),
{
    let names = path::names_of(p);
    let ghost all = path::names(p@);
    let mut i: usize = 0;
    while i < names.len()
        invariant
            i <= names@.len(),
            all == text::texts(names@),
            all == path::names(p@),
            forall|k: int|
                0 <= k < i ==> !(text::has_prefix(#[trigger] all[k], "."@) && all[k] != "."@
                    && all[k] != ".."@),
        decreases names@.len() - i,
    {
        assert(all[i as int] == names@[i as int]@);
        if text::starts_with(&names[i], ".") && !text::same(&names[i], ".") && !text::same(
            &names[i],
            "..",
        ) {
            return true;
        }
        i = i + 1;
    }
    false
}

/// What is done with a file of a package that is deleted.
pub enum FileFate {
    /// It stays.
    Keep,
    /// It is removed if it is there.
    Remove,
    /// It is renamed to this, and that is said.
    Save(String, String),
}

/// What is done with a file, with its texts taken as sequences of characters.
pub enum FateView {
    Keep,
    Remove,
    Save(Seq<char>, Seq<char>),
}

impl View for FileFate {
    type V = FateView;

    open spec fn view(&self) -> FateView {
        match self {
            FileFate::Keep => FateView::Keep,
            FileFate::Remove => FateView::Remove,
            FileFate::Save(to, said) => FateView::Save(to@, said@),
        }
    }
}

/// A path as the checksums of preserved files are kept by.
pub open spec fn hash_key(root: Seq<char>, file: Seq<char>) -> Seq<char> {
    match path::relative_to(file, root) {
        Some(rel) => text::replaced(rel, '\\', "/"@),
        None => file,
    }
}

/// Where a changed file of a deleted package is saved.
pub open spec fn saved_path(file: Seq<char>) -> Seq<char> {
    path::renamed(
        file,
        (match path::file_name_of(file) {
            Some(name) => name,
            None => seq![],
        }) + ".lkpmsave"@,
    )
}

/// Whether the user has changed a preserved file: it can be read, its
/// checksum at installation is known, and it has another one now.
pub open spec fn changed_since(
    p: database::InstalledView,
    root: Seq<char>,
    file: Seq<char>,
    content: Option<Seq<u8>>,
) -> bool {
    match (content, database::lookup(p.backups_hashes, hash_key(root, file))) {
        (Some(data), Some(pristine)) => hash::checksum_of(data) != pristine,
        _ => false,
    }
}

/// What is done with a file of a package that is deleted. Hidden files stay;
/// a preserved file that the user has changed is saved; others go.
pub open spec fn fate(
    cfg: config::ConfigView,
    p: database::InstalledView,
    file: Seq<char>,
    exists_now: bool,
    content: Option<Seq<u8>>,
) -> FateView {
    if is_hidden(file) {
        FateView::Keep
    } else if exists_now && path::holds_path(p.backups, file) && changed_since(
        p,
        cfg.install_root,
        file,
        content,
    ) {
        FateView::Save(
            saved_path(file),
            file + " was modified locally! Kept saved as "@ + saved_path(file) + "."@,
        )
    } else {
        FateView::Remove
    }
}

/// The content of a file, if it could be read.
pub open spec fn bytes(content: Option<Vec<u8>>) -> Option<Seq<u8>> {
    match content {
        Some(data) => Some(data@),
        None => None,
    }
}

/// Whether a file must be looked into before its fate can be told.
pub fn needs_content(p: &InstalledPackage, file: &str) -> (r: bool)
    ensures
        r == (!is_hidden(file@) && path::holds_path(p@.backups, file@)),
{
    !is_hidden_path(file) && path::list_holds_path(&p.backups, file)
}

/// What is done with a file of a package that is deleted.
pub fn file_fate(
    cfg: &Config,
    p: &InstalledPackage,
    file: &str,
    exists_now: bool,
    content: &Option<Vec<u8>>,
) -> (r: FileFate)
    ensures
        r@ == fate(cfg@, p@, file@, exists_now, bytes(*content)),
{
    if is_hidden_path(file) {
        return FileFate::Keep;
    }
    if exists_now && path::list_holds_path(&p.backups, file) {
        let key = match path::strip_prefix(file, &cfg.install_root) {
            Some(rel) => text::replace(&rel, '\\', "/"),
            None => file.to_owned(),
        };
        assert(key@ == hash_key(cfg@.install_root, file@));
        let pristine = database::lookup_pair(&p.backups_hashes, &key);
        let modified = match (content, &pristine) {
            (Some(data), Some(h)) => !text::same(&hash::file_sha256(data.as_slice()), h),
            _ => false,
        };
        assert(modified == changed_since(p@, cfg@.install_root, file@, bytes(*content)));
        if modified {
            let name = match path::file_name(file) {
                Some(n) => n,
                None => String::new(),
            };
            let saved = path::with_file_name(file, &text::join2(&name, ".lkpmsave"));
            assert(saved@ == saved_path(file@)) by {
                if path::file_name_of(file@) is None {
                    assert(name@ =~= seq![]);
                }
            }
            let said = text::join4(
                file,
                " was modified locally! Kept saved as ",
                &saved,
                ".",
            );
            return FileFate::Save(saved, said);
        }
    }
    FileFate::Remove
}

/// Deleting a package holds a preserved file against the checksum that
/// installing it took down: the file is saved exactly if it no longer has the
/// content that it was installed with, as far as checksums tell.
pub proof fn only_changed_files_are_saved(
    cfg: config::ConfigView,
    p: database::InstalledView,
    v: staging::InstallView,
    update_root: Seq<u8>,
    parts: Seq<Seq<char>>,
    installed: Seq<u8>,
    changed_before: bool,
    content: Seq<u8>,
)
    requires
        cfg.install_root.len() > 0,
        parts.len() > 0,
        forall|i: int| 0 <= i < parts.len() ==> path::is_plain(#[trigger] parts[i]),
        p.backups_hashes == staging::with_backup(
            v,
            rawpath::bytes_of(cfg.install_root),
            update_root,
            rawpath::bytes_of(text::joined(parts, "/"@)),
            hash::checksum_of(installed),
            changed_before,
        ).backups_hashes,
        path::holds_path(p.backups, path::joined(cfg.install_root, text::joined(parts, "/"@))),
        !is_hidden(path::joined(cfg.install_root, text::joined(parts, "/"@))),
    ensures
        ({
            let file = path::joined(cfg.install_root, text::joined(parts, "/"@));
            fate(cfg, p, file, true, Some(content)) == (if hash::checksum_of(content)
                != hash::checksum_of(installed) {
                FateView::Save(
                    saved_path(file),
                    file + " was modified locally! Kept saved as "@ + saved_path(file) + "."@,
                )
            } else {
                FateView::Remove
            })
        }),
{
    path::relative_below(cfg.install_root, parts);
    rawpath::text_is_shown(text::joined(parts, "/"@));
}

/// A file that the user has changed is never removed with its package.
pub proof fn changed_files_survive(
    cfg: config::ConfigView,
    p: database::InstalledView,
    file: Seq<char>,
    content: Seq<u8>,
)
    requires
        path::holds_path(p.backups, file),
        database::lookup(p.backups_hashes, hash_key(cfg.install_root, file)) matches Some(h) && h
            != hash::checksum_of(content),
    ensures
        !(fate(cfg, p, file, true, Some(content)) is Remove),
{
}

// ---------------------------------------------------------------------------
// A deletion

/// A step of deleting a package.
pub enum CleanupStep {
    /// Run this function of the install script; warn if it fails.
    Hook(String),
    /// Remove the package file if it is there.
    RemovePackageFile(String),
    /// Deal with this file of the package.
    File(String),
}

/// A step with its texts taken as sequences of characters.
pub enum CleanupView {
    Hook(Seq<char>),
    RemovePackageFile(Seq<char>),
    File(Seq<char>),
}

impl View for CleanupStep {
    type V = CleanupView;

    open spec fn view(&self) -> CleanupView {
        match self {
            CleanupStep::Hook(f) => CleanupView::Hook(f@),
            CleanupStep::RemovePackageFile(f) => CleanupView::RemovePackageFile(f@),
            CleanupStep::File(f) => CleanupView::File(f@),
        }
    }
}

/// The steps of a list.
pub open spec fn cleanup_steps(v: Seq<CleanupStep>) -> Seq<CleanupView> {
    v.map_values(|s: CleanupStep| s@)
}

/// How a package is deleted: its first function, its package file, its files
/// in order, its last function.
pub open spec fn cleanup(p: database::InstalledView) -> Seq<CleanupView> {
    seq![CleanupView::Hook("pre_remove"@), CleanupView::RemovePackageFile(p.package_path)]
        + p.files.map_values(|f: Seq<char>| CleanupView::File(f)) + seq![
        CleanupView::Hook("post_remove"@),
    ]
}

/// How a package is deleted. A step that fails ends the deletion, unless it
/// is a function.
pub fn cleanup_package_assets(p: &InstalledPackage) -> (r: Vec<CleanupStep>)
    ensures
        cleanup_steps(r@) == cleanup(p@),
{
    let ghost want = cleanup(p@);
    let mut out: Vec<CleanupStep> = Vec::new();
    out.push(CleanupStep::Hook("pre_remove".to_owned()));
    out.push(CleanupStep::RemovePackageFile(text::copy(&p.package_path)));
    assert(cleanup_steps(out@) =~= want.take(2));
    let mut i: usize = 0;
    while i < p.files.len()
        invariant
            i <= p.files@.len(),
            want == cleanup(p@),
            cleanup_steps(out@) == want.take(2 + i),
        decreases p.files@.len() - i,
    {
        let ghost before = out@;
        assert(want[2 + i] == CleanupView::File(p.files@[i as int]@));
        out.push(CleanupStep::File(text::copy(&p.files[i])));
        assert(cleanup_steps(out@) =~= cleanup_steps(before).push(want[2 + i]));
        i = i + 1;
        assert(cleanup_steps(out@) =~= want.take(2 + i));
    }
    let ghost before = out@;
    out.push(CleanupStep::Hook("post_remove".to_owned()));
    assert(cleanup_steps(out@) =~= cleanup_steps(before).push(CleanupView::Hook("post_remove"@)));
    assert(cleanup_steps(out@) =~= want);
    out
}

// ---------------------------------------------------------------------------
// Results

/// What came of deleting the files of a package.
pub enum CleanupOutcome {
    Cleaned,
    Failed(LkpmError),
    /// It is not known.
    Lost,
}

/// What is said of a package whose files were to be deleted.
pub open spec fn cleanup_status(outcome: CleanupOutcome) -> Seq<char> {
    match outcome {
        CleanupOutcome::Cleaned => "deleted"@,
        CleanupOutcome::Failed(e) => "error: "@ + error::error_message(e@),
        CleanupOutcome::Lost => "error: cleanup result missing"@,
    }
}

/// What is said of a package whose files were to be deleted.
pub fn status_of(outcome: &CleanupOutcome) -> (r: String)
    ensures
        r@ == cleanup_status(*outcome),
{
    match outcome {
        CleanupOutcome::Cleaned => "deleted".to_owned(),
        CleanupOutcome::Failed(e) => text::join2("error: ", &e.message()),
        CleanupOutcome::Lost => "error: cleanup result missing".to_owned(),
    }
}

/// The summary of a deletion.
pub fn summarize(
    cfg: &Config,
    record: &InstalledPackage,
    outcome: &CleanupOutcome,
    size: u64,
    duration: u64,
) -> (r: PackageSummary)
    ensures
        r@ == (ui::SummaryView {
            name: record@.name,
            version: record@.version,
            source: repo::source_label(repo::repos_of(cfg@), record@.source),
            size: size as nat,
            duration: duration as nat,
            checksum: record@.checksum,
            status: cleanup_status(*outcome),
        }),
{
    PackageSummary {
        name: text::copy(&record.name),
        version: text::copy(&record.version),
        source: repo::repo_source_label(cfg, &record.source),
        size,
        duration,
        checksum: text::copy(&record.checksum),
        status: status_of(outcome),
    }
}

/// The names of the packages whose files are deleted.
pub open spec fn cleaned(
    records: Seq<database::InstalledView>,
    outcomes: Seq<CleanupOutcome>,
) -> Seq<Seq<char>>
    decreases records.len(),
{
    if records.len() == 0 || outcomes.len() != records.len() {
        seq![]
    } else {
        let rest = cleaned(records.drop_last(), outcomes.drop_last());
        if outcomes.last() is Cleaned {
            rest.push(records.last().name)
        } else {
            rest
        }
    }
}

/// The names of the packages whose files are deleted.
pub fn cleaned_packages(records: &Vec<InstalledPackage>, outcomes: &Vec<CleanupOutcome>) -> (r: Vec<
    String,
>)
    requires
        records@.len() == outcomes@.len(),
    ensures
        text::texts(r@) == cleaned(database::packages_of(records@), outcomes@),
{
    let ghost all = database::packages_of(records@);
    let mut out: Vec<String> = Vec::new();
    let mut i: usize = 0;
    assert(text::texts(out@) =~= cleaned(all.take(0), outcomes@.take(0)));
    while i < records.len()
        invariant
            i <= records@.len(),
            records@.len() == outcomes@.len(),
            all == database::packages_of(records@),
            text::texts(out@) == cleaned(all.take(i as int), outcomes@.take(i as int)),
        decreases records@.len() - i,
    {
        assert(all.take(i + 1).drop_last() =~= all.take(i as int));
        assert(outcomes@.take(i + 1).drop_last() =~= outcomes@.take(i as int));
        assert(all[i as int] == records@[i as int]@);
        if let CleanupOutcome::Cleaned = outcomes[i] {
            let ghost before = out@;
            out.push(text::copy(&records[i].name));
            assert(text::texts(out@) =~= text::texts(before).push(all[i as int].name));
        }
        i = i + 1;
    }
    assert(all.take(all.len() as int) =~= all);
    assert(outcomes@.take(outcomes@.len() as int) =~= outcomes@);
    out
}

/// The database without a list of packages.
pub open spec fn without_all(
    table: Seq<database::InstalledView>,
    names: Seq<Seq<char>>,
) -> Seq<database::InstalledView>
    decreases names.len(),
{
    if names.len() == 0 {
        table
    } else {
        database::without(without_all(table, names.drop_last()), names.last())
    }
}

/// The names of a list that the database holds when their turn comes.
pub open spec fn present(
    table: Seq<database::InstalledView>,
    names: Seq<Seq<char>>,
) -> Seq<Seq<char>>
    decreases names.len(),
{
    if names.len() == 0 {
        seq![]
    } else {
        let rest = present(table, names.drop_last());
        if database::lookup_package(without_all(table, names.drop_last()), names.last()) is Some {
            rest.push(names.last())
        } else {
            rest
        }
    }
}

/// What is said of a package that the database does not hold.
pub open spec fn missing_record(name: Seq<char>) -> Seq<char> {
    "Error while deleting "@ + name + ": package record is missing!"@
}

/// Summaries in which the first one of a name says that its record is missing.
pub open spec fn with_missing(
    entries: Seq<ui::SummaryView>,
    name: Seq<char>,
    i: int,
) -> Seq<ui::SummaryView>
    decreases entries.len() - i,
{
    if i < 0 || i >= entries.len() {
        entries
    } else if entries[i].name == name {
        entries.update(i, ui::SummaryView { status: missing_record(name), ..entries[i] })
    } else {
        with_missing(entries, name, i + 1)
    }
}

/// Summaries once the records of a list of packages are taken out of the
/// database one after the other.
pub open spec fn statuses_after(
    entries: Seq<ui::SummaryView>,
    table: Seq<database::InstalledView>,
    names: Seq<Seq<char>>,
) -> Seq<ui::SummaryView>
    decreases names.len(),
{
    if names.len() == 0 {
        entries
    } else {
        let rest = statuses_after(entries, table, names.drop_last());
        if database::lookup_package(without_all(table, names.drop_last()), names.last()) is None {
            with_missing(rest, names.last(), 0)
        } else {
            rest
        }
    }
}

fn mark_missing(results: &mut Vec<PackageSummary>, name: &str)
    ensures
        ui::summaries(final(results)@) == with_missing(ui::summaries(old(results)@), name@, 0),
        final(results)@.len() == old(results)@.len(),
{
    let ghost all = ui::summaries(results@);
    let mut i: usize = 0;
    while i < results.len()
        invariant
            i <= results@.len(),
            results@ == old(results)@,
            all == ui::summaries(results@),
            with_missing(all, name@, 0) == with_missing(all, name@, i as int),
        decreases results@.len() - i,
    {
        assert(all[i as int] == results@[i as int]@);
        if text::same(&results[i].name, name) {
            let e = &results[i];
            let changed = PackageSummary {
                name: text::copy(&e.name),
                version: text::copy(&e.version),
                source: text::copy(&e.source),
                size: e.size,
                duration: e.duration,
                checksum: text::copy(&e.checksum),
                status: text::join3(
                    "Error while deleting ",
                    name,
                    ": package record is missing!",
                ),
            };
            results.set(i, changed);
            assert(ui::summaries(results@) =~= with_missing(all, name@, i as int));
            return ;
        }
        i = i + 1;
    }
}

/// Takes the packages whose files are deleted out of the database, and says
/// so of each one that it does not hold. Returns the names that were there.
pub fn delete_records(
    db: &mut Database,
    names: &Vec<String>,
    results: &mut Vec<PackageSummary>,
) -> (r: Result<Vec<String>, LkpmError>)
    requires
        old(db).wf(),
    ensures
        match r {
            Ok(gone) => text::texts(gone@) == present(old(db)@, text::texts(names@)),
            Err(_) => false,
        },
        final(db).wf(),
        final(db).db_file == old(db).db_file,
        final(db).repo_cache == old(db).repo_cache,
        final(db)@ == without_all(old(db)@, text::texts(names@)),
        ui::summaries(final(results)@) == statuses_after(
            ui::summaries(old(results)@),
            old(db)@,
            text::texts(names@),
        ),
{
    let ghost all = text::texts(names@);
    let ghost table = db@;
    let ghost start = ui::summaries(results@);
    let mut gone: Vec<String> = Vec::new();
    let mut i: usize = 0;
    assert(all.take(0) =~= seq![]);
    assert(text::texts(gone@) =~= seq![]);
    while i < names.len()
        invariant
            i <= names@.len(),
            all == text::texts(names@),
            db.wf(),
            db.db_file == old(db).db_file,
            db.repo_cache == old(db).repo_cache,
            db@ == without_all(table, all.take(i as int)),
            text::texts(gone@) == present(table, all.take(i as int)),
            ui::summaries(results@) == statuses_after(start, table, all.take(i as int)),
        decreases names@.len() - i,
    {
        assert(all.take(i + 1).drop_last() =~= all.take(i as int));
        assert(all[i as int] == names@[i as int]@);
        match db.remove(&names[i])? {
            Some(_) => {
                let ghost before = gone@;
                gone.push(text::copy(&names[i]));
                assert(text::texts(gone@) =~= text::texts(before).push(all[i as int]));
            },
            None => {
                mark_missing(results, &names[i]);
            },
        }
        i = i + 1;
    }
    assert(all.take(all.len() as int) =~= all);
    Ok(gone)
}

/// A package whose record was deleted is not installed any more, and the
/// packages that were not deleted are.
pub proof fn deleted_is_gone(
    table: Seq<database::InstalledView>,
    names: Seq<Seq<char>>,
    name: Seq<char>,
)
    requires
        database::distinct(table),
    ensures
        database::distinct(without_all(table, names)),
        names.contains(name) ==> database::lookup_package(without_all(table, names), name) is None,
        !names.contains(name) ==> database::lookup_package(without_all(table, names), name)
            == database::lookup_package(table, name),
    decreases names.len(),
{
    if names.len() > 0 {
        let init = names.drop_last();
        let last = names.last();
        deleted_is_gone(table, init, name);
        database::read_after_remove(without_all(table, init), last, name);
        assert(names[names.len() - 1] == last);
        if names.contains(name) && name != last {
            let i = choose|i: int| 0 <= i < names.len() && names[i] == name;
            assert(init[i] == name);
        }
        if init.contains(name) {
            let i = choose|i: int| 0 <= i < init.len() && init[i] == name;
            assert(names[i] == name);
        }
    }
}

// ---------------------------------------------------------------------------
// What a deletion comes to

/// Every file that the record of a package lists is dealt with, each by itself
/// and in order, after the first function of the package and before the last.
/// The package file goes too.
pub proof fn every_listed_file_is_dealt_with(p: database::InstalledView, k: int)
    requires
        0 <= k < p.files.len(),
    ensures
        cleanup(p).len() == p.files.len() + 3,
        cleanup(p)[0] == CleanupView::Hook("pre_remove"@),
        cleanup(p)[1] == CleanupView::RemovePackageFile(p.package_path),
        cleanup(p)[2 + k] == CleanupView::File(p.files[k]),
        cleanup(p).last() == CleanupView::Hook("post_remove"@),
{
}

/// A deletion deals with no file that the record does not list.
pub proof fn only_listed_files_are_dealt_with(p: database::InstalledView, i: int, file: Seq<char>)
    requires
        0 <= i < cleanup(p).len(),
        cleanup(p)[i] == CleanupView::File(file),
    ensures
        p.files.contains(file),
{
    if 2 <= i < 2 + p.files.len() {
        assert(cleanup(p)[i] == CleanupView::File(p.files[i - 2]));
    }
}

/// A file with a hidden name on its way is left where it is; any other file
/// goes, unless it has to be preserved, is there, and no longer has the
/// checksum that was taken down for it: then it is saved beside its place.
pub proof fn unchanged_files_go(
    cfg: config::ConfigView,
    p: database::InstalledView,
    file: Seq<char>,
    exists_now: bool,
    content: Option<Seq<u8>>,
)
    ensures
        is_hidden(file) ==> fate(cfg, p, file, exists_now, content) is Keep,
        !is_hidden(file) && (!exists_now || !path::holds_path(p.backups, file) || content is None)
            ==> fate(cfg, p, file, exists_now, content) is Remove,
        !is_hidden(file) && content is Some && database::lookup(
            p.backups_hashes,
            hash_key(cfg.install_root, file),
        ) == Some(hash::checksum_of(content->0)) ==> fate(cfg, p, file, exists_now, content)
            is Remove,
        !is_hidden(file) && database::lookup(
            p.backups_hashes,
            hash_key(cfg.install_root, file),
        ) is None ==> fate(cfg, p, file, exists_now, content) is Remove,
        !is_hidden(file) && exists_now && path::holds_path(p.backups, file) && content is Some
            && database::lookup(
            p.backups_hashes,
            hash_key(cfg.install_root, file),
        ) is Some && database::lookup(
            p.backups_hashes,
            hash_key(cfg.install_root, file),
        )->0 != hash::checksum_of(content->0) ==> (fate(
            cfg,
            p,
            file,
            exists_now,
            content,
        ) matches FateView::Save(to, _) && to == saved_path(file)),
{
}

/// A changed file is saved beside its place, under its name with an ending of
/// its own.
pub proof fn saved_files_stay_beside(up: Seq<char>, dir: Seq<char>, name: Seq<char>)
    requires
        path::is_plain(dir),
        path::is_plain(name) && name != ".."@,
    ensures
        saved_path(up + "/"@ + dir + "/"@ + name) == up + "/"@ + dir + "/"@ + name
            + ".lkpmsave"@,
{
    reveal_strlit(".");
    reveal_strlit(".lkpmsave");
    let new = name + ".lkpmsave"@;
    assert forall|i: int| 0 <= i < new.len() implies #[trigger] new[i] != '/' by {
        if i < name.len() {
            assert(new[i] == name[i]);
        }
    }
    assert(new.len() > 1);
    path::last_name_can_be_replaced(up, dir, name, new);
    assert(up + "/"@ + dir + "/"@ + new =~= up + "/"@ + dir + "/"@ + name + ".lkpmsave"@);
}

/// The records that are deleted are those of the packages that were cleaned
/// up, and of no other.
pub proof fn only_cleaned_packages_are_deleted(
    records: Seq<database::InstalledView>,
    outcomes: Seq<CleanupOutcome>,
    name: Seq<char>,
)
    requires
        records.len() == outcomes.len(),
    ensures
        cleaned(records, outcomes).contains(name) <==> exists|i: int|
            0 <= i < records.len() && (#[trigger] records[i]).name == name && outcomes[i]
                is Cleaned,
    decreases records.len(),
{
    if records.len() > 0 {
        let init = records.drop_last();
        let before = outcomes.drop_last();
        let rest = cleaned(init, before);
        let all = cleaned(records, outcomes);
        only_cleaned_packages_are_deleted(init, before, name);
        if rest.contains(name) {
            let k = choose|k: int| 0 <= k < rest.len() && rest[k] == name;
            assert(all[k] == name);
            let i = choose|i: int|
                0 <= i < init.len() && (#[trigger] init[i]).name == name && before[i] is Cleaned;
            assert(records[i] == init[i]);
            assert(outcomes[i] == before[i]);
        }
        if outcomes.last() is Cleaned {
            assert(all[rest.len() as int] == records.last().name);
            assert(records[records.len() - 1] == records.last());
        }
        if all.contains(name) {
            let k = choose|k: int| 0 <= k < all.len() && all[k] == name;
            if k < rest.len() {
                assert(rest[k] == name);
            } else {
                assert(records[records.len() - 1].name == name);
                assert(outcomes[records.len() - 1] == outcomes.last());
            }
        }
        if exists|i: int|
            0 <= i < records.len() && (#[trigger] records[i]).name == name && outcomes[i]
                is Cleaned {
            let i = choose|i: int|
                0 <= i < records.len() && (#[trigger] records[i]).name == name && outcomes[i]
                    is Cleaned;
            if i < init.len() {
                assert(init[i] == records[i]);
                assert(before[i] == outcomes[i]);
            }
        }
    }
}

/// A name that is deleted once, and has a record, is one that is gone.
pub proof fn records_that_were_there_are_gone(
    table: Seq<database::InstalledView>,
    names: Seq<Seq<char>>,
    name: Seq<char>,
)
    requires
        database::distinct(table),
    ensures
        present(table, names).contains(name) <==> names.contains(name) && database::lookup_package(
            table,
            name,
        ) is Some,
    decreases names.len(),
{
    if names.len() > 0 {
        let init = names.drop_last();
        let rest = present(table, init);
        let all = present(table, names);
        records_that_were_there_are_gone(table, init, name);
        deleted_is_gone(table, init, names.last());
        deleted_is_gone(table, init, name);
        assert(names[names.len() - 1] == names.last());
        if rest.contains(name) {
            let k = choose|k: int| 0 <= k < rest.len() && rest[k] == name;
            assert(all[k] == name);
            let i = choose|i: int| 0 <= i < init.len() && init[i] == name;
            assert(names[i] == name);
        }
        if names.contains(name) && !init.contains(name) {
            let i = choose|i: int| 0 <= i < names.len() && names[i] == name;
            if i < init.len() {
                assert(init[i] == name);
            }
            if database::lookup_package(table, name) is Some {
                assert(all[rest.len() as int] == name);
            }
        }
        if all.contains(name) {
            let k = choose|k: int| 0 <= k < all.len() && all[k] == name;
            if k < rest.len() {
                assert(rest[k] == name);
            }
        }
    }
}

/// A file is hidden by a name that begins with a dot, wherever on its way that
/// name stands; a name that leads up hides nothing.
pub proof fn a_leading_dot_hides(dir: Seq<char>, name: Seq<char>)
    requires
        path::is_plain(name),
    ensures
        is_hidden(dir + "/"@ + name) <==> is_hidden(dir) || (name[0] == '.' && name != ".."@),
{
    reveal_strlit(".");
    let p = dir + "/"@ + name;
    path::names_with_one(dir, name);
    let n = path::names(dir).len() as int;
    assert(path::names(p)[n] == name);
    assert(name.take(1) =~= "."@ <==> name[0] == '.') by {
        if name[0] == '.' {
            assert(name.take(1) =~= "."@);
        } else {
            assert(name.take(1)[0] != "."@[0]);
        }
    }
    if is_hidden(dir) {
        let i = choose|i: int|
            {
                &&& 0 <= i < path::names(dir).len()
                &&& text::has_prefix(#[trigger] path::names(dir)[i], "."@)
                &&& path::names(dir)[i] != "."@
                &&& path::names(dir)[i] != ".."@
            };
        assert(path::names(p)[i] == path::names(dir)[i]);
    }
    if is_hidden(p) {
        let i = choose|i: int|
            {
                &&& 0 <= i < path::names(p).len()
                &&& text::has_prefix(#[trigger] path::names(p)[i], "."@)
                &&& path::names(p)[i] != "."@
                &&& path::names(p)[i] != ".."@
            };
        if i < n {
            assert(path::names(p)[i] == path::names(dir)[i]);
        }
    }
}

/// A package whose record is missing is told so in its own entry, the first
/// that bears its name, and no other entry changes.
pub proof fn a_missing_record_is_told(entries: Seq<ui::SummaryView>, name: Seq<char>, i: int, k: int)
    requires
        0 <= i <= entries.len(),
        forall|j: int| 0 <= j < i ==> (#[trigger] entries[j]).name != name,
        i < entries.len() ==> entries[i].name == name,
        0 <= k < entries.len(),
    ensures
        ({
            let now = with_missing(entries, name, 0);
            &&& now.len() == entries.len()
            &&& k != i ==> now[k] == entries[k]
            &&& i < entries.len() ==> now[i] == (ui::SummaryView {
                status: "Error while deleting "@ + name + ": package record is missing!"@,
                ..entries[i]
            })
        }),
{
    missing_from(entries, name, 0, i);
}

proof fn missing_from(entries: Seq<ui::SummaryView>, name: Seq<char>, from: int, i: int)
    requires
        0 <= from <= i <= entries.len(),
        forall|j: int| 0 <= j < i ==> (#[trigger] entries[j]).name != name,
    ensures
        with_missing(entries, name, from) == with_missing(entries, name, i),
    decreases i - from,
{
    if from < i {
        assert(entries[from].name != name);
        missing_from(entries, name, from + 1, i);
    }
}

/// Where every deleted package has a record, each of them once, the entries
/// stay as they are.
pub proof fn found_records_are_not_told(
    entries: Seq<ui::SummaryView>,
    table: Seq<database::InstalledView>,
    names: Seq<Seq<char>>,
)
    requires
        database::distinct(table),
        names.no_duplicates(),
        forall|i: int|
            0 <= i < names.len() ==> database::lookup_package(table, #[trigger] names[i]) is Some,
    ensures
        statuses_after(entries, table, names) == entries,
    decreases names.len(),
{
    if names.len() > 0 {
        let init = names.drop_last();
        let n = names.len() - 1;
        assert(names[n] == names.last());
        assert forall|i: int| 0 <= i < init.len() implies database::lookup_package(
            table,
            #[trigger] init[i],
        ) is Some by {
            assert(init[i] == names[i]);
        }
        assert(init.no_duplicates());
        found_records_are_not_told(entries, table, init);
        assert(!init.contains(names.last())) by {
            if init.contains(names.last()) {
                let i = choose|i: int| 0 <= i < init.len() && init[i] == names.last();
                assert(names[i] == names[n]);
            }
        }
        deleted_is_gone(table, init, names.last());
    }
}

/// A deletion counts as a success exactly if the package was cleaned up.
pub proof fn clean_deletions_count(outcome: CleanupOutcome)
    ensures
        ui::is_success(cleanup_status(outcome)) <==> outcome is Cleaned,
{
    reveal_strlit("installed");
    reveal_strlit("updated");
    reveal_strlit("deleted");
    reveal_strlit("error: ");
    reveal_strlit("error: cleanup result missing");
    let s = cleanup_status(outcome);
    if !(outcome is Cleaned) {
        assert(s[0] == 'e');
        assert("installed"@[0] == 'i');
        assert("updated"@[0] == 'u');
        assert("deleted"@[0] == 'd');
    }
}

} // verus!
