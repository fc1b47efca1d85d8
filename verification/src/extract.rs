//! Packages whose files have been put in place, and how that is undone.
use vstd::prelude::*;

use crate::cli;
use crate::config;
use crate::config::Config;
use crate::database;
use crate::database::Database;
use crate::database::InstalledPackage;
use crate::database::PackageRow;
use crate::error;
use crate::error::LkpmError;
use crate::path;
use crate::pkg_utils;
use crate::pkg_utils::PackageMetadata;
use crate::rawpath;
use crate::staging;
use crate::staging::BackupsAwareInstall;
use crate::text;

verus! {

// ---------------------------------------------------------------------------
// Hooks

/// A function of an install script, with its arguments.
pub struct HookCall {
    pub function: String,
    pub args: Vec<String>,
}

/// A function of an install script, with its texts taken as sequences of characters.
pub struct HookCallView {
    pub function: Seq<char>,
    pub args: Seq<Seq<char>>,
}

impl View for HookCall {
    type V = HookCallView;

    open spec fn view(&self) -> HookCallView {
        HookCallView { function: self.function@, args: text::texts(self.args@) }
    }
}

/// The function for a change to a version: one for a first installation, and
/// another, which is told the old version too, for an upgrade.
pub open spec fn hook_for(
    install: Seq<char>,
    upgrade: Seq<char>,
    version: Seq<char>,
    previous: Option<Seq<char>>,
) -> HookCallView {
    match previous {
        Some(old_version) => HookCallView { function: upgrade, args: seq![version, old_version] },
        None => HookCallView { function: install, args: seq![version] },
    }
}

fn make_hook(install: &str, upgrade: &str, version: &str, previous: &Option<String>) -> (r: HookCall)
    ensures
        r@ == hook_for(install@, upgrade@, version@, cli::opt_text(*previous)),
{
    let mut args: Vec<String> = Vec::new();
    args.push(version.to_owned());
    match previous {
        Some(old_version) => {
            args.push(text::copy(old_version));
            assert(text::texts(args@) =~= seq![version@, old_version@]);
            HookCall { function: upgrade.to_owned(), args }
        },
        None => {
            assert(text::texts(args@) =~= seq![version@]);
            HookCall { function: install.to_owned(), args }
        },
    }
}

/// The version of an optional package.
pub open spec fn version_of(p: Option<database::InstalledView>) -> Option<Seq<char>> {
    match p {
        Some(p) => Some(p.version),
        None => None,
    }
}

/// An optional package with its texts taken as sequences of characters.
pub open spec fn opt_package(p: Option<InstalledPackage>) -> Option<database::InstalledView> {
    match p {
        Some(p) => Some(p@),
        None => None,
    }
}

fn previous_version(previous: &Option<InstalledPackage>) -> (r: Option<String>)
    ensures
        cli::opt_text(r) == version_of(opt_package(*previous)),
{
    match previous {
        Some(p) => Some(text::copy(&p.version)),
        None => None,
    }
}

/// The function that runs before the files of a package are put in place.
pub open spec fn pre_hook_of(
    metadata: pkg_utils::MetadataView,
    previous: Option<database::InstalledView>,
) -> HookCallView {
    hook_for("pre_install"@, "pre_upgrade"@, metadata.version, version_of(previous))
}

/// The function that runs before the files of a package are put in place.
pub fn pre_hook(metadata: &PackageMetadata, previous: &Option<InstalledPackage>) -> (r: HookCall)
    ensures
        r@ == pre_hook_of(metadata@, opt_package(*previous)),
{
    make_hook("pre_install", "pre_upgrade", &metadata.version, &previous_version(previous))
}

/// The function that runs once every package of a batch is in place.
pub open spec fn post_hook_of(e: ExtractedView) -> HookCallView {
    hook_for("post_install"@, "post_upgrade"@, e.metadata.version, version_of(e.previous))
}

/// The function that runs once every package of a batch is in place.
pub fn post_hook(extracted: &ExtractedPackage) -> (r: HookCall)
    ensures
        r@ == post_hook_of(extracted@),
{
    make_hook(
        "post_install",
        "post_upgrade",
        &extracted.metadata.version,
        &previous_version(&extracted.previous),
    )
}

/// The function that runs before or after a package is deleted.
pub fn removal_hook(function: &str, record: &InstalledPackage) -> (r: HookCall)
    ensures
        r@ == (HookCallView { function: function@, args: seq![record@.version] }),
{
    let r = make_hook(function, function, &record.version, &None);
    r
}

/// What is said of a function that failed for a package.
pub open spec fn hook_failed_for(
    function: Seq<char>,
    package: Seq<char>,
    reason: Seq<char>,
) -> Seq<char> {
    function + " hook failed for "@ + package + ": "@ + reason
}

/// What is said of a function that failed for a package.
pub fn hook_failure_notice(function: &str, package: &str, reason: &LkpmError) -> (r: String)
    ensures
        r@ == hook_failed_for(function@, package@, error::error_message(reason@)),
{
    text::join5(function, " hook failed for ", package, ": ", &reason.message())
}

/// A package is not extracted if the function before it fails.
pub fn pre_hook_error(function: &str, package: &str, reason: &LkpmError) -> (r: LkpmError)
    ensures
        r@ == error::ErrorView::Other(
            hook_failed_for(function@, package@, error::error_message(reason@)),
        ),
{
    LkpmError::Other(hook_failure_notice(function, package, reason))
}

/// Why a package that is in place gets a warning.
pub fn post_hook_reason(function: &str, reason: &LkpmError) -> (r: String)
    ensures
        r@ == function@ + " hook failed: "@ + error::error_message(reason@),
{
    text::join3(function, " hook failed: ", &reason.message())
}

/// Why a package that is in place gets a warning, given what came of its last
/// function: it gets none if that succeeded.
pub fn post_hook_failure(extracted: &ExtractedPackage, outcome: &Result<(), LkpmError>) -> (r:
    Option<String>)
    ensures
        cli::opt_text(r) == (match *outcome {
            Ok(_) => None,
            Err(e) => Some(
                post_hook_of(extracted@).function + " hook failed: "@ + error::error_message(e@),
            ),
        }),
{
    match outcome {
        Ok(_) => None,
        Err(e) => Some(post_hook_reason(&post_hook(extracted).function, e)),
    }
}

/// The copies of the previous version that are no longer needed, given why
/// the last function of the package failed if it did: after a failure they
/// are kept.
pub fn freed_backup(extracted: &ExtractedPackage, failure: &Option<String>) -> (r: Option<String>)
    ensures
        cli::opt_text(r) == (match *failure {
            Some(_) => None,
            None => extracted@.backup_dir,
        }),
{
    match failure {
        Some(_) => None,
        None => cli::copy_opt(&extracted.backup_dir),
    }
}

// ---------------------------------------------------------------------------
// Extracted packages

/// A package whose files are in place: what it takes to register it, to run
/// its last function and to undo it.
pub struct ExtractedPackage {
    pub metadata: PackageMetadata,
    pub installed_files: Vec<String>,
    pub backups_paths: Vec<String>,
    pub backups_hashes: Vec<(String, String)>,
    pub install_script: Option<String>,
    pub previous: Option<InstalledPackage>,
    /// Where new versions of files that the user has changed were put.
    pub preserved_as_new: Vec<String>,
    /// Where the files of the previous version are kept.
    pub backup_dir: Option<String>,
}

/// An extracted package with its texts taken as sequences of characters.
pub struct ExtractedView {
    pub metadata: pkg_utils::MetadataView,
    pub installed_files: Seq<Seq<char>>,
    pub backups_paths: Seq<Seq<char>>,
    pub backups_hashes: Seq<(Seq<char>, Seq<char>)>,
    pub install_script: Option<Seq<char>>,
    pub previous: Option<database::InstalledView>,
    pub preserved_as_new: Seq<Seq<char>>,
    pub backup_dir: Option<Seq<char>>,
}

impl View for ExtractedPackage {
    type V = ExtractedView;

    open spec fn view(&self) -> ExtractedView {
        ExtractedView {
            metadata: self.metadata@,
            installed_files: text::texts(self.installed_files@),
            backups_paths: text::texts(self.backups_paths@),
            backups_hashes: database::pair_texts(self.backups_hashes@),
            install_script: cli::opt_text(self.install_script),
            previous: opt_package(self.previous),
            preserved_as_new: text::texts(self.preserved_as_new@),
            backup_dir: cli::opt_text(self.backup_dir),
        }
    }
}

/// The places of files below a root.
pub open spec fn below_root(root: Seq<char>, files: Seq<Seq<char>>) -> Seq<Seq<char>> {
    files.map_values(|f: Seq<char>| path::joined(root, f))
}

fn place_below(root: &str, files: &Vec<String>) -> (r: Vec<String>)
    ensures
        text::texts(r@) == below_root(root@, text::texts(files@)),
{
    let ghost want = below_root(root@, text::texts(files@));
    let mut out: Vec<String> = Vec::new();
    let mut i: usize = 0;
    while i < files.len()
        invariant
            i <= files@.len(),
            want == below_root(root@, text::texts(files@)),
            text::texts(out@) == want.take(i as int),
        decreases files@.len() - i,
    {
        let ghost before = out@;
        out.push(path::join(root, &files[i]));
        assert(text::texts(out@) =~= text::texts(before).push(want[i as int]));
        i = i + 1;
        assert(text::texts(out@) =~= want.take(i as int));
    }
    assert(want.take(files@.len() as int) =~= want);
    out
}

/// Whether a package can be registered once its files are in place: it can if
/// the paths of its files are text.
pub open spec fn is_registrable(result: staging::InstallView) -> bool {
    rawpath::are_text(result.installed_files) && rawpath::are_text(result.update_backups)
}

/// A package whose files have just been put in place; why it cannot be
/// registered if it cannot.
pub fn extract_package(
    cfg: &Config,
    metadata: &PackageMetadata,
    install_script: Option<String>,
    previous: Option<InstalledPackage>,
    result: BackupsAwareInstall,
    backup_dir: Option<String>,
) -> (r: Result<ExtractedPackage, LkpmError>)
    ensures
        match r {
            Ok(e) => is_registrable(result@) && e@ == (ExtractedView {
                metadata: metadata@,
                installed_files: rawpath::decoded(result@.installed_files),
                backups_paths: below_root(cfg@.install_root, metadata@.backups),
                backups_hashes: result@.backups_hashes,
                install_script: cli::opt_text(install_script),
                previous: opt_package(previous),
                preserved_as_new: rawpath::decoded(result@.update_backups),
                backup_dir: cli::opt_text(backup_dir),
            }),
            Err(e) => !is_registrable(result@) && e@ == error::ErrorView::Other(
                "lkpm-database.db serialize files error: path contains invalid UTF-8 characters"@,
            ),
        },
{
    match (rawpath::text_paths(&result.installed_files), rawpath::text_paths(
        &result.update_backups,
    )) {
        (Some(installed_files), Some(preserved_as_new)) => Ok(
            ExtractedPackage {
                metadata: metadata.copy(),
                installed_files,
                backups_paths: place_below(&cfg.install_root, &metadata.backups),
                backups_hashes: result.backups_hashes,
                install_script,
                previous,
                preserved_as_new,
                backup_dir,
            },
        ),
        _ => Err(
            error::other(
                "lkpm-database.db serialize files error: path contains invalid UTF-8 characters",
            ),
        ),
    }
}

/// What has been done of the extraction of a package, and what came of it.
pub struct Extraction {
    /// The function that runs before the files are put in place.
    pub hook: Option<Result<(), LkpmError>>,
    /// Copying the files of the previous version; gives where the copies are.
    pub backup: Option<Result<String, LkpmError>>,
    /// Putting the files in place.
    pub install: Option<Result<BackupsAwareInstall, LkpmError>>,
}

/// What has been done of an extraction, with its errors taken by their views.
pub struct ExtractionView {
    pub hook: Option<Result<(), error::ErrorView>>,
    pub backup: Option<Result<(), error::ErrorView>>,
    pub install: Option<Result<(), error::ErrorView>>,
}

impl View for Extraction {
    type V = ExtractionView;

    open spec fn view(&self) -> ExtractionView {
        ExtractionView {
            hook: error::opt_outcome(self.hook),
            backup: error::opt_outcome(self.backup),
            install: error::opt_outcome(self.install),
        }
    }
}

/// What an extraction has to do next.
pub enum ExtractionStep {
    /// Run this function of the install script.
    RunHook(HookCall),
    /// Copy the files of the previous version.
    BackUp,
    /// Put the files in place, holding those to preserve against these checksums.
    Install(Vec<(String, String)>),
    /// The package is extracted.
    Finish,
    /// The package is not extracted.
    Fail(LkpmError),
}

/// What an extraction has to do next, with its texts taken as sequences of characters.
pub enum ExtractionStepView {
    RunHook(HookCallView),
    BackUp,
    Install(Seq<(Seq<char>, Seq<char>)>),
    Finish,
    Fail(error::ErrorView),
}

impl View for ExtractionStep {
    type V = ExtractionStepView;

    open spec fn view(&self) -> ExtractionStepView {
        match self {
            ExtractionStep::RunHook(h) => ExtractionStepView::RunHook(h@),
            ExtractionStep::BackUp => ExtractionStepView::BackUp,
            ExtractionStep::Install(h) => ExtractionStepView::Install(database::pair_texts(h@)),
            ExtractionStep::Finish => ExtractionStepView::Finish,
            ExtractionStep::Fail(e) => ExtractionStepView::Fail(e@),
        }
    }
}

/// What putting the files in place comes to.
pub open spec fn install_step(
    previous: Option<database::InstalledView>,
    install: Option<Result<(), error::ErrorView>>,
) -> ExtractionStepView {
    match install {
        None => ExtractionStepView::Install(
            match previous {
                Some(p) => p.backups_hashes,
                None => seq![],
            },
        ),
        Some(Err(e)) => ExtractionStepView::Fail(e),
        Some(Ok(_)) => ExtractionStepView::Finish,
    }
}

/// What an extraction has to do next: the function comes first, then the
/// copies of the previous version if there is one, then the files. Whatever
/// fails ends it.
pub open spec fn extraction_step(
    metadata: pkg_utils::MetadataView,
    previous: Option<database::InstalledView>,
    done: ExtractionView,
) -> ExtractionStepView {
    match done.hook {
        None => ExtractionStepView::RunHook(pre_hook_of(metadata, previous)),
        Some(Err(e)) => ExtractionStepView::Fail(
            error::ErrorView::Other(
                hook_failed_for(
                    pre_hook_of(metadata, previous).function,
                    metadata.name,
                    error::error_message(e),
                ),
            ),
        ),
        Some(Ok(_)) => if previous is None {
            install_step(previous, done.install)
        } else {
            match done.backup {
                None => ExtractionStepView::BackUp,
                Some(Err(e)) => ExtractionStepView::Fail(e),
                Some(Ok(_)) => install_step(previous, done.install),
            }
        },
    }
}

/// What the extraction of a package has to do next.
pub fn next_extraction_step(
    metadata: &PackageMetadata,
    previous: &Option<InstalledPackage>,
    done: &Extraction,
) -> (r: ExtractionStep)
    ensures
        r@ == extraction_step(metadata@, opt_package(*previous), done@),
{
    match &done.hook {
        None => {
            return ExtractionStep::RunHook(pre_hook(metadata, previous));
        },
        Some(Err(e)) => {
            let call = pre_hook(metadata, previous);
            return ExtractionStep::Fail(pre_hook_error(&call.function, &metadata.name, e));
        },
        Some(Ok(_)) => {},
    }
    let hashes = match previous {
        None => Vec::new(),
        Some(p) => {
            match &done.backup {
                None => {
                    return ExtractionStep::BackUp;
                },
                Some(Err(e)) => {
                    return ExtractionStep::Fail(e.copy());
                },
                Some(Ok(_)) => {},
            }
            database::copy_pairs(&p.backups_hashes)
        },
    };
    match &done.install {
        None => {
            assert(previous is None ==> database::pair_texts(hashes@) =~= seq![]);
            ExtractionStep::Install(hashes)
        },
        Some(Err(e)) => ExtractionStep::Fail(e.copy()),
        Some(Ok(_)) => ExtractionStep::Finish,
    }
}

/// Whether a piece of work has been done with success.
pub open spec fn succeeded(outcome: Option<Result<(), error::ErrorView>>) -> bool {
    outcome matches Some(r) && r is Ok
}

/// No file is touched before the package's first function has succeeded, and
/// none of an upgrade before the previous version has been copied. No other
/// function is run.
pub proof fn files_wait_for_the_hook(
    metadata: pkg_utils::MetadataView,
    previous: Option<database::InstalledView>,
    done: ExtractionView,
)
    ensures
        ({
            let next = extraction_step(metadata, previous, done);
            &&& next is BackUp || next is Install || next is Finish ==> succeeded(done.hook)
            &&& next is Install || next is Finish ==> previous is None || succeeded(done.backup)
            &&& next matches ExtractionStepView::RunHook(h) ==> h.function == "pre_install"@
                || h.function == "pre_upgrade"@
        }),
{
}

/// A package whose first function fails is not extracted, whatever else has
/// happened.
pub proof fn a_failed_hook_ends_it(
    metadata: pkg_utils::MetadataView,
    previous: Option<database::InstalledView>,
    done: ExtractionView,
    e: error::ErrorView,
)
    requires
        done.hook == Some(Err::<(), error::ErrorView>(e)),
    ensures
        extraction_step(metadata, previous, done) == ExtractionStepView::Fail(
            error::ErrorView::Other(
                hook_failed_for(
                    pre_hook_of(metadata, previous).function,
                    metadata.name,
                    error::error_message(e),
                ),
            ),
        ),
{
}

/// What is said of a file that the user has changed, when its new version is put aside.
pub fn preserved_notice(new_file: &[u8]) -> (r: String)
    ensures
        ({
            let shown = rawpath::shown_as(new_file@);
            r@ == path::without_extension(shown)
                + " was modified locally! New package version saved to "@ + shown + "."@
        }),
{
    let shown = rawpath::shown(new_file);
    text::join4(
        &path::strip_extension(&shown),
        " was modified locally! New package version saved to ",
        &shown,
        ".",
    )
}

// ---------------------------------------------------------------------------
// Backups

/// Where the files of a package are kept while it is upgraded.
pub fn backup_root(cfg: &Config, previous: &InstalledPackage) -> (r: String)
    ensures
        r@ == path::joined(
            path::joined(cfg@.cache_path, "pkg-backup"@),
            previous@.name + "-"@ + previous@.version,
        ),
{
    path::join(&cfg.pkg_backup_dir(), &text::join3(&previous.name, "-", &previous.version))
}

/// Where the copy of a file is kept: at the same place below the backup as
/// the file has below the root.
pub open spec fn copy_of(backup: Seq<char>, root: Seq<char>, file: Seq<char>) -> Seq<char> {
    path::joined(
        backup,
        match path::relative_to(file, root) {
            Some(rel) => rel,
            None => file,
        },
    )
}

/// The files of a package, each with the place where its copy is kept.
pub open spec fn copies(
    backup: Seq<char>,
    root: Seq<char>,
    files: Seq<Seq<char>>,
) -> Seq<(Seq<char>, Seq<char>)> {
    files.map_values(|f: Seq<char>| (f, copy_of(backup, root, f)))
}

/// The files of a package, each with the place where its copy is kept. Before
/// an upgrade the files are copied there; a rollback copies them back.
pub fn backup_previous_files(cfg: &Config, backup: &str, previous: &InstalledPackage) -> (r: Vec<
    (String, String),
>)
    ensures
        database::pair_texts(r@) == copies(backup@, cfg@.install_root, previous@.files),
{
    let ghost want = copies(backup@, cfg@.install_root, previous@.files);
    let mut out: Vec<(String, String)> = Vec::new();
    let mut i: usize = 0;
    assert(database::pair_texts(out@) =~= want.take(0));
    while i < previous.files.len()
        invariant
            i <= previous.files@.len(),
            want == copies(backup@, cfg@.install_root, previous@.files),
            database::pair_texts(out@) == want.take(i as int),
        decreases previous.files@.len() - i,
    {
        let ghost before = out@;
        let file = &previous.files[i];
        assert(previous@.files[i as int] == file@);
        let place = match path::strip_prefix(file, &cfg.install_root) {
            Some(rel) => path::join(backup, &rel),
            None => path::join(backup, file),
        };
        out.push((text::copy(file), place));
        assert(database::pair_texts(out@) =~= database::pair_texts(before).push(want[i as int]));
        i = i + 1;
        assert(database::pair_texts(out@) =~= want.take(i as int));
    }
    assert(want.take(want.len() as int) =~= want);
    out
}

/// What stands at a place.
#[derive(PartialEq, Eq, Structural, Clone, Copy, Debug)]
pub enum FileKind {
    Link,
    File,
    /// A directory, a device, a pipe or a socket.
    Special,
    Missing,
}

/// How what stands at one place is put at another.
#[derive(PartialEq, Eq, Structural, Clone, Copy, Debug)]
pub enum CopyAction {
    /// A link with the same target is made, where nothing is.
    Link,
    /// The content is copied, where nothing is.
    Copy,
    /// What is at the other place goes first, and a link is made in its stead.
    ReplaceByLink,
    /// What is at the other place goes first, and the content takes its stead.
    ReplaceByCopy,
    /// Nothing is done.
    Skip,
}

/// How a file of the previous version is copied. What is neither a link nor a
/// file cannot be kept.
pub fn backup_action(kind: FileKind) -> (r: CopyAction)
    ensures
        r == (match kind {
            FileKind::Link => CopyAction::Link,
            FileKind::File => CopyAction::Copy,
            _ => CopyAction::Skip,
        }),
{
    match kind {
        FileKind::Link => CopyAction::Link,
        FileKind::File => CopyAction::Copy,
        _ => CopyAction::Skip,
    }
}

/// How a copy is put back, by what the copy is. What the new version has left
/// there goes first, so that nothing is written through a link of it.
pub fn restore_action(copy: FileKind) -> (r: CopyAction)
    ensures
        r == (match copy {
            FileKind::Link => CopyAction::ReplaceByLink,
            FileKind::File => CopyAction::ReplaceByCopy,
            _ => CopyAction::Skip,
        }),
{
    match copy {
        FileKind::Link => CopyAction::ReplaceByLink,
        FileKind::File => CopyAction::ReplaceByCopy,
        _ => CopyAction::Skip,
    }
}

// ---------------------------------------------------------------------------
// Rollback

/// A step of undoing an extraction.
pub enum RollbackStep {
    /// Warn of this.
    Warn(String),
    /// Remove the file if it is there, whatever comes of it.
    RemoveQuietly(String),
    /// Remove the file if it is there; warn of this and the reason if that fails.
    Remove(String, String),
    /// Put the copy back in the place of the file. The text is warned of, with
    /// the reason, if that fails.
    Restore(String, String, String),
    /// Put the previous version back into the database; warn of this and the
    /// reason if that fails.
    RegisterPrevious(String),
    /// Take the package out of the database; warn of this and the reason if
    /// that fails.
    RemoveRecord(String, String),
    /// Remove the directory; warn of this and the reason if that fails.
    RemoveBackup(String, String),
}

/// A step with its texts taken as sequences of characters.
pub enum StepView {
    Warn(Seq<char>),
    RemoveQuietly(Seq<char>),
    Remove(Seq<char>, Seq<char>),
    Restore(Seq<char>, Seq<char>, Seq<char>),
    RegisterPrevious(Seq<char>),
    RemoveRecord(Seq<char>, Seq<char>),
    RemoveBackup(Seq<char>, Seq<char>),
}

impl View for RollbackStep {
    type V = StepView;

    open spec fn view(&self) -> StepView {
        match self {
            RollbackStep::Warn(m) => StepView::Warn(m@),
            RollbackStep::RemoveQuietly(f) => StepView::RemoveQuietly(f@),
            RollbackStep::Remove(f, m) => StepView::Remove(f@, m@),
            RollbackStep::Restore(c, f, m) => StepView::Restore(c@, f@, m@),
            RollbackStep::RegisterPrevious(m) => StepView::RegisterPrevious(m@),
            RollbackStep::RemoveRecord(n, m) => StepView::RemoveRecord(n@, m@),
            RollbackStep::RemoveBackup(d, m) => StepView::RemoveBackup(d@, m@),
        }
    }
}

/// The steps of a list.
pub open spec fn steps(v: Seq<RollbackStep>) -> Seq<StepView> {
    v.map_values(|s: RollbackStep| s@)
}

/// Removing files, whatever comes of it.
pub open spec fn quiet_removals(files: Seq<Seq<char>>) -> Seq<StepView> {
    files.map_values(|f: Seq<char>| StepView::RemoveQuietly(f))
}

/// Removing files of a package that are not among those to keep.
pub open spec fn removals(
    files: Seq<Seq<char>>,
    keep: Seq<Seq<char>>,
    what: Seq<char>,
    package: Seq<char>,
) -> Seq<StepView>
    decreases files.len(),
{
    if files.len() == 0 {
        seq![]
    } else {
        let rest = removals(files.drop_last(), keep, what, package);
        let file = files.last();
        if path::holds_path(keep, file) {
            rest
        } else {
            rest.push(
                StepView::Remove(
                    file,
                    "Failed to remove "@ + what + file + " while rolling back "@ + package + ": "@,
                ),
            )
        }
    }
}

/// Restoring the files of a package.
pub open spec fn restorations(
    pairs: Seq<(Seq<char>, Seq<char>)>,
    package: Seq<char>,
) -> Seq<StepView> {
    pairs.map_values(
        |p: (Seq<char>, Seq<char>)|
            StepView::Restore(
                p.1,
                p.0,
                "Failed to restore "@ + p.0 + " from backup while rolling back "@ + package
                    + ": "@,
            ),
    )
}

/// Taking a package out of the database.
pub open spec fn record_removal(package: Seq<char>) -> StepView {
    StepView::RemoveRecord(
        package,
        "Failed to remove "@ + package + " from the package database during rollback: "@,
    )
}

/// How an extraction is undone. New versions that were put aside go. An
/// upgrade gets its old files and its old record back, and what only the new
/// version had goes; a first installation goes with all its files.
pub open spec fn rollback(cfg: config::ConfigView, e: ExtractedView) -> Seq<StepView> {
    let name = e.metadata.name;
    let start = seq![
        StepView::Warn("Rolling back "@ + name + " ("@ + e.metadata.version + ")...."@),
    ] + quiet_removals(e.preserved_as_new);
    match (e.backup_dir, e.previous) {
        (Some(backup), Some(prev)) => start + restorations(
            copies(backup, cfg.install_root, prev.files),
            prev.name,
        ) + removals(e.installed_files, prev.files, "new file "@, name) + seq![
            StepView::RegisterPrevious(
                "Failed to restore "@ + name + " to "@ + prev.version
                    + " in the package database: "@,
            ),
            StepView::RemoveBackup(backup, "Failed to clean up backup for "@ + name + ": "@),
            StepView::Warn(name + " restored to "@ + prev.version + "."@),
        ],
        (None, Some(prev)) => start + quiet_removals(e.installed_files) + seq![
            record_removal(name),
            StepView::Warn(
                name + " was upgrading from "@ + prev.version
                    + " but no backup was found! Rollback removed its new files but it could not be restored to "@
                    + prev.version + "!"@,
            ),
        ],
        (_, None) => start + removals(e.installed_files, seq![], ""@, name) + seq![
            record_removal(name),
        ],
    }
}

fn push_step(out: &mut Vec<RollbackStep>, step: RollbackStep)
    ensures
        steps(final(out)@) == steps(old(out)@).push(step@),
{
    let ghost before = out@;
    let ghost sv = step@;
    out.push(step);
    assert(steps(out@) =~= steps(before).push(sv));
}

fn push_quiet(out: &mut Vec<RollbackStep>, files: &Vec<String>)
    ensures
        steps(final(out)@) == steps(old(out)@) + quiet_removals(text::texts(files@)),
{
    let ghost start = steps(out@);
    let ghost want = quiet_removals(text::texts(files@));
    let mut i: usize = 0;
    assert(start + want.take(0) =~= start);
    while i < files.len()
        invariant
            i <= files@.len(),
            want == quiet_removals(text::texts(files@)),
            steps(out@) == start + want.take(i as int),
        decreases files@.len() - i,
    {
        assert(want[i as int] == StepView::RemoveQuietly(files@[i as int]@));
        push_step(out, RollbackStep::RemoveQuietly(text::copy(&files[i])));
        assert((start + want.take(i as int)).push(want[i as int]) =~= start + want.take(i + 1));
        i = i + 1;
    }
    assert(want.take(want.len() as int) =~= want);
}

fn push_removals(
    out: &mut Vec<RollbackStep>,
    files: &Vec<String>,
    keep: &Vec<String>,
    what: &str,
    package: &str,
)
    ensures
        steps(final(out)@) == steps(old(out)@) + removals(
            text::texts(files@),
            text::texts(keep@),
            what@,
            package@,
        ),
{
    let ghost start = steps(out@);
    let ghost all = text::texts(files@);
    let ghost kept = text::texts(keep@);
    let mut i: usize = 0;
    assert(all.take(0) =~= seq![]);
    assert(start + removals(all.take(0), kept, what@, package@) =~= start);
    while i < files.len()
        invariant
            i <= files@.len(),
            all == text::texts(files@),
            kept == text::texts(keep@),
            steps(out@) == start + removals(all.take(i as int), kept, what@, package@),
        decreases files@.len() - i,
    {
        let ghost done = removals(all.take(i as int), kept, what@, package@);
        assert(all.take(i + 1).drop_last() =~= all.take(i as int));
        assert(all[i as int] == files@[i as int]@);
        if !path::list_holds_path(keep, &files[i]) {
            let step = RollbackStep::Remove(
                text::copy(&files[i]),
                text::join2(
                    &text::join5(
                        "Failed to remove ",
                        what,
                        &files[i],
                        " while rolling back ",
                        package,
                    ),
                    ": ",
                ),
            );
            let ghost sv = step@;
            push_step(out, step);
            assert((start + done).push(sv) =~= start + done.push(sv));
        }
        i = i + 1;
    }
    assert(all.take(all.len() as int) =~= all);
}

fn push_restorations(out: &mut Vec<RollbackStep>, pairs: &Vec<(String, String)>, package: &str)
    ensures
        steps(final(out)@) == steps(old(out)@) + restorations(
            database::pair_texts(pairs@),
            package@,
        ),
{
    let ghost start = steps(out@);
    let ghost want = restorations(database::pair_texts(pairs@), package@);
    let mut i: usize = 0;
    assert(start + want.take(0) =~= start);
    while i < pairs.len()
        invariant
            i <= pairs@.len(),
            want == restorations(database::pair_texts(pairs@), package@),
            steps(out@) == start + want.take(i as int),
        decreases pairs@.len() - i,
    {
        assert(database::pair_texts(pairs@)[i as int] == (pairs@[i as int].0@, pairs@[i as int].1@));
        push_step(
            out,
            RollbackStep::Restore(
                text::copy(&pairs[i].1),
                text::copy(&pairs[i].0),
                text::join5(
                    "Failed to restore ",
                    &pairs[i].0,
                    " from backup while rolling back ",
                    package,
                    ": ",
                ),
            ),
        );
        assert((start + want.take(i as int)).push(want[i as int]) =~= start + want.take(i + 1));
        i = i + 1;
    }
    assert(want.take(want.len() as int) =~= want);
}

fn remove_record(package: &str) -> (r: RollbackStep)
    ensures
        r@ == record_removal(package@),
{
    RollbackStep::RemoveRecord(
        package.to_owned(),
        text::join3(
            "Failed to remove ",
            package,
            " from the package database during rollback: ",
        ),
    )
}

/// How an extraction is undone.
pub fn rollback_extracted_package(cfg: &Config, extracted: &ExtractedPackage) -> (r: Vec<
    RollbackStep,
>)
    ensures
        steps(r@) == rollback(cfg@, extracted@),
{
    let name = &extracted.metadata.name;
    let mut out: Vec<RollbackStep> = Vec::new();
    push_step(
        &mut out,
        RollbackStep::Warn(
            text::join5("Rolling back ", name, " (", &extracted.metadata.version, ")...."),
        ),
    );
    push_quiet(&mut out, &extracted.preserved_as_new);
    let ghost start = steps(out@);
    assert(start =~= seq![
        StepView::Warn(
            "Rolling back "@ + name@ + " ("@ + extracted@.metadata.version + ")...."@,
        ),
    ] + quiet_removals(extracted@.preserved_as_new));
    match (&extracted.backup_dir, &extracted.previous) {
        (Some(backup), Some(prev)) => {
            let pairs = backup_previous_files(cfg, backup, prev);
            push_restorations(&mut out, &pairs, &prev.name);
            push_removals(&mut out, &extracted.installed_files, &prev.files, "new file ", name);
            let ghost before = steps(out@);
            push_step(
                &mut out,
                RollbackStep::RegisterPrevious(
                    text::join5(
                        "Failed to restore ",
                        name,
                        " to ",
                        &prev.version,
                        " in the package database: ",
                    ),
                ),
            );
            push_step(
                &mut out,
                RollbackStep::RemoveBackup(
                    text::copy(backup),
                    text::join3("Failed to clean up backup for ", name, ": "),
                ),
            );
            push_step(
                &mut out,
                RollbackStep::Warn(text::join4(name, " restored to ", &prev.version, ".")),
            );
            assert(steps(out@) =~= before + steps(out@).skip(before.len() as int));
        },
        (None, Some(prev)) => {
            push_quiet(&mut out, &extracted.installed_files);
            let ghost before = steps(out@);
            push_step(&mut out, remove_record(name));
            push_step(
                &mut out,
                RollbackStep::Warn(
                    text::join2(
                        &text::join5(
                            name,
                            " was upgrading from ",
                            &prev.version,
                            " but no backup was found! Rollback removed its new files but it could not be restored to ",
                            &prev.version,
                        ),
                        "!",
                    ),
                ),
            );
            assert(steps(out@) =~= before + steps(out@).skip(before.len() as int));
        },
        (_, None) => {
            let none: Vec<String> = Vec::new();
            assert(text::texts(none@) =~= seq![]);
            push_removals(&mut out, &extracted.installed_files, &none, "", name);
            let ghost before = steps(out@);
            push_step(&mut out, remove_record(name));
            assert(steps(out@) =~= before + seq![record_removal(name@)]);
        },
    }
    assert(steps(out@) =~= rollback(cfg@, extracted@));
    out
}

/// The database once an extraction that was registered is undone.
pub open spec fn rolled_back(
    table: Seq<database::InstalledView>,
    e: ExtractedView,
) -> Seq<database::InstalledView> {
    match (e.backup_dir, e.previous) {
        (Some(_), Some(prev)) => database::put(table, prev),
        _ => database::without(table, e.metadata.name),
    }
}

/// What is to be written to the database file.
pub enum TableChange {
    Write(PackageRow),
    Delete(String),
}

/// Undoes the registration of an extraction.
pub fn roll_back_table(db: &mut Database, extracted: &ExtractedPackage) -> (r: Result<
    TableChange,
    LkpmError,
>)
    requires
        old(db).wf(),
    ensures
        final(db).wf(),
        final(db).db_file == old(db).db_file,
        final(db).repo_cache == old(db).repo_cache,
        final(db)@ == rolled_back(old(db)@, extracted@),
        match (extracted@.backup_dir, extracted@.previous) {
            (Some(_), Some(prev)) => r matches Ok(TableChange::Write(row))
                && database::row_package(row) == prev,
            _ => r matches Ok(TableChange::Delete(name)) && name@ == extracted@.metadata.name,
        },
{
    match (&extracted.backup_dir, &extracted.previous) {
        (Some(_), Some(prev)) => match db.register(prev.copy()) {
            Ok(row) => Ok(TableChange::Write(row)),
            Err(e) => Err(e),
        },
        _ => match db.remove(&extracted.metadata.name) {
            Ok(_) => Ok(TableChange::Delete(text::copy(&extracted.metadata.name))),
            Err(e) => Err(e),
        },
    }
}

/// Undoing a first installation leaves the database as it was before.
pub proof fn fresh_install_undone(
    table: Seq<database::InstalledView>,
    registered: database::InstalledView,
    e: ExtractedView,
    name: Seq<char>,
)
    requires
        database::distinct(table),
        e.previous is None,
        registered.name == e.metadata.name,
        database::lookup_package(table, e.metadata.name) is None,
    ensures
        database::lookup_package(rolled_back(database::put(table, registered), e), name)
            == database::lookup_package(table, name),
{
    let now = database::put(table, registered);
    database::read_after_put(table, registered, name);
    database::read_after_put(table, registered, e.metadata.name);
    database::read_after_remove(now, e.metadata.name, name);
}

/// Undoing an upgrade leaves the database as it was before: every name gives
/// the package that it gave.
pub proof fn upgrade_undone(
    table: Seq<database::InstalledView>,
    registered: database::InstalledView,
    e: ExtractedView,
    name: Seq<char>,
)
    requires
        database::distinct(table),
        e.backup_dir is Some,
        e.previous matches Some(prev) && prev.name == registered.name && database::lookup_package(
            table,
            prev.name,
        ) == Some(prev),
    ensures
        database::lookup_package(rolled_back(database::put(table, registered), e), name)
            == database::lookup_package(table, name),
{
    let now = database::put(table, registered);
    database::read_after_put(table, registered, name);
    database::read_after_put(now, e.previous->0, name);
}

proof fn removals_spare(
    files: Seq<Seq<char>>,
    keep: Seq<Seq<char>>,
    what: Seq<char>,
    package: Seq<char>,
    i: int,
)
    requires
        0 <= i < removals(files, keep, what, package).len(),
    ensures
        removals(files, keep, what, package)[i] matches StepView::Remove(f, _) && !path::holds_path(
            keep,
            f,
        ),
    decreases files.len(),
{
    let rest = removals(files.drop_last(), keep, what, package);
    if i < rest.len() {
        removals_spare(files.drop_last(), keep, what, package, i);
    }
}

/// Undoing an upgrade removes no file that the previous version has, other
/// than new versions that were put aside.
pub proof fn rollback_spares_previous_files(
    cfg: config::ConfigView,
    e: ExtractedView,
    i: int,
    file: Seq<char>,
    said: Seq<char>,
)
    requires
        e.backup_dir is Some,
        e.previous is Some,
        0 <= i < rollback(cfg, e).len(),
        rollback(cfg, e)[i] == StepView::Remove(file, said),
    ensures
        !path::holds_path(e.previous->0.files, file),
{
    let prev = e.previous->0;
    let backup = e.backup_dir->0;
    let start = 1 + e.preserved_as_new.len();
    let restored = restorations(copies(backup, cfg.install_root, prev.files), prev.name);
    let gone = removals(e.installed_files, prev.files, "new file "@, e.metadata.name);
    let at = i - start - restored.len();
    if 0 <= at < gone.len() {
        assert(rollback(cfg, e)[i] == gone[at]);
        removals_spare(e.installed_files, prev.files, "new file "@, e.metadata.name, at);
    } else if i < start {
        if i > 0 {
            assert(rollback(cfg, e)[i] == quiet_removals(e.preserved_as_new)[i - 1]);
        }
    } else if at < 0 {
        assert(rollback(cfg, e)[i] == restored[i - start]);
    }
}

/// Undoing an upgrade puts every file of the previous version back from the
/// copy that was made of it.
pub proof fn rollback_restores_previous_files(
    cfg: config::ConfigView,
    e: ExtractedView,
    k: int,
)
    requires
        e.backup_dir is Some,
        e.previous matches Some(prev) && 0 <= k < prev.files.len(),
    ensures
        exists|i: int|
            0 <= i < rollback(cfg, e).len() && (#[trigger] rollback(cfg, e)[i] matches StepView::Restore(
                from,
                to,
                _,
            ) && to == e.previous->0.files[k] && from == copy_of(
                e.backup_dir->0,
                cfg.install_root,
                e.previous->0.files[k],
            )),
{
    let prev = e.previous->0;
    let backup = e.backup_dir->0;
    let start = 1 + e.preserved_as_new.len();
    let restored = restorations(copies(backup, cfg.install_root, prev.files), prev.name);
    assert(rollback(cfg, e)[start + k] == restored[k]);
}

proof fn removals_hold(
    files: Seq<Seq<char>>,
    keep: Seq<Seq<char>>,
    what: Seq<char>,
    package: Seq<char>,
    k: int,
) -> (at: int)
    requires
        0 <= k < files.len(),
        !path::holds_path(keep, files[k]),
    ensures
        0 <= at < removals(files, keep, what, package).len(),
        removals(files, keep, what, package)[at] matches StepView::Remove(f, _) && f == files[k],
    decreases files.len(),
{
    let rest = removals(files.drop_last(), keep, what, package);
    if k < files.len() - 1 {
        let at = removals_hold(files.drop_last(), keep, what, package, k);
        assert(files.drop_last()[k] == files[k]);
        at
    } else {
        rest.len() as int
    }
}

/// Undoing an upgrade removes every file that the previous version did not
/// have; undoing a first installation removes every file.
pub proof fn rollback_removes_new_files(cfg: config::ConfigView, e: ExtractedView, k: int)
    requires
        e.previous is Some ==> e.backup_dir is Some,
        0 <= k < e.installed_files.len(),
        e.previous matches Some(prev) ==> !path::holds_path(prev.files, e.installed_files[k]),
    ensures
        exists|i: int|
            0 <= i < rollback(cfg, e).len() && (#[trigger] rollback(cfg, e)[i] matches StepView::Remove(
                file,
                _,
            ) && file == e.installed_files[k]),
{
    let name = e.metadata.name;
    let start = 1 + e.preserved_as_new.len();
    match e.previous {
        Some(prev) => {
            let restored = restorations(
                copies(e.backup_dir->0, cfg.install_root, prev.files),
                prev.name,
            );
            let gone = removals(e.installed_files, prev.files, "new file "@, name);
            let at = removals_hold(e.installed_files, prev.files, "new file "@, name, k);
            assert(rollback(cfg, e)[start + restored.len() + at] == gone[at]);
        },
        None => {
            let gone = removals(e.installed_files, seq![], ""@, name);
            let at = removals_hold(e.installed_files, seq![], ""@, name, k);
            assert(rollback(cfg, e)[start + at] == gone[at]);
        },
    }
}

// ---------------------------------------------------------------------------
// What an extraction hands on

/// A package that was not there is told its version by the functions for an
/// installation; one that was there is told the new version and then the old
/// one by those for an upgrade.
pub proof fn hooks_are_told_the_versions(
    metadata: pkg_utils::MetadataView,
    prev: database::InstalledView,
    e: ExtractedView,
)
    ensures
        pre_hook_of(metadata, None) == (HookCallView {
            function: "pre_install"@,
            args: seq![metadata.version],
        }),
        pre_hook_of(metadata, Some(prev)) == (HookCallView {
            function: "pre_upgrade"@,
            args: seq![metadata.version, prev.version],
        }),
        e.previous is None ==> post_hook_of(e) == (HookCallView {
            function: "post_install"@,
            args: seq![e.metadata.version],
        }),
        e.previous is Some ==> post_hook_of(e) == (HookCallView {
            function: "post_upgrade"@,
            args: seq![e.metadata.version, e.previous->0.version],
        }),
{
}

/// As long as nothing fails, an extraction goes on: from the function of the
/// package to the copies of the old files, where there are any, then to the
/// files, with the checksums that were taken down before, and to the end.
pub proof fn an_extraction_goes_on(
    metadata: pkg_utils::MetadataView,
    previous: Option<database::InstalledView>,
    done: ExtractionView,
    e: error::ErrorView,
)
    ensures
        ({
            let next = extraction_step(metadata, previous, done);
            &&& done.hook is None ==> next is RunHook
            &&& succeeded(done.hook) && previous is Some && done.backup is None ==> next is BackUp
            &&& succeeded(done.hook) && previous is None && done.install is None ==> next
                == ExtractionStepView::Install(seq![])
            &&& succeeded(done.hook) && previous is Some && succeeded(done.backup)
                && done.install is None ==> next == ExtractionStepView::Install(
                previous->0.backups_hashes,
            )
            &&& succeeded(done.hook) && (previous is None || succeeded(done.backup)) && succeeded(
                done.install,
            ) ==> next is Finish
            &&& succeeded(done.hook) && previous is Some && done.backup == Some(
                Err::<(), error::ErrorView>(e),
            ) ==> next == ExtractionStepView::Fail(e)
            &&& succeeded(done.hook) && (previous is None || succeeded(done.backup))
                && done.install == Some(Err::<(), error::ErrorView>(e)) ==> next
                == ExtractionStepView::Fail(e)
        }),
{
}

/// Each of the listed paths is placed below the root, in order.
pub proof fn listed_paths_lie_below_the_root(root: Seq<char>, files: Seq<Seq<char>>, k: int)
    requires
        0 <= k < files.len(),
    ensures
        below_root(root, files).len() == files.len(),
        below_root(root, files)[k] == path::joined(root, files[k]),
{
}

/// A file below the root is copied to the same place below the directory of
/// the copies.
pub proof fn copies_keep_the_layout(backup: Seq<char>, root: Seq<char>, parts: Seq<Seq<char>>)
    requires
        root.len() > 0,
        parts.len() > 0,
        forall|i: int| 0 <= i < parts.len() ==> path::is_plain(#[trigger] parts[i]),
    ensures
        ({
            let rel = text::joined(parts, "/"@);
            copy_of(backup, root, path::joined(root, rel)) == path::joined(backup, rel)
        }),
{
    path::relative_below(root, parts);
}

/// Every file is copied, each by itself and in order.
pub proof fn every_file_is_copied(
    backup: Seq<char>,
    root: Seq<char>,
    files: Seq<Seq<char>>,
    k: int,
)
    requires
        0 <= k < files.len(),
    ensures
        copies(backup, root, files).len() == files.len(),
        copies(backup, root, files)[k].0 == files[k],
        copies(backup, root, files)[k].1 == copy_of(backup, root, files[k]),
{
}

/// The new versions that were put aside go when a package is rolled back, and
/// so do its files where there is no copy of the old ones to go back to.
pub proof fn rollback_removes_what_was_put_aside(
    cfg: config::ConfigView,
    e: ExtractedView,
    k: int,
)
    ensures
        0 <= k < e.preserved_as_new.len() ==> rollback(cfg, e)[1 + k] == StepView::RemoveQuietly(
            e.preserved_as_new[k],
        ),
        0 <= k < e.installed_files.len() && e.backup_dir is None && e.previous is Some ==> rollback(
            cfg,
            e,
        )[1 + e.preserved_as_new.len() + k] == StepView::RemoveQuietly(e.installed_files[k]),
{
}

/// A rollback ends at the record: the old one is put back where the old files
/// are, and otherwise the record goes.
pub proof fn rollback_settles_the_record(cfg: config::ConfigView, e: ExtractedView)
    ensures
        ({
            let all = rollback(cfg, e);
            if e.backup_dir is Some && e.previous is Some {
                exists|i: int|
                    0 <= i < all.len() && (#[trigger] all[i]) is RegisterPrevious && i + 1
                        < all.len() && (all[i + 1] matches StepView::RemoveBackup(d, _) && d
                        == e.backup_dir->0)
            } else {
                exists|i: int|
                    0 <= i < all.len() && (#[trigger] all[i] matches StepView::RemoveRecord(n, _)
                        && n == e.metadata.name)
            }
        }),
{
    let all = rollback(cfg, e);
    let n = all.len() as int;
    match (e.backup_dir, e.previous) {
        (Some(backup), Some(prev)) => {
            assert(all[n - 3] is RegisterPrevious);
            assert(all[n - 3 + 1] is RemoveBackup);
        },
        (None, Some(prev)) => {
            assert(all[n - 2] is RemoveRecord);
        },
        (_, None) => {
            assert(all[n - 1] is RemoveRecord);
        },
    }
}

/// A package can be registered exactly if every path that would be taken down
/// for it is text.
pub proof fn only_text_paths_are_registered(result: staging::InstallView)
    ensures
        is_registrable(result) <==> (forall|i: int|
            0 <= i < result.installed_files.len() ==> vstd::utf8::valid_utf8(
                #[trigger] result.installed_files[i],
            )) && (forall|i: int|
            0 <= i < result.update_backups.len() ==> vstd::utf8::valid_utf8(
                #[trigger] result.update_backups[i],
            )),
{
}

} // verus!
