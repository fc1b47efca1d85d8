//! Batches of packages: all are extracted before any last function runs, and
//! all are undone if one cannot be extracted.
use vstd::prelude::*;

use crate::cli;
use crate::config;
use crate::config::Config;
use crate::database;
use crate::database::InstalledPackage;
use crate::error;
use crate::error::LkpmError;
use crate::extract;
use crate::extract::ExtractedPackage;
use crate::hash;
use crate::manager;
use crate::manager::UpdateTarget;
use crate::pkg_utils;
use crate::pkg_utils::PackageMetadata;
use crate::plan;
use crate::plan::InstallTarget;
use crate::repo;
use crate::repo::PackageLocation;
use crate::text;
use crate::ui;
use crate::ui::PackageSummary;

verus! {

/// What a batch does.
#[derive(PartialEq, Eq, Structural, Clone, Copy, Debug)]
pub enum BatchKind {
    /// It installs local files.
    Local,
    /// It installs from repositories.
    Remote,
    /// It updates installed packages.
    Update,
}

/// A package of a batch that is ready to be extracted.
pub struct BatchItem {
    pub metadata: PackageMetadata,
    /// The package file.
    pub path: String,
    /// Where the package comes from.
    pub source: String,
    pub checksum: String,
    /// The installed package that is updated.
    pub record: Option<InstalledPackage>,
}

/// A package of a batch with its texts taken as sequences of characters.
pub struct ItemView {
    pub metadata: pkg_utils::MetadataView,
    pub path: Seq<char>,
    pub source: Seq<char>,
    pub checksum: Seq<char>,
    pub record: Option<database::InstalledView>,
}

impl View for BatchItem {
    type V = ItemView;

    open spec fn view(&self) -> ItemView {
        ItemView {
            metadata: self.metadata@,
            path: self.path@,
            source: self.source@,
            checksum: self.checksum@,
            record: extract::opt_package(self.record),
        }
    }
}

/// The packages of a list.
pub open spec fn items_of(v: Seq<BatchItem>) -> Seq<ItemView> {
    v.map_values(|i: BatchItem| i@)
}

/// The extracted packages of a list.
pub open spec fn extracted_of(v: Seq<ExtractedPackage>) -> Seq<extract::ExtractedView> {
    v.map_values(|e: ExtractedPackage| e@)
}

/// The name by which a package of a batch is spoken of.
pub open spec fn item_name(item: ItemView) -> Seq<char> {
    match item.record {
        Some(p) => p.name,
        None => item.metadata.name,
    }
}

// ---------------------------------------------------------------------------
// Preparation

/// A package that was to be prepared.
pub enum Prepared {
    Ready(BatchItem),
    /// It is left out, and this is said.
    Skipped(String),
    /// The whole operation ends.
    Failed(LkpmError),
}

/// A package that was to be prepared, with its texts taken as sequences of characters.
pub enum PreparedView {
    Ready(ItemView),
    Skipped(Seq<char>),
    Failed(error::ErrorView),
}

impl View for Prepared {
    type V = PreparedView;

    open spec fn view(&self) -> PreparedView {
        match self {
            Prepared::Ready(i) => PreparedView::Ready(i@),
            Prepared::Skipped(m) => PreparedView::Skipped(m@),
            Prepared::Failed(e) => PreparedView::Failed(e@),
        }
    }
}

/// What came of preparing packages: those that are ready, what is said of
/// those that are left out, and what ended it if something did.
pub struct Preparation {
    pub items: Vec<BatchItem>,
    pub messages: Vec<String>,
    pub failure: Option<LkpmError>,
}

/// What came of preparing packages, with its texts taken as sequences of characters.
#[verifier::ext_equal]
pub struct PreparationView {
    pub items: Seq<ItemView>,
    pub messages: Seq<Seq<char>>,
    pub failure: Option<error::ErrorView>,
}

impl View for Preparation {
    type V = PreparationView;

    open spec fn view(&self) -> PreparationView {
        PreparationView {
            items: items_of(self.items@),
            messages: text::texts(self.messages@),
            failure: match self.failure {
                Some(e) => Some(e@),
                None => None,
            },
        }
    }
}

/// A package that was to be prepared, if its file has arrived.
pub open spec fn opt_prepared(p: Option<Prepared>) -> Option<PreparedView> {
    match p {
        Some(p) => Some(p@),
        None => None,
    }
}

/// The packages of a list that were to be prepared.
pub open spec fn all_prepared(v: Seq<Option<Prepared>>) -> Seq<Option<PreparedView>> {
    v.map_values(|p: Option<Prepared>| opt_prepared(p))
}

/// What came of preparing packages, in order. One whose file has not arrived
/// is passed over; the first failure ends it.
pub open spec fn preparation(v: Seq<Option<PreparedView>>) -> PreparationView
    decreases v.len(),
{
    if v.len() == 0 {
        PreparationView { items: seq![], messages: seq![], failure: None }
    } else {
        let so_far = preparation(v.drop_last());
        if so_far.failure is Some {
            so_far
        } else {
            match v.last() {
                None => so_far,
                Some(PreparedView::Ready(i)) => PreparationView {
                    items: so_far.items.push(i),
                    ..so_far
                },
                Some(PreparedView::Skipped(m)) => PreparationView {
                    messages: so_far.messages.push(m),
                    ..so_far
                },
                Some(PreparedView::Failed(e)) => PreparationView { failure: Some(e), ..so_far },
            }
        }
    }
}

proof fn preparation_ends(v: Seq<Option<PreparedView>>, k: int)
    requires
        0 <= k <= v.len(),
        preparation(v.take(k)).failure is Some,
    ensures
        preparation(v) == preparation(v.take(k)),
    decreases v.len(),
{
    if k == v.len() {
        assert(v.take(k) =~= v);
    } else {
        assert(v.drop_last().take(k) =~= v.take(k));
        preparation_ends(v.drop_last(), k);
    }
}

/// What came of preparing packages: the ready ones in order, what is said of
/// those that are left out, and the first failure.
pub fn prepare_all(prepared: Vec<Option<Prepared>>) -> (r: Preparation)
    ensures
        r@ == preparation(all_prepared(prepared@)),
{
    let ghost all = all_prepared(prepared@);
    let mut left = prepared;
    let mut out = Preparation { items: Vec::new(), messages: Vec::new(), failure: None };
    let ghost mut i: int = 0;
    assert(all.skip(0) =~= all);
    assert(out@ =~= preparation(all.take(0)));
    while left.len() > 0
        invariant
            all == all_prepared(prepared@),
            0 <= i <= all.len(),
            all_prepared(left@) == all.skip(i),
            out.failure is None,
            out@ == preparation(all.take(i)),
        decreases left@.len(),
    {
        let ghost items = out.items@;
        let ghost messages = out.messages@;
        let ghost was = left@;
        let next = left.remove(0);
        assert(all_prepared(was).len() == was.len());
        assert(i < all.len());
        assert(all_prepared(was)[0] == opt_prepared(next));
        assert(all.skip(i)[0] == all[i]);
        assert(all.take(i + 1).drop_last() =~= all.take(i));
        assert(all_prepared(left@) =~= all.skip(i + 1)) by {
            assert(all_prepared(left@) =~= all_prepared(was).skip(1));
        }
        match next {
            None => {},
            Some(Prepared::Ready(item)) => {
                let ghost v = item@;
                out.items.push(item);
                assert(items_of(out.items@) =~= items_of(items).push(v));
            },
            Some(Prepared::Skipped(m)) => {
                let ghost v = m@;
                out.messages.push(m);
                assert(text::texts(out.messages@) =~= text::texts(messages).push(v));
            },
            Some(Prepared::Failed(e)) => {
                out.failure = Some(e);
                proof {
                    assert(out@ == preparation(all.take(i + 1)));
                    preparation_ends(all, i + 1);
                }
                return out;
            },
        }
        proof {
            i = i + 1;
        }
    }
    assert(all.take(i) =~= all) by {
        assert(all_prepared(left@).len() == 0);
        assert(all.skip(i).len() == 0);
    }
    out
}

/// What is said of a package file that cannot be read.
pub open spec fn no_checksum(label: Seq<char>, reason: Seq<char>) -> Seq<char> {
    "Failed to calculate checksum for "@ + label + ": "@ + reason
}

/// A package that can be installed with a configuration, ready to be
/// extracted; it is refused if its metadata cannot be had.
pub open spec fn item_for(
    cfg: config::ConfigView,
    source: Seq<char>,
    record: Option<database::InstalledView>,
    file: Seq<char>,
    checksum: Seq<char>,
    metadata: Result<pkg_utils::MetadataView, Seq<char>>,
) -> PreparedView {
    match metadata {
        Err(e) => PreparedView::Failed(error::ErrorView::Other(e)),
        Ok(m) => match manager::refused(cfg, m) {
            Some(e) => PreparedView::Failed(e),
            None => PreparedView::Ready(
                ItemView { metadata: m, path: file, source, checksum, record },
            ),
        },
    }
}

/// The metadata that was read, or what was said instead.
pub open spec fn metadata_view(r: Result<PackageMetadata, LkpmError>) -> Result<
    pkg_utils::MetadataView,
    error::ErrorView,
> {
    match r {
        Ok(m) => Ok(m@),
        Err(e) => Err(e@),
    }
}

/// A package ready to be extracted, given the metadata that was read from it.
pub fn prepare_item(
    cfg: &Config,
    source: &str,
    record: Option<InstalledPackage>,
    file: &str,
    checksum: String,
    metadata: Result<PackageMetadata, LkpmError>,
) -> (r: Prepared)
    ensures
        r@ == (match metadata_view(metadata) {
            Err(e) => PreparedView::Failed(e),
            Ok(m) => item_for(
                cfg@,
                source@,
                extract::opt_package(record),
                file@,
                checksum@,
                Ok(m),
            ),
        }),
{
    let metadata = match metadata {
        Ok(m) => m,
        Err(e) => {
            return Prepared::Failed(e);
        },
    };
    match manager::validate_package_metadata(cfg, &metadata) {
        Ok(_) => Prepared::Ready(
            BatchItem {
                metadata,
                path: file.to_owned(),
                source: source.to_owned(),
                checksum,
                record,
            },
        ),
        Err(e) => Prepared::Failed(e),
    }
}

/// Prepares a downloaded package: a file that cannot be read is left out, one
/// that is no package or must not be installed ends the operation.
pub fn prepare_package(
    cfg: &Config,
    label: &str,
    source: &str,
    record: Option<InstalledPackage>,
    file: &str,
    data: &Result<Vec<u8>, String>,
) -> (r: Prepared)
    ensures
        r@ == (match *data {
            Err(reason) => PreparedView::Skipped(no_checksum(label@, reason@)),
            Ok(content) => item_for(
                cfg@,
                source@,
                extract::opt_package(record),
                file@,
                hash::checksum_of(content@),
                pkg_utils::metadata_in(file@, pkg_utils::members_of(file@, content@)),
            ),
        }),
{
    match data {
        Err(reason) => Prepared::Skipped(
            text::join4("Failed to calculate checksum for ", label, ": ", reason),
        ),
        Ok(content) => {
            let checksum = hash::file_sha256(content.as_slice());
            let metadata = pkg_utils::read_package_metadata(file, content.as_slice());
            prepare_item(cfg, source, record, file, checksum, metadata)
        },
    }
}

/// Reads a local package, and checks that it can be installed.
pub fn read_local_package(cfg: &Config, file: &str, data: &[u8]) -> (r: Result<
    PackageMetadata,
    LkpmError,
>)
    ensures
        ({
            let found = pkg_utils::metadata_in(file@, pkg_utils::members_of(file@, data@));
            match r {
                Ok(m) => found == Ok::<pkg_utils::MetadataView, Seq<char>>(m@)
                    && manager::refused(cfg@, m@) is None,
                Err(e) => match found {
                    Err(reason) => e@ == error::ErrorView::Other(reason),
                    Ok(m) => manager::refused(cfg@, m) == Some(e@),
                },
            }
        }),
{
    let metadata = pkg_utils::read_package_metadata(file, data)?;
    manager::validate_package_metadata(cfg, &metadata)?;
    Ok(metadata)
}

/// A local package ready to be extracted, and what is said if its file cannot
/// be read once more: it then has no checksum.
pub fn local_item(file: &str, metadata: &PackageMetadata, data: &Result<Vec<u8>, String>) -> (r: (
    BatchItem,
    Option<String>,
))
    ensures
        r.0@ == (ItemView {
            metadata: metadata@,
            path: file@,
            source: file@,
            checksum: match *data {
                Ok(content) => hash::checksum_of(content@),
                Err(_) => seq![],
            },
            record: None,
        }),
        cli::opt_text(r.1) == (match *data {
            Ok(_) => None,
            Err(reason) => Some(no_checksum(metadata@.name, reason@)),
        }),
{
    let (checksum, said) = match data {
        Ok(content) => (hash::file_sha256(content.as_slice()), None),
        Err(reason) => (
            String::new(),
            Some(
                text::join4(
                    "Failed to calculate checksum for ",
                    &metadata.name,
                    ": ",
                    reason,
                ),
            ),
        ),
    };
    assert(checksum@ =~= match *data {
        Ok(content) => hash::checksum_of(content@),
        Err(_) => seq![],
    });
    (
        BatchItem {
            metadata: metadata.copy(),
            path: file.to_owned(),
            source: file.to_owned(),
            checksum,
            record: None,
        },
        said,
    )
}

// ---------------------------------------------------------------------------
// Records

/// The record of a package once it is extracted. An update keeps the name,
/// the source and what is provided; all else comes from the new version.
pub open spec fn record_for(
    kind: BatchKind,
    item: ItemView,
    e: extract::ExtractedView,
) -> database::InstalledView {
    match item.record {
        Some(p) => database::InstalledView {
            version: e.metadata.version,
            package_path: item.path,
            checksum: item.checksum,
            files: e.installed_files,
            requires: e.metadata.depends,
            optdepends: e.metadata.optdepends,
            conflicts: e.metadata.conflicts,
            backups: e.backups_paths,
            backups_hashes: e.backups_hashes,
            install_script: e.install_script,
            ..p
        },
        None => database::InstalledView {
            name: e.metadata.name,
            version: e.metadata.version,
            source: item.source,
            source_kind: if kind == BatchKind::Local {
                "local"@
            } else {
                "remote"@
            },
            package_path: item.path,
            checksum: item.checksum,
            files: e.installed_files,
            requires: e.metadata.depends,
            optdepends: e.metadata.optdepends,
            conflicts: e.metadata.conflicts,
            provides: e.metadata.provides,
            backups: e.backups_paths,
            backups_hashes: e.backups_hashes,
            install_script: e.install_script,
        },
    }
}

/// The record of a package once it is extracted.
pub fn make_record(kind: BatchKind, item: &BatchItem, e: &ExtractedPackage) -> (r: InstalledPackage)
    ensures
        r@ == record_for(kind, item@, e@),
{
    match &item.record {
        Some(p) => InstalledPackage {
            name: text::copy(&p.name),
            version: text::copy(&e.metadata.version),
            source: text::copy(&p.source),
            source_kind: text::copy(&p.source_kind),
            package_path: text::copy(&item.path),
            checksum: text::copy(&item.checksum),
            files: text::copy_all(&e.installed_files),
            requires: text::copy_all(&e.metadata.depends),
            optdepends: text::copy_all(&e.metadata.optdepends),
            conflicts: text::copy_all(&e.metadata.conflicts),
            provides: text::copy_all(&p.provides),
            backups: text::copy_all(&e.backups_paths),
            backups_hashes: database::copy_pairs(&e.backups_hashes),
            install_script: cli::copy_opt(&e.install_script),
        },
        None => InstalledPackage {
            name: text::copy(&e.metadata.name),
            version: text::copy(&e.metadata.version),
            source: text::copy(&item.source),
            source_kind: if kind == BatchKind::Local {
                "local".to_owned()
            } else {
                "remote".to_owned()
            },
            package_path: text::copy(&item.path),
            checksum: text::copy(&item.checksum),
            files: text::copy_all(&e.installed_files),
            requires: text::copy_all(&e.metadata.depends),
            optdepends: text::copy_all(&e.metadata.optdepends),
            conflicts: text::copy_all(&e.metadata.conflicts),
            provides: text::copy_all(&e.metadata.provides),
            backups: text::copy_all(&e.backups_paths),
            backups_hashes: database::copy_pairs(&e.backups_hashes),
            install_script: cli::copy_opt(&e.install_script),
        },
    }
}

// ---------------------------------------------------------------------------
// The course of a batch

/// What a batch is doing.
pub enum Phase {
    /// It extracts its packages, one after the other.
    Extracting,
    /// It undoes what it has extracted; this many are left to undo.
    RollingBack(usize, LkpmError),
    /// It runs the last functions, in the order of extraction.
    RunningHooks,
    /// All is done.
    Finished,
    /// It has failed.
    Failed(LkpmError),
}

/// What a batch is doing, with its texts taken as sequences of characters.
pub enum PhaseView {
    Extracting,
    RollingBack(nat, error::ErrorView),
    RunningHooks,
    Finished,
    Failed(error::ErrorView),
}

impl View for Phase {
    type V = PhaseView;

    open spec fn view(&self) -> PhaseView {
        match self {
            Phase::Extracting => PhaseView::Extracting,
            Phase::RollingBack(n, e) => PhaseView::RollingBack(*n as nat, e@),
            Phase::RunningHooks => PhaseView::RunningHooks,
            Phase::Finished => PhaseView::Finished,
            Phase::Failed(e) => PhaseView::Failed(e@),
        }
    }
}

/// A batch of packages, and how far it has come.
pub struct Batch {
    pub kind: BatchKind,
    pub items: Vec<BatchItem>,
    pub done: Vec<ExtractedPackage>,
    /// What came of the packages whose last function has run.
    pub statuses: Vec<String>,
    pub phase: Phase,
}

/// A batch with its texts taken as sequences of characters.
#[verifier::ext_equal]
pub struct BatchView {
    pub kind: BatchKind,
    pub items: Seq<ItemView>,
    pub done: Seq<extract::ExtractedView>,
    pub statuses: Seq<Seq<char>>,
    pub phase: PhaseView,
}

impl View for Batch {
    type V = BatchView;

    open spec fn view(&self) -> BatchView {
        BatchView {
            kind: self.kind,
            items: items_of(self.items@),
            done: extracted_of(self.done@),
            statuses: text::texts(self.statuses@),
            phase: self.phase@,
        }
    }
}

/// What has happened to a batch.
pub enum EventView {
    /// The next package was extracted and registered.
    Extracted(extract::ExtractedView),
    /// The next package could not be extracted.
    NotExtracted(error::ErrorView),
    /// The next package was extracted, but could not be registered.
    NotRegistered(error::ErrorView),
    /// The last package that was extracted is undone.
    RolledBack,
    /// The last function of the next package has run; why it failed, if it did.
    HookRan(Option<Seq<char>>),
}

/// What is to be done next.
#[derive(PartialEq, Eq, Structural, Clone, Copy, Debug)]
pub enum BatchAction {
    Extract(usize),
    RollBack(usize),
    RunHook(usize),
    Finish,
    Fail,
}

/// Whether the phase of a batch fits what it has done.
pub open spec fn fits(b: BatchView) -> bool {
    &&& b.done.len() <= b.items.len()
    &&& b.statuses.len() <= b.done.len()
    &&& match b.phase {
        PhaseView::Extracting => b.done.len() < b.items.len() && b.statuses.len() == 0,
        PhaseView::RollingBack(n, _) => 0 < n <= b.done.len() && b.statuses.len() == 0,
        PhaseView::RunningHooks => b.done.len() == b.items.len() && b.statuses.len()
            < b.done.len(),
        PhaseView::Finished => b.done.len() == b.items.len() && b.statuses.len() == b.done.len(),
        PhaseView::Failed(_) => b.statuses.len() == 0,
    }
}

/// A batch at its start.
pub open spec fn started(kind: BatchKind, items: Seq<ItemView>) -> BatchView {
    BatchView {
        kind,
        items,
        done: seq![],
        statuses: seq![],
        phase: if items.len() == 0 {
            PhaseView::Finished
        } else {
            PhaseView::Extracting
        },
    }
}

/// Why a batch fails when a package of it cannot be extracted.
pub open spec fn extraction_failure(
    kind: BatchKind,
    item: ItemView,
    reason: error::ErrorView,
) -> error::ErrorView {
    let head = "Failed to extract "@ + item_name(item) + " ("@ + item.metadata.version + "): "@
        + error::error_message(reason);
    error::ErrorView::Other(
        if kind == BatchKind::Update {
            head
                + ". Aborting the whole update! No post_upgrade hooks were run for any package in this batch."@
        } else {
            head
                + ". Aborting the whole installation! No post_install hooks were run for any package in this batch."@
        },
    )
}

// ---------------------------------------------------------------------------
// What is downloaded

/// A package that is to be downloaded: what it is called, where it is from,
/// where it is to be had, and the record that it is to update.
pub struct Request {
    pub label: String,
    pub source: String,
    pub url: String,
    pub record: Option<InstalledPackage>,
}

/// A package that is to be downloaded, with its texts taken as sequences of characters.
pub struct RequestView {
    pub label: Seq<char>,
    pub source: Seq<char>,
    pub url: Seq<char>,
    pub record: Option<database::InstalledView>,
}

impl View for Request {
    type V = RequestView;

    open spec fn view(&self) -> RequestView {
        RequestView {
            label: self.label@,
            source: self.source@,
            url: self.url@,
            record: extract::opt_package(self.record),
        }
    }
}

/// The requests of a list.
pub open spec fn requests_of(v: Seq<Request>) -> Seq<RequestView> {
    v.map_values(|r: Request| r@)
}

/// What is downloaded for a target of an installation.
pub open spec fn target_request(t: plan::TargetView) -> RequestView {
    RequestView {
        label: match t.requested_name {
            Some(n) => n,
            None => t.source,
        },
        source: t.source,
        url: t.location,
        record: None,
    }
}

/// What is downloaded for an update. The package keeps the source that it was
/// first installed from.
pub open spec fn update_request(u: manager::UpdateView) -> RequestView {
    RequestView {
        label: u.record.name,
        source: u.record.source,
        url: u.location,
        record: Some(u.record),
    }
}

fn url_of(location: &PackageLocation) -> (r: String)
    ensures
        r@ == location@,
{
    match location {
        PackageLocation::Remote(url) => text::copy(url),
    }
}

/// What is downloaded for the targets of an installation.
pub fn install_requests(targets: &Vec<InstallTarget>) -> (r: Vec<Request>)
    ensures
        requests_of(r@) == plan::targets(targets@).map_values(
            |t: plan::TargetView| target_request(t),
        ),
{
    let ghost want = plan::targets(targets@).map_values(|t: plan::TargetView| target_request(t));
    let mut out: Vec<Request> = Vec::new();
    let mut i: usize = 0;
    while i < targets.len()
        invariant
            i <= targets@.len(),
            want == plan::targets(targets@).map_values(|t: plan::TargetView| target_request(t)),
            requests_of(out@) == want.take(i as int),
        decreases targets@.len() - i,
    {
        let ghost before = out@;
        let t = &targets[i];
        let request = Request {
            label: manager::target_label(t),
            source: text::copy(&t.source),
            url: url_of(&t.location),
            record: None,
        };
        assert(request@ == want[i as int]);
        out.push(request);
        assert(requests_of(out@) =~= requests_of(before).push(want[i as int]));
        i = i + 1;
        assert(requests_of(out@) =~= want.take(i as int));
    }
    assert(want.take(want.len() as int) =~= want);
    out
}

/// What is downloaded for updates.
pub fn update_requests(updates: &Vec<UpdateTarget>) -> (r: Vec<Request>)
    ensures
        requests_of(r@) == manager::updates_of(updates@).map_values(
            |u: manager::UpdateView| update_request(u),
        ),
{
    let ghost want = manager::updates_of(updates@).map_values(
        |u: manager::UpdateView| update_request(u),
    );
    let mut out: Vec<Request> = Vec::new();
    let mut i: usize = 0;
    while i < updates.len()
        invariant
            i <= updates@.len(),
            want == manager::updates_of(updates@).map_values(
                |u: manager::UpdateView| update_request(u),
            ),
            requests_of(out@) == want.take(i as int),
        decreases updates@.len() - i,
    {
        let ghost before = out@;
        let u = &updates[i];
        let request = Request {
            label: text::copy(&u.record.name),
            source: text::copy(&u.record.source),
            url: url_of(&u.location),
            record: Some(u.record.copy()),
        };
        assert(request@ == want[i as int]);
        out.push(request);
        assert(requests_of(out@) =~= requests_of(before).push(want[i as int]));
        i = i + 1;
        assert(requests_of(out@) =~= want.take(i as int));
    }
    assert(want.take(want.len() as int) =~= want);
    out
}

// ---------------------------------------------------------------------------
// What is made ready

/// What is said of a package whose last function has run.
pub open spec fn status_text(kind: BatchKind, failure: Option<Seq<char>>) -> Seq<char> {
    let done = if kind == BatchKind::Update {
        "updated"@
    } else {
        "installed"@
    };
    match failure {
        Some(reason) => done + " (warning: "@ + reason + ")"@,
        None => done,
    }
}

/// A batch after one more event. An event that does not fit the phase changes nothing.
pub open spec fn after(b: BatchView, event: EventView) -> BatchView {
    match (b.phase, event) {
        (PhaseView::Extracting, EventView::Extracted(e)) => BatchView {
            done: b.done.push(e),
            phase: if b.done.len() + 1 == b.items.len() {
                PhaseView::RunningHooks
            } else {
                PhaseView::Extracting
            },
            ..b
        },
        (PhaseView::Extracting, EventView::NotExtracted(reason)) => {
            let failure = extraction_failure(b.kind, b.items[b.done.len() as int], reason);
            BatchView {
                phase: if b.done.len() == 0 {
                    PhaseView::Failed(failure)
                } else {
                    PhaseView::RollingBack(b.done.len(), failure)
                },
                ..b
            }
        },
        (PhaseView::Extracting, EventView::NotRegistered(reason)) => BatchView {
            phase: PhaseView::Failed(reason),
            ..b
        },
        (PhaseView::RollingBack(n, failure), EventView::RolledBack) => BatchView {
            phase: if n <= 1 {
                PhaseView::Failed(failure)
            } else {
                PhaseView::RollingBack((n - 1) as nat, failure)
            },
            ..b
        },
        (PhaseView::RunningHooks, EventView::HookRan(failure)) => BatchView {
            statuses: b.statuses.push(status_text(b.kind, failure)),
            phase: if b.statuses.len() + 1 == b.done.len() {
                PhaseView::Finished
            } else {
                PhaseView::RunningHooks
            },
            ..b
        },
        _ => b,
    }
}

/// What is to be done next.
pub open spec fn next_action(b: BatchView) -> BatchAction {
    match b.phase {
        PhaseView::Extracting => BatchAction::Extract(b.done.len() as usize),
        PhaseView::RollingBack(n, _) => BatchAction::RollBack((n - 1) as usize),
        PhaseView::RunningHooks => BatchAction::RunHook(b.statuses.len() as usize),
        PhaseView::Finished => BatchAction::Finish,
        PhaseView::Failed(_) => BatchAction::Fail,
    }
}

impl Batch {
    /// Whether the phase fits what has been done.
    pub open spec fn wf(self) -> bool {
        fits(self@)
    }

    /// A batch at its start.
    pub fn new(kind: BatchKind, items: Vec<BatchItem>) -> (r: Batch)
        ensures
            r.wf(),
            r@ == started(kind, items_of(items@)),
    {
        let phase = if items.len() == 0 {
            Phase::Finished
        } else {
            Phase::Extracting
        };
        let r = Batch { kind, items, done: Vec::new(), statuses: Vec::new(), phase };
        assert(items_of(items@).len() == items@.len());
        assert(r@ =~= started(kind, items_of(items@)));
        r
    }

    /// What is to be done next.
    pub fn action(&self) -> (r: BatchAction)
        requires
            self.wf(),
        ensures
            r == next_action(self@),
            match r {
                BatchAction::Extract(i) => i < self.items@.len() && i == self.done@.len(),
                BatchAction::RollBack(i) => i < self.done@.len(),
                BatchAction::RunHook(i) => i < self.done@.len() && i < self.items@.len(),
                _ => true,
            },
    {
        match &self.phase {
            Phase::Extracting => BatchAction::Extract(self.done.len()),
            Phase::RollingBack(n, _) => BatchAction::RollBack(*n - 1),
            Phase::RunningHooks => BatchAction::RunHook(self.statuses.len()),
            Phase::Finished => BatchAction::Finish,
            Phase::Failed(_) => BatchAction::Fail,
        }
    }

    /// The record of the next package, once it is extracted.
    pub fn record(&self, extracted: &ExtractedPackage) -> (r: Option<InstalledPackage>)
        requires
            self.wf(),
        ensures
            match r {
                Some(p) => self@.phase is Extracting && p@ == record_for(
                    self@.kind,
                    self@.items[self@.done.len() as int],
                    extracted@,
                ),
                None => !(self@.phase is Extracting),
            },
    {
        match &self.phase {
            Phase::Extracting => {
                let i: usize = self.done.len();
                assert(self@.items[i as int] == self.items@[i as int]@);
                Some(make_record(self.kind, &self.items[i], extracted))
            },
            _ => None,
        }
    }

    /// The next package was extracted and registered.
    pub fn on_extracted(&mut self, extracted: ExtractedPackage)
        requires
            old(self).wf(),
        ensures
            final(self).wf(),
            final(self)@ == after(old(self)@, EventView::Extracted(extracted@)),
    {
        if let Phase::Extracting = self.phase {
            let ghost before = self.done@;
            let ghost e = extracted@;
            self.done.push(extracted);
            assert(extracted_of(self.done@) =~= extracted_of(before).push(e));
            if self.done.len() == self.items.len() {
                self.phase = Phase::RunningHooks;
            }
        }
    }

    /// The next package could not be extracted.
    pub fn on_not_extracted(&mut self, reason: &LkpmError)
        requires
            old(self).wf(),
        ensures
            final(self).wf(),
            final(self)@ == after(old(self)@, EventView::NotExtracted(reason@)),
    {
        if let Phase::Extracting = self.phase {
            let n: usize = self.done.len();
            assert(self@.items[n as int] == self.items@[n as int]@);
            let item = &self.items[n];
            let name = match &item.record {
                Some(p) => text::copy(&p.name),
                None => text::copy(&item.metadata.name),
            };
            let ending = match self.kind {
                BatchKind::Update => ". Aborting the whole update! No post_upgrade hooks were run for any package in this batch.",
                _ => ". Aborting the whole installation! No post_install hooks were run for any package in this batch.",
            };
            let head = text::join5(
                "Failed to extract ",
                &name,
                " (",
                &item.metadata.version,
                "): ",
            );
            let failure = LkpmError::Other(text::join3(&head, &reason.message(), ending));
            assert(failure@ == extraction_failure(self@.kind, self@.items[n as int], reason@));
            self.phase = if n == 0 {
                Phase::Failed(failure)
            } else {
                Phase::RollingBack(n, failure)
            };
        }
    }

    /// The next package was extracted, but could not be registered.
    pub fn on_not_registered(&mut self, reason: LkpmError)
        requires
            old(self).wf(),
        ensures
            final(self).wf(),
            final(self)@ == after(old(self)@, EventView::NotRegistered(reason@)),
    {
        if let Phase::Extracting = self.phase {
            self.phase = Phase::Failed(reason);
        }
    }

    /// The package that was to be undone is undone.
    pub fn on_rolled_back(&mut self)
        requires
            old(self).wf(),
        ensures
            final(self).wf(),
            final(self)@ == after(old(self)@, EventView::RolledBack),
    {
        let mut phase = Phase::Finished;
        std::mem::swap(&mut phase, &mut self.phase);
        self.phase = match phase {
            Phase::RollingBack(n, failure) => if n <= 1 {
                Phase::Failed(failure)
            } else {
                Phase::RollingBack(n - 1, failure)
            },
            other => other,
        };
    }

    /// The last function of the next package has run.
    pub fn on_hook(&mut self, failure: &Option<String>)
        requires
            old(self).wf(),
        ensures
            final(self).wf(),
            final(self)@ == after(old(self)@, EventView::HookRan(cli::opt_text(*failure))),
    {
        if let Phase::RunningHooks = self.phase {
            let done = match self.kind {
                BatchKind::Update => "updated",
                _ => "installed",
            };
            let status = match failure {
                Some(reason) => text::join4(done, " (warning: ", reason, ")"),
                None => done.to_owned(),
            };
            assert(status@ == status_text(self.kind, cli::opt_text(*failure)));
            let ghost before = self.statuses@;
            let ghost sv = status@;
            self.statuses.push(status);
            assert(text::texts(self.statuses@) =~= text::texts(before).push(sv));
            if self.statuses.len() == self.done.len() {
                self.phase = Phase::Finished;
            }
        }
    }

    /// Why the batch failed, if it did.
    pub fn into_result(self) -> (r: Result<(), LkpmError>)
        requires
            self.wf(),
        ensures
            match r {
                Ok(_) => !(self@.phase is Failed),
                Err(e) => self@.phase == PhaseView::Failed(e@),
            },
    {
        match self.phase {
            Phase::Failed(e) => Err(e),
            _ => Ok(()),
        }
    }
}

// ---------------------------------------------------------------------------
// Summaries

/// Where a package of a batch is said to come from.
pub fn source_label(cfg: &Config, kind: BatchKind, item: &BatchItem) -> (r: String)
    ensures
        r@ == (if kind == BatchKind::Local {
            item@.path
        } else {
            repo::source_label(repo::repos_of(cfg@), item@.source)
        }),
{
    match kind {
        BatchKind::Local => text::copy(&item.path),
        _ => repo::repo_source_label(cfg, &item.source),
    }
}

/// What came of a package of a batch.
pub fn summarize(
    kind: BatchKind,
    item: &BatchItem,
    label: &str,
    size: u64,
    duration: u64,
    status: &str,
) -> (r: PackageSummary)
    ensures
        r@ == (ui::SummaryView {
            name: item_name(item@),
            version: item@.metadata.version,
            source: label@,
            size: size as nat,
            duration: duration as nat,
            checksum: item@.checksum,
            status: status@,
        }),
{
    PackageSummary {
        name: match &item.record {
            Some(p) => text::copy(&p.name),
            None => text::copy(&item.metadata.name),
        },
        version: text::copy(&item.metadata.version),
        source: label.to_owned(),
        size,
        duration,
        checksum: text::copy(&item.checksum),
        status: status.to_owned(),
    }
}

/// Whether the package file is removed once the package is in place: it is
/// if it was downloaded.
pub fn removes_file(kind: BatchKind, item: &BatchItem) -> (r: bool)
    ensures
        r == (kind != BatchKind::Local && repo::is_web_address(item@.source)),
{
    match kind {
        BatchKind::Local => false,
        _ => repo::web_address(&item.source),
    }
}

/// Whether what was downloaded is thrown away when a batch has failed: it is
/// if a package could not be extracted, and stays if one could only not be
/// registered.
pub fn clears_downloads(kind: BatchKind, extracted: bool) -> (r: bool)
    ensures
        r == (kind != BatchKind::Local && !extracted),
{
    match kind {
        BatchKind::Local => false,
        _ => !extracted,
    }
}

/// No blocked package, and none for another architecture, is made ready.
pub proof fn what_is_ready_is_allowed(
    cfg: config::ConfigView,
    source: Seq<char>,
    record: Option<database::InstalledView>,
    file: Seq<char>,
    checksum: Seq<char>,
    metadata: Result<pkg_utils::MetadataView, Seq<char>>,
)
    ensures
        item_for(cfg, source, record, file, checksum, metadata) matches PreparedView::Ready(item)
            ==> {
            &&& !manager::list_names(cfg.blocked_packages, item.metadata.name)
            &&& item.metadata.arch.len() == 0 || item.metadata.arch == "any"@ || item.metadata.arch
                == cfg.arch
        },
{
}

// ---------------------------------------------------------------------------
// What every batch keeps

/// A batch after a list of events.
pub open spec fn after_all(b: BatchView, events: Seq<EventView>) -> BatchView
    decreases events.len(),
{
    if events.len() == 0 {
        b
    } else {
        after(after_all(b, events.drop_last()), events.last())
    }
}

/// Whatever happens, the phase of a batch fits what it has done.
pub proof fn always_fits(b: BatchView, events: Seq<EventView>)
    requires
        fits(b),
    ensures
        fits(after_all(b, events)),
        after_all(b, events).items == b.items,
        after_all(b, events).kind == b.kind,
    decreases events.len(),
{
    if events.len() > 0 {
        always_fits(b, events.drop_last());
    }
}

/// No last function runs before every package of the batch is extracted.
pub proof fn hooks_wait_for_all(kind: BatchKind, items: Seq<ItemView>, events: Seq<EventView>)
    ensures
        next_action(after_all(started(kind, items), events)) is RunHook ==> after_all(
            started(kind, items),
            events,
        ).done.len() == items.len(),
{
    always_fits(started(kind, items), events);
}

/// Where a batch fails or is undone, no last function has run.
pub proof fn no_hooks_where_a_batch_fails(
    kind: BatchKind,
    items: Seq<ItemView>,
    events: Seq<EventView>,
)
    ensures
        ({
            let b = after_all(started(kind, items), events);
            b.phase is RollingBack || b.phase is Failed ==> b.statuses.len() == 0
        }),
{
    always_fits(started(kind, items), events);
}

/// A batch after a number of packages have been undone.
pub open spec fn after_rollbacks(b: BatchView, n: nat) -> BatchView
    decreases n,
{
    if n == 0 {
        b
    } else {
        after(after_rollbacks(b, (n - 1) as nat), EventView::RolledBack)
    }
}

/// Where a package cannot be extracted, every package that was extracted is
/// undone, the last one first, and the batch then fails.
pub proof fn all_undone_in_reverse(b: BatchView, reason: error::ErrorView, i: nat)
    requires
        fits(b),
        b.phase is Extracting,
        i <= b.done.len(),
        b.done.len() <= usize::MAX,
    ensures
        ({
            let failed = after(b, EventView::NotExtracted(reason));
            let now = after_rollbacks(failed, i);
            let failure = extraction_failure(b.kind, b.items[b.done.len() as int], reason);
            if i < b.done.len() {
                next_action(now) == BatchAction::RollBack((b.done.len() - 1 - i) as usize)
                    && now.phase == PhaseView::RollingBack((b.done.len() - i) as nat, failure)
            } else {
                now.phase == PhaseView::Failed(failure)
            }
        }),
    decreases i,
{
    if i > 0 {
        all_undone_in_reverse(b, reason, (i - 1) as nat);
    }
}

/// The database once the first `n` packages of a batch are registered, in order.
pub open spec fn registered(
    table: Seq<database::InstalledView>,
    b: BatchView,
    n: nat,
) -> Seq<database::InstalledView>
    decreases n,
{
    if n == 0 {
        table
    } else {
        database::put(
            registered(table, b, (n - 1) as nat),
            record_for(b.kind, b.items[n - 1], b.done[n - 1]),
        )
    }
}

/// The database once the first `n` packages of a batch are undone, the last
/// one first.
pub open spec fn undone(
    table: Seq<database::InstalledView>,
    b: BatchView,
    n: nat,
) -> Seq<database::InstalledView>
    decreases n,
{
    if n == 0 {
        table
    } else {
        undone(extract::rolled_back(table, b.done[n - 1]), b, (n - 1) as nat)
    }
}

/// Whether an extraction found its package as the database had it: not at
/// all, or, under the name that it is registered by again, with the version
/// that its files were copied of.
pub open spec fn found_rightly(
    table: Seq<database::InstalledView>,
    record: database::InstalledView,
    e: extract::ExtractedView,
) -> bool {
    match e.previous {
        None => record.name == e.metadata.name && database::lookup_package(
            table,
            e.metadata.name,
        ) is None,
        Some(prev) => e.backup_dir is Some && prev.name == record.name && database::lookup_package(
            table,
            prev.name,
        ) == Some(prev),
    }
}

/// Whether two tables give the same package for every name.
pub open spec fn same_lookups(
    a: Seq<database::InstalledView>,
    b: Seq<database::InstalledView>,
) -> bool {
    forall|name: Seq<char>|
        #[trigger] database::lookup_package(a, name) == database::lookup_package(b, name)
}

proof fn registered_distinct(table: Seq<database::InstalledView>, b: BatchView, n: nat)
    requires
        database::distinct(table),
    ensures
        database::distinct(registered(table, b, n)),
    decreases n,
{
    if n > 0 {
        registered_distinct(table, b, (n - 1) as nat);
        let record = record_for(b.kind, b.items[n - 1], b.done[n - 1]);
        database::read_after_put(registered(table, b, (n - 1) as nat), record, record.name);
    }
}

/// Undoing an extraction does the same to tables that give the same packages.
proof fn rolled_back_alike(
    a: Seq<database::InstalledView>,
    b: Seq<database::InstalledView>,
    e: extract::ExtractedView,
)
    requires
        database::distinct(a),
        database::distinct(b),
        same_lookups(a, b),
    ensures
        database::distinct(extract::rolled_back(a, e)),
        same_lookups(extract::rolled_back(a, e), extract::rolled_back(b, e)),
{
    let x = extract::rolled_back(a, e);
    let y = extract::rolled_back(b, e);
    database::read_after_remove(a, e.metadata.name, e.metadata.name);
    if e.previous is Some {
        database::read_after_put(a, e.previous->0, e.metadata.name);
    }
    assert forall|name: Seq<char>| #[trigger]
        database::lookup_package(x, name) == database::lookup_package(y, name) by {
        assert(database::lookup_package(a, name) == database::lookup_package(b, name));
        database::read_after_remove(a, e.metadata.name, name);
        database::read_after_remove(b, e.metadata.name, name);
        if e.previous is Some {
            database::read_after_put(a, e.previous->0, name);
            database::read_after_put(b, e.previous->0, name);
        }
    }
}

proof fn undone_from(
    table: Seq<database::InstalledView>,
    now: Seq<database::InstalledView>,
    b: BatchView,
    n: nat,
)
    requires
        database::distinct(table),
        database::distinct(now),
        same_lookups(now, registered(table, b, n)),
        forall|k: int|
            0 <= k < n ==> found_rightly(
                registered(table, b, k as nat),
                record_for(b.kind, b.items[k], #[trigger] b.done[k]),
                b.done[k],
            ),
    ensures
        same_lookups(undone(now, b, n), table),
    decreases n,
{
    if n > 0 {
        let before = registered(table, b, (n - 1) as nat);
        let after = registered(table, b, n);
        let e = b.done[n - 1];
        let record = record_for(b.kind, b.items[n - 1], e);
        registered_distinct(table, b, n);
        registered_distinct(table, b, (n - 1) as nat);
        rolled_back_alike(now, after, e);
        let next = extract::rolled_back(now, e);
        assert forall|name: Seq<char>| #[trigger]
            database::lookup_package(next, name) == database::lookup_package(before, name) by {
            assert(database::lookup_package(next, name) == database::lookup_package(
                extract::rolled_back(after, e),
                name,
            ));
            assert(found_rightly(before, record, b.done[n - 1]));
            if e.previous is None {
                extract::fresh_install_undone(before, record, e, name);
            } else {
                extract::upgrade_undone(before, record, e, name);
            }
        }
        undone_from(table, next, b, (n - 1) as nat);
    }
}

/// A batch that fails leaves the database as it was: once its packages are
/// undone, the last one first, every name gives the package that it gave
/// before the first of them was registered.
pub proof fn a_failed_batch_is_undone(
    table: Seq<database::InstalledView>,
    b: BatchView,
    name: Seq<char>,
)
    requires
        fits(b),
        database::distinct(table),
        forall|k: int|
            0 <= k < b.done.len() ==> found_rightly(
                registered(table, b, k as nat),
                record_for(b.kind, b.items[k], #[trigger] b.done[k]),
                b.done[k],
            ),
    ensures
        database::lookup_package(undone(registered(table, b, b.done.len()), b, b.done.len()), name)
            == database::lookup_package(table, name),
{
    let n = b.done.len();
    let now = registered(table, b, n);
    registered_distinct(table, b, n);
    undone_from(table, now, b, n);
    assert(same_lookups(undone(now, b, n), table));
}

/// The events of last functions that have run.
pub open spec fn hook_events(failures: Seq<Option<Seq<char>>>) -> Seq<EventView> {
    failures.map_values(|f: Option<Seq<char>>| EventView::HookRan(f))
}

/// Once every package is extracted, the last functions run in the order of
/// extraction, and each package gets its own status; a function that fails
/// does not keep the others from running.
pub proof fn hooks_run_in_order(b: BatchView, failures: Seq<Option<Seq<char>>>)
    requires
        fits(b),
        b.phase is RunningHooks,
        b.statuses.len() == 0,
        failures.len() <= b.done.len() <= usize::MAX,
    ensures
        ({
            let now = after_all(b, hook_events(failures));
            &&& now.statuses == failures.map_values(
                |f: Option<Seq<char>>| status_text(b.kind, f),
            )
            &&& now.done == b.done
            &&& if failures.len() < b.done.len() {
                next_action(now) == BatchAction::RunHook(failures.len() as usize)
            } else {
                now.phase is Finished
            }
        }),
    decreases failures.len(),
{
    let events = hook_events(failures);
    let now = after_all(b, events);
    let want = failures.map_values(|f: Option<Seq<char>>| status_text(b.kind, f));
    if failures.len() == 0 {
        assert(now.statuses =~= want);
    } else {
        let init = failures.drop_last();
        hooks_run_in_order(b, init);
        always_fits(b, hook_events(init));
        assert(events.drop_last() =~= hook_events(init));
        assert(events.last() == EventView::HookRan(failures.last()));
        let was = after_all(b, hook_events(init));
        assert(was.statuses.len() == init.len());
        assert(was.phase is RunningHooks);
        assert(now.statuses =~= want);
    }
}

// ---------------------------------------------------------------------------
// From requests to records

/// What is prepared is gone through in order: what is ready is taken, what is
/// skipped is told, and the first failure ends it.
pub proof fn preparation_in_parts(a: Seq<Option<PreparedView>>, b: Seq<Option<PreparedView>>)
    ensures
        preparation(a).failure is Some ==> preparation(a + b) == preparation(a),
        preparation(a).failure is None ==> {
            &&& preparation(a + b).items == preparation(a).items + preparation(b).items
            &&& preparation(a + b).messages == preparation(a).messages + preparation(b).messages
            &&& preparation(a + b).failure == preparation(b).failure
        },
    decreases b.len(),
{
    if b.len() == 0 {
        assert(a + b =~= a);
        assert(preparation(a).items + preparation(b).items =~= preparation(a).items);
        assert(preparation(a).messages + preparation(b).messages =~= preparation(a).messages);
    } else {
        preparation_in_parts(a, b.drop_last());
        assert((a + b).drop_last() =~= a + b.drop_last());
        assert((a + b).last() == b.last());
        if preparation(a).failure is None {
            assert(preparation(a + b).items =~= preparation(a).items + preparation(b).items);
            assert(preparation(a + b).messages =~= preparation(a).messages + preparation(
                b,
            ).messages);
        }
    }
}

/// A package that is ready goes on, one that is skipped is told and does not,
/// and one that failed gives its error.
pub proof fn preparation_of_one(p: PreparedView)
    ensures
        ({
            let r = preparation(seq![Some(p)]);
            match p {
                PreparedView::Ready(item) => r.items == seq![item] && r.messages.len() == 0
                    && r.failure is None,
                PreparedView::Skipped(said) => r.items.len() == 0 && r.messages == seq![said]
                    && r.failure is None,
                PreparedView::Failed(e) => r.items.len() == 0 && r.failure == Some(e),
            }
        }),
{
    let v = seq![Some(p)];
    assert(v.drop_last() =~= seq![]);
    assert(preparation(v.drop_last()).failure is None);
    assert(v.last() == Some(p));
}

/// A package that may be installed is ready, with its description, its file,
/// its source, its checksum and its record.
pub proof fn what_is_allowed_is_ready(
    cfg: config::ConfigView,
    source: Seq<char>,
    record: Option<database::InstalledView>,
    file: Seq<char>,
    checksum: Seq<char>,
    m: pkg_utils::MetadataView,
)
    requires
        manager::refused(cfg, m) is None,
    ensures
        item_for(cfg, source, record, file, checksum, Ok(m)) matches PreparedView::Ready(item) && {
            &&& item.metadata == m
            &&& item.path == file
            &&& item.source == source
            &&& item.checksum == checksum
            &&& item.record == record
        },
{
}

/// The record of a package says what was installed, and from which file.
pub proof fn records_say_what_was_installed(
    kind: BatchKind,
    item: ItemView,
    e: extract::ExtractedView,
)
    ensures
        ({
            let r = record_for(kind, item, e);
            &&& r.version == e.metadata.version
            &&& r.package_path == item.path
            &&& r.checksum == item.checksum
            &&& r.files == e.installed_files
            &&& r.requires == e.metadata.depends
            &&& r.optdepends == e.metadata.optdepends
            &&& r.conflicts == e.metadata.conflicts
            &&& r.backups == e.backups_paths
            &&& r.backups_hashes == e.backups_hashes
            &&& r.install_script == e.install_script
        }),
{
}

/// A new record has its name and what it provides from the package, and its
/// source from the request; one that there was before keeps them.
pub proof fn records_keep_their_source(
    kind: BatchKind,
    item: ItemView,
    e: extract::ExtractedView,
)
    ensures
        ({
            let r = record_for(kind, item, e);
            match item.record {
                Some(p) => {
                    &&& r.name == p.name
                    &&& r.source == p.source
                    &&& r.source_kind == p.source_kind
                    &&& r.provides == p.provides
                },
                None => {
                    &&& r.name == e.metadata.name
                    &&& r.source == item.source
                    &&& kind == BatchKind::Local ==> r.source_kind == "local"@
                    &&& kind != BatchKind::Local ==> r.source_kind == "remote"@
                    &&& r.provides == e.metadata.provides
                },
            }
        }),
{
}

/// What is asked for is fetched from where it was located, under its name.
pub proof fn requests_ask_for_the_location(t: plan::TargetView, u: manager::UpdateView)
    ensures
        target_request(t).url == t.location,
        target_request(t).source == t.source,
        target_request(t).record is None,
        t.requested_name is Some ==> target_request(t).label == t.requested_name->0,
        t.requested_name is None ==> target_request(t).label == t.source,
        update_request(u).url == u.location,
        update_request(u).source == u.record.source,
        update_request(u).record == Some(u.record),
        update_request(u).label == u.record.name,
{
}

/// The events of packages that are extracted.
pub open spec fn extraction_events(packages: Seq<extract::ExtractedView>) -> Seq<EventView> {
    packages.map_values(|e: extract::ExtractedView| EventView::Extracted(e))
}

/// The packages of a batch are extracted one after the other, until none is
/// left.
pub proof fn packages_are_extracted_in_order(
    kind: BatchKind,
    items: Seq<ItemView>,
    packages: Seq<extract::ExtractedView>,
)
    requires
        0 < items.len() <= usize::MAX,
        packages.len() <= items.len(),
    ensures
        ({
            let now = after_all(started(kind, items), extraction_events(packages));
            &&& now.done == packages
            &&& now.statuses.len() == 0
            &&& now.items == items
            &&& if packages.len() < items.len() {
                next_action(now) == BatchAction::Extract(packages.len() as usize)
            } else {
                next_action(now) == BatchAction::RunHook(0)
            }
        }),
    decreases packages.len(),
{
    let events = extraction_events(packages);
    if packages.len() == 0 {
        assert(after_all(started(kind, items), events).done =~= packages);
    } else {
        let init = packages.drop_last();
        packages_are_extracted_in_order(kind, items, init);
        assert(events.drop_last() =~= extraction_events(init));
        assert(events.last() == EventView::Extracted(packages.last()));
        assert(init.push(packages.last()) =~= packages);
    }
}

/// A batch without packages is finished at once, and one whose record cannot
/// be written fails with the reason.
pub proof fn batches_end(b: BatchView, kind: BatchKind, reason: error::ErrorView)
    ensures
        next_action(started(kind, seq![])) == BatchAction::Finish,
        b.phase is Extracting ==> after(b, EventView::NotRegistered(reason)).phase
            == PhaseView::Failed(reason),
        b.phase is Failed ==> next_action(b) == BatchAction::Fail,
{
}

/// A package counts as a success exactly if nothing failed after it was
/// unpacked, and it is told by the name of its record where it has one.
pub proof fn clean_installations_count(kind: BatchKind, failure: Option<Seq<char>>, item: ItemView)
    ensures
        ui::is_success(status_text(kind, failure)) <==> failure is None,
        item.record is Some ==> item_name(item) == item.record->0.name,
        item.record is None ==> item_name(item) == item.metadata.name,
{
    reveal_strlit("installed");
    reveal_strlit("updated");
    reveal_strlit("deleted");
    reveal_strlit(" (warning: ");
    reveal_strlit(")");
    if let Some(reason) = failure {
        let s = status_text(kind, failure);
        assert(s.len() > 9);
    }
}

/// What was done is told by the kind of the batch, with a warning where its
/// function failed; a failure names the package, its version and the reason.
pub proof fn outcomes_are_told(
    kind: BatchKind,
    warning: Seq<char>,
    item: ItemView,
    reason: error::ErrorView,
)
    ensures
        kind == BatchKind::Update ==> status_text(kind, None) == "updated"@,
        kind != BatchKind::Update ==> status_text(kind, None) == "installed"@,
        status_text(kind, Some(warning)) == status_text(kind, None) + " (warning: "@ + warning
            + ")"@,
        ({
            let head = "Failed to extract "@ + item_name(item) + " ("@ + item.metadata.version
                + "): "@ + error::error_message(reason);
            &&& kind == BatchKind::Update ==> extraction_failure(kind, item, reason)
                == error::ErrorView::Other(
                head
                    + ". Aborting the whole update! No post_upgrade hooks were run for any package in this batch."@,
            )
            &&& kind != BatchKind::Update ==> extraction_failure(kind, item, reason)
                == error::ErrorView::Other(
                head
                    + ". Aborting the whole installation! No post_install hooks were run for any package in this batch."@,
            )
        }),
{
}

} // verus!
