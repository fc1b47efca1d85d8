//! The operations of the package manager.
use vstd::prelude::*;

use crate::config;
use crate::config::Config;
use crate::config::ScriptSettings;
use crate::database;
use crate::database::Database;
use crate::database::InstalledPackage;
use crate::error;
use crate::error::LkpmError;
use crate::path;
use crate::pkg_utils;
use crate::pkg_utils::PackageMetadata;
use crate::plan;
use crate::plan::InstallTarget;
use crate::repo;
use crate::repo::PackageLocation;
use crate::repo::RepoIndex;
use crate::text;
use crate::ui;
use crate::ui::Notice;

verus! {

// ---------------------------------------------------------------------------
// Lists of names

/// Whether an entry of a list names a package, by the package's own name or
/// the one it is kept under, in whatever case. An entry that ends in stars
/// names every package that begins with what stands before them.
pub open spec fn entry_names(entry: Seq<char>, package: Seq<char>) -> bool {
    let e = text::ascii_lower(entry);
    let own = text::ascii_lower(package);
    let kept = text::ascii_lower(repo::canonical(package));
    if text::has_suffix(e, "*"@) {
        let prefix = text::without_trailing(e, '*');
        prefix.len() == 0 || text::has_prefix(own, prefix) || text::has_prefix(kept, prefix)
    } else {
        e == own || e == kept
    }
}

/// Whether a list of entries names a package.
pub open spec fn list_names(list: Seq<Seq<char>>, package: Seq<char>) -> bool {
    exists|i: int| 0 <= i < list.len() && entry_names(#[trigger] list[i], package)
}

fn entry_names_package(entry: &str, package: &str) -> (r: bool)
    ensures
        r == entry_names(entry@, package@),
{
    let e = text::to_ascii_lower(entry);
    let own = text::to_ascii_lower(package);
    let kept = text::to_ascii_lower(repo::canonical_package_name(package));
    if text::ends_with(&e, "*") {
        let prefix = text::trim_trailing(&e, '*');
        prefix.as_str().is_empty() || text::starts_with(&own, &prefix) || text::starts_with(
            &kept,
            &prefix,
        )
    } else {
        text::same(&e, &own) || text::same(&e, &kept)
    }
}

/// Whether a list of entries names a package.
pub fn package_list_contains(list: &Vec<String>, package: &str) -> (r: bool)
    ensures
        r == list_names(text::texts(list@), package@),
{
    let mut i: usize = 0;
    while i < list.len()
        invariant
            i <= list@.len(),
            forall|k: int| 0 <= k < i ==> !entry_names(#[trigger] text::texts(list@)[k], package@),
        decreases list@.len() - i,
    {
        if entry_names_package(&list[i], package) {
            assert(entry_names(text::texts(list@)[i as int], package@));
            return true;
        }
        i = i + 1;
    }
    false
}

/// The name under which a package is kept.
pub fn canonical_package_name(package: &str) -> (r: String)
    ensures
        r@ == repo::canonical(package@),
{
    repo::canonical_package_name(package).to_owned()
}

// ---------------------------------------------------------------------------
// Installed packages

/// Whether a package provides what a name asks for.
pub open spec fn provides_name(provides: Seq<Seq<char>>, name: Seq<char>) -> bool {
    exists|i: int|
        0 <= i < provides.len() && entry_names(
            pkg_utils::dependency_name(#[trigger] provides[i]),
            name,
        )
}

/// The first package of a table, from the `i`th on, that provides what a name
/// or the name it is kept under asks for.
pub open spec fn provider_from(
    table: Seq<database::InstalledView>,
    clean: Seq<char>,
    i: int,
) -> Option<database::InstalledView>
    decreases table.len() - i,
{
    if i < 0 || i >= table.len() {
        None
    } else if provides_name(table[i].provides, clean) || provides_name(
        table[i].provides,
        repo::canonical(clean),
    ) {
        Some(table[i])
    } else {
        provider_from(table, clean, i + 1)
    }
}

/// The installed package that a name asks for: the one of that name, the one
/// of the name that it is kept under, or the first that provides it.
pub open spec fn installed_as(
    table: Seq<database::InstalledView>,
    package: Seq<char>,
) -> Option<database::InstalledView> {
    let clean = pkg_utils::dependency_name(package);
    match database::lookup_package(table, clean) {
        Some(p) => Some(p),
        None => match database::lookup_package(table, repo::canonical(clean)) {
            Some(p) => Some(p),
            None => provider_from(table, clean, 0),
        },
    }
}

fn provides_package(provides: &Vec<String>, name: &str) -> (r: bool)
    ensures
        r == provides_name(text::texts(provides@), name@),
{
    let mut i: usize = 0;
    let ghost all = text::texts(provides@);
    while i < provides.len()
        invariant
            i <= provides@.len(),
            all == text::texts(provides@),
            forall|k: int|
                0 <= k < i ==> !entry_names(
                    pkg_utils::dependency_name(#[trigger] all[k]),
                    name@,
                ),
        decreases provides@.len() - i,
    {
        assert(all[i as int] == provides@[i as int]@);
        if entry_names_package(&pkg_utils::normalize_dependency_name(&provides[i]), name) {
            return true;
        }
        i = i + 1;
    }
    false
}

/// The installed package that a name asks for.
pub fn find_installed_package(db: &Database, package: &str) -> (r: Result<
    Option<InstalledPackage>,
    LkpmError,
>)
    ensures
        match r {
            Ok(Some(p)) => installed_as(db@, package@) == Some(p@),
            Ok(None) => installed_as(db@, package@) is None,
            Err(_) => false,
        },
{
    let clean = pkg_utils::normalize_dependency_name(package);
    if let Some(found) = db.find(&clean)? {
        return Ok(Some(found));
    }
    let kept = canonical_package_name(&clean);
    if let Some(found) = db.find(&kept)? {
        return Ok(Some(found));
    }
    let mut i: usize = 0;
    while i < db.packages.len()
        invariant
            i <= db.packages@.len(),
            kept@ == repo::canonical(clean@),
            provider_from(db@, clean@, 0) == provider_from(db@, clean@, i as int),
            installed_as(db@, package@) == provider_from(db@, clean@, 0),
        decreases db.packages@.len() - i,
    {
        assert(db@[i as int] == db.packages@[i as int]@);
        if provides_package(&db.packages[i].provides, &clean) || provides_package(
            &db.packages[i].provides,
            &kept,
        ) {
            return Ok(Some(db.packages[i].copy()));
        }
        i = i + 1;
    }
    Ok(None)
}

// ---------------------------------------------------------------------------
// What is allowed

/// An operation that only the superuser may do.
pub fn require_root(uid: u32) -> (r: Result<(), LkpmError>)
    ensures
        match r {
            Ok(_) => uid == 0,
            Err(e) => uid != 0 && e@ == error::ErrorView::Other(
                "Operation not permitted (os error 1)!"@,
            ),
        },
{
    if uid != 0 {
        Err(error::other("Operation not permitted (os error 1)!"))
    } else {
        Ok(())
    }
}

/// An operation that only the superuser may do on the running system, and
/// anyone below another root.
pub fn require_root_for_install_root(cfg: &Config, uid: u32) -> (r: Result<(), LkpmError>)
    ensures
        match r {
            Ok(_) => uid == 0 || !path::same_path(cfg@.install_root, "/"@),
            Err(e) => uid != 0 && path::same_path(cfg@.install_root, "/"@) && e@
                == error::ErrorView::Other("Operation not permitted (os error 1)!"@),
        },
{
    if path::paths_equal(&cfg.install_root, "/") {
        require_root(uid)
    } else {
        Ok(())
    }
}

/// Whether a source is an address on the network.
pub fn source_is_remote(source: &str) -> (r: bool)
    ensures
        r == repo::is_web_address(source@),
{
    repo::web_address(source)
}

/// Whether a package must not be installed.
pub fn is_blocked_arch_package(cfg: &Config, package: &str) -> (r: bool)
    ensures
        r == list_names(cfg@.blocked_packages, package@),
{
    package_list_contains(&cfg.blocked_packages, package)
}

/// A package that must not be installed is as good as not there.
pub fn ensure_package_is_not_blocked(cfg: &Config, package: &str) -> (r: Result<(), LkpmError>)
    ensures
        match r {
            Ok(_) => !list_names(cfg@.blocked_packages, package@),
            Err(e) => list_names(cfg@.blocked_packages, package@) && e@
                == error::ErrorView::PackageNotFound(package@),
        },
{
    if is_blocked_arch_package(cfg, package) {
        Err(LkpmError::PackageNotFound(package.to_owned()))
    } else {
        Ok(())
    }
}

/// Why a package cannot be installed with a configuration, if it cannot.
pub open spec fn refused(cfg: config::ConfigView, m: pkg_utils::MetadataView) -> Option<
    error::ErrorView,
> {
    if list_names(cfg.blocked_packages, m.name) {
        Some(error::ErrorView::PackageNotFound(m.name))
    } else if m.arch.len() > 0 && m.arch != "any"@ && m.arch != cfg.arch {
        Some(
            error::ErrorView::Other(
                "Package architecture mismatch: expected "@ + cfg.arch + " but found "@ + m.arch
                    + "."@,
            ),
        )
    } else {
        None
    }
}

/// Whether a package can be installed with a configuration.
pub fn validate_package_metadata(cfg: &Config, metadata: &PackageMetadata) -> (r: Result<
    (),
    LkpmError,
>)
    ensures
        match r {
            Ok(_) => refused(cfg@, metadata@) is None,
            Err(e) => refused(cfg@, metadata@) == Some(e@),
        },
{
    ensure_package_is_not_blocked(cfg, &metadata.name)?;
    if !metadata.arch.as_str().is_empty() && !text::same(&metadata.arch, "any") && !text::same(
        &metadata.arch,
        &cfg.arch,
    ) {
        return Err(
            error::other(
                &text::join5(
                    "Package architecture mismatch: expected ",
                    &cfg.arch,
                    " but found ",
                    &metadata.arch,
                    ".",
                ),
            ),
        );
    }
    Ok(())
}

/// Whether an operation goes ahead: without asking, or by what was answered.
pub fn confirm_operation(noconfirm: bool, answer: &Option<String>, default: bool) -> (r: bool)
    ensures
        r == (noconfirm || (match *answer {
            Some(line) => ui::accepted(text::lowercase_of(text::trimmed(line@)), default),
            None => default,
        })),
{
    noconfirm || ui::confirm(answer, default)
}

// ---------------------------------------------------------------------------
// Another root

/// A configuration for another root. The database and the cache move with the
/// root; the cache, the log and the root itself are not changed by the script.
pub open spec fn for_root(
    cfg: config::ConfigView,
    root: Seq<char>,
    script: Seq<char>,
    outcome: Option<ScriptSettings>,
    mirrorlist: Seq<char>,
) -> config::ConfigView {
    let moved = config::ConfigView {
        install_root: root,
        db_path: path::joined(root, "var/db/lkpm"@),
        cache_path: path::joined(root, "var/cache/lkpm"@),
        ..cfg
    };
    config::with_mirrorlist(
        config::ConfigView {
            cache_path: moved.cache_path,
            install_root: moved.install_root,
            log_path: moved.log_path,
            ..config::after_script(moved, script, outcome)
        },
        mirrorlist,
    )
}

/// Moves a configuration to the root that a command gives, if it gives one.
/// `script` and `outcome` are the configuration script of that root and what
/// it has set; `mirrorlist` is its mirror list. Returns the directories that
/// must then exist.
pub fn apply_root_override(
    cfg: &mut Config,
    root: &Option<String>,
    script: &str,
    outcome: Option<ScriptSettings>,
    mirrorlist: &str,
) -> (r: Result<Vec<String>, LkpmError>)
    ensures
        match *root {
            None => {
                &&& final(cfg)@ == old(cfg)@
                &&& r matches Ok(v) && v@.len() == 0
            },
            Some(p) => if p@.len() == 0 {
                &&& final(cfg)@ == old(cfg)@
                &&& r matches Err(e) && e@ == error::ErrorView::Other(
                    "Install root cannot be empty!"@,
                )
            } else {
                &&& final(cfg)@ == for_root(old(cfg)@, p@, script@, outcome, mirrorlist@)
                &&& r matches Ok(v) && text::texts(v@) == config::directories_set(script@, outcome)
            },
        },
{
    match root {
        None => Ok(Vec::new()),
        Some(p) => {
            if p.as_str().is_empty() {
                return Err(error::other("Install root cannot be empty!"));
            }
            cfg.install_root = text::copy(p);
            cfg.db_path = path::join(p, "var/db/lkpm");
            cfg.cache_path = path::join(p, "var/cache/lkpm");
            let dirs = cfg.apply_system_config_for_root(script, outcome);
            cfg.apply_mirrorlist(mirrorlist);
            Ok(dirs)
        },
    }
}

// ---------------------------------------------------------------------------
// Repositories

/// What is said of trying to reach a repository.
pub open spec fn connection_notice(url: Seq<char>, outcome: Result<bool, LkpmError>) -> ui::NoticeView {
    match outcome {
        Ok(true) => ui::NoticeView::Success("Connected: "@ + url),
        Ok(false) => ui::NoticeView::Error("Failed to connect "@ + url + "!"@),
        Err(e) => ui::NoticeView::Error(
            "Failed to connect "@ + url + "! Error message: "@ + error::error_message(e@),
        ),
    }
}

/// What is said of trying to reach the first `n` of a list of repositories.
pub open spec fn connection_notices(
    urls: Seq<Seq<char>>,
    outcomes: Seq<Result<bool, LkpmError>>,
    n: int,
) -> Seq<ui::NoticeView> {
    Seq::new(n as nat, |i: int| connection_notice(urls[i], outcomes[i]))
}

/// How many repositories were reached.
pub open spec fn reached(outcomes: Seq<Result<bool, LkpmError>>) -> nat
    decreases outcomes.len(),
{
    if outcomes.len() == 0 {
        0
    } else {
        reached(outcomes.drop_last()) + (if outcomes.last() matches Ok(b) && b {
            1nat
        } else {
            0nat
        })
    }
}

fn say_connections(
    urls: &Vec<String>,
    outcomes: &Vec<Result<bool, LkpmError>>,
    said: &mut Vec<Notice>,
) -> (count: u64)
    requires
        urls@.len() == outcomes@.len(),
    ensures
        ui::notices(final(said)@) == ui::notices(old(said)@) + connection_notices(
            text::texts(urls@),
            outcomes@,
            urls@.len() as int,
        ),
        count == reached(outcomes@),
        count <= outcomes@.len(),
{
    let ghost u = text::texts(urls@);
    let ghost start = ui::notices(said@);
    let mut count: u64 = 0;
    let mut i: usize = 0;
    assert(start + connection_notices(u, outcomes@, 0) =~= start);
    assert(outcomes@.take(0) =~= seq![]);
    while i < urls.len()
        invariant
            i <= urls@.len(),
            urls@.len() == outcomes@.len(),
            u == text::texts(urls@),
            count <= i,
            count == reached(outcomes@.take(i as int)),
            ui::notices(said@) == start + connection_notices(u, outcomes@, i as int),
        decreases urls@.len() - i,
    {
        assert(outcomes@.take(i + 1).drop_last() =~= outcomes@.take(i as int));
        assert(u[i as int] == urls@[i as int]@);
        let ghost before = said@;
        let notice = match &outcomes[i] {
            Ok(true) => {
                count = count + 1;
                Notice::Success(text::join2("Connected: ", &urls[i]))
            },
            Ok(false) => Notice::Error(text::join3("Failed to connect ", &urls[i], "!")),
            Err(e) => Notice::Error(
                text::join4("Failed to connect ", &urls[i], "! Error message: ", &e.message()),
            ),
        };
        assert(notice@ == connection_notice(u[i as int], outcomes@[i as int]));
        let ghost nv = notice@;
        said.push(notice);
        assert(ui::notices(said@) =~= ui::notices(before).push(nv));
        i = i + 1;
        assert(ui::notices(said@) =~= start + connection_notices(u, outcomes@, i as int));
    }
    assert(outcomes@.take(outcomes@.len() as int) =~= outcomes@);
    count
}

/// What is said of trying to reach all repositories.
pub open spec fn connection_report(
    cfg: config::ConfigView,
    core: Seq<Result<bool, LkpmError>>,
    extra: Seq<Result<bool, LkpmError>>,
) -> Seq<ui::NoticeView> {
    let extra_urls = cfg.extra_mirrors.map_values(|m: Seq<char>| repo::with_slash(m));
    let total = cfg.core_repos.len() + extra_urls.len();
    let found = reached(core) + reached(extra);
    let tried = seq![ui::NoticeView::Info("Checking repository connections...."@)]
        + connection_notices(cfg.core_repos, core, cfg.core_repos.len() as int)
        + connection_notices(extra_urls, extra, extra_urls.len() as int);
    if total > 0 && !(reached(core) == 0 && cfg.core_repos.len() > 0) {
        tried.push(
            ui::NoticeView::Success(
                "Repository check completed: ("@ + text::decimal_of(found) + "/"@
                    + text::decimal_of(total) + ") repositories reachable!"@,
            ),
        )
    } else {
        tried
    }
}

/// Checks what came of trying to reach the repositories. At least one core
/// repository must be there, if any is configured.
pub fn check_repository_connections(
    cfg: &Config,
    core: &Vec<Result<bool, LkpmError>>,
    extra: &Vec<Result<bool, LkpmError>>,
) -> (r: (Vec<Notice>, Result<(), LkpmError>))
    requires
        core@.len() == cfg@.core_repos.len(),
        extra@.len() == cfg@.extra_mirrors.len(),
    ensures
        ui::notices(r.0@) == connection_report(cfg@, core@, extra@),
        match r.1 {
            Ok(_) => reached(core@) > 0 || cfg@.core_repos.len() == 0,
            Err(e) => reached(core@) == 0 && cfg@.core_repos.len() > 0 && e@
                == error::ErrorView::Network(
                "No core repositories are reachable at this time!"@,
            ),
        },
{
    let extra_urls = repo::slashed(&cfg.extra_mirrors);
    let ghost slashed = cfg@.extra_mirrors.map_values(|m: Seq<char>| repo::with_slash(m));
    assert(text::texts(extra_urls@) =~= slashed);
    assert(extra_urls@.len() == slashed.len());
    assert(cfg.core_repos@.len() == cfg@.core_repos.len());
    let mut said: Vec<Notice> = Vec::new();
    said.push(Notice::Info("Checking repository connections....".to_owned()));
    assert(ui::notices(said@) =~= seq![
        ui::NoticeView::Info("Checking repository connections...."@),
    ]);
    let connected_core = say_connections(&cfg.core_repos, core, &mut said);
    let connected_extra = say_connections(&extra_urls, extra, &mut said);
    if connected_core == 0 && cfg.core_repos.len() > 0 {
        return (
            said,
            Err(
                LkpmError::Network(
                    "No core repositories are reachable at this time!".to_owned(),
                ),
            ),
        );
    }
    let total: u128 = cfg.core_repos.len() as u128 + extra_urls.len() as u128;
    let found: u128 = connected_core as u128 + connected_extra as u128;
    if total > 0 {
        let ghost before = said@;
        let notice = Notice::Success(
            text::join5(
                "Repository check completed: (",
                &text::decimal_wide(found),
                "/",
                &text::decimal_wide(total),
                ") repositories reachable!",
            ),
        );
        let ghost nv = notice@;
        said.push(notice);
        assert(ui::notices(said@) =~= ui::notices(before).push(nv));
    }
    (said, Ok(()))
}

/// What is said once the repositories' metadata has been refreshed.
pub fn refresh_notice(cfg: &Config, refreshed: &Vec<String>) -> (r: Notice)
    ensures
        r@ == (if refreshed@.len() > 0 {
            ui::NoticeView::Success("Repository metadata has been refreshed successfully!"@)
        } else if cfg@.core_repos.len() == 0 && cfg@.extra_mirrors.len() == 0 {
            ui::NoticeView::Error("No main repository that has been configured!"@)
        } else {
            ui::NoticeView::Warning(
                "Repository metadata refresh completed but no metadata files were refreshed!"@,
            )
        }),
{
    assert(cfg@.core_repos.len() == cfg.core_repos@.len());
    assert(cfg@.extra_mirrors.len() == cfg.extra_mirrors@.len());
    if refreshed.len() > 0 {
        Notice::Success("Repository metadata has been refreshed successfully!".to_owned())
    } else if cfg.core_repos.len() == 0 && cfg.extra_mirrors.len() == 0 {
        Notice::Error("No main repository that has been configured!".to_owned())
    } else {
        Notice::Warning(
            "Repository metadata refresh completed but no metadata files were refreshed!".to_owned(),
        )
    }
}

/// What is said once the repositories have been reached after a refresh.
pub fn ready_notice(refreshed: &Vec<String>) -> (r: Notice)
    ensures
        r@ == (if refreshed@.len() > 0 {
            ui::NoticeView::Success("Repository metadata cache is ready."@)
        } else {
            ui::NoticeView::Warning(
                "Repository host is reachable but metadata cache could not be refreshed!"@,
            )
        }),
{
    if refreshed.len() > 0 {
        Notice::Success("Repository metadata cache is ready.".to_owned())
    } else {
        Notice::Warning(
            "Repository host is reachable but metadata cache could not be refreshed!".to_owned(),
        )
    }
}

// ---------------------------------------------------------------------------
// Targets

/// What to install for a name or an address, or why nothing can be.
pub open spec fn target_for(
    cfg: config::ConfigView,
    repos: Seq<repo::RepoIndexView>,
    package: Seq<char>,
) -> Result<plan::TargetView, error::ErrorView> {
    if repo::is_web_address(package) {
        Ok(
            plan::TargetView {
                requested_name: None,
                source: package,
                location: package,
                metadata: None,
            },
        )
    } else if list_names(cfg.blocked_packages, package) {
        Err(error::ErrorView::PackageNotFound(package))
    } else {
        match repo::package_info(repos, package) {
            None => Err(
                error::ErrorView::PackageNotFound(package + " not found in repositories!"@),
            ),
            Some(info) => match repo::package_location(repos, info.name) {
                None => Err(
                    error::ErrorView::PackageNotFound(
                        "Download location for "@ + package + " not found!"@,
                    ),
                ),
                Some(url) => Ok(
                    plan::TargetView {
                        requested_name: Some(info.name),
                        source: url,
                        location: url,
                        metadata: None,
                    },
                ),
            },
        }
    }
}

/// What to install for a name or an address.
pub fn build_install_target(cfg: &Config, repos: &Vec<RepoIndex>, package: &str) -> (r: Result<
    InstallTarget,
    LkpmError,
>)
    ensures
        match r {
            Ok(t) => target_for(cfg@, repo::indexes(repos@), package@) == Ok::<
                plan::TargetView,
                error::ErrorView,
            >(t@),
            Err(e) => target_for(cfg@, repo::indexes(repos@), package@) == Err::<
                plan::TargetView,
                error::ErrorView,
            >(e@),
        },
{
    if source_is_remote(package) {
        return Ok(
            InstallTarget {
                requested_name: None,
                source: package.to_owned(),
                location: PackageLocation::Remote(package.to_owned()),
                metadata: None,
            },
        );
    }
    ensure_package_is_not_blocked(cfg, package)?;
    let info = match repo::find_repo_package_info(repos, package)? {
        Some(info) => info,
        None => {
            return Err(
                LkpmError::PackageNotFound(text::join2(package, " not found in repositories!")),
            );
        },
    };
    let location = match repo::find_pkg_in_repos_location(repos, &info.name)? {
        Some(location) => location,
        None => {
            return Err(
                LkpmError::PackageNotFound(
                    text::join3("Download location for ", package, " not found!"),
                ),
            );
        },
    };
    let source = match &location {
        PackageLocation::Remote(url) => text::copy(url),
    };
    Ok(InstallTarget { requested_name: Some(info.name), source, location, metadata: None })
}

/// What to install for a list of names and addresses: the first of them that
/// has nothing to install ends it.
pub open spec fn targets_for(
    cfg: config::ConfigView,
    repos: Seq<repo::RepoIndexView>,
    packages: Seq<Seq<char>>,
) -> Result<Seq<plan::TargetView>, error::ErrorView>
    decreases packages.len(),
{
    if packages.len() == 0 {
        Ok(seq![])
    } else {
        match targets_for(cfg, repos, packages.drop_last()) {
            Err(e) => Err(e),
            Ok(v) => match target_for(cfg, repos, packages.last()) {
                Ok(t) => Ok(v.push(t)),
                Err(e) => Err(e),
            },
        }
    }
}

proof fn first_refusal_stays(
    cfg: config::ConfigView,
    repos: Seq<repo::RepoIndexView>,
    packages: Seq<Seq<char>>,
    k: int,
)
    requires
        0 <= k <= packages.len(),
        targets_for(cfg, repos, packages.take(k)) is Err,
    ensures
        targets_for(cfg, repos, packages) == targets_for(cfg, repos, packages.take(k)),
    decreases packages.len(),
{
    if k < packages.len() {
        assert(packages.drop_last().take(k) =~= packages.take(k));
        first_refusal_stays(cfg, repos, packages.drop_last(), k);
    } else {
        assert(packages.take(k) =~= packages);
    }
}

/// What to install for a list of names and addresses.
pub fn build_install_targets(cfg: &Config, repos: &Vec<RepoIndex>, packages: &Vec<String>) -> (r:
    Result<Vec<InstallTarget>, LkpmError>)
    ensures
        match r {
            Ok(v) => targets_for(cfg@, repo::indexes(repos@), text::texts(packages@)) == Ok::<
                Seq<plan::TargetView>,
                error::ErrorView,
            >(plan::targets(v@)),
            Err(e) => targets_for(cfg@, repo::indexes(repos@), text::texts(packages@)) == Err::<
                Seq<plan::TargetView>,
                error::ErrorView,
            >(e@),
        },
{
    let ghost all = text::texts(packages@);
    let ghost ix = repo::indexes(repos@);
    let mut out: Vec<InstallTarget> = Vec::new();
    let mut i: usize = 0;
    assert(all.take(0) =~= seq![]);
    assert(plan::targets(out@) =~= seq![]);
    while i < packages.len()
        invariant
            i <= packages@.len(),
            all == text::texts(packages@),
            ix == repo::indexes(repos@),
            targets_for(cfg@, ix, all.take(i as int)) == Ok::<
                Seq<plan::TargetView>,
                error::ErrorView,
            >(plan::targets(out@)),
        decreases packages@.len() - i,
    {
        assert(all.take(i + 1).drop_last() =~= all.take(i as int));
        assert(all[i as int] == packages@[i as int]@);
        let ghost before = out@;
        match build_install_target(cfg, repos, &packages[i]) {
            Ok(t) => {
                let ghost tv = t@;
                out.push(t);
                assert(plan::targets(out@) =~= plan::targets(before).push(tv));
            },
            Err(e) => {
                proof {
                    first_refusal_stays(cfg@, ix, all, i + 1);
                }
                return Err(e);
            },
        }
        i = i + 1;
    }
    assert(all.take(all.len() as int) =~= all);
    Ok(out)
}

/// The addresses that targets are downloaded from.
pub fn target_urls(targets: &Vec<InstallTarget>) -> (r: Vec<String>)
    ensures
        text::texts(r@) == plan::targets(targets@).map_values(|t: plan::TargetView| t.location),
{
    let ghost want = plan::targets(targets@).map_values(|t: plan::TargetView| t.location);
    let mut out: Vec<String> = Vec::new();
    let mut i: usize = 0;
    while i < targets.len()
        invariant
            i <= targets@.len(),
            want == plan::targets(targets@).map_values(|t: plan::TargetView| t.location),
            text::texts(out@) == want.take(i as int),
        decreases targets@.len() - i,
    {
        let ghost before = out@;
        assert(want[i as int] == targets@[i as int]@.location);
        let url = match &targets[i].location {
            PackageLocation::Remote(u) => text::copy(u),
        };
        out.push(url);
        assert(text::texts(out@) =~= text::texts(before).push(want[i as int]));
        i = i + 1;
        assert(text::texts(out@) =~= want.take(i as int));
    }
    assert(want.take(want.len() as int) =~= want);
    out
}

/// What a target is called in messages.
pub fn target_label(target: &InstallTarget) -> (r: String)
    ensures
        r@ == (match target@.requested_name {
            Some(n) => n,
            None => target@.source,
        }),
{
    match &target.requested_name {
        Some(n) => text::copy(n),
        None => text::copy(&target.source),
    }
}

// ---------------------------------------------------------------------------
// Local packages

/// The home directory of the user, or that of the superuser if it is not known.
pub fn original_user_home(home: Option<String>) -> (r: String)
    ensures
        r@ == config::text_or(home, "/root"@),
{
    match home {
        Some(h) => h,
        None => "/root".to_owned(),
    }
}

/// Where a local package is looked for after its own path.
pub fn home_candidate(home: &str, raw: &str) -> (r: String)
    ensures
        r@ == path::joined(home@, raw@),
{
    path::join(home, raw)
}

/// The path of a local package: as it is given, or below the home directory
/// if it is only there.
pub fn resolve_local_package_path(
    raw: &str,
    raw_exists: bool,
    home: &str,
    candidate_exists: bool,
) -> (r: String)
    ensures
        r@ == (if !raw_exists && candidate_exists {
            path::joined(home@, raw@)
        } else {
            raw@
        }),
{
    if !raw_exists && candidate_exists {
        home_candidate(home, raw)
    } else {
        raw.to_owned()
    }
}

/// A local package must be a file.
pub fn require_local_file(raw: &str, is_file: bool) -> (r: Result<(), LkpmError>)
    ensures
        match r {
            Ok(_) => is_file,
            Err(e) => !is_file && e@ == error::ErrorView::Other(
                "Local package file "@ + raw@ + " was not found!"@,
            ),
        },
{
    if is_file {
        Ok(())
    } else {
        Err(error::other(&text::join3("Local package file ", raw, " was not found!")))
    }
}

/// The dependencies of a list of packages, one after the other.
pub open spec fn all_depends(list: Seq<pkg_utils::MetadataView>) -> Seq<Seq<char>>
    decreases list.len(),
{
    if list.len() == 0 {
        seq![]
    } else {
        all_depends(list.drop_last()) + list.last().depends
    }
}

/// The names of those dependencies that are not installed, each once.
pub open spec fn missing(
    table: Seq<database::InstalledView>,
    depends: Seq<Seq<char>>,
) -> Seq<Seq<char>>
    decreases depends.len(),
{
    if depends.len() == 0 {
        seq![]
    } else {
        let rest = missing(table, depends.drop_last());
        let name = plan::kept(depends.last());
        if installed_as(table, name) is None && !rest.contains(name) {
            rest.push(name)
        } else {
            rest
        }
    }
}

/// The metadata of a list.
pub open spec fn metadata_views(v: Seq<PackageMetadata>) -> Seq<pkg_utils::MetadataView> {
    v.map_values(|m: PackageMetadata| m@)
}

fn push_missing(db: &Database, depends: &Vec<String>, out: &mut Vec<String>, Ghost(seen): Ghost<
    Seq<Seq<char>>,
>) -> (r: Result<(), LkpmError>)
    requires
        text::texts(old(out)@) == missing(db@, seen),
    ensures
        r is Ok,
        text::texts(final(out)@) == missing(db@, seen + text::texts(depends@)),
{
    let ghost deps = text::texts(depends@);
    let mut i: usize = 0;
    assert(seen + deps.take(0) =~= seen);
    while i < depends.len()
        invariant
            i <= depends@.len(),
            deps == text::texts(depends@),
            text::texts(out@) == missing(db@, seen + deps.take(i as int)),
        decreases depends@.len() - i,
    {
        let ghost now = seen + deps.take(i + 1);
        assert(now.drop_last() =~= seen + deps.take(i as int));
        assert(deps[i as int] == depends@[i as int]@);
        assert(now.last() == deps[i as int]);
        let name = plan::kept_name(&depends[i]);
        if find_installed_package(db, &name)?.is_none() && !text::list_contains(out, &name) {
            let ghost before = out@;
            let ghost nv = name@;
            out.push(name);
            assert(text::texts(out@) =~= text::texts(before).push(nv));
        }
        i = i + 1;
    }
    assert(deps.take(deps.len() as int) =~= deps);
    Ok(())
}

/// The dependencies of local packages that have to be installed from the repositories.
pub fn missing_dependencies(db: &Database, packages: &Vec<PackageMetadata>) -> (r: Result<
    Vec<String>,
    LkpmError,
>)
    ensures
        match r {
            Ok(v) => text::texts(v@) == missing(db@, all_depends(metadata_views(packages@))),
            Err(_) => false,
        },
{
    let ghost all = metadata_views(packages@);
    let mut out: Vec<String> = Vec::new();
    let mut i: usize = 0;
    assert(all.take(0) =~= seq![]);
    assert(text::texts(out@) =~= seq![]);
    while i < packages.len()
        invariant
            i <= packages@.len(),
            all == metadata_views(packages@),
            text::texts(out@) == missing(db@, all_depends(all.take(i as int))),
        decreases packages@.len() - i,
    {
        let ghost now = all.take(i + 1);
        assert(now.drop_last() =~= all.take(i as int));
        assert(now.last() == packages@[i as int]@);
        push_missing(
            db,
            &packages[i].depends,
            &mut out,
            Ghost(all_depends(all.take(i as int))),
        )?;
        i = i + 1;
    }
    assert(all.take(all.len() as int) =~= all);
    Ok(out)
}

/// Nothing that is missing is installed, and nothing is listed twice.
pub proof fn missing_is_missing(
    table: Seq<database::InstalledView>,
    depends: Seq<Seq<char>>,
    name: Seq<char>,
)
    ensures
        missing(table, depends).contains(name) <==> installed_as(table, name) is None && exists|
            i: int,
        |
            0 <= i < depends.len() && plan::kept(#[trigger] depends[i]) == name,
        missing(table, depends).no_duplicates(),
    decreases depends.len(),
{
    let all = missing(table, depends);
    if depends.len() == 0 {
        assert(!all.contains(name));
    } else {
        let init = depends.drop_last();
        let rest = missing(table, init);
        let last = plan::kept(depends.last());
        missing_is_missing(table, init, name);
        missing_is_missing(table, init, last);
        assert(depends.last() == depends[depends.len() - 1]);
        if rest.contains(name) {
            let i = choose|i: int| 0 <= i < rest.len() && rest[i] == name;
            assert(all[i] == name);
            let j = choose|j: int|
                0 <= j < init.len() && plan::kept(#[trigger] init[j]) == name;
            assert(depends[j] == init[j]);
        }
        if exists|i: int| 0 <= i < depends.len() && plan::kept(#[trigger] depends[i]) == name {
            let i = choose|i: int|
                0 <= i < depends.len() && plan::kept(#[trigger] depends[i]) == name;
            if i < init.len() {
                assert(init[i] == depends[i]);
            }
            if all.len() > rest.len() {
                assert(all[rest.len() as int] == last);
            }
        }
        if all.contains(name) && !rest.contains(name) {
            let i = choose|i: int| 0 <= i < all.len() && all[i] == name;
            assert(i >= rest.len()) by {
                if i < rest.len() {
                    assert(rest[i] == name);
                }
            }
        }
    }
}

// ---------------------------------------------------------------------------
// Deletion

/// The packages that names ask to delete, or the first name that asks for none.
pub open spec fn to_delete(
    table: Seq<database::InstalledView>,
    packages: Seq<Seq<char>>,
) -> Result<Seq<database::InstalledView>, Seq<char>>
    decreases packages.len(),
{
    if packages.len() == 0 {
        Ok(seq![])
    } else {
        match to_delete(table, packages.drop_last()) {
            Err(e) => Err(e),
            Ok(v) => match installed_as(table, packages.last()) {
                Some(p) => Ok(v.push(p)),
                None => Err(packages.last()),
            },
        }
    }
}

proof fn first_absence_stays(
    table: Seq<database::InstalledView>,
    packages: Seq<Seq<char>>,
    k: int,
)
    requires
        0 <= k <= packages.len(),
        to_delete(table, packages.take(k)) is Err,
    ensures
        to_delete(table, packages) == to_delete(table, packages.take(k)),
    decreases packages.len(),
{
    if k < packages.len() {
        assert(packages.drop_last().take(k) =~= packages.take(k));
        first_absence_stays(table, packages.drop_last(), k);
    } else {
        assert(packages.take(k) =~= packages);
    }
}

/// The packages that names ask to delete.
pub fn find_removals(db: &Database, packages: &Vec<String>) -> (r: Result<
    Vec<InstalledPackage>,
    LkpmError,
>)
    ensures
        match r {
            Ok(v) => to_delete(db@, text::texts(packages@)) == Ok::<
                Seq<database::InstalledView>,
                Seq<char>,
            >(database::packages_of(v@)),
            Err(e) => to_delete(db@, text::texts(packages@)) is Err && e@
                == error::ErrorView::Other(
                to_delete(db@, text::texts(packages@))->Err_0
                    + " is not installed on the system!"@,
            ),
        },
{
    let ghost all = text::texts(packages@);
    let mut out: Vec<InstalledPackage> = Vec::new();
    let mut i: usize = 0;
    assert(all.take(0) =~= seq![]);
    assert(database::packages_of(out@) =~= seq![]);
    while i < packages.len()
        invariant
            i <= packages@.len(),
            all == text::texts(packages@),
            to_delete(db@, all.take(i as int)) == Ok::<Seq<database::InstalledView>, Seq<char>>(
                database::packages_of(out@),
            ),
        decreases packages@.len() - i,
    {
        assert(all.take(i + 1).drop_last() =~= all.take(i as int));
        assert(all[i as int] == packages@[i as int]@);
        match find_installed_package(db, &packages[i])? {
            Some(p) => {
                let ghost before = out@;
                let ghost pv = p@;
                out.push(p);
                assert(database::packages_of(out@) =~= database::packages_of(before).push(pv));
            },
            None => {
                proof {
                    first_absence_stays(db@, all, i + 1);
                }
                return Err(
                    error::other(&text::join2(&packages[i], " is not installed on the system!")),
                );
            },
        }
        i = i + 1;
    }
    assert(all.take(all.len() as int) =~= all);
    Ok(out)
}

/// Whether a package needs one of those to be deleted, and is not that one itself.
pub open spec fn depends_on_any(
    package: database::InstalledView,
    removals: Seq<database::InstalledView>,
) -> bool {
    exists|i: int|
        0 <= i < removals.len() && package.name != (#[trigger] removals[i]).name
            && package.requires.contains(removals[i].name)
}

fn needs_any(package: &InstalledPackage, removals: &Vec<InstalledPackage>) -> (r: bool)
    ensures
        r == depends_on_any(package@, database::packages_of(removals@)),
{
    let ghost all = database::packages_of(removals@);
    let mut i: usize = 0;
    while i < removals.len()
        invariant
            i <= removals@.len(),
            all == database::packages_of(removals@),
            forall|k: int|
                0 <= k < i ==> !(package@.name != (#[trigger] all[k]).name
                    && package@.requires.contains(all[k].name)),
        decreases removals@.len() - i,
    {
        assert(all[i as int] == removals@[i as int]@);
        if !text::same(&package.name, &removals[i].name) && text::list_contains(
            &package.requires,
            &removals[i].name,
        ) {
            return true;
        }
        i = i + 1;
    }
    false
}

/// The packages that need one of those to be deleted, in the order of their
/// names, each once.
pub fn find_dependents(db: &Database, removals: &Vec<InstalledPackage>) -> (r: Vec<String>)
    ensures
        text::ascending(text::texts(r@)),
        forall|name: Seq<char>|
            #[trigger] text::texts(r@).contains(name) <==> exists|i: int|
                0 <= i < db@.len() && (#[trigger] db@[i]).name == name && depends_on_any(
                    db@[i],
                    database::packages_of(removals@),
                ),
{
    let ghost gone = database::packages_of(removals@);
    let mut found: Vec<String> = Vec::new();
    let mut i: usize = 0;
    while i < db.packages.len()
        invariant
            i <= db.packages@.len(),
            gone == database::packages_of(removals@),
            forall|name: Seq<char>|
                #[trigger] text::texts(found@).contains(name) <==> exists|k: int|
                    0 <= k < i && (#[trigger] db@[k]).name == name && depends_on_any(
                        db@[k],
                        gone,
                    ),
        decreases db.packages@.len() - i,
    {
        let ghost before = found@;
        let ghost own = db@[i as int];
        assert(own == db.packages@[i as int]@);
        let needs = needs_any(&db.packages[i], removals);
        if needs {
            found.push(text::copy(&db.packages[i].name));
            assert(text::texts(found@) =~= text::texts(before).push(own.name));
        }
        proof {
            assert forall|name: Seq<char>|
                #[trigger] text::texts(found@).contains(name) <==> exists|k: int|
                    0 <= k < i + 1 && (#[trigger] db@[k]).name == name && depends_on_any(
                        db@[k],
                        gone,
                    ) by {
                let was = text::texts(before);
                let now = text::texts(found@);
                if now.contains(name) {
                    let m = choose|m: int| 0 <= m < now.len() && now[m] == name;
                    if m < was.len() {
                        assert(was[m] == name);
                        assert(was.contains(name));
                    } else {
                        assert(db@[i as int].name == name);
                    }
                }
                if exists|k: int|
                    0 <= k < i + 1 && (#[trigger] db@[k]).name == name && depends_on_any(
                        db@[k],
                        gone,
                    ) {
                    let k = choose|k: int|
                        0 <= k < i + 1 && (#[trigger] db@[k]).name == name && depends_on_any(
                            db@[k],
                            gone,
                        );
                    if k < i {
                        assert(was.contains(name));
                        let m = choose|m: int| 0 <= m < was.len() && was[m] == name;
                        assert(now[m] == name);
                    } else {
                        assert(now[was.len() as int] == name);
                    }
                }
            }
        }
        i = i + 1;
    }
    text::sort_unique(&found)
}

// ---------------------------------------------------------------------------
// Updates

/// The installed packages that an update is asked for: all of them, or those
/// that the names ask for.
pub open spec fn update_candidates(
    table: Seq<database::InstalledView>,
    packages: Seq<Seq<char>>,
) -> Seq<database::InstalledView> {
    if packages.len() == 0 {
        table
    } else {
        installed_among(table, packages)
    }
}

/// The installed packages that names ask for.
pub open spec fn installed_among(
    table: Seq<database::InstalledView>,
    packages: Seq<Seq<char>>,
) -> Seq<database::InstalledView>
    decreases packages.len(),
{
    if packages.len() == 0 {
        seq![]
    } else {
        match installed_as(table, packages.last()) {
            Some(p) => installed_among(table, packages.drop_last()).push(p),
            None => installed_among(table, packages.drop_last()),
        }
    }
}

/// The installed packages that an update is asked for.
pub fn find_update_candidates(db: &Database, packages: &Vec<String>) -> (r: Result<
    Vec<InstalledPackage>,
    LkpmError,
>)
    ensures
        match r {
            Ok(v) => database::packages_of(v@) == update_candidates(db@, text::texts(packages@)),
            Err(_) => false,
        },
{
    let ghost all = text::texts(packages@);
    assert(all.len() == packages@.len());
    if packages.len() == 0 {
        return db.list();
    }
    let mut out: Vec<InstalledPackage> = Vec::new();
    let mut i: usize = 0;
    assert(all.take(0) =~= seq![]);
    assert(database::packages_of(out@) =~= seq![]);
    while i < packages.len()
        invariant
            i <= packages@.len(),
            all == text::texts(packages@),
            database::packages_of(out@) == installed_among(db@, all.take(i as int)),
        decreases packages@.len() - i,
    {
        assert(all.take(i + 1).drop_last() =~= all.take(i as int));
        assert(all[i as int] == packages@[i as int]@);
        if let Some(p) = find_installed_package(db, &packages[i])? {
            let ghost before = out@;
            let ghost pv = p@;
            out.push(p);
            assert(database::packages_of(out@) =~= database::packages_of(before).push(pv));
        }
        i = i + 1;
    }
    assert(all.take(all.len() as int) =~= all);
    Ok(out)
}

/// Whether one of the packages must not be installed; the first one that must
/// not is named.
pub fn ensure_none_blocked(cfg: &Config, records: &Vec<InstalledPackage>) -> (r: Result<
    (),
    LkpmError,
>)
    ensures
        match r {
            Ok(_) => forall|i: int|
                0 <= i < records@.len() ==> !list_names(
                    cfg@.blocked_packages,
                    (#[trigger] records@[i]).name@,
                ),
            Err(e) => exists|i: int|
                {
                    &&& 0 <= i < records@.len()
                    &&& list_names(cfg@.blocked_packages, (#[trigger] records@[i]).name@)
                    &&& e@ == error::ErrorView::PackageNotFound(records@[i].name@)
                    &&& forall|k: int|
                        0 <= k < i ==> !list_names(
                            cfg@.blocked_packages,
                            (#[trigger] records@[k]).name@,
                        )
                },
        },
{
    let mut i: usize = 0;
    while i < records.len()
        invariant
            i <= records@.len(),
            forall|k: int|
                0 <= k < i ==> !list_names(
                    cfg@.blocked_packages,
                    (#[trigger] records@[k]).name@,
                ),
        decreases records@.len() - i,
    {
        match ensure_package_is_not_blocked(cfg, &records[i].name) {
            Ok(_) => {},
            Err(e) => {
                assert(list_names(cfg@.blocked_packages, records@[i as int].name@));
                return Err(e);
            },
        }
        i = i + 1;
    }
    Ok(())
}

/// A package that has an update.
pub struct UpdateTarget {
    pub record: InstalledPackage,
    pub location: PackageLocation,
    pub remote_version: String,
}

/// A package that has an update, with its texts taken as sequences of characters.
pub struct UpdateView {
    pub record: database::InstalledView,
    pub location: Seq<char>,
    pub remote_version: Seq<char>,
}

impl View for UpdateTarget {
    type V = UpdateView;

    open spec fn view(&self) -> UpdateView {
        UpdateView {
            record: self.record@,
            location: self.location@,
            remote_version: self.remote_version@,
        }
    }
}

/// The updates of a list.
pub open spec fn updates_of(v: Seq<UpdateTarget>) -> Seq<UpdateView> {
    v.map_values(|t: UpdateTarget| t@)
}

/// The update that the repositories have for a package: another version,
/// unless the package is to stay as it is.
pub open spec fn update_for(
    cfg: config::ConfigView,
    repos: Seq<repo::RepoIndexView>,
    record: database::InstalledView,
) -> Option<UpdateView> {
    match (
        repo::package_info(repos, record.name),
        repo::package_location(repos, record.name),
    ) {
        (Some(info), Some(location)) => if info.version != record.version && !list_names(
            cfg.no_update_packages,
            record.name,
        ) {
            Some(UpdateView { record, location, remote_version: info.version })
        } else {
            None
        },
        _ => None,
    }
}

/// The updates that the repositories have for a list of packages.
pub open spec fn updates_for(
    cfg: config::ConfigView,
    repos: Seq<repo::RepoIndexView>,
    records: Seq<database::InstalledView>,
) -> Seq<UpdateView>
    decreases records.len(),
{
    if records.len() == 0 {
        seq![]
    } else {
        match update_for(cfg, repos, records.last()) {
            Some(u) => updates_for(cfg, repos, records.drop_last()).push(u),
            None => updates_for(cfg, repos, records.drop_last()),
        }
    }
}

/// The updates that the repositories have for a list of packages.
pub fn find_updates(cfg: &Config, repos: &Vec<RepoIndex>, records: &Vec<InstalledPackage>) -> (r:
    Result<Vec<UpdateTarget>, LkpmError>)
    ensures
        match r {
            Ok(v) => updates_of(v@) == updates_for(
                cfg@,
                repo::indexes(repos@),
                database::packages_of(records@),
            ),
            Err(_) => false,
        },
{
    let ghost all = database::packages_of(records@);
    let ghost ix = repo::indexes(repos@);
    let mut out: Vec<UpdateTarget> = Vec::new();
    let mut i: usize = 0;
    assert(all.take(0) =~= seq![]);
    assert(updates_of(out@) =~= seq![]);
    while i < records.len()
        invariant
            i <= records@.len(),
            all == database::packages_of(records@),
            ix == repo::indexes(repos@),
            updates_of(out@) == updates_for(cfg@, ix, all.take(i as int)),
        decreases records@.len() - i,
    {
        assert(all.take(i + 1).drop_last() =~= all.take(i as int));
        assert(all[i as int] == records@[i as int]@);
        let record = &records[i];
        if let Some(info) = repo::find_repo_package_info(repos, &record.name)? {
            if !text::same(&info.version, &record.version) && !package_list_contains(
                &cfg.no_update_packages,
                &record.name,
            ) {
                if let Some(location) = repo::find_pkg_in_repos_location(repos, &record.name)? {
                    let ghost before = out@;
                    let u = UpdateTarget {
                        record: record.copy(),
                        location,
                        remote_version: info.version,
                    };
                    let ghost uv = u@;
                    out.push(u);
                    assert(updates_of(out@) =~= updates_of(before).push(uv));
                }
            }
        }
        i = i + 1;
    }
    assert(all.take(all.len() as int) =~= all);
    Ok(out)
}

/// An update as it is listed: the package, its version and the new one.
pub open spec fn update_text(u: UpdateView) -> Seq<char> {
    "    ‣ "@ + u.record.name + " ("@ + u.record.version + " ➔ "@ + u.remote_version + ")"@
}

/// What is said of an update before it is done.
pub fn update_line(update: &UpdateTarget) -> (r: String)
    ensures
        r@ == update_text(update@),
{
    text::join2(
        &text::join5(
            "    ‣ ",
            &update.record.name,
            " (",
            &update.record.version,
            " ➔ ",
        ),
        &text::join2(&update.remote_version, ")"),
    )
}

/// A package that is up to date, or is to stay as it is, is not updated.
pub proof fn updates_are_due(
    cfg: config::ConfigView,
    repos: Seq<repo::RepoIndexView>,
    records: Seq<database::InstalledView>,
    k: int,
)
    requires
        0 <= k < updates_for(cfg, repos, records).len(),
    ensures
        ({
            let u = updates_for(cfg, repos, records)[k];
            &&& records.contains(u.record)
            &&& u.remote_version != u.record.version
            &&& !list_names(cfg.no_update_packages, u.record.name)
        }),
    decreases records.len(),
{
    let init = records.drop_last();
    let rest = updates_for(cfg, repos, init);
    if k < rest.len() {
        updates_are_due(cfg, repos, init, k);
        let r = rest[k].record;
        let j = choose|j: int| 0 <= j < init.len() && init[j] == r;
        assert(records[j] == r);
    } else {
        assert(records[records.len() - 1] == records.last());
    }
}

// ---------------------------------------------------------------------------
// Package information

/// What is known of a package: what is installed, or else what a repository
/// says of it.
pub open spec fn known_package(
    table: Seq<database::InstalledView>,
    repos: Seq<repo::RepoIndexView>,
    package: Seq<char>,
) -> Option<database::InstalledView> {
    match installed_as(table, package) {
        Some(p) => Some(p),
        None => match repo::package_info(repos, package) {
            Some(info) => Some(
                database::InstalledView {
                    name: info.name,
                    version: info.version,
                    source: match info.origin {
                        Some(o) => o,
                        None => seq![],
                    },
                    source_kind: "remote"@,
                    package_path: seq![],
                    checksum: seq![],
                    files: seq![],
                    requires: info.depends,
                    optdepends: info.optdepends,
                    conflicts: info.conflicts,
                    provides: info.provides,
                    backups: seq![],
                    backups_hashes: seq![],
                    install_script: None,
                },
            ),
            None => None,
        },
    }
}

/// What is known of a package, and whether it is only from a repository.
pub fn find_known_package(db: &Database, repos: &Vec<RepoIndex>, package: &str) -> (r: Result<
    (InstalledPackage, bool),
    LkpmError,
>)
    ensures
        match r {
            Ok((p, from_repo)) => {
                &&& known_package(db@, repo::indexes(repos@), package@) == Some(p@)
                &&& from_repo == (installed_as(db@, package@) is None)
            },
            Err(e) => known_package(db@, repo::indexes(repos@), package@) is None && e@
                == error::ErrorView::Other(
                package@
                    + " is not installed on the system and no metadata was found in any configured repository!"@,
            ),
        },
{
    if let Some(p) = find_installed_package(db, package)? {
        return Ok((p, false));
    }
    match repo::find_repo_package_info(repos, package)? {
        Some(info) => {
            let source = match &info.origin {
                Some(o) => text::copy(o),
                None => String::new(),
            };
            assert(source@ =~= match info@.origin {
                Some(o) => o,
                None => seq![],
            });
            let p = InstalledPackage {
                name: info.name,
                version: info.version,
                source,
                source_kind: "remote".to_owned(),
                package_path: String::new(),
                checksum: String::new(),
                files: Vec::new(),
                requires: info.depends,
                optdepends: info.optdepends,
                conflicts: info.conflicts,
                provides: info.provides,
                backups: Vec::new(),
                backups_hashes: Vec::new(),
                install_script: None,
            };
            assert(p@.package_path =~= seq![]);
            assert(p@.checksum =~= seq![]);
            assert(p@.files =~= seq![]);
            assert(p@.backups =~= seq![]);
            assert(p@.backups_hashes =~= seq![]);
            Ok((p, true))
        },
        None => Err(
            error::other(
                &text::join2(
                    package,
                    " is not installed on the system and no metadata was found in any configured repository!",
                ),
            ),
        ),
    }
}

/// Dependencies, each with whether it is installed.
pub open spec fn with_presence(
    table: Seq<database::InstalledView>,
    depends: Seq<Seq<char>>,
) -> Seq<(Seq<char>, bool)> {
    depends.map_values(|d: Seq<char>| (d, installed_as(table, d) is Some))
}

/// Dependencies, each with whether it is installed.
pub fn mark_installed(db: &Database, depends: &Vec<String>) -> (r: Result<
    Vec<(String, bool)>,
    LkpmError,
>)
    ensures
        match r {
            Ok(v) => ui::flagged(v@) == with_presence(db@, text::texts(depends@)),
            Err(_) => false,
        },
{
    let ghost want = with_presence(db@, text::texts(depends@));
    let mut out: Vec<(String, bool)> = Vec::new();
    let mut i: usize = 0;
    assert(ui::flagged(out@) =~= want.take(0));
    while i < depends.len()
        invariant
            i <= depends@.len(),
            want == with_presence(db@, text::texts(depends@)),
            ui::flagged(out@) == want.take(i as int),
        decreases depends@.len() - i,
    {
        let ghost before = out@;
        let there = find_installed_package(db, &depends[i])?.is_some();
        out.push((text::copy(&depends[i]), there));
        assert(ui::flagged(out@) =~= ui::flagged(before).push(want[i as int]));
        i = i + 1;
        assert(ui::flagged(out@) =~= want.take(i as int));
    }
    assert(want.take(want.len() as int) =~= want);
    Ok(out)
}

/// The report on a package's dependencies and conflicts; none if it has neither.
pub open spec fn package_report(
    table: Seq<database::InstalledView>,
    p: database::InstalledView,
) -> Option<Seq<Seq<char>>> {
    if p.requires.len() == 0 && p.optdepends.len() == 0 && p.conflicts.len() == 0 {
        None
    } else {
        let deps = ui::dependency_lines(with_presence(table, p.requires), p.optdepends);
        Some(
            if p.conflicts.len() > 0 {
                deps + ui::list_lines("Conflicting packages"@, p.conflicts)
            } else {
                deps
            },
        )
    }
}

/// The report on a package's dependencies and conflicts.
pub fn describe_package(db: &Database, p: &InstalledPackage) -> (r: Result<
    Option<Vec<String>>,
    LkpmError,
>)
    ensures
        match r {
            Ok(Some(v)) => package_report(db@, p@) == Some(text::texts(v@)),
            Ok(None) => package_report(db@, p@) is None,
            Err(_) => false,
        },
{
    assert(p@.requires.len() == p.requires@.len());
    assert(p@.optdepends.len() == p.optdepends@.len());
    assert(p@.conflicts.len() == p.conflicts@.len());
    if p.requires.len() == 0 && p.optdepends.len() == 0 && p.conflicts.len() == 0 {
        return Ok(None);
    }
    let marked = mark_installed(db, &p.requires)?;
    let mut lines = ui::dependency_report(&marked, &p.optdepends);
    if p.conflicts.len() > 0 {
        let ghost before = lines@;
        let mut more = ui::conflict_report(&p.conflicts);
        let ghost added = more@;
        lines.append(&mut more);
        assert(text::texts(lines@) =~= text::texts(before) + text::texts(added));
    }
    Ok(Some(lines))
}

/// The dependencies that targets are known to have.
pub open spec fn known_depends(targets: Seq<plan::TargetView>) -> Seq<Seq<char>>
    decreases targets.len(),
{
    if targets.len() == 0 {
        seq![]
    } else {
        known_depends(targets.drop_last()) + (match targets.last().metadata {
            Some(m) => m.depends,
            None => seq![],
        })
    }
}

/// The optional dependencies that targets are known to have.
pub open spec fn known_optdepends(targets: Seq<plan::TargetView>) -> Seq<Seq<char>>
    decreases targets.len(),
{
    if targets.len() == 0 {
        seq![]
    } else {
        known_optdepends(targets.drop_last()) + (match targets.last().metadata {
            Some(m) => m.optdepends,
            None => seq![],
        })
    }
}

fn push_all(out: &mut Vec<String>, more: &Vec<String>)
    ensures
        text::texts(final(out)@) == text::texts(old(out)@) + text::texts(more@),
{
    let ghost before = out@;
    let mut copied = text::copy_all(more);
    let ghost added = copied@;
    out.append(&mut copied);
    assert(text::texts(out@) =~= text::texts(before) + text::texts(added));
}

/// The dependencies that targets are known to have, in the order of their
/// names, each once and with whether it is installed; and the optional ones.
pub fn target_dependencies(db: &Database, targets: &Vec<InstallTarget>) -> (r: Result<
    (Vec<(String, bool)>, Vec<String>),
    LkpmError,
>)
    ensures
        match r {
            Ok((required, optional)) => {
                let deps = known_depends(plan::targets(targets@));
                &&& text::texts(optional@) == known_optdepends(plan::targets(targets@))
                &&& exists|names: Seq<Seq<char>>|
                    {
                        &&& #[trigger] text::ascending(names)
                        &&& forall|d: Seq<char>| names.contains(d) <==> deps.contains(d)
                        &&& ui::flagged(required@) == with_presence(db@, names)
                    }
            },
            Err(_) => false,
        },
{
    let ghost all = plan::targets(targets@);
    let mut deps: Vec<String> = Vec::new();
    let mut optional: Vec<String> = Vec::new();
    let mut i: usize = 0;
    assert(text::texts(deps@) =~= known_depends(all.take(0)));
    assert(text::texts(optional@) =~= known_optdepends(all.take(0)));
    while i < targets.len()
        invariant
            i <= targets@.len(),
            all == plan::targets(targets@),
            text::texts(deps@) == known_depends(all.take(i as int)),
            text::texts(optional@) == known_optdepends(all.take(i as int)),
        decreases targets@.len() - i,
    {
        assert(all.take(i + 1).drop_last() =~= all.take(i as int));
        assert(all[i as int] == targets@[i as int]@);
        match &targets[i].metadata {
            Some(m) => {
                push_all(&mut deps, &m.depends);
                push_all(&mut optional, &m.optdepends);
            },
            None => {
                assert(text::texts(deps@) + Seq::<Seq<char>>::empty() =~= text::texts(deps@));
                assert(text::texts(optional@) + Seq::<Seq<char>>::empty() =~= text::texts(
                    optional@,
                ));
            },
        }
        i = i + 1;
    }
    assert(all.take(all.len() as int) =~= all);
    let names = text::sort_unique(&deps);
    let required = mark_installed(db, &names)?;
    assert(text::ascending(text::texts(names@)));
    Ok((required, optional))
}

// ---------------------------------------------------------------------------
// What holds of names

/// A package that was registered is found under its name, so that what comes
/// later in a batch can build on it.
pub proof fn registered_is_found(
    table: Seq<database::InstalledView>,
    p: database::InstalledView,
)
    requires
        database::distinct(table),
        pkg_utils::dependency_name(p.name) == p.name,
    ensures
        installed_as(database::put(table, p), p.name) == Some(p),
{
    database::read_after_put(table, p, p.name);
}

/// A star in a list of names names every package.
pub proof fn a_star_names_all(list: Seq<Seq<char>>, package: Seq<char>)
    requires
        list.contains("*"@),
    ensures
        list_names(list, package),
{
    reveal_strlit("*");
    let i = choose|i: int| 0 <= i < list.len() && list[i] == "*"@;
    let e = text::ascii_lower("*"@);
    assert(e =~= "*"@);
    assert(e.skip(0) =~= "*"@);
    assert(e.drop_last() =~= seq![]);
    assert(text::without_trailing(e, '*') =~= text::without_trailing(e.drop_last(), '*'));
    assert(entry_names(list[i], package));
}

/// A list that names a package by the name it is kept under names it.
pub proof fn kept_names_count(list: Seq<Seq<char>>, package: Seq<char>)
    requires
        list.contains(repo::canonical(package)),
        !text::has_suffix(text::ascii_lower(repo::canonical(package)), "*"@),
    ensures
        list_names(list, package),
{
    let i = choose|i: int| 0 <= i < list.len() && list[i] == repo::canonical(package);
    assert(entry_names(list[i], package));
}

// ---------------------------------------------------------------------------
// Updates

/// Every installed package that the repositories have in another version, and
/// whose updates are not held back, is updated to that version, from where the
/// repositories have it, whichever of the two versions reads as the later.
pub proof fn due_updates_are_found(
    cfg: config::ConfigView,
    repos: Seq<repo::RepoIndexView>,
    records: Seq<database::InstalledView>,
    i: int,
)
    requires
        0 <= i < records.len(),
        repo::package_info(repos, records[i].name) is Some,
        repo::package_location(repos, records[i].name) is Some,
        repo::package_info(repos, records[i].name)->0.version != records[i].version,
        !list_names(cfg.no_update_packages, records[i].name),
    ensures
        exists|k: int|
            {
                &&& 0 <= k < updates_for(cfg, repos, records).len()
                &&& (#[trigger] updates_for(cfg, repos, records)[k]).record == records[i]
                &&& Some(updates_for(cfg, repos, records)[k].location) == repo::package_location(
                    repos,
                    records[i].name,
                )
                &&& updates_for(cfg, repos, records)[k].remote_version == repo::package_info(
                    repos,
                    records[i].name,
                )->0.version
            },
    decreases records.len(),
{
    let init = records.drop_last();
    let rest = updates_for(cfg, repos, init);
    let all = updates_for(cfg, repos, records);
    if i < init.len() {
        assert(init[i] == records[i]);
        due_updates_are_found(cfg, repos, init, i);
        let k = choose|k: int|
            {
                &&& 0 <= k < rest.len()
                &&& (#[trigger] rest[k]).record == init[i]
                &&& Some(rest[k].location) == repo::package_location(repos, init[i].name)
                &&& rest[k].remote_version == repo::package_info(repos, init[i].name)->0.version
            };
        assert(all[k] == rest[k]);
    } else {
        assert(records.last() == records[i]);
        assert(all[rest.len() as int].record == records[i]);
    }
}

/// An update goes to the version that the repositories have, and is downloaded
/// from where they have it.
pub proof fn updates_come_from_the_repositories(
    cfg: config::ConfigView,
    repos: Seq<repo::RepoIndexView>,
    records: Seq<database::InstalledView>,
    k: int,
)
    requires
        0 <= k < updates_for(cfg, repos, records).len(),
    ensures
        ({
            let u = updates_for(cfg, repos, records)[k];
            &&& repo::package_location(repos, u.record.name) == Some(u.location)
            &&& repo::package_info(repos, u.record.name) matches Some(info)
            &&& info.version == u.remote_version
        }),
    decreases records.len(),
{
    let rest = updates_for(cfg, repos, records.drop_last());
    if k < rest.len() {
        updates_come_from_the_repositories(cfg, repos, records.drop_last(), k);
    }
}

/// The updates of two lists of packages are those of the first and then those
/// of the second: each package is looked at by itself, in order.
pub proof fn updates_in_parts(
    cfg: config::ConfigView,
    repos: Seq<repo::RepoIndexView>,
    a: Seq<database::InstalledView>,
    b: Seq<database::InstalledView>,
)
    ensures
        updates_for(cfg, repos, a + b) == updates_for(cfg, repos, a) + updates_for(cfg, repos, b),
    decreases b.len(),
{
    if b.len() == 0 {
        assert(a + b =~= a);
        assert(updates_for(cfg, repos, a) + updates_for(cfg, repos, b) =~= updates_for(
            cfg,
            repos,
            a,
        ));
    } else {
        updates_in_parts(cfg, repos, a, b.drop_last());
        assert((a + b).drop_last() =~= a + b.drop_last());
        assert((a + b).last() == b.last());
        assert(updates_for(cfg, repos, a + b) =~= updates_for(cfg, repos, a) + updates_for(
            cfg,
            repos,
            b,
        ));
    }
}

/// Without names, every installed package is looked at for updates; with
/// names, those that are installed among them, in the order of the names.
pub proof fn named_packages_are_candidates(
    table: Seq<database::InstalledView>,
    a: Seq<Seq<char>>,
    name: Seq<char>,
)
    ensures
        update_candidates(table, seq![]) == table,
        update_candidates(table, a.push(name)) == (if a.len() == 0 {
            Seq::<database::InstalledView>::empty()
        } else {
            update_candidates(table, a)
        }) + (match installed_as(table, name) {
            Some(p) => seq![p],
            None => seq![],
        }),
{
    let more = a.push(name);
    assert(more.drop_last() =~= a);
    assert(more.last() == name);
    if a.len() == 0 {
        assert(installed_among(table, a) =~= seq![]);
    }
    assert(update_candidates(table, more) =~= installed_among(table, a) + (match installed_as(
        table,
        name,
    ) {
        Some(p) => seq![p],
        None => seq![],
    }));
}

// ---------------------------------------------------------------------------
// Targets

/// The targets of an installation are what was named, in order: an address is
/// downloaded as it is; any other name is that of a package which is not
/// blocked, which a repository has, and which is downloaded from where the
/// repositories have it.
pub proof fn targets_are_what_was_named(
    cfg: config::ConfigView,
    repos: Seq<repo::RepoIndexView>,
    packages: Seq<Seq<char>>,
    i: int,
)
    requires
        targets_for(cfg, repos, packages) is Ok,
        0 <= i < packages.len(),
    ensures
        targets_for(cfg, repos, packages)->Ok_0.len() == packages.len(),
        ({
            let t = targets_for(cfg, repos, packages)->Ok_0[i];
            if text::has_prefix(packages[i], "http://"@) || text::has_prefix(
                packages[i],
                "https://"@,
            ) {
                t.location == packages[i] && t.source == packages[i] && t.requested_name is None
            } else {
                &&& !list_names(cfg.blocked_packages, packages[i])
                &&& repo::package_info(repos, packages[i]) matches Some(info)
                &&& t.requested_name == Some(info.name)
                &&& repo::package_location(repos, info.name) == Some(t.location)
                &&& t.source == t.location
            }
        }),
    decreases packages.len(),
{
    let init = packages.drop_last();
    if i < init.len() {
        assert(init[i] == packages[i]);
        targets_are_what_was_named(cfg, repos, init, i);
    } else if init.len() > 0 {
        targets_are_what_was_named(cfg, repos, init, 0);
    }
}

/// An installation is refused only for a name that is blocked, or that no
/// repository has a package or an address for.
pub proof fn known_targets_are_accepted(
    cfg: config::ConfigView,
    repos: Seq<repo::RepoIndexView>,
    packages: Seq<Seq<char>>,
)
    requires
        forall|i: int|
            0 <= i < packages.len() ==> text::has_prefix(#[trigger] packages[i], "http://"@)
                || text::has_prefix(packages[i], "https://"@) || (!list_names(
                cfg.blocked_packages,
                packages[i],
            ) && repo::package_info(repos, packages[i]) is Some && repo::package_location(
                repos,
                repo::package_info(repos, packages[i])->0.name,
            ) is Some),
    ensures
        targets_for(cfg, repos, packages) is Ok,
    decreases packages.len(),
{
    if packages.len() > 0 {
        let init = packages.drop_last();
        assert(forall|i: int| 0 <= i < init.len() ==> #[trigger] init[i] == packages[i]);
        known_targets_are_accepted(cfg, repos, init);
        assert(packages[packages.len() - 1] == packages.last());
    }
}

// ---------------------------------------------------------------------------
// Installed packages

/// A name is that of an installed package if the package has it, or has the
/// name that it is an alias of, or provides it; the package that has it comes
/// before the others.
pub proof fn installed_packages_are_found(
    table: Seq<database::InstalledView>,
    package: Seq<char>,
)
    ensures
        ({
            let name = pkg_utils::dependency_name(package);
            match installed_as(table, package) {
                Some(p) => {
                    &&& table.contains(p)
                    &&& p.name == name || p.name == repo::canonical(name) || (exists|k: int|
                        0 <= k < p.provides.len() && (entry_names(
                            pkg_utils::dependency_name(#[trigger] p.provides[k]),
                            name,
                        ) || entry_names(
                            pkg_utils::dependency_name(p.provides[k]),
                            repo::canonical(name),
                        )))
                    &&& (exists|i: int| 0 <= i < table.len() && (#[trigger] table[i]).name == name)
                        ==> p.name == name
                },
                None => forall|i: int|
                    0 <= i < table.len() ==> (#[trigger] table[i]).name != name && table[i].name
                        != repo::canonical(name) && (forall|k: int|
                        0 <= k < table[i].provides.len() ==> !entry_names(
                            pkg_utils::dependency_name(#[trigger] table[i].provides[k]),
                            name,
                        )),
            }
        }),
{
    let name = pkg_utils::dependency_name(package);
    let other = repo::canonical(name);
    database::lookup_finds(table, name);
    database::lookup_finds(table, other);
    provider_provides(table, name, 0);
    if database::lookup_package(table, name) is None && database::lookup_package(table, other)
        is None && provider_from(table, name, 0) is None {
        assert forall|i: int| 0 <= i < table.len() implies (#[trigger] table[i]).name != name
            && table[i].name != other && (forall|k: int|
            0 <= k < table[i].provides.len() ==> !entry_names(
                pkg_utils::dependency_name(#[trigger] table[i].provides[k]),
                name,
            )) by {
            assert(!provides_name(table[i].provides, name));
        }
    }
}

proof fn provider_provides(table: Seq<database::InstalledView>, name: Seq<char>, from: int)
    requires
        0 <= from <= table.len(),
    ensures
        match provider_from(table, name, from) {
            Some(p) => table.contains(p) && (provides_name(p.provides, name) || provides_name(
                p.provides,
                repo::canonical(name),
            )),
            None => forall|i: int|
                from <= i < table.len() ==> !provides_name((#[trigger] table[i]).provides, name)
                    && !provides_name(table[i].provides, repo::canonical(name)),
        },
    decreases table.len() - from,
{
    if from < table.len() {
        provider_provides(table, name, from + 1);
    }
}

/// The packages to delete are the installed ones that were named, one for each
/// name, in order; a name that is not installed is refused, the first one
/// first.
pub proof fn named_packages_are_deleted(
    table: Seq<database::InstalledView>,
    packages: Seq<Seq<char>>,
)
    ensures
        match to_delete(table, packages) {
            Ok(v) => v.len() == packages.len() && (forall|i: int|
                0 <= i < packages.len() ==> Some(v[i]) == installed_as(
                    table,
                    #[trigger] packages[i],
                )),
            Err(name) => exists|i: int|
                0 <= i < packages.len() && #[trigger] packages[i] == name && installed_as(
                    table,
                    packages[i],
                ) is None && (forall|k: int|
                    0 <= k < i ==> installed_as(table, #[trigger] packages[k]) is Some),
        },
    decreases packages.len(),
{
    if packages.len() > 0 {
        let init = packages.drop_last();
        named_packages_are_deleted(table, init);
        assert(forall|k: int| 0 <= k < init.len() ==> #[trigger] init[k] == packages[k]);
        assert(packages[packages.len() - 1] == packages.last());
        match to_delete(table, init) {
            Err(name) => {
                let i = choose|i: int|
                    0 <= i < init.len() && #[trigger] init[i] == name && installed_as(
                        table,
                        init[i],
                    ) is None && (forall|k: int|
                        0 <= k < i ==> installed_as(table, #[trigger] init[k]) is Some);
                assert(packages[i] == name);
                assert forall|k: int| 0 <= k < i implies installed_as(
                    table,
                    #[trigger] packages[k],
                ) is Some by {
                    assert(init[k] == packages[k]);
                }
            },
            Ok(v) => {
                assert forall|k: int| 0 <= k < init.len() implies Some(v[k]) == installed_as(
                    table,
                    #[trigger] packages[k],
                ) by {
                    assert(init[k] == packages[k]);
                }
            },
        }
    }
}

/// A package that requires one that is to be deleted is told of, unless it is
/// that package itself.
pub proof fn dependents_are_noticed(
    package: database::InstalledView,
    removals: Seq<database::InstalledView>,
)
    ensures
        forall|i: int, k: int|
            0 <= i < removals.len() && 0 <= k < package.requires.len()
                && #[trigger] package.requires[k] == (#[trigger] removals[i]).name && package.name
                != removals[i].name ==> depends_on_any(package, removals),
        depends_on_any(package, removals) ==> exists|i: int, k: int|
            0 <= i < removals.len() && 0 <= k < package.requires.len()
                && #[trigger] package.requires[k] == (#[trigger] removals[i]).name && package.name
                != removals[i].name,
{
    if depends_on_any(package, removals) {
        let i = choose|i: int|
            0 <= i < removals.len() && package.name != (#[trigger] removals[i]).name
                && package.requires.contains(removals[i].name);
        let k = choose|k: int|
            0 <= k < package.requires.len() && package.requires[k] == removals[i].name;
        assert(package.requires[k] == removals[i].name);
    }
    assert forall|i: int, k: int|
        0 <= i < removals.len() && 0 <= k < package.requires.len()
            && #[trigger] package.requires[k] == (#[trigger] removals[i]).name && package.name
            != removals[i].name implies depends_on_any(package, removals) by {
        assert(package.requires.contains(removals[i].name));
    }
}

/// What local packages miss is what any of them depends on and nothing
/// installed is or provides, each name once.
pub proof fn missing_of_all_packages(
    table: Seq<database::InstalledView>,
    list: Seq<pkg_utils::MetadataView>,
    name: Seq<char>,
)
    ensures
        missing(table, all_depends(list)).contains(name) <==> installed_as(table, name) is None
            && exists|k: int, d: int|
            0 <= k < list.len() && 0 <= d < list[k].depends.len() && plan::kept(
                #[trigger] list[k].depends[d],
            ) == name,
        missing(table, all_depends(list)).no_duplicates(),
{
    let all = all_depends(list);
    missing_is_missing(table, all, name);
    if exists|i: int| 0 <= i < all.len() && plan::kept(#[trigger] all[i]) == name {
        let i = choose|i: int| 0 <= i < all.len() && plan::kept(#[trigger] all[i]) == name;
        assert(all.contains(all[i]));
        depends_of_all(list, all[i]);
        let (k, d) = choose|k: int, d: int|
            0 <= k < list.len() && 0 <= d < list[k].depends.len() && #[trigger] list[k].depends[d]
                == all[i];
        assert(plan::kept(list[k].depends[d]) == name);
    }
    if exists|k: int, d: int|
        0 <= k < list.len() && 0 <= d < list[k].depends.len() && plan::kept(
            #[trigger] list[k].depends[d],
        ) == name {
        let (k, d) = choose|k: int, d: int|
            0 <= k < list.len() && 0 <= d < list[k].depends.len() && plan::kept(
                #[trigger] list[k].depends[d],
            ) == name;
        depends_of_all(list, list[k].depends[d]);
        let i = choose|i: int| 0 <= i < all.len() && all[i] == list[k].depends[d];
        assert(plan::kept(all[i]) == name);
    }
}

proof fn depends_of_all(list: Seq<pkg_utils::MetadataView>, dep: Seq<char>)
    ensures
        all_depends(list).contains(dep) <==> exists|k: int, d: int|
            0 <= k < list.len() && 0 <= d < list[k].depends.len() && #[trigger] list[k].depends[d]
                == dep,
    decreases list.len(),
{
    if list.len() > 0 {
        let init = list.drop_last();
        let own = list.last().depends;
        let rest = all_depends(init);
        let all = all_depends(list);
        depends_of_all(init, dep);
        assert(forall|k: int| 0 <= k < init.len() ==> init[k] == #[trigger] list[k]);
        if all.contains(dep) {
            let i = choose|i: int| 0 <= i < all.len() && all[i] == dep;
            if i < rest.len() {
                assert(rest[i] == dep);
                let (k, d) = choose|k: int, d: int|
                    0 <= k < init.len() && 0 <= d < init[k].depends.len()
                        && #[trigger] init[k].depends[d] == dep;
                assert(list[k].depends[d] == dep);
            } else {
                assert(list[list.len() - 1].depends[i - rest.len()] == dep);
            }
        }
        if exists|k: int, d: int|
            0 <= k < list.len() && 0 <= d < list[k].depends.len() && #[trigger] list[k].depends[d]
                == dep {
            let (k, d) = choose|k: int, d: int|
                0 <= k < list.len() && 0 <= d < list[k].depends.len()
                    && #[trigger] list[k].depends[d] == dep;
            if k < init.len() {
                assert(init[k].depends[d] == dep);
                let i = choose|i: int| 0 <= i < rest.len() && rest[i] == dep;
                assert(all[i] == dep);
            } else {
                assert(all[rest.len() + d] == dep);
            }
        }
    }
}

/// What is known of a package is what is installed; if it is not, what the
/// repositories say of it.
pub proof fn what_is_installed_is_known(
    table: Seq<database::InstalledView>,
    repos: Seq<repo::RepoIndexView>,
    package: Seq<char>,
)
    ensures
        installed_as(table, package) is Some ==> known_package(table, repos, package)
            == installed_as(table, package),
        installed_as(table, package) is None ==> match (
            known_package(table, repos, package),
            repo::package_info(repos, package),
        ) {
            (Some(p), Some(info)) => {
                &&& p.name == info.name
                &&& p.version == info.version
                &&& p.requires == info.depends
                &&& p.optdepends == info.optdepends
                &&& p.conflicts == info.conflicts
                &&& p.provides == info.provides
            },
            (None, None) => true,
            _ => false,
        },
{
}

/// Each dependency that is reported is marked by whether it is installed.
pub proof fn marks_tell_what_is_installed(
    table: Seq<database::InstalledView>,
    depends: Seq<Seq<char>>,
    i: int,
)
    requires
        0 <= i < depends.len(),
    ensures
        with_presence(table, depends).len() == depends.len(),
        with_presence(table, depends)[i].0 == depends[i],
        with_presence(table, depends)[i].1 <==> installed_as(table, depends[i]) is Some,
{
}

// ---------------------------------------------------------------------------
// What is allowed

/// A package is installed exactly if it is not blocked and is for every
/// architecture, for the configured one, or says nothing of it.
pub proof fn only_fitting_packages_are_accepted(cfg: config::ConfigView, m: pkg_utils::MetadataView)
    ensures
        refused(cfg, m) is None <==> !list_names(cfg.blocked_packages, m.name) && (m.arch.len()
            == 0 || m.arch == "any"@ || m.arch == cfg.arch),
{
}

/// An entry without a star names the packages that have its text as their own
/// name or as the name that they are kept under, and no other, whatever the
/// case.
pub proof fn an_entry_names_its_package(entry: Seq<char>, package: Seq<char>)
    requires
        entry.len() == 0 || entry.last() != '*',
    ensures
        list_names(seq![entry], package) <==> text::ascii_lower(entry) == text::ascii_lower(package)
            || text::ascii_lower(entry) == text::ascii_lower(repo::canonical(package)),
{
    reveal_strlit("*");
    let e = text::ascii_lower(entry);
    let list = seq![entry];
    assert(list[0] == entry);
    assert(!text::has_suffix(e, "*"@)) by {
        if text::has_suffix(e, "*"@) {
            assert(e.skip(e.len() - 1)[0] == e.last());
            assert(e.last() == text::lower_char(entry.last()));
            lower_keeps_star(entry.last());
        }
    }
    if entry_names(entry, package) {
        assert(entry_names(list[0], package));
    }
}

proof fn lower_keeps_star(c: char)
    ensures
        text::lower_char(c) == '*' <==> c == '*',
{
    if 'A' <= c && c <= 'Z' {
        let b = c as u8;
        assert(65 <= b <= 90);
        assert(text::lower_char(c) as u8 == b + 32);
    }
}

/// An entry with a star at its end names the packages whose own name, or the
/// name that they are kept under, begins with what stands before the star.
pub proof fn a_star_names_what_begins_so(start: Seq<char>, package: Seq<char>)
    requires
        start.len() == 0 || start.last() != '*',
    ensures
        list_names(seq![start.push('*')], package) <==> text::has_prefix(
            text::ascii_lower(package),
            text::ascii_lower(start),
        ) || text::has_prefix(
            text::ascii_lower(repo::canonical(package)),
            text::ascii_lower(start),
        ),
{
    reveal_strlit("*");
    let entry = start.push('*');
    let list = seq![entry];
    let e = text::ascii_lower(entry);
    let low = text::ascii_lower(start);
    lower_keeps_star('*');
    assert(e =~= low.push('*'));
    assert(e.skip(e.len() - 1) =~= "*"@);
    assert(low.len() == 0 || low.last() != '*') by {
        if low.len() > 0 {
            assert(low.last() == text::lower_char(start.last()));
            lower_keeps_star(start.last());
        }
    }
    text::end_kept(low, '*');
    if low.len() == 0 {
        assert(text::ascii_lower(package).take(0) =~= low);
    }
    assert(list[0] == entry);
    if entry_names(entry, package) {
        assert(entry_names(list[0], package));
    }
}

/// Under another root, everything that a command writes lies below that root,
/// whatever a script of it sets: the files, the cache and, unless the script
/// moves it, the database.
pub proof fn another_root_holds_everything(
    cfg: config::ConfigView,
    root: Seq<char>,
    script: Seq<char>,
    outcome: Option<ScriptSettings>,
    mirrorlist: Seq<char>,
)
    ensures
        ({
            let moved = for_root(cfg, root, script, outcome, mirrorlist);
            &&& moved.install_root == root
            &&& moved.cache_path == path::joined(root, "var/cache/lkpm"@)
            &&& moved.log_path == cfg.log_path
            &&& outcome is None ==> moved.db_path == path::joined(root, "var/db/lkpm"@)
        }),
{
}

// ---------------------------------------------------------------------------
// Connections

proof fn reached_counts(outcomes: Seq<Result<bool, LkpmError>>)
    ensures
        reached(outcomes) <= outcomes.len(),
        reached(outcomes) > 0 <==> exists|i: int|
            0 <= i < outcomes.len() && ((#[trigger] outcomes[i]) matches Ok(b) && b),
    decreases outcomes.len(),
{
    if outcomes.len() > 0 {
        let init = outcomes.drop_last();
        reached_counts(init);
        assert(outcomes[outcomes.len() - 1] == outcomes.last());
        if exists|i: int| 0 <= i < init.len() && ((#[trigger] init[i]) matches Ok(b) && b) {
            let i = choose|i: int| 0 <= i < init.len() && ((#[trigger] init[i]) matches Ok(b) && b);
            assert(outcomes[i] == init[i]);
        }
        if exists|i: int|
            0 <= i < outcomes.len() && ((#[trigger] outcomes[i]) matches Ok(b) && b) {
            let i = choose|i: int|
                0 <= i < outcomes.len() && ((#[trigger] outcomes[i]) matches Ok(b) && b);
            if i < init.len() {
                assert(init[i] == outcomes[i]);
            }
        }
    }
}

/// The number of repositories that can be reached is more than none exactly if
/// one of them can.
pub proof fn one_reached_repository_is_enough(outcomes: Seq<Result<bool, LkpmError>>)
    ensures
        reached(outcomes) > 0 <==> exists|i: int|
            0 <= i < outcomes.len() && ((#[trigger] outcomes[i]) matches Ok(b) && b),
        reached(outcomes) <= outcomes.len(),
{
    reached_counts(outcomes);
}

/// Each repository is told of under its own address, in order, by what came of
/// reaching it.
pub proof fn every_connection_is_told(
    cfg: config::ConfigView,
    core: Seq<Result<bool, LkpmError>>,
    extra: Seq<Result<bool, LkpmError>>,
    i: int,
)
    requires
        core.len() == cfg.core_repos.len(),
        extra.len() == cfg.extra_mirrors.len(),
        0 <= i < core.len() + extra.len(),
    ensures
        ({
            let n = core.len() as int;
            let said = connection_report(cfg, core, extra)[1 + i];
            let url = if i < n {
                cfg.core_repos[i]
            } else {
                repo::with_slash(cfg.extra_mirrors[i - n])
            };
            let outcome = if i < n {
                core[i]
            } else {
                extra[i - n]
            };
            if outcome matches Ok(b) && b {
                said == ui::NoticeView::Success("Connected: "@ + url)
            } else {
                said matches ui::NoticeView::Error(m) && text::has_prefix(
                    m,
                    "Failed to connect "@ + url + "!"@,
                )
            }
        }),
{
    reveal_strlit("Failed to connect ");
    reveal_strlit("!");
    reveal_strlit("! Error message: ");
    let n = core.len() as int;
    let said = connection_report(cfg, core, extra)[1 + i];
    let url = if i < n {
        cfg.core_repos[i]
    } else {
        repo::with_slash(cfg.extra_mirrors[i - n])
    };
    let outcome = if i < n {
        core[i]
    } else {
        extra[i - n]
    };
    assert(said == connection_notice(url, outcome));
    let start = "Failed to connect "@ + url + "!"@;
    assert(start.take(start.len() as int) =~= start);
    if let Err(e) = outcome {
        let m = "Failed to connect "@ + url + "! Error message: "@ + error::error_message(e@);
        assert(m.take(start.len() as int) =~= start);
    }
}

/// The dependencies of several targets are those of each, in order; a target
/// without a description has none.
pub proof fn dependencies_of_all_targets(a: Seq<plan::TargetView>, b: Seq<plan::TargetView>)
    ensures
        known_depends(a + b) == known_depends(a) + known_depends(b),
        known_optdepends(a + b) == known_optdepends(a) + known_optdepends(b),
        b.len() == 1 && b[0].metadata is Some ==> known_depends(b) == b[0].metadata->0.depends
            && known_optdepends(b) == b[0].metadata->0.optdepends,
        b.len() == 1 && b[0].metadata is None ==> known_depends(b).len() == 0 && known_optdepends(
            b,
        ).len() == 0,
    decreases b.len(),
{
    if b.len() == 0 {
        assert(a + b =~= a);
        assert(known_depends(a) + known_depends(b) =~= known_depends(a));
        assert(known_optdepends(a) + known_optdepends(b) =~= known_optdepends(a));
    } else {
        dependencies_of_all_targets(a, b.drop_last());
        assert((a + b).drop_last() =~= a + b.drop_last());
        assert((a + b).last() == b.last());
        assert(known_depends(a + b) =~= known_depends(a) + known_depends(b));
        assert(known_optdepends(a + b) =~= known_optdepends(a) + known_optdepends(b));
        if b.len() == 1 {
            assert(b.drop_last() =~= seq![]);
            assert(known_depends(b.drop_last()) =~= seq![]);
            assert(known_optdepends(b.drop_last()) =~= seq![]);
            if b[0].metadata is Some {
                assert(known_depends(b) =~= b[0].metadata->0.depends);
                assert(known_optdepends(b) =~= b[0].metadata->0.optdepends);
            }
        }
    }
}

/// A package is reported on exactly if it has something to report: what it
/// requires, with whether that is there, then what is optional, then what it
/// conflicts with.
pub proof fn a_package_is_reported_in_full(
    table: Seq<database::InstalledView>,
    p: database::InstalledView,
    k: int,
)
    ensures
        package_report(table, p) is None <==> p.requires.len() + p.optdepends.len()
            + p.conflicts.len() == 0,
        package_report(table, p) matches Some(lines) ==> {
            let n = 1 + p.requires.len() + p.optdepends.len();
            &&& 0 <= k < p.optdepends.len() ==> lines[1 + p.requires.len() + k] == "    ‣ "@
                + p.optdepends[k] + " ("@ + "optional"@ + ")"@
            &&& 0 <= k < p.conflicts.len() ==> lines[n + 1 + k] == "    ‣ "@ + p.conflicts[k]
            &&& p.conflicts.len() == 0 ==> lines.len() == n
            &&& p.conflicts.len() > 0 ==> lines.len() == n + 1 + p.conflicts.len()
        },
{
    let required = with_presence(table, p.requires);
    assert(required.len() == p.requires.len());
    ui::every_dependency_is_reported(required, p.optdepends, k);
    if 0 <= k < p.conflicts.len() {
        ui::every_entry_is_reported("Conflicting packages"@, p.conflicts, k);
    }
}

} // verus!
