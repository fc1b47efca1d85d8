//! The course of a command, stage by stage.
use vstd::prelude::*;

use crate::batch::BatchKind;
use crate::cli;
use crate::cli::Command;
use crate::database::InstalledPackage;
use crate::error;
use crate::error::LkpmError;
use crate::manager::UpdateTarget;
use crate::text;
use crate::ui;
use crate::ui::Notice;

verus! {

/// A stage of a command.
#[derive(PartialEq, Eq, Structural, Clone, Copy, Debug)]
pub enum Stage {
    /// Move to the root that the command gives.
    ApplyRoot,
    /// Make the directories for the cache and the database.
    EnsureStorage,
    LoadDatabase,
    /// The command must name packages.
    RequirePackages,
    /// The user must be allowed to change the system.
    RequireRoot,
    /// Fetch the metadata of the repositories.
    Refresh,
    CheckConnections,
    /// Find what is to be installed.
    BuildTargets,
    /// Find what the targets depend on, and the order of installation.
    ResolvePlan,
    /// Read the metadata of local packages.
    ReadLocalPackages,
    /// Find the dependencies of local packages that are not installed.
    FindMissing,
    /// Ask the user.
    Confirm,
    /// Install the dependencies of local packages that are not installed.
    InstallMissing,
    Download,
    /// Read and check the packages that are to be installed.
    PrepareItems,
    /// Extract, register and finish the packages.
    RunBatch,
    /// Find the packages that are to be deleted.
    FindRemovals,
    /// Say what depends on them.
    ReportDependents,
    /// Delete their files.
    Cleanup,
    /// Take them out of the database.
    DeleteRecords,
    /// Find the packages that an update is asked for.
    FindCandidates,
    /// None of them may be blocked.
    CheckBlocked,
    FindUpdates,
    /// Run the update that follows a refresh.
    RunUpdate,
    /// Say what is known of a package.
    DescribePackage,
    Summarize,
    ShowHelp,
}

/// What every command that works on a root begins with.
pub open spec fn opening() -> Seq<Stage> {
    seq![Stage::ApplyRoot, Stage::EnsureStorage, Stage::LoadDatabase]
}

/// The stages of a command.
pub open spec fn stages_of(cmd: cli::CommandView) -> Seq<Stage> {
    opening() + match cmd {
        cli::CommandView::Install { local, install_deps, .. } => if local && install_deps {
            seq![
                Stage::RequirePackages,
                Stage::RequireRoot,
                Stage::ReadLocalPackages,
                Stage::FindMissing,
                Stage::Confirm,
                Stage::InstallMissing,
                Stage::PrepareItems,
                Stage::RunBatch,
                Stage::Summarize,
            ]
        } else if local {
            seq![
                Stage::RequirePackages,
                Stage::RequireRoot,
                Stage::ReadLocalPackages,
                Stage::Confirm,
                Stage::PrepareItems,
                Stage::RunBatch,
                Stage::Summarize,
            ]
        } else if install_deps {
            seq![
                Stage::RequirePackages,
                Stage::RequireRoot,
                Stage::Refresh,
                Stage::CheckConnections,
                Stage::BuildTargets,
                Stage::ResolvePlan,
                Stage::Confirm,
                Stage::Download,
                Stage::PrepareItems,
                Stage::RunBatch,
                Stage::Summarize,
            ]
        } else {
            seq![
                Stage::RequirePackages,
                Stage::RequireRoot,
                Stage::Refresh,
                Stage::CheckConnections,
                Stage::BuildTargets,
                Stage::Confirm,
                Stage::Download,
                Stage::PrepareItems,
                Stage::RunBatch,
                Stage::Summarize,
            ]
        },
        cli::CommandView::Delete { .. } => seq![
            Stage::RequirePackages,
            Stage::RequireRoot,
            Stage::FindRemovals,
            Stage::ReportDependents,
            Stage::Confirm,
            Stage::Cleanup,
            Stage::DeleteRecords,
            Stage::Summarize,
        ],
        cli::CommandView::Refresh { .. } => seq![
            Stage::RequireRoot,
            Stage::Refresh,
            Stage::CheckConnections,
        ],
        cli::CommandView::Update { .. } => seq![
            Stage::RequireRoot,
            Stage::FindCandidates,
            Stage::CheckBlocked,
            Stage::FindUpdates,
            Stage::Confirm,
            Stage::Download,
            Stage::PrepareItems,
            Stage::RunBatch,
            Stage::Summarize,
        ],
        cli::CommandView::UpdateRefresh { .. } => seq![
            Stage::RequireRoot,
            Stage::Refresh,
            Stage::CheckConnections,
            Stage::Confirm,
            Stage::RunUpdate,
        ],
        cli::CommandView::Package { .. } => seq![Stage::RequireRoot, Stage::DescribePackage],
        cli::CommandView::Help => seq![Stage::ShowHelp],
    }
}

/// The stages of a command.
pub fn stages(cmd: &Command) -> (r: Vec<Stage>)
    ensures
        r@ == stages_of(cmd@),
{
    let mut out = vec![Stage::ApplyRoot, Stage::EnsureStorage, Stage::LoadDatabase];
    let ghost start = out@;
    let mut rest = match cmd {
        Command::Install { local, install_deps, .. } => if *local && *install_deps {
            vec![
                Stage::RequirePackages,
                Stage::RequireRoot,
                Stage::ReadLocalPackages,
                Stage::FindMissing,
                Stage::Confirm,
                Stage::InstallMissing,
                Stage::PrepareItems,
                Stage::RunBatch,
                Stage::Summarize,
            ]
        } else if *local {
            vec![
                Stage::RequirePackages,
                Stage::RequireRoot,
                Stage::ReadLocalPackages,
                Stage::Confirm,
                Stage::PrepareItems,
                Stage::RunBatch,
                Stage::Summarize,
            ]
        } else if *install_deps {
            vec![
                Stage::RequirePackages,
                Stage::RequireRoot,
                Stage::Refresh,
                Stage::CheckConnections,
                Stage::BuildTargets,
                Stage::ResolvePlan,
                Stage::Confirm,
                Stage::Download,
                Stage::PrepareItems,
                Stage::RunBatch,
                Stage::Summarize,
            ]
        } else {
            vec![
                Stage::RequirePackages,
                Stage::RequireRoot,
                Stage::Refresh,
                Stage::CheckConnections,
                Stage::BuildTargets,
                Stage::Confirm,
                Stage::Download,
                Stage::PrepareItems,
                Stage::RunBatch,
                Stage::Summarize,
            ]
        },
        Command::Delete { .. } => vec![
            Stage::RequirePackages,
            Stage::RequireRoot,
            Stage::FindRemovals,
            Stage::ReportDependents,
            Stage::Confirm,
            Stage::Cleanup,
            Stage::DeleteRecords,
            Stage::Summarize,
        ],
        Command::Refresh { .. } => vec![
            Stage::RequireRoot,
            Stage::Refresh,
            Stage::CheckConnections,
        ],
        Command::Update { .. } => vec![
            Stage::RequireRoot,
            Stage::FindCandidates,
            Stage::CheckBlocked,
            Stage::FindUpdates,
            Stage::Confirm,
            Stage::Download,
            Stage::PrepareItems,
            Stage::RunBatch,
            Stage::Summarize,
        ],
        Command::UpdateRefresh { .. } => vec![
            Stage::RequireRoot,
            Stage::Refresh,
            Stage::CheckConnections,
            Stage::Confirm,
            Stage::RunUpdate,
        ],
        Command::Package { .. } => vec![Stage::RequireRoot, Stage::DescribePackage],
        Command::Help => vec![Stage::ShowHelp],
    };
    let ghost added = rest@;
    out.append(&mut rest);
    assert(out@ =~= start + added);
    assert(out@ =~= stages_of(cmd@));
    out
}

/// Whether a stage changes the system.
pub open spec fn changes_system(stage: Stage) -> bool {
    stage == Stage::InstallMissing || stage == Stage::RunBatch || stage == Stage::Cleanup || stage
        == Stage::DeleteRecords || stage == Stage::RunUpdate
}

/// Nothing is installed, updated or deleted before the user was asked and was
/// found to be allowed to.
pub proof fn asked_before_changes(cmd: cli::CommandView, i: int)
    requires
        0 <= i < stages_of(cmd).len(),
        changes_system(stages_of(cmd)[i]),
    ensures
        exists|a: int, b: int|
            0 <= a < b < i && #[trigger] stages_of(cmd)[a] == Stage::RequireRoot
                && #[trigger] stages_of(cmd)[b] == Stage::Confirm,
{
    let s = stages_of(cmd);
    match cmd {
        cli::CommandView::Install { local, install_deps, .. } => {
            assert(s[4] == Stage::RequireRoot);
            if local && install_deps {
                assert(s[7] == Stage::Confirm);
            } else if local {
                assert(s[6] == Stage::Confirm);
            } else if install_deps {
                assert(s[9] == Stage::Confirm);
            } else {
                assert(s[8] == Stage::Confirm);
            }
        },
        cli::CommandView::Delete { .. } => {
            assert(s[4] == Stage::RequireRoot);
            assert(s[7] == Stage::Confirm);
        },
        cli::CommandView::Update { .. } => {
            assert(s[3] == Stage::RequireRoot);
            assert(s[7] == Stage::Confirm);
        },
        cli::CommandView::UpdateRefresh { .. } => {
            assert(s[3] == Stage::RequireRoot);
            assert(s[6] == Stage::Confirm);
        },
        _ => {},
    }
}

// ---------------------------------------------------------------------------
// Sessions

/// How a stage ended.
pub enum StageOutcome {
    Done,
    /// There is nothing more to do: the user said no, or there was nothing.
    Stop,
    Failed(LkpmError),
}

/// How a stage ended, with its texts taken as sequences of characters.
pub enum OutcomeView {
    Done,
    Stop,
    Failed(error::ErrorView),
}

impl View for StageOutcome {
    type V = OutcomeView;

    open spec fn view(&self) -> OutcomeView {
        match self {
            StageOutcome::Done => OutcomeView::Done,
            StageOutcome::Stop => OutcomeView::Stop,
            StageOutcome::Failed(e) => OutcomeView::Failed(e@),
        }
    }
}

/// A command under way.
pub struct Session {
    pub stages: Vec<Stage>,
    pub at: usize,
    pub failure: Option<LkpmError>,
}

/// A command under way, with its texts taken as sequences of characters.
pub struct SessionView {
    pub stages: Seq<Stage>,
    pub at: nat,
    pub failure: Option<error::ErrorView>,
}

impl View for Session {
    type V = SessionView;

    open spec fn view(&self) -> SessionView {
        SessionView {
            stages: self.stages@,
            at: self.at as nat,
            failure: match self.failure {
                Some(e) => Some(e@),
                None => None,
            },
        }
    }
}

/// A command after a stage has ended. A stage that is not done ends the command.
pub open spec fn after_stage(s: SessionView, outcome: OutcomeView) -> SessionView {
    if s.at >= s.stages.len() {
        s
    } else {
        match outcome {
            OutcomeView::Done => SessionView { at: s.at + 1, ..s },
            OutcomeView::Stop => SessionView { at: s.stages.len(), ..s },
            OutcomeView::Failed(e) => SessionView {
                at: s.stages.len(),
                failure: Some(e),
                ..s
            },
        }
    }
}

/// The stage that a command is at.
pub open spec fn current(s: SessionView) -> Option<Stage> {
    if s.at < s.stages.len() {
        Some(s.stages[s.at as int])
    } else {
        None
    }
}

/// Begins a command.
pub fn handle(cmd: &Command) -> (r: Session)
    ensures
        r@ == (SessionView { stages: stages_of(cmd@), at: 0, failure: None }),
{
    Session { stages: stages(cmd), at: 0, failure: None }
}

impl Session {
    /// The stage that the command is at; none once it has ended.
    pub fn stage(&self) -> (r: Option<Stage>)
        ensures
            r == current(self@),
    {
        if self.at < self.stages.len() {
            Some(self.stages[self.at])
        } else {
            None
        }
    }

    /// Takes down how the stage ended.
    pub fn advance(&mut self, outcome: StageOutcome)
        ensures
            final(self)@ == after_stage(old(self)@, outcome@),
    {
        if self.at < self.stages.len() {
            match outcome {
                StageOutcome::Done => {
                    self.at = self.at + 1;
                },
                StageOutcome::Stop => {
                    self.at = self.stages.len();
                },
                StageOutcome::Failed(e) => {
                    self.at = self.stages.len();
                    self.failure = Some(e);
                },
            }
        }
    }

    /// Why the command failed, if it did.
    pub fn into_result(self) -> (r: Result<(), LkpmError>)
        ensures
            match r {
                Ok(_) => self@.failure is None,
                Err(e) => self@.failure == Some(e@),
            },
    {
        match self.failure {
            Some(e) => Err(e),
            None => Ok(()),
        }
    }
}

/// A command after a list of outcomes.
pub open spec fn after_stages(s: SessionView, outcomes: Seq<OutcomeView>) -> SessionView
    decreases outcomes.len(),
{
    if outcomes.len() == 0 {
        s
    } else {
        after_stage(after_stages(s, outcomes.drop_last()), outcomes.last())
    }
}

/// A command reaches a stage only if every stage before it was done.
pub proof fn reached_only_when_done(cmd: cli::CommandView, outcomes: Seq<OutcomeView>)
    ensures
        ({
            let start = SessionView { stages: stages_of(cmd), at: 0, failure: None };
            let now = after_stages(start, outcomes);
            current(now) is Some ==> {
                &&& now.at == outcomes.len()
                &&& now.failure is None
                &&& forall|i: int| 0 <= i < outcomes.len() ==> #[trigger] outcomes[i] is Done
            }
        }),
        after_stages(
            SessionView { stages: stages_of(cmd), at: 0, failure: None },
            outcomes,
        ).stages == stages_of(cmd),
    decreases outcomes.len(),
{
    let start = SessionView { stages: stages_of(cmd), at: 0, failure: None };
    if outcomes.len() > 0 {
        let init = outcomes.drop_last();
        reached_only_when_done(cmd, init);
        let now = after_stages(start, outcomes);
        if current(now) is Some {
            assert forall|i: int| 0 <= i < outcomes.len() implies #[trigger] outcomes[i] is Done by {
                if i < init.len() {
                    assert(init[i] is Done);
                    assert(init[i] == outcomes[i]);
                } else {
                    assert(outcomes[i] == outcomes.last());
                }
            }
        }
    }
}

// ---------------------------------------------------------------------------
// What is asked and required

/// What is said to a command that names no packages but has to.
pub open spec fn no_packages(cmd: cli::CommandView) -> Option<Seq<char>> {
    match cmd {
        cli::CommandView::Install { packages, local, .. } => if packages.len() > 0 {
            None
        } else if local {
            Some("No local package file(s) specified for installation!"@)
        } else {
            Some("No packages specified for installation!"@)
        },
        cli::CommandView::Delete { packages, .. } => if packages.len() > 0 {
            None
        } else {
            Some("No packages specified for deletion!"@)
        },
        _ => None,
    }
}

/// A command that installs or deletes must name packages.
pub fn require_packages(cmd: &Command) -> (r: Result<(), LkpmError>)
    ensures
        match r {
            Ok(_) => no_packages(cmd@) is None,
            Err(e) => no_packages(cmd@) matches Some(m) && e@ == error::ErrorView::Other(m),
        },
{
    match cmd {
        Command::Install { packages, local, .. } => {
            assert(text::texts(packages@).len() == packages@.len());
            if packages.len() > 0 {
                Ok(())
            } else if *local {
                Err(error::other("No local package file(s) specified for installation!"))
            } else {
                Err(error::other("No packages specified for installation!"))
            }
        },
        Command::Delete { packages, .. } => {
            assert(text::texts(packages@).len() == packages@.len());
            if packages.len() > 0 {
                Ok(())
            } else {
                Err(error::other("No packages specified for deletion!"))
            }
        },
        _ => Ok(()),
    }
}

/// A question, what no answer means, and what is said if the answer is no.
pub struct Question {
    pub prompt: String,
    pub default: bool,
    pub refusal: String,
}

/// The question of a command: its prompt, what no answer means, and what is
/// said if the answer is no.
pub open spec fn question_of(cmd: cli::CommandView) -> Option<(Seq<char>, bool, Seq<char>)> {
    match cmd {
        cli::CommandView::Install { .. } => Some(
            ("Proceed to install?"@, true, "Installation aborted by the user."@),
        ),
        cli::CommandView::Delete { .. } => Some(
            ("Proceed to delete?"@, false, "Deletion aborted by the user."@),
        ),
        cli::CommandView::Update { .. } => Some(
            (
                "These package(s) will be updated to the new version. Proceed to update?"@,
                true,
                "Update aborted by the user."@,
            ),
        ),
        cli::CommandView::UpdateRefresh { .. } => Some(
            (
                "Proceed with update after refresh?"@,
                true,
                "Update after refresh aborted by the user."@,
            ),
        ),
        _ => None,
    }
}

fn ask(prompt: &str, default: bool, refusal: &str) -> (r: Question)
    ensures
        r.prompt@ == prompt@,
        r.default == default,
        r.refusal@ == refusal@,
{
    Question { prompt: prompt.to_owned(), default, refusal: refusal.to_owned() }
}

/// The question of a command.
pub fn question(cmd: &Command) -> (r: Option<Question>)
    ensures
        match r {
            Some(q) => question_of(cmd@) == Some((q.prompt@, q.default, q.refusal@)),
            None => question_of(cmd@) is None,
        },
{
    match cmd {
        Command::Install { .. } => Some(
            ask("Proceed to install?", true, "Installation aborted by the user."),
        ),
        Command::Delete { .. } => Some(
            ask("Proceed to delete?", false, "Deletion aborted by the user."),
        ),
        Command::Update { .. } => Some(
            ask(
                "These package(s) will be updated to the new version. Proceed to update?",
                true,
                "Update aborted by the user.",
            ),
        ),
        Command::UpdateRefresh { .. } => Some(
            ask(
                "Proceed with update after refresh?",
                true,
                "Update after refresh aborted by the user.",
            ),
        ),
        _ => None,
    }
}

/// What the batch of a command does.
pub open spec fn kind_of(cmd: cli::CommandView) -> BatchKind {
    match cmd {
        cli::CommandView::Install { local, .. } => if local {
            BatchKind::Local
        } else {
            BatchKind::Remote
        },
        cli::CommandView::Update { .. } => BatchKind::Update,
        _ => BatchKind::Remote,
    }
}

/// What the batch of a command does.
pub fn batch_kind(cmd: &Command) -> (r: BatchKind)
    ensures
        r == kind_of(cmd@),
{
    match cmd {
        Command::Install { local, .. } => if *local {
            BatchKind::Local
        } else {
            BatchKind::Remote
        },
        Command::Update { .. } => BatchKind::Update,
        _ => BatchKind::Remote,
    }
}

/// The command that follows a refresh: an update of the same packages.
pub fn following_update(cmd: &Command) -> (r: Option<Command>)
    ensures
        match cmd@ {
            cli::CommandView::UpdateRefresh { packages, noconfirm, root } => r matches Some(c) && c@
                == (cli::CommandView::Update { packages, noconfirm, root }),
            _ => r is None,
        },
{
    match cmd {
        Command::UpdateRefresh { packages, noconfirm, root } => Some(
            Command::Update {
                packages: text::copy_all(packages),
                noconfirm: *noconfirm,
                root: cli::copy_opt(root),
            },
        ),
        _ => None,
    }
}

/// What comes of the search for packages to update: without any there is
/// nothing more to do, and the user is told.
pub fn after_candidates(candidates: &Vec<InstalledPackage>) -> (r: (StageOutcome, Option<Notice>))
    ensures
        if candidates@.len() == 0 {
            r.1 matches Some(n) && r.0 is Stop && n@ == ui::NoticeView::Warning(
                "No installed packages found to update!"@,
            )
        } else {
            r.0 is Done && r.1 is None
        },
{
    if candidates.len() == 0 {
        let m = "No installed packages found to update!".to_owned();
        (StageOutcome::Stop, Some(Notice::Warning(m)))
    } else {
        (StageOutcome::Done, None)
    }
}

/// What comes of the search for updates: without any there is nothing more to
/// do, and the user is told.
pub fn after_updates(updates: &Vec<UpdateTarget>) -> (r: (StageOutcome, Option<Notice>))
    ensures
        if updates@.len() == 0 {
            r.1 matches Some(n) && r.0 is Stop && n@ == ui::NoticeView::Success(
                "No updates available at this time."@,
            )
        } else {
            r.0 is Done && r.1 is None
        },
{
    if updates.len() == 0 {
        let m = "No updates available at this time.".to_owned();
        (StageOutcome::Stop, Some(Notice::Success(m)))
    } else {
        (StageOutcome::Done, None)
    }
}

/// What comes of a question: if the user says no there is nothing more to do.
pub fn after_question(confirmed: bool) -> (r: StageOutcome)
    ensures
        if confirmed {
            r is Done
        } else {
            r is Stop
        },
{
    if confirmed {
        StageOutcome::Done
    } else {
        StageOutcome::Stop
    }
}

/// The command that installs the missing dependencies of local packages: with
/// their own dependencies, without asking, and under the same root.
pub fn missing_install(cmd: &Command, missing: &Vec<String>) -> (r: Command)
    ensures
        r@ == (cli::CommandView::Install {
            packages: text::texts(missing@),
            install_deps: true,
            local: false,
            noconfirm: true,
            root: cli::root_of(cmd@),
        }),
{
    Command::Install {
        packages: text::copy_all(missing),
        install_deps: true,
        local: false,
        noconfirm: true,
        root: cmd.root(),
    }
}

/// The lines of the help text.
pub open spec fn help_text() -> Seq<Seq<char>> {
    seq![
        ""@,
        "-----------------------------------------"@,
        "::: [ Liska Package Manager (1.1.0) ] :::"@,
        "-----------------------------------------"@,
        ""@,
        "Usage: lkpm <command> [options]"@,
        "> -i <pkgs>                  install a package(s) to the system"@,
        "> -id | -di <pkgs>           install a package(s) and its dependencies to the system"@,
        "> -l <files>                 install a local package(s) directly from local directory, bypassing repositories"@,
        "> -ld | -dl <files>          install a local package(s) and resolve missing dependencies from repositories"@,
        "> -u                         update the system by checking for updates to installed package(s)"@,
        "> -d <pkgs>                  delete installed package(s) from the system"@,
        "> -r                         refresh repository metadata"@,
        "> -ru | -ur <pkgs>           refresh repository metadata then update the system or specified package(s)"@,
        "> -p <pkg>                   show package dependencies and conflicts information"@,
        "> --noconfirm                skip interactive prompts and proceed with operation"@,
        "> --root=<path>              run lkpm command under another root directory"@,
        "> /etc/lkpm.d/config.lua     lkpm behaviour file configuration"@,
        "> /etc/lkpm.d/mirrorlist     lkpm mirrorlist file configuration"@,
        ""@,
    ]
}

/// The lines of the help text.
pub fn help_lines() -> (r: Vec<String>)
    ensures
        text::texts(r@) == help_text(),
{
    let r = vec![
        "".to_owned(),
        "-----------------------------------------".to_owned(),
        "::: [ Liska Package Manager (1.1.0) ] :::".to_owned(),
        "-----------------------------------------".to_owned(),
        "".to_owned(),
        "Usage: lkpm <command> [options]".to_owned(),
        "> -i <pkgs>                  install a package(s) to the system".to_owned(),
        "> -id | -di <pkgs>           install a package(s) and its dependencies to the system".to_owned(),
        "> -l <files>                 install a local package(s) directly from local directory, bypassing repositories".to_owned(),
        "> -ld | -dl <files>          install a local package(s) and resolve missing dependencies from repositories".to_owned(),
        "> -u                         update the system by checking for updates to installed package(s)".to_owned(),
        "> -d <pkgs>                  delete installed package(s) from the system".to_owned(),
        "> -r                         refresh repository metadata".to_owned(),
        "> -ru | -ur <pkgs>           refresh repository metadata then update the system or specified package(s)".to_owned(),
        "> -p <pkg>                   show package dependencies and conflicts information".to_owned(),
        "> --noconfirm                skip interactive prompts and proceed with operation".to_owned(),
        "> --root=<path>              run lkpm command under another root directory".to_owned(),
        "> /etc/lkpm.d/config.lua     lkpm behaviour file configuration".to_owned(),
        "> /etc/lkpm.d/mirrorlist     lkpm mirrorlist file configuration".to_owned(),
        "".to_owned(),
    ];
    assert(text::texts(r@) =~= help_text());
    r
}

// ---------------------------------------------------------------------------
// The order of the stages

/// Whether one stage comes before another.
pub open spec fn before(s: Seq<Stage>, first: Stage, second: Stage) -> bool {
    exists|i: int, j: int|
        0 <= i < j < s.len() && #[trigger] s[i] == first && #[trigger] s[j] == second
}

proof fn before_at(s: Seq<Stage>, i: int, j: int)
    requires
        0 <= i < j < s.len(),
    ensures
        before(s, s[i], s[j]),
{
}

/// What is installed from the repositories is refreshed, located, planned and
/// fetched, in this order, before any of it is unpacked.
pub proof fn installations_are_prepared(cmd: cli::CommandView)
    requires
        cmd matches cli::CommandView::Install { local, .. } && !local,
    ensures
        ({
            let s = stages_of(cmd);
            &&& before(s, Stage::RequirePackages, Stage::RequireRoot)
            &&& before(s, Stage::RequireRoot, Stage::Refresh)
            &&& before(s, Stage::Refresh, Stage::CheckConnections)
            &&& before(s, Stage::CheckConnections, Stage::BuildTargets)
            &&& cmd->install_deps ==> before(s, Stage::BuildTargets, Stage::ResolvePlan) && before(
                s,
                Stage::ResolvePlan,
                Stage::Confirm,
            )
            &&& !cmd->install_deps ==> !s.contains(Stage::ResolvePlan) && before(
                s,
                Stage::BuildTargets,
                Stage::Confirm,
            )
            &&& before(s, Stage::Confirm, Stage::Download)
            &&& before(s, Stage::Download, Stage::PrepareItems)
            &&& before(s, Stage::PrepareItems, Stage::RunBatch)
            &&& before(s, Stage::RunBatch, Stage::Summarize)
        }),
{
    let s = stages_of(cmd);
    before_at(s, 3, 4);
    before_at(s, 4, 5);
    before_at(s, 5, 6);
    before_at(s, 6, 7);
    before_at(s, 7, 8);
    before_at(s, 8, 9);
    before_at(s, 9, 10);
    before_at(s, 10, 11);
    before_at(s, 11, 12);
    if cmd->install_deps {
        before_at(s, 12, 13);
    }
}

/// Local packages are read before anything is asked, and nothing is fetched
/// for them but what they miss, if that is wanted.
pub proof fn local_installations_are_prepared(cmd: cli::CommandView)
    requires
        cmd matches cli::CommandView::Install { local, .. } && local,
    ensures
        ({
            let s = stages_of(cmd);
            &&& before(s, Stage::RequirePackages, Stage::RequireRoot)
            &&& before(s, Stage::RequireRoot, Stage::ReadLocalPackages)
            &&& before(s, Stage::ReadLocalPackages, Stage::Confirm)
            &&& before(s, Stage::Confirm, Stage::PrepareItems)
            &&& before(s, Stage::PrepareItems, Stage::RunBatch)
            &&& before(s, Stage::RunBatch, Stage::Summarize)
            &&& !s.contains(Stage::Download) && !s.contains(Stage::BuildTargets)
            &&& s.contains(Stage::FindMissing) == (cmd->Install_install_deps)
            &&& s.contains(Stage::InstallMissing) == (cmd->Install_install_deps)
            &&& cmd->Install_install_deps ==> before(s, Stage::FindMissing, Stage::Confirm)
                && before(s, Stage::Confirm, Stage::InstallMissing) && before(
                s,
                Stage::InstallMissing,
                Stage::PrepareItems,
            )
        }),
{
    let s = stages_of(cmd);
    before_at(s, 3, 4);
    before_at(s, 4, 5);
    if cmd->Install_install_deps {
        assert(s[6] == Stage::FindMissing);
        assert(s[8] == Stage::InstallMissing);
        before_at(s, 5, 7);
        before_at(s, 6, 7);
        before_at(s, 7, 8);
        before_at(s, 8, 9);
        before_at(s, 7, 9);
        before_at(s, 9, 10);
        before_at(s, 10, 11);
    } else {
        before_at(s, 5, 6);
        before_at(s, 6, 7);
        before_at(s, 7, 8);
        before_at(s, 8, 9);
    }
}

/// A deletion finds what is to go, and tells what depends on it, before it
/// asks; the records go after the files.
pub proof fn files_go_before_records(cmd: cli::CommandView)
    requires
        cmd is Delete,
    ensures
        ({
            let s = stages_of(cmd);
            &&& before(s, Stage::RequirePackages, Stage::RequireRoot)
            &&& before(s, Stage::RequireRoot, Stage::FindRemovals)
            &&& before(s, Stage::FindRemovals, Stage::ReportDependents)
            &&& before(s, Stage::ReportDependents, Stage::Confirm)
            &&& before(s, Stage::Confirm, Stage::Cleanup)
            &&& before(s, Stage::Cleanup, Stage::DeleteRecords)
            &&& before(s, Stage::DeleteRecords, Stage::Summarize)
        }),
{
    let s = stages_of(cmd);
    before_at(s, 3, 4);
    before_at(s, 4, 5);
    before_at(s, 5, 6);
    before_at(s, 6, 7);
    before_at(s, 7, 8);
    before_at(s, 8, 9);
    before_at(s, 9, 10);
}

/// An update finds what may be updated, leaves out what is blocked, finds what
/// is due, and fetches it, before any of it is unpacked; one after a refresh
/// starts from fresh lists.
pub proof fn updates_are_prepared(cmd: cli::CommandView)
    ensures
        ({
            let s = stages_of(cmd);
            &&& cmd is Update ==> {
                &&& before(s, Stage::RequireRoot, Stage::FindCandidates)
                &&& before(s, Stage::FindCandidates, Stage::CheckBlocked)
                &&& before(s, Stage::CheckBlocked, Stage::FindUpdates)
                &&& before(s, Stage::FindUpdates, Stage::Confirm)
                &&& before(s, Stage::Confirm, Stage::Download)
                &&& before(s, Stage::Download, Stage::PrepareItems)
                &&& before(s, Stage::PrepareItems, Stage::RunBatch)
                &&& before(s, Stage::RunBatch, Stage::Summarize)
            }
            &&& cmd is UpdateRefresh ==> {
                &&& before(s, Stage::RequireRoot, Stage::Refresh)
                &&& before(s, Stage::Refresh, Stage::CheckConnections)
                &&& before(s, Stage::CheckConnections, Stage::Confirm)
                &&& before(s, Stage::Confirm, Stage::RunUpdate)
            }
            &&& cmd is Refresh ==> {
                &&& before(s, Stage::RequireRoot, Stage::Refresh)
                &&& before(s, Stage::Refresh, Stage::CheckConnections)
            }
        }),
{
    let s = stages_of(cmd);
    if cmd is Update || cmd is UpdateRefresh || cmd is Refresh {
        before_at(s, 3, 4);
        before_at(s, 4, 5);
    }
    if cmd is Update || cmd is UpdateRefresh {
        before_at(s, 5, 6);
        before_at(s, 6, 7);
    }
    if cmd is Update {
        before_at(s, 7, 8);
        before_at(s, 8, 9);
        before_at(s, 9, 10);
        before_at(s, 10, 11);
    }
}

/// Every command first applies the root, makes room there and loads the
/// database.
pub proof fn every_command_opens_the_database(cmd: cli::CommandView)
    ensures
        stages_of(cmd).len() > 3,
        stages_of(cmd)[0] == Stage::ApplyRoot,
        stages_of(cmd)[1] == Stage::EnsureStorage,
        stages_of(cmd)[2] == Stage::LoadDatabase,
{
}

/// As long as every stage is done, the next one follows; after the last one
/// the command has succeeded.
pub proof fn every_stage_is_reached(s: SessionView, outcomes: Seq<OutcomeView>)
    requires
        s.failure is None,
        s.at + outcomes.len() <= s.stages.len(),
        forall|i: int| 0 <= i < outcomes.len() ==> #[trigger] outcomes[i] is Done,
    ensures
        ({
            let now = after_stages(s, outcomes);
            &&& now.failure is None
            &&& s.at + outcomes.len() < s.stages.len() ==> current(now) == Some(
                s.stages[(s.at + outcomes.len()) as int],
            )
            &&& s.at + outcomes.len() == s.stages.len() ==> current(now) is None
            &&& now.stages == s.stages
            &&& now.at == s.at + outcomes.len()
        }),
    decreases outcomes.len(),
{
    if outcomes.len() > 0 {
        let init = outcomes.drop_last();
        assert forall|i: int| 0 <= i < init.len() implies #[trigger] init[i] is Done by {
            assert(outcomes[i] is Done);
        }
        every_stage_is_reached(s, init);
        assert(outcomes[outcomes.len() - 1] is Done);
    }
}

/// A stage that stops ends the command without an error, one that fails ends
/// it with its own, and nothing that follows changes that.
pub proof fn an_end_is_an_end(s: SessionView, outcome: OutcomeView, more: Seq<OutcomeView>)
    requires
        current(s) is Some,
        s.failure is None,
        !(outcome is Done),
    ensures
        ({
            let ended = after_stages(after_stage(s, outcome), more);
            &&& current(ended) is None
            &&& outcome is Stop ==> ended.failure is None
            &&& outcome is Failed ==> ended.failure == Some(outcome->Failed_0)
        }),
    decreases more.len(),
{
    if more.len() > 0 {
        an_end_is_an_end(s, outcome, more.drop_last());
    }
}

/// A command that names no packages is refused exactly if it is one that
/// installs or deletes.
pub proof fn packages_are_needed(cmd: cli::CommandView)
    ensures
        no_packages(cmd) is Some <==> {
            ||| cmd matches cli::CommandView::Install { packages, .. } && packages.len() == 0
            ||| cmd matches cli::CommandView::Delete { packages, .. } && packages.len() == 0
        },
{
}

/// What changes the system is asked about; only a deletion is not taken for
/// granted.
pub proof fn only_deletions_need_a_yes(cmd: cli::CommandView)
    ensures
        question_of(cmd) is Some <==> stages_of(cmd).contains(Stage::Confirm),
        question_of(cmd) matches Some(q) ==> (q.1 <==> !(cmd is Delete)),
{
    let s = stages_of(cmd);
    match cmd {
        cli::CommandView::Install { local, install_deps, .. } => {
            if local && install_deps {
                assert(s[7] == Stage::Confirm);
            } else if local {
                assert(s[6] == Stage::Confirm);
            } else if install_deps {
                assert(s[9] == Stage::Confirm);
            } else {
                assert(s[8] == Stage::Confirm);
            }
        },
        cli::CommandView::Delete { .. } => {
            assert(s[7] == Stage::Confirm);
        },
        cli::CommandView::Update { .. } => {
            assert(s[7] == Stage::Confirm);
        },
        cli::CommandView::UpdateRefresh { .. } => {
            assert(s[6] == Stage::Confirm);
        },
        _ => {},
    }
}

/// A batch is one of local packages, of updates, or of packages from the
/// repositories, by the command that it belongs to.
pub proof fn batches_are_of_one_kind(cmd: cli::CommandView)
    ensures
        kind_of(cmd) == BatchKind::Local <==> (cmd matches cli::CommandView::Install { local, .. }
            && local),
        kind_of(cmd) == BatchKind::Update <==> cmd is Update,
{
}

} // verus!
