//! The course of a build, stage by stage.
use vstd::prelude::*;

use crate::lkmake::BuildOptions;

verus! {

/// A stage of a build.
#[derive(PartialEq, Eq, Structural, Clone, Copy, Debug)]
pub enum BuildStage {
    /// Install what the build depends on.
    InstallDeps,
    Download,
    /// Hold the sources against their checksums.
    CheckIntegrity,
    /// Unpack the sources.
    Extract,
    Prepare,
    Build,
    Check,
    Package,
    /// Write what is known of the package and of the build.
    WriteInfo,
    Archive,
    /// Install the package.
    Install,
    /// Remove the working files.
    Clean,
}

/// Where a build is.
#[derive(PartialEq, Eq, Structural, Clone, Copy, Debug)]
pub enum BuildStep {
    At(BuildStage),
    /// The build ends here, and has failed.
    Abort,
    /// The build has come to its end.
    End,
}

/// Where a build begins.
pub open spec fn first_step(options: BuildOptions) -> BuildStep {
    if options.skip_deps {
        BuildStep::At(BuildStage::Download)
    } else {
        BuildStep::At(BuildStage::InstallDeps)
    }
}

/// Where a build ends unless its working files are to be removed.
pub open spec fn last_step(options: BuildOptions) -> BuildStep {
    if options.clean_after {
        BuildStep::At(BuildStage::Clean)
    } else {
        BuildStep::End
    }
}

/// Whether a build ends if a stage fails: it does if the sources are not what
/// they should be, or if a function of the recipe fails.
pub open spec fn must_succeed(stage: BuildStage) -> bool {
    stage == BuildStage::CheckIntegrity || stage == BuildStage::Prepare || stage
        == BuildStage::Build || stage == BuildStage::Check || stage == BuildStage::Package
}

/// What follows a stage that the build goes on from.
pub open spec fn following(options: BuildOptions, stage: BuildStage, succeeded: bool) -> BuildStep {
    match stage {
        BuildStage::InstallDeps => BuildStep::At(BuildStage::Download),
        BuildStage::Download => BuildStep::At(BuildStage::CheckIntegrity),
        BuildStage::CheckIntegrity => BuildStep::At(BuildStage::Extract),
        BuildStage::Extract => BuildStep::At(BuildStage::Prepare),
        BuildStage::Prepare => BuildStep::At(BuildStage::Build),
        BuildStage::Build => BuildStep::At(BuildStage::Check),
        BuildStage::Check => BuildStep::At(BuildStage::Package),
        BuildStage::Package => BuildStep::At(BuildStage::WriteInfo),
        BuildStage::WriteInfo => BuildStep::At(BuildStage::Archive),
        BuildStage::Archive => if options.install_after && succeeded {
            BuildStep::At(BuildStage::Install)
        } else {
            last_step(options)
        },
        BuildStage::Install => last_step(options),
        BuildStage::Clean => BuildStep::End,
    }
}

/// What follows a stage.
pub open spec fn step_after(options: BuildOptions, stage: BuildStage, succeeded: bool) -> BuildStep {
    if must_succeed(stage) && !succeeded {
        BuildStep::Abort
    } else {
        following(options, stage, succeeded)
    }
}

/// Where a build begins.
pub fn start(options: &BuildOptions) -> (r: BuildStep)
    ensures
        r == first_step(*options),
{
    if options.skip_deps {
        BuildStep::At(BuildStage::Download)
    } else {
        BuildStep::At(BuildStage::InstallDeps)
    }
}

fn finish(options: &BuildOptions) -> (r: BuildStep)
    ensures
        r == last_step(*options),
{
    if options.clean_after {
        BuildStep::At(BuildStage::Clean)
    } else {
        BuildStep::End
    }
}

/// What follows a stage, given whether it succeeded.
pub fn next(options: &BuildOptions, stage: BuildStage, succeeded: bool) -> (r: BuildStep)
    ensures
        r == step_after(*options, stage, succeeded),
{
    let goes_on = |to: BuildStage| -> (s: BuildStep)
        ensures
            s == (if succeeded {
                BuildStep::At(to)
            } else {
                BuildStep::Abort
            }),
        {
            if succeeded {
                BuildStep::At(to)
            } else {
                BuildStep::Abort
            }
        };
    match stage {
        BuildStage::InstallDeps => BuildStep::At(BuildStage::Download),
        BuildStage::Download => BuildStep::At(BuildStage::CheckIntegrity),
        BuildStage::CheckIntegrity => goes_on(BuildStage::Extract),
        BuildStage::Extract => BuildStep::At(BuildStage::Prepare),
        BuildStage::Prepare => goes_on(BuildStage::Build),
        BuildStage::Build => goes_on(BuildStage::Check),
        BuildStage::Check => goes_on(BuildStage::Package),
        BuildStage::Package => goes_on(BuildStage::WriteInfo),
        BuildStage::WriteInfo => BuildStep::At(BuildStage::Archive),
        BuildStage::Archive => if options.install_after && succeeded {
            BuildStep::At(BuildStage::Install)
        } else {
            finish(options)
        },
        BuildStage::Install => finish(options),
        BuildStage::Clean => BuildStep::End,
    }
}

/// The function of the recipe that a stage runs, with what belongs to it.
pub open spec fn phase_name(stage: BuildStage) -> Option<Seq<char>> {
    match stage {
        BuildStage::Prepare => Some("prepare"@),
        BuildStage::Build => Some("build"@),
        BuildStage::Check => Some("check"@),
        BuildStage::Package => Some("package"@),
        _ => None,
    }
}

/// The function of the recipe that a stage runs, with what belongs to it.
pub fn phase(stage: BuildStage) -> (r: Option<String>)
    ensures
        crate::cli::opt_text(r) == phase_name(stage),
{
    match stage {
        BuildStage::Prepare => Some("prepare".to_owned()),
        BuildStage::Build => Some("build".to_owned()),
        BuildStage::Check => Some("check".to_owned()),
        BuildStage::Package => Some("package".to_owned()),
        _ => None,
    }
}

// ---------------------------------------------------------------------------
// Builds as a whole

/// Where a build is after stages that ended as given.
pub open spec fn step_at(options: BuildOptions, outcomes: Seq<bool>) -> BuildStep
    decreases outcomes.len(),
{
    if outcomes.len() == 0 {
        first_step(options)
    } else {
        match step_at(options, outcomes.drop_last()) {
            BuildStep::At(stage) => step_after(options, stage, outcomes.last()),
            step => step,
        }
    }
}

/// The place of a stage in the course of a build.
pub open spec fn place(stage: BuildStage) -> int {
    match stage {
        BuildStage::InstallDeps => 0,
        BuildStage::Download => 1,
        BuildStage::CheckIntegrity => 2,
        BuildStage::Extract => 3,
        BuildStage::Prepare => 4,
        BuildStage::Build => 5,
        BuildStage::Check => 6,
        BuildStage::Package => 7,
        BuildStage::WriteInfo => 8,
        BuildStage::Archive => 9,
        BuildStage::Install => 10,
        BuildStage::Clean => 11,
    }
}

/// Whether a stage was run, and succeeded, before a build came to where it is.
pub open spec fn was_done(options: BuildOptions, outcomes: Seq<bool>, stage: BuildStage) -> bool {
    exists|i: int|
        0 <= i < outcomes.len() && #[trigger] outcomes[i] && step_at(options, outcomes.take(i))
            == BuildStep::At(stage)
}

proof fn done_stays(options: BuildOptions, outcomes: Seq<bool>, stage: BuildStage)
    requires
        outcomes.len() > 0,
        was_done(options, outcomes.drop_last(), stage),
    ensures
        was_done(options, outcomes, stage),
{
    let before = outcomes.drop_last();
    let i = choose|i: int|
        0 <= i < before.len() && #[trigger] before[i] && step_at(options, before.take(i))
            == BuildStep::At(stage);
    assert(before.take(i) =~= outcomes.take(i));
    assert(outcomes[i]);
}

/// A build comes past a stage that must succeed only if that stage was run
/// and succeeded: nothing is built from sources that are not what they should
/// be, and nothing is packed after a function of the recipe has failed.
pub proof fn nothing_follows_a_failure(
    options: BuildOptions,
    outcomes: Seq<bool>,
    stage: BuildStage,
    at: BuildStage,
)
    requires
        must_succeed(stage),
        step_at(options, outcomes) == BuildStep::At(at),
        place(at) > place(stage),
    ensures
        was_done(options, outcomes, stage),
    decreases outcomes.len(),
{
    if outcomes.len() > 0 {
        let before = outcomes.drop_last();
        let n = outcomes.len() - 1;
        if let BuildStep::At(previous) = step_at(options, before) {
            if previous == stage {
                assert(outcomes.take(n) =~= before);
                assert(outcomes[n]);
            } else {
                nothing_follows_a_failure(options, before, stage, previous);
                done_stays(options, outcomes, stage);
            }
        }
    }
}

/// A package is installed only if that was asked for and its archive was made.
pub proof fn only_what_was_made_is_installed(options: BuildOptions, outcomes: Seq<bool>)
    requires
        step_at(options, outcomes) == BuildStep::At(BuildStage::Install),
    ensures
        options.install_after,
        was_done(options, outcomes, BuildStage::Archive),
{
    if outcomes.len() > 0 {
        let n = outcomes.len() - 1;
        assert(outcomes.take(n) =~= outcomes.drop_last());
        assert(outcomes[n]);
    }
}

/// A build in which everything succeeds goes through its stages one by one,
/// from the dependencies, unless they are to be left out, to the archive, and
/// installs and cleans up if it is asked to.
pub proof fn a_build_goes_on(options: BuildOptions, stage: BuildStage)
    ensures
        first_step(options) == BuildStep::At(
            if options.skip_deps {
                BuildStage::Download
            } else {
                BuildStage::InstallDeps
            },
        ),
        step_after(options, BuildStage::InstallDeps, true) == BuildStep::At(BuildStage::Download),
        step_after(options, BuildStage::Download, true) == BuildStep::At(
            BuildStage::CheckIntegrity,
        ),
        step_after(options, BuildStage::CheckIntegrity, true) == BuildStep::At(
            BuildStage::Extract,
        ),
        step_after(options, BuildStage::Extract, true) == BuildStep::At(BuildStage::Prepare),
        step_after(options, BuildStage::Prepare, true) == BuildStep::At(BuildStage::Build),
        step_after(options, BuildStage::Build, true) == BuildStep::At(BuildStage::Check),
        step_after(options, BuildStage::Check, true) == BuildStep::At(BuildStage::Package),
        step_after(options, BuildStage::Package, true) == BuildStep::At(BuildStage::WriteInfo),
        step_after(options, BuildStage::WriteInfo, true) == BuildStep::At(BuildStage::Archive),
        options.install_after ==> step_after(options, BuildStage::Archive, true) == BuildStep::At(
            BuildStage::Install,
        ),
        !options.install_after && options.clean_after ==> step_after(
            options,
            BuildStage::Archive,
            true,
        ) == BuildStep::At(BuildStage::Clean),
        !options.install_after && !options.clean_after ==> step_after(
            options,
            BuildStage::Archive,
            true,
        ) == BuildStep::End,
        options.clean_after ==> step_after(options, BuildStage::Install, true) == BuildStep::At(
            BuildStage::Clean,
        ),
        !options.clean_after ==> step_after(options, BuildStage::Install, true) == BuildStep::End,
        step_after(options, BuildStage::Clean, true) == BuildStep::End,
{
}

/// A failed check of the sources, and a failed function of the recipe, end a
/// build; any other failure does not.
pub proof fn what_ends_a_build(options: BuildOptions, stage: BuildStage)
    ensures
        step_after(options, stage, false) is Abort <==> stage == BuildStage::CheckIntegrity || stage
            == BuildStage::Prepare || stage == BuildStage::Build || stage == BuildStage::Check
            || stage == BuildStage::Package,
        !(step_after(options, stage, true) is Abort),
{
}

} // verus!
