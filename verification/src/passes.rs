//! The passes that a command or the daemon runs.

use vstd::prelude::*;
use crate::cleaner::apps::AppView;
use crate::cleaner::cache::ArtifactView;
use crate::cleaner::ops::{Answers, JobView};
use crate::cleaner::snapshots::{BackupView, Policy, SnapshotView};
use crate::cleaner::{apps, cache, ops, snapshots};
use crate::clock::Stamp;
use crate::config::RogueList;

verus! {

/// A pass over the system.
#[derive(Debug, Clone, Copy, PartialEq, Eq, Structural)]
pub enum Pass {
    /// Folder metadata.
    DsStore,
    /// Resource forks.
    AppleDouble,
    /// Crash reports.
    CrashLogs,
    /// Temporary files.
    Tmp,
    /// Logs of the system.
    SystemLogs,
    /// Caches of developer tools.
    DevCaches,
    /// Build artifacts of projects.
    ProjectArtifacts,
    /// Unwanted apps.
    RogueApps,
    /// Caches of unused apps.
    UnusedCaches,
    /// Apps that were not used for long.
    StaleApps,
    /// Local snapshots.
    Snapshots,
    /// Notifications.
    Notifications,
    /// Background agents.
    Agents,
    /// Apps quit with their last window.
    QuitOnClose,
    /// Caches for names.
    Dns,
    /// Tables for addresses and routes.
    NetworkStack,
    /// The system optimizer.
    SystemTuning,
    /// The user interface.
    Interface,
    /// Unwanted processes.
    RogueProcesses,
}

/// `part` where `wanted`, else nothing.
pub open spec fn part_if(wanted: bool, part: Seq<Pass>) -> Seq<Pass> {
    if wanted {
        part
    } else {
        Seq::empty()
    }
}

/// The passes over what the system leaves behind.
pub open spec fn junk_passes() -> Seq<Pass> {
    seq![Pass::DsStore, Pass::AppleDouble, Pass::CrashLogs, Pass::Tmp, Pass::SystemLogs]
}

/// Adds the passes over what the system leaves behind.
pub fn push_junk_passes(r: &mut Vec<Pass>)
    ensures
        final(r)@ == old(r)@ + junk_passes(),
{
    r.push(Pass::DsStore);
    r.push(Pass::AppleDouble);
    r.push(Pass::CrashLogs);
    r.push(Pass::Tmp);
    r.push(Pass::SystemLogs);
    assert(r@ =~= old(r)@ + junk_passes());
}

/// The pass cleans: it removes paths, apps or snapshots, and can be run for show.
pub open spec fn cleans(pass: Pass) -> bool {
    match pass {
        Pass::DsStore => true,
        Pass::AppleDouble => true,
        Pass::CrashLogs => true,
        Pass::Tmp => true,
        Pass::SystemLogs => true,
        Pass::DevCaches => true,
        Pass::ProjectArtifacts => true,
        Pass::RogueApps => true,
        Pass::UnusedCaches => true,
        Pass::StaleApps => true,
        Pass::Snapshots => true,
        _ => false,
    }
}

/// A dry run changes nothing, whatever is found on disk and whatever the tools reply: no
/// removal deletes its path, no artifact is removed, no app uninstalled, no backup
/// deleted, and a run over snapshots is at every stage one that only shows.
pub proof fn dry_run_changes_nothing(
    job: JobView,
    answers: Answers,
    artifacts: Seq<ArtifactView>,
    found_apps: Seq<AppView>,
    rogue: RogueList,
    threshold: int,
    policy: Policy,
    tool: bool,
    running: bool,
    snaps: Seq<SnapshotView>,
    lines: Seq<Seq<char>>,
    freed: int,
    backups: Seq<BackupView>,
    safe_secs: int,
    now: Stamp,
)
    requires
        job.dry_run,
        policy.dry_run,
    ensures
        !ops::concluded(ops::begun(job), answers).1,
        forall|i: int|
            0 <= i < artifacts.len() ==> #[trigger] artifacts.map_values(
                cache::artifact_step(true),
            )[i] is Show,
        forall|i: int|
            0 <= i < apps::rogue_steps(found_apps, rogue, true).len()
                ==> #[trigger] apps::rogue_steps(found_apps, rogue, true)[i] is Show,
        forall|i: int|
            0 <= i < apps::stale_steps(found_apps, threshold, now, true).len()
                ==> #[trigger] apps::stale_steps(found_apps, threshold, now, true)[i] is Show,
        snapshots::only_shows(snapshots::run_begun(policy)),
        snapshots::only_shows(snapshots::tool_known(policy, tool)),
        snapshots::only_shows(snapshots::status_known(policy, running)),
        snapshots::only_shows(snapshots::snapshots_known(policy, snaps, now)),
        snapshots::only_shows(snapshots::snapshot_shown(policy, lines, freed)),
        forall|i: int|
            0 <= i < snapshots::backup_steps(backups, safe_secs, now, true).len()
                ==> #[trigger] snapshots::backup_steps(backups, safe_secs, now, true)[i] is Show,
{
    ops::removal_deletes_only_what_it_may(job, answers);
    apps::dry_run_uninstalls_nothing(found_apps, rogue, threshold, now);
    snapshots::dry_run_only_shows(
        policy,
        tool,
        running,
        snaps,
        now,
        lines,
        freed,
        backups,
        safe_secs,
    );
}

} // verus!
