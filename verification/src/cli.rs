//! The commands, and what each of them runs and reports.

use vstd::prelude::*;
use crate::passes::Pass;
use crate::{passes, paths, size, text};

verus! {

broadcast use crate::text::group_views;

/// A command line.
pub struct Cli {
    /// The configuration file; the default one where none is given.
    pub config: Option<String>,
    pub command: Command,
}

/// What is to be done.
pub enum Command {
    /// Clean junk, caches, logs and snapshots.
    Clean(CleanOpts),
    /// Silence notifications and background agents.
    Silence(SilenceOpts),
    /// Optimize the system.
    Optimize(OptimizeOpts),
    /// Manage local snapshots.
    Snapshot(SnapshotOpts),
    /// End unwanted processes.
    Crush(CrushOpts),
    /// Report without changing anything.
    Audit,
    /// Show the state of the daemon.
    Status,
    /// Run as a daemon.
    Daemon(DaemonOpts),
    /// Have the daemon started on login.
    Install,
    /// Have the daemon no longer started.
    Uninstall,
}

/// What to clean.
#[derive(Debug, Clone, Copy, PartialEq, Eq, Structural)]
pub struct CleanOpts {
    /// Run all passes; the default where no pass is selected.
    pub all: bool,
    pub system: bool,
    pub cache: bool,
    pub projects: bool,
    pub apps: bool,
    pub snapshots: bool,
    /// Also uninstall apps that were not used for long, along with the passes over apps.
    pub uninstall: bool,
    /// Show what would be removed and change nothing.
    pub dry_run: bool,
}

/// What to silence.
#[derive(Debug, Clone, Copy, PartialEq, Eq, Structural)]
pub struct SilenceOpts {
    /// Apply all rules; the default where none is selected.
    pub all: bool,
    pub notifications: bool,
    pub background: bool,
    pub dock: bool,
}

/// What to optimize.
#[derive(Debug, Clone, Copy, PartialEq, Eq, Structural)]
pub struct OptimizeOpts {
    /// Apply all optimizations; the default where none is selected.
    pub all: bool,
    pub network: bool,
    pub system: bool,
    pub ui: bool,
}

/// What to do about snapshots.
#[derive(Debug, Clone, Copy, PartialEq, Eq, Structural)]
pub struct SnapshotOpts {
    /// List the snapshots without deleting any.
    pub list: bool,
    /// Show what would be deleted.
    pub dry_run: bool,
}

/// Which processes to end.
#[derive(Debug)]
pub struct CrushOpts {
    /// A process by its name; the unwanted ones where none is given.
    pub name: Option<String>,
}

/// How to run the daemon.
#[derive(Debug, Clone, Copy, PartialEq, Eq, Structural)]
pub struct DaemonOpts {
    /// Stay in the foreground.
    pub foreground: bool,
}

// ── which passes a command runs ──────────────────────────────────────────────

/// All cleaning passes run: it was asked for, or none was selected.
pub open spec fn cleans_all(o: CleanOpts) -> bool {
    o.all || !(o.system || o.cache || o.projects || o.apps || o.snapshots)
}

/// All silencing passes run.
pub open spec fn silences_all(o: SilenceOpts) -> bool {
    o.all || !(o.notifications || o.background || o.dock)
}

/// All optimizing passes run.
pub open spec fn optimizes_all(o: OptimizeOpts) -> bool {
    o.all || !(o.network || o.system || o.ui)
}

/// The passes of `clean`, in order.
pub open spec fn clean_passes_of(o: CleanOpts) -> Seq<Pass> {
    let all = cleans_all(o);
    passes::part_if(all || o.system, passes::junk_passes()) + passes::part_if(
        all || o.cache,
        seq![Pass::DevCaches],
    ) + passes::part_if(all || o.projects, seq![Pass::ProjectArtifacts]) + passes::part_if(
        all || o.apps,
        seq![Pass::RogueApps, Pass::UnusedCaches] + passes::part_if(
            o.uninstall,
            seq![Pass::StaleApps],
        ),
    ) + passes::part_if(all || o.snapshots, seq![Pass::Snapshots])
}

/// The passes of `silence`, in order.
pub open spec fn silence_passes_of(o: SilenceOpts) -> Seq<Pass> {
    let all = silences_all(o);
    passes::part_if(all || o.notifications, seq![Pass::Notifications]) + passes::part_if(
        all || o.background,
        seq![Pass::Agents],
    ) + passes::part_if(all || o.dock, seq![Pass::QuitOnClose])
}

/// The passes of `optimize`, in order.
pub open spec fn optimize_passes_of(o: OptimizeOpts) -> Seq<Pass> {
    let all = optimizes_all(o);
    passes::part_if(all || o.network, seq![Pass::Dns, Pass::NetworkStack]) + passes::part_if(
        all || o.system,
        seq![Pass::SystemTuning],
    ) + passes::part_if(all || o.ui, seq![Pass::Interface])
}

/// The passes of `clean`, in order.
pub fn clean_passes(o: &CleanOpts) -> (r: Vec<Pass>)
    ensures
        r@ == clean_passes_of(*o),
{
    let all: bool = o.all || !(o.system || o.cache || o.projects || o.apps || o.snapshots);
    let mut r: Vec<Pass> = Vec::new();
    if all || o.system {
        passes::push_junk_passes(&mut r);
    }
    if all || o.cache {
        r.push(Pass::DevCaches);
    }
    if all || o.projects {
        r.push(Pass::ProjectArtifacts);
    }
    if all || o.apps {
        r.push(Pass::RogueApps);
        r.push(Pass::UnusedCaches);
        if o.uninstall {
            r.push(Pass::StaleApps);
        }
    }
    if all || o.snapshots {
        r.push(Pass::Snapshots);
    }
    assert(r@ =~= clean_passes_of(*o));
    r
}

/// The passes of `silence`, in order.
pub fn silence_passes(o: &SilenceOpts) -> (r: Vec<Pass>)
    ensures
        r@ == silence_passes_of(*o),
{
    let all: bool = o.all || !(o.notifications || o.background || o.dock);
    let mut r: Vec<Pass> = Vec::new();
    if all || o.notifications {
        r.push(Pass::Notifications);
    }
    if all || o.background {
        r.push(Pass::Agents);
    }
    if all || o.dock {
        r.push(Pass::QuitOnClose);
    }
    assert(r@ =~= silence_passes_of(*o));
    r
}

/// The passes of `optimize`, in order.
pub fn optimize_passes(o: &OptimizeOpts) -> (r: Vec<Pass>)
    ensures
        r@ == optimize_passes_of(*o),
{
    let all: bool = o.all || !(o.network || o.system || o.ui);
    let mut r: Vec<Pass> = Vec::new();
    if all || o.network {
        r.push(Pass::Dns);
        r.push(Pass::NetworkStack);
    }
    if all || o.system {
        r.push(Pass::SystemTuning);
    }
    if all || o.ui {
        r.push(Pass::Interface);
    }
    assert(r@ =~= optimize_passes_of(*o));
    r
}

// ── reports ──────────────────────────────────────────────────────────────────

/// What was freed, or in a dry run would be, in words.
pub open spec fn freed_words(freed: nat, dry_run: bool) -> Seq<char> {
    (if dry_run {
        "[dry-run] would free "@
    } else {
        "freed "@
    }) + size::byte_words(freed)
}

fn freed_text(freed: u64, dry_run: bool) -> (r: String)
    ensures
        r@ == freed_words(freed as nat, dry_run),
{
    let prefix = if dry_run {
        "[dry-run] would free "
    } else {
        "freed "
    };
    text::join2(prefix, size::fmt_bytes(freed).as_str())
}

/// The report of `clean`.
pub fn clean_report(freed: u64, dry_run: bool) -> (r: String)
    ensures
        r@ == "✓  "@ + freed_words(freed as nat, dry_run),
{
    text::join2("✓  ", freed_text(freed, dry_run).as_str())
}

/// The report of `snapshot`.
pub fn snapshot_report(freed: u64, dry_run: bool) -> (r: String)
    ensures
        r@ == "✓  snapshots — "@ + freed_words(freed as nat, dry_run),
{
    text::join2("✓  snapshots — ", freed_text(freed, dry_run).as_str())
}

/// The report of `crush`.
pub fn crush_report(killed: u32) -> (r: String)
    ensures
        r@ == (if killed == 0 {
            "✓  no rogue processes found"@
        } else {
            "✓  crushed "@ + text::decimal(killed as nat) + " process(es)"@
        }),
{
    if killed == 0 {
        text::owned("✓  no rogue processes found")
    } else {
        text::join3("✓  crushed ", text::decimal_of(killed as u64).as_str(), " process(es)")
    }
}

/// Where the configuration is by default.
pub fn default_cfg_path(home: &str) -> (r: String)
    ensures
        r@ == paths::joined(home@, "Library/Application Support/hush/config.json"@),
{
    paths::home_join(home, "Library/Application Support/hush/config.json")
}

/// Where the log of the daemon is.
pub fn log_path(home: &str) -> (r: String)
    ensures
        r@ == paths::joined(home@, "Library/Logs/hush.log"@),
{
    paths::home_join(home, "Library/Logs/hush.log")
}

/// The report of `status`: the daemon, the configuration, the log with its size where
/// there is one, and whether the daemon is started on login.
pub open spec fn status_lines(
    running: bool,
    config: Seq<char>,
    log: Seq<char>,
    log_size: Option<u64>,
    installed: bool,
) -> Seq<Seq<char>> {
    seq![
        "daemon       : "@ + (if running {
            "running ✓"@
        } else {
            "stopped"@
        }),
        "config       : "@ + config,
        "log          : "@ + (match log_size {
            Some(bytes) => log + " ("@ + size::byte_words(bytes as nat) + ")"@,
            None => "not yet created"@,
        }),
        "launchagent  : "@ + (if installed {
            "installed"@
        } else {
            "not installed"@
        }),
    ]
}

/// The report of `status`.
pub fn status_report(
    running: bool,
    config: &str,
    home: &str,
    log_size: &Option<u64>,
    installed: bool,
) -> (r: Vec<String>)
    ensures
        text::views(r@) == status_lines(
            running,
            config@,
            paths::joined(home@, "Library/Logs/hush.log"@),
            *log_size,
            installed,
        ),
{
    let mut r: Vec<String> = Vec::new();
    let log = log_path(home);
    r.push(text::join2("daemon       : ", if running { "running ✓" } else { "stopped" }));
    r.push(text::join2("config       : ", config));
    match log_size {
        Some(bytes) => {
            let mut line = text::join3("log          : ", log.as_str(), " (");
            line.append(size::fmt_bytes(*bytes).as_str());
            line.append(")");
            assert(line@ =~= "log          : "@ + (log@ + " ("@ + size::byte_words(*bytes as nat)
                + ")"@));
            r.push(line);
        },
        None => {
            r.push(text::join2("log          : ", "not yet created"));
        },
    }
    r.push(
        text::join2("launchagent  : ", if installed { "installed" } else { "not installed" }),
    );
    assert(text::views(r@) =~= status_lines(running, config@, log@, *log_size, installed));
    r
}

// ── what selecting means ─────────────────────────────────────────────────────

/// Selecting nothing is the same as asking for everything.
pub proof fn nothing_selected_means_all(dry_run: bool, uninstall: bool)
    ensures
        ({
            let none = CleanOpts {
                all: false,
                system: false,
                cache: false,
                projects: false,
                apps: false,
                snapshots: false,
                uninstall,
                dry_run,
            };
            clean_passes_of(none) == clean_passes_of(CleanOpts { all: true, ..none })
        }),
        ({
            let none = SilenceOpts {
                all: false,
                notifications: false,
                background: false,
                dock: false,
            };
            silence_passes_of(none) == silence_passes_of(SilenceOpts { all: true, ..none })
        }),
        ({
            let none = OptimizeOpts { all: false, network: false, system: false, ui: false };
            optimize_passes_of(none) == optimize_passes_of(OptimizeOpts { all: true, ..none })
        }),
{
}

/// A selection restricts: where parts are selected and not all is asked for, only passes
/// of the selected parts run. In particular apps are uninstalled only along with the
/// passes over apps.
pub proof fn selection_restricts(o: CleanOpts, k: int)
    requires
        !cleans_all(o),
        0 <= k < clean_passes_of(o).len(),
    ensures
        match clean_passes_of(o)[k] {
            Pass::DsStore => o.system,
            Pass::AppleDouble => o.system,
            Pass::CrashLogs => o.system,
            Pass::Tmp => o.system,
            Pass::SystemLogs => o.system,
            Pass::DevCaches => o.cache,
            Pass::ProjectArtifacts => o.projects,
            Pass::RogueApps => o.apps,
            Pass::UnusedCaches => o.apps,
            Pass::StaleApps => o.apps && o.uninstall,
            Pass::Snapshots => o.snapshots,
            _ => false,
        },
{
}

/// `clean` runs cleaning passes only, so that all it does can be run for show.
pub proof fn clean_only_cleans(o: CleanOpts, k: int)
    requires
        0 <= k < clean_passes_of(o).len(),
    ensures
        passes::cleans(clean_passes_of(o)[k]),
{
}

/// Every part that is selected runs, and everything where all is asked for or nothing
/// selected: `clean` runs the passes of each selected part, and uninstalls along with the
/// passes over apps where that is asked for.
pub proof fn selected_parts_run(o: CleanOpts)
    ensures
        ({
            let all = o.all || !(o.system || o.cache || o.projects || o.apps || o.snapshots);
            let passes = clean_passes_of(o);
            &&& all || o.system ==> passes.contains(Pass::DsStore) && passes.contains(
                Pass::AppleDouble,
            ) && passes.contains(Pass::CrashLogs) && passes.contains(Pass::Tmp)
                && passes.contains(Pass::SystemLogs)
            &&& all || o.cache ==> passes.contains(Pass::DevCaches)
            &&& all || o.projects ==> passes.contains(Pass::ProjectArtifacts)
            &&& all || o.apps ==> passes.contains(Pass::RogueApps) && passes.contains(
                Pass::UnusedCaches,
            )
            &&& (all || o.apps) && o.uninstall ==> passes.contains(Pass::StaleApps)
            &&& all || o.snapshots ==> passes.contains(Pass::Snapshots)
            &&& passes.contains(Pass::StaleApps) ==> o.uninstall
        }),
{
    let all = cleans_all(o);
    let list = clean_passes_of(o);
    let a = passes::part_if(all || o.system, passes::junk_passes());
    let b = passes::part_if(all || o.cache, seq![Pass::DevCaches]);
    let c = passes::part_if(all || o.projects, seq![Pass::ProjectArtifacts]);
    let d = passes::part_if(
        all || o.apps,
        seq![Pass::RogueApps, Pass::UnusedCaches] + passes::part_if(
            o.uninstall,
            seq![Pass::StaleApps],
        ),
    );
    let e = passes::part_if(all || o.snapshots, seq![Pass::Snapshots]);
    assert(list == a + b + c + d + e);
    if all || o.system {
        assert(list[0] == a[0] && list[1] == a[1] && list[2] == a[2] && list[3] == a[3] && list[4]
            == a[4]);
    }
    if all || o.cache {
        assert(list[a.len() as int] == b[0]);
    }
    if all || o.projects {
        assert(list[a.len() as int + b.len()] == c[0]);
    }
    let m = a.len() as int + b.len() + c.len();
    if all || o.apps {
        assert(list[m] == d[0] && list[m + 1] == d[1]);
        if o.uninstall {
            assert(list[m + 2] == d[2]);
        }
    }
    if all || o.snapshots {
        assert(list[m + d.len()] == e[0]);
    }
}

/// `silence` and `optimize` run exactly the selected parts, and all of them where all is
/// asked for or nothing selected.
pub proof fn selected_rules_apply(s: SilenceOpts, o: OptimizeOpts)
    ensures
        ({
            let all = s.all || !(s.notifications || s.background || s.dock);
            let list = silence_passes_of(s);
            &&& list.contains(Pass::Notifications) <==> all || s.notifications
            &&& list.contains(Pass::Agents) <==> all || s.background
            &&& list.contains(Pass::QuitOnClose) <==> all || s.dock
        }),
        ({
            let all = o.all || !(o.network || o.system || o.ui);
            let list = optimize_passes_of(o);
            &&& list.contains(Pass::Dns) <==> all || o.network
            &&& list.contains(Pass::NetworkStack) <==> all || o.network
            &&& list.contains(Pass::SystemTuning) <==> all || o.system
            &&& list.contains(Pass::Interface) <==> all || o.ui
        }),
{
    let all = silences_all(s);
    let list = silence_passes_of(s);
    let a = passes::part_if(all || s.notifications, seq![Pass::Notifications]);
    let b = passes::part_if(all || s.background, seq![Pass::Agents]);
    let c = passes::part_if(all || s.dock, seq![Pass::QuitOnClose]);
    assert(list == a + b + c);
    if all || s.notifications {
        assert(list[0] == a[0]);
    }
    if all || s.background {
        assert(list[a.len() as int] == b[0]);
    }
    if all || s.dock {
        assert(list[a.len() as int + b.len()] == c[0]);
    }
    let every = optimizes_all(o);
    let list2 = optimize_passes_of(o);
    let x = passes::part_if(every || o.network, seq![Pass::Dns, Pass::NetworkStack]);
    let y = passes::part_if(every || o.system, seq![Pass::SystemTuning]);
    let z = passes::part_if(every || o.ui, seq![Pass::Interface]);
    assert(list2 == x + y + z);
    if every || o.network {
        assert(list2[0] == x[0] && list2[1] == x[1]);
    }
    if every || o.system {
        assert(list2[x.len() as int] == y[0]);
    }
    if every || o.ui {
        assert(list2[x.len() as int + y.len()] == z[0]);
    }
}

/// A report says how much was freed, and in a dry run that it would be, in these words
/// and with the size in words at its end.
pub proof fn reports_tell_what_was_freed(freed: nat, dry_run: bool)
    ensures
        size::byte_words(freed).is_suffix_of(freed_words(freed, dry_run)),
        dry_run <==> "[dry-run] would free "@.is_prefix_of(freed_words(freed, dry_run)),
        !dry_run <==> "freed "@.is_prefix_of(freed_words(freed, dry_run)),
{
    let words = size::byte_words(freed);
    let dry = "[dry-run] would free "@;
    let wet = "freed "@;
    reveal_strlit("[dry-run] would free ");
    reveal_strlit("freed ");
    assert(dry.len() == 21 && wet.len() == 6 && dry[0] == '[' && wet[0] == 'f');
    let s = freed_words(freed, dry_run);
    assert(s.subrange(s.len() - words.len(), s.len() as int) =~= words);
    if dry_run {
        assert(s.subrange(0, 21) =~= dry);
        assert(s[0] == '[');
    } else {
        assert(s.subrange(0, 6) =~= wet);
        assert(s[0] == 'f');
    }
}

/// The report of the state names the configuration, the log and its size where there is
/// one, and tells a running daemon from a stopped one and an installed one from another.
pub proof fn status_tells_states_apart(
    config: Seq<char>,
    log: Seq<char>,
    bytes: u64,
    running: bool,
    installed: bool,
    log_size: Option<u64>,
)
    ensures
        ({
            let lines = status_lines(running, config, log, log_size, installed);
            &&& lines.len() == 4
            &&& "running ✓"@.is_suffix_of(lines[0]) <==> running
            &&& "stopped"@.is_suffix_of(lines[0]) <==> !running
            &&& config.is_suffix_of(lines[1])
            &&& log_size == Some(bytes) ==> text::has(lines[2], log) && text::has(
                lines[2],
                size::byte_words(bytes as nat),
            )
            &&& log_size is None ==> "not yet created"@.is_suffix_of(lines[2])
            &&& ": installed"@.is_suffix_of(lines[3]) <==> installed
            &&& "not installed"@.is_suffix_of(lines[3]) <==> !installed
        }),
{
    let lines = status_lines(running, config, log, log_size, installed);
    let none = Seq::<char>::empty();
    reveal_strlit("daemon       : ");
    reveal_strlit("running ✓");
    reveal_strlit("stopped");
    reveal_strlit("launchagent  : ");
    reveal_strlit("installed");
    reveal_strlit("not installed");
    reveal_strlit(": installed");
    assert("running ✓"@.len() == 9 && "running ✓"@[8] == '✓');
    assert("stopped"@.len() == 7 && "stopped"@[6] == 'd');
    let a = lines[0];
    if running {
        assert(a.subrange(a.len() - 9, a.len() as int) =~= "running ✓"@);
        assert(a.last() == '✓');
        if "stopped"@.is_suffix_of(a) {
            assert(a.subrange(a.len() - 7, a.len() as int)[6] == a.last());
        }
    } else {
        assert(a.subrange(a.len() - 7, a.len() as int) =~= "stopped"@);
        assert(a.last() == 'd');
        if "running ✓"@.is_suffix_of(a) {
            assert(a.subrange(a.len() - 9, a.len() as int)[8] == a.last());
        }
    }
    let b = lines[1];
    assert(b.subrange(b.len() - config.len(), b.len() as int) =~= config);
    let c = lines[2];
    match log_size {
        Some(n) => {
            let words = size::byte_words(n as nat);
            let front = "log          : "@;
            text::parts_are_found(c, front, log, " ("@ + words + ")"@);
            assert(c =~= front + log + (" ("@ + words + ")"@));
            text::parts_are_found(c, front + log + " ("@, words, ")"@);
            assert(c =~= front + log + " ("@ + words + ")"@);
        },
        None => {
            let w = "not yet created"@;
            assert(c.subrange(c.len() - w.len(), c.len() as int) =~= w);
        },
    }
    let d = lines[3];
    let yes = ": installed"@;
    let no = "not installed"@;
    assert(yes.len() == 11 && no.len() == 13 && yes[0] == ':' && no[0] == 'n' && no[2] == 't');
    if installed {
        assert(d.len() == 24);
        assert(d.subrange(13, 24) =~= yes);
        if no.is_suffix_of(d) {
            assert(d.subrange(11, 24)[0] == d[11]);
        }
    } else {
        assert(d.len() == 28);
        assert(d.subrange(15, 28) =~= no);
        if yes.is_suffix_of(d) {
            assert(d.subrange(17, 28)[0] == d[17]);
        }
    }
}

/// The place of a pass in a run.
pub open spec fn turn(pass: Pass) -> int {
    match pass {
        Pass::DsStore => 0,
        Pass::AppleDouble => 1,
        Pass::CrashLogs => 2,
        Pass::Tmp => 3,
        Pass::SystemLogs => 4,
        Pass::DevCaches => 5,
        Pass::ProjectArtifacts => 6,
        Pass::RogueApps => 7,
        Pass::UnusedCaches => 8,
        Pass::StaleApps => 9,
        Pass::Snapshots => 10,
        Pass::Notifications => 11,
        Pass::Agents => 12,
        Pass::QuitOnClose => 13,
        Pass::Dns => 14,
        Pass::NetworkStack => 15,
        Pass::SystemTuning => 16,
        Pass::Interface => 17,
        _ => 18,
    }
}

/// The passes come in turn, from place `from` on and before place `to`.
pub open spec fn in_turn(list: Seq<Pass>, from: int, to: int) -> bool {
    &&& forall|i: int, j: int|
        0 <= i < j < list.len() ==> turn(#[trigger] list[i]) < turn(#[trigger] list[j])
    &&& forall|i: int| 0 <= i < list.len() ==> from <= turn(#[trigger] list[i]) < to
}

proof fn lemma_in_turn(a: Seq<Pass>, b: Seq<Pass>, from: int, mid: int, to: int)
    requires
        from <= mid <= to,
        in_turn(a, from, mid),
        in_turn(b, mid, to),
    ensures
        in_turn(a + b, from, to),
{
}

/// Whatever is selected, passes run in one order, and none runs twice: what the system
/// leaves behind, caches, artifacts, apps, and snapshots at last; notifications, agents and
/// the Dock; the network, the system and the user interface.
pub proof fn passes_take_their_turn(c: CleanOpts, s: SilenceOpts, o: OptimizeOpts)
    ensures
        in_turn(clean_passes_of(c), 0, 11),
        in_turn(silence_passes_of(s), 11, 14),
        in_turn(optimize_passes_of(o), 14, 18),
{
    let all = cleans_all(c);
    let a = passes::part_if(all || c.system, passes::junk_passes());
    let b = passes::part_if(all || c.cache, seq![Pass::DevCaches]);
    let p = passes::part_if(all || c.projects, seq![Pass::ProjectArtifacts]);
    let d = passes::part_if(
        all || c.apps,
        seq![Pass::RogueApps, Pass::UnusedCaches] + passes::part_if(
            c.uninstall,
            seq![Pass::StaleApps],
        ),
    );
    let e = passes::part_if(all || c.snapshots, seq![Pass::Snapshots]);
    assert(in_turn(a, 0, 5));
    assert(in_turn(b, 5, 6));
    assert(in_turn(p, 6, 7));
    assert(in_turn(d, 7, 10));
    assert(in_turn(e, 10, 11));
    lemma_in_turn(a, b, 0, 5, 6);
    lemma_in_turn(a + b, p, 0, 6, 7);
    lemma_in_turn(a + b + p, d, 0, 7, 10);
    lemma_in_turn(a + b + p + d, e, 0, 10, 11);
    assert(clean_passes_of(c) == a + b + p + d + e);
    let every = silences_all(s);
    let x = passes::part_if(every || s.notifications, seq![Pass::Notifications]);
    let y = passes::part_if(every || s.background, seq![Pass::Agents]);
    let z = passes::part_if(every || s.dock, seq![Pass::QuitOnClose]);
    lemma_in_turn(x, y, 11, 12, 13);
    lemma_in_turn(x + y, z, 11, 13, 14);
    assert(silence_passes_of(s) == x + y + z);
    let full = optimizes_all(o);
    let k = passes::part_if(full || o.network, seq![Pass::Dns, Pass::NetworkStack]);
    let l = passes::part_if(full || o.system, seq![Pass::SystemTuning]);
    let m = passes::part_if(full || o.ui, seq![Pass::Interface]);
    lemma_in_turn(k, l, 14, 16, 17);
    lemma_in_turn(k + l, m, 14, 17, 18);
    assert(optimize_passes_of(o) == k + l + m);
}

} // verus!
