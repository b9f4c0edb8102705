//! The daemon: what it runs when, and how it is started on login.

use vstd::prelude::*;
use crate::clock::Stamp;
use crate::command::{command, CommandLine};
use crate::config::{Config, Schedule};
use crate::passes::Pass;
use crate::{clock, passes, paths, text};

verus! {

broadcast use crate::text::group_views;

// ── passes ───────────────────────────────────────────────────────────────────

/// The passes at the start of the daemon, in order.
pub open spec fn boot_passes_of(boot_clean: bool) -> Seq<Pass> {
    passes::part_if(
        boot_clean,
        passes::junk_passes() + seq![
            Pass::Agents,
            Pass::QuitOnClose,
            Pass::Notifications,
            Pass::SystemTuning,
            Pass::Interface,
            Pass::Dns,
        ],
    )
}

/// The passes at the start of the daemon, where it is to clean then.
pub fn run_boot_clean(cfg: &Config) -> (r: Vec<Pass>)
    ensures
        r@ == boot_passes_of(cfg.schedule.boot_clean),
{
    let mut r: Vec<Pass> = Vec::new();
    if cfg.schedule.boot_clean {
        passes::push_junk_passes(&mut r);
        r.push(Pass::Agents);
        r.push(Pass::QuitOnClose);
        r.push(Pass::Notifications);
        r.push(Pass::SystemTuning);
        r.push(Pass::Interface);
        r.push(Pass::Dns);
    }
    assert(r@ =~= boot_passes_of(cfg.schedule.boot_clean));
    r
}

/// The passes of a cache sweep.
pub fn run_cache_pass() -> (r: Vec<Pass>)
    ensures
        r@ == seq![Pass::DevCaches, Pass::UnusedCaches],
{
    let mut r: Vec<Pass> = Vec::new();
    r.push(Pass::DevCaches);
    r.push(Pass::UnusedCaches);
    assert(r@ =~= seq![Pass::DevCaches, Pass::UnusedCaches]);
    r
}

/// The passes of an app audit.
pub fn run_app_pass() -> (r: Vec<Pass>)
    ensures
        r@ == seq![Pass::RogueApps, Pass::RogueProcesses],
{
    let mut r: Vec<Pass> = Vec::new();
    r.push(Pass::RogueApps);
    r.push(Pass::RogueProcesses);
    assert(r@ =~= seq![Pass::RogueApps, Pass::RogueProcesses]);
    r
}

/// The passes of a snapshot audit.
pub fn run_snapshot_pass() -> (r: Vec<Pass>)
    ensures
        r@ == seq![Pass::Snapshots],
{
    let mut r: Vec<Pass> = Vec::new();
    r.push(Pass::Snapshots);
    assert(r@ =~= seq![Pass::Snapshots]);
    r
}

// ── timers ───────────────────────────────────────────────────────────────────

/// Every interval of the schedule can be told in seconds.
pub open spec fn intervals_fit(s: Schedule) -> bool {
    &&& s.cache_sweep_interval_hours * clock::SECS_PER_HOUR <= u64::MAX
    &&& s.app_audit_interval_days * clock::SECS_PER_DAY <= u64::MAX
    &&& s.snapshot_audit_interval_days * clock::SECS_PER_DAY <= u64::MAX
}

/// Whether every interval of the schedule can be told in seconds.
pub fn intervals_in_range(s: &Schedule) -> (r: bool)
    ensures
        r == intervals_fit(*s),
{
    let most_hours: u64 = u64::MAX / 3600;
    let most_days: u64 = u64::MAX / 86400;
    s.cache_sweep_interval_hours <= most_hours && s.app_audit_interval_days <= most_days
        && s.snapshot_audit_interval_days <= most_days
}

/// The intervals of the schedule in seconds: cache sweeps, app audits, snapshot audits.
pub fn intervals(s: &Schedule) -> (r: (u64, u64, u64))
    requires
        intervals_fit(*s),
    ensures
        r.0 == s.cache_sweep_interval_hours * clock::SECS_PER_HOUR,
        r.1 == s.app_audit_interval_days * clock::SECS_PER_DAY,
        r.2 == s.snapshot_audit_interval_days * clock::SECS_PER_DAY,
{
    (
        clock::hours(s.cache_sweep_interval_hours),
        clock::days(s.app_audit_interval_days),
        clock::days(s.snapshot_audit_interval_days),
    )
}

/// When the passes last ran, on a clock that never goes back; none where they did not yet.
#[derive(Debug, Clone, Copy, PartialEq, Eq, Structural)]
pub struct Timers {
    pub cache: Option<Stamp>,
    pub app: Option<Stamp>,
    pub snapshot: Option<Stamp>,
}

/// The passes that are due.
#[derive(Debug, Clone, Copy, PartialEq, Eq, Structural)]
pub struct Due {
    pub cache: bool,
    pub app: bool,
    pub snapshot: bool,
}

/// A pass is due: it did not run yet, or its interval is over since it last ran.
pub open spec fn pass_due(now: Stamp, last: Option<Stamp>, interval: int) -> bool {
    match last {
        Some(t) => clock::due(now, t, interval),
        None => true,
    }
}

fn is_pass_due(now: Stamp, last: Option<Stamp>, interval: u64) -> (r: bool)
    ensures
        r == pass_due(now, last, interval as int),
{
    match last {
        Some(t) => clock::is_due(now, t, interval),
        None => true,
    }
}

/// The timers at the start of the daemon: no pass has run yet.
pub open spec fn fresh_timers() -> Timers {
    Timers { cache: None, app: None, snapshot: None }
}

impl Timers {
    /// The timers at the start of the daemon. No pass has run yet, so that each runs at
    /// once.
    pub fn start() -> (r: Timers)
        ensures
            r == fresh_timers(),
    {
        Timers { cache: None, app: None, snapshot: None }
    }

    /// The passes that are due at `now`.
    pub fn due(&self, s: &Schedule, now: Stamp) -> (r: Due)
        requires
            intervals_fit(*s),
        ensures
            r == due_at(*self, *s, now),
    {
        let (cache, app, snapshot) = intervals(s);
        Due {
            cache: is_pass_due(now, self.cache, cache),
            app: is_pass_due(now, self.app, app),
            snapshot: is_pass_due(now, self.snapshot, snapshot),
        }
    }

    /// Notes when a cache sweep ended.
    pub fn cache_ran(&mut self, at: Stamp)
        ensures
            *final(self) == (Timers { cache: Some(at), ..*old(self) }),
    {
        self.cache = Some(at);
    }

    /// Notes when an app audit ended.
    pub fn app_ran(&mut self, at: Stamp)
        ensures
            *final(self) == (Timers { app: Some(at), ..*old(self) }),
    {
        self.app = Some(at);
    }

    /// Notes when a snapshot audit ended.
    pub fn snapshot_ran(&mut self, at: Stamp)
        ensures
            *final(self) == (Timers { snapshot: Some(at), ..*old(self) }),
    {
        self.snapshot = Some(at);
    }
}

/// The passes that are due at `now`.
pub open spec fn due_at(t: Timers, s: Schedule, now: Stamp) -> Due {
    Due {
        cache: pass_due(now, t.cache, s.cache_sweep_interval_hours * clock::SECS_PER_HOUR),
        app: pass_due(now, t.app, s.app_audit_interval_days * clock::SECS_PER_DAY),
        snapshot: pass_due(
            now,
            t.snapshot,
            s.snapshot_audit_interval_days * clock::SECS_PER_DAY,
        ),
    }
}

// ── the event loop ───────────────────────────────────────────────────────────

/// How often the daemon sleeps for a second between two rounds. It can be stopped
/// between any two of them.
pub const NAPS: u32 = 60;

/// Where the daemon stands in its round. The points in time are those at which the
/// round began.
#[derive(Debug, Clone, Copy, PartialEq, Eq, Structural)]
pub enum Phase {
    /// Before a round.
    Top,
    /// The configuration was read again if it has changed.
    Fresh,
    /// A cache sweep has ended.
    CachesSwept(Stamp),
    /// An app audit has ended.
    AppsAudited(Stamp),
    /// A snapshot audit has ended.
    SnapshotsAudited,
    /// It has slept so many times.
    Idle(u32),
}

/// What the daemon does next.
#[derive(Debug, Clone, Copy, PartialEq, Eq, Structural)]
pub enum Order {
    /// End.
    Stop,
    /// Take over a changed configuration, if there is one.
    ReadConfig,
    /// Run the passes of a cache sweep.
    SweepCaches,
    /// Run the passes of an app audit.
    AuditApps,
    /// Run the passes of a snapshot audit.
    AuditSnapshots,
    /// Sleep for a second.
    Sleep,
}

/// The daemon: its timers, and where it stands in its round.
#[derive(Debug, Clone, Copy, PartialEq, Eq, Structural)]
pub struct Daemon {
    pub timers: Timers,
    pub phase: Phase,
}

/// The start of a round: it ends the daemon where it was told to stop.
pub open spec fn at_top(t: Timers, running: bool) -> (Daemon, Order) {
    if running {
        (Daemon { timers: t, phase: Phase::Fresh }, Order::ReadConfig)
    } else {
        (Daemon { timers: t, phase: Phase::Top }, Order::Stop)
    }
}

/// Sleeping between rounds.
pub open spec fn at_rest(t: Timers, naps: int, running: bool) -> (Daemon, Order) {
    if naps >= NAPS || !running {
        at_top(t, running)
    } else {
        (Daemon { timers: t, phase: Phase::Idle((naps + 1) as u32) }, Order::Sleep)
    }
}

/// The snapshot audit, where it is due.
pub open spec fn at_snapshots(t: Timers, s: Schedule, round: Stamp, running: bool) -> (
    Daemon,
    Order,
) {
    if due_at(t, s, round).snapshot {
        (Daemon { timers: t, phase: Phase::SnapshotsAudited }, Order::AuditSnapshots)
    } else {
        at_rest(t, 0, running)
    }
}

/// The app audit, where it is due.
pub open spec fn at_apps(t: Timers, s: Schedule, round: Stamp, running: bool) -> (Daemon, Order) {
    if due_at(t, s, round).app {
        (Daemon { timers: t, phase: Phase::AppsAudited(round) }, Order::AuditApps)
    } else {
        at_snapshots(t, s, round, running)
    }
}

/// The cache sweep, where it is due.
pub open spec fn at_caches(t: Timers, s: Schedule, round: Stamp, running: bool) -> (Daemon, Order) {
    if due_at(t, s, round).cache {
        (Daemon { timers: t, phase: Phase::CachesSwept(round) }, Order::SweepCaches)
    } else {
        at_apps(t, s, round, running)
    }
}

/// What the daemon does next, given the schedule, whether it may go on, and the time.
pub open spec fn stepped(d: Daemon, s: Schedule, running: bool, now: Stamp) -> (Daemon, Order) {
    match d.phase {
        Phase::Top => at_top(d.timers, running),
        Phase::Fresh => at_caches(d.timers, s, now, running),
        Phase::CachesSwept(round) => at_apps(
            Timers { cache: Some(now), ..d.timers },
            s,
            round,
            running,
        ),
        Phase::AppsAudited(round) => at_snapshots(
            Timers { app: Some(now), ..d.timers },
            s,
            round,
            running,
        ),
        Phase::SnapshotsAudited => at_rest(Timers { snapshot: Some(now), ..d.timers }, 0, running),
        Phase::Idle(naps) => at_rest(d.timers, naps as int, running),
    }
}

impl Daemon {
    /// The daemon before its first round.
    pub fn new(timers: Timers) -> (r: Daemon)
        ensures
            r == (Daemon { timers, phase: Phase::Top }),
    {
        Daemon { timers, phase: Phase::Top }
    }

    fn top(&mut self, running: bool) -> (r: Order)
        ensures
            (*final(self), r) == at_top(old(self).timers, running),
    {
        if running {
            self.phase = Phase::Fresh;
            Order::ReadConfig
        } else {
            self.phase = Phase::Top;
            Order::Stop
        }
    }

    fn rest(&mut self, naps: u32, running: bool) -> (r: Order)
        ensures
            (*final(self), r) == at_rest(old(self).timers, naps as int, running),
    {
        if naps >= NAPS || !running {
            self.top(running)
        } else {
            self.phase = Phase::Idle(naps + 1);
            Order::Sleep
        }
    }

    fn snapshots(&mut self, s: &Schedule, round: Stamp, running: bool) -> (r: Order)
        requires
            intervals_fit(*s),
        ensures
            (*final(self), r) == at_snapshots(old(self).timers, *s, round, running),
    {
        if self.timers.due(s, round).snapshot {
            self.phase = Phase::SnapshotsAudited;
            Order::AuditSnapshots
        } else {
            self.rest(0, running)
        }
    }

    fn apps(&mut self, s: &Schedule, round: Stamp, running: bool) -> (r: Order)
        requires
            intervals_fit(*s),
        ensures
            (*final(self), r) == at_apps(old(self).timers, *s, round, running),
    {
        if self.timers.due(s, round).app {
            self.phase = Phase::AppsAudited(round);
            Order::AuditApps
        } else {
            self.snapshots(s, round, running)
        }
    }

    fn caches(&mut self, s: &Schedule, round: Stamp, running: bool) -> (r: Order)
        requires
            intervals_fit(*s),
        ensures
            (*final(self), r) == at_caches(old(self).timers, *s, round, running),
    {
        if self.timers.due(s, round).cache {
            self.phase = Phase::CachesSwept(round);
            Order::SweepCaches
        } else {
            self.apps(s, round, running)
        }
    }

    /// What the daemon does next, given the schedule of the current configuration,
    /// whether it may go on, and the time.
    pub fn run(&mut self, s: &Schedule, running: bool, now: Stamp) -> (r: Order)
        requires
            intervals_fit(*s),
        ensures
            (*final(self), r) == stepped(*old(self), *s, running, now),
    {
        match self.phase {
            Phase::Top => self.top(running),
            Phase::Fresh => self.caches(s, now, running),
            Phase::CachesSwept(round) => {
                self.timers.cache_ran(now);
                self.apps(s, round, running)
            },
            Phase::AppsAudited(round) => {
                self.timers.app_ran(now);
                self.snapshots(s, round, running)
            },
            Phase::SnapshotsAudited => {
                self.timers.snapshot_ran(now);
                self.rest(0, running)
            },
            Phase::Idle(naps) => self.rest(naps, running),
        }
    }
}

/// A daemon that was told to stop ends before it sleeps again, and before the next round.
pub proof fn daemon_stops_between_naps(d: Daemon, s: Schedule, now: Stamp)
    requires
        d.phase is Idle || d.phase is Top || d.phase is SnapshotsAudited,
    ensures
        stepped(d, s, false, now).1 == Order::Stop,
{
}

/// When the round that a daemon is in began.
pub open spec fn round_of(d: Daemon, now: Stamp) -> Stamp {
    match d.phase {
        Phase::CachesSwept(round) => round,
        Phase::AppsAudited(round) => round,
        _ => now,
    }
}

/// A pass runs only where it is due in its round, the passes of a round run in order,
/// and the timers change only by a pass that has run.
pub proof fn passes_run_only_when_due(d: Daemon, s: Schedule, running: bool, now: Stamp)
    ensures
        ({
            let (after, order) = stepped(d, s, running, now);
            let due = due_at(d.timers, s, round_of(d, now));
            &&& order == Order::SweepCaches ==> due.cache && d.phase is Fresh
            &&& order == Order::AuditApps ==> due.app && (d.phase is Fresh
                || d.phase is CachesSwept)
            &&& order == Order::AuditSnapshots ==> due.snapshot && (d.phase is Fresh
                || d.phase is CachesSwept || d.phase is AppsAudited)
            &&& after.timers.cache != d.timers.cache ==> d.phase is CachesSwept
            &&& after.timers.app != d.timers.app ==> d.phase is AppsAudited
            &&& after.timers.snapshot != d.timers.snapshot ==> d.phase is SnapshotsAudited
        }),
{
}

/// A pass that is due in its round runs: the sweep of caches first, and each audit at
/// the latest where those before it are over.
pub proof fn due_passes_run(d: Daemon, s: Schedule, running: bool, now: Stamp)
    ensures
        ({
            let order = stepped(d, s, running, now).1;
            let due = due_at(d.timers, s, round_of(d, now));
            &&& d.phase is Fresh && due.cache ==> order == Order::SweepCaches
            &&& d.phase is CachesSwept && due.app ==> order == Order::AuditApps
            &&& d.phase is AppsAudited && due.snapshot ==> order == Order::AuditSnapshots
            &&& d.phase is Fresh && !due.cache && due.app ==> order == Order::AuditApps
            &&& (d.phase is Fresh && !due.cache || d.phase is CachesSwept) && !due.app
                && due.snapshot ==> order == Order::AuditSnapshots
        }),
{
}

/// The daemon reads its configuration at the start of every round and before any pass.
pub proof fn every_round_reads_the_configuration(d: Daemon, s: Schedule, now: Stamp)
    requires
        d.phase is Top || d.phase == Phase::Idle(NAPS),
    ensures
        stepped(d, s, true, now).1 == Order::ReadConfig,
{
}

/// The first loop runs everything, once and in order, whatever the clock and the
/// schedule: the configuration is read, caches are swept, apps and snapshots audited;
/// then the daemon sleeps. The points in time are those of the five steps.
pub proof fn first_loop_runs_everything(
    s: Schedule,
    t0: Stamp,
    t1: Stamp,
    t2: Stamp,
    t3: Stamp,
    t4: Stamp,
)
    ensures
        ({
            let start = Daemon { timers: fresh_timers(), phase: Phase::Top };
            let read = stepped(start, s, true, t0);
            let swept = stepped(read.0, s, true, t1);
            let apps = stepped(swept.0, s, true, t2);
            let snapshots = stepped(apps.0, s, true, t3);
            let slept = stepped(snapshots.0, s, true, t4);
            &&& read.1 == Order::ReadConfig
            &&& swept.1 == Order::SweepCaches
            &&& apps.1 == Order::AuditApps
            &&& snapshots.1 == Order::AuditSnapshots
            &&& slept.1 == Order::Sleep
            &&& slept.0.timers == (Timers { cache: Some(t2), app: Some(t3), snapshot: Some(t4) })
        }),
{
}

/// A pass that has just run is not due again before its interval is over, and running it
/// leaves the others as they are.
pub proof fn pass_waits_for_its_interval(t: Timers, s: Schedule, now: Stamp)
    ensures
        ({
            let before = due_at(t, s, now);
            let swept = due_at(Timers { cache: Some(now), ..t }, s, now);
            let apps = due_at(Timers { app: Some(now), ..t }, s, now);
            let snapshots = due_at(Timers { snapshot: Some(now), ..t }, s, now);
            &&& swept == (Due { cache: s.cache_sweep_interval_hours == 0, ..before })
            &&& apps == (Due { app: s.app_audit_interval_days == 0, ..before })
            &&& snapshots == (Due { snapshot: s.snapshot_audit_interval_days == 0, ..before })
        }),
{
}

// ── starting on login ────────────────────────────────────────────────────────

/// The label of the daemon.
pub open spec fn label() -> Seq<char> {
    "com.hush.daemon"@
}

/// Where launch agents are.
pub open spec fn agent_dir(home: Seq<char>) -> Seq<char> {
    paths::joined(home, "Library/LaunchAgents"@)
}

/// Where the daemon's launch agent is.
pub open spec fn agent_file(home: Seq<char>) -> Seq<char> {
    paths::joined(agent_dir(home), label() + ".plist"@)
}

/// Where the daemon's launch agent is.
pub fn plist_path(home: &str) -> (r: String)
    ensures
        r@ == agent_file(home@),
{
    let dir = paths::home_join(home, "Library/LaunchAgents");
    paths::join(dir.as_str(), text::join2("com.hush.daemon", ".plist").as_str())
}

/// The property list that starts the daemon on login and keeps it alive, at low
/// priority.
pub open spec fn plist_of(bin: Seq<char>, cfg: Seq<char>, home: Seq<char>) -> Seq<char> {
    "<?xml version=\"1.0\" encoding=\"UTF-8\"?>\n<!DOCTYPE plist PUBLIC \"-//Apple//DTD PLIST 1.0//EN\"\n  \"http://www.apple.com/DTDs/PropertyList-1.0.dtd\">\n<plist version=\"1.0\">\n<dict>\n    <key>Label</key>\n    <string>"@
        + label()
        + "</string>\n\n    <key>ProgramArguments</key>\n    <array>\n        <string>"@ + bin
        + "</string>\n        <string>--config</string>\n        <string>"@ + cfg
        + "</string>\n        <string>daemon</string>\n        <string>--foreground</string>\n    </array>\n\n    <!-- Start immediately and stay alive -->\n    <key>RunAtLoad</key>\n    <true/>\n    <key>KeepAlive</key>\n    <true/>\n\n    <!-- Throttle rapid respawn (e.g. config error) -->\n    <key>ThrottleInterval</key>\n    <integer>30</integer>\n\n    <!-- Low I/O priority — never competes with user work -->\n    <key>LowPriorityIO</key>\n    <true/>\n    <key>Nice</key>\n    <integer>5</integer>\n\n    <key>StandardOutPath</key>\n    <string>"@
        + home
        + "/Library/Logs/hush.log</string>\n    <key>StandardErrorPath</key>\n    <string>"@ + home
        + "/Library/Logs/hush.log</string>\n\n    <key>EnvironmentVariables</key>\n    <dict>\n        <key>RUST_LOG</key>\n        <string>warn</string>\n    </dict>\n</dict>\n</plist>"@
}

/// The property list that starts the daemon on login.
pub fn plist_text(bin: &str, cfg: &str, home: &str) -> (r: String)
    ensures
        r@ == plist_of(bin@, cfg@, home@),
{
    let mut r = text::join3(
        "<?xml version=\"1.0\" encoding=\"UTF-8\"?>\n<!DOCTYPE plist PUBLIC \"-//Apple//DTD PLIST 1.0//EN\"\n  \"http://www.apple.com/DTDs/PropertyList-1.0.dtd\">\n<plist version=\"1.0\">\n<dict>\n    <key>Label</key>\n    <string>",
        "com.hush.daemon",
        "</string>\n\n    <key>ProgramArguments</key>\n    <array>\n        <string>",
    );
    r.append(bin);
    r.append("</string>\n        <string>--config</string>\n        <string>");
    r.append(cfg);
    r.append(
        "</string>\n        <string>daemon</string>\n        <string>--foreground</string>\n    </array>\n\n    <!-- Start immediately and stay alive -->\n    <key>RunAtLoad</key>\n    <true/>\n    <key>KeepAlive</key>\n    <true/>\n\n    <!-- Throttle rapid respawn (e.g. config error) -->\n    <key>ThrottleInterval</key>\n    <integer>30</integer>\n\n    <!-- Low I/O priority — never competes with user work -->\n    <key>LowPriorityIO</key>\n    <true/>\n    <key>Nice</key>\n    <integer>5</integer>\n\n    <key>StandardOutPath</key>\n    <string>",
    );
    r.append(home);
    r.append("/Library/Logs/hush.log</string>\n    <key>StandardErrorPath</key>\n    <string>");
    r.append(home);
    r.append(
        "/Library/Logs/hush.log</string>\n\n    <key>EnvironmentVariables</key>\n    <dict>\n        <key>RUST_LOG</key>\n        <string>warn</string>\n    </dict>\n</dict>\n</plist>",
    );
    r
}

/// The rule by which the log is rotated every week.
pub fn rotation_rule(home: &str) -> (r: String)
    ensures
        r@ == "# hush log rotation — managed by `hush install`\n"@ + home@
            + "/Library/Logs/hush.log  644  4  *  $W0D0  JN\n"@,
{
    text::join3(
        "# hush log rotation — managed by `hush install`\n",
        home,
        "/Library/Logs/hush.log  644  4  *  $W0D0  JN\n",
    )
}

/// What has to be done to have the daemon started on login.
pub struct Installation {
    /// The directory that has to be there.
    pub dir: String,
    /// The launch agent and what it holds.
    pub plist_path: String,
    pub plist: String,
    /// Where rotation rules are, the rule for the log and its file. It is written only
    /// where the directory exists, and no harm is done where that fails.
    pub rotation_dir: String,
    pub rotation_path: String,
    pub rotation: String,
    /// Loads the launch agent.
    pub load: CommandLine,
    /// What is reported.
    pub lines: Vec<String>,
}

/// What is reported after the daemon was installed.
pub open spec fn install_lines(plist_path: Seq<char>) -> Seq<Seq<char>> {
    seq![
        "✓  LaunchAgent installed"@,
        "   "@ + plist_path,
        "   daemon will auto-start on next login"@,
        "   to start now: launchctl start "@ + label(),
        "   logs: ~/Library/Logs/hush.log"@,
    ]
}

/// What has to be done to have the daemon started on login.
pub fn install(cfg_path: &str, bin: &str, home: &str) -> (r: Installation)
    ensures
        r.dir@ == agent_dir(home@),
        r.plist_path@ == agent_file(home@),
        r.plist@ == plist_of(bin@, cfg_path@, home@),
        r.rotation_dir@ == "/etc/newsyslog.d"@,
        r.rotation_path@ == "/etc/newsyslog.d/hush.conf"@,
        r.rotation@ == "# hush log rotation — managed by `hush install`\n"@ + home@
            + "/Library/Logs/hush.log  644  4  *  $W0D0  JN\n"@,
        r.load@ == ("launchctl"@, seq!["load"@, "-w"@, agent_file(home@)]),
        text::views(r.lines@) == install_lines(agent_file(home@)),
{
    let path = plist_path(home);
    let load = command("launchctl", &["load", "-w", path.as_str()]);
    assert(load@.1 =~= seq!["load"@, "-w"@, path@]);
    let mut lines: Vec<String> = Vec::new();
    lines.push(text::owned("✓  LaunchAgent installed"));
    lines.push(text::join2("   ", path.as_str()));
    lines.push(text::owned("   daemon will auto-start on next login"));
    lines.push(text::join2("   to start now: launchctl start ", "com.hush.daemon"));
    lines.push(text::owned("   logs: ~/Library/Logs/hush.log"));
    assert(text::views(lines@) =~= install_lines(path@));
    Installation {
        dir: paths::home_join(home, "Library/LaunchAgents"),
        plist_path: path,
        plist: plist_text(bin, cfg_path, home),
        rotation_dir: text::owned("/etc/newsyslog.d"),
        rotation_path: text::owned("/etc/newsyslog.d/hush.conf"),
        rotation: rotation_rule(home),
        load,
        lines,
    }
}

/// What has to be done to have the daemon no longer started: the launch agent is
/// unloaded, then it and the rotation rule are deleted where they exist.
pub struct Removal {
    pub unload: CommandLine,
    pub plist_path: String,
    pub rotation_path: String,
}

/// What has to be done to have the daemon no longer started.
pub fn uninstall(home: &str) -> (r: Removal)
    ensures
        r.unload@ == ("launchctl"@, seq!["unload"@, "-w"@, agent_file(home@)]),
        r.plist_path@ == agent_file(home@),
        r.rotation_path@ == "/etc/newsyslog.d/hush.conf"@,
{
    let path = plist_path(home);
    let unload = command("launchctl", &["unload", "-w", path.as_str()]);
    assert(unload@.1 =~= seq!["unload"@, "-w"@, path@]);
    Removal { unload, plist_path: path, rotation_path: text::owned("/etc/newsyslog.d/hush.conf") }
}

/// What is reported after the daemon was uninstalled, given whether there was a launch
/// agent.
pub fn uninstall_line(existed: bool) -> (r: String)
    ensures
        r@ == (if existed {
            "✓  LaunchAgent removed"@
        } else {
            "  nothing to uninstall (LaunchAgent not found)"@
        }),
{
    if existed {
        text::owned("✓  LaunchAgent removed")
    } else {
        text::owned("  nothing to uninstall (LaunchAgent not found)")
    }
}

/// The question whether the daemon runs.
pub fn status_command() -> (r: CommandLine)
    ensures
        r@ == ("launchctl"@, seq!["list"@, label()]),
{
    let r = command("launchctl", &["list", "com.hush.daemon"]);
    assert(r@.1 =~= seq!["list"@, label()]);
    r
}

/// At its start the daemon cleans what the system leaves behind, silences and tunes, where
/// it is to clean then, in this order, and else does nothing.
pub proof fn boot_runs_every_pass()
    ensures
        boot_passes_of(false).len() == 0,
        boot_passes_of(true) == seq![
            Pass::DsStore,
            Pass::AppleDouble,
            Pass::CrashLogs,
            Pass::Tmp,
            Pass::SystemLogs,
            Pass::Agents,
            Pass::QuitOnClose,
            Pass::Notifications,
            Pass::SystemTuning,
            Pass::Interface,
            Pass::Dns,
        ],
{
    assert(boot_passes_of(true) =~= seq![
        Pass::DsStore,
        Pass::AppleDouble,
        Pass::CrashLogs,
        Pass::Tmp,
        Pass::SystemLogs,
        Pass::Agents,
        Pass::QuitOnClose,
        Pass::Notifications,
        Pass::SystemTuning,
        Pass::Interface,
        Pass::Dns,
    ]);
}

/// A pass that has run is due again exactly when its interval of the schedule is over:
/// sweeps of caches by hours, audits of apps and snapshots by days. One that has not run is
/// due at once.
pub proof fn passes_are_due_by_the_schedule(t: Timers, s: Schedule, now: Stamp)
    requires
        s.cache_sweep_interval_hours > 0,
        s.app_audit_interval_days > 0,
        s.snapshot_audit_interval_days > 0,
    ensures
        ({
            let due = due_at(t, s, now);
            &&& due.cache <==> (t.cache matches Some(l) ==> now.secs > l.secs
                + s.cache_sweep_interval_hours * 3600 || (now.secs == l.secs
                + s.cache_sweep_interval_hours * 3600 && now.nanos >= l.nanos))
            &&& due.app <==> (t.app matches Some(l) ==> now.secs > l.secs
                + s.app_audit_interval_days * 86400 || (now.secs == l.secs
                + s.app_audit_interval_days * 86400 && now.nanos >= l.nanos))
            &&& due.snapshot <==> (t.snapshot matches Some(l) ==> now.secs > l.secs
                + s.snapshot_audit_interval_days * 86400 || (now.secs == l.secs
                + s.snapshot_audit_interval_days * 86400 && now.nanos >= l.nanos))
        }),
{
}

/// Between two rounds the daemon sleeps sixty times, as long as it may go on.
pub proof fn rounds_are_sixty_naps_apart(t: Timers, s: Schedule, now: Stamp, n: int)
    requires
        0 <= n < 60,
    ensures
        stepped(Daemon { timers: t, phase: Phase::Idle(n as u32) }, s, true, now) == (
            Daemon { timers: t, phase: Phase::Idle((n + 1) as u32) },
            Order::Sleep,
        ),
        stepped(Daemon { timers: t, phase: Phase::Idle(60) }, s, true, now).1 == Order::ReadConfig,
{
}

/// The launch agent lies below the home directory, under the label of the daemon. It holds
/// that label and starts the program with the configuration behind `--config`; both of its
/// logs are the one below the home directory.
pub proof fn the_agent_names_what_it_starts(bin: Seq<char>, cfg: Seq<char>, home: Seq<char>)
    requires
        home.len() > 0,
        home.last() != '/',
    ensures
        agent_file(home) == home + "/Library/LaunchAgents/com.hush.daemon.plist"@,
        text::has(plist_of(bin, cfg, home), "com.hush.daemon"@),
        text::has(
            plist_of(bin, cfg, home),
            bin + "</string>\n        <string>--config</string>\n        <string>"@ + cfg,
        ),
        text::has(
            plist_of(bin, cfg, home),
            home
                + "/Library/Logs/hush.log</string>\n    <key>StandardErrorPath</key>\n    <string>"@
                + home,
        ),
{
    reveal_strlit("Library/LaunchAgents");
    reveal_strlit("com.hush.daemon");
    reveal_strlit(".plist");
    reveal_strlit("/Library/LaunchAgents/com.hush.daemon.plist");
    paths::joining_puts_one_slash(home, "Library/LaunchAgents"@);
    let name = label() + ".plist"@;
    assert(name[0] == 'c');
    assert(agent_dir(home).last() == 's');
    paths::joining_puts_one_slash(agent_dir(home), name);
    assert("/Library/LaunchAgents/com.hush.daemon.plist"@ =~= seq!['/'] + "Library/LaunchAgents"@
        + seq!['/'] + name);
    assert(agent_file(home) =~= home + "/Library/LaunchAgents/com.hush.daemon.plist"@);
    let s = plist_of(bin, cfg, home);
    let l0 = "<?xml version=\"1.0\" encoding=\"UTF-8\"?>\n<!DOCTYPE plist PUBLIC \"-//Apple//DTD PLIST 1.0//EN\"\n  \"http://www.apple.com/DTDs/PropertyList-1.0.dtd\">\n<plist version=\"1.0\">\n<dict>\n    <key>Label</key>\n    <string>"@;
    let l1 = "</string>\n\n    <key>ProgramArguments</key>\n    <array>\n        <string>"@;
    let l2 = "</string>\n        <string>--config</string>\n        <string>"@;
    let l3 = "</string>\n        <string>daemon</string>\n        <string>--foreground</string>\n    </array>\n\n    <!-- Start immediately and stay alive -->\n    <key>RunAtLoad</key>\n    <true/>\n    <key>KeepAlive</key>\n    <true/>\n\n    <!-- Throttle rapid respawn (e.g. config error) -->\n    <key>ThrottleInterval</key>\n    <integer>30</integer>\n\n    <!-- Low I/O priority — never competes with user work -->\n    <key>LowPriorityIO</key>\n    <true/>\n    <key>Nice</key>\n    <integer>5</integer>\n\n    <key>StandardOutPath</key>\n    <string>"@;
    let l4 = "/Library/Logs/hush.log</string>\n    <key>StandardErrorPath</key>\n    <string>"@;
    let l5 = "/Library/Logs/hush.log</string>\n\n    <key>EnvironmentVariables</key>\n    <dict>\n        <key>RUST_LOG</key>\n        <string>warn</string>\n    </dict>\n</dict>\n</plist>"@;
    let program = bin + l2 + cfg;
    let logs = home + l4 + home;
    assert(s =~= l0 + label() + (l1 + program + l3 + logs + l5));
    text::parts_are_found(s, l0, label(), l1 + program + l3 + logs + l5);
    assert(s =~= (l0 + label() + l1) + program + (l3 + logs + l5));
    text::parts_are_found(s, l0 + label() + l1, program, l3 + logs + l5);
    assert(s =~= (l0 + label() + l1 + program + l3) + logs + l5);
    text::parts_are_found(s, l0 + label() + l1 + program + l3, logs, l5);
}

/// A step remembers what it has to: when its round began, as long as passes may follow in
/// it, and when a pass was over, by the time at which it is told so. Nothing due, and not
/// told to stop, it sleeps.
pub proof fn a_step_remembers_its_round(d: Daemon, s: Schedule, running: bool, now: Stamp)
    ensures
        ({
            let (after, order) = stepped(d, s, running, now);
            let round = match d.phase {
                Phase::CachesSwept(r) => r,
                Phase::AppsAudited(r) => r,
                _ => now,
            };
            let t = d.timers;
            &&& order == Order::SweepCaches ==> after.phase == Phase::CachesSwept(round)
            &&& order == Order::AuditApps ==> after.phase == Phase::AppsAudited(round)
            &&& order == Order::AuditSnapshots ==> after.phase is SnapshotsAudited
            &&& order == Order::ReadConfig ==> after.phase is Fresh
            &&& order == Order::Stop ==> after.phase is Top && !running
            &&& d.phase is CachesSwept ==> after.timers == (Timers { cache: Some(now), ..t })
            &&& d.phase is AppsAudited ==> after.timers == (Timers { app: Some(now), ..t })
            &&& d.phase is SnapshotsAudited ==> after.timers == (Timers {
                snapshot: Some(now),
                ..t
            })
            &&& d.phase is Top || d.phase is Fresh || d.phase is Idle ==> after.timers == t
            &&& d.phase is Top && running ==> order == Order::ReadConfig
            &&& d.phase is SnapshotsAudited && running ==> order == Order::Sleep && after.phase
                == Phase::Idle(1)
            &&& d.phase is Fresh && running && !due_at(t, s, now).cache && !due_at(t, s, now).app
                && !due_at(t, s, now).snapshot ==> order == Order::Sleep && after.phase
                == Phase::Idle(1)
        }),
{
}

} // verus!
