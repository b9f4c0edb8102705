//! The configuration: its sections, how it is loaded, and what it must satisfy.

use vstd::prelude::*;
use crate::clock::Stamp;
use crate::json::{Fault, FaultView, Json, JsonView};
use crate::{comments, json, migrate, paths, text};

pub use crate::migrate::SCHEMA_VERSION;

verus! {

broadcast use crate::text::group_views;

// ── top level ────────────────────────────────────────────────────────────────

/// The whole configuration.
#[derive(Debug)]
pub struct Config {
    /// The version of the schema; 0 in a document that says none.
    pub schema_version: u32,
    pub schedule: Schedule,
    pub thresholds: Thresholds,
    pub paths: Paths,
    pub categories: Categories,
    pub snapshots: Snapshots,
    pub silence: Silence,
    pub optimizer: Optimizer,
    pub process_killer: ProcessKiller,
    pub whitelist: Whitelist,
    pub rogue_list: RogueList,
}

/// When the passes run.
#[derive(Debug)]
pub struct Schedule {
    pub boot_clean: bool,
    pub cache_sweep_interval_hours: u64,
    pub app_audit_interval_days: u64,
    pub snapshot_audit_interval_days: u64,
}

/// From when on something counts as old, unused or large.
#[derive(Debug)]
pub struct Thresholds {
    pub cache_unused_days: u64,
    pub uninstall_unused_days: u64,
    pub snapshot_max_age_days: u64,
    pub snapshot_keep_count: u64,
    pub large_file_min_mb: u64,
    pub log_max_age_days: u64,
    pub tmp_max_age_hours: u64,
    pub timemachine_incomplete_safe_hours: u64,
}

/// Where the passes look.
#[derive(Debug)]
pub struct Paths {
    pub system_cache: Vec<String>,
    pub user_cache: Vec<String>,
    pub crash_logs: Vec<String>,
    pub tmp_dirs: Vec<String>,
    pub app_containers: Vec<String>,
    pub app_support: Vec<String>,
    pub app_prefs: Vec<String>,
    pub system_logs: Vec<String>,
}

/// What the cleaning passes deal with.
#[derive(Debug)]
pub struct Categories {
    pub system: SystemCategory,
    pub dev_caches: DevCacheCategory,
    pub project_artifacts: ProjectArtifactsCategory,
    pub logs: LogsCategory,
}

/// System junk.
#[derive(Debug)]
pub struct SystemCategory {
    pub enabled: bool,
    pub targets: Vec<SystemTarget>,
}

/// One kind of system junk.
#[derive(Debug)]
pub struct SystemTarget {
    pub name: String,
    pub path: Option<String>,
    pub pattern: Option<String>,
    pub ext: Option<Vec<String>>,
    pub recursive: Option<bool>,
    pub max_age_days: Option<u64>,
}

/// Caches of developer tools.
#[derive(Debug)]
pub struct DevCacheCategory {
    pub enabled: bool,
    pub entries: Vec<DevCacheEntry>,
}

/// The cache of one developer tool.
#[derive(Debug)]
pub struct DevCacheEntry {
    pub name: String,
    pub path: String,
    /// `safe`, `caution` or `risky`.
    pub risk: String,
    pub group: Option<String>,
}

/// The mark by which a risk is shown.
pub open spec fn risk_mark(risk: Seq<char>) -> Seq<char> {
    if risk == "safe"@ {
        "🟢"@
    } else if risk == "caution"@ {
        "🟡"@
    } else if risk == "risky"@ {
        "🔴"@
    } else {
        "⚪"@
    }
}

impl DevCacheEntry {
    /// The mark by which the risk of this entry is shown.
    pub fn risk_emoji(&self) -> (r: &'static str)
        ensures
            r@ == risk_mark(self.risk@),
    {
        let risk: &str = self.risk.as_str();
        if text::same(risk, "safe") {
            "🟢"
        } else if text::same(risk, "caution") {
            "🟡"
        } else if text::same(risk, "risky") {
            "🔴"
        } else {
            "⚪"
        }
    }

    /// Whether the entry holds data that nothing brings back.
    pub fn is_risky(&self) -> (r: bool)
        ensures
            r == (self.risk@ == "risky"@),
    {
        text::same(self.risk.as_str(), "risky")
    }
}

/// Build artifacts in project directories.
#[derive(Debug)]
pub struct ProjectArtifactsCategory {
    pub enabled: bool,
    pub min_size_mb: u64,
    pub scan_roots: Vec<String>,
    pub types: Vec<ProjectType>,
}

/// A kind of project: the file that marks it and the artifact that it builds.
#[derive(Debug)]
pub struct ProjectType {
    pub marker: String,
    pub artifact: String,
    pub label: String,
}

/// Log files.
#[derive(Debug)]
pub struct LogsCategory {
    pub enabled: bool,
    pub max_age_days: u64,
}

/// Local snapshots of the file system.
#[derive(Debug)]
pub struct Snapshots {
    pub enabled: bool,
    pub auto_delete: bool,
    pub max_age_days: u64,
    pub keep_count: u64,
    pub skip_if_tm_running: bool,
    pub delete_incomplete_backups: bool,
    pub incomplete_safe_hours: u64,
}

/// Notifications and background agents.
#[derive(Debug)]
pub struct Silence {
    pub enabled: bool,
    pub block_notifications: bool,
    pub block_background_agents: bool,
    pub force_quit_on_window_close: bool,
    pub notification_mode: String,
    pub per_app_overrides: Overrides,
}

/// What one app may do all the same.
#[derive(Debug, Clone, Copy, PartialEq, Eq, Structural)]
pub struct AppOverride {
    pub allow_notifications: bool,
    pub allow_background: bool,
}

/// The override for one bundle identifier.
#[derive(Debug)]
pub struct OverrideEntry {
    pub bundle_id: String,
    pub rule: AppOverride,
}

/// No two entries are for the same bundle identifier.
pub open spec fn distinct_overrides(entries: Seq<OverrideEntry>) -> bool {
    forall|i: int, j: int|
        0 <= i < j < entries.len() ==> (#[trigger] entries[i]).bundle_id@ != (
        #[trigger] entries[j]).bundle_id@
}

/// The rules of entries by their bundle identifiers.
pub open spec fn rules_of(entries: Seq<OverrideEntry>) -> Map<Seq<char>, AppOverride>
    decreases entries.len(),
{
    if entries.len() == 0 {
        Map::empty()
    } else {
        rules_of(entries.drop_last()).insert(entries.last().bundle_id@, entries.last().rule)
    }
}

/// The overrides: at most one rule for each bundle identifier.
#[derive(Debug)]
pub struct Overrides {
    entries: Vec<OverrideEntry>,
}

impl View for Overrides {
    type V = Map<Seq<char>, AppOverride>;

    closed spec fn view(&self) -> Map<Seq<char>, AppOverride> {
        rules_of(self.entries@)
    }
}

/// Where no bundle identifier occurs twice, the rule for one is that of the only entry
/// which names it, wherever it stands, and there is none only where no entry does.
pub proof fn override_is_the_only_one(entries: Seq<OverrideEntry>, i: int, bid: Seq<char>)
    requires
        distinct_overrides(entries),
    ensures
        rules_of(entries).contains_key(bid) <==> exists|k: int|
            0 <= k < entries.len() && (#[trigger] entries[k]).bundle_id@ == bid,
        0 <= i < entries.len() && entries[i].bundle_id@ == bid ==> rules_of(entries)[bid]
            == entries[i].rule,
    decreases entries.len(),
{
    if entries.len() > 0 {
        let rest = entries.drop_last();
        assert(distinct_overrides(rest)) by {
            assert forall|a: int, b: int| 0 <= a < b < rest.len() implies (
            #[trigger] rest[a]).bundle_id@ != (#[trigger] rest[b]).bundle_id@ by {
                assert(entries[a].bundle_id@ != entries[b].bundle_id@);
            }
        }
        override_is_the_only_one(rest, i, bid);
        if rules_of(rest).contains_key(bid) {
            let k = choose|k: int| 0 <= k < rest.len() && (#[trigger] rest[k]).bundle_id@ == bid;
            assert(entries[k].bundle_id@ == bid);
        }
        let last = entries.len() - 1;
        assert(entries[last] == entries.last());
        if exists|k: int| 0 <= k < entries.len() && (#[trigger] entries[k]).bundle_id@ == bid {
            let k = choose|k: int|
                0 <= k < entries.len() && (#[trigger] entries[k]).bundle_id@ == bid;
            if k < last {
                assert(rest[k].bundle_id@ == bid);
            }
        }
        if 0 <= i < last {
            assert(rest[i] == entries[i]);
            assert(entries[i].bundle_id@ != entries[last].bundle_id@);
        }
    }
}

/// The order of entries does not matter: two lists that hold the same entries, in neither
/// of which a bundle identifier occurs twice, give the same rules.
pub proof fn overrides_have_no_order(a: Seq<OverrideEntry>, b: Seq<OverrideEntry>)
    requires
        distinct_overrides(a),
        distinct_overrides(b),
        forall|e: OverrideEntry| a.contains(e) <==> b.contains(e),
    ensures
        rules_of(a) == rules_of(b),
{
    assert forall|bid: Seq<char>| #[trigger] rules_of(a).contains_key(bid) == rules_of(
        b,
    ).contains_key(bid) && (rules_of(a).contains_key(bid) ==> rules_of(a)[bid] == rules_of(b)[bid])
        by {
        override_is_the_only_one(a, 0, bid);
        override_is_the_only_one(b, 0, bid);
        if rules_of(a).contains_key(bid) {
            let i = choose|i: int| 0 <= i < a.len() && (#[trigger] a[i]).bundle_id@ == bid;
            assert(a.contains(a[i]));
            let j = choose|j: int| 0 <= j < b.len() && b[j] == a[i];
            assert(b[j].bundle_id@ == bid);
            override_is_the_only_one(a, i, bid);
            override_is_the_only_one(b, j, bid);
        }
        if rules_of(b).contains_key(bid) {
            let j = choose|j: int| 0 <= j < b.len() && (#[trigger] b[j]).bundle_id@ == bid;
            assert(b.contains(b[j]));
            let i = choose|i: int| 0 <= i < a.len() && a[i] == b[j];
            assert(a[i].bundle_id@ == bid);
        }
    }
    assert(rules_of(a) =~= rules_of(b));
}

/// Some override allows an agent to run in the background: one that is for a part of the
/// agent's label.
pub open spec fn background_allowed(label: Seq<char>, rules: Map<Seq<char>, AppOverride>) -> bool {
    exists|bid: Seq<char>| #[trigger]
        rules.contains_key(bid) && rules[bid].allow_background && text::has(label, bid)
}

impl Overrides {
    #[verifier::type_invariant]
    spec fn inv(&self) -> bool {
        distinct_overrides(self.entries@)
    }

    /// No overrides.
    pub fn new() -> (r: Overrides)
        ensures
            r@ == Map::<Seq<char>, AppOverride>::empty(),
    {
        Overrides { entries: Vec::new() }
    }

    fn position(&self, bid: &str) -> (r: Option<usize>)
        ensures
            match r {
                Some(i) => i < self.entries@.len() && self.entries@[i as int].bundle_id@ == bid@,
                None => forall|k: int|
                    0 <= k < self.entries@.len() ==> (#[trigger] self.entries@[k]).bundle_id@
                        != bid@,
            },
    {
        let mut i: usize = 0;
        while i < self.entries.len()
            invariant
                i <= self.entries@.len(),
                forall|k: int|
                    0 <= k < i ==> (#[trigger] self.entries@[k]).bundle_id@ != bid@,
            decreases self.entries.len() - i,
        {
            if text::same(self.entries[i].bundle_id.as_str(), bid) {
                return Some(i);
            }
            i = i + 1;
        }
        None
    }

    /// The rule for a bundle identifier.
    pub fn get(&self, bid: &str) -> (r: Option<AppOverride>)
        ensures
            r == (if self@.contains_key(bid@) {
                Some(self@[bid@])
            } else {
                None
            }),
    {
        proof {
            use_type_invariant(self);
        }
        match self.position(bid) {
            Some(i) => {
                proof {
                    override_is_the_only_one(self.entries@, i as int, bid@);
                }
                Some(self.entries[i].rule)
            },
            None => {
                proof {
                    override_is_the_only_one(self.entries@, 0, bid@);
                }
                None
            },
        }
    }

    /// Sets the rule for a bundle identifier. One that it had before is replaced.
    pub fn insert(&mut self, bundle_id: String, rule: AppOverride)
        ensures
            final(self)@ == old(self)@.insert(bundle_id@, rule),
    {
        proof {
            use_type_invariant(&*self);
        }
        let at = self.position(bundle_id.as_str());
        let ghost before = self.entries@;
        let ghost bid = bundle_id@;
        let mut list: Vec<OverrideEntry> = Vec::new();
        std::mem::swap(&mut list, &mut self.entries);
        match at {
            Some(i) => {
                list.remove(i);
            },
            None => {},
        }
        let ghost rest = list@;
        let ghost gone = match at {
            Some(i) => i as int,
            None => before.len() as int,
        };
        list.push(OverrideEntry { bundle_id, rule });
        proof {
            let after = list@;
            assert forall|k: int| 0 <= k < rest.len() implies (#[trigger] rest[k]) == before[if k
                < gone {
                k
            } else {
                k + 1
            }] && rest[k].bundle_id@ != bid by {
                let j = if k < gone {
                    k
                } else {
                    k + 1
                };
                assert(rest[k] == before[j]);
                if gone < before.len() {
                    assert(before[gone].bundle_id@ == bid);
                    if j < gone {
                        assert(before[j].bundle_id@ != before[gone].bundle_id@);
                    } else {
                        assert(before[gone].bundle_id@ != before[j].bundle_id@);
                    }
                }
            }
            assert(distinct_overrides(rest));
            assert(distinct_overrides(after));
            assert(after.drop_last() =~= rest);
            assert forall|k: Seq<char>| k != bid implies #[trigger] rules_of(rest).contains_key(k)
                == rules_of(before).contains_key(k) && (rules_of(rest).contains_key(k)
                ==> rules_of(rest)[k] == rules_of(before)[k]) by {
                override_is_the_only_one(rest, 0, k);
                override_is_the_only_one(before, 0, k);
                if rules_of(rest).contains_key(k) {
                    let i = choose|i: int|
                        0 <= i < rest.len() && (#[trigger] rest[i]).bundle_id@ == k;
                    let j = if i < gone {
                        i
                    } else {
                        i + 1
                    };
                    assert(before[j].bundle_id@ == k);
                    override_is_the_only_one(rest, i, k);
                    override_is_the_only_one(before, j, k);
                }
                if rules_of(before).contains_key(k) {
                    let j = choose|j: int|
                        0 <= j < before.len() && (#[trigger] before[j]).bundle_id@ == k;
                    let i = if j < gone {
                        j
                    } else {
                        j - 1
                    };
                    assert(rest[i].bundle_id@ == k);
                }
            }
            let want = rules_of(before).insert(bid, rule);
            assert(rules_of(after) == rules_of(rest).insert(bid, rule));
            assert forall|k: Seq<char>| #[trigger] rules_of(after).dom().contains(k)
                == want.dom().contains(k) && (want.dom().contains(k) ==> rules_of(after)[k]
                == want[k]) by {
                if k != bid {
                    assert(rules_of(rest).contains_key(k) == rules_of(before).contains_key(k));
                }
            }
            assert(rules_of(after) =~= want);
        }
        self.entries = list;
    }

    /// Whether some override allows an agent with this label to run in the background.
    pub fn allow_background(&self, label: &str) -> (r: bool)
        ensures
            r == background_allowed(label@, self@),
    {
        proof {
            use_type_invariant(self);
        }
        let ghost all = self.entries@;
        let mut i: usize = 0;
        while i < self.entries.len()
            invariant
                i <= self.entries@.len(),
                all == self.entries@,
                distinct_overrides(all),
                forall|j: int|
                    0 <= j < i ==> !((#[trigger] all[j]).rule.allow_background && text::has(
                        label@,
                        all[j].bundle_id@,
                    )),
            decreases self.entries.len() - i,
        {
            if self.entries[i].rule.allow_background && text::contains(
                label,
                self.entries[i].bundle_id.as_str(),
            ) {
                proof {
                    let bid = all[i as int].bundle_id@;
                    override_is_the_only_one(all, i as int, bid);
                    assert(self@.contains_key(bid));
                }
                return true;
            }
            i = i + 1;
        }
        proof {
            if background_allowed(label@, self@) {
                let bid = choose|bid: Seq<char>| #[trigger]
                    self@.contains_key(bid) && self@[bid].allow_background && text::has(
                        label@,
                        bid,
                    );
                override_is_the_only_one(all, 0, bid);
                let k = choose|k: int| 0 <= k < all.len() && (#[trigger] all[k]).bundle_id@ == bid;
                override_is_the_only_one(all, k, bid);
            }
        }
        false
    }

    /// The overrides as a list, no bundle identifier twice.
    pub fn into_entries(self) -> (r: Vec<OverrideEntry>)
        ensures
            rules_of(r@) == self@,
            distinct_overrides(r@),
    {
        proof {
            use_type_invariant(&self);
        }
        self.entries
    }
}

impl Silence {
    /// The override for a bundle identifier.
    pub fn override_for(&self, bid: &str) -> (r: Option<AppOverride>)
        ensures
            r == (if self.per_app_overrides@.contains_key(bid@) {
                Some(self.per_app_overrides@[bid@])
            } else {
                None
            }),
    {
        self.per_app_overrides.get(bid)
    }
}

/// Which optimizing passes run.
#[derive(Debug)]
pub struct Optimizer {
    pub enabled: bool,
    pub flush_dns: bool,
    pub quicklook_refresh: bool,
    pub launch_services_rebuild: bool,
    pub sqlite_vacuum: bool,
    pub quarantine_cleanup: bool,
    pub saved_state_cleanup: bool,
    pub saved_state_max_age_days: u64,
    pub broken_launch_agents: bool,
    pub notification_center_cleanup: bool,
    pub coreduet_cleanup: bool,
    pub font_cache_rebuild: bool,
    pub dock_refresh: bool,
    pub prevent_network_dsstore: bool,
    pub purge_inactive_memory: bool,
    pub disable_reopen_windows: bool,
    pub disable_sudden_motion_sensor: bool,
    pub increase_fd_limit: bool,
    pub periodic_maintenance: bool,
}

/// How unwanted processes are ended.
#[derive(Debug)]
pub struct ProcessKiller {
    pub enabled: bool,
    pub graceful_timeout_secs: u64,
    pub force_timeout_secs: u64,
    pub use_launchctl_bootout: bool,
}

/// What is never touched.
#[derive(Debug)]
pub struct Whitelist {
    pub apps: Vec<String>,
    pub bundle_ids: Vec<String>,
    pub paths: Vec<String>,
}

impl Whitelist {
    /// Whether a bundle identifier is listed.
    pub fn contains_bundle(&self, bid: &str) -> (r: bool)
        ensures
            r == text::views(self.bundle_ids@).contains(bid@),
    {
        text::is_any(bid, &self.bundle_ids)
    }

    /// Whether an app is listed by its name.
    pub fn contains_app(&self, name: &str) -> (r: bool)
        ensures
            r == text::views(self.apps@).contains(name@),
    {
        text::is_any(name, &self.apps)
    }
}

/// What is not wanted on the system.
#[derive(Debug)]
pub struct RogueList {
    pub bundle_ids: Vec<String>,
    pub app_names: Vec<String>,
    pub process_names: Vec<String>,
}

// ── errors ───────────────────────────────────────────────────────────────────

/// Why a configuration cannot be used.
pub enum ConfigError {
    /// The file cannot be read.
    Unreadable { path: String, detail: String },
    /// The text is no JSON document.
    Syntax(Fault),
    /// A field is missing or holds a value of the wrong type.
    Mistyped(String),
    /// Caches would count as unused at once.
    ZeroCacheDays,
    /// Apps would be uninstalled before their caches are cleared.
    UninstallBelowCache { uninstall: u64, cache: u64 },
    /// Sweeps would never stop.
    ZeroSweepInterval,
}

/// The view of a [`ConfigError`].
pub enum ConfigErrorView {
    Unreadable(Seq<char>, Seq<char>),
    Syntax(FaultView),
    Mistyped(Seq<char>),
    ZeroCacheDays,
    UninstallBelowCache(nat, nat),
    ZeroSweepInterval,
}

impl View for ConfigError {
    type V = ConfigErrorView;

    open spec fn view(&self) -> ConfigErrorView {
        match self {
            ConfigError::Unreadable { path, detail } => ConfigErrorView::Unreadable(
                path@,
                detail@,
            ),
            ConfigError::Syntax(f) => ConfigErrorView::Syntax(f@),
            ConfigError::Mistyped(m) => ConfigErrorView::Mistyped(m@),
            ConfigError::ZeroCacheDays => ConfigErrorView::ZeroCacheDays,
            ConfigError::UninstallBelowCache {
                uninstall,
                cache,
            } => ConfigErrorView::UninstallBelowCache(*uninstall as nat, *cache as nat),
            ConfigError::ZeroSweepInterval => ConfigErrorView::ZeroSweepInterval,
        }
    }
}

/// A configuration error in words.
pub open spec fn config_error_text(e: ConfigErrorView) -> Seq<char> {
    match e {
        ConfigErrorView::Unreadable(path, detail) => "cannot read "@ + path + ": "@ + detail,
        ConfigErrorView::Syntax(f) => "config.json parse error at line "@ + text::decimal(
            f.line as nat,
        ) + ", col "@ + text::decimal(f.column as nat) + ": "@ + f.message,
        ConfigErrorView::Mistyped(m) => "config type error: "@ + m,
        ConfigErrorView::ZeroCacheDays => "thresholds.cache_unused_days must be > 0"@,
        ConfigErrorView::UninstallBelowCache(uninstall, cache) =>
            "thresholds.uninstall_unused_days ("@ + text::decimal(uninstall)
            + ") must be >= cache_unused_days ("@ + text::decimal(cache) + ")"@,
        ConfigErrorView::ZeroSweepInterval => "schedule.cache_sweep_interval_hours must be > 0"@,
    }
}

impl ConfigError {
    /// The error in words.
    pub fn describe(&self) -> (r: String)
        ensures
            r@ == config_error_text(self@),
    {
        match self {
            ConfigError::Unreadable { path, detail } => {
                let mut r = text::join3("cannot read ", path.as_str(), ": ");
                r.append(detail.as_str());
                r
            },
            ConfigError::Syntax(f) => {
                let line = text::decimal_of(f.line as u64);
                let column = text::decimal_of(f.column as u64);
                let mut r = text::join3(
                    "config.json parse error at line ",
                    line.as_str(),
                    ", col ",
                );
                r.append(column.as_str());
                r.append(": ");
                r.append(f.message.as_str());
                r
            },
            ConfigError::Mistyped(m) => text::join2("config type error: ", m.as_str()),
            ConfigError::ZeroCacheDays => text::owned("thresholds.cache_unused_days must be > 0"),
            ConfigError::UninstallBelowCache { uninstall, cache } => {
                let u = text::decimal_of(*uninstall);
                let c = text::decimal_of(*cache);
                let mut r = text::join3(
                    "thresholds.uninstall_unused_days (",
                    u.as_str(),
                    ") must be >= cache_unused_days (",
                );
                r.append(c.as_str());
                r.append(")");
                r
            },
            ConfigError::ZeroSweepInterval => text::owned(
                "schedule.cache_sweep_interval_hours must be > 0",
            ),
        }
    }
}

// ── validation ───────────────────────────────────────────────────────────────

/// The thresholds of days contradict nothing.
pub open spec fn ordered_days(t: Thresholds) -> bool {
    0 < t.cache_unused_days <= t.uninstall_unused_days
}

/// What is wrong with a configuration, if anything.
pub open spec fn defect(c: Config) -> Option<ConfigErrorView> {
    let t = c.thresholds;
    if t.cache_unused_days == 0 {
        Some(ConfigErrorView::ZeroCacheDays)
    } else if t.uninstall_unused_days < t.cache_unused_days {
        Some(
            ConfigErrorView::UninstallBelowCache(
                t.uninstall_unused_days as nat,
                t.cache_unused_days as nat,
            ),
        )
    } else if c.schedule.cache_sweep_interval_hours == 0 {
        Some(ConfigErrorView::ZeroSweepInterval)
    } else {
        None
    }
}

/// The configuration with at least one snapshot kept.
pub open spec fn with_one_kept(c: Config) -> Config {
    if c.thresholds.snapshot_keep_count == 0 {
        Config { thresholds: Thresholds { snapshot_keep_count: 1, ..c.thresholds }, ..c }
    } else {
        c
    }
}

/// What every loaded configuration satisfies.
pub open spec fn valid(c: Config) -> bool {
    &&& 0 < c.thresholds.cache_unused_days <= c.thresholds.uninstall_unused_days
    &&& c.thresholds.snapshot_keep_count >= 1
    &&& c.schedule.cache_sweep_interval_hours > 0
}

// ── loading ──────────────────────────────────────────────────────────────────

/// What `decode` makes of a document, and the document itself.
pub open spec fn decoded<D: Fn(Json) -> Result<Config, String>>(
    decode: D,
    doc: JsonView,
    j: Json,
    c: Result<Config, String>,
) -> bool {
    j@ == migrate::current(doc) && call_ensures(decode, (j,), c)
}

/// What comes of a decoded configuration: the first defect, or the configuration
/// with at least one snapshot kept.
pub open spec fn accepted(c: Result<Config, String>, r: Result<Config, ConfigError>) -> bool {
    match c {
        Err(m) => r matches Err(e) && e@ == ConfigErrorView::Mistyped(m@),
        Ok(c) => match defect(c) {
            Some(d) => r matches Err(e) && e@ == d,
            None => r == Ok::<Config, ConfigError>(with_one_kept(c)),
        },
    }
}

/// What comes of a parsed document: a syntax error as it is, else the document
/// brought up to the current schema, decoded and validated.
pub open spec fn loaded<D: Fn(Json) -> Result<Config, String>>(
    parsed: Result<JsonView, FaultView>,
    decode: D,
    r: Result<Config, ConfigError>,
) -> bool {
    match parsed {
        Err(f) => r matches Err(e) && e@ == ConfigErrorView::Syntax(f),
        Ok(doc) => exists|j: Json, c: Result<Config, String>| #[trigger]
            decoded(decode, doc, j, c) && accepted(c, r),
    }
}

/// `~/` stands for the home directory.
pub open spec fn expanded(s: Seq<char>, home: Seq<char>) -> Seq<char> {
    if "~/"@.is_prefix_of(s) {
        paths::joined(home, s.skip(2))
    } else {
        s
    }
}

impl Config {
    /// Loads the configuration at a path, given what the file holds or why it cannot be
    /// read. A file that cannot be read is an error that names it, and a malformed one an
    /// error that says where, never a silent default.
    pub fn load<D: Fn(Json) -> Result<Config, String>>(
        path: &str,
        file: Result<String, String>,
        decode: D,
    ) -> (r: Result<Config, ConfigError>)
        requires
            forall|j: Json| #[trigger] call_requires(decode, (j,)),
        ensures
            match file {
                Err(why) => r matches Err(e) && e@ == ConfigErrorView::Unreadable(path@, why@),
                Ok(raw) => loaded(json::document(comments::stripped(raw@)), decode, r),
            },
            r matches Ok(c) ==> valid(c),
    {
        match file {
            Err(detail) => Err(ConfigError::Unreadable { path: text::owned(path), detail }),
            Ok(raw) => Config::from_text(raw.as_str(), decode),
        }
    }

    /// Loads a configuration from its text: comments go, the document is parsed,
    /// brought up to the current schema, decoded by `decode`, and validated.
    pub fn from_text<D: Fn(Json) -> Result<Config, String>>(raw: &str, decode: D) -> (r: Result<
        Config,
        ConfigError,
    >)
        requires
            forall|j: Json| #[trigger] call_requires(decode, (j,)),
        ensures
            loaded(json::document(comments::stripped(raw@)), decode, r),
            r matches Ok(c) ==> valid(c),
    {
        let clean = comments::strip_json_comments(raw);
        Config::from_document(json::parse(clean.as_str()), decode)
    }

    /// Loads a configuration from a document, or from the failure to parse one.
    pub fn from_document<D: Fn(Json) -> Result<Config, String>>(
        parsed: Result<Json, Fault>,
        decode: D,
    ) -> (r: Result<Config, ConfigError>)
        requires
            forall|j: Json| #[trigger] call_requires(decode, (j,)),
        ensures
            loaded(text::res_view(parsed), decode, r),
            r matches Ok(c) ==> valid(c),
    {
        match parsed {
            Err(f) => Err(ConfigError::Syntax(f)),
            Ok(value) => {
                let ghost doc = value@;
                let j = migrate::bring_up(value);
                let ghost shown = j;
                let c = decode(j);
                assert(decoded(decode, doc, shown, c));
                match c {
                    Err(m) => Err(ConfigError::Mistyped(m)),
                    Ok(config) => {
                        let mut cfg = config;
                        match cfg.validate() {
                            Ok(_) => Ok(cfg),
                            Err(e) => Err(e),
                        }
                    },
                }
            },
        }
    }

    /// Checks what every configuration must satisfy, and sees to it that at least one
    /// snapshot is kept.
    pub fn validate(&mut self) -> (r: Result<(), ConfigError>)
        ensures
            *final(self) == (if ordered_days(old(self).thresholds) {
                with_one_kept(*old(self))
            } else {
                *old(self)
            }),
            match r {
                Ok(_) => defect(*old(self)) is None,
                Err(e) => defect(*old(self)) == Some(e@),
            },
            r is Ok ==> valid(*final(self)),
    {
        if self.thresholds.cache_unused_days == 0 {
            return Err(ConfigError::ZeroCacheDays);
        }
        if self.thresholds.uninstall_unused_days < self.thresholds.cache_unused_days {
            return Err(
                ConfigError::UninstallBelowCache {
                    uninstall: self.thresholds.uninstall_unused_days,
                    cache: self.thresholds.cache_unused_days,
                },
            );
        }
        if self.thresholds.snapshot_keep_count == 0 {
            self.thresholds.snapshot_keep_count = 1;
        }
        if self.schedule.cache_sweep_interval_hours == 0 {
            return Err(ConfigError::ZeroSweepInterval);
        }
        Ok(())
    }

    /// Puts the home directory in the place of a leading `~/`.
    pub fn expand(s: &str, home: &str) -> (r: String)
        ensures
            r@ == expanded(s@, home@),
    {
        if text::starts_with(s, "~/") {
            let x = text::chars_of(s);
            proof {
                reveal_strlit("~/");
                assert(x@.subrange(2, x@.len() as int) =~= s@.skip(2));
            }
            let rest = text::string_of(&x, 2, x.len());
            paths::join(home, rest.as_str())
        } else {
            text::owned(s)
        }
    }
}

/// Whether a configuration file has changed since it was last loaded, by the time of
/// its last change.
pub fn changed(last: &Option<Stamp>, seen: &Option<Stamp>) -> (r: bool)
    ensures
        r == (*last != *seen),
{
    match (last, seen) {
        (Some(a), Some(b)) => *a != *b,
        (None, None) => false,
        _ => true,
    }
}

/// A configuration that was validated passes again, unchanged.
pub proof fn valid_stays_valid(c: Config)
    requires
        defect(c) is None,
    ensures
        valid(with_one_kept(c)),
        defect(with_one_kept(c)) is None,
        with_one_kept(with_one_kept(c)) == with_one_kept(c),
{
}

/// `~/` at the start of a path stands for the home directory, and only there.
pub proof fn tilde_stands_for_home(rest: Seq<char>, home: Seq<char>, s: Seq<char>)
    ensures
        expanded("~/"@ + rest, home) == paths::joined(home, rest),
        s.len() < 2 || s[0] != '~' || s[1] != '/' ==> expanded(s, home) == s,
{
    reveal_strlit("~/");
    let t = "~/"@;
    assert(t.len() == 2 && t[0] == '~' && t[1] == '/');
    assert((t + rest).subrange(0, 2) =~= t);
    assert((t + rest).skip(2) =~= rest);
    if t.is_prefix_of(s) {
        assert(s[0] == t[0] && s[1] == t[1]);
    }
}

/// Which configurations are accepted: those with a positive number of days for caches, no
/// fewer for uninstalling, and a positive interval for sweeps. The first defect in this
/// order is reported. What is accepted stays as it is, but that at least one snapshot is
/// kept.
pub proof fn which_configurations_are_accepted(c: Config)
    ensures
        defect(c) is None <==> c.thresholds.cache_unused_days > 0
            && c.thresholds.uninstall_unused_days >= c.thresholds.cache_unused_days
            && c.schedule.cache_sweep_interval_hours > 0,
        c.thresholds.cache_unused_days == 0 ==> defect(c) == Some(ConfigErrorView::ZeroCacheDays),
        c.thresholds.cache_unused_days > 0 && c.thresholds.uninstall_unused_days
            < c.thresholds.cache_unused_days ==> defect(c) == Some(
            ConfigErrorView::UninstallBelowCache(
                c.thresholds.uninstall_unused_days as nat,
                c.thresholds.cache_unused_days as nat,
            ),
        ),
        with_one_kept(c).thresholds.snapshot_keep_count == (if c.thresholds.snapshot_keep_count
            == 0 {
            1
        } else {
            c.thresholds.snapshot_keep_count
        }),
        with_one_kept(c) == (Config {
            thresholds: Thresholds {
                snapshot_keep_count: with_one_kept(c).thresholds.snapshot_keep_count,
                ..c.thresholds
            },
            ..c
        }),
{
}

/// Each risk has its own mark, and what is no known risk has one that none of them has.
pub proof fn risks_have_their_own_marks(risk: Seq<char>)
    ensures
        risk == "safe"@ ==> risk_mark(risk) == "🟢"@,
        risk == "caution"@ ==> risk_mark(risk) == "🟡"@,
        risk == "risky"@ ==> risk_mark(risk) == "🔴"@,
        risk != "safe"@ && risk != "caution"@ && risk != "risky"@ ==> risk_mark(risk) == "⚪"@,
{
    reveal_strlit("safe");
    reveal_strlit("caution");
    reveal_strlit("risky");
    assert("safe"@.len() == 4 && "caution"@.len() == 7 && "risky"@.len() == 5);
}

/// An override is found under its own bundle identifier, and setting one changes nothing
/// for any other app.
pub proof fn overrides_are_kept_apart(
    rules: Map<Seq<char>, AppOverride>,
    bid: Seq<char>,
    other: Seq<char>,
    rule: AppOverride,
    label: Seq<char>,
)
    requires
        bid != other,
    ensures
        rules.insert(bid, rule)[bid] == rule,
        rules.insert(bid, rule).contains_key(other) == rules.contains_key(other),
        rules.contains_key(other) ==> rules.insert(bid, rule)[other] == rules[other],
        rule.allow_background && text::has(label, bid) ==> background_allowed(
            label,
            rules.insert(bid, rule),
        ),
        background_allowed(label, rules) ==> exists|b: Seq<char>|
            rules.contains_key(b) && #[trigger] text::has(label, b) && rules[b].allow_background,
{
    assert(rules.insert(bid, rule).contains_key(bid));
}

/// An error in words names what it is about: the file and the reason, or the place and the
/// message of the parser.
pub proof fn config_errors_name_their_cause(path: Seq<char>, detail: Seq<char>, f: FaultView)
    ensures
        text::has(config_error_text(ConfigErrorView::Unreadable(path, detail)), path),
        detail.is_suffix_of(config_error_text(ConfigErrorView::Unreadable(path, detail))),
        detail.is_suffix_of(config_error_text(ConfigErrorView::Mistyped(detail))),
        text::has(
            config_error_text(ConfigErrorView::Syntax(f)),
            text::decimal(f.line as nat) + ", col "@ + text::decimal(f.column as nat),
        ),
        f.message.is_suffix_of(config_error_text(ConfigErrorView::Syntax(f))),
{
    let a = config_error_text(ConfigErrorView::Unreadable(path, detail));
    lemma_named("cannot read "@, path, ": "@ + detail, a);
    lemma_ends("cannot read "@ + path + ": "@, detail);
    lemma_ends("config type error: "@, detail);
    let c = config_error_text(ConfigErrorView::Syntax(f));
    let front = "config.json parse error at line "@;
    let place = text::decimal(f.line as nat) + ", col "@ + text::decimal(f.column as nat);
    lemma_named(front, place, ": "@ + f.message, c);
    lemma_ends(
        front + text::decimal(f.line as nat) + ", col "@ + text::decimal(f.column as nat) + ": "@,
        f.message,
    );
}

proof fn lemma_named(front: Seq<char>, part: Seq<char>, back: Seq<char>, whole: Seq<char>)
    requires
        whole =~= front + part + back,
    ensures
        text::has(whole, part),
{
    text::parts_are_found(whole, front, part, back);
}

proof fn lemma_ends(front: Seq<char>, back: Seq<char>)
    ensures
        back.is_suffix_of(front + back),
{
    let s = front + back;
    assert(s.subrange(s.len() - back.len(), s.len() as int) =~= back);
}

/// The error about contradictory thresholds gives the days for uninstalling first, then
/// those for caches.
pub proof fn contradictions_name_both_numbers(uninstall: nat, cache: nat)
    ensures
        text::has(
            config_error_text(ConfigErrorView::UninstallBelowCache(uninstall, cache)),
            text::decimal(uninstall) + ") must be >= cache_unused_days ("@ + text::decimal(cache),
        ),
{
    let d = config_error_text(ConfigErrorView::UninstallBelowCache(uninstall, cache));
    let part = text::decimal(uninstall) + ") must be >= cache_unused_days ("@ + text::decimal(
        cache,
    );
    lemma_named("thresholds.uninstall_unused_days ("@, part, ")"@, d);
}

/// What comes of a document: a syntax error stays one, a document of the wrong shape is
/// mistyped with the words of its decoder, one with a defect has that defect, and any other
/// is accepted as it was decoded, but that a snapshot is kept.
pub proof fn loading_goes_by_what_was_read<D: Fn(Json) -> Result<Config, String>>(
    decode: D,
    f: FaultView,
    m: String,
    c: Config,
    r: Result<Config, ConfigError>,
)
    ensures
        loaded(Err(f), decode, r) ==> (r matches Err(e) && e@ == ConfigErrorView::Syntax(f)),
        accepted(Err(m), r) ==> (r matches Err(e) && e@ == ConfigErrorView::Mistyped(m@)),
        accepted(Ok(c), r) ==> (r is Ok <==> c.thresholds.cache_unused_days > 0
            && c.thresholds.uninstall_unused_days >= c.thresholds.cache_unused_days
            && c.schedule.cache_sweep_interval_hours > 0),
        accepted(Ok(c), r) ==> (r matches Ok(x) ==> x.thresholds.snapshot_keep_count >= 1 && (
        c.thresholds.snapshot_keep_count >= 1 ==> x == c)),
        accepted(Ok(c), r) && c.thresholds.cache_unused_days > 0
            && c.thresholds.uninstall_unused_days >= c.thresholds.cache_unused_days
            && c.schedule.cache_sweep_interval_hours == 0 ==> (r matches Err(e) && e@
            == ConfigErrorView::ZeroSweepInterval),
{
}

} // verus!
