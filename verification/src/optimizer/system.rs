//! Deeper maintenance of the system: registries, databases, saved state and agents.

use vstd::prelude::*;
use crate::clock::Stamp;
use crate::command::{command, CommandLine};
use crate::config::{Config, Optimizer, Whitelist};
use crate::plan::{Action, ActionView};
use crate::{clock, guard, lists, paths, plan, text};

verus! {

broadcast use crate::text::group_views;

// ── which passes run ─────────────────────────────────────────────────────────

/// A pass of the system optimizer.
#[derive(Debug, Clone, Copy, PartialEq, Eq, Structural)]
pub enum SystemPass {
    LaunchServices,
    Databases,
    Quarantine,
    SavedStates,
    BrokenAgents,
    NotificationPrefs,
    CoreDuet,
    MotionSensor,
    FileLimit,
    Periodic,
    PurgeMemory,
    ReopenWindows,
}

/// `pass` where `wanted`, else none.
pub open spec fn only_if(wanted: bool, pass: SystemPass) -> Seq<SystemPass> {
    if wanted {
        seq![pass]
    } else {
        Seq::empty()
    }
}

/// The passes that run, in order: those that are switched on. Memory is purged by the
/// superuser only.
pub open spec fn passes_of(opt: Optimizer, is_root: bool) -> Seq<SystemPass> {
    if !opt.enabled {
        Seq::empty()
    } else {
        only_if(opt.launch_services_rebuild, SystemPass::LaunchServices) + only_if(
            opt.sqlite_vacuum,
            SystemPass::Databases,
        ) + only_if(opt.quarantine_cleanup, SystemPass::Quarantine) + only_if(
            opt.saved_state_cleanup,
            SystemPass::SavedStates,
        ) + only_if(opt.broken_launch_agents, SystemPass::BrokenAgents) + only_if(
            opt.notification_center_cleanup,
            SystemPass::NotificationPrefs,
        ) + only_if(opt.coreduet_cleanup, SystemPass::CoreDuet) + only_if(
            opt.disable_sudden_motion_sensor,
            SystemPass::MotionSensor,
        ) + only_if(opt.increase_fd_limit, SystemPass::FileLimit) + only_if(
            opt.periodic_maintenance,
            SystemPass::Periodic,
        ) + only_if(opt.purge_inactive_memory && is_root, SystemPass::PurgeMemory) + only_if(
            opt.disable_reopen_windows,
            SystemPass::ReopenWindows,
        )
    }
}

fn push_if(r: &mut Vec<SystemPass>, wanted: bool, pass: SystemPass)
    ensures
        final(r)@ == old(r)@ + only_if(wanted, pass),
{
    if wanted {
        r.push(pass);
        assert(r@ =~= old(r)@ + only_if(wanted, pass));
    } else {
        assert(old(r)@ + only_if(wanted, pass) =~= old(r)@);
    }
}

/// The passes that run, in order.
pub fn apply(cfg: &Config, is_root: bool) -> (r: Vec<SystemPass>)
    ensures
        r@ == passes_of(cfg.optimizer, is_root),
{
    let opt = &cfg.optimizer;
    let mut r: Vec<SystemPass> = Vec::new();
    if !opt.enabled {
        return r;
    }
    push_if(&mut r, opt.launch_services_rebuild, SystemPass::LaunchServices);
    push_if(&mut r, opt.sqlite_vacuum, SystemPass::Databases);
    push_if(&mut r, opt.quarantine_cleanup, SystemPass::Quarantine);
    push_if(&mut r, opt.saved_state_cleanup, SystemPass::SavedStates);
    push_if(&mut r, opt.broken_launch_agents, SystemPass::BrokenAgents);
    push_if(&mut r, opt.notification_center_cleanup, SystemPass::NotificationPrefs);
    push_if(&mut r, opt.coreduet_cleanup, SystemPass::CoreDuet);
    push_if(&mut r, opt.disable_sudden_motion_sensor, SystemPass::MotionSensor);
    push_if(&mut r, opt.increase_fd_limit, SystemPass::FileLimit);
    push_if(&mut r, opt.periodic_maintenance, SystemPass::Periodic);
    push_if(&mut r, opt.purge_inactive_memory && is_root, SystemPass::PurgeMemory);
    push_if(&mut r, opt.disable_reopen_windows, SystemPass::ReopenWindows);
    assert(r@ =~= passes_of(*opt, is_root));
    r
}

/// What a pass does that only runs tools. The others depend on what is found.
pub open spec fn tweaks(pass: SystemPass) -> Seq<ActionView> {
    match pass {
        SystemPass::MotionSensor => seq![ActionView::Run("pmset"@, seq!["-a"@, "sms"@, "0"@])],
        SystemPass::FileLimit => seq![
            ActionView::Run("launchctl"@, seq!["limit"@, "maxfiles"@, "524288"@, "524288"@]),
        ],
        SystemPass::Periodic => seq![
            ActionView::Run("periodic"@, seq!["daily"@]),
            ActionView::Run("periodic"@, seq!["weekly"@]),
            ActionView::Run("periodic"@, seq!["monthly"@]),
        ],
        SystemPass::PurgeMemory => seq![ActionView::Run("purge"@, Seq::empty())],
        SystemPass::ReopenWindows => seq![
            plan::setting("com.apple.loginwindow"@, "TALLogoutSavesState"@, "-bool"@, "false"@),
            plan::setting("NSGlobalDomain"@, "NSQuitAlwaysKeepsWindows"@, "-bool"@, "false"@),
        ],
        _ => Seq::empty(),
    }
}

/// What a pass does that only runs tools.
pub fn tweak_actions(pass: SystemPass) -> (r: Vec<Action>)
    ensures
        text::views(r@) == tweaks(pass),
{
    let mut r: Vec<Action> = Vec::new();
    match pass {
        SystemPass::MotionSensor => {
            r.push(plan::run3("pmset", "-a", "sms", "0"));
        },
        SystemPass::FileLimit => {
            r.push(plan::run4("launchctl", "limit", "maxfiles", "524288", "524288"));
        },
        SystemPass::Periodic => {
            r.push(plan::run1("periodic", "daily"));
            r.push(plan::run1("periodic", "weekly"));
            r.push(plan::run1("periodic", "monthly"));
        },
        SystemPass::PurgeMemory => {
            r.push(plan::run0("purge"));
        },
        SystemPass::ReopenWindows => {
            r.push(
                plan::defaults_write(
                    "com.apple.loginwindow",
                    "TALLogoutSavesState",
                    "-bool",
                    "false",
                ),
            );
            r.push(
                plan::defaults_write(
                    "NSGlobalDomain",
                    "NSQuitAlwaysKeepsWindows",
                    "-bool",
                    "false",
                ),
            );
        },
        _ => {},
    }
    assert(text::views(r@) =~= tweaks(pass));
    r
}

// ── the registry of apps ─────────────────────────────────────────────────────

/// Where the registration tool may be.
pub open spec fn lsregister_places() -> Seq<Seq<char>> {
    seq![
        "/System/Library/Frameworks/CoreServices.framework/Versions/A/Frameworks/LaunchServices.framework/Versions/A/Support/lsregister"@,
        "/System/Library/Frameworks/CoreServices.framework/Frameworks/LaunchServices.framework/Support/lsregister"@,
    ]
}

/// Where the registration tool may be, in the order of preference.
pub fn lsregister_candidates() -> (r: Vec<String>)
    ensures
        text::views(r@) == lsregister_places(),
{
    let mut r: Vec<String> = Vec::new();
    r.push(
        text::owned(
            "/System/Library/Frameworks/CoreServices.framework/Versions/A/Frameworks/LaunchServices.framework/Versions/A/Support/lsregister",
        ),
    );
    r.push(
        text::owned(
            "/System/Library/Frameworks/CoreServices.framework/Frameworks/LaunchServices.framework/Support/lsregister",
        ),
    );
    assert(text::views(r@) =~= lsregister_places());
    r
}

/// The index of the first yes.
pub open spec fn first_yes(answers: Seq<bool>, from: int) -> Option<int>
    decreases answers.len() - from,
{
    if from < 0 || from >= answers.len() {
        None
    } else if answers[from] {
        Some(from)
    } else {
        first_yes(answers, from + 1)
    }
}

/// The first place of those that exist.
pub fn find_lsregister(exists: &Vec<bool>) -> (r: Option<String>)
    requires
        exists@.len() == lsregister_places().len(),
    ensures
        text::opt_view(r) == (match first_yes(exists@, 0) {
            Some(i) => Some(lsregister_places()[i]),
            None => None,
        }),
{
    let places = lsregister_candidates();
    let mut i: usize = 0;
    while i < exists.len()
        invariant
            i <= exists@.len(),
            exists@.len() == lsregister_places().len(),
            text::views(places@) == lsregister_places(),
            first_yes(exists@, 0) == first_yes(exists@, i as int),
        decreases exists.len() - i,
    {
        if exists[i] {
            assert(places@.len() == text::views(places@).len());
            assert(places@[i as int]@ == lsregister_places()[i as int]);
            return Some(text::owned(places[i].as_str()));
        }
        i = i + 1;
    }
    None
}

/// Builds the registry of apps anew.
pub open spec fn rebuild_plan(tool: Option<Seq<char>>) -> Seq<ActionView> {
    match tool {
        Some(bin) => seq![
            ActionView::Run(
                bin,
                seq![
                    "-kill"@,
                    "-r"@,
                    "-domain"@,
                    "local"@,
                    "-domain"@,
                    "system"@,
                    "-domain"@,
                    "user"@,
                ],
            ),
        ],
        None => Seq::empty(),
    }
}

/// Builds the registry of apps anew, where the tool for it was found.
pub fn rebuild_launch_services(tool: &Option<String>) -> (r: Vec<Action>)
    ensures
        text::views(r@) == rebuild_plan(text::opt_view(*tool)),
{
    let mut r: Vec<Action> = Vec::new();
    match tool {
        Some(bin) => {
            let c = command(
                bin.as_str(),
                &["-kill", "-r", "-domain", "local", "-domain", "system", "-domain", "user"],
            );
            assert(c@.1 =~= seq![
                "-kill"@,
                "-r"@,
                "-domain"@,
                "local"@,
                "-domain"@,
                "system"@,
                "-domain"@,
                "user"@,
            ]);
            r.push(Action::Run(c));
        },
        None => {},
    }
    assert(text::views(r@) =~= rebuild_plan(text::opt_view(*tool)));
    r
}

// ── databases ────────────────────────────────────────────────────────────────

/// The database of the registry of apps.
pub open spec fn registry_db(home: Seq<char>) -> Seq<char> {
    paths::joined(
        home,
        "Library/Preferences/com.apple.LaunchServices/com.apple.launchservices.secure.db"@,
    )
}

fn registry_path(home: &str) -> (r: String)
    ensures
        r@ == registry_db(home@),
{
    paths::home_join(
        home,
        "Library/Preferences/com.apple.LaunchServices/com.apple.launchservices.secure.db",
    )
}

/// The path, unless it is blocked.
pub open spec fn unless_blocked(path: Seq<char>) -> Seq<Seq<char>> {
    if guard::hard_blocked(path) {
        Seq::empty()
    } else {
        seq![path]
    }
}

/// Where databases are looked for: in these directories, and one level below.
pub open spec fn database_roots(home: Seq<char>) -> Seq<Seq<char>> {
    unless_blocked(paths::joined(home, "Library/Application Support"@)) + unless_blocked(
        paths::joined(home, "Library/Messages"@),
    )
}

/// Where databases are looked for.
pub fn vacuum_roots(home: &str) -> (r: Vec<String>)
    ensures
        text::views(r@) == database_roots(home@),
{
    let mut r: Vec<String> = Vec::new();
    let support = paths::home_join(home, "Library/Application Support");
    let ghost s = support@;
    if !guard::is_hard_blocked(support.as_str()) {
        r.push(support);
    }
    let messages = paths::home_join(home, "Library/Messages");
    let ghost m = messages@;
    if !guard::is_hard_blocked(messages.as_str()) {
        r.push(messages);
    }
    assert(text::views(r@) =~= unless_blocked(s) + unless_blocked(m));
    r
}

/// An entry of a directory where databases are looked for: its path and, where it is a
/// directory, the paths in it.
pub struct DatabaseEntry {
    pub path: String,
    pub inside: Option<Vec<String>>,
}

/// The files that may be databases: entries that are no directories, and what is in
/// those that are.
pub open spec fn files_in(entries: Seq<DatabaseEntry>) -> Seq<Seq<char>>
    decreases entries.len(),
{
    if entries.len() == 0 {
        Seq::empty()
    } else {
        let before = files_in(entries.drop_last());
        match entries.last().inside {
            Some(list) => before + text::views(list@),
            None => before.push(entries.last().path@),
        }
    }
}

/// The files that may be databases.
pub fn vacuum_sqlite_dbs(entries: Vec<DatabaseEntry>) -> (r: Vec<String>)
    ensures
        text::views(r@) == files_in(entries@),
{
    let ghost all = entries@;
    let mut todo: Vec<DatabaseEntry> = lists::reversed(entries);
    let mut r: Vec<String> = Vec::new();
    let ghost mut k: int = 0;
    assert(all.take(0) =~= Seq::<DatabaseEntry>::empty());
    while todo.len() > 0
        invariant
            0 <= k,
            k + todo@.len() == all.len(),
            todo@ == all.skip(k).reverse(),
            text::views(r@) == files_in(all.take(k)),
        decreases todo.len(),
    {
        match todo.pop() {
            Some(e) => {
                proof {
                    assert(e == all[k]);
                    assert(all.take(k + 1).drop_last() =~= all.take(k));
                    assert(all.take(k + 1).last() == e);
                    assert(todo@ =~= all.skip(k + 1).reverse());
                    k = k + 1;
                }
                match e.inside {
                    Some(list) => {
                        let mut inside = list;
                        r.append(&mut inside);
                    },
                    None => {
                        r.push(e.path);
                    },
                }
            },
            None => {},
        }
    }
    assert(all.take(k) =~= all);
    r
}

/// Databases that are looked at wherever they are.
pub fn system_databases(home: &str) -> (r: Vec<String>)
    ensures
        text::views(r@) == seq![registry_db(home@)],
{
    let mut r: Vec<String> = Vec::new();
    r.push(registry_path(home));
    assert(text::views(r@) =~= seq![registry_db(home@)]);
    r
}

/// Only smaller databases are rewritten: with others it takes too long.
pub const DATABASE_LIMIT: u64 = 524_288_000;

/// The extension of the path is that of a database.
pub open spec fn is_database(path: Seq<char>) -> bool {
    match paths::path_ext(path) {
        Some(e) => e == "db"@ || e == "sqlite"@ || e == "sqlite3"@,
        None => false,
    }
}

/// The database may be rewritten: it is not blocked, neither empty nor too large.
pub open spec fn may_vacuum(path: Seq<char>, bytes: int) -> bool {
    is_database(path) && !guard::hard_blocked(path) && 0 < bytes < DATABASE_LIMIT
}

/// A database that may be rewritten. First it is tried whether it can be locked, and
/// only where that succeeds it is rewritten.
pub struct Vacuum {
    path: String,
}

impl View for Vacuum {
    type V = Seq<char>;

    closed spec fn view(&self) -> Seq<char> {
        self.path@
    }
}

impl Vacuum {
    /// Tries whether the database can be locked.
    pub fn probe(&self) -> (r: CommandLine)
        ensures
            r@ == ("sqlite3"@, seq![self@, "BEGIN EXCLUSIVE; ROLLBACK;"@]),
    {
        let r = command("sqlite3", &[self.path.as_str(), "BEGIN EXCLUSIVE; ROLLBACK;"]);
        assert(r@.1 =~= seq![self@, "BEGIN EXCLUSIVE; ROLLBACK;"@]);
        r
    }

    /// Rewrites the database, given whether it could be locked; none where it could not.
    pub fn resume(self, locked: bool) -> (r: Option<CommandLine>)
        ensures
            text::opt_view(r) == (if locked {
                Some(("sqlite3"@, seq![self@, "VACUUM;"@]))
            } else {
                None
            }),
    {
        if !locked {
            return None;
        }
        let r = command("sqlite3", &[self.path.as_str(), "VACUUM;"]);
        assert(r@.1 =~= seq![self@, "VACUUM;"@]);
        Some(r)
    }
}

/// The database at a path; none where it must not be rewritten.
pub fn vacuum_if_eligible(path: &str, bytes: u64) -> (r: Option<Vacuum>)
    ensures
        text::opt_view(r) == (if may_vacuum(path@, bytes as int) {
            Some(path@)
        } else {
            None
        }),
{
    let fits: bool = match paths::extension(path) {
        Some(e) => text::same(e.as_str(), "db") || text::same(e.as_str(), "sqlite")
            || text::same(e.as_str(), "sqlite3"),
        None => false,
    };
    if !fits || guard::is_hard_blocked(path) || bytes >= DATABASE_LIMIT || bytes == 0 {
        return None;
    }
    Some(Vacuum { path: text::owned(path) })
}

// ── quarantine events ────────────────────────────────────────────────────────

/// The seconds from the Unix epoch to the epoch of the database, the start of 2001.
pub const DATABASE_EPOCH: u64 = 978_307_200;

/// `a - b`, or 0 where that is less.
pub open spec fn minus(a: int, b: int) -> int {
    if a > b {
        a - b
    } else {
        0
    }
}

/// Events before this point, in the time of the database, are pruned.
pub open spec fn quarantine_cutoff(now: Stamp, days: int) -> int {
    minus(minus(clock::since_epoch(now), days * 86400), DATABASE_EPOCH as int)
}

/// Where the quarantine events are.
pub fn quarantine_db(home: &str) -> (r: String)
    ensures
        r@ == registry_db(home@),
{
    registry_path(home)
}

/// Prunes the quarantine events that are older than so many days.
pub fn cleanup_quarantine_db(db: &str, days: u64, now: Stamp) -> (r: CommandLine)
    requires
        days * clock::SECS_PER_DAY <= u64::MAX,
    ensures
        r@ == (
            "sqlite3"@,
            seq![
                db@,
                "DELETE FROM LSQuarantineEvent WHERE LSQuarantineTimeStamp < "@ + text::decimal(
                    quarantine_cutoff(now, days as int) as nat,
                ) + ";"@,
            ],
        ),
{
    let span: u64 = clock::days(days);
    let cutoff: u64 = now.unix_secs().saturating_sub(span).saturating_sub(DATABASE_EPOCH);
    let sql = text::join3(
        "DELETE FROM LSQuarantineEvent WHERE LSQuarantineTimeStamp < ",
        text::decimal_of(cutoff).as_str(),
        ";",
    );
    let r = command("sqlite3", &[db, sql.as_str()]);
    assert(r@.1 =~= seq![db@, sql@]);
    r
}

// ── saved state ──────────────────────────────────────────────────────────────

/// Where saved state is.
pub fn saved_state_dir(home: &str) -> (r: String)
    ensures
        r@ == paths::joined(home@, "Library/Saved Application State"@),
{
    paths::home_join(home, "Library/Saved Application State")
}

/// The bundle to which saved state belongs; none where the path is no saved state, is
/// protected, or belongs to a bundle that is left alone.
pub open spec fn state_bundle(path: Seq<char>, w: Whitelist) -> Option<Seq<char>> {
    match paths::base_name(path) {
        Some(name) => {
            let bid = text::without_back(name, ".savedState"@);
            if ".savedState"@.is_suffix_of(name) && !text::views(w.bundle_ids@).contains(bid)
                && !guard::critical_bundle(bid) && !guard::protected(path) {
                Some(bid)
            } else {
                None
            }
        },
        None => None,
    }
}

/// The bundle whose saved state at a path may go.
pub fn saved_state_bundle(path: &str, whitelist: &Whitelist) -> (r: Option<String>)
    ensures
        text::opt_view(r) == state_bundle(path@, *whitelist),
{
    match paths::file_name(path) {
        Some(name) => {
            if !text::ends_with(name.as_str(), ".savedState") {
                return None;
            }
            proof {
                reveal_strlit(".savedState");
            }
            let bid = text::strip_back(name.as_str(), ".savedState");
            if whitelist.contains_bundle(bid.as_str()) || guard::is_critical_bundle(bid.as_str())
                || guard::is_protected(path) {
                None
            } else {
                Some(bid)
            }
        },
        None => None,
    }
}

/// The question for the apps with a bundle identifier.
pub fn mdfind_command(bid: &str) -> (r: CommandLine)
    ensures
        r@ == ("mdfind"@, seq!["kMDItemCFBundleIdentifier == '"@ + bid@ + "'"@]),
{
    let query = text::join3("kMDItemCFBundleIdentifier == '", bid, "'");
    let r = command("mdfind", &[query.as_str()]);
    assert(r@.1 =~= seq![query@]);
    r
}

/// The search found an app. Where it could not be made, one is taken to be there.
pub open spec fn installed(reply: Option<Seq<char>>) -> bool {
    match reply {
        Some(s) => text::trim(s).len() > 0,
        None => true,
    }
}

/// Whether an app is installed, by the reply to [`mdfind_command`].
pub fn app_is_installed(reply: &Option<String>) -> (r: bool)
    ensures
        r == installed(text::opt_view(*reply)),
{
    match reply {
        Some(s) => !text::trimmed(s.as_str()).as_str().is_empty(),
        None => true,
    }
}

/// The saved state of a bundle goes: its app is gone, or it has not changed for the
/// maximal age. Where the time of the last change is not known, it has.
pub open spec fn state_goes(is_installed: bool, modified: Option<Stamp>, cutoff: Stamp) -> bool {
    !is_installed || (modified matches Some(t) && !clock::not_before(t, cutoff))
}

/// Whether the saved state of a bundle goes.
pub fn saved_state_goes(
    is_installed: bool,
    modified: &Option<Stamp>,
    now: Stamp,
    max_age_days: u64,
) -> (r: bool)
    requires
        max_age_days * clock::SECS_PER_DAY <= u64::MAX,
    ensures
        r == state_goes(
            is_installed,
            *modified,
            clock::moved_back(now, max_age_days * clock::SECS_PER_DAY),
        ),
{
    if !is_installed {
        return true;
    }
    let cutoff = now.back(clock::days(max_age_days));
    match modified {
        Some(t) => !t.not_before(cutoff),
        None => false,
    }
}

/// What is done about an entry of the directory of saved state.
pub open spec fn state_plan(
    path: Seq<char>,
    w: Whitelist,
    is_installed: bool,
    modified: Option<Stamp>,
    cutoff: Stamp,
) -> Seq<ActionView> {
    if state_bundle(path, w) is Some && state_goes(is_installed, modified, cutoff) {
        seq![ActionView::DeleteTree(path)]
    } else {
        Seq::empty()
    }
}

/// What is done about an entry of the directory of saved state: that of a bundle that is
/// not left alone goes where its app is gone or it is older than so many days.
pub fn cleanup_saved_states(
    path: &str,
    whitelist: &Whitelist,
    is_installed: bool,
    modified: &Option<Stamp>,
    now: Stamp,
    max_age_days: u64,
) -> (r: Vec<Action>)
    requires
        max_age_days * clock::SECS_PER_DAY <= u64::MAX,
    ensures
        text::views(r@) == state_plan(
            path@,
            *whitelist,
            is_installed,
            *modified,
            clock::moved_back(now, max_age_days * clock::SECS_PER_DAY),
        ),
{
    let mut r: Vec<Action> = Vec::new();
    if saved_state_bundle(path, whitelist).is_some() && saved_state_goes(
        is_installed,
        modified,
        now,
        max_age_days,
    ) {
        r.push(Action::DeleteTree(text::owned(path)));
    }
    assert(text::views(r@) =~= state_plan(
        path@,
        *whitelist,
        is_installed,
        *modified,
        clock::moved_back(now, max_age_days * clock::SECS_PER_DAY),
    ));
    r
}

// ── preferences of the notification center ───────────────────────────────────

/// Prunes the preferences of bundles whose apps are gone, and has the notification
/// center read them again where any was pruned.
pub open spec fn prune_plan(ids: Seq<Seq<char>>, installed: Seq<bool>) -> Seq<ActionView> {
    let deletions = pruned(ids, installed, ids.len() as int);
    if deletions.len() > 0 {
        deletions.push(ActionView::Run("killall"@, seq!["-HUP"@, "NotificationCenter"@]))
    } else {
        deletions
    }
}

/// The deletions for the first `n` bundles.
pub open spec fn pruned(ids: Seq<Seq<char>>, installed: Seq<bool>, n: int) -> Seq<ActionView>
    decreases n,
{
    if n <= 0 {
        Seq::empty()
    } else if installed[n - 1] {
        pruned(ids, installed, n - 1)
    } else {
        pruned(ids, installed, n - 1).push(
            ActionView::Run(
                "defaults"@,
                seq!["delete"@, "com.apple.notificationcenterui."@ + ids[n - 1]],
            ),
        )
    }
}

/// Prunes the preferences of bundles whose apps are gone, given for each identifier
/// whether its app is installed.
pub fn cleanup_nc_prefs(ids: &Vec<String>, installed: &Vec<bool>) -> (r: Vec<Action>)
    requires
        ids@.len() == installed@.len(),
    ensures
        text::views(r@) == prune_plan(text::views(ids@), installed@),
{
    let ghost all = text::views(ids@);
    let mut r: Vec<Action> = Vec::new();
    let mut i: usize = 0;
    while i < ids.len()
        invariant
            i <= ids@.len(),
            ids@.len() == installed@.len(),
            all == text::views(ids@),
            text::views(r@) == pruned(all, installed@, i as int),
        decreases ids.len() - i,
    {
        assert(all[i as int] == ids@[i as int]@);
        if !installed[i] {
            let domain = text::join2("com.apple.notificationcenterui.", ids[i].as_str());
            r.push(plan::run2("defaults", "delete", domain.as_str()));
        }
        i = i + 1;
    }
    assert(text::views(r@).len() == r@.len());
    if r.len() > 0 {
        r.push(plan::run2("killall", "-HUP", "NotificationCenter"));
    }
    r
}

// ── knowledge of the use of apps ─────────────────────────────────────────────

/// Where the knowledge of the use of apps is.
pub open spec fn knowledge(home: Seq<char>) -> Seq<char> {
    paths::joined(home, "Library/Application Support/Knowledge"@)
}

/// Where the knowledge of the use of apps is.
pub fn knowledge_dir(home: &str) -> (r: String)
    ensures
        r@ == knowledge(home@),
{
    paths::home_join(home, "Library/Application Support/Knowledge")
}

/// Deletes a file, unless it is protected.
pub open spec fn delete_unprotected(path: Seq<char>) -> Seq<ActionView> {
    if guard::protected(path) {
        Seq::empty()
    } else {
        seq![ActionView::DeleteFile(path)]
    }
}

/// Ends the service, deletes its database, and starts it again.
pub open spec fn coreduet_plan(home: Seq<char>) -> Seq<ActionView> {
    seq![
        ActionView::Run(
            "launchctl"@,
            seq!["kill"@, "SIGTERM"@, "user/501/com.apple.coreduetd"@],
        ),
        ActionView::Pause(500),
    ] + delete_unprotected(paths::joined(knowledge(home), "knowledgeC.db"@)) + delete_unprotected(
        paths::joined(knowledge(home), "knowledgeC.db-shm"@),
    ) + delete_unprotected(paths::joined(knowledge(home), "knowledgeC.db-wal"@)) + seq![
        ActionView::Run(
            "launchctl"@,
            seq!["kickstart"@, "-k"@, "user/501/com.apple.coreduetd"@],
        ),
    ]
}

fn push_deletion(r: &mut Vec<Action>, path: String)
    ensures
        text::views(final(r)@) == text::views(old(r)@) + delete_unprotected(path@),
{
    let ghost p = path@;
    let ghost before = text::views(r@);
    if !guard::is_protected(path.as_str()) {
        r.push(Action::DeleteFile(path));
    }
    assert(text::views(r@) =~= before + delete_unprotected(p));
}

/// Clears the knowledge of the use of apps, where there is any.
pub fn cleanup_coreduet(home: &str, exists: bool) -> (r: Vec<Action>)
    ensures
        text::views(r@) == (if exists {
            coreduet_plan(home@)
        } else {
            Seq::empty()
        }),
{
    let mut r: Vec<Action> = Vec::new();
    if !exists {
        return r;
    }
    r.push(plan::run3("launchctl", "kill", "SIGTERM", "user/501/com.apple.coreduetd"));
    r.push(Action::Pause(500));
    let dir = knowledge_dir(home);
    push_deletion(&mut r, paths::join(dir.as_str(), "knowledgeC.db"));
    push_deletion(&mut r, paths::join(dir.as_str(), "knowledgeC.db-shm"));
    push_deletion(&mut r, paths::join(dir.as_str(), "knowledgeC.db-wal"));
    r.push(plan::run3("launchctl", "kickstart", "-k", "user/501/com.apple.coreduetd"));
    assert(text::views(r@) =~= coreduet_plan(home@));
    r
}

// ── what the passes guarantee ────────────────────────────────────────────────

/// No pass runs that is switched off, and none at all where the optimizer is: in
/// particular memory is purged only by the superuser.
pub proof fn passes_are_switched_on(opt: Optimizer, is_root: bool, pass: SystemPass)
    requires
        passes_of(opt, is_root).contains(pass),
    ensures
        opt.enabled,
        match pass {
            SystemPass::LaunchServices => opt.launch_services_rebuild,
            SystemPass::Databases => opt.sqlite_vacuum,
            SystemPass::Quarantine => opt.quarantine_cleanup,
            SystemPass::SavedStates => opt.saved_state_cleanup,
            SystemPass::BrokenAgents => opt.broken_launch_agents,
            SystemPass::NotificationPrefs => opt.notification_center_cleanup,
            SystemPass::CoreDuet => opt.coreduet_cleanup,
            SystemPass::MotionSensor => opt.disable_sudden_motion_sensor,
            SystemPass::FileLimit => opt.increase_fd_limit,
            SystemPass::Periodic => opt.periodic_maintenance,
            SystemPass::PurgeMemory => opt.purge_inactive_memory && is_root,
            SystemPass::ReopenWindows => opt.disable_reopen_windows,
        },
{
    let s1 = only_if(opt.launch_services_rebuild, SystemPass::LaunchServices);
    let s2 = s1 + only_if(opt.sqlite_vacuum, SystemPass::Databases);
    let s3 = s2 + only_if(opt.quarantine_cleanup, SystemPass::Quarantine);
    let s4 = s3 + only_if(opt.saved_state_cleanup, SystemPass::SavedStates);
    let s5 = s4 + only_if(opt.broken_launch_agents, SystemPass::BrokenAgents);
    let s6 = s5 + only_if(opt.notification_center_cleanup, SystemPass::NotificationPrefs);
    let s7 = s6 + only_if(opt.coreduet_cleanup, SystemPass::CoreDuet);
    let s8 = s7 + only_if(opt.disable_sudden_motion_sensor, SystemPass::MotionSensor);
    let s9 = s8 + only_if(opt.increase_fd_limit, SystemPass::FileLimit);
    let s10 = s9 + only_if(opt.periodic_maintenance, SystemPass::Periodic);
    let s11 = s10 + only_if(opt.purge_inactive_memory && is_root, SystemPass::PurgeMemory);
    assert(!opt.enabled ==> passes_of(opt, is_root).len() == 0);
    lemma_last_part(s11, opt.disable_reopen_windows, SystemPass::ReopenWindows, pass);
    lemma_last_part(
        s10,
        opt.purge_inactive_memory && is_root,
        SystemPass::PurgeMemory,
        pass,
    );
    lemma_last_part(s9, opt.periodic_maintenance, SystemPass::Periodic, pass);
    lemma_last_part(s8, opt.increase_fd_limit, SystemPass::FileLimit, pass);
    lemma_last_part(s7, opt.disable_sudden_motion_sensor, SystemPass::MotionSensor, pass);
    lemma_last_part(s6, opt.coreduet_cleanup, SystemPass::CoreDuet, pass);
    lemma_last_part(s5, opt.notification_center_cleanup, SystemPass::NotificationPrefs, pass);
    lemma_last_part(s4, opt.broken_launch_agents, SystemPass::BrokenAgents, pass);
    lemma_last_part(s3, opt.saved_state_cleanup, SystemPass::SavedStates, pass);
    lemma_last_part(s2, opt.quarantine_cleanup, SystemPass::Quarantine, pass);
    lemma_last_part(s1, opt.sqlite_vacuum, SystemPass::Databases, pass);
}

proof fn lemma_last_part(before: Seq<SystemPass>, wanted: bool, last: SystemPass, pass: SystemPass)
    ensures
        (before + only_if(wanted, last)).contains(pass) ==> before.contains(pass) || (wanted
            && pass == last),
{
    let all = before + only_if(wanted, last);
    if all.contains(pass) {
        let k = choose|k: int| 0 <= k < all.len() && all[k] == pass;
        if k < before.len() {
            assert(before[k] == pass);
        }
    }
}

/// The saved state of a whitelisted or critical bundle stays, and so does that of an
/// installed app which changed within the maximal age; nothing protected goes.
pub proof fn critical_state_stays(
    path: Seq<char>,
    w: Whitelist,
    is_installed: bool,
    modified: Option<Stamp>,
    cutoff: Stamp,
)
    requires
        state_plan(path, w, is_installed, modified, cutoff).len() > 0,
    ensures
        state_plan(path, w, is_installed, modified, cutoff) == seq![ActionView::DeleteTree(path)],
        !guard::critical_bundle(state_bundle(path, w)->0),
        !text::views(w.bundle_ids@).contains(state_bundle(path, w)->0),
        !guard::protected(path),
        is_installed ==> (modified matches Some(t) && !clock::not_before(t, cutoff)),
{
}

proof fn lemma_part_holds(before: Seq<SystemPass>, wanted: bool, last: SystemPass, pass: SystemPass)
    ensures
        before.contains(pass) || (wanted && pass == last) ==> (before + only_if(
            wanted,
            last,
        )).contains(pass),
{
    let all = before + only_if(wanted, last);
    if before.contains(pass) {
        let k = choose|k: int| 0 <= k < before.len() && before[k] == pass;
        assert(all[k] == pass);
    } else if wanted && pass == last {
        assert(all[before.len() as int] == pass);
    }
}

/// Every pass that is switched on runs, where the optimizer is; memory is purged where the
/// superuser asks for it.
pub proof fn switched_on_passes_run(opt: Optimizer, is_root: bool, pass: SystemPass)
    requires
        opt.enabled,
        match pass {
            SystemPass::LaunchServices => opt.launch_services_rebuild,
            SystemPass::Databases => opt.sqlite_vacuum,
            SystemPass::Quarantine => opt.quarantine_cleanup,
            SystemPass::SavedStates => opt.saved_state_cleanup,
            SystemPass::BrokenAgents => opt.broken_launch_agents,
            SystemPass::NotificationPrefs => opt.notification_center_cleanup,
            SystemPass::CoreDuet => opt.coreduet_cleanup,
            SystemPass::MotionSensor => opt.disable_sudden_motion_sensor,
            SystemPass::FileLimit => opt.increase_fd_limit,
            SystemPass::Periodic => opt.periodic_maintenance,
            SystemPass::PurgeMemory => opt.purge_inactive_memory && is_root,
            SystemPass::ReopenWindows => opt.disable_reopen_windows,
        },
    ensures
        passes_of(opt, is_root).contains(pass),
{
    let s1 = only_if(opt.launch_services_rebuild, SystemPass::LaunchServices);
    let s2 = s1 + only_if(opt.sqlite_vacuum, SystemPass::Databases);
    let s3 = s2 + only_if(opt.quarantine_cleanup, SystemPass::Quarantine);
    let s4 = s3 + only_if(opt.saved_state_cleanup, SystemPass::SavedStates);
    let s5 = s4 + only_if(opt.broken_launch_agents, SystemPass::BrokenAgents);
    let s6 = s5 + only_if(opt.notification_center_cleanup, SystemPass::NotificationPrefs);
    let s7 = s6 + only_if(opt.coreduet_cleanup, SystemPass::CoreDuet);
    let s8 = s7 + only_if(opt.disable_sudden_motion_sensor, SystemPass::MotionSensor);
    let s9 = s8 + only_if(opt.increase_fd_limit, SystemPass::FileLimit);
    let s10 = s9 + only_if(opt.periodic_maintenance, SystemPass::Periodic);
    let s11 = s10 + only_if(opt.purge_inactive_memory && is_root, SystemPass::PurgeMemory);
    if pass == SystemPass::LaunchServices {
        assert(s1[0] == pass);
    }
    lemma_part_holds(s1, opt.sqlite_vacuum, SystemPass::Databases, pass);
    lemma_part_holds(s2, opt.quarantine_cleanup, SystemPass::Quarantine, pass);
    lemma_part_holds(s3, opt.saved_state_cleanup, SystemPass::SavedStates, pass);
    lemma_part_holds(s4, opt.broken_launch_agents, SystemPass::BrokenAgents, pass);
    lemma_part_holds(s5, opt.notification_center_cleanup, SystemPass::NotificationPrefs, pass);
    lemma_part_holds(s6, opt.coreduet_cleanup, SystemPass::CoreDuet, pass);
    lemma_part_holds(s7, opt.disable_sudden_motion_sensor, SystemPass::MotionSensor, pass);
    lemma_part_holds(s8, opt.increase_fd_limit, SystemPass::FileLimit, pass);
    lemma_part_holds(s9, opt.periodic_maintenance, SystemPass::Periodic, pass);
    lemma_part_holds(
        s10,
        opt.purge_inactive_memory && is_root,
        SystemPass::PurgeMemory,
        pass,
    );
    lemma_part_holds(s11, opt.disable_reopen_windows, SystemPass::ReopenWindows, pass);
}

/// The registration tool is the first place that exists, and it is found where any does.
pub proof fn the_first_tool_is_taken(there: Seq<bool>, i: int)
    requires
        0 <= i < there.len(),
        there[i],
    ensures
        first_yes(there, 0) matches Some(k) && 0 <= k <= i && there[k] && forall|j: int|
            0 <= j < k ==> !#[trigger] there[j],
{
    lemma_first_yes(there, 0, i);
}

proof fn lemma_first_yes(there: Seq<bool>, from: int, i: int)
    requires
        0 <= from <= i < there.len(),
        there[i],
    ensures
        first_yes(there, from) matches Some(k) && from <= k <= i && there[k] && forall|j: int|
            from <= j < k ==> !#[trigger] there[j],
    decreases i - from,
{
    if !there[from] {
        lemma_first_yes(there, from + 1, i);
    }
}

/// A database is rewritten exactly where it has one of the three extensions, is not
/// blocked, and holds more than nothing and less than 500 MB.
pub proof fn small_databases_are_vacuumed(path: Seq<char>, bytes: int)
    ensures
        may_vacuum(path, bytes) <==> (paths::path_ext(path) == Some("db"@) || paths::path_ext(path)
            == Some("sqlite"@) || paths::path_ext(path) == Some("sqlite3"@))
            && !guard::hard_blocked(path) && bytes > 0 && bytes < 500 * 1024 * 1024,
{
}

/// Databases are looked for in the support files and the messages of the user, unless
/// these are blocked, and in each directory in them: a file counts as it is, and of a
/// directory all that is in it.
pub proof fn every_database_file_is_looked_at(
    entries: Seq<DatabaseEntry>,
    file: Seq<char>,
    home: Seq<char>,
)
    ensures
        files_in(entries).contains(file) <==> exists|i: int|
            0 <= i < entries.len() && match (#[trigger] entries[i]).inside {
                Some(list) => text::views(list@).contains(file),
                None => entries[i].path@ == file,
            },
        database_roots(home).contains(file) <==> (file == paths::joined(
            home,
            "Library/Application Support"@,
        ) || file == paths::joined(home, "Library/Messages"@)) && !guard::hard_blocked(file),
    decreases entries.len(),
{
    let support = paths::joined(home, "Library/Application Support"@);
    let messages = paths::joined(home, "Library/Messages"@);
    let roots = database_roots(home);
    if !guard::hard_blocked(support) {
        assert(roots[0] == support);
    }
    if !guard::hard_blocked(messages) {
        assert(roots[unless_blocked(support).len() as int] == messages);
    }
    if entries.len() > 0 {
        let rest = entries.drop_last();
        let before = files_in(rest);
        let all = files_in(entries);
        every_database_file_is_looked_at(rest, file, home);
        assert(entries[entries.len() - 1] == entries.last());
        if all.contains(file) {
            let k = choose|k: int| 0 <= k < all.len() && all[k] == file;
            if k < before.len() {
                assert(before[k] == file);
                let i = choose|i: int|
                    0 <= i < rest.len() && match (#[trigger] rest[i]).inside {
                        Some(list) => text::views(list@).contains(file),
                        None => rest[i].path@ == file,
                    };
                assert(entries[i] == rest[i]);
            } else if let Some(list) = entries.last().inside {
                assert(text::views(list@)[k - before.len()] == file);
            }
        }
        if exists|i: int|
            0 <= i < entries.len() && match (#[trigger] entries[i]).inside {
                Some(list) => text::views(list@).contains(file),
                None => entries[i].path@ == file,
            } {
            let i = choose|i: int|
                0 <= i < entries.len() && match (#[trigger] entries[i]).inside {
                    Some(list) => text::views(list@).contains(file),
                    None => entries[i].path@ == file,
                };
            if i < rest.len() {
                assert(rest[i] == entries[i]);
                let k = choose|k: int| 0 <= k < before.len() && before[k] == file;
                assert(all[k] == file);
            } else {
                match entries.last().inside {
                    Some(list) => {
                        let k = choose|k: int|
                            0 <= k < list@.len() && text::views(list@)[k] == file;
                        assert(all[before.len() + k] == file);
                    },
                    None => {
                        assert(all[before.len() as int] == file);
                    },
                }
            }
        }
    }
}

/// Quarantine events are pruned that lie more than so many days back: the cutoff, put back
/// into the time of the system, is so many days before now, as long as that is after the
/// start of 2001.
pub proof fn quarantine_goes_by_days(now: Stamp, days: int)
    requires
        now.secs - days * 86400 >= 978_307_200,
        days >= 0,
        now.secs >= 0,
    ensures
        quarantine_cutoff(now, days) + 978_307_200 == now.secs - days * 86400,
{
}

/// Saved state goes exactly where its name ends in `.savedState`, its bundle is neither
/// whitelisted nor critical, its path is not protected, and its app is gone or it has not
/// changed since the cutoff.
pub proof fn stale_state_goes(
    path: Seq<char>,
    w: Whitelist,
    is_installed: bool,
    modified: Option<Stamp>,
    cutoff: Stamp,
)
    ensures
        ({
            let goes = (paths::base_name(path) matches Some(name)
                && ".savedState"@.is_suffix_of(name) && !text::views(w.bundle_ids@).contains(
                text::without_back(name, ".savedState"@),
            ) && !guard::critical_bundle(text::without_back(name, ".savedState"@)))
                && !guard::protected(path) && (!is_installed || (modified matches Some(t) && (
            t.secs < cutoff.secs || (t.secs == cutoff.secs && t.nanos < cutoff.nanos))));
            &&& goes ==> state_plan(path, w, is_installed, modified, cutoff) == seq![
                ActionView::DeleteTree(path),
            ]
            &&& !goes ==> state_plan(path, w, is_installed, modified, cutoff).len() == 0
        }),
{
}

/// The preferences of exactly those bundles are pruned whose apps are gone, and the
/// notification center reads its preferences again where any was.
pub proof fn preferences_of_gone_apps_go(ids: Seq<Seq<char>>, installed: Seq<bool>, i: int)
    requires
        ids.len() == installed.len(),
        0 <= i < ids.len(),
        !installed[i],
    ensures
        prune_plan(ids, installed).contains(
            ActionView::Run(
                "defaults"@,
                seq!["delete"@, "com.apple.notificationcenterui."@ + ids[i]],
            ),
        ),
        prune_plan(ids, installed).last() == ActionView::Run(
            "killall"@,
            seq!["-HUP"@, "NotificationCenter"@],
        ),
{
    let n = ids.len() as int;
    let k = lemma_pruned(ids, installed, n, i);
    assert(prune_plan(ids, installed)[k] == pruned(ids, installed, n)[k]);
}

proof fn lemma_pruned(ids: Seq<Seq<char>>, installed: Seq<bool>, n: int, i: int) -> (k: int)
    requires
        ids.len() == installed.len(),
        0 <= i < n <= ids.len(),
        !installed[i],
    ensures
        0 <= k < pruned(ids, installed, n).len(),
        pruned(ids, installed, n)[k] == ActionView::Run(
            "defaults"@,
            seq!["delete"@, "com.apple.notificationcenterui."@ + ids[i]],
        ),
    decreases n,
{
    if i < n - 1 {
        lemma_pruned(ids, installed, n - 1, i)
    } else {
        pruned(ids, installed, n - 1).len() as int
    }
}

/// Where every app is installed, no preferences are pruned and nothing is done; and there
/// are never more deletions than apps that are gone.
pub proof fn preferences_of_installed_apps_stay(ids: Seq<Seq<char>>, installed: Seq<bool>, n: int)
    requires
        ids.len() == installed.len(),
        0 <= n <= ids.len(),
        forall|i: int| 0 <= i < n ==> #[trigger] installed[i],
    ensures
        pruned(ids, installed, n).len() == 0,
        n == ids.len() ==> prune_plan(ids, installed).len() == 0,
    decreases n,
{
    if n > 0 {
        preferences_of_installed_apps_stay(ids, installed, n - 1);
    }
}

/// The knowledge of the use of apps goes with its three files, unless they are protected,
/// between the end of its service and the start of it.
pub proof fn knowledge_goes_with_its_files(home: Seq<char>)
    ensures
        ({
            let dir = paths::joined(home, "Library/Application Support/Knowledge"@);
            let plan = coreduet_plan(home);
            let a = paths::joined(dir, "knowledgeC.db"@);
            let b = paths::joined(dir, "knowledgeC.db-shm"@);
            let c = paths::joined(dir, "knowledgeC.db-wal"@);
            &&& plan.len() >= 3
            &&& plan[0] == ActionView::Run(
                "launchctl"@,
                seq!["kill"@, "SIGTERM"@, "user/501/com.apple.coreduetd"@],
            )
            &&& plan.last() == ActionView::Run(
                "launchctl"@,
                seq!["kickstart"@, "-k"@, "user/501/com.apple.coreduetd"@],
            )
            &&& !guard::protected(a) ==> plan.contains(ActionView::DeleteFile(a))
            &&& !guard::protected(b) ==> plan.contains(ActionView::DeleteFile(b))
            &&& !guard::protected(c) ==> plan.contains(ActionView::DeleteFile(c))
        }),
{
    let dir = paths::joined(home, "Library/Application Support/Knowledge"@);
    let plan = coreduet_plan(home);
    let x = delete_unprotected(paths::joined(dir, "knowledgeC.db"@));
    let y = delete_unprotected(paths::joined(dir, "knowledgeC.db-shm"@));
    let z = delete_unprotected(paths::joined(dir, "knowledgeC.db-wal"@));
    if x.len() > 0 {
        assert(plan[2] == x[0]);
    }
    if y.len() > 0 {
        assert(plan[2 + x.len() as int] == y[0]);
    }
    if z.len() > 0 {
        assert(plan[2 + x.len() as int + y.len()] == z[0]);
    }
}

/// The passes that only run tools run exactly these.
pub proof fn tweaks_run_their_tools()
    ensures
        tweaks(SystemPass::MotionSensor) == seq![
            ActionView::Run("pmset"@, seq!["-a"@, "sms"@, "0"@]),
        ],
        tweaks(SystemPass::FileLimit) == seq![
            ActionView::Run("launchctl"@, seq!["limit"@, "maxfiles"@, "524288"@, "524288"@]),
        ],
        tweaks(SystemPass::Periodic) == seq![
            ActionView::Run("periodic"@, seq!["daily"@]),
            ActionView::Run("periodic"@, seq!["weekly"@]),
            ActionView::Run("periodic"@, seq!["monthly"@]),
        ],
        tweaks(SystemPass::PurgeMemory) == seq![ActionView::Run("purge"@, Seq::empty())],
        tweaks(SystemPass::ReopenWindows).contains(
            ActionView::Run(
                "defaults"@,
                seq!["write"@, "com.apple.loginwindow"@, "TALLogoutSavesState"@, "-bool"@, "false"@],
            ),
        ),
{
    assert(tweaks(SystemPass::ReopenWindows)[0] is Run);
}

/// The place of a pass among all passes.
pub open spec fn rank(pass: SystemPass) -> int {
    match pass {
        SystemPass::LaunchServices => 0,
        SystemPass::Databases => 1,
        SystemPass::Quarantine => 2,
        SystemPass::SavedStates => 3,
        SystemPass::BrokenAgents => 4,
        SystemPass::NotificationPrefs => 5,
        SystemPass::CoreDuet => 6,
        SystemPass::MotionSensor => 7,
        SystemPass::FileLimit => 8,
        SystemPass::Periodic => 9,
        SystemPass::PurgeMemory => 10,
        SystemPass::ReopenWindows => 11,
    }
}

/// Passes run in one order, whichever of them are switched on, and none runs twice.
pub proof fn passes_run_in_order(opt: Optimizer, is_root: bool, i: int, j: int)
    requires
        0 <= i < j < passes_of(opt, is_root).len(),
    ensures
        rank(passes_of(opt, is_root)[i]) < rank(passes_of(opt, is_root)[j]),
{
    let none = Seq::<SystemPass>::empty();
    let a = none + only_if(opt.launch_services_rebuild, SystemPass::LaunchServices);
    lemma_in_order(none, opt.launch_services_rebuild, SystemPass::LaunchServices);
    let b = a + only_if(opt.sqlite_vacuum, SystemPass::Databases);
    lemma_in_order(a, opt.sqlite_vacuum, SystemPass::Databases);
    let c = b + only_if(opt.quarantine_cleanup, SystemPass::Quarantine);
    lemma_in_order(b, opt.quarantine_cleanup, SystemPass::Quarantine);
    let d = c + only_if(opt.saved_state_cleanup, SystemPass::SavedStates);
    lemma_in_order(c, opt.saved_state_cleanup, SystemPass::SavedStates);
    let e = d + only_if(opt.broken_launch_agents, SystemPass::BrokenAgents);
    lemma_in_order(d, opt.broken_launch_agents, SystemPass::BrokenAgents);
    let f = e + only_if(opt.notification_center_cleanup, SystemPass::NotificationPrefs);
    lemma_in_order(e, opt.notification_center_cleanup, SystemPass::NotificationPrefs);
    let g = f + only_if(opt.coreduet_cleanup, SystemPass::CoreDuet);
    lemma_in_order(f, opt.coreduet_cleanup, SystemPass::CoreDuet);
    let h = g + only_if(opt.disable_sudden_motion_sensor, SystemPass::MotionSensor);
    lemma_in_order(g, opt.disable_sudden_motion_sensor, SystemPass::MotionSensor);
    let k = h + only_if(opt.increase_fd_limit, SystemPass::FileLimit);
    lemma_in_order(h, opt.increase_fd_limit, SystemPass::FileLimit);
    let l = k + only_if(opt.periodic_maintenance, SystemPass::Periodic);
    lemma_in_order(k, opt.periodic_maintenance, SystemPass::Periodic);
    let m = l + only_if(opt.purge_inactive_memory && is_root, SystemPass::PurgeMemory);
    lemma_in_order(l, opt.purge_inactive_memory && is_root, SystemPass::PurgeMemory);
    let n = m + only_if(opt.disable_reopen_windows, SystemPass::ReopenWindows);
    lemma_in_order(m, opt.disable_reopen_windows, SystemPass::ReopenWindows);
    assert(a =~= only_if(opt.launch_services_rebuild, SystemPass::LaunchServices));
    assert(passes_of(opt, is_root) == n);
    assert(in_order(n, 12));
}

/// The passes come in order, and all of them before place `end`.
spec fn in_order(list: Seq<SystemPass>, end: int) -> bool {
    &&& forall|i: int, j: int|
        0 <= i < j < list.len() ==> rank(#[trigger] list[i]) < rank(#[trigger] list[j])
    &&& forall|i: int| 0 <= i < list.len() ==> rank(#[trigger] list[i]) < end
}

proof fn lemma_in_order(list: Seq<SystemPass>, wanted: bool, pass: SystemPass)
    requires
        in_order(list, rank(pass)),
    ensures
        in_order(list + only_if(wanted, pass), rank(pass) + 1),
{
}

/// Windows are kept from coming back both at login and in every app; passes that are more
/// than a few commands have no such commands.
pub proof fn other_tweaks()
    ensures
        tweaks(SystemPass::ReopenWindows) == seq![
            ActionView::Run(
                "defaults"@,
                seq![
                    "write"@,
                    "com.apple.loginwindow"@,
                    "TALLogoutSavesState"@,
                    "-bool"@,
                    "false"@,
                ],
            ),
            ActionView::Run(
                "defaults"@,
                seq![
                    "write"@,
                    "NSGlobalDomain"@,
                    "NSQuitAlwaysKeepsWindows"@,
                    "-bool"@,
                    "false"@,
                ],
            ),
        ],
        tweaks(SystemPass::LaunchServices).len() == 0,
        tweaks(SystemPass::Databases).len() == 0,
        tweaks(SystemPass::Quarantine).len() == 0,
        tweaks(SystemPass::SavedStates).len() == 0,
        tweaks(SystemPass::BrokenAgents).len() == 0,
        tweaks(SystemPass::NotificationPrefs).len() == 0,
        tweaks(SystemPass::CoreDuet).len() == 0,
{
}

/// The registry of apps is rebuilt by the tool that was found, for all domains; without a
/// tool nothing is done, and there is none exactly where no place has it.
pub proof fn the_registry_is_rebuilt(bin: Seq<char>, there: Seq<bool>)
    ensures
        rebuild_plan(None).len() == 0,
        rebuild_plan(Some(bin)) == seq![
            ActionView::Run(
                bin,
                seq![
                    "-kill"@,
                    "-r"@,
                    "-domain"@,
                    "local"@,
                    "-domain"@,
                    "system"@,
                    "-domain"@,
                    "user"@,
                ],
            ),
        ],
        first_yes(there, 0) is None <==> forall|i: int| 0 <= i < there.len() ==> !#[trigger] there[i],
{
    lemma_some_yes(there, 0);
}

proof fn lemma_some_yes(answers: Seq<bool>, from: int)
    requires
        0 <= from <= answers.len(),
    ensures
        match first_yes(answers, from) {
            Some(k) => from <= k < answers.len() && answers[k],
            None => forall|i: int| from <= i < answers.len() ==> !#[trigger] answers[i],
        },
    decreases answers.len() - from,
{
    if from < answers.len() && !answers[from] {
        lemma_some_yes(answers, from + 1);
    }
}

/// Where so many days reach back before the epoch of the database, nothing is before the
/// cutoff.
pub proof fn quarantine_before_the_epoch(now: Stamp, days: int)
    requires
        now.secs - days * 86400 <= 978_307_200,
        days >= 0,
    ensures
        quarantine_cutoff(now, days) == 0,
{
}

/// An app counts as installed where the search for it found anything, and where it could
/// not be searched for.
pub proof fn anything_found_is_installed(reply: Seq<char>)
    ensures
        installed(None),
        installed(Some(reply)) <==> !text::blank(reply),
{
    text::only_white_space_trims_away(reply);
}

/// The saved state of an app is named after its bundle identifier.
pub proof fn states_are_named_after_bundles(dir: Seq<char>, bid: Seq<char>, w: Whitelist)
    requires
        bid.len() > 0,
        !bid.contains('/'),
        !".savedState"@.is_suffix_of(bid),
        !text::views(w.bundle_ids@).contains(bid),
        !guard::critical_bundle(bid),
        !guard::protected(dir + seq!['/'] + (bid + ".savedState"@)),
    ensures
        state_bundle(dir + seq!['/'] + (bid + ".savedState"@), w) == Some(bid),
{
    let end = ".savedState"@;
    reveal_strlit(".savedState");
    let name = bid + end;
    assert forall|i: int| 0 <= i < name.len() implies name[i] != '/' by {
        if i < bid.len() {
            assert(bid.contains(bid[i]));
        }
    }
    assert(name.len() > 2);
    paths::names_stand_at_the_end(dir, name);
    text::stripping_repeats(bid, end);
    assert(name.subrange(name.len() - end.len(), name.len() as int) =~= end);
}

/// One more registered app adds one more deletion, behind the others, where it is not
/// installed, and else none.
pub proof fn preferences_go_in_order(ids: Seq<Seq<char>>, installed: Seq<bool>, n: int)
    requires
        ids.len() == installed.len(),
        0 <= n < ids.len(),
    ensures
        pruned(ids, installed, 0).len() == 0,
        installed[n] ==> pruned(ids, installed, n + 1) == pruned(ids, installed, n),
        !installed[n] ==> pruned(ids, installed, n + 1) == pruned(ids, installed, n).push(
            ActionView::Run(
                "defaults"@,
                seq!["delete"@, "com.apple.notificationcenterui."@ + ids[n]],
            ),
        ),
        prune_plan(ids, installed).len() == 0 <==> pruned(ids, installed, ids.len() as int).len()
            == 0,
{
}

/// The service behind the usage database is stopped and given half a second before the
/// files go, and nothing but the three files goes.
pub proof fn knowledge_goes_alone(home: Seq<char>, k: int)
    requires
        0 <= k < coreduet_plan(home).len(),
    ensures
        coreduet_plan(home)[1] == ActionView::Pause(500),
        coreduet_plan(home).len() <= 6,
        coreduet_plan(home)[k] matches ActionView::DeleteFile(path) ==> !guard::protected(path)
            && ({
            let dir = paths::joined(home, "Library/Application Support/Knowledge"@);
            path == paths::joined(dir, "knowledgeC.db"@) || path == paths::joined(
                dir,
                "knowledgeC.db-shm"@,
            ) || path == paths::joined(dir, "knowledgeC.db-wal"@)
        }),
{
}

/// Files are looked at in the order in which they are listed, those inside of a directory
/// in its place.
pub proof fn database_files_keep_their_order(entries: Seq<DatabaseEntry>, e: DatabaseEntry)
    ensures
        files_in(Seq::empty()).len() == 0,
        files_in(entries.push(e)) == files_in(entries) + (match e.inside {
            Some(list) => text::views(list@),
            None => seq![e.path@],
        }),
{
    assert(entries.push(e).drop_last() =~= entries);
    assert(files_in(entries).push(e.path@) =~= files_in(entries) + seq![e.path@]);
}

/// Where the tool for the registry of apps may be, the versioned place first, and where
/// the registry itself is.
pub proof fn where_the_registry_is(home: Seq<char>)
    requires
        home.len() > 0,
        home.last() != '/',
    ensures
        lsregister_places().len() == 2,
        lsregister_places()[0]
            == "/System/Library/Frameworks/CoreServices.framework/Versions/A/Frameworks/LaunchServices.framework/Versions/A/Support/lsregister"@,
        lsregister_places()[1]
            == "/System/Library/Frameworks/CoreServices.framework/Frameworks/LaunchServices.framework/Support/lsregister"@,
        registry_db(home) == home + seq!['/']
            + "Library/Preferences/com.apple.LaunchServices/com.apple.launchservices.secure.db"@,
{
    reveal_strlit("Library/Preferences/com.apple.LaunchServices/com.apple.launchservices.secure.db");
    paths::joining_puts_one_slash(
        home,
        "Library/Preferences/com.apple.LaunchServices/com.apple.launchservices.secure.db"@,
    );
}

} // verus!
