//! Junk that the system leaves behind: folder metadata, resource forks, crash
//! reports, temporary files and logs.

use vstd::prelude::*;
use crate::config::{Config, SystemTarget};
use crate::plan::{Action, ActionView};
use crate::{clock, config, paths, plan, text};

verus! {

broadcast use crate::text::group_views;

/// The home directory; the root where none is known.
pub open spec fn home_or_root(home: Option<Seq<char>>) -> Seq<char> {
    match home {
        Some(h) => h,
        None => "/"@,
    }
}

/// The home directory; empty where none is known.
pub open spec fn home_or_empty(home: Option<Seq<char>>) -> Seq<char> {
    match home {
        Some(h) => h,
        None => Seq::empty(),
    }
}

/// The home directory; the root where none is known.
pub fn home_dir(home: &Option<String>) -> (r: String)
    ensures
        r@ == home_or_root(text::opt_view(*home)),
{
    match home {
        Some(h) => text::owned(h.as_str()),
        None => text::owned("/"),
    }
}

/// Configured directories with the home directory put in.
pub open spec fn expanded_all(dirs: Seq<Seq<char>>, home: Seq<char>) -> Seq<Seq<char>> {
    dirs.map_values(|d: Seq<char>| config::expanded(d, home))
}

fn expand_into(r: &mut Vec<String>, dirs: &Vec<String>, home: &str)
    ensures
        text::views(final(r)@) == text::views(old(r)@) + expanded_all(text::views(dirs@), home@),
{
    let ghost start = text::views(r@);
    let ghost want = expanded_all(text::views(dirs@), home@);
    let mut i: usize = 0;
    assert(start + want.take(0) =~= start);
    while i < dirs.len()
        invariant
            i <= dirs@.len(),
            want == expanded_all(text::views(dirs@), home@),
            text::views(r@) == start + want.take(i as int),
        decreases dirs.len() - i,
    {
        let dir = Config::expand(dirs[i].as_str(), home);
        assert(want[i as int] == dir@);
        r.push(dir);
        i = i + 1;
        assert(text::views(r@) =~= start + want.take(i as int));
    }
    assert(want.take(i as int) =~= want);
}

// ── folder metadata and resource forks ───────────────────────────────────────

/// The home directory and the caches of the user.
pub open spec fn user_roots(cfg: Config, home: Option<Seq<char>>) -> Seq<Seq<char>> {
    seq![home_or_root(home)] + expanded_all(
        text::views(cfg.paths.user_cache@),
        home_or_empty(home),
    )
}

fn roots_of(cfg: &Config, home: &Option<String>) -> (r: Vec<String>)
    ensures
        text::views(r@) == user_roots(*cfg, text::opt_view(*home)),
{
    let mut r: Vec<String> = Vec::new();
    r.push(home_dir(home));
    let ghost first = text::views(r@);
    assert(first =~= seq![home_or_root(text::opt_view(*home))]);
    match home {
        Some(h) => {
            expand_into(&mut r, &cfg.paths.user_cache, h.as_str());
        },
        None => {
            proof {
                reveal_strlit("");
                assert(""@ =~= Seq::<char>::empty());
            }
            expand_into(&mut r, &cfg.paths.user_cache, "");
        },
    }
    r
}

/// Where folder metadata is swept: below the home directory, the caches of the user,
/// and all volumes. What [`keeps_all_but_ds_store`] does not keep goes.
pub fn clean_ds_store(cfg: &Config, home: &Option<String>) -> (r: Vec<String>)
    ensures
        text::views(r@) == user_roots(*cfg, text::opt_view(*home)).push("/Volumes"@),
{
    let mut r = roots_of(cfg, home);
    r.push(text::owned("/Volumes"));
    r
}

/// Where resource forks are swept: below the home directory and the caches of the
/// user. What [`keeps_all_but_apple_double`] does not keep goes.
pub fn clean_apple_double(cfg: &Config, home: &Option<String>) -> (r: Vec<String>)
    ensures
        text::views(r@) == user_roots(*cfg, text::opt_view(*home)),
{
    roots_of(cfg, home)
}

/// Whether a file is kept when folder metadata is swept: all are but those named
/// `.DS_Store`.
pub fn keeps_all_but_ds_store(path: &String) -> (r: bool)
    ensures
        r == (paths::base_name(path@) != Some(".DS_Store"@)),
{
    match paths::file_name(path.as_str()) {
        Some(name) => !text::same(name.as_str(), ".DS_Store"),
        None => true,
    }
}

/// Whether a file is kept when resource forks are swept: all are but those whose names
/// begin with `._`.
pub fn keeps_all_but_apple_double(path: &String) -> (r: bool)
    ensures
        r == !(paths::base_name(path@) matches Some(name) && "._"@.is_prefix_of(name)),
{
    match paths::file_name(path.as_str()) {
        Some(name) => !text::starts_with(name.as_str(), "._"),
        None => true,
    }
}

// ── sweeps by age ────────────────────────────────────────────────────────────

/// A directory to be swept by age: files that were last changed longer ago than
/// `max_age` seconds go, of the given extensions if any are given.
pub struct AgeJob {
    pub dir: String,
    pub max_age: u64,
    pub exts: Option<Vec<String>>,
    pub recursive: bool,
}

/// The view of an [`AgeJob`].
pub struct AgeJobView {
    pub dir: Seq<char>,
    pub max_age: int,
    pub exts: Option<Seq<Seq<char>>>,
    pub recursive: bool,
}

impl View for AgeJob {
    type V = AgeJobView;

    open spec fn view(&self) -> AgeJobView {
        AgeJobView {
            dir: self.dir@,
            max_age: self.max_age as int,
            exts: text::opt_views(self.exts),
            recursive: self.recursive,
        }
    }
}

/// The extensions of crash reports.
pub open spec fn crash_exts() -> Seq<Seq<char>> {
    seq!["crash"@, "spin"@, "hang"@, "ips"@, "diag"@]
}

/// The extensions of logs.
pub open spec fn log_exts() -> Seq<Seq<char>> {
    seq!["log"@, "gz"@, "asl"@, "tracev3"@]
}

fn crash_ext_list() -> (r: Vec<String>)
    ensures
        text::views(r@) == crash_exts(),
{
    let mut r: Vec<String> = Vec::new();
    r.push(text::owned("crash"));
    r.push(text::owned("spin"));
    r.push(text::owned("hang"));
    r.push(text::owned("ips"));
    r.push(text::owned("diag"));
    assert(text::views(r@) =~= crash_exts());
    r
}

fn log_ext_list() -> (r: Vec<String>)
    ensures
        text::views(r@) == log_exts(),
{
    let mut r: Vec<String> = Vec::new();
    r.push(text::owned("log"));
    r.push(text::owned("gz"));
    r.push(text::owned("asl"));
    r.push(text::owned("tracev3"));
    assert(text::views(r@) =~= log_exts());
    r
}

/// One job of the same kind for each directory.
pub open spec fn jobs_for(
    dirs: Seq<Seq<char>>,
    home: Seq<char>,
    max_age: int,
    exts: Option<Seq<Seq<char>>>,
    recursive: bool,
) -> Seq<AgeJobView> {
    dirs.map_values(
        |d: Seq<char>| AgeJobView { dir: config::expanded(d, home), max_age, exts, recursive },
    )
}

/// The age in seconds from which on a target's files go.
pub open spec fn target_age(t: SystemTarget, default_days: u64) -> int {
    (match t.max_age_days {
        Some(d) => d,
        None => default_days,
    }) * clock::SECS_PER_DAY
}

/// The jobs for the first `n` targets: one for each that names a directory.
pub open spec fn target_jobs(
    targets: Seq<SystemTarget>,
    default_days: u64,
    home: Seq<char>,
    n: int,
) -> Seq<AgeJobView>
    decreases n,
{
    if n <= 0 {
        Seq::empty()
    } else {
        let before = target_jobs(targets, default_days, home, n - 1);
        match targets[n - 1].path {
            Some(p) => before.push(
                AgeJobView {
                    dir: config::expanded(p@, home),
                    max_age: target_age(targets[n - 1], default_days),
                    exts: None,
                    recursive: true,
                },
            ),
            None => before,
        }
    }
}

/// The jobs for crash reports and the other targets.
pub open spec fn crash_jobs(cfg: Config, home: Seq<char>) -> Seq<AgeJobView> {
    jobs_for(
        text::views(cfg.paths.crash_logs@),
        home,
        cfg.thresholds.log_max_age_days * clock::SECS_PER_DAY,
        Some(crash_exts()),
        false,
    ) + target_jobs(
        cfg.categories.system.targets@,
        cfg.thresholds.log_max_age_days,
        home,
        cfg.categories.system.targets@.len() as int,
    )
}

/// The jobs for temporary files.
pub open spec fn tmp_jobs(cfg: Config, home: Seq<char>) -> Seq<AgeJobView> {
    jobs_for(
        text::views(cfg.paths.tmp_dirs@),
        home,
        cfg.thresholds.tmp_max_age_hours * clock::SECS_PER_HOUR,
        None,
        false,
    )
}

/// The jobs for logs.
pub open spec fn log_jobs(cfg: Config, home: Seq<char>) -> Seq<AgeJobView> {
    jobs_for(
        text::views(cfg.paths.system_logs@),
        home,
        cfg.thresholds.log_max_age_days * clock::SECS_PER_DAY,
        Some(log_exts()),
        true,
    )
}

/// Every age that the sweeps for crash reports and the other targets go by can be told
/// in seconds.
pub open spec fn ages_fit(cfg: Config) -> bool {
    &&& cfg.thresholds.log_max_age_days * clock::SECS_PER_DAY <= u64::MAX
    &&& forall|i: int|
        0 <= i < cfg.categories.system.targets@.len() && (#[trigger] cfg.categories.system.targets@[i]).path is Some
            ==> target_age(
            cfg.categories.system.targets@[i],
            cfg.thresholds.log_max_age_days,
        ) <= u64::MAX
}

/// Whether every age that the sweeps for crash reports and the other targets go by can be
/// told in seconds.
pub fn ages_in_range(cfg: &Config) -> (r: bool)
    ensures
        r == ages_fit(*cfg),
{
    let most_days: u64 = u64::MAX / 86400;
    if cfg.thresholds.log_max_age_days > most_days {
        return false;
    }
    let targets = &cfg.categories.system.targets;
    let mut i: usize = 0;
    while i < targets.len()
        invariant
            i <= targets@.len(),
            targets == cfg.categories.system.targets,
            most_days == u64::MAX / 86400,
            cfg.thresholds.log_max_age_days <= most_days,
            forall|j: int|
                0 <= j < i && (#[trigger] targets@[j]).path is Some ==> target_age(
                    targets@[j],
                    cfg.thresholds.log_max_age_days,
                ) <= u64::MAX,
        decreases targets.len() - i,
    {
        let t = &targets[i];
        if t.path.is_some() {
            match t.max_age_days {
                Some(d) => {
                    if d > most_days {
                        assert(targets@[i as int].path is Some);
                        return false;
                    }
                },
                None => {},
            }
        }
        i = i + 1;
    }
    true
}

fn copy_exts(exts: &Option<Vec<String>>) -> (r: Option<Vec<String>>)
    ensures
        text::opt_views(r) == text::opt_views(*exts),
{
    match exts {
        Some(list) => {
            let mut r: Vec<String> = Vec::new();
            let mut i: usize = 0;
            assert(text::views(r@) =~= text::views(list@).take(0));
            while i < list.len()
                invariant
                    i <= list@.len(),
                    text::views(r@) == text::views(list@).take(i as int),
                decreases list.len() - i,
            {
                r.push(text::owned(list[i].as_str()));
                i = i + 1;
                assert(text::views(r@) =~= text::views(list@).take(i as int));
            }
            assert(text::views(list@).take(i as int) =~= text::views(list@));
            Some(r)
        },
        None => None,
    }
}

fn add_jobs(
    r: &mut Vec<AgeJob>,
    dirs: &Vec<String>,
    home: &str,
    max_age: u64,
    exts: &Option<Vec<String>>,
    recursive: bool,
)
    ensures
        text::views(final(r)@) == text::views(old(r)@) + jobs_for(
            text::views(dirs@),
            home@,
            max_age as int,
            text::opt_views(*exts),
            recursive,
        ),
{
    let ghost start = text::views(r@);
    let ghost shown = text::opt_views(*exts);
    let ghost want = jobs_for(text::views(dirs@), home@, max_age as int, shown, recursive);
    let mut i: usize = 0;
    assert(start + want.take(0) =~= start);
    while i < dirs.len()
        invariant
            i <= dirs@.len(),
            shown == text::opt_views(*exts),
            want == jobs_for(text::views(dirs@), home@, max_age as int, shown, recursive),
            text::views(r@) == start + want.take(i as int),
        decreases dirs.len() - i,
    {
        let job = AgeJob {
            dir: Config::expand(dirs[i].as_str(), home),
            max_age,
            exts: copy_exts(exts),
            recursive,
        };
        assert(want[i as int] == job@);
        r.push(job);
        i = i + 1;
        assert(text::views(r@) =~= start + want.take(i as int));
    }
    assert(want.take(i as int) =~= want);
}

/// The sweeps for crash reports and the other targets of the configuration.
pub fn clean_crash_logs(cfg: &Config, home: &str) -> (r: Vec<AgeJob>)
    requires
        ages_fit(*cfg),
    ensures
        text::views(r@) == crash_jobs(*cfg, home@),
{
    let mut r: Vec<AgeJob> = Vec::new();
    let days: u64 = cfg.thresholds.log_max_age_days;
    add_jobs(
        &mut r,
        &cfg.paths.crash_logs,
        home,
        clock::days(days),
        &Some(crash_ext_list()),
        false,
    );
    let ghost first = text::views(r@);
    let targets = &cfg.categories.system.targets;
    let mut i: usize = 0;
    assert(first + target_jobs(targets@, days, home@, 0) =~= first);
    while i < targets.len()
        invariant
            i <= targets@.len(),
            targets == cfg.categories.system.targets,
            days == cfg.thresholds.log_max_age_days,
            ages_fit(*cfg),
            text::views(r@) == first + target_jobs(targets@, days, home@, i as int),
        decreases targets.len() - i,
    {
        let t = &targets[i];
        match &t.path {
            Some(p) => {
                assert(cfg.categories.system.targets@[i as int].path is Some);
                let n: u64 = match t.max_age_days {
                    Some(d) => d,
                    None => days,
                };
                let job = AgeJob {
                    dir: Config::expand(p.as_str(), home),
                    max_age: clock::days(n),
                    exts: None,
                    recursive: true,
                };
                r.push(job);
                assert(text::views(r@) =~= first + target_jobs(targets@, days, home@, i + 1));
            },
            None => {},
        }
        i = i + 1;
    }
    assert(text::views(r@) =~= crash_jobs(*cfg, home@));
    r
}

/// The sweeps for temporary files.
pub fn clean_tmp(cfg: &Config, home: &str) -> (r: Vec<AgeJob>)
    requires
        cfg.thresholds.tmp_max_age_hours * clock::SECS_PER_HOUR <= u64::MAX,
    ensures
        text::views(r@) == tmp_jobs(*cfg, home@),
{
    let mut r: Vec<AgeJob> = Vec::new();
    add_jobs(
        &mut r,
        &cfg.paths.tmp_dirs,
        home,
        clock::hours(cfg.thresholds.tmp_max_age_hours),
        &None,
        false,
    );
    assert(text::views(r@) =~= tmp_jobs(*cfg, home@));
    r
}

/// The sweeps for logs.
pub fn clean_system_logs(cfg: &Config, home: &str) -> (r: Vec<AgeJob>)
    requires
        cfg.thresholds.log_max_age_days * clock::SECS_PER_DAY <= u64::MAX,
    ensures
        text::views(r@) == log_jobs(*cfg, home@),
{
    let mut r: Vec<AgeJob> = Vec::new();
    add_jobs(
        &mut r,
        &cfg.paths.system_logs,
        home,
        clock::days(cfg.thresholds.log_max_age_days),
        &Some(log_ext_list()),
        true,
    );
    assert(text::views(r@) =~= log_jobs(*cfg, home@));
    r
}

// ── the search index ─────────────────────────────────────────────────────────

/// Rebuilds the search index: off, gone, on again. Only the superuser can.
pub open spec fn reindex_plan(is_root: bool) -> Seq<ActionView> {
    if is_root {
        seq![
            ActionView::Run("mdutil"@, seq!["-i"@, "off"@, "/"@]),
            ActionView::DeleteTree("/.Spotlight-V100"@),
            ActionView::Run("mdutil"@, seq!["-i"@, "on"@, "/"@]),
        ]
    } else {
        Seq::empty()
    }
}

/// Rebuilds the search index.
pub fn reindex_spotlight(is_root: bool) -> (r: Vec<Action>)
    ensures
        text::views(r@) == reindex_plan(is_root),
{
    let mut r: Vec<Action> = Vec::new();
    if is_root {
        r.push(plan::run3("mdutil", "-i", "off", "/"));
        r.push(Action::DeleteTree(text::owned("/.Spotlight-V100")));
        r.push(plan::run3("mdutil", "-i", "on", "/"));
    }
    assert(text::views(r@) =~= reindex_plan(is_root));
    r
}

// ── what the sweeps are for ──────────────────────────────────────────────────

/// Folder metadata and resource forks are swept below the home directory first, then below
/// every configured cache of the user, in order and with the home directory put in.
pub proof fn every_user_root_is_swept(cfg: Config, home: Seq<char>)
    ensures
        ({
            let roots = user_roots(cfg, Some(home));
            &&& roots.len() == cfg.paths.user_cache@.len() + 1
            &&& roots[0] == home
            &&& forall|i: int|
                0 <= i < cfg.paths.user_cache@.len() ==> #[trigger] roots[i + 1]
                    == config::expanded(cfg.paths.user_cache@[i]@, home)
        }),
        user_roots(cfg, None)[0] == "/"@,
{
    let roots = user_roots(cfg, Some(home));
    assert forall|i: int| 0 <= i < cfg.paths.user_cache@.len() implies #[trigger] roots[i + 1]
        == config::expanded(cfg.paths.user_cache@[i]@, home) by {
        assert(text::views(cfg.paths.user_cache@)[i] == cfg.paths.user_cache@[i]@);
    }
}

/// Every configured directory of crash reports is swept for reports that are older than
/// the configured days, not below it; and every target with a path is swept whatever the
/// extensions, below it too, for its own days or else the configured ones.
pub proof fn every_crash_log_is_swept(cfg: Config, home: Seq<char>, i: int)
    ensures
        0 <= i < cfg.paths.crash_logs@.len() ==> {
            let job = crash_jobs(cfg, home)[i];
            &&& i < crash_jobs(cfg, home).len()
            &&& job.dir == config::expanded(cfg.paths.crash_logs@[i]@, home)
            &&& job.max_age == cfg.thresholds.log_max_age_days * 86400
            &&& !job.recursive
            &&& job.exts == Some(seq!["crash"@, "spin"@, "hang"@, "ips"@, "diag"@])
        },
        0 <= i < cfg.categories.system.targets@.len() && cfg.categories.system.targets@[i].path
            is Some ==> crash_jobs(cfg, home).contains(
            (AgeJobView {
                dir: config::expanded((cfg.categories.system.targets@[i].path->0)@, home),
                max_age: (match cfg.categories.system.targets@[i].max_age_days {
                    Some(d) => d,
                    None => cfg.thresholds.log_max_age_days,
                }) * 86400,
                exts: None,
                recursive: true,
            }),
        ),
        crash_jobs(cfg, home).len() <= cfg.paths.crash_logs@.len()
            + cfg.categories.system.targets@.len(),
{
    let targets = cfg.categories.system.targets@;
    let days = cfg.thresholds.log_max_age_days;
    let dirs = jobs_for(
        text::views(cfg.paths.crash_logs@),
        home,
        days * clock::SECS_PER_DAY,
        Some(crash_exts()),
        false,
    );
    let rest = target_jobs(targets, days, home, targets.len() as int);
    lemma_target_jobs_few(targets, days, home, targets.len() as int);
    if 0 <= i < targets.len() && targets[i].path is Some {
        let k = lemma_target_job(targets, days, home, targets.len() as int, i);
        assert((dirs + rest)[dirs.len() + k] == rest[k]);
    }
    if 0 <= i < cfg.paths.crash_logs@.len() {
        assert((dirs + rest)[i] == dirs[i]);
    }
}

proof fn lemma_target_jobs_few(targets: Seq<SystemTarget>, days: u64, home: Seq<char>, n: int)
    requires
        0 <= n,
    ensures
        target_jobs(targets, days, home, n).len() <= n,
    decreases n,
{
    if n > 0 {
        lemma_target_jobs_few(targets, days, home, n - 1);
    }
}

proof fn lemma_target_job(
    targets: Seq<SystemTarget>,
    days: u64,
    home: Seq<char>,
    n: int,
    i: int,
) -> (k: int)
    requires
        0 <= i < n <= targets.len(),
        targets[i].path is Some,
    ensures
        0 <= k < target_jobs(targets, days, home, n).len(),
        target_jobs(targets, days, home, n)[k] == (AgeJobView {
            dir: config::expanded((targets[i].path->0)@, home),
            max_age: target_age(targets[i], days),
            exts: None,
            recursive: true,
        }),
    decreases n,
{
    if i < n - 1 {
        lemma_target_job(targets, days, home, n - 1, i)
    } else {
        target_jobs(targets, days, home, n - 1).len() as int
    }
}

/// Every configured directory for temporary files is swept for files older than the
/// configured hours, whatever their extensions and not below it; and every configured
/// directory of logs for logs older than the configured days, below it too.
pub proof fn every_tmp_and_log_directory_is_swept(cfg: Config, home: Seq<char>, i: int)
    ensures
        tmp_jobs(cfg, home).len() == cfg.paths.tmp_dirs@.len(),
        log_jobs(cfg, home).len() == cfg.paths.system_logs@.len(),
        0 <= i < cfg.paths.tmp_dirs@.len() ==> {
            let job = tmp_jobs(cfg, home)[i];
            &&& job.dir == config::expanded(cfg.paths.tmp_dirs@[i]@, home)
            &&& job.max_age == cfg.thresholds.tmp_max_age_hours * 3600
            &&& job.exts is None
            &&& !job.recursive
        },
        0 <= i < cfg.paths.system_logs@.len() ==> {
            let job = log_jobs(cfg, home)[i];
            &&& job.dir == config::expanded(cfg.paths.system_logs@[i]@, home)
            &&& job.max_age == cfg.thresholds.log_max_age_days * 86400
            &&& job.exts == Some(seq!["log"@, "gz"@, "asl"@, "tracev3"@])
            &&& job.recursive
        },
{
}

/// The search index is rebuilt by the superuser only: off, gone, on again.
pub proof fn only_the_superuser_rebuilds_the_index()
    ensures
        reindex_plan(false).len() == 0,
        reindex_plan(true).len() == 3,
        reindex_plan(true)[0] == ActionView::Run("mdutil"@, seq!["-i"@, "off"@, "/"@]),
        reindex_plan(true)[1] == ActionView::DeleteTree("/.Spotlight-V100"@),
        reindex_plan(true)[2] == ActionView::Run("mdutil"@, seq!["-i"@, "on"@, "/"@]),
{
}

/// Without a home directory the whole system is the first root, and `~/` stands for
/// nothing before a relative path.
pub proof fn roots_without_a_home(cfg: Config, i: int)
    requires
        0 <= i < cfg.paths.user_cache@.len(),
    ensures
        user_roots(cfg, None).len() == cfg.paths.user_cache@.len() + 1,
        user_roots(cfg, None)[i + 1] == config::expanded(
            cfg.paths.user_cache@[i]@,
            Seq::empty(),
        ),
{
}

/// One more configured target is swept after the others, where it says where it is, and
/// not at all where it does not.
pub proof fn targets_are_swept_in_order(
    targets: Seq<SystemTarget>,
    days: u64,
    home: Seq<char>,
    n: int,
)
    requires
        0 <= n < targets.len(),
    ensures
        target_jobs(targets, days, home, 0).len() == 0,
        targets[n].path is None ==> target_jobs(targets, days, home, n + 1) == target_jobs(
            targets,
            days,
            home,
            n,
        ),
        targets[n].path matches Some(p) ==> target_jobs(targets, days, home, n + 1) == target_jobs(
            targets,
            days,
            home,
            n,
        ).push(
            (AgeJobView {
                dir: config::expanded(p@, home),
                max_age: (match targets[n].max_age_days {
                    Some(d) => d,
                    None => days,
                }) * 86400,
                exts: None,
                recursive: true,
            }),
        ),
{
}

} // verus!
