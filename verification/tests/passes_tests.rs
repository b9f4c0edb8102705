// The passes: what is cleaned, optimized, silenced and ended, and when.

use hush::agents::{
    agent_dir, agent_label, ask_arguments, ask_program, is_foreign_agent, plist_get_binary,
    remove_broken_launch_agent, Binary,
};
use hush::cleaner::apps::{
    app_dirs, atime_command, atime_stamp, audit_report, bundle_id_command, clean_unused_cache,
    get_last_used_with_fallback, is_reportable, kill_by_name, launch_item_dirs, mdls_command,
    mdls_stamp, mdutil_status, remove_launch_item, remove_rogue, scan_apps, scan_bundle,
    scan_name, spotlight_is_available, told, uninstall_app, uninstall_stale, AppInfo, AppScan,
    AppStep, CacheJob, LastUsedSource, UsageAnswers, UsageStep,
};
use hush::cleaner::cache::{
    artifact_bytes, artifact_roots, clear_dir_contents, find_artifacts, is_worth_clearing,
    min_bytes, risky_report, show_artifact, show_cleared, sweep_dev_caches,
    sweep_project_artifacts, Artifact, ArtifactSearch, ArtifactStep, Candidate, SubEntry,
};
use hush::cleaner::snapshots::{
    backup_bytes, backup_dry_line, backup_store, backup_stores, delete_incomplete_backups,
    delete_snapshot, delete_stale, fetch_snapshots, is_listable, list,
    list_command, snapshots_in_range, stale_snapshots, tm_is_running, tm_status, which_tmutil,
    Backup, BackupStep, Snapshot, SnapshotRun, Volume,
};
use hush::cleaner::system::{
    ages_in_range, clean_apple_double, clean_crash_logs, clean_ds_store, clean_system_logs,
    clean_tmp, home_dir, keeps_all_but_apple_double, keeps_all_but_ds_store, reindex_spotlight,
};
use hush::cli::{
    clean_passes, clean_report, crush_report, default_cfg_path, optimize_passes, silence_passes,
    snapshot_report, status_report, CleanOpts, OptimizeOpts, SilenceOpts,
};
use hush::clock::Stamp;
use hush::command::CommandLine;
use hush::config::{
    AppOverride, Categories, Config, DevCacheCategory, DevCacheEntry, LogsCategory, Optimizer,
    Overrides, Paths, ProcessKiller, ProjectArtifactsCategory, ProjectType, RogueList,
    Schedule, Silence, Snapshots, SystemCategory, SystemTarget, Thresholds, Whitelist,
};
use hush::daemon::{
    install, intervals, intervals_in_range, plist_path, run_app_pass, run_boot_clean,
    run_cache_pass, run_snapshot_pass, status_command, uninstall, uninstall_line, Daemon, Due,
    Order, Timers,
};
use hush::ncprefs::{export_command, listed_ids, registered_nc_apps};
use hush::optimizer::network::{flush_dns, reset_stack};
use hush::optimizer::system::{
    app_is_installed, apply as apply_system, cleanup_coreduet, cleanup_nc_prefs,
    cleanup_quarantine_db, cleanup_saved_states, find_lsregister, knowledge_dir,
    lsregister_candidates, mdfind_command, quarantine_db, rebuild_launch_services,
    saved_state_bundle, saved_state_dir, saved_state_goes, system_databases, tweak_actions,
    vacuum_if_eligible, vacuum_roots, vacuum_sqlite_dbs, DatabaseEntry, SystemPass,
};
use hush::optimizer::ui::apply as apply_ui;
use hush::passes::Pass;
use hush::plan::Action;
use hush::sentinel::locks::{
    all_pids, ask_executable, ask_open_files, bundle_of, has_user_files, some_risk_data, Finding,
};
use hush::sentinel::notifications::restrict;
use hush::sentinel::processes::{
    agent_to_look_at, broken_agents_follow, count_ended, crush, crush_rogue, get_pid, is_listed, is_whitelisted,
    kill_broken_agents, kill_process, pgrep_exact, show_crushed, AgentEnd, Kill,
};
use hush::sentinel::silence::{block_agents, force_quit_on_close};

// ── helpers ──────────────────────────────────────────────────────────────────

const HOME: &str = "/Users/u";
const NOW: Stamp = Stamp { secs: 1_700_000_000, nanos: 0 };

fn strings(items: &[&str]) -> Vec<String> {
    items.iter().map(|s| s.to_string()).collect()
}

fn days_ago(n: i64) -> Stamp {
    Stamp { secs: NOW.secs - n * 86400, nanos: 0 }
}

/// A command line as a shell would show it.
fn shown(c: &CommandLine) -> String {
    let mut s = c.program.clone();
    for a in &c.args {
        s.push(' ');
        s.push_str(a);
    }
    s
}

/// A plan as a list of words.
fn script(plan: &[Action]) -> Vec<String> {
    plan.iter()
        .map(|a| match a {
            Action::Run(c) => shown(c),
            Action::Pause(ms) => format!("pause {ms}"),
            Action::Wait(s) => format!("wait {s}"),
            Action::Remove(p) => format!("remove {p}"),
            Action::DeleteFile(p) => format!("delete {p}"),
            Action::DeleteTree(p) => format!("delete-tree {p}"),
            Action::RemoveLaunchItems(b) => format!("launch-items {b}"),
        })
        .collect()
}

fn config() -> Config {
    let mut overrides = Overrides::new();
    overrides.insert(
        "com.mail".to_string(),
        AppOverride { allow_notifications: true, allow_background: true },
    );
    Config {
        schema_version: 1,
        schedule: Schedule {
            boot_clean: true,
            cache_sweep_interval_hours: 24,
            app_audit_interval_days: 7,
            snapshot_audit_interval_days: 3,
        },
        thresholds: Thresholds {
            cache_unused_days: 7,
            uninstall_unused_days: 365,
            snapshot_max_age_days: 7,
            snapshot_keep_count: 2,
            large_file_min_mb: 100,
            log_max_age_days: 30,
            tmp_max_age_hours: 24,
            timemachine_incomplete_safe_hours: 24,
        },
        paths: Paths {
            system_cache: vec![],
            user_cache: strings(&["~/Library/Caches"]),
            crash_logs: strings(&["~/Library/Logs/DiagnosticReports"]),
            tmp_dirs: strings(&["/private/tmp"]),
            app_containers: strings(&["~/Library/Containers"]),
            app_support: strings(&["~/Library/Application Support"]),
            app_prefs: strings(&["~/Library/Preferences"]),
            system_logs: strings(&["/private/var/log"]),
        },
        categories: Categories {
            system: SystemCategory { enabled: true, targets: vec![] },
            dev_caches: DevCacheCategory { enabled: true, entries: vec![] },
            project_artifacts: ProjectArtifactsCategory {
                enabled: true,
                min_size_mb: 10,
                scan_roots: strings(&["~/Developer"]),
                types: vec![ProjectType {
                    marker: "Cargo.toml".to_string(),
                    artifact: "target".to_string(),
                    label: "Rust".to_string(),
                }],
            },
            logs: LogsCategory { enabled: true, max_age_days: 30 },
        },
        snapshots: Snapshots {
            enabled: true,
            auto_delete: true,
            max_age_days: 99,
            keep_count: 99,
            skip_if_tm_running: true,
            delete_incomplete_backups: true,
            incomplete_safe_hours: 24,
        },
        silence: Silence {
            enabled: true,
            block_notifications: true,
            block_background_agents: true,
            force_quit_on_window_close: true,
            notification_mode: "banners_only".to_string(),
            per_app_overrides: overrides,
        },
        optimizer: Optimizer {
            enabled: true,
            flush_dns: true,
            quicklook_refresh: true,
            launch_services_rebuild: true,
            sqlite_vacuum: true,
            quarantine_cleanup: true,
            saved_state_cleanup: true,
            saved_state_max_age_days: 30,
            broken_launch_agents: true,
            notification_center_cleanup: true,
            coreduet_cleanup: true,
            font_cache_rebuild: false,
            dock_refresh: true,
            prevent_network_dsstore: true,
            purge_inactive_memory: true,
            disable_reopen_windows: true,
            disable_sudden_motion_sensor: true,
            increase_fd_limit: true,
            periodic_maintenance: true,
        },
        process_killer: ProcessKiller {
            enabled: true,
            graceful_timeout_secs: 3,
            force_timeout_secs: 5,
            use_launchctl_bootout: true,
        },
        whitelist: Whitelist {
            apps: strings(&["Finder"]),
            bundle_ids: strings(&["com.white"]),
            paths: vec![],
        },
        rogue_list: RogueList {
            bundle_ids: strings(&["com.rogue"]),
            app_names: strings(&["MacKeeper"]),
            process_names: strings(&["Rogue Helper", "finder", "com.apple.x", "Other"]),
        },
    }
}

fn app(name: &str, bid: Option<&str>, last_used: Option<Stamp>) -> AppInfo {
    AppInfo {
        name: name.to_string(),
        bundle_id: bid.map(|b| b.to_string()),
        path: format!("/Applications/{name}.app"),
        last_used,
        last_used_src: match last_used {
            Some(_) => LastUsedSource::SpotlightLastUsed,
            None => LastUsedSource::Unknown,
        },
        size: 2_097_152,
    }
}

// ── apps ─────────────────────────────────────────────────────────────────────

#[test]
fn apps_are_found_by_their_names() {
    let w = config().whitelist;
    assert_eq!(scan_name("/Applications/Safari.app", &w), Some("Safari".to_string()));
    assert_eq!(scan_name("/Applications/Finder.app", &w), None);
    assert_eq!(scan_name("/Applications/readme.txt", &w), None);
    assert_eq!(app_dirs(HOME), strings(&["/Applications", "/Users/u/Applications"]));
}

#[test]
fn critical_and_whitelisted_bundles_are_not_scanned() {
    let w = config().whitelist;
    assert!(scan_bundle(&None, &w));
    assert!(scan_bundle(&Some("com.spotify.client".to_string()), &w));
    assert!(!scan_bundle(&Some("com.white".to_string()), &w));
    assert!(!scan_bundle(&Some("com.apple.finder".to_string()), &w));
}

#[test]
fn unknown_use_never_counts_as_unused() {
    let unknown = app("A", None, None);
    assert!(!unknown.is_unused_for(0, NOW));
    assert_eq!(unknown.age_days(NOW), None);
    let old = app("B", None, Some(days_ago(10)));
    assert!(old.is_unused_for(10 * 86400, NOW));
    assert!(!old.is_unused_for(10 * 86400 + 1, NOW));
    assert_eq!(old.age_days(NOW), Some(10));
    let ahead = app("C", None, Some(days_ago(-1)));
    assert_eq!(ahead.age_days(NOW), None);
    assert!(!ahead.is_unused_for(1, NOW));
}

#[test]
fn the_chain_of_questions_about_use() {
    let t = Stamp { secs: 5, nanos: 0 };
    let mut a = UsageAnswers { last_used: None, indexed: None, date_added: None, accessed: None };
    assert_eq!(get_last_used_with_fallback(&a), UsageStep::AskLastUsed);
    a.last_used = Some(Some(t));
    assert_eq!(
        get_last_used_with_fallback(&a),
        UsageStep::Known(t, LastUsedSource::SpotlightLastUsed)
    );
    a.last_used = Some(None);
    assert_eq!(get_last_used_with_fallback(&a), UsageStep::AskIndexed);
    a.indexed = Some(true);
    assert_eq!(get_last_used_with_fallback(&a), UsageStep::AskDateAdded);
    a.date_added = Some(Some(t));
    assert_eq!(
        get_last_used_with_fallback(&a),
        UsageStep::Known(t, LastUsedSource::SpotlightDateAdded)
    );
    a.date_added = Some(None);
    assert_eq!(get_last_used_with_fallback(&a), UsageStep::AskAccessed);
    a.accessed = Some(Some(t));
    assert_eq!(
        get_last_used_with_fallback(&a),
        UsageStep::Known(t, LastUsedSource::FilesystemAtime)
    );
    a.accessed = Some(None);
    assert_eq!(get_last_used_with_fallback(&a), UsageStep::Unknown);
    a.indexed = Some(false);
    a.date_added = None;
    assert_eq!(get_last_used_with_fallback(&a), UsageStep::Unknown);
}

#[test]
fn questions_about_apps() {
    let c = mdls_command("/A.app", "kMDItemLastUsedDate");
    assert_eq!(shown(&c), "mdls -name kMDItemLastUsedDate -raw /A.app");
    assert_eq!(shown(&mdutil_status()), "mdutil -s /");
    assert_eq!(shown(&atime_command("/A.app")), "stat -f %a /A.app");
    assert_eq!(
        shown(&bundle_id_command("/A.app")),
        "defaults read /A.app/Contents/Info.plist CFBundleIdentifier"
    );
    assert!(spotlight_is_available(&Some("/:\n\tIndexing enabled.".to_string())));
    assert!(!spotlight_is_available(&Some("disabled".to_string())));
    assert!(!spotlight_is_available(&None));
    assert_eq!(told(" com.x \n"), Some("com.x".to_string()));
    assert_eq!(told(" \n"), None);
    assert_eq!(mdls_stamp("(null)"), None);
    assert_eq!(mdls_stamp("1970-01-02 00:00:01 +0000"), Some(Stamp { secs: 86401, nanos: 0 }));
    assert_eq!(atime_stamp("12\n"), Some(Stamp { secs: 12, nanos: 0 }));
    assert_eq!(atime_stamp("x"), None);
}

#[test]
fn looking_at_one_app() {
    let w = config().whitelist;
    assert!(matches!(scan_apps("/Applications/notes.txt", &w), AppScan::Passed));
    assert!(matches!(scan_apps("/Applications/Finder.app", &w), AppScan::Passed));
    let stage = match scan_apps("/Applications/Old.app", &w) {
        AppScan::Bundle(s) => s,
        _ => panic!("the bundle is asked for first"),
    };
    assert_eq!(stage.question().args[1], "/Applications/Old.app/Contents/Info.plist");
    let stage = match stage.resume(&Some("com.old\n".to_string()), &w) {
        AppScan::Usage(s) => s,
        _ => panic!("the last use is asked for next"),
    };
    assert_eq!(stage.path(), "/Applications/Old.app");
    let mut answers = stage.answers();
    assert_eq!(get_last_used_with_fallback(&answers), UsageStep::AskLastUsed);
    answers.last_used = Some(None);
    let stage = match stage.resume(answers) {
        AppScan::Usage(s) => s,
        _ => panic!("more has to be asked"),
    };
    let mut answers = stage.answers();
    answers.indexed = Some(false);
    answers.accessed = Some(Some(days_ago(3)));
    let stage = match stage.resume(answers) {
        AppScan::Size(s) => s,
        _ => panic!("the size is asked for last"),
    };
    assert_eq!(stage.path(), "/Applications/Old.app");
    let found = stage.finish(77);
    assert_eq!(found.name, "Old");
    assert_eq!(found.bundle_id, Some("com.old".to_string()));
    assert_eq!(found.last_used, Some(days_ago(3)));
    assert_eq!(found.last_used_src, LastUsedSource::FilesystemAtime);
    assert_eq!(found.size, 77);
}

#[test]
fn whitelisted_bundles_end_the_look() {
    let w = config().whitelist;
    for reply in ["com.white", "com.apple.Safari"] {
        match scan_apps("/Applications/Old.app", &w) {
            AppScan::Bundle(s) => {
                assert!(matches!(s.resume(&Some(reply.to_string()), &w), AppScan::Passed))
            }
            _ => panic!("the bundle is asked for first"),
        }
    }
    match scan_apps("/Applications/Old.app", &w) {
        AppScan::Bundle(s) => match s.resume(&None, &w) {
            AppScan::Usage(s) => {
                let unknown = UsageAnswers {
                    last_used: Some(None),
                    indexed: Some(true),
                    date_added: Some(None),
                    accessed: Some(None),
                };
                match s.resume(unknown) {
                    AppScan::Size(s) => {
                        let found = s.finish(0);
                        assert_eq!(found.bundle_id, None);
                        assert_eq!(found.last_used, None);
                        assert_eq!(found.last_used_src, LastUsedSource::Unknown);
                    }
                    _ => panic!("all was asked"),
                }
            }
            _ => panic!("an app without a bundle identifier is looked at"),
        },
        _ => panic!("the bundle is asked for first"),
    }
}

#[test]
fn labels_of_sources() {
    assert_eq!(LastUsedSource::SpotlightLastUsed.label(), "spotlight");
    assert_eq!(LastUsedSource::SpotlightDateAdded.label(), "never opened");
    assert_eq!(LastUsedSource::FilesystemAtime.label(), "atime");
    assert_eq!(LastUsedSource::Unknown.label(), "unknown");
}

fn steps(list: Vec<AppStep>) -> Vec<String> {
    list.into_iter()
        .map(|s| match s {
            AppStep::Show(line) => line,
            AppStep::Uninstall(i) => format!("uninstall {i}"),
        })
        .collect()
}

#[test]
fn rogue_apps_are_found_by_name_or_bundle() {
    let cfg = config();
    let apps = vec![
        app("Good", Some("com.good"), None),
        app("MacKeeper", None, None),
        app("Hidden", Some("com.rogue"), None),
    ];
    assert_eq!(
        steps(remove_rogue(&cfg, &apps, false)),
        strings(&["uninstall 1", "uninstall 2"])
    );
    assert_eq!(
        steps(remove_rogue(&cfg, &apps, true)),
        strings(&[
            "  [dry] would remove rogue: MacKeeper",
            "  [dry] would remove rogue: Hidden",
        ])
    );
}

#[test]
fn unused_apps_lose_their_caches_and_at_last_go() {
    let cfg = config();
    let apps = vec![
        app("Fresh", Some("com.fresh"), Some(days_ago(1))),
        app("Week", Some("com.week.one"), Some(days_ago(7))),
        app("NoBundle", None, Some(days_ago(400))),
        app("Year", Some("com.year"), Some(days_ago(365))),
        app("Unknown", Some("com.unknown"), None),
    ];
    let jobs = clean_unused_cache(&cfg, &apps, NOW, HOME);
    let found: Vec<String> = jobs.iter().map(|j| j.path.clone()).collect();
    assert_eq!(
        found,
        strings(&["/Users/u/Library/Caches/com.week.one", "/Users/u/Library/Caches/com.year"])
    );
    assert_eq!(jobs[0].stem, Some("com.week".to_string()));
    assert_eq!(
        steps(uninstall_stale(&cfg, &apps, NOW, false)),
        strings(&["uninstall 2", "uninstall 3"])
    );
    assert_eq!(
        steps(uninstall_stale(&cfg, &apps, NOW, true)),
        strings(&[
            "  [dry] would uninstall NoBundle (400d unused)",
            "  [dry] would uninstall Year (365d unused)",
        ])
    );
}

#[test]
fn caches_in_use_are_passed_over() {
    let job = |stem: Option<&str>| CacheJob {
        path: "/Users/u/Library/Caches/com.x".to_string(),
        stem: stem.map(|s| s.to_string()),
    };
    let path = Some("/Users/u/Library/Caches/com.x".to_string());
    assert_eq!(job(Some("com")).to_remove(true, false), path);
    assert_eq!(job(Some("com")).to_remove(true, true), None);
    assert_eq!(job(Some("com")).to_remove(false, false), None);
    assert_eq!(job(None).to_remove(true, true), path);
    assert_eq!(job(None).to_remove(false, true), None);
}

#[test]
fn audit_prints_header() {
    let stdout = audit_report(&vec![], NOW).join("\n");
    assert!(
        stdout.contains("App Usage") || stdout.contains("Audit") || stdout.contains("Application"),
        "audit should print a header: {stdout}"
    );
}

#[test]
fn the_report_on_apps() {
    let apps = vec![
        app("Fresh", None, Some(days_ago(1))),
        app("Unknown", None, None),
        app("Oldest", None, Some(days_ago(90))),
    ];
    assert!(is_reportable(&apps));
    let lines = audit_report(&apps, NOW);
    assert_eq!(lines[0], "\n  App Usage Audit");
    assert_eq!(
        lines[1],
        format!("  {:<36} {:>10} {:>12} {:>12}", "Application", "Last Used", "Source", "Size")
    );
    assert_eq!(lines[2], format!("  {}", "─".repeat(74)));
    assert_eq!(
        lines[3],
        format!("  {:<36} {:>10} {:>12} {:>12}", "Oldest", "90d ago", "spotlight", "2 MB")
    );
    assert_eq!(
        lines[4],
        format!("  {:<36} {:>10} {:>12} {:>12}", "Fresh", "1d ago", "spotlight", "2 MB")
    );
    assert_eq!(
        lines[5],
        format!("  {:<36} {:>10} {:>12} {:>12}", "Unknown", "unknown", "unknown", "2 MB")
    );
    assert_eq!(lines[6], "");
    assert_eq!(lines.len(), 7);
    let odd = vec![app(&format!("{}é{}", "a".repeat(34), "b".repeat(9)), None, None)];
    assert!(!is_reportable(&odd));
}

#[test]
fn uninstalling_needs_an_intact_signature() {
    let cfg = config();
    let a = app("Old", Some("com.old"), Some(days_ago(400)));
    assert!(uninstall_app(&a, false, &cfg.paths, HOME).is_empty());
    assert_eq!(
        script(&uninstall_app(&a, true, &cfg.paths, HOME)),
        strings(&[
            "osascript -e quit app id \"com.old\"",
            "pkill -x Old",
            "pause 500",
            "pkill -9 -x Old",
            "delete-tree /Applications/Old.app",
            "remove /Users/u/Library/Containers/com.old",
            "remove /Users/u/Library/Preferences/com.old.plist",
            "remove /Users/u/Library/Application Support/Old",
            "remove /Users/u/Library/Caches/com.old",
            "remove /Users/u/Library/Saved Application State/com.old.savedState",
            "launch-items com.old",
        ])
    );
    let plain = app("Plain", None, None);
    assert_eq!(
        script(&uninstall_app(&plain, true, &cfg.paths, HOME)),
        strings(&[
            "pkill -x Plain",
            "pause 500",
            "pkill -9 -x Plain",
            "delete-tree /Applications/Plain.app",
        ])
    );
    assert_eq!(script(&kill_by_name("X")).len(), 3);
}

#[test]
fn protected_bundles_are_not_deleted() {
    let cfg = config();
    let mut a = app("Odd", None, None);
    a.path = "/System/Odd.app".to_string();
    assert!(!script(&uninstall_app(&a, true, &cfg.paths, HOME))
        .iter()
        .any(|s| s.starts_with("delete")));
}

#[test]
fn launch_items_go_by_their_names() {
    assert_eq!(
        launch_item_dirs(HOME),
        strings(&[
            "/Users/u/Library/LaunchAgents",
            "/Library/LaunchAgents",
            "/Library/LaunchDaemons",
        ])
    );
    let p = "/Library/LaunchAgents/com.old.helper.plist";
    assert_eq!(
        script(&remove_launch_item(p, "com.old.helper.plist", "com.old")),
        vec![format!("launchctl unload {p}"), format!("delete {p}")]
    );
    assert!(remove_launch_item(p, "com.old.helper.plist", "com.new").is_empty());
    let blocked = "/x/com.apple.finder.plist";
    assert!(remove_launch_item(blocked, "com.apple.finder.plist", "com.apple.finder").is_empty());
}

// ── caches of developer tools ────────────────────────────────────────────────

#[test]
fn risky_caches_are_never_cleared() {
    let mut cfg = config();
    for (name, risk) in [("npm", "safe"), ("docker", "risky"), ("xcode", "caution")] {
        cfg.categories.dev_caches.entries.push(DevCacheEntry {
            name: name.to_string(),
            path: format!("~/.{name}"),
            risk: risk.to_string(),
            group: None,
        });
    }
    let jobs = sweep_dev_caches(&cfg, HOME);
    assert_eq!(jobs.len(), 2);
    assert_eq!(jobs[0].path, "/Users/u/.npm");
    assert_eq!(jobs[1].name, "xcode");
    assert_eq!(jobs[1].mark, "🟡");
    assert_eq!(
        show_cleared(&jobs[0], 2048, false),
        Some(format!("  {} {:<42} {} {}", "🟢", "npm", "freed", "2 KB"))
    );
    assert_eq!(
        show_cleared(&jobs[0], 2048, true),
        Some(format!("  {} {:<42} {} {}", "🟢", "npm", "would free", "2 KB"))
    );
    assert_eq!(show_cleared(&jobs[0], 0, true), None);
    assert_eq!(
        risky_report(&cfg, HOME),
        vec![
            "\n  Risky caches (never cleared)".to_string(),
            format!("  {} {:<42} {}", "🔴", "docker", "/Users/u/.docker"),
            "".to_string(),
        ]
    );
    cfg.categories.dev_caches.entries.remove(1);
    assert!(risky_report(&cfg, HOME).is_empty());
    cfg.categories.dev_caches.enabled = false;
    assert!(sweep_dev_caches(&cfg, HOME).is_empty());
}

#[test]
fn caches_are_cleared_only_when_it_is_worth_it() {
    assert!(is_worth_clearing(true, 1, false));
    assert!(!is_worth_clearing(false, 1, false));
    assert!(!is_worth_clearing(true, 0, false));
    assert!(!is_worth_clearing(true, 1, true));
    let entries = strings(&["/Users/u/.npm/a", "/Users/u/.npm/com.apple.bird", "/Users/u/.npm/b"]);
    assert_eq!(clear_dir_contents(&entries), strings(&["/Users/u/.npm/a", "/Users/u/.npm/b"]));
}

// ── build artifacts ──────────────────────────────────────────────────────────

fn entry(dir: &str, name: &str, is_dir: bool) -> SubEntry {
    SubEntry { name: name.to_string(), path: format!("{dir}/{name}"), is_dir }
}

fn removed(list: Vec<ArtifactStep>) -> Vec<Artifact> {
    list.into_iter()
        .map(|s| match s {
            ArtifactStep::Remove(a) => a,
            ArtifactStep::Show(_) => panic!("it is no dry run"),
        })
        .collect()
}

#[test]
fn artifacts_are_searched_depth_first() {
    let cfg = config();
    let cat = &cfg.categories.project_artifacts;
    assert_eq!(artifact_roots(cat, HOME), strings(&["/Users/u/Developer"]));
    assert_eq!(min_bytes(cat), 10 * 1_048_576);
    let mut search = sweep_project_artifacts(&cfg, HOME);
    let root = search.next().unwrap();
    assert_eq!(root.dir, "/Users/u/Developer");
    let entries = vec![
        entry(&root.dir, "one", true),
        entry(&root.dir, ".hidden", true),
        entry(&root.dir, "node_modules", true),
        entry(&root.dir, ".build", true),
        entry(&root.dir, "notes.txt", false),
        entry(&root.dir, "two", true),
    ];
    assert!(ArtifactSearch::candidates(&root, &entries, &cat.types).is_empty());
    search.settle(&root, &entries, None, NOW, min_bytes(cat));
    let one = search.next().unwrap();
    assert_eq!(one.dir, "/Users/u/Developer/one");
    assert_eq!(one.depth, 1);
    let inside = vec![entry(&one.dir, "Cargo.toml", false), entry(&one.dir, "src", true)];
    let found = ArtifactSearch::candidates(&one, &inside, &cat.types);
    assert_eq!(found.len(), 1);
    assert_eq!(found[0].path, "/Users/u/Developer/one/target");
    let there = ArtifactSearch::first_there(found, &vec![true]).unwrap();
    let held = Some((there, 20 * 1_048_576, Some(days_ago(31))));
    search.settle(&one, &inside, held, NOW, min_bytes(cat));
    // What lies below a directory with an artifact is not searched.
    let two = search.next().unwrap();
    assert_eq!(two.dir, "/Users/u/Developer/two");
    let target = |p: &str| Candidate { path: format!("{p}/target"), name: "target".to_string() };
    let inside = vec![entry(&two.dir, "src", true)];
    // An artifact that is too small is not noted, and ends the search of its directory too.
    let small = Some((target(&two.dir), 9 * 1_048_576, None));
    search.settle(&two, &inside, small, NOW, min_bytes(cat));
    let large = Some((target(&two.dir), 30 * 1_048_576, None));
    search.settle(&two, &inside, large, NOW, min_bytes(cat));
    assert!(search.next().is_none());
    let artifacts = removed(search.finish(false));
    assert_eq!(artifacts.len(), 2);
    assert_eq!(artifacts[0].project_name, "two");
    assert_eq!(
        show_artifact(&artifacts[0]),
        format!("  {}{:.<38} {} / {} / {}", "  ", "two", "target", "age?", "30 MB")
    );
    assert_eq!(
        show_artifact(&artifacts[1]),
        format!("  {}{:.<38} {} / {} / {}", "⚠ ", "one", "target", "31d old", "20 MB")
    );
}

#[test]
fn artifacts_of_equal_size_stay_as_they_were_found() {
    let mut search = find_artifacts(&strings(&["/a", "/b"]));
    let a = search.next().unwrap();
    let b = search.next().unwrap();
    let c = |p: &str| Candidate { path: p.to_string(), name: "t".to_string() };
    search.settle(&a, &vec![], Some((c("/a/t"), 5, None)), NOW, 0);
    search.settle(&b, &vec![], Some((c("/b/t"), 5, None)), NOW, 0);
    let found = removed(search.finish(false));
    assert_eq!(found[0].artifact_path, "/a/t");
    assert_eq!(found[1].artifact_path, "/b/t");
}

#[test]
fn a_dry_run_over_artifacts_removes_none() {
    let sweep = |dry_run: bool| {
        let mut search = find_artifacts(&strings(&["/a", "/b"]));
        let c = |p: &str| Candidate { path: p.to_string(), name: "t".to_string() };
        let a = search.next().unwrap();
        search.settle(&a, &vec![], Some((c("/a/t"), 5, None)), NOW, 0);
        let b = search.next().unwrap();
        search.settle(&b, &vec![], Some((c("/b/t"), 7, None)), NOW, 0);
        search.finish(dry_run)
    };
    let shown = sweep(true);
    assert!(shown.iter().all(|s| matches!(s, ArtifactStep::Show(_))));
    assert_eq!(artifact_bytes(&shown, &vec![0, 0]), Some(12));
    let gone = sweep(false);
    assert!(gone.iter().all(|s| matches!(s, ArtifactStep::Remove(_))));
    assert_eq!(artifact_bytes(&gone, &vec![7, 0]), Some(7));
    assert_eq!(artifact_bytes(&gone, &vec![7, u64::MAX]), None);
}

#[test]
fn the_first_artifact_that_is_there_counts() {
    let all = || {
        vec![
            Candidate { path: "/p/a".to_string(), name: "a".to_string() },
            Candidate { path: "/p/b".to_string(), name: "b".to_string() },
            Candidate { path: "/p/c".to_string(), name: "c".to_string() },
        ]
    };
    let first = ArtifactSearch::first_there(all(), &vec![false, true, true]).unwrap();
    assert_eq!(first.path, "/p/b");
    assert!(ArtifactSearch::first_there(all(), &vec![false, false, false]).is_none());
    assert!(ArtifactSearch::first_there(vec![], &vec![]).is_none());
}

#[test]
fn searches_stay_shallow() {
    let mut search = find_artifacts(&strings(&["/r"]));
    let mut depth = 0;
    while let Some(spot) = search.next() {
        assert_eq!(spot.depth, depth);
        depth += 1;
        let inside = vec![entry(&spot.dir, "d", true)];
        search.settle(&spot, &inside, None, NOW, 0);
    }
    assert_eq!(depth, 5);
}

// ── snapshots ────────────────────────────────────────────────────────────────

fn snap(name: &str, ts: i64) -> Snapshot {
    Snapshot { name: name.to_string(), ts: ts as u64 }
}

#[test]
fn snapshots_are_read_from_the_listing() {
    let reply = "Snapshots for disk /:\n  com.apple.TimeMachine.2024-11-03-141500\ncom.apple.os.update-1\ncom.apple.TimeMachine.bad\n";
    assert!(snapshots_in_range(reply));
    let snaps = fetch_snapshots(reply);
    assert_eq!(snaps.len(), 1);
    assert_eq!(snaps[0].name, "com.apple.TimeMachine.2024-11-03-141500");
    assert_eq!(snaps[0].ts, 1_730_643_300);
    assert_eq!(snaps[0].date_str(), "2024-11-03");
    assert!(!snapshots_in_range("com.apple.TimeMachine.0000-01-01-000000"));
    assert_eq!(shown(&list_command()), "tmutil listlocalsnapshots /");
}

#[test]
fn ages_and_dates_of_snapshots() {
    let s = snap("com.apple.TimeMachine.2024-11-03-141500", NOW.secs - 3 * 86400 - 5);
    assert_eq!(s.age_days(NOW), 3);
    assert_eq!(snap("x", NOW.secs + 5).age_days(NOW), 0);
    assert_eq!(snap("nodot", 0).date_str(), "nodot");
    assert_eq!(snap("a.short", 0).date_str(), "a.short");
    assert_eq!(snap("a.123456789é", 0).date_str(), "a.123456789é");
}

#[test]
fn the_report_on_snapshots() {
    assert_eq!(list(&vec![], NOW), strings(&["  snapshots  no local APFS snapshots found"]));
    let snaps = vec![snap("com.apple.TimeMachine.2024-11-03-141500", NOW.secs - 86400)];
    assert!(is_listable(&snaps));
    let lines = list(&snaps, NOW);
    assert_eq!(lines[0], "\n  Local APFS Snapshots");
    assert_eq!(lines[1], format!("  {:<48} {:>8}  {:>10}", "Name", "Age", "Date"));
    assert_eq!(lines[2], format!("  {}", "─".repeat(72)));
    assert_eq!(
        lines[3],
        format!(
            "  {:<48} {:>6}d  {:>10}",
            "com.apple.TimeMachine.2024-11-03-141500", 1, "2024-11-03"
        )
    );
    assert_eq!(lines[4], "");
}

#[test]
fn the_newest_snapshots_always_stay() {
    let at = |days: i64| NOW.secs - days * 86400;
    let snaps = vec![
        snap("s.a", at(100)),
        snap("s.b", at(1)),
        snap("s.c", at(50)),
        snap("s.d", at(7)),
        snap("s.e", at(6)),
    ];
    assert_eq!(stale_snapshots(&snaps, NOW, 2, 7), vec![0, 2, 3]);
    assert_eq!(stale_snapshots(&snaps, NOW, 3, 7), vec![0, 2]);
    assert_eq!(stale_snapshots(&snaps, NOW, 5, 0), Vec::<usize>::new());
    assert_eq!(stale_snapshots(&snaps, NOW, 99, 0), Vec::<usize>::new());
    assert_eq!(stale_snapshots(&snaps, NOW, 1, 1000), Vec::<usize>::new());
    // However old they are.
    let old = vec![snap("s.a", 0), snap("s.b", 1)];
    assert_eq!(stale_snapshots(&old, NOW, 2, 7), Vec::<usize>::new());
}

#[test]
fn running_backups_are_noticed() {
    assert!(tm_is_running("Backup session status:\n{\n    Running = 1;\n}"));
    assert!(tm_is_running("  \"Running\" = 1;"));
    assert!(!tm_is_running("    Running = 0;"));
    assert!(!tm_is_running("Percent = 1;"));
    assert_eq!(shown(&tm_status()), "tmutil status");
    assert_eq!(shown(&which_tmutil()), "which tmutil");
}

#[test]
fn a_run_over_snapshots() {
    let cfg = config();
    let snaps: Vec<Snapshot> =
        (0..4).map(|i| snap(&format!("s.{i}"), NOW.secs - (100 - i) * 86400)).collect();
    let mut run = delete_stale(&cfg, false);
    let mut names = vec![];
    let freed = loop {
        run = match run {
            SnapshotRun::FindTool(s) => s.resume(true),
            SnapshotRun::AskStatus(s) => s.resume(false),
            SnapshotRun::List(s) => s.resume(&snaps, NOW),
            SnapshotRun::Delete(s) => {
                names.push(shown(&s.deletion().command));
                s.resume(names.len() != 2)
            }
            SnapshotRun::Backups(s) => {
                assert_eq!(s.safe_hours(), 24);
                assert_eq!(s.freed(), 524_288_000);
                break s.finish(&vec![7, 9], &vec![true, false]);
            }
            SnapshotRun::Show(_) => panic!("it is no dry run"),
            SnapshotRun::Done(freed) => break freed,
        };
    };
    assert_eq!(
        names,
        strings(&["tmutil deletelocalsnapshots 0", "tmutil deletelocalsnapshots 1"])
    );
    assert_eq!(freed, 524_288_000 + 7);
}

#[test]
fn a_dry_run_over_snapshots_shows_them() {
    let mut cfg = config();
    cfg.snapshots.delete_incomplete_backups = false;
    cfg.snapshots.skip_if_tm_running = false;
    cfg.thresholds.snapshot_keep_count = 1;
    let snaps = vec![
        snap("com.apple.TimeMachine.2024-11-03-141500", NOW.secs - 9 * 86400),
        snap("com.apple.TimeMachine.2024-11-12-141500", NOW.secs),
    ];
    let mut run = delete_stale(&cfg, true);
    let mut lines = vec![];
    let freed = loop {
        run = match run {
            SnapshotRun::FindTool(s) => s.resume(true),
            SnapshotRun::List(s) => s.resume(&snaps, NOW),
            SnapshotRun::Show(s) => {
                lines.push(s.line().to_string());
                assert_eq!(s.freed(), 0);
                s.resume()
            }
            SnapshotRun::Done(freed) => break freed,
            _ => panic!("no other step was expected"),
        };
    };
    assert_eq!(lines, strings(&["  [dry] would delete snapshot 2024-11-03 (9d old)"]));
    assert_eq!(freed, 524_288_000);
}

#[test]
fn runs_over_snapshots_end_early() {
    let mut cfg = config();
    match delete_stale(&cfg, false) {
        SnapshotRun::FindTool(s) => assert!(matches!(s.resume(false), SnapshotRun::Done(0))),
        _ => panic!("the tool is looked for first"),
    }
    match delete_stale(&cfg, false) {
        SnapshotRun::FindTool(s) => match s.resume(true) {
            SnapshotRun::AskStatus(s) => assert!(matches!(s.resume(true), SnapshotRun::Done(0))),
            _ => panic!("the status is asked for next"),
        },
        _ => panic!("the tool is looked for first"),
    }
    cfg.snapshots.skip_if_tm_running = false;
    match delete_stale(&cfg, false) {
        SnapshotRun::FindTool(s) => match s.resume(true) {
            SnapshotRun::List(s) => match s.resume(&vec![], NOW) {
                // Incomplete backups go even where no snapshot is stale.
                SnapshotRun::Backups(s) => {
                    assert_eq!(s.freed(), 0);
                    assert_eq!(s.finish(&vec![5], &vec![true]), 5);
                }
                _ => panic!("the incomplete backups follow"),
            },
            _ => panic!("the snapshots are listed next"),
        },
        _ => panic!("the tool is looked for first"),
    }
    cfg.snapshots.delete_incomplete_backups = false;
    match delete_stale(&cfg, false) {
        SnapshotRun::FindTool(s) => match s.resume(true) {
            SnapshotRun::List(s) => {
                assert!(matches!(s.resume(&vec![], NOW), SnapshotRun::Done(0)))
            }
            _ => panic!("the snapshots are listed next"),
        },
        _ => panic!("the tool is looked for first"),
    }
    cfg.snapshots.enabled = false;
    assert!(matches!(delete_stale(&cfg, false), SnapshotRun::Done(0)));
}

#[test]
fn abandoned_backups_are_found() {
    let backup = |name: &str, modified: Option<Stamp>| Backup {
        path: format!("/Volumes/B/Backups.backupdb/m/{name}"),
        name: name.to_string(),
        modified,
    };
    let found = || {
        vec![
            backup("a.inProgress", Some(days_ago(2))),
            backup("b.inprogress", Some(days_ago(1))),
            backup("c.inProgress", Some(Stamp { secs: NOW.secs - 86399, nanos: 0 })),
            backup("d", Some(days_ago(9))),
            backup("e.inProgress", None),
            backup("f.inProgress", Some(Stamp { secs: -5, nanos: 0 })),
        ]
    };
    let commands: Vec<String> = delete_incomplete_backups(found(), 24, NOW, false)
        .iter()
        .map(|s| match s {
            BackupStep::Delete(_, c) => shown(c),
            BackupStep::Show(_) => panic!("it is no dry run"),
        })
        .collect();
    assert_eq!(
        commands,
        strings(&[
            "tmutil delete /Volumes/B/Backups.backupdb/m/a.inProgress",
            "tmutil delete /Volumes/B/Backups.backupdb/m/b.inprogress",
        ])
    );
    let names: Vec<String> = delete_incomplete_backups(found(), 24, NOW, true)
        .into_iter()
        .map(|s| match s {
            BackupStep::Show(b) => b.name,
            BackupStep::Delete(..) => panic!("a dry run deletes nothing"),
        })
        .collect();
    assert_eq!(names, strings(&["a.inProgress", "b.inprogress"]));
    assert_eq!(
        backup_dry_line("a.inProgress", 2048),
        "  [dry] would delete incomplete backup a.inProgress (2 KB)"
    );
    assert_eq!(backup_bytes(&vec![5, 7, 9], &vec![true, false, true], false), 14);
    assert_eq!(backup_bytes(&vec![5, 7, 9], &vec![true, false, true], true), 21);
}

#[test]
fn backups_are_kept_on_real_volumes() {
    let volume = |path: &str, is_dir: bool, is_symlink: bool, has_store: bool| Volume {
        path: path.to_string(),
        is_dir,
        is_symlink,
        has_store,
    };
    let volumes = vec![
        volume("/Volumes/A", true, false, true),
        volume("/Volumes/B", true, true, true),
        volume("/Volumes/C", false, false, true),
        volume("/Volumes/D", true, false, false),
    ];
    assert_eq!(backup_stores(&volumes), strings(&["/Volumes/A/Backups.backupdb"]));
    assert_eq!(backup_store("/Volumes/E"), "/Volumes/E/Backups.backupdb");
    assert_eq!(
        shown(&delete_snapshot("com.apple.TimeMachine.2024-11-03-141500")),
        "tmutil deletelocalsnapshots 2024-11-03-141500"
    );
    assert_eq!(shown(&delete_snapshot("nodot")), "tmutil deletelocalsnapshots nodot");
}

// ── system junk ──────────────────────────────────────────────────────────────

#[test]
fn junk_is_swept_below_home_caches_and_volumes() {
    let cfg = config();
    let home = Some(HOME.to_string());
    assert_eq!(
        clean_ds_store(&cfg, &home),
        strings(&["/Users/u", "/Users/u/Library/Caches", "/Volumes"])
    );
    assert_eq!(
        clean_apple_double(&cfg, &home),
        strings(&["/Users/u", "/Users/u/Library/Caches"])
    );
    assert_eq!(clean_apple_double(&cfg, &None), strings(&["/", "Library/Caches"]));
    assert_eq!(home_dir(&None), "/");
    let p = |s: &str| s.to_string();
    assert!(!keeps_all_but_ds_store(&p("/a/.DS_Store")));
    assert!(keeps_all_but_ds_store(&p("/a/x.DS_Store")));
    assert!(!keeps_all_but_apple_double(&p("/a/._x")));
    assert!(keeps_all_but_apple_double(&p("/a/x._")));
}

#[test]
fn sweeps_by_age_follow_the_configuration() {
    let mut cfg = config();
    cfg.categories.system.targets.push(SystemTarget {
        name: "Pipeline".to_string(),
        path: Some("/private/var/log/x".to_string()),
        pattern: None,
        ext: None,
        recursive: None,
        max_age_days: Some(2),
    });
    cfg.categories.system.targets.push(SystemTarget {
        name: "Pattern".to_string(),
        path: None,
        pattern: Some("**/.DS_Store".to_string()),
        ext: None,
        recursive: None,
        max_age_days: Some(u64::MAX),
    });
    assert!(ages_in_range(&cfg));
    let crash = clean_crash_logs(&cfg, HOME);
    assert_eq!(crash.len(), 2);
    assert_eq!(crash[0].dir, "/Users/u/Library/Logs/DiagnosticReports");
    assert_eq!(crash[0].max_age, 30 * 86400);
    assert_eq!(crash[0].exts, Some(strings(&["crash", "spin", "hang", "ips", "diag"])));
    assert!(!crash[0].recursive);
    assert_eq!(crash[1].dir, "/private/var/log/x");
    assert_eq!(crash[1].max_age, 2 * 86400);
    assert_eq!(crash[1].exts, None);
    assert!(crash[1].recursive);
    let tmp = clean_tmp(&cfg, HOME);
    assert_eq!(tmp[0].dir, "/private/tmp");
    assert_eq!(tmp[0].max_age, 24 * 3600);
    assert!(!tmp[0].recursive && tmp[0].exts.is_none());
    let logs = clean_system_logs(&cfg, HOME);
    assert_eq!(logs[0].exts, Some(strings(&["log", "gz", "asl", "tracev3"])));
    assert!(logs[0].recursive);
    cfg.categories.system.targets[1].path = Some("/x".to_string());
    assert!(!ages_in_range(&cfg));
}

#[test]
fn the_index_is_rebuilt_by_the_superuser_only() {
    assert!(reindex_spotlight(false).is_empty());
    assert_eq!(
        script(&reindex_spotlight(true)),
        strings(&["mdutil -i off /", "delete-tree /.Spotlight-V100", "mdutil -i on /"])
    );
}

// ── optimizer ────────────────────────────────────────────────────────────────

#[test]
fn network_passes() {
    let mut cfg = config();
    assert_eq!(
        script(&flush_dns(&cfg)),
        strings(&[
            "killall -HUP mDNSResponder",
            "dscacheutil -flushcache",
            "killall -INFO mDNSResponder",
            "dns-sd -V",
        ])
    );
    assert_eq!(
        script(&reset_stack(&cfg, true)),
        strings(&["arp -ad", "route -n flush", "nettop -P -L 0"])
    );
    assert_eq!(script(&reset_stack(&cfg, false)), strings(&["nettop -P -L 0"]));
    cfg.optimizer.flush_dns = false;
    assert!(flush_dns(&cfg).is_empty() && reset_stack(&cfg, true).is_empty());
}

#[test]
fn interface_passes() {
    let mut cfg = config();
    let all = script(&apply_ui(&cfg, false, HOME));
    assert_eq!(all[0], "killall -9 qlmanage");
    assert_eq!(
        all[2],
        "remove /Users/u/Library/Caches/com.apple.QuickLook.ThumbnailsAgent"
    );
    assert_eq!(all[3], "qlmanage -r");
    assert_eq!(script(&apply_ui(&cfg, true, HOME))[3], "qlmanage -r cache");
    assert!(all.contains(
        &"defaults write com.apple.dock autohide-time-modifier -float 0.2".to_string()
    ));
    assert_eq!(all.last().unwrap(), "killall Finder");
    assert_eq!(all.len(), 4 + 2 + 7 + 11);
    cfg.optimizer.font_cache_rebuild = true;
    assert_eq!(apply_ui(&cfg, false, HOME).len(), 4 + 3 + 2 + 7 + 11);
    cfg.optimizer.enabled = false;
    assert!(apply_ui(&cfg, true, HOME).is_empty());
}

#[test]
fn system_passes_follow_their_switches() {
    let mut cfg = config();
    let all = apply_system(&cfg, true);
    assert_eq!(all.len(), 12);
    assert_eq!(all[0], SystemPass::LaunchServices);
    assert_eq!(all[10], SystemPass::PurgeMemory);
    assert!(!apply_system(&cfg, false).contains(&SystemPass::PurgeMemory));
    cfg.optimizer.sqlite_vacuum = false;
    assert!(!apply_system(&cfg, true).contains(&SystemPass::Databases));
    cfg.optimizer.enabled = false;
    assert!(apply_system(&cfg, true).is_empty());
}

#[test]
fn tweaks_of_the_system() {
    assert_eq!(script(&tweak_actions(SystemPass::MotionSensor)), strings(&["pmset -a sms 0"]));
    assert_eq!(
        script(&tweak_actions(SystemPass::FileLimit)),
        strings(&["launchctl limit maxfiles 524288 524288"])
    );
    assert_eq!(
        script(&tweak_actions(SystemPass::Periodic)),
        strings(&["periodic daily", "periodic weekly", "periodic monthly"])
    );
    assert_eq!(script(&tweak_actions(SystemPass::PurgeMemory)), strings(&["purge"]));
    assert_eq!(
        script(&tweak_actions(SystemPass::ReopenWindows)),
        strings(&[
            "defaults write com.apple.loginwindow TALLogoutSavesState -bool false",
            "defaults write NSGlobalDomain NSQuitAlwaysKeepsWindows -bool false",
        ])
    );
    assert!(tweak_actions(SystemPass::CoreDuet).is_empty());
}

#[test]
fn the_registry_of_apps() {
    let places = lsregister_candidates();
    assert_eq!(places.len(), 2);
    assert_eq!(find_lsregister(&vec![false, true]), Some(places[1].clone()));
    assert_eq!(find_lsregister(&vec![true, true]), Some(places[0].clone()));
    assert_eq!(find_lsregister(&vec![false, false]), None);
    assert_eq!(
        script(&rebuild_launch_services(&Some("/ls".to_string()))),
        strings(&["/ls -kill -r -domain local -domain system -domain user"])
    );
    assert!(rebuild_launch_services(&None).is_empty());
}

#[test]
fn databases_are_vacuumed_only_when_eligible() {
    assert_eq!(
        vacuum_roots(HOME),
        strings(&["/Users/u/Library/Application Support", "/Users/u/Library/Messages"])
    );
    assert!(vacuum_roots("/System/x").is_empty());
    let v = vacuum_if_eligible("/Users/u/a.db", 1).unwrap();
    assert_eq!(v.probe().args, strings(&["/Users/u/a.db", "BEGIN EXCLUSIVE; ROLLBACK;"]));
    assert_eq!(v.resume(true).unwrap().args, strings(&["/Users/u/a.db", "VACUUM;"]));
    assert!(vacuum_if_eligible("/Users/u/a.db", 1).unwrap().resume(false).is_none());
    assert!(vacuum_if_eligible("/Users/u/a.sqlite3", 524_287_999).is_some());
    assert!(vacuum_if_eligible("/Users/u/a.sqlite", 524_288_000).is_none());
    assert!(vacuum_if_eligible("/Users/u/a.db", 0).is_none());
    assert!(vacuum_if_eligible("/Users/u/a.txt", 5).is_none());
    assert!(vacuum_if_eligible("/Users/u/com.apple.bird/a.db", 5).is_none());
    let entries = vec![
        DatabaseEntry { path: "/a.db".to_string(), inside: None },
        DatabaseEntry { path: "/d".to_string(), inside: Some(strings(&["/d/x.db", "/d/y.db"])) },
        DatabaseEntry { path: "/e".to_string(), inside: Some(vec![]) },
    ];
    assert_eq!(vacuum_sqlite_dbs(entries), strings(&["/a.db", "/d/x.db", "/d/y.db"]));
    assert_eq!(system_databases(HOME), vec![quarantine_db(HOME)]);
}

#[test]
fn quarantine_events_are_pruned_in_the_time_of_the_database() {
    let c = cleanup_quarantine_db("/q.db", 30, NOW);
    let cutoff = 1_700_000_000 - 30 * 86400 - 978_307_200;
    assert_eq!(
        c.args,
        vec![
            "/q.db".to_string(),
            format!("DELETE FROM LSQuarantineEvent WHERE LSQuarantineTimeStamp < {cutoff};"),
        ]
    );
    let early = cleanup_quarantine_db("/q.db", 99_999, NOW);
    assert!(early.args[1].ends_with("< 0;"));
}

#[test]
fn saved_state_goes_with_its_app_or_by_age() {
    let w = config().whitelist;
    assert_eq!(saved_state_dir(HOME), "/Users/u/Library/Saved Application State");
    let at = |name: &str| format!("{}/{name}", saved_state_dir(HOME));
    assert_eq!(
        saved_state_bundle(&at("com.x.savedState"), &w),
        Some("com.x".to_string())
    );
    assert_eq!(
        saved_state_bundle(&at("com.x.savedState.savedState"), &w),
        Some("com.x".to_string())
    );
    assert_eq!(saved_state_bundle(&at("com.white.savedState"), &w), None);
    assert_eq!(saved_state_bundle(&at("com.apple.dock.savedState"), &w), None);
    assert_eq!(saved_state_bundle(&at("com.x.plist"), &w), None);
    assert!(saved_state_goes(false, &None, NOW, 30));
    assert!(saved_state_goes(true, &Some(days_ago(31)), NOW, 30));
    assert!(!saved_state_goes(true, &Some(days_ago(30)), NOW, 30));
    assert!(!saved_state_goes(true, &None, NOW, 30));
    let x = at("com.x.savedState");
    assert_eq!(
        script(&cleanup_saved_states(&x, &w, false, &None, NOW, 30)),
        vec![format!("delete-tree {x}")]
    );
    assert!(cleanup_saved_states(&x, &w, true, &Some(days_ago(30)), NOW, 30).is_empty());
    let white = at("com.white.savedState");
    assert!(cleanup_saved_states(&white, &w, false, &None, NOW, 30).is_empty());
    assert_eq!(
        mdfind_command("com.x").args,
        strings(&["kMDItemCFBundleIdentifier == 'com.x'"])
    );
    assert!(app_is_installed(&Some("/Applications/X.app\n".to_string())));
    assert!(!app_is_installed(&Some(" \n".to_string())));
    assert!(app_is_installed(&None));
}

#[test]
fn notification_preferences_of_gone_apps_are_pruned() {
    let ids = strings(&["com.a", "com.b"]);
    assert_eq!(
        script(&cleanup_nc_prefs(&ids, &vec![true, false])),
        strings(&[
            "defaults delete com.apple.notificationcenterui.com.b",
            "killall -HUP NotificationCenter",
        ])
    );
    assert!(cleanup_nc_prefs(&ids, &vec![true, true]).is_empty());
}

#[test]
fn knowledge_of_use_is_cleared() {
    assert!(cleanup_coreduet(HOME, false).is_empty());
    let dir = knowledge_dir(HOME);
    assert_eq!(
        script(&cleanup_coreduet(HOME, true)),
        vec![
            "launchctl kill SIGTERM user/501/com.apple.coreduetd".to_string(),
            "pause 500".to_string(),
            format!("delete {dir}/knowledgeC.db"),
            format!("delete {dir}/knowledgeC.db-shm"),
            format!("delete {dir}/knowledgeC.db-wal"),
            "launchctl kickstart -k user/501/com.apple.coreduetd".to_string(),
        ]
    );
}

// ── launch agents ────────────────────────────────────────────────────────────

#[test]
fn what_an_agent_starts() {
    assert_eq!(agent_dir(HOME), "/Users/u/Library/LaunchAgents");
    assert_eq!(agent_label("/x/com.a.b.plist"), Some("com.a.b".to_string()));
    assert_eq!(agent_label("/x/com.a.b"), None);
    assert_eq!(ask_arguments("/p").args[1], "Print :ProgramArguments:0");
    assert_eq!(ask_program("/p").args[1], "Print :Program");
    let s = |x: &str| Some(x.to_string());
    assert!(matches!(plist_get_binary(&s(" /bin/x\n"), &None), Binary::Known(p) if p == "/bin/x"));
    assert!(matches!(plist_get_binary(&s(""), &None), Binary::AskProgram));
    assert!(matches!(plist_get_binary(&None, &None), Binary::Unknown));
    assert!(matches!(plist_get_binary(&s(""), &Some(s("/y"))), Binary::Known(p) if p == "/y"));
    assert!(matches!(plist_get_binary(&s(""), &Some(s(" "))), Binary::Unknown));
    assert!(matches!(plist_get_binary(&s(""), &Some(None)), Binary::Unknown));
}

#[test]
fn only_broken_agents_go() {
    let p = "/Users/u/Library/LaunchAgents/com.x.plist";
    let gone = Binary::Known("/gone".to_string());
    assert_eq!(
        script(&remove_broken_launch_agent(p, &gone, false)),
        vec![format!("launchctl unload {p}"), format!("delete {p}")]
    );
    assert!(remove_broken_launch_agent(p, &gone, true).is_empty());
    assert!(remove_broken_launch_agent(p, &Binary::Unknown, false).is_empty());
    let own = "/Users/u/Library/LaunchAgents/com.apple.x.plist";
    assert!(!is_foreign_agent(own) && is_foreign_agent(p));
    assert!(remove_broken_launch_agent(own, &gone, false).is_empty());
    let blocked = "/Users/u/Library/LaunchAgents/org.cups.x.plist";
    assert!(remove_broken_launch_agent(blocked, &gone, false).is_empty());
}

// ── notifications ────────────────────────────────────────────────────────────

#[test]
fn registered_apps_are_sorted_and_unique() {
    let long = "x.".repeat(64);
    let export = format!(
        "<plist>\n  <string>com.b</string>\n<key>com.k</key>\n\t<string>com.a</string>\n<string>com.b</string>\n<string>/a.b</string>\n<string>plain</string>\n<string>{long}</string>"
    );
    assert_eq!(registered_nc_apps(&export), strings(&["com.a", "com.b"]));
    assert_eq!(listed_ids(&export).len(), 4);
    assert_eq!(
        export_command(HOME).args,
        strings(&["export", "/Users/u/Library/Preferences/com.apple.ncprefs.plist", "-"])
    );
}

#[test]
fn notifications_are_restricted_by_what_an_app_is() {
    let mut cfg = config();
    let ids = strings(&["com.apple.dock", "com.mail", "com.plain", "com.rogue", "com.white"]);
    let plan = script(&restrict(&cfg, &ids));
    assert_eq!(
        plan,
        strings(&[
            "defaults write com.apple.notificationcenterui.com.plain alert-style banner",
            "defaults write com.apple.notificationcenterui.com.plain badge-enabled 0",
            "defaults write com.apple.notificationcenterui.com.plain sound-enabled 0",
            "defaults write com.apple.notificationcenterui.com.plain critical-alert-enabled 0",
            "defaults write com.apple.notificationcenterui.com.rogue alert-style none",
            "defaults write com.apple.notificationcenterui.com.rogue badge-enabled 0",
            "defaults write com.apple.notificationcenterui.com.rogue sound-enabled 0",
            "killall -HUP NotificationCenter",
        ])
    );
    assert_eq!(restrict(&cfg, &vec![]).len(), 1);
    // An app that the user has configured is not touched, whatever the override says.
    for bid in ["com.plain", "com.rogue"] {
        let rule = AppOverride { allow_notifications: false, allow_background: false };
        cfg.silence.per_app_overrides.insert(bid.to_string(), rule);
    }
    assert_eq!(script(&restrict(&cfg, &ids)), strings(&["killall -HUP NotificationCenter"]));
    cfg.silence.block_notifications = false;
    assert!(restrict(&cfg, &ids).is_empty());
}

// ── background agents ────────────────────────────────────────────────────────

#[test]
fn background_agents_are_switched_off() {
    let mut cfg = config();
    let files = strings(&[
        "/d/com.apple.x.plist",
        "/d/com.x.agent.plist",
        "/d/com.white.agent.plist",
        "/d/com.mail.agent.plist",
        "/d/readme.txt",
    ]);
    assert_eq!(
        script(&block_agents(&cfg, &files, 501)),
        strings(&["launchctl disable gui/501/com.x.agent"])
    );
    cfg.silence.block_background_agents = false;
    assert!(block_agents(&cfg, &files, 501).is_empty());
}

#[test]
fn apps_quit_with_their_last_window() {
    let mut cfg = config();
    let bids = vec![
        Some("com.x".to_string()),
        None,
        Some("com.apple.finder".to_string()),
        Some("com.white".to_string()),
    ];
    assert_eq!(
        script(&force_quit_on_close(&cfg, &bids)),
        strings(&[
            "defaults write NSGlobalDomain NSQuitAlwaysKeepsWindows -bool false",
            "defaults write com.apple.loginwindow TALLogoutSavesState -bool false",
            "defaults write com.x NSQuitAlwaysKeepsWindows -bool false",
            "defaults write com.apple.dock static-only -bool false",
            "defaults write com.apple.dock show-recents -bool false",
            "killall Dock",
        ])
    );
    cfg.optimizer.disable_reopen_windows = false;
    assert_eq!(force_quit_on_close(&cfg, &bids).len(), 5);
    cfg.silence.force_quit_on_window_close = false;
    assert!(force_quit_on_close(&cfg, &bids).is_empty());
}

// ── unwanted processes ───────────────────────────────────────────────────────

#[test]
fn whitelisted_processes_are_spared_in_any_case() {
    let w = config().whitelist;
    assert!(is_whitelisted("Finder", &w));
    assert!(is_whitelisted("FINDER", &w));
    assert!(!is_whitelisted("Find", &w));
    let accents = Whitelist { apps: strings(&["ÉCLAIR"]), bundle_ids: vec![], paths: vec![] };
    assert!(is_whitelisted("éclair", &accents));
    assert!(is_listed("X", "x", &strings(&["Y"]), &strings(&["x"])));
    assert!(is_listed("X", "q", &strings(&["X"]), &strings(&["z"])));
    assert!(!is_listed("X", "q", &strings(&["x"]), &strings(&["X"])));
}

#[test]
fn targets_are_the_unwanted_or_the_one_asked_for() {
    let mut cfg = config();
    assert_eq!(crush_rogue(&cfg, &None), strings(&["Rogue Helper", "Other"]));
    assert_eq!(crush_rogue(&cfg, &Some("Any".to_string())), strings(&["Any"]));
    assert!(crush_rogue(&cfg, &Some("finder".to_string())).is_empty());
    assert!(crush_rogue(&cfg, &Some("com.apple.dock".to_string())).is_empty());
    assert!(broken_agents_follow(&cfg));
    cfg.process_killer.enabled = false;
    assert!(crush_rogue(&cfg, &None).is_empty());
    assert!(!broken_agents_follow(&cfg));
}

#[test]
fn lines_about_processes() {
    assert_eq!(show_crushed("X", true), "  ✓  crushed: X");
    assert_eq!(
        show_crushed("X", false),
        "  ✗  could not kill: X — try: sudo kill -9 $(pgrep -x \"X\")"
    );
    assert_eq!(shown(&pgrep_exact("X")), "pgrep -x X");
    assert_eq!(get_pid("123\n456\n"), Some(123));
    assert_eq!(get_pid(""), None);
    assert_eq!(get_pid("x\n1"), None);
    assert_eq!(get_pid("4294967296"), None);
}

fn unguarded(stage: Kill) -> Kill {
    match stage {
        Kill::Guard(s) => s.resume(&vec![]),
        _ => panic!("it is guarded first"),
    }
}

#[test]
fn processes_with_files_of_the_user_are_not_ended() {
    let finding = |signed: bool, user_files: bool| Finding { signed, user_files };
    let begin = |found: Vec<Finding>| {
        match kill_process("X", &config().process_killer, 501, true) {
            Kill::Guard(s) => s.resume(&found),
            _ => panic!("it is guarded first"),
        }
    };
    assert!(matches!(begin(vec![finding(true, true)]), Kill::Over(false)));
    assert!(matches!(begin(vec![finding(false, true), finding(true, true)]), Kill::Over(false)));
    assert!(matches!(begin(vec![finding(true, false), finding(false, true)]), Kill::Ask(_)));
    assert!(matches!(begin(vec![]), Kill::Ask(_)));
    assert!(some_risk_data(&vec![finding(true, true)]));
    assert!(!some_risk_data(&vec![finding(false, false)]));
}

#[test]
fn open_files_and_bundles_of_processes() {
    assert_eq!(all_pids("12\n 34 \nx\n56"), vec![12, 34, 56]);
    assert!(all_pids("").is_empty());
    assert_eq!(shown(&ask_executable(7)), "ps -o comm= -p 7");
    assert_eq!(shown(&ask_open_files(7)), "lsof -Fn -p 7");
    assert_eq!(
        bundle_of("/Applications/A.app/Contents/MacOS/A\n"),
        Some("/Applications/A.app".to_string())
    );
    assert_eq!(
        bundle_of("/Applications/A.app/Contents/B.app/Contents/MacOS/B"),
        Some("/Applications/A.app/Contents/B.app".to_string())
    );
    assert_eq!(bundle_of("/usr/local/bin/tool"), None);
    let reply = |s: &str| Some(s.to_string());
    assert!(has_user_files(&reply("p7\nn/dev/null\nn/Users/u/Documents/a.txt\n"), HOME));
    assert!(has_user_files(&reply("n/Users/u/Desktop/b"), HOME));
    assert!(!has_user_files(&reply("p7\nn/Users/u/Library/Caches/c\nn/tmp/x"), HOME));
    assert!(!has_user_files(&reply("n/Users/u/Documents2/a"), HOME));
    assert!(!has_user_files(&reply(""), HOME));
    assert!(!has_user_files(&None, HOME));
}

#[test]
fn ended_processes_are_counted() {
    let cfg = config().process_killer;
    assert!(crush("X", false, &cfg, 501, true).is_none());
    assert!(matches!(crush("X", true, &cfg, 501, true), Some(Kill::Guard(_))));
    assert_eq!(count_ended(&vec![true, false, true], &vec![false, true]), 3);
    assert_eq!(count_ended(&vec![], &vec![]), 0);
    assert_eq!(count_ended(&vec![false], &vec![false]), 0);
}

#[test]
fn processes_are_asked_before_they_are_forced() {
    let cfg = config();
    match unguarded(kill_process("X", &cfg.process_killer, 501, true)) {
        Kill::Ask(s) => {
            assert_eq!(script(&s.plan()), strings(&["pkill -x X", "wait 3"]));
            assert!(matches!(s.resume(false), Kill::Over(true)));
        }
        _ => panic!("it is asked first"),
    }
    let mut log = vec![];
    let mut stage = unguarded(kill_process("X", &cfg.process_killer, 501, true));
    let gone = loop {
        stage = match stage {
            Kill::Guard(_) => panic!("it is guarded once"),
            Kill::Ask(s) => {
                log.extend(script(&s.plan()));
                s.resume(true)
            }
            Kill::Force(s) => {
                log.extend(script(&s.plan()));
                s.resume()
            }
            Kill::Evict(s) => {
                log.extend(script(&s.plan(&Some("77\n".to_string()))));
                s.resume()
            }
            Kill::Check(s) => s.resume(true),
            Kill::Insist(s) => {
                log.extend(script(&s.plan()));
                s.resume()
            }
            Kill::Confirm(s) => s.resume(false),
            Kill::Over(gone) => break gone,
        };
    };
    assert!(gone);
    assert_eq!(
        log,
        strings(&[
            "pkill -x X",
            "wait 3",
            "pkill -9 -x X",
            "wait 5",
            "launchctl bootout gui/501/77",
            "pkill -9 -x X",
            "wait 1",
        ])
    );
}

#[test]
fn eviction_and_insistence_are_optional() {
    let mut cfg = config();
    cfg.process_killer.use_launchctl_bootout = false;
    let mut stage = unguarded(kill_process("X", &cfg.process_killer, 501, false));
    let gone = loop {
        stage = match stage {
            Kill::Ask(s) => s.resume(true),
            Kill::Force(s) => s.resume(),
            Kill::Check(s) => s.resume(true),
            Kill::Confirm(s) => s.resume(true),
            Kill::Over(gone) => break gone,
            _ => panic!("neither eviction nor insistence was expected"),
        };
    };
    assert!(!gone);
    match unguarded(kill_process("X", &config().process_killer, 501, false)) {
        Kill::Ask(s) => match s.resume(true) {
            Kill::Force(s) => match s.resume() {
                Kill::Evict(s) => {
                    assert!(s.plan(&None).is_empty());
                    assert!(s.plan(&Some("".to_string())).is_empty());
                }
                _ => panic!("an eviction was expected"),
            },
            _ => panic!("force was expected"),
        },
        _ => panic!("it is asked first"),
    }
}

#[test]
fn broken_agents_are_ended() {
    let w = config().whitelist;
    let p = "/Users/u/Library/LaunchAgents/com.x.plist";
    let gone = Binary::Known("/gone".to_string());
    let a = kill_broken_agents(p, &w, &gone, false).unwrap();
    assert_eq!(shown(&a.unload()), format!("launchctl unload {p}"));
    assert_eq!(a.name(), "com.x");
    match a.resume(true, &vec![]) {
        AgentEnd::Kill(s) => {
            assert_eq!(shown(&s.kill()), "pkill -9 -x com.x");
            assert_eq!(s.name(), "com.x");
            let ended = s.resume(false);
            assert!(ended.killed());
            assert_eq!(ended.file(), p);
        }
        AgentEnd::Delete(_) => panic!("a running process is ended first"),
    }
    let holds_data = vec![Finding { signed: true, user_files: true }];
    match kill_broken_agents(p, &w, &gone, false).unwrap().resume(true, &holds_data) {
        AgentEnd::Kill(_) => panic!("a process with files of the user is not ended"),
        AgentEnd::Delete(s) => assert!(!s.killed()),
    }
    match kill_broken_agents(p, &w, &gone, false).unwrap().resume(false, &vec![]) {
        AgentEnd::Kill(_) => panic!("there is no process to be ended"),
        AgentEnd::Delete(s) => {
            assert!(!s.killed());
            assert_eq!(s.file(), p);
        }
    }
    assert!(kill_broken_agents(p, &w, &gone, true).is_none());
    assert!(kill_broken_agents(p, &w, &Binary::Unknown, false).is_none());
    assert_eq!(agent_to_look_at("/d/FINDER.plist", &w), None);
    assert_eq!(agent_to_look_at("/d/com.apple.x.plist", &w), None);
    assert_eq!(agent_to_look_at("/d/com.x.plist", &w), Some("com.x".to_string()));
}

// ── daemon ───────────────────────────────────────────────────────────────────

#[test]
fn passes_of_the_daemon() {
    let mut cfg = config();
    let boot = run_boot_clean(&cfg);
    assert_eq!(boot.len(), 11);
    assert_eq!(boot[0], Pass::DsStore);
    assert_eq!(boot[10], Pass::Dns);
    cfg.schedule.boot_clean = false;
    assert!(run_boot_clean(&cfg).is_empty());
    assert_eq!(run_cache_pass(), vec![Pass::DevCaches, Pass::UnusedCaches]);
    assert_eq!(run_app_pass(), vec![Pass::RogueApps, Pass::RogueProcesses]);
    assert_eq!(run_snapshot_pass(), vec![Pass::Snapshots]);
}

#[test]
fn timers_of_the_daemon() {
    let s = config().schedule;
    assert!(intervals_in_range(&s));
    assert_eq!(intervals(&s), (86400, 7 * 86400, 3 * 86400));
    let start = Timers::start();
    assert_eq!(start.due(&s, NOW), Due { cache: true, app: true, snapshot: true });
    let old = Timers {
        cache: Some(NOW.back(86400)),
        app: Some(NOW.back(7 * 86400 - 1)),
        snapshot: Some(NOW.back(3 * 86400)),
    };
    assert_eq!(old.due(&s, NOW), Due { cache: true, app: false, snapshot: true });
    let mut t = start;
    t.cache_ran(NOW);
    assert_eq!(t.due(&s, NOW), Due { cache: false, app: true, snapshot: true });
    t.app_ran(NOW);
    t.snapshot_ran(NOW);
    let later = Stamp { secs: NOW.secs + 86400, nanos: 0 };
    assert_eq!(t.due(&s, later), Due { cache: true, app: false, snapshot: false });
    let huge = Schedule {
        boot_clean: false,
        cache_sweep_interval_hours: u64::MAX,
        app_audit_interval_days: 1,
        snapshot_audit_interval_days: 1,
    };
    assert!(!intervals_in_range(&huge));
}

#[test]
fn a_round_of_the_daemon() {
    let s = config().schedule;
    let mut d = Daemon::new(Timers::start());
    assert_eq!(d.run(&s, true, NOW), Order::ReadConfig);
    assert_eq!(d.run(&s, true, NOW), Order::SweepCaches);
    let after = Stamp { secs: NOW.secs + 10, nanos: 0 };
    assert_eq!(d.run(&s, true, after), Order::AuditApps);
    assert_eq!(d.timers.cache, Some(after));
    assert_eq!(d.run(&s, true, after), Order::AuditSnapshots);
    for _ in 0..60 {
        assert_eq!(d.run(&s, true, after), Order::Sleep);
    }
    assert_eq!(d.run(&s, true, after), Order::ReadConfig);
    assert_eq!(d.run(&s, true, after), Order::Sleep);
    assert_eq!(d.run(&s, false, after), Order::Stop);
    assert_eq!(d.run(&s, false, after), Order::Stop);
}

#[test]
fn installing_the_daemon() {
    let i = install("/cfg.json", "/usr/local/bin/hush", HOME);
    assert_eq!(i.dir, "/Users/u/Library/LaunchAgents");
    assert_eq!(i.plist_path, "/Users/u/Library/LaunchAgents/com.hush.daemon.plist");
    assert_eq!(plist_path(HOME), i.plist_path);
    assert_eq!(
        i.plist,
        r#"<?xml version="1.0" encoding="UTF-8"?>
<!DOCTYPE plist PUBLIC "-//Apple//DTD PLIST 1.0//EN"
  "http://www.apple.com/DTDs/PropertyList-1.0.dtd">
<plist version="1.0">
<dict>
    <key>Label</key>
    <string>com.hush.daemon</string>

    <key>ProgramArguments</key>
    <array>
        <string>/usr/local/bin/hush</string>
        <string>--config</string>
        <string>/cfg.json</string>
        <string>daemon</string>
        <string>--foreground</string>
    </array>

    <!-- Start immediately and stay alive -->
    <key>RunAtLoad</key>
    <true/>
    <key>KeepAlive</key>
    <true/>

    <!-- Throttle rapid respawn (e.g. config error) -->
    <key>ThrottleInterval</key>
    <integer>30</integer>

    <!-- Low I/O priority — never competes with user work -->
    <key>LowPriorityIO</key>
    <true/>
    <key>Nice</key>
    <integer>5</integer>

    <key>StandardOutPath</key>
    <string>/Users/u/Library/Logs/hush.log</string>
    <key>StandardErrorPath</key>
    <string>/Users/u/Library/Logs/hush.log</string>

    <key>EnvironmentVariables</key>
    <dict>
        <key>RUST_LOG</key>
        <string>warn</string>
    </dict>
</dict>
</plist>"#
    );
    assert_eq!(
        i.rotation,
        "# hush log rotation — managed by `hush install`\n/Users/u/Library/Logs/hush.log  644  4  *  $W0D0  JN\n"
    );
    assert_eq!(i.rotation_path, format!("{}/hush.conf", i.rotation_dir));
    assert_eq!(shown(&i.load), format!("launchctl load -w {}", i.plist_path));
    assert_eq!(i.lines.len(), 5);
    assert_eq!(i.lines[3], "   to start now: launchctl start com.hush.daemon");
    let u = uninstall(HOME);
    assert_eq!(shown(&u.unload), format!("launchctl unload -w {}", i.plist_path));
    assert_eq!(u.plist_path, i.plist_path);
    assert_eq!(u.rotation_path, i.rotation_path);
    assert_eq!(uninstall_line(true), "✓  LaunchAgent removed");
    assert_eq!(uninstall_line(false), "  nothing to uninstall (LaunchAgent not found)");
    assert_eq!(shown(&status_command()), "launchctl list com.hush.daemon");
}

// ── commands ─────────────────────────────────────────────────────────────────

fn clean_opts() -> CleanOpts {
    CleanOpts {
        all: false,
        system: false,
        cache: false,
        projects: false,
        apps: false,
        snapshots: false,
        uninstall: false,
        dry_run: false,
    }
}

#[test]
fn cleaning_nothing_in_particular_cleans_all() {
    let none = clean_opts();
    let all = CleanOpts { all: true, ..none };
    assert_eq!(clean_passes(&none), clean_passes(&all));
    assert_eq!(clean_passes(&none).len(), 10);
    let with = CleanOpts { uninstall: true, ..none };
    assert_eq!(clean_passes(&with).len(), 11);
    assert_eq!(clean_passes(&with)[9], Pass::StaleApps);
}

#[test]
fn a_selection_restricts_cleaning() {
    let system = CleanOpts { system: true, uninstall: true, ..clean_opts() };
    assert_eq!(
        clean_passes(&system),
        vec![Pass::DsStore, Pass::AppleDouble, Pass::CrashLogs, Pass::Tmp, Pass::SystemLogs]
    );
    let two = CleanOpts { cache: true, snapshots: true, ..clean_opts() };
    assert_eq!(clean_passes(&two), vec![Pass::DevCaches, Pass::Snapshots]);
    let apps = CleanOpts { apps: true, ..clean_opts() };
    assert_eq!(clean_passes(&apps), vec![Pass::RogueApps, Pass::UnusedCaches]);
    let projects = CleanOpts { projects: true, ..clean_opts() };
    assert_eq!(clean_passes(&projects), vec![Pass::ProjectArtifacts]);
}

#[test]
fn silencing_and_optimizing() {
    let s = SilenceOpts { all: false, notifications: false, background: false, dock: false };
    assert_eq!(
        silence_passes(&s),
        vec![Pass::Notifications, Pass::Agents, Pass::QuitOnClose]
    );
    assert_eq!(silence_passes(&SilenceOpts { dock: true, ..s }), vec![Pass::QuitOnClose]);
    let o = OptimizeOpts { all: false, network: false, system: false, ui: false };
    assert_eq!(
        optimize_passes(&o),
        vec![Pass::Dns, Pass::NetworkStack, Pass::SystemTuning, Pass::Interface]
    );
    assert_eq!(optimize_passes(&OptimizeOpts { ui: true, ..o }), vec![Pass::Interface]);
}

#[test]
fn reports_of_commands() {
    assert_eq!(clean_report(2048, false), "✓  freed 2 KB");
    assert_eq!(clean_report(2048, true), "✓  [dry-run] would free 2 KB");
    assert_eq!(snapshot_report(0, false), "✓  snapshots — freed 0 B");
    assert_eq!(snapshot_report(0, true), "✓  snapshots — [dry-run] would free 0 B");
    assert_eq!(crush_report(0), "✓  no rogue processes found");
    assert_eq!(crush_report(3), "✓  crushed 3 process(es)");
    assert_eq!(
        default_cfg_path(HOME),
        "/Users/u/Library/Application Support/hush/config.json"
    );
    assert_eq!(
        status_report(true, "/c.json", HOME, &Some(2048), false),
        strings(&[
            "daemon       : running ✓",
            "config       : /c.json",
            "log          : /Users/u/Library/Logs/hush.log (2 KB)",
            "launchagent  : not installed",
        ])
    );
    let off = status_report(false, "/c.json", HOME, &None, true);
    assert_eq!(off[0], "daemon       : stopped");
    assert_eq!(off[2], "log          : not yet created");
    assert_eq!(off[3], "launchagent  : installed");
}
