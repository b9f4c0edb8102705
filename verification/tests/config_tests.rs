// Loading, migrating and validating the configuration.

use hush::clock::Stamp;
use hush::comments::strip_json_comments;
use hush::config::{
    changed, AppOverride, Categories, Config, ConfigError, DevCacheCategory, DevCacheEntry,
    LogsCategory, Optimizer, Overrides, Paths, ProcessKiller, ProjectArtifactsCategory,
    ProjectType, RogueList, Schedule, Silence, Snapshots, SystemCategory, SystemTarget,
    Thresholds, Whitelist, SCHEMA_VERSION,
};
use hush::json::{parse, Json};
use hush::migrate::{bring_up, file_version, migrate};

// ── decoding ─────────────────────────────────────────────────────────────────

fn field<'a>(v: &'a Json, key: &str) -> Result<&'a Json, String> {
    v.get(key).ok_or(format!("missing field `{key}`"))
}

fn number(v: &Json, key: &str) -> Result<u64, String> {
    field(v, key)?.as_u64().ok_or(format!("{key} is no number"))
}

fn flag(v: &Json, key: &str) -> Result<bool, String> {
    match field(v, key)? {
        Json::Bool(b) => Ok(*b),
        _ => Err(format!("{key} is no boolean")),
    }
}

fn word(v: &Json, key: &str) -> Result<String, String> {
    match field(v, key)? {
        Json::Text(s) => Ok(s.clone()),
        _ => Err(format!("{key} is no string")),
    }
}

fn items<'a>(v: &'a Json, key: &str) -> Result<&'a Vec<Json>, String> {
    match field(v, key)? {
        Json::List(l) => Ok(l),
        _ => Err(format!("{key} is no list")),
    }
}

fn words(v: &Json, key: &str) -> Result<Vec<String>, String> {
    let mut out = Vec::new();
    for item in items(v, key)? {
        match item {
            Json::Text(s) => out.push(s.clone()),
            _ => return Err(format!("{key} holds more than strings")),
        }
    }
    Ok(out)
}

fn decode_categories(v: &Json) -> Result<Categories, String> {
    let system = field(v, "system")?;
    let dev = field(v, "dev_caches")?;
    let art = field(v, "project_artifacts")?;
    let logs = field(v, "logs")?;
    let mut targets = Vec::new();
    for t in items(system, "targets")? {
        targets.push(SystemTarget {
            name: word(t, "name")?,
            path: word(t, "path").ok(),
            pattern: word(t, "pattern").ok(),
            ext: words(t, "ext").ok(),
            recursive: flag(t, "recursive").ok(),
            max_age_days: number(t, "max_age_days").ok(),
        });
    }
    let mut entries = Vec::new();
    for e in items(dev, "entries")? {
        entries.push(DevCacheEntry {
            name: word(e, "name")?,
            path: word(e, "path")?,
            risk: word(e, "risk")?,
            group: word(e, "group").ok(),
        });
    }
    let mut types = Vec::new();
    for t in items(art, "types")? {
        types.push(ProjectType {
            marker: word(t, "marker")?,
            artifact: word(t, "artifact")?,
            label: word(t, "label")?,
        });
    }
    Ok(Categories {
        system: SystemCategory { enabled: flag(system, "enabled")?, targets },
        dev_caches: DevCacheCategory { enabled: flag(dev, "enabled")?, entries },
        project_artifacts: ProjectArtifactsCategory {
            enabled: flag(art, "enabled")?,
            min_size_mb: number(art, "min_size_mb")?,
            scan_roots: words(art, "scan_roots")?,
            types,
        },
        logs: LogsCategory {
            enabled: flag(logs, "enabled")?,
            max_age_days: number(logs, "max_age_days")?,
        },
    })
}

fn decode(v: Json) -> Result<Config, String> {
    let schedule = field(&v, "schedule")?;
    let t = field(&v, "thresholds")?;
    let p = field(&v, "paths")?;
    let snap = field(&v, "snapshots")?;
    let si = field(&v, "silence")?;
    let o = field(&v, "optimizer")?;
    let k = field(&v, "process_killer")?;
    let w = field(&v, "whitelist")?;
    let r = field(&v, "rogue_list")?;
    let mut overrides = Overrides::new();
    match field(si, "per_app_overrides")? {
        Json::Object(members) => {
            for m in members {
                let rule = AppOverride {
                    allow_notifications: flag(&m.value, "allow_notifications")?,
                    allow_background: flag(&m.value, "allow_background")?,
                };
                overrides.insert(m.key.clone(), rule);
            }
        }
        _ => return Err("per_app_overrides is no object".to_string()),
    }
    Ok(Config {
        schema_version: number(&v, "schema_version").unwrap_or(0) as u32,
        schedule: Schedule {
            boot_clean: flag(schedule, "boot_clean")?,
            cache_sweep_interval_hours: number(schedule, "cache_sweep_interval_hours")?,
            app_audit_interval_days: number(schedule, "app_audit_interval_days")?,
            snapshot_audit_interval_days: number(schedule, "snapshot_audit_interval_days")?,
        },
        thresholds: Thresholds {
            cache_unused_days: number(t, "cache_unused_days")?,
            uninstall_unused_days: number(t, "uninstall_unused_days")?,
            snapshot_max_age_days: number(t, "snapshot_max_age_days")?,
            snapshot_keep_count: number(t, "snapshot_keep_count")?,
            large_file_min_mb: number(t, "large_file_min_mb")?,
            log_max_age_days: number(t, "log_max_age_days")?,
            tmp_max_age_hours: number(t, "tmp_max_age_hours")?,
            timemachine_incomplete_safe_hours: number(t, "timemachine_incomplete_safe_hours")?,
        },
        paths: Paths {
            system_cache: words(p, "system_cache")?,
            user_cache: words(p, "user_cache")?,
            crash_logs: words(p, "crash_logs")?,
            tmp_dirs: words(p, "tmp_dirs")?,
            app_containers: words(p, "app_containers")?,
            app_support: words(p, "app_support")?,
            app_prefs: words(p, "app_prefs")?,
            system_logs: words(p, "system_logs")?,
        },
        categories: decode_categories(field(&v, "categories")?)?,
        snapshots: Snapshots {
            enabled: flag(snap, "enabled")?,
            auto_delete: flag(snap, "auto_delete")?,
            max_age_days: number(snap, "max_age_days")?,
            keep_count: number(snap, "keep_count")?,
            skip_if_tm_running: flag(snap, "skip_if_tm_running")?,
            delete_incomplete_backups: flag(snap, "delete_incomplete_backups")?,
            incomplete_safe_hours: number(snap, "incomplete_safe_hours")?,
        },
        silence: Silence {
            enabled: flag(si, "enabled")?,
            block_notifications: flag(si, "block_notifications")?,
            block_background_agents: flag(si, "block_background_agents")?,
            force_quit_on_window_close: flag(si, "force_quit_on_window_close")?,
            notification_mode: word(si, "notification_mode")?,
            per_app_overrides: overrides,
        },
        optimizer: Optimizer {
            enabled: flag(o, "enabled")?,
            flush_dns: flag(o, "flush_dns")?,
            quicklook_refresh: flag(o, "quicklook_refresh")?,
            launch_services_rebuild: flag(o, "launch_services_rebuild")?,
            sqlite_vacuum: flag(o, "sqlite_vacuum")?,
            quarantine_cleanup: flag(o, "quarantine_cleanup")?,
            saved_state_cleanup: flag(o, "saved_state_cleanup")?,
            saved_state_max_age_days: number(o, "saved_state_max_age_days")?,
            broken_launch_agents: flag(o, "broken_launch_agents")?,
            notification_center_cleanup: flag(o, "notification_center_cleanup")?,
            coreduet_cleanup: flag(o, "coreduet_cleanup")?,
            font_cache_rebuild: flag(o, "font_cache_rebuild")?,
            dock_refresh: flag(o, "dock_refresh")?,
            prevent_network_dsstore: flag(o, "prevent_network_dsstore")?,
            purge_inactive_memory: flag(o, "purge_inactive_memory")?,
            disable_reopen_windows: flag(o, "disable_reopen_windows")?,
            disable_sudden_motion_sensor: flag(o, "disable_sudden_motion_sensor")?,
            increase_fd_limit: flag(o, "increase_fd_limit")?,
            periodic_maintenance: flag(o, "periodic_maintenance")?,
        },
        process_killer: ProcessKiller {
            enabled: flag(k, "enabled")?,
            graceful_timeout_secs: number(k, "graceful_timeout_secs")?,
            force_timeout_secs: number(k, "force_timeout_secs")?,
            use_launchctl_bootout: flag(k, "use_launchctl_bootout")?,
        },
        whitelist: Whitelist {
            apps: words(w, "apps")?,
            bundle_ids: words(w, "bundle_ids")?,
            paths: words(w, "paths")?,
        },
        rogue_list: RogueList {
            bundle_ids: words(r, "bundle_ids")?,
            app_names: words(r, "app_names")?,
            process_names: words(r, "process_names")?,
        },
    })
}

fn load_str(content: &str) -> Result<Config, String> {
    Config::load("config.json", Ok(content.to_string()), decode).map_err(|e| e.describe())
}

fn message(r: Result<Config, String>) -> String {
    match r {
        Ok(_) => panic!("an error was expected"),
        Err(m) => m,
    }
}

/// Minimal valid config string at schema_version 1.
fn minimal_v1() -> String {
    r#"{
  "schema_version": 1,
  "schedule": {
    "boot_clean": true,
    "cache_sweep_interval_hours": 24,
    "app_audit_interval_days": 7,
    "snapshot_audit_interval_days": 3
  },
  "thresholds": {
    "cache_unused_days": 7,
    "uninstall_unused_days": 365,
    "snapshot_max_age_days": 7,
    "snapshot_keep_count": 2,
    "large_file_min_mb": 100,
    "log_max_age_days": 30,
    "tmp_max_age_hours": 24,
    "timemachine_incomplete_safe_hours": 24
  },
  "paths": {
    "system_cache": ["/Library/Caches"],
    "user_cache": ["~/Library/Caches"],
    "crash_logs": ["~/Library/Logs/DiagnosticReports"],
    "tmp_dirs": ["/private/tmp"],
    "app_containers": ["~/Library/Containers"],
    "app_support": ["~/Library/Application Support"],
    "app_prefs": ["~/Library/Preferences"],
    "system_logs": ["/private/var/log"]
  },
  "categories": {
    "system": { "enabled": true, "targets": [] },
    "dev_caches": { "enabled": true, "entries": [] },
    "project_artifacts": {
      "enabled": true, "min_size_mb": 10,
      "scan_roots": [], "types": []
    },
    "logs": { "enabled": true, "max_age_days": 30 }
  },
  "snapshots": {
    "enabled": true, "auto_delete": true,
    "max_age_days": 7, "keep_count": 2,
    "skip_if_tm_running": true,
    "delete_incomplete_backups": true,
    "incomplete_safe_hours": 24
  },
  "silence": {
    "enabled": true,
    "block_notifications": true,
    "block_background_agents": true,
    "force_quit_on_window_close": true,
    "notification_mode": "banners_only",
    "per_app_overrides": {}
  },
  "optimizer": {
    "enabled": true,
    "flush_dns": true, "quicklook_refresh": true,
    "launch_services_rebuild": true, "sqlite_vacuum": true,
    "quarantine_cleanup": true, "saved_state_cleanup": true,
    "saved_state_max_age_days": 30, "broken_launch_agents": true,
    "notification_center_cleanup": true, "coreduet_cleanup": true,
    "font_cache_rebuild": false, "dock_refresh": true,
    "prevent_network_dsstore": true, "purge_inactive_memory": false,
    "disable_reopen_windows": true,
    "disable_sudden_motion_sensor": true,
    "increase_fd_limit": true, "periodic_maintenance": true
  },
  "process_killer": {
    "enabled": true,
    "graceful_timeout_secs": 3,
    "force_timeout_secs": 5,
    "use_launchctl_bootout": true
  },
  "whitelist": { "apps": [], "bundle_ids": [], "paths": [] },
  "rogue_list": { "bundle_ids": [], "app_names": [], "process_names": [] }
}"#.to_string()
}

// ── happy path ────────────────────────────────────────────────────────────

#[test]
fn loads_valid_config() {
    let cfg = load_str(&minimal_v1()).expect("should load valid config");
    assert_eq!(cfg.schema_version, 1);
    assert_eq!(cfg.thresholds.cache_unused_days, 7);
    assert_eq!(cfg.thresholds.uninstall_unused_days, 365);
    assert!(cfg.optimizer.flush_dns);
}

#[test]
fn schedule_fields_parsed() {
    let cfg = load_str(&minimal_v1()).unwrap();
    assert_eq!(cfg.schedule.cache_sweep_interval_hours, 24);
    assert_eq!(cfg.schedule.app_audit_interval_days, 7);
    assert_eq!(cfg.schedule.snapshot_audit_interval_days, 3);
    assert!(cfg.schedule.boot_clean);
}

// ── comment stripping ─────────────────────────────────────────────────────

#[test]
fn strips_line_comments() {
    let with_comment = minimal_v1().replace(
        "\"boot_clean\": true,",
        "\"boot_clean\": true, // this is a comment",
    );
    let cfg = load_str(&with_comment).expect("comment should be stripped");
    assert!(cfg.schedule.boot_clean);
}

#[test]
fn strips_comments_with_url_in_string_value() {
    // A URL in a string value must NOT be treated as a comment
    let json = minimal_v1().replace(
        "\"banners_only\"",
        "\"https://example.com/docs\"",
    );
    // Just confirm it parses without error (the URL contains // but is in a string)
    let result = load_str(&json);
    assert!(result.is_ok(), "URL in string value should parse fine");
}

// ── schema migration ──────────────────────────────────────────────────────

#[test]
fn migrates_v0_adds_process_killer() {
    // v0 config: no schema_version, no process_killer block
    let v0 = minimal_v1()
        .replace("\"schema_version\": 1,\n  ", "")
        .replace(
            r#"  "process_killer": {
    "enabled": true,
    "graceful_timeout_secs": 3,
    "force_timeout_secs": 5,
    "use_launchctl_bootout": true
  },"#,
            "",
        );

    let cfg = load_str(&v0).expect("v0 config should migrate successfully");
    // Migration should have filled in process_killer with defaults
    assert!(cfg.process_killer.enabled);
    assert_eq!(cfg.process_killer.graceful_timeout_secs, 3);
    assert_eq!(cfg.process_killer.use_launchctl_bootout, true);
}

#[test]
fn migrates_v0_adds_snapshot_schedule() {
    let v0 = minimal_v1()
        .replace("\"schema_version\": 1,\n  ", "")
        .replace("\"snapshot_audit_interval_days\": 3,\n    ", "");

    let cfg = load_str(&v0).expect("v0 missing snapshot_audit should migrate");
    assert_eq!(cfg.schedule.snapshot_audit_interval_days, 3); // default from migration
}

#[test]
fn newer_schema_version_loads_with_warning() {
    // schema_version = 999 should load (unknown fields ignored),
    // not panic or return Err
    let newer = minimal_v1().replace("\"schema_version\": 1,", "\"schema_version\": 999,");
    let result = load_str(&newer);
    assert!(result.is_ok(), "newer schema should load with warning, not error");
}

// ── validation ────────────────────────────────────────────────────────────

#[test]
fn validation_rejects_zero_cache_threshold() {
    let bad = minimal_v1().replace("\"cache_unused_days\": 7,", "\"cache_unused_days\": 0,");
    let result = load_str(&bad);
    assert!(result.is_err(), "cache_unused_days=0 should be rejected");
    let msg = message(result);
    assert!(msg.contains("cache_unused_days"), "error should mention the field: {msg}");
}

#[test]
fn validation_rejects_uninstall_less_than_cache() {
    // uninstall_unused_days (3) < cache_unused_days (7) → invalid
    let bad = minimal_v1()
        .replace("\"uninstall_unused_days\": 365,", "\"uninstall_unused_days\": 3,");
    let result = load_str(&bad);
    assert!(result.is_err(), "uninstall < cache threshold should be rejected");
}

#[test]
fn validation_clamps_zero_snapshot_keep_count() {
    // snapshot_keep_count = 0 → clamped to 1, not an error
    let zero_keep = minimal_v1()
        .replace("\"keep_count\": 2,", "\"keep_count\": 0,")
        .replace("\"snapshot_keep_count\": 2,", "\"snapshot_keep_count\": 0,");
    let cfg = load_str(&zero_keep).expect("keep_count=0 should be clamped, not error");
    assert_eq!(cfg.thresholds.snapshot_keep_count, 1, "should be clamped to 1");
}

#[test]
fn validation_rejects_zero_sweep_interval() {
    let bad = minimal_v1()
        .replace("\"cache_sweep_interval_hours\": 24,", "\"cache_sweep_interval_hours\": 0,");
    let result = load_str(&bad);
    assert!(result.is_err(), "zero sweep interval should be rejected");
}

// ── parse errors ──────────────────────────────────────────────────────────

#[test]
fn malformed_json_returns_informative_error() {
    let result = load_str("{ this is not json }");
    assert!(result.is_err());
    let msg = message(result);
    // Should mention line and column
    assert!(
        msg.contains("line") || msg.contains("col") || msg.contains("parse"),
        "error should be informative: {msg}"
    );
}

#[test]
fn completely_empty_file_errors_clearly() {
    let result = load_str("");
    assert!(result.is_err());
}

#[test]
fn missing_config_exits_nonzero_with_message() {
    let path = "/tmp/hush_nonexistent_config_xyz.json";
    let why = "No such file or directory (os error 2)".to_string();
    let result = Config::load(path, Err(why), decode);
    assert!(result.is_err(), "missing config should fail");
    let stderr = message(result.map_err(|e| e.describe()));
    assert!(
        stderr.contains("config") || stderr.contains("cannot read") || stderr.contains("error"),
        "error message should mention config problem: {stderr}"
    );
    assert!(stderr.starts_with("cannot read /tmp/hush_nonexistent_config_xyz.json: "));
}

#[test]
fn malformed_json_config_exits_nonzero_with_line_info() {
    let result = load_str("{ this is not json }");
    assert!(result.is_err());
    let stderr = message(result);
    // Should include parse error details
    assert!(
        stderr.contains("parse") || stderr.contains("line") || stderr.contains("error"),
        "parse error should be descriptive: {stderr}"
    );
}

#[test]
fn validation_error_mentions_field_name() {
    // cache_unused_days = 0 is invalid
    let bad = minimal_v1().replace("\"cache_unused_days\": 7,", "\"cache_unused_days\": 0,");
    let result = load_str(&bad);
    assert!(result.is_err());
    let stderr = message(result);
    assert!(
        stderr.contains("cache_unused_days"),
        "validation error should name the field: {stderr}"
    );
}

// ── Config::expand ────────────────────────────────────────────────────────

#[test]
fn expand_tilde_substitutes_home() {
    let home = "/root";
    let expanded = Config::expand("~/Library/Caches", home);
    assert_eq!(
        expanded,
        format!("{home}/Library/Caches")
    );
}

#[test]
fn expand_absolute_path_unchanged() {
    let p = Config::expand("/private/tmp", "/root");
    assert_eq!(p, "/private/tmp");
}

#[test]
fn expand_relative_path_unchanged() {
    let p = Config::expand("relative/path", "/root");
    assert_eq!(p, "relative/path");
}

// ── SCHEMA_VERSION constant ───────────────────────────────────────────────

#[test]
fn schema_version_is_current() {
    // If someone bumps SCHEMA_VERSION but forgets to add a migration arm,
    // this test reminds them (it won't fail automatically — it's a smoke check).
    assert!(SCHEMA_VERSION >= 1, "SCHEMA_VERSION should be at least 1");
}

// ── errors in words ──────────────────────────────────────────────────────────

#[test]
fn every_configuration_error_in_words() {
    let e = ConfigError::Unreadable { path: "/x".to_string(), detail: "gone".to_string() };
    assert_eq!(e.describe(), "cannot read /x: gone");
    assert_eq!(
        ConfigError::Mistyped("missing".to_string()).describe(),
        "config type error: missing"
    );
    assert_eq!(
        ConfigError::ZeroCacheDays.describe(),
        "thresholds.cache_unused_days must be > 0"
    );
    assert_eq!(
        ConfigError::UninstallBelowCache { uninstall: 3, cache: 7 }.describe(),
        "thresholds.uninstall_unused_days (3) must be >= cache_unused_days (7)"
    );
    assert_eq!(
        ConfigError::ZeroSweepInterval.describe(),
        "schedule.cache_sweep_interval_hours must be > 0"
    );
}

#[test]
fn syntax_errors_say_where() {
    let m = message(load_str("{\n  \"a\": 1,\n  nope\n}"));
    assert_eq!(m, "config.json parse error at line 3, col 3: key must be a string at line 3 column 3");
}

#[test]
fn syntax_errors_name_the_line_of_the_file() {
    // Two comment lines stand before the fault, and they count.
    let m = message(load_str("{\n  // one\n  // two\n  nope\n}"));
    assert!(m.starts_with("config.json parse error at line 4, col 3"), "{m}");
}

#[test]
fn missing_field_is_a_type_error() {
    let m = message(load_str("{\"schema_version\": 1}"));
    assert_eq!(m, "config type error: missing field `schedule`");
}

// ── comments ─────────────────────────────────────────────────────────────────

#[test]
fn comments_go_and_lines_stay() {
    let raw = "{\n  // a whole line\n  \"a\": 1, // behind\n  \"b\": \"x // y\"\n}";
    let clean = strip_json_comments(raw);
    assert_eq!(clean, "{\n\n  \"a\": 1, \n  \"b\": \"x // y\"\n}\n");
    assert_eq!(clean.lines().count(), raw.lines().count());
}

#[test]
fn escaped_quotes_do_not_end_a_string() {
    let raw = "\"a \\\" // b\" // c";
    assert_eq!(strip_json_comments(raw), "\"a \\\" // b\" \n");
}

#[test]
fn a_single_slash_is_no_comment() {
    assert_eq!(strip_json_comments("1 / 2 /"), "1 / 2 /\n");
    assert_eq!(strip_json_comments(""), "");
    assert_eq!(strip_json_comments("é // ü"), "é \n");
}

#[test]
fn carriage_returns_go_with_their_line_feeds() {
    assert_eq!(strip_json_comments("a\r\nb // c\r\n"), "a\nb \n");
}

// ── documents ────────────────────────────────────────────────────────────────

fn doc(s: &str) -> Json {
    match parse(s) {
        Ok(v) => v,
        Err(_) => panic!("a document was expected"),
    }
}

#[test]
fn documents_are_read_as_they_are() {
    let v = doc("{\"n\": null, \"t\": true, \"u\": 7, \"i\": -7, \"f\": 1.5, \"l\": [1, \"x\"]}");
    assert!(matches!(v.get("n"), Some(Json::Null)));
    assert!(matches!(v.get("t"), Some(Json::Bool(true))));
    assert_eq!(v.get("u").and_then(|x| x.as_u64()), Some(7));
    assert_eq!(v.get("i").and_then(|x| x.as_u64()), None);
    assert_eq!(v.get("f").and_then(|x| x.as_u64()), None);
    match v.get("f") {
        Some(Json::Number(n)) => assert_eq!(n.digits, "1.5"),
        _ => panic!("a number was expected"),
    }
    match v.get("l") {
        Some(Json::List(l)) => {
            assert_eq!(l.len(), 2);
            assert!(matches!(&l[1], Json::Text(s) if s == "x"));
        }
        _ => panic!("a list was expected"),
    }
    assert!(v.get("missing").is_none());
    assert!(doc("3").get("n").is_none());
}

#[test]
fn faults_carry_line_and_column() {
    match parse("[1,\n 2") {
        Err(f) => {
            assert_eq!(f.line, 2);
            assert_eq!(f.column, 2);
            assert_eq!(f.message, "EOF while parsing a list at line 2 column 2");
        }
        Ok(_) => panic!("a fault was expected"),
    }
}

// ── migration ────────────────────────────────────────────────────────────────

fn member(v: &Json, section: &str, key: &str) -> Option<u64> {
    v.get(section).and_then(|s| s.get(key)).and_then(|x| x.as_u64())
}

#[test]
fn migration_adds_every_field_that_is_missing() {
    let v = migrate(
        doc("{\"schedule\": {}, \"optimizer\": {}, \"rogue_list\": {}}"),
        0,
    );
    assert_eq!(member(&v, "schedule", "snapshot_audit_interval_days"), Some(3));
    assert_eq!(member(&v, "optimizer", "saved_state_max_age_days"), Some(30));
    for key in [
        "coreduet_cleanup",
        "notification_center_cleanup",
        "broken_launch_agents",
        "periodic_maintenance",
        "increase_fd_limit",
    ] {
        let x = v.get("optimizer").and_then(|o| o.get(key));
        assert!(matches!(x, Some(Json::Bool(true))), "{key}");
    }
    let names = v.get("rogue_list").and_then(|r| r.get("process_names"));
    assert!(matches!(names, Some(Json::List(l)) if l.is_empty()));
    assert_eq!(member(&v, "process_killer", "graceful_timeout_secs"), Some(3));
    assert_eq!(member(&v, "process_killer", "force_timeout_secs"), Some(5));
    assert_eq!(file_version(&v), SCHEMA_VERSION);
}

#[test]
fn migration_changes_nothing_that_is_there() {
    let v = migrate(
        doc("{\"schedule\": {\"snapshot_audit_interval_days\": 9, \"x\": 1}, \"process_killer\": 4}"),
        0,
    );
    assert_eq!(member(&v, "schedule", "snapshot_audit_interval_days"), Some(9));
    assert_eq!(member(&v, "schedule", "x"), Some(1));
    assert_eq!(v.get("process_killer").and_then(|x| x.as_u64()), Some(4));
    assert!(v.get("optimizer").is_none());
}

#[test]
fn migration_is_idempotent_on_a_document() {
    let once = migrate(doc("{\"schedule\": {}}"), 0);
    let count = |v: &Json| match v {
        Json::Object(m) => m.len(),
        _ => 0,
    };
    assert_eq!(count(&once), 3);
    let twice = migrate(once, 0);
    assert_eq!(count(&twice), 3);
    assert_eq!(member(&twice, "schedule", "snapshot_audit_interval_days"), Some(3));
}

#[test]
fn versions_are_read_from_their_low_bits() {
    assert_eq!(file_version(&doc("{}")), 0);
    assert_eq!(file_version(&doc("{\"schema_version\": \"1\"}")), 0);
    assert_eq!(file_version(&doc("{\"schema_version\": 999}")), 999);
    assert_eq!(file_version(&doc("{\"schema_version\": 4294967297}")), 1);
    assert_eq!(file_version(&doc("[]")), 0);
}

#[test]
fn newer_documents_are_left_alone() {
    let v = bring_up(doc("{\"schema_version\": 7}"));
    assert_eq!(file_version(&v), 7);
    assert!(v.get("process_killer").is_none());
    let plain = bring_up(doc("3"));
    assert_eq!(plain.as_u64(), Some(3));
}

// ── validation ───────────────────────────────────────────────────────────────

#[test]
fn validation_clamps_before_it_looks_at_the_interval() {
    let mut cfg = load_str(&minimal_v1()).unwrap();
    cfg.thresholds.snapshot_keep_count = 0;
    cfg.schedule.cache_sweep_interval_hours = 0;
    assert!(matches!(cfg.validate(), Err(ConfigError::ZeroSweepInterval)));
    assert_eq!(cfg.thresholds.snapshot_keep_count, 1);
    cfg.schedule.cache_sweep_interval_hours = 1;
    assert!(cfg.validate().is_ok());
    assert!(cfg.validate().is_ok());
    assert_eq!(cfg.thresholds.snapshot_keep_count, 1);
}

// ── small questions ──────────────────────────────────────────────────────────

#[test]
fn risks_have_marks() {
    let entry = |risk: &str| DevCacheEntry {
        name: "n".to_string(),
        path: "p".to_string(),
        risk: risk.to_string(),
        group: None,
    };
    assert_eq!(entry("safe").risk_emoji(), "🟢");
    assert_eq!(entry("caution").risk_emoji(), "🟡");
    assert_eq!(entry("risky").risk_emoji(), "🔴");
    assert_eq!(entry("else").risk_emoji(), "⚪");
    assert!(entry("risky").is_risky());
    assert!(!entry("Risky").is_risky());
}

#[test]
fn whitelists_are_exact() {
    let w = Whitelist {
        apps: vec!["Finder".to_string()],
        bundle_ids: vec!["com.a".to_string(), "com.b".to_string()],
        paths: vec![],
    };
    assert!(w.contains_app("Finder"));
    assert!(!w.contains_app("finder"));
    assert!(w.contains_bundle("com.b"));
    assert!(!w.contains_bundle("com"));
}

#[test]
fn overrides_are_found_by_their_bundle() {
    let raw = minimal_v1().replace(
        "\"per_app_overrides\": {}",
        "\"per_app_overrides\": {\"com.m\": {\"allow_notifications\": true, \"allow_background\": false}}",
    );
    let cfg = load_str(&raw).unwrap();
    assert_eq!(
        cfg.silence.override_for("com.m"),
        Some(AppOverride { allow_notifications: true, allow_background: false })
    );
    assert_eq!(cfg.silence.override_for("com.x"), None);
}

#[test]
fn expansion_keeps_absolute_rests() {
    assert_eq!(Config::expand("~//etc", "/home/u"), "/etc");
    assert_eq!(Config::expand("~", "/home/u"), "~");
    assert_eq!(Config::expand("~/a", "/home/u/"), "/home/u/a");
    assert_eq!(Config::expand("~/a", ""), "a");
}

#[test]
fn a_changed_file_is_noticed() {
    let t = Some(Stamp { secs: 5, nanos: 0 });
    let u = Some(Stamp { secs: 5, nanos: 1 });
    assert!(!changed(&t, &t));
    assert!(changed(&t, &u));
    assert!(changed(&None, &t));
    assert!(!changed(&None, &None));
}

#[test]
fn stripping_twice_is_stripping_once() {
    let raw = "// head\n{\n  \"u\": \"http://x\", // tail // more\n  \"n\": 1\n}";
    let once = strip_json_comments(raw);
    assert_eq!(once, "\n{\n  \"u\": \"http://x\", \n  \"n\": 1\n}\n");
    assert_eq!(strip_json_comments(&once), once);
    assert_eq!(once.lines().count(), raw.lines().count());
    for (short, long) in once.lines().zip(raw.lines()) {
        assert!(long.starts_with(short));
    }
    assert_eq!(strip_json_comments(""), "");
}

#[test]
fn overrides_hold_one_rule_for_each_app() {
    let rule = |notifications: bool, background: bool| AppOverride {
        allow_notifications: notifications,
        allow_background: background,
    };
    let mut o = Overrides::new();
    assert_eq!(o.get("com.a"), None);
    o.insert("com.a".to_string(), rule(true, false));
    o.insert("com.b".to_string(), rule(false, true));
    o.insert("com.a".to_string(), rule(false, false));
    assert_eq!(o.get("com.a"), Some(rule(false, false)));
    assert_eq!(o.get("com.b"), Some(rule(false, true)));
    assert!(o.allow_background("com.b.helper"));
    assert!(!o.allow_background("com.a.helper"));
    let ids: Vec<String> = o.into_entries().into_iter().map(|e| e.bundle_id).collect();
    assert_eq!(ids, vec!["com.b".to_string(), "com.a".to_string()]);
}

#[test]
fn a_key_that_occurs_again_counts_once() {
    match parse("{\"a\": 1, \"b\": 2, \"a\": 3}") {
        Ok(Json::Object(members)) => {
            let keys: Vec<&str> = members.iter().map(|m| m.key.as_str()).collect();
            assert_eq!(keys, vec!["a", "b"]);
            assert_eq!(members[0].value.as_u64(), Some(3));
        }
        _ => panic!("an object was expected"),
    }
}
