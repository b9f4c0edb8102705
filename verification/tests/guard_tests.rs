// The safety layer: every block, every critical bundle, every path that needs
// Full Disk Access.

use hush::command::ToolReply;
use hush::guard::{
    codesign_ok, codesign_verify, is_critical_bundle, is_hard_blocked, is_inside_app_bundle,
    is_process_using, is_protected, lsof_below, pgrep_full, requires_fda, stem_to_look_for,
};

// ── is_hard_blocked — absolute paths ─────────────────────────────────────

#[test]
fn blocks_filesystem_root() {
    assert!(is_hard_blocked("/"));
}

#[test]
fn blocks_system_dirs() {
    for path in &["/System", "/bin", "/sbin", "/usr", "/Library", "/private", "/etc"] {
        assert!(is_hard_blocked(path),
            "expected hard-block for {path}");
    }
}

#[test]
fn blocks_system_subdirs() {
    assert!(is_hard_blocked("/System/Library/CoreServices"));
    assert!(is_hard_blocked("/usr/bin/python3"));
    assert!(is_hard_blocked("/Library/Extensions/SomeKEXT.kext"));
}

// ── is_hard_blocked — codesign-critical paths ─────────────────────────────

#[test]
fn blocks_app_bundle_contents() {
    // Any path inside .app/Contents/ is blocked (codesign tree)
    let paths = [
        "/Applications/Safari.app/Contents/MacOS/Safari",
        "/Applications/MyApp.app/Contents/Info.plist",
        "/Applications/MyApp.app/Contents/Resources/en.lproj/MainMenu.nib",
    ];
    for p in &paths {
        assert!(is_hard_blocked(p),
            "expected hard-block for {p} (inside .app bundle)");
    }
}

#[test]
fn does_not_block_the_app_itself() {
    // The .app directory itself (not Contents/) should NOT be blocked
    // — it's the uninstaller's job to remove it entirely
    let app = "/Applications/MyApp.app";
    assert!(!is_hard_blocked(app),
        ".app root should not be hard-blocked (uninstall removes the whole bundle)");
}

// ── is_hard_blocked — critical caches ────────────────────────────────────

#[test]
fn blocks_critical_system_prefs_caches() {
    let cases = [
        "/Users/user/Library/Caches/com.apple.systempreferences",
        "/Users/user/Library/Caches/com.apple.SystemSettings",
        "/Users/user/Library/Caches/com.apple.controlcenter",
    ];
    for p in &cases {
        assert!(is_hard_blocked(p), "must block {p}");
    }
}

#[test]
fn blocks_audio_system_caches() {
    assert!(is_hard_blocked("/Users/user/Library/Caches/com.apple.coreaudio"));
    assert!(is_hard_blocked("/Users/user/Library/Caches/com.apple.audio.HAL"));
}

#[test]
fn blocks_security_and_keychain() {
    assert!(is_hard_blocked("/Users/user/Library/Keychains/login.keychain-db"));
    // com.apple.security.* segment
    assert!(is_hard_blocked("/Users/user/Library/Caches/com.apple.security.pboxd"));
}

#[test]
fn blocks_icloud_drive_sync() {
    assert!(is_hard_blocked("/Users/user/Library/Caches/com.apple.bird"));
    assert!(is_hard_blocked("/Users/user/Library/CloudStorage/com.apple.CloudDocs"));
}

#[test]
fn blocks_cups_printer_config() {
    assert!(is_hard_blocked("/Users/user/Library/Preferences/org.cups.PrintingPrefs.plist"));
}

#[test]
fn blocks_user_trash() {
    assert!(is_hard_blocked("/Users/user/.Trash/photo.jpg"));
}

// ── is_hard_blocked — /Library allow-list ────────────────────────────────

#[test]
fn allows_library_caches() {
    assert!(!is_hard_blocked("/Library/Caches/com.example.app"));
}

#[test]
fn allows_library_logs() {
    assert!(!is_hard_blocked("/Library/Logs/some.log"));
}

#[test]
fn allows_library_launch_agents() {
    assert!(!is_hard_blocked("/Library/LaunchAgents/com.example.agent.plist"));
}

#[test]
fn blocks_library_outside_allowlist() {
    // /Library/Saved Application State is NOT in the allow-list
    assert!(is_hard_blocked("/Library/Saved Application State/com.foo.bar.savedState"));
}

// ── is_inside_app_bundle ──────────────────────────────────────────────────

#[test]
fn detects_inside_bundle() {
    assert!(is_inside_app_bundle("/Applications/Foo.app/Contents/MacOS/Foo"));
    assert!(is_inside_app_bundle("/Applications/Foo.app/Contents/Frameworks/Foo.framework/Foo"));
}

#[test]
fn not_inside_bundle_for_bundle_root() {
    assert!(!is_inside_app_bundle("/Applications/Foo.app"));
    assert!(!is_inside_app_bundle("/Applications/Foo.app/Contents"));
}

// ── requires_fda ─────────────────────────────────────────────────────────

#[test]
fn fda_paths_detected() {
    let protected = [
        "/Users/user/Library/Mail/V10/MailData/Envelope Index",
        "/Users/user/Library/Messages/chat.db",
        "/Users/user/Library/Safari/History.db",
        "/private/var/db/diagnostics/system.logarchive",
        "/private/var/folders/xx/abc123/T/some.tmp",
    ];
    for p in &protected {
        assert!(requires_fda(p), "expected FDA required for {p}");
    }
}

#[test]
fn non_fda_paths_clear() {
    let safe = [
        "/Users/user/Library/Caches/com.example.app",
        "/Users/user/Library/Logs/MyApp/app.log",
        "/tmp/scratch.txt",
    ];
    for p in &safe {
        assert!(!requires_fda(p), "expected NOT FDA for {p}");
    }
}

// ── is_critical_bundle ────────────────────────────────────────────────────

#[test]
fn com_apple_bundles_are_critical_by_default() {
    let critical = [
        "com.apple.finder",
        "com.apple.dock",
        "com.apple.systemuiserver",
        "com.apple.notificationcenterui",
        "com.apple.security.pboxd",
    ];
    for bid in &critical {
        assert!(is_critical_bundle(bid), "expected critical: {bid}");
    }
}

#[test]
fn safe_apple_caches_are_not_critical() {
    let safe = [
        "com.apple.dt.Xcode",
        "com.apple.dt.XCBuild",
        "com.apple.CoreSimulator",
        "com.apple.iphonesimulator",
        "org.swift.swiftpm",
    ];
    for bid in &safe {
        assert!(!is_critical_bundle(bid), "expected NOT critical: {bid}");
    }
}

#[test]
fn third_party_non_password_managers_are_not_critical() {
    // Random apps: not critical (Hush may manage their caches)
    assert!(!is_critical_bundle("com.spotify.client"));
    assert!(!is_critical_bundle("com.github.atom"));
    assert!(!is_critical_bundle("com.visualstudio.code"));
}

#[test]
fn password_managers_are_critical() {
    assert!(is_critical_bundle("com.1password.1password"));
    assert!(is_critical_bundle("com.agilebits.onepassword7"));
    assert!(is_critical_bundle("com.bitwarden.desktop"));
}

// ── protection as a whole ────────────────────────────────────────────────────

#[test]
fn protection_joins_blocks_and_full_disk_access() {
    assert!(is_protected("/System/Library/CoreServices"));
    assert!(is_protected("/Users/user/Library/Mail/V10/MailData"));
    assert!(!is_protected("/Users/user/Library/Caches/com.example.app"));
}

#[test]
fn a_segment_blocks_wherever_it_stands() {
    let segment = "com.apple.trustd";
    assert!(is_hard_blocked(segment));
    assert!(is_hard_blocked(&format!("/a/b/{segment}")));
    assert!(is_hard_blocked(&format!("{segment}/c/d")));
    assert!(is_hard_blocked(&format!("/a/x{segment}y/z")));
    assert!(!is_hard_blocked("/a/com.apple.trust/z"));
}

#[test]
fn what_is_below_a_blocked_segment_is_blocked() {
    assert!(is_hard_blocked("/Users/user/Library/Caches/com.apple.bird/deep/down/file"));
    assert!(is_hard_blocked("/Applications/A.app/Contents/x/y"));
}

// ── process occupancy ────────────────────────────────────────────────────────

fn reply(success: bool, stdout: &str) -> Option<ToolReply> {
    Some(ToolReply { success, stdout: stdout.to_string() })
}

#[test]
fn short_stems_are_not_looked_for() {
    assert_eq!(stem_to_look_for("/tmp/ab.txt"), None);
    assert_eq!(stem_to_look_for("/tmp/abc.txt"), Some("abc".to_string()));
    assert_eq!(stem_to_look_for("/tmp/com.foo.Bar"), Some("com.foo".to_string()));
    assert_eq!(stem_to_look_for("/"), None);
}

#[test]
fn stems_are_measured_in_bytes() {
    // Two characters, four bytes.
    assert_eq!(stem_to_look_for("/tmp/éé.txt"), Some("éé".to_string()));
}

#[test]
fn occupancy_needs_a_process_or_open_files() {
    assert!(is_process_using(true, &None));
    assert!(is_process_using(false, &reply(true, "COMMAND PID\n")));
    assert!(!is_process_using(false, &reply(true, "  \n ")));
    assert!(!is_process_using(false, &reply(false, "COMMAND PID\n")));
    assert!(!is_process_using(false, &None));
}

#[test]
fn occupancy_questions() {
    let p = pgrep_full("abc");
    assert_eq!(p.program, "pgrep");
    assert_eq!(p.args, vec!["-f".to_string(), "abc".to_string()]);
    let l = lsof_below("/tmp/dir");
    assert_eq!(l.program, "lsof");
    assert_eq!(l.args, vec!["+D".to_string(), "/tmp/dir".to_string()]);
}

#[test]
fn signatures_count_only_when_verified() {
    let c = codesign_verify("/Applications/A.app");
    assert_eq!(c.program, "codesign");
    assert_eq!(c.args.len(), 4);
    assert_eq!(c.args[3], "/Applications/A.app");
    assert!(codesign_ok(&reply(true, "")));
    assert!(!codesign_ok(&reply(false, "")));
    assert!(!codesign_ok(&None));
}
