// Classification of failures and the outcome of removals.

use hush::error::{HushError, IoFailure, IoKind, OsCodes, RemoveResult, SkipReason};
use std::io;

/// What the system reports, as the library takes it.
fn failure(e: io::Error) -> IoFailure {
    let kind = match e.kind() {
        io::ErrorKind::NotFound => IoKind::NotFound,
        io::ErrorKind::PermissionDenied => IoKind::PermissionDenied,
        _ => IoKind::Other,
    };
    IoFailure { kind, code: e.raw_os_error(), message: e.to_string() }
}

fn other(code: Option<i32>) -> IoFailure {
    IoFailure { kind: IoKind::Other, code, message: "oops".to_string() }
}

// ── HushError::from_io ────────────────────────────────────────────────────

#[test]
fn from_io_not_found_classified() {
    let e = io::Error::from(io::ErrorKind::NotFound);
    let he = HushError::from_io(failure(e), "/tmp/gone".to_string());
    assert!(matches!(he, HushError::NotFound(_)));
    assert!(he.is_skippable());
}

#[test]
fn from_io_permission_denied_classified() {
    let e = io::Error::from(io::ErrorKind::PermissionDenied);
    let he = HushError::from_io(failure(e), "/etc/sudoers".to_string());
    assert!(matches!(he, HushError::PermissionDenied { .. }));
    assert!(!he.is_skippable(), "EACCES is a real error, not skippable");
}

#[test]
fn from_io_ebusy_classified() {
    // EBUSY = raw OS error 16 on macOS
    let e = io::Error::from_raw_os_error(16);
    let he = HushError::from_io(failure(e), "/dev/disk0".to_string());
    // On macOS this should classify as Busy; on others fallback to Io
    // Either way, it must not classify as NotFound or HardBlocked
    assert!(!matches!(he, HushError::NotFound(_)));
    assert!(!matches!(he, HushError::HardBlocked(_)));
}

// ── is_skippable ─────────────────────────────────────────────────────────

#[test]
fn not_found_is_skippable() {
    assert!(HushError::NotFound("/gone".to_string()).is_skippable());
}

#[test]
fn hard_blocked_is_skippable() {
    assert!(HushError::HardBlocked("/System".to_string()).is_skippable());
}

#[test]
fn in_use_is_skippable() {
    assert!(HushError::InUse("/tmp/app".to_string()).is_skippable());
}

#[test]
fn symlink_loop_is_skippable() {
    assert!(HushError::SymlinkLoop("/tmp/loop".to_string()).is_skippable());
}

#[test]
fn permission_denied_is_not_skippable() {
    let e = io::Error::from(io::ErrorKind::PermissionDenied);
    assert!(!HushError::PermissionDenied { path: "/etc".to_string(), source: failure(e) }
        .is_skippable());
}

// ── RemoveResult ──────────────────────────────────────────────────────────

#[test]
fn add_error_skippable_becomes_skip() {
    let mut r = RemoveResult::default();
    r.add_error(HushError::NotFound("/gone".to_string()));

    assert!(r.errors.is_empty(), "skippable error should become a skip entry");
    assert_eq!(r.skipped.len(), 1);
    assert_eq!(r.skipped[0].reason, SkipReason::NotFound);
}

#[test]
fn add_error_permission_denied_stays_as_error() {
    let mut r = RemoveResult::default();
    let e = io::Error::from(io::ErrorKind::PermissionDenied);
    r.add_error(HushError::PermissionDenied { path: "/etc".to_string(), source: failure(e) });

    assert_eq!(r.errors.len(), 1, "EACCES must remain in errors, not demoted to skip");
    assert!(r.skipped.is_empty());
}

#[test]
fn has_permission_errors_true_when_present() {
    let mut r = RemoveResult::default();
    let e = io::Error::from(io::ErrorKind::PermissionDenied);
    r.add_error(HushError::PermissionDenied { path: "/etc".to_string(), source: failure(e) });
    assert!(r.has_permission_errors());
}

#[test]
fn has_permission_errors_false_when_absent() {
    let mut r = RemoveResult::default();
    r.add_error(HushError::NotFound("/gone".to_string()));
    assert!(!r.has_permission_errors());
}

#[test]
fn merge_accumulates_all_fields() {
    let mut a = RemoveResult::default();
    a.freed_bytes = 100;
    a.add_skip("/a".to_string(), SkipReason::DryRun);
    let e = io::Error::from(io::ErrorKind::PermissionDenied);
    a.add_error(HushError::PermissionDenied { path: "/b".to_string(), source: failure(e) });

    let mut b = RemoveResult::default();
    b.freed_bytes = 200;
    b.add_skip("/c".to_string(), SkipReason::HardBlocked);

    a.merge(b);

    assert_eq!(a.freed_bytes, 300);
    assert_eq!(a.skipped.len(), 2);
    assert_eq!(a.errors.len(), 1);
}

// ── Display ───────────────────────────────────────────────────────────────

#[test]
fn display_includes_path() {
    let e = HushError::NotFound("/some/path".to_string());
    let s = e.describe();
    assert!(s.contains("/some/path"), "display should include path: {s}");
}

#[test]
fn display_external_tool_includes_tool_name() {
    let e = HushError::ExternalTool { tool: "tmutil", detail: "exit 1".into() };
    let s = e.describe();
    assert!(s.contains("tmutil"), "display should include tool name: {s}");
}

// ── codes of the system ──────────────────────────────────────────────────────

#[test]
fn codes_of_the_system_are_the_real_ones() {
    let codes = OsCodes::current();
    assert_eq!(codes.busy, libc::EBUSY);
    assert_eq!(codes.unsupported, libc::ENOTSUP);
    let busy = HushError::from_io(other(Some(libc::EBUSY)), "/dev/disk0".to_string());
    assert!(matches!(busy, HushError::Busy { .. }));
    let unsupported = HushError::from_io(other(Some(libc::ENOTSUP)), "/mnt".to_string());
    assert!(matches!(unsupported, HushError::Unsupported { .. }));
}

#[test]
fn busy_and_unsupported_are_told_apart() {
    let codes = OsCodes::current();
    assert_ne!(codes.busy, codes.unsupported);
    let failed = HushError::from_io(other(Some(libc::EIO)), "/dev/disk0".to_string());
    assert!(matches!(failed, HushError::Io { .. }));
}

#[test]
fn codes_decide_where_the_kind_does_not() {
    let codes = OsCodes { busy: 16, unsupported: 45 };
    let at = |f: IoFailure| HushError::from_io_with(f, "/p".to_string(), codes);
    assert!(matches!(at(other(Some(16))), HushError::Busy { .. }));
    assert!(matches!(at(other(Some(45))), HushError::Unsupported { .. }));
    assert!(matches!(at(other(Some(5))), HushError::Io { .. }));
    assert!(matches!(at(other(None)), HushError::Io { .. }));
    let gone = IoFailure { kind: IoKind::NotFound, code: Some(16), message: String::new() };
    assert!(matches!(at(gone), HushError::NotFound(_)));
}

#[test]
fn every_error_in_words() {
    let p = || "/p".to_string();
    assert_eq!(HushError::NotFound(p()).describe(), "not found: /p");
    assert_eq!(HushError::SymlinkLoop(p()).describe(), "symlink loop: /p");
    assert_eq!(HushError::HardBlocked(p()).describe(), "hard-blocked: /p");
    assert_eq!(HushError::InUse(p()).describe(), "process in use: /p");
    assert_eq!(HushError::Config("bad".to_string()).describe(), "config error: bad");
    assert_eq!(
        HushError::PermissionDenied { path: p(), source: other(None) }.describe(),
        "permission denied: /p (oops)"
    );
    assert_eq!(
        HushError::Busy { path: p(), source: other(None) }.describe(),
        "in use (EBUSY): /p (oops)"
    );
    assert_eq!(
        HushError::Unsupported { path: p(), source: other(None) }.describe(),
        "unsupported: /p (oops)"
    );
    assert_eq!(
        HushError::Io { path: p(), source: other(None) }.describe(),
        "I/O error at /p: oops"
    );
    assert_eq!(
        HushError::ExternalTool { tool: "tmutil", detail: "exit 1".to_string() }.describe(),
        "tmutil: exit 1"
    );
}

#[test]
fn each_harmless_error_becomes_its_skip() {
    let mut r = RemoveResult::default();
    r.add_error(HushError::NotFound("/a".to_string()));
    r.add_error(HushError::HardBlocked("/b".to_string()));
    r.add_error(HushError::InUse("/c".to_string()));
    r.add_error(HushError::SymlinkLoop("/d".to_string()));
    r.add_error(HushError::Unsupported { path: "/e".to_string(), source: other(None) });
    r.add_error(HushError::Busy { path: "/f".to_string(), source: other(None) });
    let reasons: Vec<SkipReason> = r.skipped.iter().map(|s| s.reason).collect();
    assert_eq!(
        reasons,
        vec![
            SkipReason::NotFound,
            SkipReason::HardBlocked,
            SkipReason::ProcessInUse,
            SkipReason::SymlinkLoop,
            SkipReason::Unsupported,
        ]
    );
    assert_eq!(r.skipped[3].path, "/d");
    assert_eq!(r.errors.len(), 1);
    assert_eq!(r.log_errors(), vec!["hush: in use (EBUSY): /f (oops)".to_string()]);
}

#[test]
fn denied_permission_survives_merging() {
    let denied = || {
        let mut r = RemoveResult::default();
        r.add_error(HushError::PermissionDenied { path: "/x".to_string(), source: other(None) });
        r
    };
    let mut a = RemoveResult::default();
    a.merge(denied());
    assert!(a.has_permission_errors());
    let mut b = denied();
    b.merge(RemoveResult::default());
    assert!(b.has_permission_errors());
}

#[test]
fn merging_can_be_grouped_at_will() {
    let one = |bytes: u64, path: &str| {
        let mut r = RemoveResult::default();
        r.freed_bytes = bytes;
        r.add_skip(path.to_string(), SkipReason::DryRun);
        r
    };
    let mut left = one(1, "/a");
    left.merge(one(2, "/b"));
    left.merge(one(4, "/c"));
    let mut tail = one(2, "/b");
    tail.merge(one(4, "/c"));
    let mut right = one(1, "/a");
    right.merge(tail);
    assert_eq!(left.freed_bytes, 7);
    assert_eq!(right.freed_bytes, 7);
    let names = |r: &RemoveResult| -> Vec<String> {
        r.skipped.iter().map(|s| s.path.clone()).collect()
    };
    assert_eq!(names(&left), names(&right));
}

#[test]
fn every_note_is_kept_once() {
    let path = || "/p".to_string();
    let mut inner = RemoveResult::default();
    inner.add_error(HushError::InUse(path()));
    inner.add_error(HushError::PermissionDenied { path: path(), source: other(None) });
    let mut r = RemoveResult::default();
    r.add_skip(path(), SkipReason::DryRun);
    r.add_error(HushError::NotFound(path()));
    r.add_error(HushError::Io { path: path(), source: other(None) });
    r.merge(inner);
    assert_eq!(r.skipped.len() + r.errors.len(), 5);
    assert_eq!(r.errors.len(), 2);
    assert!(r.errors.iter().all(|e| !e.is_skippable()));
}
