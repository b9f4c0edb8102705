// Removals, sweeps and sizes, on a file system in memory.

use hush::cleaner::measure::{dir_size_safe as begin_size, file_size_safe, Node};
use hush::cleaner::ops::{safe_remove as begin_removal, safe_remove_with, FileKind, Meta, Removal};
use hush::cleaner::walk::{
    safe_remove_old_files as age_steps, walk_delete_if as choice_steps, AgeRule, Entry, EntryMeta,
    Step, Sweep, Task,
};
use hush::clock::Stamp;
use hush::error::{IoFailure, IoKind, OsCodes, RemoveResult, SkipReason};
use std::collections::BTreeMap;

// ── a file system ────────────────────────────────────────────────────────────

#[derive(Clone)]
struct Item {
    inode: u64,
    kind: FileKind,
    len: u64,
    modified: Stamp,
}

struct Disk {
    items: BTreeMap<String, Item>,
    next: u64,
    now: Stamp,
    in_use: Vec<String>,
    denied: Vec<String>,
    lines: Vec<String>,
}

fn failure(kind: IoKind) -> IoFailure {
    IoFailure { kind, code: None, message: "refused".to_string() }
}

impl Disk {
    fn new() -> Disk {
        let mut d = Disk {
            items: BTreeMap::new(),
            next: 1,
            now: Stamp { secs: 1_700_000_000, nanos: 0 },
            in_use: vec![],
            denied: vec![],
            lines: vec![],
        };
        d.add("/tmp/t", FileKind::Directory, 64);
        d
    }

    fn add(&mut self, path: &str, kind: FileKind, len: u64) {
        let item = Item { inode: self.next, kind, len, modified: self.now };
        self.next += 1;
        self.items.insert(path.to_string(), item);
    }

    fn file(&mut self, path: &str, content: &[u8]) {
        self.add(path, FileKind::File, content.len() as u64);
    }

    fn dir(&mut self, path: &str) {
        self.add(path, FileKind::Directory, 64);
    }

    fn age(&mut self, path: &str, days: i64) {
        let t = Stamp { secs: self.now.secs - days * 86400, nanos: 0 };
        self.items.get_mut(path).unwrap().modified = t;
    }

    fn holds(&self, path: &str) -> bool {
        self.items.contains_key(path)
    }

    fn meta(&self, path: &str) -> Result<Meta, IoFailure> {
        match self.items.get(path) {
            Some(i) => Ok(Meta { kind: i.kind, len: i.len }),
            None => Err(failure(IoKind::NotFound)),
        }
    }

    fn children(&self, dir: &str) -> Result<Vec<String>, IoFailure> {
        match self.items.get(dir) {
            Some(i) if i.kind == FileKind::Directory => {}
            _ => return Err(failure(IoKind::NotFound)),
        }
        let prefix = format!("{dir}/");
        Ok(self
            .items
            .keys()
            .filter(|p| p.starts_with(&prefix) && !p[prefix.len()..].contains('/'))
            .cloned()
            .collect())
    }

    fn listing(&self, dir: &str) -> Result<Vec<Entry>, IoFailure> {
        Ok(self
            .children(dir)?
            .into_iter()
            .map(|path| {
                let i = &self.items[&path];
                Entry {
                    meta: Ok(EntryMeta {
                        is_dir: i.kind == FileKind::Directory,
                        modified: Ok(i.modified),
                    }),
                    path,
                }
            })
            .collect())
    }

    fn delete(&mut self, path: &str) -> Result<(), IoFailure> {
        if self.denied.iter().any(|d| d == path) {
            return Err(failure(IoKind::PermissionDenied));
        }
        let prefix = format!("{path}/");
        self.items.retain(|p, _| p != path && !p.starts_with(&prefix));
        Ok(())
    }
}

fn dir_size_safe(disk: &Disk, root: &str) -> u64 {
    let mut walk = begin_size(root);
    while let Some(path) = walk.next() {
        if let Some(i) = disk.items.get(&path) {
            let node = Node { inode: i.inode, kind: i.kind, len: i.len };
            if walk.observe(node) {
                walk.descend(disk.children(&path).unwrap_or_default());
            }
        }
    }
    walk.total()
}

fn drive(disk: &mut Disk, begun: Removal) -> RemoveResult {
    let mut stage = begun;
    loop {
        stage = match stage {
            Removal::Inspect(s) => {
                let meta = disk.meta(s.path());
                s.resume(meta)
            }
            Removal::Measure(s) => {
                let bytes = dir_size_safe(disk, s.path());
                s.resume(bytes)
            }
            Removal::Probe(s) => {
                let used = disk.in_use.iter().any(|p| p == s.path());
                s.resume(used)
            }
            Removal::Delete(s) => {
                let outcome = disk.delete(s.path());
                return s.finish(outcome);
            }
            Removal::Done(result, line) => {
                disk.lines.extend(line);
                return result;
            }
        };
    }
}

fn safe_remove(disk: &mut Disk, path: &str, dry_run: bool) -> RemoveResult {
    drive(disk, begin_removal(path, dry_run))
}

fn run_sweep<P: Fn(&Disk, &str) -> Vec<Step>>(
    disk: &mut Disk,
    root: &str,
    dry_run: bool,
    plan: P,
) -> RemoveResult {
    let mut sweep = Sweep::over(root);
    while let Some(task) = sweep.next() {
        match task {
            Task::List(dir) => {
                let steps = plan(disk, &dir);
                sweep.listed(steps);
            }
            Task::Remove(path) => {
                let outcome = safe_remove(disk, &path, dry_run);
                sweep.removed(outcome);
            }
        }
    }
    sweep.finish()
}

fn safe_remove_old_files(
    disk: &mut Disk,
    root: &str,
    max_age: u64,
    exts: Option<&[&str]>,
    recursive: bool,
    dry_run: bool,
) -> RemoveResult {
    let rule = AgeRule {
        cutoff: disk.now.back(max_age),
        exts: exts.map(|l| l.iter().map(|e| e.to_string()).collect()),
        recursive,
    };
    run_sweep(disk, root, dry_run, |d, dir| {
        let is_dir = d.items.get(dir).map(|i| i.kind == FileKind::Directory).unwrap_or(false);
        age_steps(dir, is_dir, d.listing(dir), &rule, OsCodes::current())
    })
}

fn walk_delete_if<K: Fn(&String) -> bool>(
    disk: &mut Disk,
    root: &str,
    recursive: bool,
    dry_run: bool,
    keep: K,
) -> RemoveResult {
    run_sweep(disk, root, dry_run, |d, dir| {
        choice_steps(dir, d.listing(dir), recursive, &keep, OsCodes::current())
    })
}

// ── safe_remove ──────────────────────────────────────────────────────────────

#[test]
fn removes_regular_file() {
    let mut disk = Disk::new();
    let file = "/tmp/t/test.log";
    disk.file(file, b"hello world");
    let size_before = disk.meta(file).unwrap().len;

    let r = safe_remove(&mut disk, file, false);

    assert!(!disk.holds(file), "file should be deleted");
    assert_eq!(r.freed_bytes, size_before);
    assert!(r.errors.is_empty(), "no errors expected");
    assert!(r.skipped.is_empty(), "no skips expected");
}

#[test]
fn removes_directory_tree() {
    let mut disk = Disk::new();
    let sub = "/tmp/t/sub";
    disk.dir(sub);
    disk.file("/tmp/t/sub/a.txt", b"aaaa");
    disk.file("/tmp/t/sub/b.txt", b"bbbbbb");

    let expected = dir_size_safe(&disk, sub);
    assert!(expected > 0);

    let r = safe_remove(&mut disk, sub, false);

    assert!(!disk.holds(sub), "directory should be deleted");
    assert_eq!(r.freed_bytes, expected);
    assert!(r.errors.is_empty());
}

#[test]
fn dry_run_does_not_delete() {
    let mut disk = Disk::new();
    let file = "/tmp/t/keep.txt";
    disk.file(file, b"do not delete me");
    let size_before = disk.meta(file).unwrap().len;

    let r = safe_remove(&mut disk, file, true);

    assert!(disk.holds(file), "dry-run must not delete");
    assert_eq!(r.freed_bytes, size_before, "dry-run should count bytes");
    assert!(r.skipped.iter().any(|s| s.reason == SkipReason::DryRun));
}

#[test]
fn removes_symlink_not_target() {
    let mut disk = Disk::new();
    let target = "/tmp/t/real.txt";
    let link = "/tmp/t/link.txt";
    disk.file(target, b"real content");
    disk.add(link, FileKind::Symlink, 15);

    let r = safe_remove(&mut disk, link, false);

    assert!(!disk.holds(link), "symlink should be gone");
    assert!(disk.holds(target), "target must survive");
    assert!(r.errors.is_empty());
    assert_eq!(r.freed_bytes, 0);
}

#[test]
fn hard_blocked_path_skipped() {
    let mut disk = Disk::new();
    let blocked = "/System/Library/CoreServices";
    disk.file(blocked, b"vital");
    let r = safe_remove(&mut disk, blocked, false);

    assert_eq!(r.freed_bytes, 0);
    assert!(r.skipped.iter().any(|s| s.reason == SkipReason::HardBlocked));
    assert!(r.errors.is_empty());
    assert!(disk.holds(blocked));
}

#[test]
fn missing_path_is_not_found_skip() {
    let mut disk = Disk::new();
    let path = "/tmp/hush_test_definitely_does_not_exist_xyz123";
    let r = safe_remove(&mut disk, path, false);

    assert_eq!(r.freed_bytes, 0);
    // NotFound is demoted to a skip, not an error
    assert!(r.errors.is_empty(), "ENOENT should be a skip, not an error");
    assert!(r.skipped.iter().any(|s| s.reason == SkipReason::NotFound));
}

// ── walk_delete_if ───────────────────────────────────────────────────────────

#[test]
fn walk_delete_if_selective() {
    let mut disk = Disk::new();
    disk.file("/tmp/t/keep.txt", b"keep");
    disk.file("/tmp/t/delete.log", b"delete");

    let r = walk_delete_if(&mut disk, "/tmp/t", false, false, |p| !p.ends_with(".log"));

    assert!(disk.holds("/tmp/t/keep.txt"), "keep.txt must stay");
    assert!(!disk.holds("/tmp/t/delete.log"), "delete.log must go");
    assert_eq!(r.freed_bytes, 6); // b"delete".len()
}

#[test]
fn walk_delete_if_recursive() {
    let mut disk = Disk::new();
    disk.dir("/tmp/t/sub");
    disk.file("/tmp/t/sub/x.DS_Store", b"meta");
    disk.file("/tmp/t/sub/real.txt", b"content");

    let r = walk_delete_if(&mut disk, "/tmp/t", true, false, |p| !p.ends_with(".DS_Store"));

    assert!(!disk.holds("/tmp/t/sub/x.DS_Store"));
    assert!(disk.holds("/tmp/t/sub/real.txt"));
    assert!(r.errors.is_empty());
}

#[test]
fn walk_delete_if_stays_out_of_directories_unless_asked() {
    let mut disk = Disk::new();
    disk.dir("/tmp/t/sub");
    disk.file("/tmp/t/sub/x.log", b"meta");
    let r = walk_delete_if(&mut disk, "/tmp/t", false, false, |_| false);
    assert!(disk.holds("/tmp/t/sub/x.log"));
    assert!(disk.holds("/tmp/t/sub"));
    assert_eq!(r.freed_bytes, 0);
}

#[test]
fn a_directory_that_cannot_be_listed_is_noted() {
    let mut disk = Disk::new();
    let r = walk_delete_if(&mut disk, "/tmp/none", true, false, |_| false);
    assert_eq!(r.skipped.len(), 1);
    assert_eq!(r.skipped[0].reason, SkipReason::NotFound);
    let b = walk_delete_if(&mut disk, "/System/Library", true, false, |_| false);
    assert_eq!(b.skipped[0].reason, SkipReason::HardBlocked);
}

// ── dir_size_safe ────────────────────────────────────────────────────────────

#[test]
fn dir_size_empty_dir_is_zero() {
    let disk = Disk::new();
    let size = dir_size_safe(&disk, "/tmp/t");
    assert!(size < 4096, "empty dir should be tiny, got {size}");
    assert_eq!(size, 0);
}

#[test]
fn dir_size_counts_nested_files() {
    let mut disk = Disk::new();
    disk.file("/tmp/t/a.txt", &[0u8; 1000]);
    disk.dir("/tmp/t/sub");
    disk.file("/tmp/t/sub/b.txt", &[0u8; 2000]);

    let size = dir_size_safe(&disk, "/tmp/t");
    assert!(size >= 3000, "expected >= 3000 bytes, got {size}");
    assert_eq!(size, 3000);
}

#[test]
fn dir_size_does_not_follow_symlink_cycle() {
    let mut disk = Disk::new();
    disk.dir("/tmp/t/sub");
    disk.add("/tmp/t/sub/loop", FileKind::Symlink, 6);

    let size = dir_size_safe(&disk, "/tmp/t");
    assert!(size < 10_000_000, "cycle guard failed, absurd size: {size}");
    assert_eq!(size, 6);
}

#[test]
fn dir_size_does_not_follow_symlink_to_file() {
    let mut disk = Disk::new();
    disk.file("/tmp/t/real.txt", &[0u8; 500]);
    disk.add("/tmp/t/link.txt", FileKind::Symlink, 15);

    let size = dir_size_safe(&disk, "/tmp/t");
    assert!(size >= 500);
    assert_eq!(size, 515);
}

#[test]
fn each_inode_counts_once() {
    let mut walk = begin_size("/d");
    assert_eq!(walk.next(), Some("/d".to_string()));
    assert!(walk.observe(Node { inode: 1, kind: FileKind::Directory, len: 64 }));
    walk.descend(vec!["/d/a".to_string(), "/d/b".to_string(), "/d/c".to_string()]);
    let file = Node { inode: 2, kind: FileKind::File, len: 100 };
    assert_eq!(walk.next(), Some("/d/a".to_string()));
    assert!(!walk.observe(file));
    assert_eq!(walk.next(), Some("/d/b".to_string()));
    assert!(!walk.observe(file));
    assert_eq!(walk.total(), 100);
    // A directory that was met before is not entered again.
    assert_eq!(walk.next(), Some("/d/c".to_string()));
    assert!(!walk.observe(Node { inode: 1, kind: FileKind::Directory, len: 64 }));
    assert_eq!(walk.next(), None);
    assert_eq!(walk.total(), 100);
}

#[test]
fn a_whole_walk_counts_everything() {
    let dir = |inode: u64| Node { inode, kind: FileKind::Directory, len: 64 };
    let file = |inode: u64, len: u64| Node { inode, kind: FileKind::File, len };
    // `/r/b` is a second name of `/r/a`, and `/r/a/y` a second name of `/r/x`.
    let look = |path: &str| -> Option<(Node, Vec<&str>)> {
        match path {
            "/r" => Some((dir(1), vec!["/r/x", "/r/a", "/r/b", "/r/lost"])),
            "/r/x" => Some((file(2, 10), vec![])),
            "/r/a" => Some((dir(3), vec!["/r/a/y", "/r/a/z"])),
            "/r/a/y" => Some((file(2, 10), vec![])),
            "/r/a/z" => Some((Node { inode: 4, kind: FileKind::Symlink, len: 7 }, vec![])),
            "/r/b" => Some((dir(3), vec!["/r/b/y", "/r/b/z"])),
            _ => None,
        }
    };
    let mut walk = begin_size("/r");
    let mut looked = vec![];
    while let Some(path) = walk.next() {
        if let Some((node, inside)) = look(&path) {
            if walk.observe(node) {
                walk.descend(inside.iter().map(|p| p.to_string()).collect());
            }
        }
        looked.push(path);
    }
    assert_eq!(walk.total(), 17);
    assert_eq!(looked, vec!["/r", "/r/x", "/r/a", "/r/a/y", "/r/a/z", "/r/b", "/r/lost"]);
}

#[test]
fn file_size_is_zero_where_unknown() {
    assert_eq!(file_size_safe(&Ok(Meta { kind: FileKind::Symlink, len: 9 })), 9);
    assert_eq!(file_size_safe(&Err(failure(IoKind::Other))), 0);
}

// ── safe_remove_old_files ────────────────────────────────────────────────────

#[test]
fn removes_old_files_respects_age() {
    let mut disk = Disk::new();
    let old = "/tmp/t/old.crash";
    let new = "/tmp/t/new.crash";
    disk.file(old, b"old crash");
    disk.file(new, b"new crash");
    disk.age(old, 10);

    let max_age = 7 * 86400; // 7 days
    let r = safe_remove_old_files(&mut disk, "/tmp/t", max_age, Some(&["crash"]), false, false);

    assert!(!disk.holds(old), "10-day-old file should be removed");
    assert!(disk.holds(new), "new file should be kept");
    assert_eq!(r.freed_bytes, 9); // b"old crash".len()
}

#[test]
fn extension_filter_skips_non_matching() {
    let mut disk = Disk::new();
    let crash = "/tmp/t/report.crash";
    let log = "/tmp/t/report.log";
    disk.file(crash, b"crash");
    disk.file(log, b"log");
    disk.age(crash, 30);
    disk.age(log, 30);

    let max_age = 86400;
    safe_remove_old_files(&mut disk, "/tmp/t", max_age, Some(&["crash"]), false, false);

    assert!(!disk.holds(crash), "crash file should be removed");
    assert!(disk.holds(log), "log file should be kept (wrong ext)");
}

#[test]
fn files_exactly_at_the_cutoff_stay() {
    let mut disk = Disk::new();
    disk.file("/tmp/t/a", b"a");
    disk.age("/tmp/t/a", 7);
    safe_remove_old_files(&mut disk, "/tmp/t", 7 * 86400, None, false, false);
    assert!(disk.holds("/tmp/t/a"));
    safe_remove_old_files(&mut disk, "/tmp/t", 7 * 86400 - 1, None, false, false);
    assert!(!disk.holds("/tmp/t/a"));
}

#[test]
fn age_sweeps_enter_directories_only_when_recursive() {
    let mut disk = Disk::new();
    disk.dir("/tmp/t/sub");
    disk.file("/tmp/t/sub/a.log", b"aaa");
    disk.age("/tmp/t/sub/a.log", 9);
    let r = safe_remove_old_files(&mut disk, "/tmp/t", 86400, None, false, false);
    assert_eq!(r.freed_bytes, 0);
    let r = safe_remove_old_files(&mut disk, "/tmp/t", 86400, None, true, true);
    assert_eq!(r.freed_bytes, 3);
    assert_eq!(r.skipped.len(), 1);
    assert!(disk.holds("/tmp/t/sub/a.log"));
    let r = safe_remove_old_files(&mut disk, "/tmp/t", 86400, None, true, false);
    assert_eq!(r.freed_bytes, 3);
    assert!(!disk.holds("/tmp/t/sub/a.log"));
}

#[test]
fn age_sweeps_leave_what_is_no_directory() {
    let mut disk = Disk::new();
    disk.file("/tmp/t/a", b"a");
    let r = safe_remove_old_files(&mut disk, "/tmp/t/a", 0, None, true, false);
    assert!(disk.holds("/tmp/t/a"));
    assert!(r.skipped.is_empty() && r.errors.is_empty());
    let r = safe_remove_old_files(&mut disk, "/private/var/db/x", 0, None, true, false);
    assert_eq!(r.skipped[0].reason, SkipReason::HardBlocked);
}

#[test]
fn age_sweeps_note_what_cannot_be_read() {
    let rule = AgeRule { cutoff: Stamp { secs: 100, nanos: 0 }, exts: None, recursive: true };
    let entries = vec![
        Entry { path: "/tmp/a".to_string(), meta: Err(failure(IoKind::PermissionDenied)) },
        Entry {
            path: "/tmp/b".to_string(),
            meta: Ok(EntryMeta { is_dir: false, modified: Err(failure(IoKind::Other)) }),
        },
        Entry { path: "/x/.Trash/c".to_string(), meta: Err(failure(IoKind::Other)) },
        Entry {
            path: "/tmp/d".to_string(),
            meta: Ok(EntryMeta { is_dir: true, modified: Err(failure(IoKind::Other)) }),
        },
    ];
    let steps = age_steps("/tmp", true, Ok(entries), &rule, OsCodes { busy: 16, unsupported: 45 });
    assert_eq!(steps.len(), 4);
    assert!(matches!(&steps[0], Step::Fail(e) if !e.is_skippable()));
    assert!(matches!(&steps[1], Step::Fail(_)));
    assert!(matches!(&steps[2], Step::Skip(p, SkipReason::HardBlocked) if p == "/x/.Trash/c"));
    assert!(matches!(&steps[3], Step::Descend(p) if p == "/tmp/d"));
}

// ── what a removal guarantees ────────────────────────────────────────────────

#[test]
fn paths_that_need_full_disk_access_are_skipped() {
    let mut disk = Disk::new();
    let path = "/Users/u/Library/Messages/chat.db";
    disk.file(path, b"words");
    let r = safe_remove(&mut disk, path, false);
    assert!(disk.holds(path));
    assert_eq!(r.skipped[0].reason, SkipReason::HardBlocked);
}

#[test]
fn large_directories_in_use_stay() {
    let mut disk = Disk::new();
    disk.dir("/tmp/t/big");
    disk.add("/tmp/t/big/blob", FileKind::File, 536_870_913);
    disk.in_use.push("/tmp/t/big".to_string());
    let r = safe_remove(&mut disk, "/tmp/t/big", false);
    assert!(disk.holds("/tmp/t/big"));
    assert_eq!(r.skipped[0].reason, SkipReason::ProcessInUse);
    assert_eq!(r.freed_bytes, 0);
    disk.in_use.clear();
    let r = safe_remove(&mut disk, "/tmp/t/big", false);
    assert_eq!(r.freed_bytes, 536_870_913);
}

#[test]
fn smaller_directories_are_not_asked_about() {
    let mut disk = Disk::new();
    disk.dir("/tmp/t/big");
    disk.add("/tmp/t/big/blob", FileKind::File, 536_870_912);
    disk.in_use.push("/tmp/t/big".to_string());
    let r = safe_remove(&mut disk, "/tmp/t/big", false);
    assert!(!disk.holds("/tmp/t/big"));
    assert_eq!(r.freed_bytes, 536_870_912);
}

#[test]
fn denied_deletions_are_errors() {
    let mut disk = Disk::new();
    disk.file("/tmp/t/a", b"a");
    disk.denied.push("/tmp/t/a".to_string());
    let r = safe_remove(&mut disk, "/tmp/t/a", false);
    assert_eq!(r.freed_bytes, 0);
    assert!(r.has_permission_errors());
    assert!(r.skipped.is_empty());
}

#[test]
fn dry_runs_show_what_they_would_remove() {
    let mut disk = Disk::new();
    disk.add("/tmp/t/a", FileKind::File, 2048);
    safe_remove(&mut disk, "/tmp/t/a", true);
    assert_eq!(disk.lines, vec![format!("  [dry]  {:<60} {}", "/tmp/t/a", "2 KB")]);
    disk.file("/tmp/t/empty", b"");
    safe_remove(&mut disk, "/tmp/t/empty", true);
    assert_eq!(disk.lines.len(), 1);
}

#[test]
fn special_files_are_removed_as_trees() {
    let codes = OsCodes { busy: 16, unsupported: 45 };
    match safe_remove_with("/tmp/t/pipe", false, codes) {
        Removal::Inspect(s) => {
            match s.resume(Ok(Meta { kind: FileKind::Other, len: 0 })) {
                Removal::Delete(d) => assert!(d.is_tree()),
                _ => panic!("a deletion was expected"),
            };
        }
        _ => panic!("an inspection was expected"),
    }
}

#[test]
fn sweeps_go_depth_first_and_add_up() {
    let mut sweep = Sweep::over("/r");
    assert!(matches!(sweep.next(), Some(Task::List(p)) if p == "/r"));
    sweep.listed(vec![
        Step::Skip("/r/s".to_string(), SkipReason::HardBlocked),
        Step::Descend("/r/d".to_string()),
        Step::Remove("/r/x".to_string()),
    ]);
    assert!(matches!(sweep.next(), Some(Task::List(p)) if p == "/r/d"));
    sweep.listed(vec![Step::Remove("/r/d/y".to_string())]);
    assert!(matches!(sweep.next(), Some(Task::Remove(p)) if p == "/r/d/y"));
    let mut gone = RemoveResult::default();
    gone.freed_bytes = 5;
    sweep.removed(gone);
    assert!(matches!(sweep.next(), Some(Task::Remove(p)) if p == "/r/x"));
    let mut gone = RemoveResult::default();
    gone.freed_bytes = 7;
    gone.add_skip("/r/x".to_string(), SkipReason::DryRun);
    sweep.removed(gone);
    assert!(sweep.next().is_none());
    let r = sweep.finish();
    assert_eq!(r.freed_bytes, 12);
    assert_eq!(r.skipped.len(), 2);
    assert_eq!(r.skipped[1].path, "/r/x");
}

// ── RemoveResult ─────────────────────────────────────────────────────────────

#[test]
fn remove_result_merge_accumulates() {
    let mut a = RemoveResult::default();
    a.freed_bytes = 100;

    let mut b = RemoveResult::default();
    b.freed_bytes = 200;

    a.merge(b);
    assert_eq!(a.freed_bytes, 300);
}
