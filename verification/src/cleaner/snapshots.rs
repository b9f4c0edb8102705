//! Local snapshots of the file system: which exist, which are stale, and which
//! incomplete backups go with them.
//!
//! The newest snapshots are always kept; of the others, those that have reached
//! the maximal age go. Nothing goes while a backup is running, and nothing goes in a
//! dry run: there the commands that delete are never handed out.

use vstd::prelude::*;
use crate::clock::Stamp;
use crate::command::{command, CommandLine};
use crate::config::{Config, Snapshots, Thresholds};
use crate::dates::Reading;
use crate::{clock, dates, lists, paths, size, text};

verus! {

broadcast use crate::text::group_views;

/// A local snapshot.
#[derive(Debug)]
pub struct Snapshot {
    /// For example `com.apple.TimeMachine.2024-11-03-141500`.
    pub name: String,
    /// The seconds from the epoch to the moment it was taken.
    pub ts: u64,
}

/// The view of a [`Snapshot`].
pub struct SnapshotView {
    pub name: Seq<char>,
    pub ts: int,
}

impl View for Snapshot {
    type V = SnapshotView;

    open spec fn view(&self) -> SnapshotView {
        SnapshotView { name: self.name@, ts: self.ts as int }
    }
}

/// The full days from `then` to `now`, both in seconds; none where `then` is later.
pub open spec fn days_between(then: int, now: int) -> int {
    if now <= then {
        0
    } else {
        (now - then) / 86400
    }
}

/// The age of a snapshot in full days.
pub open spec fn age_of(s: SnapshotView, now: Stamp) -> int {
    days_between(s.ts, clock::since_epoch(now))
}

/// The date in the name of a snapshot; the whole name where it has none.
pub open spec fn date_in(name: Seq<char>) -> Seq<char> {
    if text::last_index_of(name, '.') < 0 {
        name
    } else {
        match text::byte_slice(text::after_last(name, '.'), 0, 10) {
            Some(date) => date,
            None => name,
        }
    }
}

/// What stands behind the last dot of a name; the whole name where it has none.
fn behind_last_dot(name: &str) -> (r: (Vec<char>, bool))
    ensures
        r.0@ == text::after_last(name@, '.'),
        r.1 == (text::last_index_of(name@, '.') >= 0),
{
    let x = text::chars_of(name);
    match text::rfind_char(&x, '.') {
        Some(i) => {
            let n: usize = x.len();
            let rest = text::string_of(&x, i + 1, n);
            assert(rest@ =~= text::after_last(name@, '.'));
            (text::chars_of(rest.as_str()), true)
        },
        None => {
            assert(text::after_last(name@, '.') =~= name@);
            (x, false)
        },
    }
}

impl Snapshot {
    /// The age in full days.
    pub fn age_days(&self, now: Stamp) -> (r: u64)
        ensures
            r == age_of(self@, now),
    {
        let secs: u64 = now.unix_secs();
        if secs <= self.ts {
            0
        } else {
            (secs - self.ts) / 86400
        }
    }

    /// The date in the name, as `2024-11-03`.
    pub fn date_str(&self) -> (r: String)
        ensures
            r@ == date_in(self@.name),
    {
        let (rest, dotted) = behind_last_dot(self.name.as_str());
        if !dotted {
            return text::owned(self.name.as_str());
        }
        match text::slice_bytes(&rest, 0, 10) {
            Some(date) => date,
            None => text::owned(self.name.as_str()),
        }
    }
}

// ── what exists ──────────────────────────────────────────────────────────────

/// The question for the local snapshots.
pub fn list_command() -> (r: CommandLine)
    ensures
        r@ == ("tmutil"@, seq!["listlocalsnapshots"@, "/"@]),
{
    let r = command("tmutil", &["listlocalsnapshots", "/"]);
    assert(r@.1 =~= seq!["listlocalsnapshots"@, "/"@]);
    r
}

/// The line names a snapshot.
pub open spec fn names_snapshot(line: Seq<char>) -> bool {
    text::has(line, "com.apple.TimeMachine."@)
}

/// No line names a snapshot whose moment cannot be told.
pub open spec fn all_in_range(ls: Seq<Seq<char>>) -> bool {
    forall|i: int|
        0 <= i < ls.len() && names_snapshot(#[trigger] ls[i]) ==> dates::snapshot_reading(
            text::trim(ls[i]),
        ) != Reading::OutOfRange
}

/// The snapshots that the lines name, in order. A name that tells no moment is left
/// out.
pub open spec fn snapshots_in(ls: Seq<Seq<char>>) -> Seq<SnapshotView>
    decreases ls.len(),
{
    if ls.len() == 0 {
        Seq::empty()
    } else {
        let before = snapshots_in(ls.drop_last());
        let name = text::trim(ls.last());
        match dates::snapshot_reading(name) {
            Reading::At(ts) => if names_snapshot(ls.last()) {
                before.push(SnapshotView { name, ts })
            } else {
                before
            },
            _ => before,
        }
    }
}

/// Whether every snapshot in a reply has a moment that can be told, or tells none.
pub fn snapshots_in_range(reply: &str) -> (r: bool)
    ensures
        r == all_in_range(text::lines(reply@)),
{
    let ls = text::lines_of(reply);
    let ghost all = text::lines(reply@);
    let mut i: usize = 0;
    while i < ls.len()
        invariant
            i <= ls@.len(),
            text::views(ls@) == all,
            all == text::lines(reply@),
            forall|j: int|
                0 <= j < i && names_snapshot(#[trigger] all[j]) ==> dates::snapshot_reading(
                    text::trim(all[j]),
                ) != Reading::OutOfRange,
        decreases ls.len() - i,
    {
        let line: &str = ls[i].as_str();
        assert(all[i as int] == line@);
        if text::contains(line, "com.apple.TimeMachine.") {
            let name = text::trimmed(line);
            if !dates::snapshot_ts_in_range(name.as_str()) {
                assert(names_snapshot(all[i as int]));
                return false;
            }
        }
        i = i + 1;
    }
    true
}

/// The local snapshots in a reply.
pub fn fetch_snapshots(reply: &str) -> (r: Vec<Snapshot>)
    requires
        all_in_range(text::lines(reply@)),
    ensures
        text::views(r@) == snapshots_in(text::lines(reply@)),
{
    let ls = text::lines_of(reply);
    let ghost all = text::lines(reply@);
    let mut r: Vec<Snapshot> = Vec::new();
    let mut i: usize = 0;
    assert(all.take(0) =~= Seq::<Seq<char>>::empty());
    while i < ls.len()
        invariant
            i <= ls@.len(),
            text::views(ls@) == all,
            all_in_range(all),
            text::views(r@) == snapshots_in(all.take(i as int)),
        decreases ls.len() - i,
    {
        let line: &str = ls[i].as_str();
        assert(all[i as int] == line@);
        assert(all.take(i + 1).drop_last() =~= all.take(i as int));
        assert(all.take(i + 1).last() == line@);
        if text::contains(line, "com.apple.TimeMachine.") {
            let name = text::trimmed(line);
            assert(names_snapshot(all[i as int]));
            match dates::parse_snapshot_ts(name.as_str()) {
                Some(ts) => {
                    r.push(Snapshot { name, ts });
                },
                None => {},
            }
        }
        i = i + 1;
    }
    assert(all.take(i as int) =~= all);
    r
}

// ── the report ───────────────────────────────────────────────────────────────

/// Every name can be cut to the width of its column.
pub open spec fn listable(snaps: Seq<SnapshotView>) -> bool {
    forall|i: int| 0 <= i < snaps.len() ==> text::can_truncate((#[trigger] snaps[i]).name, 48)
}

/// The line for one snapshot: its name, its age and its date.
pub open spec fn list_row(s: SnapshotView, now: Stamp) -> Seq<char> {
    "  "@ + text::padded_right(text::truncated(s.name, 48), 48, ' ') + " "@ + text::padded_left(
        text::decimal(age_of(s, now) as nat),
        6,
    ) + "d  "@ + text::padded_left(date_in(s.name), 10)
}

/// The heading of the report.
pub open spec fn list_heading() -> Seq<Seq<char>> {
    seq![
        "\n  Local APFS Snapshots"@,
        "  "@ + text::padded_right("Name"@, 48, ' ') + " "@ + text::padded_left("Age"@, 8) + "  "@
            + text::padded_left("Date"@, 10),
        "  "@ + text::repeated('─', 72),
    ]
}

/// The report on the local snapshots, line by line.
pub open spec fn list_lines(snaps: Seq<SnapshotView>, now: Stamp) -> Seq<Seq<char>> {
    if snaps.len() == 0 {
        seq!["  snapshots  no local APFS snapshots found"@]
    } else {
        (list_heading() + snaps.map_values(|s: SnapshotView| list_row(s, now))).push(""@)
    }
}

/// Whether every name can be cut to the width of its column.
pub fn is_listable(snaps: &Vec<Snapshot>) -> (r: bool)
    ensures
        r == listable(text::views(snaps@)),
{
    let ghost all = text::views(snaps@);
    let mut i: usize = 0;
    while i < snaps.len()
        invariant
            i <= snaps@.len(),
            all == text::views(snaps@),
            forall|j: int| 0 <= j < i ==> text::can_truncate((#[trigger] all[j]).name, 48),
        decreases snaps.len() - i,
    {
        assert(all[i as int].name == snaps@[i as int].name@);
        if !text::truncatable(snaps[i].name.as_str(), 48) {
            return false;
        }
        i = i + 1;
    }
    true
}

fn row(s: &Snapshot, now: Stamp) -> (r: String)
    requires
        text::can_truncate(s@.name, 48),
    ensures
        r@ == list_row(s@, now),
{
    let name = text::pad_right(text::truncate(s.name.as_str(), 48).as_str(), 48, ' ');
    let age = text::pad_left(text::decimal_of(s.age_days(now)).as_str(), 6);
    let date = text::pad_left(s.date_str().as_str(), 10);
    let mut r = text::join3("  ", name.as_str(), " ");
    r.append(age.as_str());
    r.append("d  ");
    r.append(date.as_str());
    r
}

fn heading() -> (r: Vec<String>)
    ensures
        text::views(r@) == list_heading(),
{
    let mut r: Vec<String> = Vec::new();
    r.push(text::owned("\n  Local APFS Snapshots"));
    let mut h = text::join3("  ", text::pad_right("Name", 48, ' ').as_str(), " ");
    h.append(text::pad_left("Age", 8).as_str());
    h.append("  ");
    h.append(text::pad_left("Date", 10).as_str());
    r.push(h);
    r.push(text::join2("  ", text::repeat('─', 72).as_str()));
    assert(text::views(r@) =~= list_heading());
    r
}

/// The report on the local snapshots.
pub fn list(snaps: &Vec<Snapshot>, now: Stamp) -> (r: Vec<String>)
    requires
        listable(text::views(snaps@)),
    ensures
        text::views(r@) == list_lines(text::views(snaps@), now),
{
    let ghost all = text::views(snaps@);
    let mut r: Vec<String> = Vec::new();
    if snaps.len() == 0 {
        r.push(text::owned("  snapshots  no local APFS snapshots found"));
        assert(text::views(r@) =~= list_lines(all, now));
        return r;
    }
    let ghost rows = all.map_values(|s: SnapshotView| list_row(s, now));
    r = heading();
    let mut i: usize = 0;
    assert(text::views(r@) =~= list_heading() + rows.take(0));
    while i < snaps.len()
        invariant
            i <= snaps@.len(),
            all == text::views(snaps@),
            listable(all),
            rows == all.map_values(|s: SnapshotView| list_row(s, now)),
            text::views(r@) == list_heading() + rows.take(i as int),
        decreases snaps.len() - i,
    {
        assert(text::can_truncate(all[i as int].name, 48));
        let line = row(&snaps[i], now);
        assert(line@ == rows[i as int]);
        r.push(line);
        i = i + 1;
        assert(text::views(r@) =~= list_heading() + rows.take(i as int));
    }
    assert(rows.take(i as int) =~= rows);
    r.push(text::owned(""));
    r
}

// ── what is stale ────────────────────────────────────────────────────────────

/// Snapshots by the moment they were taken, the oldest first.
pub open spec fn oldest_first(snaps: Seq<SnapshotView>) -> Seq<int> {
    lists::sorted_order(snaps.map_values(|s: SnapshotView| s.ts))
}

/// How many snapshots there are beyond those that are kept.
pub open spec fn beyond(n: int, keep: int) -> int {
    if n > keep {
        n - keep
    } else {
        0
    }
}

/// The snapshot has reached the maximal age.
pub open spec fn aged(snaps: Seq<SnapshotView>, now: Stamp, max_age: int) -> spec_fn(int) -> bool {
    |i: int| age_of(snaps[i], now) >= max_age
}

/// The stale snapshots, the oldest first: all that have reached the maximal age but
/// for the `keep` newest.
pub open spec fn stale(snaps: Seq<SnapshotView>, now: Stamp, keep: int, max_age: int) -> Seq<int> {
    oldest_first(snaps).take(beyond(snaps.len() as int, keep)).filter(aged(snaps, now, max_age))
}

/// The stale snapshots, by their indices.
pub fn stale_snapshots(snaps: &Vec<Snapshot>, now: Stamp, keep: u64, max_age: u64) -> (r: Vec<
    usize,
>)
    ensures
        lists::indices(r@) == stale(text::views(snaps@), now, keep as int, max_age as int),
        forall|i: int| 0 <= i < r@.len() ==> #[trigger] r@[i] < snaps@.len(),
{
    let ghost all = text::views(snaps@);
    let ghost ages = all.map_values(|s: SnapshotView| s.ts);
    let mut keys: Vec<i128> = Vec::new();
    let mut i: usize = 0;
    while i < snaps.len()
        invariant
            i <= snaps@.len(),
            all == text::views(snaps@),
            ages == all.map_values(|s: SnapshotView| s.ts),
            lists::whole_keys(keys@) == ages.take(i as int),
        decreases snaps.len() - i,
    {
        let key: i128 = snaps[i].ts as i128;
        assert(ages[i as int] == key);
        let ghost before = keys@;
        keys.push(key);
        assert(lists::whole_keys(keys@) =~= lists::whole_keys(before).push(key as int));
        i = i + 1;
        assert(lists::whole_keys(keys@) =~= ages.take(i as int));
    }
    assert(ages.take(i as int) =~= ages);
    let order = lists::sort_order(&keys);
    let ghost sorted = oldest_first(all);
    let n: usize = if snaps.len() as u64 > keep {
        snaps.len() - keep as usize
    } else {
        0
    };
    let mut r: Vec<usize> = Vec::new();
    let mut k: usize = 0;
    proof {
        reveal(Seq::filter);
        assert(sorted.take(0) =~= Seq::<int>::empty());
        assert(lists::indices(r@) =~= Seq::<int>::empty());
    }
    while k < n
        invariant
            k <= n <= order@.len(),
            order@.len() == snaps@.len(),
            all == text::views(snaps@),
            sorted == oldest_first(all),
            lists::indices(order@) == sorted,
            forall|i: int| 0 <= i < order@.len() ==> #[trigger] order@[i] < snaps@.len(),
            forall|i: int| 0 <= i < r@.len() ==> #[trigger] r@[i] < snaps@.len(),
            lists::indices(r@) == sorted.take(k as int).filter(aged(all, now, max_age as int)),
        decreases n - k,
    {
        let s: usize = order[k];
        proof {
            reveal(Seq::filter);
            assert(sorted.take(k + 1).drop_last() =~= sorted.take(k as int));
            assert(sorted.take(k + 1).last() == s as int);
            assert(all[s as int] == snaps@[s as int]@);
        }
        let ghost before = r@;
        if snaps[s].age_days(now) >= max_age {
            r.push(s);
            assert(lists::indices(r@) =~= lists::indices(before).push(s as int));
        }
        k = k + 1;
    }
    r
}

// ── deletion ─────────────────────────────────────────────────────────────────

/// The question whether the tool for snapshots is there.
pub fn which_tmutil() -> (r: CommandLine)
    ensures
        r@ == ("which"@, seq!["tmutil"@]),
{
    let r = command("which", &["tmutil"]);
    assert(r@.1 =~= seq!["tmutil"@]);
    r
}

/// The question whether a backup is running.
pub fn tm_status() -> (r: CommandLine)
    ensures
        r@ == ("tmutil"@, seq!["status"@]),
{
    let r = command("tmutil", &["status"]);
    assert(r@.1 =~= seq!["status"@]);
    r
}

/// The line says that a backup is running.
pub open spec fn says_running(line: Seq<char>) -> bool {
    let l = text::trim(line);
    (text::has(l, "\"Running\""@) || "Running"@.is_prefix_of(l)) && l.contains('=') && l.contains(
        '1',
    )
}

/// Whether a backup is running, by the reply to [`tm_status`].
pub fn tm_is_running(reply: &str) -> (r: bool)
    ensures
        r == exists|i: int|
            0 <= i < text::lines(reply@).len() && says_running(#[trigger] text::lines(reply@)[i]),
{
    let ls = text::lines_of(reply);
    let ghost all = text::lines(reply@);
    let mut i: usize = 0;
    while i < ls.len()
        invariant
            i <= ls@.len(),
            text::views(ls@) == all,
            all == text::lines(reply@),
            forall|j: int| 0 <= j < i ==> !says_running(#[trigger] all[j]),
        decreases ls.len() - i,
    {
        assert(all[i as int] == ls@[i as int]@);
        let l = text::trimmed(ls[i].as_str());
        if (text::contains(l.as_str(), "\"Running\"") || text::starts_with(l.as_str(), "Running"))
            && text::contains_char(l.as_str(), '=') && text::contains_char(l.as_str(), '1') {
            assert(says_running(all[i as int]));
            return true;
        }
        i = i + 1;
    }
    false
}

/// What the deletion of one snapshot is estimated to free.
pub const SNAPSHOT_ESTIMATE: u64 = 524_288_000;

/// A snapshot to be deleted, and how.
pub struct Deletion {
    pub name: String,
    pub command: CommandLine,
}

/// The view of a [`Deletion`].
pub struct DeletionView {
    pub name: Seq<char>,
    pub command: (Seq<char>, Seq<Seq<char>>),
}

impl View for Deletion {
    type V = DeletionView;

    open spec fn view(&self) -> DeletionView {
        DeletionView { name: self.name@, command: self.command@ }
    }
}

/// How a snapshot is deleted. The tool takes what stands behind the last dot of the name.
pub open spec fn deletion_of(s: SnapshotView) -> DeletionView {
    DeletionView {
        name: s.name,
        command: ("tmutil"@, seq!["deletelocalsnapshots"@, text::after_last(s.name, '.')]),
    }
}

/// The line that a dry run shows for a snapshot.
pub open spec fn shown_as(s: SnapshotView, now: Stamp) -> Seq<char> {
    "  [dry] would delete snapshot "@ + date_in(s.name) + " ("@ + text::decimal(
        age_of(s, now) as nat,
    ) + "d old)"@
}

/// The command that deletes a snapshot.
pub fn delete_snapshot(name: &str) -> (r: CommandLine)
    ensures
        r@ == ("tmutil"@, seq!["deletelocalsnapshots"@, text::after_last(name@, '.')]),
{
    let (rest, _) = behind_last_dot(name);
    let n: usize = rest.len();
    let date = text::string_of(&rest, 0, n);
    assert(date@ =~= text::after_last(name@, '.'));
    let r = command("tmutil", &["deletelocalsnapshots", date.as_str()]);
    assert(r@.1 =~= seq!["deletelocalsnapshots"@, text::after_last(name@, '.')]);
    r
}

fn deletion(s: &Snapshot) -> (r: Deletion)
    ensures
        r@ == deletion_of(s@),
{
    Deletion {
        name: text::owned(s.name.as_str()),
        command: delete_snapshot(s.name.as_str()),
    }
}

fn dry_line(s: &Snapshot, now: Stamp) -> (r: String)
    ensures
        r@ == shown_as(s@, now),
{
    let mut line = text::join3("  [dry] would delete snapshot ", s.date_str().as_str(), " (");
    line.append(text::decimal_of(s.age_days(now)).as_str());
    line.append("d old)");
    line
}

/// The deletions of the snapshots with these indices.
pub open spec fn deletions_of(snaps: Seq<SnapshotView>, which: Seq<int>) -> Seq<DeletionView> {
    which.map_values(|i: int| deletion_of(snaps[i]))
}

/// The lines that a dry run shows for the snapshots with these indices.
pub open spec fn lines_of(snaps: Seq<SnapshotView>, which: Seq<int>, now: Stamp) -> Seq<
    Seq<char>,
> {
    which.map_values(|i: int| shown_as(snaps[i], now))
}

fn deletions(snaps: &Vec<Snapshot>, which: &Vec<usize>) -> (r: Vec<Deletion>)
    requires
        forall|i: int| 0 <= i < which@.len() ==> #[trigger] which@[i] < snaps@.len(),
    ensures
        text::views(r@) == deletions_of(text::views(snaps@), lists::indices(which@)),
{
    let ghost all = text::views(snaps@);
    let ghost want = deletions_of(all, lists::indices(which@));
    let mut r: Vec<Deletion> = Vec::new();
    let mut i: usize = 0;
    assert(text::views(r@) =~= want.take(0));
    while i < which.len()
        invariant
            i <= which@.len(),
            all == text::views(snaps@),
            want == deletions_of(all, lists::indices(which@)),
            forall|i: int| 0 <= i < which@.len() ==> #[trigger] which@[i] < snaps@.len(),
            text::views(r@) == want.take(i as int),
        decreases which.len() - i,
    {
        let d = deletion(&snaps[which[i]]);
        assert(want[i as int] == d@);
        r.push(d);
        i = i + 1;
        assert(text::views(r@) =~= want.take(i as int));
    }
    assert(want.take(i as int) =~= want);
    r
}

fn dry_lines(snaps: &Vec<Snapshot>, which: &Vec<usize>, now: Stamp) -> (r: Vec<String>)
    requires
        forall|i: int| 0 <= i < which@.len() ==> #[trigger] which@[i] < snaps@.len(),
    ensures
        text::views(r@) == lines_of(text::views(snaps@), lists::indices(which@), now),
{
    let ghost all = text::views(snaps@);
    let ghost want = lines_of(all, lists::indices(which@), now);
    let mut r: Vec<String> = Vec::new();
    let mut i: usize = 0;
    assert(text::views(r@) =~= want.take(0));
    while i < which.len()
        invariant
            i <= which@.len(),
            all == text::views(snaps@),
            want == lines_of(all, lists::indices(which@), now),
            forall|i: int| 0 <= i < which@.len() ==> #[trigger] which@[i] < snaps@.len(),
            text::views(r@) == want.take(i as int),
        decreases which.len() - i,
    {
        let line = dry_line(&snaps[which[i]], now);
        assert(want[i as int] == line@);
        r.push(line);
        i = i + 1;
        assert(text::views(r@) =~= want.take(i as int));
    }
    assert(want.take(i as int) =~= want);
    r
}

// ── incomplete backups ───────────────────────────────────────────────────────

/// A backup on a backup volume: its path, its name, and when it was last changed.
pub struct Backup {
    pub path: String,
    pub name: String,
    pub modified: Option<Stamp>,
}

/// The view of a [`Backup`].
pub struct BackupView {
    pub path: Seq<char>,
    pub name: Seq<char>,
    pub modified: Option<Stamp>,
}

impl View for Backup {
    type V = BackupView;

    open spec fn view(&self) -> BackupView {
        BackupView { path: self.path@, name: self.name@, modified: self.modified }
    }
}

/// The backup was begun and never finished.
pub open spec fn incomplete(name: Seq<char>) -> bool {
    ".inProgress"@.is_suffix_of(name) || ".inprogress"@.is_suffix_of(name)
}

/// The second of the last change; `now` where it is not known or lies before the epoch.
pub open spec fn changed_at(modified: Option<Stamp>, now: Stamp) -> int {
    match modified {
        Some(t) => if t.secs >= 0 {
            t.secs as int
        } else {
            clock::since_epoch(now)
        },
        None => clock::since_epoch(now),
    }
}

/// The seconds since the last change; none where it lies ahead.
pub open spec fn idle_secs(modified: Option<Stamp>, now: Stamp) -> int {
    let at = changed_at(modified, now);
    if clock::since_epoch(now) > at {
        clock::since_epoch(now) - at
    } else {
        0
    }
}

/// An incomplete backup that has not changed for `safe_secs`.
pub open spec fn abandoned(now: Stamp, safe_secs: int) -> spec_fn(BackupView) -> bool {
    |b: BackupView| incomplete(b.name) && idle_secs(b.modified, now) >= safe_secs
}

fn is_abandoned(b: &Backup, now: Stamp, safe_secs: u64) -> (r: bool)
    ensures
        r == abandoned(now, safe_secs as int)(b@),
{
    if !text::ends_with(b.name.as_str(), ".inProgress") && !text::ends_with(
        b.name.as_str(),
        ".inprogress",
    ) {
        return false;
    }
    let secs: u64 = now.unix_secs();
    let at: u64 = match b.modified {
        Some(t) => if t.secs >= 0 {
            t.secs as u64
        } else {
            secs
        },
        None => secs,
    };
    let idle: u64 = if secs > at {
        secs - at
    } else {
        0
    };
    idle >= safe_secs
}

/// What is done about an incomplete backup that no one works on any more.
pub enum BackupStep {
    /// Show that it would be deleted.
    Show(Backup),
    /// Delete it.
    Delete(Backup, CommandLine),
}

/// The view of a [`BackupStep`].
pub enum BackupStepView {
    Show(BackupView),
    Delete(BackupView, (Seq<char>, Seq<Seq<char>>)),
}

impl View for BackupStep {
    type V = BackupStepView;

    open spec fn view(&self) -> BackupStepView {
        match self {
            BackupStep::Show(b) => BackupStepView::Show(b@),
            BackupStep::Delete(b, c) => BackupStepView::Delete(b@, c@),
        }
    }
}

/// What is done about an abandoned backup: in a dry run it is only shown.
pub open spec fn backup_step(dry_run: bool) -> spec_fn(BackupView) -> BackupStepView {
    |b: BackupView|
        if dry_run {
            BackupStepView::Show(b)
        } else {
            BackupStepView::Delete(b, ("tmutil"@, seq!["delete"@, b.path]))
        }
}

/// What is done about the backups among `found` that are abandoned.
pub open spec fn backup_steps(
    found: Seq<BackupView>,
    safe_secs: int,
    now: Stamp,
    dry_run: bool,
) -> Seq<BackupStepView> {
    found.filter(abandoned(now, safe_secs)).map_values(backup_step(dry_run))
}

/// What is done about the incomplete backups among `found` that no one works on any more.
/// A dry run deletes none.
pub fn delete_incomplete_backups(
    found: Vec<Backup>,
    safe_hours: u64,
    now: Stamp,
    dry_run: bool,
) -> (r: Vec<BackupStep>)
    requires
        safe_hours * clock::SECS_PER_HOUR <= u64::MAX,
    ensures
        text::views(r@) == backup_steps(
            text::views(found@),
            safe_hours * clock::SECS_PER_HOUR,
            now,
            dry_run,
        ),
        dry_run ==> forall|i: int| 0 <= i < r@.len() ==> #[trigger] r@[i] is Show,
{
    let safe_secs: u64 = clock::hours(safe_hours);
    let ghost all = text::views(found@);
    let ghost source = found@;
    let ghost mut gone: Seq<BackupView> = Seq::empty();
    let mut todo: Vec<Backup> = lists::reversed(found);
    let mut r: Vec<BackupStep> = Vec::new();
    let mut k: Ghost<int> = Ghost(0);
    proof {
        reveal(Seq::filter);
        assert(all.take(0) =~= Seq::<BackupView>::empty());
        assert(text::views(r@) =~= gone.map_values(backup_step(dry_run)));
    }
    while todo.len() > 0
        invariant
            0 <= k@,
            k@ + todo@.len() == all.len(),
            all == text::views(source),
            todo@ == source.skip(k@).reverse(),
            safe_secs == safe_hours * clock::SECS_PER_HOUR,
            gone == all.take(k@).filter(abandoned(now, safe_secs as int)),
            text::views(r@) == gone.map_values(backup_step(dry_run)),
            dry_run ==> forall|i: int| 0 <= i < r@.len() ==> #[trigger] r@[i] is Show,
        decreases todo.len(),
    {
        match todo.pop() {
            Some(b) => {
                proof {
                    reveal(Seq::filter);
                    assert(b == source[k@]);
                    assert(all.take(k@ + 1).drop_last() =~= all.take(k@));
                    assert(all.take(k@ + 1).last() == b@);
                    assert(todo@ =~= source.skip(k@ + 1).reverse());
                }
                if is_abandoned(&b, now, safe_secs) {
                    proof {
                        gone = gone.push(b@);
                    }
                    let step = if dry_run {
                        BackupStep::Show(b)
                    } else {
                        let c = delete_backup(b.path.as_str());
                        BackupStep::Delete(b, c)
                    };
                    r.push(step);
                    assert(text::views(r@) =~= gone.map_values(backup_step(dry_run)));
                }
                proof {
                    k@ = k@ + 1;
                }
            },
            None => {},
        }
    }
    assert(all.take(k@) =~= all);
    r
}

/// A volume: where it is mounted, what it is, and whether it holds backups.
pub struct Volume {
    pub path: String,
    pub is_dir: bool,
    pub is_symlink: bool,
    pub has_store: bool,
}

/// Where the backups of a volume are.
pub open spec fn store_of(volume: Seq<char>) -> Seq<char> {
    paths::joined(volume, "Backups.backupdb"@)
}

/// The places where backups are kept, one for each real directory that holds some.
pub open spec fn stores_of(volumes: Seq<Volume>) -> Seq<Seq<char>>
    decreases volumes.len(),
{
    if volumes.len() == 0 {
        Seq::empty()
    } else {
        let before = stores_of(volumes.drop_last());
        let v = volumes.last();
        if v.is_dir && !v.is_symlink && v.has_store {
            before.push(store_of(v.path@))
        } else {
            before
        }
    }
}

/// Where the backups of a volume are.
pub fn backup_store(volume: &str) -> (r: String)
    ensures
        r@ == store_of(volume@),
{
    paths::join(volume, "Backups.backupdb")
}

/// The places on the mounted volumes where backups are kept.
pub fn backup_stores(volumes: &Vec<Volume>) -> (r: Vec<String>)
    ensures
        text::views(r@) == stores_of(volumes@),
{
    let mut r: Vec<String> = Vec::new();
    let mut i: usize = 0;
    assert(volumes@.take(0) =~= Seq::<Volume>::empty());
    while i < volumes.len()
        invariant
            i <= volumes@.len(),
            text::views(r@) == stores_of(volumes@.take(i as int)),
        decreases volumes.len() - i,
    {
        assert(volumes@.take(i + 1).drop_last() =~= volumes@.take(i as int));
        let v = &volumes[i];
        if v.is_dir && !v.is_symlink && v.has_store {
            r.push(backup_store(v.path.as_str()));
        }
        i = i + 1;
    }
    assert(volumes@.take(i as int) =~= volumes@);
    r
}

/// What the deletion of backups comes to: the bytes of each that was deleted, or
/// in a dry run of all.
pub open spec fn backups_freed(sizes: Seq<u64>, deleted: Seq<bool>, dry_run: bool) -> int
    decreases sizes.len(),
{
    if sizes.len() == 0 {
        0
    } else {
        backups_freed(sizes.drop_last(), deleted.drop_last(), dry_run) + if dry_run
            || deleted.last() {
            sizes.last() as int
        } else {
            0
        }
    }
}

/// What the deletion of backups comes to.
pub fn backup_bytes(sizes: &Vec<u64>, deleted: &Vec<bool>, dry_run: bool) -> (r: u64)
    requires
        sizes@.len() == deleted@.len(),
        backups_freed(sizes@, deleted@, dry_run) <= u64::MAX,
    ensures
        r == backups_freed(sizes@, deleted@, dry_run),
{
    let mut total: u64 = 0;
    let mut i: usize = 0;
    while i < sizes.len()
        invariant
            i <= sizes@.len(),
            sizes@.len() == deleted@.len(),
            backups_freed(sizes@, deleted@, dry_run) <= u64::MAX,
            total == backups_freed(sizes@.take(i as int), deleted@.take(i as int), dry_run),
        decreases sizes.len() - i,
    {
        proof {
            lemma_backups_grow(sizes@, deleted@, dry_run, i + 1);
            assert(sizes@.take(i + 1).drop_last() =~= sizes@.take(i as int));
            assert(deleted@.take(i + 1).drop_last() =~= deleted@.take(i as int));
        }
        if dry_run || deleted[i] {
            total = total + sizes[i];
        }
        i = i + 1;
    }
    proof {
        assert(sizes@.take(i as int) =~= sizes@);
        assert(deleted@.take(i as int) =~= deleted@);
    }
    total
}

proof fn lemma_backups_grow(sizes: Seq<u64>, deleted: Seq<bool>, dry_run: bool, n: int)
    requires
        sizes.len() == deleted.len(),
        0 <= n <= sizes.len(),
    ensures
        backups_freed(sizes.take(n), deleted.take(n), dry_run) <= backups_freed(
            sizes,
            deleted,
            dry_run,
        ),
    decreases sizes.len(),
{
    if n == sizes.len() {
        assert(sizes.take(n) =~= sizes);
        assert(deleted.take(n) =~= deleted);
    } else {
        lemma_backups_grow(sizes.drop_last(), deleted.drop_last(), dry_run, n);
        assert(sizes.drop_last().take(n) =~= sizes.take(n));
        assert(deleted.drop_last().take(n) =~= deleted.take(n));
    }
}

/// The command that deletes a backup.
fn delete_backup(path: &str) -> (r: CommandLine)
    ensures
        r@ == ("tmutil"@, seq!["delete"@, path@]),
{
    let r = command("tmutil", &["delete", path]);
    assert(r@.1 =~= seq!["delete"@, path@]);
    r
}

/// The line that a dry run shows for an incomplete backup.
pub fn backup_dry_line(name: &str, bytes: u64) -> (r: String)
    ensures
        r@ == "  [dry] would delete incomplete backup "@ + name@ + " ("@ + size::byte_words(
            bytes as nat,
        ) + ")"@,
{
    let mut r = text::join3("  [dry] would delete incomplete backup ", name, " (");
    r.append(size::fmt_bytes(bytes).as_str());
    r.append(")");
    r
}

// ── a whole run ──────────────────────────────────────────────────────────────

/// What a run goes by.
#[derive(Debug, Clone, Copy, PartialEq, Eq, Structural)]
pub struct Policy {
    /// Snapshots are dealt with at all.
    pub enabled: bool,
    /// Nothing is deleted while a backup is running.
    pub skip_if_running: bool,
    /// So many of the newest snapshots stay whatever their age.
    pub keep: u64,
    /// The age in days from which on a snapshot is stale.
    pub max_age: u64,
    /// Incomplete backups go too.
    pub incomplete: bool,
    /// So many hours an incomplete backup is left alone.
    pub safe_hours: u64,
    /// Nothing is changed, only shown.
    pub dry_run: bool,
}

/// The policy that a configuration gives.
pub open spec fn policy_of(s: Snapshots, t: Thresholds, dry_run: bool) -> Policy {
    Policy {
        enabled: s.enabled,
        skip_if_running: s.skip_if_tm_running,
        keep: t.snapshot_keep_count,
        max_age: t.snapshot_max_age_days,
        incomplete: s.delete_incomplete_backups,
        safe_hours: s.incomplete_safe_hours,
        dry_run,
    }
}

/// Waits for the answer whether the tool for snapshots is there.
pub struct FindingTool {
    policy: Policy,
}

/// Waits for the answer whether a backup is running.
pub struct AskingStatus {
    policy: Policy,
}

/// Waits for the local snapshots.
pub struct Listing {
    policy: Policy,
}

/// Waits for it to be shown that a snapshot would be deleted. It holds no command.
pub struct ShowingSnapshot {
    policy: Policy,
    current: String,
    stack: Vec<String>,
    freed: u64,
}

/// Waits for a snapshot to be deleted. It is no dry run.
pub struct DeletingSnapshot {
    policy: Policy,
    current: Deletion,
    stack: Vec<Deletion>,
    freed: u64,
}

/// Waits for the incomplete backups to be dealt with.
pub struct SweepingBackups {
    policy: Policy,
    freed: u64,
}

/// What a run needs next.
pub enum SnapshotRun {
    /// Find out whether the tool is there.
    FindTool(FindingTool),
    /// Find out whether a backup is running.
    AskStatus(AskingStatus),
    /// List the local snapshots.
    List(Listing),
    /// Show that a snapshot would be deleted.
    Show(ShowingSnapshot),
    /// Delete a snapshot.
    Delete(DeletingSnapshot),
    /// Deal with the incomplete backups.
    Backups(SweepingBackups),
    /// Nothing more: the bytes freed, by estimate.
    Done(u64),
}

/// The view of a [`SnapshotRun`].
#[verifier::ext_equal]
pub enum RunView {
    FindTool(Policy),
    AskStatus(Policy),
    List(Policy),
    Show(Policy, Seq<Seq<char>>, int),
    Delete(Policy, Seq<DeletionView>, int),
    Backups(Policy, int),
    Done(int),
}

impl View for FindingTool {
    type V = Policy;

    closed spec fn view(&self) -> Policy {
        self.policy
    }
}

impl View for AskingStatus {
    type V = Policy;

    closed spec fn view(&self) -> Policy {
        self.policy
    }
}

impl View for Listing {
    type V = Policy;

    closed spec fn view(&self) -> Policy {
        self.policy
    }
}

impl View for ShowingSnapshot {
    type V = (Policy, Seq<Seq<char>>, int);

    closed spec fn view(&self) -> (Policy, Seq<Seq<char>>, int) {
        (
            self.policy,
            seq![self.current@] + text::views(self.stack@).reverse(),
            self.freed as int,
        )
    }
}

impl View for DeletingSnapshot {
    type V = (Policy, Seq<DeletionView>, int);

    closed spec fn view(&self) -> (Policy, Seq<DeletionView>, int) {
        (
            self.policy,
            seq![self.current@] + text::views(self.stack@).reverse(),
            self.freed as int,
        )
    }
}

impl View for SweepingBackups {
    type V = (Policy, int);

    closed spec fn view(&self) -> (Policy, int) {
        (self.policy, self.freed as int)
    }
}

impl View for SnapshotRun {
    type V = RunView;

    open spec fn view(&self) -> RunView {
        match self {
            SnapshotRun::FindTool(s) => RunView::FindTool(s@),
            SnapshotRun::AskStatus(s) => RunView::AskStatus(s@),
            SnapshotRun::List(s) => RunView::List(s@),
            SnapshotRun::Show(s) => RunView::Show(s@.0, s@.1, s@.2),
            SnapshotRun::Delete(s) => RunView::Delete(s@.0, s@.1, s@.2),
            SnapshotRun::Backups(s) => RunView::Backups(s@.0, s@.1),
            SnapshotRun::Done(freed) => RunView::Done(*freed as int),
        }
    }
}

/// A run begins with the question for the tool, unless snapshots are left alone.
pub open spec fn run_begun(p: Policy) -> RunView {
    if p.enabled {
        RunView::FindTool(p)
    } else {
        RunView::Done(0)
    }
}

/// What follows once it is known whether the tool is there.
pub open spec fn tool_known(p: Policy, found: bool) -> RunView {
    if !found {
        RunView::Done(0)
    } else if p.skip_if_running {
        RunView::AskStatus(p)
    } else {
        RunView::List(p)
    }
}

/// What follows once it is known whether a backup is running.
pub open spec fn status_known(p: Policy, running: bool) -> RunView {
    if running {
        RunView::Done(0)
    } else {
        RunView::List(p)
    }
}

/// What follows once no stale snapshot is left: the incomplete backups, where they go too.
pub open spec fn after_snapshots(p: Policy, freed: int) -> RunView {
    if p.incomplete {
        RunView::Backups(p, freed)
    } else {
        RunView::Done(freed)
    }
}

/// What follows while there are lines to be shown.
pub open spec fn next_shown(p: Policy, lines: Seq<Seq<char>>, freed: int) -> RunView {
    if lines.len() == 0 {
        after_snapshots(p, freed)
    } else {
        RunView::Show(p, lines, freed)
    }
}

/// What follows while there are snapshots to be deleted.
pub open spec fn next_deleted(p: Policy, queue: Seq<DeletionView>, freed: int) -> RunView {
    if queue.len() == 0 {
        after_snapshots(p, freed)
    } else {
        RunView::Delete(p, queue, freed)
    }
}

/// What follows once the snapshots are known: the stale ones go, the oldest first. In a
/// dry run they are only shown.
pub open spec fn snapshots_known(p: Policy, snaps: Seq<SnapshotView>, now: Stamp) -> RunView {
    let which = stale(snaps, now, p.keep as int, p.max_age as int);
    if p.dry_run {
        next_shown(p, lines_of(snaps, which, now), 0)
    } else {
        next_deleted(p, deletions_of(snaps, which), 0)
    }
}

/// What follows once it was shown that a snapshot would be deleted. It counts as deleted.
pub open spec fn snapshot_shown(p: Policy, lines: Seq<Seq<char>>, freed: int) -> RunView {
    next_shown(p, lines.skip(1), freed + SNAPSHOT_ESTIMATE)
}

/// What follows once a snapshot was dealt with.
pub open spec fn snapshot_gone(
    p: Policy,
    queue: Seq<DeletionView>,
    freed: int,
    deleted: bool,
) -> RunView {
    next_deleted(
        p,
        queue.skip(1),
        if deleted {
            freed + SNAPSHOT_ESTIMATE
        } else {
            freed
        },
    )
}

fn leave_snapshots(policy: Policy, freed: u64) -> (r: SnapshotRun)
    ensures
        r@ == after_snapshots(policy, freed as int),
{
    if policy.incomplete {
        SnapshotRun::Backups(SweepingBackups { policy, freed })
    } else {
        SnapshotRun::Done(freed)
    }
}

fn show_next(policy: Policy, stack: Vec<String>, freed: u64) -> (r: SnapshotRun)
    requires
        policy.dry_run,
    ensures
        r@ == next_shown(policy, text::views(stack@).reverse(), freed as int),
{
    let ghost all = text::views(stack@).reverse();
    let mut stack = stack;
    match stack.pop() {
        Some(current) => {
            assert(seq![current@] + text::views(stack@).reverse() =~= all);
            SnapshotRun::Show(ShowingSnapshot { policy, current, stack, freed })
        },
        None => leave_snapshots(policy, freed),
    }
}

fn delete_next(policy: Policy, stack: Vec<Deletion>, freed: u64) -> (r: SnapshotRun)
    requires
        !policy.dry_run,
    ensures
        r@ == next_deleted(policy, text::views(stack@).reverse(), freed as int),
{
    let ghost all = text::views(stack@).reverse();
    let mut stack = stack;
    match stack.pop() {
        Some(current) => {
            assert(seq![current@] + text::views(stack@).reverse() =~= all);
            SnapshotRun::Delete(DeletingSnapshot { policy, current, stack, freed })
        },
        None => leave_snapshots(policy, freed),
    }
}

/// Begins to delete stale snapshots under a configuration. The newest
/// `thresholds.snapshot_keep_count` stay whatever their age; of the others those go
/// that are at least `thresholds.snapshot_max_age_days` old.
pub fn delete_stale(cfg: &Config, dry_run: bool) -> (r: SnapshotRun)
    ensures
        r@ == run_begun(policy_of(cfg.snapshots, cfg.thresholds, dry_run)),
{
    let policy = Policy {
        enabled: cfg.snapshots.enabled,
        skip_if_running: cfg.snapshots.skip_if_tm_running,
        keep: cfg.thresholds.snapshot_keep_count,
        max_age: cfg.thresholds.snapshot_max_age_days,
        incomplete: cfg.snapshots.delete_incomplete_backups,
        safe_hours: cfg.snapshots.incomplete_safe_hours,
        dry_run,
    };
    if policy.enabled {
        SnapshotRun::FindTool(FindingTool { policy })
    } else {
        SnapshotRun::Done(0)
    }
}

impl FindingTool {
    /// Goes on with the answer whether the tool is there.
    pub fn resume(self, found: bool) -> (r: SnapshotRun)
        ensures
            r@ == tool_known(self@, found),
    {
        let policy = self.policy;
        if !found {
            SnapshotRun::Done(0)
        } else if policy.skip_if_running {
            SnapshotRun::AskStatus(AskingStatus { policy })
        } else {
            SnapshotRun::List(Listing { policy })
        }
    }
}

impl AskingStatus {
    /// Goes on with the answer whether a backup is running.
    pub fn resume(self, running: bool) -> (r: SnapshotRun)
        ensures
            r@ == status_known(self@, running),
    {
        if running {
            SnapshotRun::Done(0)
        } else {
            SnapshotRun::List(Listing { policy: self.policy })
        }
    }
}

impl Listing {
    /// Goes on with the local snapshots.
    pub fn resume(self, snaps: &Vec<Snapshot>, now: Stamp) -> (r: SnapshotRun)
        ensures
            r@ == snapshots_known(self@, text::views(snaps@), now),
    {
        let policy = self.policy;
        let which = stale_snapshots(snaps, now, policy.keep, policy.max_age);
        if policy.dry_run {
            let lines = dry_lines(snaps, &which, now);
            let ghost want = text::views(lines@);
            let stack = lists::reversed(lines);
            assert(text::views(stack@).reverse() =~= want);
            show_next(policy, stack, 0)
        } else {
            let queue = deletions(snaps, &which);
            let ghost want = text::views(queue@);
            let stack = lists::reversed(queue);
            assert(text::views(stack@).reverse() =~= want);
            delete_next(policy, stack, 0)
        }
    }
}

impl ShowingSnapshot {
    #[verifier::type_invariant]
    spec fn inv(&self) -> bool {
        self.policy.dry_run
    }

    /// The line to be shown.
    pub fn line(&self) -> (r: &str)
        ensures
            r@ == self@.1[0],
    {
        self.current.as_str()
    }

    /// The bytes that would be freed so far, by estimate.
    pub fn freed(&self) -> (r: u64)
        ensures
            r == self@.2,
    {
        self.freed
    }

    /// Goes on once the line was shown.
    pub fn resume(self) -> (r: SnapshotRun)
        requires
            self@.2 + SNAPSHOT_ESTIMATE <= u64::MAX,
        ensures
            r@ == snapshot_shown(self@.0, self@.1, self@.2),
    {
        proof {
            use_type_invariant(&self);
        }
        assert(text::views(self.stack@).reverse() =~= self@.1.skip(1));
        show_next(self.policy, self.stack, self.freed + SNAPSHOT_ESTIMATE)
    }
}

impl DeletingSnapshot {
    #[verifier::type_invariant]
    spec fn inv(&self) -> bool {
        !self.policy.dry_run
    }

    /// The snapshot to be deleted. It is no dry run.
    pub fn deletion(&self) -> (r: &Deletion)
        ensures
            r@ == self@.1[0],
            !self@.0.dry_run,
    {
        proof {
            use_type_invariant(self);
        }
        &self.current
    }

    /// The bytes freed so far, by estimate.
    pub fn freed(&self) -> (r: u64)
        ensures
            r == self@.2,
    {
        self.freed
    }

    /// Goes on with the answer whether the snapshot was deleted.
    pub fn resume(self, deleted: bool) -> (r: SnapshotRun)
        requires
            self@.2 + SNAPSHOT_ESTIMATE <= u64::MAX,
        ensures
            r@ == snapshot_gone(self@.0, self@.1, self@.2, deleted),
    {
        proof {
            use_type_invariant(&self);
        }
        let freed: u64 = if deleted {
            self.freed + SNAPSHOT_ESTIMATE
        } else {
            self.freed
        };
        assert(text::views(self.stack@).reverse() =~= self@.1.skip(1));
        delete_next(self.policy, self.stack, freed)
    }
}

impl SweepingBackups {
    /// So many hours an incomplete backup is left alone.
    pub fn safe_hours(&self) -> (r: u64)
        ensures
            r == self@.0.safe_hours,
    {
        self.policy.safe_hours
    }

    /// The bytes freed so far, by estimate.
    pub fn freed(&self) -> (r: u64)
        ensures
            r == self@.1,
    {
        self.freed
    }

    /// What is done about the backups that were found, as [`delete_incomplete_backups`]
    /// says.
    pub fn steps(&self, found: Vec<Backup>, now: Stamp) -> (r: Vec<BackupStep>)
        requires
            self@.0.safe_hours * clock::SECS_PER_HOUR <= u64::MAX,
        ensures
            text::views(r@) == backup_steps(
                text::views(found@),
                self@.0.safe_hours * clock::SECS_PER_HOUR,
                now,
                self@.0.dry_run,
            ),
            self@.0.dry_run ==> forall|i: int| 0 <= i < r@.len() ==> #[trigger] r@[i] is Show,
    {
        delete_incomplete_backups(found, self.policy.safe_hours, now, self.policy.dry_run)
    }

    /// Ends the run, given the size of each backup that was dealt with and whether it was
    /// deleted.
    pub fn finish(self, sizes: &Vec<u64>, deleted: &Vec<bool>) -> (r: u64)
        requires
            sizes@.len() == deleted@.len(),
            self@.1 + backups_freed(sizes@, deleted@, self@.0.dry_run) <= u64::MAX,
        ensures
            r == self@.1 + backups_freed(sizes@, deleted@, self@.0.dry_run),
    {
        self.freed + backup_bytes(sizes, deleted, self.policy.dry_run)
    }
}

// ── what deletion spares ─────────────────────────────────────────────────────

proof fn lemma_order(snaps: Seq<SnapshotView>)
    ensures
        lists::is_order(snaps.map_values(|s: SnapshotView| s.ts), oldest_first(snaps)),
{
    lists::order_exists(snaps.map_values(|s: SnapshotView| s.ts));
}

/// The newest snapshots are never deleted, whatever their age: none of the last
/// `keep` in the order of time is stale.
pub proof fn newest_snapshots_stay(
    snaps: Seq<SnapshotView>,
    now: Stamp,
    keep: int,
    max_age: int,
    k: int,
)
    requires
        keep >= 0,
        0 <= k < snaps.len(),
        k >= snaps.len() - keep,
    ensures
        !stale(snaps, now, keep, max_age).contains(oldest_first(snaps)[k]),
{
    lemma_order(snaps);
    let order = oldest_first(snaps);
    let n = beyond(snaps.len() as int, keep);
    let first = order.take(n);
    if stale(snaps, now, keep, max_age).contains(order[k]) {
        lemma_filter_subset(first, aged(snaps, now, max_age), order[k]);
        let j = choose|j: int| 0 <= j < first.len() && first[j] == order[k];
        assert(order[j] == order[k]);
        let keys = snaps.map_values(|s: SnapshotView| s.ts);
        assert(lists::goes_before(keys, order[j], order[k]));
    }
}

proof fn lemma_filter_subset(s: Seq<int>, keep: spec_fn(int) -> bool, x: int)
    requires
        s.filter(keep).contains(x),
    ensures
        s.contains(x),
        keep(x),
    decreases s.len(),
{
    reveal(Seq::filter);
    if s.len() > 0 {
        let rest = s.drop_last();
        let k = choose|k: int| 0 <= k < s.filter(keep).len() && s.filter(keep)[k] == x;
        if k < rest.filter(keep).len() {
            assert(rest.filter(keep)[k] == x);
            lemma_filter_subset(rest, keep, x);
            let j = choose|j: int| 0 <= j < rest.len() && rest[j] == x;
            assert(s[j] == x);
        } else {
            assert(s[s.len() - 1] == x);
        }
    }
}

proof fn lemma_filter_takes(s: Seq<int>, keep: spec_fn(int) -> bool, j: int)
    requires
        0 <= j < s.len(),
        keep(s[j]),
    ensures
        s.filter(keep).contains(s[j]),
    decreases s.len(),
{
    reveal(Seq::filter);
    let rest = s.drop_last();
    let all = s.filter(keep);
    if j < rest.len() {
        lemma_filter_takes(rest, keep, j);
        let k = choose|k: int| 0 <= k < rest.filter(keep).len() && rest.filter(keep)[k] == s[j];
        assert(all[k] == s[j]);
    } else {
        assert(all[all.len() - 1] == s[j]);
    }
}

/// Of the snapshots that are not among the newest, exactly those go that have
/// reached the maximal age.
pub proof fn old_snapshots_go(
    snaps: Seq<SnapshotView>,
    now: Stamp,
    keep: int,
    max_age: int,
    k: int,
)
    requires
        keep >= 0,
        0 <= k < snaps.len() - keep,
    ensures
        stale(snaps, now, keep, max_age).contains(oldest_first(snaps)[k]) <==> age_of(
            snaps[oldest_first(snaps)[k]],
            now,
        ) >= max_age,
{
    lemma_order(snaps);
    let order = oldest_first(snaps);
    let first = order.take(beyond(snaps.len() as int, keep));
    assert(first[k] == order[k]);
    if age_of(snaps[order[k]], now) >= max_age {
        lemma_filter_takes(first, aged(snaps, now, max_age), k);
    }
    if stale(snaps, now, keep, max_age).contains(order[k]) {
        lemma_filter_subset(first, aged(snaps, now, max_age), order[k]);
    }
}

/// How many of the snapshots were deleted, given whether each was.
pub open spec fn count_gone(deleted: Seq<bool>) -> int
    decreases deleted.len(),
{
    if deleted.len() == 0 {
        0
    } else {
        count_gone(deleted.drop_first()) + if deleted[0] {
            1int
        } else {
            0
        }
    }
}

/// How many snapshots are still to be dealt with.
pub open spec fn still_queued(run: RunView) -> nat {
    match run {
        RunView::Show(_, lines, _) => lines.len(),
        RunView::Delete(_, queue, _) => queue.len(),
        _ => 0,
    }
}

/// Where a run stands once every snapshot still to be dealt with was, given whether each
/// was deleted.
pub open spec fn dealt_with(run: RunView, deleted: Seq<bool>) -> RunView
    decreases still_queued(run),
{
    match run {
        RunView::Show(p, lines, freed) => if lines.len() == 0 {
            run
        } else {
            dealt_with(snapshot_shown(p, lines, freed), deleted)
        },
        RunView::Delete(p, queue, freed) => if queue.len() == 0 {
            run
        } else {
            dealt_with(snapshot_gone(p, queue, freed, deleted[0]), deleted.skip(1))
        },
        _ => run,
    }
}

/// A run counts the estimate once for each snapshot that was deleted, and nothing else;
/// then it comes to the incomplete backups, where they go too, or ends. So it does where
/// no snapshot was stale.
pub proof fn run_counts_deletions(
    p: Policy,
    queue: Seq<DeletionView>,
    freed: int,
    deleted: Seq<bool>,
)
    requires
        queue.len() == deleted.len(),
    ensures
        dealt_with(next_deleted(p, queue, freed), deleted) == after_snapshots(
            p,
            freed + count_gone(deleted) * SNAPSHOT_ESTIMATE,
        ),
    decreases queue.len(),
{
    if queue.len() > 0 {
        let first = if deleted[0] {
            1int
        } else {
            0
        };
        assert(deleted.skip(1) =~= deleted.drop_first());
        run_counts_deletions(
            p,
            queue.skip(1),
            freed + first * SNAPSHOT_ESTIMATE,
            deleted.skip(1),
        );
        let rest = count_gone(deleted.drop_first());
        assert((rest + first) * SNAPSHOT_ESTIMATE == rest * SNAPSHOT_ESTIMATE + first
            * SNAPSHOT_ESTIMATE) by (nonlinear_arith);
    }
}

/// A dry run counts what a real run frees where every deletion succeeds, and it too comes
/// to the incomplete backups.
pub proof fn dry_run_counts_all(p: Policy, lines: Seq<Seq<char>>, freed: int, deleted: Seq<bool>)
    ensures
        dealt_with(next_shown(p, lines, freed), deleted) == after_snapshots(
            p,
            freed + lines.len() * SNAPSHOT_ESTIMATE,
        ),
    decreases lines.len(),
{
    if lines.len() > 0 {
        dry_run_counts_all(p, lines.skip(1), freed + SNAPSHOT_ESTIMATE, deleted);
        let n = lines.len() as int;
        assert(n * SNAPSHOT_ESTIMATE == (n - 1) * SNAPSHOT_ESTIMATE + SNAPSHOT_ESTIMATE)
            by (nonlinear_arith);
    }
}

/// The run is a dry one and hands out nothing that deletes a snapshot.
pub open spec fn only_shows(run: RunView) -> bool {
    match run {
        RunView::FindTool(p) => p.dry_run,
        RunView::AskStatus(p) => p.dry_run,
        RunView::List(p) => p.dry_run,
        RunView::Show(p, _, _) => p.dry_run,
        RunView::Delete(_, _, _) => false,
        RunView::Backups(p, _) => p.dry_run,
        RunView::Done(_) => true,
    }
}

/// A dry run deletes neither snapshots nor backups: it begins by only showing, every
/// answer leaves it so, and about the incomplete backups it only shows lines.
pub proof fn dry_run_only_shows(
    p: Policy,
    found: bool,
    running: bool,
    snaps: Seq<SnapshotView>,
    now: Stamp,
    lines: Seq<Seq<char>>,
    freed: int,
    backups: Seq<BackupView>,
    safe_secs: int,
)
    requires
        p.dry_run,
    ensures
        only_shows(run_begun(p)),
        only_shows(tool_known(p, found)),
        only_shows(status_known(p, running)),
        only_shows(snapshots_known(p, snaps, now)),
        only_shows(snapshot_shown(p, lines, freed)),
        forall|i: int|
            0 <= i < backup_steps(backups, safe_secs, now, p.dry_run).len()
                ==> #[trigger] backup_steps(backups, safe_secs, now, p.dry_run)[i] is Show,
{
}

/// Nothing is deleted where snapshots are left alone, the tool is missing, or a
/// running backup is in the way: the run is over before it lists anything.
pub proof fn nothing_goes_during_a_backup(p: Policy, found: bool, running: bool)
    requires
        !p.enabled || !found || (p.skip_if_running && running),
    ensures
        ({
            let begun = run_begun(p);
            let asked = match begun {
                RunView::FindTool(q) => tool_known(q, found),
                other => other,
            };
            let told = match asked {
                RunView::AskStatus(q) => status_known(q, running),
                other => other,
            };
            told == RunView::Done(0)
        }),
{
}

// ── what time decides ────────────────────────────────────────────────────────

/// The age of a snapshot counts full days: `d` days are over since it was taken and
/// `d + 1` are not. One that was taken later than now has no age.
pub proof fn age_counts_full_days(s: SnapshotView, now: Stamp)
    requires
        now.secs >= 0,
    ensures
        now.secs >= s.ts ==> age_of(s, now) * 86400 <= now.secs - s.ts < (age_of(s, now) + 1)
            * 86400,
        now.secs < s.ts ==> age_of(s, now) == 0,
{
}

/// Before the epoch, a clock takes every snapshot as taken just now.
pub proof fn age_before_the_epoch(s: SnapshotView, now: Stamp)
    requires
        now.secs < 0,
        s.ts >= 0,
    ensures
        age_of(s, now) == 0,
{
}

/// Of two snapshots the one that was taken earlier never has the smaller age, and no
/// snapshot gets younger with time.
pub proof fn earlier_snapshots_are_older(a: SnapshotView, b: SnapshotView, now: Stamp, later: Stamp)
    requires
        a.ts <= b.ts,
        now.secs <= later.secs,
    ensures
        age_of(a, now) >= age_of(b, now),
        age_of(a, later) >= age_of(a, now),
{
}

/// Some `keep` other snapshots were taken after this one; of those taken in the same
/// second, the ones that are listed later count.
pub open spec fn so_many_newer(snaps: Seq<SnapshotView>, i: int, keep: int) -> bool {
    exists|t: Seq<int>| #[trigger] all_newer(snaps, i, t) && t.len() == keep
}

/// These are other snapshots, none of them twice, and all were taken after this one.
pub open spec fn all_newer(snaps: Seq<SnapshotView>, i: int, t: Seq<int>) -> bool {
    &&& t.no_duplicates()
    &&& forall|k: int|
        0 <= k < t.len() ==> 0 <= #[trigger] t[k] < snaps.len() && (snaps[i].ts < snaps[t[k]].ts
            || (snaps[i].ts == snaps[t[k]].ts && i < t[k]))
}

proof fn lemma_fits(t: Seq<int>, lo: int, hi: int)
    requires
        t.no_duplicates(),
        lo <= hi,
        forall|k: int| 0 <= k < t.len() ==> lo <= #[trigger] t[k] < hi,
    ensures
        t.len() <= hi - lo,
{
    t.unique_seq_to_set();
    vstd::set_lib::lemma_int_range(lo, hi);
    let all = vstd::set_lib::set_int_range(lo, hi);
    assert(t.to_set().subset_of(all));
    vstd::set_lib::lemma_len_subset(t.to_set(), all);
}

/// Where a snapshot stands in the order of time.
proof fn lemma_place(snaps: Seq<SnapshotView>, i: int) -> (k: int)
    requires
        0 <= i < snaps.len(),
    ensures
        0 <= k < snaps.len(),
        oldest_first(snaps).len() == snaps.len(),
        oldest_first(snaps)[k] == i,
{
    lemma_order(snaps);
    let order = oldest_first(snaps);
    assert(order.contains(i));
    choose|k: int| 0 <= k < order.len() && order[k] == i
}

proof fn lemma_newer_count(snaps: Seq<SnapshotView>, k: int, keep: int)
    requires
        0 <= k < snaps.len(),
        keep >= 0,
        oldest_first(snaps).len() == snaps.len(),
    ensures
        so_many_newer(snaps, oldest_first(snaps)[k], keep) <==> k < snaps.len() - keep,
{
    lemma_order(snaps);
    let order = oldest_first(snaps);
    let keys = snaps.map_values(|s: SnapshotView| s.ts);
    let n = snaps.len() as int;
    let i = order[k];
    if k < n - keep {
        let t = order.subrange(n - keep, n);
        assert forall|a: int, b: int| 0 <= a < b < t.len() implies t[a] != t[b] by {
            assert(lists::goes_before(keys, order[n - keep + a], order[n - keep + b]));
        }
        assert forall|a: int| 0 <= a < t.len() implies 0 <= #[trigger] t[a] < snaps.len() && (
        snaps[i].ts < snaps[t[a]].ts || (snaps[i].ts == snaps[t[a]].ts && i < t[a])) by {
            assert(lists::goes_before(keys, order[k], order[n - keep + a]));
        }
        assert(all_newer(snaps, i, t));
    }
    if so_many_newer(snaps, i, keep) {
        let t = choose|t: Seq<int>| #[trigger] all_newer(snaps, i, t) && t.len() == keep;
        let places = Seq::new(
            t.len(),
            |a: int| choose|q: int| 0 <= q < order.len() && order[q] == t[a],
        );
        assert forall|a: int| 0 <= a < t.len() implies k < #[trigger] places[a] < n && order[places[a]]
            == t[a] by {
            assert(order.contains(t[a]));
            let q = places[a];
            assert(0 <= q < order.len() && order[q] == t[a]);
            if q < k {
                assert(lists::goes_before(keys, order[q], order[k]));
            }
        }
        assert forall|a: int, b: int| 0 <= a < b < places.len() implies places[a] != places[b] by {
            assert(order[places[a]] == t[a]);
            assert(order[places[b]] == t[b]);
        }
        lemma_fits(places, k + 1, n);
    }
}

/// Which snapshots are stale goes by the times at which they were taken: a snapshot goes
/// exactly where `max_age` days are over since then and at least `keep` others are newer.
/// In particular one that is beyond the kept ones and old enough always goes.
pub proof fn staleness_goes_by_time(
    snaps: Seq<SnapshotView>,
    now: Stamp,
    keep: int,
    max_age: int,
    i: int,
)
    requires
        0 <= i < snaps.len(),
        now.secs >= 0,
        keep >= 0,
        max_age >= 0,
    ensures
        stale(snaps, now, keep, max_age).contains(i) <==> so_many_newer(snaps, i, keep) && (
        max_age == 0 || now.secs - snaps[i].ts >= max_age * 86400),
{
    let k = lemma_place(snaps, i);
    lemma_newer_count(snaps, k, keep);
    age_counts_full_days(snaps[i], now);
    if k < snaps.len() - keep {
        old_snapshots_go(snaps, now, keep, max_age, k);
        let d = age_of(snaps[i], now);
        assert(d >= max_age <==> max_age == 0 || now.secs - snaps[i].ts >= max_age * 86400) by {
            if now.secs >= snaps[i].ts {
                assert(d >= max_age ==> d * 86400 >= max_age * 86400) by (nonlinear_arith);
                assert(d + 1 <= max_age ==> (d + 1) * 86400 <= max_age * 86400)
                    by (nonlinear_arith);
            } else {
                assert(max_age >= 1 ==> max_age * 86400 >= 86400) by (nonlinear_arith);
            }
        }
    } else {
        newest_snapshots_stay(snaps, now, keep, max_age, k);
    }
}

/// A real run under a configuration deletes exactly the snapshots that have reached the
/// configured age in days and of which at least so many are newer as are to be kept, each
/// by a command that names the date of its name; a dry run shows a line for each instead.
pub proof fn a_run_deletes_by_time(
    s: Snapshots,
    t: Thresholds,
    snaps: Seq<SnapshotView>,
    now: Stamp,
    i: int,
)
    requires
        0 <= i < snaps.len(),
        now.secs >= 0,
        t.snapshot_max_age_days > 0,
        so_many_newer(snaps, i, t.snapshot_keep_count as int),
        now.secs - snaps[i].ts >= t.snapshot_max_age_days * 86400,
    ensures
        snapshots_known(policy_of(s, t, false), snaps, now) matches RunView::Delete(_, queue, _)
            && queue.contains(
            (DeletionView {
                name: snaps[i].name,
                command: (
                    "tmutil"@,
                    seq!["deletelocalsnapshots"@, text::after_last(snaps[i].name, '.')],
                ),
            }),
        ),
        snapshots_known(policy_of(s, t, true), snaps, now) matches RunView::Show(_, lines, _)
            && lines.contains(
            "  [dry] would delete snapshot "@ + date_in(snaps[i].name) + " ("@ + text::decimal(
                ((now.secs - snaps[i].ts) / 86400) as nat,
            ) + "d old)"@,
        ),
{
    let keep = t.snapshot_keep_count as int;
    let max_age = t.snapshot_max_age_days as int;
    staleness_goes_by_time(snaps, now, keep, max_age, i);
    let which = stale(snaps, now, keep, max_age);
    let k = choose|k: int| 0 <= k < which.len() && which[k] == i;
    assert(deletions_of(snaps, which)[k] == deletion_of(snaps[i]));
    assert(lines_of(snaps, which, now)[k] == shown_as(snaps[i], now));
}

/// A run deletes nothing else: every command it hands out deletes a snapshot that has
/// reached the configured age and of which so many are newer as are to be kept. Each goes
/// once, the oldest first.
pub proof fn a_run_deletes_nothing_else(
    s: Snapshots,
    t: Thresholds,
    snaps: Seq<SnapshotView>,
    now: Stamp,
    k: int,
)
    requires
        now.secs >= 0,
        t.snapshot_max_age_days > 0,
        snapshots_known(policy_of(s, t, false), snaps, now) is Delete,
        0 <= k < (snapshots_known(policy_of(s, t, false), snaps, now)->Delete_1).len(),
    ensures
        ({
            let queue = snapshots_known(policy_of(s, t, false), snaps, now)->Delete_1;
            exists|i: int|
                0 <= i < snaps.len() && queue[k] == deletion_of(#[trigger] snaps[i])
                    && so_many_newer(snaps, i, t.snapshot_keep_count as int) && now.secs
                    - snaps[i].ts >= t.snapshot_max_age_days * 86400
        }),
{
    let keep = t.snapshot_keep_count as int;
    let max_age = t.snapshot_max_age_days as int;
    let which = stale(snaps, now, keep, max_age);
    let i = which[k];
    lemma_order(snaps);
    let first = oldest_first(snaps).take(beyond(snaps.len() as int, keep));
    assert(which.contains(i));
    lemma_filter_subset(first, aged(snaps, now, max_age), i);
    let j = choose|j: int| 0 <= j < first.len() && first[j] == i;
    assert(oldest_first(snaps)[j] == i);
    staleness_goes_by_time(snaps, now, keep, max_age, i);
    assert(deletions_of(snaps, which)[k] == deletion_of(snaps[i]));
}

/// The stale snapshots are dealt with the oldest first, and each once.
pub proof fn the_oldest_go_first(
    snaps: Seq<SnapshotView>,
    now: Stamp,
    keep: int,
    max_age: int,
    a: int,
    b: int,
)
    requires
        keep >= 0,
        0 <= a < b < stale(snaps, now, keep, max_age).len(),
    ensures
        ({
            let which = stale(snaps, now, keep, max_age);
            &&& which[a] != which[b]
            &&& snaps[which[a]].ts <= snaps[which[b]].ts
        }),
{
    lemma_order(snaps);
    let keys = snaps.map_values(|s: SnapshotView| s.ts);
    let first = oldest_first(snaps).take(beyond(snaps.len() as int, keep));
    assert forall|i: int, j: int| 0 <= i < j < first.len() implies lists::goes_before(
        keys,
        #[trigger] first[i],
        #[trigger] first[j],
    ) by {
        assert(first[i] == oldest_first(snaps)[i]);
        assert(first[j] == oldest_first(snaps)[j]);
    }
    assert forall|i: int| 0 <= i < first.len() implies 0 <= #[trigger] first[i] < snaps.len() by {
        assert(first[i] == oldest_first(snaps)[i]);
    }
    lemma_filter_keeps_order(keys, first, aged(snaps, now, max_age), a, b);
    lemma_filter_subset(first, aged(snaps, now, max_age), stale(snaps, now, keep, max_age)[a]);
    lemma_filter_subset(first, aged(snaps, now, max_age), stale(snaps, now, keep, max_age)[b]);
}

proof fn lemma_filter_keeps_order(
    keys: Seq<int>,
    s: Seq<int>,
    pred: spec_fn(int) -> bool,
    a: int,
    b: int,
)
    requires
        forall|i: int, j: int|
            0 <= i < j < s.len() ==> lists::goes_before(keys, #[trigger] s[i], #[trigger] s[j]),
        0 <= a < b < s.filter(pred).len(),
    ensures
        lists::goes_before(keys, s.filter(pred)[a], s.filter(pred)[b]),
    decreases s.len(),
{
    reveal(Seq::filter);
    let rest = s.drop_last();
    let kept = rest.filter(pred);
    if b < kept.len() {
        lemma_filter_keeps_order(keys, rest, pred, a, b);
    } else {
        assert(kept.contains(kept[a]));
        lemma_filter_subset(rest, pred, kept[a]);
        let i = choose|i: int| 0 <= i < rest.len() && rest[i] == kept[a];
        assert(s[i] == kept[a]);
        assert(lists::goes_before(keys, s[i], s[s.len() - 1]));
    }
}

/// The command that deletes a snapshot names what stands behind the last dot of its name,
/// whatever stands before that dot.
pub proof fn deletion_names_the_date(before: Seq<char>, date: Seq<char>, ts: int)
    requires
        !date.contains('.'),
    ensures
        deletion_of(SnapshotView { name: before.push('.') + date, ts }).command == (
            "tmutil"@,
            seq!["deletelocalsnapshots"@, date],
        ),
{
    lemma_after_last(before, date);
}

proof fn lemma_after_last(before: Seq<char>, date: Seq<char>)
    requires
        !date.contains('.'),
    ensures
        text::after_last(before.push('.') + date, '.') == date,
{
    let whole = before.push('.') + date;
    lemma_last_dot(before, date);
    assert(whole.skip(before.len() as int + 1) =~= date);
}

proof fn lemma_last_dot(before: Seq<char>, date: Seq<char>)
    requires
        !date.contains('.'),
    ensures
        text::last_index_of(before.push('.') + date, '.') == before.len(),
    decreases date.len(),
{
    let whole = before.push('.') + date;
    if date.len() > 0 {
        assert(date.contains(date.last()));
        let shorter = date.drop_last();
        assert(!shorter.contains('.')) by {
            if shorter.contains('.') {
                let k = choose|k: int| 0 <= k < shorter.len() && shorter[k] == '.';
                assert(date[k] == '.');
            }
        }
        lemma_last_dot(before, shorter);
        assert(whole.drop_last() =~= before.push('.') + shorter);
        assert(whole.last() == date.last());
    } else {
        assert(whole.last() == '.');
    }
}

/// Every line of a listing that holds the mark of a snapshot and a moment that can be
/// told gives a snapshot with the trimmed line as its name, and nothing else does.
pub proof fn listed_snapshots_are_read(ls: Seq<Seq<char>>, s: SnapshotView)
    ensures
        snapshots_in(ls).contains(s) <==> exists|i: int|
            0 <= i < ls.len() && text::has(#[trigger] ls[i], "com.apple.TimeMachine."@) && s.name
                == text::trim(ls[i]) && dates::snapshot_reading(s.name) == Reading::At(s.ts),
        snapshots_in(ls).len() <= ls.len(),
    decreases ls.len(),
{
    if ls.len() > 0 {
        let rest = ls.drop_last();
        let before = snapshots_in(rest);
        let all = snapshots_in(ls);
        listed_snapshots_are_read(rest, s);
        assert(ls[ls.len() - 1] == ls.last());
        if all.contains(s) {
            let k = choose|k: int| 0 <= k < all.len() && all[k] == s;
            if k < before.len() {
                assert(before[k] == s);
                let i = choose|i: int|
                    0 <= i < rest.len() && text::has(#[trigger] rest[i], "com.apple.TimeMachine."@)
                        && s.name == text::trim(rest[i]) && dates::snapshot_reading(s.name)
                        == Reading::At(s.ts);
                assert(ls[i] == rest[i]);
            }
        }
        if exists|i: int|
            0 <= i < ls.len() && text::has(#[trigger] ls[i], "com.apple.TimeMachine."@) && s.name
                == text::trim(ls[i]) && dates::snapshot_reading(s.name) == Reading::At(s.ts) {
            let i = choose|i: int|
                0 <= i < ls.len() && text::has(#[trigger] ls[i], "com.apple.TimeMachine."@)
                    && s.name == text::trim(ls[i]) && dates::snapshot_reading(s.name)
                    == Reading::At(s.ts);
            if i < rest.len() {
                assert(rest[i] == ls[i]);
                let k = choose|k: int| 0 <= k < before.len() && before[k] == s;
                assert(all[k] == s);
            } else {
                assert(all[all.len() - 1] == s);
            }
        }
    }
}

/// An incomplete backup goes exactly where so many seconds are over since its last
/// change, by a command that names its path; a dry run shows it instead. A backup whose
/// last change is unknown or lies before the epoch counts as just changed.
pub proof fn backups_go_by_time(
    found: Seq<BackupView>,
    safe_secs: int,
    now: Stamp,
    b: BackupView,
)
    requires
        now.secs >= 0,
        safe_secs > 0,
    ensures
        ({
            let goes = found.contains(b) && (".inProgress"@.is_suffix_of(b.name)
                || ".inprogress"@.is_suffix_of(b.name)) && (b.modified matches Some(t) && t.secs
                >= 0 && now.secs - t.secs >= safe_secs);
            &&& backup_steps(found, safe_secs, now, false).contains(
                BackupStepView::Delete(b, ("tmutil"@, seq!["delete"@, b.path])),
            ) <==> goes
            &&& backup_steps(found, safe_secs, now, true).contains(BackupStepView::Show(b))
                <==> goes
        }),
{
    let pred = abandoned(now, safe_secs);
    let kept = found.filter(pred);
    lists::filter_holds(found, pred, b);
    let acts = backup_steps(found, safe_secs, now, false);
    let dry = backup_steps(found, safe_secs, now, true);
    let command = BackupStepView::Delete(b, ("tmutil"@, seq!["delete"@, b.path]));
    if kept.contains(b) {
        let k = choose|k: int| 0 <= k < kept.len() && kept[k] == b;
        assert(acts[k] == command);
        assert(dry[k] == BackupStepView::Show(b));
    }
    if acts.contains(command) {
        let k = choose|k: int| 0 <= k < acts.len() && acts[k] == command;
        assert(kept[k] == b);
    }
    if dry.contains(BackupStepView::Show(b)) {
        let k = choose|k: int| 0 <= k < dry.len() && dry[k] == BackupStepView::Show(b);
        assert(kept[k] == b);
    }
}

/// Backups are looked for on every volume that is a real directory and holds some, below
/// its `Backups.backupdb`, and nowhere else.
pub proof fn every_store_is_looked_at(volumes: Seq<Volume>, dir: Seq<char>)
    ensures
        stores_of(volumes).contains(dir) <==> exists|i: int|
            0 <= i < volumes.len() && (#[trigger] volumes[i]).is_dir && !volumes[i].is_symlink
                && volumes[i].has_store && dir == paths::joined(
                volumes[i].path@,
                "Backups.backupdb"@,
            ),
    decreases volumes.len(),
{
    if volumes.len() > 0 {
        let rest = volumes.drop_last();
        let before = stores_of(rest);
        let all = stores_of(volumes);
        every_store_is_looked_at(rest, dir);
        assert(volumes[volumes.len() - 1] == volumes.last());
        if all.contains(dir) {
            let k = choose|k: int| 0 <= k < all.len() && all[k] == dir;
            if k < before.len() {
                assert(before[k] == dir);
                let i = choose|i: int|
                    0 <= i < rest.len() && (#[trigger] rest[i]).is_dir && !rest[i].is_symlink
                        && rest[i].has_store && dir == paths::joined(
                        rest[i].path@,
                        "Backups.backupdb"@,
                    );
                assert(volumes[i] == rest[i]);
            }
        }
        if exists|i: int|
            0 <= i < volumes.len() && (#[trigger] volumes[i]).is_dir && !volumes[i].is_symlink
                && volumes[i].has_store && dir == paths::joined(
                volumes[i].path@,
                "Backups.backupdb"@,
            ) {
            let i = choose|i: int|
                0 <= i < volumes.len() && (#[trigger] volumes[i]).is_dir && !volumes[i].is_symlink
                    && volumes[i].has_store && dir == paths::joined(
                    volumes[i].path@,
                    "Backups.backupdb"@,
                );
            if i < rest.len() {
                assert(rest[i] == volumes[i]);
                let k = choose|k: int| 0 <= k < before.len() && before[k] == dir;
                assert(all[k] == dir);
            } else {
                assert(all[all.len() - 1] == dir);
            }
        }
    }
}

/// Where snapshots are dealt with, the tool is there and no backup is in the way, a run
/// comes to the listing, under the thresholds and switches of the configuration.
pub proof fn a_run_comes_to_the_listing(s: Snapshots, t: Thresholds, dry_run: bool, running: bool)
    requires
        s.enabled,
        !s.skip_if_tm_running || !running,
    ensures
        ({
            let begun = run_begun(policy_of(s, t, dry_run));
            let asked = match begun {
                RunView::FindTool(p) => tool_known(p, true),
                other => other,
            };
            let told = match asked {
                RunView::AskStatus(p) => status_known(p, running),
                other => other,
            };
            told matches RunView::List(p) && p.keep == t.snapshot_keep_count && p.max_age
                == t.snapshot_max_age_days && p.incomplete == s.delete_incomplete_backups
                && p.safe_hours == s.incomplete_safe_hours && p.dry_run == dry_run
        }),
{
}

/// One more deletion that succeeded counts one more, one that failed none.
pub proof fn successes_are_counted(deleted: Seq<bool>, more: bool)
    ensures
        count_gone(Seq::empty()) == 0,
        count_gone(seq![more] + deleted) == count_gone(deleted) + (if more {
            1int
        } else {
            0
        }),
{
    assert((seq![more] + deleted).drop_first() =~= deleted);
}

/// Each snapshot that goes, or in a dry run would go, counts the same estimate, and one
/// that could not be deleted counts nothing. The next in line follows.
pub proof fn each_snapshot_counts_the_estimate(
    p: Policy,
    first: DeletionView,
    queue: Seq<DeletionView>,
    line: Seq<char>,
    lines: Seq<Seq<char>>,
    freed: int,
)
    requires
        queue.len() > 0,
        lines.len() > 0,
    ensures
        snapshot_gone(p, seq![first] + queue, freed, true) == RunView::Delete(
            p,
            queue,
            freed + 524_288_000,
        ),
        snapshot_gone(p, seq![first] + queue, freed, false) == RunView::Delete(p, queue, freed),
        snapshot_shown(p, seq![line] + lines, freed) == RunView::Show(
            p,
            lines,
            freed + 524_288_000,
        ),
{
    assert((seq![first] + queue).skip(1) =~= queue);
    assert((seq![line] + lines).skip(1) =~= lines);
}

/// After the last snapshot a run goes on to abandoned backups exactly where that is
/// configured, with all that was freed so far, and else is done.
pub proof fn backups_come_last(s: Snapshots, t: Thresholds, dry_run: bool, freed: int)
    ensures
        ({
            let p = policy_of(s, t, dry_run);
            &&& s.delete_incomplete_backups ==> next_deleted(p, Seq::empty(), freed)
                == RunView::Backups(p, freed) && next_shown(p, Seq::empty(), freed)
                == RunView::Backups(p, freed)
            &&& !s.delete_incomplete_backups ==> next_deleted(p, Seq::empty(), freed)
                == RunView::Done(freed) && next_shown(p, Seq::empty(), freed) == RunView::Done(
                freed,
            )
        }),
{
}

/// What abandoned backups free is the sum of the sizes of those that were deleted, and in
/// a dry run of all of them.
pub proof fn freed_backups_add_up(
    sizes: Seq<u64>,
    deleted: Seq<bool>,
    dry_run: bool,
    size: u64,
    gone: bool,
)
    requires
        sizes.len() == deleted.len(),
    ensures
        backups_freed(Seq::empty(), Seq::empty(), dry_run) == 0,
        backups_freed(sizes.push(size), deleted.push(gone), dry_run) == backups_freed(
            sizes,
            deleted,
            dry_run,
        ) + (if gone || dry_run {
            size as int
        } else {
            0
        }),
{
    assert(sizes.push(size).drop_last() =~= sizes);
    assert(deleted.push(gone).drop_last() =~= deleted);
}

/// Backups are dealt with in the order in which they were found, and without a time to
/// wait every incomplete one goes.
pub proof fn backups_go_in_order(
    found: Seq<BackupView>,
    b: BackupView,
    safe_secs: int,
    now: Stamp,
    dry_run: bool,
)
    ensures
        backup_steps(Seq::empty(), safe_secs, now, dry_run).len() == 0,
        backup_steps(found, safe_secs, now, dry_run).is_prefix_of(
            backup_steps(found.push(b), safe_secs, now, dry_run),
        ),
        backup_steps(found.push(b), safe_secs, now, dry_run).len() <= backup_steps(
            found,
            safe_secs,
            now,
            dry_run,
        ).len() + 1,
        safe_secs <= 0 ==> (backup_steps(found.push(b), safe_secs, now, dry_run).len()
            == backup_steps(found, safe_secs, now, dry_run).len() + 1 <==> ".inProgress"@.is_suffix_of(
            b.name,
        ) || ".inprogress"@.is_suffix_of(b.name)),
{
    reveal(Seq::filter);
    let more = found.push(b);
    assert(more.drop_last() =~= found);
    let x = backup_steps(found, safe_secs, now, dry_run);
    let y = backup_steps(more, safe_secs, now, dry_run);
    assert(y.subrange(0, x.len() as int) =~= x);
}

/// Snapshots and stores come in the order in which they are listed: one more line or
/// volume adds at most one, behind the others.
pub proof fn listings_keep_their_order(
    ls: Seq<Seq<char>>,
    line: Seq<char>,
    volumes: Seq<Volume>,
    v: Volume,
)
    ensures
        snapshots_in(Seq::empty()).len() == 0,
        snapshots_in(ls).is_prefix_of(snapshots_in(ls.push(line))),
        snapshots_in(ls.push(line)).len() <= snapshots_in(ls).len() + 1,
        stores_of(Seq::empty()).len() == 0,
        stores_of(volumes).is_prefix_of(stores_of(volumes.push(v))),
        stores_of(volumes.push(v)).len() <= stores_of(volumes).len() + 1,
{
    assert(ls.push(line).drop_last() =~= ls);
    assert(volumes.push(v).drop_last() =~= volumes);
    let a = snapshots_in(ls);
    let b = snapshots_in(ls.push(line));
    assert(b.subrange(0, a.len() as int) =~= a);
    let c = stores_of(volumes);
    let d = stores_of(volumes.push(v));
    assert(d.subrange(0, c.len() as int) =~= c);
}

/// The date of a snapshot is what takes up the ten bytes behind the last dot of its name;
/// a name without a dot stands for itself.
pub proof fn dates_stand_behind_the_last_dot(
    front: Seq<char>,
    date: Seq<char>,
    rest: Seq<char>,
)
    requires
        text::byte_len(date) == 10,
        !(date + rest).contains('.'),
    ensures
        date_in(front + seq!['.'] + (date + rest)) == date,
        date_in(date + rest) == date + rest,
{
    text::the_last_separator_counts(front, '.', date + rest);
    let none = Seq::<char>::empty();
    text::slices_are_by_bytes(none, date, rest);
    assert(none + date + rest =~= date + rest);
    assert(text::byte_len(none) == 0);
}

/// A backup runs where a line of the status begins with `Running`, or has it in quotation
/// marks, and has an equals sign and a one; with any of these missing it says nothing.
pub proof fn which_lines_say_running(front: Seq<char>, core: Seq<char>, back: Seq<char>)
    requires
        text::blank(front),
        text::blank(back),
        core.len() > 0,
        !text::is_space(core[0]),
        !text::is_space(core.last()),
    ensures
        !core.contains('1') || !core.contains('=') ==> !says_running(front + core + back),
        !text::has(core, "Running"@) ==> !says_running(front + core + back),
        core.contains('1') && core.contains('=') && "Running"@.is_prefix_of(core)
            ==> says_running(front + core + back),
        core.contains('1') && core.contains('=') && text::has(core, "\"Running\""@)
            ==> says_running(front + core + back),
{
    text::trimming_takes_white_space(front, core, back);
    let quoted = "\"Running\""@;
    let plain = "Running"@;
    reveal_strlit("\"Running\"");
    reveal_strlit("Running");
    assert(quoted.len() == 9 && plain.len() == 7);
    if text::has(core, quoted) {
        let i = choose|i: int| text::occurs_at(core, quoted, i);
        assert forall|k: int| 0 <= k < 7 implies core.subrange(i + 1, i + 8)[k] == plain[k] by {
            assert(core.subrange(i, i + 9)[k + 1] == quoted[k + 1]);
        }
        assert(core.subrange(i + 1, i + 8) =~= plain);
        assert(text::occurs_at(core, plain, i + 1));
    }
    if plain.is_prefix_of(core) {
        assert(core.subrange(0, 7) =~= plain);
        assert(text::occurs_at(core, plain, 0));
    }
}

/// The listing has a row for each snapshot, in order, with its age in days and its date at
/// the end, and its name where that is short enough; without snapshots it says so.
pub proof fn rows_tell_age_and_date(snaps: Seq<SnapshotView>, now: Stamp, k: int)
    requires
        0 <= k < snaps.len(),
    ensures
        ({
            let row = list_lines(snaps, now)[k + 3];
            let s = snaps[k];
            &&& list_lines(snaps, now).len() == snaps.len() + 4
            &&& text::byte_len(s.name) <= 48 ==> text::has(row, s.name)
            &&& text::has(row, text::decimal(age_of(s, now) as nat) + "d  "@)
            &&& date_in(s.name).is_suffix_of(row)
        }),
        list_lines(Seq::empty(), now) == seq!["  snapshots  no local APFS snapshots found"@],
{
    let s = snaps[k];
    let rows = snaps.map_values(|s: SnapshotView| list_row(s, now));
    let lines = list_lines(snaps, now);
    assert(lines[k + 3] == rows[k]);
    let row = list_row(s, now);
    let name = text::truncated(s.name, 48);
    let age = text::decimal(age_of(s, now) as nat);
    let date = date_in(s.name);
    let front = "  "@;
    let fill = text::repeated(' ', 48 - name.len());
    let gap = text::repeated(' ', 6 - age.len());
    let lead = text::repeated(' ', 10 - date.len());
    let back = fill + " "@ + gap + age + "d  "@ + lead + date;
    assert(row =~= front + name + back);
    text::parts_are_found(row, front, name, back);
    let told = age + "d  "@;
    let ahead = front + name + fill + " "@ + gap;
    assert(row =~= ahead + told + (lead + date));
    text::parts_are_found(row, ahead, told, lead + date);
    assert(row.subrange(row.len() - date.len(), row.len() as int) =~= date);
}

} // verus!
