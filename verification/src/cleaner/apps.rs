//! The life of apps: which are looked at, which count as unused, and what their
//! removal takes.
//!
//! An app counts as unused only on positive evidence: where nothing is known of
//! its last use, it is left alone.

use vstd::prelude::*;
use crate::clock::Stamp;
use crate::command::{command, CommandLine};
use crate::config::{Config, Paths, RogueList, Whitelist};
use crate::plan::{Action, ActionView};
use crate::dates::Reading;
use crate::{clock, config, dates, guard, lists, paths, plan, size, text};

verus! {

broadcast use crate::text::group_views;

// ── apps ─────────────────────────────────────────────────────────────────────

/// Where the time of the last use comes from.
#[derive(Debug, Clone, Copy, PartialEq, Eq, Structural)]
pub enum LastUsedSource {
    /// Spotlight's date of the last use: the most reliable.
    SpotlightLastUsed,
    /// Spotlight's date of addition: the app was never opened.
    SpotlightDateAdded,
    /// The access time of the file system: Spotlight knows nothing.
    FilesystemAtime,
    /// Nothing is known: taken as recently used.
    Unknown,
}

/// The word for a source.
pub open spec fn source_label(s: LastUsedSource) -> Seq<char> {
    match s {
        LastUsedSource::SpotlightLastUsed => "spotlight"@,
        LastUsedSource::SpotlightDateAdded => "never opened"@,
        LastUsedSource::FilesystemAtime => "atime"@,
        LastUsedSource::Unknown => "unknown"@,
    }
}

impl LastUsedSource {
    /// The word for this source.
    pub fn label(self) -> (r: &'static str)
        ensures
            r@ == source_label(self),
    {
        match self {
            LastUsedSource::SpotlightLastUsed => "spotlight",
            LastUsedSource::SpotlightDateAdded => "never opened",
            LastUsedSource::FilesystemAtime => "atime",
            LastUsedSource::Unknown => "unknown",
        }
    }
}

/// An app on the system.
#[derive(Debug)]
pub struct AppInfo {
    pub name: String,
    pub bundle_id: Option<String>,
    pub path: String,
    /// When it was last used, as far as there is evidence.
    pub last_used: Option<Stamp>,
    pub last_used_src: LastUsedSource,
    pub size: u64,
}

/// The view of an [`AppInfo`].
pub struct AppView {
    pub name: Seq<char>,
    pub bundle_id: Option<Seq<char>>,
    pub path: Seq<char>,
    pub last_used: Option<Stamp>,
    pub last_used_src: LastUsedSource,
    pub size: u64,
}

impl View for AppInfo {
    type V = AppView;

    open spec fn view(&self) -> AppView {
        AppView {
            name: self.name@,
            bundle_id: text::opt_view(self.bundle_id),
            path: self.path@,
            last_used: self.last_used,
            last_used_src: self.last_used_src,
            size: self.size,
        }
    }
}

/// The full days since the last use; none where it is unknown or lies ahead.
pub open spec fn days_unused(a: AppView, now: Stamp) -> Option<int> {
    match a.last_used {
        Some(t) => match clock::elapsed(now, t) {
            Some(secs) => Some(secs / 86400),
            None => None,
        },
        None => None,
    }
}

/// There is evidence that the app was not used for so many seconds.
pub open spec fn unused_for(a: AppView, threshold: int, now: Stamp) -> bool {
    a.last_used matches Some(t) && clock::due(now, t, threshold)
}

impl AppInfo {
    /// The full days since the last use.
    pub fn age_days(&self, now: Stamp) -> (r: Option<u64>)
        ensures
            match r {
                Some(d) => days_unused(self@, now) == Some(d as int),
                None => days_unused(self@, now) is None,
            },
    {
        match self.last_used {
            Some(t) => match now.elapsed_since(t) {
                Some(secs) => Some(secs / 86400),
                None => None,
            },
            None => None,
        }
    }

    /// Whether there is evidence that the app was not used for `threshold` seconds.
    pub fn is_unused_for(&self, threshold: u64, now: Stamp) -> (r: bool)
        ensures
            r == unused_for(self@, threshold as int, now),
    {
        match self.last_used {
            Some(t) => clock::is_due(now, t, threshold),
            None => false,
        }
    }
}

// ── scanning ─────────────────────────────────────────────────────────────────

/// Where apps are.
pub fn app_dirs(home: &str) -> (r: Vec<String>)
    ensures
        text::views(r@) == seq!["/Applications"@, paths::joined(home@, "Applications"@)],
{
    let mut r: Vec<String> = Vec::new();
    r.push(text::owned("/Applications"));
    r.push(paths::home_join(home, "Applications"));
    assert(text::views(r@) =~= seq!["/Applications"@, paths::joined(home@, "Applications"@)]);
    r
}

/// The name of the app at a path; none where it is no app.
pub open spec fn app_name_at(path: Seq<char>) -> Option<Seq<char>> {
    match paths::base_name(path) {
        Some(name) => if paths::ext_of(name) == Some("app"@) {
            Some(paths::stem_of(name))
        } else {
            None
        },
        None => None,
    }
}

/// An app with this name is dealt with: it is not on the whitelist.
pub open spec fn name_is_scanned(name: Seq<char>, w: Whitelist) -> bool {
    !text::views(w.apps@).contains(name)
}

/// An app with this bundle identifier is dealt with: it is neither on the
/// whitelist nor critical. One without an identifier is.
pub open spec fn bundle_is_scanned(bid: Option<Seq<char>>, w: Whitelist) -> bool {
    match bid {
        Some(b) => !text::views(w.bundle_ids@).contains(b) && !guard::critical_bundle(b),
        None => true,
    }
}

/// The name of the app at a path, where it is an app that is dealt with by its name.
pub fn scan_name(path: &str, whitelist: &Whitelist) -> (r: Option<String>)
    ensures
        text::opt_view(r) == (match app_name_at(path@) {
            Some(name) => if name_is_scanned(name, *whitelist) {
                Some(name)
            } else {
                None
            },
            None => None,
        }),
{
    match paths::file_name(path) {
        Some(file) => match paths::name_ext(file.as_str()) {
            Some(ext) => {
                if !text::same(ext.as_str(), "app") {
                    return None;
                }
                let name = paths::name_stem(file.as_str());
                if whitelist.contains_app(name.as_str()) {
                    None
                } else {
                    Some(name)
                }
            },
            None => None,
        },
        None => None,
    }
}

/// Whether an app is dealt with by its bundle identifier.
pub fn scan_bundle(bid: &Option<String>, whitelist: &Whitelist) -> (r: bool)
    ensures
        r == bundle_is_scanned(text::opt_view(*bid), *whitelist),
{
    match bid {
        Some(b) => !whitelist.contains_bundle(b.as_str()) && !guard::is_critical_bundle(
            b.as_str(),
        ),
        None => true,
    }
}

/// The question for the bundle identifier of an app.
pub fn bundle_id_command(app: &str) -> (r: CommandLine)
    ensures
        r@ == (
            "defaults"@,
            seq!["read"@, paths::joined(app@, "Contents/Info.plist"@), "CFBundleIdentifier"@],
        ),
{
    let plist = paths::join(app, "Contents/Info.plist");
    let r = command("defaults", &["read", plist.as_str(), "CFBundleIdentifier"]);
    assert(r@.1 =~= seq!["read"@, plist@, "CFBundleIdentifier"@]);
    r
}

/// The trimmed reply of a tool; none where it is empty.
pub open spec fn nonempty(reply: Seq<char>) -> Option<Seq<char>> {
    if text::trim(reply).len() == 0 {
        None
    } else {
        Some(text::trim(reply))
    }
}

/// The trimmed reply of a tool; none where it is empty.
pub fn told(reply: &str) -> (r: Option<String>)
    ensures
        text::opt_view(r) == nonempty(reply@),
{
    let t = text::trimmed(reply);
    if t.as_str().is_empty() {
        None
    } else {
        Some(t)
    }
}

// ── the last use ─────────────────────────────────────────────────────────────

/// The question for a date that Spotlight keeps of an app.
pub fn mdls_command(app: &str, key: &str) -> (r: CommandLine)
    ensures
        r@ == ("mdls"@, seq!["-name"@, key@, "-raw"@, app@]),
{
    let r = command("mdls", &["-name", key, "-raw", app]);
    assert(r@.1 =~= seq!["-name"@, key@, "-raw"@, app@]);
    r
}

/// The question whether Spotlight keeps an index.
pub fn mdutil_status() -> (r: CommandLine)
    ensures
        r@ == ("mdutil"@, seq!["-s"@, "/"@]),
{
    let r = command("mdutil", &["-s", "/"]);
    assert(r@.1 =~= seq!["-s"@, "/"@]);
    r
}

/// The question for the access time of a path.
pub fn atime_command(path: &str) -> (r: CommandLine)
    ensures
        r@ == ("stat"@, seq!["-f"@, "%a"@, path@]),
{
    let r = command("stat", &["-f", "%a", path]);
    assert(r@.1 =~= seq!["-f"@, "%a"@, path@]);
    r
}

/// Whether Spotlight keeps an index, by the reply to [`mdutil_status`]. No reply
/// counts as no.
pub fn spotlight_is_available(reply: &Option<String>) -> (r: bool)
    ensures
        r == (reply matches Some(s) && text::has(s@, "enabled"@)),
{
    match reply {
        Some(s) => text::contains(s.as_str(), "enabled"),
        None => false,
    }
}

/// The point in time that a reply of mdls names.
pub fn mdls_stamp(reply: &str) -> (r: Option<Stamp>)
    requires
        dates::mdls_reply(reply@) != Reading::OutOfRange,
    ensures
        match r {
            Some(t) => dates::mdls_reply(reply@) == Reading::At(t.secs as int) && t.nanos == 0,
            None => dates::mdls_reply(reply@) == Reading::Nothing,
        },
{
    match dates::mdls_date(reply) {
        Some(secs) => Some(Stamp::at(secs)),
        None => None,
    }
}

/// The point in time that a reply of stat names.
pub fn atime_stamp(reply: &str) -> (r: Option<Stamp>)
    requires
        dates::atime_reading(reply@).unwrap_or(0) <= i64::MAX,
    ensures
        match r {
            Some(t) => dates::atime_reading(reply@) == Some(t.secs as nat) && t.nanos == 0
                && t.secs >= 0,
            None => dates::atime_reading(reply@) is None,
        },
{
    match dates::atime(reply) {
        Some(secs) => Some(Stamp::at(secs)),
        None => None,
    }
}

/// What is known so far about the last use of an app. A question that was not asked
/// yet is `None`; one that was asked holds its answer.
#[derive(Debug, Clone, Copy)]
pub struct UsageAnswers {
    pub last_used: Option<Option<Stamp>>,
    pub indexed: Option<bool>,
    pub date_added: Option<Option<Stamp>>,
    pub accessed: Option<Option<Stamp>>,
}

/// What has to be asked next about the last use of an app, or what is known of it.
#[derive(Debug, Clone, Copy, PartialEq, Eq, Structural)]
pub enum UsageStep {
    /// Ask Spotlight for the date of the last use.
    AskLastUsed,
    /// Ask whether Spotlight keeps an index.
    AskIndexed,
    /// Ask Spotlight for the date of addition.
    AskDateAdded,
    /// Ask the file system for the access time.
    AskAccessed,
    /// The last use, and where it is known from.
    Known(Stamp, LastUsedSource),
    /// Nothing is known.
    Unknown,
}

/// The last resort: the access time of the file system.
pub open spec fn access_step(a: UsageAnswers) -> UsageStep {
    match a.accessed {
        None => UsageStep::AskAccessed,
        Some(Some(t)) => UsageStep::Known(t, LastUsedSource::FilesystemAtime),
        Some(None) => UsageStep::Unknown,
    }
}

/// The chain of questions: the date of the last use; where Spotlight has none but
/// keeps an index, the date of addition; else the access time.
pub open spec fn usage_step(a: UsageAnswers) -> UsageStep {
    match a.last_used {
        None => UsageStep::AskLastUsed,
        Some(Some(t)) => UsageStep::Known(t, LastUsedSource::SpotlightLastUsed),
        Some(None) => match a.indexed {
            None => UsageStep::AskIndexed,
            Some(true) => match a.date_added {
                None => UsageStep::AskDateAdded,
                Some(Some(t)) => UsageStep::Known(t, LastUsedSource::SpotlightDateAdded),
                Some(None) => access_step(a),
            },
            Some(false) => access_step(a),
        },
    }
}

/// What has to be asked next about the last use of an app, or what is known of it.
pub fn get_last_used_with_fallback(a: &UsageAnswers) -> (r: UsageStep)
    ensures
        r == usage_step(*a),
{
    match a.last_used {
        None => {
            return UsageStep::AskLastUsed;
        },
        Some(Some(t)) => {
            return UsageStep::Known(t, LastUsedSource::SpotlightLastUsed);
        },
        Some(None) => {},
    }
    match a.indexed {
        None => {
            return UsageStep::AskIndexed;
        },
        Some(indexed) => {
            if indexed {
                match a.date_added {
                    None => {
                        return UsageStep::AskDateAdded;
                    },
                    Some(Some(t)) => {
                        return UsageStep::Known(t, LastUsedSource::SpotlightDateAdded);
                    },
                    Some(None) => {},
                }
            }
        },
    }
    match a.accessed {
        None => UsageStep::AskAccessed,
        Some(Some(t)) => UsageStep::Known(t, LastUsedSource::FilesystemAtime),
        Some(None) => UsageStep::Unknown,
    }
}

// ── looking at one app ───────────────────────────────────────────────────────

/// Waits for the bundle identifier of an app.
pub struct AskingBundle {
    path: String,
    name: String,
}

/// Waits for an answer about the last use of an app.
pub struct AskingUsage {
    path: String,
    name: String,
    bundle_id: Option<String>,
    answers: UsageAnswers,
}

/// Waits for the size of an app.
pub struct MeasuringApp {
    path: String,
    name: String,
    bundle_id: Option<String>,
    last_used: Option<Stamp>,
    last_used_src: LastUsedSource,
}

/// What has to be found out next about an entry of a directory of apps.
pub enum AppScan {
    /// Nothing: the entry is passed over.
    Passed,
    /// Its bundle identifier.
    Bundle(AskingBundle),
    /// When it was last used.
    Usage(AskingUsage),
    /// How large it is.
    Size(MeasuringApp),
}

/// An app as far as it is known: its path, its name and its bundle identifier.
pub struct AppHead {
    pub path: Seq<char>,
    pub name: Seq<char>,
    pub bundle_id: Option<Seq<char>>,
}

/// The view of an [`AppScan`].
pub enum ScanView {
    Passed,
    Bundle(Seq<char>, Seq<char>),
    Usage(AppHead, UsageAnswers),
    Size(AppHead, Option<Stamp>, LastUsedSource),
}

impl View for AskingBundle {
    type V = (Seq<char>, Seq<char>);

    closed spec fn view(&self) -> (Seq<char>, Seq<char>) {
        (self.path@, self.name@)
    }
}

impl View for AskingUsage {
    type V = (AppHead, UsageAnswers);

    closed spec fn view(&self) -> (AppHead, UsageAnswers) {
        (
            AppHead {
                path: self.path@,
                name: self.name@,
                bundle_id: text::opt_view(self.bundle_id),
            },
            self.answers,
        )
    }
}

impl View for MeasuringApp {
    type V = (AppHead, Option<Stamp>, LastUsedSource);

    closed spec fn view(&self) -> (AppHead, Option<Stamp>, LastUsedSource) {
        (
            AppHead {
                path: self.path@,
                name: self.name@,
                bundle_id: text::opt_view(self.bundle_id),
            },
            self.last_used,
            self.last_used_src,
        )
    }
}

impl View for AppScan {
    type V = ScanView;

    open spec fn view(&self) -> ScanView {
        match self {
            AppScan::Passed => ScanView::Passed,
            AppScan::Bundle(s) => ScanView::Bundle(s@.0, s@.1),
            AppScan::Usage(s) => ScanView::Usage(s@.0, s@.1),
            AppScan::Size(s) => ScanView::Size(s@.0, s@.1, s@.2),
        }
    }
}

/// Nothing was asked yet.
pub open spec fn no_answers() -> UsageAnswers {
    UsageAnswers { last_used: None, indexed: None, date_added: None, accessed: None }
}

/// What is no app, or is on the whitelist, is passed over.
pub open spec fn scan_begun(path: Seq<char>, w: Whitelist) -> ScanView {
    match app_name_at(path) {
        Some(name) => if name_is_scanned(name, w) {
            ScanView::Bundle(path, name)
        } else {
            ScanView::Passed
        },
        None => ScanView::Passed,
    }
}

/// The bundle identifier in the reply of the tool that was asked for it.
pub open spec fn bundle_in(reply: Option<Seq<char>>) -> Option<Seq<char>> {
    match reply {
        Some(s) => nonempty(s),
        None => None,
    }
}

/// What follows once the bundle identifier is known, as far as there is one.
pub open spec fn bundle_known(
    path: Seq<char>,
    name: Seq<char>,
    reply: Option<Seq<char>>,
    w: Whitelist,
) -> ScanView {
    let bundle_id = bundle_in(reply);
    if bundle_is_scanned(bundle_id, w) {
        ScanView::Usage(AppHead { path, name, bundle_id }, no_answers())
    } else {
        ScanView::Passed
    }
}

/// What follows once more is known about the last use.
pub open spec fn usage_known(head: AppHead, a: UsageAnswers) -> ScanView {
    match usage_step(a) {
        UsageStep::Known(t, src) => ScanView::Size(head, Some(t), src),
        UsageStep::Unknown => ScanView::Size(head, None, LastUsedSource::Unknown),
        _ => ScanView::Usage(head, a),
    }
}

/// The app, once its size is known too.
pub open spec fn app_known(
    head: AppHead,
    last_used: Option<Stamp>,
    last_used_src: LastUsedSource,
    size: u64,
) -> AppView {
    AppView {
        name: head.name,
        bundle_id: head.bundle_id,
        path: head.path,
        last_used,
        last_used_src,
        size,
    }
}

/// Begins to look at an entry of a directory of apps.
pub fn scan_apps(path: &str, whitelist: &Whitelist) -> (r: AppScan)
    ensures
        r@ == scan_begun(path@, *whitelist),
{
    match scan_name(path, whitelist) {
        Some(name) => AppScan::Bundle(AskingBundle { path: text::owned(path), name }),
        None => AppScan::Passed,
    }
}

impl AskingBundle {
    /// The question for the bundle identifier.
    pub fn question(&self) -> (r: CommandLine)
        ensures
            r@ == (
                "defaults"@,
                seq![
                    "read"@,
                    paths::joined(self@.0, "Contents/Info.plist"@),
                    "CFBundleIdentifier"@,
                ],
            ),
    {
        bundle_id_command(self.path.as_str())
    }

    /// Goes on with what the tool printed, if it could be asked.
    pub fn resume(self, reply: &Option<String>, whitelist: &Whitelist) -> (r: AppScan)
        ensures
            r@ == bundle_known(self@.0, self@.1, text::opt_view(*reply), *whitelist),
    {
        let bundle_id = match reply {
            Some(s) => told(s.as_str()),
            None => None,
        };
        if !scan_bundle(&bundle_id, whitelist) {
            return AppScan::Passed;
        }
        let answers = UsageAnswers {
            last_used: None,
            indexed: None,
            date_added: None,
            accessed: None,
        };
        AppScan::Usage(AskingUsage { path: self.path, name: self.name, bundle_id, answers })
    }
}

impl AskingUsage {
    /// The path of the app.
    pub fn path(&self) -> (r: &str)
        ensures
            r@ == self@.0.path,
    {
        self.path.as_str()
    }

    /// What is known so far.
    pub fn answers(&self) -> (r: UsageAnswers)
        ensures
            r == self@.1,
    {
        self.answers
    }

    /// Goes on with what is known now.
    pub fn resume(self, answers: UsageAnswers) -> (r: AppScan)
        ensures
            r@ == usage_known(self@.0, answers),
    {
        let AskingUsage { path, name, bundle_id, answers: _ } = self;
        match get_last_used_with_fallback(&answers) {
            UsageStep::Known(t, last_used_src) => AppScan::Size(
                MeasuringApp { path, name, bundle_id, last_used: Some(t), last_used_src },
            ),
            UsageStep::Unknown => AppScan::Size(
                MeasuringApp {
                    path,
                    name,
                    bundle_id,
                    last_used: None,
                    last_used_src: LastUsedSource::Unknown,
                },
            ),
            _ => AppScan::Usage(AskingUsage { path, name, bundle_id, answers }),
        }
    }
}

impl MeasuringApp {
    /// The path of the app.
    pub fn path(&self) -> (r: &str)
        ensures
            r@ == self@.0.path,
    {
        self.path.as_str()
    }

    /// The app, with its size.
    pub fn finish(self, size: u64) -> (r: AppInfo)
        ensures
            r@ == app_known(self@.0, self@.1, self@.2, size),
    {
        AppInfo {
            name: self.name,
            bundle_id: self.bundle_id,
            path: self.path,
            last_used: self.last_used,
            last_used_src: self.last_used_src,
            size,
        }
    }
}

// ── which apps go ────────────────────────────────────────────────────────────

/// The app is unwanted, by its name or by its bundle identifier.
pub open spec fn is_rogue(a: AppView, rogue: RogueList) -> bool {
    text::views(rogue.app_names@).contains(a.name) || (a.bundle_id matches Some(b)
        && text::views(rogue.bundle_ids@).contains(b))
}

/// The indices, in order, of the first `n` apps of which `wanted` holds.
pub open spec fn chosen(apps: Seq<AppView>, wanted: spec_fn(AppView) -> bool, n: int) -> Seq<int>
    decreases n,
{
    if n <= 0 {
        Seq::empty()
    } else if wanted(apps[n - 1]) {
        chosen(apps, wanted, n - 1).push(n - 1)
    } else {
        chosen(apps, wanted, n - 1)
    }
}

/// The test for unwanted apps.
pub open spec fn rogue_test(rogue: RogueList) -> spec_fn(AppView) -> bool {
    |a: AppView| is_rogue(a, rogue)
}

/// The test for unused apps.
pub open spec fn unused_test(threshold: int, now: Stamp) -> spec_fn(AppView) -> bool {
    |a: AppView| unused_for(a, threshold, now)
}

fn rogue_app(a: &AppInfo, rogue: &RogueList) -> (r: bool)
    ensures
        r == is_rogue(a@, *rogue),
{
    if text::is_any(a.name.as_str(), &rogue.app_names) {
        return true;
    }
    match &a.bundle_id {
        Some(b) => text::is_any(b.as_str(), &rogue.bundle_ids),
        None => false,
    }
}

/// What is done about an app that is to go.
pub enum AppStep {
    /// Show a line only.
    Show(String),
    /// Uninstall the app with this index.
    Uninstall(usize),
}

/// The view of an [`AppStep`].
pub enum AppStepView {
    Show(Seq<char>),
    Uninstall(int),
}

impl View for AppStep {
    type V = AppStepView;

    open spec fn view(&self) -> AppStepView {
        match self {
            AppStep::Show(line) => AppStepView::Show(line@),
            AppStep::Uninstall(i) => AppStepView::Uninstall(*i as int),
        }
    }
}

/// The line that a dry run shows for an unwanted app.
pub open spec fn rogue_line(a: AppView) -> Seq<char> {
    "  [dry] would remove rogue: "@ + a.name
}

/// The line that a dry run shows for an app to be uninstalled.
pub open spec fn uninstall_line(a: AppView, now: Stamp) -> Seq<char> {
    "  [dry] would uninstall "@ + a.name + " ("@ + text::decimal(
        days_unused(a, now).unwrap_or(0) as nat,
    ) + "d unused)"@
}

/// What is done about the unwanted app with this index: in a dry run it is only shown.
pub open spec fn rogue_step(apps: Seq<AppView>, dry_run: bool) -> spec_fn(int) -> AppStepView {
    |i: int|
        if dry_run {
            AppStepView::Show(rogue_line(apps[i]))
        } else {
            AppStepView::Uninstall(i)
        }
}

/// What is done about the unused app with this index: in a dry run it is only shown.
pub open spec fn stale_step(apps: Seq<AppView>, now: Stamp, dry_run: bool) -> spec_fn(
    int,
) -> AppStepView {
    |i: int|
        if dry_run {
            AppStepView::Show(uninstall_line(apps[i], now))
        } else {
            AppStepView::Uninstall(i)
        }
}

/// What is done about the unwanted apps, in order.
pub open spec fn rogue_steps(apps: Seq<AppView>, rogue: RogueList, dry_run: bool) -> Seq<
    AppStepView,
> {
    chosen(apps, rogue_test(rogue), apps.len() as int).map_values(rogue_step(apps, dry_run))
}

/// What is done about the apps that were not used for so many seconds, in order.
pub open spec fn stale_steps(apps: Seq<AppView>, threshold: int, now: Stamp, dry_run: bool) -> Seq<
    AppStepView,
> {
    chosen(apps, unused_test(threshold, now), apps.len() as int).map_values(
        stale_step(apps, now, dry_run),
    )
}

/// What is done about the unwanted apps. A dry run uninstalls none.
pub fn remove_rogue(cfg: &Config, apps: &Vec<AppInfo>, dry_run: bool) -> (r: Vec<AppStep>)
    ensures
        text::views(r@) == rogue_steps(text::views(apps@), cfg.rogue_list, dry_run),
        dry_run ==> forall|i: int| 0 <= i < r@.len() ==> #[trigger] r@[i] is Show,
        forall|i: int|
            0 <= i < r@.len() ==> (#[trigger] r@[i] matches AppStep::Uninstall(k) ==> k
                < apps@.len()),
{
    let ghost all = text::views(apps@);
    let ghost which = chosen(all, rogue_test(cfg.rogue_list), 0);
    let mut r: Vec<AppStep> = Vec::new();
    let mut i: usize = 0;
    assert(text::views(r@) =~= which.map_values(rogue_step(all, dry_run)));
    while i < apps.len()
        invariant
            i <= apps@.len(),
            all == text::views(apps@),
            which == chosen(all, rogue_test(cfg.rogue_list), i as int),
            text::views(r@) == which.map_values(rogue_step(all, dry_run)),
            dry_run ==> forall|i: int| 0 <= i < r@.len() ==> #[trigger] r@[i] is Show,
            forall|i: int|
                0 <= i < r@.len() ==> (#[trigger] r@[i] matches AppStep::Uninstall(k) ==> k
                    < apps@.len()),
        decreases apps.len() - i,
    {
        assert(all[i as int] == apps@[i as int]@);
        if rogue_app(&apps[i], &cfg.rogue_list) {
            let step = if dry_run {
                AppStep::Show(rogue_dry_line(&apps[i]))
            } else {
                AppStep::Uninstall(i)
            };
            proof {
                which = which.push(i as int);
            }
            r.push(step);
            assert(text::views(r@) =~= which.map_values(rogue_step(all, dry_run)));
        }
        i = i + 1;
    }
    r
}

/// What is done about the apps that were not used for `thresholds.uninstall_unused_days`.
/// A dry run uninstalls none.
pub fn uninstall_stale(cfg: &Config, apps: &Vec<AppInfo>, now: Stamp, dry_run: bool) -> (r: Vec<
    AppStep,
>)
    requires
        cfg.thresholds.uninstall_unused_days * clock::SECS_PER_DAY <= u64::MAX,
    ensures
        text::views(r@) == stale_steps(
            text::views(apps@),
            cfg.thresholds.uninstall_unused_days * clock::SECS_PER_DAY,
            now,
            dry_run,
        ),
        dry_run ==> forall|i: int| 0 <= i < r@.len() ==> #[trigger] r@[i] is Show,
        forall|i: int|
            0 <= i < r@.len() ==> (#[trigger] r@[i] matches AppStep::Uninstall(k) ==> k
                < apps@.len()),
{
    let threshold: u64 = clock::days(cfg.thresholds.uninstall_unused_days);
    let ghost all = text::views(apps@);
    let ghost which = chosen(all, unused_test(threshold as int, now), 0);
    let mut r: Vec<AppStep> = Vec::new();
    let mut i: usize = 0;
    assert(text::views(r@) =~= which.map_values(stale_step(all, now, dry_run)));
    while i < apps.len()
        invariant
            i <= apps@.len(),
            all == text::views(apps@),
            which == chosen(all, unused_test(threshold as int, now), i as int),
            text::views(r@) == which.map_values(stale_step(all, now, dry_run)),
            dry_run ==> forall|i: int| 0 <= i < r@.len() ==> #[trigger] r@[i] is Show,
            forall|i: int|
                0 <= i < r@.len() ==> (#[trigger] r@[i] matches AppStep::Uninstall(k) ==> k
                    < apps@.len()),
        decreases apps.len() - i,
    {
        assert(all[i as int] == apps@[i as int]@);
        if apps[i].is_unused_for(threshold, now) {
            let step = if dry_run {
                AppStep::Show(uninstall_dry_line(&apps[i], now))
            } else {
                AppStep::Uninstall(i)
            };
            proof {
                which = which.push(i as int);
            }
            r.push(step);
            assert(text::views(r@) =~= which.map_values(stale_step(all, now, dry_run)));
        }
        i = i + 1;
    }
    r
}

/// The cache of an app: where it is, and the name by which a process that uses it is
/// looked for. One in use is passed over.
pub struct CacheJob {
    pub path: String,
    pub stem: Option<String>,
}

/// The view of a [`CacheJob`].
pub struct CacheView {
    pub path: Seq<char>,
    pub stem: Option<Seq<char>>,
}

impl View for CacheJob {
    type V = CacheView;

    open spec fn view(&self) -> CacheView {
        CacheView { path: self.path@, stem: text::opt_view(self.stem) }
    }
}

/// Where the cache of a bundle is.
pub open spec fn cache_of(home: Seq<char>, bid: Seq<char>) -> Seq<char> {
    paths::joined(home, "Library/Caches/"@ + bid)
}

/// The caches of the first `n` apps that were not used for so many seconds. An app
/// without a bundle identifier has none.
pub open spec fn unused_caches(
    apps: Seq<AppView>,
    threshold: int,
    now: Stamp,
    home: Seq<char>,
    n: int,
) -> Seq<CacheView>
    decreases n,
{
    if n <= 0 {
        Seq::empty()
    } else {
        let before = unused_caches(apps, threshold, now, home, n - 1);
        let a = apps[n - 1];
        if unused_for(a, threshold, now) && a.bundle_id is Some {
            let path = cache_of(home, a.bundle_id->0);
            before.push(CacheView { path, stem: guard::process_stem(path) })
        } else {
            before
        }
    }
}

fn cache_path(home: &str, bid: &str) -> (r: String)
    ensures
        r@ == cache_of(home@, bid@),
{
    let rest = text::join2("Library/Caches/", bid);
    paths::home_join(home, rest.as_str())
}

/// The caches to be cleared: those of the apps that were not used for
/// `thresholds.cache_unused_days`.
pub fn clean_unused_cache(cfg: &Config, apps: &Vec<AppInfo>, now: Stamp, home: &str) -> (r: Vec<
    CacheJob,
>)
    requires
        cfg.thresholds.cache_unused_days * clock::SECS_PER_DAY <= u64::MAX,
    ensures
        text::views(r@) == unused_caches(
            text::views(apps@),
            cfg.thresholds.cache_unused_days * clock::SECS_PER_DAY,
            now,
            home@,
            apps@.len() as int,
        ),
{
    let threshold: u64 = clock::days(cfg.thresholds.cache_unused_days);
    let ghost all = text::views(apps@);
    let mut r: Vec<CacheJob> = Vec::new();
    let mut i: usize = 0;
    while i < apps.len()
        invariant
            i <= apps@.len(),
            all == text::views(apps@),
            text::views(r@) == unused_caches(all, threshold as int, now, home@, i as int),
        decreases apps.len() - i,
    {
        assert(all[i as int] == apps@[i as int]@);
        if apps[i].is_unused_for(threshold, now) {
            match &apps[i].bundle_id {
                Some(bid) => {
                    let path = cache_path(home, bid.as_str());
                    let stem = guard::stem_to_look_for(path.as_str());
                    r.push(CacheJob { path, stem });
                },
                None => {},
            }
        }
        i = i + 1;
    }
    r
}

/// The cache is removed: it is there, and no process that its stem names runs.
pub open spec fn cache_goes(c: CacheView, there: bool, stem_running: bool) -> bool {
    there && !(c.stem is Some && stem_running)
}

impl CacheJob {
    /// The path to be removed, given whether it is there and whether a process runs that
    /// its stem names. A cache in use is passed over.
    pub fn to_remove(self, there: bool, stem_running: bool) -> (r: Option<String>)
        ensures
            text::opt_view(r) == (if cache_goes(self@, there, stem_running) {
                Some(self@.path)
            } else {
                None
            }),
    {
        let in_use: bool = match &self.stem {
            Some(_) => stem_running,
            None => false,
        };
        if there && !in_use {
            Some(self.path)
        } else {
            None
        }
    }
}

fn rogue_dry_line(app: &AppInfo) -> (r: String)
    ensures
        r@ == rogue_line(app@),
{
    text::join2("  [dry] would remove rogue: ", app.name.as_str())
}

fn uninstall_dry_line(app: &AppInfo, now: Stamp) -> (r: String)
    ensures
        r@ == uninstall_line(app@, now),
{
    let d: u64 = match app.age_days(now) {
        Some(d) => d,
        None => 0,
    };
    let mut r = text::join3("  [dry] would uninstall ", app.name.as_str(), " (");
    r.append(text::decimal_of(d).as_str());
    r.append("d unused)");
    r
}

// ── the report ───────────────────────────────────────────────────────────────

/// The time since the last use in nanoseconds; 0 where it is unknown or lies ahead.
pub open spec fn idle_nanos(a: AppView, now: Stamp) -> int {
    match a.last_used {
        Some(t) => if clock::not_before(now, t) {
            (now.secs - t.secs) * 1_000_000_000 + now.nanos - t.nanos
        } else {
            0
        },
        None => 0,
    }
}

/// The apps by the time since their last use, the longest first.
pub open spec fn longest_unused_first(apps: Seq<AppView>, now: Stamp) -> Seq<int> {
    lists::sorted_order(apps.map_values(|a: AppView| -idle_nanos(a, now)))
}

/// The days since the last use in words.
pub open spec fn age_words(a: AppView, now: Stamp) -> Seq<char> {
    match days_unused(a, now) {
        Some(d) => text::decimal(d as nat) + "d ago"@,
        None => "unknown"@,
    }
}

/// Four columns of the report.
pub open spec fn columns(name: Seq<char>, age: Seq<char>, source: Seq<char>, bytes: Seq<char>) -> Seq<
    char,
> {
    "  "@ + text::padded_right(name, 36, ' ') + " "@ + text::padded_left(age, 10) + " "@
        + text::padded_left(source, 12) + " "@ + text::padded_left(bytes, 12)
}

/// The line for one app.
pub open spec fn audit_row(a: AppView, now: Stamp) -> Seq<char> {
    columns(
        text::truncated(a.name, 36),
        age_words(a, now),
        source_label(a.last_used_src),
        size::byte_words(a.size as nat),
    )
}

/// The heading of the report.
pub open spec fn audit_heading() -> Seq<Seq<char>> {
    seq![
        "\n  App Usage Audit"@,
        columns("Application"@, "Last Used"@, "Source"@, "Size"@),
        "  "@ + text::repeated('─', 74),
    ]
}

/// The report on the use of apps, line by line.
pub open spec fn audit_lines(apps: Seq<AppView>, now: Stamp) -> Seq<Seq<char>> {
    (audit_heading() + longest_unused_first(apps, now).map_values(
        |i: int| audit_row(apps[i], now),
    )).push(""@)
}

/// Every name can be cut to the width of its column.
pub open spec fn reportable(apps: Seq<AppView>) -> bool {
    forall|i: int| 0 <= i < apps.len() ==> text::can_truncate((#[trigger] apps[i]).name, 36)
}

/// Whether every name can be cut to the width of its column.
pub fn is_reportable(apps: &Vec<AppInfo>) -> (r: bool)
    ensures
        r == reportable(text::views(apps@)),
{
    let ghost all = text::views(apps@);
    let mut i: usize = 0;
    while i < apps.len()
        invariant
            i <= apps@.len(),
            all == text::views(apps@),
            forall|j: int| 0 <= j < i ==> text::can_truncate((#[trigger] all[j]).name, 36),
        decreases apps.len() - i,
    {
        assert(all[i as int].name == apps@[i as int].name@);
        if !text::truncatable(apps[i].name.as_str(), 36) {
            return false;
        }
        i = i + 1;
    }
    true
}

fn column_line(name: &str, age: &str, source: &str, bytes: &str) -> (r: String)
    ensures
        r@ == columns(name@, age@, source@, bytes@),
{
    let mut r = text::join3("  ", text::pad_right(name, 36, ' ').as_str(), " ");
    r.append(text::pad_left(age, 10).as_str());
    r.append(" ");
    r.append(text::pad_left(source, 12).as_str());
    r.append(" ");
    r.append(text::pad_left(bytes, 12).as_str());
    r
}

fn row(a: &AppInfo, now: Stamp) -> (r: String)
    requires
        text::can_truncate(a@.name, 36),
    ensures
        r@ == audit_row(a@, now),
{
    let name = text::truncate(a.name.as_str(), 36);
    let age = match a.age_days(now) {
        Some(d) => text::join2(text::decimal_of(d).as_str(), "d ago"),
        None => text::owned("unknown"),
    };
    let bytes = size::fmt_bytes(a.size);
    column_line(name.as_str(), age.as_str(), a.last_used_src.label(), bytes.as_str())
}

fn idle_key(a: &AppInfo, now: Stamp) -> (r: i128)
    ensures
        r == -idle_nanos(a@, now),
{
    match a.last_used {
        Some(t) => if now.not_before(t) {
            let secs: i128 = now.secs as i128 - t.secs as i128;
            -(secs * 1_000_000_000 + now.nanos as i128 - t.nanos as i128)
        } else {
            0
        },
        None => 0,
    }
}

/// The report on the use of apps: those that were not used for the longest time first.
pub fn audit_report(apps: &Vec<AppInfo>, now: Stamp) -> (r: Vec<String>)
    requires
        reportable(text::views(apps@)),
    ensures
        text::views(r@) == audit_lines(text::views(apps@), now),
{
    let ghost all = text::views(apps@);
    let ghost idle = all.map_values(|a: AppView| -idle_nanos(a, now));
    let mut keys: Vec<i128> = Vec::new();
    let mut i: usize = 0;
    while i < apps.len()
        invariant
            i <= apps@.len(),
            all == text::views(apps@),
            idle == all.map_values(|a: AppView| -idle_nanos(a, now)),
            lists::whole_keys(keys@) == idle.take(i as int),
        decreases apps.len() - i,
    {
        let key: i128 = idle_key(&apps[i], now);
        assert(all[i as int] == apps@[i as int]@);
        assert(idle[i as int] == key);
        let ghost before = keys@;
        keys.push(key);
        assert(lists::whole_keys(keys@) =~= lists::whole_keys(before).push(key as int));
        i = i + 1;
        assert(lists::whole_keys(keys@) =~= idle.take(i as int));
    }
    assert(idle.take(i as int) =~= idle);
    let order = lists::sort_order(&keys);
    let ghost rows = lists::indices(order@).map_values(|i: int| audit_row(all[i], now));
    let mut r: Vec<String> = Vec::new();
    r.push(text::owned("\n  App Usage Audit"));
    r.push(column_line("Application", "Last Used", "Source", "Size"));
    r.push(text::join2("  ", text::repeat('─', 74).as_str()));
    assert(text::views(r@) =~= audit_heading() + rows.take(0));
    let mut k: usize = 0;
    while k < order.len()
        invariant
            k <= order@.len(),
            all == text::views(apps@),
            reportable(all),
            rows == lists::indices(order@).map_values(|i: int| audit_row(all[i], now)),
            forall|i: int| 0 <= i < order@.len() ==> #[trigger] order@[i] < apps@.len(),
            text::views(r@) == audit_heading() + rows.take(k as int),
        decreases order.len() - k,
    {
        let s: usize = order[k];
        assert(text::can_truncate(all[s as int].name, 36));
        let line = row(&apps[s], now);
        assert(line@ == rows[k as int]);
        r.push(line);
        k = k + 1;
        assert(text::views(r@) =~= audit_heading() + rows.take(k as int));
    }
    assert(rows.take(k as int) =~= rows);
    r.push(text::owned(""));
    r
}

// ── uninstalling ─────────────────────────────────────────────────────────────

/// Ends the processes of an app: politely, and half a second later by force.
pub open spec fn kill_plan(name: Seq<char>) -> Seq<ActionView> {
    seq![
        ActionView::Run("pkill"@, seq!["-x"@, name]),
        ActionView::Pause(500),
        ActionView::Run("pkill"@, seq!["-9"@, "-x"@, name]),
    ]
}

/// Ends the processes of an app.
pub fn kill_by_name(name: &str) -> (r: Vec<Action>)
    ensures
        text::views(r@) == kill_plan(name@),
{
    let mut r: Vec<Action> = Vec::new();
    r.push(plan::run2("pkill", "-x", name));
    r.push(Action::Pause(500));
    r.push(plan::run3("pkill", "-9", "-x", name));
    assert(text::views(r@) =~= kill_plan(name@));
    r
}

/// `leaf` below each of the configured directories is removed.
pub open spec fn removals(
    bases: Seq<Seq<char>>,
    home: Seq<char>,
    leaf: Seq<char>,
) -> Seq<ActionView> {
    bases.map_values(
        |b: Seq<char>| ActionView::Remove(paths::joined(config::expanded(b, home), leaf)),
    )
}

/// Removes what a bundle left behind: containers, preferences, support files, cache
/// and saved state, then its launch items.
pub open spec fn leftovers(
    name: Seq<char>,
    bid: Seq<char>,
    p: Paths,
    home: Seq<char>,
) -> Seq<ActionView> {
    removals(text::views(p.app_containers@), home, bid) + removals(
        text::views(p.app_prefs@),
        home,
        bid + ".plist"@,
    ) + removals(text::views(p.app_support@), home, name) + seq![
        ActionView::Remove(cache_of(home, bid)),
        ActionView::Remove(
            paths::joined(home, "Library/Saved Application State/"@ + bid + ".savedState"@),
        ),
        ActionView::RemoveLaunchItems(bid),
    ]
}

/// Asks an app to quit.
pub open spec fn quit_request(bid: Seq<char>) -> ActionView {
    ActionView::Run("osascript"@, seq!["-e"@, "quit app id \""@ + bid + "\""@])
}

/// What uninstalling an app takes. Without an intact signature nothing is done: the
/// app may be in the middle of an update. The bundle itself goes unless it is protected.
pub open spec fn uninstall_plan(
    a: AppView,
    signature_ok: bool,
    p: Paths,
    home: Seq<char>,
) -> Seq<ActionView> {
    if !signature_ok {
        Seq::empty()
    } else {
        let quit = match a.bundle_id {
            Some(b) => seq![quit_request(b)],
            None => Seq::empty(),
        };
        let bundle = if guard::protected(a.path) {
            Seq::empty()
        } else {
            seq![ActionView::DeleteTree(a.path)]
        };
        let rest = match a.bundle_id {
            Some(b) => leftovers(a.name, b, p, home),
            None => Seq::empty(),
        };
        quit + kill_plan(a.name) + bundle + rest
    }
}

fn add_removals(r: &mut Vec<Action>, bases: &Vec<String>, home: &str, leaf: &str)
    ensures
        text::views(final(r)@) == text::views(old(r)@) + removals(
            text::views(bases@),
            home@,
            leaf@,
        ),
{
    let ghost start = text::views(r@);
    let ghost want = removals(text::views(bases@), home@, leaf@);
    let mut i: usize = 0;
    assert(start + want.take(0) =~= start);
    while i < bases.len()
        invariant
            i <= bases@.len(),
            want == removals(text::views(bases@), home@, leaf@),
            text::views(r@) == start + want.take(i as int),
        decreases bases.len() - i,
    {
        let base = Config::expand(bases[i].as_str(), home);
        let path = paths::join(base.as_str(), leaf);
        assert(want[i as int] == ActionView::Remove(path@));
        r.push(Action::Remove(path));
        i = i + 1;
        assert(text::views(r@) =~= start + want.take(i as int));
    }
    assert(want.take(i as int) =~= want);
}

fn add_leftovers(r: &mut Vec<Action>, name: &str, bid: &str, p: &Paths, home: &str)
    ensures
        text::views(final(r)@) == text::views(old(r)@) + leftovers(name@, bid@, *p, home@),
{
    let ghost start = text::views(r@);
    add_removals(r, &p.app_containers, home, bid);
    let plist = text::join2(bid, ".plist");
    add_removals(r, &p.app_prefs, home, plist.as_str());
    add_removals(r, &p.app_support, home, name);
    r.push(Action::Remove(cache_path(home, bid)));
    let state = text::join3("Library/Saved Application State/", bid, ".savedState");
    r.push(Action::Remove(paths::home_join(home, state.as_str())));
    r.push(Action::RemoveLaunchItems(text::owned(bid)));
    assert(text::views(r@) =~= start + leftovers(name@, bid@, *p, home@));
}

/// What uninstalling an app takes.
pub fn uninstall_app(app: &AppInfo, signature_ok: bool, p: &Paths, home: &str) -> (r: Vec<Action>)
    ensures
        text::views(r@) == uninstall_plan(app@, signature_ok, *p, home@),
{
    let mut r: Vec<Action> = Vec::new();
    if !signature_ok {
        return r;
    }
    match &app.bundle_id {
        Some(bid) => {
            let request = text::join3("quit app id \"", bid.as_str(), "\"");
            r.push(plan::run2("osascript", "-e", request.as_str()));
        },
        None => {},
    }
    let mut kill = kill_by_name(app.name.as_str());
    r.append(&mut kill);
    if !guard::is_protected(app.path.as_str()) {
        r.push(Action::DeleteTree(text::owned(app.path.as_str())));
    }
    match &app.bundle_id {
        Some(bid) => {
            add_leftovers(&mut r, app.name.as_str(), bid.as_str(), p, home);
        },
        None => {},
    }
    assert(text::views(r@) =~= uninstall_plan(app@, signature_ok, *p, home@));
    r
}

/// Where launch items are.
pub fn launch_item_dirs(home: &str) -> (r: Vec<String>)
    ensures
        text::views(r@) == seq![
            paths::joined(home@, "Library/LaunchAgents"@),
            "/Library/LaunchAgents"@,
            "/Library/LaunchDaemons"@,
        ],
{
    let mut r: Vec<String> = Vec::new();
    r.push(paths::home_join(home, "Library/LaunchAgents"));
    r.push(text::owned("/Library/LaunchAgents"));
    r.push(text::owned("/Library/LaunchDaemons"));
    assert(text::views(r@) =~= seq![
        paths::joined(home@, "Library/LaunchAgents"@),
        "/Library/LaunchAgents"@,
        "/Library/LaunchDaemons"@,
    ]);
    r
}

/// What is done about an entry of a directory of launch items: one whose name holds
/// the bundle identifier is unloaded and deleted, unless it is protected.
pub open spec fn launch_item_plan(path: Seq<char>, name: Seq<char>, bid: Seq<char>) -> Seq<
    ActionView,
> {
    if text::has(name, bid) && !guard::protected(path) {
        seq![
            ActionView::Run("launchctl"@, seq!["unload"@, path]),
            ActionView::DeleteFile(path),
        ]
    } else {
        Seq::empty()
    }
}

/// What is done about an entry of a directory of launch items.
pub fn remove_launch_item(path: &str, name: &str, bid: &str) -> (r: Vec<Action>)
    ensures
        text::views(r@) == launch_item_plan(path@, name@, bid@),
{
    let mut r: Vec<Action> = Vec::new();
    if text::contains(name, bid) && !guard::is_protected(path) {
        r.push(plan::run2("launchctl", "unload", path));
        r.push(Action::DeleteFile(text::owned(path)));
    }
    assert(text::views(r@) =~= launch_item_plan(path@, name@, bid@));
    r
}

// ── what the rules guarantee ─────────────────────────────────────────────────

/// An app of which no use is known is never taken for unused, whatever the threshold.
pub proof fn unknown_use_is_safe(a: AppView, threshold: int, now: Stamp)
    requires
        a.last_used is None,
    ensures
        !unused_for(a, threshold, now),
{
}

/// A longer threshold never takes more apps for unused: what may be uninstalled would
/// also have its cache cleared, given that the thresholds are in order.
pub proof fn uninstalled_apps_were_unused_before(a: AppView, cache: int, uninstall: int, now: Stamp)
    requires
        cache <= uninstall,
        unused_for(a, uninstall, now),
    ensures
        unused_for(a, cache, now),
{
}

/// A dry run uninstalls nothing: about unwanted and unused apps alike it only shows
/// lines, one for each app that a real run uninstalls.
pub proof fn dry_run_uninstalls_nothing(
    apps: Seq<AppView>,
    rogue: RogueList,
    threshold: int,
    now: Stamp,
)
    ensures
        forall|i: int|
            0 <= i < rogue_steps(apps, rogue, true).len() ==> #[trigger] rogue_steps(
                apps,
                rogue,
                true,
            )[i] is Show,
        forall|i: int|
            0 <= i < stale_steps(apps, threshold, now, true).len() ==> #[trigger] stale_steps(
                apps,
                threshold,
                now,
                true,
            )[i] is Show,
        rogue_steps(apps, rogue, true).len() == rogue_steps(apps, rogue, false).len(),
        stale_steps(apps, threshold, now, true).len() == stale_steps(
            apps,
            threshold,
            now,
            false,
        ).len(),
{
}

/// A cache whose process runs stays, and so does one that is not there.
pub proof fn caches_in_use_stay(c: CacheView, there: bool, stem_running: bool)
    requires
        !there || (c.stem is Some && stem_running),
    ensures
        !cache_goes(c, there, stem_running),
{
}

/// The app that looking at a path comes to, given the answers to all questions.
pub open spec fn scanned(
    path: Seq<char>,
    w: Whitelist,
    reply: Option<Seq<char>>,
    a: UsageAnswers,
    size: u64,
) -> Option<AppView> {
    let named = scan_begun(path, w);
    let identified = match named {
        ScanView::Bundle(p, name) => bundle_known(p, name, reply, w),
        other => other,
    };
    let dated = match identified {
        ScanView::Usage(head, _) => usage_known(head, a),
        other => other,
    };
    match dated {
        ScanView::Size(head, last_used, src) => Some(app_known(head, last_used, src, size)),
        _ => None,
    }
}

/// Whitelisted and critical apps are never dealt with: an app that a scan comes to is
/// neither, and a last use is given exactly where its source is known.
pub proof fn scan_spares_the_whitelist(
    path: Seq<char>,
    w: Whitelist,
    reply: Option<Seq<char>>,
    a: UsageAnswers,
    size: u64,
)
    ensures
        scanned(path, w, reply, a, size) matches Some(app) ==> {
            &&& !text::views(w.apps@).contains(app.name)
            &&& app.bundle_id matches Some(b) ==> !text::views(w.bundle_ids@).contains(b)
                && !guard::critical_bundle(b)
            &&& app.path == path
            &&& app.last_used is None <==> app.last_used_src == LastUsedSource::Unknown
        },
{
}

/// The chain of questions ends: with every question answered there is a result, and it
/// is unknown only where no answer gave a time.
pub proof fn usage_questions_end(a: UsageAnswers)
    requires
        a.last_used is Some,
        a.indexed is Some,
        a.date_added is Some,
        a.accessed is Some,
    ensures
        usage_step(a) is Known || usage_step(a) is Unknown,
        usage_step(a) is Unknown ==> a.last_used == Some(None::<Stamp>) && a.accessed == Some(
            None::<Stamp>,
        ),
{
}

/// Nothing protected is deleted by uninstalling, and without an intact signature
/// nothing is done at all.
pub proof fn uninstall_spares_protected_paths(
    a: AppView,
    signature_ok: bool,
    p: Paths,
    home: Seq<char>,
    k: int,
)
    requires
        0 <= k < uninstall_plan(a, signature_ok, p, home).len(),
    ensures
        signature_ok,
        match uninstall_plan(a, signature_ok, p, home)[k] {
            ActionView::DeleteTree(path) => path == a.path && !guard::protected(path),
            ActionView::DeleteFile(path) => false,
            _ => true,
        },
{
    if let Some(b) = a.bundle_id {
        lemma_leftovers_are_removals(a.name, b, p, home);
    }
}

proof fn lemma_leftovers_are_removals(name: Seq<char>, bid: Seq<char>, p: Paths, home: Seq<char>)
    ensures
        forall|i: int|
            0 <= i < leftovers(name, bid, p, home).len() ==> !(#[trigger] leftovers(
                name,
                bid,
                p,
                home,
            )[i] is DeleteTree) && !(leftovers(name, bid, p, home)[i] is DeleteFile),
{
}

// ── what unused apps come to ─────────────────────────────────────────────────

/// `now` is at least `secs` seconds after `t`.
pub open spec fn passed(t: Stamp, secs: int, now: Stamp) -> bool {
    now.secs > t.secs + secs || (now.secs == t.secs + secs && now.nanos >= t.nanos)
}

/// An app counts as unused exactly where its last use is known and so many seconds are
/// over since then. Where that is known from does not matter, nor does anything else about
/// the app: a date of addition is as good as one of use.
pub proof fn unused_goes_by_the_last_use(a: AppView, b: AppView, threshold: int, now: Stamp)
    requires
        threshold > 0,
    ensures
        unused_for(a, threshold, now) <==> (a.last_used matches Some(t) && passed(
            t,
            threshold,
            now,
        )),
        a.last_used == b.last_used ==> unused_for(a, threshold, now) == unused_for(
            b,
            threshold,
            now,
        ),
{
}

/// The days that an app is shown as unused are full days since its last use.
pub proof fn days_unused_are_full_days(a: AppView, now: Stamp)
    ensures
        match a.last_used {
            Some(t) => if passed(t, 0, now) {
                days_unused(a, now) matches Some(d) && passed(t, d * 86400, now) && !passed(
                    t,
                    (d + 1) * 86400,
                    now,
                )
            } else {
                days_unused(a, now) is None
            },
            None => days_unused(a, now) is None,
        },
{
}

/// The indices of the chosen apps are exactly those of the apps of which the test holds,
/// in ascending order.
proof fn lemma_chosen(apps: Seq<AppView>, wanted: spec_fn(AppView) -> bool, n: int, i: int)
    requires
        0 <= n <= apps.len(),
    ensures
        chosen(apps, wanted, n).contains(i) <==> 0 <= i < n && wanted(apps[i]),
        forall|a: int, b: int|
            0 <= a < b < chosen(apps, wanted, n).len() ==> #[trigger] chosen(apps, wanted, n)[a]
                < #[trigger] chosen(apps, wanted, n)[b],
        forall|a: int|
            0 <= a < chosen(apps, wanted, n).len() ==> 0 <= #[trigger] chosen(apps, wanted, n)[a]
                < n,
    decreases n,
{
    if n > 0 {
        let before = chosen(apps, wanted, n - 1);
        let all = chosen(apps, wanted, n);
        lemma_chosen(apps, wanted, n - 1, i);
        if all.contains(i) {
            let k = choose|k: int| 0 <= k < all.len() && all[k] == i;
            if k < before.len() {
                assert(before[k] == i);
            }
        }
        if 0 <= i < n && wanted(apps[i]) {
            if i < n - 1 {
                let k = choose|k: int| 0 <= k < before.len() && before[k] == i;
                assert(all[k] == i);
            } else {
                assert(all[before.len() as int] == i);
            }
        }
    }
}

/// A real run uninstalls exactly the apps whose last use is known and lies at least so many
/// seconds back, whatever that is known from, in the order in which they were found; a dry
/// run shows a line for each of them.
pub proof fn unused_apps_are_uninstalled(
    apps: Seq<AppView>,
    threshold: int,
    now: Stamp,
    i: int,
)
    requires
        threshold > 0,
    ensures
        ({
            let goes = 0 <= i < apps.len() && (apps[i].last_used matches Some(t) && passed(
                t,
                threshold,
                now,
            ));
            &&& stale_steps(apps, threshold, now, false).contains(AppStepView::Uninstall(i))
                <==> goes
            &&& goes ==> stale_steps(apps, threshold, now, true).contains(
                AppStepView::Show(
                    "  [dry] would uninstall "@ + apps[i].name + " ("@ + text::decimal(
                        days_unused(apps[i], now).unwrap_or(0) as nat,
                    ) + "d unused)"@,
                ),
            )
            &&& stale_steps(apps, threshold, now, true).len() == stale_steps(
                apps,
                threshold,
                now,
                false,
            ).len()
        }),
{
    let n = apps.len() as int;
    let which = chosen(apps, unused_test(threshold, now), n);
    lemma_chosen(apps, unused_test(threshold, now), n, i);
    let acts = stale_steps(apps, threshold, now, false);
    let lines = stale_steps(apps, threshold, now, true);
    if which.contains(i) {
        let k = choose|k: int| 0 <= k < which.len() && which[k] == i;
        assert(acts[k] == AppStepView::Uninstall(i));
        assert(lines[k] == AppStepView::Show(uninstall_line(apps[i], now)));
    }
    if acts.contains(AppStepView::Uninstall(i)) {
        let k = choose|k: int| 0 <= k < acts.len() && acts[k] == AppStepView::Uninstall(i);
        assert(which[k] == i);
    }
    if 0 <= i < n {
        unused_goes_by_the_last_use(apps[i], apps[i], threshold, now);
    }
}

/// A real run removes exactly the unwanted apps: those whose name is on the list of names,
/// or whose bundle identifier is on the list of identifiers. A dry run shows a line for
/// each.
pub proof fn rogue_apps_are_removed(apps: Seq<AppView>, rogue: RogueList, i: int)
    ensures
        ({
            let goes = 0 <= i < apps.len() && (text::views(rogue.app_names@).contains(apps[i].name)
                || (apps[i].bundle_id matches Some(b) && text::views(rogue.bundle_ids@).contains(
                b,
            )));
            &&& rogue_steps(apps, rogue, false).contains(AppStepView::Uninstall(i)) <==> goes
            &&& goes ==> rogue_steps(apps, rogue, true).contains(
                AppStepView::Show("  [dry] would remove rogue: "@ + apps[i].name),
            )
            &&& rogue_steps(apps, rogue, true).len() == rogue_steps(apps, rogue, false).len()
        }),
{
    let n = apps.len() as int;
    let which = chosen(apps, rogue_test(rogue), n);
    lemma_chosen(apps, rogue_test(rogue), n, i);
    let acts = rogue_steps(apps, rogue, false);
    let lines = rogue_steps(apps, rogue, true);
    if which.contains(i) {
        let k = choose|k: int| 0 <= k < which.len() && which[k] == i;
        assert(acts[k] == AppStepView::Uninstall(i));
        assert(lines[k] == AppStepView::Show(rogue_line(apps[i])));
    }
    if acts.contains(AppStepView::Uninstall(i)) {
        let k = choose|k: int| 0 <= k < acts.len() && acts[k] == AppStepView::Uninstall(i);
        assert(which[k] == i);
    }
}

/// Apps go in the order in which they were found, each once.
pub proof fn apps_go_in_order(
    apps: Seq<AppView>,
    rogue: RogueList,
    threshold: int,
    now: Stamp,
    a: int,
    b: int,
)
    requires
        0 <= a < b,
    ensures
        b < rogue_steps(apps, rogue, false).len() ==> {
            let steps = rogue_steps(apps, rogue, false);
            steps[a] is Uninstall && steps[b] is Uninstall && steps[a]->Uninstall_0
                < steps[b]->Uninstall_0
        },
        b < stale_steps(apps, threshold, now, false).len() ==> {
            let steps = stale_steps(apps, threshold, now, false);
            steps[a] is Uninstall && steps[b] is Uninstall && steps[a]->Uninstall_0
                < steps[b]->Uninstall_0
        },
{
    let n = apps.len() as int;
    lemma_chosen(apps, rogue_test(rogue), n, 0);
    lemma_chosen(apps, unused_test(threshold, now), n, 0);
}

/// The caches to be cleared are exactly those below `Library/Caches` of the apps that have
/// a bundle identifier and whose last use is known and lies at least so many seconds back,
/// whatever that is known from.
pub proof fn unused_caches_are_cleared(
    apps: Seq<AppView>,
    threshold: int,
    now: Stamp,
    home: Seq<char>,
    n: int,
    path: Seq<char>,
)
    requires
        0 <= n <= apps.len(),
        threshold > 0,
    ensures
        (exists|k: int|
            0 <= k < unused_caches(apps, threshold, now, home, n).len() && (
            #[trigger] unused_caches(apps, threshold, now, home, n)[k]).path == path) <==> exists|
            i: int,
        |
            0 <= i < n && ((#[trigger] apps[i]).last_used matches Some(t) && passed(
                t,
                threshold,
                now,
            )) && (apps[i].bundle_id matches Some(b) && path == paths::joined(
                home,
                "Library/Caches/"@ + b,
            )),
    decreases n,
{
    if n > 0 {
        let before = unused_caches(apps, threshold, now, home, n - 1);
        let all = unused_caches(apps, threshold, now, home, n);
        unused_caches_are_cleared(apps, threshold, now, home, n - 1, path);
        let a = apps[n - 1];
        unused_goes_by_the_last_use(a, a, threshold, now);
        if exists|k: int| 0 <= k < all.len() && (#[trigger] all[k]).path == path {
            let k = choose|k: int| 0 <= k < all.len() && (#[trigger] all[k]).path == path;
            if k < before.len() {
                assert(before[k].path == path);
            } else {
                assert(a.bundle_id is Some);
            }
        }
        if exists|i: int|
            0 <= i < n && ((#[trigger] apps[i]).last_used matches Some(t) && passed(
                t,
                threshold,
                now,
            )) && (apps[i].bundle_id matches Some(b) && path == paths::joined(
                home,
                "Library/Caches/"@ + b,
            )) {
            let i = choose|i: int|
                0 <= i < n && ((#[trigger] apps[i]).last_used matches Some(t) && passed(
                    t,
                    threshold,
                    now,
                )) && (apps[i].bundle_id matches Some(b) && path == paths::joined(
                    home,
                    "Library/Caches/"@ + b,
                ));
            if i < n - 1 {
                let k = choose|k: int| 0 <= k < before.len() && (#[trigger] before[k]).path == path;
                assert(all[k] == before[k]);
            } else {
                assert(all[before.len() as int].path == path);
            }
        }
    }
}

/// A cache that is there goes unless a process with its stem runs.
pub proof fn idle_caches_go(c: CacheView)
    ensures
        cache_goes(c, true, false),
        cache_goes(c, true, true) <==> c.stem is None,
        !cache_goes(c, false, true) && !cache_goes(c, false, false),
{
}

/// The evidence of the last use has an order: the date of the last use counts before all
/// else, the date of addition only where there is none and Spotlight keeps an index, and
/// the access time only where neither gives a date.
pub proof fn evidence_has_an_order(
    a: UsageAnswers,
    used: Option<Stamp>,
    added: Option<Stamp>,
    accessed: Option<Stamp>,
    indexed: bool,
)
    requires
        a.last_used == Some(used),
        a.indexed == Some(indexed),
        a.date_added == Some(added),
        a.accessed == Some(accessed),
    ensures
        usage_step(a) == (match used {
            Some(t) => UsageStep::Known(t, LastUsedSource::SpotlightLastUsed),
            None => match added {
                Some(t) if indexed => UsageStep::Known(t, LastUsedSource::SpotlightDateAdded),
                _ => match accessed {
                    Some(t) => UsageStep::Known(t, LastUsedSource::FilesystemAtime),
                    None => UsageStep::Unknown,
                },
            },
        }),
        // What is asked next, as long as not all is known.
        usage_step(UsageAnswers { last_used: None, ..a }) == UsageStep::AskLastUsed,
        used is None ==> usage_step(UsageAnswers { indexed: None, ..a }) == UsageStep::AskIndexed,
        used is None && indexed ==> usage_step(UsageAnswers { date_added: None, ..a })
            == UsageStep::AskDateAdded,
        used is None && !(indexed && added is Some) ==> usage_step(
            UsageAnswers { accessed: None, ..a },
        ) == UsageStep::AskAccessed,
{
}

/// Every app that is neither whitelisted nor critical is dealt with, with the answers that
/// were given.
pub proof fn every_other_app_is_scanned(
    path: Seq<char>,
    name: Seq<char>,
    w: Whitelist,
    reply: Option<Seq<char>>,
    a: UsageAnswers,
    size: u64,
)
    requires
        paths::base_name(path) matches Some(file) && paths::ext_of(file) == Some("app"@)
            && paths::stem_of(file) == name,
        !text::views(w.apps@).contains(name),
        reply matches Some(s) ==> !text::views(w.bundle_ids@).contains(text::trim(s))
            && !guard::critical_bundle(text::trim(s)),
        usage_step(a) is Known || usage_step(a) is Unknown,
    ensures
        scanned(path, w, reply, a, size) matches Some(app) && app.path == path && app.name == name
            && app.size == size && app.bundle_id == (match reply {
            Some(s) => if text::trim(s).len() > 0 {
                Some(text::trim(s))
            } else {
                None
            },
            None => None,
        }) && app.last_used == (match usage_step(a) {
            UsageStep::Known(t, _) => Some(t),
            _ => None,
        }) && app.last_used_src == (match usage_step(a) {
            UsageStep::Known(_, src) => src,
            _ => LastUsedSource::Unknown,
        }),
{
}

/// The report lists the apps by the time since their last use, the longest first, and each
/// once.
pub proof fn the_report_lists_every_app(apps: Seq<AppView>, now: Stamp, a: int, b: int)
    requires
        0 <= a < b < apps.len(),
        now.nanos < 1_000_000_000,
        forall|i: int|
            0 <= i < apps.len() ==> ((#[trigger] apps[i]).last_used matches Some(t) ==> t.nanos
                < 1_000_000_000),
    ensures
        ({
            let order = longest_unused_first(apps, now);
            &&& order.len() == apps.len()
            &&& forall|i: int| 0 <= i < apps.len() ==> #[trigger] order.contains(i)
            &&& 0 <= order[a] < apps.len() && 0 <= order[b] < apps.len()
            &&& order[a] != order[b]
            &&& (apps[order[b]].last_used matches Some(t) && !passed(now, 0, t)) ==> (
            apps[order[a]].last_used matches Some(u) && passed(
                u,
                0,
                apps[order[b]].last_used->0,
            ))
        }),
        audit_lines(apps, now).len() == apps.len() + 4,
{
    let keys = apps.map_values(|a: AppView| -idle_nanos(a, now));
    lists::order_exists(keys);
    let order = longest_unused_first(apps, now);
    assert(lists::goes_before(keys, order[a], order[b]));
}

/// Uninstalling an app with an intact signature ends its processes, deletes its bundle
/// unless that is protected, and removes what the app left behind: one removal in each
/// configured directory, its cache, its saved state, and its launch items.
pub proof fn uninstalling_is_thorough(
    a: AppView,
    bid: Seq<char>,
    p: Paths,
    home: Seq<char>,
    i: int,
)
    requires
        a.bundle_id == Some(bid),
    ensures
        ({
            let plan = uninstall_plan(a, true, p, home);
            &&& plan.contains(ActionView::Run("pkill"@, seq!["-x"@, a.name]))
            &&& plan.contains(ActionView::Run("pkill"@, seq!["-9"@, "-x"@, a.name]))
            &&& !guard::protected(a.path) ==> plan.contains(ActionView::DeleteTree(a.path))
            &&& 0 <= i < p.app_containers@.len() ==> plan.contains(
                ActionView::Remove(
                    paths::joined(config::expanded(p.app_containers@[i]@, home), bid),
                ),
            )
            &&& 0 <= i < p.app_prefs@.len() ==> plan.contains(
                ActionView::Remove(
                    paths::joined(config::expanded(p.app_prefs@[i]@, home), bid + ".plist"@),
                ),
            )
            &&& 0 <= i < p.app_support@.len() ==> plan.contains(
                ActionView::Remove(
                    paths::joined(config::expanded(p.app_support@[i]@, home), a.name),
                ),
            )
            &&& plan.contains(
                ActionView::Remove(paths::joined(home, "Library/Caches/"@ + bid)),
            )
            &&& plan.contains(
                ActionView::Remove(
                    paths::joined(
                        home,
                        "Library/Saved Application State/"@ + bid + ".savedState"@,
                    ),
                ),
            )
            &&& plan.contains(ActionView::RemoveLaunchItems(bid))
        }),
{
    let plan = uninstall_plan(a, true, p, home);
    let quit = seq![quit_request(bid)];
    let kill = kill_plan(a.name);
    let bundle = if guard::protected(a.path) {
        Seq::empty()
    } else {
        seq![ActionView::DeleteTree(a.path)]
    };
    let x = removals(text::views(p.app_containers@), home, bid);
    let y = removals(text::views(p.app_prefs@), home, bid + ".plist"@);
    let z = removals(text::views(p.app_support@), home, a.name);
    let left = leftovers(a.name, bid, p, home);
    let n = quit.len() as int + kill.len();
    let m = n + bundle.len();
    assert(plan[1] == kill[0]);
    assert(plan[3] == kill[2]);
    if !guard::protected(a.path) {
        assert(plan[n] == bundle[0]);
    }
    assert forall|k: int| 0 <= k < left.len() implies plan[m + k] == #[trigger] left[k] by {}
    if 0 <= i < p.app_containers@.len() {
        assert(left[i] == x[i]);
    }
    if 0 <= i < p.app_prefs@.len() {
        assert(left[x.len() as int + i] == y[i]);
    }
    if 0 <= i < p.app_support@.len() {
        assert(left[x.len() as int + y.len() + i] == z[i]);
    }
    let end = x.len() as int + y.len() + z.len();
    assert(left[end] == ActionView::Remove(cache_of(home, bid)));
    assert(left[end + 1] is Remove);
    assert(left[end + 2] == ActionView::RemoveLaunchItems(bid));
    assert(plan[m + end] == left[end]);
    assert(plan[m + end + 1] == left[end + 1]);
    assert(plan[m + end + 2] == left[end + 2]);
}

/// A launch item goes exactly where its name holds the bundle identifier and it is not
/// protected: it is unloaded and then deleted.
pub proof fn launch_items_go_with_their_app(path: Seq<char>, name: Seq<char>, bid: Seq<char>)
    ensures
        ({
            let plan = launch_item_plan(path, name, bid);
            &&& plan.contains(ActionView::DeleteFile(path)) <==> text::has(name, bid)
                && !guard::protected(path)
            &&& plan.len() > 0 ==> plan[0] == ActionView::Run("launchctl"@, seq!["unload"@, path])
                && plan[1] == ActionView::DeleteFile(path)
        }),
{
    let plan = launch_item_plan(path, name, bid);
    if text::has(name, bid) && !guard::protected(path) {
        assert(plan[1] == ActionView::DeleteFile(path));
    }
}

/// Without a time to wait every app whose last use is known counts as unused; one whose
/// last use is not known never does.
pub proof fn unused_at_once_without_a_threshold(a: AppView, threshold: int, now: Stamp)
    ensures
        threshold <= 0 ==> (unused_for(a, threshold, now) <==> a.last_used is Some),
        a.last_used is None ==> !unused_for(a, threshold, now),
{
}

/// One more app adds one more cache, behind all others, where it has a bundle identifier
/// and is unused, and else none. What keeps the cache is a process with the stem of its
/// path.
pub proof fn each_unused_app_adds_its_cache(
    apps: Seq<AppView>,
    threshold: int,
    now: Stamp,
    home: Seq<char>,
    n: int,
)
    requires
        0 <= n < apps.len(),
        threshold > 0,
    ensures
        unused_caches(apps, threshold, now, home, 0).len() == 0,
        ({
            let before = unused_caches(apps, threshold, now, home, n);
            let all = unused_caches(apps, threshold, now, home, n + 1);
            let goes = (apps[n].last_used matches Some(t) && passed(t, threshold, now))
                && apps[n].bundle_id is Some;
            &&& !goes ==> all == before
            &&& goes ==> all.len() == before.len() + 1 && all.drop_last() == before && all.last()
                == (CacheView {
                path: paths::joined(home, "Library/Caches/"@ + apps[n].bundle_id->0),
                stem: guard::process_stem(
                    paths::joined(home, "Library/Caches/"@ + apps[n].bundle_id->0),
                ),
            })
        }),
{
    let before = unused_caches(apps, threshold, now, home, n);
    let all = unused_caches(apps, threshold, now, home, n + 1);
    if all.len() > before.len() {
        assert(all.drop_last() =~= before);
    }
}

/// A row of the report names the app, the whole days since its last use or that they are
/// unknown, where that is known from, and the size of the app.
pub proof fn rows_tell_use_and_size(apps: Seq<AppView>, now: Stamp, k: int)
    requires
        0 <= k < apps.len(),
    ensures
        ({
            let a = apps[longest_unused_first(apps, now)[k]];
            let row = audit_lines(apps, now)[k + 3];
            &&& text::byte_len(a.name) <= 36 ==> text::has(row, a.name)
            &&& text::has(row, size::byte_words(a.size as nat))
            &&& (days_unused(a, now) matches Some(d) ==> text::has(
                row,
                text::decimal(d as nat) + "d ago"@,
            ))
            &&& days_unused(a, now) is None ==> text::has(row, "unknown"@)
            &&& text::has(
                row,
                match a.last_used_src {
                    LastUsedSource::SpotlightLastUsed => "spotlight"@,
                    LastUsedSource::SpotlightDateAdded => "never opened"@,
                    LastUsedSource::FilesystemAtime => "atime"@,
                    LastUsedSource::Unknown => "unknown"@,
                },
            )
        }),
        audit_lines(apps, now)[0] == "\n  App Usage Audit"@,
{
    let keys = apps.map_values(|a: AppView| -idle_nanos(a, now));
    lists::order_exists(keys);
    let order = longest_unused_first(apps, now);
    assert(order.len() == apps.len());
    let rows = order.map_values(|i: int| audit_row(apps[i], now));
    let a = apps[order[k]];
    let lines = audit_lines(apps, now);
    assert(lines[k + 3] == rows[k]);
    assert(rows[k] == audit_row(a, now));
    lemma_columns(
        text::truncated(a.name, 36),
        age_words(a, now),
        source_label(a.last_used_src),
        size::byte_words(a.size as nat),
    );
}

proof fn lemma_has_between(front: Seq<char>, part: Seq<char>, back: Seq<char>, p: Seq<char>)
    requires
        text::has(part, p),
    ensures
        text::has(front + part, p),
        text::has(part + back, p),
{
    let none = Seq::<char>::empty();
    guard::lemma_has_in_context(front, part, none, p);
    assert(front + part + none =~= front + part);
    guard::lemma_has_in_context(none, part, back, p);
    assert(none + part + back =~= part + back);
}

proof fn lemma_padded(s: Seq<char>, width: int)
    ensures
        text::has(text::padded_right(s, width, ' '), s),
        text::has(text::padded_left(s, width), s),
{
    let none = Seq::<char>::empty();
    let fill = text::repeated(' ', width - s.len());
    text::parts_are_found(none, none, s, none);
    assert(none + s + none =~= s);
    lemma_has_between(fill, s, fill, s);
}

proof fn lemma_columns(name: Seq<char>, age: Seq<char>, source: Seq<char>, bytes: Seq<char>)
    ensures
        text::has(columns(name, age, source, bytes), name),
        text::has(columns(name, age, source, bytes), age),
        text::has(columns(name, age, source, bytes), source),
        text::has(columns(name, age, source, bytes), bytes),
{
    let one = " "@;
    let c0 = text::padded_right(name, 36, ' ');
    let c1 = text::padded_left(age, 10);
    let c2 = text::padded_left(source, 12);
    let c3 = text::padded_left(bytes, 12);
    lemma_padded(name, 36);
    lemma_padded(age, 10);
    lemma_padded(source, 12);
    lemma_padded(bytes, 12);
    let s0 = "  "@ + c0;
    lemma_has_between("  "@, c0, one, name);
    lemma_has_between(one, s0, one, name);
    let s1 = s0 + one + c1;
    lemma_has_between(one, s0 + one, c1, name);
    lemma_has_between(s0 + one, c1, one, age);
    lemma_has_between(one, s1, one, name);
    lemma_has_between(one, s1, one, age);
    let s2 = s1 + one + c2;
    lemma_has_between(one, s1 + one, c2, name);
    lemma_has_between(one, s1 + one, c2, age);
    lemma_has_between(s1 + one, c2, one, source);
    lemma_has_between(one, s2, one, name);
    lemma_has_between(one, s2, one, age);
    lemma_has_between(one, s2, one, source);
    lemma_has_between(one, s2 + one, c3, name);
    lemma_has_between(one, s2 + one, c3, age);
    lemma_has_between(one, s2 + one, c3, source);
    lemma_has_between(s2 + one, c3, one, bytes);
}

/// An app is first asked to quit, by its bundle identifier where it has one, then ended and
/// half a second later killed, and only then deleted. Without an intact signature nothing
/// is done at all, and besides the app and its leftovers nothing is touched.
pub proof fn uninstalling_ends_the_app_first(
    a: AppView,
    bid: Seq<char>,
    p: Paths,
    home: Seq<char>,
)
    ensures
        uninstall_plan(a, false, p, home).len() == 0,
        ({
            let plan = uninstall_plan(a, true, p, home);
            let n: int = if a.bundle_id is Some {
                1
            } else {
                0
            };
            let gone: int = if guard::protected(a.path) {
                0
            } else {
                1
            };
            &&& a.bundle_id == Some(bid) ==> plan[0] == ActionView::Run(
                "osascript"@,
                seq!["-e"@, "quit app id \""@ + bid + "\""@],
            )
            &&& plan[n] == ActionView::Run("pkill"@, seq!["-x"@, a.name])
            &&& plan[n + 1] == ActionView::Pause(500)
            &&& plan[n + 2] == ActionView::Run("pkill"@, seq!["-9"@, "-x"@, a.name])
            &&& !guard::protected(a.path) ==> plan[n + 3] == ActionView::DeleteTree(a.path)
            &&& a.bundle_id is None ==> plan.len() == 3 + gone
            &&& a.bundle_id is Some ==> plan.len() == 7 + gone + p.app_containers@.len()
                + p.app_prefs@.len() + p.app_support@.len()
        }),
{
}

/// An app is named after its bundle, wherever that lies. Whatever is no bundle of an app is
/// passed over, and so is an app whose name or bundle is whitelisted or critical.
pub proof fn what_a_scan_passes_over(
    dir: Seq<char>,
    name: Seq<char>,
    path: Seq<char>,
    w: Whitelist,
    bid: Seq<char>,
    a: UsageAnswers,
    size: u64,
)
    requires
        name.len() > 0,
        !name.contains('/'),
    ensures
        app_name_at(dir + seq!['/'] + (name + ".app"@)) == Some(name),
        paths::path_ext(path) != Some("app"@) ==> app_name_at(path) is None && scanned(
            path,
            w,
            Some(bid),
            a,
            size,
        ) is None,
        text::views(w.apps@).contains(name) ==> scanned(
            dir + seq!['/'] + (name + ".app"@),
            w,
            Some(bid),
            a,
            size,
        ) is None,
        text::trim(bid).len() > 0 && (text::views(w.bundle_ids@).contains(text::trim(bid))
            || guard::critical_bundle(text::trim(bid))) ==> scanned(
            path,
            w,
            Some(bid),
            a,
            size,
        ) is None,
{
    reveal_strlit(".app");
    reveal_strlit("app");
    let ext = "app"@;
    let file = name + ".app"@;
    assert(file =~= name + seq!['.'] + ext);
    assert(ext.len() == 3);
    assert(!ext.contains('.') && !ext.contains('/'));
    paths::extensions_follow_the_last_dot(name, ext, dir);
    assert forall|i: int| 0 <= i < file.len() implies file[i] != '/' by {
        if i < name.len() {
            assert(name.contains(name[i]));
        }
    }
    paths::names_stand_at_the_end(dir, file);
}

} // verus!
