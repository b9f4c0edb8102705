//! Classified failures and the outcome of removals.
//!
//! A failed operation is told apart by what it means for a sweep: a path that
//! vanished or is protected is passed over, a denied permission is a real error
//! that is never swallowed.

use vstd::prelude::*;
use crate::text;

verus! {

broadcast use crate::text::group_views;

// ── what the system reports ──────────────────────────────────────────────────

/// The kinds of I/O failure that are told apart without a system code.
#[derive(Debug, Clone, Copy, PartialEq, Eq, Structural)]
pub enum IoKind {
    NotFound,
    PermissionDenied,
    Other,
}

/// A failed operation of the system: its kind, the raw code where there is one,
/// and the system's own words.
#[derive(Debug)]
pub struct IoFailure {
    pub kind: IoKind,
    pub code: Option<i32>,
    pub message: String,
}

/// The view of an [`IoFailure`].
pub struct IoView {
    pub kind: IoKind,
    pub code: Option<i32>,
    pub message: Seq<char>,
}

impl View for IoFailure {
    type V = IoView;

    open spec fn view(&self) -> IoView {
        IoView { kind: self.kind, code: self.code, message: self.message@ }
    }
}

/// The raw codes by which this system reports a busy resource and an unsupported
/// operation.
#[derive(Debug, Clone, Copy, PartialEq, Eq, Structural)]
pub struct OsCodes {
    pub busy: i32,
    pub unsupported: i32,
}

/// The codes by which systems report a busy resource: 16 nearly everywhere, another
/// one on WASI and Emscripten, on HelenOS, on the Hurd and on Haiku.
pub open spec fn means_busy(code: i32) -> bool {
    ||| code == 16
    ||| code == 10
    ||| code == 15
    ||| code == 1073741840
    ||| code == -2147483634
}

/// The codes by which systems report an unsupported operation. 45 is that of macOS
/// and FreeBSD, 95 that of Linux on most processors.
pub open spec fn means_unsupported(code: i32) -> bool {
    ||| code == 45 || code == 95
    ||| code == 48 || code == 86 || code == 91 || code == 122
    ||| code == 11 || code == 35 || code == 58 || code == 124
    ||| code == 129 || code == 132 || code == 134 || code == 138
    ||| code == 1073741942
    ||| code == -2147454920
}

/// `libc::EBUSY`, the code of a busy resource. It is a constant of the system that
/// the library is built for; the claim is that it is one of the values that `libc`
/// defines for its systems. Which one belongs to this system is left unsaid.
#[verifier::external_body]
fn busy_code() -> (r: i32)
    ensures
        means_busy(r),
{
    libc::EBUSY
}

/// `libc::ENOTSUP`, the code of an unsupported operation. It is a constant of the
/// system that the library is built for; the claim is that it is one of the values
/// that `libc` defines for its systems. Which one belongs to this system is left
/// unsaid.
#[verifier::external_body]
fn unsupported_code() -> (r: i32)
    ensures
        means_unsupported(r),
{
    libc::ENOTSUP
}

impl OsCodes {
    /// Each code is one by which some system reports what it stands for.
    pub open spec fn known(self) -> bool {
        means_busy(self.busy) && means_unsupported(self.unsupported)
    }

    /// The codes of the system that this runs on. They differ, so that no failure
    /// counts both as busy and as unsupported.
    pub fn current() -> (r: OsCodes)
        ensures
            r.known(),
            r.busy != r.unsupported,
    {
        OsCodes { busy: busy_code(), unsupported: unsupported_code() }
    }
}

// ── primary error type ───────────────────────────────────────────────────────

/// Why a path was not dealt with, or an operation did not come about.
#[derive(Debug)]
pub enum HushError {
    /// The path no longer exists: safe to pass over in sweeps.
    NotFound(String),
    /// Permission denied: worth logging, never swallowed.
    PermissionDenied { path: String, source: IoFailure },
    /// The file or directory is locked by a running process.
    Busy { path: String, source: IoFailure },
    /// The file system does not support the operation.
    Unsupported { path: String, source: IoFailure },
    /// A cycle of symbolic links was met while walking a tree.
    SymlinkLoop(String),
    /// A hard safety block fired: the path is unconditionally protected.
    HardBlocked(String),
    /// The path is in active use by a process.
    InUse(String),
    /// Any other I/O failure.
    Io { path: String, source: IoFailure },
    /// A tool of the system failed or gave an unusable reply.
    ExternalTool { tool: &'static str, detail: String },
    /// The configuration cannot be read or does not hold what it must.
    Config(String),
}

/// The view of a [`HushError`].
pub enum ErrorView {
    NotFound(Seq<char>),
    PermissionDenied(Seq<char>, IoView),
    Busy(Seq<char>, IoView),
    Unsupported(Seq<char>, IoView),
    SymlinkLoop(Seq<char>),
    HardBlocked(Seq<char>),
    InUse(Seq<char>),
    Io(Seq<char>, IoView),
    ExternalTool(Seq<char>, Seq<char>),
    Config(Seq<char>),
}

impl View for HushError {
    type V = ErrorView;

    open spec fn view(&self) -> ErrorView {
        match self {
            HushError::NotFound(p) => ErrorView::NotFound(p@),
            HushError::PermissionDenied { path, source } => ErrorView::PermissionDenied(
                path@,
                source@,
            ),
            HushError::Busy { path, source } => ErrorView::Busy(path@, source@),
            HushError::Unsupported { path, source } => ErrorView::Unsupported(path@, source@),
            HushError::SymlinkLoop(p) => ErrorView::SymlinkLoop(p@),
            HushError::HardBlocked(p) => ErrorView::HardBlocked(p@),
            HushError::InUse(p) => ErrorView::InUse(p@),
            HushError::Io { path, source } => ErrorView::Io(path@, source@),
            HushError::ExternalTool { tool, detail } => ErrorView::ExternalTool(tool@, detail@),
            HushError::Config(m) => ErrorView::Config(m@),
        }
    }
}

/// Why a path was passed over.
#[derive(Debug, Clone, Copy, PartialEq, Eq, Structural)]
pub enum SkipReason {
    HardBlocked,
    ProcessInUse,
    SymlinkLoop,
    DryRun,
    NotFound,
    Unsupported,
}

/// The skip that an error amounts to where it is harmless in a sweep: the path and
/// the reason. None for a real error.
pub open spec fn demoted(e: ErrorView) -> Option<SkipView> {
    match e {
        ErrorView::NotFound(p) => Some(SkipView { path: p, reason: SkipReason::NotFound }),
        ErrorView::HardBlocked(p) => Some(SkipView { path: p, reason: SkipReason::HardBlocked }),
        ErrorView::InUse(p) => Some(SkipView { path: p, reason: SkipReason::ProcessInUse }),
        ErrorView::SymlinkLoop(p) => Some(SkipView { path: p, reason: SkipReason::SymlinkLoop }),
        ErrorView::Unsupported(p, _) => Some(
            SkipView { path: p, reason: SkipReason::Unsupported },
        ),
        _ => None,
    }
}

/// What an I/O failure at a path is: by its kind, else by its raw code.
pub open spec fn classified(e: IoView, path: Seq<char>, codes: OsCodes) -> ErrorView {
    match e.kind {
        IoKind::NotFound => ErrorView::NotFound(path),
        IoKind::PermissionDenied => ErrorView::PermissionDenied(path, e),
        IoKind::Other => if e.code == Some(codes.busy) {
            ErrorView::Busy(path, e)
        } else if e.code == Some(codes.unsupported) {
            ErrorView::Unsupported(path, e)
        } else {
            ErrorView::Io(path, e)
        },
    }
}

/// `label`, the path, and the system's words in brackets.
pub open spec fn with_source(label: Seq<char>, path: Seq<char>, source: IoView) -> Seq<char> {
    label + path + " ("@ + source.message + ")"@
}

/// An error in words.
pub open spec fn error_text(e: ErrorView) -> Seq<char> {
    match e {
        ErrorView::NotFound(p) => "not found: "@ + p,
        ErrorView::PermissionDenied(p, s) => with_source("permission denied: "@, p, s),
        ErrorView::Busy(p, s) => with_source("in use (EBUSY): "@, p, s),
        ErrorView::Unsupported(p, s) => with_source("unsupported: "@, p, s),
        ErrorView::SymlinkLoop(p) => "symlink loop: "@ + p,
        ErrorView::HardBlocked(p) => "hard-blocked: "@ + p,
        ErrorView::InUse(p) => "process in use: "@ + p,
        ErrorView::Io(p, s) => "I/O error at "@ + p + ": "@ + s.message,
        ErrorView::ExternalTool(tool, detail) => tool + ": "@ + detail,
        ErrorView::Config(m) => "config error: "@ + m,
    }
}

fn source_text(label: &str, path: &String, source: &IoFailure) -> (r: String)
    ensures
        r@ == with_source(label@, path@, source@),
{
    let mut r: String = text::owned(label);
    r.append(path.as_str());
    r.append(" (");
    r.append(source.message.as_str());
    r.append(")");
    r
}

impl HushError {
    /// Whether the error is harmless in a sweep: the path is just passed over.
    pub fn is_skippable(&self) -> (r: bool)
        ensures
            r == demoted(self@).is_some(),
    {
        match self {
            HushError::NotFound(_) => true,
            HushError::HardBlocked(_) => true,
            HushError::InUse(_) => true,
            HushError::SymlinkLoop(_) => true,
            HushError::Unsupported { .. } => true,
            _ => false,
        }
    }

    /// Classifies an I/O failure at a path, given the codes of the system.
    pub fn from_io_with(e: IoFailure, path: String, codes: OsCodes) -> (r: HushError)
        ensures
            r@ == classified(e@, path@, codes),
    {
        match e.kind {
            IoKind::NotFound => HushError::NotFound(path),
            IoKind::PermissionDenied => HushError::PermissionDenied { path, source: e },
            IoKind::Other => match e.code {
                Some(code) => if code == codes.busy {
                    HushError::Busy { path, source: e }
                } else if code == codes.unsupported {
                    HushError::Unsupported { path, source: e }
                } else {
                    HushError::Io { path, source: e }
                },
                None => HushError::Io { path, source: e },
            },
        }
    }

    /// Classifies an I/O failure at a path by the codes of the running system.
    pub fn from_io(e: IoFailure, path: String) -> (r: HushError)
        ensures
            exists|codes: OsCodes|
                codes.known() && r@ == #[trigger] classified(e@, path@, codes),
    {
        let codes = OsCodes::current();
        let r = HushError::from_io_with(e, path, codes);
        assert(r@ == classified(e@, path@, codes));
        r
    }

    /// The error in words.
    pub fn describe(&self) -> (r: String)
        ensures
            r@ == error_text(self@),
    {
        match self {
            HushError::NotFound(p) => text::join2("not found: ", p.as_str()),
            HushError::PermissionDenied { path, source } => source_text(
                "permission denied: ",
                path,
                source,
            ),
            HushError::Busy { path, source } => source_text("in use (EBUSY): ", path, source),
            HushError::Unsupported { path, source } => source_text("unsupported: ", path, source),
            HushError::SymlinkLoop(p) => text::join2("symlink loop: ", p.as_str()),
            HushError::HardBlocked(p) => text::join2("hard-blocked: ", p.as_str()),
            HushError::InUse(p) => text::join2("process in use: ", p.as_str()),
            HushError::Io { path, source } => {
                let mut r: String = text::join3("I/O error at ", path.as_str(), ": ");
                r.append(source.message.as_str());
                r
            },
            HushError::ExternalTool { tool, detail } => text::join3(tool, ": ", detail.as_str()),
            HushError::Config(m) => text::join2("config error: ", m.as_str()),
        }
    }
}

// ── removal result ───────────────────────────────────────────────────────────

/// A path that was passed over, and why.
#[derive(Debug)]
pub struct Skip {
    pub path: String,
    pub reason: SkipReason,
}

/// The view of a [`Skip`].
pub struct SkipView {
    pub path: Seq<char>,
    pub reason: SkipReason,
}

impl View for Skip {
    type V = SkipView;

    open spec fn view(&self) -> SkipView {
        SkipView { path: self.path@, reason: self.reason }
    }
}

/// The outcome of a removal or a sweep: the bytes freed, every path that was
/// passed over, and the real errors.
#[derive(Debug)]
pub struct RemoveResult {
    pub freed_bytes: u64,
    pub skipped: Vec<Skip>,
    pub errors: Vec<HushError>,
}

/// The view of a [`RemoveResult`].
#[verifier::ext_equal]
pub struct RemoveView {
    pub freed: int,
    pub skipped: Seq<SkipView>,
    pub errors: Seq<ErrorView>,
}

impl View for RemoveResult {
    type V = RemoveView;

    open spec fn view(&self) -> RemoveView {
        RemoveView {
            freed: self.freed_bytes as int,
            skipped: text::views(self.skipped@),
            errors: text::views(self.errors@),
        }
    }
}

impl RemoveView {
    /// The outcome of doing nothing.
    pub open spec fn nothing() -> RemoveView {
        RemoveView { freed: 0, skipped: Seq::empty(), errors: Seq::empty() }
    }

    /// This outcome and one more path passed over.
    pub open spec fn with_skip(self, path: Seq<char>, reason: SkipReason) -> RemoveView {
        RemoveView { skipped: self.skipped.push(SkipView { path, reason }), ..self }
    }

    /// This outcome and one more error, which counts as a skip where it is harmless.
    pub open spec fn with_error(self, e: ErrorView) -> RemoveView {
        match demoted(e) {
            Some(s) => RemoveView { skipped: self.skipped.push(s), ..self },
            None => RemoveView { errors: self.errors.push(e), ..self },
        }
    }

    /// This outcome and `bytes` more freed.
    pub open spec fn with_freed(self, bytes: int) -> RemoveView {
        RemoveView { freed: self.freed + bytes, ..self }
    }

    /// Both outcomes together, this one first.
    pub open spec fn merged(self, other: RemoveView) -> RemoveView {
        RemoveView {
            freed: self.freed + other.freed,
            skipped: self.skipped + other.skipped,
            errors: self.errors + other.errors,
        }
    }

    /// A permission was denied on the way.
    pub open spec fn denied(self) -> bool {
        exists|i: int| 0 <= i < self.errors.len() && self.errors[i] is PermissionDenied
    }
}

impl Default for RemoveResult {
    fn default() -> (r: RemoveResult)
        ensures
            r@ == RemoveView::nothing(),
    {
        let r = RemoveResult { freed_bytes: 0, skipped: Vec::new(), errors: Vec::new() };
        assert(r@ =~= RemoveView::nothing());
        r
    }
}

impl RemoveResult {
    /// Adds what another removal came to.
    pub fn merge(&mut self, other: RemoveResult)
        requires
            old(self).freed_bytes + other.freed_bytes <= u64::MAX,
        ensures
            final(self)@ == old(self)@.merged(other@),
    {
        let mut rest = other;
        self.freed_bytes = self.freed_bytes + rest.freed_bytes;
        self.skipped.append(&mut rest.skipped);
        self.errors.append(&mut rest.errors);
        assert(self@ =~= old(self)@.merged(other@));
    }

    /// Notes a path that was passed over.
    pub fn add_skip(&mut self, path: String, reason: SkipReason)
        ensures
            final(self)@ == old(self)@.with_skip(path@, reason),
    {
        self.skipped.push(Skip { path, reason });
        assert(self@ =~= old(self)@.with_skip(path@, reason));
    }

    /// Notes an error. One that is harmless in a sweep becomes a skip; a denied
    /// permission and the like stay errors.
    pub fn add_error(&mut self, e: HushError)
        ensures
            final(self)@ == old(self)@.with_error(e@),
    {
        let ghost ev = e@;
        match e {
            HushError::NotFound(p) => self.skipped.push(
                Skip { path: p, reason: SkipReason::NotFound },
            ),
            HushError::HardBlocked(p) => self.skipped.push(
                Skip { path: p, reason: SkipReason::HardBlocked },
            ),
            HushError::InUse(p) => self.skipped.push(
                Skip { path: p, reason: SkipReason::ProcessInUse },
            ),
            HushError::SymlinkLoop(p) => self.skipped.push(
                Skip { path: p, reason: SkipReason::SymlinkLoop },
            ),
            HushError::Unsupported { path, source: _ } => self.skipped.push(
                Skip { path, reason: SkipReason::Unsupported },
            ),
            other => self.errors.push(other),
        }
        assert(self@ =~= old(self)@.with_error(ev));
    }

    /// The lines that report the real errors, one per error.
    pub fn log_errors(&self) -> (r: Vec<String>)
        ensures
            text::views(r@) == self@.errors.map_values(|e: ErrorView| "hush: "@ + error_text(e)),
    {
        let ghost want = self@.errors.map_values(|e: ErrorView| "hush: "@ + error_text(e));
        let mut r: Vec<String> = Vec::new();
        let mut i: usize = 0;
        assert(text::views(r@) =~= want.take(0));
        while i < self.errors.len()
            invariant
                i <= self.errors@.len(),
                want == self@.errors.map_values(|e: ErrorView| "hush: "@ + error_text(e)),
                text::views(r@) == want.take(i as int),
            decreases self.errors.len() - i,
        {
            let line = text::join2("hush: ", self.errors[i].describe().as_str());
            assert(want[i as int] == line@);
            r.push(line);
            i = i + 1;
            assert(text::views(r@) =~= want.take(i as int));
        }
        assert(want.take(i as int) =~= want);
        r
    }

    /// Whether a permission was denied on the way, which is worth telling the user.
    pub fn has_permission_errors(&self) -> (r: bool)
        ensures
            r == self@.denied(),
    {
        let mut i: usize = 0;
        while i < self.errors.len()
            invariant
                i <= self.errors@.len(),
                forall|j: int| 0 <= j < i ==> !(self.errors@[j]@ is PermissionDenied),
            decreases self.errors.len() - i,
        {
            if let HushError::PermissionDenied { .. } = &self.errors[i] {
                assert(self@.errors[i as int] is PermissionDenied);
                return true;
            }
            i = i + 1;
        }
        assert forall|j: int| 0 <= j < self@.errors.len() implies !(
        self@.errors[j] is PermissionDenied) by {
            assert(self@.errors[j] == self.errors@[j]@);
        }
        false
    }
}

// ── what outcomes keep ───────────────────────────────────────────────────────

/// No error is ever lost: each adds exactly one entry, to the skips where it is
/// harmless and to the errors where it is not, and frees nothing.
pub proof fn every_error_is_kept(r: RemoveView, e: ErrorView)
    ensures
        ({
            let after = r.with_error(e);
            &&& after.freed == r.freed
            &&& after.skipped.len() + after.errors.len() == r.skipped.len() + r.errors.len() + 1
            &&& r.skipped.is_prefix_of(after.skipped)
            &&& r.errors.is_prefix_of(after.errors)
            &&& after.errors.len() > r.errors.len() <==> demoted(e) is None
        }),
{
    let after = r.with_error(e);
    assert(r.skipped =~= after.skipped.subrange(0, r.skipped.len() as int));
    assert(r.errors =~= after.errors.subrange(0, r.errors.len() as int));
}

/// A denied permission stays visible, whatever is merged before or after it.
pub proof fn denied_survives_merge(a: RemoveView, b: RemoveView)
    ensures
        a.merged(b).denied() == (a.denied() || b.denied()),
{
    let m = a.merged(b).errors;
    if a.denied() {
        let i = choose|i: int| 0 <= i < a.errors.len() && a.errors[i] is PermissionDenied;
        assert(m[i] == a.errors[i]);
    }
    if b.denied() {
        let i = choose|i: int| 0 <= i < b.errors.len() && b.errors[i] is PermissionDenied;
        assert(m[a.errors.len() + i] == b.errors[i]);
    }
    if a.merged(b).denied() {
        let i = choose|i: int| 0 <= i < m.len() && m[i] is PermissionDenied;
        if i < a.errors.len() {
            assert(a.errors[i] == m[i]);
        } else {
            assert(b.errors[i - a.errors.len()] == m[i]);
        }
    }
}

/// Merging can be grouped at will, and an empty outcome changes nothing.
pub proof fn merge_is_associative(a: RemoveView, b: RemoveView, c: RemoveView)
    ensures
        a.merged(b).merged(c) == a.merged(b.merged(c)),
        RemoveView::nothing().merged(a) == a,
        a.merged(RemoveView::nothing()) == a,
{
    assert(a.merged(b).merged(c) =~= a.merged(b.merged(c)));
    assert(RemoveView::nothing().merged(a) =~= a);
    assert(a.merged(RemoveView::nothing()) =~= a);
}

/// How an outcome came about: from nothing, by noting skips, errors and freed bytes and by
/// merging outcomes that came about in the same way.
pub enum History {
    Start,
    Skipped(Box<History>, Seq<char>, SkipReason),
    Failed(Box<History>, ErrorView),
    Freed(Box<History>, int),
    Merged(Box<History>, Box<History>),
}

/// The outcome that a history leads to.
pub open spec fn outcome(h: History) -> RemoveView
    decreases h,
{
    match h {
        History::Start => RemoveView::nothing(),
        History::Skipped(before, path, reason) => outcome(*before).with_skip(path, reason),
        History::Failed(before, e) => outcome(*before).with_error(e),
        History::Freed(before, bytes) => outcome(*before).with_freed(bytes),
        History::Merged(a, b) => outcome(*a).merged(outcome(*b)),
    }
}

/// How many skips and errors were noted in a history.
pub open spec fn notes(h: History) -> int
    decreases h,
{
    match h {
        History::Start => 0,
        History::Skipped(before, _, _) => notes(*before) + 1,
        History::Failed(before, _) => notes(*before) + 1,
        History::Freed(before, _) => notes(*before),
        History::Merged(a, b) => notes(*a) + notes(*b),
    }
}

/// However an outcome came about, no error that it keeps is harmless in a sweep, and it
/// holds exactly one entry for each skip and each error that was noted: nothing is dropped
/// and nothing is recorded twice.
pub proof fn outcomes_keep_every_note_once(h: History)
    ensures
        forall|i: int|
            0 <= i < outcome(h).errors.len() ==> demoted(#[trigger] outcome(h).errors[i]) is None,
        outcome(h).skipped.len() + outcome(h).errors.len() == notes(h),
    decreases h,
{
    match h {
        History::Start => {},
        History::Skipped(before, _, _) => {
            outcomes_keep_every_note_once(*before);
        },
        History::Failed(before, e) => {
            outcomes_keep_every_note_once(*before);
            let b = outcome(*before).errors;
            let errors = outcome(h).errors;
            assert forall|i: int| 0 <= i < errors.len() implies demoted(
                #[trigger] errors[i],
            ) is None by {
                if i < b.len() {
                    assert(errors[i] == b[i]);
                }
            }
        },
        History::Freed(before, _) => {
            outcomes_keep_every_note_once(*before);
        },
        History::Merged(x, y) => {
            outcomes_keep_every_note_once(*x);
            outcomes_keep_every_note_once(*y);
            let a = outcome(*x).errors;
            let b = outcome(*y).errors;
            let errors = outcome(h).errors;
            assert forall|i: int| 0 <= i < errors.len() implies demoted(
                #[trigger] errors[i],
            ) is None by {
                if i < a.len() {
                    assert(errors[i] == a[i]);
                } else {
                    assert(errors[i] == b[i - a.len()]);
                }
            }
        },
    }
}

/// Failures are told apart by their kind first and by their code only where the kind says
/// nothing; the path and the failure itself are kept.
pub proof fn failures_are_told_apart(e: IoView, path: Seq<char>, codes: OsCodes)
    ensures
        ({
            let c = classified(e, path, codes);
            let plain = e.kind == IoKind::Other;
            &&& c == ErrorView::NotFound(path) <==> e.kind == IoKind::NotFound
            &&& c == ErrorView::PermissionDenied(path, e) <==> e.kind == IoKind::PermissionDenied
            &&& c == ErrorView::Busy(path, e) <==> plain && e.code == Some(codes.busy)
            &&& c == ErrorView::Unsupported(path, e) <==> plain && e.code == Some(
                codes.unsupported,
            ) && e.code != Some(codes.busy)
            &&& c == ErrorView::Io(path, e) <==> plain && e.code != Some(codes.busy) && e.code
                != Some(codes.unsupported)
        }),
{
}

/// Exactly these errors are harmless in a sweep, each for its own reason: a path that is
/// gone, blocked, in use or a loop, and an operation that is not supported.
pub proof fn which_errors_are_harmless(e: ErrorView)
    ensures
        demoted(e) is Some <==> e is NotFound || e is HardBlocked || e is InUse || e is SymlinkLoop
            || e is Unsupported,
        e matches ErrorView::NotFound(p) ==> demoted(e) == Some(
            SkipView { path: p, reason: SkipReason::NotFound },
        ),
        e matches ErrorView::HardBlocked(p) ==> demoted(e) == Some(
            SkipView { path: p, reason: SkipReason::HardBlocked },
        ),
        e matches ErrorView::InUse(p) ==> demoted(e) == Some(
            SkipView { path: p, reason: SkipReason::ProcessInUse },
        ),
        e matches ErrorView::SymlinkLoop(p) ==> demoted(e) == Some(
            SkipView { path: p, reason: SkipReason::SymlinkLoop },
        ),
        e matches ErrorView::Unsupported(p, _) ==> demoted(e) == Some(
            SkipView { path: p, reason: SkipReason::Unsupported },
        ),
{
}

/// Merging adds up the bytes and keeps every skip and every error of both outcomes, those
/// of the first one first.
pub proof fn merging_keeps_everything(a: RemoveView, b: RemoveView, i: int)
    ensures
        a.merged(b).freed == a.freed + b.freed,
        a.merged(b).skipped.len() == a.skipped.len() + b.skipped.len(),
        a.merged(b).errors.len() == a.errors.len() + b.errors.len(),
        0 <= i < a.skipped.len() ==> a.merged(b).skipped[i] == a.skipped[i],
        0 <= i < b.skipped.len() ==> a.merged(b).skipped[a.skipped.len() + i] == b.skipped[i],
        0 <= i < a.errors.len() ==> a.merged(b).errors[i] == a.errors[i],
        0 <= i < b.errors.len() ==> a.merged(b).errors[a.errors.len() + i] == b.errors[i],
{
}

/// Every error in words names its path and, where there is one, the system's own words.
pub proof fn errors_name_their_path(e: ErrorView, p: Seq<char>, s: IoView)
    ensures
        e == ErrorView::NotFound(p) ==> text::has(error_text(e), p),
        e == ErrorView::SymlinkLoop(p) ==> text::has(error_text(e), p),
        e == ErrorView::HardBlocked(p) ==> text::has(error_text(e), p),
        e == ErrorView::InUse(p) ==> text::has(error_text(e), p),
        e == ErrorView::PermissionDenied(p, s) || e == ErrorView::Busy(p, s) || e
            == ErrorView::Unsupported(p, s) || e == ErrorView::Io(p, s) ==> text::has(
            error_text(e),
            p,
        ) && text::has(error_text(e), s.message),
{
    let none = Seq::<char>::empty();
    match e {
        ErrorView::NotFound(q) => {
            lemma_text_holds("not found: "@, q, none);
            assert("not found: "@ + q + none =~= "not found: "@ + q);
        },
        ErrorView::SymlinkLoop(q) => {
            lemma_text_holds("symlink loop: "@, q, none);
            assert("symlink loop: "@ + q + none =~= "symlink loop: "@ + q);
        },
        ErrorView::HardBlocked(q) => {
            lemma_text_holds("hard-blocked: "@, q, none);
            assert("hard-blocked: "@ + q + none =~= "hard-blocked: "@ + q);
        },
        ErrorView::InUse(q) => {
            lemma_text_holds("process in use: "@, q, none);
            assert("process in use: "@ + q + none =~= "process in use: "@ + q);
        },
        ErrorView::PermissionDenied(q, t) => {
            lemma_with_source("permission denied: "@, q, t);
        },
        ErrorView::Busy(q, t) => {
            lemma_with_source("in use (EBUSY): "@, q, t);
        },
        ErrorView::Unsupported(q, t) => {
            lemma_with_source("unsupported: "@, q, t);
        },
        ErrorView::Io(q, t) => {
            let whole = "I/O error at "@ + q + ": "@ + t.message;
            lemma_text_holds("I/O error at "@, q, ": "@ + t.message);
            assert(whole =~= "I/O error at "@ + q + (": "@ + t.message));
            lemma_text_holds("I/O error at "@ + q + ": "@, t.message, none);
            assert(whole =~= "I/O error at "@ + q + ": "@ + t.message + none);
        },
        _ => {},
    }
}

proof fn lemma_with_source(label: Seq<char>, p: Seq<char>, s: IoView)
    ensures
        text::has(with_source(label, p, s), p),
        text::has(with_source(label, p, s), s.message),
{
    let whole = with_source(label, p, s);
    lemma_text_holds(label, p, " ("@ + s.message + ")"@);
    assert(whole =~= label + p + (" ("@ + s.message + ")"@));
    lemma_text_holds(label + p + " ("@, s.message, ")"@);
    assert(whole =~= label + p + " ("@ + s.message + ")"@);
}

proof fn lemma_text_holds(before: Seq<char>, p: Seq<char>, after: Seq<char>)
    ensures
        text::has(before + p + after, p),
{
    let whole = before + p + after;
    assert(whole.subrange(before.len() as int, (before.len() + p.len()) as int) =~= p);
    assert(text::occurs_at(whole, p, before.len() as int));
}

/// Noting a path or a failure adds one note, behind the others and to one list only, and
/// frees nothing; counting bytes adds nothing but these.
pub proof fn noting_adds_one(
    a: RemoveView,
    path: Seq<char>,
    reason: SkipReason,
    e: ErrorView,
    bytes: int,
)
    ensures
        a.with_skip(path, reason).freed == a.freed,
        a.with_skip(path, reason).errors == a.errors,
        a.with_skip(path, reason).skipped == a.skipped + seq![SkipView { path, reason }],
        a.with_error(e).freed == a.freed,
        e is NotFound || e is HardBlocked || e is InUse || e is SymlinkLoop || e is Unsupported
            ==> a.with_error(e).errors == a.errors && a.with_error(e).skipped.len()
            == a.skipped.len() + 1 && a.with_error(e).skipped.drop_last() == a.skipped,
        !(e is NotFound || e is HardBlocked || e is InUse || e is SymlinkLoop || e is Unsupported)
            ==> a.with_error(e).skipped == a.skipped && a.with_error(e).errors == a.errors + seq![
            e,
        ],
        a.with_freed(bytes).freed == a.freed + bytes,
        a.with_freed(bytes).skipped == a.skipped && a.with_freed(bytes).errors == a.errors,
        RemoveView::nothing().freed == 0 && RemoveView::nothing().skipped.len() == 0
            && RemoveView::nothing().errors.len() == 0,
{
    assert(a.with_skip(path, reason).skipped =~= a.skipped + seq![SkipView { path, reason }]);
    match demoted(e) {
        Some(s) => {
            assert(a.with_error(e).skipped.drop_last() =~= a.skipped);
        },
        None => {
            assert(a.with_error(e).errors =~= a.errors + seq![e]);
        },
    }
}

/// One error for want of permission is enough for an outcome to count as denied.
pub proof fn one_denial_is_enough(a: RemoveView, e: ErrorView)
    ensures
        !RemoveView::nothing().denied(),
        e is PermissionDenied ==> a.with_error(e).denied(),
        !(e is PermissionDenied) ==> a.with_error(e).denied() == a.denied(),
{
    let more = a.with_error(e);
    if a.denied() {
        let i = choose|i: int| 0 <= i < a.errors.len() && a.errors[i] is PermissionDenied;
        assert(more.errors[i] is PermissionDenied);
    }
    if e is PermissionDenied {
        assert(more.errors[a.errors.len() as int] is PermissionDenied);
    } else if more.denied() {
        let i = choose|i: int| 0 <= i < more.errors.len() && more.errors[i] is PermissionDenied;
        assert(a.errors[i] is PermissionDenied);
    }
}

/// Every error in words says what kind of error it is.
pub proof fn errors_name_their_kind(e: ErrorView, p: Seq<char>, s: IoView)
    ensures
        e == ErrorView::NotFound(p) ==> error_text(e) == "not found: "@ + p,
        e == ErrorView::SymlinkLoop(p) ==> error_text(e) == "symlink loop: "@ + p,
        e == ErrorView::HardBlocked(p) ==> error_text(e) == "hard-blocked: "@ + p,
        e == ErrorView::InUse(p) ==> error_text(e) == "process in use: "@ + p,
        e == ErrorView::Config(p) ==> error_text(e) == "config error: "@ + p,
        e == ErrorView::PermissionDenied(p, s) ==> ("permission denied: "@ + p).is_prefix_of(
            error_text(e),
        ),
        e == ErrorView::Busy(p, s) ==> ("in use (EBUSY): "@ + p).is_prefix_of(error_text(e)),
        e == ErrorView::Unsupported(p, s) ==> ("unsupported: "@ + p).is_prefix_of(error_text(e)),
        e == ErrorView::Io(p, s) ==> ("I/O error at "@ + p).is_prefix_of(error_text(e)),
        e == ErrorView::ExternalTool(p, s.message) ==> error_text(e) == p + ": "@ + s.message,
{
    let w = error_text(e);
    match e {
        ErrorView::PermissionDenied(q, t) => {
            let a = "permission denied: "@ + q;
            assert(w.subrange(0, a.len() as int) =~= a);
        },
        ErrorView::Busy(q, t) => {
            let a = "in use (EBUSY): "@ + q;
            assert(w.subrange(0, a.len() as int) =~= a);
        },
        ErrorView::Unsupported(q, t) => {
            let a = "unsupported: "@ + q;
            assert(w.subrange(0, a.len() as int) =~= a);
        },
        ErrorView::Io(q, t) => {
            let a = "I/O error at "@ + q;
            assert(w.subrange(0, a.len() as int) =~= a);
        },
        _ => {},
    }
}

} // verus!
