//! Safe, classified removal of files and directories.
//!
//! A removal is a conversation: each stage names what has to be found out or done
//! next, and takes the answer. The stage that deletes can only be reached for a
//! path that may be deleted.

use vstd::prelude::*;
use crate::error::{
    ErrorView, HushError, IoFailure, IoView, OsCodes, RemoveResult, RemoveView, SkipReason, SkipView,
};
use crate::{error, guard, size, text};

verus! {

broadcast use crate::text::group_views;

/// Directories larger than this are looked at for open files before they go.
pub const LSOF_THRESHOLD: u64 = 536_870_912;

// ── what is found on disk ────────────────────────────────────────────────────

/// What a path is, without following it.
#[derive(Debug, Clone, Copy, PartialEq, Eq, Structural)]
pub enum FileKind {
    File,
    Directory,
    Symlink,
    Other,
}

/// What a path is and how many bytes it holds itself.
#[derive(Debug, Clone, Copy, PartialEq, Eq, Structural)]
pub struct Meta {
    pub kind: FileKind,
    pub len: u64,
}

/// The metadata of a path, or the failure to read it, by its view.
pub open spec fn meta_view(m: Result<Meta, IoFailure>) -> Result<Meta, IoView> {
    match m {
        Ok(meta) => Ok(meta),
        Err(e) => Err(e@),
    }
}

/// The outcome of a deletion, by its view.
pub open spec fn deletion_view(d: Result<(), IoFailure>) -> Result<(), IoView> {
    match d {
        Ok(_) => Ok(()),
        Err(e) => Err(e@),
    }
}

// ── one removal ──────────────────────────────────────────────────────────────

/// What is to be removed, whether only for show, and the codes by which the
/// system's failures are told apart.
struct Job {
    path: String,
    dry_run: bool,
    codes: OsCodes,
}

/// The view of a removal's subject.
pub struct JobView {
    pub path: Seq<char>,
    pub dry_run: bool,
    pub codes: OsCodes,
}

impl View for Job {
    type V = JobView;

    closed spec fn view(&self) -> JobView {
        JobView { path: self.path@, dry_run: self.dry_run, codes: self.codes }
    }
}

/// Waits for the metadata of the path, links not followed.
pub struct Inspecting {
    job: Job,
}

/// Waits for the size of the directory tree.
pub struct Measuring {
    job: Job,
}

/// Waits for the answer whether a process uses the large directory.
pub struct Probing {
    job: Job,
    size: u64,
}

/// Waits for the path to be deleted.
pub struct Deleting {
    job: Job,
    size: u64,
    tree: bool,
}

/// What a removal needs next.
pub enum Removal {
    /// Find out what the path is.
    Inspect(Inspecting),
    /// Find out how large the directory is.
    Measure(Measuring),
    /// Find out whether the directory is in use.
    Probe(Probing),
    /// Delete the path.
    Delete(Deleting),
    /// Nothing more: the outcome, and a line to show in a dry run.
    Done(RemoveResult, Option<String>),
}

/// The view of a [`Removal`].
#[verifier::ext_equal]
pub enum RemovalView {
    Inspect(JobView),
    Measure(JobView),
    Probe(JobView, int),
    Delete(JobView, int, bool),
    Done(RemoveView, Option<Seq<char>>),
}

impl View for Inspecting {
    type V = JobView;

    closed spec fn view(&self) -> JobView {
        self.job@
    }
}

impl View for Measuring {
    type V = JobView;

    closed spec fn view(&self) -> JobView {
        self.job@
    }
}

impl View for Probing {
    type V = (JobView, int);

    closed spec fn view(&self) -> (JobView, int) {
        (self.job@, self.size as int)
    }
}

impl View for Deleting {
    type V = (JobView, int, bool);

    closed spec fn view(&self) -> (JobView, int, bool) {
        (self.job@, self.size as int, self.tree)
    }
}

impl View for Removal {
    type V = RemovalView;

    open spec fn view(&self) -> RemovalView {
        match self {
            Removal::Inspect(s) => RemovalView::Inspect(s@),
            Removal::Measure(s) => RemovalView::Measure(s@),
            Removal::Probe(s) => RemovalView::Probe(s@.0, s@.1),
            Removal::Delete(s) => RemovalView::Delete(s@.0, s@.1, s@.2),
            Removal::Done(result, line) => RemovalView::Done(result@, text::opt_view(*line)),
        }
    }
}

/// A removal begins by looking at the path, unless the path is protected.
pub open spec fn begun(job: JobView) -> RemovalView {
    if guard::protected(job.path) {
        RemovalView::Done(
            RemoveView::nothing().with_skip(job.path, SkipReason::HardBlocked),
            None,
        )
    } else {
        RemovalView::Inspect(job)
    }
}

/// The line that a dry run shows for a path; none for a path without bytes.
pub open spec fn dry_line(path: Seq<char>, bytes: int) -> Option<Seq<char>> {
    if bytes > 0 {
        Some(
            "  [dry]  "@ + text::padded_right(path, 60, ' ') + " "@ + size::byte_words(
                bytes as nat,
            ),
        )
    } else {
        None
    }
}

/// With the size known, a dry run ends here: the bytes count, nothing is deleted.
pub open spec fn sized(job: JobView, bytes: int, tree: bool) -> RemovalView {
    if job.dry_run {
        RemovalView::Done(
            RemoveView::nothing().with_skip(job.path, SkipReason::DryRun).with_freed(bytes),
            dry_line(job.path, bytes),
        )
    } else {
        RemovalView::Delete(job, bytes, tree)
    }
}

/// What follows once the metadata is known. A link counts no bytes.
pub open spec fn inspected(job: JobView, meta: Result<Meta, IoView>) -> RemovalView {
    match meta {
        Err(e) => RemovalView::Done(
            RemoveView::nothing().with_error(error::classified(e, job.path, job.codes)),
            None,
        ),
        Ok(m) => match m.kind {
            FileKind::Symlink => sized(job, 0, false),
            FileKind::Directory => RemovalView::Measure(job),
            FileKind::File => sized(job, m.len as int, false),
            FileKind::Other => sized(job, m.len as int, true),
        },
    }
}

/// What follows once a directory is measured.
pub open spec fn measured(job: JobView, bytes: int) -> RemovalView {
    if bytes > LSOF_THRESHOLD {
        RemovalView::Probe(job, bytes)
    } else {
        sized(job, bytes, true)
    }
}

/// What follows once it is known whether a large directory is in use.
pub open spec fn probed(job: JobView, bytes: int, in_use: bool) -> RemovalView {
    if in_use {
        RemovalView::Done(
            RemoveView::nothing().with_skip(job.path, SkipReason::ProcessInUse),
            None,
        )
    } else {
        sized(job, bytes, true)
    }
}

/// What a deletion comes to.
pub open spec fn deleted(job: JobView, bytes: int, deletion: Result<(), IoView>) -> RemoveView {
    match deletion {
        Ok(_) => RemoveView::nothing().with_freed(bytes),
        Err(e) => RemoveView::nothing().with_error(error::classified(e, job.path, job.codes)),
    }
}

fn done(result: RemoveResult) -> (r: Removal)
    ensures
        r@ == RemovalView::Done(result@, None),
{
    Removal::Done(result, None)
}

impl Job {
    fn failed(self, e: IoFailure) -> (r: Removal)
        ensures
            r@ == RemovalView::Done(
                RemoveView::nothing().with_error(
                    error::classified(e@, self@.path, self@.codes),
                ),
                None,
            ),
    {
        let mut result = RemoveResult::default();
        result.add_error(HushError::from_io_with(e, self.path, self.codes));
        done(result)
    }

    fn passed_over(self, reason: SkipReason) -> (r: Removal)
        ensures
            r@ == RemovalView::Done(RemoveView::nothing().with_skip(self@.path, reason), None),
    {
        let mut result = RemoveResult::default();
        result.add_skip(self.path, reason);
        done(result)
    }

    fn sized(self, bytes: u64, tree: bool) -> (r: Removal)
        requires
            !guard::protected(self@.path),
        ensures
            r@ == sized(self@, bytes as int, tree),
    {
        if self.dry_run {
            let mut line: Option<String> = None;
            if bytes > 0 {
                let shown = text::pad_right(self.path.as_str(), 60, ' ');
                let mut l = text::join3("  [dry]  ", shown.as_str(), " ");
                l.append(size::fmt_bytes(bytes).as_str());
                line = Some(l);
            }
            let ghost path = self.path@;
            let mut result = RemoveResult::default();
            result.add_skip(self.path, SkipReason::DryRun);
            result.freed_bytes = bytes;
            assert(result@ =~= RemoveView::nothing().with_skip(path, SkipReason::DryRun).with_freed(
                bytes as int,
            ));
            Removal::Done(result, line)
        } else {
            Removal::Delete(Deleting { job: self, size: bytes, tree })
        }
    }
}

/// Begins the removal of a path, with the given codes of the system.
pub fn safe_remove_with(path: &str, dry_run: bool, codes: OsCodes) -> (r: Removal)
    ensures
        r@ == begun(JobView { path: path@, dry_run, codes }),
{
    let job = Job { path: text::owned(path), dry_run, codes };
    if guard::is_protected(path) {
        return job.passed_over(SkipReason::HardBlocked);
    }
    Removal::Inspect(Inspecting { job })
}

/// Begins the removal of a path.
pub fn safe_remove(path: &str, dry_run: bool) -> (r: Removal)
    ensures
        exists|codes: OsCodes|
            codes.known() && r@ == begun(#[trigger] job_of(path@, dry_run, codes)),
{
    let codes = OsCodes::current();
    let r = safe_remove_with(path, dry_run, codes);
    assert(r@ == begun(job_of(path@, dry_run, codes)));
    r
}

/// The subject of a removal.
pub open spec fn job_of(path: Seq<char>, dry_run: bool, codes: OsCodes) -> JobView {
    JobView { path, dry_run, codes }
}

impl Inspecting {
    #[verifier::type_invariant]
    spec fn inv(&self) -> bool {
        !guard::protected(self.job@.path)
    }

    /// The path to be looked at.
    pub fn path(&self) -> (r: &str)
        ensures
            r@ == self@.path,
    {
        self.job.path.as_str()
    }

    /// Goes on with what the path turned out to be.
    pub fn resume(self, meta: Result<Meta, IoFailure>) -> (r: Removal)
        ensures
            r@ == inspected(self@, meta_view(meta)),
    {
        proof {
            use_type_invariant(&self);
        }
        let job = self.job;
        match meta {
            Err(e) => job.failed(e),
            Ok(m) => match m.kind {
                FileKind::Symlink => job.sized(0, false),
                FileKind::Directory => Removal::Measure(Measuring { job }),
                FileKind::File => job.sized(m.len, false),
                FileKind::Other => job.sized(m.len, true),
            },
        }
    }
}

impl Measuring {
    #[verifier::type_invariant]
    spec fn inv(&self) -> bool {
        !guard::protected(self.job@.path)
    }

    /// The directory to be measured.
    pub fn path(&self) -> (r: &str)
        ensures
            r@ == self@.path,
    {
        self.job.path.as_str()
    }

    /// Goes on with the size of the directory.
    pub fn resume(self, bytes: u64) -> (r: Removal)
        ensures
            r@ == measured(self@, bytes as int),
    {
        proof {
            use_type_invariant(&self);
        }
        let job = self.job;
        if bytes > LSOF_THRESHOLD {
            Removal::Probe(Probing { job, size: bytes })
        } else {
            job.sized(bytes, true)
        }
    }
}

impl Probing {
    #[verifier::type_invariant]
    spec fn inv(&self) -> bool {
        !guard::protected(self.job@.path)
    }

    /// The directory that may be in use.
    pub fn path(&self) -> (r: &str)
        ensures
            r@ == self@.0.path,
    {
        self.job.path.as_str()
    }

    /// Goes on with the answer whether the directory is in use.
    pub fn resume(self, in_use: bool) -> (r: Removal)
        ensures
            r@ == probed(self@.0, self@.1, in_use),
    {
        proof {
            use_type_invariant(&self);
        }
        let bytes: u64 = self.size;
        let job = self.job;
        if in_use {
            job.passed_over(SkipReason::ProcessInUse)
        } else {
            job.sized(bytes, true)
        }
    }
}

impl Deleting {
    /// What is deleted is not protected, and it is no dry run.
    #[verifier::type_invariant]
    spec fn inv(&self) -> bool {
        !guard::protected(self.job@.path) && !self.job@.dry_run
    }

    /// The path to be deleted. It is not protected, and it is no dry run.
    pub fn path(&self) -> (r: &str)
        ensures
            r@ == self@.0.path,
            !guard::protected(r@),
            !self@.0.dry_run,
    {
        proof {
            use_type_invariant(self);
        }
        self.job.path.as_str()
    }

    /// Whether a whole tree goes, and not a single file or link.
    pub fn is_tree(&self) -> (r: bool)
        ensures
            r == self@.2,
    {
        self.tree
    }

    /// What the deletion came to.
    pub fn finish(self, deletion: Result<(), IoFailure>) -> (r: RemoveResult)
        ensures
            r@ == deleted(self@.0, self@.1, deletion_view(deletion)),
    {
        let bytes: u64 = self.size;
        let job = self.job;
        let mut result = RemoveResult::default();
        match deletion {
            Ok(_) => {
                result.freed_bytes = bytes;
                assert(result@ =~= RemoveView::nothing().with_freed(bytes as int));
            },
            Err(e) => {
                result.add_error(HushError::from_io_with(e, job.path, job.codes));
            },
        }
        result
    }
}

// ── what a removal guarantees ────────────────────────────────────────────────

/// Everything that a removal may ask about its path, answered.
pub struct Answers {
    pub meta: Result<Meta, IoView>,
    pub bytes: int,
    pub in_use: bool,
    pub deletion: Result<(), IoView>,
}

/// What a removal comes to from a stage on, and whether it deleted anything,
/// given the answers to all its questions.
pub open spec fn concluded(stage: RemovalView, a: Answers) -> (RemoveView, bool) {
    let after_inspect = match stage {
        RemovalView::Inspect(job) => inspected(job, a.meta),
        other => other,
    };
    let after_measure = match after_inspect {
        RemovalView::Measure(job) => measured(job, a.bytes),
        other => other,
    };
    let after_probe = match after_measure {
        RemovalView::Probe(job, bytes) => probed(job, bytes, a.in_use),
        other => other,
    };
    match after_probe {
        RemovalView::Delete(job, bytes, _) => (deleted(job, bytes, a.deletion), a.deletion is Ok),
        RemovalView::Done(result, _) => (result, false),
        _ => (RemoveView::nothing(), false),
    }
}

/// The answers ask for nothing to be deleted at this path: it is protected, the
/// run is for show, the path could not be looked at, or it is a large directory in use.
pub open spec fn spared(job: JobView, a: Answers) -> bool {
    ||| guard::protected(job.path)
    ||| job.dry_run
    ||| a.meta is Err
    ||| ((a.meta->Ok_0).kind == FileKind::Directory && a.bytes > LSOF_THRESHOLD && a.in_use)
}

/// A removal deletes exactly when nothing spares the path and the deletion succeeds.
/// In particular a protected path and a dry run never delete anything.
pub proof fn removal_deletes_only_what_it_may(job: JobView, a: Answers)
    ensures
        concluded(begun(job), a).1 == (!spared(job, a) && a.deletion is Ok),
{
}

/// A protected path is answered with a single skip and no error, whatever else
/// holds of it, and frees nothing.
pub proof fn protected_path_is_skipped(job: JobView, a: Answers)
    requires
        guard::protected(job.path),
    ensures
        concluded(begun(job), a).0 == RemoveView::nothing().with_skip(
            job.path,
            SkipReason::HardBlocked,
        ),
{
}

/// Bytes are counted as freed only where something was deleted, or in a dry run;
/// and a dry run counts what the deletion would have freed.
pub proof fn freed_bytes_are_deleted_bytes(job: JobView, a: Answers)
    requires
        a.bytes >= 0,
    ensures
        concluded(begun(job), a).0.freed > 0 ==> concluded(begun(job), a).1 || job.dry_run,
        a.deletion is Ok ==> concluded(begun(JobView { dry_run: true, ..job }), a).0.freed
            == concluded(begun(JobView { dry_run: false, ..job }), a).0.freed,
{
}

/// Every removal leaves a trace: it frees bytes by deleting, or it notes exactly
/// one skip or error.
pub proof fn removal_is_accounted_for(job: JobView, a: Answers)
    ensures
        ({
            let (result, deleted) = concluded(begun(job), a);
            result.skipped.len() + result.errors.len() == if deleted {
                0int
            } else {
                1
            }
        }),
{
}

/// The outcome tells of nothing but this failure at this path: a path that is gone and an
/// operation that is not supported are passed over, any other failure is an error.
pub open spec fn tells_failure(result: RemoveView, path: Seq<char>, e: ErrorView) -> bool {
    &&& result.freed == 0
    &&& e is NotFound ==> result.errors.len() == 0 && result.skipped == seq![
        SkipView { path, reason: SkipReason::NotFound },
    ]
    &&& e is Unsupported ==> result.errors.len() == 0 && result.skipped == seq![
        SkipView { path, reason: SkipReason::Unsupported },
    ]
    &&& !(e is NotFound) && !(e is Unsupported) ==> result.skipped.len() == 0 && result.errors
        == seq![e]
}

/// What a removal frees and reports, by what is found at its path, where the path is not
/// protected. A link frees nothing and a file its length; a directory frees what it holds,
/// unless it holds more than half a gigabyte and is in use. What cannot be looked at or
/// deleted is an error at the path.
pub proof fn removal_goes_by_what_is_found(job: JobView, a: Answers)
    requires
        !guard::protected(job.path),
    ensures
        ({
            let (result, gone) = concluded(begun(job), a);
            &&& (a.meta matches Err(e) ==> tells_failure(
                result,
                job.path,
                error::classified(e, job.path, job.codes),
            ) && !gone)
            &&& (a.meta matches Ok(m) ==> {
                let bytes = if m.kind == FileKind::Symlink {
                    0
                } else if m.kind == FileKind::Directory {
                    a.bytes
                } else {
                    m.len as int
                };
                let held = m.kind == FileKind::Directory && a.bytes > 536_870_912 && a.in_use;
                &&& held ==> result.freed == 0 && result.errors.len() == 0 && result.skipped
                    == seq![SkipView { path: job.path, reason: SkipReason::ProcessInUse }] && !gone
                &&& !held && job.dry_run ==> result.freed == bytes && result.errors.len() == 0
                    && result.skipped == seq![
                    SkipView { path: job.path, reason: SkipReason::DryRun },
                ] && !gone
                &&& !held && !job.dry_run && a.deletion is Ok ==> result.freed == bytes
                    && result.errors.len() == 0 && result.skipped.len() == 0 && gone
                &&& !held && !job.dry_run ==> (a.deletion matches Err(e) ==> tells_failure(
                    result,
                    job.path,
                    error::classified(e, job.path, job.codes),
                ) && !gone)
            })
        }),
{
    let none = Seq::<SkipView>::empty();
    assert(RemoveView::nothing().skipped =~= none);
    assert(none.push(SkipView { path: job.path, reason: SkipReason::ProcessInUse }) =~= seq![
        SkipView { path: job.path, reason: SkipReason::ProcessInUse },
    ]);
    assert(none.push(SkipView { path: job.path, reason: SkipReason::DryRun }) =~= seq![
        SkipView { path: job.path, reason: SkipReason::DryRun },
    ]);
    assert(none.push(SkipView { path: job.path, reason: SkipReason::NotFound }) =~= seq![
        SkipView { path: job.path, reason: SkipReason::NotFound },
    ]);
    assert(none.push(SkipView { path: job.path, reason: SkipReason::Unsupported }) =~= seq![
        SkipView { path: job.path, reason: SkipReason::Unsupported },
    ]);
}

/// A directory and whatever is neither file nor link go with all that is inside, a file
/// or link by itself, and only in a run that is not for show. A large directory is looked
/// at for open files first, and one that is not large is not.
pub proof fn deletion_fits_what_is_found(job: JobView, m: Meta, bytes: int)
    requires
        !job.dry_run,
    ensures
        m.kind == FileKind::Symlink ==> inspected(job, Ok(m)) == RemovalView::Delete(job, 0, false),
        m.kind == FileKind::File ==> inspected(job, Ok(m)) == RemovalView::Delete(
            job,
            m.len as int,
            false,
        ),
        m.kind == FileKind::Other ==> inspected(job, Ok(m)) == RemovalView::Delete(
            job,
            m.len as int,
            true,
        ),
        m.kind == FileKind::Directory ==> inspected(job, Ok(m)) == RemovalView::Measure(job),
        bytes <= 536_870_912 ==> measured(job, bytes) == RemovalView::Delete(job, bytes, true),
        bytes > 536_870_912 ==> measured(job, bytes) == RemovalView::Probe(job, bytes),
        probed(job, bytes, false) == RemovalView::Delete(job, bytes, true),
{
}

/// A dry run shows each path that has bytes, by name and with its size in words, and
/// nothing for any other path.
pub proof fn shown_lines_name_path_and_size(job: JobView, bytes: int, tree: bool)
    requires
        job.dry_run,
    ensures
        sized(job, bytes, tree) matches RemovalView::Done(_, line) && {
            &&& line is Some <==> bytes > 0
            &&& line matches Some(s) ==> text::has(s, job.path) && size::byte_words(
                bytes as nat,
            ).is_suffix_of(s)
        },
{
    if bytes > 0 {
        let words = size::byte_words(bytes as nat);
        let a = "  [dry]  "@;
        let fill = text::repeated(' ', 60 - job.path.len());
        let s = a + text::padded_right(job.path, 60, ' ') + " "@ + words;
        assert(s =~= a + job.path + (fill + " "@ + words));
        text::parts_are_found(s, a, job.path, fill + " "@ + words);
        assert(s.subrange(s.len() - words.len(), s.len() as int) =~= words);
    }
}

} // verus!
