//! Sweeps over directories: which entries go, which are entered, and how the
//! single outcomes add up.

use vstd::prelude::*;
use crate::clock::Stamp;
use crate::error::{
    ErrorView, HushError, IoFailure, IoView, OsCodes, RemoveResult, RemoveView, SkipReason, SkipView,
};
use crate::{clock, error, guard, lists, paths, text};

verus! {

broadcast use crate::text::group_views;

// ── what is found in a directory ─────────────────────────────────────────────

/// What is known of a directory entry, links not followed.
pub struct EntryMeta {
    pub is_dir: bool,
    /// When it was last changed.
    pub modified: Result<Stamp, IoFailure>,
}

/// An entry of a directory.
pub struct Entry {
    pub path: String,
    pub meta: Result<EntryMeta, IoFailure>,
}

/// The view of an [`EntryMeta`].
pub struct EntryMetaView {
    pub is_dir: bool,
    pub modified: Result<Stamp, IoView>,
}

/// The view of an [`Entry`].
pub struct EntryView {
    pub path: Seq<char>,
    pub meta: Result<EntryMetaView, IoView>,
}

impl View for Entry {
    type V = EntryView;

    open spec fn view(&self) -> EntryView {
        EntryView {
            path: self.path@,
            meta: match self.meta {
                Ok(m) => Ok(
                    EntryMetaView {
                        is_dir: m.is_dir,
                        modified: match m.modified {
                            Ok(t) => Ok(t),
                            Err(e) => Err(e@),
                        },
                    },
                ),
                Err(e) => Err(e@),
            },
        }
    }
}

/// The entries of a directory, or the failure to list them, by their views.
pub open spec fn listing_view(l: Result<Vec<Entry>, IoFailure>) -> Result<Seq<EntryView>, IoView> {
    match l {
        Ok(entries) => Ok(text::views(entries@)),
        Err(e) => Err(e@),
    }
}

// ── steps ────────────────────────────────────────────────────────────────────

/// One step of a sweep.
pub enum Step {
    /// Note that a path is passed over.
    Skip(String, SkipReason),
    /// Note a failure.
    Fail(HushError),
    /// Sweep a directory inside.
    Descend(String),
    /// Remove a path.
    Remove(String),
}

/// The view of a [`Step`].
pub enum StepView {
    Skip(Seq<char>, SkipReason),
    Fail(ErrorView),
    Descend(Seq<char>),
    Remove(Seq<char>),
}

impl View for Step {
    type V = StepView;

    open spec fn view(&self) -> StepView {
        match self {
            Step::Skip(p, reason) => StepView::Skip(p@, *reason),
            Step::Fail(e) => StepView::Fail(e@),
            Step::Descend(p) => StepView::Descend(p@),
            Step::Remove(p) => StepView::Remove(p@),
        }
    }
}

/// `steps` and one more, if there is one.
pub open spec fn and_then_maybe(steps: Seq<StepView>, next: Option<StepView>) -> Seq<StepView> {
    match next {
        Some(step) => steps.push(step),
        None => steps,
    }
}

// ── sweeping by age ──────────────────────────────────────────────────────────

/// Which files an age sweep takes: those last changed before `cutoff`, of the given
/// extensions if any are given.
pub struct AgeRule {
    pub cutoff: Stamp,
    pub exts: Option<Vec<String>>,
    pub recursive: bool,
}

/// The view of an [`AgeRule`].
pub struct AgeRuleView {
    pub cutoff: Stamp,
    pub exts: Option<Seq<Seq<char>>>,
    pub recursive: bool,
}

impl View for AgeRule {
    type V = AgeRuleView;

    open spec fn view(&self) -> AgeRuleView {
        AgeRuleView {
            cutoff: self.cutoff,
            exts: text::opt_views(self.exts),
            recursive: self.recursive,
        }
    }
}

/// The extension of the path is among those asked for.
pub open spec fn ext_fits(path: Seq<char>, exts: Option<Seq<Seq<char>>>) -> bool {
    match exts {
        Some(list) => list.contains(match paths::path_ext(path) {
            Some(e) => e,
            None => Seq::empty(),
        }),
        None => true,
    }
}

/// What an age sweep does about an entry.
pub open spec fn age_step(e: EntryView, rule: AgeRuleView, codes: OsCodes) -> Option<StepView> {
    if guard::protected(e.path) {
        Some(StepView::Skip(e.path, SkipReason::HardBlocked))
    } else {
        match e.meta {
            Err(f) => Some(StepView::Fail(error::classified(f, e.path, codes))),
            Ok(m) => if m.is_dir {
                if rule.recursive {
                    Some(StepView::Descend(e.path))
                } else {
                    None
                }
            } else {
                match m.modified {
                    Err(f) => Some(StepView::Fail(error::classified(f, e.path, codes))),
                    Ok(t) => if clock::not_before(t, rule.cutoff) || !ext_fits(e.path, rule.exts) {
                        None
                    } else {
                        Some(StepView::Remove(e.path))
                    },
                }
            },
        }
    }
}

/// What an age sweep does about the entries of a directory, in order.
pub open spec fn age_steps(
    entries: Seq<EntryView>,
    rule: AgeRuleView,
    codes: OsCodes,
) -> Seq<StepView>
    decreases entries.len(),
{
    if entries.len() == 0 {
        Seq::empty()
    } else {
        and_then_maybe(
            age_steps(entries.drop_last(), rule, codes),
            age_step(entries.last(), rule, codes),
        )
    }
}

/// What an age sweep does in a directory. A protected one is passed over, and what
/// is no directory is left alone.
pub open spec fn age_sweep(
    root: Seq<char>,
    is_dir: bool,
    listing: Result<Seq<EntryView>, IoView>,
    rule: AgeRuleView,
    codes: OsCodes,
) -> Seq<StepView> {
    if guard::protected(root) {
        seq![StepView::Skip(root, SkipReason::HardBlocked)]
    } else if !is_dir {
        Seq::empty()
    } else {
        match listing {
            Err(e) => seq![StepView::Fail(error::classified(e, root, codes))],
            Ok(entries) => age_steps(entries, rule, codes),
        }
    }
}

fn ext_allowed(path: &str, exts: &Option<Vec<String>>) -> (r: bool)
    ensures
        r == ext_fits(
            path@,
            text::opt_views(*exts),
        ),
{
    match exts {
        Some(list) => match paths::extension(path) {
            Some(e) => text::is_any(e.as_str(), list),
            None => {
                proof {
                    reveal_strlit("");
                    assert(""@ =~= Seq::<char>::empty());
                }
                text::is_any("", list)
            },
        },
        None => true,
    }
}

fn age_step_of(e: Entry, rule: &AgeRule, codes: OsCodes) -> (r: Option<Step>)
    ensures
        text::opt_view(r) == age_step(e@, rule@, codes),
{
    if guard::is_protected(e.path.as_str()) {
        return Some(Step::Skip(e.path, SkipReason::HardBlocked));
    }
    match e.meta {
        Err(f) => Some(Step::Fail(HushError::from_io_with(f, e.path, codes))),
        Ok(m) => {
            if m.is_dir {
                if rule.recursive {
                    Some(Step::Descend(e.path))
                } else {
                    None
                }
            } else {
                match m.modified {
                    Err(f) => Some(Step::Fail(HushError::from_io_with(f, e.path, codes))),
                    Ok(t) => {
                        if t.not_before(rule.cutoff) || !ext_allowed(e.path.as_str(), &rule.exts) {
                            None
                        } else {
                            Some(Step::Remove(e.path))
                        }
                    },
                }
            }
        },
    }
}

/// What an age sweep does in a directory: old files go, directories are entered
/// where the rule says so.
pub fn safe_remove_old_files(
    root: &str,
    is_dir: bool,
    listing: Result<Vec<Entry>, IoFailure>,
    rule: &AgeRule,
    codes: OsCodes,
) -> (r: Vec<Step>)
    ensures
        text::views(r@) == age_sweep(root@, is_dir, listing_view(listing), rule@, codes),
{
    let mut r: Vec<Step> = Vec::new();
    if guard::is_protected(root) {
        r.push(Step::Skip(text::owned(root), SkipReason::HardBlocked));
        assert(text::views(r@) =~= seq![StepView::Skip(root@, SkipReason::HardBlocked)]);
        return r;
    }
    if !is_dir {
        return r;
    }
    match listing {
        Err(e) => {
            let ghost ev = e@;
            r.push(Step::Fail(HushError::from_io_with(e, text::owned(root), codes)));
            assert(text::views(r@) =~= seq![
                StepView::Fail(error::classified(ev, root@, codes)),
            ]);
        },
        Ok(entries) => {
            let ghost source = entries@;
            let ghost all = text::views(entries@);
            let mut todo: Vec<Entry> = lists::reversed(entries);
            assert(todo@.reverse() =~= source);
            assert(text::views(todo@).reverse() =~= all);
            let mut done: Ghost<int> = Ghost(0);
            assert(all.take(0) =~= Seq::<EntryView>::empty());
            while todo.len() > 0
                invariant
                    0 <= done@ <= all.len(),
                    text::views(todo@).reverse() == all.skip(done@),
                    text::views(r@) == age_steps(all.take(done@), rule@, codes),
                decreases todo.len(),
            {
                let ghost before = todo@;
                match todo.pop() {
                    Some(e) => {
                        proof {
                            lemma_reverse_pop(before, all, done@);
                            assert(all.take(done@ + 1).drop_last() =~= all.take(done@));
                        }
                        match age_step_of(e, rule, codes) {
                            Some(step) => {
                                r.push(step);
                            },
                            None => {},
                        }
                        proof {
                            done@ = done@ + 1;
                        }
                    },
                    None => {},
                }
            }
            assert(all.skip(done@).len() == text::views(todo@).reverse().len());
            assert(all.take(done@) =~= all);
        },
    }
    r
}

// ── sweeping by choice ───────────────────────────────────────────────────────

/// What a sweep by choice does about an entry: a directory is entered where the
/// sweep is recursive, anything else goes unless it is kept.
pub open spec fn choice_step(e: EntryView, kept: bool, recursive: bool, codes: OsCodes) -> Option<
    StepView,
> {
    match e.meta {
        Err(f) => Some(StepView::Fail(error::classified(f, e.path, codes))),
        Ok(m) => if m.is_dir {
            if recursive {
                Some(StepView::Descend(e.path))
            } else {
                None
            }
        } else if kept {
            None
        } else {
            Some(StepView::Remove(e.path))
        },
    }
}

/// What a sweep by choice does about the entries of a directory, in order.
pub open spec fn choice_steps(
    entries: Seq<EntryView>,
    kept: Seq<bool>,
    recursive: bool,
    codes: OsCodes,
) -> Seq<StepView>
    decreases entries.len(),
{
    if entries.len() == 0 {
        Seq::empty()
    } else {
        and_then_maybe(
            choice_steps(entries.drop_last(), kept.drop_last(), recursive, codes),
            choice_step(entries.last(), kept.last(), recursive, codes),
        )
    }
}

/// What a sweep by choice does in a directory that is not protected.
pub open spec fn choice_sweep(
    listing: Result<Seq<EntryView>, IoView>,
    root: Seq<char>,
    kept: Seq<bool>,
    recursive: bool,
    codes: OsCodes,
) -> Seq<StepView> {
    match listing {
        Err(e) => seq![StepView::Fail(error::classified(e, root, codes))],
        Ok(entries) => choice_steps(entries, kept, recursive, codes),
    }
}

/// `kept` holds, for each entry that is no directory, an answer that `keep` may
/// give about its path.
pub open spec fn answered<F: Fn(&String) -> bool>(
    keep: F,
    listing: Result<Vec<Entry>, IoFailure>,
    kept: Seq<bool>,
) -> bool {
    listing matches Ok(entries) ==> {
        &&& kept.len() == entries@.len()
        &&& forall|i: int|
            0 <= i < entries@.len() && (#[trigger] entries@[i].meta matches Ok(m) && !m.is_dir)
                ==> call_ensures(keep, (&entries@[i].path,), kept[i])
    }
}

/// What a sweep by choice does in a directory: whatever `keep` does not want goes.
pub fn walk_delete_if<F: Fn(&String) -> bool>(
    root: &str,
    listing: Result<Vec<Entry>, IoFailure>,
    recursive: bool,
    keep: F,
    codes: OsCodes,
) -> (r: Vec<Step>)
    requires
        forall|path: &String| #[trigger] call_requires(keep, (path,)),
    ensures
        guard::protected(root@) ==> text::views(r@) == seq![
            StepView::Skip(root@, SkipReason::HardBlocked),
        ],
        !guard::protected(root@) ==> exists|kept: Seq<bool>|
            #![trigger answered(keep, listing, kept)]
            answered(keep, listing, kept) && text::views(r@) == choice_sweep(
                listing_view(listing),
                root@,
                kept,
                recursive,
                codes,
            ),
{
    let mut r: Vec<Step> = Vec::new();
    if guard::is_protected(root) {
        r.push(Step::Skip(text::owned(root), SkipReason::HardBlocked));
        assert(text::views(r@) =~= seq![StepView::Skip(root@, SkipReason::HardBlocked)]);
        return r;
    }
    match listing {
        Err(e) => {
            let ghost ev = e@;
            r.push(Step::Fail(HushError::from_io_with(e, text::owned(root), codes)));
            proof {
                assert(text::views(r@) =~= seq![
                    StepView::Fail(error::classified(ev, root@, codes)),
                ]);
                assert(answered(keep, listing, Seq::empty()));
            }
        },
        Ok(entries) => {
            let ghost source = entries@;
            let ghost all = text::views(entries@);
            let mut todo: Vec<Entry> = lists::reversed(entries);
            assert(todo@.reverse() =~= source);
            assert(text::views(todo@).reverse() =~= all);
            let ghost mut done: int = 0;
            let ghost mut kept: Seq<bool> = Seq::empty();
            while todo.len() > 0
                invariant
                    0 <= done <= all.len(),
                    all == text::views(source),
                    todo@.reverse() == source.skip(done),
                    kept.len() == done,
                    forall|path: &String| #[trigger] call_requires(keep, (path,)),
                    forall|i: int|
                        0 <= i < done && (#[trigger] source[i].meta matches Ok(m) && !m.is_dir)
                            ==> call_ensures(keep, (&source[i].path,), kept[i]),
                    text::views(r@) == choice_steps(all.take(done), kept, recursive, codes),
                decreases todo.len(),
            {
                let ghost before = todo@;
                match todo.pop() {
                    Some(e) => {
                        let mut wanted: bool = false;
                        proof {
                            assert(before.reverse().len() == source.skip(done).len());
                            assert(before.reverse()[0] == source.skip(done)[0]);
                            assert(e == source[done]);
                            assert(todo@.reverse() =~= before.reverse().skip(1));
                            assert(source.skip(done).skip(1) =~= source.skip(done + 1));
                            assert(all.take(done + 1).drop_last() =~= all.take(done));
                        }
                        match e.meta {
                            Err(f) => {
                                r.push(Step::Fail(HushError::from_io_with(f, e.path, codes)));
                            },
                            Ok(m) => {
                                if m.is_dir {
                                    if recursive {
                                        r.push(Step::Descend(e.path));
                                    }
                                } else {
                                    wanted = keep(&e.path);
                                    if !wanted {
                                        r.push(Step::Remove(e.path));
                                    }
                                }
                            },
                        }
                        proof {
                            assert(kept.push(wanted).drop_last() =~= kept);
                            kept = kept.push(wanted);
                            done = done + 1;
                        }
                    },
                    None => {},
                }
            }
            proof {
                assert(source.skip(done).len() == 0);
                assert(all.take(done) =~= all);
                assert(answered(keep, listing, kept));
            }
        },
    }
    r
}

proof fn lemma_reverse_pop<T: View>(stack: Seq<T>, all: Seq<T::V>, done: int)
    requires
        stack.len() > 0,
        0 <= done <= all.len(),
        text::views(stack).reverse() == all.skip(done),
    ensures
        done < all.len(),
        stack.last()@ == all[done],
        all.take(done + 1).last() == stack.last()@,
        text::views(stack.drop_last()).reverse() == all.skip(done + 1),
{
    let r = text::views(stack).reverse();
    assert(r.len() == stack.len());
    assert(r[0] == stack.last()@);
    assert(r[0] == all.skip(done)[0]);
    assert forall|i: int| 0 <= i < stack.len() - 1 implies #[trigger] text::views(
        stack.drop_last(),
    ).reverse()[i] == all.skip(done + 1)[i] by {
        assert(r[i + 1] == all.skip(done)[i + 1]);
        assert(r[i + 1] == stack[stack.len() - 2 - i]@);
    }
    assert(text::views(stack.drop_last()).reverse() =~= all.skip(done + 1));
}

// ── a whole sweep ────────────────────────────────────────────────────────────

/// What a sweep needs next.
pub enum Task {
    /// Find out what is in a directory.
    List(String),
    /// Remove a path.
    Remove(String),
}

/// The view of a [`Task`].
pub enum TaskView {
    List(Seq<char>),
    Remove(Seq<char>),
}

impl View for Task {
    type V = TaskView;

    open spec fn view(&self) -> TaskView {
        match self {
            Task::List(p) => TaskView::List(p@),
            Task::Remove(p) => TaskView::Remove(p@),
        }
    }
}

/// Where a sweep stands: the steps still to be done, the next one first, and what
/// those done so far came to.
#[verifier::ext_equal]
pub struct SweepView {
    pub todo: Seq<StepView>,
    pub result: RemoveView,
}

/// Notes what can be noted and stops at the first step that needs an answer.
pub open spec fn advanced(s: SweepView) -> (SweepView, Option<TaskView>)
    decreases s.todo.len(),
{
    if s.todo.len() == 0 {
        (s, None)
    } else {
        let rest = s.todo.skip(1);
        match s.todo[0] {
            StepView::Skip(p, reason) => advanced(
                SweepView { todo: rest, result: s.result.with_skip(p, reason) },
            ),
            StepView::Fail(e) => advanced(
                SweepView { todo: rest, result: s.result.with_error(e) },
            ),
            StepView::Descend(p) => (SweepView { todo: rest, ..s }, Some(TaskView::List(p))),
            StepView::Remove(p) => (SweepView { todo: rest, ..s }, Some(TaskView::Remove(p))),
        }
    }
}

/// A sweep over a directory tree, one step after the other.
pub struct Sweep {
    stack: Vec<Step>,
    result: RemoveResult,
}

impl View for Sweep {
    type V = SweepView;

    closed spec fn view(&self) -> SweepView {
        SweepView { todo: text::views(self.stack@).reverse(), result: self.result@ }
    }
}

impl Sweep {
    /// Begins a sweep at a directory.
    pub fn over(root: &str) -> (r: Sweep)
        ensures
            r@ == (SweepView {
                todo: seq![StepView::Descend(root@)],
                result: RemoveView::nothing(),
            }),
    {
        let mut stack: Vec<Step> = Vec::new();
        stack.push(Step::Descend(text::owned(root)));
        let r = Sweep { stack, result: RemoveResult::default() };
        assert(r@.todo =~= seq![StepView::Descend(root@)]);
        r
    }

    /// Goes on to the next step that needs an answer; none when the sweep is over.
    pub fn next(&mut self) -> (r: Option<Task>)
        ensures
            (final(self)@, text::opt_view(r)) == advanced(old(self)@),
    {
        let ghost start = self@;
        while self.stack.len() > 0
            invariant
                start == old(self)@,
                advanced(self@) == advanced(start),
            decreases self.stack.len(),
        {
            let ghost before = self@;
            match self.stack.pop() {
                Some(step) => {
                    proof {
                        assert(before.todo[0] == step@);
                        assert(text::views(self.stack@).reverse() =~= before.todo.skip(1));
                    }
                    match step {
                        Step::Skip(p, reason) => {
                            self.result.add_skip(p, reason);
                        },
                        Step::Fail(e) => {
                            self.result.add_error(e);
                        },
                        Step::Descend(p) => {
                            return Some(Task::List(p));
                        },
                        Step::Remove(p) => {
                            return Some(Task::Remove(p));
                        },
                    }
                },
                None => {},
            }
        }
        None
    }

    /// Puts the steps for a directory that was listed before all others.
    pub fn listed(&mut self, steps: Vec<Step>)
        ensures
            final(self)@ == (SweepView {
                todo: text::views(steps@) + old(self)@.todo,
                result: old(self)@.result,
            }),
    {
        let ghost all = text::views(steps@);
        let mut reversed: Vec<Step> = lists::reversed(steps);
        self.stack.append(&mut reversed);
        assert(self@.todo =~= all + old(self)@.todo);
    }

    /// The bytes freed so far.
    pub fn freed(&self) -> (r: u64)
        ensures
            r == self@.result.freed,
    {
        self.result.freed_bytes
    }

    /// Adds what a removal came to.
    pub fn removed(&mut self, outcome: RemoveResult)
        requires
            old(self)@.result.freed + outcome@.freed <= u64::MAX,
        ensures
            final(self)@ == (SweepView {
                todo: old(self)@.todo,
                result: old(self)@.result.merged(outcome@),
            }),
    {
        self.result.merge(outcome);
    }

    /// What the sweep came to so far.
    pub fn finish(self) -> (r: RemoveResult)
        ensures
            r@ == self@.result,
    {
        self.result
    }
}

// ── what a sweep comes to ────────────────────────────────────────────────────

/// What a sweep finds below a step: nothing more where the step is a note, the
/// outcome of a removal, or the steps for a directory and what is below them.
pub enum Found {
    Skip(Seq<char>, SkipReason),
    Fail(ErrorView),
    Gone(Seq<char>, RemoveView),
    Dir(Seq<char>, Seq<Found>),
}

/// The step at which this is found.
pub open spec fn step_of(f: Found) -> StepView {
    match f {
        Found::Skip(p, reason) => StepView::Skip(p, reason),
        Found::Fail(e) => StepView::Fail(e),
        Found::Gone(p, _) => StepView::Remove(p),
        Found::Dir(p, _) => StepView::Descend(p),
    }
}

/// The steps at which these are found.
pub open spec fn steps_of(fs: Seq<Found>) -> Seq<StepView> {
    fs.map_values(|f: Found| step_of(f))
}

/// What a step comes to with all that is below it.
pub open spec fn outcome_of(f: Found) -> RemoveView
    decreases f,
{
    match f {
        Found::Skip(p, reason) => RemoveView::nothing().with_skip(p, reason),
        Found::Fail(e) => RemoveView::nothing().with_error(e),
        Found::Gone(_, outcome) => outcome,
        Found::Dir(_, inside) => outcome_of_all(inside),
    }
}

/// What steps come to, one after the other.
pub open spec fn outcome_of_all(fs: Seq<Found>) -> RemoveView
    decreases fs, fs.len(),
    when fs.len() >= 0
{
    if fs.len() == 0 {
        RemoveView::nothing()
    } else {
        outcome_of(fs[0]).merged(outcome_of_all(fs.subrange(1, fs.len() as int)))
    }
}

/// Notes come to what they note, in order.
proof fn lemma_outcome_note(result: RemoveView, f: Found)
    requires
        f is Skip || f is Fail,
    ensures
        result.merged(outcome_of(f)) == (match f {
            Found::Skip(p, reason) => result.with_skip(p, reason),
            Found::Fail(e) => result.with_error(e),
            _ => result,
        }),
{
    match f {
        Found::Skip(p, reason) => {
            assert(result.merged(outcome_of(f)) =~= result.with_skip(p, reason));
        },
        Found::Fail(e) => {
            assert(result.merged(outcome_of(f)) =~= result.with_error(e));
        },
        _ => {},
    }
}

/// Two runs of steps come to what each of them comes to, together.
pub proof fn outcomes_add_up(a: Seq<Found>, b: Seq<Found>)
    ensures
        outcome_of_all(a + b) == outcome_of_all(a).merged(outcome_of_all(b)),
    decreases a.len(),
{
    if a.len() == 0 {
        assert(a + b =~= b);
        error::merge_is_associative(outcome_of_all(b), outcome_of_all(b), outcome_of_all(b));
    } else {
        let rest = a.subrange(1, a.len() as int);
        assert((a + b).subrange(1, (a + b).len() as int) =~= rest + b);
        outcomes_add_up(rest, b);
        error::merge_is_associative(outcome_of(a[0]), outcome_of_all(rest), outcome_of_all(b));
    }
}

/// What is left to be found once the notes at the front are passed.
pub open spec fn past_notes(ahead: Seq<Found>) -> Seq<Found>
    decreases ahead.len(),
{
    if ahead.len() > 0 && (ahead[0] is Skip || ahead[0] is Fail) {
        past_notes(ahead.skip(1))
    } else {
        ahead
    }
}

/// However far a sweep has come, what it has noted so far together with what is
/// still to be found makes the same total: passing the notes on the way to the next
/// question changes nothing of it. The question, if there is one, is the first thing
/// still to be found.
pub proof fn advancing_keeps_the_total(s: SweepView, ahead: Seq<Found>) -> (left: Seq<Found>)
    requires
        s.todo == steps_of(ahead),
    ensures
        left == past_notes(ahead),
        ({
            let (after, task) = advanced(s);
            &&& after.result.merged(outcome_of_all(left)) == s.result.merged(outcome_of_all(ahead))
            &&& match task {
                Some(TaskView::List(p)) => left.len() > 0 && left[0] is Dir && left[0]->Dir_0 == p
                    && after.todo == steps_of(left.skip(1)),
                Some(TaskView::Remove(p)) => left.len() > 0 && left[0] is Gone && left[0]->Gone_0
                    == p && after.todo == steps_of(left.skip(1)),
                None => left.len() == 0 && after.todo.len() == 0,
            }
        }),
    decreases ahead.len(),
{
    if ahead.len() == 0 {
        ahead
    } else {
        let f = ahead[0];
        let rest = ahead.subrange(1, ahead.len() as int);
        assert(s.todo[0] == step_of(f));
        assert(s.todo.skip(1) =~= steps_of(rest));
        assert(rest =~= ahead.skip(1));
        match f {
            Found::Skip(p, reason) => {
                lemma_outcome_note(s.result, f);
                error::merge_is_associative(s.result, outcome_of(f), outcome_of_all(rest));
                advancing_keeps_the_total(
                    SweepView { todo: s.todo.skip(1), result: s.result.with_skip(p, reason) },
                    rest,
                )
            },
            Found::Fail(e) => {
                lemma_outcome_note(s.result, f);
                error::merge_is_associative(s.result, outcome_of(f), outcome_of_all(rest));
                advancing_keeps_the_total(
                    SweepView { todo: s.todo.skip(1), result: s.result.with_error(e) },
                    rest,
                )
            },
            _ => ahead,
        }
    }
}

/// Entering a directory keeps the total of a sweep: the steps for what is inside
/// stand before all others, so the tree is walked depth first.
pub proof fn entering_keeps_the_total(s: SweepView, dir: Found, rest: Seq<Found>)
    requires
        dir is Dir,
        s.todo == steps_of(rest),
    ensures
        ({
            let inside = dir->Dir_1;
            &&& steps_of(inside) + s.todo == steps_of(inside + rest)
            &&& s.result.merged(outcome_of_all(inside + rest)) == s.result.merged(
                outcome_of_all(seq![dir] + rest),
            )
        }),
{
    let inside = dir->Dir_1;
    assert(steps_of(inside) + s.todo =~= steps_of(inside + rest));
    outcomes_add_up(inside, rest);
    assert(outcome_of(dir) == outcome_of_all(inside));
    assert((seq![dir] + rest)[0] == dir);
    assert((seq![dir] + rest).subrange(1, (seq![dir] + rest).len() as int) =~= rest);
}

/// Removing a path keeps the total of a sweep.
pub proof fn removing_keeps_the_total(s: SweepView, gone: Found, rest: Seq<Found>)
    requires
        gone is Gone,
        s.todo == steps_of(rest),
    ensures
        s.result.merged(gone->Gone_1).merged(outcome_of_all(rest)) == s.result.merged(
            outcome_of_all(seq![gone] + rest),
        ),
{
    assert((seq![gone] + rest)[0] == gone);
    assert((seq![gone] + rest).subrange(1, (seq![gone] + rest).len() as int) =~= rest);
    assert(outcome_of(gone) == gone->Gone_1);
    error::merge_is_associative(s.result, gone->Gone_1, outcome_of_all(rest));
}

/// How much there is to be found.
pub open spec fn extent(f: Found) -> nat
    decreases f,
{
    match f {
        Found::Dir(_, inside) => 1 + extent_of_all(inside),
        _ => 1,
    }
}

/// How much there is to be found in all.
pub open spec fn extent_of_all(fs: Seq<Found>) -> nat
    decreases fs, fs.len(),
    when fs.len() >= 0
{
    if fs.len() == 0 {
        0
    } else {
        extent(fs[0]) + extent_of_all(fs.subrange(1, fs.len() as int))
    }
}

/// A sweep after its next question was answered: a directory is listed, and the steps
/// for what is inside come first, or a path is removed, and the outcome is added. With it
/// what is still to be found.
pub open spec fn went_on(s: SweepView, ahead: Seq<Found>) -> (SweepView, Seq<Found>) {
    let (after, task) = advanced(s);
    let left = past_notes(ahead);
    match task {
        None => (after, left),
        Some(_) => match left[0] {
            Found::Dir(_, inside) => (
                SweepView { todo: steps_of(inside) + after.todo, ..after },
                inside + left.skip(1),
            ),
            Found::Gone(_, outcome) => (
                SweepView { result: after.result.merged(outcome), ..after },
                left.skip(1),
            ),
            _ => (after, left),
        },
    }
}

/// What a sweep comes to after so many answers.
pub open spec fn swept(s: SweepView, ahead: Seq<Found>, n: nat) -> SweepView
    decreases n,
{
    if n == 0 {
        s
    } else {
        let (after, left) = went_on(s, ahead);
        swept(after, left, (n - 1) as nat)
    }
}

proof fn lemma_extents_add_up(a: Seq<Found>, b: Seq<Found>)
    ensures
        extent_of_all(a + b) == extent_of_all(a) + extent_of_all(b),
    decreases a.len(),
{
    if a.len() == 0 {
        assert(a + b =~= b);
    } else {
        let rest = a.subrange(1, a.len() as int);
        assert((a + b).subrange(1, (a + b).len() as int) =~= rest + b);
        lemma_extents_add_up(rest, b);
    }
}

proof fn lemma_past_notes(ahead: Seq<Found>)
    ensures
        extent_of_all(past_notes(ahead)) <= extent_of_all(ahead),
    decreases ahead.len(),
{
    if ahead.len() > 0 {
        assert(ahead.subrange(1, ahead.len() as int) =~= ahead.skip(1));
        lemma_past_notes(ahead.skip(1));
    }
}

proof fn lemma_went_on(s: SweepView, ahead: Seq<Found>)
    requires
        s.todo == steps_of(ahead),
    ensures
        ({
            let (after, left) = went_on(s, ahead);
            &&& after.todo == steps_of(left)
            &&& after.result.merged(outcome_of_all(left)) == s.result.merged(outcome_of_all(ahead))
            &&& extent_of_all(left) < extent_of_all(ahead) || left.len() == 0
        }),
{
    let left = advancing_keeps_the_total(s, ahead);
    let (after, task) = advanced(s);
    lemma_past_notes(ahead);
    if task is None {
        assert(steps_of(left) =~= Seq::<StepView>::empty());
        assert(after.todo =~= steps_of(left));
    } else {
        let first = left[0];
        let rest = left.skip(1);
        assert(left.subrange(1, left.len() as int) =~= rest);
        assert(seq![first] + rest =~= left);
        assert(extent_of_all(left) == extent(first) + extent_of_all(rest));
        assert(extent(first) >= 1);
        match first {
            Found::Dir(_, inside) => {
                lemma_extents_add_up(inside, rest);
                entering_keeps_the_total(after, first, rest);
            },
            Found::Gone(_, _) => {
                removing_keeps_the_total(after, first, rest);
            },
            _ => {},
        }
    }
}

/// A whole sweep comes to its end, and to what its parts come to: with as many answers as
/// there is to be found nothing is left to be done, and the result is that of every step
/// in the tree, in order and each once.
pub proof fn whole_sweep_adds_up(s: SweepView, ahead: Seq<Found>, n: nat)
    requires
        s.todo == steps_of(ahead),
        n > extent_of_all(ahead),
    ensures
        swept(s, ahead, n).todo.len() == 0,
        swept(s, ahead, n).result == s.result.merged(outcome_of_all(ahead)),
    decreases n,
{
    lemma_went_on(s, ahead);
    let (after, left) = went_on(s, ahead);
    if left.len() == 0 {
        lemma_nothing_left(after, left, (n - 1) as nat);
        error::merge_is_associative(after.result, after.result, after.result);
        assert(outcome_of_all(left) == RemoveView::nothing());
    } else {
        whole_sweep_adds_up(after, left, (n - 1) as nat);
    }
}

proof fn lemma_nothing_left(s: SweepView, ahead: Seq<Found>, n: nat)
    requires
        s.todo.len() == 0,
        ahead.len() == 0,
    ensures
        swept(s, ahead, n) == s,
    decreases n,
{
    if n > 0 {
        lemma_nothing_left(s, ahead, (n - 1) as nat);
    }
}

/// An age sweep removes only files that were last changed before the cutoff, carry an
/// extension asked for, and are not protected.
pub proof fn age_sweep_spares_the_young(
    root: Seq<char>,
    is_dir: bool,
    entries: Seq<EntryView>,
    rule: AgeRuleView,
    codes: OsCodes,
    path: Seq<char>,
)
    requires
        age_sweep(root, is_dir, Ok(entries), rule, codes).contains(StepView::Remove(path)),
    ensures
        !guard::protected(path),
        ext_fits(path, rule.exts),
        exists|i: int|
            0 <= i < entries.len() && (#[trigger] entries[i]).path == path && (entries[i].meta matches Ok(m)
                && !m.is_dir && (m.modified matches Ok(t) && !clock::not_before(t, rule.cutoff))),
{
    lemma_age_steps_origin(entries, rule, codes, StepView::Remove(path));
}

proof fn lemma_age_steps_origin(
    entries: Seq<EntryView>,
    rule: AgeRuleView,
    codes: OsCodes,
    step: StepView,
)
    requires
        age_steps(entries, rule, codes).contains(step),
    ensures
        exists|i: int|
            0 <= i < entries.len() && age_step(#[trigger] entries[i], rule, codes) == Some(step),
    decreases entries.len(),
{
    let before = age_steps(entries.drop_last(), rule, codes);
    let all = age_steps(entries, rule, codes);
    let k = choose|k: int| 0 <= k < all.len() && all[k] == step;
    if k < before.len() {
        assert(before[k] == step);
        lemma_age_steps_origin(entries.drop_last(), rule, codes, step);
        let i = choose|i: int|
            0 <= i < entries.len() - 1 && age_step(
                #[trigger] entries.drop_last()[i],
                rule,
                codes,
            ) == Some(step);
        assert(entries[i] == entries.drop_last()[i]);
    } else {
        assert(entries[entries.len() - 1] == entries.last());
    }
}

proof fn lemma_age_steps_hold(
    entries: Seq<EntryView>,
    rule: AgeRuleView,
    codes: OsCodes,
    i: int,
    step: StepView,
)
    requires
        0 <= i < entries.len(),
        age_step(entries[i], rule, codes) == Some(step),
    ensures
        age_steps(entries, rule, codes).contains(step),
    decreases entries.len(),
{
    let before = age_steps(entries.drop_last(), rule, codes);
    let all = age_steps(entries, rule, codes);
    if i < entries.len() - 1 {
        lemma_age_steps_hold(entries.drop_last(), rule, codes, i, step);
        let k = choose|k: int| 0 <= k < before.len() && before[k] == step;
        assert(all[k] == step);
    } else {
        assert(all[before.len() as int] == step);
    }
}

proof fn lemma_age_steps_few(entries: Seq<EntryView>, rule: AgeRuleView, codes: OsCodes)
    ensures
        age_steps(entries, rule, codes).len() <= entries.len(),
    decreases entries.len(),
{
    if entries.len() > 0 {
        lemma_age_steps_few(entries.drop_last(), rule, codes);
    }
}

/// An age sweep leaves out nothing that it is for. In a directory that is not protected,
/// every readable entry that is not protected either is dealt with: under a recursive rule
/// each directory is entered, whatever extensions are asked for, and each file goes that
/// was last changed before the cutoff and carries an extension asked for, if any are. What
/// cannot be read is noted as a failure.
pub proof fn age_sweep_takes_what_is_old(
    root: Seq<char>,
    entries: Seq<EntryView>,
    rule: AgeRuleView,
    codes: OsCodes,
    i: int,
)
    requires
        !guard::protected(root),
        0 <= i < entries.len(),
        !guard::protected(entries[i].path),
    ensures
        ({
            let steps = age_sweep(root, true, Ok(entries), rule, codes);
            let path = entries[i].path;
            let ext = match paths::path_ext(path) {
                Some(e) => e,
                None => Seq::empty(),
            };
            &&& steps.len() <= entries.len()
            &&& match entries[i].meta {
                Ok(m) => if m.is_dir {
                    rule.recursive ==> steps.contains(StepView::Descend(path))
                } else {
                    match m.modified {
                        Ok(t) => (t.secs < rule.cutoff.secs || (t.secs == rule.cutoff.secs
                            && t.nanos < rule.cutoff.nanos)) && (rule.exts matches Some(list)
                            ==> list.contains(ext)) ==> steps.contains(StepView::Remove(path)),
                        Err(f) => steps.contains(
                            StepView::Fail(error::classified(f, path, codes)),
                        ),
                    }
                },
                Err(f) => steps.contains(StepView::Fail(error::classified(f, path, codes))),
            }
        }),
{
    lemma_age_steps_few(entries, rule, codes);
    match age_step(entries[i], rule, codes) {
        Some(step) => {
            lemma_age_steps_hold(entries, rule, codes, i, step);
        },
        None => {},
    }
}

/// An age sweep enters only directories that it found, that are not protected, and only
/// under a recursive rule.
pub proof fn age_sweep_enters_only_directories(
    root: Seq<char>,
    entries: Seq<EntryView>,
    rule: AgeRuleView,
    codes: OsCodes,
    path: Seq<char>,
)
    requires
        age_sweep(root, true, Ok(entries), rule, codes).contains(StepView::Descend(path)),
    ensures
        rule.recursive,
        !guard::protected(root),
        !guard::protected(path),
        exists|i: int|
            0 <= i < entries.len() && (#[trigger] entries[i]).path == path && (entries[i].meta matches Ok(m)
                && m.is_dir),
{
    lemma_age_steps_origin(entries, rule, codes, StepView::Descend(path));
}

proof fn lemma_choice_steps(
    entries: Seq<EntryView>,
    kept: Seq<bool>,
    recursive: bool,
    codes: OsCodes,
    step: StepView,
)
    requires
        kept.len() == entries.len(),
    ensures
        choice_steps(entries, kept, recursive, codes).contains(step) <==> exists|i: int|
            0 <= i < entries.len() && choice_step(#[trigger] entries[i], kept[i], recursive, codes)
                == Some(step),
        choice_steps(entries, kept, recursive, codes).len() <= entries.len(),
    decreases entries.len(),
{
    if entries.len() > 0 {
        let rest = entries.drop_last();
        let before = choice_steps(rest, kept.drop_last(), recursive, codes);
        let all = choice_steps(entries, kept, recursive, codes);
        lemma_choice_steps(rest, kept.drop_last(), recursive, codes, step);
        assert(entries[entries.len() - 1] == entries.last());
        if all.contains(step) {
            let k = choose|k: int| 0 <= k < all.len() && all[k] == step;
            if k < before.len() {
                assert(before[k] == step);
                let i = choose|i: int|
                    0 <= i < rest.len() && choice_step(
                        #[trigger] rest[i],
                        kept.drop_last()[i],
                        recursive,
                        codes,
                    ) == Some(step);
                assert(entries[i] == rest[i]);
            }
        }
        if exists|i: int|
            0 <= i < entries.len() && choice_step(#[trigger] entries[i], kept[i], recursive, codes)
                == Some(step) {
            let i = choose|i: int|
                0 <= i < entries.len() && choice_step(
                    #[trigger] entries[i],
                    kept[i],
                    recursive,
                    codes,
                ) == Some(step);
            if i < rest.len() {
                assert(rest[i] == entries[i]);
                assert(kept.drop_last()[i] == kept[i]);
                let k = choose|k: int| 0 <= k < before.len() && before[k] == step;
                assert(all[k] == step);
            } else {
                assert(all[before.len() as int] == step);
            }
        }
    }
}

/// A sweep by choice removes exactly the readable entries that are no directories and are
/// not kept, and enters exactly the readable directories, where it is recursive.
pub proof fn choice_sweep_is_exact(
    root: Seq<char>,
    entries: Seq<EntryView>,
    kept: Seq<bool>,
    recursive: bool,
    codes: OsCodes,
    path: Seq<char>,
)
    requires
        kept.len() == entries.len(),
    ensures
        ({
            let steps = choice_sweep(Ok(entries), root, kept, recursive, codes);
            &&& steps.len() <= entries.len()
            &&& steps.contains(StepView::Remove(path)) <==> exists|i: int|
                0 <= i < entries.len() && (#[trigger] entries[i]).path == path && !kept[i] && (
                entries[i].meta matches Ok(m) && !m.is_dir)
            &&& steps.contains(StepView::Descend(path)) <==> recursive && exists|i: int|
                0 <= i < entries.len() && (#[trigger] entries[i]).path == path && (
                entries[i].meta matches Ok(m) && m.is_dir)
        }),
{
    lemma_choice_steps(entries, kept, recursive, codes, StepView::Remove(path));
    lemma_choice_steps(entries, kept, recursive, codes, StepView::Descend(path));
    let steps = choice_sweep(Ok(entries), root, kept, recursive, codes);
    if exists|i: int|
        0 <= i < entries.len() && (#[trigger] entries[i]).path == path && !kept[i] && (
        entries[i].meta matches Ok(m) && !m.is_dir) {
        let i = choose|i: int|
            0 <= i < entries.len() && (#[trigger] entries[i]).path == path && !kept[i] && (
            entries[i].meta matches Ok(m) && !m.is_dir);
        assert(choice_step(entries[i], kept[i], recursive, codes) == Some(StepView::Remove(path)));
    }
    if recursive && exists|i: int|
        0 <= i < entries.len() && (#[trigger] entries[i]).path == path && (
        entries[i].meta matches Ok(m) && m.is_dir) {
        let i = choose|i: int|
            0 <= i < entries.len() && (#[trigger] entries[i]).path == path && (
            entries[i].meta matches Ok(m) && m.is_dir);
        assert(choice_step(entries[i], kept[i], recursive, codes) == Some(StepView::Descend(path)));
    }
}

/// Exactly those files are removed by an age sweep that are not protected, were changed
/// before the cutoff, and have one of the extensions, where extensions are given; a file
/// without one counts as having an empty one.
pub proof fn age_sweep_is_exact(
    entries: Seq<EntryView>,
    rule: AgeRuleView,
    codes: OsCodes,
    path: Seq<char>,
)
    ensures
        age_steps(entries, rule, codes).contains(StepView::Remove(path)) <==> exists|i: int|
            0 <= i < entries.len() && (#[trigger] entries[i]).path == path && !guard::protected(
                path,
            ) && (entries[i].meta matches Ok(m) && !m.is_dir && (m.modified matches Ok(t) && (t.secs
                < rule.cutoff.secs || (t.secs == rule.cutoff.secs && t.nanos
                < rule.cutoff.nanos)))) && (rule.exts matches Some(list) ==> list.contains(
                match paths::path_ext(path) {
                    Some(e) => e,
                    None => Seq::empty(),
                },
            )),
        age_steps(entries, rule, codes).contains(StepView::Skip(path, SkipReason::HardBlocked))
            <==> exists|i: int|
            0 <= i < entries.len() && (#[trigger] entries[i]).path == path && guard::protected(
                path,
            ),
    decreases entries.len(),
{
    if entries.len() > 0 {
        let rest = entries.drop_last();
        let last = entries.last();
        let before = age_steps(rest, rule, codes);
        let all = age_steps(entries, rule, codes);
        age_sweep_is_exact(rest, rule, codes, path);
        lemma_contains_maybe(before, age_step(last, rule, codes), StepView::Remove(path));
        lemma_contains_maybe(
            before,
            age_step(last, rule, codes),
            StepView::Skip(path, SkipReason::HardBlocked),
        );
        assert(entries[entries.len() - 1] == last);
        assert(forall|i: int| 0 <= i < rest.len() ==> #[trigger] rest[i] == entries[i]);
        assert(forall|i: int| 0 <= i < rest.len() ==> #[trigger] entries[i] == rest[i]);
    }
}

proof fn lemma_contains_maybe(steps: Seq<StepView>, next: Option<StepView>, x: StepView)
    ensures
        and_then_maybe(steps, next).contains(x) <==> steps.contains(x) || next == Some(x),
{
    let all = and_then_maybe(steps, next);
    if steps.contains(x) {
        let k = choose|k: int| 0 <= k < steps.len() && steps[k] == x;
        assert(all[k] == x);
    }
    if next == Some(x) {
        assert(all[steps.len() as int] == x);
    }
    if all.contains(x) {
        let k = choose|k: int| 0 <= k < all.len() && all[k] == x;
        if k < steps.len() {
            assert(steps[k] == x);
        }
    }
}

/// A sweep that cannot begin says why: a protected directory is passed over, one that
/// cannot be listed is an error, and what is no directory is nothing to sweep.
pub proof fn sweeps_say_why_they_stop(
    root: Seq<char>,
    listing: Result<Seq<EntryView>, IoView>,
    e: IoView,
    rule: AgeRuleView,
    kept: Seq<bool>,
    recursive: bool,
    codes: OsCodes,
)
    ensures
        guard::protected(root) ==> age_sweep(root, true, listing, rule, codes) == seq![
            StepView::Skip(root, SkipReason::HardBlocked),
        ] && age_sweep(root, false, listing, rule, codes) == seq![
            StepView::Skip(root, SkipReason::HardBlocked),
        ],
        !guard::protected(root) ==> age_sweep(root, false, listing, rule, codes).len() == 0,
        !guard::protected(root) ==> age_sweep(root, true, Err(e), rule, codes) == seq![
            StepView::Fail(error::classified(e, root, codes)),
        ],
        choice_sweep(Err(e), root, kept, recursive, codes) == seq![
            StepView::Fail(error::classified(e, root, codes)),
        ],
{
}

/// One more entry adds at most one step, behind those of the others: sweeps go in the
/// order in which a directory is listed. An entry that cannot be looked at is an error.
pub proof fn sweeps_keep_the_order(
    entries: Seq<EntryView>,
    e: EntryView,
    rule: AgeRuleView,
    kept: Seq<bool>,
    keep: bool,
    recursive: bool,
    codes: OsCodes,
)
    requires
        kept.len() == entries.len(),
    ensures
        age_steps(entries, rule, codes).is_prefix_of(age_steps(entries.push(e), rule, codes)),
        age_steps(entries.push(e), rule, codes).len() <= age_steps(entries, rule, codes).len() + 1,
        choice_steps(entries, kept, recursive, codes).is_prefix_of(
            choice_steps(entries.push(e), kept.push(keep), recursive, codes),
        ),
        choice_steps(entries.push(e), kept.push(keep), recursive, codes).len() <= choice_steps(
            entries,
            kept,
            recursive,
            codes,
        ).len() + 1,
        e.meta matches Err(f) ==> choice_steps(
            entries.push(e),
            kept.push(keep),
            recursive,
            codes,
        ).last() == StepView::Fail(error::classified(f, e.path, codes)),
        age_steps(Seq::empty(), rule, codes).len() == 0,
        choice_steps(Seq::empty(), Seq::empty(), recursive, codes).len() == 0,
{
    let more = entries.push(e);
    assert(more.drop_last() =~= entries);
    assert(kept.push(keep).drop_last() =~= kept);
    let a = age_steps(entries, rule, codes);
    let b = age_steps(more, rule, codes);
    assert(b.subrange(0, a.len() as int) =~= a);
    let c = choice_steps(entries, kept, recursive, codes);
    let d = choice_steps(more, kept.push(keep), recursive, codes);
    assert(d.subrange(0, c.len() as int) =~= c);
}

/// Whatever a sweep comes across is in its outcome: a path passed over with its reason, a
/// failure as an error or, where it is harmless, passed over, a removal with all that came
/// of it, and a directory with all that is inside, in this order.
pub proof fn outcomes_hold_every_part(
    p: Seq<char>,
    reason: SkipReason,
    outcome: RemoveView,
    inside: Seq<Found>,
    e: ErrorView,
)
    ensures
        outcome_of(Found::Skip(p, reason)) == (RemoveView {
            freed: 0,
            skipped: seq![SkipView { path: p, reason }],
            errors: Seq::empty(),
        }),
        error::demoted(e) is None ==> outcome_of(Found::Fail(e)) == (RemoveView {
            freed: 0,
            skipped: Seq::empty(),
            errors: seq![e],
        }),
        error::demoted(e) matches Some(s) ==> outcome_of(Found::Fail(e)) == (RemoveView {
            freed: 0,
            skipped: seq![s],
            errors: Seq::empty(),
        }),
        outcome_of(Found::Gone(p, outcome)) == outcome,
        outcome_of(Found::Dir(p, inside)) == outcome_of_all(inside),
        outcome_of_all(Seq::empty()) == (RemoveView {
            freed: 0,
            skipped: Seq::empty(),
            errors: Seq::empty(),
        }),
{
    assert(Seq::<SkipView>::empty().push(SkipView { path: p, reason }) =~= seq![
        SkipView { path: p, reason },
    ]);
    assert(Seq::<ErrorView>::empty().push(e) =~= seq![e]);
    if let Some(s) = error::demoted(e) {
        assert(Seq::<SkipView>::empty().push(s) =~= seq![s]);
    }
}

} // verus!
