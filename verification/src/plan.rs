//! Plans: what is to be done, in order.

use vstd::prelude::*;
use crate::command::{command, CommandLine};
use crate::text;

verus! {

broadcast use crate::text::group_views;

/// One thing to be done. What a tool replies and whether a deletion succeeds is of
/// no concern to the rest of the plan.
pub enum Action {
    /// Run a tool.
    Run(CommandLine),
    /// Wait for so many milliseconds.
    Pause(u64),
    /// Wait for so many seconds.
    Wait(u64),
    /// Remove a path if it is there, with all the care of a removal.
    Remove(String),
    /// Delete a single file.
    DeleteFile(String),
    /// Delete a directory with all that is in it.
    DeleteTree(String),
    /// Unload and delete the launch items of a bundle.
    RemoveLaunchItems(String),
}

/// The view of an [`Action`].
pub enum ActionView {
    Run(Seq<char>, Seq<Seq<char>>),
    Pause(int),
    Wait(int),
    Remove(Seq<char>),
    DeleteFile(Seq<char>),
    DeleteTree(Seq<char>),
    RemoveLaunchItems(Seq<char>),
}

impl View for Action {
    type V = ActionView;

    open spec fn view(&self) -> ActionView {
        match self {
            Action::Run(c) => ActionView::Run(c@.0, c@.1),
            Action::Pause(ms) => ActionView::Pause(*ms as int),
            Action::Wait(secs) => ActionView::Wait(*secs as int),
            Action::Remove(p) => ActionView::Remove(p@),
            Action::DeleteFile(p) => ActionView::DeleteFile(p@),
            Action::DeleteTree(p) => ActionView::DeleteTree(p@),
            Action::RemoveLaunchItems(b) => ActionView::RemoveLaunchItems(b@),
        }
    }
}

/// Runs a tool without arguments.
pub fn run0(program: &str) -> (r: Action)
    ensures
        r@ == ActionView::Run(program@, Seq::empty()),
{
    let c = command(program, &[]);
    assert(c@.1 =~= Seq::<Seq<char>>::empty());
    Action::Run(c)
}

/// Runs a tool with one argument.
pub fn run1(program: &str, a: &str) -> (r: Action)
    ensures
        r@ == ActionView::Run(program@, seq![a@]),
{
    let c = command(program, &[a]);
    assert(c@.1 =~= seq![a@]);
    Action::Run(c)
}

/// Runs a tool with two arguments.
pub fn run2(program: &str, a: &str, b: &str) -> (r: Action)
    ensures
        r@ == ActionView::Run(program@, seq![a@, b@]),
{
    let c = command(program, &[a, b]);
    assert(c@.1 =~= seq![a@, b@]);
    Action::Run(c)
}

/// Runs a tool with three arguments.
pub fn run3(program: &str, a: &str, b: &str, c: &str) -> (r: Action)
    ensures
        r@ == ActionView::Run(program@, seq![a@, b@, c@]),
{
    let line = command(program, &[a, b, c]);
    assert(line@.1 =~= seq![a@, b@, c@]);
    Action::Run(line)
}

/// Runs a tool with four arguments.
pub fn run4(program: &str, a: &str, b: &str, c: &str, d: &str) -> (r: Action)
    ensures
        r@ == ActionView::Run(program@, seq![a@, b@, c@, d@]),
{
    let line = command(program, &[a, b, c, d]);
    assert(line@.1 =~= seq![a@, b@, c@, d@]);
    Action::Run(line)
}

/// `defaults write <domain> <key> <flag> <value>`.
pub open spec fn setting(domain: Seq<char>, key: Seq<char>, flag: Seq<char>, value: Seq<char>) -> ActionView {
    ActionView::Run("defaults"@, seq!["write"@, domain, key, flag, value])
}

/// `defaults write <domain> <key> <flag> <value>`.
pub fn defaults_write(domain: &str, key: &str, flag: &str, value: &str) -> (r: Action)
    ensures
        r@ == setting(domain@, key@, flag@, value@),
{
    let c = command("defaults", &["write", domain, key, flag, value]);
    assert(c@.1 =~= seq!["write"@, domain@, key@, flag@, value@]);
    Action::Run(c)
}

} // verus!
