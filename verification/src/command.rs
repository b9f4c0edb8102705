//! Command lines for the tools of the system.

use vstd::prelude::*;
use crate::text;

verus! {

/// A program and the arguments it is to be run with.
pub struct CommandLine {
    pub program: String,
    pub args: Vec<String>,
}

impl View for CommandLine {
    type V = (Seq<char>, Seq<Seq<char>>);

    open spec fn view(&self) -> (Seq<char>, Seq<Seq<char>>) {
        (self.program@, text::views(self.args@))
    }
}

/// What a tool came back with: whether it reported success, and what it printed.
pub struct ToolReply {
    pub success: bool,
    pub stdout: String,
}

/// The command line that runs `program` with `args`.
pub fn command(program: &str, args: &[&str]) -> (r: CommandLine)
    ensures
        r@ == (program@, text::views(args@)),
{
    broadcast use text::group_views;

    let mut list: Vec<String> = Vec::new();
    let mut i: usize = 0;
    assert(text::views(list@) =~= text::views(args@.take(0)));
    while i < args.len()
        invariant
            i <= args.len(),
            text::views(list@) == text::views(args@.take(i as int)),
        decreases args.len() - i,
    {
        let arg = text::owned(args[i]);
        list.push(arg);
        i = i + 1;
        assert(text::views(args@.take(i as int)) =~= text::views(args@.take(i - 1)).push(arg@));
    }
    assert(args@.take(i as int) =~= args@);
    CommandLine { program: text::owned(program), args: list }
}

} // verus!
