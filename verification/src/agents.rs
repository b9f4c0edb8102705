//! Launch agents: where they are, what they start, and which of them are broken.

use vstd::prelude::*;
use crate::command::{command, CommandLine};
use crate::plan::{Action, ActionView};
use crate::{guard, paths, plan, text};

verus! {

broadcast use crate::text::group_views;

/// Where the launch agents of the user are.
pub fn agent_dir(home: &str) -> (r: String)
    ensures
        r@ == paths::joined(home@, "Library/LaunchAgents"@),
{
    paths::home_join(home, "Library/LaunchAgents")
}

/// The label of the agent that a file defines: its stem, where it is a property list.
pub open spec fn label_at(path: Seq<char>) -> Option<Seq<char>> {
    match paths::base_name(path) {
        Some(name) => if paths::ext_of(name) == Some("plist"@) {
            Some(paths::stem_of(name))
        } else {
            None
        },
        None => None,
    }
}

/// The label of the agent that a file defines.
pub fn agent_label(path: &str) -> (r: Option<String>)
    ensures
        text::opt_view(r) == label_at(path@),
{
    match paths::file_name(path) {
        Some(name) => match paths::name_ext(name.as_str()) {
            Some(ext) => if text::same(ext.as_str(), "plist") {
                Some(paths::name_stem(name.as_str()))
            } else {
                None
            },
            None => None,
        },
        None => None,
    }
}

// ── what an agent starts ─────────────────────────────────────────────────────

/// The question for the first argument of the program that an agent starts.
pub fn ask_arguments(plist: &str) -> (r: CommandLine)
    ensures
        r@ == (
            "/usr/libexec/PlistBuddy"@,
            seq!["-c"@, "Print :ProgramArguments:0"@, plist@],
        ),
{
    let r = command("/usr/libexec/PlistBuddy", &["-c", "Print :ProgramArguments:0", plist]);
    assert(r@.1 =~= seq!["-c"@, "Print :ProgramArguments:0"@, plist@]);
    r
}

/// The question for the program that an agent starts.
pub fn ask_program(plist: &str) -> (r: CommandLine)
    ensures
        r@ == ("/usr/libexec/PlistBuddy"@, seq!["-c"@, "Print :Program"@, plist@]),
{
    let r = command("/usr/libexec/PlistBuddy", &["-c", "Print :Program", plist]);
    assert(r@.1 =~= seq!["-c"@, "Print :Program"@, plist@]);
    r
}

/// What is known of the program that an agent starts.
pub enum Binary {
    /// It has to be asked for, by [`ask_program`].
    AskProgram,
    /// Its path.
    Known(String),
    /// Nothing.
    Unknown,
}

/// The view of a [`Binary`].
pub enum BinaryView {
    AskProgram,
    Known(Seq<char>),
    Unknown,
}

impl View for Binary {
    type V = BinaryView;

    open spec fn view(&self) -> BinaryView {
        match self {
            Binary::AskProgram => BinaryView::AskProgram,
            Binary::Known(p) => BinaryView::Known(p@),
            Binary::Unknown => BinaryView::Unknown,
        }
    }
}

/// What is known of the program, given the reply to [`ask_arguments`] and, where it was
/// asked, that to [`ask_program`]. A reply is missing where the tool could not be run.
pub open spec fn binary_known(
    arguments: Option<Seq<char>>,
    program: Option<Option<Seq<char>>>,
) -> BinaryView {
    match arguments {
        None => BinaryView::Unknown,
        Some(a) => if text::trim(a).len() > 0 {
            BinaryView::Known(text::trim(a))
        } else {
            match program {
                None => BinaryView::AskProgram,
                Some(None) => BinaryView::Unknown,
                Some(Some(p)) => if text::trim(p).len() > 0 {
                    BinaryView::Known(text::trim(p))
                } else {
                    BinaryView::Unknown
                },
            }
        },
    }
}

/// What is known of the program that an agent starts.
pub fn plist_get_binary(arguments: &Option<String>, program: &Option<Option<String>>) -> (r: Binary)
    ensures
        r@ == binary_known(
            text::opt_view(*arguments),
            match *program {
                Some(reply) => Some(text::opt_view(reply)),
                None => None,
            },
        ),
{
    match arguments {
        None => Binary::Unknown,
        Some(a) => {
            let t = text::trimmed(a.as_str());
            if !t.as_str().is_empty() {
                return Binary::Known(t);
            }
            match program {
                None => Binary::AskProgram,
                Some(reply) => match reply {
                    None => Binary::Unknown,
                    Some(p) => {
                        let u = text::trimmed(p.as_str());
                        if !u.as_str().is_empty() {
                            Binary::Known(u)
                        } else {
                            Binary::Unknown
                        }
                    },
                },
            }
        },
    }
}

// ── broken agents ────────────────────────────────────────────────────────────

/// A broken agent is unloaded and its file deleted, unless the file is protected.
pub open spec fn unload_plan(plist: Seq<char>) -> Seq<ActionView> {
    if guard::protected(plist) {
        Seq::empty()
    } else {
        seq![
            ActionView::Run("launchctl"@, seq!["unload"@, plist]),
            ActionView::DeleteFile(plist),
        ]
    }
}

/// The file defines an agent that is not the system's own.
pub open spec fn foreign_agent(plist: Seq<char>) -> bool {
    label_at(plist) is Some && !"com.apple."@.is_prefix_of(paths::base_name(plist)->0)
}

/// Whether the file defines an agent that is not the system's own. Only such agents are
/// looked at.
pub fn is_foreign_agent(plist: &str) -> (r: bool)
    ensures
        r == foreign_agent(plist@),
{
    match paths::file_name(plist) {
        Some(name) => match paths::name_ext(name.as_str()) {
            Some(ext) => text::same(ext.as_str(), "plist") && !text::starts_with(
                name.as_str(),
                "com.apple.",
            ),
            None => false,
        },
        None => false,
    }
}

/// What is done about an agent: a broken one, whose program is known and gone, is
/// unloaded and deleted.
pub open spec fn broken_plan(plist: Seq<char>, binary: BinaryView, present: bool) -> Seq<ActionView> {
    if foreign_agent(plist) && binary is Known && !present {
        unload_plan(plist)
    } else {
        Seq::empty()
    }
}

/// What is done about an agent. Whether its program is present counts only where it is known.
pub fn remove_broken_launch_agent(plist: &str, binary: &Binary, present: bool) -> (r: Vec<Action>)
    ensures
        text::views(r@) == broken_plan(plist@, binary@, present),
{
    let mut r: Vec<Action> = Vec::new();
    let known: bool = match binary {
        Binary::Known(_) => true,
        _ => false,
    };
    if is_foreign_agent(plist) && known && !present && !guard::is_protected(plist) {
        r.push(plan::run2("launchctl", "unload", plist));
        r.push(Action::DeleteFile(text::owned(plist)));
    }
    assert(text::views(r@) =~= broken_plan(plist@, binary@, present));
    r
}

/// An agent is left alone unless its program is known to be gone; the system's own and
/// protected ones always are.
pub proof fn sound_agents_stay(plist: Seq<char>, binary: BinaryView, present: bool)
    requires
        present || !(binary is Known) || guard::protected(plist) || !foreign_agent(plist),
    ensures
        broken_plan(plist, binary, present) == Seq::<ActionView>::empty(),
{
}

/// What an agent starts is its first argument, without white space around it; where it
/// gives none, its program; and unknown where the tools say nothing.
pub proof fn the_first_argument_counts(a: Seq<char>, p: Seq<char>)
    ensures
        text::trim(a).len() > 0 ==> binary_known(Some(a), None) == BinaryView::Known(text::trim(a))
            && binary_known(Some(a), Some(Some(p))) == BinaryView::Known(text::trim(a)),
        text::trim(a).len() == 0 ==> binary_known(Some(a), None) == BinaryView::AskProgram,
        text::trim(a).len() == 0 && text::trim(p).len() > 0 ==> binary_known(
            Some(a),
            Some(Some(p)),
        ) == BinaryView::Known(text::trim(p)),
        text::trim(a).len() == 0 && text::trim(p).len() == 0 ==> binary_known(
            Some(a),
            Some(Some(p)),
        ) == BinaryView::Unknown,
        binary_known(None, None) == BinaryView::Unknown,
{
}

/// A broken agent goes: one whose file is a property list not named `com.apple.` at its
/// start, whose program is known and gone, is unloaded and deleted, unless it is protected.
pub proof fn broken_agents_go(plist: Seq<char>, name: Seq<char>, program: Seq<char>)
    requires
        paths::base_name(plist) == Some(name),
        paths::ext_of(name) == Some("plist"@),
        !"com.apple."@.is_prefix_of(name),
        !guard::protected(plist),
    ensures
        label_at(plist) == Some(paths::stem_of(name)),
        broken_plan(plist, BinaryView::Known(program), false) == seq![
            ActionView::Run("launchctl"@, seq!["unload"@, plist]),
            ActionView::DeleteFile(plist),
        ],
{
}

/// Exactly those agents are broken whose file is a property list, has no name that begins
/// with `com.apple.`, is not protected, and starts a program that is known and gone.
pub proof fn which_agents_are_broken(plist: Seq<char>, binary: BinaryView, present: bool)
    ensures
        broken_plan(plist, binary, present).len() > 0 <==> (paths::base_name(plist) matches Some(
            name,
        ) && paths::ext_of(name) == Some("plist"@) && !"com.apple."@.is_prefix_of(name))
            && binary is Known && !present && !guard::protected(plist),
        broken_plan(plist, binary, present).len() > 0 ==> broken_plan(plist, binary, present)
            == seq![
            ActionView::Run("launchctl"@, seq!["unload"@, plist]),
            ActionView::DeleteFile(plist),
        ],
{
}

/// A property list defines the agent that it is named after, wherever it lies, and nothing
/// else defines one.
pub proof fn labels_are_names_of_property_lists(dir: Seq<char>, label: Seq<char>, path: Seq<char>)
    requires
        label.len() > 0,
        !label.contains('/'),
    ensures
        label_at(dir + seq!['/'] + (label + ".plist"@)) == Some(label),
        paths::path_ext(path) != Some("plist"@) ==> label_at(path) is None,
{
    reveal_strlit(".plist");
    reveal_strlit("plist");
    let ext = "plist"@;
    let name = label + ".plist"@;
    assert(name =~= label + seq!['.'] + ext);
    assert(ext.len() == 5);
    assert(!ext.contains('.') && !ext.contains('/'));
    paths::extensions_follow_the_last_dot(label, ext, dir);
    assert forall|i: int| 0 <= i < name.len() implies name[i] != '/' by {
        if i < label.len() {
            assert(label.contains(label[i]));
        }
    }
    paths::names_stand_at_the_end(dir, name);
}

} // verus!
