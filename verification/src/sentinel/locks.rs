//! File locks: which processes hold files of the user open and would lose data if they
//! were ended.

use vstd::prelude::*;
use crate::command::{command, CommandLine};
use crate::{paths, text};

verus! {

broadcast use crate::text::group_views;

// ── the processes with a name ────────────────────────────────────────────────

/// The numbers in the first `n` lines, in order. A line that holds none is left out.
pub open spec fn numbers_in(ls: Seq<Seq<char>>, n: int) -> Seq<nat>
    decreases n,
{
    if n <= 0 {
        Seq::empty()
    } else {
        let before = numbers_in(ls, n - 1);
        match text::number_of(text::trim(ls[n - 1]), u32::MAX as nat) {
            Some(pid) => before.push(pid),
            None => before,
        }
    }
}

/// Numbers as whole numbers.
pub open spec fn whole(pids: Seq<u32>) -> Seq<nat> {
    pids.map_values(|pid: u32| pid as nat)
}

/// The numbers of all processes in the reply to the question for them.
pub fn all_pids(reply: &str) -> (r: Vec<u32>)
    ensures
        whole(r@) == numbers_in(text::lines(reply@), text::lines(reply@).len() as int),
{
    let ls = text::lines_of(reply);
    let ghost all = text::lines(reply@);
    let mut r: Vec<u32> = Vec::new();
    let mut i: usize = 0;
    assert(whole(r@) =~= Seq::<nat>::empty());
    assert(text::views(ls@).len() == ls@.len());
    while i < ls.len()
        invariant
            i <= ls@.len(),
            ls@.len() == all.len(),
            text::views(ls@) == all,
            whole(r@) == numbers_in(all, i as int),
        decreases ls.len() - i,
    {
        assert(all[i as int] == ls@[i as int]@);
        let ghost before = r@;
        match text::parse_number(text::trimmed(ls[i].as_str()).as_str(), u32::MAX as u64) {
            Some(v) => {
                r.push(v as u32);
                assert(whole(r@) =~= whole(before).push(v as nat));
            },
            None => {},
        }
        i = i + 1;
    }
    r
}

// ── the bundle of a process ──────────────────────────────────────────────────

/// The question for the program that a process runs.
pub fn ask_executable(pid: u32) -> (r: CommandLine)
    ensures
        r@ == ("ps"@, seq!["-o"@, "comm="@, "-p"@, text::decimal(pid as nat)]),
{
    let number = text::decimal_of(pid as u64);
    let r = command("ps", &["-o", "comm=", "-p", number.as_str()]);
    assert(r@.1 =~= seq!["-o"@, "comm="@, "-p"@, number@]);
    r
}

/// The innermost application bundle that a program lies in; none where it lies in none.
pub open spec fn bundle_around(program: Seq<char>) -> Option<Seq<char>> {
    let i = text::last_occurrence(program, ".app/"@, 1 + program.len() as int);
    if i < 0 {
        None
    } else {
        Some(program.take(i + 4))
    }
}

/// The application bundle of a process, by the reply to [`ask_executable`].
pub fn bundle_of(reply: &str) -> (r: Option<String>)
    ensures
        text::opt_view(r) == bundle_around(text::trim(reply@)),
{
    let program = text::trimmed(reply);
    let x = text::chars_of(program.as_str());
    let n: usize = x.len();
    proof {
        reveal_strlit(".app/");
        assert(".app/"@.len() == 5);
    }
    match text::rfind(&x, ".app/") {
        Some(i) => {
            assert(i + 5 <= n);
            assert(x@.subrange(0, i + 4) =~= program@.take(i + 4));
            Some(text::string_of(&x, 0, i + 4))
        },
        None => None,
    }
}

// ── open files ───────────────────────────────────────────────────────────────

/// The question for the files that a process has open, one per line.
pub fn ask_open_files(pid: u32) -> (r: CommandLine)
    ensures
        r@ == ("lsof"@, seq!["-Fn"@, "-p"@, text::decimal(pid as nat)]),
{
    let number = text::decimal_of(pid as u64);
    let r = command("lsof", &["-Fn", "-p", number.as_str()]);
    assert(r@.1 =~= seq!["-Fn"@, "-p"@, number@]);
    r
}

/// Where users keep their files.
pub open spec fn user_data_dirs(home: Seq<char>) -> Seq<Seq<char>> {
    seq![
        paths::joined(home, "Desktop/"@),
        paths::joined(home, "Documents/"@),
        paths::joined(home, "Downloads/"@),
        paths::joined(home, "Movies/"@),
        paths::joined(home, "Music/"@),
        paths::joined(home, "Pictures/"@),
        paths::joined(home, "Library/Mobile Documents/"@),
    ]
}

fn data_dirs(home: &str) -> (r: Vec<String>)
    ensures
        text::views(r@) == user_data_dirs(home@),
{
    let mut r: Vec<String> = Vec::new();
    r.push(paths::home_join(home, "Desktop/"));
    r.push(paths::home_join(home, "Documents/"));
    r.push(paths::home_join(home, "Downloads/"));
    r.push(paths::home_join(home, "Movies/"));
    r.push(paths::home_join(home, "Music/"));
    r.push(paths::home_join(home, "Pictures/"));
    r.push(paths::home_join(home, "Library/Mobile Documents/"));
    assert(text::views(r@) =~= user_data_dirs(home@));
    r
}

/// The line names an open file below `dir`.
pub open spec fn names_file_below(line: Seq<char>, dir: Seq<char>) -> bool {
    ("n"@ + dir).is_prefix_of(line)
}

/// Some line names an open file of the user.
pub open spec fn user_files_in(ls: Seq<Seq<char>>, home: Seq<char>) -> bool {
    exists|i: int, j: int|
        0 <= i < ls.len() && 0 <= j < user_data_dirs(home).len() && names_file_below(
            #[trigger] ls[i],
            #[trigger] user_data_dirs(home)[j],
        )
}

/// Whether a process has files of the user open, by the reply to [`ask_open_files`]. No
/// reply counts as no.
pub fn has_user_files(reply: &Option<String>, home: &str) -> (r: bool)
    ensures
        r == (reply matches Some(s) && user_files_in(text::lines(s@), home@)),
{
    let Some(s) = reply else {
        return false;
    };
    let ls = text::lines_of(s.as_str());
    let dirs = data_dirs(home);
    let ghost all = text::lines(s@);
    let ghost places = user_data_dirs(home@);
    assert(text::views(ls@).len() == ls@.len());
    assert(text::views(dirs@).len() == dirs@.len());
    let mut i: usize = 0;
    while i < ls.len()
        invariant
            i <= ls@.len(),
            ls@.len() == all.len(),
            dirs@.len() == places.len(),
            text::views(ls@) == all,
            text::views(dirs@) == places,
            all == text::lines(s@),
            places == user_data_dirs(home@),
            reply == Some(*s),
            forall|k: int, j: int|
                0 <= k < i && 0 <= j < places.len() ==> !names_file_below(
                    #[trigger] all[k],
                    #[trigger] places[j],
                ),
        decreases ls.len() - i,
    {
        let line: &str = ls[i].as_str();
        assert(all[i as int] == line@);
        let mut j: usize = 0;
        while j < dirs.len()
            invariant
                i < all.len(),
                j <= dirs@.len(),
                dirs@.len() == places.len(),
                text::views(dirs@) == places,
                all == text::lines(s@),
                places == user_data_dirs(home@),
                reply == Some(*s),
                line@ == all[i as int],
                forall|m: int|
                    0 <= m < j ==> !names_file_below(all[i as int], #[trigger] places[m]),
            decreases dirs.len() - j,
        {
            assert(places[j as int] == dirs@[j as int]@);
            let start = text::join2("n", dirs[j].as_str());
            if text::starts_with(line, start.as_str()) {
                assert(names_file_below(all[i as int], places[j as int]));
                return true;
            }
            j = j + 1;
        }
        i = i + 1;
    }
    false
}

// ── the rule ─────────────────────────────────────────────────────────────────

/// What was found out about a process.
#[derive(Debug, Clone, Copy, PartialEq, Eq, Structural)]
pub struct Finding {
    /// It belongs to a bundle whose signature is intact.
    pub signed: bool,
    /// It has files of the user open.
    pub user_files: bool,
}

/// Ending the process risks the user's data: it belongs to an intact bundle and has files
/// of the user open.
pub open spec fn risks_data(f: Finding) -> bool {
    f.signed && f.user_files
}

/// Ending one of the processes risks the user's data.
pub open spec fn any_risks_data(found: Seq<Finding>) -> bool {
    exists|i: int| 0 <= i < found.len() && risks_data(#[trigger] found[i])
}

/// Whether ending one of the processes risks the user's data.
pub fn some_risk_data(found: &Vec<Finding>) -> (r: bool)
    ensures
        r == any_risks_data(found@),
{
    let mut i: usize = 0;
    while i < found.len()
        invariant
            i <= found@.len(),
            forall|j: int| 0 <= j < i ==> !risks_data(#[trigger] found@[j]),
        decreases found.len() - i,
    {
        if found[i].signed && found[i].user_files {
            assert(risks_data(found@[i as int]));
            return true;
        }
        i = i + 1;
    }
    false
}

/// Every line that is a number names a process, and no other line does.
pub proof fn every_number_is_a_process(ls: Seq<Seq<char>>, n: int, pid: nat)
    requires
        0 <= n <= ls.len(),
    ensures
        numbers_in(ls, n).contains(pid) <==> exists|i: int|
            0 <= i < n && text::number_of(text::trim(#[trigger] ls[i]), u32::MAX as nat) == Some(
                pid,
            ),
    decreases n,
{
    if n > 0 {
        let before = numbers_in(ls, n - 1);
        let all = numbers_in(ls, n);
        every_number_is_a_process(ls, n - 1, pid);
        if all.contains(pid) {
            let k = choose|k: int| 0 <= k < all.len() && all[k] == pid;
            if k < before.len() {
                assert(before[k] == pid);
            } else {
                assert(text::number_of(text::trim(ls[n - 1]), u32::MAX as nat) == Some(pid));
            }
        }
        if before.contains(pid) {
            let k = choose|k: int| 0 <= k < before.len() && before[k] == pid;
            assert(all[k] == pid);
        }
        if all.len() > before.len() {
            assert(all[before.len() as int] == all.last());
        }
    }
}

/// A program belongs to the innermost bundle around it, and to none where no directory
/// above it is a bundle.
pub proof fn the_innermost_bundle_counts(outer: Seq<char>, rest: Seq<char>)
    requires
        !text::has(rest, ".app/"@),
    ensures
        bundle_around(outer + ".app/"@ + rest) == Some(outer + ".app"@),
        bundle_around(rest) is None,
{
    let p = ".app/"@;
    reveal_strlit(".app/");
    reveal_strlit(".app");
    let s = outer + p + rest;
    let n = outer.len() as int;
    let end = 1 + s.len() as int;
    let k = text::last_occurrence(s, p, end);
    assert(s.subrange(n, n + 5) =~= p);
    assert(text::occurs_at(s, p, n));
    text::the_last_place_is_found(s, p, end, n);
    if k > n {
        lemma_later_bundle(outer, rest, k);
    }
    assert(k == n);
    assert(s.take(n + 4) =~= outer + ".app"@);
    let j = text::last_occurrence(rest, p, 1 + rest.len() as int);
    text::the_last_place_is_found(rest, p, 1 + rest.len() as int, 0);
    if j >= 0 {
        assert(text::has(rest, p));
    }
}

proof fn lemma_later_bundle(outer: Seq<char>, rest: Seq<char>, k: int)
    requires
        text::occurs_at(outer + ".app/"@ + rest, ".app/"@, k),
        k > outer.len(),
    ensures
        text::has(rest, ".app/"@),
{
    let p = ".app/"@;
    reveal_strlit(".app/");
    let s = outer + p + rest;
    let n = outer.len() as int;
    assert(p.len() == 5);
    let part = s.subrange(k, k + 5);
    assert(part[0] == s[k]);
    assert(part[0] == '.');
    if k < n + 5 {
        assert(s[k] == p[k - n]);
    } else {
        assert(part =~= rest.subrange(k - n - 5, k - n));
        assert(text::occurs_at(rest, p, k - n - 5));
    }
}

/// A process has files of the user open exactly where one of them lies below one of the
/// directories that the home directory has for them.
pub proof fn which_files_are_the_users(ls: Seq<Seq<char>>, home: Seq<char>)
    requires
        home.len() > 0,
        home.last() != '/',
    ensures
        user_files_in(ls, home) <==> exists|i: int|
            0 <= i < ls.len() && (("n"@ + (home + seq!['/'] + "Desktop/"@)).is_prefix_of(
                #[trigger] ls[i],
            ) || ("n"@ + (home + seq!['/'] + "Documents/"@)).is_prefix_of(ls[i]) || ("n"@ + (home
                + seq!['/'] + "Downloads/"@)).is_prefix_of(ls[i]) || ("n"@ + (home + seq!['/']
                + "Movies/"@)).is_prefix_of(ls[i]) || ("n"@ + (home + seq!['/']
                + "Music/"@)).is_prefix_of(ls[i]) || ("n"@ + (home + seq!['/']
                + "Pictures/"@)).is_prefix_of(ls[i]) || ("n"@ + (home + seq!['/']
                + "Library/Mobile Documents/"@)).is_prefix_of(ls[i])),
{
    reveal_strlit("Desktop/");
    reveal_strlit("Documents/");
    reveal_strlit("Downloads/");
    reveal_strlit("Movies/");
    reveal_strlit("Music/");
    reveal_strlit("Pictures/");
    reveal_strlit("Library/Mobile Documents/");
    paths::joining_puts_one_slash(home, "Desktop/"@);
    paths::joining_puts_one_slash(home, "Documents/"@);
    paths::joining_puts_one_slash(home, "Downloads/"@);
    paths::joining_puts_one_slash(home, "Movies/"@);
    paths::joining_puts_one_slash(home, "Music/"@);
    paths::joining_puts_one_slash(home, "Pictures/"@);
    paths::joining_puts_one_slash(home, "Library/Mobile Documents/"@);
    let dirs = user_data_dirs(home);
    assert(dirs.len() == 7);
    assert forall|i: int| 0 <= i < ls.len() implies ((exists|j: int|
        0 <= j < dirs.len() && names_file_below(ls[i], #[trigger] dirs[j])) <==> (
    names_file_below(#[trigger] ls[i], dirs[0]) || names_file_below(ls[i], dirs[1])
        || names_file_below(ls[i], dirs[2]) || names_file_below(ls[i], dirs[3])
        || names_file_below(ls[i], dirs[4]) || names_file_below(ls[i], dirs[5])
        || names_file_below(ls[i], dirs[6]))) by {
        if exists|j: int| 0 <= j < dirs.len() && names_file_below(ls[i], #[trigger] dirs[j]) {
            let j = choose|j: int|
                0 <= j < dirs.len() && names_file_below(ls[i], #[trigger] dirs[j]);
            assert(j == 0 || j == 1 || j == 2 || j == 3 || j == 4 || j == 5 || j == 6);
        }
    }
}

/// One process that belongs to an intact bundle and has files of the user open is enough
/// to risk data, and without one nothing is at risk.
pub proof fn one_process_is_enough(found: Seq<Finding>)
    ensures
        any_risks_data(found) <==> exists|i: int|
            0 <= i < found.len() && (#[trigger] found[i]).signed && found[i].user_files,
{
    if any_risks_data(found) {
        let i = choose|i: int| 0 <= i < found.len() && risks_data(#[trigger] found[i]);
        assert(found[i].signed);
    }
    if exists|i: int| 0 <= i < found.len() && (#[trigger] found[i]).signed && found[i].user_files {
        let i = choose|i: int|
            0 <= i < found.len() && (#[trigger] found[i]).signed && found[i].user_files;
        assert(risks_data(found[i]));
    }
}

} // verus!
