//! The bundle identifiers that the preferences of the notification center name.

use vstd::prelude::*;
use crate::command::{command, CommandLine};
use crate::text;

verus! {

broadcast use crate::text::group_views;

/// The question for the preferences of the notification center, as text.
pub fn export_command(home: &str) -> (r: CommandLine)
    ensures
        r@ == (
            "defaults"@,
            seq!["export"@, home@ + "/Library/Preferences/com.apple.ncprefs.plist"@, "-"@],
        ),
{
    let plist = text::join2(home, "/Library/Preferences/com.apple.ncprefs.plist");
    let r = command("defaults", &["export", plist.as_str(), "-"]);
    assert(r@.1 =~= seq!["export"@, plist@, "-"@]);
    r
}

/// The bundle identifier in a line: what a string element holds, where it has a dot and
/// no slash.
pub open spec fn id_in(line: Seq<char>) -> Option<Seq<char>> {
    let t = text::trim(line);
    let inner = text::without_back(text::without_front(t, "<string>"@), "</string>"@);
    if "<string>"@.is_prefix_of(t) && inner.contains('.') && !inner.contains('/') {
        Some(inner)
    } else {
        None
    }
}

/// The bundle identifiers in lines, in order.
pub open spec fn ids_in(ls: Seq<Seq<char>>) -> Seq<Seq<char>>
    decreases ls.len(),
{
    if ls.len() == 0 {
        Seq::empty()
    } else {
        match id_in(ls.last()) {
            Some(id) => ids_in(ls.drop_last()).push(id),
            None => ids_in(ls.drop_last()),
        }
    }
}

fn line_id(line: &str) -> (r: Option<String>)
    ensures
        text::opt_view(r) == id_in(line@),
{
    let t = text::trimmed(line);
    proof {
        reveal_strlit("<string>");
        reveal_strlit("</string>");
    }
    if !text::starts_with(t.as_str(), "<string>") {
        return None;
    }
    let front = text::strip_front(t.as_str(), "<string>");
    let inner = text::strip_back(front.as_str(), "</string>");
    if text::contains_char(inner.as_str(), '.') && !text::contains_char(inner.as_str(), '/') {
        Some(inner)
    } else {
        None
    }
}

/// The bundle identifiers in the exported preferences, in order.
pub fn listed_ids(export: &str) -> (r: Vec<String>)
    ensures
        text::views(r@) == ids_in(text::lines(export@)),
{
    let ls = text::lines_of(export);
    let ghost all = text::lines(export@);
    let mut r: Vec<String> = Vec::new();
    let mut i: usize = 0;
    assert(all.take(0) =~= Seq::<Seq<char>>::empty());
    while i < ls.len()
        invariant
            i <= ls@.len(),
            text::views(ls@) == all,
            text::views(r@) == ids_in(all.take(i as int)),
        decreases ls.len() - i,
    {
        assert(all.take(i + 1).drop_last() =~= all.take(i as int));
        assert(all.take(i + 1).last() == ls@[i as int]@);
        match line_id(ls[i].as_str()) {
            Some(id) => {
                r.push(id);
            },
            None => {},
        }
        i = i + 1;
    }
    assert(all.take(i as int) =~= all);
    r
}

/// The apps that are registered with the notification center, in ascending order and
/// each once: the short enough identifiers of the exported preferences.
pub fn registered_nc_apps(export: &str) -> (r: Vec<String>)
    ensures
        text::ascending(text::views(r@)),
        forall|id: Seq<char>| #[trigger]
            text::views(r@).contains(id) <==> ids_in(text::lines(export@)).contains(id)
                && text::byte_len(id) < 128,
{
    let ids = listed_ids(export);
    let ghost all = text::views(ids@);
    let mut short: Vec<String> = Vec::new();
    let mut i: usize = 0;
    while i < ids.len()
        invariant
            i <= ids@.len(),
            all == text::views(ids@),
            forall|id: Seq<char>| #[trigger]
                text::views(short@).contains(id) <==> all.take(i as int).contains(id)
                    && text::byte_len(id) < 128,
        decreases ids.len() - i,
    {
        let x = text::chars_of(ids[i].as_str());
        let ghost before = text::views(short@);
        let ghost item = all[i as int];
        assert(item == ids@[i as int]@);
        if !text::longer_than(&x, 127) {
            short.push(text::owned(ids[i].as_str()));
            assert(text::views(short@) == before.push(item));
        }
        proof {
            let now = text::views(short@);
            assert forall|id: Seq<char>| #[trigger]
                now.contains(id) <==> all.take(i + 1).contains(id) && text::byte_len(id)
                    < 128 by {
                text::lemma_contains_take(all, i as int, id);
                assert(before.contains(id) <==> all.take(i as int).contains(id)
                    && text::byte_len(id) < 128);
                if text::byte_len(item) < 128 {
                    text::lemma_contains_push(before, item, id);
                }
            }
        }
        i = i + 1;
    }
    assert(all.take(i as int) =~= all);
    text::sort_dedup(&short)
}

/// A string element on a line of its own, with white space around it or not, gives the
/// identifier that it holds. Where a line starts with anything else it gives none, nor
/// does an element that holds no dot or a slash.
pub proof fn elements_hold_identifiers(
    front: Seq<char>,
    id: Seq<char>,
    back: Seq<char>,
    line: Seq<char>,
)
    requires
        text::blank(front),
        text::blank(back),
        !"<string>"@.is_prefix_of(id),
        id.len() > 0,
        !"</string>"@.is_suffix_of(id),
    ensures
        id_in(front + ("<string>"@ + id + "</string>"@) + back) == (if id.contains('.')
            && !id.contains('/') {
            Some(id)
        } else {
            None
        }),
        !"<string>"@.is_prefix_of(text::trim(line)) ==> id_in(line) is None,
{
    let a = "<string>"@;
    let b = "</string>"@;
    reveal_strlit("<string>");
    reveal_strlit("</string>");
    assert(a.len() == 8 && b.len() == 9);
    let core = a + id + b;
    assert(core[0] == '<');
    assert(core.last() == '>');
    assert(!text::is_space('<') && !text::is_space('>'));
    text::trimming_takes_white_space(front, core, back);
    assert(a.is_prefix_of(core)) by {
        assert(core.subrange(0, 8) =~= a);
    }
    assert(core =~= a + (id + b));
    text::stripping_repeats(id + b, a);
    if a.is_prefix_of(id + b) {
        let n = id.len() as int;
        if n >= 8 {
            assert(id.subrange(0, 8) =~= (id + b).subrange(0, 8));
            assert(a.is_prefix_of(id));
        } else {
            assert((id + b)[n] == '<');
            assert((id + b).subrange(0, 8)[n] == a[n]);
            assert(a[n] != '<');
        }
    }
    text::stripping_repeats(id, b);
}

/// The identifiers are those that some line gives, and no others.
pub proof fn every_line_counts(ls: Seq<Seq<char>>, id: Seq<char>)
    ensures
        ids_in(ls).contains(id) <==> exists|i: int|
            0 <= i < ls.len() && id_in(#[trigger] ls[i]) == Some(id),
    decreases ls.len(),
{
    if ls.len() > 0 {
        let rest = ls.drop_last();
        let before = ids_in(rest);
        let all = ids_in(ls);
        every_line_counts(rest, id);
        if all.contains(id) {
            let k = choose|k: int| 0 <= k < all.len() && all[k] == id;
            if k < before.len() {
                assert(before[k] == id);
                let i = choose|i: int| 0 <= i < rest.len() && id_in(#[trigger] rest[i]) == Some(id);
                assert(id_in(ls[i]) == Some(id));
            } else {
                assert(id_in(ls[ls.len() - 1]) == Some(id));
            }
        }
        if exists|i: int| 0 <= i < ls.len() && id_in(#[trigger] ls[i]) == Some(id) {
            let i = choose|i: int| 0 <= i < ls.len() && id_in(#[trigger] ls[i]) == Some(id);
            if i < rest.len() {
                assert(id_in(rest[i]) == Some(id));
                let k = choose|k: int| 0 <= k < before.len() && before[k] == id;
                assert(all[k] == id);
            } else {
                assert(all[before.len() as int] == id);
            }
        }
    }
}

} // verus!
