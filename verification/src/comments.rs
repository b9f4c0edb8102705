//! Comments in JSON text: `//` to the end of the line, outside of strings.

use vstd::prelude::*;
use crate::text;

verus! {

broadcast use crate::text::group_views;

/// Where a position of a line stands with respect to strings.
#[derive(Debug, Clone, Copy, PartialEq, Eq, Structural)]
pub enum Quoting {
    /// Outside of a string.
    Outside,
    /// Inside of a string.
    Inside,
    /// Inside of a string, behind a backslash.
    Escaped,
}

/// How the position behind `c` stands, given how `c` itself stands.
pub open spec fn behind(q: Quoting, c: char) -> Quoting {
    match q {
        Quoting::Outside => if c == '"' {
            Quoting::Inside
        } else {
            Quoting::Outside
        },
        Quoting::Inside => if c == '"' {
            Quoting::Outside
        } else if c == '\\' {
            Quoting::Escaped
        } else {
            Quoting::Inside
        },
        Quoting::Escaped => Quoting::Inside,
    }
}

/// How position `i` of a line stands.
pub open spec fn quoting(line: Seq<char>, i: int) -> Quoting
    decreases i,
{
    if i <= 0 {
        Quoting::Outside
    } else {
        behind(quoting(line, i - 1), line[i - 1])
    }
}

/// A comment begins at position `i`: two slashes outside of a string.
pub open spec fn comment_at(line: Seq<char>, i: int) -> bool {
    0 <= i && i + 1 < line.len() && line[i] == '/' && line[i + 1] == '/' && quoting(line, i)
        == Quoting::Outside
}

/// The first position at or after `from` where a comment begins; the end of the line
/// where none does.
pub open spec fn comment_from(line: Seq<char>, from: int) -> int
    decreases line.len() - from,
{
    if from >= line.len() {
        line.len() as int
    } else if comment_at(line, from) {
        from
    } else {
        comment_from(line, from + 1)
    }
}

/// A line without its comment. A line that holds nothing else becomes empty.
pub open spec fn without_comment(line: Seq<char>) -> Seq<char> {
    if "//"@.is_prefix_of(text::trim_start(line)) {
        Seq::empty()
    } else {
        line.take(comment_from(line, 0))
    }
}

/// Lines put together, each ended by a line feed.
pub open spec fn ended(lines: Seq<Seq<char>>) -> Seq<char>
    decreases lines.len(),
{
    if lines.len() == 0 {
        Seq::empty()
    } else {
        ended(lines.drop_last()) + lines.last().push('\n')
    }
}

/// A text without comments.
pub open spec fn stripped(s: Seq<char>) -> Seq<char> {
    ended(text::lines(s).map_values(|line: Seq<char>| without_comment(line)))
}

fn after(q: Quoting, c: char) -> (r: Quoting)
    ensures
        r == behind(q, c),
{
    match q {
        Quoting::Outside => if c == '"' {
            Quoting::Inside
        } else {
            Quoting::Outside
        },
        Quoting::Inside => if c == '"' {
            Quoting::Outside
        } else if c == '\\' {
            Quoting::Escaped
        } else {
            Quoting::Inside
        },
        Quoting::Escaped => Quoting::Inside,
    }
}

/// Where the comment of a line begins; none where it has none.
pub fn inline_comment_pos(line: &Vec<char>) -> (r: Option<usize>)
    ensures
        match r {
            Some(i) => comment_at(line@, i as int) && i == comment_from(line@, 0),
            None => comment_from(line@, 0) == line@.len(),
        },
{
    let mut q = Quoting::Outside;
    let mut i: usize = 0;
    let n: usize = line.len();
    while i < n
        invariant
            i <= n,
            n == line@.len(),
            q == quoting(line@, i as int),
            comment_from(line@, 0) == comment_from(line@, i as int),
        decreases n - i,
    {
        let c: char = line[i];
        if c == '/' && q == Quoting::Outside && i + 1 < n && line[i + 1] == '/' {
            return Some(i);
        }
        q = after(q, c);
        i = i + 1;
    }
    None
}

fn line_without_comment(line: &str) -> (r: String)
    ensures
        r@ == without_comment(line@),
{
    let start = text::trimmed_start(line);
    if text::starts_with(start.as_str(), "//") {
        let r = String::new();
        assert(r@ =~= Seq::<char>::empty());
        return r;
    }
    let x = text::chars_of(line);
    match inline_comment_pos(&x) {
        Some(i) => {
            assert(x@.subrange(0, i as int) =~= line@.take(i as int));
            text::string_of(&x, 0, i)
        },
        None => {
            assert(line@.take(line@.len() as int) =~= line@);
            text::owned(line)
        },
    }
}

/// A text without comments. The number of lines stays, so that a position reported
/// in the result is one in the text.
pub fn strip_json_comments(s: &str) -> (r: String)
    ensures
        r@ == stripped(s@),
{
    let lines = text::lines_of(s);
    let ghost all = text::lines(s@);
    let ghost kept = all.map_values(|line: Seq<char>| without_comment(line));
    let mut out = String::new();
    let mut i: usize = 0;
    assert(out@ =~= ended(kept.take(0)));
    while i < lines.len()
        invariant
            i <= lines@.len(),
            text::views(lines@) == all,
            kept == all.map_values(|line: Seq<char>| without_comment(line)),
            out@ == ended(kept.take(i as int)),
        decreases lines.len() - i,
    {
        let line = line_without_comment(lines[i].as_str());
        let ghost before = out@;
        assert(lines@[i as int]@ == all[i as int]);
        out.append(line.as_str());
        out.push('\n');
        i = i + 1;
        assert(kept.take(i as int).drop_last() =~= kept.take(i - 1));
        assert(out@ =~= before + line@.push('\n'));
    }
    assert(kept.take(i as int) =~= kept);
    out
}

// ── what stripping keeps ─────────────────────────────────────────────────────

/// A line in which two slashes stand next to each other only inside of strings is
/// kept as it is. In particular an address in a string is no comment.
pub proof fn slashes_in_strings_stay(line: Seq<char>)
    requires
        forall|i: int|
            0 <= i < line.len() - 1 && #[trigger] line[i] == '/' && line[i + 1] == '/' ==> quoting(
                line,
                i,
            ) != Quoting::Outside,
    ensures
        without_comment(line) == line,
{
    lemma_no_comment(line, 0);
    let t = text::trim_start(line);
    let k = lemma_trimmed_part(line, 0);
    if "//"@.is_prefix_of(t) {
        reveal_strlit("//");
        assert("//"@[0] == '/' && "//"@[1] == '/');
        assert(t[0] == "//"@[0]);
        assert(t[1] == "//"@[1]);
        assert(line[k] == '/' && line[k + 1] == '/');
        assert(quoting(line, k) == Quoting::Outside);
    }
    assert(line.take(line.len() as int) =~= line);
}

proof fn lemma_no_comment(line: Seq<char>, from: int)
    requires
        0 <= from <= line.len(),
        forall|i: int|
            0 <= i < line.len() - 1 && #[trigger] line[i] == '/' && line[i + 1] == '/' ==> quoting(
                line,
                i,
            ) != Quoting::Outside,
    ensures
        comment_from(line, from) == line.len(),
    decreases line.len() - from,
{
    if from < line.len() {
        lemma_no_comment(line, from + 1);
    }
}

/// Trimming leaves a tail of the line, and all before it stands outside of strings.
proof fn lemma_trimmed_part(line: Seq<char>, from: int) -> (k: int)
    requires
        0 <= from <= line.len(),
        quoting(line, from) == Quoting::Outside,
    ensures
        from <= k <= line.len(),
        text::trim_start(line.skip(from)) == line.skip(k),
        quoting(line, k) == Quoting::Outside,
        from == 0 ==> text::trim_start(line) == line.skip(k),
    decreases line.len() - from,
{
    assert(line.skip(0) =~= line);
    if from < line.len() && text::is_space(line[from]) {
        assert(line.skip(from).drop_first() =~= line.skip(from + 1));
        lemma_trimmed_part(line, from + 1)
    } else {
        from
    }
}

/// Stripping keeps the number of lines.
pub proof fn stripping_keeps_line_numbers(s: Seq<char>)
    ensures
        text::lines(stripped(s)).len() == text::lines(s).len(),
{
    let all = text::lines(s);
    let kept = all.map_values(|line: Seq<char>| without_comment(line));
    lemma_lines_hold_no_feed(s);
    assert forall|i: int, j: int| 0 <= i < kept.len() && 0 <= j < kept[i].len() implies kept[i][j]
        != '\n' by {
        let line = all[i];
        assert(kept[i] == without_comment(line));
        lemma_comment_bound(line, 0);
        assert(kept[i][j] == line[j]);
    }
    lemma_ended_lines(kept);
}

proof fn lemma_comment_bound(line: Seq<char>, from: int)
    requires
        0 <= from <= line.len(),
    ensures
        from <= comment_from(line, from) <= line.len(),
    decreases line.len() - from,
{
    if from < line.len() && !comment_at(line, from) {
        lemma_comment_bound(line, from + 1);
    }
}

proof fn lemma_lines_hold_no_feed(s: Seq<char>)
    ensures
        forall|i: int, j: int|
            0 <= i < text::lines(s).len() && 0 <= j < text::lines(s)[i].len() ==> text::lines(
                s,
            )[i][j] != '\n',
    decreases s.len(),
{
    text::lemma_index_of(s, '\n');
    let k = text::index_of(s, '\n');
    if s.len() > 0 && 0 <= k < s.len() {
        lemma_lines_hold_no_feed(s.skip(k + 1));
        let rest = text::lines(s.skip(k + 1));
        let first = text::drop_cr(s.take(k));
        assert forall|i: int, j: int|
            0 <= i < text::lines(s).len() && 0 <= j < text::lines(s)[i].len() implies text::lines(
            s,
        )[i][j] != '\n' by {
            if i == 0 {
                assert(text::lines(s)[0] == first);
                assert(first[j] == s[j]);
            } else {
                assert(text::lines(s)[i] == rest[i - 1]);
            }
        }
    }
}

/// Text made of lines that hold no line feed has as many lines.
proof fn lemma_ended_lines(ls: Seq<Seq<char>>)
    requires
        forall|i: int, j: int| 0 <= i < ls.len() && 0 <= j < ls[i].len() ==> ls[i][j] != '\n',
    ensures
        text::lines(ended(ls)).len() == ls.len(),
    decreases ls.len(),
{
    if ls.len() > 0 {
        let rest = ls.drop_first();
        let first = ls[0];
        lemma_ended_first(ls);
        lemma_ended_lines(rest);
        let s = ended(ls);
        text::lemma_index_of(s, '\n');
        let k = first.len() as int;
        assert(s[k] == '\n');
        assert forall|j: int| 0 <= j < k implies s[j] != '\n' by {
            assert(s[j] == first[j]);
        }
        assert(text::index_of(s, '\n') == k);
        assert(s.skip(k + 1) =~= ended(rest));
    }
}

proof fn lemma_ended_first(ls: Seq<Seq<char>>)
    requires
        ls.len() > 0,
    ensures
        ended(ls) == ls[0].push('\n') + ended(ls.drop_first()),
    decreases ls.len(),
{
    if ls.len() == 1 {
        assert(ls.drop_last() =~= Seq::<Seq<char>>::empty());
        assert(ls.drop_first() =~= Seq::<Seq<char>>::empty());
        assert(ended(ls) =~= ls[0].push('\n') + ended(ls.drop_first()));
    } else {
        lemma_ended_first(ls.drop_last());
        assert(ls.drop_last().drop_first() =~= ls.drop_first().drop_last());
        assert(ended(ls) =~= ls[0].push('\n') + ended(ls.drop_first()));
    }
}

/// The lines of a text without comments, as long as no carriage return is in the way.
proof fn lemma_lines_of_ended(ls: Seq<Seq<char>>)
    requires
        forall|i: int, j: int| 0 <= i < ls.len() && 0 <= j < ls[i].len() ==> ls[i][j] != '\n',
        forall|i: int, j: int| 0 <= i < ls.len() && 0 <= j < ls[i].len() ==> ls[i][j] != '\r',
    ensures
        text::lines(ended(ls)) == ls,
    decreases ls.len(),
{
    if ls.len() > 0 {
        let rest = ls.drop_first();
        let first = ls[0];
        lemma_ended_first(ls);
        lemma_lines_of_ended(rest);
        let s = ended(ls);
        text::lemma_index_of(s, '\n');
        let k = first.len() as int;
        assert(s[k] == '\n');
        assert forall|j: int| 0 <= j < k implies s[j] != '\n' by {
            assert(s[j] == first[j]);
        }
        assert(text::index_of(s, '\n') == k);
        assert(s.skip(k + 1) =~= ended(rest));
        assert(s.take(k) =~= first);
        assert(text::drop_cr(first) == first);
        assert(text::lines(s) =~= ls);
    }
}

proof fn lemma_lines_hold_no_return(s: Seq<char>)
    requires
        !s.contains('\r'),
    ensures
        forall|i: int, j: int|
            0 <= i < text::lines(s).len() && 0 <= j < text::lines(s)[i].len() ==> text::lines(
                s,
            )[i][j] != '\r',
    decreases s.len(),
{
    text::lemma_index_of(s, '\n');
    let k = text::index_of(s, '\n');
    if s.len() > 0 && 0 <= k < s.len() {
        let tail = s.skip(k + 1);
        if tail.contains('\r') {
            let j = choose|j: int| 0 <= j < tail.len() && tail[j] == '\r';
            assert(s[k + 1 + j] == '\r');
        }
        lemma_lines_hold_no_return(tail);
        let rest = text::lines(tail);
        let first = text::drop_cr(s.take(k));
        assert forall|i: int, j: int|
            0 <= i < text::lines(s).len() && 0 <= j < text::lines(s)[i].len() implies text::lines(
            s,
        )[i][j] != '\r' by {
            if i == 0 {
                assert(text::lines(s)[0] == first);
                assert(first[j] == s[j]);
            } else {
                assert(text::lines(s)[i] == rest[i - 1]);
            }
        }
    }
}

proof fn lemma_quoting_of_prefix(line: Seq<char>, n: int, i: int)
    requires
        0 <= i <= n <= line.len(),
    ensures
        quoting(line.take(n), i) == quoting(line, i),
    decreases i,
{
    if i > 0 {
        lemma_quoting_of_prefix(line, n, i - 1);
    }
}

proof fn lemma_none_before(line: Seq<char>, from: int, i: int)
    requires
        0 <= from <= i < comment_from(line, from),
        from <= line.len(),
    ensures
        !comment_at(line, i),
    decreases line.len() - from,
{
    if from < line.len() && !comment_at(line, from) && from < i {
        lemma_none_before(line, from + 1, i);
    }
}

/// A line without its comment is the beginning of the line, holds no comment, and is left
/// as it is by stripping it again.
pub proof fn stripped_line_has_no_comment(line: Seq<char>)
    ensures
        without_comment(line).is_prefix_of(line),
        forall|i: int| !comment_at(without_comment(line), i),
        without_comment(without_comment(line)) == without_comment(line),
{
    let w = without_comment(line);
    lemma_comment_bound(line, 0);
    assert(w =~= line.subrange(0, w.len() as int));
    assert forall|i: int| !comment_at(w, i) by {
        if comment_at(w, i) {
            let c = comment_from(line, 0);
            lemma_quoting_of_prefix(line, c, i);
            lemma_none_before(line, 0, i);
            assert(w[i] == line[i] && w[i + 1] == line[i + 1]);
        }
    }
    assert forall|i: int|
        0 <= i < w.len() - 1 && #[trigger] w[i] == '/' && w[i + 1] == '/' implies quoting(w, i)
        != Quoting::Outside by {
        assert(!comment_at(w, i));
    }
    slashes_in_strings_stay(w);
}

/// Stripping a text that holds no carriage returns: each line of the result is the
/// beginning of the line with the same number, none holds a comment, the result is empty
/// or ends with a line feed, and stripping it again changes nothing.
pub proof fn stripping_leaves_no_comment(s: Seq<char>)
    requires
        !s.contains('\r'),
    ensures
        text::lines(stripped(s)).len() == text::lines(s).len(),
        forall|k: int|
            0 <= k < text::lines(s).len() ==> (#[trigger] text::lines(
                stripped(s),
            )[k]).is_prefix_of(text::lines(s)[k]),
        forall|k: int, i: int|
            0 <= k < text::lines(s).len() ==> !#[trigger] comment_at(
                text::lines(stripped(s))[k],
                i,
            ),
        stripped(s).len() == 0 || stripped(s).last() == '\n',
        stripped(stripped(s)) == stripped(s),
{
    let all = text::lines(s);
    let kept = all.map_values(|line: Seq<char>| without_comment(line));
    lemma_lines_hold_no_feed(s);
    lemma_lines_hold_no_return(s);
    assert forall|i: int, j: int| 0 <= i < kept.len() && 0 <= j < kept[i].len() implies kept[i][j]
        != '\n' && kept[i][j] != '\r' by {
        lemma_comment_bound(all[i], 0);
        assert(kept[i][j] == all[i][j]);
    }
    lemma_lines_of_ended(kept);
    assert(text::lines(stripped(s)) == kept);
    assert forall|k: int| 0 <= k < all.len() implies (#[trigger] text::lines(
        stripped(s),
    )[k]).is_prefix_of(all[k]) by {
        stripped_line_has_no_comment(all[k]);
    }
    assert forall|k: int, i: int| 0 <= k < all.len() implies !#[trigger] comment_at(
        text::lines(stripped(s))[k],
        i,
    ) by {
        stripped_line_has_no_comment(all[k]);
    }
    let again = kept.map_values(|line: Seq<char>| without_comment(line));
    assert forall|k: int| 0 <= k < kept.len() implies again[k] == kept[k] by {
        stripped_line_has_no_comment(all[k]);
    }
    assert(again =~= kept);
}

/// What opens and ends a string: a quotation mark opens one, the next that no backslash
/// stands before ends it, and whatever a backslash stands before belongs to it. Anything
/// else leaves a position outside of strings outside, and one inside inside.
pub proof fn marks_open_and_end_strings(line: Seq<char>, i: int)
    requires
        0 <= i < line.len(),
    ensures
        quoting(line, 0) == Quoting::Outside,
        quoting(line, i) == Quoting::Outside ==> (quoting(line, i + 1) == Quoting::Outside
            <==> line[i] != '"') && (quoting(line, i + 1) == Quoting::Inside <==> line[i] == '"'),
        quoting(line, i) == Quoting::Inside ==> (quoting(line, i + 1) == Quoting::Outside
            <==> line[i] == '"') && (quoting(line, i + 1) == Quoting::Inside <==> line[i] != '"'
            && line[i] != '\\'),
        quoting(line, i) == Quoting::Inside && line[i] == '\\' && i + 1 < line.len() ==> quoting(
            line,
            i + 2,
        ) == Quoting::Inside,
{
}

/// A line is cut where the first two slashes stand outside of strings. Where only white
/// space stands before them, nothing is left of it.
pub proof fn the_first_comment_is_cut(line: Seq<char>, i: int)
    requires
        0 <= i < line.len() - 1,
        line[i] == '/',
        line[i + 1] == '/',
        quoting(line, i) == Quoting::Outside,
        forall|j: int|
            0 <= j < i && #[trigger] line[j] == '/' && line[j + 1] == '/' ==> quoting(line, j)
                != Quoting::Outside,
    ensures
        text::blank(line.take(i)) ==> without_comment(line).len() == 0,
        !text::blank(line.take(i)) ==> without_comment(line) == line.take(i),
{
    let front = line.take(i);
    let rest = line.skip(i);
    reveal_strlit("//");
    let mark = "//"@;
    assert(mark.len() == 2 && mark[0] == '/' && mark[1] == '/');
    assert(line =~= front + rest);
    lemma_first_comment(line, 0, i);
    if text::blank(front) {
        let none = Seq::<char>::empty();
        assert(!text::is_space('/'));
        lemma_blank_front(front, rest);
        assert(rest.subrange(0, 2) =~= mark);
        assert(mark.is_prefix_of(rest));
    } else {
        let t = text::trim_start(line);
        let k = lemma_trimmed_part(line, 0);
        if mark.is_prefix_of(t) {
            assert(t[0] == mark[0] && t[1] == mark[1]);
            assert(line[k] == '/' && line[k + 1] == '/');
            lemma_blank_before(line, 0);
            let n = choose|n: int|
                0 <= n <= line.len() && text::trim_start(line) == #[trigger] line.skip(n)
                    && text::blank(line.take(n));
            assert(line.skip(n).len() == line.skip(k).len());
            assert(n == k);
            if k < i {
                assert(line[k] == '/' && line[k + 1] == '/' && quoting(line, k)
                    == Quoting::Outside);
            } else {
                assert forall|j: int| 0 <= j < front.len() implies text::is_space(
                    #[trigger] front[j],
                ) by {
                    assert(line.take(n)[j] == front[j]);
                }
            }
        }
    }
}

proof fn lemma_first_comment(line: Seq<char>, from: int, i: int)
    requires
        0 <= from <= i < line.len() - 1,
        line[i] == '/',
        line[i + 1] == '/',
        quoting(line, i) == Quoting::Outside,
        forall|j: int|
            0 <= j < i && #[trigger] line[j] == '/' && line[j + 1] == '/' ==> quoting(line, j)
                != Quoting::Outside,
    ensures
        comment_from(line, from) == i,
    decreases i - from,
{
    if from < i {
        assert(!comment_at(line, from));
        lemma_first_comment(line, from + 1, i);
    }
}

proof fn lemma_blank_front(front: Seq<char>, rest: Seq<char>)
    requires
        text::blank(front),
        rest.len() > 0,
        !text::is_space(rest[0]),
    ensures
        text::trim_start(front + rest) == rest,
    decreases front.len(),
{
    let s = front + rest;
    if front.len() == 0 {
        assert(s =~= rest);
    } else {
        assert(text::is_space(front[0]));
        assert(s[0] == front[0]);
        assert(s.drop_first() =~= front.drop_first() + rest);
        lemma_blank_front(front.drop_first(), rest);
    }
}

proof fn lemma_blank_before(line: Seq<char>, from: int)
    requires
        0 <= from <= line.len(),
        text::blank(line.take(from)),
        text::trim_start(line) == text::trim_start(line.skip(from)),
    ensures
        exists|n: int|
            0 <= n <= line.len() && text::trim_start(line) == #[trigger] line.skip(n)
                && text::blank(line.take(n)),
    decreases line.len() - from,
{
    assert(line.skip(0) =~= line);
    let rest = line.skip(from);
    if from < line.len() && text::is_space(line[from]) {
        assert(rest.drop_first() =~= line.skip(from + 1));
        assert forall|j: int| 0 <= j < from + 1 implies text::is_space(
            #[trigger] line.take(from + 1)[j],
        ) by {
            if j < from {
                assert(text::is_space(line.take(from)[j]));
            }
        }
        lemma_blank_before(line, from + 1);
    } else {
        assert(text::trim_start(rest) == rest);
        assert(text::trim_start(line) == line.skip(from));
    }
}

} // verus!
