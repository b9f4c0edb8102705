//! Paths as text: joining them and taking them apart.

use vstd::prelude::*;
use crate::text;

verus! {

/// `rest` below `base`: an absolute `rest` stands for itself, and an empty base
/// adds nothing.
pub open spec fn joined(base: Seq<char>, rest: Seq<char>) -> Seq<char> {
    if rest.len() > 0 && rest[0] == '/' {
        rest
    } else if base.len() == 0 || base.last() == '/' {
        base + rest
    } else {
        base.push('/') + rest
    }
}

/// `rest` below `base`.
pub fn join(base: &str, rest: &str) -> (r: String)
    ensures
        r@ == joined(base@, rest@),
{
    let b = text::chars_of(base);
    let t = text::chars_of(rest);
    if t.len() > 0 && t[0] == '/' {
        return text::owned(rest);
    }
    let mut r: String = text::owned(base);
    if b.len() > 0 && b[b.len() - 1] != '/' {
        r.push('/');
    }
    r.append(rest);
    r
}

/// `rest` below the home directory.
pub fn home_join(home: &str, rest: &str) -> (r: String)
    ensures
        r@ == joined(home@, rest@),
{
    join(home, rest)
}

/// A piece of a path that names nothing: an empty one between slashes, or `.`.
pub open spec fn is_void(piece: Seq<char>) -> bool {
    piece.len() == 0 || piece == seq!['.']
}

/// The last piece that names something.
pub open spec fn last_named(parts: Seq<Seq<char>>) -> Option<Seq<char>>
    decreases parts.len(),
{
    if parts.len() == 0 {
        None
    } else if is_void(parts.last()) {
        last_named(parts.drop_last())
    } else {
        Some(parts.last())
    }
}

/// The final component of a path; none where it ends in `..` or names nothing.
pub open spec fn base_name(path: Seq<char>) -> Option<Seq<char>> {
    match last_named(text::pieces(path, '/')) {
        Some(name) => if name == seq!['.', '.'] {
            None
        } else {
            Some(name)
        },
        None => None,
    }
}

/// What stands before the last dot of a file name. A leading dot is part of the
/// name, and so is a name without another one.
pub open spec fn stem_of(name: Seq<char>) -> Seq<char> {
    let k = text::last_index_of(name, '.');
    if k <= 0 {
        name
    } else {
        name.take(k)
    }
}

/// What stands behind the last dot of a file name, where that dot does not start
/// the name.
pub open spec fn ext_of(name: Seq<char>) -> Option<Seq<char>> {
    let k = text::last_index_of(name, '.');
    if k <= 0 {
        None
    } else {
        Some(name.skip(k + 1))
    }
}

/// The final component of a path.
pub fn file_name(path: &str) -> (r: Option<String>)
    ensures
        text::opt_view(r) == base_name(path@),
{
    let parts = text::split(path, '/');
    let ghost all = text::views(parts@);
    let mut n: usize = parts.len();
    assert(all.take(n as int) =~= all);
    while n > 0
        invariant
            n <= parts@.len(),
            all == text::views(parts@),
            all == text::pieces(path@, '/'),
            last_named(all) == last_named(all.take(n as int)),
        decreases n,
    {
        let part: &str = parts[n - 1].as_str();
        assert(all.take(n as int).last() == part@);
        assert(all.take(n as int).drop_last() =~= all.take(n - 1));
        proof {
            reveal_strlit("");
            reveal_strlit(".");
            reveal_strlit("..");
            assert("."@ =~= seq!['.']);
            assert(".."@ =~= seq!['.', '.']);
        }
        if !text::same(part, "") && !text::same(part, ".") {
            assert(part@.len() != 0) by {
                if part@.len() == 0 {
                    assert(part@ =~= ""@);
                }
            }
            if text::same(part, "..") {
                return None;
            }
            return Some(text::owned(part));
        }
        n = n - 1;
    }
    None
}

/// What stands before the last dot of a file name.
pub fn name_stem(name: &str) -> (r: String)
    ensures
        r@ == stem_of(name@),
{
    let x = text::chars_of(name);
    match text::rfind_char(&x, '.') {
        Some(k) => if k == 0 {
            text::owned(name)
        } else {
            assert(x@.subrange(0, k as int) =~= name@.take(k as int));
            text::string_of(&x, 0, k)
        },
        None => text::owned(name),
    }
}

/// What stands behind the last dot of a file name.
pub fn name_ext(name: &str) -> (r: Option<String>)
    ensures
        text::opt_view(r) == ext_of(name@),
{
    let x = text::chars_of(name);
    match text::rfind_char(&x, '.') {
        Some(k) => if k == 0 {
            None
        } else {
            assert(x@.subrange(k + 1, x@.len() as int) =~= name@.skip(k + 1));
            let n: usize = x.len();
            Some(text::string_of(&x, k + 1, n))
        },
        None => None,
    }
}

/// The stem of the final component of a path.
pub fn file_stem(path: &str) -> (r: Option<String>)
    ensures
        text::opt_view(r) == (match base_name(path@) {
            Some(name) => Some(stem_of(name)),
            None => None,
        }),
{
    match file_name(path) {
        Some(name) => Some(name_stem(name.as_str())),
        None => None,
    }
}

/// The extension of the final component of a path.
pub open spec fn path_ext(path: Seq<char>) -> Option<Seq<char>> {
    match base_name(path) {
        Some(name) => ext_of(name),
        None => None,
    }
}

/// The extension of the final component of a path.
pub fn extension(path: &str) -> (r: Option<String>)
    ensures
        text::opt_view(r) == path_ext(path@),
{
    match file_name(path) {
        Some(name) => name_ext(name.as_str()),
        None => None,
    }
}

/// Whether the path ends in the extension `ext`.
pub fn has_extension(path: &str, ext: &str) -> (r: bool)
    ensures
        r == (path_ext(path@) == Some(ext@)),
{
    match extension(path) {
        Some(e) => text::same(e.as_str(), ext),
        None => false,
    }
}

/// A relative path below a directory keeps that directory as its start.
pub proof fn joined_stays_below(base: Seq<char>, rest: Seq<char>)
    requires
        rest.len() == 0 || rest[0] != '/',
    ensures
        base.is_prefix_of(joined(base, rest)),
        rest.is_suffix_of(joined(base, rest)),
{
    let j = joined(base, rest);
    assert(j.subrange(0, base.len() as int) =~= base);
    assert(j.subrange(j.len() - rest.len(), j.len() as int) =~= rest);
}

/// A relative path is put behind a directory with one slash between them; an absolute one
/// stands for itself.
pub proof fn joining_puts_one_slash(base: Seq<char>, rest: Seq<char>)
    requires
        rest.len() == 0 || rest[0] != '/',
    ensures
        base.len() > 0 && base.last() != '/' ==> joined(base, rest) == base + seq!['/'] + rest,
        base.len() > 0 && base.last() == '/' ==> joined(base, rest) == base + rest,
        joined(Seq::empty(), rest) == rest,
        joined(base, seq!['/'] + rest) == seq!['/'] + rest,
{
    assert(base.push('/') =~= base + seq!['/']);
    assert(Seq::<char>::empty() + rest =~= rest);
    assert((seq!['/'] + rest)[0] == '/');
}

proof fn lemma_pieces_push(a: Seq<char>, c: char, b: Seq<char>)
    requires
        !b.contains(c),
    ensures
        text::pieces(a + seq![c] + b, c) == text::pieces(a, c).push(b),
    decreases a.len(),
{
    text::lemma_index_of(a, c);
    let k = text::index_of(a, c);
    text::pieces_stand_between(b, c, b);
    if k < a.len() {
        let x = a.take(k);
        let y = a.skip(k + 1);
        assert forall|i: int| 0 <= i < x.len() implies x[i] != c by {
            assert(a[i] != c);
        }
        assert(a =~= x + seq![c] + y);
        assert(a + seq![c] + b =~= x + seq![c] + (y + seq![c] + b));
        text::pieces_stand_between(x, c, y);
        text::pieces_stand_between(x, c, y + seq![c] + b);
        lemma_pieces_push(y, c, b);
        assert(seq![x] + text::pieces(y, c).push(b) =~= (seq![x] + text::pieces(y, c)).push(b));
    } else {
        assert forall|i: int| 0 <= i < a.len() implies a[i] != c by {}
        text::pieces_stand_between(a, c, b);
        assert(seq![a] + seq![b] =~= seq![a].push(b));
    }
}

/// The name of a path is what stands behind its last slash; slashes and dots at its end
/// name nothing of their own, and two dots have no name.
pub proof fn names_stand_at_the_end(dir: Seq<char>, name: Seq<char>)
    requires
        !name.contains('/'),
        name.len() > 0,
        name != seq!['.'],
        name != seq!['.', '.'],
    ensures
        base_name(name) == Some(name),
        base_name(dir + seq!['/'] + name) == Some(name),
        base_name(dir + seq!['/']) == base_name(dir),
        base_name(dir + seq!['/', '.']) == base_name(dir),
        base_name(dir + seq!['/', '.', '.']) is None,
{
    text::pieces_stand_between(name, '/', name);
    assert(text::pieces(name, '/').last() == name);
    lemma_pieces_push(dir, '/', name);
    let before = text::pieces(dir, '/');
    let none = Seq::<char>::empty();
    let dot = seq!['.'];
    let dots = seq!['.', '.'];
    lemma_pieces_push(dir, '/', none);
    assert(dir + seq!['/'] + none =~= dir + seq!['/']);
    assert(before.push(none).drop_last() =~= before);
    lemma_pieces_push(dir, '/', dot);
    assert(dir + seq!['/'] + dot =~= dir + seq!['/', '.']);
    assert(before.push(dot).drop_last() =~= before);
    lemma_pieces_push(dir, '/', dots);
    assert(dir + seq!['/'] + dots =~= dir + seq!['/', '.', '.']);
    assert(before.push(dots).last() == dots);
    assert(dots.len() == 2 && dot.len() == 1);
    assert(before.push(name).last() == name);
}

/// An extension stands behind the last dot of a name, where something stands before that
/// dot; the stem is what stands there. Any other name is all stem.
pub proof fn extensions_follow_the_last_dot(stem: Seq<char>, ext: Seq<char>, dir: Seq<char>)
    requires
        !ext.contains('.'),
    ensures
        stem.len() > 0 ==> stem_of(stem + seq!['.'] + ext) == stem && ext_of(
            stem + seq!['.'] + ext,
        ) == Some(ext),
        ext_of(ext) is None && stem_of(ext) == ext,
        ext_of(seq!['.'] + ext) is None && stem_of(seq!['.'] + ext) == seq!['.'] + ext,
        stem.len() > 0 && ext.len() > 0 && !stem.contains('/') && !ext.contains('/') ==> path_ext(
            dir + seq!['/'] + (stem + seq!['.'] + ext),
        ) == Some(ext),
{
    text::the_last_separator_counts(stem, '.', ext);
    let name = stem + seq!['.'] + ext;
    assert(name.take(stem.len() as int) =~= stem);
    assert(name.skip(stem.len() as int + 1) =~= ext);
    let none = Seq::<char>::empty();
    text::the_last_separator_counts(none, '.', ext);
    assert(none + seq!['.'] + ext =~= seq!['.'] + ext);
    if stem.len() > 0 && ext.len() > 0 && !stem.contains('/') && !ext.contains('/') {
        assert(name.len() >= 3);
        assert forall|i: int| 0 <= i < name.len() implies name[i] != '/' by {
            if i < stem.len() {
                assert(stem.contains(stem[i]));
            } else if i > stem.len() {
                assert(ext.contains(ext[i - stem.len() - 1]));
            }
        }
        names_stand_at_the_end(dir, name);
    }
}

/// A path of nothing but dots and slashes has no name.
pub proof fn some_paths_have_no_name()
    ensures
        base_name(Seq::empty()) is None,
        base_name(seq!['.']) is None,
        base_name(seq!['.', '.']) is None,
        base_name(seq!['/']) is None,
{
    let none = Seq::<char>::empty();
    let dot = seq!['.'];
    let dots = seq!['.', '.'];
    text::pieces_stand_between(none, '/', none);
    text::pieces_stand_between(dot, '/', none);
    text::pieces_stand_between(dots, '/', none);
    lemma_pieces_push(none, '/', none);
    assert(none + seq!['/'] + none =~= seq!['/']);
    let nothing = Seq::<Seq<char>>::empty();
    assert(last_named(nothing) is None);
    assert(seq![none].drop_last() =~= nothing);
    assert(seq![dot].drop_last() =~= nothing);
    assert(seq![none].push(none).drop_last() =~= seq![none]);
    assert(seq![dots].last() == dots);
    assert(dots.len() == 2 && dot.len() == 1);
}

} // verus!
