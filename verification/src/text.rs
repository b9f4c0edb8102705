//! Text primitives over sequences of characters.
//!
//! Strings are seen through their view, a `Seq<char>`. Every function states its
//! result directly over that view.

use vstd::prelude::*;

verus! {

/// Appends one character: `String::push` leaves the text with `c` added at its
/// end and nothing else changed.
pub assume_specification[ String::push ](s: &mut String, c: char)
    ensures
        final(s)@ == old(s)@.push(c),
;

// ── views of collections ─────────────────────────────────────────────────────

/// The views of the elements of `s`, in order.
pub open spec fn views<T: View>(s: Seq<T>) -> Seq<T::V> {
    s.map_values(|x: T| x@)
}

/// The view of an optional value.
pub open spec fn opt_view<T: View>(o: Option<T>) -> Option<T::V> {
    match o {
        Some(x) => Some(x@),
        None => None,
    }
}

/// The view of a fallible value, both sides by their views.
pub open spec fn res_view<T: View, E: View>(r: Result<T, E>) -> Result<T::V, E::V> {
    match r {
        Ok(x) => Ok(x@),
        Err(e) => Err(e@),
    }
}

/// The views of the elements of an optional list, in order.
pub open spec fn opt_views<T: View>(o: Option<Vec<T>>) -> Option<Seq<T::V>> {
    match o {
        Some(list) => Some(views(list@)),
        None => None,
    }
}

/// Adding an element to a sequence adds its view to the views.
pub broadcast proof fn lemma_views_push<T: View>(s: Seq<T>, x: T)
    ensures
        #[trigger] views(s.push(x)) == views(s).push(x@),
{
    assert(views(s.push(x)) =~= views(s).push(x@));
}

/// The views of no elements.
pub broadcast proof fn lemma_views_empty<T: View>()
    ensures
        #[trigger] views(Seq::<T>::empty()) == Seq::<T::V>::empty(),
{
    assert(views(Seq::<T>::empty()) =~= Seq::<T::V>::empty());
}

/// The views of two sequences put together.
pub broadcast proof fn lemma_views_add<T: View>(a: Seq<T>, b: Seq<T>)
    ensures
        #[trigger] views(a + b) == views(a) + views(b),
{
    assert(views(a + b) =~= views(a) + views(b));
}

pub broadcast group group_views {
    lemma_views_push,
    lemma_views_empty,
    lemma_views_add,
}

// ── conversion ───────────────────────────────────────────────────────────────

/// The characters of `s`.
pub fn chars_of(s: &str) -> (r: Vec<char>)
    ensures
        r@ == s@,
{
    let mut r: Vec<char> = Vec::new();
    for c in it: s.chars()
        invariant
            r@ == it.seq().take(it.index()),
            it.seq() == s@,
    {
        r.push(c);
        assert(it.seq().take(it.index() + 1) =~= it.seq().take(it.index()).push(c));
    }
    assert(s@.take(s@.len() as int) =~= s@);
    r
}

/// The text made of the characters `cs[from..to]`.
pub fn string_of(cs: &Vec<char>, from: usize, to: usize) -> (r: String)
    requires
        from <= to <= cs@.len(),
    ensures
        r@ == cs@.subrange(from as int, to as int),
{
    let mut r: String = String::new();
    let mut i: usize = from;
    while i < to
        invariant
            from <= i <= to <= cs@.len(),
            r@ == cs@.subrange(from as int, i as int),
        decreases to - i,
    {
        r.push(cs[i]);
        i = i + 1;
        assert(cs@.subrange(from as int, i as int) =~= cs@.subrange(from as int, i - 1).push(
            cs@[i - 1],
        ));
    }
    r
}

/// An owned copy of `s`.
pub fn owned(s: &str) -> (r: String)
    ensures
        r@ == s@,
{
    s.to_owned()
}

/// Whether two texts hold the same characters.
pub fn same(a: &str, b: &str) -> (r: bool)
    ensures
        r == (a@ == b@),
{
    let x = chars_of(a);
    let y = chars_of(b);
    if x.len() != y.len() {
        return false;
    }
    let mut i: usize = 0;
    while i < x.len()
        invariant
            i <= x.len(),
            x.len() == y.len(),
            x@ == a@,
            y@ == b@,
            forall|j: int| 0 <= j < i ==> x@[j] == y@[j],
        decreases x.len() - i,
    {
        if x[i] != y[i] {
            return false;
        }
        i = i + 1;
    }
    assert(a@ =~= b@);
    true
}

// ── joining ──────────────────────────────────────────────────────────────────

/// `a` followed by `b`.
pub fn join2(a: &str, b: &str) -> (r: String)
    ensures
        r@ == a@ + b@,
{
    let mut r: String = owned(a);
    r.append(b);
    r
}

/// `a`, `b` and `c` in a row.
pub fn join3(a: &str, b: &str, c: &str) -> (r: String)
    ensures
        r@ == a@ + b@ + c@,
{
    let mut r: String = owned(a);
    r.append(b);
    r.append(c);
    r
}

// ── searching ────────────────────────────────────────────────────────────────

/// `p` stands in `s` at position `i`.
pub open spec fn occurs_at(s: Seq<char>, p: Seq<char>, i: int) -> bool {
    &&& 0 <= i
    &&& i + p.len() <= s.len()
    &&& s.subrange(i, i + p.len()) == p
}

/// `p` stands somewhere in `s`.
pub open spec fn has(s: Seq<char>, p: Seq<char>) -> bool {
    exists|i: int| occurs_at(s, p, i)
}

/// Whether `p` stands in `s[i..]` at its start, by characters.
fn matches_at(s: &Vec<char>, p: &Vec<char>, i: usize) -> (r: bool)
    requires
        i + p@.len() <= s@.len(),
    ensures
        r == occurs_at(s@, p@, i as int),
{
    let mut k: usize = 0;
    while k < p.len()
        invariant
            k <= p.len(),
            i + p.len() <= s.len(),
            forall|j: int| 0 <= j < k ==> s@[i + j] == p@[j],
        decreases p.len() - k,
    {
        if s[i + k] != p[k] {
            assert(s@.subrange(i as int, i + p@.len())[k as int] != p@[k as int]);
            return false;
        }
        k = k + 1;
    }
    assert(s@.subrange(i as int, i + p@.len()) =~= p@);
    true
}

/// Whether `p` is a substring of `s`.
pub fn contains(s: &str, p: &str) -> (r: bool)
    ensures
        r == has(s@, p@),
{
    let x = chars_of(s);
    let y = chars_of(p);
    if y.len() > x.len() {
        return false;
    }
    let last: usize = x.len() - y.len();
    let mut i: usize = 0;
    while i <= last
        invariant
            i <= last + 1,
            last + y@.len() == x@.len(),
            x@ == s@,
            y@ == p@,
            forall|j: int| 0 <= j < i ==> !occurs_at(x@, y@, j),
        decreases last + 1 - i,
    {
        if matches_at(&x, &y, i) {
            return true;
        }
        if i == last {
            assert(forall|j: int| occurs_at(x@, y@, j) ==> j <= last);
            return false;
        }
        i = i + 1;
    }
    false
}

/// Whether `s` begins with `p`.
pub fn starts_with(s: &str, p: &str) -> (r: bool)
    ensures
        r == p@.is_prefix_of(s@),
{
    let x = chars_of(s);
    let y = chars_of(p);
    if y.len() > x.len() {
        return false;
    }
    matches_at(&x, &y, 0)
}

/// Whether `s` ends with `p`.
pub fn ends_with(s: &str, p: &str) -> (r: bool)
    ensures
        r == p@.is_suffix_of(s@),
{
    let x = chars_of(s);
    let y = chars_of(p);
    if y.len() > x.len() {
        return false;
    }
    matches_at(&x, &y, x.len() - y.len())
}

/// Whether the character `c` stands in `s`.
pub fn contains_char(s: &str, c: char) -> (r: bool)
    ensures
        r == s@.contains(c),
{
    let x = chars_of(s);
    let mut i: usize = 0;
    while i < x.len()
        invariant
            i <= x.len(),
            x@ == s@,
            forall|j: int| 0 <= j < i ==> x@[j] != c,
        decreases x.len() - i,
    {
        if x[i] == c {
            assert(s@[i as int] == c);
            return true;
        }
        i = i + 1;
    }
    false
}

/// Whether one of `list` is `s`.
pub fn is_any(s: &str, list: &Vec<String>) -> (r: bool)
    ensures
        r == views(list@).contains(s@),
{
    let mut i: usize = 0;
    while i < list.len()
        invariant
            i <= list.len(),
            forall|j: int| 0 <= j < i ==> list@[j]@ != s@,
        decreases list.len() - i,
    {
        if same(list[i].as_str(), s) {
            assert(views(list@)[i as int] == s@);
            return true;
        }
        i = i + 1;
    }
    assert forall|j: int| 0 <= j < views(list@).len() implies views(list@)[j] != s@ by {
        assert(views(list@)[j] == list@[j]@);
    }
    false
}

/// The position of the first `c` in `s`, or the length of `s` where there is none.
pub open spec fn index_of(s: Seq<char>, c: char) -> int
    decreases s.len(),
{
    if s.len() == 0 || s[0] == c {
        0
    } else {
        1 + index_of(s.drop_first(), c)
    }
}

/// The position of the last `c` in `s`, or -1 where there is none.
pub open spec fn last_index_of(s: Seq<char>, c: char) -> int
    decreases s.len(),
{
    if s.len() == 0 {
        -1
    } else if s.last() == c {
        s.len() - 1
    } else {
        last_index_of(s.drop_last(), c)
    }
}

/// What stands behind the last `c` of `s`; all of `s` where it has none.
pub open spec fn after_last(s: Seq<char>, c: char) -> Seq<char> {
    s.skip(last_index_of(s, c) + 1)
}

/// The first index of `c` is an index where it stands, and it stands nowhere before.
pub proof fn lemma_index_of(s: Seq<char>, c: char)
    ensures
        0 <= index_of(s, c) <= s.len(),
        forall|j: int| 0 <= j < index_of(s, c) ==> s[j] != c,
        index_of(s, c) < s.len() ==> s[index_of(s, c)] == c,
    decreases s.len(),
{
    if s.len() > 0 && s[0] != c {
        let rest = s.drop_first();
        lemma_index_of(rest, c);
        assert forall|j: int| 0 <= j < index_of(s, c) implies s[j] != c by {
            if j > 0 {
                assert(s[j] == rest[j - 1]);
            }
        }
    }
}

/// The first position at or after `from` that holds `c`.
fn find_from(s: &Vec<char>, c: char, from: usize) -> (r: usize)
    requires
        from <= s@.len(),
    ensures
        from <= r <= s@.len(),
        r == from + index_of(s@.skip(from as int), c),
{
    let mut i: usize = from;
    while i < s.len() && s[i] != c
        invariant
            from <= i <= s@.len(),
            from + index_of(s@.skip(from as int), c) == i + index_of(s@.skip(i as int), c),
        decreases s.len() - i,
    {
        assert(s@.skip(i as int).drop_first() =~= s@.skip(i + 1));
        i = i + 1;
    }
    i
}

/// The position of the last `c`, if there is one.
pub fn rfind_char(s: &Vec<char>, c: char) -> (r: Option<usize>)
    ensures
        match r {
            Some(i) => i == last_index_of(s@, c) && i < s@.len() && s@[i as int] == c,
            None => last_index_of(s@, c) == -1,
        },
{
    let mut n: usize = s.len();
    assert(s@.take(s@.len() as int) =~= s@);
    while n > 0
        invariant
            n <= s@.len(),
            last_index_of(s@, c) == last_index_of(s@.take(n as int), c),
        decreases n,
    {
        assert(s@.take(n as int).drop_last() =~= s@.take(n - 1));
        if s[n - 1] == c {
            return Some(n - 1);
        }
        n = n - 1;
    }
    None
}

/// The last position before `n` at which `p` stands in `s`, or -1.
pub open spec fn last_occurrence(s: Seq<char>, p: Seq<char>, n: int) -> int
    decreases n,
{
    if n <= 0 {
        -1
    } else if occurs_at(s, p, n - 1) {
        n - 1
    } else {
        last_occurrence(s, p, n - 1)
    }
}

/// The last position at which `p` stands in `s`, if there is one.
pub fn rfind(s: &Vec<char>, p: &str) -> (r: Option<usize>)
    ensures
        match r {
            Some(i) => i == last_occurrence(s@, p@, 1 + s@.len() as int) && i + p@.len() <= s@.len(),
            None => last_occurrence(s@, p@, 1 + s@.len() as int) == -1,
        },
{
    let q = chars_of(p);
    let mut n: usize = s.len();
    loop
        invariant
            n <= s@.len(),
            q@ == p@,
            last_occurrence(s@, p@, 1 + s@.len() as int) == last_occurrence(s@, p@, n + 1),
        decreases n,
    {
        if q.len() <= s.len() - n {
            if matches_at(s, &q, n) {
                return Some(n);
            }
        }
        if n == 0 {
            assert(last_occurrence(s@, p@, 0) == -1);
            return None;
        }
        n = n - 1;
    }
}

// ── white space ──────────────────────────────────────────────────────────────

/// The characters with the Unicode property `White_Space`.
pub open spec fn is_space(c: char) -> bool {
    let u = c as u32;
    ||| 0x09 <= u <= 0x0d
    ||| u == 0x20
    ||| u == 0x85
    ||| u == 0xa0
    ||| u == 0x1680
    ||| 0x2000 <= u <= 0x200a
    ||| u == 0x2028
    ||| u == 0x2029
    ||| u == 0x202f
    ||| u == 0x205f
    ||| u == 0x3000
}

/// `s` without the white space at its start.
pub open spec fn trim_start(s: Seq<char>) -> Seq<char>
    decreases s.len(),
{
    if s.len() > 0 && is_space(s[0]) {
        trim_start(s.drop_first())
    } else {
        s
    }
}

/// `s` without the white space at its end.
pub open spec fn trim_end(s: Seq<char>) -> Seq<char>
    decreases s.len(),
{
    if s.len() > 0 && is_space(s.last()) {
        trim_end(s.drop_last())
    } else {
        s
    }
}

/// `s` without the white space at either end.
pub open spec fn trim(s: Seq<char>) -> Seq<char> {
    trim_end(trim_start(s))
}

fn space(c: char) -> (r: bool)
    ensures
        r == is_space(c),
{
    let u: u32 = c as u32;
    (0x09 <= u && u <= 0x0d) || u == 0x20 || u == 0x85 || u == 0xa0 || u == 0x1680 || (0x2000 <= u
        && u <= 0x200a) || u == 0x2028 || u == 0x2029 || u == 0x202f || u == 0x205f || u == 0x3000
}

/// The first position at or after `from` that holds no white space.
fn skip_space(s: &Vec<char>, from: usize) -> (r: usize)
    requires
        from <= s@.len(),
    ensures
        from <= r <= s@.len(),
        trim_start(s@.skip(from as int)) == s@.skip(r as int),
{
    let mut i: usize = from;
    while i < s.len() && space(s[i])
        invariant
            from <= i <= s@.len(),
            trim_start(s@.skip(from as int)) == trim_start(s@.skip(i as int)),
        decreases s.len() - i,
    {
        assert(s@.skip(i as int).drop_first() =~= s@.skip(i + 1));
        i = i + 1;
    }
    i
}

/// `s` without the white space at its start.
pub fn trimmed_start(s: &str) -> (r: String)
    ensures
        r@ == trim_start(s@),
{
    let x = chars_of(s);
    let i: usize = skip_space(&x, 0);
    assert(x@.skip(0) =~= s@);
    assert(x@.subrange(i as int, x@.len() as int) =~= x@.skip(i as int));
    string_of(&x, i, x.len())
}

/// `s` without the white space at either end.
pub fn trimmed(s: &str) -> (r: String)
    ensures
        r@ == trim(s@),
{
    let x = chars_of(s);
    let i: usize = skip_space(&x, 0);
    assert(x@.skip(0) =~= s@);
    let mut j: usize = x.len();
    assert(x@.subrange(i as int, j as int) =~= x@.skip(i as int));
    while i < j && space(x[j - 1])
        invariant
            i <= j <= x@.len(),
            trim(s@) == trim_end(x@.subrange(i as int, j as int)),
        decreases j,
    {
        assert(x@.subrange(i as int, j as int).drop_last() =~= x@.subrange(i as int, j - 1));
        j = j - 1;
    }
    string_of(&x, i, j)
}

// ── splitting ────────────────────────────────────────────────────────────────

/// `s` without one trailing carriage return.
pub open spec fn drop_cr(s: Seq<char>) -> Seq<char> {
    if s.len() > 0 && s.last() == '\r' {
        s.drop_last()
    } else {
        s
    }
}

/// The lines of `s`: each ends at a line feed, which is left out together with a
/// carriage return before it. What follows the last line feed is a line of its
/// own unless it is empty.
pub open spec fn lines(s: Seq<char>) -> Seq<Seq<char>>
    decreases s.len(),
{
    let k = index_of(s, '\n');
    if s.len() == 0 {
        Seq::empty()
    } else if k < 0 || k >= s.len() {
        seq![s]
    } else {
        seq![drop_cr(s.take(k))] + lines(s.skip(k + 1))
    }
}

/// The lines of `s`.
pub fn lines_of(s: &str) -> (r: Vec<String>)
    ensures
        views(r@) == lines(s@),
{
    broadcast use group_views;

    let x = chars_of(s);
    let mut r: Vec<String> = Vec::new();
    let mut from: usize = 0;
    assert(x@.skip(0) =~= s@);
    assert(views(r@) + lines(x@.skip(0)) =~= lines(s@));
    while from < x.len()
        invariant
            from <= x@.len(),
            views(r@) + lines(x@.skip(from as int)) == lines(s@),
        decreases x.len() - from,
    {
        let ghost rest = x@.skip(from as int);
        let end: usize = find_from(&x, '\n', from);
        if end == x.len() {
            let last = string_of(&x, from, end);
            assert(last@ =~= rest);
            let ghost before = r@;
            r.push(last);
            assert(views(r@) == views(before).push(rest));
            assert(lines(rest) == seq![rest]);
            assert(views(before) + seq![rest] =~= views(r@));
            return r;
        }
        let stop: usize = if end > from && x[end - 1] == '\r' {
            end - 1
        } else {
            end
        };
        let line = string_of(&x, from, stop);
        let ghost k = index_of(rest, '\n');
        assert(rest.take(k) =~= x@.subrange(from as int, end as int));
        assert(line@ =~= drop_cr(rest.take(k)));
        assert(rest.skip(k + 1) =~= x@.skip(end + 1));
        let ghost before = r@;
        r.push(line);
        from = end + 1;
        assert(views(before) + (seq![line@] + lines(x@.skip(from as int))) =~= views(r@) + lines(
            x@.skip(from as int),
        ));
    }
    assert(lines(x@.skip(from as int)) =~= Seq::<Seq<char>>::empty());
    assert(views(r@) + Seq::<Seq<char>>::empty() =~= views(r@));
    r
}

/// The pieces of `s` between the characters `c`: one more than there are `c`.
pub open spec fn pieces(s: Seq<char>, c: char) -> Seq<Seq<char>>
    decreases s.len(),
{
    let k = index_of(s, c);
    if k < 0 || k >= s.len() {
        seq![s]
    } else {
        seq![s.take(k)] + pieces(s.skip(k + 1), c)
    }
}

/// The pieces of `s` between the characters `c`.
pub fn split(s: &str, c: char) -> (r: Vec<String>)
    ensures
        views(r@) == pieces(s@, c),
{
    broadcast use group_views;

    let x = chars_of(s);
    let mut r: Vec<String> = Vec::new();
    let mut from: usize = 0;
    assert(x@.skip(0) =~= s@);
    assert(views(r@) + pieces(x@.skip(0), c) =~= pieces(s@, c));
    loop
        invariant
            from <= x@.len(),
            views(r@) + pieces(x@.skip(from as int), c) == pieces(s@, c),
        decreases x.len() - from,
    {
        let ghost rest = x@.skip(from as int);
        let end: usize = find_from(&x, c, from);
        let piece = string_of(&x, from, end);
        let ghost before = r@;
        let ghost k = index_of(rest, c);
        if end == x.len() {
            assert(piece@ =~= rest);
            r.push(piece);
            assert(views(before) + seq![rest] =~= views(r@));
            return r;
        }
        assert(rest.take(k) =~= piece@);
        assert(rest.skip(k + 1) =~= x@.skip(end + 1));
        r.push(piece);
        from = end + 1;
        assert(views(before) + (seq![piece@] + pieces(x@.skip(from as int), c)) =~= views(r@)
            + pieces(x@.skip(from as int), c));
    }
}

/// The length of the run without white space at the start of `s`.
pub open spec fn word_len(s: Seq<char>) -> int
    decreases s.len(),
{
    if s.len() == 0 || is_space(s[0]) {
        0
    } else {
        1 + word_len(s.drop_first())
    }
}

/// The words of `s`, separated by white space.
pub open spec fn words(s: Seq<char>) -> Seq<Seq<char>>
    decreases s.len(),
    via words_decreases
{
    let t = trim_start(s);
    let k = word_len(t);
    if t.len() == 0 {
        Seq::empty()
    } else {
        seq![t.take(k)] + words(t.skip(k))
    }
}

#[via_fn]
proof fn words_decreases(s: Seq<char>) {
    let t = trim_start(s);
    lemma_trim_start_len(s);
    lemma_word_len(t);
    if t.len() > 0 {
        assert(!is_space(t[0]));
        assert(word_len(t) >= 1) by {
            lemma_word_len(t.drop_first());
        }
    }
}

proof fn lemma_trim_start_len(s: Seq<char>)
    ensures
        trim_start(s).len() <= s.len(),
        trim_start(s).len() > 0 ==> !is_space(trim_start(s)[0]),
    decreases s.len(),
{
    if s.len() > 0 && is_space(s[0]) {
        lemma_trim_start_len(s.drop_first());
    }
}

proof fn lemma_word_len(s: Seq<char>)
    ensures
        0 <= word_len(s) <= s.len(),
    decreases s.len(),
{
    if s.len() > 0 && !is_space(s[0]) {
        lemma_word_len(s.drop_first());
    }
}

/// The words of `s`, separated by white space.
pub fn words_of(s: &str) -> (r: Vec<String>)
    ensures
        views(r@) == words(s@),
{
    broadcast use group_views;

    let x = chars_of(s);
    let mut r: Vec<String> = Vec::new();
    let mut from: usize = 0;
    assert(x@.skip(0) =~= s@);
    assert(views(r@) + words(x@.skip(0)) =~= words(s@));
    loop
        invariant
            from <= x@.len(),
            views(r@) + words(x@.skip(from as int)) == words(s@),
        decreases x.len() - from,
    {
        let start: usize = skip_space(&x, from);
        let ghost t = x@.skip(start as int);
        if start == x.len() {
            assert(words(x@.skip(from as int)) =~= Seq::<Seq<char>>::empty());
            assert(views(r@) + Seq::<Seq<char>>::empty() =~= views(r@));
            return r;
        }
        proof {
            lemma_trim_start_len(x@.skip(from as int));
        }
        let mut end: usize = start;
        while end < x.len() && !space(x[end])
            invariant
                start <= end <= x@.len(),
                start + word_len(x@.skip(start as int)) == end + word_len(x@.skip(end as int)),
            decreases x.len() - end,
        {
            assert(x@.skip(end as int).drop_first() =~= x@.skip(end + 1));
            end = end + 1;
        }
        assert(end == start + word_len(t));
        assert(end > start) by {
            lemma_word_len(t.drop_first());
        }
        let word = string_of(&x, start, end);
        assert(t.take(word_len(t)) =~= word@);
        assert(t.skip(word_len(t)) =~= x@.skip(end as int));
        let ghost before = r@;
        r.push(word);
        from = end;
        assert(views(before) + (seq![word@] + words(x@.skip(from as int))) =~= views(r@) + words(
            x@.skip(from as int),
        ));
    }
}

// ── numbers ──────────────────────────────────────────────────────────────────

/// `c` is one of the ten decimal digits.
pub open spec fn is_digit(c: char) -> bool {
    '0' <= c <= '9'
}

/// The number that a run of decimal digits stands for.
pub open spec fn digits_value(s: Seq<char>) -> nat
    decreases s.len(),
{
    if s.len() == 0 {
        0
    } else {
        digits_value(s.drop_last()) * 10 + (s.last() as nat - '0' as nat) as nat
    }
}

/// `s` without one leading plus sign.
pub open spec fn drop_plus(s: Seq<char>) -> Seq<char> {
    if s.len() > 0 && s[0] == '+' {
        s.drop_first()
    } else {
        s
    }
}

/// The unsigned decimal number that `s` spells: an optional plus sign and at
/// least one digit, for a number of at most `max`.
pub open spec fn number_of(s: Seq<char>, max: nat) -> Option<nat> {
    let d = drop_plus(s);
    if d.len() > 0 && (forall|i: int| 0 <= i < d.len() ==> is_digit(#[trigger] d[i]))
        && digits_value(d) <= max {
        Some(digits_value(d))
    } else {
        None
    }
}

/// A run of digits stands for no less than any run that starts it.
proof fn lemma_digits_grow(s: Seq<char>, n: int)
    requires
        0 <= n <= s.len(),
        forall|i: int| 0 <= i < s.len() ==> is_digit(#[trigger] s[i]),
    ensures
        digits_value(s.take(n)) <= digits_value(s),
    decreases s.len() - n,
{
    if n < s.len() {
        lemma_digits_grow(s, n + 1);
        assert(s.take(n + 1).drop_last() =~= s.take(n));
        assert(is_digit(s[n]));
    } else {
        assert(s.take(n) =~= s);
    }
}

/// The unsigned decimal number of at most `max` that `s` spells.
pub fn parse_number(s: &str, max: u64) -> (r: Option<u64>)
    ensures
        match r {
            Some(v) => number_of(s@, max as nat) == Some(v as nat),
            None => number_of(s@, max as nat) is None,
        },
{
    let x = chars_of(s);
    let from: usize = if x.len() > 0 && x[0] == '+' {
        1
    } else {
        0
    };
    let ghost d = drop_plus(s@);
    assert(d =~= x@.skip(from as int));
    if from == x.len() {
        return None;
    }
    let mut v: u64 = 0;
    let mut i: usize = from;
    assert(d.take(0) =~= Seq::<char>::empty());
    while i < x.len()
        invariant
            from <= i <= x@.len(),
            d == x@.skip(from as int),
            d == drop_plus(s@),
            v <= max,
            v as nat == digits_value(d.take(i - from)),
            forall|j: int| 0 <= j < i - from ==> is_digit(#[trigger] d[j]),
        decreases x.len() - i,
    {
        let c: char = x[i];
        let ghost k = i - from;
        assert(d[k] == c);
        assert(d.take(k + 1).drop_last() =~= d.take(k));
        if c < '0' || c > '9' {
            assert(!is_digit(d[k]));
            return None;
        }
        let digit: u64 = (c as u32 - '0' as u32) as u64;
        let wide: u128 = v as u128 * 10 + digit as u128;
        assert(digits_value(d.take(k + 1)) == wide as nat);
        if wide > max as u128 {
            proof {
                if forall|j: int| 0 <= j < d.len() ==> is_digit(#[trigger] d[j]) {
                    lemma_digits_grow(d, k + 1);
                }
            }
            return None;
        }
        v = wide as u64;
        i = i + 1;
    }
    assert(d.take(i - from) =~= d);
    Some(v)
}

/// The character of a single digit.
pub open spec fn digit_char(d: nat) -> char {
    ('0' as nat + d) as char
}

/// The decimal digits of `n`, without leading zeros.
pub open spec fn decimal(n: nat) -> Seq<char>
    decreases n,
{
    if n < 10 {
        seq![digit_char(n)]
    } else {
        decimal(n / 10).push(digit_char(n % 10))
    }
}

fn digit_of(d: u64) -> (r: char)
    requires
        d < 10,
    ensures
        r == digit_char(d as nat),
{
    let b: u8 = 48u8 + d as u8;
    b as char
}

/// The decimal digits of `n`.
pub fn decimal_of(n: u64) -> (r: String)
    ensures
        r@ == decimal(n as nat),
    decreases n,
{
    if n < 10 {
        let mut r: String = String::new();
        r.push(digit_of(n));
        assert(r@ =~= decimal(n as nat));
        r
    } else {
        let mut r: String = decimal_of(n / 10);
        r.push(digit_of(n % 10));
        r
    }
}

/// Reading back the digits of a number gives the number.
pub proof fn decimal_reads_back(n: nat, max: nat)
    requires
        n <= max,
    ensures
        number_of(decimal(n), max) == Some(n),
{
    lemma_decimal(n);
    assert(drop_plus(decimal(n)) == decimal(n));
}

proof fn lemma_decimal(n: nat)
    ensures
        decimal(n).len() > 0,
        forall|i: int| 0 <= i < decimal(n).len() ==> is_digit(#[trigger] decimal(n)[i]),
        digits_value(decimal(n)) == n,
        decimal(n)[0] != '+',
    decreases n,
{
    if n < 10 {
        assert(decimal(n).drop_last() =~= Seq::<char>::empty());
        assert(digits_value(decimal(n).drop_last()) == 0);
    } else {
        lemma_decimal(n / 10);
        assert(decimal(n).drop_last() =~= decimal(n / 10));
        assert(is_digit(decimal(n)[0]));
    }
}

// ── layout ───────────────────────────────────────────────────────────────────

/// `n` times the character `c`.
pub open spec fn repeated(c: char, n: int) -> Seq<char> {
    Seq::new(if n > 0 {
        n as nat
    } else {
        0
    }, |i: int| c)
}

/// `s` filled up with `fill` on its right to at least `width` characters.
pub open spec fn padded_right(s: Seq<char>, width: int, fill: char) -> Seq<char> {
    s + repeated(fill, width - s.len())
}

/// `s` filled up with spaces on its left to at least `width` characters.
pub open spec fn padded_left(s: Seq<char>, width: int) -> Seq<char> {
    repeated(' ', width - s.len()) + s
}

/// `n` times the character `c`.
pub fn repeat(c: char, n: usize) -> (r: String)
    ensures
        r@ == repeated(c, n as int),
{
    let mut r: String = String::new();
    let mut i: usize = 0;
    assert(r@ =~= repeated(c, 0));
    while i < n
        invariant
            i <= n,
            r@ == repeated(c, i as int),
        decreases n - i,
    {
        r.push(c);
        i = i + 1;
        assert(r@ =~= repeated(c, i as int));
    }
    r
}

/// `s` filled up with `fill` on its right to at least `width` characters.
pub fn pad_right(s: &str, width: usize, fill: char) -> (r: String)
    ensures
        r@ == padded_right(s@, width as int, fill),
{
    let n: usize = s.unicode_len();
    let mut r: String = owned(s);
    let fills = repeat(fill, if n < width { width - n } else { 0 });
    assert(fills@ =~= repeated(fill, width - s@.len()));
    r.append(fills.as_str());
    r
}

/// `s` filled up with spaces on its left to at least `width` characters.
pub fn pad_left(s: &str, width: usize) -> (r: String)
    ensures
        r@ == padded_left(s@, width as int),
{
    let n: usize = s.unicode_len();
    let mut r: String = repeat(' ', if n < width { width - n } else { 0 });
    assert(r@ =~= repeated(' ', width - s@.len()));
    r.append(s);
    r
}

// ── bytes ────────────────────────────────────────────────────────────────────

/// The number of bytes of `c` in UTF-8.
pub open spec fn char_bytes(c: char) -> nat {
    let u = c as u32;
    if u < 0x80 {
        1
    } else if u < 0x800 {
        2
    } else if u < 0x1_0000 {
        3
    } else {
        4
    }
}

/// The number of bytes of `s` in UTF-8.
pub open spec fn byte_len(s: Seq<char>) -> nat
    decreases s.len(),
{
    if s.len() == 0 {
        0
    } else {
        char_bytes(s[0]) + byte_len(s.drop_first())
    }
}

/// How many characters of `s` make up its first `n` bytes, where a character
/// ends there.
pub open spec fn chars_in(s: Seq<char>, n: int) -> Option<int>
    decreases s.len(),
{
    if n == 0 {
        Some(0)
    } else if s.len() == 0 || n < char_bytes(s[0]) {
        None
    } else {
        match chars_in(s.drop_first(), n - char_bytes(s[0])) {
            Some(k) => Some(k + 1),
            None => None,
        }
    }
}

/// The bytes `from..to` of `s` as text, where both ends stand between characters.
pub open spec fn byte_slice(s: Seq<char>, from: int, to: int) -> Option<Seq<char>> {
    match (chars_in(s, from), chars_in(s, to)) {
        (Some(i), Some(j)) => if 0 <= i <= j <= s.len() {
            Some(s.subrange(i, j))
        } else {
            None
        },
        _ => None,
    }
}

fn width_of(c: char) -> (r: usize)
    ensures
        r == char_bytes(c),
        1 <= r <= 4,
{
    let u: u32 = c as u32;
    if u < 0x80 {
        1
    } else if u < 0x800 {
        2
    } else if u < 0x1_0000 {
        3
    } else {
        4
    }
}

/// Whether `s` has more than `n` bytes.
pub fn longer_than(s: &Vec<char>, n: usize) -> (r: bool)
    ensures
        r == (byte_len(s@) > n),
{
    let mut left: usize = n;
    let mut i: usize = 0;
    assert(s@.skip(0) =~= s@);
    while i < s.len()
        invariant
            i <= s@.len(),
            (byte_len(s@) > n) == (byte_len(s@.skip(i as int)) > left),
        decreases s.len() - i,
    {
        assert(s@.skip(i as int).drop_first() =~= s@.skip(i + 1));
        let w: usize = width_of(s[i]);
        if w > left {
            return true;
        }
        left = left - w;
        i = i + 1;
    }
    false
}

/// How many characters of `s` make up its first `n` bytes, where a character
/// ends there.
pub fn chars_up_to(s: &Vec<char>, n: usize) -> (r: Option<usize>)
    ensures
        match r {
            Some(k) => chars_in(s@, n as int) == Some(k as int) && k <= s@.len(),
            None => chars_in(s@, n as int) is None,
        },
{
    let mut left: usize = n;
    let mut i: usize = 0;
    assert(s@.skip(0) =~= s@);
    while left > 0
        invariant
            i <= s@.len(),
            match chars_in(s@.skip(i as int), left as int) {
                Some(k) => chars_in(s@, n as int) == Some(k + i),
                None => chars_in(s@, n as int) is None,
            },
        decreases s.len() - i,
    {
        if i == s.len() {
            return None;
        }
        assert(s@.skip(i as int).drop_first() =~= s@.skip(i + 1));
        let w: usize = width_of(s[i]);
        if w > left {
            return None;
        }
        left = left - w;
        i = i + 1;
    }
    Some(i)
}

/// The bytes `from..to` of `s` as text, where both ends stand between characters.
pub fn slice_bytes(s: &Vec<char>, from: usize, to: usize) -> (r: Option<String>)
    requires
        from <= to,
    ensures
        opt_view(r) == byte_slice(s@, from as int, to as int),
{
    match (chars_up_to(s, from), chars_up_to(s, to)) {
        (Some(i), Some(j)) => {
            proof {
                lemma_chars_in_order(s@, from as int, to as int);
            }
            Some(string_of(s, i, j))
        },
        _ => None,
    }
}

proof fn lemma_chars_in_order(s: Seq<char>, a: int, b: int)
    requires
        0 <= a <= b,
        chars_in(s, a) is Some,
        chars_in(s, b) is Some,
    ensures
        0 <= chars_in(s, a)->0 <= chars_in(s, b)->0,
    decreases s.len(),
{
    if a > 0 {
        let w = char_bytes(s[0]) as int;
        lemma_chars_in_order(s.drop_first(), a - w, b - w);
    } else if b > 0 {
        let w = char_bytes(s[0]) as int;
        lemma_chars_in_order(s.drop_first(), 0, b - w);
    }
}

/// `s` where it has at most `max` bytes, else its first `max - 1` bytes and an
/// ellipsis.
pub open spec fn truncated(s: Seq<char>, max: int) -> Seq<char> {
    if byte_len(s) <= max {
        s
    } else {
        s.take(chars_in(s, if max > 0 {
            max - 1
        } else {
            0
        }).unwrap_or(0)).push('…')
    }
}

/// `s` can be cut to `max` bytes: it is short enough, or a character ends where
/// it would be cut.
pub open spec fn can_truncate(s: Seq<char>, max: int) -> bool {
    byte_len(s) <= max || chars_in(s, if max > 0 {
        max - 1
    } else {
        0
    }) is Some
}

/// Whether `s` can be cut to `max` bytes between two of its characters.
pub fn truncatable(s: &str, max: usize) -> (r: bool)
    ensures
        r == can_truncate(s@, max as int),
{
    let x = chars_of(s);
    !longer_than(&x, max) || chars_up_to(&x, max.saturating_sub(1)).is_some()
}

/// `s` cut to `max` bytes: unchanged where it is short enough, else ending in an
/// ellipsis.
pub fn truncate(s: &str, max: usize) -> (r: String)
    requires
        can_truncate(s@, max as int),
    ensures
        r@ == truncated(s@, max as int),
{
    let x = chars_of(s);
    if !longer_than(&x, max) {
        return owned(s);
    }
    match chars_up_to(&x, max.saturating_sub(1)) {
        Some(k) => {
            let mut r = string_of(&x, 0, k);
            r.push('…');
            assert(x@.subrange(0, k as int) =~= s@.take(k as int));
            r
        },
        None => owned(s),
    }
}

// ── repeated ends ────────────────────────────────────────────────────────────

/// `s` without any `p` at its start, however often it stands there.
pub open spec fn without_front(s: Seq<char>, p: Seq<char>) -> Seq<char>
    decreases s.len(),
{
    if p.len() > 0 && p.is_prefix_of(s) {
        without_front(s.skip(p.len() as int), p)
    } else {
        s
    }
}

/// `s` without any `p` at its end, however often it stands there.
pub open spec fn without_back(s: Seq<char>, p: Seq<char>) -> Seq<char>
    decreases s.len(),
{
    if p.len() > 0 && p.is_suffix_of(s) {
        without_back(s.take(s.len() - p.len()), p)
    } else {
        s
    }
}

/// `s` without any `p` at its start.
pub fn strip_front(s: &str, p: &str) -> (r: String)
    requires
        p@.len() > 0,
    ensures
        r@ == without_front(s@, p@),
{
    let x = chars_of(s);
    let y = chars_of(p);
    let n: usize = y.len();
    let mut from: usize = 0;
    assert(x@.skip(0) =~= s@);
    while x.len() - from >= n && matches_at(&x, &y, from)
        invariant
            from <= x@.len(),
            n == y@.len(),
            n > 0,
            y@ == p@,
            without_front(s@, p@) == without_front(x@.skip(from as int), p@),
        decreases x.len() - from,
    {
        proof {
            let rest = x@.skip(from as int);
            assert(rest.subrange(0, n as int) =~= x@.subrange(from as int, from + n));
            assert(p@.is_prefix_of(rest));
            assert(rest.skip(n as int) =~= x@.skip(from + n));
        }
        from = from + n;
    }
    proof {
        let rest = x@.skip(from as int);
        if p@.is_prefix_of(rest) {
            assert(rest.subrange(0, n as int) =~= x@.subrange(from as int, from + n));
        }
        assert(x@.subrange(from as int, x@.len() as int) =~= rest);
    }
    string_of(&x, from, x.len())
}

/// `s` without any `p` at its end.
pub fn strip_back(s: &str, p: &str) -> (r: String)
    requires
        p@.len() > 0,
    ensures
        r@ == without_back(s@, p@),
{
    let x = chars_of(s);
    let y = chars_of(p);
    let n: usize = y.len();
    let mut to: usize = x.len();
    assert(x@.take(to as int) =~= s@);
    while to >= n && matches_at(&x, &y, to - n)
        invariant
            to <= x@.len(),
            n == y@.len(),
            n > 0,
            y@ == p@,
            without_back(s@, p@) == without_back(x@.take(to as int), p@),
        decreases to,
    {
        proof {
            let rest = x@.take(to as int);
            assert(rest.subrange(to - n, to as int) =~= x@.subrange(to - n, to as int));
            assert(p@.is_suffix_of(rest));
            assert(rest.take(to - n) =~= x@.take(to - n));
        }
        to = to - n;
    }
    proof {
        let rest = x@.take(to as int);
        if p@.is_suffix_of(rest) {
            assert(rest.subrange(to - n, to as int) =~= x@.subrange(to - n, to as int));
        }
        assert(x@.subrange(0, to as int) =~= rest);
    }
    string_of(&x, 0, to)
}

// ── order ────────────────────────────────────────────────────────────────────

/// `a` comes before `b`: at the first difference its character is smaller, or it ends.
pub open spec fn comes_before(a: Seq<char>, b: Seq<char>) -> bool
    decreases a.len(),
{
    if b.len() == 0 {
        false
    } else if a.len() == 0 {
        true
    } else {
        (a[0] as int) < (b[0] as int) || (a[0] == b[0] && comes_before(
            a.drop_first(),
            b.drop_first(),
        ))
    }
}

/// Every text comes before all that follow it.
pub open spec fn ascending(list: Seq<Seq<char>>) -> bool {
    forall|i: int, j: int|
        0 <= i < j < list.len() ==> comes_before(#[trigger] list[i], #[trigger] list[j])
}

proof fn lemma_before_is_total(a: Seq<char>, b: Seq<char>)
    ensures
        comes_before(a, b) || comes_before(b, a) || a == b,
        !(comes_before(a, b) && comes_before(b, a)),
        a == b ==> !comes_before(a, b),
    decreases a.len(),
{
    if a.len() > 0 && b.len() > 0 {
        lemma_before_is_total(a.drop_first(), b.drop_first());
        if a[0] == b[0] && a.drop_first() == b.drop_first() {
            assert(a =~= seq![a[0]] + a.drop_first());
            assert(b =~= seq![b[0]] + b.drop_first());
        }
    } else if a.len() == 0 && b.len() == 0 {
        assert(a =~= b);
    }
}

proof fn lemma_before_is_transitive(a: Seq<char>, b: Seq<char>, c: Seq<char>)
    requires
        comes_before(a, b),
        comes_before(b, c),
    ensures
        comes_before(a, c),
    decreases a.len(),
{
    if a.len() > 0 && a[0] == b[0] && b[0] == c[0] {
        lemma_before_is_transitive(a.drop_first(), b.drop_first(), c.drop_first());
    }
}

fn smaller(c: char, d: char) -> (r: bool)
    ensures
        r == ((c as int) < (d as int)),
{
    (c as u32) < (d as u32)
}

/// Whether `a` comes before `b`.
pub fn precedes(a: &str, b: &str) -> (r: bool)
    ensures
        r == comes_before(a@, b@),
{
    let x = chars_of(a);
    let y = chars_of(b);
    let mut i: usize = 0;
    assert(x@.skip(0) =~= a@);
    assert(y@.skip(0) =~= b@);
    while i < x.len() && i < y.len()
        invariant
            i <= x@.len(),
            i <= y@.len(),
            comes_before(a@, b@) == comes_before(x@.skip(i as int), y@.skip(i as int)),
        decreases x.len() - i,
    {
        proof {
            assert(x@.skip(i as int).drop_first() =~= x@.skip(i + 1));
            assert(y@.skip(i as int).drop_first() =~= y@.skip(i + 1));
        }
        let c: char = x[i];
        let d: char = y[i];
        if c != d {
            return smaller(c, d);
        }
        i = i + 1;
    }
    i < y.len()
}

/// The texts of a list in ascending order, each once.
pub fn sort_dedup(list: &Vec<String>) -> (r: Vec<String>)
    ensures
        ascending(views(r@)),
        forall|s: Seq<char>| #[trigger] views(r@).contains(s) <==> views(list@).contains(s),
{
    broadcast use group_views;

    let ghost all = views(list@);
    let mut r: Vec<String> = Vec::new();
    let mut i: usize = 0;
    assert(views(r@) =~= Seq::<Seq<char>>::empty());
    while i < list.len()
        invariant
            i <= list@.len(),
            all == views(list@),
            ascending(views(r@)),
            forall|s: Seq<char>| #[trigger]
                views(r@).contains(s) <==> all.take(i as int).contains(s),
        decreases list.len() - i,
    {
        let ghost before = views(r@);
        let item: &str = list[i].as_str();
        assert(all[i as int] == item@);
        let mut p: usize = 0;
        while p < r.len() && precedes(r[p].as_str(), item)
            invariant
                p <= r@.len(),
                before == views(r@),
                forall|j: int| 0 <= j < p ==> comes_before(#[trigger] before[j], item@),
            decreases r.len() - p,
        {
            assert(before[p as int] == r@[p as int]@);
            p = p + 1;
        }
        let known: bool = p < r.len() && same(r[p].as_str(), item);
        proof {
            if p < r@.len() {
                assert(before[p as int] == r@[p as int]@);
                lemma_before_is_total(before[p as int], item@);
            }
        }
        if !known {
            let copy = owned(item);
            r.insert(p, copy);
            proof {
                assert(views(r@) =~= before.insert(p as int, item@));
                lemma_inserted_ascending(before, p as int, item@);
            }
        }
        proof {
            let now = views(r@);
            assert forall|s: Seq<char>| #[trigger]
                now.contains(s) <==> all.take(i + 1).contains(s) by {
                lemma_contains_take(all, i as int, s);
                assert(before.contains(s) <==> all.take(i as int).contains(s));
                if known {
                    assert(before[p as int] == item@);
                } else {
                    lemma_contains_insert(before, p as int, item@, s);
                }
            }
        }
        i = i + 1;
    }
    assert(all.take(i as int) =~= all);
    r
}

/// One more item of a list.
pub proof fn lemma_contains_take(all: Seq<Seq<char>>, i: int, s: Seq<char>)
    requires
        0 <= i < all.len(),
    ensures
        all.take(i + 1).contains(s) <==> all.take(i).contains(s) || s == all[i],
{
    if all.take(i).contains(s) {
        let k = choose|k: int| 0 <= k < i && all.take(i)[k] == s;
        assert(all.take(i + 1)[k] == s);
    }
    if s == all[i] {
        assert(all.take(i + 1)[i] == s);
    }
    let more = all.take(i + 1);
    if more.contains(s) {
        let k = choose|k: int| 0 <= k < more.len() && more[k] == s;
        if k < i {
            assert(all.take(i)[k] == s);
        }
    }
}

/// A list with an item added at its end.
pub proof fn lemma_contains_push(list: Seq<Seq<char>>, x: Seq<char>, s: Seq<char>)
    ensures
        list.push(x).contains(s) <==> list.contains(s) || s == x,
{
    let t = list.push(x);
    if list.contains(s) {
        let k = choose|k: int| 0 <= k < list.len() && list[k] == s;
        assert(t[k] == s);
    }
    if s == x {
        assert(t[list.len() as int] == s);
    }
    if t.contains(s) {
        let k = choose|k: int| 0 <= k < t.len() && t[k] == s;
        if k < list.len() {
            assert(list[k] == s);
        }
    }
}

proof fn lemma_contains_insert(list: Seq<Seq<char>>, p: int, x: Seq<char>, s: Seq<char>)
    requires
        0 <= p <= list.len(),
    ensures
        list.insert(p, x).contains(s) <==> list.contains(s) || s == x,
{
    let t = list.insert(p, x);
    if list.contains(s) {
        let k = choose|k: int| 0 <= k < list.len() && list[k] == s;
        if k < p {
            assert(t[k] == s);
        } else {
            assert(t[k + 1] == s);
        }
    }
    if s == x {
        assert(t[p] == s);
    }
    if t.contains(s) {
        let k = choose|k: int| 0 <= k < t.len() && t[k] == s;
        if k < p {
            assert(list[k] == s);
        } else if k > p {
            assert(list[k - 1] == s);
        }
    }
}

proof fn lemma_inserted_ascending(list: Seq<Seq<char>>, p: int, x: Seq<char>)
    requires
        ascending(list),
        0 <= p <= list.len(),
        forall|j: int| 0 <= j < p ==> comes_before(#[trigger] list[j], x),
        p < list.len() ==> comes_before(x, list[p]),
    ensures
        ascending(list.insert(p, x)),
{
    let t = list.insert(p, x);
    assert forall|i: int, j: int| 0 <= i < j < t.len() implies comes_before(
        #[trigger] t[i],
        #[trigger] t[j],
    ) by {
        if i == p {
            assert(t[j] == list[j - 1]);
            if j - 1 > p {
                assert(comes_before(list[p], list[j - 1]));
                lemma_before_is_transitive(x, list[p], list[j - 1]);
            }
        } else if j == p {
            assert(t[i] == list[i]);
        } else {
            let a = if i < p {
                i
            } else {
                i - 1
            };
            let b = if j < p {
                j
            } else {
                j - 1
            };
            assert(t[i] == list[a] && t[j] == list[b]);
        }
    }
}

// ── how texts are taken apart ────────────────────────────────────────────────

proof fn lemma_index_at(a: Seq<char>, c: char, b: Seq<char>)
    requires
        !a.contains(c),
    ensures
        index_of(a, c) == a.len(),
        index_of(a + seq![c] + b, c) == a.len(),
{
    let s = a + seq![c] + b;
    lemma_index_of(a, c);
    lemma_index_of(s, c);
    if index_of(a, c) < a.len() {
        assert(a.contains(a[index_of(a, c)]));
    }
    assert(s[a.len() as int] == c);
    if index_of(s, c) < a.len() {
        assert(a.contains(a[index_of(s, c)]));
    }
}

/// A text without the separator is one piece; what stands before a first separator is a
/// piece, and the others are those of what follows it.
pub proof fn pieces_stand_between(a: Seq<char>, c: char, b: Seq<char>)
    requires
        !a.contains(c),
    ensures
        pieces(a, c) == seq![a],
        pieces(a + seq![c] + b, c) == seq![a] + pieces(b, c),
{
    lemma_index_at(a, c, b);
    let s = a + seq![c] + b;
    assert(s.take(a.len() as int) =~= a);
    assert(s.skip(a.len() as int + 1) =~= b);
}

/// A line ends at a line feed, with or without a carriage return before it, or at the end
/// of a text; nothing else ends one.
pub proof fn lines_end_at_line_feeds(a: Seq<char>, b: Seq<char>)
    requires
        !a.contains('\n'),
    ensures
        lines(Seq::empty()) == Seq::<Seq<char>>::empty(),
        a.len() > 0 ==> lines(a) == seq![a],
        a.len() == 0 || a.last() != '\r' ==> lines(a + seq!['\n'] + b) == seq![a] + lines(b),
        lines(a + seq!['\r', '\n'] + b) == seq![a] + lines(b),
{
    lemma_index_at(a, '\n', b);
    let s = a + seq!['\n'] + b;
    assert(s.take(a.len() as int) =~= a);
    assert(s.skip(a.len() as int + 1) =~= b);
    let cr = a.push('\r');
    assert forall|i: int| 0 <= i < cr.len() implies cr[i] != '\n' by {
        if i < a.len() {
            assert(a.contains(a[i]));
        }
    }
    lemma_index_at(cr, '\n', b);
    let t = a + seq!['\r', '\n'] + b;
    assert(t =~= cr + seq!['\n'] + b);
    assert(t.take(cr.len() as int) =~= cr);
    assert(t.skip(cr.len() as int + 1) =~= b);
    assert(cr.drop_last() =~= a);
}

/// White space is the blank, the tabulators, the ends of lines and pages, and the wider
/// blanks and separators beyond ASCII.
pub proof fn what_white_space_is(c: char)
    ensures
        is_space(c) <==> c == ' ' || c == '\t' || c == '\n' || c == '\r' || c == '\u{b}' || c
            == '\u{c}' || c == '\u{85}' || c == '\u{a0}' || c == '\u{1680}' || (c >= '\u{2000}'
            && c <= '\u{200a}') || c == '\u{2028}' || c == '\u{2029}' || c == '\u{202f}' || c
            == '\u{205f}' || c == '\u{3000}',
{
}

/// Every character of `s` is white space.
pub open spec fn blank(s: Seq<char>) -> bool {
    forall|i: int| 0 <= i < s.len() ==> is_space(#[trigger] s[i])
}

proof fn lemma_trim_start(gap: Seq<char>, rest: Seq<char>)
    requires
        blank(gap),
        rest.len() == 0 || !is_space(rest[0]),
    ensures
        trim_start(gap + rest) == rest,
    decreases gap.len(),
{
    let s = gap + rest;
    if gap.len() == 0 {
        assert(s =~= rest);
    } else {
        assert(is_space(gap[0]));
        assert(s[0] == gap[0]);
        assert(s.drop_first() =~= gap.drop_first() + rest);
        lemma_trim_start(gap.drop_first(), rest);
    }
}

proof fn lemma_trim_end(rest: Seq<char>, gap: Seq<char>)
    requires
        blank(gap),
        rest.len() == 0 || !is_space(rest.last()),
    ensures
        trim_end(rest + gap) == rest,
    decreases gap.len(),
{
    let s = rest + gap;
    if gap.len() == 0 {
        assert(s =~= rest);
    } else {
        assert(is_space(gap.last()));
        assert(s.last() == gap.last());
        assert(s.drop_last() =~= rest + gap.drop_last());
        lemma_trim_end(rest, gap.drop_last());
    }
}

/// Trimming takes away the white space around a text, all of it and nothing else.
pub proof fn trimming_takes_white_space(front: Seq<char>, core: Seq<char>, back: Seq<char>)
    requires
        blank(front),
        blank(back),
        core.len() > 0 ==> !is_space(core[0]) && !is_space(core.last()),
    ensures
        trim(front + core + back) == core,
{
    if core.len() == 0 {
        let none = Seq::<char>::empty();
        assert(front + core + back =~= (front + back) + none);
        lemma_trim_start(front + back, none);
        assert(core =~= none);
        lemma_trim_end(none, none);
        assert(none + none =~= none);
    } else {
        assert(front + core + back =~= front + (core + back));
        lemma_trim_start(front, core + back);
        lemma_trim_end(core, back);
    }
}

proof fn lemma_word_ends(w: Seq<char>, b: Seq<char>)
    requires
        forall|i: int| 0 <= i < w.len() ==> !is_space(#[trigger] w[i]),
        b.len() == 0 || is_space(b[0]),
    ensures
        word_len(w + b) == w.len(),
    decreases w.len(),
{
    let s = w + b;
    if w.len() == 0 {
        assert(s =~= b);
    } else {
        assert(!is_space(w[0]));
        assert(s[0] == w[0]);
        assert(s.drop_first() =~= w.drop_first() + b);
        lemma_word_ends(w.drop_first(), b);
    }
}

/// White space holds no word; a run without white space that ends at white space or with
/// the text is a word, and the others are those of what follows it.
pub proof fn words_stand_between_white_space(gap: Seq<char>, w: Seq<char>, b: Seq<char>)
    requires
        blank(gap),
        w.len() > 0,
        forall|i: int| 0 <= i < w.len() ==> !is_space(#[trigger] w[i]),
        b.len() == 0 || is_space(b[0]),
    ensures
        words(gap) == Seq::<Seq<char>>::empty(),
        words(gap + w + b) == seq![w] + words(b),
{
    let none = Seq::<char>::empty();
    lemma_trim_start(gap, none);
    assert(gap + none =~= gap);
    assert(!is_space(w[0]));
    let t = w + b;
    assert(gap + w + b =~= gap + t);
    lemma_trim_start(gap, t);
    lemma_word_ends(w, b);
    assert(t.take(w.len() as int) =~= w);
    assert(t.skip(w.len() as int) =~= b);
}

/// A number is read digit by digit from the left: another digit makes it ten times as
/// large and adds its value, up to the largest number allowed. A plus sign before it
/// changes nothing. A text with anything else in it, or without a digit, is no number.
pub proof fn numbers_are_read_by_digits(s: Seq<char>, d: char, max: nat, i: int)
    requires
        is_digit(d),
    ensures
        number_of(seq![d], max) == (if d as nat - '0' as nat <= max {
            Some((d as nat - '0' as nat) as nat)
        } else {
            None
        }),
        number_of(s, max) matches Some(v) ==> number_of(s.push(d), max) == (if 10 * v + (d as nat
            - '0' as nat) <= max {
            Some((10 * v + (d as nat - '0' as nat)) as nat)
        } else {
            None
        }),
        s.len() > 0 && s[0] != '+' ==> number_of(seq!['+'] + s, max) == number_of(s, max),
        s.len() == 0 || s == seq!['+'] ==> number_of(s, max) is None,
        0 <= i < s.len() && (s[i] < '0' || s[i] > '9') && (i > 0 || s[i] != '+') ==> number_of(
            s,
            max,
        ) is None,
{
    let one = seq![d];
    assert(one.drop_last() =~= Seq::<char>::empty());
    assert(digits_value(one.drop_last()) == 0);
    assert(one.last() == d);
    assert(drop_plus(one) == one);
    if let Some(v) = number_of(s, max) {
        let a = drop_plus(s);
        let b = drop_plus(s.push(d));
        assert(b =~= a.push(d));
        assert(b.drop_last() =~= a);
        assert forall|j: int| 0 <= j < b.len() implies is_digit(#[trigger] b[j]) by {
            if j < a.len() {
                assert(is_digit(a[j]));
            }
        }
    }
    if s.len() > 0 {
        assert((seq!['+'] + s).drop_first() =~= s);
    }
    if 0 <= i < s.len() && (s[i] < '0' || s[i] > '9') && (i > 0 || s[i] != '+') {
        let a = drop_plus(s);
        let k = if s[0] == '+' {
            i - 1
        } else {
            i
        };
        assert(a[k] == s[i]);
        assert(!is_digit(a[k]));
    }
}

/// Filling up keeps the text, adds nothing but the fill, and reaches the width or, where
/// the text is wider already, adds nothing at all.
pub proof fn filling_up_reaches_the_width(s: Seq<char>, width: int, fill: char, i: int)
    ensures
        ({
            let r = padded_right(s, width, fill);
            let l = padded_left(s, width);
            let n = r.len();
            &&& n == l.len() && n >= width && n >= s.len() && (n == width || n == s.len())
            &&& 0 <= i < s.len() ==> r[i] == s[i] && l[n - s.len() + i] == s[i]
            &&& s.len() <= i < n ==> r[i] == fill
            &&& 0 <= i < n - s.len() ==> l[i] == ' '
        }),
{
}

/// UTF-8 gives a character one byte in ASCII, and two, three or four beyond; the bytes of
/// a text are those of its parts.
pub proof fn bytes_add_up(a: Seq<char>, b: Seq<char>, c: char)
    ensures
        byte_len(a + b) == byte_len(a) + byte_len(b),
        byte_len(seq![c]) == (if c <= '\u{7f}' {
            1nat
        } else if c <= '\u{7ff}' {
            2
        } else if c <= '\u{ffff}' {
            3
        } else {
            4
        }),
    decreases a.len(),
{
    assert(seq![c].drop_first() =~= Seq::<char>::empty());
    assert(byte_len(seq![c].drop_first()) == 0);
    if a.len() == 0 {
        assert(a + b =~= b);
    } else {
        assert((a + b).drop_first() =~= a.drop_first() + b);
        bytes_add_up(a.drop_first(), b, c);
    }
}

proof fn lemma_chars_in(a: Seq<char>, b: Seq<char>)
    ensures
        chars_in(a + b, byte_len(a) as int) == Some(a.len() as int),
    decreases a.len(),
{
    if a.len() > 0 {
        let s = a + b;
        assert(s[0] == a[0]);
        assert(s.drop_first() =~= a.drop_first() + b);
        lemma_chars_in(a.drop_first(), b);
    }
}

/// The bytes that a part of a text takes up give that part back.
pub proof fn slices_are_by_bytes(a: Seq<char>, b: Seq<char>, c: Seq<char>)
    ensures
        byte_slice(a + b + c, byte_len(a) as int, (byte_len(a) + byte_len(b)) as int) == Some(b),
{
    let s = a + b + c;
    lemma_chars_in(a, b + c);
    assert(s =~= a + (b + c));
    lemma_chars_in(a + b, c);
    bytes_add_up(a, b, 'a');
    assert(s.subrange(a.len() as int, (a + b).len() as int) =~= b);
}

/// A text that is short enough stays as it is. A longer one keeps as many characters as
/// fill all but one byte of the room, and an ellipsis follows them.
pub proof fn cutting_keeps_the_front(a: Seq<char>, b: Seq<char>, max: int)
    ensures
        byte_len(a + b) <= max ==> truncated(a + b, max) == a + b,
        byte_len(a + b) > max && byte_len(a) == max - 1 ==> truncated(a + b, max) == a.push('…')
            && can_truncate(a + b, max),
        byte_len(b) > 0 ==> truncated(b, 0) == seq!['…'],
{
    lemma_chars_in(a, b);
    assert((a + b).take(a.len() as int) =~= a);
    assert(b.take(0).push('…') =~= seq!['…']);
}

/// What stands behind the last separator is what follows it; a text without one is all
/// behind it.
pub proof fn the_last_separator_counts(a: Seq<char>, c: char, b: Seq<char>)
    requires
        !b.contains(c),
    ensures
        last_index_of(b, c) == -1,
        after_last(b, c) == b,
        last_index_of(a + seq![c] + b, c) == a.len(),
        after_last(a + seq![c] + b, c) == b,
    decreases b.len(),
{
    let s = a + seq![c] + b;
    if b.len() > 0 {
        assert(b.contains(b.last()));
        let less = b.drop_last();
        assert forall|i: int| 0 <= i < less.len() implies less[i] != c by {
            assert(b.contains(b[i]));
        }
        the_last_separator_counts(a, c, less);
        assert(s.drop_last() =~= a + seq![c] + less);
        assert(s.last() == b.last());
    } else {
        assert(s.last() == c);
    }
    assert(b.skip(0) =~= b);
    assert(s.skip(a.len() as int + 1) =~= b);
}

/// The last place at which a text stands: it stands there and nowhere after it, and there
/// is none exactly where it stands nowhere.
pub proof fn the_last_place_is_found(s: Seq<char>, p: Seq<char>, n: int, j: int)
    ensures
        ({
            let k = last_occurrence(s, p, n);
            &&& -1 <= k && (k < n || k == -1)
            &&& k >= 0 ==> occurs_at(s, p, k)
            &&& k < j < n ==> !occurs_at(s, p, j)
        }),
    decreases n,
{
    if n > 0 {
        the_last_place_is_found(s, p, n - 1, j);
    }
}

/// A text stands in another one exactly where that one consists of it and what stands
/// before and behind it.
pub proof fn parts_are_found(s: Seq<char>, a: Seq<char>, p: Seq<char>, b: Seq<char>)
    ensures
        has(a + p + b, p),
        has(s, p) ==> exists|x: Seq<char>, y: Seq<char>| s == #[trigger] (x + p + y),
{
    let t = a + p + b;
    assert(t.subrange(a.len() as int, (a.len() + p.len()) as int) =~= p);
    assert(occurs_at(t, p, a.len() as int));
    if has(s, p) {
        let i = choose|i: int| occurs_at(s, p, i);
        let x = s.take(i);
        let y = s.skip(i + p.len());
        assert forall|k: int| 0 <= k < s.len() implies s[k] == (x + p + y)[k] by {
            if i <= k < i + p.len() {
                assert(s.subrange(i, i + p.len())[k - i] == s[k]);
            }
        }
        assert(s =~= x + p + y);
    }
}

/// Stripping takes a mark away as often as it stands at the end in question, and leaves a
/// text alone that does not have it there.
pub proof fn stripping_repeats(s: Seq<char>, p: Seq<char>)
    requires
        p.len() > 0,
    ensures
        without_front(p + s, p) == without_front(s, p),
        !p.is_prefix_of(s) ==> without_front(s, p) == s,
        without_back(s + p, p) == without_back(s, p),
        !p.is_suffix_of(s) ==> without_back(s, p) == s,
{
    assert((p + s).skip(p.len() as int) =~= s);
    assert(p.is_prefix_of(p + s)) by {
        assert((p + s).subrange(0, p.len() as int) =~= p);
    }
    let t = s + p;
    assert(t.subrange(t.len() - p.len(), t.len() as int) =~= p);
    assert(t.take(t.len() - p.len()) =~= s);
}

/// Texts are ordered by the first character in which they differ, and a text comes before
/// every longer one that it starts.
pub proof fn order_goes_by_the_first_difference(
    p: Seq<char>,
    x: char,
    a: Seq<char>,
    y: char,
    b: Seq<char>,
)
    ensures
        x < y ==> comes_before(p + seq![x] + a, p + seq![y] + b),
        x > y ==> !comes_before(p + seq![x] + a, p + seq![y] + b),
        comes_before(p, p + seq![x] + a),
        !comes_before(p + seq![x] + a, p),
        !comes_before(p, p),
    decreases p.len(),
{
    let s = p + seq![x] + a;
    let t = p + seq![y] + b;
    if p.len() > 0 {
        let q = p.drop_first();
        assert(s.drop_first() =~= q + seq![x] + a);
        assert(t.drop_first() =~= q + seq![y] + b);
        assert(s[0] == p[0] && t[0] == p[0]);
        order_goes_by_the_first_difference(q, x, a, y, b);
    } else {
        assert(s[0] == x && t[0] == y);
    }
}

/// Nothing is left of a text by trimming it exactly where it is all white space.
pub proof fn only_white_space_trims_away(s: Seq<char>)
    ensures
        trim(s).len() == 0 <==> blank(s),
{
    let none = Seq::<char>::empty();
    if blank(s) {
        trimming_takes_white_space(s, none, none);
        assert(s + none + none =~= s);
    } else {
        lemma_start_stays(s);
        lemma_end_stays(trim_start(s));
    }
}

proof fn lemma_start_stays(s: Seq<char>)
    requires
        !blank(s),
    ensures
        !blank(trim_start(s)),
    decreases s.len(),
{
    let i = choose|i: int| 0 <= i < s.len() && !is_space(#[trigger] s[i]);
    if is_space(s[0]) {
        let rest = s.drop_first();
        assert(rest[i - 1] == s[i]);
        assert(!blank(rest));
        lemma_start_stays(rest);
    }
}

proof fn lemma_end_stays(s: Seq<char>)
    requires
        !blank(s),
    ensures
        trim_end(s).len() > 0,
    decreases s.len(),
{
    let i = choose|i: int| 0 <= i < s.len() && !is_space(#[trigger] s[i]);
    if is_space(s.last()) {
        let rest = s.drop_last();
        assert(i < s.len() - 1);
        assert(rest[i] == s[i]);
        assert(!blank(rest));
        lemma_end_stays(rest);
    }
}

} // verus!
