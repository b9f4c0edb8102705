//! JSON documents as plain values.
//!
//! Text is read by `serde_json`. What it hands back is taken apart level by level
//! into [`Json`], which the rest of the library works on.

use vstd::prelude::*;
use crate::{lists, text};

verus! {

broadcast use crate::text::group_views;

// ── the model ────────────────────────────────────────────────────────────────

/// A JSON value.
pub enum Json {
    Null,
    Bool(bool),
    Number(Number),
    Text(String),
    List(Vec<Json>),
    Object(Vec<Member>),
}

/// A number: its value where it is a whole number that fits, and its digits.
pub struct Number {
    pub unsigned: Option<u64>,
    pub digits: String,
}

/// A member of an object.
pub struct Member {
    pub key: String,
    pub value: Json,
}

/// The view of a [`Json`].
pub enum JsonView {
    Null,
    Bool(bool),
    Number(NumberView),
    Text(Seq<char>),
    List(Seq<JsonView>),
    Object(Seq<MemberView>),
}

/// The view of a [`Number`].
pub struct NumberView {
    pub unsigned: Option<u64>,
    pub digits: Seq<char>,
}

/// The view of a [`Member`].
pub struct MemberView {
    pub key: Seq<char>,
    pub value: JsonView,
}

impl View for Number {
    type V = NumberView;

    open spec fn view(&self) -> NumberView {
        NumberView { unsigned: self.unsigned, digits: self.digits@ }
    }
}

/// The view of a JSON value.
pub open spec fn json_view(j: Json) -> JsonView
    decreases j,
{
    match j {
        Json::Null => JsonView::Null,
        Json::Bool(b) => JsonView::Bool(b),
        Json::Number(n) => JsonView::Number(n@),
        Json::Text(s) => JsonView::Text(s@),
        Json::List(items) => JsonView::List(json_views(items@)),
        Json::Object(members) => JsonView::Object(member_views(members@)),
    }
}

/// The views of JSON values, in order.
pub open spec fn json_views(items: Seq<Json>) -> Seq<JsonView>
    decreases items,
{
    if items.len() == 0 {
        Seq::empty()
    } else {
        json_views(items.subrange(0, items.len() - 1)).push(json_view(items[items.len() - 1]))
    }
}

/// The view of a member.
pub open spec fn member_view(m: Member) -> MemberView
    decreases m,
{
    MemberView { key: m.key@, value: json_view(m.value) }
}

/// The views of members, in order.
pub open spec fn member_views(members: Seq<Member>) -> Seq<MemberView>
    decreases members,
{
    if members.len() == 0 {
        Seq::empty()
    } else {
        member_views(members.subrange(0, members.len() - 1)).push(
            member_view(members[members.len() - 1]),
        )
    }
}

impl View for Json {
    type V = JsonView;

    open spec fn view(&self) -> JsonView {
        json_view(*self)
    }
}

impl View for Member {
    type V = MemberView;

    open spec fn view(&self) -> MemberView {
        member_view(*self)
    }
}

proof fn lemma_json_views(items: Seq<Json>)
    ensures
        json_views(items) == text::views(items),
    decreases items.len(),
{
    if items.len() > 0 {
        lemma_json_views(items.subrange(0, items.len() - 1));
    }
    assert(json_views(items) =~= text::views(items));
}

proof fn lemma_member_views(members: Seq<Member>)
    ensures
        member_views(members) == text::views(members),
    decreases members.len(),
{
    if members.len() > 0 {
        lemma_member_views(members.subrange(0, members.len() - 1));
    }
    assert(member_views(members) =~= text::views(members));
}

/// A list is seen through the views of its items.
pub broadcast proof fn lemma_list_view(items: Vec<Json>)
    ensures
        #[trigger] json_view(Json::List(items)) == JsonView::List(text::views(items@)),
{
    lemma_json_views(items@);
    assert(json_view(Json::List(items)) == JsonView::List(json_views(items@)));
}

/// An object is seen through the views of its members.
pub broadcast proof fn lemma_object_view(members: Vec<Member>)
    ensures
        #[trigger] json_view(Json::Object(members)) == JsonView::Object(text::views(members@)),
{
    lemma_member_views(members@);
    assert(json_view(Json::Object(members)) == JsonView::Object(member_views(members@)));
}

pub broadcast group group_json_views {
    lemma_list_view,
    lemma_object_view,
}

// ── members ──────────────────────────────────────────────────────────────────

/// The index of the first member with this key.
pub open spec fn position(members: Seq<MemberView>, key: Seq<char>) -> Option<int>
    decreases members.len(),
{
    if members.len() == 0 {
        None
    } else {
        match position(members.drop_last(), key) {
            Some(i) => Some(i),
            None => if members.last().key == key {
                Some(members.len() - 1)
            } else {
                None
            },
        }
    }
}

/// The value of a member of an object; none where it has no such member, and of
/// anything that is no object.
pub open spec fn member(v: JsonView, key: Seq<char>) -> Option<JsonView> {
    match v {
        JsonView::Object(members) => match position(members, key) {
            Some(i) => Some(members[i].value),
            None => None,
        },
        _ => None,
    }
}

/// The first member with a key is a member with that key, and none before it is.
pub proof fn lemma_position(members: Seq<MemberView>, key: Seq<char>)
    ensures
        match position(members, key) {
            Some(i) => 0 <= i < members.len() && members[i].key == key && forall|j: int|
                0 <= j < i ==> (#[trigger] members[j]).key != key,
            None => forall|j: int| 0 <= j < members.len() ==> (#[trigger] members[j]).key != key,
        },
    decreases members.len(),
{
    if members.len() > 0 {
        let rest = members.drop_last();
        lemma_position(rest, key);
        assert forall|j: int| 0 <= j < rest.len() implies #[trigger] members[j] == rest[j] by {}
    }
}

/// No key occurs twice among members.
pub open spec fn distinct_keys(members: Seq<MemberView>) -> bool {
    forall|i: int, j: int|
        0 <= i < j < members.len() ==> (#[trigger] members[i]).key != (#[trigger] members[j]).key
}

/// No object in the value, however deep, has a key twice.
pub open spec fn unambiguous(v: JsonView) -> bool
    decreases v,
{
    match v {
        JsonView::List(items) => forall|i: int|
            0 <= i < items.len() ==> unambiguous(#[trigger] items[i]),
        JsonView::Object(members) => distinct_keys(members) && forall|i: int|
            0 <= i < members.len() ==> unambiguous((#[trigger] members[i]).value),
        _ => true,
    }
}

/// There is a member with this key and this value.
pub open spec fn has_member(members: Seq<MemberView>, key: Seq<char>, value: JsonView) -> bool {
    exists|i: int|
        0 <= i < members.len() && (#[trigger] members[i]).key == key && members[i].value == value
}

/// Where no key occurs twice, the member of an object with a key is the only one with it,
/// wherever it stands, and there is none only where no member has the key.
pub proof fn member_is_the_only_one(members: Seq<MemberView>, key: Seq<char>, value: JsonView)
    requires
        distinct_keys(members),
    ensures
        member(JsonView::Object(members), key) == Some(value) <==> has_member(
            members,
            key,
            value,
        ),
{
    lemma_position(members, key);
    if has_member(members, key, value) {
        let i = choose|i: int|
            0 <= i < members.len() && (#[trigger] members[i]).key == key && members[i].value
                == value;
        assert(position(members, key) == Some(i));
    }
}

/// The order of members does not matter: two objects with the same members, in neither of
/// which a key occurs twice, give the same for every key.
pub proof fn members_have_no_order(a: Seq<MemberView>, b: Seq<MemberView>, key: Seq<char>)
    requires
        distinct_keys(a),
        distinct_keys(b),
        forall|value: JsonView| has_member(a, key, value) <==> has_member(b, key, value),
    ensures
        member(JsonView::Object(a), key) == member(JsonView::Object(b), key),
{
    if let Some(value) = member(JsonView::Object(a), key) {
        member_is_the_only_one(a, key, value);
        member_is_the_only_one(b, key, value);
    }
    if let Some(value) = member(JsonView::Object(b), key) {
        member_is_the_only_one(a, key, value);
        member_is_the_only_one(b, key, value);
    }
}

/// The index of the first member with this key.
pub fn position_of(members: &Vec<Member>, key: &str) -> (r: Option<usize>)
    ensures
        match r {
            Some(i) => position(text::views(members@), key@) == Some(i as int) && i
                < members@.len(),
            None => position(text::views(members@), key@) is None,
        },
{
    let ghost all = text::views(members@);
    let mut i: usize = 0;
    proof {
        lemma_position(all, key@);
    }
    while i < members.len()
        invariant
            i <= members@.len(),
            all == text::views(members@),
            forall|j: int| 0 <= j < i ==> (#[trigger] all[j]).key != key@,
            match position(all, key@) {
                Some(i) => 0 <= i < all.len() && all[i].key == key@ && forall|j: int|
                    0 <= j < i ==> (#[trigger] all[j]).key != key@,
                None => forall|j: int| 0 <= j < all.len() ==> (#[trigger] all[j]).key != key@,
            },
        decreases members.len() - i,
    {
        assert(all[i as int].key == members@[i as int].key@);
        if text::same(members[i].key.as_str(), key) {
            return Some(i);
        }
        i = i + 1;
    }
    None
}

impl Json {
    /// The value of a member of an object.
    pub fn get(&self, key: &str) -> (r: Option<&Json>)
        ensures
            match r {
                Some(v) => member(self@, key@) == Some(v@),
                None => member(self@, key@) is None,
            },
    {
        broadcast use group_json_views;

        match self {
            Json::Object(members) => match position_of(members, key) {
                Some(i) => Some(&members[i].value),
                None => None,
            },
            _ => None,
        }
    }

    /// The value of a whole number that fits.
    pub fn as_u64(&self) -> (r: Option<u64>)
        ensures
            r == whole(self@),
    {
        match self {
            Json::Number(n) => n.unsigned,
            _ => None,
        }
    }

    /// A whole number.
    pub fn whole(n: u64) -> (r: Json)
        ensures
            r@ == whole_number(n),
    {
        Json::Number(Number { unsigned: Some(n), digits: text::decimal_of(n) })
    }
}

/// The value of a JSON number that is whole and fits; none of anything else.
pub open spec fn whole(v: JsonView) -> Option<u64> {
    match v {
        JsonView::Number(n) => n.unsigned,
        _ => None,
    }
}

/// A whole number as a JSON value.
pub open spec fn whole_number(n: u64) -> JsonView {
    JsonView::Number(NumberView { unsigned: Some(n), digits: text::decimal(n as nat) })
}

// ── reading ──────────────────────────────────────────────────────────────────

/// Where and why a text is no JSON document.
pub struct Fault {
    pub line: usize,
    pub column: usize,
    pub message: String,
}

/// The view of a [`Fault`].
pub struct FaultView {
    pub line: int,
    pub column: int,
    pub message: Seq<char>,
}

impl View for Fault {
    type V = FaultView;

    open spec fn view(&self) -> FaultView {
        FaultView { line: self.line as int, column: self.column as int, message: self.message@ }
    }
}

/// `serde_json::Value`, carried as it is.
#[verifier::external_type_specification]
#[verifier::external_body]
pub struct OutsideValue(serde_json::Value);

/// What a `serde_json::Value` holds.
pub uninterp spec fn content(v: serde_json::Value) -> JsonView;

/// The document that `serde_json::from_str` reads in a text, or why it reads none.
pub uninterp spec fn document(s: Seq<char>) -> Result<JsonView, FaultView>;

/// `serde_json::from_str` on a `Value`. The outcome is a function of the text
/// alone: the value read, or the line, the column and the words of the error.
#[verifier::external_body]
fn read_value(s: &str) -> (r: Result<serde_json::Value, Fault>)
    ensures
        document(s@) == (match r {
            Ok(v) => Ok(content(v)),
            Err(e) => Err(e@),
        }),
{
    match serde_json::from_str::<serde_json::Value>(s) {
        Ok(v) => Ok(v),
        Err(e) => Err(Fault { line: e.line(), column: e.column(), message: e.to_string() }),
    }
}

/// The outermost level of a `serde_json::Value`.
enum Level {
    Null,
    Bool(bool),
    Number(Number),
    Text(String),
    List(Vec<serde_json::Value>),
    Object(Vec<(String, serde_json::Value)>),
}

spec fn level_view(l: Level) -> JsonView {
    match l {
        Level::Null => JsonView::Null,
        Level::Bool(b) => JsonView::Bool(b),
        Level::Number(n) => JsonView::Number(n@),
        Level::Text(s) => JsonView::Text(s@),
        Level::List(items) => JsonView::List(
            items@.map_values(|v: serde_json::Value| content(v)),
        ),
        Level::Object(members) => JsonView::Object(
            members@.map_values(
                |m: (String, serde_json::Value)| MemberView { key: m.0@, value: content(m.1) },
            ),
        ),
    }
}

/// No key occurs twice where the level is an object.
spec fn level_distinct(l: Level) -> bool {
    level_view(l) matches JsonView::Object(members) ==> distinct_keys(members)
}

/// Takes a `serde_json::Value` apart by its variant. What it holds is what the
/// variant's fields hold: a number by `Number::as_u64` and its text, an array
/// by its items, an object by its members in the order of the map. The map holds
/// each key once.
#[verifier::external_body]
fn outermost(v: serde_json::Value) -> (r: Level)
    ensures
        level_view(r) == content(v),
        level_distinct(r),
{
    match v {
        serde_json::Value::Null => Level::Null,
        serde_json::Value::Bool(b) => Level::Bool(b),
        serde_json::Value::Number(n) => Level::Number(
            Number { unsigned: n.as_u64(), digits: n.to_string() },
        ),
        serde_json::Value::String(s) => Level::Text(s),
        serde_json::Value::Array(items) => Level::List(items),
        serde_json::Value::Object(members) => Level::Object(members.into_iter().collect()),
    }
}

fn json_of(v: serde_json::Value) -> (r: Json)
    ensures
        r@ == content(v),
        unambiguous(r@),
    decreases content(v),
{
    broadcast use group_json_views;

    match outermost(v) {
        Level::Null => Json::Null,
        Level::Bool(b) => Json::Bool(b),
        Level::Number(n) => Json::Number(n),
        Level::Text(s) => Json::Text(s),
        Level::List(items) => {
            let ghost all = items@;
            let ghost want = content(v)->List_0;
            let mut todo: Vec<serde_json::Value> = lists::reversed(items);
            let mut done: Vec<Json> = Vec::new();
            while todo.len() > 0
                invariant
                    content(v) == JsonView::List(want),
                    want == all.map_values(|v: serde_json::Value| content(v)),
                    todo@.len() + done@.len() == all.len(),
                    todo@ == all.skip(done@.len() as int).reverse(),
                    text::views(done@) == want.take(done@.len() as int),
                    forall|i: int| 0 <= i < done@.len() ==> unambiguous(#[trigger] want[i]),
                decreases todo.len(),
            {
                match todo.pop() {
                    Some(item) => {
                        proof {
                            let k = done@.len() as int;
                            assert(content(item) == want[k]);
                            assert(decreases_to!(content(v) => content(v)->List_0));
                            assert(decreases_to!(want => want[k]));
                        }
                        let j = json_of(item);
                        done.push(j);
                        assert(text::views(done@) =~= want.take(done@.len() as int));
                        assert(todo@ =~= all.skip(done@.len() as int).reverse());
                    },
                    None => {},
                }
            }
            assert(text::views(done@) =~= want);
            Json::List(done)
        },
        Level::Object(members) => {
            let ghost all = members@;
            let ghost want = content(v)->Object_0;
            let mut todo: Vec<(String, serde_json::Value)> = lists::reversed(members);
            let mut done: Vec<Member> = Vec::new();
            while todo.len() > 0
                invariant
                    content(v) == JsonView::Object(want),
                    want == all.map_values(
                        |m: (String, serde_json::Value)|
                            MemberView { key: m.0@, value: content(m.1) },
                    ),
                    todo@.len() + done@.len() == all.len(),
                    todo@ == all.skip(done@.len() as int).reverse(),
                    text::views(done@) == want.take(done@.len() as int),
                    distinct_keys(want),
                    forall|i: int|
                        0 <= i < done@.len() ==> unambiguous((#[trigger] want[i]).value),
                decreases todo.len(),
            {
                match todo.pop() {
                    Some(member) => {
                        let (key, item) = member;
                        proof {
                            let k = done@.len() as int;
                            assert(want[k] == (MemberView { key: key@, value: content(item) }));
                            assert(decreases_to!(content(v) => content(v)->Object_0));
                            assert(decreases_to!(want => want[k]));
                            assert(decreases_to!(want[k] => want[k].value));
                        }
                        let value = json_of(item);
                        done.push(Member { key, value });
                        assert(text::views(done@) =~= want.take(done@.len() as int));
                        assert(todo@ =~= all.skip(done@.len() as int).reverse());
                    },
                    None => {},
                }
            }
            assert(text::views(done@) =~= want);
            Json::Object(done)
        },
    }
}

/// Reads a JSON document. No object in it has a key twice.
pub fn parse(s: &str) -> (r: Result<Json, Fault>)
    ensures
        text::res_view(r) == document(s@),
        r matches Ok(j) ==> unambiguous(j@),
{
    match read_value(s) {
        Ok(v) => Ok(json_of(v)),
        Err(e) => Err(e),
    }
}

/// A whole number in a document reads back as the number, and nothing but a number is one.
pub proof fn whole_numbers_read_back(n: u64, v: JsonView)
    ensures
        whole(whole_number(n)) == Some(n),
        whole(v) is Some ==> v is Number,
{
}

} // verus!
