//! Bringing a configuration document up to the current schema.
//!
//! Migration only adds: fields that a document lacks get their defaults, and
//! nothing that it holds is changed or removed, apart from the version itself.

use vstd::prelude::*;
use crate::json::{Json, JsonView, Member, MemberView};
use crate::{json, text};

verus! {

broadcast use {crate::text::group_views, crate::json::group_json_views};

/// The current version of the schema. It grows when required fields are added.
pub const SCHEMA_VERSION: u32 = 1;

// ── single changes ───────────────────────────────────────────────────────────

/// An object with a member added where it has none of that key.
pub open spec fn with_default(v: JsonView, key: Seq<char>, default: JsonView) -> JsonView {
    match v {
        JsonView::Object(members) => if json::position(members, key) is None {
            JsonView::Object(members.push(MemberView { key, value: default }))
        } else {
            v
        },
        _ => v,
    }
}

/// An object in which one member's own object has a member added where it has none of
/// that key.
pub open spec fn with_default_in(
    v: JsonView,
    section: Seq<char>,
    key: Seq<char>,
    default: JsonView,
) -> JsonView {
    match v {
        JsonView::Object(members) => match json::position(members, section) {
            Some(i) => JsonView::Object(
                members.update(
                    i,
                    MemberView {
                        key: members[i].key,
                        value: with_default(members[i].value, key, default),
                    },
                ),
            ),
            None => v,
        },
        _ => v,
    }
}

/// An object with a member set.
pub open spec fn with_member(v: JsonView, key: Seq<char>, value: JsonView) -> JsonView {
    match v {
        JsonView::Object(members) => match json::position(members, key) {
            Some(i) => JsonView::Object(
                members.update(i, MemberView { key: members[i].key, value }),
            ),
            None => JsonView::Object(members.push(MemberView { key, value })),
        },
        _ => v,
    }
}

fn add_default(v: Json, key: &str, default: Json) -> (r: Json)
    ensures
        r@ == with_default(v@, key@, default@),
{
    match v {
        Json::Object(members) => {
            let mut list = members;
            if json::position_of(&list, key).is_none() {
                let m = Member { key: text::owned(key), value: default };
                list.push(m);
            }
            Json::Object(list)
        },
        other => other,
    }
}

fn add_default_in(v: Json, section: &str, key: &str, default: Json) -> (r: Json)
    ensures
        r@ == with_default_in(v@, section@, key@, default@),
{
    match v {
        Json::Object(members) => {
            let ghost before = text::views(members@);
            let mut list = members;
            match json::position_of(&list, section) {
                Some(i) => {
                    let Member { key: name, value } = list.remove(i);
                    let m = Member { key: name, value: add_default(value, key, default) };
                    list.insert(i, m);
                    assert(text::views(list@) =~= before.update(i as int, m@));
                },
                None => {},
            }
            Json::Object(list)
        },
        other => other,
    }
}

fn set_member(v: Json, key: &str, value: Json) -> (r: Json)
    ensures
        r@ == with_member(v@, key@, value@),
{
    match v {
        Json::Object(members) => {
            let ghost before = text::views(members@);
            let mut list = members;
            match json::position_of(&list, key) {
                Some(i) => {
                    let Member { key: name, value: _ } = list.remove(i);
                    let m = Member { key: name, value };
                    list.insert(i, m);
                    assert(text::views(list@) =~= before.update(i as int, m@));
                },
                None => {
                    let m = Member { key: text::owned(key), value };
                    list.push(m);
                },
            }
            Json::Object(list)
        },
        other => other,
    }
}

// ── the migration ────────────────────────────────────────────────────────────

/// The fields that the first version of the schema added to sections: the section,
/// the key and the default.
pub open spec fn added_fields() -> Seq<(Seq<char>, Seq<char>, JsonView)> {
    seq![
        ("schedule"@, "snapshot_audit_interval_days"@, json::whole_number(3)),
        ("optimizer"@, "coreduet_cleanup"@, JsonView::Bool(true)),
        ("optimizer"@, "saved_state_max_age_days"@, json::whole_number(30)),
        ("optimizer"@, "notification_center_cleanup"@, JsonView::Bool(true)),
        ("optimizer"@, "broken_launch_agents"@, JsonView::Bool(true)),
        ("optimizer"@, "periodic_maintenance"@, JsonView::Bool(true)),
        ("optimizer"@, "increase_fd_limit"@, JsonView::Bool(true)),
        ("rogue_list"@, "process_names"@, JsonView::List(Seq::empty())),
    ]
}

/// The block that the first version of the schema added.
pub open spec fn process_killer_block() -> JsonView {
    JsonView::Object(
        seq![
            MemberView { key: "enabled"@, value: JsonView::Bool(true) },
            MemberView { key: "force_timeout_secs"@, value: json::whole_number(5) },
            MemberView { key: "graceful_timeout_secs"@, value: json::whole_number(3) },
            MemberView { key: "use_launchctl_bootout"@, value: JsonView::Bool(true) },
        ],
    )
}

/// A document with the first `n` of the added fields.
pub open spec fn with_fields(v: JsonView, n: int) -> JsonView
    decreases n,
{
    if n <= 0 {
        v
    } else {
        let (section, key, default) = added_fields()[n - 1];
        with_default_in(with_fields(v, n - 1), section, key, default)
    }
}

/// A document brought up to the current version from `from`.
pub open spec fn migrated(v: JsonView, from: int) -> JsonView {
    let filled = if from < 1 {
        with_default(
            with_fields(v, added_fields().len() as int),
            "process_killer"@,
            process_killer_block(),
        )
    } else {
        v
    };
    with_member(filled, "schema_version"@, json::whole_number(SCHEMA_VERSION as u64))
}

/// The version that a document says it has; 0 where it says none. Only the lowest
/// 32 bits of it count.
pub open spec fn version_of(v: JsonView) -> int {
    match json::member(v, "schema_version"@) {
        Some(n) => match json::whole(n) {
            Some(x) => x as int % 0x1_0000_0000,
            None => 0,
        },
        None => 0,
    }
}

/// A document of an older version brought up to the current one; another as it is.
pub open spec fn current(v: JsonView) -> JsonView {
    if version_of(v) < SCHEMA_VERSION {
        migrated(v, version_of(v))
    } else {
        v
    }
}

fn killer_block() -> (r: Json)
    ensures
        r@ == process_killer_block(),
{
    let mut list: Vec<Member> = Vec::new();
    list.push(Member { key: text::owned("enabled"), value: Json::Bool(true) });
    list.push(Member { key: text::owned("force_timeout_secs"), value: Json::whole(5) });
    list.push(Member { key: text::owned("graceful_timeout_secs"), value: Json::whole(3) });
    list.push(Member { key: text::owned("use_launchctl_bootout"), value: Json::Bool(true) });
    assert(text::views(list@) =~= process_killer_block()->Object_0);
    Json::Object(list)
}

fn add_fields(v: Json) -> (r: Json)
    ensures
        r@ == with_fields(v@, added_fields().len() as int),
{
    proof {
        reveal_with_fuel(with_fields, 9);
    }
    let v1 = add_default_in(v, "schedule", "snapshot_audit_interval_days", Json::whole(3));
    let v2 = add_default_in(v1, "optimizer", "coreduet_cleanup", Json::Bool(true));
    let v3 = add_default_in(v2, "optimizer", "saved_state_max_age_days", Json::whole(30));
    let v4 = add_default_in(v3, "optimizer", "notification_center_cleanup", Json::Bool(true));
    let v5 = add_default_in(v4, "optimizer", "broken_launch_agents", Json::Bool(true));
    let v6 = add_default_in(v5, "optimizer", "periodic_maintenance", Json::Bool(true));
    let v7 = add_default_in(v6, "optimizer", "increase_fd_limit", Json::Bool(true));
    let none = Json::List(Vec::new());
    assert(none@ == JsonView::List(Seq::empty()));
    let v8 = add_default_in(v7, "rogue_list", "process_names", none);
    v8
}

/// Brings a document up to the current version from `from_version`.
pub fn migrate(value: Json, from_version: u32) -> (r: Json)
    ensures
        r@ == migrated(value@, from_version as int),
{
    let filled = if from_version < 1 {
        add_default(add_fields(value), "process_killer", killer_block())
    } else {
        value
    };
    set_member(filled, "schema_version", Json::whole(SCHEMA_VERSION as u64))
}

/// The version that a document says it has.
pub fn file_version(value: &Json) -> (r: u32)
    ensures
        r == version_of(value@),
{
    match value.get("schema_version") {
        Some(n) => match n.as_u64() {
            Some(x) => {
                assert(x % 0x1_0000_0000 <= u32::MAX);
                (x % 0x1_0000_0000) as u32
            },
            None => 0,
        },
        None => 0,
    }
}

/// Brings a document up to the current version where it is older.
pub fn bring_up(value: Json) -> (r: Json)
    ensures
        r@ == current(value@),
{
    let version: u32 = file_version(&value);
    if version < SCHEMA_VERSION {
        migrate(value, version)
    } else {
        value
    }
}

// ── what migration keeps ─────────────────────────────────────────────────────

/// `b` still holds what `a` holds under `key`: the same value, or, where that is an
/// object, an object with the same value under `inner`.
pub open spec fn keeps(a: JsonView, b: JsonView, key: Seq<char>, inner: Seq<char>) -> bool {
    match json::member(a, key) {
        Some(x) => match json::member(b, key) {
            Some(y) => if x is Object {
                &&& y is Object
                &&& json::member(x, inner) is Some ==> json::member(y, inner) == json::member(
                    x,
                    inner,
                )
            } else {
                x == y
            },
            None => false,
        },
        None => true,
    }
}

/// A section either is no object or holds the field.
pub open spec fn filled(v: JsonView, section: Seq<char>, key: Seq<char>) -> bool {
    json::member(v, section) matches Some(x) ==> x is Object ==> json::member(x, key) is Some
}

proof fn lemma_push_member(v: JsonView, key: Seq<char>, default: JsonView, k: Seq<char>)
    ensures
        ({
            let r = with_default(v, key, default);
            &&& v is Object <==> r is Object
            &&& json::member(v, k) is Some ==> json::member(r, k) == json::member(v, k)
            &&& k != key ==> json::member(r, k) == json::member(v, k)
            &&& v is Object ==> json::member(r, key) is Some
        }),
{
    if let JsonView::Object(members) = v {
        let pushed = members.push(MemberView { key, value: default });
        assert(pushed.drop_last() =~= members);
        json::lemma_position(members, k);
        json::lemma_position(members, key);
    }
}

proof fn lemma_same_keys(a: Seq<MemberView>, b: Seq<MemberView>, k: Seq<char>)
    requires
        a.len() == b.len(),
        forall|i: int| 0 <= i < a.len() ==> (#[trigger] a[i]).key == b[i].key,
    ensures
        json::position(a, k) == json::position(b, k),
    decreases a.len(),
{
    if a.len() > 0 {
        lemma_same_keys(a.drop_last(), b.drop_last(), k);
    }
}

proof fn lemma_in_section(
    v: JsonView,
    section: Seq<char>,
    key: Seq<char>,
    default: JsonView,
    k: Seq<char>,
)
    ensures
        json::member(with_default_in(v, section, key, default), k) == (match json::member(v, k) {
            Some(x) => Some(
                if k == section {
                    with_default(x, key, default)
                } else {
                    x
                },
            ),
            None => None,
        }),
        with_default_in(v, section, key, default) is Object <==> v is Object,
{
    if let JsonView::Object(members) = v {
        json::lemma_position(members, section);
        json::lemma_position(members, k);
        if let Some(i) = json::position(members, section) {
            let changed = members.update(
                i,
                MemberView {
                    key: members[i].key,
                    value: with_default(members[i].value, key, default),
                },
            );
            lemma_same_keys(members, changed, k);
        }
    }
}

proof fn lemma_set(v: JsonView, key: Seq<char>, value: JsonView, k: Seq<char>)
    requires
        v is Object,
    ensures
        with_member(v, key, value) is Object,
        json::member(with_member(v, key, value), k) == (if k == key {
            Some(value)
        } else {
            json::member(v, k)
        }),
{
    let members = v->Object_0;
    json::lemma_position(members, key);
    json::lemma_position(members, k);
    match json::position(members, key) {
        Some(i) => {
            let changed = members.update(i, MemberView { key: members[i].key, value });
            lemma_same_keys(members, changed, k);
        },
        None => {
            let pushed = members.push(MemberView { key, value });
            assert(pushed.drop_last() =~= members);
        },
    }
}

proof fn lemma_fields_keep(v: JsonView, n: int, key: Seq<char>, inner: Seq<char>)
    requires
        0 <= n <= added_fields().len(),
    ensures
        keeps(v, with_fields(v, n), key, inner),
        with_fields(v, n) is Object <==> v is Object,
    decreases n,
{
    if n > 0 {
        lemma_fields_keep(v, n - 1, key, inner);
        let before = with_fields(v, n - 1);
        let (section, field, default) = added_fields()[n - 1];
        lemma_in_section(before, section, field, default, key);
        if let Some(x) = json::member(before, key) {
            lemma_push_member(x, field, default, inner);
        }
    }
}

proof fn lemma_fields_filled(v: JsonView, n: int, j: int)
    requires
        0 <= j < n <= added_fields().len(),
    ensures
        filled(with_fields(v, n), added_fields()[j].0, added_fields()[j].1),
    decreases n,
{
    let before = with_fields(v, n - 1);
    let (section, field, default) = added_fields()[n - 1];
    let (s, k, _) = added_fields()[j];
    lemma_in_section(before, section, field, default, s);
    if let Some(x) = json::member(before, s) {
        lemma_push_member(x, field, default, k);
        lemma_push_member(x, field, default, field);
    }
    if j < n - 1 {
        lemma_fields_filled(v, n - 1, j);
    }
}

proof fn lemma_fields_settled(v: JsonView, n: int)
    requires
        0 <= n <= added_fields().len(),
        forall|j: int|
            0 <= j < n ==> filled(v, (#[trigger] added_fields()[j]).0, added_fields()[j].1),
    ensures
        with_fields(v, n) == v,
    decreases n,
{
    if n > 0 {
        lemma_fields_settled(v, n - 1);
        let (section, field, default) = added_fields()[n - 1];
        assert(filled(v, section, field));
        if let JsonView::Object(members) = v {
            json::lemma_position(members, section);
            if let Some(i) = json::position(members, section) {
                let x = members[i].value;
                assert(json::member(v, section) == Some(x));
                assert(with_default(x, field, default) == x);
                assert(members.update(i, MemberView { key: members[i].key, value: x })
                    =~= members);
            }
        }
    }
}

proof fn lemma_names_differ()
    ensures
        "process_killer"@ != "schema_version"@,
        forall|j: int|
            0 <= j < added_fields().len() ==> (#[trigger] added_fields()[j]).0 != "process_killer"@
                && added_fields()[j].0 != "schema_version"@,
{
    reveal_strlit("process_killer");
    reveal_strlit("schema_version");
    reveal_strlit("schedule");
    reveal_strlit("optimizer");
    reveal_strlit("rogue_list");
    assert("process_killer"@[0] == 'p');
    assert("schema_version"@[0] == 's');
    assert("process_killer"@.len() == 14 && "schema_version"@.len() == 14);
    assert forall|j: int| 0 <= j < added_fields().len() implies (#[trigger] added_fields()[j]).0.len()
        < 14 by {
        assert("schedule"@.len() < 14 && "optimizer"@.len() < 14 && "rogue_list"@.len() < 14);
        assert(j == 0 || j == 1 || j == 2 || j == 3 || j == 4 || j == 5 || j == 6 || j == 7);
    }
}

/// Migration is additive: whatever a document holds, in a section or at the top,
/// it holds afterwards, but for the version itself.
pub proof fn migration_only_adds(v: JsonView, from: int, key: Seq<char>, inner: Seq<char>)
    requires
        key != "schema_version"@,
    ensures
        keeps(v, migrated(v, from), key, inner),
{
    let all = added_fields().len() as int;
    lemma_fields_keep(v, all, key, inner);
    let fields = with_fields(v, all);
    lemma_push_member(fields, "process_killer"@, process_killer_block(), key);
    let filled = if from < 1 {
        with_default(fields, "process_killer"@, process_killer_block())
    } else {
        v
    };
    if filled is Object {
        lemma_set(
            filled,
            "schema_version"@,
            json::whole_number(SCHEMA_VERSION as u64),
            key,
        );
    }
}

/// A document that is an object has the current version after migration.
pub proof fn migration_sets_version(v: JsonView, from: int)
    requires
        v is Object,
    ensures
        version_of(migrated(v, from)) == SCHEMA_VERSION,
{
    let all = added_fields().len() as int;
    lemma_fields_keep(v, all, Seq::empty(), Seq::empty());
    let fields = with_fields(v, all);
    lemma_push_member(fields, "process_killer"@, process_killer_block(), "schema_version"@);
    let filled = if from < 1 {
        with_default(fields, "process_killer"@, process_killer_block())
    } else {
        v
    };
    lemma_set(
        filled,
        "schema_version"@,
        json::whole_number(SCHEMA_VERSION as u64),
        "schema_version"@,
    );
}

/// Migration from an older version leaves every added field filled: no section that
/// is an object lacks one, and the added block is there.
pub proof fn migration_fills_every_field(v: JsonView, from: int, j: int)
    requires
        v is Object,
        from < 1,
        0 <= j < added_fields().len(),
    ensures
        filled(migrated(v, from), added_fields()[j].0, added_fields()[j].1),
        json::member(migrated(v, from), "process_killer"@) is Some,
{
    let all = added_fields().len() as int;
    lemma_names_differ();
    lemma_fields_keep(v, all, Seq::empty(), Seq::empty());
    lemma_fields_filled(v, all, j);
    let fields = with_fields(v, all);
    let (s, k, _) = added_fields()[j];
    lemma_push_member(fields, "process_killer"@, process_killer_block(), s);
    let whole = with_default(fields, "process_killer"@, process_killer_block());
    let version = json::whole_number(SCHEMA_VERSION as u64);
    lemma_set(whole, "schema_version"@, version, s);
    lemma_set(whole, "schema_version"@, version, "process_killer"@);
}

/// Migrating twice is the same as migrating once.
pub proof fn migration_is_idempotent(v: JsonView, from: int)
    ensures
        migrated(migrated(v, from), from) == migrated(v, from),
{
    let once = migrated(v, from);
    let all = added_fields().len() as int;
    let version = json::whole_number(SCHEMA_VERSION as u64);
    lemma_fields_keep(v, all, Seq::empty(), Seq::empty());
    lemma_fields_keep(once, all, Seq::empty(), Seq::empty());
    if v is Object {
        let fields = with_fields(v, all);
        let whole = if from < 1 {
            with_default(fields, "process_killer"@, process_killer_block())
        } else {
            v
        };
        lemma_push_member(fields, "process_killer"@, process_killer_block(), Seq::empty());
        lemma_set(whole, "schema_version"@, version, "schema_version"@);
        if from < 1 {
            assert forall|j: int| 0 <= j < added_fields().len() implies filled(
                once,
                (#[trigger] added_fields()[j]).0,
                added_fields()[j].1,
            ) by {
                migration_fills_every_field(v, from, j);
            }
            lemma_fields_settled(once, all);
            migration_fills_every_field(v, from, 0);
        }
        let members = once->Object_0;
        json::lemma_position(members, "schema_version"@);
        let i = json::position(members, "schema_version"@).unwrap();
        assert(members.update(i, MemberView { key: members[i].key, value: version }) =~= members);
    } else {
        lemma_fields_plain(v, all);
    }
}

proof fn lemma_fields_plain(v: JsonView, n: int)
    requires
        !(v is Object),
    ensures
        with_fields(v, n) == v,
    decreases n,
{
    if n > 0 {
        lemma_fields_plain(v, n - 1);
    }
}

/// A document that was brought up to the current version needs nothing more.
pub proof fn current_stays_current(v: JsonView)
    ensures
        current(current(v)) == current(v),
{
    migration_is_idempotent(v, version_of(v));
    if v is Object {
        migration_sets_version(v, version_of(v));
    } else {
        lemma_fields_plain(v, added_fields().len() as int);
    }
}

proof fn lemma_default_unambiguous(v: JsonView, key: Seq<char>, default: JsonView)
    requires
        json::unambiguous(v),
        json::unambiguous(default),
    ensures
        json::unambiguous(with_default(v, key, default)),
{
    if let JsonView::Object(members) = v {
        json::lemma_position(members, key);
        let pushed = members.push(MemberView { key, value: default });
        if json::position(members, key) is None {
            assert forall|i: int| 0 <= i < pushed.len() implies json::unambiguous(
                (#[trigger] pushed[i]).value,
            ) by {
                if i < members.len() {
                    assert(json::unambiguous(members[i].value));
                }
            }
        }
    }
}

proof fn lemma_update_unambiguous(members: Seq<MemberView>, i: int, value: JsonView)
    requires
        json::unambiguous(JsonView::Object(members)),
        json::unambiguous(value),
        0 <= i < members.len(),
    ensures
        json::unambiguous(
            JsonView::Object(members.update(i, MemberView { key: members[i].key, value })),
        ),
{
    let changed = members.update(i, MemberView { key: members[i].key, value });
    assert forall|j: int| 0 <= j < changed.len() implies json::unambiguous(
        (#[trigger] changed[j]).value,
    ) by {
        if j != i {
            assert(json::unambiguous(members[j].value));
        }
    }
    assert forall|a: int, b: int| 0 <= a < b < changed.len() implies (#[trigger] changed[a]).key
        != (#[trigger] changed[b]).key by {
        assert(members[a].key != members[b].key);
    }
}

proof fn lemma_fields_unambiguous(v: JsonView, n: int)
    requires
        json::unambiguous(v),
        0 <= n <= added_fields().len(),
    ensures
        json::unambiguous(with_fields(v, n)),
    decreases n,
{
    if n > 0 {
        lemma_fields_unambiguous(v, n - 1);
        let before = with_fields(v, n - 1);
        let (section, field, default) = added_fields()[n - 1];
        assert(json::unambiguous(default)) by {
            assert(n == 1 || n == 2 || n == 3 || n == 4 || n == 5 || n == 6 || n == 7 || n == 8);
        }
        if let JsonView::Object(members) = before {
            json::lemma_position(members, section);
            if let Some(i) = json::position(members, section) {
                assert(json::unambiguous(members[i].value));
                lemma_default_unambiguous(members[i].value, field, default);
                lemma_update_unambiguous(
                    members,
                    i,
                    with_default(members[i].value, field, default),
                );
            }
        }
    }
}

/// Migration keeps keys distinct: where no object in a document has a key twice, none has
/// afterwards.
pub proof fn migration_keeps_keys_distinct(v: JsonView, from: int)
    requires
        json::unambiguous(v),
    ensures
        json::unambiguous(migrated(v, from)),
{
    let all = added_fields().len() as int;
    let killer = process_killer_block();
    let version = json::whole_number(SCHEMA_VERSION as u64);
    lemma_fields_unambiguous(v, all);
    lemma_block_unambiguous();
    lemma_default_unambiguous(with_fields(v, all), "process_killer"@, killer);
    let filled = if from < 1 {
        with_default(with_fields(v, all), "process_killer"@, killer)
    } else {
        v
    };
    if let JsonView::Object(members) = filled {
        json::lemma_position(members, "schema_version"@);
        match json::position(members, "schema_version"@) {
            Some(i) => {
                lemma_update_unambiguous(members, i, version);
            },
            None => {
                lemma_default_unambiguous(filled, "schema_version"@, version);
            },
        }
    }
}

proof fn lemma_block_unambiguous()
    ensures
        json::unambiguous(process_killer_block()),
{
    reveal_strlit("enabled");
    reveal_strlit("force_timeout_secs");
    reveal_strlit("graceful_timeout_secs");
    reveal_strlit("use_launchctl_bootout");
    assert("enabled"@.len() == 7);
    assert("force_timeout_secs"@.len() == 18);
    assert("graceful_timeout_secs"@.len() == 21);
    assert("use_launchctl_bootout"@.len() == 21);
    assert("graceful_timeout_secs"@[0] == 'g');
    assert("use_launchctl_bootout"@[0] == 'u');
    let members = process_killer_block()->Object_0;
    assert forall|i: int| 0 <= i < members.len() implies json::unambiguous(
        (#[trigger] members[i]).value,
    ) by {
        assert(i == 0 || i == 1 || i == 2 || i == 3);
    }
}

proof fn lemma_field_default(v: JsonView, n: int, section: Seq<char>, key: Seq<char>, x: JsonView)
    requires
        0 <= n <= added_fields().len(),
        json::member(v, section) == Some(x),
        x is Object,
        json::member(x, key) is None,
    ensures
        ({
            let y = json::member(with_fields(v, n), section);
            &&& y matches Some(z) && z is Object
            &&& json::member(y->Some_0, key) is None ==> forall|j: int|
                0 <= j < n ==> !((#[trigger] added_fields()[j]).0 == section
                    && added_fields()[j].1 == key)
            &&& json::member(y->Some_0, key) matches Some(d) ==> exists|j: int|
                0 <= j < n && (#[trigger] added_fields()[j]).0 == section && added_fields()[j].1
                    == key && added_fields()[j].2 == d
        }),
    decreases n,
{
    if n > 0 {
        lemma_field_default(v, n - 1, section, key, x);
        let before = with_fields(v, n - 1);
        let (s, k, d) = added_fields()[n - 1];
        lemma_in_section(before, s, k, d, section);
        let y = json::member(before, section)->Some_0;
        lemma_push_member(y, k, d, key);
        if s == section && k == key && json::member(y, key) is None {
            let members = y->Object_0;
            let pushed = members.push(MemberView { key: k, value: d });
            json::lemma_position(members, key);
            assert(pushed.drop_last() =~= members);
            assert(json::member(with_default(y, k, d), key) == Some(d));
            assert(added_fields()[n - 1].2 == d);
        }
    }
}

/// A field that the schema added gets its default: where a section of an older document is
/// an object without the field, the section has it afterwards, with this value.
pub proof fn added_fields_get_their_defaults(
    v: JsonView,
    section: Seq<char>,
    key: Seq<char>,
    default: JsonView,
    x: JsonView,
)
    requires
        v is Object,
        json::member(v, section) == Some(x),
        x is Object,
        json::member(x, key) is None,
        ({
            ||| section == "schedule"@ && key == "snapshot_audit_interval_days"@ && default
                == json::whole_number(3)
            ||| section == "optimizer"@ && key == "coreduet_cleanup"@ && default
                == JsonView::Bool(true)
            ||| section == "optimizer"@ && key == "saved_state_max_age_days"@ && default
                == json::whole_number(30)
            ||| section == "optimizer"@ && key == "notification_center_cleanup"@ && default
                == JsonView::Bool(true)
            ||| section == "optimizer"@ && key == "broken_launch_agents"@ && default
                == JsonView::Bool(true)
            ||| section == "optimizer"@ && key == "periodic_maintenance"@ && default
                == JsonView::Bool(true)
            ||| section == "optimizer"@ && key == "increase_fd_limit"@ && default
                == JsonView::Bool(true)
            ||| section == "rogue_list"@ && key == "process_names"@ && default == JsonView::List(
                Seq::empty(),
            )
        }),
    ensures
        json::member(migrated(v, 0), section) matches Some(y) && json::member(y, key) == Some(
            default,
        ),
{
    let all = added_fields().len() as int;
    assert(all == 8);
    lemma_names_differ();
    lemma_fields_keep(v, all, Seq::empty(), Seq::empty());
    lemma_field_default(v, all, section, key, x);
    let fields = with_fields(v, all);
    let y = json::member(fields, section)->Some_0;
    lemma_keys_differ();
    let list = added_fields();
    assert(exists|j: int|
        0 <= j < all && (#[trigger] list[j]).0 == section && list[j].1 == key && list[j].2
            == default) by {
        assert(list[0].0 == "schedule"@);
        assert(list[1].0 == "optimizer"@ && list[2].0 == "optimizer"@ && list[3].0 == "optimizer"@
            && list[4].0 == "optimizer"@ && list[5].0 == "optimizer"@ && list[6].0
            == "optimizer"@);
        assert(list[7].0 == "rogue_list"@);
    }
    assert(json::member(y, key) is Some);
    let d = json::member(y, key)->Some_0;
    let j = choose|j: int|
        0 <= j < all && (#[trigger] list[j]).0 == section && list[j].1 == key && list[j].2 == d;
    assert(j == 0 || j == 1 || j == 2 || j == 3 || j == 4 || j == 5 || j == 6 || j == 7);
    assert(d == default);
    let block = process_killer_block();
    lemma_push_member(fields, "process_killer"@, block, section);
    let whole = with_default(fields, "process_killer"@, block);
    lemma_set(whole, "schema_version"@, json::whole_number(SCHEMA_VERSION as u64), section);
    assert(section == list[j].0);
}

proof fn lemma_keys_differ()
    ensures
        forall|i: int, j: int|
            0 <= i < j < added_fields().len() ==> (#[trigger] added_fields()[i]).1 != (
            #[trigger] added_fields()[j]).1,
{
    reveal_strlit("snapshot_audit_interval_days");
    reveal_strlit("coreduet_cleanup");
    reveal_strlit("saved_state_max_age_days");
    reveal_strlit("notification_center_cleanup");
    reveal_strlit("broken_launch_agents");
    reveal_strlit("periodic_maintenance");
    reveal_strlit("increase_fd_limit");
    reveal_strlit("process_names");
    let list = added_fields();
    assert(list[0].1.len() == 28 && list[1].1.len() == 16 && list[2].1.len() == 24
        && list[3].1.len() == 27 && list[4].1.len() == 20 && list[5].1.len() == 20
        && list[6].1.len() == 17 && list[7].1.len() == 13);
    assert(list[4].1[0] == 'b' && list[5].1[0] == 'p');
    assert forall|i: int, j: int| 0 <= i < j < list.len() implies (#[trigger] list[i]).1 != (
    #[trigger] list[j]).1 by {
        assert(i == 0 || i == 1 || i == 2 || i == 3 || i == 4 || i == 5 || i == 6);
        assert(j == 1 || j == 2 || j == 3 || j == 4 || j == 5 || j == 6 || j == 7);
    }
}

/// An older document without settings for ending processes gets them: switched on, with
/// three seconds to quit and five until they are forced, through the service manager.
pub proof fn the_added_block_has_its_defaults(v: JsonView)
    requires
        v is Object,
        json::member(v, "process_killer"@) is None,
    ensures
        json::member(migrated(v, 0), "process_killer"@) matches Some(b) && {
            &&& json::member(b, "enabled"@) == Some(JsonView::Bool(true))
            &&& json::member(b, "graceful_timeout_secs"@) == Some(json::whole_number(3))
            &&& json::member(b, "force_timeout_secs"@) == Some(json::whole_number(5))
            &&& json::member(b, "use_launchctl_bootout"@) == Some(JsonView::Bool(true))
        },
{
    let all = added_fields().len() as int;
    let key = "process_killer"@;
    let block = process_killer_block();
    lemma_names_differ();
    lemma_fields_keep(v, all, Seq::empty(), Seq::empty());
    lemma_fields_add_no_section(v, all, key);
    let fields = with_fields(v, all);
    let members = fields->Object_0;
    json::lemma_position(members, key);
    let pushed = members.push(MemberView { key, value: block });
    assert(pushed.drop_last() =~= members);
    let whole = with_default(fields, key, block);
    assert(json::member(whole, key) == Some(block));
    lemma_set(whole, "schema_version"@, json::whole_number(SCHEMA_VERSION as u64), key);
    reveal_strlit("enabled");
    reveal_strlit("force_timeout_secs");
    reveal_strlit("graceful_timeout_secs");
    reveal_strlit("use_launchctl_bootout");
    assert("enabled"@.len() == 7 && "force_timeout_secs"@.len() == 18
        && "graceful_timeout_secs"@.len() == 21 && "use_launchctl_bootout"@.len() == 21);
    assert("graceful_timeout_secs"@[0] == 'g' && "use_launchctl_bootout"@[0] == 'u');
    let parts = block->Object_0;
    json::lemma_position(parts, "enabled"@);
    json::lemma_position(parts, "force_timeout_secs"@);
    json::lemma_position(parts, "graceful_timeout_secs"@);
    json::lemma_position(parts, "use_launchctl_bootout"@);
    assert(parts.len() == 4);
    assert(parts[0].key == "enabled"@ && parts[1].key == "force_timeout_secs"@ && parts[2].key
        == "graceful_timeout_secs"@ && parts[3].key == "use_launchctl_bootout"@);
}

proof fn lemma_fields_add_no_section(v: JsonView, n: int, key: Seq<char>)
    requires
        0 <= n <= added_fields().len(),
        json::member(v, key) is None,
    ensures
        json::member(with_fields(v, n), key) is None,
    decreases n,
{
    if n > 0 {
        lemma_fields_add_no_section(v, n - 1, key);
        let (s, k, d) = added_fields()[n - 1];
        lemma_in_section(with_fields(v, n - 1), s, k, d, key);
    }
}

/// Which documents are brought up: those that say no version, or one below the current.
/// Any other stays as it is.
pub proof fn only_older_documents_change(v: JsonView, n: u64)
    requires
        json::member(v, "schema_version"@) == Some(json::whole_number(n)),
        n <= u32::MAX,
    ensures
        n >= 1 ==> current(v) == v,
        n == 0 ==> current(v) == migrated(v, 0),
{
}

/// A document that says no version, or says it in no whole number, is as old as can be. Of
/// a larger number only the lowest thirty-two bits count.
pub proof fn what_version_a_document_has(v: JsonView, n: u64)
    ensures
        json::member(v, "schema_version"@) is None ==> version_of(v) == 0 && current(v)
            == migrated(v, 0),
        json::member(v, "schema_version"@) matches Some(x) ==> !(x is Number) ==> version_of(v)
            == 0 && current(v) == migrated(v, 0),
        json::member(v, "schema_version"@) == Some(json::whole_number(n)) ==> version_of(v) == n
            as int % 0x1_0000_0000,
{
}

} // verus!
