//! Calendar dates and the textual forms in which system tools give them.

use vstd::prelude::*;
use crate::text;

verus! {

// ── the calendar ─────────────────────────────────────────────────────────────

/// The sum that counts days up to a date of the Gregorian calendar, with January
/// and February taken as months 13 and 14 of the year before.
pub open spec fn day_sum(y: int, m: int, d: int) -> int {
    let yy = if m < 3 {
        y - 1
    } else {
        y
    };
    let mm = if m < 3 {
        m + 12
    } else {
        m
    };
    365 * yy + yy / 4 - yy / 100 + yy / 400 + (306 * (mm + 1)) / 10 + d
}

/// The number of days from 1970-01-01 to the given date.
pub open spec fn day_number(y: int, m: int, d: int) -> int {
    day_sum(y, m, d) - 719_591
}

/// The day number can be worked out in 64 bits without a borrow: the year does
/// not fall below 0, no sum exceeds the range, and the date is not before the epoch.
pub open spec fn day_in_range(y: int, m: int, d: int) -> bool {
    let yy = if m < 3 {
        y - 1
    } else {
        y
    };
    let mm = if m < 3 {
        m + 12
    } else {
        m
    };
    &&& 0 <= yy
    &&& 365 * yy + yy / 4 <= u64::MAX
    &&& 306 * (mm + 1) <= u64::MAX
    &&& day_sum(y, m, d) <= u64::MAX
    &&& 719_591 <= day_sum(y, m, d)
}

/// Whether the day number of a date can be worked out.
pub fn days_in_range(y: u64, m: u64, d: u64) -> (r: bool)
    ensures
        r == day_in_range(y as int, m as int, d as int),
{
    if m < 3 && y == 0 {
        return false;
    }
    let yy: u128 = if m < 3 {
        (y - 1) as u128
    } else {
        y as u128
    };
    let mm: u128 = if m < 3 {
        m as u128 + 12
    } else {
        m as u128
    };
    let sum: u128 = 365 * yy + yy / 4 - yy / 100 + yy / 400 + (306 * (mm + 1)) / 10 + d as u128;
    365 * yy + yy / 4 <= u64::MAX as u128 && 306 * (mm + 1) <= u64::MAX as u128 && sum
        <= u64::MAX as u128 && sum >= 719_591
}

/// The number of days from 1970-01-01 to the given date.
pub fn days_from_ymd(y: u64, m: u64, d: u64) -> (r: u64)
    requires
        day_in_range(y as int, m as int, d as int),
    ensures
        r == day_number(y as int, m as int, d as int),
{
    let yy: u64 = if m < 3 {
        y - 1
    } else {
        y
    };
    let mm: u64 = if m < 3 {
        m + 12
    } else {
        m
    };
    365 * yy + yy / 4 - yy / 100 + yy / 400 + (306 * (mm + 1)) / 10 + d - 719_591
}

/// `y` is a leap year.
pub open spec fn is_leap(y: int) -> bool {
    y % 4 == 0 && (y % 100 != 0 || y % 400 == 0)
}

/// The length of a month.
pub open spec fn month_days(y: int, m: int) -> int {
    if m == 2 {
        if is_leap(y) {
            29
        } else {
            28
        }
    } else if m == 4 || m == 6 || m == 9 || m == 11 {
        30
    } else {
        31
    }
}

/// A date that the calendar has.
pub open spec fn is_date(y: int, m: int, d: int) -> bool {
    1 <= m <= 12 && 1 <= d <= month_days(y, m)
}

/// The date of the following day.
pub open spec fn next_date(y: int, m: int, d: int) -> (int, int, int) {
    if d < month_days(y, m) {
        (y, m, d + 1)
    } else if m < 12 {
        (y, m + 1, 1)
    } else {
        (y + 1, 1, 1)
    }
}

/// Day numbers follow the calendar: 1970-01-01 is day 0, and each date is one day
/// after the date before it, through month ends and leap years.
pub proof fn days_follow_calendar(y: int, m: int, d: int)
    requires
        is_date(y, m, d),
    ensures
        day_number(1970, 1, 1) == 0,
        ({
            let n = next_date(y, m, d);
            is_date(n.0, n.1, n.2) && day_number(n.0, n.1, n.2) == day_number(y, m, d) + 1
        }),
{
    if d == month_days(y, m) {
        if m == 2 {
            assert(y % 4 == 0 <==> y / 4 == (y - 1) / 4 + 1);
            assert(y % 100 == 0 <==> y / 100 == (y - 1) / 100 + 1);
            assert(y % 400 == 0 <==> y / 400 == (y - 1) / 400 + 1);
            assert(y % 4 != 0 ==> y / 4 == (y - 1) / 4);
            assert(y % 100 != 0 ==> y / 100 == (y - 1) / 100);
            assert(y % 400 != 0 ==> y / 400 == (y - 1) / 400);
            assert(y % 100 == 0 ==> y % 4 == 0);
            assert(y % 400 == 0 ==> y % 100 == 0);
        } else {
            assert(m == 1 || m == 3 || m == 4 || m == 5 || m == 6 || m == 7 || m == 8 || m == 9
                || m == 10 || m == 11 || m == 12);
        }
    }
}

// ── numbers in a row ─────────────────────────────────────────────────────────

/// The numbers among `parts`, in order; what spells no number is passed over.
pub open spec fn numbers(parts: Seq<Seq<char>>) -> Seq<u64>
    decreases parts.len(),
{
    if parts.len() == 0 {
        Seq::empty()
    } else {
        match text::number_of(parts.last(), u64::MAX as nat) {
            Some(v) => numbers(parts.drop_last()).push(v as u64),
            None => numbers(parts.drop_last()),
        }
    }
}

fn numbers_of(s: &str, sep: char) -> (r: Vec<u64>)
    ensures
        r@ == numbers(text::pieces(s@, sep)),
{
    let parts = text::split(s, sep);
    let ghost all = text::views(parts@);
    let mut r: Vec<u64> = Vec::new();
    let mut i: usize = 0;
    assert(all.take(0) =~= Seq::<Seq<char>>::empty());
    while i < parts.len()
        invariant
            i <= parts@.len(),
            all == text::views(parts@),
            r@ == numbers(all.take(i as int)),
        decreases parts.len() - i,
    {
        let part: &str = parts[i].as_str();
        assert(all.take(i + 1).last() == part@);
        assert(all.take(i + 1).drop_last() =~= all.take(i as int));
        match text::parse_number(part, u64::MAX) {
            Some(v) => {
                r.push(v);
            },
            None => {},
        }
        i = i + 1;
    }
    assert(all.take(i as int) =~= all);
    r
}

// ── what a date in text says ─────────────────────────────────────────────────

/// What a text says about a point in time.
pub enum Reading {
    /// It names no point in time.
    Nothing,
    /// It names the point so many seconds after the epoch.
    At(int),
    /// It names a point that cannot be told in seconds after the epoch, or is cut
    /// in the middle of a character.
    OutOfRange,
}

/// The seconds from the epoch to a date and a time of day.
pub open spec fn seconds(day: int, h: int, m: int, s: int) -> int {
    day * 86400 + h * 3600 + m * 60 + s
}

/// The point in time given by a date and a time of day, where it can be told.
pub open spec fn moment(y: int, mo: int, d: int, h: int, mi: int, s: int, max: int) -> Reading {
    if day_in_range(y, mo, d) && seconds(day_number(y, mo, d), h, mi, s) <= max {
        Reading::At(seconds(day_number(y, mo, d), h, mi, s))
    } else {
        Reading::OutOfRange
    }
}

/// The seconds from the epoch to a date and time of day; none where they cannot
/// be told in at most `max`.
fn moment_of(y: u64, mo: u64, d: u64, h: u64, mi: u64, s: u64, max: u64) -> (r: Option<u64>)
    ensures
        match r {
            Some(v) => moment(
                y as int,
                mo as int,
                d as int,
                h as int,
                mi as int,
                s as int,
                max as int,
            ) == Reading::At(v as int),
            None => moment(y as int, mo as int, d as int, h as int, mi as int, s as int, max as int)
                == Reading::OutOfRange,
        },
{
    if !days_in_range(y, mo, d) {
        return None;
    }
    let day: u64 = days_from_ymd(y, mo, d);
    let total: u128 = day as u128 * 86400 + h as u128 * 3600 + mi as u128 * 60 + s as u128;
    if total <= max as u128 {
        Some(total as u64)
    } else {
        None
    }
}

// ── the date form of mdls ────────────────────────────────────────────────────

/// `s` without white space around it and without a time zone at its end.
pub open spec fn without_zone(s: Seq<char>) -> Seq<char> {
    let t = text::trim(s);
    let plus = text::last_occurrence(t, " +"@, 1 + t.len() as int);
    let minus = text::last_occurrence(t, " -"@, 1 + t.len() as int);
    if plus >= 0 {
        text::trim(t.take(plus))
    } else if minus >= 0 {
        text::trim(t.take(minus))
    } else {
        t
    }
}

/// What a date such as `2024-11-03 14:15:00 +0000` says. The time zone is left
/// out of account.
pub open spec fn mdls_reading(s: Seq<char>) -> Reading {
    let parts = text::words(without_zone(s));
    let date = numbers(text::pieces(parts[0], '-'));
    let time = numbers(text::pieces(parts[1], ':'));
    if parts.len() < 2 || date.len() < 3 || time.len() < 3 {
        Reading::Nothing
    } else {
        moment(
            date[0] as int,
            date[1] as int,
            date[2] as int,
            time[0] as int,
            time[1] as int,
            time[2] as int,
            i64::MAX as int,
        )
    }
}

fn cut_zone(s: &str) -> (r: String)
    ensures
        r@ == without_zone(s@),
{
    let t = text::trimmed(s);
    let x = text::chars_of(t.as_str());
    let cut: Option<usize> = match text::rfind(&x, " +") {
        Some(k) => Some(k),
        None => text::rfind(&x, " -"),
    };
    match cut {
        Some(k) => {
            assert(x@.subrange(0, k as int) =~= t@.take(k as int));
            text::trimmed(text::string_of(&x, 0, k).as_str())
        },
        None => t,
    }
}

/// What a date in the form of mdls says: nothing, a point in time, or (`Some(None)`)
/// one that cannot be told.
fn read_mdls_date(s: &str) -> (r: Option<Option<u64>>)
    ensures
        match r {
            None => mdls_reading(s@) == Reading::Nothing,
            Some(Some(v)) => mdls_reading(s@) == Reading::At(v as int) && v <= i64::MAX,
            Some(None) => mdls_reading(s@) == Reading::OutOfRange,
        },
{
    let t = cut_zone(s);
    let parts = text::words_of(t.as_str());
    let ghost all = text::views(parts@);
    if parts.len() < 2 {
        return None;
    }
    assert(all[0] == parts@[0]@);
    assert(all[1] == parts@[1]@);
    let date = numbers_of(parts[0].as_str(), '-');
    let time = numbers_of(parts[1].as_str(), ':');
    if date.len() < 3 || time.len() < 3 {
        return None;
    }
    let bound: u64 = i64::MAX as u64;
    Some(moment_of(date[0], date[1], date[2], time[0], time[1], time[2], bound))
}

/// Whether a date in the form of mdls names a point in time that can be told, or none.
pub fn mdls_date_in_range(s: &str) -> (r: bool)
    ensures
        r == (mdls_reading(s@) != Reading::OutOfRange),
{
    match read_mdls_date(s) {
        Some(None) => false,
        _ => true,
    }
}

/// The seconds from the epoch to a date in the form of mdls.
pub fn parse_mdls_date(s: &str) -> (r: Option<u64>)
    requires
        mdls_reading(s@) != Reading::OutOfRange,
    ensures
        match r {
            Some(v) => mdls_reading(s@) == Reading::At(v as int) && v <= i64::MAX,
            None => mdls_reading(s@) == Reading::Nothing,
        },
{
    match read_mdls_date(s) {
        Some(v) => v,
        None => None,
    }
}

/// A reply of mdls that says that the attribute is not set.
pub open spec fn is_no_date(reply: Seq<char>) -> bool {
    text::trim(reply) == "(null)"@ || text::trim(reply).len() == 0
}

/// What the reply of mdls to a question for one date attribute says.
pub open spec fn mdls_reply(reply: Seq<char>) -> Reading {
    if is_no_date(reply) {
        Reading::Nothing
    } else {
        mdls_reading(text::trim(reply))
    }
}

/// Whether the reply of mdls names a point in time that can be told, or none.
pub fn mdls_reply_in_range(reply: &str) -> (r: bool)
    ensures
        r == (mdls_reply(reply@) != Reading::OutOfRange),
{
    let t = text::trimmed(reply);
    if text::same(t.as_str(), "(null)") || t.as_str().is_empty() {
        return true;
    }
    mdls_date_in_range(t.as_str())
}

/// The date in the reply of mdls to a question for one date attribute, as seconds
/// from the epoch. `(null)` and an empty reply stand for no date.
pub fn mdls_date(reply: &str) -> (r: Option<u64>)
    requires
        mdls_reply(reply@) != Reading::OutOfRange,
    ensures
        match r {
            Some(v) => mdls_reply(reply@) == Reading::At(v as int) && v <= i64::MAX,
            None => mdls_reply(reply@) == Reading::Nothing,
        },
{
    let t = text::trimmed(reply);
    if text::same(t.as_str(), "(null)") || t.as_str().is_empty() {
        return None;
    }
    parse_mdls_date(t.as_str())
}

/// The access time in the reply of `stat`, in seconds from the epoch.
pub open spec fn atime_reading(reply: Seq<char>) -> Option<nat> {
    text::number_of(text::trim(reply), u64::MAX as nat)
}

/// Whether the access time in the reply of `stat -f %a`, if it gives one, can be
/// told as a point in time.
pub fn atime_in_range(reply: &str) -> (r: bool)
    ensures
        r == (atime_reading(reply@).unwrap_or(0) <= i64::MAX),
{
    match text::parse_number(text::trimmed(reply).as_str(), u64::MAX) {
        Some(v) => v <= i64::MAX as u64,
        None => true,
    }
}

/// The access time in the reply of `stat -f %a`, in seconds from the epoch.
pub fn atime(reply: &str) -> (r: Option<u64>)
    requires
        atime_reading(reply@).unwrap_or(0) <= i64::MAX,
    ensures
        match r {
            Some(v) => atime_reading(reply@) == Some(v as nat) && v <= i64::MAX,
            None => atime_reading(reply@) is None,
        },
{
    text::parse_number(text::trimmed(reply).as_str(), u64::MAX)
}

// ── the names of snapshots ───────────────────────────────────────────────────

/// The two or four digits at bytes `from..to` of a date; what is cut in the middle
/// of a character is out of range.
pub open spec fn field(date: Seq<char>, from: int, to: int) -> Reading {
    match text::byte_slice(date, from, to) {
        Some(part) => match text::number_of(part, u64::MAX as nat) {
            Some(v) => Reading::At(v as int),
            None => Reading::Nothing,
        },
        None => Reading::OutOfRange,
    }
}

/// The first of the readings that is not a number, if there is one.
pub open spec fn first_failure(fields: Seq<Reading>) -> Option<Reading>
    decreases fields.len(),
{
    if fields.len() == 0 {
        None
    } else {
        match fields[0] {
            Reading::At(_) => first_failure(fields.drop_first()),
            other => Some(other),
        }
    }
}

/// What the name of a snapshot, such as
/// `com.apple.TimeMachine.2024-11-03-141500`, says about when it was taken. The
/// seconds may be missing.
pub open spec fn snapshot_reading(name: Seq<char>) -> Reading {
    let date = text::after_last(name, '.');
    let secs = if text::byte_len(date) >= 17 {
        field(date, 15, 17)
    } else {
        Reading::At(0)
    };
    let fields = seq![
        field(date, 0, 4),
        field(date, 5, 7),
        field(date, 8, 10),
        field(date, 11, 13),
        field(date, 13, 15),
        secs,
    ];
    if text::last_index_of(name, '.') < 0 || text::byte_len(date) < 15 {
        Reading::Nothing
    } else {
        match first_failure(fields) {
            Some(r) => r,
            None => moment(
                fields[0]->At_0,
                fields[1]->At_0,
                fields[2]->At_0,
                fields[3]->At_0,
                fields[4]->At_0,
                fields[5]->At_0,
                u64::MAX as int,
            ),
        }
    }
}

/// A number at bytes `from..to`: none where there is no number, `Some(None)` where
/// the bytes cut a character.
fn read_field(date: &Vec<char>, from: usize, to: usize) -> (r: Option<Option<u64>>)
    requires
        from <= to,
    ensures
        match r {
            None => field(date@, from as int, to as int) == Reading::Nothing,
            Some(Some(v)) => field(date@, from as int, to as int) == Reading::At(v as int),
            Some(None) => field(date@, from as int, to as int) == Reading::OutOfRange,
        },
{
    match text::slice_bytes(date, from, to) {
        Some(part) => match text::parse_number(part.as_str(), u64::MAX) {
            Some(v) => Some(Some(v)),
            None => None,
        },
        None => Some(None),
    }
}

fn read_snapshot_ts(name: &str) -> (r: Option<Option<u64>>)
    ensures
        match r {
            None => snapshot_reading(name@) == Reading::Nothing,
            Some(Some(v)) => snapshot_reading(name@) == Reading::At(v as int),
            Some(None) => snapshot_reading(name@) == Reading::OutOfRange,
        },
{
    let x = text::chars_of(name);
    let dot: usize = match text::rfind_char(&x, '.') {
        Some(k) => k,
        None => {
            return None;
        },
    };
    let n: usize = x.len();
    let date = text::chars_of(text::string_of(&x, dot + 1, n).as_str());
    assert(date@ =~= text::after_last(name@, '.'));
    if !text::longer_than(&date, 14) {
        return None;
    }
    let long: bool = text::longer_than(&date, 16);
    let ghost fields = seq![
        field(date@, 0, 4),
        field(date@, 5, 7),
        field(date@, 8, 10),
        field(date@, 11, 13),
        field(date@, 13, 15),
        if text::byte_len(date@) >= 17 {
            field(date@, 15, 17)
        } else {
            Reading::At(0)
        },
    ];
    proof {
        reveal_with_fuel(first_failure, 7);
        assert(fields.drop_first()[0] == fields[1]);
        assert(fields.drop_first().drop_first()[0] == fields[2]);
        assert(fields.drop_first().drop_first().drop_first()[0] == fields[3]);
        assert(fields.drop_first().drop_first().drop_first().drop_first()[0] == fields[4]);
        assert(fields.drop_first().drop_first().drop_first().drop_first().drop_first()[0]
            == fields[5]);
    }
    let mut got: Vec<u64> = Vec::new();
    let mut i: usize = 0;
    while i < 6
        invariant
            i <= 6,
            got@.len() == i,
            fields.len() == 6,
            fields[0] == field(date@, 0, 4),
            fields[1] == field(date@, 5, 7),
            fields[2] == field(date@, 8, 10),
            fields[3] == field(date@, 11, 13),
            fields[4] == field(date@, 13, 15),
            fields[5] == if long {
                field(date@, 15, 17)
            } else {
                Reading::At(0)
            },
            forall|j: int| 0 <= j < i ==> fields[j] == Reading::At(#[trigger] got@[j] as int),
            first_failure(fields) == first_failure(fields.skip(i as int)),
            snapshot_reading(name@) == match first_failure(fields) {
                Some(r) => r,
                None => moment(
                    fields[0]->At_0,
                    fields[1]->At_0,
                    fields[2]->At_0,
                    fields[3]->At_0,
                    fields[4]->At_0,
                    fields[5]->At_0,
                    u64::MAX as int,
                ),
            },
        decreases 6 - i,
    {
        let read: Option<Option<u64>> = if i == 0 {
            read_field(&date, 0, 4)
        } else if i == 1 {
            read_field(&date, 5, 7)
        } else if i == 2 {
            read_field(&date, 8, 10)
        } else if i == 3 {
            read_field(&date, 11, 13)
        } else if i == 4 {
            read_field(&date, 13, 15)
        } else if long {
            read_field(&date, 15, 17)
        } else {
            Some(Some(0))
        };
        assert(fields.skip(i as int)[0] == fields[i as int]);
        assert(fields.skip(i as int).drop_first() =~= fields.skip(i + 1));
        match read {
            Some(Some(v)) => {
                got.push(v);
            },
            other => {
                return other;
            },
        }
        i = i + 1;
    }
    assert(fields.skip(6).len() == 0);
    assert(fields[0] == Reading::At(got@[0] as int));
    assert(fields[1] == Reading::At(got@[1] as int));
    assert(fields[2] == Reading::At(got@[2] as int));
    assert(fields[3] == Reading::At(got@[3] as int));
    assert(fields[4] == Reading::At(got@[4] as int));
    assert(fields[5] == Reading::At(got@[5] as int));
    Some(moment_of(got[0], got[1], got[2], got[3], got[4], got[5], u64::MAX))
}

/// Whether the name of a snapshot says when it was taken in a way that can be
/// told, or says nothing about it.
pub fn snapshot_ts_in_range(name: &str) -> (r: bool)
    ensures
        r == (snapshot_reading(name@) != Reading::OutOfRange),
{
    match read_snapshot_ts(name) {
        Some(None) => false,
        _ => true,
    }
}

/// The seconds from the epoch to the moment that the name of a snapshot gives.
pub fn parse_snapshot_ts(name: &str) -> (r: Option<u64>)
    requires
        snapshot_reading(name@) != Reading::OutOfRange,
    ensures
        match r {
            Some(v) => snapshot_reading(name@) == Reading::At(v as int),
            None => snapshot_reading(name@) == Reading::Nothing,
        },
{
    match read_snapshot_ts(name) {
        Some(v) => v,
        None => None,
    }
}

// ── how dates are read ───────────────────────────────────────────────────────

/// Every date of the calendar from 1970 on can be told in days from the epoch, for more
/// years than any clock will see, and none before.
pub proof fn dates_count_from_the_epoch(y: int, m: int, d: int)
    requires
        is_date(y, m, d),
        y <= 1_000_000_000_000,
    ensures
        day_in_range(y, m, d) <==> y >= 1970,
{
    assert(1 <= m <= 12 && 1 <= d <= 31);
    if y >= 1970 {
        let yy = if m < 3 {
            y - 1
        } else {
            y
        };
        assert(yy / 4 - yy / 100 + yy / 400 >= 477);
    } else {
        let yy = if m < 3 {
            y - 1
        } else {
            y
        };
        if yy >= 0 {
            assert(yy / 4 - yy / 100 + yy / 400 <= 477);
        }
    }
}

/// Time goes on second by second: a second later is one more, a minute sixty, an hour
/// three thousand six hundred and the next day of the calendar as many as a day has, and
/// the epoch is 0.
pub proof fn moments_count_seconds(
    y: int,
    mo: int,
    d: int,
    h: int,
    mi: int,
    s: int,
    max: int,
    t: int,
)
    requires
        is_date(y, mo, d),
        1970 <= y < 1_000_000_000_000,
        moment(y, mo, d, h, mi, s, max) == Reading::At(t),
        0 <= max,
    ensures
        moment(1970, 1, 1, 0, 0, 0, max) == Reading::At(0),
        t <= max,
        t + 1 <= max ==> moment(y, mo, d, h, mi, s + 1, max) == Reading::At(t + 1),
        t + 1 > max ==> moment(y, mo, d, h, mi, s + 1, max) == Reading::OutOfRange,
        t + 60 <= max ==> moment(y, mo, d, h, mi + 1, s, max) == Reading::At(t + 60),
        t + 3600 <= max ==> moment(y, mo, d, h + 1, mi, s, max) == Reading::At(t + 3600),
        t + 86400 <= max ==> ({
            let n = next_date(y, mo, d);
            moment(n.0, n.1, n.2, h, mi, s, max) == Reading::At(t + 86400)
        }),
{
    days_follow_calendar(y, mo, d);
    let n = next_date(y, mo, d);
    dates_count_from_the_epoch(n.0, n.1, n.2);
    dates_count_from_the_epoch(1970, 1, 1);
}

/// `s` is made of decimal digits, at least one, and spells `v`.
pub open spec fn spells(s: Seq<char>, v: nat) -> bool {
    &&& text::number_of(s, u64::MAX as nat) == Some(v)
    &&& forall|i: int| 0 <= i < s.len() ==> text::is_digit(#[trigger] s[i])
}

proof fn lemma_ascii_len(s: Seq<char>)
    requires
        forall|i: int| 0 <= i < s.len() ==> #[trigger] s[i] <= '\u{7f}',
    ensures
        text::byte_len(s) == s.len(),
    decreases s.len(),
{
    if s.len() > 0 {
        let c = s[0];
        assert(c <= '\u{7f}');
        let rest = s.drop_first();
        assert forall|i: int| 0 <= i < rest.len() implies #[trigger] rest[i] <= '\u{7f}' by {
            assert(s[i + 1] <= '\u{7f}');
        }
        lemma_ascii_len(rest);
        text::bytes_add_up(seq![c], rest, c);
        assert(s =~= seq![c] + rest);
    }
}

proof fn lemma_field(date: Seq<char>, from: int, to: int, v: nat)
    requires
        0 <= from <= to <= date.len(),
        forall|i: int| 0 <= i < date.len() ==> #[trigger] date[i] <= '\u{7f}',
        text::number_of(date.subrange(from, to), u64::MAX as nat) == Some(v),
    ensures
        field(date, from, to) == Reading::At(v as int),
{
    let a = date.take(from);
    let b = date.subrange(from, to);
    let c = date.skip(to);
    assert forall|i: int| 0 <= i < a.len() implies #[trigger] a[i] <= '\u{7f}' by {
        assert(date[i] <= '\u{7f}');
    }
    assert forall|i: int| 0 <= i < b.len() implies #[trigger] b[i] <= '\u{7f}' by {
        assert(date[from + i] <= '\u{7f}');
    }
    lemma_ascii_len(a);
    lemma_ascii_len(b);
    assert(date =~= a + b + c);
    text::slices_are_by_bytes(a, b, c);
}

/// The name of a snapshot gives the point in time that its digits spell, with and without
/// seconds.
pub proof fn snapshot_names_are_read(
    front: Seq<char>,
    year: Seq<char>,
    month: Seq<char>,
    day: Seq<char>,
    hour: Seq<char>,
    minute: Seq<char>,
    second: Seq<char>,
    y: nat,
    mo: nat,
    d: nat,
    h: nat,
    mi: nat,
    s: nat,
)
    requires
        spells(year, y) && year.len() == 4,
        spells(month, mo) && month.len() == 2,
        spells(day, d) && day.len() == 2,
        spells(hour, h) && hour.len() == 2,
        spells(minute, mi) && minute.len() == 2,
        spells(second, s) && second.len() == 2,
    ensures
        snapshot_reading(
            front + seq!['.'] + (year + seq!['-'] + month + seq!['-'] + day + seq!['-'] + hour
                + minute + second),
        ) == moment(y as int, mo as int, d as int, h as int, mi as int, s as int, u64::MAX as int),
        snapshot_reading(
            front + seq!['.'] + (year + seq!['-'] + month + seq!['-'] + day + seq!['-'] + hour
                + minute),
        ) == moment(y as int, mo as int, d as int, h as int, mi as int, 0, u64::MAX as int),
{
    let long = year + seq!['-'] + month + seq!['-'] + day + seq!['-'] + hour + minute + second;
    let short = year + seq!['-'] + month + seq!['-'] + day + seq!['-'] + hour + minute;
    assert(long.len() == 17 && short.len() == 15);
    assert forall|i: int| 0 <= i < 17 implies #[trigger] long[i] <= '\u{7f}' && long[i] != '.' by {
        if i < 4 {
            assert(text::is_digit(year[i]));
        } else if 5 <= i < 7 {
            assert(text::is_digit(month[i - 5]));
        } else if 8 <= i < 10 {
            assert(text::is_digit(day[i - 8]));
        } else if 11 <= i < 13 {
            assert(text::is_digit(hour[i - 11]));
        } else if 13 <= i < 15 {
            assert(text::is_digit(minute[i - 13]));
        } else if 15 <= i < 17 {
            assert(text::is_digit(second[i - 15]));
        }
    }
    assert(short =~= long.take(15));
    assert(long.subrange(0, 4) =~= year && short.subrange(0, 4) =~= year);
    assert(long.subrange(5, 7) =~= month && short.subrange(5, 7) =~= month);
    assert(long.subrange(8, 10) =~= day && short.subrange(8, 10) =~= day);
    assert(long.subrange(11, 13) =~= hour && short.subrange(11, 13) =~= hour);
    assert(long.subrange(13, 15) =~= minute && short.subrange(13, 15) =~= minute);
    assert(long.subrange(15, 17) =~= second);
    lemma_snapshot(front, long, y, mo, d, h, mi, s);
    assert forall|i: int| 0 <= i < 15 implies #[trigger] short[i] <= '\u{7f}' && short[i]
        != '.' by {
        assert(long[i] <= '\u{7f}' && long[i] != '.');
    }
    lemma_snapshot(front, short, y, mo, d, h, mi, 0);
}

proof fn lemma_snapshot(
    front: Seq<char>,
    date: Seq<char>,
    y: nat,
    mo: nat,
    d: nat,
    h: nat,
    mi: nat,
    s: nat,
)
    requires
        date.len() == 15 || date.len() == 17,
        forall|i: int|
            0 <= i < date.len() ==> #[trigger] date[i] <= '\u{7f}' && date[i] != '.',
        text::number_of(date.subrange(0, 4), u64::MAX as nat) == Some(y),
        text::number_of(date.subrange(5, 7), u64::MAX as nat) == Some(mo),
        text::number_of(date.subrange(8, 10), u64::MAX as nat) == Some(d),
        text::number_of(date.subrange(11, 13), u64::MAX as nat) == Some(h),
        text::number_of(date.subrange(13, 15), u64::MAX as nat) == Some(mi),
        date.len() == 15 ==> s == 0,
        date.len() == 17 ==> text::number_of(date.subrange(15, 17), u64::MAX as nat) == Some(s),
    ensures
        snapshot_reading(front + seq!['.'] + date) == moment(
            y as int,
            mo as int,
            d as int,
            h as int,
            mi as int,
            s as int,
            u64::MAX as int,
        ),
{
    lemma_ascii_len(date);
    lemma_field(date, 0, 4, y);
    lemma_field(date, 5, 7, mo);
    lemma_field(date, 8, 10, d);
    lemma_field(date, 11, 13, h);
    lemma_field(date, 13, 15, mi);
    if date.len() == 17 {
        lemma_field(date, 15, 17, s);
    }
    text::the_last_separator_counts(front, '.', date);
    lemma_fields_read(front + seq!['.'] + date, date, y, mo, d, h, mi, s);
}

proof fn lemma_fields_read(
    name: Seq<char>,
    date: Seq<char>,
    y: nat,
    mo: nat,
    d: nat,
    h: nat,
    mi: nat,
    s: nat,
)
    requires
        text::last_index_of(name, '.') >= 0,
        text::after_last(name, '.') == date,
        text::byte_len(date) == 15 || text::byte_len(date) == 17,
        field(date, 0, 4) == Reading::At(y as int),
        field(date, 5, 7) == Reading::At(mo as int),
        field(date, 8, 10) == Reading::At(d as int),
        field(date, 11, 13) == Reading::At(h as int),
        field(date, 13, 15) == Reading::At(mi as int),
        text::byte_len(date) == 15 ==> s == 0,
        text::byte_len(date) == 17 ==> field(date, 15, 17) == Reading::At(s as int),
    ensures
        snapshot_reading(name) == moment(
            y as int,
            mo as int,
            d as int,
            h as int,
            mi as int,
            s as int,
            u64::MAX as int,
        ),
{
    let secs = if text::byte_len(date) >= 17 {
        field(date, 15, 17)
    } else {
        Reading::At(0)
    };
    let fields = seq![
        field(date, 0, 4),
        field(date, 5, 7),
        field(date, 8, 10),
        field(date, 11, 13),
        field(date, 13, 15),
        secs,
    ];
    lemma_no_failure(fields);
    assert(snapshot_reading(name) == moment(
        fields[0]->At_0,
        fields[1]->At_0,
        fields[2]->At_0,
        fields[3]->At_0,
        fields[4]->At_0,
        fields[5]->At_0,
        u64::MAX as int,
    ));
}

proof fn lemma_no_failure(fields: Seq<Reading>)
    requires
        forall|i: int| 0 <= i < fields.len() ==> #[trigger] fields[i] is At,
    ensures
        first_failure(fields) is None,
    decreases fields.len(),
{
    if fields.len() > 0 {
        assert(fields[0] is At);
        let rest = fields.drop_first();
        assert forall|i: int| 0 <= i < rest.len() implies #[trigger] rest[i] is At by {
            assert(fields[i + 1] is At);
        }
        lemma_no_failure(rest);
    }
}

/// Whatever stands in the name behind its last dot, too few digits or none at all name no
/// point in time; neither does a name without a dot.
pub proof fn other_names_have_no_time(front: Seq<char>, date: Seq<char>)
    requires
        !date.contains('.'),
    ensures
        snapshot_reading(date) == Reading::Nothing,
        text::byte_len(date) < 15 ==> snapshot_reading(front + seq!['.'] + date)
            == Reading::Nothing,
{
    text::the_last_separator_counts(front, '.', date);
}

proof fn lemma_three(a: Seq<char>, c: char, b: Seq<char>, e: Seq<char>, x: nat, y: nat, z: nat)
    requires
        spells(a, x),
        spells(b, y),
        spells(e, z),
        !text::is_digit(c),
    ensures
        numbers(text::pieces(a + seq![c] + b + seq![c] + e, c)) == seq![
            x as u64,
            y as u64,
            z as u64,
        ],
{
    let tail = b + seq![c] + e;
    assert forall|i: int| 0 <= i < a.len() implies a[i] != c by {
        assert(text::is_digit(a[i]));
    }
    assert forall|i: int| 0 <= i < b.len() implies b[i] != c by {
        assert(text::is_digit(b[i]));
    }
    assert forall|i: int| 0 <= i < e.len() implies e[i] != c by {
        assert(text::is_digit(e[i]));
    }
    text::pieces_stand_between(a, c, tail);
    text::pieces_stand_between(b, c, e);
    text::pieces_stand_between(e, c, e);
    assert(a + seq![c] + b + seq![c] + e =~= a + seq![c] + tail);
    let parts = text::pieces(a + seq![c] + tail, c);
    assert(parts =~= seq![a, b, e]);
    let two = parts.drop_last();
    assert(two =~= seq![a, b]);
    let one = two.drop_last();
    assert(one =~= seq![a]);
    let none = one.drop_last();
    assert(none =~= Seq::<Seq<char>>::empty());
    assert(numbers(none) =~= Seq::<u64>::empty());
    assert(numbers(one) =~= seq![x as u64]);
    assert(numbers(two) =~= seq![x as u64, y as u64]);
    assert(numbers(parts) =~= seq![x as u64, y as u64, z as u64]);
}

proof fn lemma_stamp(
    year: Seq<char>,
    month: Seq<char>,
    day: Seq<char>,
    hour: Seq<char>,
    minute: Seq<char>,
    second: Seq<char>,
    i: int,
)
    requires
        forall|k: int| 0 <= k < year.len() ==> text::is_digit(#[trigger] year[k]),
        forall|k: int| 0 <= k < month.len() ==> text::is_digit(#[trigger] month[k]),
        forall|k: int| 0 <= k < day.len() ==> text::is_digit(#[trigger] day[k]),
        forall|k: int| 0 <= k < hour.len() ==> text::is_digit(#[trigger] hour[k]),
        forall|k: int| 0 <= k < minute.len() ==> text::is_digit(#[trigger] minute[k]),
        forall|k: int| 0 <= k < second.len() ==> text::is_digit(#[trigger] second[k]),
    ensures
        ({
            let date = year + seq!['-'] + month + seq!['-'] + day;
            let time = hour + seq![':'] + minute + seq![':'] + second;
            &&& 0 <= i < date.len() ==> text::is_digit(date[i]) || date[i] == '-'
            &&& 0 <= i < time.len() ==> text::is_digit(time[i]) || time[i] == ':'
        }),
{
    let date = year + seq!['-'] + month + seq!['-'] + day;
    let time = hour + seq![':'] + minute + seq![':'] + second;
    if 0 <= i < date.len() {
        let a = year.len() as int;
        let b = a + 1 + month.len();
        if i < a {
            assert(date[i] == year[i]);
        } else if i == a {
            assert(date[i] == '-');
        } else if i < b {
            assert(date[i] == month[i - a - 1]);
        } else if i == b {
            assert(date[i] == '-');
        } else {
            assert(date[i] == day[i - b - 1]);
        }
    }
    if 0 <= i < time.len() {
        let a = hour.len() as int;
        let b = a + 1 + minute.len();
        if i < a {
            assert(time[i] == hour[i]);
        } else if i == a {
            assert(time[i] == ':');
        } else if i < b {
            assert(time[i] == minute[i - a - 1]);
        } else if i == b {
            assert(time[i] == ':');
        } else {
            assert(time[i] == second[i - b - 1]);
        }
    }
}

/// Nothing in `s` is white space.
spec fn dense(s: Seq<char>) -> bool {
    forall|i: int| 0 <= i < s.len() ==> !text::is_space(#[trigger] s[i])
}

proof fn lemma_mark_at(t: Seq<char>, sign: char, n: int)
    requires
        0 <= n,
        n + 2 <= t.len(),
        t[n] == ' ',
        t[n + 1] == sign,
        forall|k: int| n < k < t.len() ==> #[trigger] t[k] != ' ',
    ensures
        text::last_occurrence(t, seq![' ', sign], 1 + t.len() as int) == n,
{
    let p = seq![' ', sign];
    let end = 1 + t.len() as int;
    assert(t.subrange(n, n + 2) =~= p);
    assert(text::occurs_at(t, p, n));
    let k = text::last_occurrence(t, p, end);
    text::the_last_place_is_found(t, p, end, n);
    if k > n {
        assert(t.subrange(k, k + 2)[0] == t[k]);
    }
}

proof fn lemma_no_mark(t: Seq<char>, sign: char)
    requires
        forall|k: int|
            0 <= k < t.len() - 1 && #[trigger] t[k] == ' ' ==> t[k + 1] != sign,
    ensures
        text::last_occurrence(t, seq![' ', sign], 1 + t.len() as int) == -1,
{
    let p = seq![' ', sign];
    let end = 1 + t.len() as int;
    let k = text::last_occurrence(t, p, end);
    text::the_last_place_is_found(t, p, end, 0);
    if k >= 0 {
        assert(t.subrange(k, k + 2)[0] == t[k]);
        assert(t.subrange(k, k + 2)[1] == t[k + 1]);
    }
}

/// What stands before a time zone, and a text without one, is the date and the time.
proof fn lemma_zone(date: Seq<char>, time: Seq<char>, sign: char, zone: Seq<char>)
    requires
        date.len() > 0,
        time.len() > 0,
        zone.len() > 0,
        dense(date),
        dense(time),
        dense(zone),
        sign == '+' || sign == '-',
        time[0] != '+',
        time[0] != '-',
    ensures
        without_zone(date + seq![' '] + time) == date + seq![' '] + time,
        without_zone(date + seq![' '] + time + seq![' ', sign] + zone) == date + seq![' '] + time,
{
    reveal_strlit(" +");
    reveal_strlit(" -");
    assert(" +"@ =~= seq![' ', '+']);
    assert(" -"@ =~= seq![' ', '-']);
    let none = Seq::<char>::empty();
    let core = date + seq![' '] + time;
    let whole = core + seq![' ', sign] + zone;
    let n = core.len() as int;
    assert(!text::is_space(date[0]));
    assert(!text::is_space(time[time.len() - 1]));
    assert(!text::is_space(zone[zone.len() - 1]));
    assert(core[0] == date[0] && core.last() == time[time.len() - 1]);
    assert(whole[0] == date[0] && whole.last() == zone[zone.len() - 1]);
    text::trimming_takes_white_space(none, core, none);
    assert(none + core + none =~= core);
    text::trimming_takes_white_space(none, whole, none);
    assert(none + whole + none =~= whole);
    assert forall|k: int| 0 <= k < core.len() && #[trigger] core[k] == ' ' implies k
        == date.len() by {
        if k < date.len() {
            assert(!text::is_space(date[k]));
        } else if k > date.len() {
            assert(!text::is_space(time[k - date.len() - 1]));
        }
    }
    assert(core[date.len() as int + 1] == time[0]);
    lemma_no_mark(core, '+');
    lemma_no_mark(core, '-');
    assert forall|k: int| n < k < whole.len() implies #[trigger] whole[k] != ' ' by {
        if k > n + 1 {
            assert(whole[k] == zone[k - n - 2]);
            assert(!text::is_space(zone[k - n - 2]));
        }
    }
    assert(whole[n] == ' ' && whole[n + 1] == sign);
    lemma_mark_at(whole, sign, n);
    assert(whole.take(n) =~= core);
    if sign == '-' {
        assert forall|k: int|
            0 <= k < whole.len() - 1 && #[trigger] whole[k] == ' ' implies whole[k + 1]
            != '+' by {
            if k < n {
                assert(whole[k] == core[k]);
                assert(k == date.len());
                assert(whole[k + 1] == time[0]);
            } else if k > n {
                assert(whole[k] != ' ');
            }
        }
        lemma_no_mark(whole, '+');
    }
}

/// A date of mdls gives the point in time that its digits spell. A time zone behind it is
/// left out of account, whichever it is.
pub proof fn dates_of_mdls_are_read(
    year: Seq<char>,
    month: Seq<char>,
    day: Seq<char>,
    hour: Seq<char>,
    minute: Seq<char>,
    second: Seq<char>,
    sign: char,
    zone: Seq<char>,
    y: nat,
    mo: nat,
    d: nat,
    h: nat,
    mi: nat,
    s: nat,
)
    requires
        spells(year, y),
        spells(month, mo),
        spells(day, d),
        spells(hour, h),
        spells(minute, mi),
        spells(second, s),
        sign == '+' || sign == '-',
        zone.len() > 0,
        forall|i: int| 0 <= i < zone.len() ==> text::is_digit(#[trigger] zone[i]),
    ensures
        ({
            let date = year + seq!['-'] + month + seq!['-'] + day;
            let time = hour + seq![':'] + minute + seq![':'] + second;
            let then = moment(
                y as int,
                mo as int,
                d as int,
                h as int,
                mi as int,
                s as int,
                i64::MAX as int,
            );
            &&& mdls_reading(date + seq![' '] + time) == then
            &&& mdls_reading(date + seq![' '] + time + seq![' ', sign] + zone) == then
        }),
{
    let date = year + seq!['-'] + month + seq!['-'] + day;
    let time = hour + seq![':'] + minute + seq![':'] + second;
    assert forall|i: int| 0 <= i < date.len() implies !text::is_space(#[trigger] date[i]) by {
        lemma_stamp(year, month, day, hour, minute, second, i);
    }
    assert forall|i: int| 0 <= i < time.len() implies !text::is_space(#[trigger] time[i]) by {
        lemma_stamp(year, month, day, hour, minute, second, i);
    }
    assert(dense(zone)) by {
        assert forall|i: int| 0 <= i < zone.len() implies !text::is_space(#[trigger] zone[i]) by {
            assert(text::is_digit(zone[i]));
        }
    }
    assert(time.len() > 0 && date.len() > 0);
    lemma_stamp(year, month, day, hour, minute, second, 0);
    lemma_zone(date, time, sign, zone);
    let core = date + seq![' '] + time;
    let none = Seq::<char>::empty();
    text::words_stand_between_white_space(none, date, seq![' '] + time);
    assert(none + date + (seq![' '] + time) =~= core);
    text::words_stand_between_white_space(seq![' '], time, none);
    assert(seq![' '] + time + none =~= seq![' '] + time);
    text::words_stand_between_white_space(none, time, none);
    assert(text::words(core) =~= seq![date, time]);
    lemma_three(year, '-', month, day, y, mo, d);
    lemma_three(hour, ':', minute, second, h, mi, s);
}

/// A reply that is empty or says that the attribute is not set gives no date; any other is
/// read without the white space around it.
pub proof fn replies_without_a_date(front: Seq<char>, back: Seq<char>, core: Seq<char>)
    requires
        text::blank(front),
        text::blank(back),
        core.len() > 0,
        !text::is_space(core[0]),
        !text::is_space(core.last()),
    ensures
        mdls_reply(front + back) == Reading::Nothing,
        mdls_reply(front + "(null)"@ + back) == Reading::Nothing,
        core != "(null)"@ ==> mdls_reply(front + core + back) == mdls_reading(core),
        atime_reading(front + core + back) == text::number_of(core, u64::MAX as nat),
{
    let none = Seq::<char>::empty();
    text::trimming_takes_white_space(front, none, back);
    assert(front + none + back =~= front + back);
    reveal_strlit("(null)");
    assert("(null)"@.len() == 6 && "(null)"@[0] == '(' && "(null)"@[5] == ')');
    text::trimming_takes_white_space(front, "(null)"@, back);
    text::trimming_takes_white_space(front, core, back);
}

/// Numbers in a row are those that the parts spell, in order, whatever else stands among
/// them.
pub proof fn numbers_come_in_order(parts: Seq<Seq<char>>, part: Seq<char>)
    ensures
        numbers(Seq::empty()).len() == 0,
        text::number_of(part, u64::MAX as nat) is None ==> numbers(parts.push(part)) == numbers(
            parts,
        ),
        text::number_of(part, u64::MAX as nat) matches Some(v) ==> numbers(parts.push(part))
            == numbers(parts).push(v as u64),
{
    assert(parts.push(part).drop_last() =~= parts);
}

/// A text of one word, or of none, is no date.
pub proof fn one_word_is_no_date(word: Seq<char>)
    requires
        word.len() > 0,
        forall|i: int| 0 <= i < word.len() ==> !text::is_space(#[trigger] word[i]),
    ensures
        mdls_reading(word) == Reading::Nothing,
        mdls_reading(Seq::empty()) == Reading::Nothing,
{
    reveal_strlit(" +");
    reveal_strlit(" -");
    assert(" +"@ =~= seq![' ', '+']);
    assert(" -"@ =~= seq![' ', '-']);
    let none = Seq::<char>::empty();
    assert(!text::is_space(word[0]) && !text::is_space(word[word.len() - 1]));
    text::trimming_takes_white_space(none, word, none);
    assert(none + word + none =~= word);
    assert forall|k: int| 0 <= k < word.len() - 1 && #[trigger] word[k] == ' ' implies word[k + 1]
        != '+' && word[k + 1] != '-' by {
        assert(!text::is_space(word[k]));
    }
    lemma_no_mark(word, '+');
    lemma_no_mark(word, '-');
    text::words_stand_between_white_space(none, word, none);
    assert(text::words(none) =~= Seq::<Seq<char>>::empty());
    text::trimming_takes_white_space(none, none, none);
    assert(none + none + none =~= none);
    lemma_no_mark(none, '+');
    lemma_no_mark(none, '-');
}

} // verus!
