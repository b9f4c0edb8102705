//! Points in time and spans of whole seconds.

use vstd::prelude::*;

verus! {

/// A point in time: whole seconds since a fixed origin (the Unix epoch for wall
/// clock times), and the nanoseconds on top of them.
#[derive(Debug, Clone, Copy, PartialEq, Eq, Structural)]
pub struct Stamp {
    pub secs: i64,
    pub nanos: u32,
}

/// `a` is at or after `b`.
pub open spec fn not_before(a: Stamp, b: Stamp) -> bool {
    a.secs > b.secs || (a.secs == b.secs && a.nanos >= b.nanos)
}

/// The whole seconds from `then` to `now`; none where `then` is later.
pub open spec fn elapsed(now: Stamp, then: Stamp) -> Option<int> {
    if !not_before(now, then) {
        None
    } else if now.nanos >= then.nanos {
        Some(now.secs - then.secs)
    } else {
        Some(now.secs - then.secs - 1)
    }
}

/// `now` moved back by `secs`; the epoch where that is out of a stamp's range.
pub open spec fn moved_back(now: Stamp, secs: int) -> Stamp {
    if now.secs - secs >= i64::MIN {
        Stamp { secs: (now.secs - secs) as i64, nanos: now.nanos }
    } else {
        Stamp { secs: 0, nanos: 0 }
    }
}

/// The whole seconds of `now` since the epoch; 0 for a time before it.
pub open spec fn since_epoch(now: Stamp) -> int {
    if now.secs < 0 {
        0
    } else {
        now.secs as int
    }
}

pub const SECS_PER_HOUR: u64 = 3600;

pub const SECS_PER_DAY: u64 = 86400;

impl Stamp {
    /// A whole number of seconds after the epoch.
    pub fn at(secs: u64) -> (r: Stamp)
        requires
            secs <= i64::MAX,
        ensures
            r.secs == secs,
            r.nanos == 0,
    {
        Stamp { secs: secs as i64, nanos: 0 }
    }

    /// Whether this point is at or after `other`.
    pub fn not_before(self, other: Stamp) -> (r: bool)
        ensures
            r == not_before(self, other),
    {
        self.secs > other.secs || (self.secs == other.secs && self.nanos >= other.nanos)
    }

    /// The whole seconds that have passed since `then`; none where it is later.
    pub fn elapsed_since(self, then: Stamp) -> (r: Option<u64>)
        ensures
            match r {
                Some(e) => elapsed(self, then) == Some(e as int),
                None => elapsed(self, then) is None,
            },
    {
        if !self.not_before(then) {
            return None;
        }
        let diff: i128 = self.secs as i128 - then.secs as i128;
        if self.nanos >= then.nanos {
            Some(diff as u64)
        } else {
            Some((diff - 1) as u64)
        }
    }

    /// This point moved back by `secs`; the epoch where that is out of range.
    pub fn back(self, secs: u64) -> (r: Stamp)
        ensures
            r == moved_back(self, secs as int),
    {
        let moved: i128 = self.secs as i128 - secs as i128;
        if moved >= i64::MIN as i128 {
            Stamp { secs: moved as i64, nanos: self.nanos }
        } else {
            Stamp { secs: 0, nanos: 0 }
        }
    }

    /// The whole seconds since the epoch; 0 for a time before it.
    pub fn unix_secs(self) -> (r: u64)
        ensures
            r == since_epoch(self),
    {
        if self.secs < 0 {
            0
        } else {
            self.secs as u64
        }
    }
}

/// Whether a task that last ran at `last` is due at `now`, given that it runs
/// every `interval` seconds. A clock that went backwards counts as no time passed.
pub open spec fn due(now: Stamp, last: Stamp, interval: int) -> bool {
    elapsed(now, last).unwrap_or(0) >= interval
}

/// Whether a task that last ran at `last` is due at `now`.
pub fn is_due(now: Stamp, last: Stamp, interval: u64) -> (r: bool)
    ensures
        r == due(now, last, interval as int),
{
    match now.elapsed_since(last) {
        Some(e) => e >= interval,
        None => 0 >= interval,
    }
}

/// The seconds of `n` days.
pub fn days(n: u64) -> (r: u64)
    requires
        n * SECS_PER_DAY <= u64::MAX,
    ensures
        r == n * SECS_PER_DAY,
{
    n * SECS_PER_DAY
}

/// The seconds of `n` hours.
pub fn hours(n: u64) -> (r: u64)
    requires
        n * SECS_PER_HOUR <= u64::MAX,
    ensures
        r == n * SECS_PER_HOUR,
{
    n * SECS_PER_HOUR
}

/// The longer ago something happened, the longer the time since: what is due at
/// one moment stays due at every later one.
pub proof fn due_stays_due(now: Stamp, later: Stamp, last: Stamp, interval: int)
    requires
        not_before(later, now),
        due(now, last, interval),
    ensures
        due(later, last, interval),
{
}

/// A task that has just run is not due again before its interval is over.
pub proof fn not_due_right_after(now: Stamp, interval: int)
    requires
        interval > 0,
    ensures
        !due(now, now, interval),
{
}

/// A task is due exactly where `now` lies at least its interval after it last ran; a task
/// without an interval always is.
pub proof fn due_goes_by_the_time_passed(now: Stamp, last: Stamp, interval: int)
    ensures
        interval <= 0 ==> due(now, last, interval),
        interval > 0 ==> (due(now, last, interval) <==> now.secs > last.secs + interval || (now.secs
            == last.secs + interval && now.nanos >= last.nanos)),
{
}

/// The whole seconds between two points: so many are over, and one more is not.
pub proof fn elapsed_counts_whole_seconds(now: Stamp, then: Stamp)
    ensures
        match elapsed(now, then) {
            Some(e) => 0 <= e && (now.secs > then.secs + e || (now.secs == then.secs + e
                && now.nanos >= then.nanos)) && !(now.secs > then.secs + e + 1 || (now.secs
                == then.secs + e + 1 && now.nanos >= then.nanos)),
            None => now.secs < then.secs || (now.secs == then.secs && now.nanos < then.nanos),
        },
{
}

/// Moving back by so many seconds and waiting as long comes back to the same point.
pub proof fn moving_back_is_exact(now: Stamp, secs: int)
    requires
        secs >= 0,
        now.secs - secs >= i64::MIN,
    ensures
        moved_back(now, secs).secs + secs == now.secs,
        moved_back(now, secs).nanos == now.nanos,
        now.secs >= 0 ==> since_epoch(now) == now.secs,
        now.secs < 0 ==> since_epoch(now) == 0,
{
}

/// A point that no clock can show, so far back, is taken as the epoch.
pub proof fn moving_back_too_far_is_the_epoch(now: Stamp, secs: int)
    requires
        now.secs - secs < i64::MIN,
    ensures
        moved_back(now, secs).secs == 0 && moved_back(now, secs).nanos == 0,
{
}

} // verus!
