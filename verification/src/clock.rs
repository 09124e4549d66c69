//! Points in time, in UTC.

use vstd::prelude::*;

verus! {

/// Whether a number of seconds since the epoch, and of nanoseconds on top, is a point in time between
/// the years -262143 and 262142. The nanoseconds reach beyond a second in a leap second only, which
/// follows the last second of a minute.
pub open spec fn is_instant(secs: i64, nanos: u32) -> bool {
    &&& -8_334_601_228_800 <= secs <= 8_210_266_876_799
    &&& nanos < 1_000_000_000 || (nanos < 2_000_000_000 && secs as int % 60 == 59)
}

/// The text that `chrono` gives a point in time under a pattern.
pub uninterp spec fn utc_text(secs: i64, nanos: u32, pattern: Seq<char>) -> Seq<char>;

/// The text that `chrono` shows a point in time as.
pub uninterp spec fn utc_shown(secs: i64, nanos: u32) -> Seq<char>;

/// A quotient without its fraction, towards zero.
pub open spec fn whole(n: int, d: int) -> int {
    if n < 0 {
        -((-n) / d)
    } else {
        n / d
    }
}

/// The whole days from one point in time to another, negative where the other comes first.
pub open spec fn days_between(from_secs: i64, to_secs: i64, to_nanos: u32) -> int {
    whole((to_secs - from_secs) * 1_000_000_000 + to_nanos, 86_400_000_000_000)
}

/// `chrono::DateTime::from_timestamp`: whether it has a point in time for the numbers.
#[verifier::external_body]
fn instant(secs: i64, nanos: u32) -> (b: bool)
    ensures
        b == is_instant(secs, nanos),
{
    chrono::DateTime::from_timestamp(secs, nanos).is_some()
}

/// `chrono::DateTime::format`, made a string. The text depends on the point in time and the pattern
/// alone.
#[verifier::external_body]
fn format_utc(secs: i64, nanos: u32, pattern: &str) -> (r: String)
    requires
        is_instant(secs, nanos),
        pattern@ == "%Y-%m-%d"@ || pattern@ == "%Y-%m-%d %H:%M UTC"@,
    ensures
        r@ == utc_text(secs, nanos, pattern@),
{
    chrono::DateTime::from_timestamp(secs, nanos).unwrap().format(pattern).to_string()
}

/// The `Display` of `chrono::DateTime`. The text depends on the point in time alone.
#[verifier::external_body]
fn show_utc(secs: i64, nanos: u32) -> (r: String)
    requires
        is_instant(secs, nanos),
    ensures
        r@ == utc_shown(secs, nanos),
{
    chrono::DateTime::from_timestamp(secs, nanos).unwrap().to_string()
}

/// `chrono::DateTime::signed_duration_since` and `chrono::TimeDelta::num_days`: the whole days from a
/// point on a full second to another, outside of leap seconds.
#[verifier::external_body]
fn count_days(from_secs: i64, to_secs: i64, to_nanos: u32) -> (days: i64)
    requires
        is_instant(from_secs, 0),
        is_instant(to_secs, to_nanos),
        to_nanos < 1_000_000_000,
    ensures
        days == days_between(from_secs, to_secs, to_nanos),
{
    let from = chrono::DateTime::from_timestamp(from_secs, 0).unwrap();
    let to = chrono::DateTime::from_timestamp(to_secs, to_nanos).unwrap();
    to.signed_duration_since(from).num_days()
}

/// A point in time.
#[derive(Debug, Clone, Copy)]
pub struct UtcTime {
    secs: i64,
    nanos: u32,
}

impl View for UtcTime {
    type V = (i64, u32);

    closed spec fn view(&self) -> (i64, u32) {
        (self.secs, self.nanos)
    }
}

/// Whether a point in time comes before another.
pub open spec fn earlier(a: (i64, u32), b: (i64, u32)) -> bool {
    a.0 < b.0 || (a.0 == b.0 && a.1 < b.1)
}

impl UtcTime {
    #[verifier::type_invariant]
    spec fn well_formed(self) -> bool {
        is_instant(self.secs, self.nanos)
    }

    /// The point in time that many seconds after the epoch, and nanoseconds on top.
    pub fn new(secs: i64, nanos: u32) -> (r: Option<UtcTime>)
        ensures
            match r {
                Some(t) => is_instant(secs, nanos) && t@ == (secs, nanos),
                None => !is_instant(secs, nanos),
            },
    {
        if instant(secs, nanos) {
            Some(UtcTime { secs, nanos })
        } else {
            None
        }
    }

    /// The seconds since the epoch.
    pub fn secs(&self) -> (secs: i64)
        ensures
            secs == self@.0,
    {
        self.secs
    }

    /// The nanoseconds on top of them.
    pub fn nanos(&self) -> (nanos: u32)
        ensures
            nanos == self@.1,
    {
        self.nanos
    }

    /// Whether this comes before another point in time.
    pub fn before(&self, other: &UtcTime) -> (b: bool)
        ensures
            b == earlier(self@, other@),
    {
        self.secs < other.secs || (self.secs == other.secs && self.nanos < other.nanos)
    }

    /// The day, as `2026-08-18`.
    pub fn day(&self) -> (r: String)
        ensures
            r@ == utc_text(self@.0, self@.1, "%Y-%m-%d"@),
    {
        proof {
            use_type_invariant(self);
        }
        format_utc(self.secs, self.nanos, "%Y-%m-%d")
    }

    /// The minute, as `2026-08-18 20:49 UTC`.
    pub fn minute(&self) -> (r: String)
        ensures
            r@ == utc_text(self@.0, self@.1, "%Y-%m-%d %H:%M UTC"@),
    {
        proof {
            use_type_invariant(self);
        }
        format_utc(self.secs, self.nanos, "%Y-%m-%d %H:%M UTC")
    }

    /// All of it, as `2026-08-13 21:46:39 UTC`, with the fraction of the second where there is one.
    pub fn show(&self) -> (r: String)
        ensures
            r@ == utc_shown(self@.0, self@.1),
    {
        proof {
            use_type_invariant(self);
        }
        show_utc(self.secs, self.nanos)
    }

    /// The whole days since a point in time on a full second, seen from outside of a leap second.
    pub fn days_since(&self, from: &UtcTime) -> (days: i64)
        requires
            from@.1 == 0,
            self@.1 < 1_000_000_000,
        ensures
            days == days_between(from@.0, self@.0, self@.1),
    {
        proof {
            use_type_invariant(self);
            use_type_invariant(from);
        }
        count_days(from.secs, self.secs, self.nanos)
    }
}

/// A day is counted when it is over: between two points that lie so many days and less than a day more
/// apart there are that many whole days, in either direction.
pub proof fn whole_days_are_counted(from: i64, to: i64, nanos: u32, days: int, secs: int)
    requires
        0 <= days,
        0 <= secs < 86_400,
        nanos < 1_000_000_000,
    ensures
        to - from == days * 86_400 + secs ==> days_between(from, to, nanos) == days,
        from - to == days * 86_400 + secs ==> days_between(from, to, 0) == -days,
{
    let part = secs * 1_000_000_000 + nanos;
    assert(0 <= part < 86_400_000_000_000);
    let n = days * 86_400_000_000_000 + part;
    assert(n / 86_400_000_000_000 == days);
    let m = days * 86_400_000_000_000 + secs * 1_000_000_000;
    assert(m / 86_400_000_000_000 == days);
}

} // verus!
