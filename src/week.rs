//! Calendar weeks that start on Sunday, judged in local time.
use chrono::{Local, MappedLocalTime, TimeZone};
use vstd::prelude::*;

verus! {

/// Milliseconds in one day.
pub const MILLIS_PER_DAY: i128 = 86_400_000;

/// The day number (counted from 0001-01-01 as day 1) of 1970-01-01.
pub const UNIX_EPOCH_DAY: i128 = 719_163;

/// An instant, as milliseconds since the Unix epoch, together with the
/// offset of local time from UTC, in seconds, that is in force at it.
#[derive(Clone, Copy, Debug, PartialEq, Eq, Structural)]
pub struct LocalTime {
    pub millis: i64,
    pub offset_secs: i32,
}

/// Day of the week of a day number, Sunday = 1 ... Saturday = 7
/// (day 1, 0001-01-01, is a Monday).
pub open spec fn weekday_of_day(day: int) -> int {
    day % 7 + 1
}

/// Index of the Sunday-aligned week that holds a day number.
pub open spec fn week_of_day(day: int) -> int {
    day / 7
}

impl LocalTime {
    /// The local wall-clock time, in milliseconds since the epoch.
    pub open spec fn local_millis(self) -> int {
        self.millis + self.offset_secs * 1000
    }

    /// The local calendar day, counted from 0001-01-01 as day 1.
    pub open spec fn day(self) -> int {
        self.local_millis() / (MILLIS_PER_DAY as int) + UNIX_EPOCH_DAY
    }

    /// The local day of the week, Sunday = 1 ... Saturday = 7.
    pub open spec fn weekday(self) -> int {
        weekday_of_day(self.day())
    }

    /// Number of the local calendar day, counted from 0001-01-01 as day 1.
    pub fn days_from_ce(&self) -> (r: i64)
        ensures
            r == self.day(),
            -110_000_000_000 < r < 110_000_000_000,
    {
        let local: i128 = self.millis as i128 + self.offset_secs as i128 * 1000;
        let q: i128 = local.checked_div_euclid(MILLIS_PER_DAY).unwrap();
        proof {
            vstd::arithmetic::div_mod::lemma_fundamental_div_mod(local as int, MILLIS_PER_DAY as int);
        }
        (q + UNIX_EPOCH_DAY) as i64
    }

    /// Local day of the week, Sunday = 1 ... Saturday = 7.
    pub fn weekday_from_sunday(&self) -> (r: u32)
        ensures
            r == self.weekday(),
            1 <= r <= 7,
    {
        let d = self.days_from_ce();
        let m: i64 = d.checked_rem_euclid(7).unwrap();
        (m + 1) as u32
    }
}

/// Two instants fall in the same Sunday-aligned local week: their local days
/// are less than seven days apart, and the later one's weekday does not come
/// before the earlier one's (the week did not wrap past a Sunday between them).
/// At equal instants the second condition holds trivially.
pub open spec fn same_week(a: LocalTime, b: LocalTime) -> bool {
    let within_seven_days = -7 < a.day() - b.day() < 7;
    let sequential_weekdays = if a.millis > b.millis {
        a.weekday() >= b.weekday()
    } else if a.millis < b.millis {
        b.weekday() >= a.weekday()
    } else {
        true
    };
    within_seven_days && sequential_weekdays
}

/// Decides whether two instants fall in the same Sunday-aligned local week.
pub fn in_same_week(date1: LocalTime, date2: LocalTime) -> (r: bool)
    ensures
        r == same_week(date1, date2),
{
    let day1 = date1.days_from_ce();
    let day2 = date2.days_from_ce();
    let within_7_days = -7 < day1 - day2 && day1 - day2 < 7;
    let (newest, oldest) = if date1.millis > date2.millis {
        (date1, date2)
    } else if date1.millis < date2.millis {
        (date2, date1)
    } else {
        (date2, date2)
    };
    let sequential_weekdays = newest.weekday_from_sunday() >= oldest.weekday_from_sunday();
    within_7_days && sequential_weekdays
}

/// The current log must be archived before a sample at `current` is appended
/// when `current` and the last sample `last_updated` are in different weeks.
pub fn should_archive(current: LocalTime, last_updated: LocalTime) -> (r: bool)
    ensures
        r == !same_week(current, last_updated),
{
    !in_same_week(current, last_updated)
}

/// An instant is in the same week as itself.
pub proof fn lemma_same_week_reflexive(t: LocalTime)
    ensures
        same_week(t, t),
{
}

/// Being in the same week does not depend on the order of the arguments.
pub proof fn lemma_same_week_commutative(a: LocalTime, b: LocalTime)
    ensures
        same_week(a, b) == same_week(b, a),
{
}

/// Instants whose local days are seven or more days apart are never in the
/// same week.
pub proof fn lemma_seven_days_apart_not_same_week(a: LocalTime, b: LocalTime)
    requires
        a.day() - b.day() >= 7 || b.day() - a.day() >= 7,
    ensures
        !same_week(a, b),
{
}

/// An earlier instant on a Saturday and a later one on a Sunday are in
/// different weeks, however close together they are.
pub proof fn lemma_saturday_to_sunday_not_same_week(sat: LocalTime, sun: LocalTime)
    requires
        sat.millis < sun.millis,
        sat.weekday() == 7,
        sun.weekday() == 1,
    ensures
        !same_week(sat, sun),
        !same_week(sun, sat),
{
}

/// For two instants read with the same local offset, being in the same week
/// means exactly that their local days lie in one Sunday-aligned week.
pub proof fn lemma_same_week_is_sunday_aligned(a: LocalTime, b: LocalTime)
    requires
        a.offset_secs == b.offset_secs,
    ensures
        same_week(a, b) == (week_of_day(a.day()) == week_of_day(b.day())),
{
    let n = MILLIS_PER_DAY as int;
    if a.millis <= b.millis {
        vstd::arithmetic::div_mod::lemma_div_is_ordered(a.local_millis(), b.local_millis(), n);
        lemma_days_in_one_week(a.day(), b.day());
    } else {
        vstd::arithmetic::div_mod::lemma_div_is_ordered(b.local_millis(), a.local_millis(), n);
        lemma_days_in_one_week(b.day(), a.day());
    }
}

proof fn lemma_days_in_one_week(d1: int, d2: int)
    requires
        d1 <= d2,
    ensures
        (d2 - d1 < 7 && weekday_of_day(d2) >= weekday_of_day(d1)) == (week_of_day(d1)
            == week_of_day(d2)),
{
    vstd::arithmetic::div_mod::lemma_fundamental_div_mod(d1, 7);
    vstd::arithmetic::div_mod::lemma_fundamental_div_mod(d2, 7);
}

/// Relies on chrono's `TimeZone::timestamp_millis_opt` on `Local` and on
/// `FixedOffset::local_minus_utc`: the offset from UTC, in seconds, of the
/// machine's local time zone at the given instant, or none where chrono cannot
/// represent the instant. The offset depends on the machine's zone settings:
/// only the range that `FixedOffset` keeps is stated. chrono panics where the
/// machine's zone data has no local time type for the instant, which no
/// condition on `millis` can rule out.
#[verifier::external_body]
fn local_offset_secs(millis: i64) -> (r: Option<i32>)
    ensures
        r matches Some(o) ==> -86_400 < o < 86_400,
{
    match Local.timestamp_millis_opt(millis) {
        MappedLocalTime::Single(dt) => Some(dt.offset().local_minus_utc()),
        MappedLocalTime::Ambiguous(_, _) => None,
        MappedLocalTime::None => None,
    }
}

/// The instant `millis` read in the machine's local time zone; none where the
/// instant is outside the range of dates that can be represented.
pub fn local_time(millis: i64) -> (r: Option<LocalTime>)
    ensures
        r matches Some(t) ==> t.millis == millis && -86_400 < t.offset_secs < 86_400,
{
    match local_offset_secs(millis) {
        Some(offset_secs) => Some(LocalTime { millis, offset_secs }),
        None => None,
    }
}

} // verus!
