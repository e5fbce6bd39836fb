//! Readings of the clocks, and moments written as text.

use vstd::prelude::*;
use vstd::string::*;
use std::time::{Instant, SystemTime, UNIX_EPOCH};

verus! {

// ---------- wall clock ----------

/// `SystemTime::now`: the nanoseconds since 1970, or nothing where the clock stands
/// before that. What it reads is not known beforehand, so nothing is claimed of it.
#[verifier::external_body]
pub(crate) fn wall_clock() -> (r: Option<u128>) {
    SystemTime::now().duration_since(UNIX_EPOCH).ok().map(|d| d.as_nanos())
}

/// The whole seconds of a reading; a clock before 1970 counts as its beginning.
pub open spec fn seconds_of(reading: Option<u128>) -> i64 {
    match reading {
        Some(ns) => (ns / 1_000_000_000) as i64,
        None => 0,
    }
}

/// The nanoseconds of a reading, in 64 bits.
pub open spec fn nanos_of(reading: Option<u128>) -> u64 {
    match reading {
        Some(ns) => ns as u64,
        None => 0,
    }
}

pub fn seconds(reading: Option<u128>) -> (r: i64)
    ensures
        r == seconds_of(reading),
{
    match reading {
        Some(ns) => (ns / 1_000_000_000) as i64,
        None => 0,
    }
}

pub fn nanos(reading: Option<u128>) -> (r: u64)
    ensures
        r == nanos_of(reading),
{
    match reading {
        Some(ns) => ns as u64,
        None => 0,
    }
}

// ---------- monotonic clock ----------

/// `std::time::Instant`: a moment of the monotonic clock.
#[verifier::external_type_specification]
#[verifier::external_body]
pub struct ExInstant(std::time::Instant);

/// `Instant::now`: the present moment.
#[verifier::external_body]
fn instant_now() -> (r: Instant) {
    Instant::now()
}

/// `Instant::elapsed`: the nanoseconds that have passed since a moment. Nothing is
/// claimed of the number.
#[verifier::external_body]
fn elapsed_nanos(since: &Instant) -> (r: u64) {
    since.elapsed().as_nanos() as u64
}

/// A monotonic clock that counts nanoseconds from its making.
pub struct Stopwatch {
    start: Instant,
}

impl Stopwatch {
    pub fn new() -> (r: Stopwatch) {
        Stopwatch { start: instant_now() }
    }

    /// The present moment; never negative.
    pub fn now(&self) -> (r: i128)
        ensures
            0 <= r <= u64::MAX,
    {
        elapsed_nanos(&self.start) as i128
    }
}

// ---------- moments as text ----------

/// The moments, in seconds since 1970, that the calendar reaches: from the beginning of
/// the year -262143 to the end of the year 262142.
pub open spec fn in_calendar(ts: int) -> bool {
    -8_334_601_228_800 <= ts <= 8_210_266_876_799
}

/// The month and the day in the Gregorian calendar, as if it had always been in use, of
/// a number of seconds since 1970. The years are taken from March on, in spans of four
/// hundred: these have 146097 days each, and the leap day is the last of its year.
pub open spec fn month_and_day(ts: int) -> (int, int) {
    let day = (ts / 86400 + 719468) % 146097;
    let year = (day - day / 1460 + day / 36524 - day / 146096) / 365;
    let of_year = day - (365 * year + year / 4 - year / 100);
    let month = (5 * of_year + 2) / 153;
    (
        if month < 10 {
            month + 3
        } else {
            month - 9
        },
        of_year - (153 * month + 2) / 5 + 1,
    )
}

/// The year of a number of seconds since 1970, in the same calendar.
pub open spec fn year_of(ts: int) -> int {
    let days = ts / 86400 + 719468;
    let day = days % 146097;
    let year = (day - day / 1460 + day / 36524 - day / 146096) / 365;
    days / 146097 * 400 + year + (if month_and_day(ts).0 <= 2 {
        1int
    } else {
        0
    })
}

/// A number below a hundred in two digits.
pub open spec fn two_digits_of(n: int) -> Seq<char> {
    seq![('0' as int + n / 10) as char, ('0' as int + n % 10) as char]
}

/// `MM-DD` for a number of seconds since 1970.
pub open spec fn month_day_of(ts: int) -> Seq<char> {
    let (month, day) = month_and_day(ts);
    two_digits_of(month) + seq!['-'] + two_digits_of(day)
}

/// `YYYY-MM-DD` for a number of seconds since 1970, in a year of four figures.
pub open spec fn day_of(ts: int) -> Seq<char> {
    two_digits_of(year_of(ts) / 100) + two_digits_of(year_of(ts) % 100) + seq!['-'] + month_day_of(ts)
}

/// The month and day, `MM-DD` in UTC, of a number of seconds since 1970; none for a
/// moment beyond the calendar.
pub open spec fn utc_month_day(ts: i64) -> Option<Seq<char>> {
    if in_calendar(ts as int) {
        Some(month_day_of(ts as int))
    } else {
        None
    }
}

/// `chrono::DateTime::from_timestamp` and its `format("%m-%d")`: month and day of a
/// moment, both in two digits, or nothing for a moment beyond the calendar.
#[verifier::external_body]
pub(crate) fn month_day(ts: i64) -> (r: Option<String>)
    ensures
        match r {
            Some(s) => utc_month_day(ts) == Some(s@),
            None => utc_month_day(ts) is None,
        },
{
    chrono::DateTime::from_timestamp(ts, 0).map(|d| d.format("%m-%d").to_string())
}

/// A moment to the minute: `[MM-DD HH:MM] ` with a space behind it.
pub open spec fn minute_of(t: int) -> Seq<char> {
    seq!['['] + month_day_of(t) + seq![' '] + two_digits_of(t % 86400 / 3600) + seq![':']
        + two_digits_of(t % 3600 / 60) + seq![']', ' ']
}

/// `s` is the moment `ts` to the minute in a zone that is `offset` seconds, less than a
/// day, ahead of UTC.
pub open spec fn is_minute_of(s: Seq<char>, ts: int, offset: int) -> bool {
    -86400 < offset < 86400 && s == minute_of(ts + offset)
}

/// `s` is the moment `ts` to the minute in some zone.
pub open spec fn is_minute_at(s: Seq<char>, ts: i64) -> bool {
    exists|offset: int| #[trigger] is_minute_of(s, ts as int, offset)
}

/// `chrono::DateTime::from_timestamp`, taken to `chrono::Local`, and its
/// `format("[%m-%d %H:%M] ")`: the moment in the machine's zone, or nothing for a moment
/// beyond the calendar. How far that zone is from UTC is the machine's affair, and may
/// differ from moment to moment; only that it is less than a day is claimed.
#[verifier::external_body]
pub(crate) fn local_minute(ts: i64) -> (r: Option<String>)
    ensures
        match r {
            Some(s) => in_calendar(ts as int) && is_minute_at(s@, ts),
            None => !in_calendar(ts as int),
        },
{
    let utc = chrono::DateTime::from_timestamp(ts, 0);
    utc.map(|d| chrono::DateTime::<chrono::Local>::from(d).format("[%m-%d %H:%M] ").to_string())
}

/// A reading is told in whole seconds, rounded down, and in nanoseconds as far as 64 bits
/// hold them.
pub proof fn law_reading_is_told(ns: u128)
    requires
        ns <= u64::MAX,
    ensures
        seconds_of(Some(ns)) * 1_000_000_000 <= ns < (seconds_of(Some(ns)) + 1) * 1_000_000_000,
        nanos_of(Some(ns)) == ns,
        seconds_of(None) == 0 && nanos_of(None) == 0,
{
    assert(ns <= u64::MAX ==> ns as u64 == ns) by (bit_vector);
    let q: u128 = ns / 1_000_000_000;
    assert(q <= 18_446_744_073 ==> q as i64 == q) by (bit_vector);
}

} // verus!
