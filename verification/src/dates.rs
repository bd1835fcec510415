use vstd::prelude::*;

use chrono::{Datelike, TimeZone};

use crate::source::Date;

verus! {

/// What `chrono::NaiveDate::parse_from_str` makes of a text and a format:
/// the date it reads, or `None` when the text does not fit the format.
pub uninterp spec fn parsed_date(text: Seq<char>, format: Seq<char>) -> Option<Date>;

/// Reads a date with `chrono::NaiveDate::parse_from_str`; the result is
/// named [`parsed_date`], with the year, month and day of the date read.
#[verifier::external_body]
pub(crate) fn parse_date(text: &str, format: &str) -> (r: Option<Date>)
    ensures
        r == parsed_date(text@, format@),
{
    match chrono::NaiveDate::parse_from_str(text, format) {
        Ok(d) => Some(Date { year: d.year(), month: d.month(), day: d.day() }),
        Err(_) => None,
    }
}

/// The first Unix time chrono can hold: -262143-01-01 00:00:00 UTC.
pub const FIRST_SECOND: i64 = -8334601228800;

/// The last Unix time chrono can hold: 262142-12-31 23:59:59 UTC.
pub const LAST_SECOND: i64 = 8210266876799;

/// The calendar date `days` days after 1970-01-01, in the proleptic
/// Gregorian calendar with a year 0 before year 1, as chrono counts.
pub open spec fn civil_date(days: int) -> Date {
    let z = days + 719468;
    let era = z / 146097;
    let doe = z - era * 146097;
    let yoe = (doe - doe / 1460 + doe / 36524 - doe / 146096) / 365;
    let doy = doe - (365 * yoe + yoe / 4 - yoe / 100);
    let mp = (5 * doy + 2) / 153;
    let day = doy - (153 * mp + 2) / 5 + 1;
    let month = if mp < 10 { mp + 3 } else { mp - 9 };
    let year = yoe + era * 400 + if month <= 2 { 1int } else { 0int };
    Date { year: year as i32, month: month as u32, day: day as u32 }
}

/// The UTC date of a Unix time, as `chrono::DateTime::from_timestamp`
/// gives it: the date of the whole days since the epoch (it takes
/// `seconds.div_euclid(86400)`), or `None` outside chrono's range.
pub open spec fn utc_date(seconds: i64) -> Option<Date> {
    if FIRST_SECOND <= seconds <= LAST_SECOND {
        Some(civil_date(seconds / 86400))
    } else {
        None
    }
}

/// The UTC date of a Unix time, through `chrono::DateTime::from_timestamp`
/// with no nanoseconds: [`utc_date`].
#[verifier::external_body]
pub(crate) fn utc_date_of(seconds: i64) -> (r: Option<Date>)
    ensures
        r == utc_date(seconds),
{
    chrono::DateTime::from_timestamp(seconds, 0).map(|t| Date { year: t.year(), month: t.month(), day: t.day() })
}

/// `d` is the date at the Unix time `instant` in some time zone: the UTC
/// date of that instant moved by an offset of less than a day either way,
/// which is how far chrono lets a time zone's offset go.
pub open spec fn local_date_at(d: Date, instant: int) -> bool {
    exists|t: i64| -86400 < t - instant < 86400 && #[trigger] utc_date(t) == Some(d)
}

/// What holds of the local date `r` found `seconds` before the moment
/// `now`, when `now` has less than a second of nanoseconds: a date found
/// is the local date at the instant aimed at, when that instant lies at
/// least a day inside chrono's range; and a date is found whenever both
/// `now` and that instant lie in chrono's range.
pub open spec fn date_before(now: LocalClock, seconds: int, r: Option<Date>) -> bool {
    &&& (now.nanos < 1_000_000_000 && FIRST_SECOND + 86400 <= now.timestamp - seconds <= LAST_SECOND - 86400)
        ==> (r matches Some(d) ==> local_date_at(d, now.timestamp - seconds))
    &&& (now.nanos < 1_000_000_000 && FIRST_SECOND <= now.timestamp <= LAST_SECOND
        && FIRST_SECOND <= now.timestamp - seconds <= LAST_SECOND) ==> r is Some
}

/// What holds of a reading of the local clock: its nanoseconds are below a
/// second, its Unix time lies between the epoch and the end of chrono's
/// range, and, a day short of that end, its year is the year of the local
/// date at its Unix time.
pub open spec fn clock_reading(now: LocalClock) -> bool {
    &&& now.nanos < 1_000_000_000
    &&& 0 <= now.timestamp <= LAST_SECOND
    &&& now.timestamp <= LAST_SECOND - 86400 ==> exists|d: Date| #[trigger] local_date_at(d, now.timestamp as int) && d.year == now.year
}

/// The current year in UTC (`chrono::Utc::now().year()`). Which year
/// depends on the clock; only that it lies between 1970 and the last year
/// chrono holds is claimed, since `Utc::now` panics when the system clock
/// reads before 1970 (which depends on the machine, not on anything a
/// caller passes) and when it reads beyond chrono's range.
#[verifier::external_body]
pub(crate) fn current_utc_year() -> (r: i32)
    ensures
        1970 <= r <= 262142,
{
    chrono::Utc::now().year()
}

/// A moment read from the local clock: its Unix time (seconds and
/// nanoseconds) and its year in the machine's time zone.
#[derive(Clone, Copy, Debug)]
pub struct LocalClock {
    pub timestamp: i64,
    pub nanos: u32,
    pub year: i32,
}

/// Reads `chrono::Local::now()`: its Unix time and its local year. Which
/// moment it is depends on the clock, so only [`clock_reading`] is claimed:
/// `Utc::now` reads the system clock as a duration since the epoch (it
/// panics when the clock reads before 1970, which depends on the machine,
/// not on anything a caller passes) and builds the time with
/// `from_timestamp(..).unwrap()`, so the nanoseconds are below a second
/// and the time lies in chrono's range; the year is that of the local
/// date, the UTC time moved by the zone's offset (`FixedOffset`, less than
/// a day either way).
#[verifier::external_body]
pub(crate) fn local_now() -> (r: LocalClock)
    ensures
        clock_reading(r),
{
    let now = chrono::Local::now();
    LocalClock { timestamp: now.timestamp(), nanos: now.timestamp_subsec_nanos(), year: now.year() }
}

/// The largest number of seconds that `chrono::TimeDelta::seconds`
/// accepts either way: `i64::MAX / 1000`.
pub const MAX_DELTA_SECONDS: i64 = 9223372036854775;

/// The local date `seconds` before the moment `now`: the moment as a
/// `chrono::DateTime<Local>` (`Local.timestamp_opt`, which has a single
/// value for every valid instant), `checked_sub_signed` of
/// `TimeDelta::seconds(seconds)`, then the year, month and day of the
/// local time, which is the UTC time moved by the zone's offset at that
/// instant (a `FixedOffset`, less than a day either way). `None` when the
/// moment is not valid or the subtraction leaves chrono's range. Which
/// offset applies depends on the machine's time zone, so only
/// [`date_before`] is claimed. `TimeDelta::seconds` panics beyond
/// `MAX_DELTA_SECONDS` either way, which `requires` rules out.
#[verifier::external_body]
pub(crate) fn local_date_before(now: LocalClock, seconds: i64) -> (r: Option<Date>)
    requires
        -MAX_DELTA_SECONDS <= seconds <= MAX_DELTA_SECONDS,
    ensures
        date_before(now, seconds as int, r),
{
    let moment = chrono::Local.timestamp_opt(now.timestamp, now.nanos).single()?;
    moment.checked_sub_signed(chrono::TimeDelta::seconds(seconds)).map(|t| Date { year: t.year(), month: t.month(), day: t.day() })
}

} // verus!
