//! The departure time every routing request is made for: 08:00 local time on
//! the next Monday strictly after today, so that durations computed at
//! different moments are comparable.
//!
//! The calendar is chrono's. What depends on the machine (the clock, the
//! local date of a moment, the local offset on a day) is read and taken as
//! it comes; what depends on its arguments alone (the weekday of a date, a
//! date some days on, the text of a timestamp) has a name the contracts
//! speak of.

use chrono::{Datelike, TimeZone};
use vstd::prelude::*;

verus! {

/// A day of the week.
#[derive(Clone, Copy, Debug, PartialEq, Eq, Structural)]
pub enum Weekday {
    Monday,
    Tuesday,
    Wednesday,
    Thursday,
    Friday,
    Saturday,
    Sunday,
}

impl Weekday {
    /// How many days after Monday this day falls, from 0 to 6.
    pub open spec fn days_from_monday(self) -> int {
        match self {
            Weekday::Monday => 0,
            Weekday::Tuesday => 1,
            Weekday::Wednesday => 2,
            Weekday::Thursday => 3,
            Weekday::Friday => 4,
            Weekday::Saturday => 5,
            Weekday::Sunday => 6,
        }
    }
}

/// A day of the civil calendar.
#[derive(Clone, Copy, Debug, PartialEq, Eq, Structural)]
pub struct CivilDate {
    pub year: i32,
    pub month: u32,
    pub day: u32,
}

/// The hour of the local day at which departures are modelled.
pub const DEPARTURE_HOUR: u32 = 8;

/// The last second of the year 9999, as Unix seconds.
pub const LATEST_MOMENT: i64 = 253_402_300_799;

/// The moment lies between the start of 1970 and the end of 9999.
pub open spec fn in_calendar_range(at: i64) -> bool {
    0 <= at <= LATEST_MOMENT
}

/// The date lies in the years 1970 to 9999, where the local calendar can
/// always be consulted.
pub open spec fn in_calendar_years(date: CivilDate) -> bool {
    1970 <= date.year <= 9999
}

/// The weekday chrono gives the date (`NaiveDate::from_ymd_opt`, then
/// `Datelike::weekday`); `None` where the calendar has no such date.
pub uninterp spec fn civil_weekday(date: CivilDate) -> Option<Weekday>;

/// The date chrono finds `days` days after the date
/// (`NaiveDate::checked_add_days`); `None` where the calendar has no such
/// date or the result is out of chrono's range.
pub uninterp spec fn civil_plus_days(date: CivilDate, days: u64) -> Option<CivilDate>;

/// The RFC 3339 text chrono writes (`DateTime::to_rfc3339`) for `hour:00:00`
/// on the date at `offset` seconds east of UTC; `None` where the calendar has
/// no such date, hour or offset.
pub uninterp spec fn rfc3339_text(date: CivilDate, hour: u32, offset: i32) -> Option<Seq<char>>;

/// The date of 08:00 on the next Monday strictly after `today`: `today`
/// moved on by seven days less its distance from Monday.
pub open spec fn departure_date(today: CivilDate) -> Option<CivilDate> {
    match civil_weekday(today) {
        Some(day) => civil_plus_days(today, (7 - day.days_from_monday()) as u64),
        None => None,
    }
}

/// The departure timestamp for someone whose local date is `today` and whose
/// local offset at the departure is `offset` seconds east of UTC.
pub open spec fn departure_text(today: CivilDate, offset: i32) -> Option<Seq<char>> {
    match departure_date(today) {
        Some(date) => if in_calendar_years(date) {
            rfc3339_text(date, DEPARTURE_HOUR, offset)
        } else {
            None
        },
        None => None,
    }
}

/// How many days lie between `today` and the next Monday that is not today.
pub fn days_until_next_monday(today: Weekday) -> (days: u64)
    ensures
        days == 7 - today.days_from_monday(),
        1 <= days <= 7,
        (today.days_from_monday() + days) % 7 == 0,
{
    match today {
        Weekday::Monday => 7,
        Weekday::Tuesday => 6,
        Weekday::Wednesday => 5,
        Weekday::Thursday => 4,
        Weekday::Friday => 3,
        Weekday::Saturday => 2,
        Weekday::Sunday => 1,
    }
}

/// Whether the moment lies between the start of 1970 and the end of 9999.
pub fn is_in_calendar_range(at: i64) -> (inside: bool)
    ensures
        inside == in_calendar_range(at),
{
    0 <= at && at <= LATEST_MOMENT
}

/// The date of the next Monday strictly after `today`. `None` where the
/// calendar has no date `today`.
pub fn next_monday_date(today: CivilDate) -> (date: Option<CivilDate>)
    ensures
        date == departure_date(today),
{
    match weekday_of(today) {
        Some(day) => date_plus_days(today, days_until_next_monday(day)),
        None => None,
    }
}

/// The departure timestamp for someone whose local date is `today` and whose
/// local offset at the departure is `offset` seconds east of UTC: the text
/// of 08:00 on the next Monday strictly after `today` at that offset. `None`
/// where there is no such Monday in the years 1970 to 9999 or the offset is
/// a day or more. The same date and offset always give the same text.
pub fn departure_stamp(today: CivilDate, offset: i32) -> (stamp: Option<String>)
    ensures
        stamp is Some == departure_text(today, offset) is Some,
        stamp matches Some(s) ==> departure_text(today, offset) == Some(s@),
{
    let date = match next_monday_date(today) {
        Some(date) => date,
        None => return None,
    };
    if date.year < 1970 || date.year > 9999 {
        return None;
    }
    rfc3339_of(date, DEPARTURE_HOUR, offset)
}

/// 08:00 local time on the next Monday strictly after the local date
/// `today`, as an RFC 3339 timestamp: `departure_stamp` of `today` and the
/// offset the local calendar has at 08:00 on that Monday. `None` where
/// there is no such Monday in the years 1970 to 9999, or where the local
/// calendar skips or repeats 08:00 on it.
pub fn next_monday_on(today: CivilDate) -> (stamp: Option<String>)
    ensures
        stamp matches Some(s) ==> exists|offset: i32| #[trigger]
            departure_text(today, offset) == Some(s@),
{
    let date = match next_monday_date(today) {
        Some(date) => date,
        None => return None,
    };
    if date.year < 1970 || date.year > 9999 {
        return None;
    }
    let offset = match local_offset(date, DEPARTURE_HOUR) {
        Some(offset) => offset,
        None => return None,
    };
    let stamp = departure_stamp(today, offset);
    proof {
        if stamp is Some {
            assert(departure_text(today, offset) == Some(stamp->0@));
        }
    }
    stamp
}

/// 08:00 local time on the next Monday strictly after the local day of
/// `now` (Unix seconds), as an RFC 3339 timestamp: what `departure_text`
/// gives for the local date of `now` and the local offset at the departure.
/// `None` where `now` lies outside the calendar range, and where
/// `next_monday_on` has none for the local date.
pub fn next_monday_after(now: i64) -> (stamp: Option<String>)
    ensures
        !in_calendar_range(now) ==> stamp is None,
        stamp matches Some(s) ==> exists|today: CivilDate, offset: i32| #[trigger]
            departure_text(today, offset) == Some(s@),
{
    if !is_in_calendar_range(now) {
        return None;
    }
    let today = match local_date(now) {
        Some(today) => today,
        None => return None,
    };
    let stamp = next_monday_on(today);
    proof {
        if stamp is Some {
            let offset = choose|offset: i32| departure_text(today, offset) == Some(stamp->0@);
            assert(departure_text(today, offset) == Some(stamp->0@));
        }
    }
    stamp
}

/// 08:00 local time on the next Monday strictly after today, as an RFC 3339
/// timestamp: what `departure_text` gives for today's local date and the
/// local offset at the departure.
pub fn next_monday() -> (stamp: Option<String>)
    ensures
        stamp matches Some(s) ==> exists|today: CivilDate, offset: i32| #[trigger]
            departure_text(today, offset) == Some(s@),
{
    next_monday_after(clock_now())
}

/// The current time as Unix seconds, read with `chrono::Local::now` and
/// `DateTime::timestamp`.
///
/// Trusted, and nothing is claimed of the value: it is the clock's.
#[verifier::external_body]
fn clock_now() -> (now: i64) {
    chrono::Local::now().timestamp()
}

/// The date of the moment `at` (Unix seconds) in the machine's time zone,
/// from `Datelike::year`, `month` and `day` on a `DateTime<Local>`.
///
/// Trusted. Outside the calendar range chrono's zone lookup may give up, so
/// such moments are not accepted. Which date comes out depends on the
/// machine's time zone, so nothing is claimed of it.
#[verifier::external_body]
fn local_date(at: i64) -> (date: Option<CivilDate>)
    requires
        in_calendar_range(at),
{
    let moment = chrono::Local.timestamp_opt(at, 0).single()?;
    Some(CivilDate { year: moment.year(), month: moment.month(), day: moment.day() })
}

/// The offset from UTC, in seconds east, that the machine's time zone has
/// when the wall clock reads `hour:00:00` on the date, from
/// `TimeZone::from_local_datetime` on `chrono::Local`.
///
/// Trusted. `None` where that wall-clock time does not exist on the date or
/// occurs twice (a daylight-saving change), or where the calendar has no
/// such date or hour. Outside the years 1970 to 9999 chrono's zone lookup
/// may give up, so such dates are not accepted. The offset depends on the
/// machine's time zone, so nothing is claimed of it.
#[verifier::external_body]
fn local_offset(date: CivilDate, hour: u32) -> (offset: Option<i32>)
    requires
        in_calendar_years(date),
{
    let day = chrono::NaiveDate::from_ymd_opt(date.year, date.month, date.day)?;
    let moment = chrono::Local.from_local_datetime(&day.and_hms_opt(hour, 0, 0)?).single()?;
    Some(moment.offset().local_minus_utc())
}

/// The weekday of a date, from `chrono::NaiveDate::from_ymd_opt` and
/// `Datelike::weekday`.
///
/// Trusted: the result is the weekday named `civil_weekday`.
#[verifier::external_body]
fn weekday_of(date: CivilDate) -> (day: Option<Weekday>)
    ensures
        day == civil_weekday(date),
{
    let day = chrono::NaiveDate::from_ymd_opt(date.year, date.month, date.day)?;
    Some(
        match day.weekday() {
            chrono::Weekday::Mon => Weekday::Monday,
            chrono::Weekday::Tue => Weekday::Tuesday,
            chrono::Weekday::Wed => Weekday::Wednesday,
            chrono::Weekday::Thu => Weekday::Thursday,
            chrono::Weekday::Fri => Weekday::Friday,
            chrono::Weekday::Sat => Weekday::Saturday,
            chrono::Weekday::Sun => Weekday::Sunday,
        },
    )
}

/// The date `days` days after a date, from
/// `chrono::NaiveDate::checked_add_days`.
///
/// Trusted: the result is the date named `civil_plus_days`.
#[verifier::external_body]
fn date_plus_days(date: CivilDate, days: u64) -> (later: Option<CivilDate>)
    ensures
        later == civil_plus_days(date, days),
{
    let day = chrono::NaiveDate::from_ymd_opt(date.year, date.month, date.day)?;
    let later = day.checked_add_days(chrono::Days::new(days))?;
    Some(CivilDate { year: later.year(), month: later.month(), day: later.day() })
}

/// The RFC 3339 text of `hour:00:00` on a date at a fixed offset, from
/// `chrono::DateTime::to_rfc3339` on a `DateTime<FixedOffset>`.
///
/// Trusted: the result is the text named `rfc3339_text`.
#[verifier::external_body]
fn rfc3339_of(date: CivilDate, hour: u32, offset: i32) -> (text: Option<String>)
    ensures
        text is Some == rfc3339_text(date, hour, offset) is Some,
        text matches Some(s) ==> rfc3339_text(date, hour, offset) == Some(s@),
{
    let zone = chrono::FixedOffset::east_opt(offset)?;
    let day = chrono::NaiveDate::from_ymd_opt(date.year, date.month, date.day)?;
    Some(zone.from_local_datetime(&day.and_hms_opt(hour, 0, 0)?).single()?.to_rfc3339())
}

} // verus!
