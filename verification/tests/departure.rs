use chrono::{DateTime, Datelike, Duration, Local, NaiveDate, TimeZone, Timelike, Weekday as ChronoWeekday};
use suumo_traveltime::departure::{
    days_until_next_monday, departure_stamp, is_in_calendar_range, next_monday,
    next_monday_after, next_monday_date, next_monday_on, CivilDate, Weekday,
};

fn local_noon(year: i32, month: u32, day: u32) -> DateTime<Local> {
    let naive = NaiveDate::from_ymd_opt(year, month, day).unwrap().and_hms_opt(12, 0, 0).unwrap();
    Local.from_local_datetime(&naive).single().unwrap()
}

#[test]
fn days_to_monday_by_weekday() {
    assert_eq!(days_until_next_monday(Weekday::Monday), 7);
    assert_eq!(days_until_next_monday(Weekday::Tuesday), 6);
    assert_eq!(days_until_next_monday(Weekday::Wednesday), 5);
    assert_eq!(days_until_next_monday(Weekday::Thursday), 4);
    assert_eq!(days_until_next_monday(Weekday::Friday), 3);
    assert_eq!(days_until_next_monday(Weekday::Saturday), 2);
    assert_eq!(days_until_next_monday(Weekday::Sunday), 1);
}

#[test]
fn wednesday_leads_to_monday_five_days_later() {
    let today = local_noon(2025, 1, 15);
    assert_eq!(today.weekday(), ChronoWeekday::Wed);
    let stamp = next_monday_after(today.timestamp()).unwrap();
    let departure = DateTime::parse_from_rfc3339(&stamp).unwrap().with_timezone(&Local);
    assert_eq!(departure.weekday(), ChronoWeekday::Mon);
    assert_eq!(departure.date_naive(), NaiveDate::from_ymd_opt(2025, 1, 20).unwrap());
    assert_eq!((departure.hour(), departure.minute(), departure.second()), (8, 0, 0));
}

#[test]
fn monday_leads_to_the_monday_after() {
    let today = local_noon(2025, 1, 13);
    assert_eq!(today.weekday(), ChronoWeekday::Mon);
    let stamp = next_monday_after(today.timestamp()).unwrap();
    let departure = DateTime::parse_from_rfc3339(&stamp).unwrap().with_timezone(&Local);
    assert_eq!(departure.weekday(), ChronoWeekday::Mon);
    assert_eq!(departure.date_naive(), NaiveDate::from_ymd_opt(2025, 1, 20).unwrap());
    assert_eq!((departure.hour(), departure.minute(), departure.second()), (8, 0, 0));
}

#[test]
fn sunday_evening_leads_to_the_next_morning() {
    let naive = NaiveDate::from_ymd_opt(2025, 1, 19).unwrap().and_hms_opt(23, 30, 0).unwrap();
    let today = Local.from_local_datetime(&naive).single().unwrap();
    let stamp = next_monday_after(today.timestamp()).unwrap();
    let departure = DateTime::parse_from_rfc3339(&stamp).unwrap().with_timezone(&Local);
    assert_eq!(departure.date_naive(), NaiveDate::from_ymd_opt(2025, 1, 20).unwrap());
    assert_eq!((departure.hour(), departure.minute(), departure.second()), (8, 0, 0));
}

#[test]
fn every_weekday_leads_to_a_later_monday() {
    for offset in 0..14 {
        let today = local_noon(2025, 3, 1) + Duration::days(offset);
        let stamp = next_monday_after(today.timestamp()).unwrap();
        let departure = DateTime::parse_from_rfc3339(&stamp).unwrap().with_timezone(&Local);
        assert_eq!(departure.weekday(), ChronoWeekday::Mon);
        assert!(departure.date_naive() > today.date_naive());
        assert!(departure.date_naive() <= today.date_naive() + Duration::days(7));
        assert_eq!(departure.hour(), 8);
    }
}

#[test]
fn moment_out_of_range_has_no_departure() {
    assert_eq!(next_monday_after(i64::MAX), None);
    assert_eq!(next_monday_after(i64::MIN), None);
    assert_eq!(next_monday_after(-1), None);
    assert_eq!(next_monday_after(253_402_300_800), None);
    assert!(next_monday_after(0).is_some());
}

#[test]
fn clock_gives_a_coming_monday() {
    let before = Local::now();
    let stamp = next_monday().unwrap();
    let departure = DateTime::parse_from_rfc3339(&stamp).unwrap().with_timezone(&Local);
    assert_eq!(departure.weekday(), ChronoWeekday::Mon);
    assert!(departure > before);
    assert_eq!(departure.hour(), 8);
}

fn date(year: i32, month: u32, day: u32) -> CivilDate {
    CivilDate { year, month, day }
}

#[test]
fn monday_date_by_weekday() {
    assert_eq!(next_monday_date(date(2025, 1, 13)), Some(date(2025, 1, 20)));
    assert_eq!(next_monday_date(date(2025, 1, 14)), Some(date(2025, 1, 20)));
    assert_eq!(next_monday_date(date(2025, 1, 15)), Some(date(2025, 1, 20)));
    assert_eq!(next_monday_date(date(2025, 1, 16)), Some(date(2025, 1, 20)));
    assert_eq!(next_monday_date(date(2025, 1, 17)), Some(date(2025, 1, 20)));
    assert_eq!(next_monday_date(date(2025, 1, 18)), Some(date(2025, 1, 20)));
    assert_eq!(next_monday_date(date(2025, 1, 19)), Some(date(2025, 1, 20)));
}

#[test]
fn monday_date_crosses_months_and_years() {
    assert_eq!(next_monday_date(date(2024, 12, 30)), Some(date(2025, 1, 6)));
    assert_eq!(next_monday_date(date(2024, 2, 26)), Some(date(2024, 3, 4)));
    assert_eq!(next_monday_date(date(2023, 2, 27)), Some(date(2023, 3, 6)));
    assert_eq!(next_monday_date(date(9999, 12, 31)), Some(date(10000, 1, 3)));
}

#[test]
fn date_the_calendar_lacks_has_no_monday() {
    assert_eq!(next_monday_date(date(2025, 2, 30)), None);
    assert_eq!(next_monday_date(date(2025, 13, 1)), None);
    assert_eq!(next_monday_date(date(2025, 0, 1)), None);
    assert_eq!(next_monday_date(date(2023, 2, 29)), None);
    assert_eq!(next_monday_date(date(i32::MAX, 1, 1)), None);
    assert_eq!(next_monday_on(date(2025, 2, 30)), None);
}

#[test]
fn stamp_is_eight_on_that_monday() {
    let stamp = next_monday_on(date(2025, 1, 15)).unwrap();
    let departure = DateTime::parse_from_rfc3339(&stamp).unwrap();
    assert_eq!(departure.date_naive(), NaiveDate::from_ymd_opt(2025, 1, 20).unwrap());
    assert_eq!((departure.hour(), departure.minute(), departure.second()), (8, 0, 0));
    assert_eq!(departure.with_timezone(&Local).hour(), 8);
    assert_eq!(stamp.len(), 25);
    assert!(stamp.starts_with("2025-01-20T08:00:00"));
}

#[test]
fn monday_outside_the_calendar_years_has_no_stamp() {
    assert_eq!(next_monday_on(date(9999, 12, 31)), None);
    assert_eq!(next_monday_on(date(1969, 12, 25)), None);
    assert!(next_monday_on(date(1969, 12, 31)).is_some());
    assert!(next_monday_on(date(9999, 12, 26)).is_some());
}

#[test]
fn calendar_range_runs_from_1970_to_9999() {
    assert!(is_in_calendar_range(0));
    assert!(is_in_calendar_range(253_402_300_799));
    assert!(!is_in_calendar_range(-1));
    assert!(!is_in_calendar_range(253_402_300_800));
}

#[test]
fn stamp_for_a_date_and_an_offset() {
    assert_eq!(
        departure_stamp(date(2025, 1, 15), 9 * 3600),
        Some("2025-01-20T08:00:00+09:00".to_string())
    );
    assert_eq!(
        departure_stamp(date(2025, 1, 13), 0),
        Some("2025-01-20T08:00:00+00:00".to_string())
    );
    assert_eq!(
        departure_stamp(date(2024, 12, 30), -(5 * 3600 + 30 * 60)),
        Some("2025-01-06T08:00:00-05:30".to_string())
    );
}

#[test]
fn same_date_and_offset_give_the_same_stamp() {
    let first = departure_stamp(date(2025, 6, 4), 7200);
    let second = departure_stamp(date(2025, 6, 4), 7200);
    assert_eq!(first, second);
    assert_eq!(first, Some("2025-06-09T08:00:00+02:00".to_string()));
}

#[test]
fn stamp_needs_a_date_and_an_offset_of_the_calendar() {
    assert_eq!(departure_stamp(date(2025, 2, 30), 0), None);
    assert_eq!(departure_stamp(date(2025, 1, 15), 86_400), None);
    assert_eq!(departure_stamp(date(2025, 1, 15), -86_400), None);
    assert_eq!(departure_stamp(date(9999, 12, 31), 0), None);
    assert_eq!(departure_stamp(date(1969, 12, 25), 0), None);
    assert_eq!(
        departure_stamp(date(2025, 1, 15), 86_340),
        Some("2025-01-20T08:00:00+23:59".to_string())
    );
}

#[test]
fn local_stamp_is_the_stamp_of_the_local_offset() {
    let today = date(2025, 1, 15);
    let stamp = next_monday_on(today).unwrap();
    let offset = DateTime::parse_from_rfc3339(&stamp).unwrap().offset().local_minus_utc();
    assert_eq!(departure_stamp(today, offset), Some(stamp));
}
