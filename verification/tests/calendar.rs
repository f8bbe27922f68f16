use chrono::{Datelike, NaiveDate, TimeDelta};
use task_tracker::calendar::{exact_date, first_found, month_length, Date};

fn date(year: i32, month: u32, day: u32) -> Date {
    Date::new(year, month, day).unwrap()
}

#[test]
fn only_dates_of_the_calendar_are_made() {
    assert_eq!(Date::new(2026, 1, 5), Some(Date { year: 2026, month: 1, day: 5 }));
    assert_eq!(Date::new(2024, 2, 29), Some(Date { year: 2024, month: 2, day: 29 }));
    assert_eq!(Date::new(2026, 2, 29), None);
    assert_eq!(Date::new(1900, 2, 29), None);
    assert_eq!(Date::new(2000, 2, 29), Some(Date { year: 2000, month: 2, day: 29 }));
    assert_eq!(Date::new(2026, 0, 1), None);
    assert_eq!(Date::new(2026, 13, 1), None);
    assert_eq!(Date::new(2026, 4, 31), None);
    assert_eq!(Date::new(2026, 4, 0), None);
    assert!(Date::new(262142, 12, 31).is_some());
    assert!(Date::new(262143, 1, 1).is_none());
    assert!(Date::new(-262143, 1, 1).is_some());
    assert!(Date::new(-262144, 12, 31).is_none());
}

#[test]
fn days_are_added_across_months_and_years() {
    let d = date(2026, 1, 5);
    assert_eq!(d.plus_days(0), Some(d));
    assert_eq!(d.plus_days(1), Some(date(2026, 1, 6)));
    assert_eq!(d.plus_days(27), Some(date(2026, 2, 1)));
    assert_eq!(d.plus_days(360), Some(date(2026, 12, 31)));
    assert_eq!(d.plus_days(361), Some(date(2027, 1, 1)));
    assert_eq!(d.plus_days(-5), Some(date(2025, 12, 31)));
    assert_eq!(date(2024, 2, 28).plus_days(1), Some(date(2024, 2, 29)));
    assert_eq!(date(2023, 2, 28).plus_days(1), Some(date(2023, 3, 1)));
    assert_eq!(date(1, 1, 1).plus_days(-1), Some(date(0, 12, 31)));
}

#[test]
fn no_day_is_added_beyond_the_calendar() {
    assert_eq!(date(262142, 12, 31).plus_days(1), None);
    assert_eq!(date(-262143, 1, 1).plus_days(-1), None);
    assert_eq!(date(2026, 1, 5).plus_days(i64::MAX), None);
    assert_eq!(date(2026, 1, 5).plus_days(i64::MIN), None);
    assert_eq!(date(2026, 1, 5).plus_days(200_000_001), None);
    assert_eq!(date(-262143, 1, 1).plus_days(191_491_528), Some(date(262142, 12, 31)));
    assert_eq!(date(-262143, 1, 1).plus_days(191_491_529), None);
}

#[test]
fn the_day_of_the_week_counts_from_monday() {
    assert_eq!(date(2026, 1, 5).day_of_week(), 0);
    assert_eq!(date(2026, 1, 6).day_of_week(), 1);
    assert_eq!(date(2026, 1, 11).day_of_week(), 6);
    assert_eq!(date(1, 1, 1).day_of_week(), 0);
    assert_eq!(date(2024, 2, 29).day_of_week(), 3);
    assert_eq!(date(2026, 2, 10).day_of_week(), 1);
}

#[test]
fn the_lengths_of_the_months() {
    let lengths = [31, 28, 31, 30, 31, 30, 31, 31, 30, 31, 30, 31];
    for month in 1..=12u32 {
        assert_eq!(month_length(2026, month), lengths[month as usize - 1]);
    }
    assert_eq!(month_length(2024, 2), 29);
    assert_eq!(month_length(1900, 2), 28);
    assert_eq!(month_length(2000, 2), 29);
    assert_eq!(month_length(262142, 12), 31);
    assert_eq!(month_length(-262143, 1), 31);
}

#[test]
fn the_days_between_two_dates() {
    assert_eq!(date(2026, 12, 31).days_since(date(2026, 1, 5)), 360);
    assert_eq!(date(2026, 1, 5).days_since(date(2026, 12, 31)), -360);
    assert_eq!(date(2026, 1, 5).days_since(date(2026, 1, 5)), 0);
    assert_eq!(date(262142, 12, 31).days_since(date(-262143, 1, 1)), 191_491_528);
}

#[test]
fn earlier_dates_come_before() {
    assert!(date(2026, 1, 5).is_before(&date(2026, 1, 6)));
    assert!(date(2025, 12, 31).is_before(&date(2026, 1, 1)));
    assert!(date(2026, 1, 31).is_before(&date(2026, 2, 1)));
    assert!(!date(2026, 1, 5).is_before(&date(2026, 1, 5)));
    assert!(!date(2026, 1, 6).is_before(&date(2026, 1, 5)));
}

#[test]
fn exact_dates_in_three_forms() {
    assert_eq!(exact_date("2026-02-10"), Some(date(2026, 2, 10)));
    assert_eq!(exact_date("10/02/2026"), Some(date(2026, 2, 10)));
    assert_eq!(exact_date("02-10-2026"), Some(date(2026, 2, 10)));
    assert_eq!(exact_date("2026/02/10"), None);
    assert_eq!(exact_date("tomorrow"), None);
    assert_eq!(exact_date(""), None);
}

#[test]
fn the_first_form_that_reads_decides() {
    let a = date(2026, 1, 1);
    let b = date(2026, 1, 2);
    let c = date(2026, 1, 3);
    assert_eq!(first_found(Some(a), Some(b), Some(c)), Some(a));
    assert_eq!(first_found(None, Some(b), Some(c)), Some(b));
    assert_eq!(first_found(None, None, Some(c)), Some(c));
    assert_eq!(first_found(None, None, None), None);
}

/// The day number of a date, by the rules of the calendar: 365 days a year
/// and one more in a leap year, counted from the first of January of
/// year 1 as day 1.
fn day_number(d: Date) -> i64 {
    let y = d.year as i64 - 1;
    let leap = d.year % 4 == 0 && (d.year % 100 != 0 || d.year % 400 == 0);
    let before = [0, 31, 59, 90, 120, 151, 181, 212, 243, 273, 304, 334][d.month as usize - 1];
    365 * y + y.div_euclid(4) - y.div_euclid(100) + y.div_euclid(400)
        + before
        + if leap && d.month > 2 { 1 } else { 0 }
        + d.day as i64
}

#[test]
fn the_day_numbers_are_those_of_the_calendar() {
    let mut day = NaiveDate::from_ymd_opt(1995, 1, 1).unwrap();
    for _ in 0..4000 {
        let d = date(day.year(), day.month(), day.day());
        assert_eq!(day_number(d), day.num_days_from_ce() as i64);
        assert_eq!((day_number(d) - 1).rem_euclid(7) as u32, d.day_of_week());
        day = day + TimeDelta::days(1);
    }
    for (y, m, d) in [(-262143, 1, 1), (262142, 12, 31), (0, 2, 29), (-4, 2, 29), (1, 1, 1), (-1, 12, 31), (1600, 3, 1), (-400, 2, 29)] {
        let n = NaiveDate::from_ymd_opt(y, m, d).unwrap();
        assert_eq!(day_number(date(y, m, d)), n.num_days_from_ce() as i64);
        assert_eq!((day_number(date(y, m, d)) - 1).rem_euclid(7) as u32, date(y, m, d).day_of_week());
    }
}
