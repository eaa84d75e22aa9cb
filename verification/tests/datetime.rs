use chrono::{Datelike, Duration, NaiveDate};
use pontoslib::date::Date;

#[test]
fn datetime_test() {
    let picked_date = NaiveDate::parse_from_str("2023-11-07", "%Y-%m-%d").unwrap();
    let date = Date {
        year: picked_date.year() as u32,
        month: picked_date.month(),
        day: picked_date.day(),
    };
    let next = date.next_day();
    let expected = NaiveDate::from_ymd_opt(2023, 11, 08).unwrap();
    assert_eq!(picked_date + Duration::days(1), expected);
    assert_eq!(
        (next.year, next.month, next.day),
        (expected.year() as u32, expected.month(), expected.day())
    );
}

#[test]
fn next_day_within_a_month() {
    let d = Date { year: 2023, month: 11, day: 7 };
    assert_eq!(d.next_day(), Date { year: 2023, month: 11, day: 8 });
}

#[test]
fn next_day_rolls_over_a_month_end() {
    let d = Date { year: 2023, month: 11, day: 30 };
    assert_eq!(d.next_day(), Date { year: 2023, month: 12, day: 1 });
}

#[test]
fn next_day_rolls_over_a_year_end() {
    let d = Date { year: 2023, month: 12, day: 31 };
    assert_eq!(d.next_day(), Date { year: 2024, month: 1, day: 1 });
}

#[test]
fn next_day_in_february_of_a_leap_year() {
    let d = Date { year: 2024, month: 2, day: 28 };
    assert_eq!(d.next_day(), Date { year: 2024, month: 2, day: 29 });
    let e = Date { year: 2024, month: 2, day: 29 };
    assert_eq!(e.next_day(), Date { year: 2024, month: 3, day: 1 });
}

#[test]
fn next_day_in_february_of_a_common_year() {
    let d = Date { year: 2023, month: 2, day: 28 };
    assert_eq!(d.next_day(), Date { year: 2023, month: 3, day: 1 });
}

#[test]
fn next_day_honours_the_century_rule() {
    // 2000 was a leap year, 1900 was not
    let d = Date { year: 2000, month: 2, day: 28 };
    assert_eq!(d.next_day(), Date { year: 2000, month: 2, day: 29 });
    let e = Date { year: 1900, month: 2, day: 28 };
    assert_eq!(e.next_day(), Date { year: 1900, month: 3, day: 1 });
}

#[test]
fn iso_string_writes_the_date_dashed() {
    let d = Date { year: 2023, month: 11, day: 7 };
    assert_eq!(d.iso_string(), "2023-11-07");
}

#[test]
fn iso_string_zero_pads_every_field() {
    let d = Date { year: 800, month: 1, day: 2 };
    assert_eq!(d.iso_string(), "0800-01-02");
}

#[test]
fn iso_string_agrees_with_the_calendar_library() {
    let d = Date { year: 2024, month: 2, day: 29 };
    let reference = NaiveDate::from_ymd_opt(2024, 2, 29).unwrap();
    assert_eq!(d.iso_string(), reference.to_string());
}

#[test]
fn next_day_agrees_with_the_calendar_across_a_year() {
    // walk one leap year day by day against the calendar library
    let mut d = Date { year: 2024, month: 1, day: 1 };
    let mut reference = NaiveDate::from_ymd_opt(2024, 1, 1).unwrap();
    for _ in 0..366 {
        d = d.next_day();
        reference = reference + Duration::days(1);
        assert_eq!(
            (d.year, d.month, d.day),
            (reference.year() as u32, reference.month(), reference.day())
        );
    }
}
