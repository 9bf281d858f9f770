use grayline_apps::clock::{Clock, clock_at, date_utc, stamp, time_utc};
use grayline_apps::macros::greeting;
use jiff::civil::date;

fn tokyo() -> Clock {
    clock_at(&date(2026, 9, 13).at(1, 5, 42, 0).in_tz("Asia/Tokyo").expect("a valid instant"))
}

#[test]
fn a_reading_holds_the_local_and_the_universal_clock() {
    let clock = tokyo();
    assert_eq!((clock.year, clock.month, clock.day), (2026, 9, 13));
    assert_eq!((clock.hour, clock.minute, clock.second), (1, 5, 42));
    assert_eq!((clock.utc_year, clock.utc_month, clock.utc_day), (2026, 9, 12));
    assert_eq!((clock.utc_hour, clock.utc_minute), (16, 5));
}

#[test]
fn the_texts_of_a_reading_are_written_out() {
    let clock = tokyo();
    assert_eq!(date_utc(&clock), "2026-09-12");
    assert_eq!(time_utc(&clock), "1605");
    assert_eq!(stamp(&clock), "20260913-010542");
}

#[test]
fn the_greeting_goes_by_the_local_hour() {
    assert_eq!(greeting(&tokyo()), "GM");
    let evening = clock_at(&date(2026, 9, 13).at(20, 0, 0, 0).in_tz("Asia/Tokyo").expect("a valid instant"));
    assert_eq!(greeting(&evening), "GE");
    assert_eq!(evening.utc_hour, 11);
}

#[test]
fn a_leap_day_is_written_as_one() {
    let clock = clock_at(&date(2024, 2, 29).at(23, 59, 59, 0).in_tz("UTC").expect("a valid instant"));
    assert_eq!(stamp(&clock), "20240229-235959");
    assert_eq!(date_utc(&clock), "2024-02-29");
    assert_eq!(time_utc(&clock), "2359");
}
