use nhmoon::date::Date;
use nhmoon::moon::{Phase, Phoon};
use nhmoon::week::{DateStyle, DateStyler};

fn date(y: i32, m: u8, d: u8) -> Date {
    Date::from_calendar_date(y, m, d).unwrap()
}

#[test]
fn full_moon_date_gets_full_moon_style() {
    assert_eq!(Phase::for_date(date(2025, 1, 14)), Phase::Full);
    assert_eq!(Phoon.date_style(date(2025, 1, 14)), DateStyle::FullMoon);
    assert_eq!(Phoon.date_style(date(2024, 12, 15)), DateStyle::FullMoon);
}

#[test]
fn new_moon_date_gets_new_moon_style() {
    assert_eq!(Phase::for_date(date(2025, 1, 1)), Phase::New);
    assert_eq!(Phoon.date_style(date(2025, 1, 1)), DateStyle::NewMoon);
}

#[test]
fn ordinary_date_gets_base_style() {
    assert_eq!(Phase::for_date(date(2025, 1, 5)), Phase::Normal);
    assert_eq!(Phoon.date_style(date(2025, 1, 5)), DateStyle::Base);
    assert_eq!(Phoon.date_style(date(1969, 7, 20)), DateStyle::Base);
}

#[test]
fn years_before_1900_use_truncating_arithmetic() {
    assert_eq!(Phase::for_year_ordinal(1800, 1), Phase::Normal);
    assert_eq!(Phase::for_year_ordinal(1800, 7), Phase::Full);
    assert_eq!(Phase::for_year_ordinal(1800, 22), Phase::New);
    assert_eq!(Phase::for_year_ordinal(-500, 3), Phase::New);
    assert_eq!(Phase::for_year_ordinal(-500, 21), Phase::Full);
    assert_eq!(Phase::for_year_ordinal(i32::MIN, 1), Phase::for_year_ordinal(i32::MIN + 1, 1));
}
