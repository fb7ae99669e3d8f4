use nhmoon::date::{Date, Weekday, MAX_JULIAN_DAY, MIN_JULIAN_DAY};

#[test]
fn calendar_dates_round_trip_through_julian_days() {
    let d = Date::from_calendar_date(2000, 1, 1).unwrap();
    assert_eq!(d.to_julian_day(), 2_451_545);
    assert_eq!((d.year(), d.month(), d.day(), d.ordinal()), (2000, 1, 1, 1));
    let d = Date::from_calendar_date(2019, 12, 31).unwrap();
    assert_eq!(d.to_julian_day(), 2_458_849);
    assert_eq!(d.ordinal(), 365);
    assert_eq!(Date::from_julian_day(2_458_849), Some(d));
}

#[test]
fn invalid_calendar_dates_are_rejected() {
    assert_eq!(Date::from_calendar_date(2019, 2, 29), None);
    assert_eq!(Date::from_calendar_date(2019, 13, 1), None);
    assert_eq!(Date::from_calendar_date(2019, 0, 1), None);
    assert_eq!(Date::from_calendar_date(10000, 1, 1), None);
    assert!(Date::from_calendar_date(2020, 2, 29).is_some());
}

#[test]
fn range_ends() {
    assert_eq!(Date::earliest().to_julian_day(), MIN_JULIAN_DAY);
    assert_eq!(Date::latest().to_julian_day(), MAX_JULIAN_DAY);
    assert_eq!(Date::from_calendar_date(-9999, 1, 1), Some(Date::earliest()));
    assert_eq!(Date::from_calendar_date(9999, 12, 31), Some(Date::latest()));
    assert_eq!(Date::from_julian_day(MIN_JULIAN_DAY - 1), None);
    assert_eq!(Date::from_julian_day(MAX_JULIAN_DAY + 1), None);
    assert_eq!(Date::earliest().previous_day(), None);
    assert_eq!(Date::latest().next_day(), None);
    assert_eq!(Date::earliest().weekday(), Weekday::Monday);
    assert_eq!(Date::latest().weekday(), Weekday::Friday);
}

#[test]
fn weekdays_and_neighbours() {
    let d = Date::from_calendar_date(2019, 9, 1).unwrap();
    assert_eq!(d.weekday(), Weekday::Sunday);
    assert_eq!(Date::from_calendar_date(2019, 6, 1).unwrap().weekday(), Weekday::Saturday);
    assert_eq!(Date::from_calendar_date(1969, 7, 20).unwrap().weekday(), Weekday::Sunday);
    assert_eq!(Date::from_calendar_date(-1, 3, 1).unwrap().weekday(), Weekday::Monday);
    let next = Date::from_calendar_date(2019, 12, 31).unwrap().next_day().unwrap();
    assert_eq!((next.year(), next.month(), next.day()), (2020, 1, 1));
    let prev = Date::from_calendar_date(2019, 3, 1).unwrap().previous_day().unwrap();
    assert_eq!((prev.year(), prev.month(), prev.day()), (2019, 2, 28));
    assert_eq!(Weekday::Saturday.index0(), 6);
    assert_eq!(Weekday::from_index0(3), Weekday::Wednesday);
}
