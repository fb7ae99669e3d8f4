use nhmoon::date::Weekday::{Friday, Monday, Saturday, Sunday, Thursday, Tuesday, Wednesday};
use nhmoon::date::{Date, Weekday};
use nhmoon::factory::WeekFactory;
use nhmoon::week::{DateStyle, DateStyler};

struct NullStyler;

impl DateStyler for NullStyler {
    fn spec_date_style(&self, _date: Date) -> DateStyle {
        DateStyle::Base
    }

    fn date_style(&self, _date: Date) -> DateStyle {
        DateStyle::Base
    }
}

fn date(y: i32, m: u8, d: u8) -> Date {
    Date::from_calendar_date(y, m, d).unwrap()
}

fn days(factory: &WeekFactory<NullStyler>, d: Date) -> Vec<(Weekday, Date)> {
    factory.make(d).enumerate().into_iter().map(|(wd, sd)| (wd, sd.date)).collect()
}

#[test]
fn test_make() {
    let factory = WeekFactory::new(NullStyler);
    let week = factory.make(date(2023, 11, 16));
    let mut iter = week.enumerate().into_iter().map(|(wd, sd)| (wd, sd.date));
    assert_eq!(iter.next(), Some((Sunday, date(2023, 11, 12))));
    assert_eq!(iter.next(), Some((Monday, date(2023, 11, 13))));
    assert_eq!(iter.next(), Some((Tuesday, date(2023, 11, 14))));
    assert_eq!(iter.next(), Some((Wednesday, date(2023, 11, 15))));
    assert_eq!(iter.next(), Some((Thursday, date(2023, 11, 16))));
    assert_eq!(iter.next(), Some((Friday, date(2023, 11, 17))));
    assert_eq!(iter.next(), Some((Saturday, date(2023, 11, 18))));
    assert_eq!(iter.next(), None);
}

#[test]
fn test_make_from_sunday() {
    let factory = WeekFactory::new(NullStyler);
    let week = factory.make(date(2023, 11, 12));
    let mut iter = week.enumerate().into_iter().map(|(wd, sd)| (wd, sd.date));
    assert_eq!(iter.next(), Some((Sunday, date(2023, 11, 12))));
    assert_eq!(iter.next(), Some((Monday, date(2023, 11, 13))));
    assert_eq!(iter.next(), Some((Tuesday, date(2023, 11, 14))));
    assert_eq!(iter.next(), Some((Wednesday, date(2023, 11, 15))));
    assert_eq!(iter.next(), Some((Thursday, date(2023, 11, 16))));
    assert_eq!(iter.next(), Some((Friday, date(2023, 11, 17))));
    assert_eq!(iter.next(), Some((Saturday, date(2023, 11, 18))));
    assert_eq!(iter.next(), None);
}

#[test]
fn test_make_from_saturday() {
    let factory = WeekFactory::new(NullStyler);
    let week = factory.make(date(2023, 11, 18));
    let mut iter = week.enumerate().into_iter().map(|(wd, sd)| (wd, sd.date));
    assert_eq!(iter.next(), Some((Sunday, date(2023, 11, 12))));
    assert_eq!(iter.next(), Some((Monday, date(2023, 11, 13))));
    assert_eq!(iter.next(), Some((Tuesday, date(2023, 11, 14))));
    assert_eq!(iter.next(), Some((Wednesday, date(2023, 11, 15))));
    assert_eq!(iter.next(), Some((Thursday, date(2023, 11, 16))));
    assert_eq!(iter.next(), Some((Friday, date(2023, 11, 17))));
    assert_eq!(iter.next(), Some((Saturday, date(2023, 11, 18))));
    assert_eq!(iter.next(), None);
}

#[test]
fn containing_week_starts_on_sunday_before_date() {
    let factory = WeekFactory::new(NullStyler);
    // 2025-01-01 is a Wednesday: its week starts on 2024-12-29.
    let week = factory.make(date(2025, 1, 1));
    let got = days(&factory, date(2025, 1, 1));
    assert_eq!(got.len(), 7);
    assert_eq!(got[0], (Sunday, date(2024, 12, 29)));
    assert_eq!(got[6], (Saturday, date(2025, 1, 4)));
    for i in 1..7 {
        assert_eq!(got[i].1.to_julian_day(), got[i - 1].1.to_julian_day() + 1);
    }
    assert_eq!(week.first_ym(), (2024, 12));
    assert_eq!(week.last_ym(), (2025, 1));
    assert!(week.has_month_start());
    assert!(!factory.make(date(2025, 1, 15)).has_month_start());
}

#[test]
fn week_at_earliest_date_is_partial() {
    let factory = WeekFactory::new(NullStyler);
    let week = factory.make(Date::earliest());
    assert_eq!(week.get(Sunday), None);
    let got = days(&factory, Date::earliest());
    assert_eq!(got.len(), 6);
    assert_eq!(got[0], (Monday, Date::earliest()));
    assert_eq!(week.first_ym(), (-9999, 1));
    assert_eq!(factory.week_before(&week), None);
    assert!(factory.weeks_before(week, 3).is_none());
}

#[test]
fn week_at_latest_date_is_partial() {
    let factory = WeekFactory::new(NullStyler);
    let week = factory.make(Date::latest());
    assert_eq!(week.get(Saturday), None);
    let got = days(&factory, Date::latest());
    assert_eq!(got.len(), 6);
    assert_eq!(got[5], (Friday, Date::latest()));
    assert_eq!(week.last_ym(), (9999, 12));
    assert_eq!(factory.week_after(&week), None);
    assert!(factory.weeks_after(week, 3).is_none());
}

#[test]
fn week_before_and_after_round_trip() {
    let factory = WeekFactory::new(NullStyler);
    let week = factory.make(date(2024, 2, 28));
    let before = factory.week_before(&week).unwrap();
    assert_eq!(before.get(Sunday).unwrap().date, date(2024, 2, 18));
    assert_eq!(factory.week_after(&before), Some(week));
    let after = factory.week_after(&week).unwrap();
    assert_eq!(after.get(Sunday).unwrap().date, date(2024, 3, 3));
    assert_eq!(factory.week_before(&after), Some(week));
}

#[test]
fn runs_stop_at_the_ends_of_time() {
    let factory = WeekFactory::new(NullStyler);
    let first = factory.make(Date::earliest());
    let second = factory.week_after(&first).unwrap();
    let third = factory.week_after(&second).unwrap();
    let run = factory.weeks_before(third, 5).unwrap();
    assert_eq!(run.len(), 2);
    assert_eq!(*run.front(), first);
    assert_eq!(*run.back(), second);
    let last = factory.make(Date::latest());
    let before_last = factory.week_before(&last).unwrap();
    let run = factory.weeks_after(before_last, 4).unwrap();
    assert_eq!(run.len(), 1);
    assert_eq!(*run.front(), last);
    let run = factory.weeks_after(first, 4).unwrap();
    assert_eq!(run.len(), 4);
    assert_eq!(*run.front(), second);
    assert_eq!(*run.get(1), third);
}

#[test]
fn around_date_centres_the_week_of_the_date() {
    let factory = WeekFactory::new(NullStyler);
    let d = date(2025, 1, 22);
    for count in 1..10usize {
        let weeks = factory.around_date(d, count);
        assert_eq!(weeks.len(), count);
        assert_eq!(*weeks.get((count - 1) / 2), factory.make(d));
        for i in 1..count {
            assert_eq!(Some(*weeks.get(i)), factory.week_after(weeks.get(i - 1)));
        }
    }
}

#[test]
fn around_date_near_the_end_fills_backwards() {
    let factory = WeekFactory::new(NullStyler);
    let weeks = factory.around_date(Date::latest(), 5);
    assert_eq!(weeks.len(), 5);
    assert_eq!(*weeks.back(), factory.make(Date::latest()));
    let weeks = factory.around_date(Date::earliest(), 4);
    assert_eq!(weeks.len(), 4);
    assert_eq!(*weeks.front(), factory.make(Date::earliest()));
}

#[test]
fn styled_date_shows_day_cells() {
    let factory = WeekFactory::new(NullStyler);
    let sd = factory.style_date(date(2025, 1, 5));
    assert_eq!(sd.show(false), vec![' ', ' ', '5', ' ']);
    assert_eq!(sd.show(true), vec!['[', ' ', '5', ']']);
    let sd = factory.style_date(date(2025, 1, 22));
    assert_eq!(sd.show(false), vec![' ', '2', '2', ' ']);
    assert!(!sd.is_last_day_of_month());
    assert!(factory.style_date(date(2024, 2, 29)).is_last_day_of_month());
    assert!(factory.style_date(date(2023, 2, 28)).is_last_day_of_month());
    assert!(factory.style_date(Date::latest()).is_last_day_of_month());
}
