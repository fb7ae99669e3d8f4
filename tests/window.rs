use nhmoon::date::{Date, Weekday};
use nhmoon::moon::Phoon;
use nhmoon::window::{nonzero_sub, OutOfTimeError, WeekWindow};

fn date(y: i32, m: u8, d: u8) -> Date {
    Date::from_calendar_date(y, m, d).unwrap()
}

/// The Sundays (as Julian days) of the window's weeks, or of the first
/// representable day where a week has no Sunday.
fn firsts(w: &WeekWindow<Phoon>) -> Vec<i32> {
    let weeks = w.weeks().unwrap();
    (0..weeks.len())
        .map(|i| weeks.get(i).enumerate()[0].1.date.to_julian_day())
        .collect()
}

fn sunday(w: &WeekWindow<Phoon>, i: usize) -> Date {
    w.weeks().unwrap().get(i).get(Weekday::Sunday).unwrap().date
}

fn assert_contiguous(w: &WeekWindow<Phoon>) {
    let weeks = w.weeks().unwrap();
    assert!(weeks.len() >= 1);
    for i in 1..weeks.len() {
        let a = weeks.get(i - 1).get(Weekday::Saturday).unwrap().date;
        let b = weeks.get(i).get(Weekday::Sunday).unwrap().date;
        assert_eq!(a.next_day(), Some(b));
    }
}

#[test]
fn three_weeks_around_a_wednesday_then_a_page_forwards() {
    let mut w = WeekWindow::new(date(2025, 1, 22), Phoon);
    assert_eq!(w.ensure_weeks(3).len(), 3);
    assert_eq!(sunday(&w, 1), date(2025, 1, 19));
    let middle = w.weeks().unwrap().get(1).get(Weekday::Saturday).unwrap().date;
    assert_eq!(middle, date(2025, 1, 25));
    assert_eq!(sunday(&w, 0), date(2025, 1, 12));
    let old_bottom = sunday(&w, 2);
    assert_eq!(w.one_page_forwards(), Ok(()));
    assert_eq!(w.weeks().unwrap().len(), 3);
    assert_eq!(
        sunday(&w, 0).to_julian_day(),
        old_bottom.to_julian_day() + 7
    );
    assert_eq!(sunday(&w, 0), date(2025, 2, 2));
    assert_contiguous(&w);
}

#[test]
fn jump_to_today_recentres_and_keeps_length() {
    let today = date(2025, 1, 22);
    let mut w = WeekWindow::new(today, Phoon).start_date(date(1900, 6, 1));
    w.ensure_weeks(5);
    assert_eq!(sunday(&w, 2), date(1900, 5, 27));
    w.jump_to_today();
    assert_eq!(w.weeks().unwrap().len(), 5);
    assert_eq!(sunday(&w, 2), date(2025, 1, 19));
    assert_contiguous(&w);
}

#[test]
fn jump_to_date_recentres_on_the_date() {
    let mut w = WeekWindow::new(date(2025, 1, 22), Phoon);
    w.ensure_weeks(4);
    w.jump_to_date(date(2000, 1, 1));
    assert_eq!(w.weeks().unwrap().len(), 4);
    assert_eq!(sunday(&w, 1), date(1999, 12, 26));
    assert_contiguous(&w);
}

#[test]
fn nothing_moves_before_the_window_is_built() {
    let mut w = WeekWindow::new(date(2025, 1, 22), Phoon);
    assert_eq!(w.one_week_forwards(), Ok(()));
    assert_eq!(w.one_page_backwards(), Ok(()));
    w.jump_to_today();
    assert!(w.weeks().is_none());
}

#[test]
fn scrolling_back_at_the_earliest_date_always_fails() {
    let mut w = WeekWindow::new(date(2025, 1, 22), Phoon).start_date(Date::earliest());
    w.ensure_weeks(4);
    let before = firsts(&w);
    assert_eq!(before[0], Date::earliest().to_julian_day());
    for _ in 0..3 {
        assert_eq!(w.one_week_backwards(), Err(OutOfTimeError));
        assert_eq!(firsts(&w), before);
        assert_eq!(w.one_page_backwards(), Err(OutOfTimeError));
        assert_eq!(firsts(&w), before);
    }
}

#[test]
fn growing_at_the_latest_date_extends_backwards() {
    let mut w = WeekWindow::new(date(2025, 1, 22), Phoon).start_date(Date::latest());
    w.ensure_weeks(5);
    let five = firsts(&w);
    let last = *w.weeks().unwrap().back();
    assert_eq!(last.last_ym(), (9999, 12));
    w.ensure_weeks(8);
    let eight = firsts(&w);
    assert_eq!(eight.len(), 8);
    assert_eq!(*w.weeks().unwrap().back(), last);
    assert_eq!(&eight[3..], &five[..]);
    assert_eq!(eight[0], five[0] - 21);
    assert_contiguous(&w);
    assert_eq!(w.one_week_forwards(), Err(OutOfTimeError));
    assert_eq!(w.one_page_forwards(), Err(OutOfTimeError));
    assert_eq!(firsts(&w), eight);
}

#[test]
fn shrinking_keeps_the_first_weeks_and_zero_means_one() {
    let mut w = WeekWindow::new(date(2025, 1, 22), Phoon);
    w.ensure_weeks(7);
    let seven = firsts(&w);
    w.ensure_weeks(3);
    assert_eq!(firsts(&w), seven[..3].to_vec());
    w.ensure_weeks(0);
    assert_eq!(firsts(&w), seven[..1].to_vec());
    w.ensure_weeks(3);
    assert_eq!(firsts(&w), seven[..3].to_vec());
}

#[test]
fn forwards_then_backwards_restores_the_window() {
    let mut w = WeekWindow::new(date(2025, 1, 22), Phoon);
    w.ensure_weeks(6);
    let before: Vec<_> = (0..6).map(|i| *w.weeks().unwrap().get(i)).collect();
    assert_eq!(w.one_week_forwards(), Ok(()));
    assert_eq!(sunday(&w, 0), date(2025, 1, 12));
    assert_eq!(w.one_week_backwards(), Ok(()));
    let after: Vec<_> = (0..6).map(|i| *w.weeks().unwrap().get(i)).collect();
    assert_eq!(before, after);
}

#[test]
fn operations_keep_the_window_contiguous_and_sized() {
    let mut w = WeekWindow::new(date(2025, 1, 22), Phoon).start_date(date(-9999, 2, 10));
    w.ensure_weeks(5);
    assert_eq!(w.one_page_backwards(), Ok(()));
    assert_eq!(firsts(&w)[0], Date::earliest().to_julian_day());
    assert_eq!(w.weeks().unwrap().len(), 5);
    assert_contiguous(&w);
    assert_eq!(w.one_page_forwards(), Ok(()));
    assert_eq!(w.one_week_forwards(), Ok(()));
    w.ensure_weeks(9);
    assert_eq!(w.weeks().unwrap().len(), 9);
    assert_contiguous(&w);
    w.jump_to_date(Date::latest());
    assert_eq!(w.weeks().unwrap().len(), 9);
    assert_contiguous(&w);
    assert_eq!(w.one_page_forwards(), Err(OutOfTimeError));
    assert_eq!(w.one_page_backwards(), Ok(()));
    assert_eq!(w.one_page_forwards(), Ok(()));
    assert_eq!(w.weeks().unwrap().back().last_ym(), (9999, 12));
    assert_eq!(w.weeks().unwrap().len(), 9);
    assert_contiguous(&w);
}

#[test]
fn page_forwards_near_the_end_keeps_length() {
    let mut w = WeekWindow::new(date(2025, 1, 22), Phoon).start_date(date(9999, 12, 1));
    w.ensure_weeks(4);
    let before = firsts(&w);
    assert_eq!(w.one_page_forwards(), Ok(()));
    let after = firsts(&w);
    assert_eq!(after.len(), 4);
    assert_eq!(*w.weeks().unwrap().back(), {
        let mut probe = WeekWindow::new(Date::latest(), Phoon);
        *probe.ensure_weeks(1).front()
    });
    assert!(after[0] > before[0]);
    assert_contiguous(&w);
}

#[test]
fn nonzero_sub_values() {
    assert_eq!(nonzero_sub(5, 5), None);
    assert_eq!(nonzero_sub(5, 3), Some(2));
    assert_eq!(nonzero_sub(1, 0), Some(1));
}
