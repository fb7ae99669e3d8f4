//! Weeks of styled dates, Sunday to Saturday.
use crate::date::{
    day_of, in_range, month_of, weekday_index, year_of, Date, Weekday, MAX_JULIAN_DAY,
    MIN_JULIAN_DAY,
};
use vstd::prelude::*;

verus! {

/// Julian day of the Sunday that starts the week of the earliest date (the
/// earliest date is a Monday, so this Sunday itself is not representable).
pub const FIRST_SUNDAY: i32 = -1931000;

/// Julian day of the Sunday that starts the week of the latest date.
pub const LAST_SUNDAY: i32 = 5373479;

/// Whether `s` is the Julian day of a Sunday whose week holds at least one
/// representable date.
pub open spec fn valid_sunday(s: int) -> bool {
    weekday_index(s) == 0 && FIRST_SUNDAY <= s <= LAST_SUNDAY
}

/// Whether the Julian day `jd` is the last day of its month, counting the
/// latest representable date as one.
pub open spec fn last_day_of_month(jd: int) -> bool {
    jd == MAX_JULIAN_DAY || month_of(jd) != month_of(jd + 1)
}

/// The character of a decimal digit.
pub open spec fn digit_char(d: int) -> char {
    if d == 0 {
        '0'
    } else if d == 1 {
        '1'
    } else if d == 2 {
        '2'
    } else if d == 3 {
        '3'
    } else if d == 4 {
        '4'
    } else if d == 5 {
        '5'
    } else if d == 6 {
        '6'
    } else if d == 7 {
        '7'
    } else if d == 8 {
        '8'
    } else {
        '9'
    }
}

/// The four cells that show a day of the month: right-justified in two
/// columns, between brackets for today and between spaces otherwise.
pub open spec fn day_cells(day: int, is_today: bool) -> Seq<char> {
    let tens = if day >= 10 {
        digit_char(day / 10)
    } else {
        ' '
    };
    let ones = digit_char(day % 10);
    if is_today {
        seq!['[', tens, ones, ']']
    } else {
        seq![' ', tens, ones, ' ']
    }
}

/// The character of a decimal digit `d < 10`.
pub fn digit(d: u8) -> (r: char)
    requires
        d < 10,
    ensures
        r == digit_char(d as int),
{
    if d == 0 {
        '0'
    } else if d == 1 {
        '1'
    } else if d == 2 {
        '2'
    } else if d == 3 {
        '3'
    } else if d == 4 {
        '4'
    } else if d == 5 {
        '5'
    } else if d == 6 {
        '6'
    } else if d == 7 {
        '7'
    } else if d == 8 {
        '8'
    } else {
        '9'
    }
}

/// Display style of a date, as a style policy chooses it.
#[derive(Clone, Copy, Debug, PartialEq, Eq, Structural, Hash)]
pub enum DateStyle {
    Base,
    FullMoon,
    NewMoon,
}

/// A policy that chooses the display style of each date.
pub trait DateStyler {
    /// The style that the policy gives `date`.
    spec fn spec_date_style(&self, date: Date) -> DateStyle;

    fn date_style(&self, date: Date) -> (r: DateStyle)
        ensures
            r == self.spec_date_style(date),
    ;
}

/// A date with the display style that its policy chose.
#[derive(Clone, Copy, Debug, PartialEq, Eq, Structural)]
pub struct StyledDate {
    pub date: Date,
    pub style: DateStyle,
}

impl StyledDate {
    pub fn year(&self) -> (r: i32)
        ensures
            r == year_of(self.date@),
            -9999 <= r <= 9999,
    {
        self.date.year()
    }

    pub fn month(&self) -> (r: u8)
        ensures
            r == month_of(self.date@),
            1 <= r <= 12,
    {
        self.date.month()
    }

    pub fn day(&self) -> (r: u8)
        ensures
            r == day_of(self.date@),
            1 <= r <= 31,
    {
        self.date.day()
    }

    /// Whether this date ends its month; the latest representable date counts
    /// as the end of one.
    pub fn is_last_day_of_month(&self) -> (r: bool)
        ensures
            r == last_day_of_month(self.date@),
    {
        match self.date.next_day() {
            Some(tomorrow) => self.date.month() != tomorrow.month(),
            None => true,
        }
    }

    /// The four cells that show the day of the month, bracketed for today.
    pub fn show(&self, is_today: bool) -> (r: Vec<char>)
        ensures
            r@ == day_cells(day_of(self.date@), is_today),
    {
        let day = self.day();
        let tens = if day >= 10 {
            digit(day / 10)
        } else {
            ' '
        };
        let ones = digit(day % 10);
        if is_today {
            vec!['[', tens, ones, ']']
        } else {
            vec![' ', tens, ones, ' ']
        }
    }
}

/// Whether a slot of a week is filled exactly when its Julian day `jd` is
/// representable, and then with that date.
pub open spec fn slot_ok(slot: Option<StyledDate>, jd: int) -> bool {
    match slot {
        Some(sd) => in_range(jd) && sd.date@ == jd,
        None => !in_range(jd),
    }
}

/// One calendar week, Sunday to Saturday. A slot is empty only where its date
/// lies beyond the representable range.
#[derive(Clone, Copy, Debug, PartialEq, Eq)]
pub struct Week {
    sunday: i32,
    days: [Option<StyledDate>; 7],
}

impl Week {
    /// Julian day of the week's Sunday (which may lie just before the
    /// earliest representable date).
    pub closed spec fn spec_sunday(&self) -> int {
        self.sunday as int
    }

    /// The slot of the weekday with zero-based index `i`.
    pub closed spec fn spec_day(&self, i: int) -> Option<StyledDate> {
        self.days@[i]
    }

    /// The week starts on a Sunday, and its slots hold the seven consecutive
    /// days from there, those that are representable.
    pub open spec fn wf(&self) -> bool {
        &&& valid_sunday(self.spec_sunday())
        &&& forall|i: int| 0 <= i < 7 ==> slot_ok(#[trigger] self.spec_day(i), self.spec_sunday() + i)
    }

    /// Every date of the week carries the style that `styler` gives it.
    pub open spec fn styled_by<S: DateStyler>(&self, styler: S) -> bool {
        forall|i: int|
            0 <= i < 7 ==> (#[trigger] self.spec_day(i) matches Some(sd) ==> sd.style
                == styler.spec_date_style(sd.date))
    }

    /// Julian day of the first representable day of the week.
    pub open spec fn first_jd(&self) -> int {
        if self.spec_sunday() >= MIN_JULIAN_DAY {
            self.spec_sunday()
        } else {
            MIN_JULIAN_DAY as int
        }
    }

    /// Julian day of the last representable day of the week.
    pub open spec fn last_jd(&self) -> int {
        if self.spec_sunday() + 6 <= MAX_JULIAN_DAY {
            self.spec_sunday() + 6
        } else {
            MAX_JULIAN_DAY as int
        }
    }

    /// The filled slots among the first `n`, in order, with their weekdays.
    pub open spec fn filled_upto(&self, n: int) -> Seq<(Weekday, StyledDate)>
        decreases n,
    {
        if n <= 0 {
            Seq::empty()
        } else {
            let prev = self.filled_upto(n - 1);
            match self.spec_day(n - 1) {
                Some(sd) => prev.push((Weekday::spec_from_index0(n - 1), sd)),
                None => prev,
            }
        }
    }

    /// Whether the week holds the first day of some month.
    pub open spec fn spec_has_month_start(&self) -> bool {
        exists|i: int|
            0 <= i < 7 && (#[trigger] self.spec_day(i) matches Some(sd) && day_of(sd.date@) == 1)
    }

    /// Two well-formed weeks with the same Sunday and styled by the same
    /// policy are equal.
    pub proof fn lemma_unique<S: DateStyler>(a: Week, b: Week, styler: S)
        requires
            a.wf(),
            b.wf(),
            a.styled_by(styler),
            b.styled_by(styler),
            a.spec_sunday() == b.spec_sunday(),
        ensures
            a == b,
    {
        assert forall|i: int| 0 <= i < 7 implies a.days[i] == b.days[i] by {
            assert(a.spec_day(i) == a.days[i]);
            assert(b.spec_day(i) == b.days[i]);
            if let Some(x) = a.days[i] {
                let y = b.days[i].unwrap();
                x.date.lemma_view_eq(&y.date);
            }
        }
        assert(a.days =~= b.days);
    }

    /// The week starting on Sunday `sunday` with the given slots.
    pub(crate) fn new(sunday: i32, days: [Option<StyledDate>; 7]) -> (r: Week)
        ensures
            r.spec_sunday() == sunday,
            forall|i: int| 0 <= i < 7 ==> r.spec_day(i) == days@[i],
    {
        Week { sunday, days }
    }

    /// The slot of weekday `wd`.
    pub fn get(&self, wd: Weekday) -> (r: Option<StyledDate>)
        ensures
            r == self.spec_day(wd.spec_index0()),
    {
        let i = wd.index0();
        self.days[i as usize]
    }

    /// The filled slots, Sunday first, each with its weekday.
    pub fn enumerate(&self) -> (r: Vec<(Weekday, StyledDate)>)
        ensures
            r@ == self.filled_upto(7),
    {
        let mut r: Vec<(Weekday, StyledDate)> = Vec::new();
        let mut i: u16 = 0;
        while i < 7
            invariant
                i <= 7,
                r@ == self.filled_upto(i as int),
            decreases 7 - i,
        {
            let wd = Weekday::from_index0(i);
            match self.get(wd) {
                Some(sd) => r.push((wd, sd)),
                None => {},
            }
            i = i + 1;
        }
        r
    }

    /// Whether the week holds the first day of some month.
    pub fn has_month_start(&self) -> (r: bool)
        ensures
            r == self.spec_has_month_start(),
    {
        let mut i: usize = 0;
        while i < 7
            invariant
                i <= 7,
                forall|j: int|
                    0 <= j < i ==> !(#[trigger] self.spec_day(j) matches Some(sd) && day_of(
                        sd.date@,
                    ) == 1),
            decreases 7 - i,
        {
            if let Some(sd) = self.days[i] {
                if sd.date.day() == 1 {
                    assert(self.spec_day(i as int) == self.days[i as int]);
                    return true;
                }
            }
            assert(self.spec_day(i as int) == self.days[i as int]);
            i = i + 1;
        }
        false
    }

    /// Year and month of the first representable day of the week.
    pub fn first_ym(&self) -> (r: (i32, u8))
        requires
            self.wf(),
        ensures
            r.0 == year_of(self.first_jd()),
            r.1 == month_of(self.first_jd()),
            1 <= r.1 <= 12,
            -9999 <= r.0 <= 9999,
    {
        let mut i: usize = 0;
        while i < 6
            invariant
                self.wf(),
                i <= 6,
                self.spec_sunday() + i <= self.first_jd(),
            decreases 6 - i,
        {
            assert(self.spec_day(i as int) == self.days[i as int]);
            if let Some(sd) = self.days[i] {
                return (sd.date.year(), sd.date.month());
            }
            i = i + 1;
        }
        assert(self.spec_day(6) == self.days[6]);
        let sd = self.days[6].unwrap();
        (sd.date.year(), sd.date.month())
    }

    /// Year and month of the last representable day of the week.
    pub fn last_ym(&self) -> (r: (i32, u8))
        requires
            self.wf(),
        ensures
            r.0 == year_of(self.last_jd()),
            r.1 == month_of(self.last_jd()),
            1 <= r.1 <= 12,
            -9999 <= r.0 <= 9999,
    {
        let mut i: usize = 6;
        while i > 0
            invariant
                self.wf(),
                i <= 6,
                self.last_jd() <= self.spec_sunday() + i,
            decreases i,
        {
            assert(self.spec_day(i as int) == self.days[i as int]);
            if let Some(sd) = self.days[i] {
                return (sd.date.year(), sd.date.month());
            }
            i = i - 1;
        }
        assert(self.spec_day(0) == self.days[0]);
        let sd = self.days[0].unwrap();
        (sd.date.year(), sd.date.month())
    }
}

} // verus!
