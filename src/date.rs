//! Calendar dates within the range that the `time` crate represents, held as
//! Julian day numbers.
use vstd::prelude::*;

verus! {

/// Julian day number of the earliest representable date, -9999-01-01.
pub const MIN_JULIAN_DAY: i32 = -1930999;

/// Julian day number of the latest representable date, 9999-12-31.
pub const MAX_JULIAN_DAY: i32 = 5373484;

/// Whether a Julian day number denotes a representable date.
pub open spec fn in_range(jd: int) -> bool {
    MIN_JULIAN_DAY <= jd <= MAX_JULIAN_DAY
}

/// Zero-based weekday of a Julian day number: Sunday is 0, Saturday is 6.
/// Julian day 0 is a Monday.
pub open spec fn weekday_index(jd: int) -> int {
    (jd + 1) % 7
}

/// The Sunday that starts the week holding the Julian day `jd`.
pub open spec fn sunday_of(jd: int) -> int {
    jd - weekday_index(jd)
}

/// Proleptic Gregorian year of a Julian day, as the `time` crate computes it.
pub uninterp spec fn year_of(jd: int) -> int;

/// Month (1 = January) of a Julian day, as the `time` crate computes it.
pub uninterp spec fn month_of(jd: int) -> int;

/// Day of the month of a Julian day, as the `time` crate computes it.
pub uninterp spec fn day_of(jd: int) -> int;

/// Day of the year (1 = January 1st) of a Julian day, as the `time` crate
/// computes it.
pub uninterp spec fn ordinal_of(jd: int) -> int;

/// Relies on `time::Date::from_julian_day` and `time::Date::year`: the year of
/// an in-range Julian day, which lies between the years of `Date::MIN` and
/// `Date::MAX`, -9999 and 9999 (the `large-dates` feature is off).
#[verifier::external_body]
fn julian_year(jd: i32) -> (r: i32)
    requires
        in_range(jd as int),
    ensures
        r == year_of(jd as int),
        -9999 <= r <= 9999,
{
    match time::Date::from_julian_day(jd) {
        Ok(d) => d.year(),
        Err(_) => 0,
    }
}

/// Relies on `time::Date::from_julian_day` and `time::Date::month`: the month
/// of an in-range Julian day, as its number 1..=12.
#[verifier::external_body]
fn julian_month(jd: i32) -> (r: u8)
    requires
        in_range(jd as int),
    ensures
        r == month_of(jd as int),
        1 <= r <= 12,
{
    match time::Date::from_julian_day(jd) {
        Ok(d) => d.month() as u8,
        Err(_) => 1,
    }
}

/// Relies on `time::Date::from_julian_day` and `time::Date::day`: the day of
/// the month of an in-range Julian day, documented to lie in 1..=31.
#[verifier::external_body]
fn julian_day_of_month(jd: i32) -> (r: u8)
    requires
        in_range(jd as int),
    ensures
        r == day_of(jd as int),
        1 <= r <= 31,
{
    match time::Date::from_julian_day(jd) {
        Ok(d) => d.day(),
        Err(_) => 1,
    }
}

/// Relies on `time::Date::from_julian_day` and `time::Date::ordinal`: the day
/// of the year of an in-range Julian day, documented to lie in 1..=366.
#[verifier::external_body]
fn julian_ordinal(jd: i32) -> (r: u16)
    requires
        in_range(jd as int),
    ensures
        r == ordinal_of(jd as int),
        1 <= r <= 366,
{
    match time::Date::from_julian_day(jd) {
        Ok(d) => d.ordinal(),
        Err(_) => 1,
    }
}

/// Relies on `time::Month::try_from` and `time::Date::from_calendar_date`:
/// the Julian day of a calendar date, or `None` where the month is not in
/// 1..=12, the year is out of range, or the day does not exist in that month.
/// The conversion is one to one, so `None` means that no in-range Julian day
/// has those fields.
#[verifier::external_body]
fn calendar_julian_day(year: i32, month: u8, day: u8) -> (r: Option<i32>)
    ensures
        match r {
            Some(jd) => in_range(jd as int) && year_of(jd as int) == year && month_of(jd as int)
                == month && day_of(jd as int) == day,
            None => forall|jd: int|
                in_range(jd) ==> !(year_of(jd) == year && month_of(jd) == month && day_of(jd)
                    == day),
        },
{
    match time::Month::try_from(month) {
        Ok(m) => match time::Date::from_calendar_date(year, m, day) {
            Ok(d) => Some(d.to_julian_day()),
            Err(_) => None,
        },
        Err(_) => None,
    }
}

/// Day of the week, Sunday first.
#[derive(Clone, Copy, Debug, PartialEq, Eq, Structural, Hash)]
pub enum Weekday {
    Sunday,
    Monday,
    Tuesday,
    Wednesday,
    Thursday,
    Friday,
    Saturday,
}

impl Weekday {
    /// Zero-based index of the weekday, Sunday = 0 ... Saturday = 6.
    pub open spec fn spec_index0(self) -> int {
        match self {
            Weekday::Sunday => 0,
            Weekday::Monday => 1,
            Weekday::Tuesday => 2,
            Weekday::Wednesday => 3,
            Weekday::Thursday => 4,
            Weekday::Friday => 5,
            Weekday::Saturday => 6,
        }
    }

    /// The weekday whose zero-based index is `i`.
    pub open spec fn spec_from_index0(i: int) -> Weekday {
        if i == 0 {
            Weekday::Sunday
        } else if i == 1 {
            Weekday::Monday
        } else if i == 2 {
            Weekday::Tuesday
        } else if i == 3 {
            Weekday::Wednesday
        } else if i == 4 {
            Weekday::Thursday
        } else if i == 5 {
            Weekday::Friday
        } else {
            Weekday::Saturday
        }
    }

    /// Zero-based index of the weekday, Sunday = 0 ... Saturday = 6.
    pub fn index0(&self) -> (r: u16)
        ensures
            r == self.spec_index0(),
    {
        match self {
            Weekday::Sunday => 0,
            Weekday::Monday => 1,
            Weekday::Tuesday => 2,
            Weekday::Wednesday => 3,
            Weekday::Thursday => 4,
            Weekday::Friday => 5,
            Weekday::Saturday => 6,
        }
    }

    /// The weekday whose zero-based index is `i`.
    pub fn from_index0(i: u16) -> (r: Weekday)
        requires
            i < 7,
        ensures
            r == Weekday::spec_from_index0(i as int),
            r.spec_index0() == i,
    {
        if i == 0 {
            Weekday::Sunday
        } else if i == 1 {
            Weekday::Monday
        } else if i == 2 {
            Weekday::Tuesday
        } else if i == 3 {
            Weekday::Wednesday
        } else if i == 4 {
            Weekday::Thursday
        } else if i == 5 {
            Weekday::Friday
        } else {
            Weekday::Saturday
        }
    }
}

/// A date of the proleptic Gregorian calendar between -9999-01-01 and
/// 9999-12-31, held as its Julian day number.
#[derive(Clone, Copy, Debug, PartialEq, Eq, Structural, Hash, PartialOrd, Ord)]
pub struct Date {
    jd: i32,
}

impl View for Date {
    type V = int;

    closed spec fn view(&self) -> int {
        self.jd as int
    }
}

impl Date {
    #[verifier::type_invariant]
    spec fn inv(self) -> bool {
        in_range(self.jd as int)
    }

    /// Two dates with the same Julian day are the same date.
    pub proof fn lemma_view_eq(&self, other: &Date)
        requires
            self@ == other@,
        ensures
            *self == *other,
    {
    }

    /// The date with the given Julian day number, if it is representable.
    pub fn from_julian_day(jd: i32) -> (r: Option<Date>)
        ensures
            r is Some <==> in_range(jd as int),
            r matches Some(d) ==> d@ == jd,
    {
        if MIN_JULIAN_DAY <= jd && jd <= MAX_JULIAN_DAY {
            Some(Date { jd })
        } else {
            None
        }
    }

    /// The Julian day number of the date.
    pub fn to_julian_day(&self) -> (r: i32)
        ensures
            r == self@,
            in_range(r as int),
    {
        proof {
            use_type_invariant(self);
        }
        self.jd
    }

    /// The earliest representable date.
    pub fn earliest() -> (r: Date)
        ensures
            r@ == MIN_JULIAN_DAY,
    {
        Date { jd: MIN_JULIAN_DAY }
    }

    /// Whether this is the earliest representable date.
    pub fn is_earliest(&self) -> (r: bool)
        ensures
            r == (self@ == MIN_JULIAN_DAY),
    {
        self.jd == MIN_JULIAN_DAY
    }

    /// The latest representable date.
    pub fn latest() -> (r: Date)
        ensures
            r@ == MAX_JULIAN_DAY,
    {
        Date { jd: MAX_JULIAN_DAY }
    }

    /// The date with the given year, month (1 = January) and day of the month,
    /// or `None` where no representable date has them.
    pub fn from_calendar_date(year: i32, month: u8, day: u8) -> (r: Option<Date>)
        ensures
            match r {
                Some(d) => year_of(d@) == year && month_of(d@) == month && day_of(d@) == day,
                None => forall|jd: int|
                    in_range(jd) ==> !(year_of(jd) == year && month_of(jd) == month && day_of(jd)
                        == day),
            },
    {
        match calendar_julian_day(year, month, day) {
            Some(jd) => Some(Date { jd }),
            None => None,
        }
    }

    /// The year of the date, -9999..=9999.
    pub fn year(&self) -> (r: i32)
        ensures
            r == year_of(self@),
            -9999 <= r <= 9999,
    {
        proof {
            use_type_invariant(self);
        }
        julian_year(self.jd)
    }

    /// The month of the date, 1 = January ... 12 = December.
    pub fn month(&self) -> (r: u8)
        ensures
            r == month_of(self@),
            1 <= r <= 12,
    {
        proof {
            use_type_invariant(self);
        }
        julian_month(self.jd)
    }

    /// The day of the month, 1..=31.
    pub fn day(&self) -> (r: u8)
        ensures
            r == day_of(self@),
            1 <= r <= 31,
    {
        proof {
            use_type_invariant(self);
        }
        julian_day_of_month(self.jd)
    }

    /// The day of the year, 1..=366.
    pub fn ordinal(&self) -> (r: u16)
        ensures
            r == ordinal_of(self@),
            1 <= r <= 366,
    {
        proof {
            use_type_invariant(self);
        }
        julian_ordinal(self.jd)
    }

    /// The day of the week.
    pub fn weekday(&self) -> (r: Weekday)
        ensures
            r.spec_index0() == weekday_index(self@),
    {
        proof {
            use_type_invariant(self);
        }
        let shifted: u32 = (self.jd - MIN_JULIAN_DAY) as u32;
        let i: u32 = (shifted + 1) % 7;
        proof {
            // The earliest date's Julian day is a multiple of seven.
            assert(MIN_JULIAN_DAY == -7 * 275857);
            assert((self.jd + 1) % 7 == (shifted + 1 + 7 * (-275857)) % 7);
            vstd::arithmetic::div_mod::lemma_mod_multiples_vanish(-275857, shifted + 1, 7);
        }
        Weekday::from_index0(i as u16)
    }

    /// The following day, or `None` for the latest date.
    pub fn next_day(&self) -> (r: Option<Date>)
        ensures
            r is None <==> self@ == MAX_JULIAN_DAY,
            in_range(self@),
            r matches Some(d) ==> d@ == self@ + 1,
    {
        proof {
            use_type_invariant(self);
        }
        if self.jd < MAX_JULIAN_DAY {
            Some(Date { jd: self.jd + 1 })
        } else {
            None
        }
    }

    /// The preceding day, or `None` for the earliest date.
    pub fn previous_day(&self) -> (r: Option<Date>)
        ensures
            r is None <==> self@ == MIN_JULIAN_DAY,
            in_range(self@),
            r matches Some(d) ==> d@ == self@ - 1,
    {
        proof {
            use_type_invariant(self);
        }
        if self.jd > MIN_JULIAN_DAY {
            Some(Date { jd: self.jd - 1 })
        } else {
            None
        }
    }
}

} // verus!
