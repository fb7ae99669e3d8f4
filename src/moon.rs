//! A style policy that marks new and full moons, after the Golden Number and
//! epact approximation of the lunar phase.
use crate::date::{ordinal_of, year_of, Date};
use crate::week::{DateStyle, DateStyler};
use vstd::prelude::*;

verus! {

/// Remainder of `a / b` rounded towards zero, as Rust's `%` computes it.
pub open spec fn trunc_rem(a: int, b: int) -> int {
    if a >= 0 {
        a % b
    } else {
        -((-a) % b)
    }
}

/// Quotient `a / b` rounded towards zero, as Rust's `/` computes it.
pub open spec fn trunc_div(a: int, b: int) -> int {
    if a >= 0 {
        a / b
    } else {
        -((-a) / b)
    }
}

/// The lunar phase marked on the day `ordinal` of year `year`. The year is
/// counted from 1900 (saturating at the least `i32`); its Golden Number and
/// epact give the age of the moon on that day, and the age picks one of eight
/// phases: the first is a new moon and the fifth a full moon.
pub open spec fn phase_of(year: int, ordinal: int) -> Phase {
    let y = if year - 1900 < i32::MIN {
        i32::MIN as int
    } else {
        year - 1900
    };
    let goldn = trunc_rem(y, 19) + 1;
    let e = trunc_rem(11 * goldn + 18, 30);
    let epact = if (e == 25 && goldn > 11) || e == 24 {
        e + 1
    } else {
        e
    };
    let eighth = trunc_div(trunc_rem((ordinal - 1 + epact) * 6 + 11, 177), 22) % 8;
    if eighth == 0 {
        Phase::New
    } else if eighth == 4 {
        Phase::Full
    } else {
        Phase::Normal
    }
}

/// The style that marks each phase.
pub open spec fn phase_style(p: Phase) -> DateStyle {
    match p {
        Phase::Normal => DateStyle::Base,
        Phase::Full => DateStyle::FullMoon,
        Phase::New => DateStyle::NewMoon,
    }
}

#[derive(Clone, Copy, Debug, PartialEq, Eq, Structural, Hash, PartialOrd, Ord)]
pub enum Phase {
    Normal,
    Full,
    New,
}

impl Phase {
    /// The phase marked on the day `ordinal` of year `year`.
    pub fn for_year_ordinal(year: i32, ordinal: u16) -> (r: Phase)
        requires
            1 <= ordinal <= 366,
        ensures
            r == phase_of(year as int, ordinal as int),
    {
        let year: i32 = if year < i32::MIN + 1900 {
            i32::MIN
        } else {
            year - 1900
        };
        let goldn = (year % 19) + 1;
        let mut epact = (11 * goldn + 18) % 30;
        if (epact == 25 && goldn > 11) || epact == 24 {
            epact += 1;
        }
        let eighth = ((((ordinal as i32 - 1 + epact) * 6) + 11) % 177) / 22;
        let eighth = ((eighth % 8) + 8) % 8;
        if eighth == 0 {
            Phase::New
        } else if eighth == 4 {
            Phase::Full
        } else {
            Phase::Normal
        }
    }

    /// The phase marked on `date`.
    pub fn for_date(date: Date) -> (r: Phase)
        ensures
            r == phase_of(year_of(date@), ordinal_of(date@)),
    {
        Phase::for_year_ordinal(date.year(), date.ordinal())
    }
}

/// The style policy that marks new and full moons.
#[derive(Clone, Copy, Debug, PartialEq, Eq, Structural)]
pub struct Phoon;

impl DateStyler for Phoon {
    open spec fn spec_date_style(&self, date: Date) -> DateStyle {
        phase_style(phase_of(year_of(date@), ordinal_of(date@)))
    }

    fn date_style(&self, date: Date) -> (r: DateStyle) {
        match Phase::for_date(date) {
            Phase::Normal => DateStyle::Base,
            Phase::Full => DateStyle::FullMoon,
            Phase::New => DateStyle::NewMoon,
        }
    }
}

} // verus!
