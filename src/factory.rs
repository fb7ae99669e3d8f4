//! Construction of weeks, and of runs of consecutive weeks, under a style
//! policy.
use crate::date::{sunday_of, weekday_index, Date, Weekday};
use crate::deque::NonEmptyVecDeque;
use crate::week::{slot_ok, valid_sunday, DateStyler, StyledDate, Week, FIRST_SUNDAY, LAST_SUNDAY};
use vstd::math::min;
use vstd::prelude::*;

verus! {

/// Whether `w` is the well-formed week that starts on Sunday `sunday`, with
/// every date styled by `styler`.
pub open spec fn is_week<S: DateStyler>(w: Week, styler: S, sunday: int) -> bool {
    w.wf() && w.styled_by(styler) && w.spec_sunday() == sunday
}

/// Whether `ws` holds consecutive weeks, the first starting on Sunday
/// `first`, each styled by `styler`.
pub open spec fn is_run<S: DateStyler>(ws: Seq<Week>, styler: S, first: int) -> bool {
    forall|i: int| 0 <= i < ws.len() ==> is_week(#[trigger] ws[i], styler, first + 7 * i)
}

/// Number of weeks, wholly or partly representable, before the week that
/// starts on Sunday `s`.
pub open spec fn weeks_before_count(s: int) -> int {
    (s - FIRST_SUNDAY) / 7
}

/// Number of weeks, wholly or partly representable, after the week that
/// starts on Sunday `s`.
pub open spec fn weeks_after_count(s: int) -> int {
    (LAST_SUNDAY - s) / 7
}

/// Number of weeks that hold a representable date.
pub open spec fn total_weeks() -> int {
    (LAST_SUNDAY - FIRST_SUNDAY) / 7 + 1
}

/// How many weeks before the week starting on `c` a window of `count` weeks
/// around it holds: first up to `(count - 1) / 2`, then whatever the weeks
/// after the date leave unfilled.
pub open spec fn around_before(c: int, count: int) -> int {
    let b1 = min((count - 1) / 2, weeks_before_count(c));
    let a = min(count - 1 - b1, weeks_after_count(c));
    min(count - 1 - a, weeks_before_count(c))
}

/// How many weeks after the week starting on `c` a window of `count` weeks
/// around it holds.
pub open spec fn around_after(c: int, count: int) -> int {
    let b1 = min((count - 1) / 2, weeks_before_count(c));
    min(count - 1 - b1, weeks_after_count(c))
}

/// What `week_before` returns for `week`: the week seven days earlier, or
/// `None` where that week would hold no representable date.
pub open spec fn week_before_result<S: DateStyler>(styler: S, week: Week, r: Option<Week>) -> bool {
    &&& r is Some <==> week.spec_sunday() > FIRST_SUNDAY
    &&& r matches Some(w) ==> is_week(w, styler, week.spec_sunday() - 7)
}

/// What `week_after` returns for `week`: the week seven days later, or
/// `None` where that week would hold no representable date.
pub open spec fn week_after_result<S: DateStyler>(styler: S, week: Week, r: Option<Week>) -> bool {
    &&& r is Some <==> week.spec_sunday() < LAST_SUNDAY
    &&& r matches Some(w) ==> is_week(w, styler, week.spec_sunday() + 7)
}

/// Builds weeks whose dates are styled by a policy.
pub struct WeekFactory<S> {
    styler: S,
}

impl<S: DateStyler> WeekFactory<S> {
    /// The policy that styles the dates of the weeks built.
    pub closed spec fn spec_styler(&self) -> S {
        self.styler
    }

    pub fn new(styler: S) -> (r: Self)
        ensures
            r.spec_styler() == styler,
    {
        WeekFactory { styler }
    }

    /// `date` with the style that the policy gives it.
    pub fn style_date(&self, date: Date) -> (r: StyledDate)
        ensures
            r.date == date,
            r.style == self.spec_styler().spec_date_style(date),
    {
        StyledDate { date, style: self.styler.date_style(date) }
    }

    /// The slot for Julian day `jd`: its styled date where it is
    /// representable.
    fn slot(&self, jd: i32) -> (r: Option<StyledDate>)
        ensures
            slot_ok(r, jd as int),
            r matches Some(sd) ==> sd.style == self.spec_styler().spec_date_style(sd.date),
    {
        match Date::from_julian_day(jd) {
            Some(d) => Some(self.style_date(d)),
            None => None,
        }
    }

    /// The week, Sunday to Saturday, that holds `date`.
    pub fn make(&self, date: Date) -> (r: Week)
        ensures
            is_week(r, self.spec_styler(), sunday_of(date@)),
    {
        let jd = date.to_julian_day();
        let i = date.weekday().index0();
        let sunday: i32 = jd - i as i32;
        let days = [
            self.slot(sunday),
            self.slot(sunday + 1),
            self.slot(sunday + 2),
            self.slot(sunday + 3),
            self.slot(sunday + 4),
            self.slot(sunday + 5),
            self.slot(sunday + 6),
        ];
        let r = Week::new(sunday, days);
        proof {
            assert(valid_sunday(sunday as int));
            assert forall|k: int| 0 <= k < 7 implies slot_ok(
                #[trigger] r.spec_day(k),
                r.spec_sunday() + k,
            ) && (r.spec_day(k) matches Some(sd) ==> sd.style
                == self.spec_styler().spec_date_style(sd.date)) by {
                assert(r.spec_day(k) == days@[k]);
            }
        }
        r
    }

    /// The week before `week`, or `None` where that week holds no
    /// representable date.
    pub fn week_before(&self, week: &Week) -> (r: Option<Week>)
        requires
            week.wf(),
        ensures
            week_before_result(self.spec_styler(), *week, r),
    {
        assert(slot_ok(week.spec_day(0), week.spec_sunday()));
        match week.get(Weekday::Sunday) {
            Some(sd) => match sd.date.previous_day() {
                Some(d) => {
                    assert(weekday_index(d@) == 6);
                    Some(self.make(d))
                },
                None => None,
            },
            None => None,
        }
    }

    /// The week after `week`, or `None` where that week holds no
    /// representable date.
    pub fn week_after(&self, week: &Week) -> (r: Option<Week>)
        requires
            week.wf(),
        ensures
            week_after_result(self.spec_styler(), *week, r),
    {
        assert(slot_ok(week.spec_day(6), week.spec_sunday() + 6));
        match week.get(Weekday::Saturday) {
            Some(sd) => match sd.date.next_day() {
                Some(d) => {
                    assert(weekday_index(d@) == 0);
                    Some(self.make(d))
                },
                None => None,
            },
            None => None,
        }
    }

    /// Pushes up to `n` weeks in front of `weeks`, stopping early where no
    /// week before remains.
    fn grow_front(&self, weeks: &mut NonEmptyVecDeque<Week>, n: usize)
        requires
            old(weeks).wf(),
            is_run(old(weeks)@, self.spec_styler(), old(weeks)@[0].spec_sunday()),
        ensures
            ({
                let first = old(weeks)@[0].spec_sunday();
                let k = min(n as int, weeks_before_count(first));
                &&& final(weeks)@.len() == old(weeks)@.len() + k
                &&& final(weeks)@.skip(k) == old(weeks)@
                &&& is_run(final(weeks)@, self.spec_styler(), first - 7 * k)
            }),
    {
        let ghost first = old(weeks)@[0].spec_sunday();
        proof {
            lemma_week_counts(first);
        }
        let mut count: usize = 0;
        let mut done = false;
        while count < n && !done
            invariant
                old(weeks)@.len() > 0,
                count <= n,
                count <= weeks_before_count(first),
                weeks@.len() == old(weeks)@.len() + count,
                weeks@.skip(count as int) == old(weeks)@,
                is_run(weeks@, self.spec_styler(), first - 7 * count),
                done ==> count == weeks_before_count(first),
                first == FIRST_SUNDAY + 7 * weeks_before_count(first),
            decreases n - count + if done { 0int } else { 1int },
        {
            assert(is_week(weeks@[0], self.spec_styler(), first - 7 * count));
            match self.week_before(weeks.front()) {
                Some(w) => {
                    let ghost prev = weeks@;
                    weeks.push_front(w);
                    proof {
                        assert forall|i: int| 0 <= i < weeks@.len() implies is_week(
                            #[trigger] weeks@[i],
                            self.spec_styler(),
                            first - 7 * (count + 1) + 7 * i,
                        ) by {
                            if i > 0 {
                                assert(weeks@[i] == prev[i - 1]);
                            }
                        }
                        assert(weeks@.skip(count + 1) =~= prev.skip(count as int));
                    }
                    count = count + 1;
                },
                None => {
                    done = true;
                },
            }
        }
    }

    /// Pushes up to `n` weeks behind `weeks`, stopping early where no week
    /// after remains.
    fn grow_back(&self, weeks: &mut NonEmptyVecDeque<Week>, n: usize)
        requires
            old(weeks).wf(),
            is_run(old(weeks)@, self.spec_styler(), old(weeks)@[0].spec_sunday()),
        ensures
            ({
                let first = old(weeks)@[0].spec_sunday();
                let last = old(weeks)@.last().spec_sunday();
                let k = min(n as int, weeks_after_count(last));
                &&& final(weeks)@.len() == old(weeks)@.len() + k
                &&& final(weeks)@.take(old(weeks)@.len() as int) == old(weeks)@
                &&& is_run(final(weeks)@, self.spec_styler(), first)
            }),
    {
        let ghost first = old(weeks)@[0].spec_sunday();
        let ghost last = old(weeks)@.last().spec_sunday();
        let ghost len0 = old(weeks)@.len();
        assert(is_week(old(weeks)@[len0 - 1], self.spec_styler(), first + 7 * (len0 - 1)));
        proof {
            lemma_week_counts(last);
        }
        let mut count: usize = 0;
        let mut done = false;
        while count < n && !done
            invariant
                len0 > 0,
                count <= n,
                count <= weeks_after_count(last),
                last == first + 7 * (len0 - 1),
                weeks@.len() == len0 + count,
                weeks@.take(len0 as int) == old(weeks)@,
                is_run(weeks@, self.spec_styler(), first),
                done ==> count == weeks_after_count(last),
                last == LAST_SUNDAY - 7 * weeks_after_count(last),
            decreases n - count + if done { 0int } else { 1int },
        {
            assert(is_week(weeks@.last(), self.spec_styler(), last + 7 * count));
            match self.week_after(weeks.back()) {
                Some(w) => {
                    let ghost prev = weeks@;
                    weeks.push_back(w);
                    proof {
                        assert(weeks@.take(len0 as int) =~= prev.take(len0 as int));
                    }
                    count = count + 1;
                },
                None => {
                    done = true;
                },
            }
        }
    }

    /// The up to `qty` weeks before `week`, oldest first: as many as exist,
    /// and `None` where none does.
    pub fn weeks_before(&self, week: Week, qty: usize) -> (r: Option<NonEmptyVecDeque<Week>>)
        requires
            week.wf(),
            qty >= 1,
        ensures
            r is None <==> weeks_before_count(week.spec_sunday()) == 0,
            r matches Some(q) ==> {
                &&& q@.len() == min(qty as int, weeks_before_count(week.spec_sunday()))
                &&& is_run(q@, self.spec_styler(), week.spec_sunday() - 7 * q@.len())
            },
    {
        proof {
            lemma_week_counts(week.spec_sunday());
        }
        match self.week_before(&week) {
            Some(first) => {
                let mut weeks = NonEmptyVecDeque::new(first, qty);
                self.grow_front(&mut weeks, qty - 1);
                Some(weeks)
            },
            None => None,
        }
    }

    /// The up to `qty` weeks after `week`, oldest first: as many as exist,
    /// and `None` where none does.
    pub fn weeks_after(&self, week: Week, qty: usize) -> (r: Option<NonEmptyVecDeque<Week>>)
        requires
            week.wf(),
            qty >= 1,
        ensures
            r is None <==> weeks_after_count(week.spec_sunday()) == 0,
            r matches Some(q) ==> {
                &&& q@.len() == min(qty as int, weeks_after_count(week.spec_sunday()))
                &&& is_run(q@, self.spec_styler(), week.spec_sunday() + 7)
            },
    {
        proof {
            lemma_week_counts(week.spec_sunday());
        }
        match self.week_after(&week) {
            Some(first) => {
                let mut weeks = NonEmptyVecDeque::new(first, qty);
                self.grow_back(&mut weeks, qty - 1);
                Some(weeks)
            },
            None => None,
        }
    }

    /// A window of `qty` consecutive weeks around the week of `date`: up to
    /// `(qty - 1) / 2` weeks before it, then the rest after it, and where the
    /// weeks after run out, more before it. It holds `qty` weeks unless fewer
    /// exist at all.
    pub fn around_date(&self, date: Date, qty: usize) -> (r: NonEmptyVecDeque<Week>)
        requires
            qty >= 1,
        ensures
            ({
                let c = sunday_of(date@);
                &&& valid_sunday(c)
                &&& r@.len() == 1 + around_before(c, qty as int) + around_after(c, qty as int)
                &&& r@.len() == min(qty as int, total_weeks())
                &&& is_run(r@, self.spec_styler(), c - 7 * around_before(c, qty as int))
                &&& qty <= total_weeks() ==> r@.len() == qty
                &&& (qty - 1) / 2 <= weeks_before_count(c) && qty / 2 <= weeks_after_count(c) ==> {
                    &&& r@.len() == qty
                    &&& r@[(qty - 1) / 2].spec_sunday() == c
                }
            }),
    {
        let start = self.make(date);
        let ghost c = sunday_of(date@);
        let mut weeks = NonEmptyVecDeque::new(start, qty);
        proof {
            lemma_week_counts(c);
        }
        self.grow_front(&mut weeks, (qty - 1) / 2);
        let ghost b1 = min((qty - 1) as int / 2, weeks_before_count(c));
        assert(weeks@.last() == start);
        let unfilled = qty - weeks.len();
        self.grow_back(&mut weeks, unfilled);
        let unfilled = qty - weeks.len();
        if unfilled > 0 {
            self.grow_front(&mut weeks, unfilled);
        }
        proof {
            lemma_around_counts(c, qty as int);
            if (qty - 1) / 2 <= weeks_before_count(c) && qty / 2 <= weeks_after_count(c) {
                assert(is_week(weeks@[(qty - 1) / 2], self.spec_styler(), c - 7 * around_before(c, qty as int) + 7 * ((qty - 1) / 2)));
            }
        }
        weeks
    }

}

/// A window of `count` weeks around the week starting on `c` holds `count`
/// weeks whenever that many exist; and where neither end of the range is
/// near, it holds `(count - 1) / 2` weeks before that week and `count / 2`
/// after it.
pub proof fn lemma_around_counts(c: int, count: int)
    requires
        valid_sunday(c),
        count >= 1,
    ensures
        1 + around_before(c, count) + around_after(c, count) == min(count, total_weeks()),
        (count - 1) / 2 <= weeks_before_count(c) && count / 2 <= weeks_after_count(c) ==> {
            &&& around_before(c, count) == (count - 1) / 2
            &&& around_after(c, count) == count / 2
        },
        0 <= around_before(c, count) <= weeks_before_count(c),
        0 <= around_after(c, count) <= weeks_after_count(c),
{
    lemma_week_counts(c);
}

/// The week after the week before a week `w` is `w` itself, wherever a week
/// before `w` exists.
pub proof fn lemma_after_before<S: DateStyler>(
    styler: S,
    w: Week,
    before: Option<Week>,
    after_before: Option<Week>,
)
    requires
        w.wf(),
        w.styled_by(styler),
        w.spec_sunday() > FIRST_SUNDAY,
        week_before_result(styler, w, before),
        before matches Some(b) ==> week_after_result(styler, b, after_before),
    ensures
        before is Some,
        after_before == Some(w),
{
    let b = before.unwrap();
    let ab = after_before.unwrap();
    Week::lemma_unique(ab, w, styler);
}

/// The week before the week after a week `w` is `w` itself, wherever a week
/// after `w` exists.
pub proof fn lemma_before_after<S: DateStyler>(
    styler: S,
    w: Week,
    after: Option<Week>,
    before_after: Option<Week>,
)
    requires
        w.wf(),
        w.styled_by(styler),
        w.spec_sunday() < LAST_SUNDAY,
        week_after_result(styler, w, after),
        after matches Some(a) ==> week_before_result(styler, a, before_after),
    ensures
        after is Some,
        before_after == Some(w),
{
    let a = after.unwrap();
    let ba = before_after.unwrap();
    Week::lemma_unique(ba, w, styler);
}

/// A valid Sunday lies a whole number of weeks from each end of the range,
/// and the weeks before it, it, and the weeks after it are all the weeks.
pub proof fn lemma_week_counts(s: int)
    requires
        valid_sunday(s),
    ensures
        s == FIRST_SUNDAY + 7 * weeks_before_count(s),
        s == LAST_SUNDAY - 7 * weeks_after_count(s),
        weeks_before_count(s) >= 0,
        weeks_after_count(s) >= 0,
        weeks_before_count(s) + weeks_after_count(s) + 1 == total_weeks(),
{
    assert((s - FIRST_SUNDAY) % 7 == 0);
    assert((LAST_SUNDAY - s) % 7 == 0);
}

} // verus!
