//! The window of consecutive weeks that is on screen, and its navigation.
use crate::date::{sunday_of, Date};
use crate::deque::NonEmptyVecDeque;
use crate::factory::{
    around_before, is_run, is_week, lemma_around_counts, lemma_week_counts, total_weeks,
    weeks_after_count, weeks_before_count, WeekFactory,
};
use crate::week::{DateStyler, Week, FIRST_SUNDAY, LAST_SUNDAY};
use vstd::math::{max, min};
use vstd::prelude::*;

verus! {

/// The window cannot move further: it already touches the earliest or the
/// latest representable date.
#[derive(Clone, Copy, Debug, PartialEq, Eq, Structural)]
pub struct OutOfTimeError;

/// `lhs - rhs`, or `None` where that is zero.
pub fn nonzero_sub(lhs: usize, rhs: usize) -> (r: Option<usize>)
    requires
        rhs <= lhs,
    ensures
        r == if lhs == rhs {
            None::<usize>
        } else {
            Some((lhs - rhs) as usize)
        },
{
    let d = lhs - rhs;
    if d == 0 {
        None
    } else {
        Some(d)
    }
}

/// Whether `ws` is a non-empty run of consecutive weeks styled by `styler`.
pub open spec fn valid_weeks<S: DateStyler>(ws: Seq<Week>, styler: S) -> bool {
    ws.len() > 0 && is_run(ws, styler, ws[0].spec_sunday())
}

/// Whether `new` has the length of `old` and starts `k` weeks later.
pub open spec fn shifted_by(old: Seq<Week>, new: Seq<Week>, k: int) -> bool {
    new.len() == old.len() && new[0].spec_sunday() == old[0].spec_sunday() + 7 * k
}

/// How many weeks a page forward moves `ws`: a whole page, or as many as
/// remain after it.
pub open spec fn page_forward_steps(ws: Seq<Week>) -> int {
    min(ws.len() as int, weeks_after_count(ws.last().spec_sunday()))
}

/// How many weeks a page backward moves `ws`: a whole page, or as many as
/// remain before it.
pub open spec fn page_backward_steps(ws: Seq<Week>) -> int {
    min(ws.len() as int, weeks_before_count(ws[0].spec_sunday()))
}

/// How many weeks growing `ws` to `n` weeks adds in front: what the weeks
/// after it cannot supply, as far as weeks before it exist.
pub open spec fn grown_in_front(ws: Seq<Week>, n: int) -> int {
    let missing = n - ws.len();
    let after = min(missing, weeks_after_count(ws.last().spec_sunday()));
    min(missing - after, weeks_before_count(ws[0].spec_sunday()))
}

/// The Sunday of the first week of a window of `n` weeks around `date`.
pub open spec fn around_first(date: Date, n: int) -> int {
    sunday_of(date@) - 7 * around_before(sunday_of(date@), n)
}

/// The Sunday of the first week once `ws` is resized to `n` weeks: the
/// first weeks are kept when shrinking; when growing, weeks are added after
/// the last week, and only those that cannot be are added before the first.
pub open spec fn resized_first(ws: Seq<Week>, n: int) -> int {
    if n <= ws.len() {
        ws[0].spec_sunday()
    } else {
        ws[0].spec_sunday() - 7 * grown_in_front(ws, n)
    }
}

/// Scrolling one week forwards and then one week backwards restores the
/// window's weeks exactly: where the first scroll succeeds, the second does
/// too, and two valid runs of weeks with the same length and first Sunday,
/// styled by one policy, are equal.
pub proof fn lemma_forwards_then_backwards<S: DateStyler>(
    styler: S,
    before: Seq<Week>,
    moved: Seq<Week>,
    restored: Seq<Week>,
)
    requires
        valid_weeks(before, styler),
        valid_weeks(moved, styler),
        valid_weeks(restored, styler),
        shifted_by(before, moved, 1),
        shifted_by(moved, restored, -1),
    ensures
        moved[0].spec_sunday() > FIRST_SUNDAY,
        restored == before,
{
    assert(is_week(before[0], styler, before[0].spec_sunday() + 7 * 0));
    assert forall|i: int| 0 <= i < before.len() implies restored[i] == before[i] by {
        assert(is_week(before[i], styler, before[0].spec_sunday() + 7 * i));
        assert(is_week(restored[i], styler, restored[0].spec_sunday() + 7 * i));
        Week::lemma_unique(restored[i], before[i], styler);
    }
    assert(restored =~= before);
}

/// Scrolling a window one week forwards and then one week backwards gives
/// back the window it was: where the first scroll succeeds, so does the
/// second, and the weeks are the same.
pub proof fn lemma_window_forwards_then_backwards<S: DateStyler>(
    w0: WeekWindow<S>,
    w1: WeekWindow<S>,
    w2: WeekWindow<S>,
    r1: Result<(), OutOfTimeError>,
    r2: Result<(), OutOfTimeError>,
)
    requires
        w0.wf(),
        scrolled_week_forwards(&w0, &w1, r1),
        r1 is Ok,
        scrolled_week_backwards(&w1, &w2, r2),
    ensures
        r2 is Ok,
        w2.spec_weeks() == w0.spec_weeks(),
        w2.same_setup(&w0),
{
    if let Some(ws) = w0.spec_weeks() {
        let moved = w1.spec_weeks()->0;
        lemma_forwards_then_backwards(w0.spec_styler(), ws, moved, w2.spec_weeks()->0);
    }
}

/// Whether `new` is `old` built or resized to `week_qty` weeks (at least
/// one), as `ensure_weeks` does it.
pub open spec fn ensured<S: DateStyler>(old: &WeekWindow<S>, new: &WeekWindow<S>, week_qty: int) -> bool {
    let n = max(week_qty, 1);
    &&& new.wf()
    &&& new.same_setup(old)
    &&& new.spec_weeks() matches Some(nws) && {
        &&& nws.len() == min(n, total_weeks())
        &&& nws[0].spec_sunday() == match old.spec_weeks() {
            None => around_first(old.spec_start_date(), n),
            Some(ws) => resized_first(ws, n),
        }
        &&& match old.spec_weeks() {
            Some(ws) => n <= ws.len() ==> nws == ws.take(n),
            None => true,
        }
    }
}

/// Whether `new` is `old` after `one_week_forwards` returned `r`.
pub open spec fn scrolled_week_forwards<S: DateStyler>(old: &WeekWindow<S>, new: &WeekWindow<S>, r: Result<(), OutOfTimeError>) -> bool {
    &&& new.wf()
    &&& new.same_setup(old)
    &&& match old.spec_weeks() {
        None => r is Ok && new.spec_weeks() is None,
        Some(ws) => {
            &&& r is Ok <==> ws.last().spec_sunday() < LAST_SUNDAY
            &&& r is Ok ==> (new.spec_weeks() matches Some(nws) && shifted_by(ws, nws, 1) && nws.take(
                ws.len() - 1,
            ) == ws.skip(1))
            &&& r is Err ==> new.spec_weeks() == Some(ws)
        }
    }
}

/// Whether `new` is `old` after `one_week_backwards` returned `r`.
pub open spec fn scrolled_week_backwards<S: DateStyler>(old: &WeekWindow<S>, new: &WeekWindow<S>, r: Result<(), OutOfTimeError>) -> bool {
    &&& new.wf()
    &&& new.same_setup(old)
    &&& match old.spec_weeks() {
        None => r is Ok && new.spec_weeks() is None,
        Some(ws) => {
            &&& r is Ok <==> ws[0].spec_sunday() > FIRST_SUNDAY
            &&& r is Ok ==> (new.spec_weeks() matches Some(nws) && shifted_by(ws, nws, -1) && nws.skip(1)
                == ws.take(ws.len() - 1))
            &&& r is Err ==> new.spec_weeks() == Some(ws)
        }
    }
}

/// Whether `new` is `old` after `one_page_forwards` returned `r`.
pub open spec fn scrolled_page_forwards<S: DateStyler>(old: &WeekWindow<S>, new: &WeekWindow<S>, r: Result<(), OutOfTimeError>) -> bool {
    &&& new.wf()
    &&& new.same_setup(old)
    &&& match old.spec_weeks() {
        None => r is Ok && new.spec_weeks() is None,
        Some(ws) => {
            &&& r is Ok <==> ws.last().spec_sunday() < LAST_SUNDAY
            &&& r is Ok ==> (new.spec_weeks() matches Some(nws) && shifted_by(
                ws,
                nws,
                page_forward_steps(ws),
            ) && nws.take(ws.len() - page_forward_steps(ws)) == ws.skip(page_forward_steps(ws)))
            &&& r is Err ==> new.spec_weeks() == Some(ws)
        }
    }
}

/// Whether `new` is `old` after `one_page_backwards` returned `r`.
pub open spec fn scrolled_page_backwards<S: DateStyler>(old: &WeekWindow<S>, new: &WeekWindow<S>, r: Result<(), OutOfTimeError>) -> bool {
    &&& new.wf()
    &&& new.same_setup(old)
    &&& match old.spec_weeks() {
        None => r is Ok && new.spec_weeks() is None,
        Some(ws) => {
            &&& r is Ok <==> ws[0].spec_sunday() > FIRST_SUNDAY
            &&& r is Ok ==> (new.spec_weeks() matches Some(nws) && shifted_by(
                ws,
                nws,
                -page_backward_steps(ws),
            ) && nws.skip(page_backward_steps(ws)) == ws.take(ws.len() - page_backward_steps(ws)))
            &&& r is Err ==> new.spec_weeks() == Some(ws)
        }
    }
}

/// Whether `new` is `old` rebuilt around `date` at the same length, as
/// `jump_to_date` does it.
pub open spec fn jumped_to<S: DateStyler>(old: &WeekWindow<S>, new: &WeekWindow<S>, date: Date) -> bool {
    &&& new.wf()
    &&& new.same_setup(old)
    &&& match old.spec_weeks() {
        None => new.spec_weeks() is None,
        Some(ws) => {
            &&& new.spec_weeks() matches Some(nws)
            &&& nws.len() == ws.len()
            &&& nws[0].spec_sunday() == around_first(date, ws.len() as int)
        }
    }
}

/// The weeks on screen: a non-empty run of consecutive weeks, built lazily on
/// the first request for a number of weeks, since that number depends on the
/// size of the screen.
pub struct WeekWindow<S> {
    today: Date,
    start_date: Date,
    weeks: Option<NonEmptyVecDeque<Week>>,
    week_factory: WeekFactory<S>,
}

impl<S: DateStyler> WeekWindow<S> {
    /// The weeks of the window, once built.
    pub closed spec fn spec_weeks(&self) -> Option<Seq<Week>> {
        match self.weeks {
            Some(q) => Some(q@),
            None => None,
        }
    }

    /// The date shown as today.
    pub closed spec fn spec_today(&self) -> Date {
        self.today
    }

    /// The date that the window is first built around.
    pub closed spec fn spec_start_date(&self) -> Date {
        self.start_date
    }

    /// The policy that styles the dates.
    pub closed spec fn spec_styler(&self) -> S {
        self.week_factory.spec_styler()
    }

    /// Once built, the window is a non-empty run of consecutive weeks, styled
    /// by its policy.
    pub open spec fn wf(&self) -> bool {
        self.spec_weeks() matches Some(ws) ==> valid_weeks(ws, self.spec_styler())
    }

    /// `self` and `other` show the same today, start from the same date and
    /// style by the same policy.
    pub open spec fn same_setup(&self, other: &Self) -> bool {
        &&& self.spec_today() == other.spec_today()
        &&& self.spec_start_date() == other.spec_start_date()
        &&& self.spec_styler() == other.spec_styler()
    }

    /// A window that shows `today`, starts around it, and styles dates with
    /// `date_styler`. Its weeks are built on the first call of
    /// `ensure_weeks`.
    pub fn new(today: Date, date_styler: S) -> (r: Self)
        ensures
            r.wf(),
            r.spec_weeks() is None,
            r.spec_today() == today,
            r.spec_start_date() == today,
            r.spec_styler() == date_styler,
    {
        let week_factory = WeekFactory::new(date_styler);
        WeekWindow { today, start_date: today, week_factory, weeks: None }
    }

    /// The same window, started around `date` instead of today.
    pub fn start_date(self, date: Date) -> (r: Self)
        ensures
            r.spec_weeks() == self.spec_weeks(),
            r.spec_today() == self.spec_today(),
            r.spec_start_date() == date,
            r.spec_styler() == self.spec_styler(),
    {
        let mut this = self;
        this.start_date = date;
        this
    }

    /// The date shown as today.
    pub fn today(&self) -> (r: Date)
        ensures
            r == self.spec_today(),
    {
        self.today
    }

    /// The weeks of the window, once built.
    pub fn weeks(&self) -> (r: Option<&NonEmptyVecDeque<Week>>)
        ensures
            match r {
                Some(q) => self.spec_weeks() == Some(q@),
                None => self.spec_weeks() is None,
            },
    {
        match &self.weeks {
            Some(q) => Some(q),
            None => None,
        }
    }

    /// Scrolls one week forwards: the week after the last is added and the
    /// first dropped. Fails, leaving the window as it was, where no week
    /// after the last exists. A window not built yet is left as it is.
    pub fn one_week_forwards(&mut self) -> (r: Result<(), OutOfTimeError>)
        requires
            old(self).wf(),
        ensures
            scrolled_week_forwards(old(self), final(self), r),
    {
        match self.weeks.take() {
            None => Ok(()),
            Some(mut weeks) => {
                let ghost ws = weeks@;
                let ghost styler = self.spec_styler();
                assert(is_week(ws[ws.len() - 1], styler, ws[0].spec_sunday() + 7 * (ws.len() - 1)));
                let r = match self.week_factory.week_after(weeks.back()) {
                    Some(w) => {
                        weeks.rotate_push_back(w);
                        proof {
                            assert(weeks@.take(ws.len() - 1) =~= ws.skip(1));
                            assert forall|i: int| 0 <= i < weeks@.len() implies is_week(
                                #[trigger] weeks@[i],
                                styler,
                                ws[0].spec_sunday() + 7 + 7 * i,
                            ) by {
                                if i < ws.len() - 1 {
                                    assert(weeks@[i] == ws[i + 1]);
                                }
                            }
                        }
                        Ok(())
                    },
                    None => Err(OutOfTimeError),
                };
                self.weeks = Some(weeks);
                r
            },
        }
    }

    /// Scrolls one week backwards: the week before the first is added and the
    /// last dropped. Fails, leaving the window as it was, where no week
    /// before the first exists. A window not built yet is left as it is.
    pub fn one_week_backwards(&mut self) -> (r: Result<(), OutOfTimeError>)
        requires
            old(self).wf(),
        ensures
            scrolled_week_backwards(old(self), final(self), r),
    {
        match self.weeks.take() {
            None => Ok(()),
            Some(mut weeks) => {
                let ghost ws = weeks@;
                let ghost styler = self.spec_styler();
                assert(is_week(ws[0], styler, ws[0].spec_sunday() + 7 * 0));
                let r = match self.week_factory.week_before(weeks.front()) {
                    Some(w) => {
                        weeks.rotate_push_front(w);
                        proof {
                            assert(weeks@.skip(1) =~= ws.take(ws.len() - 1));
                            assert forall|i: int| 0 <= i < weeks@.len() implies is_week(
                                #[trigger] weeks@[i],
                                styler,
                                ws[0].spec_sunday() - 7 + 7 * i,
                            ) by {
                                if i > 0 {
                                    assert(weeks@[i] == ws[i - 1]);
                                }
                            }
                        }
                        Ok(())
                    },
                    None => Err(OutOfTimeError),
                };
                self.weeks = Some(weeks);
                r
            },
        }
    }


    /// Scrolls one page (the window's length) forwards. Where fewer weeks
    /// than a page remain after the window, the window keeps as many of its
    /// own last weeks as it needs to stay the same length. Fails, leaving the
    /// window as it was, where no week after the last exists. A window not
    /// built yet is left as it is.
    pub fn one_page_forwards(&mut self) -> (r: Result<(), OutOfTimeError>)
        requires
            old(self).wf(),
        ensures
            scrolled_page_forwards(old(self), final(self), r),
    {
        match self.weeks.take() {
            None => Ok(()),
            Some(mut weeks) => {
                let ghost ws = weeks@;
                let ghost styler = self.spec_styler();
                let ghost first = ws[0].spec_sunday();
                assert(is_week(ws[ws.len() - 1], styler, first + 7 * (ws.len() - 1)));
                proof {
                    lemma_week_counts(ws.last().spec_sunday());
                }
                let week_qty = weeks.len();
                let r = match self.week_factory.weeks_after(*weeks.back(), week_qty) {
                    Some(mut page) => {
                        let ghost pg = page@;
                        if page.len() == week_qty {
                            weeks = page;
                            assert(is_week(pg[0], styler, ws.last().spec_sunday() + 7 + 7 * 0));
                            assert(weeks@.take(0) =~= ws.skip(ws.len() as int));
                        } else {
                            weeks.rotate_append(&mut page);
                            proof {
                                let k = pg.len() as int;
                                let n = ws.len() as int;
                                assert(weeks@.take(n - k) =~= ws.skip(k));
                                assert forall|i: int| 0 <= i < weeks@.len() implies is_week(
                                    #[trigger] weeks@[i],
                                    styler,
                                    first + 7 * k + 7 * i,
                                ) by {
                                    if i < n - k {
                                        assert(weeks@[i] == ws[k + i]);
                                    } else {
                                        assert(weeks@[i] == pg[i - (n - k)]);
                                    }
                                }
                            }
                        }
                        Ok(())
                    },
                    None => Err(OutOfTimeError),
                };
                self.weeks = Some(weeks);
                r
            },
        }
    }

    /// Scrolls one page (the window's length) backwards. Where fewer weeks
    /// than a page remain before the window, the window keeps as many of its
    /// own first weeks as it needs to stay the same length. Fails, leaving the
    /// window as it was, where no week before the first exists. A window not
    /// built yet is left as it is.
    pub fn one_page_backwards(&mut self) -> (r: Result<(), OutOfTimeError>)
        requires
            old(self).wf(),
        ensures
            scrolled_page_backwards(old(self), final(self), r),
    {
        match self.weeks.take() {
            None => Ok(()),
            Some(mut weeks) => {
                let ghost ws = weeks@;
                let ghost styler = self.spec_styler();
                let ghost first = ws[0].spec_sunday();
                assert(is_week(ws[0], styler, first + 7 * 0));
                proof {
                    lemma_week_counts(first);
                }
                let week_qty = weeks.len();
                let r = match self.week_factory.weeks_before(*weeks.front(), week_qty) {
                    Some(mut page) => {
                        let ghost pg = page@;
                        let ghost k = pg.len() as int;
                        match nonzero_sub(week_qty, page.len()) {
                            Some(len) => {
                                weeks.truncate(len);
                                page.append(&mut weeks);
                            },
                            None => {},
                        }
                        weeks = page;
                        proof {
                            assert(weeks@.skip(k) =~= ws.take(ws.len() - k));
                            assert forall|i: int| 0 <= i < weeks@.len() implies is_week(
                                #[trigger] weeks@[i],
                                styler,
                                first - 7 * k + 7 * i,
                            ) by {
                                if i < k {
                                    assert(weeks@[i] == pg[i]);
                                } else {
                                    assert(weeks@[i] == ws[i - k]);
                                }
                            }
                        }
                        Ok(())
                    },
                    None => Err(OutOfTimeError),
                };
                self.weeks = Some(weeks);
                r
            },
        }
    }


    /// Builds or resizes the window to `week_qty` weeks (at least one), and
    /// returns its weeks. A window not built yet is built around the start
    /// date. A longer window drops its last weeks. A shorter one grows after
    /// its last week, and where the weeks after run out, before its first. It
    /// then holds `week_qty` weeks unless fewer exist at all.
    pub fn ensure_weeks(&mut self, week_qty: usize) -> (r: &NonEmptyVecDeque<Week>)
        requires
            old(self).wf(),
        ensures
            ensured(old(self), final(self), week_qty as int),
            final(self).spec_weeks() == Some(r@),
    {
        let qty: usize = if week_qty == 0 {
            1
        } else {
            week_qty
        };
        let ghost styler = self.spec_styler();
        match self.weeks.take() {
            Some(mut weeks) => {
                let ghost ws = weeks@;
                let ghost first = ws[0].spec_sunday();
                let ghost last = ws.last().spec_sunday();
                assert(is_week(ws[0], styler, first + 7 * 0));
                assert(is_week(ws[ws.len() - 1], styler, first + 7 * (ws.len() - 1)));
                proof {
                    lemma_week_counts(first);
                    lemma_week_counts(last);
                }
                let len = weeks.len();
                if len < qty {
                    match self.week_factory.weeks_after(*weeks.back(), qty - len) {
                        Some(mut extension) => {
                            let ghost ext = extension@;
                            weeks.append(&mut extension);
                            proof {
                                assert forall|i: int| 0 <= i < weeks@.len() implies is_week(
                                    #[trigger] weeks@[i],
                                    styler,
                                    first + 7 * i,
                                ) by {
                                    if i < ws.len() {
                                        assert(weeks@[i] == ws[i]);
                                    } else {
                                        assert(weeks@[i] == ext[i - ws.len()]);
                                    }
                                }
                            }
                        },
                        None => {},
                    }
                    let ghost mid = weeks@;
                    assert(is_week(mid[0], styler, first + 7 * 0));
                    let len2 = weeks.len();
                    if len2 < qty {
                        match self.week_factory.weeks_before(*weeks.front(), qty - len2) {
                            Some(prextension) => {
                                let ghost pre = prextension@;
                                let ghost k = pre.len() as int;
                                weeks.prepend(prextension);
                                proof {
                                    assert forall|i: int| 0 <= i < weeks@.len() implies is_week(
                                        #[trigger] weeks@[i],
                                        styler,
                                        first - 7 * k + 7 * i,
                                    ) by {
                                        if i < k {
                                            assert(weeks@[i] == pre[i]);
                                        } else {
                                            assert(weeks@[i] == mid[i - k]);
                                        }
                                    }
                                }
                            },
                            None => {},
                        }
                    }
                } else if len > qty {
                    weeks.truncate(qty);
                } else {
                    assert(weeks@.take(qty as int) =~= weeks@);
                }
                self.weeks = Some(weeks);
            },
            None => {
                let weeks = self.week_factory.around_date(self.start_date, qty);
                proof {
                    let c = sunday_of(self.start_date@);
                    assert(is_week(weeks@[0], styler, c - 7 * around_before(c, qty as int) + 7 * 0));
                    lemma_around_counts(c, qty as int);
                }
                self.weeks = Some(weeks);
            },
        }
        self.weeks.as_ref().unwrap()
    }

    /// Rebuilds the window around `date`, keeping its length. A window not
    /// built yet is left as it is.
    pub fn jump_to_date(&mut self, date: Date)
        requires
            old(self).wf(),
        ensures
            jumped_to(old(self), final(self), date),
    {
        match self.weeks.take() {
            None => {},
            Some(weeks) => {
                let ghost ws = weeks@;
                let ghost styler = self.spec_styler();
                assert(is_week(ws[0], styler, ws[0].spec_sunday() + 7 * 0));
                assert(is_week(ws[ws.len() - 1], styler, ws[0].spec_sunday() + 7 * (ws.len() - 1)));
                proof {
                    lemma_week_counts(ws[0].spec_sunday());
                    lemma_week_counts(ws[ws.len() - 1].spec_sunday());
                }
                let fresh = self.week_factory.around_date(date, weeks.len());
                proof {
                    let c = sunday_of(date@);
                    assert(is_week(fresh@[0], styler, c - 7 * around_before(c, ws.len() as int) + 7 * 0));
                    lemma_around_counts(c, ws.len() as int);
                }
                self.weeks = Some(fresh);
            },
        }
    }

    /// Rebuilds the window around today, keeping its length. A window not
    /// built yet is left as it is.
    pub fn jump_to_today(&mut self)
        requires
            old(self).wf(),
        ensures
            jumped_to(old(self), final(self), old(self).spec_today()),
    {
        let today = self.today;
        self.jump_to_date(today);
    }

}

} // verus!
