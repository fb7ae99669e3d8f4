//! Projection of a week window onto a grid of character cells: a header of
//! weekdays, a row of days for each week, year and month labels in the
//! margins, and borders between months.
use crate::canvas::{
    changed_from_row, changed_inside, changed_only, hline, lemma_shows_kept, mvaddch, mvprint,
    repeated, shows, Area, Canvas, Cell, CellStyle,
};
use crate::date::{day_of, month_of, year_of, Date, Weekday, MIN_JULIAN_DAY};
use crate::week::{day_cells, digit, digit_char, last_day_of_month, DateStyler, StyledDate, Week};
use crate::window::{ensured, WeekWindow};
use std::marker::PhantomData;
use vstd::math::max;
use vstd::prelude::*;

verus! {

/// Width of the calendar in columns, not counting the year and months in the
/// margins.
pub const MAIN_WIDTH: u16 = 46;

/// Number of columns on the left side of the calendar, used as the margin in
/// which the year is written.
pub const LEFT_MARGIN: u16 = 6;

/// Length of the longest month name, September.
pub const LONGEST_MONTH_NAME_LEN: u16 = 9;

/// Columns between the right edge of the calendar and the start of the month
/// name.
pub const MONTH_GUTTER: u16 = 2;

/// Number of columns on the right side of the calendar, used as the margin in
/// which the month is written.
pub const RIGHT_MARGIN: u16 = LONGEST_MONTH_NAME_LEN + MONTH_GUTTER;

/// Width of the calendar with both margins.
pub const TOTAL_WIDTH: u16 = LEFT_MARGIN + MAIN_WIDTH + RIGHT_MARGIN;

/// Number of lines taken up by the header and its rule.
pub const HEADER_LINES: u16 = 2;

/// Number of lines taken up by each week of the calendar.
pub const WEEK_LINES: u16 = 2;

/// When drawing a bar between consecutive days of one week that lie in
/// different months, draw it this many columns right of the left edge of the
/// earlier day.
pub const VBAR_OFFSET: u16 = 5;

/// Number of columns per day of the week.
pub const DAY_WIDTH: u16 = 7;

pub const ACS_HLINE: char = '─';

pub const ACS_VLINE: char = '│';

pub const ACS_TTEE: char = '┬';

pub const ACS_ULCORNER: char = '┌';

pub const ACS_LRCORNER: char = '┘';

/// The weekday header: each day's two-letter name between spaces, seven
/// columns apart.
pub open spec fn header_cells() -> Seq<char> {
    Seq::new(
        46,
        |i: int|
            {
                let wd = i / 7;
                let k = i % 7;
                if k == 1 {
                    weekday_letters(wd).0
                } else if k == 2 {
                    weekday_letters(wd).1
                } else {
                    ' '
                }
            },
    )
}

/// The two letters that name a weekday, Sunday first.
pub open spec fn weekday_letters(wd: int) -> (char, char) {
    if wd == 0 {
        ('S', 'u')
    } else if wd == 1 {
        ('M', 'o')
    } else if wd == 2 {
        ('T', 'u')
    } else if wd == 3 {
        ('W', 'e')
    } else if wd == 4 {
        ('T', 'h')
    } else if wd == 5 {
        ('F', 'r')
    } else {
        ('S', 'a')
    }
}

fn letters(wd: usize) -> (r: (char, char))
    ensures
        r == weekday_letters(wd as int),
{
    if wd == 0 {
        ('S', 'u')
    } else if wd == 1 {
        ('M', 'o')
    } else if wd == 2 {
        ('T', 'u')
    } else if wd == 3 {
        ('W', 'e')
    } else if wd == 4 {
        ('T', 'h')
    } else if wd == 5 {
        ('F', 'r')
    } else {
        ('S', 'a')
    }
}

/// The weekday header.
pub fn header() -> (r: Vec<char>)
    ensures
        r@ == header_cells(),
{
    let mut r: Vec<char> = Vec::new();
    let mut i: usize = 0;
    while i < 46
        invariant
            i <= 46,
            r@ == header_cells().take(i as int),
        decreases 46 - i,
    {
        let k = i % 7;
        let (a, b) = letters(i / 7);
        let ch = if k == 1 {
            a
        } else if k == 2 {
            b
        } else {
            ' '
        };
        r.push(ch);
        i = i + 1;
        assert(r@ =~= header_cells().take(i as int));
    }
    assert(r@ =~= header_cells());
    r
}

/// Decimal digits of `n`, most significant first.
pub open spec fn decimal_digits(n: nat) -> Seq<char>
    decreases n,
{
    if n < 10 {
        seq![digit_char(n as int)]
    } else {
        decimal_digits(n / 10).push(digit_char((n % 10) as int))
    }
}

/// Decimal form of `n`, with a leading minus sign where it is negative.
pub open spec fn decimal(n: int) -> Seq<char> {
    if n < 0 {
        seq!['-'] + decimal_digits((-n) as nat)
    } else {
        decimal_digits(n as nat)
    }
}

fn push_digits(n: u32, out: &mut Vec<char>)
    ensures
        final(out)@ == old(out)@ + decimal_digits(n as nat),
    decreases n,
{
    if n >= 10 {
        push_digits(n / 10, out);
    }
    out.push(digit((n % 10) as u8));
    assert(final(out)@ =~= old(out)@ + decimal_digits(n as nat));
}

/// Decimal form of `n`.
pub fn to_decimal(n: i32) -> (r: Vec<char>)
    ensures
        r@ == decimal(n as int),
{
    let mut r: Vec<char> = Vec::new();
    if n < 0 {
        r.push('-');
        let m: i64 = -(n as i64);
        push_digits(m as u32, &mut r);
        assert(r@ =~= seq!['-'] + decimal_digits((-n) as nat));
    } else {
        push_digits(n as u32, &mut r);
        assert(r@ =~= decimal_digits(n as nat));
    }
    r
}

/// English name of month `m`, 1 = January.
pub open spec fn month_name(m: int) -> Seq<char> {
    if m == 1 {
        "January"@
    } else if m == 2 {
        "February"@
    } else if m == 3 {
        "March"@
    } else if m == 4 {
        "April"@
    } else if m == 5 {
        "May"@
    } else if m == 6 {
        "June"@
    } else if m == 7 {
        "July"@
    } else if m == 8 {
        "August"@
    } else if m == 9 {
        "September"@
    } else if m == 10 {
        "October"@
    } else if m == 11 {
        "November"@
    } else {
        "December"@
    }
}

/// Relies on `time::Month::try_from` and the `Display` of `time::Month`: the
/// English name of month `m`.
#[verifier::external_body]
fn month_chars(m: u8) -> (r: Vec<char>)
    requires
        1 <= m <= 12,
    ensures
        r@ == month_name(m as int),
{
    match time::Month::try_from(m) {
        Ok(month) => month.to_string().chars().collect(),
        Err(_) => Vec::new(),
    }
}

/// The column and width of the middle part when ratatui's `Layout` splits
/// the columns `x .. x + width` into `left` columns, `length` columns and the
/// rest.
pub uninterp spec fn middle_columns(x: int, width: int, left: int, length: int) -> (int, int);

/// Relies on ratatui's `Layout::horizontal(..).split`: the column and width
/// of the second of three parts, `Length(left)`, `Length(length)` and
/// `Min(0)`, of an area. A horizontal split keeps the rows of the area.
#[verifier::external_body]
fn split_columns(area: Area, left: u16, length: u16) -> (r: (u16, u16))
    ensures
        r.0 == middle_columns(area.x as int, area.width as int, left as int, length as int).0,
        r.1 == middle_columns(area.x as int, area.width as int, left as int, length as int).1,
{
    let rect = ratatui::layout::Rect::new(area.x, area.y, area.width, area.height);
    let chunks = ratatui::layout::Layout::horizontal(
        [
            ratatui::layout::Constraint::Length(left),
            ratatui::layout::Constraint::Length(length),
            ratatui::layout::Constraint::Min(0),
        ],
    ).split(rect);
    (chunks[1].x, chunks[1].width)
}

/// Columns left of the block of width `MAIN_WIDTH` centred in `width`
/// columns, less the left margin, and never negative.
pub open spec fn left_gap(width: int) -> int {
    max(max(width - MAIN_WIDTH, 0) / 2, LEFT_MARGIN as int) - LEFT_MARGIN
}

/// The part of `area` that the calendar is drawn in: the middle of three
/// parts of its columns, a gap of `left_gap`, `TOTAL_WIDTH` columns (or fewer
/// where `area` is narrower) and the rest, so that the days are centred;
/// clipped to `area`.
pub open spec fn calendar_area(area: Area) -> Area {
    let cols = middle_columns(
        area.x as int,
        area.width as int,
        left_gap(area.width as int),
        if TOTAL_WIDTH < area.width {
            TOTAL_WIDTH as int
        } else {
            area.width as int
        },
    );
    clip_columns(cols.0, cols.1, area)
}

/// The columns `x .. x + width` of the rows of `area`, clipped to `area`.
pub open spec fn clip_columns(x: int, width: int, area: Area) -> Area {
    let x0 = max(x, area.x as int);
    let x1 = vstd::math::min(x + width, area.x + area.width);
    Area {
        x: x0 as u16,
        y: area.y,
        width: if x1 > x0 {
            (x1 - x0) as u16
        } else {
            0
        },
        height: area.height,
    }
}

/// The columns `x .. x + width` of the rows of `area`, clipped to `area`.
fn clip(x: u16, width: u16, area: Area) -> (r: Area)
    ensures
        r == clip_columns(x as int, width as int, area),
        forall|cx: int, cy: int| r.contains(cx, cy) ==> area.contains(cx, cy),
{
    let x0: u32 = if x > area.x {
        x as u32
    } else {
        area.x as u32
    };
    let end: u32 = x as u32 + width as u32;
    let area_end: u32 = area.x as u32 + area.width as u32;
    let x1: u32 = if end < area_end {
        end
    } else {
        area_end
    };
    let w: u16 = if x1 > x0 {
        (x1 - x0) as u16
    } else {
        0
    };
    Area { x: x0 as u16, y: area.y, width: w, height: area.height }
}

/// Number of weeks that fill `lines` lines below the header, rounding up,
/// and at least one.
pub open spec fn lines_to_weeks(lines: int) -> int {
    max((max(lines - HEADER_LINES, 0) + 1) / 2, 1)
}

/// Row, within the calendar's area, of the days of week `week_no`.
pub open spec fn week_row(week_no: int) -> int {
    week_no * WEEK_LINES + HEADER_LINES
}

/// Column, within the calendar's area, of the day with zero-based weekday
/// `wd`.
pub open spec fn day_column(wd: int) -> int {
    LEFT_MARGIN + DAY_WIDTH * wd
}

/// Whether `c` shows `sd` in its cell of the row of week `week_no`: its day of
/// the month (bracketed where it is `today`), in the date's style.
pub open spec fn shows_day(c: &Canvas, area: Area, week_no: int, wd: int, sd: StyledDate, today: Date) -> bool {
    let y = area.y + week_row(week_no);
    forall|cx: int|
        #![trigger c.spec_cell(cx, y)]
        area.x + day_column(wd) <= cx < area.x + day_column(wd) + 4 && area.contains(cx, y)
            && c.on_grid(cx, y) ==> c.spec_cell(cx, y) == (Cell {
            symbol: Some(day_cells(day_of(sd.date@), sd.date == today)[cx - area.x - day_column(wd)]),
            style: Some(CellStyle::Date(sd.style)),
        })
}

/// Column, within the calendar's area, where month names start.
pub open spec fn month_column() -> int {
    (LEFT_MARGIN + MAIN_WIDTH + MONTH_GUTTER) as int
}

/// Whether `c` shows the name of the month of the last day of `week` in the
/// right margin of the row of week `week_no`.
pub open spec fn shows_month_label(c: &Canvas, area: Area, week_no: int, week: Week) -> bool {
    shows(
        c,
        c,
        area,
        week_row(week_no),
        month_column(),
        month_name(month_of(week.last_jd())),
        Some(CellStyle::Month),
    )
}

/// Whether `c` shows the bar after the day with zero-based weekday `wd` in
/// the row of week `week_no`, where that cell lies in `area` and on the grid.
pub open spec fn shows_bar(c: &Canvas, area: Area, week_no: int, wd: int) -> bool {
    let (x, y) = (area.x + day_column(wd) + VBAR_OFFSET, area.y + week_row(week_no));
    area.contains(x, y) && c.on_grid(x, y) ==> c.spec_cell(x, y).symbol == Some(ACS_VLINE)
}

/// Whether `c` shows a bar after each last day of a month, but a Saturday,
/// in the weeks of `ws` before `upto`, and in week `upto` on the weekdays
/// before `upto_wd`.
pub open spec fn bars_shown(c: &Canvas, area: Area, ws: Seq<Week>, upto: int, upto_wd: int) -> bool {
    &&& forall|j: int, wd: int|
        0 <= j <= upto && 0 <= wd < 6 && (j < upto || wd < upto_wd) && j < ws.len() && (
        #[trigger] ws[j].spec_day(wd) matches Some(sd) && last_day_of_month(sd.date@))
            ==> shows_bar(c, area, j, wd)
    &&& forall|j: int, wd: int|
        0 <= j <= upto && 1 <= wd < 7 && (j < upto || wd < upto_wd) && j < ws.len()
            && earliest_in_week(#[trigger] ws[j].spec_day(wd)) ==> shows_bar(c, area, j, wd - 1)
}

/// Whether a slot holds the earliest representable date, and that date does
/// not itself end a month: the day before it, which cannot be built, is then
/// taken as the end of a month, and a bar is drawn before the earliest date.
pub open spec fn earliest_in_week(slot: Option<StyledDate>) -> bool {
    slot matches Some(sd) && sd.date@ == MIN_JULIAN_DAY && !last_day_of_month(sd.date@)
}

/// Whether the cell of the bar after weekday `wd` in the row of week `j`
/// keeps its symbol from `old` to `new`, or shows a bar in `new`.
pub open spec fn bar_kept(old: &Canvas, new: &Canvas, area: Area, j: int, wd: int) -> bool {
    let (x, y) = (area.x + day_column(wd) + VBAR_OFFSET, area.y + week_row(j));
    new.on_grid(x, y) ==> (new.spec_cell(x, y).symbol == old.spec_cell(x, y).symbol
        || new.spec_cell(x, y).symbol == Some(ACS_VLINE))
}

/// Bars survive a change that keeps every bar cell or draws a bar in it.
proof fn lemma_bars_kept(old: &Canvas, new: &Canvas, area: Area, ws: Seq<Week>, upto: int, upto_wd: int)
    requires
        bars_shown(old, area, ws, upto, upto_wd),
        new.spec_width() == old.spec_width(),
        new.spec_height() == old.spec_height(),
        forall|j: int, wd: int| 0 <= wd < 6 ==> #[trigger] bar_kept(old, new, area, j, wd),
    ensures
        bars_shown(new, area, ws, upto, upto_wd),
{
    assert forall|j: int, wd: int|
        0 <= j <= upto && 0 <= wd < 6 && (j < upto || wd < upto_wd) && j < ws.len() && (
        #[trigger] ws[j].spec_day(wd) matches Some(sd) && last_day_of_month(sd.date@))
            implies shows_bar(new, area, j, wd) by {
        assert(bar_kept(old, new, area, j, wd));
        assert(shows_bar(old, area, j, wd));
    }
    assert forall|j: int, wd: int|
        0 <= j <= upto && 1 <= wd < 7 && (j < upto || wd < upto_wd) && j < ws.len()
            && earliest_in_week(#[trigger] ws[j].spec_day(wd)) implies shows_bar(new, area, j, wd - 1) by {
        assert(bar_kept(old, new, area, j, wd - 1));
        assert(shows_bar(old, area, j, wd - 1));
    }
}

/// Whether `new` differs from `old` only in `area`, in its rows `y0` to `y1`
/// and its columns `x0` up to `x1`.
pub open spec fn changed_within(old: &Canvas, new: &Canvas, area: Area, y0: int, y1: int, x0: int, x1: int) -> bool {
    &&& new.wf()
    &&& new.spec_width() == old.spec_width()
    &&& new.spec_height() == old.spec_height()
    &&& forall|cx: int, cy: int|
        #![trigger new.spec_cell(cx, cy)]
        new.on_grid(cx, cy) && !(area.contains(cx, cy) && y0 <= cy - area.y <= y1 && x0 <= cx
            - area.x < x1) ==> new.spec_cell(cx, cy) == old.spec_cell(cx, cy)
}

/// A drawing into row `y`, columns `a` up to `b`, stays within the rows and
/// columns that bound earlier changes when they hold it.
proof fn lemma_within_step(
    first: &Canvas,
    mid: &Canvas,
    new: &Canvas,
    area: Area,
    y0: int,
    y1: int,
    x0: int,
    x1: int,
    y: int,
    a: int,
    b: int,
)
    requires
        changed_within(first, mid, area, y0, y1, x0, x1),
        changed_only(mid, new, area, y, a, b),
        y0 <= y <= y1,
        x0 <= a,
        b <= x1,
    ensures
        changed_within(first, new, area, y0, y1, x0, x1),
{
    assert forall|cx: int, cy: int|
        #![trigger new.spec_cell(cx, cy)]
        new.on_grid(cx, cy) && !(area.contains(cx, cy) && y0 <= cy - area.y <= y1 && x0 <= cx
            - area.x < x1) implies new.spec_cell(cx, cy) == first.spec_cell(cx, cy) by {
        assert(mid.spec_cell(cx, cy) == first.spec_cell(cx, cy));
    }
}

/// Whether the calendar of `n` weeks may draw in column `cx` of row `cy`:
/// in its area, no lower than the rule below its last week, and either across
/// the days (a Saturday's rule reaches one column further), or in the year
/// and month margins of the rows of days.
pub open spec fn in_drawing(area: Area, n: int, cx: int, cy: int) -> bool {
    let (dx, dy) = (cx - area.x, cy - area.y);
    &&& area.contains(cx, cy)
    &&& dy <= week_row(n - 1) + 1
    &&& (LEFT_MARGIN <= dx <= LEFT_MARGIN + MAIN_WIDTH || (dy >= HEADER_LINES && dy % 2 == 0 && (dx
        < LEFT_MARGIN - 1 || dx >= month_column())))
}

/// Whether `c` differs from `orig` only in cells where a calendar of `n`
/// weeks may draw.
pub open spec fn drawn_only(orig: &Canvas, c: &Canvas, area: Area, n: int) -> bool {
    &&& c.wf()
    &&& c.spec_width() == orig.spec_width()
    &&& c.spec_height() == orig.spec_height()
    &&& forall|cx: int, cy: int|
        #![trigger c.spec_cell(cx, cy)]
        c.on_grid(cx, cy) && !in_drawing(area, n, cx, cy) ==> c.spec_cell(cx, cy) == orig.spec_cell(
            cx,
            cy,
        )
}

/// A change that keeps every cell where the calendar may not draw keeps
/// `drawn_only`.
proof fn lemma_drawn_only_step(orig: &Canvas, mid: &Canvas, new: &Canvas, area: Area, n: int)
    requires
        drawn_only(orig, mid, area, n),
        new.wf(),
        new.spec_width() == mid.spec_width(),
        new.spec_height() == mid.spec_height(),
        forall|cx: int, cy: int|
            #![trigger new.spec_cell(cx, cy)]
            new.on_grid(cx, cy) && !in_drawing(area, n, cx, cy) ==> new.spec_cell(cx, cy)
                == mid.spec_cell(cx, cy),
    ensures
        drawn_only(orig, new, area, n),
{
    assert forall|cx: int, cy: int|
        #![trigger new.spec_cell(cx, cy)]
        new.on_grid(cx, cy) && !in_drawing(area, n, cx, cy) implies new.spec_cell(cx, cy)
            == orig.spec_cell(cx, cy) by {
        assert(mid.on_grid(cx, cy));
        assert(mid.spec_cell(cx, cy) == orig.spec_cell(cx, cy));
    }
}

/// Whether `c` shows the rule under the weekday header: a line across the
/// days, broken only by tees above the bars of the first week's row.
pub open spec fn rule_shown(c: &Canvas, area: Area) -> bool {
    forall|cx: int|
        #![trigger c.spec_cell(cx, area.y + 1)]
        area.x + LEFT_MARGIN <= cx < area.x + LEFT_MARGIN + MAIN_WIDTH && area.contains(
            cx,
            area.y + 1,
        ) && c.on_grid(cx, area.y + 1) ==> (c.spec_cell(cx, area.y + 1).symbol == Some(ACS_HLINE)
            || (c.spec_cell(cx, area.y + 1).symbol == Some(ACS_TTEE) && (cx - area.x - LEFT_MARGIN
            - VBAR_OFFSET) % 7 == 0))
}

/// The rule under the header survives a change that keeps its symbols or
/// puts a tee in a bar column.
proof fn lemma_rule_kept(old: &Canvas, new: &Canvas, area: Area)
    requires
        rule_shown(old, area),
        new.spec_width() == old.spec_width(),
        new.spec_height() == old.spec_height(),
        forall|cx: int|
            #![trigger new.spec_cell(cx, area.y + 1)]
            new.on_grid(cx, area.y + 1) && area.x + LEFT_MARGIN <= cx < area.x + LEFT_MARGIN
                + MAIN_WIDTH ==> new.spec_cell(cx, area.y + 1).symbol == old.spec_cell(
                cx,
                area.y + 1,
            ).symbol || (new.spec_cell(cx, area.y + 1).symbol == Some(ACS_TTEE) && (cx - area.x
                - LEFT_MARGIN - VBAR_OFFSET) % 7 == 0),
    ensures
        rule_shown(new, area),
{
    assert forall|cx: int|
        #![trigger new.spec_cell(cx, area.y + 1)]
        area.x + LEFT_MARGIN <= cx < area.x + LEFT_MARGIN + MAIN_WIDTH && area.contains(
            cx,
            area.y + 1,
        ) && new.on_grid(cx, area.y + 1) implies (new.spec_cell(cx, area.y + 1).symbol == Some(
            ACS_HLINE,
        ) || (new.spec_cell(cx, area.y + 1).symbol == Some(ACS_TTEE) && (cx - area.x - LEFT_MARGIN
        - VBAR_OFFSET) % 7 == 0)) by {
        assert(old.on_grid(cx, area.y + 1));
        assert(old.spec_cell(cx, area.y + 1) == old.spec_cell(cx, area.y + 1));
    }
}

/// Whether `new` differs from `old` at most in the cells of `area` that
/// `draw_month_border` may draw for week `week_no` and weekday `wd`: the rows
/// above and below the week's row, and the bar column in that row.
pub open spec fn border_changed(old: &Canvas, new: &Canvas, area: Area, week_no: int, wd: int) -> bool {
    let y = area.y + week_row(week_no);
    &&& new.wf()
    &&& new.spec_width() == old.spec_width()
    &&& new.spec_height() == old.spec_height()
    &&& forall|cx: int, cy: int|
        #![trigger new.spec_cell(cx, cy)]
        new.on_grid(cx, cy) && !(area.contains(cx, cy) && (cy == y - 1 || cy == y + 1 || (cy == y
            && cx == area.x + day_column(wd) + VBAR_OFFSET))) ==> new.spec_cell(cx, cy)
            == old.spec_cell(cx, cy)
}

/// Whether `c` shows the month label of the first week of `ws`, and of each
/// later week before `upto` that holds the first day of a month, leaving out
/// the label in row `skip_row` of `area`.
pub open spec fn labels_shown(c: &Canvas, area: Area, ws: Seq<Week>, upto: int, skip_row: int) -> bool {
    &&& skip_row != week_row(0) ==> shows_month_label(c, area, 0, ws[0])
    &&& forall|j: int|
        0 < j < upto && ws[j].spec_has_month_start() && week_row(j) != skip_row
            ==> shows_month_label(c, area, j, #[trigger] ws[j])
}

/// Month labels survive a change that leaves their cells alone: those from
/// the month column on, in the rows of weeks, but row `skip_row`.
proof fn lemma_labels_kept(old: &Canvas, new: &Canvas, area: Area, ws: Seq<Week>, upto: int, skip_row: int)
    requires
        labels_shown(old, area, ws, upto, skip_row),
        new.wf(),
        new.spec_width() == old.spec_width(),
        new.spec_height() == old.spec_height(),
        forall|cx: int, cy: int|
            #![trigger new.spec_cell(cx, cy)]
            new.on_grid(cx, cy) && cx >= area.x + month_column() && (cy - area.y) % 2 == 0 && cy
                != area.y + skip_row ==> new.spec_cell(cx, cy) == old.spec_cell(cx, cy),
    ensures
        labels_shown(new, area, ws, upto, skip_row),
{
    assert forall|j: int|
        (j == 0 || (0 < j < upto && ws[j].spec_has_month_start())) && week_row(j) != skip_row
            implies shows_month_label(new, area, j, ws[j]) by {
        let y = area.y + week_row(j);
        assert((y - area.y) % 2 == 0);
        assert forall|cx: int|
            #![trigger new.spec_cell(cx, y)]
            area.x + month_column() <= cx < area.x + month_column() + month_name(
                month_of(ws[j].last_jd()),
            ).len() && area.contains(cx, y) && new.on_grid(cx, y) implies new.spec_cell(cx, y)
            == old.spec_cell(cx, y) by {}
        assert(shows_month_label(old, area, j, ws[j]));
    }
}

/// Whether `week` holds the first day of a month and ends in January.
pub open spec fn reaches_january(week: Week) -> bool {
    week.spec_has_month_start() && month_of(week.last_jd()) == 1
}

/// The year written in the left margin of the row of week `j` of `ws`, if
/// any: the first row's year; the year of a week that holds the first day of
/// a January and starts in January; and, in the row after a week that holds
/// the first day of a January but starts in December, the new year.
pub open spec fn year_label(ws: Seq<Week>, j: int) -> Option<int> {
    if reaches_january(ws[j]) && month_of(ws[j].first_jd()) == 1 {
        Some(year_of(ws[j].first_jd()))
    } else if j == 0 {
        Some(year_of(ws[0].first_jd()))
    } else if reaches_january(ws[j - 1]) && month_of(ws[j - 1].first_jd()) != 1 {
        Some(year_of(ws[j - 1].last_jd()))
    } else {
        None
    }
}

/// Whether `c` shows the year `year`, one of the representable years, in the
/// left margin of the row of week `j`.
pub open spec fn shows_year(c: &Canvas, area: Area, j: int, year: int) -> bool {
    -9999 <= year <= 9999 && shows(c, c, area, week_row(j), 0, decimal(year), Some(CellStyle::Year))
}

/// Whether `c` shows the year label of each week of `ws` before `upto`.
pub open spec fn years_shown(c: &Canvas, area: Area, ws: Seq<Week>, upto: int) -> bool {
    forall|j: int|
        0 <= j < upto && #[trigger] year_label(ws, j) is Some ==> shows_year(
            c,
            area,
            j,
            year_label(ws, j)->0,
        )
}

/// Whether `c` shows, in the row of week `i`, the year that is written there
/// before week `i` is drawn: the first row's year, or the new year after a
/// week that holds the first day of a January but starts in December.
pub open spec fn pending_year(c: &Canvas, area: Area, ws: Seq<Week>, i: int) -> bool {
    &&& i == 0 ==> shows_year(c, area, 0, year_of(ws[0].first_jd()))
    &&& i > 0 && reaches_january(ws[i - 1]) && month_of(ws[i - 1].first_jd()) != 1 ==> shows_year(
        c,
        area,
        i,
        year_of(ws[i - 1].last_jd()),
    )
}

/// Year labels survive a change that leaves the first five cells of the rows
/// of weeks alone, but in row `skip_row`.
proof fn lemma_years_kept(
    old: &Canvas,
    new: &Canvas,
    area: Area,
    ws: Seq<Week>,
    upto: int,
    pending: int,
    skip_row: int,
)
    requires
        years_shown(old, area, ws, upto),
        0 <= pending < ws.len() && week_row(pending) != skip_row ==> pending_year(old, area, ws, pending),
        forall|j: int| 0 <= j < upto ==> week_row(j) != skip_row,
        upto <= ws.len(),
        new.wf(),
        new.spec_width() == old.spec_width(),
        new.spec_height() == old.spec_height(),
        forall|cx: int, cy: int|
            #![trigger new.spec_cell(cx, cy)]
            new.on_grid(cx, cy) && cx < area.x + 5 && (cy - area.y) % 2 == 0 && cy != area.y
                + skip_row ==> new.spec_cell(cx, cy) == old.spec_cell(cx, cy),
    ensures
        years_shown(new, area, ws, upto),
        0 <= pending < ws.len() && week_row(pending) != skip_row ==> pending_year(new, area, ws, pending),
{
    assert forall|j: int, year: int|
        0 <= j < ws.len() && week_row(j) != skip_row && shows_year(old, area, j, year)
            implies #[trigger] shows_year(new, area, j, year) by {
        let y = area.y + week_row(j);
        lemma_year_len(year);
        assert((y - area.y) % 2 == 0);
        assert forall|cx: int|
            #![trigger new.spec_cell(cx, y)]
            area.x <= cx < area.x + decimal(year).len() && area.contains(cx, y) && new.on_grid(
                cx,
                y,
            ) implies new.spec_cell(cx, y) == old.spec_cell(cx, y) by {}
    }
    assert forall|j: int|
        0 <= j < upto && #[trigger] year_label(ws, j) is Some implies shows_year(
            new,
            area,
            j,
            year_label(ws, j)->0,
        ) by {
        assert(shows_year(old, area, j, year_label(ws, j)->0));
    }
}

/// Once week `i` of `ws` is drawn without a year of its own, the year
/// written in its row before is its label.
proof fn lemma_year_settled(c: &Canvas, area: Area, ws: Seq<Week>, i: int)
    requires
        0 <= i < ws.len(),
        years_shown(c, area, ws, i),
        pending_year(c, area, ws, i),
        !(reaches_january(ws[i]) && month_of(ws[i].first_jd()) == 1),
    ensures
        years_shown(c, area, ws, i + 1),
{
    assert forall|j: int|
        0 <= j < i + 1 && #[trigger] year_label(ws, j) is Some implies shows_year(
            c,
            area,
            j,
            year_label(ws, j)->0,
        ) by {
        if j < i {
            assert(shows_year(c, area, j, year_label(ws, j)->0));
        }
    }
}

/// Once week `i` of `ws` is drawn with its own year, that year is its label.
proof fn lemma_year_direct(c: &Canvas, area: Area, ws: Seq<Week>, i: int)
    requires
        0 <= i < ws.len(),
        years_shown(c, area, ws, i),
        reaches_january(ws[i]) && month_of(ws[i].first_jd()) == 1,
        shows_year(c, area, i, year_of(ws[i].first_jd())),
    ensures
        years_shown(c, area, ws, i + 1),
{
    assert forall|j: int|
        0 <= j < i + 1 && #[trigger] year_label(ws, j) is Some implies shows_year(
            c,
            area,
            j,
            year_label(ws, j)->0,
        ) by {
        if j < i {
            assert(shows_year(c, area, j, year_label(ws, j)->0));
        }
    }
}

/// Powers of ten.
pub open spec fn ten_pow(k: nat) -> nat
    decreases k,
{
    if k == 0 {
        1
    } else {
        10 * ten_pow((k - 1) as nat)
    }
}

/// A number below `10^k` has at most `k` digits.
proof fn lemma_digits_len(n: nat, k: nat)
    requires
        n < ten_pow(k),
    ensures
        decimal_digits(n).len() <= if k == 0 { 1 } else { k },
    decreases n,
{
    if n >= 10 {
        assert(k >= 2) by {
            if k == 1 {
                assert(ten_pow(1) == 10 * ten_pow(0));
            }
            if k == 0 {
                assert(ten_pow(0) == 1);
            }
        }
        assert(ten_pow(k) == 10 * ten_pow((k - 1) as nat));
        assert(n / 10 < ten_pow((k - 1) as nat));
        lemma_digits_len(n / 10, (k - 1) as nat);
    }
}

/// The decimal form of a year between -9999 and 9999 takes at most five
/// characters.
proof fn lemma_year_len(n: int)
    requires
        -9999 <= n <= 9999,
    ensures
        decimal(n).len() <= 5,
{
    reveal_with_fuel(ten_pow, 5);
    assert(ten_pow(4) == 10000);
    if n < 0 {
        lemma_digits_len((-n) as nat, 4);
    } else {
        lemma_digits_len(n as nat, 4);
    }
}

/// Draws the weekday header and the rule below it.
fn draw_header(canvas: &mut Canvas, area: Area)
    requires
        old(canvas).wf(),
    ensures
        changed_from_row(old(canvas), final(canvas), area, 0),
        shows(
            old(canvas),
            final(canvas),
            area,
            0,
            LEFT_MARGIN as int,
            header_cells(),
            Some(CellStyle::Weekday),
        ),
        shows(
            old(canvas),
            final(canvas),
            area,
            1,
            LEFT_MARGIN as int,
            repeated(ACS_HLINE, MAIN_WIDTH as int),
            None,
        ),
        changed_within(old(canvas), final(canvas), area, 0, 1, LEFT_MARGIN as int, LEFT_MARGIN + MAIN_WIDTH),
{
    let h = header();
    let ghost first = *canvas;
    mvprint(canvas, area, 0, LEFT_MARGIN as usize, &h, Some(CellStyle::Weekday));
    let ghost mid = *canvas;
    proof {
        let (l, r) = (LEFT_MARGIN as int, LEFT_MARGIN + MAIN_WIDTH);
        assert(changed_within(&first, &first, area, 0, 1, l, r));
        lemma_within_step(&first, &first, &mid, area, 0, 1, l, r, 0, l, r);
    }
    hline(canvas, area, 1, LEFT_MARGIN as usize, ACS_HLINE, MAIN_WIDTH as usize);
    proof {
        let (l, r) = (LEFT_MARGIN as int, LEFT_MARGIN + MAIN_WIDTH);
        lemma_within_step(&first, &mid, canvas, area, 0, 1, l, r, 1, l, r);
        assert forall|cx: int|
            #![trigger canvas.spec_cell(cx, area.y + 0)]
            canvas.on_grid(cx, area.y + 0) implies canvas.spec_cell(cx, area.y + 0) == mid.spec_cell(
            cx,
            area.y + 0,
        ) by {}
    }
}

/// Writes `year` in the left margin of the row of week `week_no`.
fn draw_year(canvas: &mut Canvas, area: Area, week_no: usize, year: i32)
    requires
        old(canvas).wf(),
        week_no < 32768,
        -9999 <= year <= 9999,
    ensures
        changed_only(old(canvas), final(canvas), area, week_row(week_no as int), 0, decimal(year as int).len() as int),
        decimal(year as int).len() <= 5,
        shows(
            final(canvas),
            final(canvas),
            area,
            week_row(week_no as int),
            0,
            decimal(year as int),
            Some(CellStyle::Year),
        ),
{
    proof {
        lemma_year_len(year as int);
    }
    let s = to_decimal(year);
    mvprint(canvas, area, week_no * 2 + 2, 0, &s, Some(CellStyle::Year));
}

/// Writes the name of month `month` in the right margin of the row of week
/// `week_no`.
fn draw_month(canvas: &mut Canvas, area: Area, week_no: usize, month: u8)
    requires
        old(canvas).wf(),
        week_no < 32768,
        1 <= month <= 12,
    ensures
        changed_only(
            old(canvas),
            final(canvas),
            area,
            week_row(week_no as int),
            (LEFT_MARGIN + MAIN_WIDTH + MONTH_GUTTER) as int,
            (LEFT_MARGIN + MAIN_WIDTH + MONTH_GUTTER) + month_name(month as int).len(),
        ),
        shows(
            final(canvas),
            final(canvas),
            area,
            week_row(week_no as int),
            month_column(),
            month_name(month as int),
            Some(CellStyle::Month),
        ),
{
    let s = month_chars(month);
    mvprint(
        canvas,
        area,
        week_no * 2 + 2,
        (LEFT_MARGIN + MAIN_WIDTH + MONTH_GUTTER) as usize,
        &s,
        Some(CellStyle::Month),
    );
}

/// Draws the cells of `date` in the row of week `week_no`.
fn draw_day(canvas: &mut Canvas, area: Area, week_no: usize, wd: Weekday, date: StyledDate, today: Date)
    requires
        old(canvas).wf(),
        week_no < 32768,
    ensures
        changed_only(
            old(canvas),
            final(canvas),
            area,
            week_row(week_no as int),
            day_column(wd.spec_index0()),
            day_column(wd.spec_index0()) + 4,
        ),
        shows_day(final(canvas), area, week_no as int, wd.spec_index0(), date, today),
{
    let s = date.show(date.date == today);
    let col = LEFT_MARGIN as usize + DAY_WIDTH as usize * wd.index0() as usize;
    mvprint(canvas, area, week_no * 2 + 2, col, &s, Some(CellStyle::Date(date.style)));
}

/// Draws the border after the last day of a month, which lies in week
/// `week_no` on weekday `wd`: a bar after the day (but after a Saturday,
/// where the end of the row serves), corners above and below it, a rule
/// above the rest of the row, and a rule below the days up to the bar.
fn draw_month_border(canvas: &mut Canvas, area: Area, week_no: usize, wd: Weekday)
    requires
        old(canvas).wf(),
        week_no < 32768,
    ensures
        changed_from_row(old(canvas), final(canvas), area, week_row(week_no as int) - 1),
        border_changed(old(canvas), final(canvas), area, week_no as int, wd.spec_index0()),
        wd != Weekday::Saturday ==> shows_bar(final(canvas), area, week_no as int, wd.spec_index0()),
        forall|cx: int, cy: int|
            #![trigger final(canvas).spec_cell(cx, cy)]
            final(canvas).on_grid(cx, cy) && !(area.contains(cx, cy) && week_row(week_no as int) - 1
                <= cy - area.y <= week_row(week_no as int) + 1 && LEFT_MARGIN <= cx - area.x
                <= LEFT_MARGIN + MAIN_WIDTH) ==> final(canvas).spec_cell(cx, cy) == old(
                canvas,
            ).spec_cell(cx, cy),
        week_no == 0 ==> forall|cx: int|
            #![trigger final(canvas).spec_cell(cx, area.y + 1)]
            final(canvas).on_grid(cx, area.y + 1) && cx != area.x + day_column(wd.spec_index0())
                + VBAR_OFFSET ==> final(canvas).spec_cell(cx, area.y + 1) == old(canvas).spec_cell(
                cx,
                area.y + 1,
            ),
        ({
            let (y, bar) = (week_row(week_no as int), day_column(wd.spec_index0()) + VBAR_OFFSET);
            &&& wd != Weekday::Saturday ==> shows(old(canvas), final(canvas), area, y, bar, seq![ACS_VLINE], None)
            &&& wd != Weekday::Saturday ==> shows(
                old(canvas),
                final(canvas),
                area,
                y - 1,
                bar,
                seq![if week_no == 0 { ACS_TTEE } else { ACS_ULCORNER }],
                None,
            )
            &&& wd != Weekday::Saturday && week_no > 0 ==> shows(
                old(canvas),
                final(canvas),
                area,
                y - 1,
                bar + 1,
                repeated(ACS_HLINE, MAIN_WIDTH - (bar + 1 - LEFT_MARGIN)),
                None,
            )
            &&& wd != Weekday::Saturday ==> shows(old(canvas), final(canvas), area, y + 1, bar, seq![ACS_LRCORNER], None)
            &&& shows(
                old(canvas),
                final(canvas),
                area,
                y + 1,
                LEFT_MARGIN as int,
                repeated(ACS_HLINE, bar - LEFT_MARGIN),
                None,
            )
        }),
{
    let y = week_no * 2 + 2;
    let offset = DAY_WIDTH as usize * wd.index0() as usize;
    let bar_col = LEFT_MARGIN as usize + offset + VBAR_OFFSET as usize;
    let ghost first = *canvas;
    let ghost (gy, gbar) = (y as int, bar_col as int);
    let ghost corner = if week_no == 0 {
        ACS_TTEE
    } else {
        ACS_ULCORNER
    };
    let ghost rule_len = MAIN_WIDTH - (bar_col + 1 - LEFT_MARGIN);
    let ghost (y0, y1, x0, x1) = (gy - 1, gy + 1, LEFT_MARGIN as int, LEFT_MARGIN + MAIN_WIDTH + 1);
    assert(changed_within(&first, canvas, area, y0, y1, x0, x1));
    if wd != Weekday::Saturday {
        mvaddch(canvas, area, y, bar_col, ACS_VLINE);
        let ghost c1 = *canvas;
        proof {
            lemma_within_step(&first, &first, canvas, area, y0, y1, x0, x1, gy, gbar, gbar + 1);
        }
        mvaddch(
            canvas,
            area,
            y - 1,
            bar_col,
            if week_no == 0 {
                ACS_TTEE
            } else {
                ACS_ULCORNER
            },
        );
        let ghost c2 = *canvas;
        proof {
            lemma_within_step(&first, &c1, canvas, area, y0, y1, x0, x1, gy - 1, gbar, gbar + 1);
            lemma_shows_kept(&first, &c1, canvas, area, gy, gbar, seq![ACS_VLINE], None, gy - 1, gbar, gbar + 1);
            // The first drawing left the corner cell as it found it.
            assert forall|cx: int| #![trigger first.spec_cell(cx, area.y + gy - 1)]
                area.x + gbar <= cx < area.x + gbar + 1 && area.contains(cx, area.y + gy - 1) && first.on_grid(cx, area.y + gy - 1)
                implies first.spec_cell(cx, area.y + gy - 1).style == c1.spec_cell(cx, area.y + gy - 1).style by {
                assert(c1.spec_cell(cx, area.y + gy - 1) == first.spec_cell(cx, area.y + gy - 1));
            }
            assert(shows(&first, canvas, area, gy - 1, gbar, seq![corner], None));
        }
        if week_no > 0 {
            if offset + VBAR_OFFSET as usize + 1 <= MAIN_WIDTH as usize {
                let length = MAIN_WIDTH as usize - (offset + VBAR_OFFSET as usize + 1);
                let ghost before = *canvas;
                hline(canvas, area, y - 1, bar_col + 1, ACS_HLINE, length);
                proof {
                    lemma_within_step(&first, &before, canvas, area, y0, y1, x0, x1, gy - 1, gbar + 1, gbar + 1 + length);
                    lemma_shows_kept(&first, &before, canvas, area, gy, gbar, seq![ACS_VLINE], None, gy - 1, gbar + 1, gbar + 1 + length);
                    lemma_shows_kept(&first, &before, canvas, area, gy - 1, gbar, seq![corner], None, gy - 1, gbar + 1, gbar + 1 + length);
                    assert forall|cx: int| #![trigger first.spec_cell(cx, area.y + gy - 1)]
                        area.x + gbar + 1 <= cx < area.x + gbar + 1 + length && area.contains(cx, area.y + gy - 1) && first.on_grid(cx, area.y + gy - 1)
                        implies first.spec_cell(cx, area.y + gy - 1).style == before.spec_cell(cx, area.y + gy - 1).style by {
                        assert(c2.spec_cell(cx, area.y + gy - 1) == first.spec_cell(cx, area.y + gy - 1));
                    }
                    assert(shows(&first, canvas, area, gy - 1, gbar + 1, repeated(ACS_HLINE, rule_len), None));
                }
            }
        }
        let ghost c3 = *canvas;
        mvaddch(canvas, area, y + 1, bar_col, ACS_LRCORNER);
        proof {
            lemma_within_step(&first, &c3, canvas, area, y0, y1, x0, x1, gy + 1, gbar, gbar + 1);
            lemma_shows_kept(&first, &c3, canvas, area, gy, gbar, seq![ACS_VLINE], None, gy + 1, gbar, gbar + 1);
            lemma_shows_kept(&first, &c3, canvas, area, gy - 1, gbar, seq![corner], None, gy + 1, gbar, gbar + 1);
            if week_no > 0 {
                lemma_shows_kept(&first, &c3, canvas, area, gy - 1, gbar + 1, repeated(ACS_HLINE, rule_len), None, gy + 1, gbar, gbar + 1);
            }
            assert forall|cx: int| #![trigger first.spec_cell(cx, area.y + gy + 1)]
                area.x + gbar <= cx < area.x + gbar + 1 && area.contains(cx, area.y + gy + 1) && first.on_grid(cx, area.y + gy + 1)
                implies first.spec_cell(cx, area.y + gy + 1).style == c3.spec_cell(cx, area.y + gy + 1).style by {
                assert(c1.spec_cell(cx, area.y + gy + 1) == first.spec_cell(cx, area.y + gy + 1));
                assert(c2.spec_cell(cx, area.y + gy + 1) == c1.spec_cell(cx, area.y + gy + 1));
            }
            assert(shows(&first, canvas, area, gy + 1, gbar, seq![ACS_LRCORNER], None));
        }
    }
    let ghost c4 = *canvas;
    hline(canvas, area, y + 1, LEFT_MARGIN as usize, ACS_HLINE, offset + VBAR_OFFSET as usize);
    proof {
        let l = LEFT_MARGIN as int;
        lemma_within_step(&first, &c4, canvas, area, y0, y1, x0, x1, gy + 1, l, gbar);
        if wd != Weekday::Saturday {
            lemma_shows_kept(&first, &c4, canvas, area, gy, gbar, seq![ACS_VLINE], None, gy + 1, l, gbar);
            lemma_shows_kept(&first, &c4, canvas, area, gy - 1, gbar, seq![corner], None, gy + 1, l, gbar);
            lemma_shows_kept(&first, &c4, canvas, area, gy + 1, gbar, seq![ACS_LRCORNER], None, gy + 1, l, gbar);
            if week_no > 0 {
                lemma_shows_kept(&first, &c4, canvas, area, gy - 1, gbar + 1, repeated(ACS_HLINE, rule_len), None, gy + 1, l, gbar);
            }
        }
        assert forall|cx: int| #![trigger first.spec_cell(cx, area.y + gy + 1)]
            area.x + l <= cx < area.x + gbar && area.contains(cx, area.y + gy + 1) && first.on_grid(cx, area.y + gy + 1)
            implies first.spec_cell(cx, area.y + gy + 1).style == c4.spec_cell(cx, area.y + gy + 1).style by {
        }
        assert(shows(&first, canvas, area, gy + 1, l, repeated(ACS_HLINE, gbar - l), None));
    }
}


/// Whether `c` shows, in the row of week `week_no`, each date of `week` whose
/// zero-based weekday is below `upto`.
pub open spec fn shows_week(c: &Canvas, area: Area, week_no: int, week: Week, today: Date, upto: int) -> bool {
    forall|wd: int|
        0 <= wd < upto ==> (#[trigger] week.spec_day(wd) matches Some(sd) ==> shows_day(
            c,
            area,
            week_no,
            wd,
            sd,
            today,
        ))
}

/// Whether `new_canvas` and `new_state` are `old_canvas` and `old_state`
/// after the calendar is rendered in `area`: the window is sized to the
/// area's height; nothing outside the calendar's part of the area changes,
/// nor any cell of that part that `in_drawing` leaves out;
/// the weekday header is drawn, with its rule below; the first week, and each week that holds the
/// first day of a month, has the name of the month of its last day in the
/// right margin; the rows that `year_label` gives a year show it in the left
/// margin; a bar follows each last day of a month but a Saturday, and comes
/// before the earliest date where that is not a Sunday; and
/// each date of each week is shown in its cell, today's between brackets.
pub open spec fn rendered<S: DateStyler>(
    old_canvas: &Canvas,
    new_canvas: &Canvas,
    area: Area,
    old_state: &WeekWindow<S>,
    new_state: &WeekWindow<S>,
) -> bool {
    &&& ensured(old_state, new_state, lines_to_weeks(area.height as int))
    &&& changed_inside(old_canvas, new_canvas, calendar_area(area))
    &&& changed_inside(old_canvas, new_canvas, area)
    &&& bars_shown(
        new_canvas,
        calendar_area(area),
        new_state.spec_weeks()->0,
        new_state.spec_weeks()->0.len() as int,
        0,
    )
    &&& rule_shown(new_canvas, calendar_area(area))
    &&& drawn_only(
        old_canvas,
        new_canvas,
        calendar_area(area),
        new_state.spec_weeks()->0.len() as int,
    )
    &&& years_shown(
        new_canvas,
        calendar_area(area),
        new_state.spec_weeks()->0,
        new_state.spec_weeks()->0.len() as int,
    )
    &&& labels_shown(
        new_canvas,
        calendar_area(area),
        new_state.spec_weeks()->0,
        new_state.spec_weeks()->0.len() as int,
        -1,
    )
    &&& shows(
        old_canvas,
        new_canvas,
        calendar_area(area),
        0,
        LEFT_MARGIN as int,
        header_cells(),
        Some(CellStyle::Weekday),
    )
    &&& forall|i: int|
        0 <= i < new_state.spec_weeks()->0.len() ==> shows_week(
            new_canvas,
            calendar_area(area),
            i,
            #[trigger] new_state.spec_weeks()->0[i],
            old_state.spec_today(),
            7,
        )
}

/// Draws a week window in an area, sizing the window to the area's height.
pub struct Calendar<S> {
    _data: PhantomData<S>,
}

impl<S: DateStyler> Calendar<S> {
    pub fn new() -> Calendar<S> {
        Calendar { _data: PhantomData }
    }

    /// Number of weeks that fill `lines` lines: the lines below the header,
    /// two for each week, rounded up; and at least one, so that the window is
    /// never empty.
    pub fn weeks_for_lines(lines: u16) -> (r: usize)
        ensures
            r == lines_to_weeks(lines as int),
    {
        let below: u16 = if lines >= HEADER_LINES {
            lines - HEADER_LINES
        } else {
            0
        };
        let n: usize = (below as usize + 1) / 2;
        if n == 0 {
            1
        } else {
            n
        }
    }

    /// Sizes `state` to the height of `area` and draws it there: the weekday
    /// header, a row for each week with its days (today's in brackets), the
    /// year and month labels in the margins, and the borders between months.
    /// Nothing outside the calendar's part of `area` is drawn.
    pub fn render(self, area: Area, canvas: &mut Canvas, state: &mut WeekWindow<S>)
        requires
            old(canvas).wf(),
            old(state).wf(),
        ensures
            rendered(old(canvas), final(canvas), area, old(state), final(state)),
    {
        let gap: u16 = if area.width >= MAIN_WIDTH {
            (area.width - MAIN_WIDTH) / 2
        } else {
            0
        };
        let left: u16 = if gap > LEFT_MARGIN {
            gap - LEFT_MARGIN
        } else {
            0
        };
        let length: u16 = if TOTAL_WIDTH < area.width {
            TOTAL_WIDTH
        } else {
            area.width
        };
        let (cx, cw) = split_columns(area, left, length);
        let cal = clip(cx, cw, area);
        assert(cal == calendar_area(area));
        let today = state.today();
        let weeks = state.ensure_weeks(Self::weeks_for_lines(area.height));
        let ghost ws = weeks@;
        let n = weeks.len();
        assert(n <= 32767);
        let ghost orig = *canvas;
        draw_header(canvas, cal);
        proof {
            assert(drawn_only(&orig, canvas, cal, n as int));
        }
        let ghost after_header = *canvas;
        assert(rule_shown(canvas, cal));
        let top = *weeks.front();
        assert(top.wf());
        let ghost prev = *canvas;
        draw_year(canvas, cal, 0, top.first_ym().0);
        proof {
            lemma_rule_kept(&prev, canvas, cal);
            lemma_drawn_only_step(&orig, &prev, canvas, cal, n as int);
        }
        let ghost prev = *canvas;
        draw_month(canvas, cal, 0, top.last_ym().1);
        proof {
            lemma_years_kept(&prev, canvas, cal, ws, 0, 0, -1);
            lemma_rule_kept(&prev, canvas, cal);
            lemma_drawn_only_step(&orig, &prev, canvas, cal, n as int);
        }
        let mut i: usize = 0;
        while i < n
            invariant
                i <= n,
                n == ws.len(),
                n <= 32767,
                ws == weeks@,
                top == ws[0],
                forall|j: int| 0 <= j < n ==> (#[trigger] ws[j]).wf(),
                changed_from_row(&after_header, canvas, cal, 1),
                rule_shown(canvas, cal),
                drawn_only(&orig, canvas, cal, n as int),
                labels_shown(canvas, cal, ws, i as int, -1),
                bars_shown(canvas, cal, ws, i as int, 0),
                years_shown(canvas, cal, ws, i as int),
                i < n ==> pending_year(canvas, cal, ws, i as int),
            decreases n - i,
        {
            let week = *weeks.get(i);
            if week.has_month_start() {
                let (first_year, first_month) = week.first_ym();
                let (last_year, last_month) = week.last_ym();
                let ghost prev = *canvas;
                draw_month(canvas, cal, i, last_month);
                proof {
                    lemma_labels_kept(&prev, canvas, cal, ws, i as int, week_row(i as int));
                    lemma_rule_kept(&prev, canvas, cal);
                    lemma_drawn_only_step(&orig, &prev, canvas, cal, n as int);
                    assert forall|j: int, wd: int| 0 <= wd < 6 implies #[trigger] bar_kept(&prev, canvas, cal, j, wd) by {}
                    lemma_bars_kept(&prev, canvas, cal, ws, i as int, 0);
                    lemma_years_kept(&prev, canvas, cal, ws, i as int, i as int, -1);
                }
                if last_month == 1 {
                    let ghost prev = *canvas;
                    if first_month == 1 {
                        draw_year(canvas, cal, i, first_year);
                        proof {
                            lemma_years_kept(&prev, canvas, cal, ws, i as int, n as int, week_row(i as int));
                            lemma_year_direct(canvas, cal, ws, i as int);
                        }
                    } else if i + 1 < n {
                        draw_year(canvas, cal, i + 1, last_year);
                        proof {
                            lemma_years_kept(&prev, canvas, cal, ws, i as int, i as int, week_row(i + 1));
                            lemma_year_settled(canvas, cal, ws, i as int);
                        }
                    } else {
                        proof {
                            lemma_year_settled(canvas, cal, ws, i as int);
                        }
                    }
                    proof {
                        lemma_labels_kept(&prev, canvas, cal, ws, i as int + 1, -1);
                        assert forall|j: int, wd: int| 0 <= wd < 6 implies #[trigger] bar_kept(&prev, canvas, cal, j, wd) by {}
                        lemma_bars_kept(&prev, canvas, cal, ws, i as int, 0);
                        lemma_rule_kept(&prev, canvas, cal);
                        lemma_drawn_only_step(&orig, &prev, canvas, cal, n as int);
                    }
                } else {
                    proof {
                        lemma_year_settled(canvas, cal, ws, i as int);
                    }
                }
            } else {
                proof {
                    lemma_year_settled(canvas, cal, ws, i as int);
                }
            }
            let mut d: u16 = 0;
            while d < 7
                invariant
                    i < n,
                    n == ws.len(),
                    n <= 32767,
                    d <= 7,
                    changed_from_row(&after_header, canvas, cal, 1),
                    rule_shown(canvas, cal),
                    drawn_only(&orig, canvas, cal, n as int),
                    labels_shown(canvas, cal, ws, i as int + 1, -1),
                    bars_shown(canvas, cal, ws, i as int, d as int),
                    years_shown(canvas, cal, ws, i + 1),
                    i + 1 < n ==> pending_year(canvas, cal, ws, i + 1),
                    week == ws[i as int],
                    week.wf(),
                decreases 7 - d,
            {
                let wd = Weekday::from_index0(d);
                if let Some(date) = week.get(wd) {
                    let ghost prev = *canvas;
                    if date.is_last_day_of_month() {
                        draw_month_border(canvas, cal, i, wd);
                    } else if date.date.is_earliest() {
                        // The day before the earliest date cannot be built,
                        // so count it as the end of a month.
                        let before = Weekday::from_index0((d + 6) % 7);
                        assert(d >= 1 ==> (d + 6) % 7 == d - 1);
                        assert(d == 0 ==> before == Weekday::Saturday);
                        if before != Weekday::Saturday {
                            draw_month_border(canvas, cal, i, before);
                        } else if i > 0 {
                            draw_month_border(canvas, cal, i - 1, before);
                        }
                    }
                    proof {
                        lemma_labels_kept(&prev, canvas, cal, ws, i as int + 1, -1);
                        assert forall|j: int, wd: int| 0 <= wd < 6 implies #[trigger] bar_kept(&prev, canvas, cal, j, wd) by {}
                        lemma_bars_kept(&prev, canvas, cal, ws, i as int, d as int);
                        lemma_years_kept(&prev, canvas, cal, ws, i + 1, i + 1, -1);
                        lemma_rule_kept(&prev, canvas, cal);
                        lemma_drawn_only_step(&orig, &prev, canvas, cal, n as int);
                        assert(ws[i as int].spec_day(d as int) == Some(date));
                        if earliest_in_week(Some(date)) && d >= 1 {
                            assert(shows_bar(canvas, cal, i as int, d - 1));
                        }
                        assert forall|j: int, w: int|
                            0 <= j <= i && 1 <= w < 7 && (j < i || w < d + 1) && j < ws.len()
                                && earliest_in_week(#[trigger] ws[j].spec_day(w)) implies shows_bar(
                            canvas,
                            cal,
                            j,
                            w - 1,
                        ) by {}
                    }
                } else {
                    assert(ws[i as int].spec_day(d as int) is None);
                }
                d = d + 1;
            }
            i = i + 1;
        }
        let mut i: usize = 0;
        while i < n
            invariant
                i <= n,
                n == ws.len(),
                n <= 32767,
                ws == weeks@,
                changed_from_row(&after_header, canvas, cal, 1),
                rule_shown(canvas, cal),
                drawn_only(&orig, canvas, cal, n as int),
                labels_shown(canvas, cal, ws, n as int, -1),
                bars_shown(canvas, cal, ws, n as int, 0),
                years_shown(canvas, cal, ws, n as int),
                forall|j: int| 0 <= j < i ==> shows_week(canvas, cal, j, #[trigger] ws[j], today, 7),
            decreases n - i,
        {
            let week = *weeks.get(i);
            let mut d: u16 = 0;
            while d < 7
                invariant
                    i < n,
                    n == ws.len(),
                    n <= 32767,
                    d <= 7,
                    week == ws[i as int],
                    changed_from_row(&after_header, canvas, cal, 1),
                    rule_shown(canvas, cal),
                    drawn_only(&orig, canvas, cal, n as int),
                    labels_shown(canvas, cal, ws, n as int, -1),
                    bars_shown(canvas, cal, ws, n as int, 0),
                    years_shown(canvas, cal, ws, n as int),
                    forall|j: int| 0 <= j < i ==> shows_week(canvas, cal, j, #[trigger] ws[j], today, 7),
                    shows_week(canvas, cal, i as int, week, today, d as int),
                decreases 7 - d,
            {
                let wd = Weekday::from_index0(d);
                if let Some(date) = week.get(wd) {
                    let ghost prev = *canvas;
                    draw_day(canvas, cal, i, wd, date, today);
                    proof {
                        lemma_labels_kept(&prev, canvas, cal, ws, n as int, -1);
                        assert forall|j: int, wd: int| 0 <= wd < 6 implies #[trigger] bar_kept(&prev, canvas, cal, j, wd) by {}
                        lemma_bars_kept(&prev, canvas, cal, ws, n as int, 0);
                        lemma_years_kept(&prev, canvas, cal, ws, n as int, n as int, -1);
                        lemma_rule_kept(&prev, canvas, cal);
                        lemma_drawn_only_step(&orig, &prev, canvas, cal, n as int);
                        assert forall|j: int| 0 <= j < i implies shows_week(canvas, cal, j, #[trigger] ws[j], today, 7) by {
                            assert forall|w: int| 0 <= w < 7 implies (#[trigger] ws[j].spec_day(w) matches Some(sd) ==> shows_day(canvas, cal, j, w, sd, today)) by {
                                if let Some(sd) = ws[j].spec_day(w) {
                                    assert(shows_day(&prev, cal, j, w, sd, today));
                                    let y = cal.y + week_row(j);
                                    assert forall|x: int| #![trigger canvas.spec_cell(x, y)] cal.x + day_column(w) <= x < cal.x + day_column(w) + 4 && cal.contains(x, y) && canvas.on_grid(x, y) implies canvas.spec_cell(x, y) == prev.spec_cell(x, y) by {}
                                }
                            }
                        }
                        assert forall|w: int| 0 <= w < d + 1 implies (#[trigger] week.spec_day(w) matches Some(sd) ==> shows_day(canvas, cal, i as int, w, sd, today)) by {
                            if w < d {
                                if let Some(sd) = week.spec_day(w) {
                                    assert(shows_day(&prev, cal, i as int, w, sd, today));
                                    let y = cal.y + week_row(i as int);
                                    assert forall|x: int| #![trigger canvas.spec_cell(x, y)] cal.x + day_column(w) <= x < cal.x + day_column(w) + 4 && cal.contains(x, y) && canvas.on_grid(x, y) implies canvas.spec_cell(x, y) == prev.spec_cell(x, y) by {}
                                }
                            }
                        }
                    }
                }
                d = d + 1;
            }
            i = i + 1;
        }
        proof {
            assert forall|cx: int|
                #![trigger canvas.spec_cell(cx, cal.y + 0)]
                canvas.on_grid(cx, cal.y + 0) implies canvas.spec_cell(cx, cal.y + 0) == after_header.spec_cell(cx, cal.y + 0) by {}
        }
    }
}

} // verus!
