//! A rectangular grid of character cells to draw into, and drawing that is
//! clipped to a rectangle of it. The grid is what the library draws, held as
//! plain values; the program around it copies the grid into the terminal's
//! own buffer.
use crate::week::DateStyle;
use vstd::prelude::*;

verus! {

/// What a cell is styled as.
#[derive(Clone, Copy, Debug, PartialEq, Eq, Structural)]
pub enum CellStyle {
    Weekday,
    Year,
    Month,
    Date(DateStyle),
}

/// One cell: the symbol drawn in it and the style given to it, each `None`
/// where nothing has set it.
#[derive(Clone, Copy, Debug, PartialEq, Eq, Structural)]
pub struct Cell {
    pub symbol: Option<char>,
    pub style: Option<CellStyle>,
}

/// A grid of `width` columns and `height` rows of cells, all blank at first.
pub struct Canvas {
    width: u16,
    height: u16,
    rows: Vec<Vec<Cell>>,
}

impl Canvas {
    pub closed spec fn spec_width(&self) -> int {
        self.width as int
    }

    pub closed spec fn spec_height(&self) -> int {
        self.height as int
    }

    /// The cell in column `x` of row `y`.
    pub closed spec fn spec_cell(&self, x: int, y: int) -> Cell {
        self.rows@[y]@[x]
    }

    /// Every row holds `width` cells, and there are `height` rows.
    pub closed spec fn wf(&self) -> bool {
        &&& self.rows@.len() == self.height
        &&& forall|y: int| 0 <= y < self.height ==> (#[trigger] self.rows@[y])@.len() == self.width
    }

    /// Whether column `x` of row `y` lies on the grid.
    pub open spec fn on_grid(&self, x: int, y: int) -> bool {
        0 <= x < self.spec_width() && 0 <= y < self.spec_height()
    }

    /// A blank grid.
    pub fn new(width: u16, height: u16) -> (r: Canvas)
        ensures
            r.wf(),
            r.spec_width() == width,
            r.spec_height() == height,
            forall|x: int, y: int|
                r.on_grid(x, y) ==> #[trigger] r.spec_cell(x, y) == (Cell { symbol: None, style: None }),
    {
        let blank = Cell { symbol: None, style: None };
        let mut rows: Vec<Vec<Cell>> = Vec::new();
        let mut y: u16 = 0;
        while y < height
            invariant
                y <= height,
                rows@.len() == y,
                forall|j: int| 0 <= j < y ==> (#[trigger] rows@[j])@.len() == width,
                forall|j: int, x: int|
                    0 <= j < y && 0 <= x < width ==> #[trigger] rows@[j]@[x] == blank,
            decreases height - y,
        {
            let mut row: Vec<Cell> = Vec::new();
            let mut x: u16 = 0;
            while x < width
                invariant
                    x <= width,
                    row@.len() == x,
                    forall|i: int| 0 <= i < x ==> #[trigger] row@[i] == blank,
                decreases width - x,
            {
                row.push(blank);
                x = x + 1;
            }
            rows.push(row);
            y = y + 1;
        }
        Canvas { width, height, rows }
    }

    pub fn width(&self) -> (r: u16)
        ensures
            r == self.spec_width(),
    {
        self.width
    }

    pub fn height(&self) -> (r: u16)
        ensures
            r == self.spec_height(),
    {
        self.height
    }

    /// The cell in column `x` of row `y`.
    pub fn cell(&self, x: u16, y: u16) -> (r: Cell)
        requires
            self.wf(),
            self.on_grid(x as int, y as int),
        ensures
            r == self.spec_cell(x as int, y as int),
    {
        self.rows[y as usize][x as usize]
    }

    /// Draws `symbol` in column `x` of row `y`, and gives the cell `style`
    /// where that is not `None`; off the grid, does nothing.
    pub fn put(&mut self, x: usize, y: usize, symbol: char, style: Option<CellStyle>)
        requires
            old(self).wf(),
        ensures
            final(self).wf(),
            final(self).spec_width() == old(self).spec_width(),
            final(self).spec_height() == old(self).spec_height(),
            forall|cx: int, cy: int|
                #![trigger final(self).spec_cell(cx, cy)]
                final(self).on_grid(cx, cy) ==> final(self).spec_cell(cx, cy) == if cx == x && cy
                    == y {
                    Cell {
                        symbol: Some(symbol),
                        style: match style {
                            Some(s) => Some(s),
                            None => old(self).spec_cell(cx, cy).style,
                        },
                    }
                } else {
                    old(self).spec_cell(cx, cy)
                },
    {
        if y < self.height as usize && x < self.width as usize {
            let old_cell = self.rows[y][x];
            let cell = Cell {
                symbol: Some(symbol),
                style: match style {
                    Some(s) => Some(s),
                    None => old_cell.style,
                },
            };
            self.rows[y][x] = cell;
        }
    }
}

/// A rectangle of the grid: its left column, top row, width and height.
#[derive(Clone, Copy, Debug, PartialEq, Eq, Structural)]
pub struct Area {
    pub x: u16,
    pub y: u16,
    pub width: u16,
    pub height: u16,
}

impl Area {
    /// Whether column `cx` of row `cy` of the grid lies in the area.
    pub open spec fn contains(self, cx: int, cy: int) -> bool {
        self.x <= cx < self.x + self.width && self.y <= cy < self.y + self.height
    }
}

/// Whether `new` differs from `old` at most in the cells of `area` that lie
/// in its row `y`, from its column `x0` up to `x1`.
pub open spec fn changed_only(old: &Canvas, new: &Canvas, area: Area, y: int, x0: int, x1: int) -> bool {
    &&& new.wf()
    &&& new.spec_width() == old.spec_width()
    &&& new.spec_height() == old.spec_height()
    &&& forall|cx: int, cy: int|
        #![trigger new.spec_cell(cx, cy)]
        new.on_grid(cx, cy) && !(cy == area.y + y && area.x + x0 <= cx < area.x + x1
            && area.contains(cx, cy)) ==> new.spec_cell(cx, cy) == old.spec_cell(cx, cy)
}

/// Whether `new` differs from `old` at most inside `area`.
pub open spec fn changed_inside(old: &Canvas, new: &Canvas, area: Area) -> bool {
    &&& new.wf()
    &&& new.spec_width() == old.spec_width()
    &&& new.spec_height() == old.spec_height()
    &&& forall|cx: int, cy: int|
        #![trigger new.spec_cell(cx, cy)]
        new.on_grid(cx, cy) && !area.contains(cx, cy) ==> new.spec_cell(cx, cy) == old.spec_cell(
            cx,
            cy,
        )
}

/// Whether `c` shows `s` from column `x` of row `y` of `area`, as far as the
/// area and the grid reach, with the style `style` where that is not `None`
/// and the style of `old` otherwise.
pub open spec fn shows(
    old: &Canvas,
    c: &Canvas,
    area: Area,
    y: int,
    x: int,
    s: Seq<char>,
    style: Option<CellStyle>,
) -> bool {
    forall|cx: int|
        #![trigger c.spec_cell(cx, area.y + y)]
        area.x + x <= cx < area.x + x + s.len() && area.contains(cx, area.y + y) && c.on_grid(
            cx,
            area.y + y,
        ) ==> c.spec_cell(cx, area.y + y) == (Cell {
            symbol: Some(s[cx - area.x - x]),
            style: match style {
                Some(st) => Some(st),
                None => old.spec_cell(cx, area.y + y).style,
            },
        })
}

/// Draws `ch` at column `x` of row `y` of `area`, where that lies in the area.
pub fn mvaddch(canvas: &mut Canvas, area: Area, y: usize, x: usize, ch: char)
    requires
        old(canvas).wf(),
    ensures
        changed_only(old(canvas), final(canvas), area, y as int, x as int, x + 1),
        shows(old(canvas), final(canvas), area, y as int, x as int, seq![ch], None),
{
    if y < area.height as usize && x < area.width as usize {
        canvas.put(x + area.x as usize, y + area.y as usize, ch, None);
    }
}

/// Draws `s` from column `x` of row `y` of `area`, cut off at the area's
/// right edge, and styles the cells drawn with `style` where that is not
/// `None`.
pub fn mvprint(canvas: &mut Canvas, area: Area, y: usize, x: usize, s: &Vec<char>, style: Option<CellStyle>)
    requires
        old(canvas).wf(),
    ensures
        changed_only(old(canvas), final(canvas), area, y as int, x as int, x + s@.len()),
        shows(old(canvas), final(canvas), area, y as int, x as int, s@, style),
{
    if y < area.height as usize {
        let mut i: usize = 0;
        while i < s.len() && x < area.width as usize && i < area.width as usize - x
            invariant
                i <= s@.len(),
                y < area.height,
                changed_only(old(canvas), canvas, area, y as int, x as int, x + i),
                shows(old(canvas), canvas, area, y as int, x as int, s@.take(i as int), style),
            decreases s@.len() - i,
        {
            let ghost before = *canvas;
            canvas.put(x + i + area.x as usize, y + area.y as usize, s[i], style);
            proof {
                assert forall|cx: int|
                    area.x + x <= cx < area.x + x + i + 1 && area.contains(cx, area.y + y)
                        && canvas.on_grid(cx, area.y + y) implies #[trigger] canvas.spec_cell(
                    cx,
                    area.y + y,
                ) == (Cell {
                    symbol: Some(s@.take(i + 1)[cx - area.x - x]),
                    style: match style {
                        Some(st) => Some(st),
                        None => old(canvas).spec_cell(cx, area.y + y).style,
                    },
                }) by {
                    if cx < area.x + x + i {
                        assert(before.spec_cell(cx, area.y + y) == canvas.spec_cell(cx, area.y + y));
                    }
                }
            }
            i = i + 1;
        }
        proof {
            assert forall|cx: int|
                area.x + x <= cx < area.x + x + s@.len() && area.contains(cx, area.y + y)
                    && canvas.on_grid(cx, area.y + y) implies #[trigger] canvas.spec_cell(
                cx,
                area.y + y,
            ) == (Cell {
                symbol: Some(s@[cx - area.x - x]),
                style: match style {
                    Some(st) => Some(st),
                    None => old(canvas).spec_cell(cx, area.y + y).style,
                },
            }) by {
                assert(s@.take(i as int)[cx - area.x - x] == s@[cx - area.x - x]);
            }
        }
    }
}

/// `length` copies of `ch`.
pub open spec fn repeated(ch: char, length: int) -> Seq<char> {
    Seq::new(length as nat, |i: int| ch)
}

/// Draws a line of `length` copies of `ch` from column `x` of row `y`.
pub fn hline(canvas: &mut Canvas, area: Area, y: usize, x: usize, ch: char, length: usize)
    requires
        old(canvas).wf(),
    ensures
        changed_only(old(canvas), final(canvas), area, y as int, x as int, x + length),
        shows(old(canvas), final(canvas), area, y as int, x as int, repeated(ch, length as int), None),
{
    let mut s: Vec<char> = Vec::new();
    let mut i: usize = 0;
    while i < length
        invariant
            i <= length,
            s@ == repeated(ch, i as int),
        decreases length - i,
    {
        s.push(ch);
        i = i + 1;
        assert(s@ =~= repeated(ch, i as int));
    }
    mvprint(canvas, area, y, x, &s, None);
}


/// Whether `new` differs from `old` at most in the rows of `area` from its
/// row `y0` down.
pub open spec fn changed_from_row(old: &Canvas, new: &Canvas, area: Area, y0: int) -> bool {
    &&& new.wf()
    &&& new.spec_width() == old.spec_width()
    &&& new.spec_height() == old.spec_height()
    &&& forall|cx: int, cy: int|
        #![trigger new.spec_cell(cx, cy)]
        new.on_grid(cx, cy) && !(area.contains(cx, cy) && cy >= area.y + y0) ==> new.spec_cell(
            cx,
            cy,
        ) == old.spec_cell(cx, cy)
}

/// What a drawing shows survives a later drawing into another part of the
/// grid: another row, or columns wholly to its left or right.
pub proof fn lemma_shows_kept(
    first: &Canvas,
    mid: &Canvas,
    new: &Canvas,
    area: Area,
    y: int,
    x: int,
    s: Seq<char>,
    style: Option<CellStyle>,
    y2: int,
    x0: int,
    x1: int,
)
    requires
        shows(first, mid, area, y, x, s, style),
        changed_only(mid, new, area, y2, x0, x1),
        y2 != y || x1 <= x || x + s.len() <= x0,
    ensures
        shows(first, new, area, y, x, s, style),
{
    assert forall|cx: int|
        #![trigger new.spec_cell(cx, area.y + y)]
        area.x + x <= cx < area.x + x + s.len() && area.contains(cx, area.y + y) && new.on_grid(
            cx,
            area.y + y,
        ) implies new.spec_cell(cx, area.y + y) == mid.spec_cell(cx, area.y + y) by {}
}

} // verus!
