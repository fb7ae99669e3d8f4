//! The state of the "jump to date" input: a sign and eight digit slots,
//! filled left to right as year, month and day.
use crate::date::{day_of, in_range, month_of, year_of, Date};
use crate::week::{digit, digit_char};
use vstd::prelude::*;

verus! {

/// Position of the cursor once every digit slot is filled.
pub const ENTER_POS: usize = 8;

/// A key given to the input.
#[derive(Clone, Copy, Debug, PartialEq, Eq, Structural)]
pub enum JumpToInput {
    Negative,
    Positive,
    Digit(u8),
    Backspace,
    Enter,
}

/// What the input did with a key.
#[derive(Clone, Copy, Debug, PartialEq, Eq, Structural)]
pub enum JumpToOutput {
    /// The key was taken.
    Accepted,
    /// The key does not apply here, or the date entered does not exist.
    Invalid,
    /// The date entered, to jump to.
    Jump(Date),
}

/// How a cell of the input's line is styled.
#[derive(Clone, Copy, Debug, PartialEq, Eq, Structural)]
pub enum JumpCellStyle {
    Base,
    Unfilled,
}

/// Value of the decimal digits `ds`, most significant first.
pub open spec fn digits_value(ds: Seq<Option<u8>>) -> int
    decreases ds.len(),
{
    if ds.len() == 0 {
        0
    } else {
        digits_value(ds.drop_last()) * 10 + match ds.last() {
            Some(d) => d as int,
            None => 0,
        }
    }
}

/// The cell of a digit slot: its digit, or the letter of its field where it is
/// empty.
pub open spec fn slot_cell(slot: Option<u8>, fallback: char) -> (char, JumpCellStyle) {
    match slot {
        Some(d) => (digit_char(d as int), JumpCellStyle::Base),
        None => (fallback, JumpCellStyle::Unfilled),
    }
}

/// Whether a state `before` that took key `input` became `after` and gave
/// `r`, as `handle_input` does it.
pub open spec fn input_handled(before: JumpToState, after: JumpToState, input: JumpToInput, r: JumpToOutput) -> bool {
    &&& after.wf()
    &&& r is Accepted || after == before
    &&& {
        let p = before.spec_pos();
        match input {
            JumpToInput::Negative => if p == 0 {
                &&& r is Accepted
                &&& after.spec_negative() == !before.spec_negative()
                &&& after.spec_slots() == before.spec_slots()
                &&& after.spec_pos() == 0
            } else {
                r is Invalid
            },
            JumpToInput::Positive => if p == 0 {
                &&& r is Accepted
                &&& !after.spec_negative()
                &&& after.spec_slots() == before.spec_slots()
                &&& after.spec_pos() == 0
            } else {
                r is Invalid
            },
            JumpToInput::Digit(d) => if p < ENTER_POS {
                &&& r is Accepted
                &&& after.spec_negative() == before.spec_negative()
                &&& after.spec_pos() == p + 1
                &&& after.spec_slots() == before.spec_slots().update(p, Some(d))
            } else {
                r is Invalid
            },
            JumpToInput::Backspace => if p >= 1 {
                &&& r is Accepted
                &&& after.spec_negative() == before.spec_negative()
                &&& after.spec_pos() == p - 1
                &&& after.spec_slots() == before.spec_slots().update(p - 1, None)
            } else {
                r is Invalid
            },
            JumpToInput::Enter => if p == ENTER_POS {
                match r {
                    JumpToOutput::Jump(date) => year_of(date@) == before.spec_year()
                        && month_of(date@) == before.spec_month() && day_of(date@)
                        == before.spec_day(),
                    JumpToOutput::Invalid => forall|jd: int|
                        in_range(jd) ==> !(year_of(jd) == before.spec_year() && month_of(jd)
                            == before.spec_month() && day_of(jd) == before.spec_day()),
                    JumpToOutput::Accepted => false,
                }
            } else {
                r is Invalid
            },
        }

    }
}

/// State of the input: the sign, the year's four digit slots, the month's
/// two and the day's two, and the cursor, which is the number of slots
/// filled.
#[derive(Clone, Copy, Debug, PartialEq, Eq)]
pub struct JumpToState {
    negative: bool,
    year: [Option<u8>; 4],
    month: [Option<u8>; 2],
    day: [Option<u8>; 2],
    pos: usize,
}

impl JumpToState {
    /// Whether the year is negative.
    pub closed spec fn spec_negative(&self) -> bool {
        self.negative
    }

    /// The number of slots filled.
    pub closed spec fn spec_pos(&self) -> int {
        self.pos as int
    }

    /// The eight digit slots, year first.
    pub closed spec fn spec_slots(&self) -> Seq<Option<u8>> {
        self.year@ + self.month@ + self.day@
    }

    /// The slots before the cursor hold decimal digits, and the others are
    /// empty.
    pub open spec fn wf(&self) -> bool {
        &&& 0 <= self.spec_pos() <= ENTER_POS
        &&& self.spec_slots().len() == 8
        &&& forall|i: int|
            0 <= i < 8 ==> (#[trigger] self.spec_slots()[i] matches Some(d) ==> d <= 9) && (
            self.spec_slots()[i] is Some <==> i < self.spec_pos())
    }

    /// The year that the slots spell, with its sign.
    pub open spec fn spec_year(&self) -> int {
        let v = digits_value(self.spec_slots().take(4));
        if self.spec_negative() {
            -v
        } else {
            v
        }
    }

    /// The month that the slots spell.
    pub open spec fn spec_month(&self) -> int {
        digits_value(self.spec_slots().subrange(4, 6))
    }

    /// The day that the slots spell.
    pub open spec fn spec_day(&self) -> int {
        digits_value(self.spec_slots().subrange(6, 8))
    }

    /// An empty input, with a positive sign.
    pub fn new() -> (r: JumpToState)
        ensures
            r.wf(),
            !r.spec_negative(),
            r.spec_pos() == 0,
    {
        let r = JumpToState { negative: false, year: [None; 4], month: [None; 2], day: [None; 2], pos: 0 };
        assert(r.spec_slots() =~= seq![None, None, None, None, None, None, None, None]);
        r
    }

    /// Whether every slot is filled, so that Enter may be pressed.
    pub fn ready(&self) -> (r: bool)
        ensures
            r == (self.spec_pos() == ENTER_POS),
    {
        self.pos == ENTER_POS
    }

    fn set_slot(&mut self, i: usize, slot: Option<u8>)
        requires
            i < 8,
        ensures
            final(self).spec_slots() == old(self).spec_slots().update(i as int, slot),
            final(self).spec_negative() == old(self).spec_negative(),
            final(self).spec_pos() == old(self).spec_pos(),
    {
        if i < 4 {
            self.year[i] = slot;
        } else if i < 6 {
            self.month[i - 4] = slot;
        } else {
            self.day[i - 6] = slot;
        }
        assert(self.spec_slots() =~= old(self).spec_slots().update(i as int, slot));
    }

    fn value(slots: &[Option<u8>]) -> (r: u32)
        requires
            slots@.len() <= 4,
            forall|i: int| 0 <= i < slots@.len() ==> (#[trigger] slots@[i] matches Some(d) ==> d <= 9),
        ensures
            r == digits_value(slots@),
            r < 10000,
            slots@.len() <= 2 ==> r < 100,
    {
        let mut v: u32 = 0;
        let mut i: usize = 0;
        while i < slots.len()
            invariant
                i <= slots@.len(),
                slots@.len() <= 4,
                forall|k: int| 0 <= k < slots@.len() ==> (#[trigger] slots@[k] matches Some(d) ==> d <= 9),
                v == digits_value(slots@.take(i as int)),
                v < 10000,
                i == 0 ==> v == 0,
                i == 1 ==> v < 10,
                i == 2 ==> v < 100,
                i == 3 ==> v < 1000,
            decreases slots@.len() - i,
        {
            let d: u32 = match slots[i] {
                Some(d) => d as u32,
                None => 0,
            };
            assert(slots@.take(i + 1).drop_last() =~= slots@.take(i as int));
            v = v * 10 + d;
            i = i + 1;
        }
        assert(slots@.take(i as int) =~= slots@);
        v
    }

    /// Takes one key. A sign key sets the sign while no digit is entered; a
    /// digit fills the next slot; Backspace empties the last filled slot;
    /// Enter, once all slots are filled, gives the date they spell, or
    /// `Invalid` where no such date exists. Any other key is `Invalid`. The
    /// state changes only where the result is `Accepted`.
    pub fn handle_input(&mut self, input: JumpToInput) -> (r: JumpToOutput)
        requires
            old(self).wf(),
            input matches JumpToInput::Digit(d) ==> d <= 9,
        ensures
            input_handled(*old(self), *final(self), input, r),
    {
        let ghost slots = self.spec_slots();
        match input {
            JumpToInput::Negative => {
                if self.pos == 0 {
                    self.negative = !self.negative;
                    JumpToOutput::Accepted
                } else {
                    JumpToOutput::Invalid
                }
            },
            JumpToInput::Positive => {
                if self.pos == 0 {
                    self.negative = false;
                    JumpToOutput::Accepted
                } else {
                    JumpToOutput::Invalid
                }
            },
            JumpToInput::Digit(d) => {
                if self.pos < ENTER_POS {
                    let p = self.pos;
                    self.set_slot(p, Some(d));
                    self.pos = p + 1;
                    JumpToOutput::Accepted
                } else {
                    JumpToOutput::Invalid
                }
            },
            JumpToInput::Backspace => {
                if self.pos >= 1 {
                    let p = self.pos - 1;
                    self.set_slot(p, None);
                    self.pos = p;
                    JumpToOutput::Accepted
                } else {
                    JumpToOutput::Invalid
                }
            },
            JumpToInput::Enter => {
                if self.pos == ENTER_POS {
                    assert(self.year@ =~= slots.take(4));
                    assert(self.month@ =~= slots.subrange(4, 6));
                    assert(self.day@ =~= slots.subrange(6, 8));
                    let magnitude = Self::value(self.year.as_slice());
                    let year: i32 = if self.negative {
                        -(magnitude as i32)
                    } else {
                        magnitude as i32
                    };
                    let month = Self::value(self.month.as_slice());
                    let day = Self::value(self.day.as_slice());
                    match Date::from_calendar_date(year, month as u8, day as u8) {
                        Some(date) => JumpToOutput::Jump(date),
                        None => JumpToOutput::Invalid,
                    }
                } else {
                    JumpToOutput::Invalid
                }
            },
        }
    }

    /// The cells of the input's line: the sign, then the year, month and day
    /// slots separated by dashes, each empty slot showing the letter of its
    /// field.
    pub fn to_line(&self) -> (r: Vec<(char, JumpCellStyle)>)
        ensures
            r@ == seq![(if self.spec_negative() { '-' } else { ' ' }, JumpCellStyle::Base)]
                + Seq::new(4, |i: int| slot_cell(self.spec_slots()[i], 'Y'))
                + seq![('-', JumpCellStyle::Base)]
                + Seq::new(2, |i: int| slot_cell(self.spec_slots()[4 + i], 'M'))
                + seq![('-', JumpCellStyle::Base)]
                + Seq::new(2, |i: int| slot_cell(self.spec_slots()[6 + i], 'D')),
    {
        let mut r: Vec<(char, JumpCellStyle)> = Vec::new();
        r.push((if self.negative { '-' } else { ' ' }, JumpCellStyle::Base));
        let ghost r0 = r@;
        Self::push_cells(&mut r, self.year.as_slice(), 'Y');
        r.push(('-', JumpCellStyle::Base));
        Self::push_cells(&mut r, self.month.as_slice(), 'M');
        r.push(('-', JumpCellStyle::Base));
        Self::push_cells(&mut r, self.day.as_slice(), 'D');
        assert(r@ =~= seq![(if self.spec_negative() { '-' } else { ' ' }, JumpCellStyle::Base)]
                + Seq::new(4, |i: int| slot_cell(self.spec_slots()[i], 'Y'))
                + seq![('-', JumpCellStyle::Base)]
                + Seq::new(2, |i: int| slot_cell(self.spec_slots()[4 + i], 'M'))
                + seq![('-', JumpCellStyle::Base)]
                + Seq::new(2, |i: int| slot_cell(self.spec_slots()[6 + i], 'D')));
        r
    }

    fn push_cells(out: &mut Vec<(char, JumpCellStyle)>, slots: &[Option<u8>], fallback: char)
        ensures
            final(out)@ == old(out)@ + Seq::new(slots@.len(), |i: int| slot_cell(slots@[i], fallback)),
    {
        let mut i: usize = 0;
        while i < slots.len()
            invariant
                i <= slots@.len(),
                out@ == old(out)@ + Seq::new(i as nat, |k: int| slot_cell(slots@[k], fallback)),
            decreases slots@.len() - i,
        {
            let cell = match slots[i] {
                Some(d) => (if d <= 9 { digit(d) } else { '9' }, JumpCellStyle::Base),
                None => (fallback, JumpCellStyle::Unfilled),
            };
            out.push(cell);
            i = i + 1;
            assert(out@ =~= old(out)@ + Seq::new(i as nat, |k: int| slot_cell(slots@[k], fallback)));
        }
    }
}

} // verus!
