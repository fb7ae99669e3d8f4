//! The viewer's state machine: which overlay is open, and what each key does
//! to it and to the week window.
use crate::calendar::{rendered, Calendar};
use crate::canvas::{Area, Canvas};
use crate::date::Date;
use crate::jumpto::{input_handled, JumpToInput, JumpToOutput, JumpToState};
use crate::week::DateStyler;
use crate::window::{
    jumped_to, scrolled_page_backwards, scrolled_page_forwards, scrolled_week_backwards,
    scrolled_week_forwards, OutOfTimeError, WeekWindow,
};
use vstd::prelude::*;

verus! {

/// A key the viewer reacts to; every other key is `Other`.
#[derive(Clone, Copy, Debug, PartialEq, Eq, Structural)]
pub enum Key {
    Char(char),
    Up,
    Down,
    PageUp,
    PageDown,
    Home,
    Esc,
    Backspace,
    Delete,
    Enter,
    Other,
}

/// Modifier keys held with a key: Shift, Control, and any other.
#[derive(Clone, Copy, Debug, PartialEq, Eq, Structural)]
pub struct Modifiers {
    pub shift: bool,
    pub control: bool,
    pub other: bool,
}

/// What the viewer shows on top of the calendar, or that it is quitting.
#[derive(Clone, Copy, Debug, PartialEq, Eq)]
pub enum AppState {
    Calendar,
    Helping,
    Jumping(JumpToState),
    Quitting,
}

/// The key that a key of the jump input stands for, if any.
pub open spec fn key_input(key: Key) -> Option<JumpToInput> {
    match key {
        Key::Char(c) => if c == '-' {
            Some(JumpToInput::Negative)
        } else if c == '+' {
            Some(JumpToInput::Positive)
        } else if '0' <= c <= '9' {
            Some(JumpToInput::Digit((c as u32 - '0' as u32) as u8))
        } else {
            None
        },
        Key::Backspace | Key::Delete => Some(JumpToInput::Backspace),
        Key::Enter => Some(JumpToInput::Enter),
        _ => None,
    }
}

/// The scroll result that `ok` stands for.
pub open spec fn outcome(ok: bool) -> Result<(), OutOfTimeError> {
    if ok {
        Ok(())
    } else {
        Err(OutOfTimeError)
    }
}

/// Whether the viewer `old` that took `key` became `new` and answered `r`
/// (`false` asks for a bell), as `handle_key` does it.
pub open spec fn key_handled<S: DateStyler>(old: &App<S>, new: &App<S>, key: Key, r: bool) -> bool {
    let (w0, w1) = (old.spec_window(), new.spec_window());
    let unchanged = w1 == w0 && new.spec_state() == old.spec_state();
    &&& new.wf()
    &&& match old.spec_state() {
        AppState::Calendar => if key == Key::Char('j') || key == Key::Down {
            new.spec_state() == AppState::Calendar && scrolled_week_forwards(&w0, &w1, outcome(r))
        } else if key == Key::Char('k') || key == Key::Up {
            new.spec_state() == AppState::Calendar && scrolled_week_backwards(&w0, &w1, outcome(r))
        } else if key == Key::Char('z') || key == Key::PageDown {
            new.spec_state() == AppState::Calendar && scrolled_page_forwards(&w0, &w1, outcome(r))
        } else if key == Key::Char('w') || key == Key::PageUp {
            new.spec_state() == AppState::Calendar && scrolled_page_backwards(&w0, &w1, outcome(r))
        } else if key == Key::Char('0') || key == Key::Home {
            r && new.spec_state() == AppState::Calendar && jumped_to(&w0, &w1, w0.spec_today())
        } else if key == Key::Char('g') {
            &&& r
            &&& w1 == w0
            &&& new.spec_state() matches AppState::Jumping(js)
            &&& js.spec_pos() == 0
            &&& !js.spec_negative()
        } else if key == Key::Char('q') || key == Key::Esc {
            r && w1 == w0 && new.spec_state() == AppState::Quitting
        } else if key == Key::Char('?') {
            r && w1 == w0 && new.spec_state() == AppState::Helping
        } else {
            !r && unchanged
        },
        AppState::Helping => r && w1 == w0 && new.spec_state() == AppState::Calendar,
        AppState::Jumping(js) => if key == Key::Char('q') || key == Key::Char('g') || key
            == Key::Esc {
            r && w1 == w0 && new.spec_state() == AppState::Calendar
        } else {
            match key_input(key) {
                None => !r && unchanged,
                Some(input) => match new.spec_state() {
                    AppState::Jumping(js2) => if r {
                        w1 == w0 && input_handled(js, js2, input, JumpToOutput::Accepted)
                    } else {
                        unchanged && input_handled(js, js, input, JumpToOutput::Invalid)
                    },
                    AppState::Calendar => r && exists|d: Date|
                        #[trigger] input_handled(js, js, input, JumpToOutput::Jump(d)) && jumped_to(
                            &w0,
                            &w1,
                            d,
                        ),
                    _ => false,
                },
            }
        },
        AppState::Quitting => !r && unchanged,
    }
}

/// The viewer: a week window and the overlay shown on it.
pub struct App<S> {
    weeks: WeekWindow<S>,
    state: AppState,
}

impl<S: DateStyler> App<S> {
    pub closed spec fn spec_window(&self) -> WeekWindow<S> {
        self.weeks
    }

    pub closed spec fn spec_state(&self) -> AppState {
        self.state
    }

    /// The window is well formed, and so is an open jump input.
    pub open spec fn wf(&self) -> bool {
        &&& self.spec_window().wf()
        &&& self.spec_state() matches AppState::Jumping(js) ==> js.wf()
    }

    /// A viewer of `weeks` with no overlay open.
    pub fn new(weeks: WeekWindow<S>) -> (r: App<S>)
        requires
            weeks.wf(),
        ensures
            r.wf(),
            r.spec_window() == weeks,
            r.spec_state() == AppState::Calendar,
    {
        App { weeks, state: AppState::Calendar }
    }

    pub fn state(&self) -> (r: AppState)
        ensures
            r == self.spec_state(),
    {
        self.state
    }

    pub fn weeks(&self) -> (r: &WeekWindow<S>)
        ensures
            *r == self.spec_window(),
    {
        &self.weeks
    }

    /// Whether the viewer is quitting.
    pub fn quitting(&self) -> (r: bool)
        ensures
            r == (self.spec_state() == AppState::Quitting),
    {
        matches!(self.state, AppState::Quitting)
    }

    /// Takes one key and says whether it was valid: `false` asks for a bell.
    /// On the calendar, `j`/Down and `k`/Up scroll a week, `z`/PageDown and
    /// `w`/PageUp a page, `0`/Home jump to today, `g` opens the jump input,
    /// `q`/Esc quit and `?` opens the help. Any key closes the help. In the
    /// jump input, `q`, `g` and Esc close it, and the sign, digit, Backspace,
    /// Delete and Enter keys go to it; a date entered closes it and jumps
    /// there.
    pub fn handle_key(&mut self, key: Key) -> (r: bool)
        requires
            old(self).wf(),
        ensures
            key_handled(old(self), final(self), key, r),
    {
        match self.state {
            AppState::Calendar => {
                if key == Key::Char('j') || key == Key::Down {
                    self.weeks.one_week_forwards().is_ok()
                } else if key == Key::Char('k') || key == Key::Up {
                    self.weeks.one_week_backwards().is_ok()
                } else if key == Key::Char('z') || key == Key::PageDown {
                    self.weeks.one_page_forwards().is_ok()
                } else if key == Key::Char('w') || key == Key::PageUp {
                    self.weeks.one_page_backwards().is_ok()
                } else if key == Key::Char('0') || key == Key::Home {
                    self.weeks.jump_to_today();
                    true
                } else if key == Key::Char('g') {
                    self.state = AppState::Jumping(JumpToState::new());
                    true
                } else if key == Key::Char('q') || key == Key::Esc {
                    self.state = AppState::Quitting;
                    true
                } else if key == Key::Char('?') {
                    self.state = AppState::Helping;
                    true
                } else {
                    false
                }
            },
            AppState::Helping => {
                self.state = AppState::Calendar;
                true
            },
            AppState::Jumping(js) => {
                if key == Key::Char('q') || key == Key::Char('g') || key == Key::Esc {
                    self.state = AppState::Calendar;
                    true
                } else {
                    match jump_input(key) {
                        None => false,
                        Some(input) => {
                            let mut state = js;
                            let output = state.handle_input(input);
                            match output {
                                JumpToOutput::Accepted => {
                                    self.state = AppState::Jumping(state);
                                    true
                                },
                                JumpToOutput::Invalid => false,
                                JumpToOutput::Jump(date) => {
                                    self.state = AppState::Calendar;
                                    self.weeks.jump_to_date(date);
                                    true
                                },
                            }
                        },
                    }
                }
            },
            AppState::Quitting => false,
        }
    }

    /// Takes one key pressed with `modifiers` and says whether it was valid.
    /// Control-C quits; a key held with Control or another modifier but
    /// Shift is invalid and changes nothing; any other goes to `handle_key`.
    pub fn handle_key_event(&mut self, key: Key, modifiers: Modifiers) -> (r: bool)
        requires
            old(self).wf(),
        ensures
            if modifiers == (Modifiers { shift: false, control: true, other: false }) && key
                == Key::Char('c') {
                r && final(self).spec_state() == AppState::Quitting && final(self).spec_window()
                    == old(self).spec_window()
            } else if modifiers.control || modifiers.other {
                &&& !r
                &&& final(self).spec_state() == old(self).spec_state()
                &&& final(self).spec_window() == old(self).spec_window()
            } else {
                key_handled(old(self), final(self), key, r)
            },
            final(self).wf(),
    {
        if modifiers == (Modifiers { shift: false, control: true, other: false }) && key == Key::Char('c') {
            self.state = AppState::Quitting;
            true
        } else if modifiers.control || modifiers.other {
            false
        } else {
            self.handle_key(key)
        }
    }

    /// Renders the calendar of the viewer's window in `area` of `canvas`.
    pub fn render_calendar(&mut self, area: Area, canvas: &mut Canvas)
        requires
            old(self).wf(),
            old(canvas).wf(),
        ensures
            final(self).wf(),
            final(self).spec_state() == old(self).spec_state(),
            rendered(old(canvas), final(canvas), area, &old(self).spec_window(), &final(self).spec_window()),
    {
        Calendar::<S>::new().render(area, canvas, &mut self.weeks);
    }
}

/// The key of the jump input that `key` stands for, if any.
pub fn jump_input(key: Key) -> (r: Option<JumpToInput>)
    ensures
        r == key_input(key),
{
    match key {
        Key::Char(c) => {
            if c == '-' {
                Some(JumpToInput::Negative)
            } else if c == '+' {
                Some(JumpToInput::Positive)
            } else if '0' <= c && c <= '9' {
                Some(JumpToInput::Digit((c as u32 - '0' as u32) as u8))
            } else {
                None
            }
        },
        Key::Backspace | Key::Delete => Some(JumpToInput::Backspace),
        Key::Enter => Some(JumpToInput::Enter),
        _ => None,
    }
}

} // verus!
