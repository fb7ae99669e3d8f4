use nhmoon::date::{Date, Weekday};
use nhmoon::moon::Phoon;
use nhmoon::viewer::{jump_input, App, AppState, Key, Modifiers};
use nhmoon::jumpto::JumpToInput;
use nhmoon::window::WeekWindow;

const PLAIN: Modifiers = Modifiers { shift: false, control: false, other: false };

fn app() -> App<Phoon> {
    let mut w = WeekWindow::new(Date::from_calendar_date(2025, 1, 22).unwrap(), Phoon);
    w.ensure_weeks(3);
    App::new(w)
}

fn first_sunday(app: &App<Phoon>) -> Date {
    app.weeks().weeks().unwrap().front().get(Weekday::Sunday).unwrap().date
}

fn date(y: i32, m: u8, d: u8) -> Date {
    Date::from_calendar_date(y, m, d).unwrap()
}

#[test]
fn scrolling_keys_move_the_window() {
    let mut app = app();
    assert_eq!(first_sunday(&app), date(2025, 1, 12));
    assert!(app.handle_key(Key::Char('j')));
    assert_eq!(first_sunday(&app), date(2025, 1, 19));
    assert!(app.handle_key(Key::Up));
    assert_eq!(first_sunday(&app), date(2025, 1, 12));
    assert!(app.handle_key(Key::PageDown));
    assert_eq!(first_sunday(&app), date(2025, 2, 2));
    assert!(app.handle_key(Key::Char('w')));
    assert_eq!(first_sunday(&app), date(2025, 1, 12));
    assert!(app.handle_key(Key::Char('k')));
    assert!(app.handle_key(Key::Home));
    assert_eq!(first_sunday(&app), date(2025, 1, 12));
    assert_eq!(app.state(), AppState::Calendar);
}

#[test]
fn unknown_keys_and_modifiers_ask_for_a_bell() {
    let mut app = app();
    assert!(!app.handle_key(Key::Char('x')));
    assert!(!app.handle_key(Key::Other));
    let alt = Modifiers { shift: false, control: false, other: true };
    assert!(!app.handle_key_event(Key::Char('j'), alt));
    assert_eq!(first_sunday(&app), date(2025, 1, 12));
    let shift = Modifiers { shift: true, control: false, other: false };
    assert!(app.handle_key_event(Key::Char('?'), shift));
    assert_eq!(app.state(), AppState::Helping);
}

#[test]
fn help_closes_on_any_key_and_q_quits() {
    let mut app = app();
    assert!(app.handle_key(Key::Char('?')));
    assert_eq!(app.state(), AppState::Helping);
    assert!(app.handle_key(Key::Char('x')));
    assert_eq!(app.state(), AppState::Calendar);
    assert!(!app.quitting());
    assert!(app.handle_key(Key::Esc));
    assert!(app.quitting());
    assert!(!app.handle_key(Key::Char('j')));
}

#[test]
fn control_c_quits() {
    let mut app = app();
    let ctrl = Modifiers { shift: false, control: true, other: false };
    assert!(!app.handle_key_event(Key::Char('j'), ctrl));
    assert!(!app.quitting());
    assert!(app.handle_key_event(Key::Char('c'), ctrl));
    assert!(app.quitting());
}

#[test]
fn jump_input_jumps_to_the_date_entered() {
    let mut app = app();
    assert!(app.handle_key_event(Key::Char('g'), PLAIN));
    assert!(matches!(app.state(), AppState::Jumping(_)));
    for c in "19690720".chars() {
        assert!(app.handle_key(Key::Char(c)));
    }
    assert!(!app.handle_key(Key::Char('5')));
    assert!(!app.handle_key(Key::Char('x')));
    assert!(app.handle_key(Key::Enter));
    assert_eq!(app.state(), AppState::Calendar);
    assert_eq!(first_sunday(&app), date(1969, 7, 13));
    assert_eq!(app.weeks().weeks().unwrap().len(), 3);
}

#[test]
fn jump_input_rejects_bad_dates_and_can_be_left() {
    let mut app = app();
    assert!(app.handle_key(Key::Char('g')));
    for c in "20251301".chars() {
        assert!(app.handle_key(Key::Char(c)));
    }
    assert!(!app.handle_key(Key::Enter));
    assert!(matches!(app.state(), AppState::Jumping(_)));
    assert!(app.handle_key(Key::Backspace));
    assert!(app.handle_key(Key::Delete));
    assert!(app.handle_key(Key::Char('q')));
    assert_eq!(app.state(), AppState::Calendar);
    assert_eq!(first_sunday(&app), date(2025, 1, 12));
}

#[test]
fn jump_keys_map_to_inputs() {
    assert_eq!(jump_input(Key::Char('7')), Some(JumpToInput::Digit(7)));
    assert_eq!(jump_input(Key::Char('-')), Some(JumpToInput::Negative));
    assert_eq!(jump_input(Key::Char('+')), Some(JumpToInput::Positive));
    assert_eq!(jump_input(Key::Delete), Some(JumpToInput::Backspace));
    assert_eq!(jump_input(Key::Enter), Some(JumpToInput::Enter));
    assert_eq!(jump_input(Key::Char('a')), None);
}
