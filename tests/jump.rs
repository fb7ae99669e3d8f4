use nhmoon::date::Date;
use nhmoon::jumpto::{JumpCellStyle, JumpToInput, JumpToOutput, JumpToState};

fn type_digits(state: &mut JumpToState, digits: &[u8]) {
    for &d in digits {
        assert_eq!(state.handle_input(JumpToInput::Digit(d)), JumpToOutput::Accepted);
    }
}

#[test]
fn entering_a_valid_date_jumps_to_it() {
    let mut state = JumpToState::new();
    type_digits(&mut state, &[2, 0, 2, 5, 0, 1, 2, 2]);
    assert!(state.ready());
    assert_eq!(
        state.handle_input(JumpToInput::Enter),
        JumpToOutput::Jump(Date::from_calendar_date(2025, 1, 22).unwrap())
    );
}

#[test]
fn the_day_comes_from_the_day_digits() {
    let mut state = JumpToState::new();
    type_digits(&mut state, &[2, 0, 2, 5, 0, 3, 1, 5]);
    assert_eq!(
        state.handle_input(JumpToInput::Enter),
        JumpToOutput::Jump(Date::from_calendar_date(2025, 3, 15).unwrap())
    );
}

#[test]
fn invalid_dates_are_rejected_without_change() {
    let mut state = JumpToState::new();
    type_digits(&mut state, &[2, 0, 2, 5, 1, 3, 0, 1]);
    let before = state;
    assert_eq!(state.handle_input(JumpToInput::Enter), JumpToOutput::Invalid);
    assert_eq!(state, before);
    let mut state = JumpToState::new();
    type_digits(&mut state, &[2, 0, 2, 3, 0, 2, 2, 9]);
    assert_eq!(state.handle_input(JumpToInput::Enter), JumpToOutput::Invalid);
}

#[test]
fn enter_before_all_fields_is_invalid() {
    let mut state = JumpToState::new();
    type_digits(&mut state, &[2, 0, 2]);
    assert_eq!(state.handle_input(JumpToInput::Enter), JumpToOutput::Invalid);
    type_digits(&mut state, &[5, 0, 1, 2, 2]);
    assert_eq!(state.handle_input(JumpToInput::Digit(1)), JumpToOutput::Invalid);
}

#[test]
fn sign_and_backspace() {
    let mut state = JumpToState::new();
    assert_eq!(state.handle_input(JumpToInput::Backspace), JumpToOutput::Invalid);
    assert_eq!(state.handle_input(JumpToInput::Negative), JumpToOutput::Accepted);
    assert_eq!(state.to_line()[0], ('-', JumpCellStyle::Base));
    assert_eq!(state.handle_input(JumpToInput::Negative), JumpToOutput::Accepted);
    assert_eq!(state.to_line()[0], (' ', JumpCellStyle::Base));
    assert_eq!(state.handle_input(JumpToInput::Negative), JumpToOutput::Accepted);
    type_digits(&mut state, &[0, 0, 4, 4]);
    assert_eq!(state.handle_input(JumpToInput::Positive), JumpToOutput::Invalid);
    type_digits(&mut state, &[0, 3, 1, 6]);
    assert_eq!(state.handle_input(JumpToInput::Backspace), JumpToOutput::Accepted);
    assert!(!state.ready());
    type_digits(&mut state, &[5]);
    assert_eq!(
        state.handle_input(JumpToInput::Enter),
        JumpToOutput::Jump(Date::from_calendar_date(-44, 3, 15).unwrap())
    );
}

#[test]
fn line_shows_digits_and_placeholders() {
    let mut state = JumpToState::new();
    type_digits(&mut state, &[1, 9, 6, 9, 0]);
    let line: String = state.to_line().iter().map(|c| c.0).collect();
    assert_eq!(line, " 1969-0M-DD");
    assert_eq!(state.to_line()[6], ('0', JumpCellStyle::Base));
    assert_eq!(state.to_line()[7], ('M', JumpCellStyle::Unfilled));
}
