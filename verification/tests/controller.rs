use home_office_tracker::controller::{decode, AppState, Command, Effect, InputMode, Key, KeyPress};
use home_office_tracker::date::CalendarDate;
use home_office_tracker::export::{export_lines, store_key};
use home_office_tracker::parse::ParseError;
use std::collections::BTreeSet;

fn date(year: i32, month: u32, day: u32) -> CalendarDate {
    CalendarDate::from_ymd(year, month, day).unwrap()
}

fn today() -> CalendarDate {
    date(2025, 6, 15)
}

fn lines(texts: &[&str]) -> Vec<String> {
    texts.iter().map(|t| t.to_string()).collect()
}

fn press(key: Key) -> KeyPress {
    KeyPress { key, control: false, pressed: true }
}

fn typed(state: &mut AppState, text: &str) {
    for c in text.chars() {
        assert_eq!(state.handle(Command::Character(c), today()), Effect::Nothing);
    }
}

fn clear(state: &mut AppState) {
    while state.input_box().as_ref().map(|text| !text.is_empty()).unwrap_or(false) {
        assert_eq!(state.handle(Command::Backspace, today()), Effect::Nothing);
    }
}

/// A store in memory, and the controller's effects carried out on it.
struct Session {
    store: BTreeSet<CalendarDateKey>,
    state: AppState,
}

type CalendarDateKey = (i32, u32, u32);

impl Session {
    fn new(stored: &[CalendarDate]) -> Session {
        let store: BTreeSet<CalendarDateKey> =
            stored.iter().map(|d| (d.year(), d.month(), d.day())).collect();
        let state = AppState::new(Session::export(&store));
        Session { store, state }
    }

    fn export(store: &BTreeSet<CalendarDateKey>) -> Vec<String> {
        let dates: Vec<CalendarDate> = store.iter().map(|k| date(k.0, k.1, k.2)).collect();
        export_lines(&dates)
    }

    fn send(&mut self, press: KeyPress) -> Effect {
        let command = decode(&press, self.state.is_editing());
        let effect = self.state.handle(command, today());
        match &effect {
            Effect::Add(dates) => {
                for d in dates {
                    self.store.insert((d.year(), d.month(), d.day()));
                }
                self.state.update(Session::export(&self.store));
            }
            Effect::Remove(dates) => {
                for d in dates {
                    self.store.remove(&(d.year(), d.month(), d.day()));
                }
                self.state.update(Session::export(&self.store));
            }
            _ => {}
        }
        effect
    }

    fn send_text(&mut self, text: &str) {
        for c in text.chars() {
            assert_eq!(self.send(press(Key::Char(c))), Effect::Nothing);
        }
    }
}

#[test]
fn a_new_state_selects_the_first_line() {
    let state = AppState::new(lines(&["2025-01-01", "2025-01-03"]));
    assert_eq!(state.dates(), &lines(&["2025-01-01", "2025-01-03"]));
    assert_eq!(state.selected_index(), 0);
    assert_eq!(state.input_box(), &None);
    assert_eq!(state.input_mode(), InputMode::Add);
    assert!(!state.is_editing());
}

#[test]
fn the_selection_stays_on_the_lines() {
    let mut state = AppState::new(lines(&["a", "b", "c"]));
    assert_eq!(state.handle(Command::SelectPrevious, today()), Effect::Nothing);
    assert_eq!(state.selected_index(), 0);
    assert_eq!(state.handle(Command::SelectNext, today()), Effect::Nothing);
    assert_eq!(state.selected_index(), 1);
    assert_eq!(state.handle(Command::SelectNext, today()), Effect::Nothing);
    assert_eq!(state.selected_index(), 2);
    assert_eq!(state.handle(Command::SelectNext, today()), Effect::Nothing);
    assert_eq!(state.selected_index(), 2);
    assert_eq!(state.handle(Command::SelectPrevious, today()), Effect::Nothing);
    assert_eq!(state.selected_index(), 1);
    state.move_selection_down();
    state.move_selection_down();
    assert_eq!(state.selected_index(), 2);
    state.move_selection_up();
    state.move_selection_up();
    state.move_selection_up();
    assert_eq!(state.selected_index(), 0);
}

#[test]
fn the_selection_does_not_move_without_lines() {
    let mut state = AppState::new(Vec::new());
    assert_eq!(state.handle(Command::SelectNext, today()), Effect::Nothing);
    assert_eq!(state.selected_index(), 0);
    assert_eq!(state.handle(Command::SelectPrevious, today()), Effect::Nothing);
    assert_eq!(state.selected_index(), 0);
}

#[test]
fn begin_remove_without_lines_does_nothing() {
    let mut state = AppState::new(Vec::new());
    assert_eq!(state.handle(Command::BeginRemove, today()), Effect::Nothing);
    assert!(!state.is_editing());
    assert_eq!(state.input_box(), &None);
    assert_eq!(state.input_mode(), InputMode::Add);
    assert_eq!(state.selected_index(), 0);
}

#[test]
fn begin_remove_starts_from_the_selected_line() {
    let mut state = AppState::new(lines(&["2025-01-01", "2025-01-03 :: 2025-01-05"]));
    state.move_selection_down();
    assert_eq!(state.handle(Command::BeginRemove, today()), Effect::Nothing);
    assert!(state.is_editing());
    assert_eq!(state.input_mode(), InputMode::Remove);
    assert_eq!(state.input_box(), &Some("2025-01-03 :: 2025-01-05".to_string()));
}

#[test]
fn begin_add_starts_from_today() {
    let mut state = AppState::new(lines(&["2025-01-01"]));
    assert_eq!(state.handle(Command::BeginAdd, today()), Effect::Nothing);
    assert!(state.is_editing());
    assert_eq!(state.input_mode(), InputMode::Add);
    assert_eq!(state.input_box(), &Some("2025-06-15".to_string()));
}

#[test]
fn start_input_to_remove_without_lines_starts_empty() {
    let mut state = AppState::new(Vec::new());
    state.start_input(InputMode::Remove, today());
    assert_eq!(state.input_box(), &Some(String::new()));
    assert_eq!(state.input_mode(), InputMode::Remove);
}

#[test]
fn characters_are_appended_and_backspace_removes_the_last() {
    let mut state = AppState::new(Vec::new());
    state.handle(Command::BeginAdd, today());
    clear(&mut state);
    assert_eq!(state.input_box(), &Some(String::new()));
    assert_eq!(state.handle(Command::Backspace, today()), Effect::Nothing);
    assert_eq!(state.input_box(), &Some(String::new()));
    typed(&mut state, "2025-01-0ä");
    assert_eq!(state.input_box(), &Some("2025-01-0ä".to_string()));
    assert_eq!(state.handle(Command::Backspace, today()), Effect::Nothing);
    assert_eq!(state.input_box(), &Some("2025-01-0".to_string()));
    typed(&mut state, "7");
    assert_eq!(state.input_box(), &Some("2025-01-07".to_string()));
}

#[test]
fn cancel_ends_typing_and_asks_nothing_of_the_store() {
    let mut state = AppState::new(lines(&["2025-01-01", "2025-01-03"]));
    state.move_selection_down();
    state.handle(Command::BeginRemove, today());
    typed(&mut state, "x");
    assert_eq!(state.handle(Command::Cancel, today()), Effect::Nothing);
    assert!(!state.is_editing());
    assert_eq!(state.dates(), &lines(&["2025-01-01", "2025-01-03"]));
    assert_eq!(state.selected_index(), 1);
}

#[test]
fn confirming_a_blank_text_keeps_typing() {
    let mut state = AppState::new(Vec::new());
    state.handle(Command::BeginAdd, today());
    clear(&mut state);
    assert_eq!(state.handle(Command::Confirm, today()), Effect::Nothing);
    assert_eq!(state.input_box(), &Some(String::new()));
    typed(&mut state, " \t ");
    assert_eq!(state.handle(Command::Confirm, today()), Effect::Nothing);
    assert_eq!(state.input_box(), &Some(" \t ".to_string()));
    assert!(state.is_editing());
}

#[test]
fn confirming_asks_to_add_or_remove_the_dates_typed() {
    let mut state = AppState::new(lines(&["2025-01-01 :: 2025-01-02"]));
    state.handle(Command::BeginAdd, today());
    assert_eq!(state.handle(Command::Confirm, today()), Effect::Add(vec![today()]));
    assert!(!state.is_editing());

    state.handle(Command::BeginRemove, today());
    assert_eq!(
        state.handle(Command::Confirm, today()),
        Effect::Remove(vec![date(2025, 1, 1), date(2025, 1, 2)])
    );
    assert!(!state.is_editing());
}

#[test]
fn a_malformed_text_is_rejected_and_the_session_goes_on() {
    let mut state = AppState::new(lines(&["2025-01-01"]));
    state.handle(Command::BeginAdd, today());
    typed(&mut state, "x");
    assert_eq!(state.handle(Command::Confirm, today()), Effect::Reject(ParseError::InvalidDate));
    assert!(!state.is_editing());
    assert_eq!(state.dates(), &lines(&["2025-01-01"]));

    state.handle(Command::BeginAdd, today());
    clear(&mut state);
    typed(&mut state, "a::b::c");
    assert_eq!(state.handle(Command::Confirm, today()), Effect::Reject(ParseError::InvalidRange));

    state.handle(Command::BeginAdd, today());
    clear(&mut state);
    typed(&mut state, "2025-01-02::2025-01-01");
    assert_eq!(
        state.handle(Command::Confirm, today()),
        Effect::Reject(ParseError::ReversedRange)
    );
    assert_eq!(state.handle(Command::SelectNext, today()), Effect::Nothing);
}

#[test]
fn quick_add_asks_to_add_today() {
    let mut state = AppState::new(Vec::new());
    assert_eq!(state.handle(Command::QuickAdd, today()), Effect::Add(vec![today()]));
    assert!(!state.is_editing());
}

#[test]
fn quit_and_force_quit_end_the_session() {
    let mut state = AppState::new(Vec::new());
    assert_eq!(state.handle(Command::Quit, today()), Effect::Quit);
    assert_eq!(state.handle(Command::ForceQuit, today()), Effect::Quit);
    state.handle(Command::BeginAdd, today());
    assert_eq!(state.handle(Command::Quit, today()), Effect::Nothing);
    assert!(state.is_editing());
    assert_eq!(state.handle(Command::ForceQuit, today()), Effect::Quit);
    assert!(!state.is_editing());
}

#[test]
fn commands_of_the_other_mode_do_nothing() {
    let mut state = AppState::new(lines(&["a", "b"]));
    for command in
        [Command::Character('x'), Command::Backspace, Command::Cancel, Command::Confirm, Command::Nothing]
    {
        assert_eq!(state.handle(command, today()), Effect::Nothing);
        assert!(!state.is_editing());
        assert_eq!(state.selected_index(), 0);
    }
    state.handle(Command::BeginAdd, today());
    for command in [
        Command::SelectNext,
        Command::SelectPrevious,
        Command::BeginAdd,
        Command::BeginRemove,
        Command::QuickAdd,
        Command::Nothing,
    ] {
        assert_eq!(state.handle(command, today()), Effect::Nothing);
        assert_eq!(state.input_box(), &Some("2025-06-15".to_string()));
        assert_eq!(state.input_mode(), InputMode::Add);
        assert_eq!(state.selected_index(), 0);
    }
}

#[test]
fn take_input_hands_out_the_text() {
    let mut state = AppState::new(Vec::new());
    assert_eq!(state.take_input(), None);
    state.handle(Command::BeginAdd, today());
    assert_eq!(state.take_input(), Some("2025-06-15".to_string()));
    assert!(!state.is_editing());
    assert_eq!(state.take_input(), None);
}

#[test]
fn an_update_keeps_the_selection_on_the_lines() {
    let mut state = AppState::new(lines(&["a", "b", "c"]));
    state.move_selection_down();
    state.move_selection_down();
    state.update(lines(&["a", "b", "c", "d"]));
    assert_eq!(state.selected_index(), 2);
    state.update(lines(&["a", "b"]));
    assert_eq!(state.selected_index(), 1);
    assert_eq!(state.dates(), &lines(&["a", "b"]));
    state.update(Vec::new());
    assert_eq!(state.selected_index(), 0);
    state.update(lines(&["a"]));
    assert_eq!(state.selected_index(), 0);
}

#[test]
fn an_update_leaves_the_typing_alone() {
    let mut state = AppState::new(lines(&["a"]));
    state.handle(Command::BeginRemove, today());
    state.update(lines(&["b", "c"]));
    assert_eq!(state.input_box(), &Some("a".to_string()));
    assert_eq!(state.input_mode(), InputMode::Remove);
}

#[test]
fn keys_are_decoded_when_browsing() {
    assert_eq!(decode(&press(Key::Char('q')), false), Command::Quit);
    assert_eq!(decode(&press(Key::Esc), false), Command::Quit);
    assert_eq!(decode(&press(Key::Char('a')), false), Command::BeginAdd);
    assert_eq!(decode(&press(Key::Char('d')), false), Command::BeginRemove);
    assert_eq!(decode(&press(Key::Enter), false), Command::QuickAdd);
    assert_eq!(decode(&press(Key::Up), false), Command::SelectPrevious);
    assert_eq!(decode(&press(Key::Down), false), Command::SelectNext);
    assert_eq!(decode(&press(Key::Backspace), false), Command::Nothing);
    assert_eq!(decode(&press(Key::Other), false), Command::Nothing);
    assert_eq!(decode(&press(Key::Char('x')), false), Command::Nothing);
    assert_eq!(decode(&press(Key::Char('A')), false), Command::Nothing);
}

#[test]
fn keys_are_decoded_when_typing() {
    assert_eq!(decode(&press(Key::Char('q')), true), Command::Character('q'));
    assert_eq!(decode(&press(Key::Char('c')), true), Command::Character('c'));
    assert_eq!(decode(&press(Key::Esc), true), Command::Cancel);
    assert_eq!(decode(&press(Key::Enter), true), Command::Confirm);
    assert_eq!(decode(&press(Key::Backspace), true), Command::Backspace);
    assert_eq!(decode(&press(Key::Up), true), Command::Nothing);
    assert_eq!(decode(&press(Key::Down), true), Command::Nothing);
    assert_eq!(decode(&press(Key::Other), true), Command::Nothing);
    let with_control = KeyPress { key: Key::Char('x'), control: true, pressed: true };
    assert_eq!(decode(&with_control, true), Command::Character('x'));
}

#[test]
fn the_interrupt_chord_quits_everywhere() {
    let chord = KeyPress { key: Key::Char('c'), control: true, pressed: true };
    assert_eq!(decode(&chord, false), Command::ForceQuit);
    assert_eq!(decode(&chord, true), Command::ForceQuit);
}

#[test]
fn keys_that_are_not_pressed_mean_nothing() {
    for editing in [false, true] {
        for key in [Key::Char('q'), Key::Char('c'), Key::Enter, Key::Esc, Key::Up] {
            for control in [false, true] {
                let released = KeyPress { key, control, pressed: false };
                assert_eq!(decode(&released, editing), Command::Nothing);
            }
        }
    }
}

#[test]
fn a_session_adds_and_removes_days() {
    let mut session = Session::new(&[date(2025, 1, 1), date(2025, 1, 2), date(2025, 1, 5)]);
    assert_eq!(session.state.dates(), &lines(&["2025-01-01 :: 2025-01-02", "2025-01-05"]));

    assert_eq!(session.send(press(Key::Enter)), Effect::Add(vec![today()]));
    assert_eq!(
        session.state.dates(),
        &lines(&["2025-01-01 :: 2025-01-02", "2025-01-05", "2025-06-15"])
    );

    assert_eq!(session.send(press(Key::Char('a'))), Effect::Nothing);
    for _ in 0.."2025-06-15".len() {
        session.send(press(Key::Backspace));
    }
    session.send_text("03.01.2025::2025-01-04");
    assert_eq!(
        session.send(press(Key::Enter)),
        Effect::Add(vec![date(2025, 1, 3), date(2025, 1, 4)])
    );
    assert_eq!(session.state.dates(), &lines(&["2025-01-01 :: 2025-01-05", "2025-06-15"]));

    assert_eq!(session.send(press(Key::Down)), Effect::Nothing);
    assert_eq!(session.state.selected_index(), 1);
    assert_eq!(session.send(press(Key::Char('d'))), Effect::Nothing);
    assert_eq!(session.send(press(Key::Enter)), Effect::Remove(vec![today()]));
    assert_eq!(session.state.dates(), &lines(&["2025-01-01 :: 2025-01-05"]));
    assert_eq!(session.state.selected_index(), 0);

    assert_eq!(session.send(press(Key::Char('d'))), Effect::Nothing);
    assert_eq!(session.state.input_box(), &Some("2025-01-01 :: 2025-01-05".to_string()));
    assert_eq!(
        session.send(press(Key::Enter)),
        Effect::Remove(vec![
            date(2025, 1, 1),
            date(2025, 1, 2),
            date(2025, 1, 3),
            date(2025, 1, 4),
            date(2025, 1, 5)
        ])
    );
    assert_eq!(session.state.dates(), &Vec::<String>::new());
    assert_eq!(session.send(press(Key::Char('d'))), Effect::Nothing);
    assert!(!session.state.is_editing());
    assert_eq!(session.send(press(Key::Char('q'))), Effect::Quit);
}

#[test]
fn adding_a_stored_day_in_a_session_changes_nothing() {
    let mut session = Session::new(&[today()]);
    let before = session.store.clone();
    assert_eq!(session.send(press(Key::Enter)), Effect::Add(vec![today()]));
    assert_eq!(session.store, before);
    assert_eq!(session.state.dates(), &vec![store_key(today())]);
}

#[test]
fn cancelling_in_a_session_leaves_the_store() {
    let mut session = Session::new(&[date(2025, 1, 1)]);
    let before = session.store.clone();
    session.send(press(Key::Char('d')));
    session.send_text("::2025-01-09");
    assert_eq!(session.send(press(Key::Esc)), Effect::Nothing);
    assert!(!session.state.is_editing());
    assert_eq!(session.store, before);
    assert_eq!(session.state.dates(), &lines(&["2025-01-01"]));
}
