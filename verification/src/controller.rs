//! The interaction controller of the terminal screen: the list of exported
//! lines, the selected line, and the text that is being typed.
//!
//! The controller decides; it does not touch the store. Each command gives
//! the next state and an [`Effect`] for the caller to carry out on the
//! store, after which the caller hands the store's new export to
//! [`AppState::update`].

use crate::date::CalendarDate;
use crate::export::texts;
use crate::parse::{dates_of_text, parse_dates, ParseError};
use crate::text::{trim, trim_bounds};
use vstd::prelude::*;
use vstd::string::*;

verus! {

/// What a confirmed text is for.
#[derive(Clone, Copy, Debug, PartialEq, Eq, Structural)]
pub enum InputMode {
    /// The dates typed are added to the store.
    Add,
    /// The dates typed are removed from the store.
    Remove,
}

/// A key of the keyboard.
#[derive(Clone, Copy, Debug, PartialEq, Eq, Structural)]
pub enum Key {
    /// The key of a character.
    Char(char),
    /// The enter key.
    Enter,
    /// The escape key.
    Esc,
    /// The backspace key.
    Backspace,
    /// The arrow up.
    Up,
    /// The arrow down.
    Down,
    /// Any other key.
    Other,
}

/// A key event: the key, whether the control key was held, and whether the
/// key was pressed rather than released or repeated.
#[derive(Clone, Copy, Debug, PartialEq, Eq, Structural)]
pub struct KeyPress {
    pub key: Key,
    pub control: bool,
    pub pressed: bool,
}

/// What the user asks of the controller.
#[derive(Clone, Copy, Debug, PartialEq, Eq, Structural)]
pub enum Command {
    /// Select the line before the selected one.
    SelectPrevious,
    /// Select the line after the selected one.
    SelectNext,
    /// Start typing dates to add, from today's date.
    BeginAdd,
    /// Start typing dates to remove, from the selected line.
    BeginRemove,
    /// Add today's date without typing.
    QuickAdd,
    /// End the session.
    Quit,
    /// Append a character to the text being typed.
    Character(char),
    /// Remove the last character of the text being typed.
    Backspace,
    /// Drop the text being typed.
    Cancel,
    /// Carry out the text being typed.
    Confirm,
    /// End the session at once, whatever is being typed.
    ForceQuit,
    /// The key means nothing where it was typed.
    Nothing,
}

/// What the caller is to do after a command.
#[derive(Debug, PartialEq, Eq)]
pub enum Effect {
    /// Nothing: the store stays as it is.
    Nothing,
    /// End the session.
    Quit,
    /// Insert these dates into the store, then update the view.
    Add(Vec<CalendarDate>),
    /// Delete these dates from the store, then update the view.
    Remove(Vec<CalendarDate>),
    /// Tell the user that the text typed could not be read.
    Reject(ParseError),
}

/// An [`Effect`] with its dates as a sequence.
pub enum EffectView {
    Nothing,
    Quit,
    Add(Seq<CalendarDate>),
    Remove(Seq<CalendarDate>),
    Reject(ParseError),
}

impl View for Effect {
    type V = EffectView;

    open spec fn view(&self) -> EffectView {
        match *self {
            Effect::Nothing => EffectView::Nothing,
            Effect::Quit => EffectView::Quit,
            Effect::Add(dates) => EffectView::Add(dates@),
            Effect::Remove(dates) => EffectView::Remove(dates@),
            Effect::Reject(error) => EffectView::Reject(error),
        }
    }
}

/// The state of the controller as plain values: the lines shown, the index
/// of the selected line, the text being typed if any, and what it is for.
pub struct StateView {
    pub lines: Seq<Seq<char>>,
    pub selected: int,
    pub input: Option<Seq<char>>,
    pub mode: InputMode,
}

impl StateView {
    /// Whether the selected index is the index of a line, or 0 where there
    /// is no line.
    pub open spec fn wf(self) -> bool {
        0 <= self.selected && (self.selected < self.lines.len() || self.selected == 0)
    }

    /// Whether a text is being typed.
    pub open spec fn editing(self) -> bool {
        self.input is Some
    }

    /// The state with another selected index.
    pub open spec fn select(self, selected: int) -> StateView {
        StateView { lines: self.lines, selected, input: self.input, mode: self.mode }
    }

    /// The state with another text being typed, or none.
    pub open spec fn with_input(self, input: Option<Seq<char>>) -> StateView {
        StateView { lines: self.lines, selected: self.selected, input, mode: self.mode }
    }

    /// The state in which `text` is being typed for `mode`.
    pub open spec fn begin(self, mode: InputMode, text: Seq<char>) -> StateView {
        StateView { lines: self.lines, selected: self.selected, input: Some(text), mode }
    }

    /// The state that shows `lines`, with the selected index moved back to
    /// the last line where it would lie behind it.
    pub open spec fn show(self, lines: Seq<Seq<char>>) -> StateView {
        StateView {
            lines,
            selected: if lines.len() == 0 {
                0
            } else if self.selected >= lines.len() {
                lines.len() - 1
            } else {
                self.selected
            },
            input: self.input,
            mode: self.mode,
        }
    }
}

/// The command that a key event stands for. The interrupt chord, control
/// and `c`, ends the session wherever it is typed; every other key goes by
/// whether a text is being typed.
pub open spec fn command_of(press: KeyPress, editing: bool) -> Command {
    if !press.pressed {
        Command::Nothing
    } else if press.control && press.key == Key::Char('c') {
        Command::ForceQuit
    } else if editing {
        match press.key {
            Key::Esc => Command::Cancel,
            Key::Enter => Command::Confirm,
            Key::Char(c) => Command::Character(c),
            Key::Backspace => Command::Backspace,
            _ => Command::Nothing,
        }
    } else {
        match press.key {
            Key::Esc => Command::Quit,
            Key::Char(c) => if c == 'q' {
                Command::Quit
            } else if c == 'a' {
                Command::BeginAdd
            } else if c == 'd' {
                Command::BeginRemove
            } else {
                Command::Nothing
            },
            Key::Enter => Command::QuickAdd,
            Key::Up => Command::SelectPrevious,
            Key::Down => Command::SelectNext,
            _ => Command::Nothing,
        }
    }
}

/// What a command does to a state in which no text is being typed.
pub open spec fn browse(state: StateView, command: Command, today: CalendarDate) -> (
    StateView,
    EffectView,
) {
    match command {
        Command::SelectPrevious => (
            state.select(
                if state.selected > 0 {
                    state.selected - 1
                } else {
                    state.selected
                },
            ),
            EffectView::Nothing,
        ),
        Command::SelectNext => (
            state.select(
                if state.selected + 1 < state.lines.len() {
                    state.selected + 1
                } else {
                    state.selected
                },
            ),
            EffectView::Nothing,
        ),
        Command::BeginAdd => (state.begin(InputMode::Add, today.text()), EffectView::Nothing),
        Command::BeginRemove => if state.lines.len() > 0 {
            (state.begin(InputMode::Remove, state.lines[state.selected]), EffectView::Nothing)
        } else {
            (state, EffectView::Nothing)
        },
        Command::QuickAdd => (state, EffectView::Add(seq![today])),
        Command::Quit => (state, EffectView::Quit),
        Command::ForceQuit => (state, EffectView::Quit),
        _ => (state, EffectView::Nothing),
    }
}

/// What confirming the text `buffer` asks for in `mode`.
pub open spec fn confirmed(mode: InputMode, buffer: Seq<char>) -> EffectView {
    match dates_of_text(buffer) {
        Ok(dates) => match mode {
            InputMode::Add => EffectView::Add(dates),
            InputMode::Remove => EffectView::Remove(dates),
        },
        Err(error) => EffectView::Reject(error),
    }
}

/// What a command does to a state in which `buffer` is being typed.
pub open spec fn edit(state: StateView, buffer: Seq<char>, command: Command) -> (
    StateView,
    EffectView,
) {
    match command {
        Command::Character(c) => (state.with_input(Some(buffer.push(c))), EffectView::Nothing),
        Command::Backspace => (
            state.with_input(
                Some(
                    if buffer.len() > 0 {
                        buffer.drop_last()
                    } else {
                        buffer
                    },
                ),
            ),
            EffectView::Nothing,
        ),
        Command::Cancel => (state.with_input(None), EffectView::Nothing),
        Command::Confirm => if trim(buffer).len() == 0 {
            (state, EffectView::Nothing)
        } else {
            (state.with_input(None), confirmed(state.mode, buffer))
        },
        Command::ForceQuit => (state.with_input(None), EffectView::Quit),
        _ => (state, EffectView::Nothing),
    }
}

/// The next state and the effect of a command on the day `today`.
pub open spec fn step(state: StateView, command: Command, today: CalendarDate) -> (
    StateView,
    EffectView,
) {
    match state.input {
        Some(buffer) => edit(state, buffer, command),
        None => browse(state, command, today),
    }
}

/// The command that a key event stands for.
pub fn decode(press: &KeyPress, editing: bool) -> (command: Command)
    ensures
        command == command_of(*press, editing),
{
    if !press.pressed {
        return Command::Nothing;
    }
    if press.control {
        if let Key::Char(c) = press.key {
            if c == 'c' {
                return Command::ForceQuit;
            }
        }
    }
    if editing {
        match press.key {
            Key::Esc => Command::Cancel,
            Key::Enter => Command::Confirm,
            Key::Char(c) => Command::Character(c),
            Key::Backspace => Command::Backspace,
            _ => Command::Nothing,
        }
    } else {
        match press.key {
            Key::Esc => Command::Quit,
            Key::Char(c) => {
                if c == 'q' {
                    Command::Quit
                } else if c == 'a' {
                    Command::BeginAdd
                } else if c == 'd' {
                    Command::BeginRemove
                } else {
                    Command::Nothing
                }
            },
            Key::Enter => Command::QuickAdd,
            Key::Up => Command::SelectPrevious,
            Key::Down => Command::SelectNext,
            _ => Command::Nothing,
        }
    }
}

/// The state of the controller.
///
/// The selected index is always the index of a line, or 0 where there is no
/// line.
#[derive(Debug)]
pub struct AppState {
    dates: Vec<String>,
    selected_index: usize,
    input_box: Option<String>,
    input_mode: InputMode,
}

impl View for AppState {
    type V = StateView;

    closed spec fn view(&self) -> StateView {
        StateView {
            lines: texts(self.dates@),
            selected: self.selected_index as int,
            input: match self.input_box {
                Some(text) => Some(text@),
                None => None,
            },
            mode: self.input_mode,
        }
    }
}

impl AppState {
    #[verifier::type_invariant]
    pub closed spec fn inv(self) -> bool {
        self@.wf()
    }

    /// A state that shows the lines of `export`, with the first line
    /// selected and no text being typed.
    pub fn new(export: Vec<String>) -> (state: AppState)
        ensures
            state@ == (StateView {
                lines: texts(export@),
                selected: 0,
                input: None,
                mode: InputMode::Add,
            }),
            state@.wf(),
    {
        AppState { dates: export, selected_index: 0, input_box: None, input_mode: InputMode::Add }
    }

    /// Shows the lines of `export`, the store's export after a change. The
    /// selected index moves back to the last line where it would lie behind
    /// it.
    pub fn update(&mut self, export: Vec<String>)
        ensures
            final(self)@ == old(self)@.show(texts(export@)),
            final(self)@.wf(),
    {
        let selected: usize = if export.len() == 0 {
            0
        } else if self.selected_index >= export.len() {
            export.len() - 1
        } else {
            self.selected_index
        };
        self.selected_index = 0;
        self.dates = export;
        self.selected_index = selected;
    }

    /// The lines shown.
    pub fn dates(&self) -> (lines: &Vec<String>)
        ensures
            texts(lines@) == self@.lines,
    {
        &self.dates
    }

    /// The index of the selected line.
    pub fn selected_index(&self) -> (index: usize)
        ensures
            index == self@.selected,
            self@.wf(),
    {
        proof {
            use_type_invariant(self);
        }
        self.selected_index
    }

    /// The text being typed, if any.
    pub fn input_box(&self) -> (input: &Option<String>)
        ensures
            match *input {
                Some(text) => self@.input == Some(text@),
                None => self@.input is None,
            },
    {
        &self.input_box
    }

    /// What the text being typed, or typed last, is for.
    pub fn input_mode(&self) -> (mode: InputMode)
        ensures
            mode == self@.mode,
    {
        self.input_mode
    }

    /// Whether a text is being typed.
    pub fn is_editing(&self) -> (editing: bool)
        ensures
            editing == self@.editing(),
    {
        self.input_box.is_some()
    }

    /// Selects the line before the selected one, if there is one.
    pub fn move_selection_up(&mut self)
        ensures
            final(self)@ == old(self)@.select(
                if old(self)@.selected > 0 {
                    old(self)@.selected - 1
                } else {
                    old(self)@.selected
                },
            ),
            final(self)@.wf(),
    {
        proof {
            use_type_invariant(&*self);
        }
        if self.selected_index > 0 {
            self.selected_index = self.selected_index - 1;
        }
    }

    /// Selects the line after the selected one, if there is one.
    pub fn move_selection_down(&mut self)
        ensures
            final(self)@ == old(self)@.select(
                if old(self)@.selected + 1 < old(self)@.lines.len() {
                    old(self)@.selected + 1
                } else {
                    old(self)@.selected
                },
            ),
            final(self)@.wf(),
    {
        proof {
            use_type_invariant(&*self);
        }
        if self.dates.len() > 0 && self.selected_index < self.dates.len() - 1 {
            self.selected_index = self.selected_index + 1;
        }
    }

    /// Starts typing a text for `mode`: from today's date to add, and from
    /// the selected line, or from nothing where there is no line, to remove.
    pub fn start_input(&mut self, mode: InputMode, today: CalendarDate)
        ensures
            final(self)@ == old(self)@.begin(
                mode,
                match mode {
                    InputMode::Add => today.text(),
                    InputMode::Remove => if old(self)@.lines.len() > 0 {
                        old(self)@.lines[old(self)@.selected]
                    } else {
                        Seq::empty()
                    },
                },
            ),
            final(self)@.wf(),
    {
        proof {
            use_type_invariant(&*self);
        }
        let text = match mode {
            InputMode::Add => today.to_text(),
            InputMode::Remove => {
                if self.selected_index < self.dates.len() {
                    self.dates[self.selected_index].clone()
                } else {
                    String::new()
                }
            },
        };
        self.input_mode = mode;
        self.input_box = Some(text);
    }

    /// Ends the typing and hands out the text typed, if any.
    pub fn take_input(&mut self) -> (input: Option<String>)
        ensures
            final(self)@ == old(self)@.with_input(None),
            final(self)@.wf(),
            match input {
                Some(text) => old(self)@.input == Some(text@),
                None => old(self)@.input is None,
            },
    {
        proof {
            use_type_invariant(&*self);
        }
        let input = match &self.input_box {
            Some(text) => Some(text.clone()),
            None => None,
        };
        self.input_box = None;
        input
    }

    /// Carries out a command on the day `today`, and says what the caller
    /// is to do to the store.
    pub fn handle(&mut self, command: Command, today: CalendarDate) -> (effect: Effect)
        ensures
            (final(self)@, effect@) == step(old(self)@, command, today),
            final(self)@.wf(),
    {
        proof {
            use_type_invariant(&*self);
        }
        let typed = match &self.input_box {
            Some(text) => Some(text.clone()),
            None => None,
        };
        match typed {
            Some(buffer) => self.handle_editing(buffer, command),
            None => self.handle_browsing(command, today),
        }
    }

    fn handle_browsing(&mut self, command: Command, today: CalendarDate) -> (effect: Effect)
        requires
            old(self)@.input is None,
        ensures
            (final(self)@, effect@) == browse(old(self)@, command, today),
            final(self)@.wf(),
    {
        proof {
            use_type_invariant(&*self);
        }
        match command {
            Command::SelectPrevious => {
                self.move_selection_up();
                Effect::Nothing
            },
            Command::SelectNext => {
                self.move_selection_down();
                Effect::Nothing
            },
            Command::BeginAdd => {
                self.start_input(InputMode::Add, today);
                Effect::Nothing
            },
            Command::BeginRemove => {
                if self.dates.len() > 0 {
                    self.start_input(InputMode::Remove, today);
                }
                Effect::Nothing
            },
            Command::QuickAdd => {
                let mut dates: Vec<CalendarDate> = Vec::new();
                dates.push(today);
                assert(dates@ =~= seq![today]);
                Effect::Add(dates)
            },
            Command::Quit => Effect::Quit,
            Command::ForceQuit => Effect::Quit,
            _ => Effect::Nothing,
        }
    }

    fn handle_editing(&mut self, buffer: String, command: Command) -> (effect: Effect)
        requires
            old(self)@.input == Some(buffer@),
        ensures
            (final(self)@, effect@) == edit(old(self)@, buffer@, command),
            final(self)@.wf(),
    {
        proof {
            use_type_invariant(&*self);
        }
        let mut buffer = buffer;
        match command {
            Command::Character(c) => {
                buffer.push(c);
                self.input_box = Some(buffer);
                Effect::Nothing
            },
            Command::Backspace => {
                buffer.pop();
                self.input_box = Some(buffer);
                Effect::Nothing
            },
            Command::Cancel => {
                self.input_box = None;
                Effect::Nothing
            },
            Command::Confirm => {
                let (from, to) = trim_bounds(buffer.as_str());
                if from == to {
                    Effect::Nothing
                } else {
                    self.input_box = None;
                    match parse_dates(buffer.as_str()) {
                        Ok(dates) => match self.input_mode {
                            InputMode::Add => Effect::Add(dates),
                            InputMode::Remove => Effect::Remove(dates),
                        },
                        Err(error) => Effect::Reject(error),
                    }
                }
            },
            Command::ForceQuit => {
                self.input_box = None;
                Effect::Quit
            },
            _ => Effect::Nothing,
        }
    }
}

/// No command moves the selected index off the lines: after every command
/// it is the index of a line, or 0 where there is no line. No command but
/// an update changes the lines.
pub proof fn lemma_selection_stays_on_a_line(
    state: StateView,
    command: Command,
    today: CalendarDate,
)
    requires
        state.wf(),
    ensures
        step(state, command, today).0.wf(),
        step(state, command, today).0.lines == state.lines,
{
}

/// An update leaves the selected index on a line, whatever lines it shows.
pub proof fn lemma_update_keeps_selection_on_a_line(state: StateView, lines: Seq<Seq<char>>)
    requires
        state.wf(),
    ensures
        state.show(lines).wf(),
{
}

/// Where no line is shown, the command to begin a removal does nothing: no
/// text is being typed after it, and the store stays as it is.
pub proof fn lemma_begin_remove_needs_a_line(state: StateView, today: CalendarDate)
    requires
        !state.editing(),
        state.lines.len() == 0,
    ensures
        step(state, Command::BeginRemove, today) == (state, EffectView::Nothing),
{
}

/// Cancelling ends the typing and leaves everything else as it was: the
/// lines, the selection and the store.
pub proof fn lemma_cancel_changes_nothing(state: StateView, today: CalendarDate)
    requires
        state.editing(),
    ensures
        step(state, Command::Cancel, today) == (state.with_input(None), EffectView::Nothing),
        !step(state, Command::Cancel, today).0.editing(),
{
}

/// The store is touched by nothing but a confirmed text and a quick add.
pub proof fn lemma_only_confirm_and_quick_add_touch_the_store(
    state: StateView,
    command: Command,
    today: CalendarDate,
)
    ensures
        step(state, command, today).1 is Add || step(state, command, today).1 is Remove ==> (
        state.editing() && command == Command::Confirm) || (!state.editing() && command
            == Command::QuickAdd),
{
}

/// The interrupt chord ends the session whether or not a text is being
/// typed, and drops the text.
pub proof fn lemma_interrupt_always_quits(
    state: StateView,
    press: KeyPress,
    today: CalendarDate,
)
    requires
        press.pressed,
        press.control,
        press.key == Key::Char('c'),
    ensures
        command_of(press, state.editing()) == Command::ForceQuit,
        step(state, Command::ForceQuit, today) == (state.with_input(None), EffectView::Quit),
{
    if !state.editing() {
        assert(state.with_input(None) == state);
    }
}

} // verus!
