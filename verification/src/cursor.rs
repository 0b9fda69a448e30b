//! The cursor and input-mode state machine: which cell of the grid is
//! selected, which input mode the session is in, and how key events
//! move the cursor, mark habits and drive the command line.

use vstd::prelude::*;
use vstd::string::StringExecFns;
use crate::date::{spec_add_days, spec_sub_days};
use crate::habit::{Habit, HabitType, spec_mark};
use crate::interp::{CommandResult, interpret, spec_interpreted};
use crate::text;
use crate::token::{Token, TokenModel, lemma_tokens_match_models, spec_models, spec_tokenize, tokenize};
use crate::tracker::HabitTracker;

verus! {

/// The selected cell of the grid, if any: a habit row and a column
/// into the week window.
#[derive(Clone, Copy, Debug, PartialEq, Eq)]
pub struct AppState {
    pub selected_row: Option<usize>,
    pub selected_column: Option<usize>,
}

impl AppState {
    /// The selected cell: a row and a column, or nothing before the
    /// first movement.
    pub open spec fn spec_selected(self) -> Option<(usize, usize)> {
        if self.selected_row is Some && self.selected_column is Some {
            Some((self.selected_row->0, self.selected_column->0))
        } else {
            None
        }
    }

    /// The selected cell, if both coordinates are set.
    pub fn selected(&self) -> (r: Option<(usize, usize)>)
        ensures
            r == self.spec_selected(),
    {
        if self.selected_row.is_none() || self.selected_column.is_none() {
            return None;
        }
        Some((self.selected_row.unwrap(), self.selected_column.unwrap()))
    }

    /// Selects the given cell.
    pub fn select(&mut self, cell: (usize, usize))
        ensures
            final(self).spec_selected() == Some(cell),
            final(self).selected_row == Some(cell.0),
            final(self).selected_column == Some(cell.1),
    {
        self.selected_column = Some(cell.1);
        self.selected_row = Some(cell.0);
    }
}

impl Default for AppState {
    /// No cell selected.
    fn default() -> (r: AppState)
        ensures
            r.selected_row is None,
            r.selected_column is None,
    {
        AppState { selected_row: None, selected_column: None }
    }
}

/// The input mode of the session.
#[derive(Clone, Copy, Debug, PartialEq, Eq, Structural)]
pub enum AppMode {
    /// Grid navigation and marking.
    NORMAL,
    /// A command line is being typed.
    COMMAND,
    /// A single value character for a Character habit is awaited.
    HABIT,
}

/// One key event, as a plain value.
#[derive(Clone, Copy, Debug, PartialEq, Eq, Structural)]
pub enum Key {
    Char(char),
    Esc,
    Enter,
    Backspace,
    Other,
}

/// The whole transient session state around the tracker.
#[derive(Clone, Debug)]
pub struct App {
    pub mode: AppMode,
    pub state: AppState,
    pub tracker: HabitTracker,
    /// The in-progress command text, or the last reported message.
    pub input: String,
}

impl App {
    /// Session invariant: the tracker is well-formed, the two selection
    /// coordinates are set together, and a selected cell lies on the
    /// grid: its column within the week, its row within the habits.
    pub open spec fn inv(self) -> bool {
        &&& self.tracker.wf()
        &&& (self.state.selected_row is Some <==> self.state.selected_column is Some)
        &&& match self.state.spec_selected() {
            Some(rc) => rc.1 <= 6 && (rc.0 as int) < self.tracker.habits@.len(),
            None => true,
        }
    }

    /// Room to navigate the week window in both directions.
    pub open spec fn room(self) -> bool {
        i32::MIN + 1 < self.tracker.start_date.year < i32::MAX - 1
    }

    /// A fresh session around the given tracker: normal mode, nothing
    /// selected, empty command line.
    pub fn new(tracker: HabitTracker) -> (r: App)
        requires
            tracker.wf(),
        ensures
            r.inv(),
            r.mode == AppMode::NORMAL,
            r.state.spec_selected() is None,
            r.input@.len() == 0,
            r.tracker == tracker,
    {
        App { mode: AppMode::NORMAL, state: AppState::default(), tracker, input: String::new() }
    }

    /// Enters command mode with an empty command line.
    pub fn enter_command_mode(&mut self)
        requires
            old(self).inv(),
        ensures
            final(self).inv(),
            final(self).mode == AppMode::COMMAND,
            final(self).input@.len() == 0,
            final(self).tracker == old(self).tracker,
            final(self).state == old(self).state,
    {
        self.input = String::new();
        self.mode = AppMode::COMMAND;
    }
}

/// Moving down: wraps from the last row to row zero; selects the
/// origin on a first movement; does nothing with fewer than two
/// habits. Everything else stays as it was.
pub open spec fn spec_move_down(o: App, n: App) -> bool {
    if o.tracker.habits@.len() <= 1 {
        n == o
    } else {
        &&& n.mode == o.mode
        &&& n.input == o.input
        &&& n.tracker == o.tracker
        &&& match o.state.spec_selected() {
            None => n.state.spec_selected() == Some((0usize, 0usize)),
            Some(rc) => n.state.spec_selected() == Some(
                (
                    if rc.0 as int == o.tracker.habits@.len() - 1 {
                        0usize
                    } else {
                        (rc.0 + 1) as usize
                    },
                    rc.1,
                ),
            ),
        }
    }
}

/// Moving up: wraps from row zero to the last row; otherwise as
/// moving down.
pub open spec fn spec_move_up(o: App, n: App) -> bool {
    if o.tracker.habits@.len() <= 1 {
        n == o
    } else {
        &&& n.mode == o.mode
        &&& n.input == o.input
        &&& n.tracker == o.tracker
        &&& match o.state.spec_selected() {
            None => n.state.spec_selected() == Some((0usize, 0usize)),
            Some(rc) => n.state.spec_selected() == Some(
                (
                    if rc.0 == 0 {
                        (o.tracker.habits@.len() - 1) as usize
                    } else {
                        (rc.0 - 1) as usize
                    },
                    rc.1,
                ),
            ),
        }
    }
}

/// Moving left: at the left edge of the window the week retreats and
/// the column resets to the right edge; does nothing without habits.
pub open spec fn spec_move_left(o: App, n: App) -> bool {
    if o.tracker.habits@.len() == 0 {
        n == o
    } else {
        &&& n.mode == o.mode
        &&& n.input == o.input
        &&& n.tracker.habits == o.tracker.habits
        &&& match o.state.spec_selected() {
            None => n.state.spec_selected() == Some((0usize, 0usize)) && n.tracker == o.tracker,
            Some(rc) => if rc.1 == 0 {
                n.tracker.start_date == spec_sub_days(o.tracker.start_date, 7)
                    && n.state.spec_selected() == Some((rc.0, 6usize))
            } else {
                n.tracker == o.tracker && n.state.spec_selected() == Some(
                    (rc.0, (rc.1 - 1) as usize),
                )
            },
        }
    }
}

/// Moving right: at the right edge of the window the week advances and
/// the column resets to the left edge; does nothing without habits.
pub open spec fn spec_move_right(o: App, n: App) -> bool {
    if o.tracker.habits@.len() == 0 {
        n == o
    } else {
        &&& n.mode == o.mode
        &&& n.input == o.input
        &&& n.tracker.habits == o.tracker.habits
        &&& match o.state.spec_selected() {
            None => n.state.spec_selected() == Some((0usize, 0usize)) && n.tracker == o.tracker,
            Some(rc) => if rc.1 == 6 {
                n.tracker.start_date == spec_add_days(o.tracker.start_date, 7)
                    && n.state.spec_selected() == Some((rc.0, 0usize))
            } else {
                n.tracker == o.tracker && n.state.spec_selected() == Some(
                    (rc.0, (rc.1 + 1) as usize),
                )
            },
        }
    }
}

/// Marking at the selection: a Character habit first switches the
/// session into value entry; any other habit type marks at once, on
/// the selected column's date. No selection: nothing happens.
pub open spec fn spec_mark_step(o: App, n: App) -> bool {
    match o.state.spec_selected() {
        None => n == o,
        Some(rc) => {
            let d = spec_add_days(o.tracker.start_date, rc.1 as nat);
            let h = o.tracker.habits@[rc.0 as int];
            if h.habit_type == HabitType::ALPHA {
                &&& n.mode == AppMode::HABIT
                &&& n.tracker == o.tracker
                &&& n.state == o.state
                &&& n.input == o.input
            } else {
                &&& n.mode == o.mode
                &&& n.input == o.input
                &&& n.state == o.state
                &&& n.tracker.start_date == o.tracker.start_date
                &&& n.tracker.habits@.len() == o.tracker.habits@.len()
                &&& forall|i: int|
                    0 <= i < o.tracker.habits@.len() && i != rc.0 as int
                        ==> n.tracker.habits@[i] == o.tracker.habits@[i]
                &&& n.tracker.habits@[rc.0 as int].label == h.label
                &&& n.tracker.habits@[rc.0 as int].habit_type == h.habit_type
                &&& n.tracker.habits@[rc.0 as int].rec_map() == spec_mark(
                    h.habit_type,
                    h.rec_map(),
                    d,
                    None,
                )
            }
        },
    }
}

/// Supplying the awaited value character: a selected Character habit
/// stores it for the selected date; the session returns to normal
/// mode either way.
pub open spec fn spec_supplied(o: App, n: App, c: char) -> bool {
    &&& n.mode == AppMode::NORMAL
    &&& n.input == o.input
    &&& n.state == o.state
    &&& match o.state.spec_selected() {
        None => n.tracker == o.tracker,
        Some(rc) => {
            let d = spec_add_days(o.tracker.start_date, rc.1 as nat);
            let h = o.tracker.habits@[rc.0 as int];
            if h.habit_type == HabitType::ALPHA {
                &&& n.tracker.start_date == o.tracker.start_date
                &&& n.tracker.habits@.len() == o.tracker.habits@.len()
                &&& forall|i: int|
                    0 <= i < o.tracker.habits@.len() && i != rc.0 as int
                        ==> n.tracker.habits@[i] == o.tracker.habits@[i]
                &&& n.tracker.habits@[rc.0 as int].label == h.label
                &&& n.tracker.habits@[rc.0 as int].habit_type == h.habit_type
                &&& n.tracker.habits@[rc.0 as int].rec_map() == spec_mark(
                    h.habit_type,
                    h.rec_map(),
                    d,
                    Some(c),
                )
            } else {
                n.tracker == o.tracker
            }
        },
    }
}

/// A selection clamped to a habit count: dropped when no habits are
/// left, pulled up to the last row when its row fell off the end.
pub open spec fn spec_clamped(sel: Option<(usize, usize)>, len: int) -> Option<(usize, usize)> {
    match sel {
        None => None,
        Some(rc) => if len == 0 {
            None
        } else if rc.0 as int >= len {
            Some(((len - 1) as usize, rc.1))
        } else {
            Some(rc)
        },
    }
}

/// One command interpreted against the tracker: the habits change as
/// the interpreter says, an error replaces the command text with a
/// message, the selection is clamped to the new habit count, and the
/// week window stays.
pub open spec fn spec_commanded(o: App, n: App, ms: Seq<TokenModel>) -> bool {
    &&& n.tracker.start_date == o.tracker.start_date
    &&& exists|res: CommandResult|
        spec_interpreted(ms, o.tracker.habits@, n.tracker.habits@, res) && (match res {
            CommandResult::Error(msg) => n.input == msg,
            _ => n.input == o.input,
        })
    &&& n.state.spec_selected() == spec_clamped(
        o.state.spec_selected(),
        n.tracker.habits@.len() as int,
    )
}

/// The command text executed: tokenized, then interpreted; a command
/// line that does not tokenize changes nothing but the message text.
pub open spec fn spec_executed(o: App, n: App) -> bool {
    match spec_tokenize(o.input@, 0) {
        Some(ms) => spec_commanded(o, n, ms),
        None => n.tracker == o.tracker && n.state == o.state,
    }
}

impl App {
    /// Appends a Boolean habit under the given name.
    pub fn add_habit(&mut self, habit: String)
        requires
            old(self).inv(),
        ensures
            final(self).inv(),
            final(self).mode == old(self).mode,
            final(self).input == old(self).input,
            final(self).state == old(self).state,
            final(self).tracker.start_date == old(self).tracker.start_date,
            crate::interp::spec_added(
                old(self).tracker.habits@,
                final(self).tracker.habits@,
                habit@,
                HabitType::BIT,
            ),
    {
        let ghost old_habits = self.tracker.habits@;
        self.tracker.habits.push(
            Habit { label: habit, habit_type: HabitType::BIT, records: Vec::new() },
        );
        proof {
            assert(self.tracker.habits@.last().wf());
            assert(forall|i: int|
                0 <= i < old_habits.len() ==> self.tracker.habits@[i] == old_habits[i]);
        }
    }

    /// Moves the cursor one row down.
    pub fn move_cursor_down(&mut self)
        requires
            old(self).inv(),
        ensures
            final(self).inv(),
            spec_move_down(*old(self), *final(self)),
    {
        if !(self.tracker.habits.len() > 1) {
            return ;
        }
        let i: (usize, usize) = match self.state.selected() {
            Some((row, col)) => {
                if row == self.tracker.habits.len() - 1 {
                    (0, col)
                } else {
                    (row + 1, col)
                }
            },
            None => (0, 0),
        };
        self.state.select(i);
    }

    /// Moves the cursor one row up.
    pub fn move_cursor_up(&mut self)
        requires
            old(self).inv(),
        ensures
            final(self).inv(),
            spec_move_up(*old(self), *final(self)),
    {
        if !(self.tracker.habits.len() > 1) {
            return ;
        }
        let i: (usize, usize) = match self.state.selected() {
            Some((row, col)) => {
                if row == 0 {
                    (self.tracker.habits.len() - 1, col)
                } else {
                    (row - 1, col)
                }
            },
            None => (0, 0),
        };
        self.state.select(i);
    }

    /// Moves the cursor one column left, retreating the week at the
    /// window's left edge.
    pub fn move_cursor_left(&mut self)
        requires
            old(self).inv(),
            old(self).room(),
        ensures
            final(self).inv(),
            spec_move_left(*old(self), *final(self)),
    {
        if !(self.tracker.habits.len() > 0) {
            return ;
        }
        let i: (usize, usize) = match self.state.selected() {
            Some((row, col)) => {
                if col == 0 {
                    self.tracker.previous_week();
                    (row, 6)
                } else {
                    (row, col - 1)
                }
            },
            None => (0, 0),
        };
        self.state.select(i);
    }

    /// Moves the cursor one column right, advancing the week at the
    /// window's right edge.
    pub fn move_cursor_right(&mut self)
        requires
            old(self).inv(),
            old(self).room(),
        ensures
            final(self).inv(),
            spec_move_right(*old(self), *final(self)),
    {
        if !(self.tracker.habits.len() > 0) {
            return ;
        }
        let i: (usize, usize) = match self.state.selected() {
            Some((row, col)) => {
                if col == 6 {
                    self.tracker.next_week();
                    (row, 0)
                } else {
                    (row, col + 1)
                }
            },
            None => (0, 0),
        };
        self.state.select(i);
    }

    /// Marks the habit at the selection for the selected date, or
    /// enters value entry for a Character habit.
    pub fn mark_habit(&mut self)
        requires
            old(self).inv(),
        ensures
            final(self).inv(),
            spec_mark_step(*old(self), *final(self)),
    {
        let sel = self.state.selected();
        match sel {
            None => {},
            Some((row, col)) => {
                let dates = self.tracker.get_date_range();
                let date = dates[col];
                let is_alpha = match self.tracker.habits[row].habit_type {
                    HabitType::ALPHA => true,
                    _ => false,
                };
                if is_alpha {
                    self.mode = AppMode::HABIT;
                } else {
                    let ghost old_habits = self.tracker.habits@;
                    let mut h = self.tracker.habits.remove(row);
                    h.check_task(date, None);
                    self.tracker.habits.insert(row, h);
                    proof {
                        assert(forall|i: int|
                            0 <= i < old_habits.len() && i != row as int
                                ==> self.tracker.habits@[i] == old_habits[i]);
                        assert forall|i: int|
                            0 <= i < self.tracker.habits@.len() implies (
                        #[trigger] self.tracker.habits@[i]).wf() by {
                            if i != row as int {
                                assert(self.tracker.habits@[i] == old_habits[i]);
                            }
                        }
                    }
                }
            },
        }
    }

    /// Consumes the value character awaited in value-entry mode and
    /// returns to normal mode.
    pub fn supply_value(&mut self, c: char)
        requires
            old(self).inv(),
            old(self).mode == AppMode::HABIT,
        ensures
            final(self).inv(),
            spec_supplied(*old(self), *final(self), c),
    {
        let sel = self.state.selected();
        match sel {
            None => {},
            Some((row, col)) => {
                let dates = self.tracker.get_date_range();
                let date = dates[col];
                let is_alpha = match self.tracker.habits[row].habit_type {
                    HabitType::ALPHA => true,
                    _ => false,
                };
                if is_alpha {
                    let ghost old_habits = self.tracker.habits@;
                    let mut h = self.tracker.habits.remove(row);
                    h.check_task(date, Some(c));
                    self.tracker.habits.insert(row, h);
                    proof {
                        assert(forall|i: int|
                            0 <= i < old_habits.len() && i != row as int
                                ==> self.tracker.habits@[i] == old_habits[i]);
                        assert forall|i: int|
                            0 <= i < self.tracker.habits@.len() implies (
                        #[trigger] self.tracker.habits@[i]).wf() by {
                            if i != row as int {
                                assert(self.tracker.habits@[i] == old_habits[i]);
                            }
                        }
                    }
                }
            },
        }
        self.mode = AppMode::NORMAL;
    }

    /// Feeds one tokenized command to the interpreter, surfaces a
    /// reported error as the message text, and clamps the selection to
    /// the new habit count.
    fn handle_commands(&mut self, tokens: Vec<Token>)
        requires
            old(self).inv(),
        ensures
            final(self).inv(),
            final(self).mode == old(self).mode,
            spec_commanded(*old(self), *final(self), spec_models(tokens@)),
    {
        let res = interpret(&tokens, &mut self.tracker);
        let ghost gres = res;
        match res {
            CommandResult::Error(msg) => {
                self.input = msg;
            },
            _ => {},
        }
        match self.state.selected() {
            Some((row, col)) => {
                let len = self.tracker.habits.len();
                if len == 0 {
                    self.state.selected_row = None;
                    self.state.selected_column = None;
                } else if row >= len {
                    self.state.select((len - 1, col));
                }
            },
            None => {},
        }
        proof {
            assert(spec_interpreted(
                spec_models(tokens@),
                old(self).tracker.habits@,
                self.tracker.habits@,
                gres,
            ) && (match gres {
                CommandResult::Error(msg) => self.input == msg,
                _ => self.input == old(self).input,
            }));
        }
    }

    /// Executes the typed command line: tokenizes it and hands the
    /// tokens to the interpreter; a malformed line only reports a
    /// message.
    pub fn execute_input(&mut self)
        requires
            old(self).inv(),
        ensures
            final(self).inv(),
            final(self).mode == old(self).mode,
            spec_executed(*old(self), *final(self)),
    {
        match tokenize(self.input.as_str()) {
            Ok(ts) => {
                proof {
                    let ms = spec_tokenize(old(self).input@, 0)->0;
                    lemma_tokens_match_models(ts@, ms);
                }
                self.handle_commands(ts);
            },
            Err(_) => {
                self.input = error_hint();
            },
        }
    }
}

/// One step of the session state machine: what one key event does in
/// each input mode, and whether the session should end.
pub open spec fn spec_step(o: App, n: App, key: Key, quit: bool) -> bool {
    match o.mode {
        AppMode::NORMAL => match key {
            Key::Char(c) => {
                if c == 'q' {
                    quit && n == o
                } else if c == 'k' {
                    !quit && spec_move_up(o, n)
                } else if c == 'j' {
                    !quit && spec_move_down(o, n)
                } else if c == 'h' {
                    !quit && spec_move_left(o, n)
                } else if c == 'l' {
                    !quit && spec_move_right(o, n)
                } else if c == ' ' {
                    !quit && spec_mark_step(o, n)
                } else if c == ':' {
                    &&& !quit
                    &&& n.mode == AppMode::COMMAND
                    &&& n.input@.len() == 0
                    &&& n.tracker == o.tracker
                    &&& n.state == o.state
                } else {
                    !quit && n == o
                }
            },
            _ => !quit && n == o,
        },
        AppMode::COMMAND => !quit && (match key {
            Key::Esc => n.mode == AppMode::NORMAL && n.input@.len() == 0 && n.tracker == o.tracker
                && n.state == o.state,
            Key::Enter => n.mode == AppMode::NORMAL && spec_executed(o, n),
            Key::Char(c) => n.mode == o.mode && n.input@ == o.input@.push(c) && n.tracker
                == o.tracker && n.state == o.state,
            Key::Backspace => n.mode == o.mode && n.tracker == o.tracker && n.state == o.state && (
            if o.input@.len() == 0 {
                n.input@ == o.input@
            } else {
                n.input@ == o.input@.drop_last()
            }),
            Key::Other => n == o,
        }),
        AppMode::HABIT => !quit && (match key {
            Key::Esc => n.mode == AppMode::NORMAL && n.input == o.input && n.tracker == o.tracker
                && n.state == o.state,
            Key::Char(c) => spec_supplied(o, n, c),
            _ => n == o,
        }),
    }
}

impl App {
    /// Feeds one key event through the state machine: normal mode
    /// navigates, marks and opens the command line; command mode edits
    /// and submits the command text; value-entry mode takes the one
    /// awaited character. True means the session should end.
    pub fn handle_key(&mut self, key: Key) -> (quit: bool)
        requires
            old(self).inv(),
            old(self).room(),
        ensures
            final(self).inv(),
            spec_step(*old(self), *final(self), key, quit),
    {
        match self.mode {
            AppMode::NORMAL => {
                match key {
                    Key::Char(c) => {
                        if c == 'q' {
                            return true;
                        } else if c == 'k' {
                            self.move_cursor_up();
                        } else if c == 'j' {
                            self.move_cursor_down();
                        } else if c == 'h' {
                            self.move_cursor_left();
                        } else if c == 'l' {
                            self.move_cursor_right();
                        } else if c == ' ' {
                            self.mark_habit();
                        } else if c == ':' {
                            self.enter_command_mode();
                        }
                    },
                    _ => {},
                }
                false
            },
            AppMode::COMMAND => {
                match key {
                    Key::Esc => {
                        self.input = String::new();
                        self.mode = AppMode::NORMAL;
                    },
                    Key::Enter => {
                        self.execute_input();
                        self.mode = AppMode::NORMAL;
                    },
                    Key::Char(c) => {
                        text::push_char(&mut self.input, c);
                    },
                    Key::Backspace => {
                        text::pop_char(&mut self.input);
                    },
                    Key::Other => {},
                }
                false
            },
            AppMode::HABIT => {
                match key {
                    Key::Esc => {
                        self.mode = AppMode::NORMAL;
                    },
                    Key::Char(c) => {
                        self.supply_value(c);
                    },
                    _ => {},
                }
                false
            },
        }
    }
}

/// The hint shown when a command line cannot be tokenized.
fn error_hint() -> (r: String) {
    String::from_str("Error! please use format `add 'habit name'`")
}

} // verus!
