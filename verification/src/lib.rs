//! A terminal habit-tracking grid: habits are tracked across a rolling
//! weekly calendar window, marked per day according to their type, and
//! edited through a small textual command language.
//!
//! The crate holds the tracking data model (`habit`), the week-window
//! arithmetic (`date`, `tracker`), the command tokenizer and interpreter
//! (`token`, `interp`), the cursor and input-mode state machine (`cursor`),
//! the persisted-state text format (`codec`), and the shared text and
//! number helpers they build on (`text`).

pub mod codec;
pub mod cursor;
pub mod date;
pub mod habit;
pub mod interp;
pub mod text;
pub mod token;
pub mod tracker;

pub use date::Date;
pub use habit::{Habit, HabitType, Record};
pub use tracker::HabitTracker;
pub use token::{Token, TokenType, TokenizeError, tokenize};
pub use interp::{CommandResult, interpret};
pub use cursor::{App, AppMode, AppState, Key};
pub use codec::{parse_tracker, serialize_tracker};
