//! Home office day tracking: the days on which one worked from home, kept
//! as a set of calendar dates.
//!
//! The library holds the date-range engine and the interaction controller
//! of the terminal screen:
//!
//! - [`date`]: calendar days, their order and the day after a day;
//! - [`text`]: the written form of a date, white space and the separator of
//!   a range;
//! - [`parse`]: reading one date or a range of dates from a text;
//! - [`range`]: compressing dates into runs of consecutive days;
//! - [`roundtrip`]: what reading a written range yields;
//! - [`export`]: the store's keys written as lines;
//! - [`store`]: what the answers of the date store mean;
//! - [`controller`]: the state machine of the terminal screen;
//! - [`menu`]: the one-key menu and its prompts;
//! - [`chrono_dates`] and [`string_specs`]: what is taken on trust from
//!   `chrono` and from the standard library.
//!
//! The store itself, the command line and the drawing of the screen are not
//! part of the library.

pub mod chrono_dates;
pub mod controller;
pub mod date;
pub mod export;
pub mod menu;
pub mod parse;
pub mod range;
pub mod roundtrip;
pub mod store;
pub mod string_specs;
pub mod text;

pub use controller::{decode, AppState, Command, Effect, InputMode, Key, KeyPress};
pub use date::CalendarDate;
pub use export::{export_lines, get_export, store_key, ExportError};
pub use parse::{parse_dates, parse_dates_on, parse_dates_or_default, ParseError};
pub use range::{compress, DateRange};
