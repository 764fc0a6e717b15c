//! Evaluation of iCalendar-style recurrence rules: a parser and validator for
//! the `NAME=VALUE;...` rule grammar, and a stepper that enumerates the
//! occurrence instants of a rule under its frequency, interval, `BY*` filters,
//! count budget and `UNTIL` bound.
use vstd::prelude::*;

pub mod civil;
pub mod driver;
pub mod json;
pub mod laws;
pub mod format;
pub mod weekday;
pub mod parser;
pub mod rule;
pub mod stepper;
pub mod textnum;
pub mod tz;

pub use civil::{Civil, Zoned};
pub use driver::{get_all_iter_dates, get_all_iter_dates_from_today};
pub use parser::convert_to_rrule;
pub use rule::{RRule, RuleParseError, RuleValidationError};
pub use rule::validate_rrule;
pub use stepper::GenerationError;

verus! {

/// The library never produces occurrences after this year; stepping that
/// would leave the range fails instead of overflowing.
pub const MAX_YEAR: i32 = 9999;

} // verus!
