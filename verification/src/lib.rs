//! Calendar-aware durations: month/year shifts with deterministic month-end
//! normalization, a mixed calendar/absolute duration type with an ISO-8601
//! codec, and drift-free date sequences.
use vstd::prelude::*;

pub mod date;
pub mod delta;
pub mod duration;
pub mod parse;
pub mod relative_duration;
pub mod rule;

pub use crate::date::CalendarDate;
pub use crate::date::CalendarDateTime;
pub use crate::date::Datelike;
pub use crate::delta::is_leap_year;
pub use crate::delta::normalise_day;
pub use crate::delta::shift_months;
pub use crate::delta::shift_months_opt;
pub use crate::delta::shift_years;
pub use crate::delta::shift_years_opt;
pub use crate::delta::with_day;
pub use crate::delta::with_month;
pub use crate::delta::with_month_opt;
pub use crate::delta::with_year;
pub use crate::delta::with_year_opt;
pub use crate::duration::Duration;
pub use crate::relative_duration::RelativeDuration;
pub use crate::rule::DateRule;

verus! {

/// The errors this library reports. Parsing errors describe malformed
/// ISO-8601 duration text; the last two report a value outside its range.
#[derive(Clone, Copy, PartialEq, Eq, Structural, Hash, Debug)]
pub enum Error {
    /// The duration text did not begin with the mandatory `P`.
    MissingPrefix,
    /// A numeric field could not be read as an integer of the expected
    /// width.
    InvalidInteger,
    /// Unrecognized characters remained after all known fields were
    /// consumed.
    TrailingCharacters,
    /// Combining the fields overflowed the duration representation.
    DurationOutOfRange,
    /// A rolling day outside the range 1 through 31.
    RollingDayOutOfRange,
}

impl Error {
    /// The description [`Error::message`] gives for each error.
    pub open spec fn message_spec(self) -> Seq<char> {
        match self {
            Error::MissingPrefix => "duration was not prefixed with P"@,
            Error::InvalidInteger => "a field is not a valid integer"@,
            Error::TrailingCharacters => "trailing characters in duration"@,
            Error::DurationOutOfRange => "integer overflow on constructing duration"@,
            Error::RollingDayOutOfRange => "rolling day not in range 1-31"@,
        }
    }

    /// A short description of the error.
    pub fn message(&self) -> (r: &'static str)
        ensures
            r@ == self.message_spec(),
    {
        match self {
            Error::MissingPrefix => "duration was not prefixed with P",
            Error::InvalidInteger => "a field is not a valid integer",
            Error::TrailingCharacters => "trailing characters in duration",
            Error::DurationOutOfRange => "integer overflow on constructing duration",
            Error::RollingDayOutOfRange => "rolling day not in range 1-31",
        }
    }
}

} // verus!
