//! The reasons for which a shared text or a date line is refused.

use vstd::prelude::*;
use vstd::string::StringExecFns;

verus! {

/// Why a shared text or a date line was refused.
#[derive(Debug, PartialEq, Eq)]
pub enum AkariParserError {
    /// The text holds no header line: it is no Daily Akari result.
    ScoreNotFound,
    /// The line carries no date, or one that the calendar does not have.
    InvalidDateFormat,
    /// No line carries a score, or the chosen line's numbers are out of range.
    InvalidScoreFormat,
    /// A condition that the library's own invariants exclude.
    InternalError(String),
}

impl AkariParserError {
    /// The text of the message for this error.
    pub open spec fn message_text(self) -> Seq<char> {
        match self {
            AkariParserError::ScoreNotFound => "Daily Akari Score not found"@,
            AkariParserError::InvalidDateFormat => "Invalid date format"@,
            AkariParserError::InvalidScoreFormat => "Invalid score format"@,
            AkariParserError::InternalError(detail) => "Internal error: "@ + detail@,
        }
    }

    /// The message for this error.
    pub fn message(&self) -> (r: String)
        ensures
            r@ == self.message_text(),
    {
        match self {
            AkariParserError::ScoreNotFound => String::from_str("Daily Akari Score not found"),
            AkariParserError::InvalidDateFormat => String::from_str("Invalid date format"),
            AkariParserError::InvalidScoreFormat => String::from_str("Invalid score format"),
            AkariParserError::InternalError(detail) => String::from_str("Internal error: ").concat(
                detail.as_str(),
            ),
        }
    }
}

} // verus!
