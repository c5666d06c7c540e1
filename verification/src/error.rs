//! The ways in which reading or taking a quiz can fail.

use vstd::prelude::*;

verus! {

/// Why a quiz file could not be read.
#[derive(Debug, Clone, Copy, PartialEq, Eq, Structural)]
pub enum ParseReason {
    /// A line that is neither blank nor a comment has no colon.
    MissingColon,
    /// An entry that opens with `q` gives no answer.
    NoAnswer,
}

/// A quiz file could not be read; nothing of it is kept.
#[derive(Debug, Clone, Copy, PartialEq, Eq, Structural)]
pub struct ParseError {
    /// The offending line, counted from 1.
    pub line: usize,
    pub reason: ParseReason,
}

/// A failure while loading or taking a quiz.
#[derive(Debug, Clone, PartialEq, Eq)]
pub enum QuizError {
    /// The quiz file could not be read.
    Parse(ParseError),
    /// No question was selected for the sitting.
    EmptyQuiz,
    /// The user broke off while a response was being read.
    ReadlineInterrupted,
    /// Reading or writing failed; the text says how.
    Io(String),
    /// Stored results could not be decoded or encoded; the text says how.
    Json(String),
    /// The results file at this path could not be written.
    CannotWriteToFile(String),
}

} // verus!
