//! Quizzes written in a small plain-text format: the parser that reads them,
//! the matching of free-text answers, and the scoring of each question and of a
//! whole sitting.

pub mod ask;
pub mod choice;
pub mod error;
pub mod list;
pub mod load;
pub mod matching;
pub mod parser;
pub mod question;
pub mod quiz;
pub mod results;
pub mod score;
pub mod text;
pub mod turn;
