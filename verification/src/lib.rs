//! Finds "sticky" sentences: sentences in which more than half of the words
//! are short, frequent glue words.

pub mod chars;
pub mod decimal;
pub mod words;
pub mod glue;
pub mod report;
pub mod sentence;
