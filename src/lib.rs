//! A small note keeper: an ordered list of text lines stored in a file,
//! edited by one-letter commands with 1-based positions.

pub mod error;
pub mod number;
pub mod text;
pub mod notes;
pub mod command;
pub mod listing;
pub mod cli;
