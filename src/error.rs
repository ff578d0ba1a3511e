//! The errors that the note operations and the argument parser report.

use vstd::prelude::*;

verus! {

/// What can go wrong while reading the arguments or editing a note list.
#[derive(Debug, PartialEq, Eq)]
pub enum NoteError {
    /// A notebook name holds a path separator or a dot.
    InvalidName,
    /// An insert or change was given no text, or empty text.
    MissingValue,
    /// A position lies outside the range that the operation allows.
    InvalidIndex(usize),
    /// A change or a default delete on a list that has no entries.
    EmptyList,
    /// An argument that should be a position is not a decimal number.
    NotAnIndex(String),
    /// The first argument names no command.
    UnknownCommand(String),
    /// The platform gives no per-user data directory.
    NoDataDir,
}

/// The mathematical value of a [`NoteError`]: its text fields as character sequences.
pub enum NoteErrorModel {
    InvalidName,
    MissingValue,
    InvalidIndex(usize),
    EmptyList,
    NotAnIndex(Seq<char>),
    UnknownCommand(Seq<char>),
    NoDataDir,
}

impl View for NoteError {
    type V = NoteErrorModel;

    open spec fn view(&self) -> NoteErrorModel {
        match self {
            NoteError::InvalidName => NoteErrorModel::InvalidName,
            NoteError::MissingValue => NoteErrorModel::MissingValue,
            NoteError::InvalidIndex(i) => NoteErrorModel::InvalidIndex(*i),
            NoteError::EmptyList => NoteErrorModel::EmptyList,
            NoteError::NotAnIndex(s) => NoteErrorModel::NotAnIndex(s@),
            NoteError::UnknownCommand(s) => NoteErrorModel::UnknownCommand(s@),
            NoteError::NoDataDir => NoteErrorModel::NoDataDir,
        }
    }
}

} // verus!
