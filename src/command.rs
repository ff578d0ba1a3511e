//! The commands that the arguments spell, and how they are read.

use vstd::prelude::*;

use crate::error::{NoteError, NoteErrorModel};
use crate::number::{index_of, parse_index};
use crate::text::views;

verus! {

/// One command of the tool.
#[derive(Debug, PartialEq, Eq)]
pub enum CliCommand {
    /// `i <value> [index]`: insert a note, at the end when no position is given.
    Insert(String, Option<usize>),
    /// `c <value> [index]`: change a note, the last one when no position is given.
    Change(String, Option<usize>),
    /// `d [index...]`: delete notes, the last one when no position is given.
    Delete(Option<Vec<usize>>),
    /// `D`: delete the whole notebook.
    DeleteFile,
    /// `l`: list the notebooks.
    ListFiles,
    /// `h`: show the usage text.
    Help,
    /// `e`: open the notebook in a text editor.
    Edit,
}

/// The mathematical value of a [`CliCommand`].
pub enum CommandModel {
    Insert(Seq<char>, Option<usize>),
    Change(Seq<char>, Option<usize>),
    Delete(Option<Seq<usize>>),
    DeleteFile,
    ListFiles,
    Help,
    Edit,
}

impl View for CliCommand {
    type V = CommandModel;

    open spec fn view(&self) -> CommandModel {
        match self {
            CliCommand::Insert(v, i) => CommandModel::Insert(v@, *i),
            CliCommand::Change(v, i) => CommandModel::Change(v@, *i),
            CliCommand::Delete(None) => CommandModel::Delete(None),
            CliCommand::Delete(Some(v)) => CommandModel::Delete(Some(v@)),
            CliCommand::DeleteFile => CommandModel::DeleteFile,
            CliCommand::ListFiles => CommandModel::ListFiles,
            CliCommand::Help => CommandModel::Help,
            CliCommand::Edit => CommandModel::Edit,
        }
    }
}

/// The view of an optional command.
pub open spec fn command_view(c: Option<CliCommand>) -> Option<CommandModel> {
    match c {
        None => None,
        Some(c) => Some(c@),
    }
}

/// The view of what reading the arguments returned.
pub open spec fn parsed_view(r: Result<Option<CliCommand>, NoteError>) -> Result<
    Option<CommandModel>,
    NoteErrorModel,
> {
    match r {
        Ok(c) => Ok(command_view(c)),
        Err(e) => Err(e@),
    }
}

/// The optional position at `args[k]`: none when there is no such argument.
pub open spec fn optional_index(args: Seq<Seq<char>>, k: int) -> Result<
    Option<usize>,
    NoteErrorModel,
> {
    if k >= args.len() {
        Ok(None)
    } else {
        match index_of(args[k]) {
            Some(i) => Ok(Some(i)),
            None => Err(NoteErrorModel::NotAnIndex(args[k])),
        }
    }
}

/// The positions that all of `args` denote, or the first argument that is
/// no position.
pub open spec fn indices_of(args: Seq<Seq<char>>) -> Result<Seq<usize>, Seq<char>>
    decreases args.len(),
{
    if args.len() == 0 {
        Ok(Seq::empty())
    } else {
        match indices_of(args.drop_last()) {
            Err(bad) => Err(bad),
            Ok(found) => match index_of(args.last()) {
                Some(i) => Ok(found.push(i)),
                None => Err(args.last()),
            },
        }
    }
}

/// The command that the arguments after the notebook spell: none for no
/// arguments, else the first one names the command and the rest are its
/// value and positions; arguments past those a command reads are ignored.
pub open spec fn command_of(args: Seq<Seq<char>>) -> Result<Option<CommandModel>, NoteErrorModel> {
    if args.len() == 0 {
        Ok(None)
    } else {
        let word = args[0];
        if word == seq!['i'] || word == seq!['c'] {
            if args.len() < 2 {
                Err(NoteErrorModel::MissingValue)
            } else {
                match optional_index(args, 2) {
                    Err(e) => Err(e),
                    Ok(idx) => Ok(
                        Some(
                            if word == seq!['i'] {
                                CommandModel::Insert(args[1], idx)
                            } else {
                                CommandModel::Change(args[1], idx)
                            },
                        ),
                    ),
                }
            }
        } else if word == seq!['d'] {
            match indices_of(args.drop_first()) {
                Err(bad) => Err(NoteErrorModel::NotAnIndex(bad)),
                Ok(found) => Ok(
                    Some(
                        CommandModel::Delete(
                            if found.len() == 0 {
                                None
                            } else {
                                Some(found)
                            },
                        ),
                    ),
                ),
            }
        } else if word == seq!['h'] {
            Ok(Some(CommandModel::Help))
        } else if word == seq!['l'] {
            Ok(Some(CommandModel::ListFiles))
        } else if word == seq!['D'] {
            Ok(Some(CommandModel::DeleteFile))
        } else if word == seq!['e'] {
            Ok(Some(CommandModel::Edit))
        } else {
            Err(NoteErrorModel::UnknownCommand(word))
        }
    }
}

/// Whether `s` is exactly the one character `c`.
pub fn is_word(s: &str, c: char) -> (r: bool)
    ensures
        r == (s@ == seq![c]),
{
    if s.unicode_len() != 1 {
        return false;
    }
    let first = s.get_char(0);
    assert(first == c ==> s@ =~= seq![c]);
    first == c
}

/// Whether `s` is one of the command letters `i c d h l D e`.
pub fn is_command_word(s: &str) -> (r: bool)
    ensures
        r == (s@ == seq!['i'] || s@ == seq!['c'] || s@ == seq!['d'] || s@ == seq!['h'] || s@
            == seq!['l'] || s@ == seq!['D'] || s@ == seq!['e']),
{
    is_word(s, 'i') || is_word(s, 'c') || is_word(s, 'd') || is_word(s, 'h') || is_word(s, 'l')
        || is_word(s, 'D') || is_word(s, 'e')
}

fn read_optional_index(command: &Vec<String>, k: usize) -> (r: Result<Option<usize>, NoteError>)
    ensures
        match optional_index(views(command@), k as int) {
            Ok(i) => r == Ok::<Option<usize>, NoteError>(i),
            Err(e) => r is Err && r->Err_0@ == e,
        },
{
    if k >= command.len() {
        return Ok(None);
    }
    let ghost a = views(command@);
    assert(a[k as int] == command@[k as int]@);
    match parse_index(command[k].as_str()) {
        Some(i) => Ok(Some(i)),
        None => Err(NoteError::NotAnIndex(command[k].clone())),
    }
}

/// Reads a command from the arguments that follow the notebook name.
pub fn parse_command(command: Vec<String>) -> (r: Result<Option<CliCommand>, NoteError>)
    ensures
        parsed_view(r) == command_of(views(command@)),
{
    let ghost a = views(command@);
    if command.len() == 0 {
        return Ok(None);
    }
    assert(a[0] == command@[0]@);
    let word = command[0].as_str();
    if is_word(word, 'i') || is_word(word, 'c') {
        if command.len() < 2 {
            return Err(NoteError::MissingValue);
        }
        assert(a[1] == command@[1]@);
        let index = match read_optional_index(&command, 2) {
            Ok(i) => i,
            Err(e) => {
                return Err(e);
            },
        };
        let value = command[1].clone();
        if is_word(word, 'i') {
            Ok(Some(CliCommand::Insert(value, index)))
        } else {
            Ok(Some(CliCommand::Change(value, index)))
        }
    } else if is_word(word, 'd') {
        let n = command.len();
        let ghost rest = a.drop_first();
        let mut found: Vec<usize> = Vec::new();
        let mut k: usize = 1;
        while k < n
            invariant
                1 <= k <= n,
                n == command@.len(),
                a == views(command@),
                rest == a.drop_first(),
                a[0] == seq!['d'],
                a[0] != seq!['i'],
                a[0] != seq!['c'],
                indices_of(rest.take(k - 1)) == Ok::<Seq<usize>, Seq<char>>(found@),
            decreases n - k,
        {
            assert(rest.take(k as int).drop_last() =~= rest.take(k - 1));
            assert(rest.take(k as int).last() == command@[k as int]@);
            match parse_index(command[k].as_str()) {
                Some(i) => {
                    found.push(i);
                },
                None => {
                    let bad = command[k].clone();
                    assert(indices_of(rest.take(k as int)) == Err::<Seq<usize>, Seq<char>>(
                        bad@,
                    ));
                    proof {
                        lemma_indices_error_stays(rest, k as int);
                    }
                    return Err(NoteError::NotAnIndex(bad));
                },
            }
            k = k + 1;
        }
        assert(rest.take(n - 1) =~= rest);
        if found.len() == 0 {
            Ok(Some(CliCommand::Delete(None)))
        } else {
            Ok(Some(CliCommand::Delete(Some(found))))
        }
    } else if is_word(word, 'h') {
        Ok(Some(CliCommand::Help))
    } else if is_word(word, 'l') {
        Ok(Some(CliCommand::ListFiles))
    } else if is_word(word, 'D') {
        Ok(Some(CliCommand::DeleteFile))
    } else if is_word(word, 'e') {
        Ok(Some(CliCommand::Edit))
    } else {
        Err(NoteError::UnknownCommand(command[0].clone()))
    }
}

proof fn lemma_indices_error_stays(args: Seq<Seq<char>>, k: int)
    requires
        0 <= k <= args.len(),
        indices_of(args.take(k)) is Err,
    ensures
        indices_of(args) == indices_of(args.take(k)),
    decreases args.len() - k,
{
    if k < args.len() {
        assert(args.take(k + 1).drop_last() =~= args.take(k));
        lemma_indices_error_stays(args, k + 1);
    } else {
        assert(args.take(k) =~= args);
    }
}

} // verus!
