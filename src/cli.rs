//! The tool's invocation: which notebook, which command, and what running
//! the command on the notebook's stored text amounts to.

use vstd::prelude::*;

use std::path::PathBuf;

use crate::command::{command_of, command_view, is_command_word, parse_command, CliCommand, CommandModel};
use crate::error::{NoteError, NoteErrorModel};
use crate::notes::{changed, deleted, inserted, NoteList};
use crate::text::{lines_of_text, text_of_lines, views};

verus! {

/// Declares std's `PathBuf`, so that a [`Cli`] can carry the data directory
/// through; nothing inside a path is looked at here.
#[verifier::external_type_specification]
#[verifier::external_body]
pub struct ExPathBuf(PathBuf);

/// Relies on `dirs::data_dir`: the per-user data directory of the platform,
/// if it has one. What it returns depends on the environment, so nothing is
/// stated of it.
#[verifier::external_body]
fn user_data_dir() -> (r: Option<PathBuf>) {
    dirs::data_dir()
}

/// The name of the notebook used when none is named: `default`.
pub open spec fn default_notebook() -> Seq<char> {
    seq!['d', 'e', 'f', 'a', 'u', 'l', 't']
}

/// Whether `name` may name a notebook: it holds no `/` and no `.`.
pub open spec fn valid_name(name: Seq<char>) -> bool {
    !name.contains('/') && !name.contains('.')
}

/// Checks that `name` holds no `/` and no `.`.
pub fn is_valid_name(name: &str) -> (r: bool)
    ensures
        r == valid_name(name@),
{
    let n = name.unicode_len();
    let mut i: usize = 0;
    while i < n
        invariant
            i <= n,
            n == name@.len(),
            forall|j: int| 0 <= j < i ==> name@[j] != '/' && name@[j] != '.',
        decreases n - i,
    {
        let c = name.get_char(i);
        if c == '/' || c == '.' {
            assert(name@[i as int] == c);
            return false;
        }
        i = i + 1;
    }
    true
}

/// The notebook and command that the program's arguments select. The first
/// argument is the program itself. A first argument after it that is no
/// command letter names the notebook; such a name may hold no `/` or `.`.
pub open spec fn invocation_of(args: Seq<Seq<char>>) -> Result<
    (Seq<char>, Option<CommandModel>),
    NoteErrorModel,
> {
    let rest = if args.len() == 0 {
        args
    } else {
        args.drop_first()
    };
    if rest.len() == 0 {
        Ok((default_notebook(), None))
    } else if !valid_name(rest[0]) {
        Err(NoteErrorModel::InvalidName)
    } else if rest[0] == seq!['i'] || rest[0] == seq!['c'] || rest[0] == seq!['d'] || rest[0]
        == seq!['h'] || rest[0] == seq!['l'] || rest[0] == seq!['D'] || rest[0] == seq!['e'] {
        match command_of(rest) {
            Ok(c) => Ok((default_notebook(), c)),
            Err(e) => Err(e),
        }
    } else {
        match command_of(rest.drop_first()) {
            Ok(c) => Ok((rest[0], c)),
            Err(e) => Err(e),
        }
    }
}

/// The mathematical value of a [`Cli`].
pub struct CliModel {
    pub data_dir: PathBuf,
    pub notebook: Seq<char>,
    pub command: Option<CommandModel>,
}

/// One invocation of the tool: the data directory, the notebook in it, and
/// the command to run; no command shows the notebook.
#[derive(Debug)]
pub struct Cli {
    data_dir: PathBuf,
    notebook: String,
    command: Option<CliCommand>,
}

impl View for Cli {
    type V = CliModel;

    closed spec fn view(&self) -> CliModel {
        CliModel {
            data_dir: self.data_dir,
            notebook: self.notebook@,
            command: command_view(self.command),
        }
    }
}

/// What running a command asks to be done with the notebook.
#[derive(Debug, PartialEq, Eq)]
pub enum Plan {
    /// Show the notebook.
    Print,
    /// Store this text as the notebook, warn of these skipped indices, then
    /// show it.
    Write(String, Vec<usize>),
    /// Delete the notebook.
    RemoveNotebook,
    /// List the notebooks.
    ListNotebooks,
    /// Show the usage text.
    ShowHelp,
    /// Open the notebook in a text editor.
    OpenEditor,
}

/// The mathematical value of a [`Plan`].
pub enum PlanModel {
    Print,
    Write(Seq<char>, Seq<usize>),
    RemoveNotebook,
    ListNotebooks,
    ShowHelp,
    OpenEditor,
}

impl View for Plan {
    type V = PlanModel;

    open spec fn view(&self) -> PlanModel {
        match self {
            Plan::Print => PlanModel::Print,
            Plan::Write(t, s) => PlanModel::Write(t@, s@),
            Plan::RemoveNotebook => PlanModel::RemoveNotebook,
            Plan::ListNotebooks => PlanModel::ListNotebooks,
            Plan::ShowHelp => PlanModel::ShowHelp,
            Plan::OpenEditor => PlanModel::OpenEditor,
        }
    }
}

/// What running `command` on a notebook whose stored text is `stored` asks
/// for: an edit yields the text of the edited list, or the edit's error.
pub open spec fn plan_of(command: Option<CommandModel>, stored: Seq<char>) -> Result<
    PlanModel,
    NoteError,
> {
    let notes = lines_of_text(stored);
    match command {
        None => Ok(PlanModel::Print),
        Some(CommandModel::Insert(v, i)) => match inserted(notes, v, i) {
            Ok(l) => Ok(PlanModel::Write(text_of_lines(l), Seq::empty())),
            Err(e) => Err(e),
        },
        Some(CommandModel::Change(v, i)) => match changed(notes, v, i) {
            Ok(l) => Ok(PlanModel::Write(text_of_lines(l), Seq::empty())),
            Err(e) => Err(e),
        },
        Some(CommandModel::Delete(d)) => match deleted(
            notes,
            match d {
                None => Seq::empty(),
                Some(s) => s,
            },
        ) {
            Ok((l, s)) => Ok(PlanModel::Write(text_of_lines(l), s)),
            Err(e) => Err(e),
        },
        Some(CommandModel::DeleteFile) => Ok(PlanModel::RemoveNotebook),
        Some(CommandModel::ListFiles) => Ok(PlanModel::ListNotebooks),
        Some(CommandModel::Help) => Ok(PlanModel::ShowHelp),
        Some(CommandModel::Edit) => Ok(PlanModel::OpenEditor),
    }
}

/// The view of what building a [`Cli`] returned.
pub open spec fn built_view(r: Result<Cli, NoteError>) -> Result<CliModel, NoteErrorModel> {
    match r {
        Ok(c) => Ok(c@),
        Err(e) => Err(e@),
    }
}

/// The view that `invocation_of` gives, with the data directory added.
pub open spec fn invocation_in(data_dir: PathBuf, args: Seq<Seq<char>>) -> Result<
    CliModel,
    NoteErrorModel,
> {
    match invocation_of(args) {
        Ok((notebook, command)) => Ok(CliModel { data_dir, notebook, command }),
        Err(e) => Err(e),
    }
}

impl Cli {
    /// Reads the program's arguments, the program itself first, and looks up
    /// the per-user data directory; fails with `NoDataDir` where there is none.
    pub fn new(args: Vec<String>) -> (r: Result<Cli, NoteError>)
        ensures
            r is Err && r->Err_0@ == NoteErrorModel::NoDataDir || (exists|d: PathBuf|
                built_view(r) == #[trigger] invocation_in(d, views(args@))),
    {
        match user_data_dir() {
            None => Err(NoteError::NoDataDir),
            Some(dir) => Cli::with_data_dir(dir, args),
        }
    }

    /// Reads the program's arguments, the program itself first, for notebooks
    /// kept under `data_dir`.
    pub fn with_data_dir(data_dir: PathBuf, args: Vec<String>) -> (r: Result<Cli, NoteError>)
        ensures
            built_view(r) == invocation_in(data_dir, views(args@)),
    {
        let ghost a = views(args@);
        let mut rest = args;
        if rest.len() > 0 {
            rest.remove(0);
        }
        assert(views(rest@) =~= if a.len() == 0 {
            a
        } else {
            a.drop_first()
        });
        let default_name = String::from_str("default");
        proof {
            reveal_strlit("default");
        }
        assert(default_name@ =~= default_notebook());
        if rest.len() == 0 {
            return Ok(Cli { data_dir, notebook: default_name, command: None });
        }
        assert(views(rest@)[0] == rest@[0]@);
        if !is_valid_name(rest[0].as_str()) {
            return Err(NoteError::InvalidName);
        }
        if is_command_word(rest[0].as_str()) {
            match parse_command(rest) {
                Ok(command) => Ok(Cli { data_dir, notebook: default_name, command }),
                Err(e) => Err(e),
            }
        } else {
            let ghost before = views(rest@);
            let notebook = rest.remove(0);
            assert(views(rest@) =~= before.drop_first());
            match parse_command(rest) {
                Ok(command) => Ok(Cli { data_dir, notebook, command }),
                Err(e) => Err(e),
            }
        }
    }

    /// The per-user data directory that the notebooks are kept under.
    pub fn data_dir(&self) -> (r: &PathBuf)
        ensures
            *r == self@.data_dir,
    {
        &self.data_dir
    }

    /// The name of the notebook.
    pub fn notebook(&self) -> (r: &String)
        ensures
            r@ == self@.notebook,
    {
        &self.notebook
    }

    /// The command; none shows the notebook.
    pub fn command(&self) -> (r: &Option<CliCommand>)
        ensures
            command_view(*r) == self@.command,
    {
        &self.command
    }

    /// Runs the command on the notebook whose stored text is `stored` (empty
    /// where the notebook does not exist yet) and returns what is to be done.
    pub fn execute(&self, stored: &str) -> (r: Result<Plan, NoteError>)
        ensures
            match plan_of(self@.command, stored@) {
                Ok(p) => r is Ok && r->Ok_0@ == p,
                Err(e) => r == Err::<Plan, NoteError>(e),
            },
    {
        match &self.command {
            None => Ok(Plan::Print),
            Some(CliCommand::Insert(value, index)) => {
                let mut notes = NoteList::from_text(stored);
                match notes.insert(value.clone(), *index) {
                    Ok(()) => Ok(Plan::Write(notes.to_text(), Vec::new())),
                    Err(e) => Err(e),
                }
            },
            Some(CliCommand::Change(value, index)) => {
                let mut notes = NoteList::from_text(stored);
                match notes.change(value.clone(), *index) {
                    Ok(()) => Ok(Plan::Write(notes.to_text(), Vec::new())),
                    Err(e) => Err(e),
                }
            },
            Some(CliCommand::Delete(indices)) => {
                let mut notes = NoteList::from_text(stored);
                let chosen = match indices {
                    None => Vec::new(),
                    Some(v) => v.clone(),
                };
                match notes.delete(&chosen) {
                    Ok(skipped) => Ok(Plan::Write(notes.to_text(), skipped)),
                    Err(e) => Err(e),
                }
            },
            Some(CliCommand::DeleteFile) => Ok(Plan::RemoveNotebook),
            Some(CliCommand::ListFiles) => Ok(Plan::ListNotebooks),
            Some(CliCommand::Help) => Ok(Plan::ShowHelp),
            Some(CliCommand::Edit) => Ok(Plan::OpenEditor),
        }
    }
}

/// The editor program to open a notebook with: `visual` where it is set,
/// else `editor`, else `nano`.
pub fn choose_editor(visual: Option<String>, editor: Option<String>) -> (r: String)
    ensures
        r@ == match (visual, editor) {
            (Some(v), _) => v@,
            (None, Some(e)) => e@,
            (None, None) => seq!['n', 'a', 'n', 'o'],
        },
{
    match visual {
        Some(v) => v,
        None => match editor {
            Some(e) => e,
            None => {
                let r = String::from_str("nano");
                proof {
                    reveal_strlit("nano");
                }
                assert(r@ =~= seq!['n', 'a', 'n', 'o']);
                r
            },
        },
    }
}

} // verus!
