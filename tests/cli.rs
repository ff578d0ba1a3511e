use std::path::PathBuf;

use todo::cli::{choose_editor, Cli, Plan};
use todo::command::{parse_command, CliCommand};
use todo::error::NoteError;

fn args(items: &[&str]) -> Vec<String> {
    items.iter().map(|s| s.to_string()).collect()
}

fn cli(items: &[&str]) -> Cli {
    let mut all = vec!["todo"];
    all.extend_from_slice(items);
    Cli::with_data_dir(PathBuf::from("/data"), args(&all)).unwrap()
}

fn written(plan: Result<Plan, NoteError>) -> (String, Vec<usize>) {
    match plan {
        Ok(Plan::Write(text, skipped)) => (text, skipped),
        other => panic!("expected a write, got {other:?}"),
    }
}

#[test]
fn parse_insert_and_change() {
    assert_eq!(
        parse_command(args(&["i", "milk"])),
        Ok(Some(CliCommand::Insert("milk".to_string(), None)))
    );
    assert_eq!(
        parse_command(args(&["c", "milk", "3", "extra"])),
        Ok(Some(CliCommand::Change("milk".to_string(), Some(3))))
    );
    assert_eq!(parse_command(args(&["i"])), Err(NoteError::MissingValue));
    assert_eq!(
        parse_command(args(&["i", "milk", "x"])),
        Err(NoteError::NotAnIndex("x".to_string()))
    );
}

#[test]
fn parse_delete() {
    assert_eq!(parse_command(args(&["d"])), Ok(Some(CliCommand::Delete(None))));
    assert_eq!(
        parse_command(args(&["d", "3", "1"])),
        Ok(Some(CliCommand::Delete(Some(vec![3, 1]))))
    );
    assert_eq!(
        parse_command(args(&["d", "3", "b", "c"])),
        Err(NoteError::NotAnIndex("b".to_string()))
    );
}

#[test]
fn parse_other_commands() {
    assert_eq!(parse_command(args(&[])), Ok(None));
    assert_eq!(parse_command(args(&["h"])), Ok(Some(CliCommand::Help)));
    assert_eq!(parse_command(args(&["l"])), Ok(Some(CliCommand::ListFiles)));
    assert_eq!(parse_command(args(&["D"])), Ok(Some(CliCommand::DeleteFile)));
    assert_eq!(parse_command(args(&["e"])), Ok(Some(CliCommand::Edit)));
    assert_eq!(
        parse_command(args(&["x"])),
        Err(NoteError::UnknownCommand("x".to_string()))
    );
}

#[test]
fn notebook_selection() {
    let plain = cli(&[]);
    assert_eq!(plain.notebook(), "default");
    assert_eq!(plain.command(), &None);
    assert_eq!(plain.data_dir(), &PathBuf::from("/data"));
    let named = cli(&["work", "i", "call"]);
    assert_eq!(named.notebook(), "work");
    assert_eq!(named.command(), &Some(CliCommand::Insert("call".to_string(), None)));
    let command_first = cli(&["d", "2"]);
    assert_eq!(command_first.notebook(), "default");
    assert_eq!(command_first.command(), &Some(CliCommand::Delete(Some(vec![2]))));
}

#[test]
fn notebook_name_rejected() {
    for bad in ["a.b", "../x", "x/y", "."] {
        let r = Cli::with_data_dir(PathBuf::from("/data"), args(&["todo", bad]));
        assert_eq!(r.unwrap_err(), NoteError::InvalidName);
    }
    let r = Cli::with_data_dir(PathBuf::from("/data"), args(&["todo", "work", "zz"]));
    assert_eq!(r.unwrap_err(), NoteError::UnknownCommand("zz".to_string()));
}

#[test]
fn buy_milk_scenario() {
    let (text, _) = written(cli(&["i", "buy milk"]).execute(""));
    assert_eq!(text, "buy milk\n");
    let (text, _) = written(cli(&["i", "call mom", "1"]).execute(&text));
    assert_eq!(text, "call mom\nbuy milk\n");
    let (text, _) = written(cli(&["c", "call dad", "1"]).execute(&text));
    assert_eq!(text, "call dad\nbuy milk\n");
    let (text, skipped) = written(cli(&["d", "2"]).execute(&text));
    assert_eq!(text, "call dad\n");
    assert!(skipped.is_empty());
    let (text, _) = written(cli(&["d"]).execute(&text));
    assert_eq!(text, "");
}

#[test]
fn insert_past_end_fails() {
    let stored = "a\nb\n";
    assert_eq!(cli(&["i", "x", "5"]).execute(stored), Err(NoteError::InvalidIndex(5)));
}

#[test]
fn execute_delete_reports_skipped() {
    let (text, skipped) = written(cli(&["d", "7", "1"]).execute("a\nb\n"));
    assert_eq!(text, "b\n");
    assert_eq!(skipped, vec![7]);
    assert_eq!(cli(&["d"]).execute(""), Err(NoteError::EmptyList));
}

#[test]
fn execute_other_plans() {
    assert_eq!(cli(&[]).execute("a\n"), Ok(Plan::Print));
    assert_eq!(cli(&["h"]).execute(""), Ok(Plan::ShowHelp));
    assert_eq!(cli(&["l"]).execute(""), Ok(Plan::ListNotebooks));
    assert_eq!(cli(&["D"]).execute(""), Ok(Plan::RemoveNotebook));
    assert_eq!(cli(&["e"]).execute(""), Ok(Plan::OpenEditor));
    assert_eq!(cli(&["c", "x"]).execute(""), Err(NoteError::EmptyList));
}

#[test]
fn editor_choice() {
    assert_eq!(choose_editor(Some("vi".to_string()), Some("ed".to_string())), "vi");
    assert_eq!(choose_editor(None, Some("ed".to_string())), "ed");
    assert_eq!(choose_editor(None, None), "nano");
}

#[test]
fn new_looks_up_data_dir() {
    match Cli::new(args(&["todo", "i", "x"])) {
        Ok(c) => {
            assert_eq!(Some(c.data_dir().clone()), dirs::data_dir());
            assert_eq!(c.notebook(), "default");
        }
        Err(e) => {
            assert_eq!(e, NoteError::NoDataDir);
            assert_eq!(dirs::data_dir(), None);
        }
    }
}
