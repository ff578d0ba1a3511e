use todo::error::NoteError;
use todo::notes::NoteList;

fn list_of(items: &[&str]) -> NoteList {
    NoteList::from_lines(items.iter().map(|s| s.to_string()).collect())
}

fn entries(list: &NoteList) -> Vec<&str> {
    list.lines().iter().map(|s| s.as_str()).collect()
}

#[test]
fn insert_without_position_appends() {
    let mut list = list_of(&["a", "b"]);
    assert_eq!(list.insert("c".to_string(), None), Ok(()));
    assert_eq!(entries(&list), vec!["a", "b", "c"]);
}

#[test]
fn insert_at_each_position() {
    for (i, expected) in [
        (1, vec!["x", "a", "b"]),
        (2, vec!["a", "x", "b"]),
        (3, vec!["a", "b", "x"]),
    ] {
        let mut list = list_of(&["a", "b"]);
        assert_eq!(list.insert("x".to_string(), Some(i)), Ok(()));
        assert_eq!(entries(&list), expected);
    }
}

#[test]
fn insert_out_of_range_leaves_list() {
    let mut list = list_of(&["a", "b"]);
    assert_eq!(list.insert("x".to_string(), Some(5)), Err(NoteError::InvalidIndex(5)));
    assert_eq!(list.insert("x".to_string(), Some(0)), Err(NoteError::InvalidIndex(0)));
    assert_eq!(entries(&list), vec!["a", "b"]);
}

#[test]
fn insert_empty_value_is_missing() {
    let mut list = list_of(&["a"]);
    assert_eq!(list.insert(String::new(), None), Err(NoteError::MissingValue));
    assert_eq!(entries(&list), vec!["a"]);
}

#[test]
fn insert_into_empty_list() {
    let mut list = NoteList::new();
    assert_eq!(list.insert("first".to_string(), Some(1)), Ok(()));
    assert_eq!(entries(&list), vec!["first"]);
}

#[test]
fn change_without_position_replaces_last() {
    let mut list = list_of(&["a", "b", "c"]);
    assert_eq!(list.change("z".to_string(), None), Ok(()));
    assert_eq!(entries(&list), vec!["a", "b", "z"]);
}

#[test]
fn change_at_position_replaces_only_it() {
    let mut list = list_of(&["a", "b", "c"]);
    assert_eq!(list.change("z".to_string(), Some(2)), Ok(()));
    assert_eq!(entries(&list), vec!["a", "z", "c"]);
}

#[test]
fn change_errors() {
    let mut empty = NoteList::new();
    assert_eq!(empty.change("z".to_string(), None), Err(NoteError::EmptyList));
    assert_eq!(empty.change("z".to_string(), Some(1)), Err(NoteError::EmptyList));
    let mut list = list_of(&["a"]);
    assert_eq!(list.change("z".to_string(), Some(2)), Err(NoteError::InvalidIndex(2)));
    assert_eq!(list.change("z".to_string(), Some(0)), Err(NoteError::InvalidIndex(0)));
    assert_eq!(list.change(String::new(), Some(1)), Err(NoteError::MissingValue));
    assert_eq!(entries(&list), vec!["a"]);
}

#[test]
fn delete_without_indices_removes_last() {
    let mut list = list_of(&["a", "b"]);
    assert_eq!(list.delete(&vec![]), Ok(vec![]));
    assert_eq!(entries(&list), vec!["a"]);
}

#[test]
fn delete_last_of_empty_fails() {
    let mut list = NoteList::new();
    assert_eq!(list.delete(&vec![]), Err(NoteError::EmptyList));
    assert!(list.is_empty());
}

#[test]
fn delete_several_positions_keeps_order() {
    let mut list = list_of(&["a", "b", "c", "d", "e"]);
    assert_eq!(list.delete(&vec![4, 2, 4]), Ok(vec![]));
    assert_eq!(entries(&list), vec!["a", "c", "e"]);
}

#[test]
fn delete_skips_invalid_indices() {
    let mut list = list_of(&["a", "b", "c"]);
    assert_eq!(list.delete(&vec![9, 1, 0, 9, 3]), Ok(vec![9, 0]));
    assert_eq!(entries(&list), vec!["b"]);
}

#[test]
fn delete_on_empty_list_with_indices_skips_all() {
    let mut list = NoteList::new();
    assert_eq!(list.delete(&vec![1, 2]), Ok(vec![1, 2]));
    assert_eq!(list.len(), 0);
}

#[test]
fn text_round_trip() {
    let list = NoteList::from_text("one\n\ntwo");
    assert_eq!(entries(&list), vec!["one", "", "two"]);
    let once = list.to_text();
    assert_eq!(once, "one\n\ntwo\n");
    let twice = NoteList::from_text(&once).to_text();
    assert_eq!(twice, once);
}
