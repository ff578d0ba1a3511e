use todo::listing::{format_listing, to_decimal};
use todo::number::parse_index;
use todo::text::{join_lines, split_lines};

#[test]
fn split_handles_final_newline() {
    assert_eq!(split_lines(""), Vec::<String>::new());
    assert_eq!(split_lines("\n"), vec![String::new()]);
    assert_eq!(split_lines("a\nb\n"), vec!["a".to_string(), "b".to_string()]);
    assert_eq!(split_lines("a\nb"), vec!["a".to_string(), "b".to_string()]);
    assert_eq!(split_lines("a\n\n"), vec!["a".to_string(), String::new()]);
    assert_eq!(split_lines("héllo\nwörld"), vec!["héllo".to_string(), "wörld".to_string()]);
}

#[test]
fn join_ends_each_line() {
    assert_eq!(join_lines(&vec![]), "");
    assert_eq!(join_lines(&vec!["a".to_string()]), "a\n");
    assert_eq!(join_lines(&vec!["a".to_string(), "b".to_string()]), "a\nb\n");
}

#[test]
fn rewrite_is_stable() {
    for text in ["", "x", "x\n", "x\ny", "\n\n", "a\n\nb\n\n"] {
        let once = join_lines(&split_lines(text));
        let twice = join_lines(&split_lines(&once));
        assert_eq!(once, twice);
    }
}

#[test]
fn parse_index_cases() {
    assert_eq!(parse_index("12"), Some(12));
    assert_eq!(parse_index("+7"), Some(7));
    assert_eq!(parse_index("007"), Some(7));
    assert_eq!(parse_index("0"), Some(0));
    assert_eq!(parse_index(""), None);
    assert_eq!(parse_index("+"), None);
    assert_eq!(parse_index("-1"), None);
    assert_eq!(parse_index("1a"), None);
    assert_eq!(parse_index(" 1"), None);
    assert_eq!(parse_index(&usize::MAX.to_string()), Some(usize::MAX));
    assert_eq!(parse_index("99999999999999999999999"), None);
}

#[test]
fn decimal_digits() {
    assert_eq!(to_decimal(0), "0");
    assert_eq!(to_decimal(7), "7");
    assert_eq!(to_decimal(120), "120");
}

#[test]
fn listing_aligns_numbers_right() {
    let items: Vec<String> = (1..=10).map(|i| format!("n{i}")).collect();
    let shown = format_listing(&items);
    let lines: Vec<&str> = shown.lines().collect();
    assert_eq!(lines.len(), 10);
    assert_eq!(lines[0], " 1: n1");
    assert_eq!(lines[8], " 9: n9");
    assert_eq!(lines[9], "10: n10");
    assert_eq!(format_listing(&vec!["a".to_string()]), "1: a\n");
    assert_eq!(format_listing(&vec![]), "");
}
