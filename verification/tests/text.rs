use taskmaster::text::{
    decimal_text, digit_text, find_first, matches_here, push_fitted, push_padded, push_spaces,
    same_text, split_text,
};

#[test]
fn matches_here_at_positions() {
    assert!(matches_here("a ` b", 1, " ` "));
    assert!(!matches_here("a ` b", 0, " ` "));
    assert!(!matches_here("a ` b", 3, " ` "));
    assert!(!matches_here("a ` b", 9, " ` "));
    assert!(matches_here("abc", 3, ""));
    assert!(!matches_here("abc", 4, ""));
}

#[test]
fn find_first_is_leftmost() {
    assert_eq!(find_first("a ` b ` c", " ` "), Some(1));
    assert_eq!(find_first("abc", " ` "), None);
    assert_eq!(find_first("", "x"), None);
    assert_eq!(find_first("xx", "x"), Some(0));
    assert_eq!(find_first("ab", "abc"), None);
    assert_eq!(find_first("\u{e9}\u{e9}x", "x"), Some(2));
}

#[test]
fn split_text_pieces() {
    assert_eq!(split_text("a ` b ` c", " ` "), vec!["a", "b", "c"]);
    assert_eq!(split_text("abc", " ` "), vec!["abc"]);
    assert_eq!(split_text("", "\n"), vec![""]);
    assert_eq!(split_text("a\n", "\n"), vec!["a", ""]);
    assert_eq!(split_text("\n\n", "\n"), vec!["", "", ""]);
    assert_eq!(split_text("a ` ` b", " ` "), vec!["a", "` b"]);
    assert_eq!(split_text("abc", ""), vec!["abc"]);
}

#[test]
fn same_text_compares_characters() {
    assert!(same_text("High", "High"));
    assert!(!same_text("High", "Hig"));
    assert!(!same_text("High", "HighX"));
    assert!(!same_text("High", "high"));
    assert!(same_text("", ""));
}

#[test]
fn push_spaces_appends_blanks() {
    let mut out = String::from("x");
    push_spaces(&mut out, 3);
    assert_eq!(out, "x   ");
    push_spaces(&mut out, 0);
    assert_eq!(out, "x   ");
}

#[test]
fn push_padded_pads_but_does_not_cut() {
    let mut out = String::new();
    push_padded(&mut out, "abcdef", 1, 3, 5);
    assert_eq!(out, "bc   ");
    let mut long = String::new();
    push_padded(&mut long, "abcdef", 0, 6, 4);
    assert_eq!(long, "abcdef");
}

#[test]
fn push_fitted_cuts_or_pads() {
    let mut cut = String::new();
    push_fitted(&mut cut, "Description", 10);
    assert_eq!(cut, "Descriptio");
    let mut padded = String::new();
    push_fitted(&mut padded, "ID", 3);
    assert_eq!(padded, "ID ");
    let mut exact = String::new();
    push_fitted(&mut exact, "Name", 4);
    assert_eq!(exact, "Name");
}

#[test]
fn decimal_numerals() {
    assert_eq!(digit_text(7), "7");
    assert_eq!(decimal_text(0), "0");
    assert_eq!(decimal_text(9), "9");
    assert_eq!(decimal_text(10), "10");
    assert_eq!(decimal_text(999), "999");
    assert_eq!(decimal_text(12345), "12345");
    assert_eq!(decimal_text(usize::MAX), usize::MAX.to_string());
}
