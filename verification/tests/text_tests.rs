use wiktitrage::parser::line_spans;
use wiktitrage::text::{range_ends_with, range_equals, range_starts_with, to_chars};

#[test]
fn characters_of_a_string() {
    assert_eq!(to_chars("Étym"), vec!['É', 't', 'y', 'm']);
    assert_eq!(to_chars(""), Vec::<char>::new());
}

#[test]
fn ranges_are_compared_by_characters() {
    let v = to_chars("== Français ==");
    let n = v.len();
    assert_eq!(n, 14);
    assert!(range_starts_with(&v, 0, n, &to_chars("== ")));
    assert!(range_ends_with(&v, 0, n, &to_chars(" ==")));
    assert!(range_equals(&v, 3, 11, &to_chars("Français")));
    assert!(!range_equals(&v, 3, 10, &to_chars("Français")));
    assert!(!range_starts_with(&v, 1, n, &to_chars("== ")));
    assert!(!range_ends_with(&v, 0, n - 1, &to_chars(" ==")));
    assert!(!range_starts_with(&v, 0, 2, &to_chars("== ")));
    assert!(range_starts_with(&v, 5, 5, &to_chars("")));
    assert!(range_ends_with(&v, 5, 5, &to_chars("")));
}

#[test]
fn spans_of_the_non_blank_lines() {
    let v = to_chars("\nab\n\nc\n");
    assert_eq!(line_spans(&v), vec![(1, 3), (5, 6)]);
    assert_eq!(line_spans(&to_chars("")), vec![]);
    assert_eq!(line_spans(&to_chars("abc")), vec![(0, 3)]);
    assert_eq!(line_spans(&to_chars("\n\n")), vec![]);
}
