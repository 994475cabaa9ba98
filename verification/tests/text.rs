use flash::text::{
    chars_of, count_leading_whitespace, decimal_digits, find, join, matches_at, split,
    substitute, Separator,
};

fn chars(s: &str) -> Vec<char> {
    s.chars().collect()
}

#[test]
fn chars_of_a_text_in_order() {
    assert_eq!(chars_of("héllo"), vec!['h', 'é', 'l', 'l', 'o']);
}

#[test]
fn split_gives_the_non_empty_runs() {
    let parts = split(&chars("/a//bc/"), &Separator::Char('/'));
    assert_eq!(parts, vec![chars("a"), chars("bc")]);
    let words = split(&chars("  hello \t world\n"), &Separator::Whitespace);
    assert_eq!(words, vec![chars("hello"), chars("world")]);
    let wide = split(&chars("a\u{a0}b\u{2003}c\u{3000}d\u{85}e\u{200b}f"), &Separator::Whitespace);
    assert_eq!(wide, vec![chars("a"), chars("b"), chars("c"), chars("d"), chars("e\u{200b}f")]);
    assert!(split(&chars(""), &Separator::Whitespace).is_empty());
    assert!(split(&chars("///"), &Separator::Char('/')).is_empty());
}

#[test]
fn join_puts_the_separator_between_neighbours() {
    assert_eq!(join(&vec![chars("a"), chars("b"), chars("c")], &chars("-")), chars("a-b-c"));
    assert_eq!(join(&vec![chars("a")], &chars("-")), chars("a"));
    assert_eq!(join(&Vec::new(), &chars("-")), chars(""));
}

#[test]
fn find_returns_the_first_occurrence() {
    let hay = chars("ab---cd---");
    assert_eq!(find(&hay, &chars("---"), 0), Some(2));
    assert_eq!(find(&hay, &chars("---"), 3), Some(7));
    assert_eq!(find(&hay, &chars("---"), 8), None);
    assert_eq!(find(&hay, &chars("x"), 0), None);
    assert_eq!(find(&hay, &chars(""), 4), Some(4));
    assert_eq!(find(&hay, &chars(""), 10), Some(10));
    assert_eq!(find(&hay, &chars(""), 11), None);
    assert!(matches_at(&hay, 7, &chars("---")));
    assert!(!matches_at(&hay, 8, &chars("---")));
}

#[test]
fn substitute_replaces_tokens_left_to_right() {
    let table = vec![(chars("{a}"), chars("X{b}")), (chars("{b}"), chars("Y")), (chars(""), chars("Z"))];
    assert_eq!(substitute(&chars("1{a}2{b}3{c}"), &table), chars("1X{b}2Y3{c}"));
    assert_eq!(substitute(&chars("{a"), &table), chars("{a"));
    assert_eq!(substitute(&chars(""), &table), chars(""));
}

#[test]
fn decimal_digits_of_numbers() {
    assert_eq!(decimal_digits(0), chars("0"));
    assert_eq!(decimal_digits(7), chars("7"));
    assert_eq!(decimal_digits(10), chars("10"));
    assert_eq!(decimal_digits(1234567890), chars("1234567890"));
}

#[test]
fn leading_whitespace_is_counted() {
    assert_eq!(count_leading_whitespace(&chars(" \n\t x ")), 4);
    assert_eq!(count_leading_whitespace(&chars("x")), 0);
    assert_eq!(count_leading_whitespace(&chars("   ")), 3);
}
