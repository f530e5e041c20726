use token_scanner::{better_first_word, first_word};

#[test]
fn first_word_of_a_string() {
    let s = String::from("Hello world!");
    assert_eq!(first_word(&s), "Hello");
}

#[test]
fn first_word_of_an_empty_string() {
    let s = String::new();
    assert_eq!(first_word(&s), "");
}

#[test]
fn first_word_without_space_is_the_string() {
    let s = String::from("Hello");
    assert_eq!(first_word(&s), "Hello");
}

#[test]
fn first_word_behind_a_leading_space_is_empty() {
    let s = String::from(" leading");
    assert_eq!(first_word(&s), "");
}

#[test]
fn first_word_before_a_double_space() {
    let s = String::from("a  b");
    assert_eq!(first_word(&s), "a");
}

#[test]
fn better_first_word_of_slices_and_literals() {
    let my_string = String::from("Hello world!");
    assert_eq!(better_first_word(&my_string[0..6]), "Hello");
    assert_eq!(better_first_word(&my_string[6..]), "world!");
    assert_eq!(better_first_word(&my_string), "Hello");
    let literal = "Hello world!";
    assert_eq!(better_first_word(&literal[0..]), "Hello");
    assert_eq!(better_first_word(literal), "Hello");
}

#[test]
fn better_first_word_edge_cases() {
    assert_eq!(better_first_word(""), "");
    assert_eq!(better_first_word(" "), "");
    assert_eq!(better_first_word("Hello"), "Hello");
    assert_eq!(better_first_word(" leading"), "");
    assert_eq!(better_first_word("a  b"), "a");
    assert_eq!(better_first_word("tab\tand\nnewline stay"), "tab\tand\nnewline");
}

#[test]
fn better_first_word_keeps_longer_characters_whole() {
    assert_eq!(better_first_word("h\u{e9}llo w\u{f6}rld"), "h\u{e9}llo");
    assert_eq!(better_first_word("\u{65e5}\u{672c}\u{8a9e} text"), "\u{65e5}\u{672c}\u{8a9e}");
    assert_eq!(better_first_word("\u{1f600}\u{1f600} smile"), "\u{1f600}\u{1f600}");
    assert_eq!(better_first_word("\u{1f600}"), "\u{1f600}");
}

#[test]
fn other_separators_do_not_delimit() {
    assert_eq!(better_first_word("no\u{a0}break space"), "no\u{a0}break");
    assert_eq!(better_first_word("wide\u{3000}gap here"), "wide\u{3000}gap");
    assert_eq!(better_first_word("\u{120}\u{820}\u{10820} x"), "\u{120}\u{820}\u{10820}");
}

#[test]
fn the_word_borrows_the_text() {
    let s = String::from("Hello world!");
    let word = better_first_word(&s);
    assert_eq!(word.as_ptr(), s.as_ptr());
    assert_eq!(word.len(), 5);
}

#[test]
fn first_word_twice_is_the_same() {
    let s = String::from("once more");
    let first = first_word(&s);
    let second = first_word(&s);
    assert_eq!(first, second);
    assert_eq!(first, better_first_word(s.as_str()));
}
