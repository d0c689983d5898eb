use lyric_quiz::text::{chars_of, eq_ignoring_case, folded_chars};

#[test]
fn the_characters_of_a_text_come_in_order() {
    assert_eq!(chars_of("abc"), vec!['a', 'b', 'c']);
    assert_eq!(chars_of(""), Vec::<char>::new());
    assert_eq!(chars_of("né ß"), vec!['n', 'é', ' ', 'ß']);
}

#[test]
fn folding_lowers_the_case() {
    assert_eq!(folded_chars("Deeper THAN"), vec!['d', 'e', 'e', 'p', 'e', 'r', ' ', 't', 'h', 'a', 'n']);
    assert_eq!(folded_chars("ÉCOLE"), vec!['é', 'c', 'o', 'l', 'e']);
    assert_eq!(folded_chars("123 ?!"), vec!['1', '2', '3', ' ', '?', '!']);
}

#[test]
fn folding_can_lengthen_a_text() {
    assert_eq!(folded_chars("İ").len(), 2);
}

#[test]
fn texts_are_compared_without_regard_to_case() {
    assert!(eq_ignoring_case("Shake It Off", "shake it off"));
    assert!(eq_ignoring_case("", ""));
    assert!(!eq_ignoring_case("shake it off", "shake it of"));
    assert!(!eq_ignoring_case("a", "b"));
}
