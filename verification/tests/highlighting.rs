use lyric_quiz::highlight::{guess_with_answer_flags, with_flags, CharClass, HighlightError};
use lyric_quiz::highlight::CharClass::{Deleted, Inserted, Matched, Truncated};

#[test]
fn a_perfect_guess_is_matched_throughout() {
    let (guess, answer) = guess_with_answer_flags("abc", "abc", 0).unwrap();
    assert_eq!(guess, vec![Matched; 3]);
    assert_eq!(answer, vec![Matched; 3]);
}

#[test]
fn case_does_not_matter_to_the_classes() {
    let (guess, answer) = guess_with_answer_flags("ABC", "abc", 0).unwrap();
    assert_eq!(guess, vec![Matched; 3]);
    assert_eq!(answer, vec![Matched; 3]);
}

#[test]
fn stray_and_missing_characters_are_flagged() {
    let (guess, answer) = guess_with_answer_flags("abXcd", "abcd", 0).unwrap();
    assert_eq!(guess, vec![Matched, Matched, Deleted, Matched, Matched]);
    assert_eq!(answer, vec![Matched; 4]);
    let (guess, answer) = guess_with_answer_flags("abcd", "abXcd", 0).unwrap();
    assert_eq!(guess, vec![Matched; 4]);
    assert_eq!(answer, vec![Matched, Matched, Inserted, Matched, Matched]);
}

#[test]
fn truncated_characters_are_set_apart() {
    let (guess, answer) = guess_with_answer_flags("abc!!", "abc", 2).unwrap();
    assert_eq!(guess, vec![Matched, Matched, Matched, Truncated, Truncated]);
    assert_eq!(answer, vec![Matched; 3]);
}

#[test]
fn a_guess_truncated_whole_leaves_the_answer_inserted() {
    let (guess, answer) = guess_with_answer_flags("ab", "xy", 2).unwrap();
    assert_eq!(guess, vec![Truncated, Truncated]);
    assert_eq!(answer, vec![Inserted, Inserted]);
}

#[test]
fn more_cannot_be_truncated_than_the_guess_has() {
    assert_eq!(guess_with_answer_flags("ab", "ab", 3), Err(HighlightError::TruncationTooLong));
    assert_eq!(guess_with_answer_flags("", "ab", 1), Err(HighlightError::TruncationTooLong));
}

#[test]
fn a_text_that_folding_lengthens_gets_no_classes() {
    assert_eq!(guess_with_answer_flags("İstanbul", "istanbul", 0), Err(HighlightError::LengthMismatch));
    assert_eq!(guess_with_answer_flags("istanbul", "İstanbul", 0), Err(HighlightError::LengthMismatch));
}

#[test]
fn empty_texts_have_no_classes() {
    assert_eq!(guess_with_answer_flags("", "", 0), Ok((Vec::new(), Vec::new())));
}

#[test]
fn characters_are_paired_with_their_classes() {
    let flags = vec![Matched, Deleted, Truncated];
    assert_eq!(
        with_flags("aXé", &flags),
        Ok(vec![('a', Matched), ('X', Deleted), ('é', Truncated)])
    );
    assert_eq!(with_flags("", &Vec::new()), Ok(Vec::new()));
}

#[test]
fn classes_that_do_not_fit_the_text_are_refused() {
    let flags: Vec<CharClass> = vec![Matched, Deleted];
    assert_eq!(with_flags("abc", &flags), Err(HighlightError::LengthMismatch));
    assert_eq!(with_flags("a", &flags), Err(HighlightError::LengthMismatch));
    assert_eq!(with_flags("", &flags), Err(HighlightError::LengthMismatch));
}
