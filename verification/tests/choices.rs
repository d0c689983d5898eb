use lyric_quiz::choice::{judge_choice, parse_choice, Choice, ChoiceReply, InvalidChoiceInput};

fn options() -> Vec<String> {
    ["one", "two", "three"].iter().map(|s| s.to_string()).collect()
}

#[test]
fn a_slash_gives_up() {
    assert_eq!(parse_choice("/", 17), Ok(Choice::Abort));
    assert_eq!(parse_choice("/", 0), Ok(Choice::Abort));
}

#[test]
fn the_number_of_an_option_picks_it() {
    assert_eq!(parse_choice("1", 17), Ok(Choice::Pick(0)));
    assert_eq!(parse_choice("9", 17), Ok(Choice::Pick(8)));
    assert_eq!(parse_choice("10", 17), Ok(Choice::Pick(9)));
    assert_eq!(parse_choice("17", 17), Ok(Choice::Pick(16)));
}

#[test]
fn numbers_out_of_range_are_not_valid() {
    assert_eq!(parse_choice("0", 17), Err(InvalidChoiceInput));
    assert_eq!(parse_choice("18", 17), Err(InvalidChoiceInput));
    assert_eq!(parse_choice("170", 17), Err(InvalidChoiceInput));
    assert_eq!(parse_choice("1", 0), Err(InvalidChoiceInput));
    assert_eq!(
        parse_choice("99999999999999999999999999999999999999", usize::MAX),
        Err(InvalidChoiceInput)
    );
}

#[test]
fn the_largest_number_is_read() {
    let text = usize::MAX.to_string();
    assert_eq!(parse_choice(&text, usize::MAX), Ok(Choice::Pick(usize::MAX - 1)));
    assert_eq!(parse_choice(&text, usize::MAX - 1), Err(InvalidChoiceInput));
}

#[test]
fn anything_but_a_plain_number_is_not_valid() {
    for input in ["", " ", "01", "007", "+1", "-1", "1 ", " 1", "1.0", "one", "?", "//", "1/", "١"] {
        assert_eq!(parse_choice(input, 17), Err(InvalidChoiceInput), "input {:?}", input);
    }
}

#[test]
fn exactly_the_decimal_forms_of_the_option_numbers_are_accepted() {
    for n in 1..=120usize {
        assert_eq!(parse_choice(&n.to_string(), 120), Ok(Choice::Pick(n - 1)));
    }
}

#[test]
fn a_pick_is_right_where_it_is_the_answer() {
    let answer = "two".to_string();
    assert_eq!(judge_choice("2", &options(), &answer), ChoiceReply::Answered(true));
    assert_eq!(judge_choice("1", &options(), &answer), ChoiceReply::Answered(false));
    assert_eq!(judge_choice("3", &options(), &answer), ChoiceReply::Answered(false));
}

#[test]
fn giving_up_counts_as_a_wrong_answer() {
    assert_eq!(judge_choice("/", &options(), &"two".to_string()), ChoiceReply::Answered(false));
}

#[test]
fn an_invalid_selection_is_asked_again() {
    assert_eq!(judge_choice("4", &options(), &"two".to_string()), ChoiceReply::Retry);
    assert_eq!(judge_choice("two", &options(), &"two".to_string()), ChoiceReply::Retry);
    assert_eq!(judge_choice("", &options(), &"two".to_string()), ChoiceReply::Retry);
}

#[test]
fn the_answer_is_compared_exactly() {
    assert_eq!(judge_choice("2", &options(), &"Two".to_string()), ChoiceReply::Answered(false));
}
