//! Reading a multiple-choice selection: a slash gives up, the decimal form of
//! an option's number selects it, anything else is asked again.

use crate::text::chars_of;
use vstd::prelude::*;

verus! {

/// A valid selection.
#[derive(Clone, Copy, Debug, PartialEq, Eq, Structural)]
pub enum Choice {
    /// The player gives the round up.
    Abort,
    /// The player picks the option at this index, counted from zero.
    Pick(usize),
}

/// The input is neither a slash nor the number of an option.
#[derive(Clone, Copy, Debug, PartialEq, Eq, Structural)]
pub struct InvalidChoiceInput;

/// What a selection leads to.
#[derive(Clone, Copy, Debug, PartialEq, Eq, Structural)]
pub enum ChoiceReply {
    /// The input was not valid: the player is asked again.
    Retry,
    /// The round is answered, correctly or not.
    Answered(bool),
}

/// Whether `c` is one of the ten decimal digits.
pub open spec fn is_digit(c: char) -> bool {
    '0' <= c <= '9'
}

/// The number that a digit stands for.
pub open spec fn digit_value(c: char) -> nat {
    (c as int - '0' as int) as nat
}

/// The ten digits in order.
pub open spec fn digits() -> Seq<char> {
    seq!['0', '1', '2', '3', '4', '5', '6', '7', '8', '9']
}

/// The decimal form of a number, without sign or leading zeros.
pub open spec fn decimal(n: nat) -> Seq<char>
    decreases n,
{
    if n < 10 {
        seq![digits()[n as int]]
    } else {
        decimal(n / 10).push(digits()[(n % 10) as int])
    }
}

/// The number that a text of digits stands for.
pub open spec fn value_of(text: Seq<char>) -> nat
    decreases text.len(),
{
    if text.len() == 0 {
        0
    } else {
        value_of(text.drop_last()) * 10 + digit_value(text.last())
    }
}

/// Whether `text` is the decimal form of a number: digits only, at least one,
/// and no zero in front of another digit.
pub open spec fn is_number(text: Seq<char>) -> bool {
    &&& text.len() > 0
    &&& forall|k: int| 0 <= k < text.len() ==> is_digit(#[trigger] text[k])
    &&& text.len() > 1 ==> text[0] != '0'
}

/// The selection that `input` stands for when there are `options` options.
pub open spec fn choice_of(input: Seq<char>, options: nat) -> Result<Choice, InvalidChoiceInput> {
    if input == seq!['/'] {
        Ok(Choice::Abort)
    } else if is_number(input) && 1 <= value_of(input) <= options {
        Ok(Choice::Pick((value_of(input) - 1) as usize))
    } else {
        Err(InvalidChoiceInput)
    }
}

/// What `input` leads to when the options are `options` and the answer is
/// `answer`: giving up counts as a wrong answer, a pick is right where the
/// option picked is the answer.
pub open spec fn reply_of(input: Seq<char>, options: Seq<String>, answer: Seq<char>) -> ChoiceReply {
    match choice_of(input, options.len()) {
        Ok(Choice::Abort) => ChoiceReply::Answered(false),
        Ok(Choice::Pick(index)) => ChoiceReply::Answered(options[index as int]@ == answer),
        Err(_) => ChoiceReply::Retry,
    }
}

/// A longer text of digits stands for no smaller a number than its beginning.
pub proof fn lemma_value_grows(text: Seq<char>, upto: int)
    requires
        0 <= upto <= text.len(),
    ensures
        value_of(text.take(upto)) <= value_of(text),
    decreases text.len() - upto,
{
    if upto < text.len() {
        lemma_value_grows(text, upto + 1);
        assert(text.take(upto + 1).drop_last() =~= text.take(upto));
    } else {
        assert(text.take(upto) =~= text);
    }
}

/// The decimal form of a number is a number in the sense of `is_number`, and
/// stands for that number.
pub proof fn lemma_decimal_is_number(n: nat)
    ensures
        is_number(decimal(n)),
        value_of(decimal(n)) == n,
        n > 0 ==> decimal(n)[0] != '0',
    decreases n,
{
    if n < 10 {
        let text = decimal(n);
        assert(text.drop_last() =~= Seq::<char>::empty());
        assert(value_of(text.drop_last()) == 0);
    } else {
        lemma_decimal_is_number(n / 10);
        let head = decimal(n / 10);
        let text = decimal(n);
        assert(text.drop_last() =~= head);
        assert(text[0] == head[0]);
    }
}

/// A text that is a number is the decimal form of the number it stands for.
pub proof fn lemma_number_is_decimal(text: Seq<char>)
    requires
        is_number(text),
    ensures
        decimal(value_of(text)) == text,
    decreases text.len(),
{
    let last = text.last();
    assert(is_digit(last));
    assert(digits()[digit_value(last) as int] == last);
    if text.len() == 1 {
        assert(text.drop_last() =~= Seq::<char>::empty());
        assert(value_of(text.drop_last()) == 0);
        assert(decimal(value_of(text)) =~= text);
    } else {
        let head = text.drop_last();
        assert(head[0] == text[0]);
        assert(is_number(head));
        lemma_number_is_decimal(head);
        lemma_leading_digit(head);
        assert(value_of(text) / 10 == value_of(head));
        assert(value_of(text) % 10 == digit_value(last));
        assert(decimal(value_of(text)) =~= text);
    }
}

/// A number of more than one digit, or whose one digit is not zero, is
/// positive.
pub proof fn lemma_leading_digit(text: Seq<char>)
    requires
        is_number(text),
        text[0] != '0',
    ensures
        value_of(text) >= 1,
    decreases text.len(),
{
    if text.len() == 1 {
        assert(text.drop_last() =~= Seq::<char>::empty());
        assert(value_of(text.drop_last()) == 0);
        assert(is_digit(text[0]));
    } else {
        let head = text.drop_last();
        assert(head[0] == text[0]);
        lemma_leading_digit(head);
    }
}

/// Reads a selection among `options` options.
pub fn parse_choice(input: &str, options: usize) -> (outcome: Result<Choice, InvalidChoiceInput>)
    ensures
        outcome == choice_of(input@, options as nat),
{
    let chars = chars_of(input);
    let n: usize = chars.len();
    if n == 1 && chars[0] == '/' {
        assert(input@ =~= seq!['/']);
        return Ok(Choice::Abort);
    }
    assert(input@ != seq!['/']) by {
        if input@ == seq!['/'] {
            assert(seq!['/'][0] == '/');
        }
    }
    if n == 0 || (n > 1 && chars[0] == '0') {
        return Err(InvalidChoiceInput);
    }
    let mut value: usize = 0;
    let mut k: usize = 0;
    assert(chars@.take(0) =~= Seq::<char>::empty());
    while k < n
        invariant
            k <= n,
            n == chars@.len(),
            chars@ == input@,
            input@ != seq!['/'],
            forall|b: int| 0 <= b < k ==> is_digit(#[trigger] chars@[b]),
            value == value_of(chars@.take(k as int)),
            value <= options,
        decreases n - k,
    {
        let c: char = chars[k];
        if !(c >= '0' && c <= '9') {
            assert(!is_digit(chars@[k as int]));
            return Err(InvalidChoiceInput);
        }
        let d: usize = (c as u32 - '0' as u32) as usize;
        proof {
            assert(chars@.take(k + 1).drop_last() =~= chars@.take(k as int));
            assert(value_of(chars@.take(k + 1)) == value * 10 + d);
            lemma_value_grows(chars@, k + 1);
        }
        if d > options || value > (options - d) / 10 {
            return Err(InvalidChoiceInput);
        }
        value = value * 10 + d;
        k += 1;
    }
    assert(chars@.take(n as int) =~= chars@);
    if value >= 1 {
        Ok(Choice::Pick(value - 1))
    } else {
        Err(InvalidChoiceInput)
    }
}

/// Judges a selection among `options` for a round whose answer is `answer`.
pub fn judge_choice(input: &str, options: &Vec<String>, answer: &String) -> (reply: ChoiceReply)
    ensures
        reply == reply_of(input@, options@, answer@),
{
    match parse_choice(input, options.len()) {
        Ok(Choice::Abort) => ChoiceReply::Answered(false),
        Ok(Choice::Pick(index)) => ChoiceReply::Answered(options[index] == *answer),
        Err(_) => ChoiceReply::Retry,
    }
}

} // verus!
