//! Classes for the characters of a guess and of its answer, for showing the
//! two side by side: what matched, what the alignment flagged, and what the
//! truncation ignored.

use crate::align::{
    align_chars, alignment, covers, lemma_marks_lengths, separated_ranges, AlignmentError,
    IndexRange,
};
use crate::text::{chars_of, folded_chars, lowercase_of};
use vstd::prelude::*;
use vstd::slice::slice_subrange;

verus! {

/// How one character of a guess or of an answer fared.
#[derive(Clone, Copy, Debug, PartialEq, Eq, Structural)]
pub enum CharClass {
    /// The character has a partner in the other text.
    Matched,
    /// A character of the guess without a partner in the answer.
    Deleted,
    /// A character of the answer without a partner in the guess.
    Inserted,
    /// A trailing character of the guess that the truncation ignored.
    Truncated,
}

/// Why no classes could be given.
#[derive(Clone, Copy, Debug, PartialEq, Eq, Structural)]
pub enum HighlightError {
    /// The classes do not fit the text: there are more or fewer of them than
    /// the text has characters.
    LengthMismatch,
    /// More characters were to be ignored than the guess has.
    TruncationTooLong,
    /// The texts are too long to align.
    TooLong,
}

/// The classes of a truncated guess: flagged characters are deleted, the
/// `truncated` characters behind the aligned part are ignored.
pub open spec fn guess_classes(marks: Seq<bool>, truncated: nat) -> Seq<CharClass> {
    Seq::new(
        marks.len() + truncated,
        |k: int|
            if k >= marks.len() {
                CharClass::Truncated
            } else if marks[k] {
                CharClass::Deleted
            } else {
                CharClass::Matched
            },
    )
}

/// The classes of an answer: flagged characters are inserted.
pub open spec fn answer_classes(marks: Seq<bool>) -> Seq<CharClass> {
    Seq::new(
        marks.len(),
        |k: int|
            if marks[k] {
                CharClass::Inserted
            } else {
                CharClass::Matched
            },
    )
}

/// The classes of `guess` and of `answer` when the last `truncate_amt`
/// characters of the guess are ignored and the rest, in lower case, is aligned
/// with the answer in lower case.
///
/// The classes are counted by the lower-case texts. Where folding changes the
/// length of a text they would not fit it, and none are given.
pub open spec fn highlight_of(guess: Seq<char>, answer: Seq<char>, truncate_amt: nat) -> Result<
    (Seq<CharClass>, Seq<CharClass>),
    HighlightError,
> {
    let g = lowercase_of(guess);
    let a = lowercase_of(answer);
    if g.len() != guess.len() || a.len() != answer.len() {
        Err(HighlightError::LengthMismatch)
    } else if truncate_amt > g.len() {
        Err(HighlightError::TruncationTooLong)
    } else if g.len() - truncate_amt + a.len() > usize::MAX {
        Err(HighlightError::TooLong)
    } else {
        let marks = alignment(g.take(g.len() - truncate_amt), a);
        Ok((guess_classes(marks.deleted, truncate_amt), answer_classes(marks.inserted)))
    }
}

/// Gives `len` characters their classes: `flagged` where a range holds the
/// index, matched elsewhere.
fn paint(ranges: &Vec<IndexRange>, len: usize, flagged: CharClass) -> (classes: Vec<CharClass>)
    requires
        separated_ranges(ranges@, len as int),
    ensures
        classes@.len() == len,
        forall|k: int|
            0 <= k < len ==> #[trigger] classes@[k] == if covers(ranges@, k) {
                flagged
            } else {
                CharClass::Matched
            },
{
    let mut classes: Vec<CharClass> = Vec::new();
    let mut k: usize = 0;
    while k < len
        invariant
            k <= len,
            classes@.len() == k,
            forall|b: int| 0 <= b < k ==> #[trigger] classes@[b] == CharClass::Matched,
        decreases len - k,
    {
        classes.push(CharClass::Matched);
        k += 1;
    }
    let mut r: usize = 0;
    while r < ranges.len()
        invariant
            r <= ranges@.len(),
            classes@.len() == len,
            separated_ranges(ranges@, len as int),
            forall|b: int|
                0 <= b < len ==> #[trigger] classes@[b] == if covers(ranges@.take(r as int), b) {
                    flagged
                } else {
                    CharClass::Matched
                },
        decreases ranges@.len() - r,
    {
        let range: IndexRange = ranges[r];
        let ghost done = ranges@.take(r as int);
        let ghost next = ranges@.take(r + 1);
        assert(next[r as int] == range);
        assert forall|b: int| covers(next, b) == (covers(done, b) || range.at <= b <= range.to) by {
            if covers(done, b) {
                let w = choose|w: int| 0 <= w < done.len() && (#[trigger] done[w]).at <= b <= done[w].to;
                assert(next[w] == done[w]);
            }
            if covers(next, b) {
                let w = choose|w: int| 0 <= w < next.len() && (#[trigger] next[w]).at <= b <= next[w].to;
                if w < r {
                    assert(done[w] == next[w]);
                }
            }
        }
        let mut i: usize = range.at;
        while i <= range.to
            invariant
                range.at <= i <= range.to + 1,
                range.to < len,
                classes@.len() == len,
                forall|b: int|
                    0 <= b < len ==> #[trigger] classes@[b] == if covers(done, b) || range.at <= b
                        < i {
                        flagged
                    } else {
                        CharClass::Matched
                    },
            decreases range.to + 1 - i,
        {
            classes.set(i, flagged);
            i += 1;
        }
        r += 1;
    }
    assert(ranges@.take(ranges@.len() as int) =~= ranges@);
    classes
}

/// Classifies each character of `guess` and of `answer` after the last
/// `truncate_amt` characters of the guess are set aside and the rest is
/// aligned with the answer, case aside.
pub fn guess_with_answer_flags(guess: &str, answer: &str, truncate_amt: usize) -> (outcome: Result<
    (Vec<CharClass>, Vec<CharClass>),
    HighlightError,
>)
    ensures
        match outcome {
            Ok((of_guess, of_answer)) => highlight_of(guess@, answer@, truncate_amt as nat) == Ok::<
                (Seq<CharClass>, Seq<CharClass>),
                HighlightError,
            >((of_guess@, of_answer@)),
            Err(e) => highlight_of(guess@, answer@, truncate_amt as nat) == Err::<
                (Seq<CharClass>, Seq<CharClass>),
                HighlightError,
            >(e),
        },
{
    let plain_guess = chars_of(guess);
    let plain_answer = chars_of(answer);
    let g = folded_chars(guess);
    let a = folded_chars(answer);
    if g.len() != plain_guess.len() || a.len() != plain_answer.len() {
        return Err(HighlightError::LengthMismatch);
    }
    if truncate_amt > g.len() {
        return Err(HighlightError::TruncationTooLong);
    }
    let rest = slice_subrange(g.as_slice(), 0, g.len() - truncate_amt);
    assert(rest@ =~= g@.take(g@.len() - truncate_amt));
    match align_chars(rest, a.as_slice()) {
        Err(AlignmentError::TooLong) => Err(HighlightError::TooLong),
        Ok(found) => {
            let mut of_guess = paint(&found.deleted, found.source_len, CharClass::Deleted);
            let of_answer = paint(&found.inserted, found.target_len, CharClass::Inserted);
            let ghost aligned = of_guess@;
            let mut done: usize = 0;
            while done < truncate_amt
                invariant
                    done <= truncate_amt,
                    of_guess@ == aligned + Seq::new(done as nat, |k: int| CharClass::Truncated),
                decreases truncate_amt - done,
            {
                of_guess.push(CharClass::Truncated);
                done += 1;
                assert(of_guess@ =~= aligned + Seq::new(
                    done as nat,
                    |k: int| CharClass::Truncated,
                ));
            }
            proof {
                let marks = alignment(rest@, a@);
                lemma_marks_lengths(rest@, a@, 0, 0);
                assert(of_guess@ =~= guess_classes(marks.deleted, truncate_amt as nat));
                assert(of_answer@ =~= answer_classes(marks.inserted));
            }
            Ok((of_guess, of_answer))
        },
    }
}

/// Pairs each character of `text` with its class.
///
/// Fails exactly when there are not as many classes as characters.
pub fn with_flags(text: &str, flags: &Vec<CharClass>) -> (outcome: Result<
    Vec<(char, CharClass)>,
    HighlightError,
>)
    ensures
        outcome is Ok <==> text@.len() == flags@.len(),
        outcome matches Err(e) ==> e == HighlightError::LengthMismatch,
        outcome matches Ok(tagged) ==> tagged@.len() == text@.len() && forall|k: int|
            0 <= k < tagged@.len() ==> #[trigger] tagged@[k] == (text@[k], flags@[k]),
{
    let chars = chars_of(text);
    if chars.len() != flags.len() {
        return Err(HighlightError::LengthMismatch);
    }
    let mut tagged: Vec<(char, CharClass)> = Vec::new();
    let mut k: usize = 0;
    while k < chars.len()
        invariant
            k <= chars@.len(),
            chars@.len() == flags@.len(),
            tagged@.len() == k,
            forall|b: int| 0 <= b < k ==> #[trigger] tagged@[b] == (chars@[b], flags@[b]),
        decreases chars@.len() - k,
    {
        tagged.push((chars[k], flags[k]));
        k += 1;
    }
    Ok(tagged)
}

} // verus!
