//! The truncation optimizer: how many trailing characters of a guess to
//! ignore so that what is left aligns with the answer at the least cost.

use crate::align::{align_chars, alignment_cost, lemma_alignment_of_self, AlignmentError};
use crate::text::{folded_chars, lowercase_of};
use vstd::prelude::*;
use vstd::slice::slice_subrange;

verus! {

/// A truncation amount and the alignment cost that it leads to.
#[derive(Clone, Copy, Debug, PartialEq, Eq, Structural)]
pub struct TruncationResult {
    /// Number of trailing characters of the guess that are ignored.
    pub truncate_amt: usize,
    /// Cost of aligning the rest of the guess with the answer.
    pub dist: usize,
}

/// The largest truncation tried on a guess of `len` characters: all but one
/// character may go. An empty guess is only tried whole.
pub open spec fn max_truncation(len: int) -> int {
    if len >= 1 {
        len - 1
    } else {
        0
    }
}

/// Cost of aligning `guess` without its last `t` characters with `answer`.
pub open spec fn cost_at(guess: Seq<char>, answer: Seq<char>, t: int) -> nat {
    alignment_cost(guess.take(guess.len() - t), answer)
}

/// Whether `t` is the truncation that the optimizer settles on: the smallest
/// among those of least cost.
pub open spec fn is_optimal(guess: Seq<char>, answer: Seq<char>, t: int) -> bool {
    &&& 0 <= t <= max_truncation(guess.len() as int)
    &&& forall|u: int|
        0 <= u <= max_truncation(guess.len() as int) ==> cost_at(guess, answer, t) <= #[trigger] cost_at(
            guess,
            answer,
            u,
        )
    &&& forall|u: int| 0 <= u < t ==> cost_at(guess, answer, t) < #[trigger] cost_at(guess, answer, u)
}

/// Whether `best` is what the optimizer returns for `guess` and `answer`.
pub open spec fn is_best(guess: Seq<char>, answer: Seq<char>, best: TruncationResult) -> bool {
    &&& is_optimal(guess, answer, best.truncate_amt as int)
    &&& best.dist == cost_at(guess, answer, best.truncate_amt as int)
}

/// Only one truncation is optimal.
pub proof fn lemma_optimal_unique(guess: Seq<char>, answer: Seq<char>, t: int, u: int)
    requires
        is_optimal(guess, answer, t),
        is_optimal(guess, answer, u),
    ensures
        t == u,
{
    if t < u {
        assert(cost_at(guess, answer, u) < cost_at(guess, answer, t));
        assert(cost_at(guess, answer, t) <= cost_at(guess, answer, u));
    } else if u < t {
        assert(cost_at(guess, answer, t) < cost_at(guess, answer, u));
        assert(cost_at(guess, answer, u) <= cost_at(guess, answer, t));
    }
}

/// The optimal truncation costs no more than no truncation, and a guess that
/// equals the answer is best left whole, at cost zero.
pub proof fn lemma_optimal_bounds(guess: Seq<char>, answer: Seq<char>, t: int)
    requires
        is_optimal(guess, answer, t),
    ensures
        cost_at(guess, answer, t) <= cost_at(guess, answer, 0),
        guess == answer ==> t == 0 && cost_at(guess, answer, t) == 0,
{
    assert(cost_at(guess, answer, t) <= cost_at(guess, answer, 0));
    if guess == answer {
        assert(guess.take(guess.len() - 0) =~= guess);
        lemma_alignment_of_self(guess);
        if t > 0 {
            assert(cost_at(guess, answer, t) < cost_at(guess, answer, 0));
        }
    }
}

/// Searches the truncations of `guess` from none up to all but one character
/// for the one whose rest aligns with `answer` at the least cost, the smallest
/// such on a tie.
///
/// Fails exactly when the two lengths together do not fit the cost's type.
pub fn optimal_truncation(guess: &[char], answer: &[char]) -> (outcome: Result<
    TruncationResult,
    AlignmentError,
>)
    ensures
        outcome is Ok <==> guess@.len() + answer@.len() <= usize::MAX,
        outcome matches Ok(best) ==> is_best(guess@, answer@, best) && best.dist <= cost_at(
            guess@,
            answer@,
            0,
        ) && (guess@ == answer@ ==> best.truncate_amt == 0 && best.dist == 0),
{
    let len: usize = guess.len();
    if len > usize::MAX - answer.len() {
        return Err(AlignmentError::TooLong);
    }
    let whole = match align_chars(guess, answer) {
        Ok(found) => found,
        Err(e) => {
            return Err(e);
        },
    };
    assert(guess@.take(guess@.len() - 0) =~= guess@);
    let mut best = TruncationResult { truncate_amt: 0, dist: whole.cost };
    let mut t: usize = 1;
    while t < len
        invariant
            1 <= t,
            len == guess@.len(),
            len + answer@.len() <= usize::MAX,
            best.truncate_amt < t,
            best.truncate_amt <= max_truncation(len as int),
            best.dist == cost_at(guess@, answer@, best.truncate_amt as int),
            forall|u: int| 0 <= u < t && u <= max_truncation(len as int) ==> best.dist <= #[trigger] cost_at(guess@, answer@, u),
            forall|u: int| 0 <= u < best.truncate_amt ==> best.dist < #[trigger] cost_at(guess@, answer@, u),
        decreases len - t,
    {
        let rest = slice_subrange(guess, 0, len - t);
        assert(rest@ =~= guess@.take(guess@.len() - t));
        match align_chars(rest, answer) {
            Ok(found) => {
                if found.cost < best.dist {
                    best = TruncationResult { truncate_amt: t, dist: found.cost };
                }
            },
            Err(e) => {
                return Err(e);
            },
        }
        t += 1;
    }
    proof {
        lemma_optimal_bounds(guess@, answer@, best.truncate_amt as int);
    }
    Ok(best)
}

/// Folds `guess` and `answer` to lower case and searches the truncations of
/// the folded guess against the folded answer.
///
/// Fails exactly when the two folded lengths together do not fit the cost's
/// type.
pub fn optimal_truncated_dist(guess: &str, answer: &str) -> (outcome: Result<
    TruncationResult,
    AlignmentError,
>)
    ensures
        outcome is Ok <==> lowercase_of(guess@).len() + lowercase_of(answer@).len() <= usize::MAX,
        outcome matches Ok(best) ==> is_best(lowercase_of(guess@), lowercase_of(answer@), best)
            && best.dist <= cost_at(lowercase_of(guess@), lowercase_of(answer@), 0) && (guess@
            == answer@ ==> best.truncate_amt == 0 && best.dist == 0),
{
    let g = folded_chars(guess);
    let a = folded_chars(answer);
    optimal_truncation(g.as_slice(), a.as_slice())
}

} // verus!
