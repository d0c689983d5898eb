//! The scoring policy: how many points a distance earns, or that it ends
//! the round.

use vstd::prelude::*;

verus! {

/// Largest distance that still counts as a correct answer.
pub const MAX_ACCEPTABLE_DIST: usize = 13;

/// Points awarded for a guess at distance zero.
pub const PERFECT_BONUS: u32 = 26;

/// What a round's final distance leads to.
#[derive(Clone, Copy, Debug, PartialEq, Eq, Structural)]
pub enum Verdict {
    /// The guess is accepted and earns this many points.
    Points(u32),
    /// The guess is rejected; the round ends.
    Rejected,
}

/// Points earned at distance `dist`, or `None` where the guess is rejected.
pub open spec fn points_for(dist: nat) -> Option<nat> {
    if dist == 0 {
        Some(PERFECT_BONUS as nat)
    } else if dist <= MAX_ACCEPTABLE_DIST {
        Some((MAX_ACCEPTABLE_DIST - dist + 1) as nat)
    } else {
        None
    }
}

impl Verdict {
    /// The verdict as an optional number of points.
    pub open spec fn points(self) -> Option<nat> {
        match self {
            Verdict::Points(p) => Some(p as nat),
            Verdict::Rejected => None,
        }
    }
}

/// Judges a final distance.
pub fn score(dist: usize) -> (verdict: Verdict)
    ensures
        verdict.points() == points_for(dist as nat),
{
    if dist == 0 {
        Verdict::Points(PERFECT_BONUS)
    } else if dist <= MAX_ACCEPTABLE_DIST {
        let steps: usize = MAX_ACCEPTABLE_DIST - dist + 1;
        Verdict::Points(steps as u32)
    } else {
        Verdict::Rejected
    }
}

/// The fixed distance that stands for a multiple-choice selection.
pub open spec fn choice_dist(correct: bool) -> nat {
    if correct {
        MAX_ACCEPTABLE_DIST as nat
    } else {
        (MAX_ACCEPTABLE_DIST + 1) as nat
    }
}

/// Maps a multiple-choice selection to its distance: a correct one to the
/// largest accepted distance, an incorrect one just beyond it.
pub fn multiple_choice_dist(correct: bool) -> (dist: usize)
    ensures
        dist == choice_dist(correct),
{
    if correct {
        MAX_ACCEPTABLE_DIST
    } else {
        MAX_ACCEPTABLE_DIST + 1
    }
}

/// Every accepted distance earns at least one point and at most the perfect
/// bonus, and a smaller positive distance never earns less than a larger one.
pub proof fn lemma_points_decay(near: nat, far: nat)
    requires
        0 < near <= far,
    ensures
        points_for(far) is Some ==> points_for(near) is Some && points_for(near)->0 >= points_for(
            far,
        )->0 >= 1,
        points_for(near) is Some ==> points_for(near)->0 <= PERFECT_BONUS,
{
}

/// A correct multiple-choice selection earns exactly one point; an incorrect
/// one is rejected.
pub proof fn lemma_multiple_choice_verdict()
    ensures
        points_for(choice_dist(true)) == Some(1nat),
        points_for(choice_dist(false)) is None,
{
}

} // verus!
