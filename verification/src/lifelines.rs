//! Lifelines and the inventory that counts how many of each kind are left.

use crate::sampler::draw_below;
use rand::rngs::StdRng;
use vstd::prelude::*;

verus! {

/// A kind of help that the player can spend.
#[derive(Clone, Copy, Debug, PartialEq, Eq, Structural)]
pub enum Lifeline {
    ShowTitleAlbum,
    ShowPrevLines,
    Skip,
}

/// The lifeline that stands at `index` among the three kinds. Every index
/// from two on stands for `Skip`.
pub open spec fn lifeline_at(index: int) -> Lifeline {
    if index == 0 {
        Lifeline::ShowTitleAlbum
    } else if index == 1 {
        Lifeline::ShowPrevLines
    } else {
        Lifeline::Skip
    }
}

impl Lifeline {
    /// The lifeline that a drawn index stands for.
    pub fn from_index(index: usize) -> (lifeline: Lifeline)
        ensures
            lifeline == lifeline_at(index as int),
    {
        if index == 0 {
            Lifeline::ShowTitleAlbum
        } else if index == 1 {
            Lifeline::ShowPrevLines
        } else {
            Lifeline::Skip
        }
    }

    /// Draws one of the three kinds, each as likely as the others. Which one
    /// is up to the generator: it is the kind at a drawn index below three.
    pub fn random_lifeline(rng: &mut StdRng) -> (lifeline: Lifeline)
        ensures
            exists|index: int| 0 <= index < 3 && lifeline == lifeline_at(index),
    {
        let index = draw_below(rng, 3);
        let lifeline = Lifeline::from_index(index);
        assert(lifeline == lifeline_at(index as int));
        lifeline
    }

    /// The name under which the lifeline is shown.
    pub fn title(&self) -> (name: &'static str)
        ensures
            name@ == match *self {
                Lifeline::ShowPrevLines => "Show Previous Lines"@,
                Lifeline::ShowTitleAlbum => "Show Title"@,
                Lifeline::Skip => "Skip Question"@,
            },
    {
        match self {
            Lifeline::ShowPrevLines => "Show Previous Lines",
            Lifeline::ShowTitleAlbum => "Show Title",
            Lifeline::Skip => "Skip Question",
        }
    }
}

/// How many lifelines of each kind the player has left.
#[derive(Clone, Copy, Debug)]
pub struct LifelineInventory {
    show_title_album: i32,
    show_prev_lines: i32,
    skip: i32,
}

impl LifelineInventory {
    #[verifier::type_invariant]
    spec fn counts_are_natural(&self) -> bool {
        self.show_title_album >= 0 && self.show_prev_lines >= 0 && self.skip >= 0
    }

    /// The number of lifelines of a kind that are left.
    pub closed spec fn count(&self, lifeline: Lifeline) -> int {
        match lifeline {
            Lifeline::ShowTitleAlbum => self.show_title_album as int,
            Lifeline::ShowPrevLines => self.show_prev_lines as int,
            Lifeline::Skip => self.skip as int,
        }
    }

    /// An inventory with one lifeline of each kind.
    pub fn new() -> (inventory: LifelineInventory)
        ensures
            forall|lifeline: Lifeline| inventory.count(lifeline) == 1,
    {
        LifelineInventory { show_title_album: 1, show_prev_lines: 1, skip: 1 }
    }

    /// An inventory with the given counts, where none of them is negative.
    pub fn with_counts(show_title_album: i32, show_prev_lines: i32, skip: i32) -> (inventory: Option<
        LifelineInventory,
    >)
        ensures
            inventory is Some <==> show_title_album >= 0 && show_prev_lines >= 0 && skip >= 0,
            inventory matches Some(made) ==> made.count(Lifeline::ShowTitleAlbum)
                == show_title_album && made.count(Lifeline::ShowPrevLines) == show_prev_lines
                && made.count(Lifeline::Skip) == skip,
    {
        if show_title_album >= 0 && show_prev_lines >= 0 && skip >= 0 {
            Some(LifelineInventory { show_title_album, show_prev_lines, skip })
        } else {
            None
        }
    }

    /// The number of lifelines of a kind that are left.
    pub fn available(&self, lifeline: Lifeline) -> (left: i32)
        ensures
            left == self.count(lifeline),
            left >= 0,
    {
        proof {
            use_type_invariant(self);
        }
        match lifeline {
            Lifeline::ShowTitleAlbum => self.show_title_album,
            Lifeline::ShowPrevLines => self.show_prev_lines,
            Lifeline::Skip => self.skip,
        }
    }

    /// Spends one lifeline of a kind if one is left, and says whether it did.
    /// The other kinds keep their counts.
    pub fn consume_lifeline(&mut self, lifeline: Lifeline) -> (consumed: bool)
        ensures
            consumed == (old(self).count(lifeline) > 0),
            final(self).count(lifeline) == if consumed {
                old(self).count(lifeline) - 1
            } else {
                old(self).count(lifeline)
            },
            final(self).count(lifeline) >= 0,
            forall|other: Lifeline|
                other != lifeline ==> final(self).count(other) == old(self).count(other),
    {
        proof {
            use_type_invariant(&*self);
        }
        match lifeline {
            Lifeline::ShowTitleAlbum => {
                if self.show_title_album > 0 {
                    self.show_title_album -= 1;
                    return true;
                }
                return false;
            },
            Lifeline::ShowPrevLines => {
                if self.show_prev_lines > 0 {
                    self.show_prev_lines -= 1;
                    return true;
                }
                return false;
            },
            Lifeline::Skip => {
                if self.skip > 0 {
                    self.skip -= 1;
                    return true;
                }
                return false;
            },
        }
    }

    /// Grants one more lifeline of a kind. The other kinds keep their counts.
    pub fn add_lifeline(&mut self, lifeline: &Lifeline)
        requires
            old(self).count(*lifeline) < i32::MAX,
        ensures
            final(self).count(*lifeline) == old(self).count(*lifeline) + 1,
            forall|other: Lifeline|
                other != *lifeline ==> final(self).count(other) == old(self).count(other),
    {
        proof {
            use_type_invariant(&*self);
        }
        match lifeline {
            Lifeline::ShowTitleAlbum => {
                self.show_title_album += 1;
            },
            Lifeline::ShowPrevLines => {
                self.show_prev_lines += 1;
            },
            Lifeline::Skip => {
                self.skip += 1;
            },
        }
    }
}

} // verus!
