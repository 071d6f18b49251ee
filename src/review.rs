//! The two outcomes of a review.

use vstd::prelude::*;

verus! {

/// What the learner achieved on one review of a card.
#[derive(Clone, Copy, Debug, PartialEq, Eq, Structural)]
pub enum ReviewStatus {
    Pass,
    Fail,
}

/// The numeric grade of an outcome, as the scheduling formulas use it.
pub open spec fn grade(s: ReviewStatus) -> nat {
    match s {
        ReviewStatus::Pass => 3,
        ReviewStatus::Fail => 2,
    }
}

/// The display label of an outcome.
pub open spec fn label_of(s: ReviewStatus) -> Seq<char> {
    match s {
        ReviewStatus::Pass => seq!['P', 'a', 's', 's'],
        ReviewStatus::Fail => seq!['F', 'a', 'i', 'l'],
    }
}

impl ReviewStatus {
    /// The label shown to the learner.
    pub fn label(&self) -> (r: &'static str)
        ensures
            r@ == label_of(*self),
    {
        match self {
            ReviewStatus::Pass => {
                proof {
                    reveal_strlit("Pass");
                }
                "Pass"
            },
            ReviewStatus::Fail => {
                proof {
                    reveal_strlit("Fail");
                }
                "Fail"
            },
        }
    }

    /// The grade: 3 for a pass, 2 for a failure.
    pub fn score(&self) -> (r: usize)
        ensures
            r == grade(*self),
    {
        match self {
            ReviewStatus::Pass => 3,
            ReviewStatus::Fail => 2,
        }
    }
}

} // verus!
