//! The aggregator's externally visible record types: a single reporter's
//! submission and a finalized (or in-progress) round.

use vstd::prelude::*;

verus! {

/// One reporter's observation for one round: a batch of values, one per
/// configured series (for example one price per tracked pair).
pub struct Submission {
    pub values: Vec<u64>,
}

impl View for Submission {
    type V = Seq<u64>;

    open spec fn view(&self) -> Seq<u64> {
        self.values@
    }
}

impl DeepView for Submission {
    type V = Seq<u64>;

    open spec fn deep_view(&self) -> Seq<u64> {
        self.values@
    }
}

/// The mathematical content of a [`Round`]: the same fields with the
/// submission batch abstracted to a sequence.
#[verifier::ext_equal]
pub ghost struct RoundModel {
    pub round_id: u64,
    pub answer: Option<Seq<u64>>,
    pub decimals: u8,
    pub description: Seq<u8>,
    pub started_at: u64,
    pub updated_at: u64,
    pub answered_in_round: u64,
}

/// One aggregation round.  `answer` is set once enough submissions arrive, or
/// carried forward from the preceding round when this round times out.
pub struct Round {
    pub round_id: u64,
    pub answer: Option<Submission>,
    pub decimals: u8,
    pub description: Vec<u8>,
    pub started_at: u64,
    pub updated_at: u64,
    pub answered_in_round: u64,
}

impl View for Round {
    type V = RoundModel;

    open spec fn view(&self) -> RoundModel {
        RoundModel {
            round_id: self.round_id,
            answer: self.answer.deep_view(),
            decimals: self.decimals,
            description: self.description@,
            started_at: self.started_at,
            updated_at: self.updated_at,
            answered_in_round: self.answered_in_round,
        }
    }
}

impl DeepView for Round {
    type V = RoundModel;

    open spec fn deep_view(&self) -> RoundModel {
        self@
    }
}

} // verus!
