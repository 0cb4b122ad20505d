//! The aggregator's record types: per-round submission details, per-reporter
//! status, requester permissions, the funds ledger and the reporter-facing
//! round-state view.

use vstd::prelude::*;

verus! {

use crate::aggregator_interface::Submission;

/// The mathematical content of [`RoundDetails`].
#[verifier::ext_equal]
pub ghost struct RoundDetailsModel {
    pub submissions: Seq<Seq<u64>>,
    pub max_submissions: u64,
    pub min_submissions: u64,
    pub timeout: u64,
    pub payment_amount: u64,
}

/// The ephemeral, per-open-round record: the submissions received so far and
/// a snapshot of the round parameters that were current when the round was
/// opened.  Deleted once the round holds `max_submissions` submissions.
pub struct RoundDetails {
    pub submissions: Vec<Submission>,
    pub max_submissions: u64,
    pub min_submissions: u64,
    pub timeout: u64,
    pub payment_amount: u64,
}

impl View for RoundDetails {
    type V = RoundDetailsModel;

    open spec fn view(&self) -> RoundDetailsModel {
        RoundDetailsModel {
            submissions: self.submissions.deep_view(),
            max_submissions: self.max_submissions,
            min_submissions: self.min_submissions,
            timeout: self.timeout,
            payment_amount: self.payment_amount,
        }
    }
}

/// The mathematical content of [`OracleStatus`].
#[verifier::ext_equal]
pub ghost struct OracleStatusModel {
    pub withdrawable: u64,
    pub starting_round: u64,
    pub ending_round: u64,
    pub last_reported_round: u64,
    pub last_started_round: u64,
    pub latest_submission: Option<Seq<u64>>,
    pub admin: u64,
    pub pending_admin: Option<u64>,
}

/// Per-reporter registry entry: reward balance, validity window, sequencing
/// markers and the two-phase admin handshake (`pending_admin` is the
/// candidate that has been offered but has not yet accepted the role).
pub struct OracleStatus {
    pub withdrawable: u64,
    pub starting_round: u64,
    pub ending_round: u64,
    pub last_reported_round: u64,
    pub last_started_round: u64,
    pub latest_submission: Option<Submission>,
    pub admin: u64,
    pub pending_admin: Option<u64>,
}

impl View for OracleStatus {
    type V = OracleStatusModel;

    open spec fn view(&self) -> OracleStatusModel {
        OracleStatusModel {
            withdrawable: self.withdrawable,
            starting_round: self.starting_round,
            ending_round: self.ending_round,
            last_reported_round: self.last_reported_round,
            last_started_round: self.last_started_round,
            latest_submission: self.latest_submission.deep_view(),
            admin: self.admin,
            pending_admin: self.pending_admin,
        }
    }
}

/// An identity allowed to trigger a new round without submitting data,
/// subject to its own cool-down (`delay` rounds between rounds it opens).
#[derive(Clone, Copy, PartialEq, Eq, Structural)]
pub struct Requester {
    pub authorized: bool,
    pub delay: u64,
    pub last_started_round: u64,
}

/// The aggregate ledger: `available` is deposited and not yet owed,
/// `allocated` is owed to reporters and not yet withdrawn.
#[derive(Clone, Copy, PartialEq, Eq, Structural)]
pub struct Funds {
    pub available: u64,
    pub allocated: u64,
}

/// The mathematical content of [`OracleRoundState`].
#[verifier::ext_equal]
pub ghost struct OracleRoundStateModel {
    pub eligible_to_submit: bool,
    pub round_id: u64,
    pub latest_submission: Option<Seq<u64>>,
    pub started_at: u64,
    pub timeout: u64,
    pub available_funds: u64,
    pub oracle_count: u64,
    pub payment_amount: u64,
}

/// What a reporter needs to know about a round it might submit to.
pub struct OracleRoundState {
    pub eligible_to_submit: bool,
    pub round_id: u64,
    pub latest_submission: Option<Submission>,
    pub started_at: u64,
    pub timeout: u64,
    pub available_funds: u64,
    pub oracle_count: u64,
    pub payment_amount: u64,
}

impl View for OracleRoundState {
    type V = OracleRoundStateModel;

    open spec fn view(&self) -> OracleRoundStateModel {
        OracleRoundStateModel {
            eligible_to_submit: self.eligible_to_submit,
            round_id: self.round_id,
            latest_submission: self.latest_submission.deep_view(),
            started_at: self.started_at,
            timeout: self.timeout,
            available_funds: self.available_funds,
            oracle_count: self.oracle_count,
            payment_amount: self.payment_amount,
        }
    }
}

/// An identity together with an amount, used when rewriting deposits.
#[derive(Clone, Copy, PartialEq, Eq, Structural)]
pub struct AddressAmountPair {
    pub address: u64,
    pub amount: u64,
}

} // verus!
