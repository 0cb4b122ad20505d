//! The round manager: the central state machine that owns the round table,
//! the reporter registry, the requester table and the funds ledger, and that
//! validates, accepts and pays for submissions.
//!
//! The host environment is kept at the boundary: callers pass in the caller
//! identity, the current block timestamp and any attached payment as plain
//! values, and token transfers out of the contract are left to the caller.
//! Every entry point either returns `Ok` with all of its effects applied or
//! an error with the state untouched.

use vstd::prelude::*;

verus! {

use crate::aggregator_data::Funds;
use crate::aggregator_data::OracleRoundState;
use crate::aggregator_data::OracleStatus;
use crate::aggregator_data::OracleStatusModel;
use crate::aggregator_data::Requester;
use crate::aggregator_data::RoundDetails;
use crate::aggregator_data::RoundDetailsModel;
use crate::aggregator_interface::Round;
use crate::aggregator_interface::RoundModel;
use crate::aggregator_interface::Submission;
use crate::keyed::has_key;
use crate::keyed::sum_by;
use crate::keyed::unique_keys;
use crate::keyed::value_of;

/// How many rounds' worth of rewards for every reporter must stay available.
pub const RESERVE_ROUNDS: u64 = 2;

/// The sentinel for a reporter's validity window that never closes.
pub const ROUND_MAX: u64 = u64::MAX;

/// Every way an aggregator entry point can abort.  A failed call leaves the
/// state exactly as it was.
#[derive(Clone, Copy, PartialEq, Eq, Structural, Debug)]
pub enum AggregatorError {
    /// A payment arrived in a token other than the configured one.
    WrongTokenType,
    /// A deposit would push the ledger total past what it can record.
    LedgerCapacityExceeded,
    /// A submission carried a number of values other than the configured one.
    WrongNumberOfValues,
    /// The reporter's record carries no starting round.
    NotEnabledOracle,
    /// The round precedes the reporter's starting round.
    NotYetEnabledOracle,
    /// The round follows the reporter's ending round.
    NoLongerAllowedOracle,
    /// The reporter already reported for this round or a later one.
    PreviouslyReported,
    /// The round is neither current, next, nor next-after-unanswered.
    InvalidRoundToReport,
    /// The round before the one reported on is not answered or timed out.
    PreviousRoundNotSupersedable,
    /// A submitted value is below the configured minimum.
    ValueBelowMinSubmissionValue,
    /// A submitted value is above the configured maximum.
    ValueAboveMaxSubmissionValue,
    /// The round no longer (or does not yet) accept submissions.
    RoundNotAcceptingSubmissions,
    /// `change_oracles` got differing numbers of reporters and admins.
    OracleAdminCountMismatch,
    /// A reporter being added is already registered.
    OracleAlreadyEnabled,
    /// `max_submissions` would fall below `min_submissions`.
    MaxBelowMin,
    /// `max_submissions` would exceed the reporter count.
    MaxExceedsTotal,
    /// The restart delay would reach the reporter count.
    DelayExceedsTotal,
    /// Available funds fall short of the required reserve.
    InsufficientFundsForPayment,
    /// `min_submissions` must be positive while reporters exist.
    MinMustBePositive,
    /// Only the reporter's admin may do this.
    OnlyCallableByAdmin,
    /// The reporter's reward balance is short of the requested amount.
    InsufficientWithdrawableFunds,
    /// The caller's deposit is short of the requested amount.
    InsufficientFundsToWithdraw,
    /// Paying out would eat into the required reserve.
    InsufficientReserveFunds,
    /// Only the offered candidate may accept the admin role.
    OnlyCallableByPendingAdmin,
    /// The caller is not an authorized requester.
    NotAuthorizedRequester,
    /// The current round must be supersedable before a requester opens one.
    PrevRoundMustBeSupersedable,
    /// A requester must respect its configured delay between rounds.
    MustDelayRequests,
    /// Paying the reporter would overdraw the available funds.
    InsufficientAvailableFunds,
    /// Only the contract owner may do this.
    OnlyOwner,
    /// No reporter is registered under the given identity.
    NoOracleAtAddress,
    /// No round exists under the given round id.
    NoRoundForId,
    /// No round details exist under the given round id.
    NoRoundDetailsForId,
    /// No requester is registered under the given identity.
    NoRequesterAtAddress,
}

impl AggregatorError {
    /// The message text of each error.
    pub open spec fn spec_message(self) -> &'static str {
        match self {
            AggregatorError::WrongTokenType => "Wrong token type",
            AggregatorError::LedgerCapacityExceeded => "deposit exceeds ledger capacity",
            AggregatorError::WrongNumberOfValues => "incorrect number of values in submission",
            AggregatorError::NotEnabledOracle => "not enabled oracle",
            AggregatorError::NotYetEnabledOracle => "not yet enabled oracle",
            AggregatorError::NoLongerAllowedOracle => "no longer allowed oracle",
            AggregatorError::PreviouslyReported => "cannot report on previous rounds",
            AggregatorError::InvalidRoundToReport => "invalid round to report",
            AggregatorError::PreviousRoundNotSupersedable => "previous round not supersedable",
            AggregatorError::ValueBelowMinSubmissionValue => "value below min_submission_value",
            AggregatorError::ValueAboveMaxSubmissionValue => "value above max_submission_value",
            AggregatorError::RoundNotAcceptingSubmissions => "round not accepting submissions",
            AggregatorError::OracleAdminCountMismatch => "need same oracle and admin count",
            AggregatorError::OracleAlreadyEnabled => "oracle already enabled",
            AggregatorError::MaxBelowMin => "max must equal/exceed min",
            AggregatorError::MaxExceedsTotal => "max cannot exceed total",
            AggregatorError::DelayExceedsTotal => "delay cannot exceed total",
            AggregatorError::InsufficientFundsForPayment => "insufficient funds for payment",
            AggregatorError::MinMustBePositive => "min must be greater than 0",
            AggregatorError::OnlyCallableByAdmin => "only callable by admin",
            AggregatorError::InsufficientWithdrawableFunds => "insufficient withdrawable funds",
            AggregatorError::InsufficientFundsToWithdraw => "Insufficient funds to withdraw",
            AggregatorError::InsufficientReserveFunds => "insufficient reserve funds",
            AggregatorError::OnlyCallableByPendingAdmin => "only callable by pending admin",
            AggregatorError::NotAuthorizedRequester => "not authorized requester",
            AggregatorError::PrevRoundMustBeSupersedable => "prev round must be supersedable",
            AggregatorError::MustDelayRequests => "must delay requests",
            AggregatorError::InsufficientAvailableFunds => "insufficient available funds",
            AggregatorError::OnlyOwner => "only callable by owner",
            AggregatorError::NoOracleAtAddress => "No oracle at given address",
            AggregatorError::NoRoundForId => "No round for given round id",
            AggregatorError::NoRoundDetailsForId => "No round details for given round id",
            AggregatorError::NoRequesterAtAddress => "No requester has the given address",
        }
    }

    /// The human-readable message for this error.
    pub fn message(&self) -> (r: &'static str)
        ensures
            r == self.spec_message(),
    {
        match self {
            AggregatorError::WrongTokenType => "Wrong token type",
            AggregatorError::LedgerCapacityExceeded => "deposit exceeds ledger capacity",
            AggregatorError::WrongNumberOfValues => "incorrect number of values in submission",
            AggregatorError::NotEnabledOracle => "not enabled oracle",
            AggregatorError::NotYetEnabledOracle => "not yet enabled oracle",
            AggregatorError::NoLongerAllowedOracle => "no longer allowed oracle",
            AggregatorError::PreviouslyReported => "cannot report on previous rounds",
            AggregatorError::InvalidRoundToReport => "invalid round to report",
            AggregatorError::PreviousRoundNotSupersedable => "previous round not supersedable",
            AggregatorError::ValueBelowMinSubmissionValue => "value below min_submission_value",
            AggregatorError::ValueAboveMaxSubmissionValue => "value above max_submission_value",
            AggregatorError::RoundNotAcceptingSubmissions => "round not accepting submissions",
            AggregatorError::OracleAdminCountMismatch => "need same oracle and admin count",
            AggregatorError::OracleAlreadyEnabled => "oracle already enabled",
            AggregatorError::MaxBelowMin => "max must equal/exceed min",
            AggregatorError::MaxExceedsTotal => "max cannot exceed total",
            AggregatorError::DelayExceedsTotal => "delay cannot exceed total",
            AggregatorError::InsufficientFundsForPayment => "insufficient funds for payment",
            AggregatorError::MinMustBePositive => "min must be greater than 0",
            AggregatorError::OnlyCallableByAdmin => "only callable by admin",
            AggregatorError::InsufficientWithdrawableFunds => "insufficient withdrawable funds",
            AggregatorError::InsufficientFundsToWithdraw => "Insufficient funds to withdraw",
            AggregatorError::InsufficientReserveFunds => "insufficient reserve funds",
            AggregatorError::OnlyCallableByPendingAdmin => "only callable by pending admin",
            AggregatorError::NotAuthorizedRequester => "not authorized requester",
            AggregatorError::PrevRoundMustBeSupersedable => "prev round must be supersedable",
            AggregatorError::MustDelayRequests => "must delay requests",
            AggregatorError::InsufficientAvailableFunds => "insufficient available funds",
            AggregatorError::OnlyOwner => "only callable by owner",
            AggregatorError::NoOracleAtAddress => "No oracle at given address",
            AggregatorError::NoRoundForId => "No round for given round id",
            AggregatorError::NoRoundDetailsForId => "No round details for given round id",
            AggregatorError::NoRequesterAtAddress => "No requester has the given address",
        }
    }
}

/// The whole persistent state of one aggregator deployment, collected into a
/// single store.  Identities (owner, reporters, admins, requesters) and the
/// token kind are plain integer ids handed in by the host.
pub struct Aggregator {
    pub owner: u64,
    pub token_id: u64,
    pub payment_amount: u64,
    pub max_submission_count: u64,
    pub min_submission_count: u64,
    pub restart_delay: u64,
    pub timeout: u64,
    pub min_submission_value: u64,
    pub max_submission_value: u64,
    pub reporting_round_id: u64,
    pub latest_round_id: u64,
    pub oracles: Vec<(u64, OracleStatus)>,
    pub rounds: Vec<Round>,
    pub details: Vec<(u64, RoundDetails)>,
    pub requesters: Vec<(u64, Requester)>,
    pub recorded_funds: Funds,
    pub deposits: Vec<(u64, u64)>,
    pub decimals: u8,
    pub description: Vec<u8>,
    pub values_count: usize,
}

/// The verdict on a proposed set of future-round parameters, given the
/// reporter count and available balance they would apply to: `max` must cover
/// `min`, neither `max` nor the restart delay may reach past the reporter
/// count, the available balance must cover the required reserve for the new
/// payment, and `min` must be positive while reporters exist.
pub open spec fn future_rounds_check(
    count: int,
    available: u64,
    payment: u64,
    min_submissions: u64,
    max_submissions: u64,
    restart_delay: u64,
) -> Result<(), AggregatorError> {
    if max_submissions < min_submissions {
        Err(AggregatorError::MaxBelowMin)
    } else if max_submissions > count {
        Err(AggregatorError::MaxExceedsTotal)
    } else if !(count == 0 || restart_delay < count) {
        Err(AggregatorError::DelayExceedsTotal)
    } else if available < payment * count * RESERVE_ROUNDS {
        Err(AggregatorError::InsufficientFundsForPayment)
    } else if count > 0 && min_submissions == 0 {
        Err(AggregatorError::MinMustBePositive)
    } else {
        Ok(())
    }
}

/// Whether `available` covers a reserve of `payment` per reporter for
/// `RESERVE_ROUNDS` rounds, for a reporter count of `count`.
fn reserve_covered_for(available: u64, payment: u64, count: usize) -> (r: bool)
    ensures
        r == (available >= payment * count * RESERVE_ROUNDS),
{
    proof {
        let p = payment as int;
        let c = count as int;
        assert(p * c >= 0 && p * c <= u64::MAX * u64::MAX) by (nonlinear_arith)
            requires
                0 <= p <= u64::MAX,
                0 <= c <= u64::MAX,
        ;
    }
    let base = (payment as u128) * (count as u128);
    let half = (available as u128) / 2;
    proof {
        let a = available as int;
        let b = base as int;
        vstd::arithmetic::div_mod::lemma_fundamental_div_mod(a, 2);
        assert((a / 2 >= b) == (a >= 2 * b));
    }
    half >= base
}

/// Checks a proposed set of future-round parameters (see
/// [`future_rounds_check`]).
fn check_future_rounds(
    count: usize,
    available: u64,
    payment: u64,
    min_submissions: u64,
    max_submissions: u64,
    restart_delay: u64,
) -> (r: Result<(), AggregatorError>)
    ensures
        r == future_rounds_check(
            count as int,
            available,
            payment,
            min_submissions,
            max_submissions,
            restart_delay,
        ),
{
    if max_submissions < min_submissions {
        return Err(AggregatorError::MaxBelowMin);
    }
    if max_submissions > count as u64 {
        return Err(AggregatorError::MaxExceedsTotal);
    }
    if !(count == 0 || restart_delay < count as u64) {
        return Err(AggregatorError::DelayExceedsTotal);
    }
    if !reserve_covered_for(available, payment, count) {
        return Err(AggregatorError::InsufficientFundsForPayment);
    }
    if count > 0 && min_submissions == 0 {
        return Err(AggregatorError::MinMustBePositive);
    }
    Ok(())
}

/// What opening round `round_id` at time `now` does to the round table, the
/// details table and the reporting pointer: the previous round is closed out
/// if its details are still there and it timed out (its answer carried
/// forward from the round before it, its details purged), a fresh round —
/// unanswered, so with `updated_at` zero — and a details snapshot of the
/// current parameters appear under `round_id`, and the reporting pointer
/// advances to `round_id`.  Everything else about the two tables stays.
pub open spec fn new_round_state_effects(
    pre: Aggregator,
    post: Aggregator,
    round_id: u64,
    now: u64,
) -> bool {
    &&& post.reporting_round_id == round_id
    &&& post.rounds@.len() == pre.rounds@.len() + 1
    &&& post.round_at(round_id) == (RoundModel {
        round_id: round_id,
        answer: None,
        decimals: pre.decimals,
        description: pre.description@,
        started_at: now,
        updated_at: 0,
        answered_in_round: 0,
    })
    &&& (if pre.closes_out((round_id - 1) as u64, now) {
        post.round_at((round_id - 1) as u64) == pre.carried_round_model((round_id - 1) as u64, now)
    } else {
        post.round_at((round_id - 1) as u64) == pre.round_at((round_id - 1) as u64)
    })
    &&& forall|i: int| 0 <= i < round_id - 1 ==> (#[trigger] post.rounds@[i]) == pre.rounds@[i]
    &&& post.details_model_of(round_id) == Some(
        RoundDetailsModel {
            submissions: Seq::<Seq<u64>>::empty(),
            max_submissions: pre.max_submission_count,
            min_submissions: pre.min_submission_count,
            timeout: pre.timeout,
            payment_amount: pre.payment_amount,
        },
    )
    &&& (if pre.closes_out((round_id - 1) as u64, now) {
        post.details_of((round_id - 1) as u64) is None
    } else {
        post.details_of((round_id - 1) as u64) == pre.details_of((round_id - 1) as u64)
    })
    &&& forall|k: u64|
        k != round_id && k != round_id - 1 ==> #[trigger] post.details_of(k) == pre.details_of(k)
}

/// The reporter table with each entry abstracted to its model.
pub open spec fn table_model(s: Seq<(u64, OracleStatus)>) -> Seq<(u64, OracleStatusModel)> {
    s.map_values(|e: (u64, OracleStatus)| (e.0, e.1@))
}

/// The model table carries the same keys as the concrete one, with the same
/// uniqueness.
pub proof fn lemma_table_model_keys(s: Seq<(u64, OracleStatus)>)
    ensures
        unique_keys(table_model(s)) == unique_keys(s),
        forall|k: u64| has_key(table_model(s), k) == has_key(s, k),
{
    let m = table_model(s);
    assert(forall|i: int| 0 <= i < s.len() ==> (#[trigger] m[i]).0 == s[i].0);
    assert forall|k: u64| has_key(m, k) == has_key(s, k) by {
        if has_key(s, k) {
            let i = crate::keyed::index_of_key(s, k);
            assert(m[i].0 == k);
        }
        if has_key(m, k) {
            let i = crate::keyed::index_of_key(m, k);
            assert(s[i].0 == k);
        }
    }
    if unique_keys(s) {
        assert forall|i: int, j: int| 0 <= i < j < m.len() implies (#[trigger] m[i]).0
            != (#[trigger] m[j]).0 by {
            assert(s[i].0 != s[j].0);
        }
    }
    if unique_keys(m) {
        assert forall|i: int, j: int| 0 <= i < j < s.len() implies (#[trigger] s[i]).0
            != (#[trigger] s[j]).0 by {
            assert(m[i].0 != m[j].0);
        }
    }
}

/// Dropping a key commutes with abstracting the table.
pub proof fn lemma_table_model_removed(s: Seq<(u64, OracleStatus)>, key: u64)
    requires
        unique_keys(s),
    ensures
        table_model(crate::keyed::removed(s, key)) == crate::keyed::removed(table_model(s), key),
{
    lemma_table_model_keys(s);
    if has_key(s, key) {
        let i = crate::keyed::index_of_key(s, key);
        crate::keyed::lemma_key_index_unique(s, key, i);
        crate::keyed::lemma_key_index_unique(table_model(s), key, i);
        assert(table_model(s.remove(i)) =~= table_model(s).remove(i));
    }
}

/// The reward balance a table entry carries, as a term for sums.
pub open spec fn withdrawable_term() -> spec_fn((u64, OracleStatus)) -> int {
    |e: (u64, OracleStatus)| e.1.withdrawable as int
}

/// The deposited amount a table entry carries, as a term for sums.
pub open spec fn deposit_term() -> spec_fn((u64, u64)) -> int {
    |e: (u64, u64)| e.1 as int
}

impl Aggregator {
    /// The sum of all reporters' not-yet-withdrawn rewards.
    pub open spec fn total_withdrawable(self) -> int {
        sum_by(self.oracles@, withdrawable_term())
    }

    /// The sum of all recorded deposits.
    pub open spec fn total_deposits(self) -> int {
        sum_by(self.deposits@, deposit_term())
    }

    /// Everything the state machine preserves: unique table keys, the round
    /// table indexed by round id, the ledger total within range, allocated
    /// funds covering all reward balances, available funds equal to the
    /// recorded deposits, submission-count parameters consistent with the
    /// reporter count, and every stored submission batch of the configured
    /// width.
    pub open spec fn wf(self) -> bool {
        &&& unique_keys(self.oracles@)
        &&& unique_keys(self.details@)
        &&& unique_keys(self.requesters@)
        &&& unique_keys(self.deposits@)
        &&& self.rounds@.len() == self.reporting_round_id as int + 1
        &&& forall|i: int|
            0 <= i < self.rounds@.len() ==> (#[trigger] self.rounds@[i]).round_id == i
        &&& self.recorded_funds.available + self.recorded_funds.allocated <= u64::MAX
        &&& self.total_withdrawable() <= self.recorded_funds.allocated
        &&& self.total_deposits() == self.recorded_funds.available
        &&& (self.oracles@.len() > 0 ==> 1 <= self.min_submission_count
            && self.min_submission_count <= self.max_submission_count
            && self.max_submission_count <= self.oracles@.len() && self.restart_delay
            < self.oracles@.len())
        &&& forall|i: int|
            0 <= i < self.details@.len() ==> self.details_entry_wf(
                (#[trigger] self.details@[i]).1,
            )
        &&& forall|i: int|
            0 <= i < self.details@.len() ==> (#[trigger] self.details@[i]).0
                < self.rounds@.len()
        &&& self.latest_round_id <= self.reporting_round_id
    }

    /// Every recorded submission batch has the configured width and the batch
    /// count never exceeds the round's `max_submissions`.
    pub open spec fn details_entry_wf(self, d: RoundDetails) -> bool {
        &&& d.submissions@.len() <= d.max_submissions
        &&& forall|j: int|
            0 <= j < d.submissions@.len() ==> (#[trigger] d.submissions@[j])@.len()
                == self.values_count
    }

    /// The registry entry of `oracle`, if registered.
    pub open spec fn oracle_status_of(self, oracle: u64) -> Option<OracleStatus> {
        value_of(self.oracles@, oracle)
    }

    /// The abstract registry entry of `oracle`, if registered.
    pub open spec fn oracle_model_of(self, oracle: u64) -> Option<OracleStatusModel> {
        match value_of(self.oracles@, oracle) {
            Some(st) => Some(st@),
            None => None,
        }
    }

    /// The round-details entry of `round_id`, if still present.
    pub open spec fn details_of(self, round_id: u64) -> Option<RoundDetails> {
        value_of(self.details@, round_id)
    }

    /// The abstract round-details entry of `round_id`, if still present.
    pub open spec fn details_model_of(self, round_id: u64) -> Option<RoundDetailsModel> {
        match value_of(self.details@, round_id) {
            Some(d) => Some(d@),
            None => None,
        }
    }

    /// The requester entry of `addr`, if registered.
    pub open spec fn requester_of(self, addr: u64) -> Option<Requester> {
        value_of(self.requesters@, addr)
    }

    /// The recorded deposit of `addr` (zero when absent).
    pub open spec fn deposit_of(self, addr: u64) -> u64 {
        match value_of(self.deposits@, addr) {
            Some(d) => d,
            None => 0,
        }
    }

    /// Whether a round record exists for `round_id`.
    pub open spec fn has_round(self, round_id: u64) -> bool {
        (round_id as int) < self.rounds@.len()
    }

    /// The round record of `round_id` (meaningful only when present).
    pub open spec fn round_at(self, round_id: u64) -> RoundModel {
        self.rounds@[round_id as int]@
    }

    /// Whether `round_id` is the one a new round must carry: the successor of
    /// the current reporting round.
    pub open spec fn is_new_round(self, round_id: u64) -> bool {
        round_id == self.reporting_round_id as int + 1
    }

    /// The minimum available balance that must back `payment` per round:
    /// enough to pay every reporter for `RESERVE_ROUNDS` rounds.
    pub open spec fn required_reserve_spec(self, payment: u64) -> int {
        payment * self.oracles@.len() * RESERVE_ROUNDS
    }

    /// Whether the round has run out its configured timeout without being
    /// superseded (round zero counts as always timed out).  Meaningful only
    /// while the round and its details exist.
    pub open spec fn timed_out_spec(self, round_id: u64, now: u64) -> bool {
        let round = self.round_at(round_id);
        let details = self.details_of(round_id)->Some_0;
        round_id == 0 || (round.started_at > 0 && details.timeout > 0 && round.started_at
            + details.timeout < now)
    }

    /// `timed_out`, with the lookups that can fail made explicit.
    pub open spec fn timed_out_result(self, round_id: u64, now: u64) -> Result<
        bool,
        AggregatorError,
    > {
        if !self.has_round(round_id) {
            Err(AggregatorError::NoRoundForId)
        } else if self.details_of(round_id) is None {
            Err(AggregatorError::NoRoundDetailsForId)
        } else {
            Ok(self.timed_out_spec(round_id, now))
        }
    }

    /// Whether opening the next round closes `round_id` out with a
    /// carry-forward: the round still has details and they have run out
    /// their timeout.  A round whose details are already gone — answered in
    /// full and retired — has nothing left to close out.
    pub open spec fn closes_out(self, round_id: u64, now: u64) -> bool {
        self.details_of(round_id) is Some && self.timed_out_spec(round_id, now)
    }

    /// [`Self::closes_out`] with the round lookup that can fail made
    /// explicit: a round with purged details simply does not close out.
    pub open spec fn close_out_check(self, round_id: u64, now: u64) -> Result<
        bool,
        AggregatorError,
    > {
        if !self.has_round(round_id) {
            Err(AggregatorError::NoRoundForId)
        } else {
            Ok(self.closes_out(round_id, now))
        }
    }

    /// Whether the round may be superseded by its successor: it is answered
    /// or it has timed out.  An answered round is supersedable outright; the
    /// timeout lookup happens only for an unanswered round, so only there
    /// can missing details surface as an error.
    pub open spec fn supersedable_result(self, round_id: u64, now: u64) -> Result<
        bool,
        AggregatorError,
    > {
        if !self.has_round(round_id) {
            Err(AggregatorError::NoRoundForId)
        } else if self.round_at(round_id).updated_at > 0 {
            Ok(true)
        } else {
            self.timed_out_result(round_id, now)
        }
    }

    /// Whether the round that must precede `round_id` is the current
    /// reporting round and still unanswered.
    pub open spec fn previous_and_current_unanswered_spec(self, round_id: u64, rr_id: u64) -> bool {
        round_id as int + 1 == rr_id && self.round_at(rr_id).updated_at == 0
    }

    /// Whether the round still accepts submissions: its details exist and
    /// allow a positive number of submissions.
    pub open spec fn accepting_submissions_result(self, round_id: u64) -> Result<
        bool,
        AggregatorError,
    > {
        match self.details_of(round_id) {
            None => Err(AggregatorError::NoRoundDetailsForId),
            Some(d) => Ok(d.max_submissions != 0),
        }
    }

    /// Whether `oracle`'s restart-delay throttle permits it to open
    /// `round_id`: far enough past the round it last opened, or it never
    /// opened one.  Meaningful only for a registered reporter.
    pub open spec fn delayed_spec(self, oracle: u64, round_id: u64) -> bool {
        let st = self.oracle_status_of(oracle)->Some_0;
        round_id > st.last_started_round + self.restart_delay || st.last_started_round == 0
    }

    /// Every sequencing rule a submission for `round_id` by `oracle` must
    /// pass, in the order the rules are checked; the first failure names the
    /// error the whole call aborts with.
    pub open spec fn validate_oracle_round_result(self, oracle: u64, round_id: u64, now: u64)
        -> Result<(), AggregatorError> {
        match self.oracle_status_of(oracle) {
            None => Err(AggregatorError::NoOracleAtAddress),
            Some(st) => {
                let rr = self.reporting_round_id;
                if st.starting_round == 0 {
                    Err(AggregatorError::NotEnabledOracle)
                } else if round_id < st.starting_round {
                    Err(AggregatorError::NotYetEnabledOracle)
                } else if round_id > st.ending_round {
                    Err(AggregatorError::NoLongerAllowedOracle)
                } else if round_id <= st.last_reported_round {
                    Err(AggregatorError::PreviouslyReported)
                } else if !(round_id == rr || round_id as int == rr as int + 1
                    || self.previous_and_current_unanswered_spec(round_id, rr)) {
                    Err(AggregatorError::InvalidRoundToReport)
                } else if round_id != 1 {
                    match self.supersedable_result((round_id - 1) as u64, now) {
                        Err(e) => Err(e),
                        Ok(true) => Ok(()),
                        Ok(false) => Err(AggregatorError::PreviousRoundNotSupersedable),
                    }
                } else {
                    Ok(())
                }
            },
        }
    }

    /// Creates a fresh aggregator.  Mirrors the host constructor: an empty
    /// reporter set, an empty ledger, all submission-count parameters zero,
    /// and a genesis round (round zero) opened at `now`.
    pub fn init(
        owner: u64,
        token_id: u64,
        payment_amount: u64,
        timeout: u64,
        min_submission_value: u64,
        max_submission_value: u64,
        decimals: u8,
        description: Vec<u8>,
        values_count: usize,
        now: u64,
    ) -> (r: Aggregator)
        ensures
            r.wf(),
            r.owner == owner,
            r.token_id == token_id,
            r.payment_amount == payment_amount,
            r.timeout == timeout,
            r.min_submission_value == min_submission_value,
            r.max_submission_value == max_submission_value,
            r.decimals == decimals,
            r.description@ == description@,
            r.values_count == values_count,
            r.min_submission_count == 0,
            r.max_submission_count == 0,
            r.restart_delay == 0,
            r.reporting_round_id == 0,
            r.latest_round_id == 0,
            r.recorded_funds == (Funds { available: 0, allocated: 0 }),
            r.oracles@.len() == 0,
            r.requesters@.len() == 0,
            r.deposits@.len() == 0,
            r.rounds@.len() == 1,
            r.round_at(0) == (RoundModel {
                round_id: 0,
                answer: None,
                decimals: decimals,
                description: description@,
                started_at: now,
                updated_at: 0,
                answered_in_round: 0,
            }),
            r.details_model_of(0) == Some(
                RoundDetailsModel {
                    submissions: Seq::<Seq<u64>>::empty(),
                    max_submissions: 0,
                    min_submissions: 0,
                    timeout: timeout,
                    payment_amount: payment_amount,
                },
            ),
    {
        let genesis_description = clone_bytes(&description);
        let genesis = Round {
            round_id: 0,
            answer: None,
            decimals,
            description: genesis_description,
            started_at: now,
            updated_at: 0,
            answered_in_round: 0,
        };
        let genesis_details = RoundDetails {
            submissions: Vec::new(),
            max_submissions: 0,
            min_submissions: 0,
            timeout,
            payment_amount,
        };
        let mut rounds: Vec<Round> = Vec::new();
        rounds.push(genesis);
        let mut details: Vec<(u64, RoundDetails)> = Vec::new();
        details.push((0, genesis_details));
        let r = Aggregator {
            owner,
            token_id,
            payment_amount,
            max_submission_count: 0,
            min_submission_count: 0,
            restart_delay: 0,
            timeout,
            min_submission_value,
            max_submission_value,
            reporting_round_id: 0,
            latest_round_id: 0,
            oracles: Vec::new(),
            rounds,
            details,
            requesters: Vec::new(),
            recorded_funds: Funds { available: 0, allocated: 0 },
            deposits: Vec::new(),
            decimals,
            description,
            values_count,
        };
        proof {
            assert(r.details@[0].1@.submissions =~= Seq::<Seq<u64>>::empty());
        }
        r
    }

    /// The funds currently owed to reporters and not yet withdrawn.
    pub fn allocated_funds(&self) -> (r: u64)
        ensures
            r == self.recorded_funds.allocated,
    {
        self.recorded_funds.allocated
    }

    /// The funds deposited and not yet owed to anyone.
    pub fn available_funds(&self) -> (r: u64)
        ensures
            r == self.recorded_funds.available,
    {
        self.recorded_funds.available
    }

    /// How many reporters are registered.
    pub fn oracle_count(&self) -> (r: u64)
        requires
            self.oracles@.len() <= u64::MAX,
        ensures
            r == self.oracles@.len(),
    {
        self.oracles.len() as u64
    }

    /// Whether `oracle` is a registered reporter.
    pub fn oracle_enabled(&self, oracle: u64) -> (r: bool)
        requires
            self.wf(),
        ensures
            r == has_key(self.oracles@, oracle),
    {
        crate::keyed::contains_key(&self.oracles, oracle)
    }

    /// Whether `round_id` would open a fresh round right now.
    pub fn new_round(&self, round_id: u64) -> (r: bool)
        requires
            self.wf(),
        ensures
            r == self.is_new_round(round_id),
    {
        let round_count = self.rounds.len();
        proof {
            assert(self.reporting_round_id as int + 1 == round_count as int);
        }
        round_id == self.reporting_round_id + 1
    }

    /// The starting round a newly added reporter gets: the current reporting
    /// round when that reporter's window ends exactly there, the next round
    /// otherwise.
    pub open spec fn starting_round_spec(self, oracle: u64) -> int {
        let current = self.reporting_round_id;
        if current != 0 && (match self.oracle_status_of(oracle) {
            Some(st) => st.ending_round == current,
            None => false,
        }) {
            current as int
        } else {
            current as int + 1
        }
    }

    /// The registry entry a reporter added now would get.
    pub open spec fn new_oracle_status_spec(self, oracle: u64, admin: u64) -> OracleStatusModel {
        OracleStatusModel {
            withdrawable: 0,
            starting_round: self.starting_round_spec(oracle) as u64,
            ending_round: ROUND_MAX,
            last_reported_round: 0,
            last_started_round: 0,
            latest_submission: None,
            admin: admin,
            pending_admin: None,
        }
    }

    /// The reporter table after dropping every identity in `removed`, in
    /// order.
    pub open spec fn table_after_removals(
        s: Seq<(u64, OracleStatusModel)>,
        removed: Seq<u64>,
    ) -> Seq<(u64, OracleStatusModel)>
        decreases removed.len(),
    {
        if removed.len() == 0 {
            s
        } else {
            Self::table_after_removals(crate::keyed::removed(s, removed[0]), removed.drop_first())
        }
    }

    /// The reporter table after adding every `(identity, admin)` pair in
    /// order, or the error raised by the first identity already present.
    pub open spec fn table_after_additions(
        self,
        s: Seq<(u64, OracleStatusModel)>,
        added: Seq<u64>,
        admins: Seq<u64>,
    ) -> Result<Seq<(u64, OracleStatusModel)>, AggregatorError>
        decreases added.len(),
    {
        if added.len() == 0 {
            Ok(s)
        } else if has_key(s, added[0]) {
            Err(AggregatorError::OracleAlreadyEnabled)
        } else {
            self.table_after_additions(
                s.push((added[0], self.new_oracle_status_spec(added[0], admins[0]))),
                added.drop_first(),
                admins.drop_first(),
            )
        }
    }

    /// The verdict of a `change_oracles` call: who may call it, the shape of
    /// the added lists, the duplicate check, and the future-round parameter
    /// check against the reporter count that would result.
    pub open spec fn change_oracles_result(
        self,
        caller: u64,
        removed: Seq<u64>,
        added: Seq<u64>,
        added_admins: Seq<u64>,
        min_submissions: u64,
        max_submissions: u64,
        restart_delay: u64,
    ) -> Result<(), AggregatorError> {
        if caller != self.owner {
            Err(AggregatorError::OnlyOwner)
        } else if added.len() != added_admins.len() {
            Err(AggregatorError::OracleAdminCountMismatch)
        } else {
            let t1 = Self::table_after_removals(table_model(self.oracles@), removed);
            match self.table_after_additions(t1, added, added_admins) {
                Err(e) => Err(e),
                Ok(t2) => future_rounds_check(
                    t2.len() as int,
                    self.recorded_funds.available,
                    self.payment_amount,
                    min_submissions,
                    max_submissions,
                    restart_delay,
                ),
            }
        }
    }

    /// Removing one more identity removes it from the already-reduced table.
    proof fn lemma_removals_push(s: Seq<(u64, OracleStatusModel)>, rs: Seq<u64>, x: u64)
        ensures
            Self::table_after_removals(s, rs.push(x)) == crate::keyed::removed(
                Self::table_after_removals(s, rs),
                x,
            ),
        decreases rs.len(),
    {
        let one = rs.push(x);
        if rs.len() == 0 {
            assert(one[0] == x);
            assert(one.drop_first() =~= Seq::<u64>::empty());
            assert(Self::table_after_removals(crate::keyed::removed(s, x), one.drop_first())
                == crate::keyed::removed(s, x));
        } else {
            assert(one[0] == rs[0]);
            assert(one.drop_first() =~= rs.drop_first().push(x));
            let s1 = crate::keyed::removed(s, rs[0]);
            Self::lemma_removals_push(s1, rs.drop_first(), x);
            assert(Self::table_after_removals(s, one) == Self::table_after_removals(
                s1,
                rs.drop_first().push(x),
            ));
        }
    }

    /// Adding one more reporter either extends the already-grown table or
    /// trips over a duplicate.
    proof fn lemma_additions_push(
        self,
        s: Seq<(u64, OracleStatusModel)>,
        added: Seq<u64>,
        admins: Seq<u64>,
        o: u64,
        a: u64,
    )
        requires
            added.len() == admins.len(),
        ensures
            self.table_after_additions(s, added.push(o), admins.push(a)) == (match self
                .table_after_additions(s, added, admins) {
                Ok(t) => if has_key(t, o) {
                    Err::<Seq<(u64, OracleStatusModel)>, AggregatorError>(
                        AggregatorError::OracleAlreadyEnabled,
                    )
                } else {
                    Ok::<Seq<(u64, OracleStatusModel)>, AggregatorError>(
                        t.push((o, self.new_oracle_status_spec(o, a))),
                    )
                },
                Err(e) => Err::<Seq<(u64, OracleStatusModel)>, AggregatorError>(e),
            }),
        decreases added.len(),
    {
        let more = added.push(o);
        let more_admins = admins.push(a);
        if added.len() == 0 {
            assert(more[0] == o);
            assert(more_admins[0] == a);
            assert(more.drop_first() =~= Seq::<u64>::empty());
            assert(more_admins.drop_first() =~= Seq::<u64>::empty());
            if !has_key(s, o) {
                let s1 = s.push((o, self.new_oracle_status_spec(o, a)));
                assert(self.table_after_additions(s1, more.drop_first(), more_admins.drop_first())
                    == Ok::<Seq<(u64, OracleStatusModel)>, AggregatorError>(s1));
            }
        } else {
            assert(more[0] == added[0]);
            assert(more_admins[0] == admins[0]);
            assert(more.drop_first() =~= added.drop_first().push(o));
            assert(more_admins.drop_first() =~= admins.drop_first().push(a));
            if !has_key(s, added[0]) {
                let s1 = s.push((added[0], self.new_oracle_status_spec(added[0], admins[0])));
                self.lemma_additions_push(s1, added.drop_first(), admins.drop_first(), o, a);
                assert(self.table_after_additions(s, more, more_admins)
                    == self.table_after_additions(
                    s1,
                    added.drop_first().push(o),
                    admins.drop_first().push(a),
                ));
            }
        }
    }

    /// Once a duplicate has been hit while adding a prefix of the reporters,
    /// adding the whole list hits the same duplicate; and adding the whole
    /// list is adding a prefix and then the rest.
    proof fn lemma_additions_split(
        self,
        s: Seq<(u64, OracleStatusModel)>,
        added: Seq<u64>,
        admins: Seq<u64>,
        k: int,
    )
        requires
            added.len() == admins.len(),
            0 <= k <= added.len(),
        ensures
            self.table_after_additions(s, added, admins) == (match self.table_after_additions(
                s,
                added.take(k),
                admins.take(k),
            ) {
                Err(e) => Err::<Seq<(u64, OracleStatusModel)>, AggregatorError>(e),
                Ok(t) => self.table_after_additions(t, added.skip(k), admins.skip(k)),
            }),
        decreases k,
    {
        if k == 0 {
            assert(added.take(0) =~= Seq::<u64>::empty());
            assert(admins.take(0) =~= Seq::<u64>::empty());
            assert(added.skip(0) =~= added);
            assert(admins.skip(0) =~= admins);
        } else {
            assert(added.take(k)[0] == added[0]);
            assert(admins.take(k)[0] == admins[0]);
            if !has_key(s, added[0]) {
                let s1 = s.push((added[0], self.new_oracle_status_spec(added[0], admins[0])));
                self.lemma_additions_split(s1, added.drop_first(), admins.drop_first(), k - 1);
                assert(added.take(k).drop_first() =~= added.drop_first().take(k - 1));
                assert(admins.take(k).drop_first() =~= admins.drop_first().take(k - 1));
                assert(added.drop_first().skip(k - 1) =~= added.skip(k));
                assert(admins.drop_first().skip(k - 1) =~= admins.skip(k));
            }
        }
    }

    /// What a timed-out round's record becomes when it is closed out: the
    /// preceding round's answer and `answered_in_round` are carried forward
    /// (round zero falls back to the empty answer) and the round is marked
    /// updated now.
    pub open spec fn carried_round_model(self, round_id: u64, now: u64) -> RoundModel {
        RoundModel {
            answer: if round_id >= 1 {
                self.round_at((round_id - 1) as u64).answer
            } else {
                None
            },
            answered_in_round: if round_id >= 1 {
                self.round_at((round_id - 1) as u64).answered_in_round
            } else {
                0
            },
            updated_at: now,
            ..self.round_at(round_id)
        }
    }

    /// The submissions a batch of rows reduces to: at each value position,
    /// the median of that position across all rows (`None` for no rows).
    pub open spec fn batch_median(rows: Seq<Seq<u64>>) -> Option<Seq<u64>> {
        if rows.len() == 0 {
            None
        } else {
            Some(
                Seq::new(
                    rows[0].len(),
                    |i: int| crate::median::median_of(crate::median::column_values(rows, i))->Some_0,
                ),
            )
        }
    }

    /// The deposits table after covering `amount` from the recorded deposits,
    /// oldest entry first: fully consumed entries disappear, the entry that
    /// covers the rest is reduced in place, later entries stay.
    pub open spec fn deposits_after_subtraction(
        s: Seq<(u64, u64)>,
        amount: int,
    ) -> Seq<(u64, u64)>
        decreases s.len(),
    {
        if amount <= 0 || s.len() == 0 {
            s
        } else if s[0].1 <= amount {
            Self::deposits_after_subtraction(s.drop_first(), amount - s[0].1)
        } else {
            seq![(s[0].0, (s[0].1 - amount) as u64)] + s.drop_first()
        }
    }

    /// The per-value range verdict on a batch of submission values, checked
    /// in order: the first value under the configured minimum or over the
    /// configured maximum names the error.
    pub open spec fn submission_limits_check(self, values: Seq<u64>) -> Result<
        (),
        AggregatorError,
    >
        decreases values.len(),
    {
        if values.len() == 0 {
            Ok(())
        } else if values[0] < self.min_submission_value {
            Err(AggregatorError::ValueBelowMinSubmissionValue)
        } else if values[0] > self.max_submission_value {
            Err(AggregatorError::ValueAboveMaxSubmissionValue)
        } else {
            self.submission_limits_check(values.drop_first())
        }
    }

    /// The verdict of a reporter-driven attempt to open `round_id`: a no-op
    /// verdict (`Ok` without effects) when the round is not the next one or
    /// the reporter is throttled; otherwise the timed-out lookup on the
    /// previous round may still abort.
    pub open spec fn oracle_initialize_result(self, oracle: u64, round_id: u64, now: u64) -> Result<
        (),
        AggregatorError,
    > {
        if !self.is_new_round(round_id) {
            Ok(())
        } else {
            match self.oracle_status_of(oracle) {
                None => Err(AggregatorError::NoOracleAtAddress),
                Some(_) => if !self.delayed_spec(oracle, round_id) {
                    Ok(())
                } else {
                    match self.close_out_check((round_id - 1) as u64, now) {
                        Err(e) => Err(e),
                        Ok(_) => Ok(()),
                    }
                },
            }
        }
    }

    /// Whether a reporter-driven attempt to open `round_id` actually opens
    /// it: the round is the next one, the reporter is registered, and its
    /// restart-delay throttle permits it.
    pub open spec fn oracle_will_initialize(self, oracle: u64, round_id: u64) -> bool {
        &&& self.is_new_round(round_id)
        &&& self.oracle_status_of(oracle) is Some
        &&& self.delayed_spec(oracle, round_id)
    }

    /// The verdict of a requester-driven attempt to open `round_id`: the
    /// requester is looked up first (so an unknown requester aborts even when
    /// the guard would make the call a no-op), a losing race is a no-op, and
    /// the requester's own cool-down is enforced.
    pub open spec fn requester_initialize_result(
        self,
        requester: u64,
        round_id: u64,
        now: u64,
    ) -> Result<(), AggregatorError> {
        match self.requester_of(requester) {
            None => Err(AggregatorError::NoRequesterAtAddress),
            Some(q) => if !self.is_new_round(round_id) {
                Ok(())
            } else if !(round_id > q.last_started_round + q.delay || q.last_started_round == 0) {
                Err(AggregatorError::MustDelayRequests)
            } else {
                match self.close_out_check((round_id - 1) as u64, now) {
                    Err(e) => Err(e),
                    Ok(_) => Ok(()),
                }
            },
        }
    }

    /// Whether a requester-driven attempt to open `round_id` actually opens
    /// it.
    pub open spec fn requester_will_initialize(self, requester: u64, round_id: u64) -> bool {
        &&& self.requester_of(requester) is Some
        &&& self.is_new_round(round_id)
        &&& {
            let q = self.requester_of(requester)->Some_0;
            round_id > q.last_started_round + q.delay || q.last_started_round == 0
        }
    }

    /// The verdict of `request_new_round`: the caller must be an authorized
    /// requester, the current round must be answered or timed out, and the
    /// requester's cool-down must permit opening the next round.
    pub open spec fn request_new_round_result(self, caller: u64, now: u64) -> Result<
        u64,
        AggregatorError,
    > {
        let authorized = match self.requester_of(caller) {
            Some(q) => q.authorized,
            None => false,
        };
        let current = self.reporting_round_id;
        let next = (current + 1) as u64;
        if !authorized {
            Err(AggregatorError::NotAuthorizedRequester)
        } else if self.round_at(current).updated_at > 0 {
            match self.requester_initialize_result(caller, next, now) {
                Err(e) => Err(e),
                Ok(_) => Ok(next),
            }
        } else {
            match self.timed_out_result(current, now) {
                Err(e) => Err(e),
                Ok(t) => if !t {
                    Err(AggregatorError::PrevRoundMustBeSupersedable)
                } else {
                    match self.requester_initialize_result(caller, next, now) {
                        Err(e) => Err(e),
                        Ok(_) => Ok(next),
                    }
                },
            }
        }
    }

    /// A sequencing verdict read as eligibility: a failed rule means "not
    /// eligible", but an aborted lookup stays an abort.
    pub open spec fn validate_as_eligibility(self, oracle: u64, round_id: u64, now: u64) -> Result<
        bool,
        AggregatorError,
    > {
        match self.validate_oracle_round_result(oracle, round_id, now) {
            Ok(_) => Ok(true),
            Err(e) => if Self::is_lookup_abort(e) {
                Err(e)
            } else {
                Ok(false)
            },
        }
    }

    /// Whether `oracle` could submit to the specific round `queried` right
    /// now: an already-started round must still accept submissions, a
    /// not-yet-started round must clear the reporter's restart throttle, and
    /// the sequencing rules must pass either way.
    pub open spec fn eligible_for_specific_round_result(
        self,
        oracle: u64,
        queried: u64,
        now: u64,
    ) -> Result<bool, AggregatorError> {
        if self.has_round(queried) && self.round_at(queried).started_at > 0 {
            match self.accepting_submissions_result(queried) {
                Err(e) => Err(e),
                Ok(false) => Ok(false),
                Ok(true) => self.validate_as_eligibility(oracle, queried, now),
            }
        } else {
            match self.oracle_status_of(oracle) {
                None => Err(AggregatorError::NoOracleAtAddress),
                Some(_) => if !self.delayed_spec(oracle, queried) {
                    Ok(false)
                } else {
                    self.validate_as_eligibility(oracle, queried, now)
                },
            }
        }
    }

    /// The suggested-round report for `oracle`: the state of the current
    /// reporting round, with eligibility decided by the acceptance and
    /// sequencing rules.  When the current round is supersedable and the
    /// reporter is pushed towards the next round, that round has no record
    /// yet and the lookup aborts, as the host does.
    pub open spec fn suggest_round_result(self, oracle: u64, now: u64) -> Result<
        crate::aggregator_data::OracleRoundStateModel,
        AggregatorError,
    > {
        match self.oracle_model_of(oracle) {
            None => Err(AggregatorError::NoOracleAtAddress),
            Some(st) => {
                let rr = self.reporting_round_id;
                let accepting = self.accepting_submissions_result(rr);
                if st.last_reported_round != rr && accepting is Err {
                    Err(accepting->Err_0)
                } else {
                    let should_supersede = st.last_reported_round == rr || !accepting->Ok_0;
                    match self.supersedable_result(rr, now) {
                        Err(e) => Err(e),
                        Ok(sup) => if sup && should_supersede {
                            Err(AggregatorError::NoRoundForId)
                        } else {
                            match self.validate_as_eligibility(oracle, rr, now) {
                                Err(e) => Err(e),
                                Ok(valid) => Ok(
                                    crate::aggregator_data::OracleRoundStateModel {
                                        eligible_to_submit: self.details_of(
                                            rr,
                                        )->Some_0.max_submissions != 0 && valid,
                                        round_id: rr,
                                        latest_submission: st.latest_submission,
                                        started_at: self.round_at(rr).started_at,
                                        timeout: self.details_of(rr)->Some_0.timeout,
                                        available_funds: self.recorded_funds.available,
                                        oracle_count: self.oracles@.len() as u64,
                                        payment_amount: self.details_of(rr)->Some_0.payment_amount,
                                    },
                                ),
                            }
                        },
                    }
                }
            },
        }
    }

    /// The round-state report for `oracle` and a specific `queried` round:
    /// its eligibility verdict and the round's stored parameters, with the
    /// payment falling back to the current configuration for a round that
    /// never started.
    pub open spec fn oracle_round_state_result(self, oracle: u64, queried: u64, now: u64) -> Result<
        crate::aggregator_data::OracleRoundStateModel,
        AggregatorError,
    > {
        if queried == 0 {
            self.suggest_round_result(oracle, now)
        } else {
            match self.eligible_for_specific_round_result(oracle, queried, now) {
                Err(e) => Err(e),
                Ok(eligible) => if !self.has_round(queried) {
                    Err(AggregatorError::NoRoundForId)
                } else {
                    match self.details_model_of(queried) {
                        None => Err(AggregatorError::NoRoundDetailsForId),
                        Some(d) => match self.oracle_model_of(oracle) {
                            None => Err(AggregatorError::NoOracleAtAddress),
                            Some(st) => Ok(
                                crate::aggregator_data::OracleRoundStateModel {
                                    eligible_to_submit: eligible,
                                    round_id: queried,
                                    latest_submission: st.latest_submission,
                                    started_at: self.round_at(queried).started_at,
                                    timeout: d.timeout,
                                    available_funds: self.recorded_funds.available,
                                    oracle_count: self.oracles@.len() as u64,
                                    payment_amount: if self.round_at(queried).started_at > 0 {
                                        d.payment_amount
                                    } else {
                                        self.payment_amount
                                    },
                                },
                            ),
                        },
                    }
                },
            }
        }
    }

    /// The details record a submission to `round_id` runs against: the fresh
    /// snapshot of the current parameters when the submission opens the
    /// round, the stored record otherwise.
    pub open spec fn submit_round_details(self, round_id: u64, will_init: bool)
        -> RoundDetailsModel {
        if will_init {
            RoundDetailsModel {
                submissions: Seq::<Seq<u64>>::empty(),
                max_submissions: self.max_submission_count,
                min_submissions: self.min_submission_count,
                timeout: self.timeout,
                payment_amount: self.payment_amount,
            }
        } else {
            self.details_model_of(round_id)->Some_0
        }
    }

    /// The round record a submission to `round_id` starts from: the fresh
    /// round when the submission opens it, the stored record otherwise.
    pub open spec fn submit_base_round(self, round_id: u64, will_init: bool, now: u64)
        -> RoundModel {
        if will_init {
            RoundModel {
                round_id: round_id,
                answer: None,
                decimals: self.decimals,
                description: self.description@,
                started_at: now,
                updated_at: 0,
                answered_in_round: 0,
            }
        } else {
            self.round_at(round_id)
        }
    }

    /// The verdict of a `submit` call, every check in the order it is made:
    /// the batch width, the sequencing rules, the per-value bounds, then —
    /// depending on whether the submission opens the round — the timed-out
    /// lookup on the previous round or the acceptance of the stored round,
    /// and finally whether the available funds cover the round's reward.
    pub open spec fn submit_result(self, caller: u64, round_id: u64, values: Seq<u64>, now: u64)
        -> Result<(), AggregatorError> {
        if values.len() != self.values_count {
            Err(AggregatorError::WrongNumberOfValues)
        } else {
            match self.validate_oracle_round_result(caller, round_id, now) {
                Err(e) => Err(e),
                Ok(_) => match self.submission_limits_check(values) {
                    Err(e) => Err(e),
                    Ok(_) => if self.oracle_will_initialize(caller, round_id) {
                        match self.close_out_check((round_id - 1) as u64, now) {
                            Err(e) => Err(e),
                            Ok(_) => if self.recorded_funds.available < self.payment_amount {
                                Err(AggregatorError::InsufficientAvailableFunds)
                            } else {
                                Ok(())
                            },
                        }
                    } else {
                        match self.details_model_of(round_id) {
                            None => Err(AggregatorError::NoRoundDetailsForId),
                            Some(d) => if d.max_submissions == 0 || d.submissions.len()
                                >= d.max_submissions {
                                Err(AggregatorError::RoundNotAcceptingSubmissions)
                            } else if self.recorded_funds.available < d.payment_amount {
                                Err(AggregatorError::InsufficientAvailableFunds)
                            } else {
                                Ok(())
                            },
                        }
                    },
                },
            }
        }
    }

    /// Errors that mirror a host abort inside a lookup.  When sequencing
    /// rules are read as an eligibility answer, a failed rule means "not
    /// eligible" while one of these errors still aborts the whole call.
    pub open spec fn is_lookup_abort(e: AggregatorError) -> bool {
        e == AggregatorError::NoOracleAtAddress || e == AggregatorError::NoRoundForId || e
            == AggregatorError::NoRoundDetailsForId
    }

    /// Whether opening the next round would close `round_id` out (see
    /// [`Self::close_out_check`]).
    fn check_close_out(&self, round_id: u64, now: u64) -> (r: Result<bool, AggregatorError>)
        requires
            self.wf(),
        ensures
            r == self.close_out_check(round_id, now),
    {
        let round_count = self.rounds.len();
        if round_id >= round_count as u64 {
            return Err(AggregatorError::NoRoundForId);
        }
        let details = match crate::keyed::find_key(&self.details, round_id) {
            Some(i) => &self.details[i].1,
            None => {
                return Ok(false);
            },
        };
        let started_at = self.rounds[round_id as usize].started_at;
        let round_timeout = details.timeout;
        Ok(
            round_id == 0 || (started_at > 0 && round_timeout > 0 && (started_at as u128
                + round_timeout as u128) < now as u128),
        )
    }

    /// The id the next round will carry.
    fn next_round_id(&self) -> (r: u64)
        requires
            self.wf(),
        ensures
            r as int == self.reporting_round_id as int + 1,
    {
        let round_count = self.rounds.len();
        proof {
            assert(self.reporting_round_id as int + 1 == round_count as int);
        }
        self.reporting_round_id + 1
    }

    /// The registry entry of `oracle`, or `None` when unregistered.
    pub fn get_oracle_status_option(&self, oracle: u64) -> (r: Option<OracleStatus>)
        requires
            self.wf(),
        ensures
            match r {
                Some(st) => self.oracle_model_of(oracle) == Some(st@),
                None => self.oracle_status_of(oracle) is None,
            },
    {
        match crate::keyed::find_key(&self.oracles, oracle) {
            Some(i) => Some(clone_oracle_status(&self.oracles[i].1)),
            None => None,
        }
    }

    /// The registry entry of `oracle`, or the error the host would abort
    /// with when it is unregistered.
    pub fn get_oracle_status_result(&self, oracle: u64) -> (r: Result<
        OracleStatus,
        AggregatorError,
    >)
        requires
            self.wf(),
        ensures
            match r {
                Ok(st) => self.oracle_model_of(oracle) == Some(st@),
                Err(e) => e == AggregatorError::NoOracleAtAddress && self.oracle_status_of(oracle)
                    is None,
            },
    {
        match self.get_oracle_status_option(oracle) {
            Some(st) => Ok(st),
            None => Err(AggregatorError::NoOracleAtAddress),
        }
    }

    /// The round record of `round_id`, or the error the host would abort
    /// with when no such round exists.
    pub fn get_round(&self, round_id: u64) -> (r: Result<Round, AggregatorError>)
        requires
            self.wf(),
        ensures
            match r {
                Ok(round) => self.has_round(round_id) && round@ == self.round_at(round_id),
                Err(e) => e == AggregatorError::NoRoundForId && !self.has_round(round_id),
            },
    {
        let round_count = self.rounds.len();
        if round_id < round_count as u64 {
            Ok(clone_round(&self.rounds[round_id as usize]))
        } else {
            Err(AggregatorError::NoRoundForId)
        }
    }

    /// The details record of `round_id`, or the error the host would abort
    /// with when it has been purged or never existed.
    pub fn get_round_details(&self, round_id: u64) -> (r: Result<RoundDetails, AggregatorError>)
        requires
            self.wf(),
        ensures
            match r {
                Ok(d) => self.details_model_of(round_id) == Some(d@),
                Err(e) => e == AggregatorError::NoRoundDetailsForId && self.details_of(round_id)
                    is None,
            },
    {
        match crate::keyed::find_key(&self.details, round_id) {
            Some(i) => Ok(clone_round_details(&self.details[i].1)),
            None => Err(AggregatorError::NoRoundDetailsForId),
        }
    }

    /// The requester entry of `addr`, or the error the host would abort with
    /// when it is unregistered.
    pub fn get_requester(&self, addr: u64) -> (r: Result<Requester, AggregatorError>)
        requires
            self.wf(),
        ensures
            match r {
                Ok(q) => self.requester_of(addr) == Some(q),
                Err(e) => e == AggregatorError::NoRequesterAtAddress && self.requester_of(addr)
                    is None,
            },
    {
        match crate::keyed::find_key(&self.requesters, addr) {
            Some(i) => Ok(self.requesters[i].1),
            None => Err(AggregatorError::NoRequesterAtAddress),
        }
    }

    /// The round record of `round_id`, if one exists.
    pub fn get_round_data(&self, round_id: u64) -> (r: Option<Round>)
        requires
            self.wf(),
        ensures
            match r {
                Some(round) => self.has_round(round_id) && round@ == self.round_at(round_id),
                None => !self.has_round(round_id),
            },
    {
        match self.get_round(round_id) {
            Ok(round) => Some(round),
            Err(_) => None,
        }
    }

    /// The most recently answered round's record, if any round was answered.
    pub fn latest_round_data(&self) -> (r: Option<Round>)
        requires
            self.wf(),
        ensures
            match r {
                Some(round) => round@ == self.round_at(self.latest_round_id),
                None => !self.has_round(self.latest_round_id),
            },
    {
        self.get_round_data(self.latest_round_id)
    }

    /// The reward balance `oracle` may withdraw.
    pub fn withdrawable_payment(&self, oracle: u64) -> (r: Result<u64, AggregatorError>)
        requires
            self.wf(),
        ensures
            match r {
                Ok(w) => self.oracle_model_of(oracle) matches Some(st) && st.withdrawable == w,
                Err(e) => e == AggregatorError::NoOracleAtAddress && self.oracle_status_of(oracle)
                    is None,
            },
    {
        match self.get_oracle_status_result(oracle) {
            Ok(st) => Ok(st.withdrawable),
            Err(e) => Err(e),
        }
    }

    /// The deposit the caller could take back.
    pub fn withdrawable_added_funds(&self, caller: u64) -> (r: u64)
        requires
            self.wf(),
        ensures
            r == self.deposit_of(caller),
    {
        self.get_deposit(caller)
    }

    /// The admin identity of `oracle`.
    pub fn get_admin(&self, oracle: u64) -> (r: Result<u64, AggregatorError>)
        requires
            self.wf(),
        ensures
            match r {
                Ok(a) => self.oracle_model_of(oracle) matches Some(st) && st.admin == a,
                Err(e) => e == AggregatorError::NoOracleAtAddress && self.oracle_status_of(oracle)
                    is None,
            },
    {
        match self.get_oracle_status_result(oracle) {
            Ok(st) => Ok(st.admin),
            Err(e) => Err(e),
        }
    }

    /// The registered reporters, in registration order.
    pub fn get_oracles(&self) -> (r: Vec<u64>)
        ensures
            r@.len() == self.oracles@.len(),
            forall|i: int| 0 <= i < r@.len() ==> r@[i] == (#[trigger] self.oracles@[i]).0,
    {
        let mut result: Vec<u64> = Vec::new();
        let mut i: usize = 0;
        while i < self.oracles.len()
            invariant
                i <= self.oracles@.len(),
                result@.len() == i,
                forall|k: int| 0 <= k < i ==> result@[k] == (#[trigger] self.oracles@[k]).0,
            decreases self.oracles@.len() - i,
        {
            result.push(self.oracles[i].0);
            i = i + 1;
        }
        result
    }

    /// The minimum available balance needed before obligations may grow:
    /// `payment` for every reporter, for `RESERVE_ROUNDS` rounds.
    pub fn required_reserve(&self, payment: u64) -> (r: u128)
        requires
            payment * self.oracles@.len() * RESERVE_ROUNDS <= u128::MAX,
        ensures
            r == self.required_reserve_spec(payment),
    {
        let count = self.oracles.len() as u128;
        proof {
            let p = payment as int;
            let c = self.oracles@.len() as int;
            assert(p * c >= 0 && p * c <= p * c * 2) by (nonlinear_arith)
                requires
                    p >= 0,
                    c >= 0,
            ;
        }
        (payment as u128) * count * (RESERVE_ROUNDS as u128)
    }

    /// Whether `round_id` has timed out (see [`Self::timed_out_spec`]); the
    /// lookups abort as the host would when the round is unknown or retired.
    pub fn timed_out(&self, round_id: u64, now: u64) -> (r: Result<bool, AggregatorError>)
        requires
            self.wf(),
        ensures
            r == self.timed_out_result(round_id, now),
    {
        let round = match self.get_round(round_id) {
            Ok(round) => round,
            Err(e) => {
                return Err(e);
            },
        };
        let details = match self.get_round_details(round_id) {
            Ok(d) => d,
            Err(e) => {
                return Err(e);
            },
        };
        let started_at = round.started_at;
        let round_timeout = details.timeout;
        Ok(
            round_id == 0 || (started_at > 0 && round_timeout > 0 && (started_at as u128
                + round_timeout as u128) < now as u128),
        )
    }

    /// Whether `round_id` may be superseded: answered or timed out.
    pub fn supersedable(&self, round_id: u64, now: u64) -> (r: Result<bool, AggregatorError>)
        requires
            self.wf(),
        ensures
            r == self.supersedable_result(round_id, now),
    {
        let round = match self.get_round(round_id) {
            Ok(round) => round,
            Err(e) => {
                return Err(e);
            },
        };
        if round.updated_at > 0 {
            return Ok(true);
        }
        self.timed_out(round_id, now)
    }

    /// Whether `round_id` still accepts submissions.
    pub fn accepting_submissions(&self, round_id: u64) -> (r: Result<bool, AggregatorError>)
        requires
            self.wf(),
        ensures
            r == self.accepting_submissions_result(round_id),
    {
        match self.get_round_details(round_id) {
            Ok(d) => Ok(d.max_submissions != 0),
            Err(e) => Err(e),
        }
    }

    /// Whether `oracle`'s restart-delay throttle permits it to open
    /// `round_id`.
    pub fn delayed(&self, oracle: u64, round_id: u64) -> (r: Result<bool, AggregatorError>)
        requires
            self.wf(),
        ensures
            match r {
                Ok(b) => self.oracle_status_of(oracle) is Some && b == self.delayed_spec(
                    oracle,
                    round_id,
                ),
                Err(e) => e == AggregatorError::NoOracleAtAddress && self.oracle_status_of(oracle)
                    is None,
            },
    {
        let st = match self.get_oracle_status_result(oracle) {
            Ok(st) => st,
            Err(e) => {
                return Err(e);
            },
        };
        let last_started = st.last_started_round;
        Ok((round_id as u128) > (last_started as u128 + self.restart_delay as u128)
            || last_started == 0)
    }

    /// Whether `round_id` immediately follows the current reporting round
    /// `rr_id` while that round is still unanswered.
    pub fn previous_and_current_unanswered(&self, round_id: u64, rr_id: u64) -> (r: Result<
        bool,
        AggregatorError,
    >)
        requires
            self.wf(),
        ensures
            match r {
                Ok(b) => self.has_round(rr_id) && b == self.previous_and_current_unanswered_spec(
                    round_id,
                    rr_id,
                ),
                Err(e) => e == AggregatorError::NoRoundForId && !self.has_round(rr_id),
            },
    {
        let round = match self.get_round(rr_id) {
            Ok(round) => round,
            Err(e) => {
                return Err(e);
            },
        };
        Ok((round_id as u128 + 1) == rr_id as u128 && round.updated_at == 0)
    }

    /// Checks every sequencing rule for a submission by `oracle` to
    /// `round_id` (see [`Self::validate_oracle_round_result`]); no state is
    /// touched.
    pub fn validate_oracle_round(&self, oracle: u64, round_id: u64, now: u64) -> (r: Result<
        (),
        AggregatorError,
    >)
        requires
            self.wf(),
        ensures
            r == self.validate_oracle_round_result(oracle, round_id, now),
    {
        let st = match self.get_oracle_status_result(oracle) {
            Ok(st) => st,
            Err(e) => {
                return Err(e);
            },
        };
        let rr = self.reporting_round_id;
        if st.starting_round == 0 {
            return Err(AggregatorError::NotEnabledOracle);
        }
        if round_id < st.starting_round {
            return Err(AggregatorError::NotYetEnabledOracle);
        }
        if round_id > st.ending_round {
            return Err(AggregatorError::NoLongerAllowedOracle);
        }
        if round_id <= st.last_reported_round {
            return Err(AggregatorError::PreviouslyReported);
        }
        let in_sequence = if round_id == rr {
            true
        } else if rr < u64::MAX && round_id == rr + 1 {
            true
        } else {
            match self.previous_and_current_unanswered(round_id, rr) {
                Ok(b) => b,
                Err(e) => {
                    return Err(e);
                },
            }
        };
        if !in_sequence {
            return Err(AggregatorError::InvalidRoundToReport);
        }
        if round_id != 1 {
            match self.supersedable(round_id - 1, now) {
                Ok(true) => Ok(()),
                Ok(false) => Err(AggregatorError::PreviousRoundNotSupersedable),
                Err(e) => Err(e),
            }
        } else {
            Ok(())
        }
    }

    /// Rebinds `address`'s recorded deposit to `amount`, dropping the entry
    /// when the new amount is zero.
    fn set_deposit(&mut self, address: u64, amount: u64)
        requires
            unique_keys(old(self).deposits@),
        ensures
            final(self).deposits@ == (if amount == 0 {
                crate::keyed::removed(old(self).deposits@, address)
            } else {
                crate::keyed::inserted(old(self).deposits@, address, amount)
            }),
            unique_keys(final(self).deposits@),
            final(self).deposit_of(address) == amount,
            forall|a: u64| a != address ==> final(self).deposit_of(a) == old(self).deposit_of(a),
            final(self).total_deposits() == old(self).total_deposits() - old(self).deposit_of(
                address,
            ) + amount,
            *final(self) == (Aggregator { deposits: final(self).deposits, ..*old(self) }),
    {
        let ghost s = self.deposits@;
        let found = crate::keyed::find_key(&self.deposits, address);
        proof {
            crate::keyed::lemma_removed(s, address);
            crate::keyed::lemma_inserted(s, address, amount);
        }
        match found {
            Some(i) => {
                proof {
                    crate::keyed::lemma_sum_by_remove(s, deposit_term(), i as int);
                    crate::keyed::lemma_sum_by_update(s, deposit_term(), i as int, (address, amount));
                }
                if amount == 0 {
                    self.deposits.remove(i);
                } else {
                    self.deposits.set(i, (address, amount));
                }
            },
            None => {
                if amount != 0 {
                    proof {
                        crate::keyed::lemma_sum_by_push(s, deposit_term(), (address, amount));
                    }
                    self.deposits.push((address, amount));
                }
            },
        }
    }

    /// Accepts a deposit of `payment` in token `token` from `caller`: the
    /// payment joins the available funds and the caller's recorded deposit.
    /// The ledger total `available + allocated` grows by exactly the payment
    /// and by nothing else.
    pub fn add_funds(&mut self, caller: u64, token: u64, payment: u64) -> (r: Result<
        (),
        AggregatorError,
    >)
        requires
            old(self).wf(),
        ensures
            final(self).wf(),
            final(self).reporting_round_id == old(self).reporting_round_id,
            r == (if token != old(self).token_id {
                Err::<(), AggregatorError>(AggregatorError::WrongTokenType)
            } else if old(self).recorded_funds.available + old(self).recorded_funds.allocated
                + payment > u64::MAX {
                Err::<(), AggregatorError>(AggregatorError::LedgerCapacityExceeded)
            } else {
                Ok::<(), AggregatorError>(())
            }),
            r is Err ==> *final(self) == *old(self),
            r is Ok ==> final(self).recorded_funds.available == old(self).recorded_funds.available
                + payment,
            r is Ok ==> final(self).recorded_funds.allocated == old(self).recorded_funds.allocated,
            r is Ok ==> final(self).deposit_of(caller) == old(self).deposit_of(caller) + payment,
            r is Ok ==> forall|a: u64|
                a != caller ==> final(self).deposit_of(a) == old(self).deposit_of(a),
            r is Ok ==> *final(self) == (Aggregator {
                recorded_funds: final(self).recorded_funds,
                deposits: final(self).deposits,
                ..*old(self)
            }),
    {
        if token != self.token_id {
            return Err(AggregatorError::WrongTokenType);
        }
        let available = self.recorded_funds.available;
        let allocated = self.recorded_funds.allocated;
        if payment as u128 > (u64::MAX - available) as u128 - allocated as u128 {
            return Err(AggregatorError::LedgerCapacityExceeded);
        }
        let deposit = self.get_deposit(caller);
        proof {
            if has_key(self.deposits@, caller) {
                let i = crate::keyed::index_of_key(self.deposits@, caller);
                crate::keyed::lemma_sum_by_element_bound(self.deposits@, deposit_term(), i);
            } else {
                crate::keyed::lemma_sum_by_nonneg(self.deposits@, deposit_term());
            }
        }
        self.recorded_funds.available = available + payment;
        self.set_deposit(caller, deposit + payment);
        Ok(())
    }

    /// Starts the two-phase admin transfer for `oracle`: records `new_admin`
    /// as the pending candidate.  Only the current admin may do this.
    pub fn transfer_admin(&mut self, caller: u64, oracle: u64, new_admin: u64) -> (r: Result<
        (),
        AggregatorError,
    >)
        requires
            old(self).wf(),
        ensures
            final(self).wf(),
            final(self).reporting_round_id == old(self).reporting_round_id,
            final(self).recorded_funds == old(self).recorded_funds,
            r == (match old(self).oracle_model_of(oracle) {
                None => Err::<(), AggregatorError>(AggregatorError::NoOracleAtAddress),
                Some(st) => if st.admin != caller {
                    Err::<(), AggregatorError>(AggregatorError::OnlyCallableByAdmin)
                } else {
                    Ok::<(), AggregatorError>(())
                },
            }),
            r is Err ==> *final(self) == *old(self),
            r is Ok ==> final(self).oracle_model_of(oracle) == Some(
                OracleStatusModel {
                    pending_admin: Some(new_admin),
                    ..old(self).oracle_model_of(oracle)->Some_0
                },
            ),
            r is Ok ==> forall|a: u64|
                a != oracle ==> final(self).oracle_status_of(a) == old(self).oracle_status_of(a),
            *final(self) == (Aggregator { oracles: final(self).oracles, ..*old(self) }),
    {
        let i = match crate::keyed::find_key(&self.oracles, oracle) {
            Some(i) => i,
            None => {
                return Err(AggregatorError::NoOracleAtAddress);
            },
        };
        if self.oracles[i].1.admin != caller {
            return Err(AggregatorError::OnlyCallableByAdmin);
        }
        let mut st = clone_oracle_status(&self.oracles[i].1);
        st.pending_admin = Some(new_admin);
        proof {
            let s = self.oracles@;
            crate::keyed::lemma_inserted(s, oracle, st);
            assert(s.update(i as int, (oracle, st)) == crate::keyed::inserted(s, oracle, st));
            crate::keyed::lemma_sum_by_update(s, withdrawable_term(), i as int, (oracle, st));
        }
        self.oracles.set(i, (oracle, st));
        Ok(())
    }

    /// Completes the two-phase admin transfer for `oracle`: only the pending
    /// candidate may accept, and it thereby becomes the admin.
    pub fn accept_admin(&mut self, caller: u64, oracle: u64) -> (r: Result<(), AggregatorError>)
        requires
            old(self).wf(),
        ensures
            final(self).wf(),
            final(self).reporting_round_id == old(self).reporting_round_id,
            final(self).recorded_funds == old(self).recorded_funds,
            r == (match old(self).oracle_model_of(oracle) {
                None => Err::<(), AggregatorError>(AggregatorError::NoOracleAtAddress),
                Some(st) => if st.pending_admin != Some(caller) {
                    Err::<(), AggregatorError>(AggregatorError::OnlyCallableByPendingAdmin)
                } else {
                    Ok::<(), AggregatorError>(())
                },
            }),
            r is Err ==> *final(self) == *old(self),
            r is Ok ==> final(self).oracle_model_of(oracle) == Some(
                OracleStatusModel {
                    admin: caller,
                    pending_admin: None,
                    ..old(self).oracle_model_of(oracle)->Some_0
                },
            ),
            r is Ok ==> forall|a: u64|
                a != oracle ==> final(self).oracle_status_of(a) == old(self).oracle_status_of(a),
            *final(self) == (Aggregator { oracles: final(self).oracles, ..*old(self) }),
    {
        let i = match crate::keyed::find_key(&self.oracles, oracle) {
            Some(i) => i,
            None => {
                return Err(AggregatorError::NoOracleAtAddress);
            },
        };
        let matches_pending = match self.oracles[i].1.pending_admin {
            Some(pending) => pending == caller,
            None => false,
        };
        if !matches_pending {
            return Err(AggregatorError::OnlyCallableByPendingAdmin);
        }
        let mut st = clone_oracle_status(&self.oracles[i].1);
        st.pending_admin = None;
        st.admin = caller;
        proof {
            let s = self.oracles@;
            crate::keyed::lemma_inserted(s, oracle, st);
            assert(s.update(i as int, (oracle, st)) == crate::keyed::inserted(s, oracle, st));
            crate::keyed::lemma_sum_by_update(s, withdrawable_term(), i as int, (oracle, st));
        }
        self.oracles.set(i, (oracle, st));
        Ok(())
    }

    /// Grants or revokes `requester`'s right to trigger rounds; a grant also
    /// sets the requester's cool-down and resets its last started round.
    /// Only the owner may do this.
    pub fn set_requester_permissions(
        &mut self,
        caller: u64,
        requester: u64,
        authorized: bool,
        delay: u64,
    ) -> (r: Result<(), AggregatorError>)
        requires
            old(self).wf(),
        ensures
            final(self).wf(),
            final(self).reporting_round_id == old(self).reporting_round_id,
            final(self).recorded_funds == old(self).recorded_funds,
            r == (if caller != old(self).owner {
                Err::<(), AggregatorError>(AggregatorError::OnlyOwner)
            } else {
                Ok::<(), AggregatorError>(())
            }),
            r is Err ==> *final(self) == *old(self),
            r is Ok ==> final(self).requester_of(requester) == (if authorized {
                Some(Requester { authorized, delay, last_started_round: 0 })
            } else {
                None::<Requester>
            }),
            r is Ok ==> forall|a: u64|
                a != requester ==> final(self).requester_of(a) == old(self).requester_of(a),
            *final(self) == (Aggregator { requesters: final(self).requesters, ..*old(self) }),
    {
        if caller != self.owner {
            return Err(AggregatorError::OnlyOwner);
        }
        if authorized {
            crate::keyed::insert_entry(
                &mut self.requesters,
                requester,
                Requester { authorized, delay, last_started_round: 0 },
            );
            proof {
                crate::keyed::lemma_inserted(
                    old(self).requesters@,
                    requester,
                    Requester { authorized, delay, last_started_round: 0 },
                );
            }
        } else {
            crate::keyed::remove_entry(&mut self.requesters, requester);
            proof {
                crate::keyed::lemma_removed(old(self).requesters@, requester);
            }
        }
        Ok(())
    }

    /// The starting round a reporter added now would get (see
    /// [`Self::starting_round_spec`]).
    pub fn get_starting_round(&self, oracle: u64) -> (r: u64)
        requires
            self.wf(),
        ensures
            r == self.starting_round_spec(oracle),
    {
        let current_round = self.reporting_round_id;
        if current_round != 0 {
            if let Some(st) = self.get_oracle_status_option(oracle) {
                if current_round == st.ending_round {
                    return current_round;
                }
            }
        }
        self.next_round_id()
    }

    /// Applies a new set of future-round parameters after checking them
    /// against the current reporter count (see [`future_rounds_check`]).
    /// This is the constructor-only bootstrap path: no owner check happens
    /// here.
    pub fn update_future_rounds_internal(
        &mut self,
        payment_amount: u64,
        min_submissions: u64,
        max_submissions: u64,
        restart_delay: u64,
        timeout: u64,
    ) -> (r: Result<(), AggregatorError>)
        requires
            old(self).wf(),
        ensures
            final(self).wf(),
            final(self).reporting_round_id == old(self).reporting_round_id,
            final(self).recorded_funds == old(self).recorded_funds,
            r == future_rounds_check(
                old(self).oracles@.len() as int,
                old(self).recorded_funds.available,
                payment_amount,
                min_submissions,
                max_submissions,
                restart_delay,
            ),
            r is Err ==> *final(self) == *old(self),
            r is Ok ==> *final(self) == (Aggregator {
                payment_amount,
                min_submission_count: min_submissions,
                max_submission_count: max_submissions,
                restart_delay,
                timeout,
                ..*old(self)
            }),
    {
        let available = self.recorded_funds.available;
        match check_future_rounds(
            self.oracles.len(),
            available,
            payment_amount,
            min_submissions,
            max_submissions,
            restart_delay,
        ) {
            Ok(()) => {},
            Err(e) => {
                return Err(e);
            },
        }
        self.payment_amount = payment_amount;
        self.min_submission_count = min_submissions;
        self.max_submission_count = max_submissions;
        self.restart_delay = restart_delay;
        self.timeout = timeout;
        Ok(())
    }

    /// Applies a new set of future-round parameters.  Only the owner may do
    /// this; the change is rejected whenever the available balance would not
    /// cover the required reserve for the new payment amount.
    pub fn update_future_rounds(
        &mut self,
        caller: u64,
        payment_amount: u64,
        min_submissions: u64,
        max_submissions: u64,
        restart_delay: u64,
        timeout: u64,
    ) -> (r: Result<(), AggregatorError>)
        requires
            old(self).wf(),
        ensures
            final(self).wf(),
            final(self).reporting_round_id == old(self).reporting_round_id,
            final(self).recorded_funds == old(self).recorded_funds,
            r == (if caller != old(self).owner {
                Err::<(), AggregatorError>(AggregatorError::OnlyOwner)
            } else {
                future_rounds_check(
                    old(self).oracles@.len() as int,
                    old(self).recorded_funds.available,
                    payment_amount,
                    min_submissions,
                    max_submissions,
                    restart_delay,
                )
            }),
            r is Err ==> *final(self) == *old(self),
            r is Ok ==> *final(self) == (Aggregator {
                payment_amount,
                min_submission_count: min_submissions,
                max_submission_count: max_submissions,
                restart_delay,
                timeout,
                ..*old(self)
            }),
    {
        if caller != self.owner {
            return Err(AggregatorError::OnlyOwner);
        }
        self.update_future_rounds_internal(
            payment_amount,
            min_submissions,
            max_submissions,
            restart_delay,
            timeout,
        )
    }

    /// Replaces part of the reporter set and the future-round parameters in
    /// one atomic call: drops `removed`, registers each of `added` with the
    /// matching admin from `added_admins`, then applies the submission-count
    /// parameters against the resulting reporter count.  Only the owner may
    /// do this.
    pub fn change_oracles(
        &mut self,
        caller: u64,
        removed: Vec<u64>,
        added: Vec<u64>,
        added_admins: Vec<u64>,
        min_submissions: u64,
        max_submissions: u64,
        restart_delay: u64,
    ) -> (r: Result<(), AggregatorError>)
        requires
            old(self).wf(),
        ensures
            final(self).wf(),
            final(self).reporting_round_id == old(self).reporting_round_id,
            final(self).recorded_funds == old(self).recorded_funds,
            r == old(self).change_oracles_result(
                caller,
                removed@,
                added@,
                added_admins@,
                min_submissions,
                max_submissions,
                restart_delay,
            ),
            r is Err ==> *final(self) == *old(self),
            r is Ok ==> table_model(final(self).oracles@) == old(self).table_after_additions(
                Self::table_after_removals(table_model(old(self).oracles@), removed@),
                added@,
                added_admins@,
            )->Ok_0,
            r is Ok ==> *final(self) == (Aggregator {
                oracles: final(self).oracles,
                min_submission_count: min_submissions,
                max_submission_count: max_submissions,
                restart_delay,
                ..*old(self)
            }),
    {
        if caller != self.owner {
            return Err(AggregatorError::OnlyOwner);
        }
        if added.len() != added_admins.len() {
            return Err(AggregatorError::OracleAdminCountMismatch);
        }
        let ghost orig = table_model(self.oracles@);
        let mut table = clone_oracles_table(&self.oracles);
        proof {
            assert(table_model(table@) =~= orig);
            crate::keyed::lemma_sum_by_congruence(
                table@,
                self.oracles@,
                withdrawable_term(),
            );
            lemma_table_model_keys(self.oracles@);
            lemma_table_model_keys(table@);
        }
        let mut i: usize = 0;
        while i < removed.len()
            invariant
                i <= removed@.len(),
                caller == self.owner,
                unique_keys(table@),
                table_model(table@) == Self::table_after_removals(
                    orig,
                    removed@.take(i as int),
                ),
                self == old(self),
                self.wf(),
                orig == table_model(self.oracles@),
                sum_by(table@, withdrawable_term()) <= sum_by(
                    self.oracles@,
                    withdrawable_term(),
                ),
            decreases removed@.len() - i,
        {
            proof {
                Self::lemma_removals_push(orig, removed@.take(i as int), removed@[i as int]);
                assert(removed@.take(i as int).push(removed@[i as int]) =~= removed@.take(
                    i as int + 1,
                ));
                lemma_table_model_removed(table@, removed@[i as int]);
                crate::keyed::lemma_removed(table@, removed@[i as int]);
                if has_key(table@, removed@[i as int]) {
                    let j = crate::keyed::index_of_key(table@, removed@[i as int]);
                    crate::keyed::lemma_sum_by_remove(table@, withdrawable_term(), j);
                }
            }
            crate::keyed::remove_entry(&mut table, removed[i]);
            i = i + 1;
        }
        proof {
            assert(removed@.take(removed@.len() as int) =~= removed@);
        }
        let ghost t1 = table_model(table@);
        let mut j: usize = 0;
        while j < added.len()
            invariant
                j <= added@.len(),
                added@.len() == added_admins@.len(),
                caller == self.owner,
                unique_keys(table@),
                self == old(self),
                self.wf(),
                Self::table_after_removals(orig, removed@) == t1,
                orig == table_model(self.oracles@),
                self.table_after_additions(t1, added@.take(j as int), added_admins@.take(j as int))
                    == Ok::<Seq<(u64, OracleStatusModel)>, AggregatorError>(table_model(table@)),
                sum_by(table@, withdrawable_term()) <= sum_by(
                    self.oracles@,
                    withdrawable_term(),
                ),
            decreases added@.len() - j,
        {
            proof {
                self.lemma_additions_push(
                    t1,
                    added@.take(j as int),
                    added_admins@.take(j as int),
                    added@[j as int],
                    added_admins@[j as int],
                );
                assert(added@.take(j as int).push(added@[j as int]) =~= added@.take(j as int + 1));
                assert(added_admins@.take(j as int).push(added_admins@[j as int])
                    =~= added_admins@.take(j as int + 1));
                lemma_table_model_keys(table@);
            }
            match self.add_oracle(&mut table, added[j], added_admins[j]) {
                Ok(()) => {},
                Err(e) => {
                    proof {
                        self.lemma_additions_split(t1, added@, added_admins@, j as int + 1);
                    }
                    return Err(e);
                },
            }
            j = j + 1;
        }
        proof {
            assert(added@.take(added@.len() as int) =~= added@);
            assert(added_admins@.take(added_admins@.len() as int) =~= added_admins@);
        }
        let table_len = table.len();
        match check_future_rounds(
            table_len,
            self.recorded_funds.available,
            self.payment_amount,
            min_submissions,
            max_submissions,
            restart_delay,
        ) {
            Ok(()) => {},
            Err(e) => {
                return Err(e);
            },
        }
        self.oracles = table;
        self.min_submission_count = min_submissions;
        self.max_submission_count = max_submissions;
        self.restart_delay = restart_delay;
        Ok(())
    }

    /// Registers one reporter in a reporter table being assembled: a fresh
    /// entry with an empty reward balance, a starting round taken from the
    /// current state, and a never-ending validity window.  An identity
    /// already in the table is rejected.
    fn add_oracle(
        &self,
        table: &mut Vec<(u64, OracleStatus)>,
        oracle: u64,
        admin: u64,
    ) -> (r: Result<(), AggregatorError>)
        requires
            self.wf(),
            unique_keys(old(table)@),
        ensures
            unique_keys(final(table)@),
            r == (if has_key(table_model(old(table)@), oracle) {
                Err::<(), AggregatorError>(AggregatorError::OracleAlreadyEnabled)
            } else {
                Ok::<(), AggregatorError>(())
            }),
            r is Err ==> final(table)@ == old(table)@,
            r is Ok ==> table_model(final(table)@) == table_model(old(table)@).push(
                (oracle, self.new_oracle_status_spec(oracle, admin)),
            ),
            sum_by(final(table)@, withdrawable_term()) == sum_by(old(table)@, withdrawable_term()),
    {
        proof {
            lemma_table_model_keys(table@);
        }
        if crate::keyed::contains_key(table, oracle) {
            return Err(AggregatorError::OracleAlreadyEnabled);
        }
        let starting_round = self.get_starting_round(oracle);
        let status = OracleStatus {
            withdrawable: 0,
            starting_round,
            ending_round: ROUND_MAX,
            last_reported_round: 0,
            last_started_round: 0,
            latest_submission: None,
            admin,
            pending_admin: None,
        };
        proof {
            crate::keyed::lemma_inserted(table@, oracle, status);
            assert(crate::keyed::inserted(table@, oracle, status) == table@.push((oracle, status)));
            crate::keyed::lemma_sum_by_push(table@, withdrawable_term(), (oracle, status));
            assert(status@ == self.new_oracle_status_spec(oracle, admin));
            assert(table_model(table@.push((oracle, status))) =~= table_model(table@).push(
                (oracle, status@),
            ));
        }
        table.push((oracle, status));
        Ok(())
    }

    /// Moves `amount` of `oracle`'s reward balance out of the ledger, to be
    /// paid to a recipient of the admin's choosing.  Only the reporter's
    /// admin may do this, and only up to the reporter's balance.  The ledger
    /// total `available + allocated` shrinks by exactly the amount withdrawn.
    pub fn withdraw_payment(&mut self, caller: u64, oracle: u64, amount: u64) -> (r: Result<
        (),
        AggregatorError,
    >)
        requires
            old(self).wf(),
        ensures
            final(self).wf(),
            final(self).reporting_round_id == old(self).reporting_round_id,
            r == (match old(self).oracle_model_of(oracle) {
                None => Err::<(), AggregatorError>(AggregatorError::NoOracleAtAddress),
                Some(st) => if st.admin != caller {
                    Err::<(), AggregatorError>(AggregatorError::OnlyCallableByAdmin)
                } else if st.withdrawable < amount {
                    Err::<(), AggregatorError>(AggregatorError::InsufficientWithdrawableFunds)
                } else {
                    Ok::<(), AggregatorError>(())
                },
            }),
            r is Err ==> *final(self) == *old(self),
            r is Ok ==> final(self).recorded_funds.allocated == old(
                self,
            ).recorded_funds.allocated - amount,
            r is Ok ==> final(self).recorded_funds.available == old(self).recorded_funds.available,
            r is Ok ==> final(self).oracle_model_of(oracle) == Some(
                OracleStatusModel {
                    withdrawable: (old(self).oracle_model_of(oracle)->Some_0.withdrawable
                        - amount) as u64,
                    ..old(self).oracle_model_of(oracle)->Some_0
                },
            ),
            r is Ok ==> forall|a: u64|
                a != oracle ==> final(self).oracle_status_of(a) == old(self).oracle_status_of(a),
            *final(self) == (Aggregator {
                oracles: final(self).oracles,
                recorded_funds: final(self).recorded_funds,
                ..*old(self)
            }),
    {
        let i = match crate::keyed::find_key(&self.oracles, oracle) {
            Some(i) => i,
            None => {
                return Err(AggregatorError::NoOracleAtAddress);
            },
        };
        if self.oracles[i].1.admin != caller {
            return Err(AggregatorError::OnlyCallableByAdmin);
        }
        if self.oracles[i].1.withdrawable < amount {
            return Err(AggregatorError::InsufficientWithdrawableFunds);
        }
        proof {
            crate::keyed::lemma_sum_by_element_bound(self.oracles@, withdrawable_term(), i as int);
        }
        let mut st = clone_oracle_status(&self.oracles[i].1);
        st.withdrawable = st.withdrawable - amount;
        proof {
            let s = self.oracles@;
            crate::keyed::lemma_inserted(s, oracle, st);
            assert(s.update(i as int, (oracle, st)) == crate::keyed::inserted(s, oracle, st));
            crate::keyed::lemma_sum_by_update(s, withdrawable_term(), i as int, (oracle, st));
        }
        self.recorded_funds.allocated = self.recorded_funds.allocated - amount;
        self.oracles.set(i, (oracle, st));
        Ok(())
    }

    /// Takes `amount` back out of the caller's deposit, as long as what
    /// remains still covers the required reserve.  The ledger total
    /// `available + allocated` shrinks by exactly the amount withdrawn.
    pub fn withdraw_funds(&mut self, caller: u64, amount: u64) -> (r: Result<(), AggregatorError>)
        requires
            old(self).wf(),
        ensures
            final(self).wf(),
            final(self).reporting_round_id == old(self).reporting_round_id,
            r == (if amount > old(self).deposit_of(caller) {
                Err::<(), AggregatorError>(AggregatorError::InsufficientFundsToWithdraw)
            } else if old(self).recorded_funds.available < old(self).required_reserve_spec(
                old(self).payment_amount,
            ) + amount {
                Err::<(), AggregatorError>(AggregatorError::InsufficientReserveFunds)
            } else {
                Ok::<(), AggregatorError>(())
            }),
            r is Err ==> *final(self) == *old(self),
            r is Ok ==> final(self).recorded_funds.available == old(
                self,
            ).recorded_funds.available - amount,
            r is Ok ==> final(self).recorded_funds.allocated == old(self).recorded_funds.allocated,
            r is Ok ==> final(self).deposit_of(caller) == old(self).deposit_of(caller) - amount,
            r is Ok ==> forall|a: u64|
                a != caller ==> final(self).deposit_of(a) == old(self).deposit_of(a),
            *final(self) == (Aggregator {
                deposits: final(self).deposits,
                recorded_funds: final(self).recorded_funds,
                ..*old(self)
            }),
    {
        let deposit = self.get_deposit(caller);
        if amount > deposit {
            return Err(AggregatorError::InsufficientFundsToWithdraw);
        }
        if !self.reserve_plus_amount_covered(self.payment_amount, amount) {
            return Err(AggregatorError::InsufficientReserveFunds);
        }
        proof {
            if has_key(self.deposits@, caller) {
                let i = crate::keyed::index_of_key(self.deposits@, caller);
                crate::keyed::lemma_sum_by_element_bound(self.deposits@, deposit_term(), i);
            }
        }
        self.recorded_funds.available = self.recorded_funds.available - amount;
        self.set_deposit(caller, deposit - amount);
        Ok(())
    }

    /// Whether the available balance covers the required reserve for
    /// `payment` with `amount` to spare.
    fn reserve_plus_amount_covered(&self, payment: u64, amount: u64) -> (r: bool)
        ensures
            r == (self.recorded_funds.available >= self.required_reserve_spec(payment) + amount),
    {
        let count = self.oracles.len() as u128;
        proof {
            let p = payment as int;
            let c = self.oracles@.len() as int;
            assert(p * c >= 0 && p * c <= u64::MAX * u64::MAX) by (nonlinear_arith)
                requires
                    0 <= p <= u64::MAX,
                    0 <= c <= u64::MAX,
            ;
        }
        let base = (payment as u128) * count;
        let available = self.recorded_funds.available as u128;
        if available < amount as u128 {
            return false;
        }
        let rem = available - amount as u128;
        proof {
            vstd::arithmetic::div_mod::lemma_fundamental_div_mod(rem as int, 2);
            assert(((rem as int) / 2 >= base as int) == (rem as int >= 2 * base as int));
        }
        (rem / 2) >= base
    }

    /// Covers `amount` from the recorded deposits, oldest first (see
    /// [`Self::deposits_after_subtraction`]).
    fn subtract_amount_from_deposits(&mut self, amount: u64)
        requires
            unique_keys(old(self).deposits@),
            amount <= sum_by(old(self).deposits@, deposit_term()),
        ensures
            final(self).deposits@ == Self::deposits_after_subtraction(
                old(self).deposits@,
                amount as int,
            ),
            unique_keys(final(self).deposits@),
            sum_by(final(self).deposits@, deposit_term()) == sum_by(
                old(self).deposits@,
                deposit_term(),
            ) - amount,
            *final(self) == (Aggregator { deposits: final(self).deposits, ..*old(self) }),
    {
        let ghost orig = self.deposits@;
        let ghost orig_total = sum_by(orig, deposit_term());
        let mut remaining: u64 = amount;
        while remaining > 0
            invariant
                unique_keys(self.deposits@),
                remaining <= amount,
                remaining as int <= sum_by(self.deposits@, deposit_term()),
                Self::deposits_after_subtraction(orig, amount as int)
                    == Self::deposits_after_subtraction(self.deposits@, remaining as int),
                sum_by(self.deposits@, deposit_term()) == orig_total - amount + remaining,
                orig == old(self).deposits@,
                orig_total == sum_by(orig, deposit_term()),
                *self == (Aggregator { deposits: self.deposits, ..*old(self) }),
            decreases self.deposits@.len() + remaining,
        {
            proof {
                if self.deposits@.len() == 0 {
                    assert(sum_by(self.deposits@, deposit_term()) == 0);
                }
            }
            let first_address = self.deposits[0].0;
            let first_amount = self.deposits[0].1;
            if first_amount <= remaining {
                proof {
                    crate::keyed::lemma_sum_by_remove(self.deposits@, deposit_term(), 0);
                    assert(self.deposits@.remove(0) =~= self.deposits@.drop_first());
                    let s = self.deposits@;
                    let t = s.remove(0);
                    assert forall|a: int, b: int| 0 <= a < b < t.len() implies (#[trigger] t[a]).0
                        != (#[trigger] t[b]).0 by {
                        assert(t[a] == s[a + 1] && t[b] == s[b + 1]);
                    }
                }
                self.deposits.remove(0);
                remaining = remaining - first_amount;
            } else {
                proof {
                    let s = self.deposits@;
                    crate::keyed::lemma_sum_by_update(
                        s,
                        deposit_term(),
                        0,
                        (first_address, (first_amount - remaining) as u64),
                    );
                    assert(Self::deposits_after_subtraction(s, remaining as int) =~= s.update(
                        0,
                        (first_address, (first_amount - remaining) as u64),
                    ));
                    let t = s.update(0, (first_address, (first_amount - remaining) as u64));
                    assert forall|a: int, b: int| 0 <= a < b < t.len() implies (#[trigger] t[a]).0
                        != (#[trigger] t[b]).0 by {
                        assert(s[a].0 != s[b].0);
                    }
                }
                self.deposits.set(0, (first_address, first_amount - remaining));
                remaining = 0;
            }
        }
    }

    /// Closes out `round_id` if its details are still there and it has timed
    /// out: carries the preceding round's answer forward into it, marks it
    /// updated now, and purges its details.  A round that has not timed out,
    /// or whose details are already gone, is left alone.
    pub fn update_timed_out_round_info(&mut self, round_id: u64, now: u64) -> (r: Result<
        (),
        AggregatorError,
    >)
        requires
            old(self).wf(),
        ensures
            final(self).wf(),
            final(self).reporting_round_id == old(self).reporting_round_id,
            final(self).recorded_funds == old(self).recorded_funds,
            r == (match old(self).close_out_check(round_id, now) {
                Err(e) => Err::<(), AggregatorError>(e),
                Ok(_) => Ok::<(), AggregatorError>(()),
            }),
            r is Err ==> *final(self) == *old(self),
            r is Ok && !old(self).closes_out(round_id, now) ==> *final(self) == *old(self),
            r is Ok && old(self).closes_out(round_id, now) ==> {
                &&& final(self).rounds@.len() == old(self).rounds@.len()
                &&& final(self).round_at(round_id) == old(self).carried_round_model(round_id, now)
                &&& forall|i: int|
                    0 <= i < old(self).rounds@.len() && i != round_id
                        ==> (#[trigger] final(self).rounds@[i]) == old(self).rounds@[i]
                &&& final(self).details@ == crate::keyed::removed(old(self).details@, round_id)
                &&& *final(self) == (Aggregator {
                    rounds: final(self).rounds,
                    details: final(self).details,
                    ..*old(self)
                })
            },
    {
        let timed_out = match self.check_close_out(round_id, now) {
            Ok(t) => t,
            Err(e) => {
                return Err(e);
            },
        };
        if !timed_out {
            return Ok(());
        }
        let round_count = self.rounds.len();
        proof {
            assert(round_id < round_count as u64);
        }
        let idx = round_id as usize;
        let (answer, answered_in_round) = if round_id >= 1 {
            let prev = &self.rounds[(round_id - 1) as usize];
            (clone_opt_submission(&prev.answer), prev.answered_in_round)
        } else {
            (None, 0)
        };
        let updated = Round {
            round_id: self.rounds[idx].round_id,
            answer,
            decimals: self.rounds[idx].decimals,
            description: clone_bytes(&self.rounds[idx].description),
            started_at: self.rounds[idx].started_at,
            updated_at: now,
            answered_in_round,
        };
        self.rounds.set(idx, updated);
        proof {
            crate::keyed::lemma_removed(self.details@, round_id);
        }
        crate::keyed::remove_entry(&mut self.details, round_id);
        proof {
            let t = final(self).details@;
            let s = old(self).details@;
            assert forall|i: int|
                0 <= i < t.len() implies final(self).details_entry_wf((#[trigger] t[i]).1) && t[i].0 < final(self).rounds@.len() by {
                if has_key(s, round_id) {
                    let k = crate::keyed::index_of_key(s, round_id);
                    let i0 = if i < k {
                        i
                    } else {
                        i + 1
                    };
                    assert(t[i] == s[i0]);
                }
            }
        }
        Ok(())
    }

    /// Opens round `round_id`: first closes out the previous round if it
    /// timed out with its details still in place (see
    /// [`Self::update_timed_out_round_info`]), then records a fresh,
    /// unanswered round and a details snapshot of the current parameters,
    /// and advances the reporting round pointer.
    pub fn initialize_new_round(&mut self, round_id: u64, now: u64) -> (r: Result<
        (),
        AggregatorError,
    >)
        requires
            old(self).wf(),
            old(self).is_new_round(round_id),
        ensures
            final(self).wf(),
            final(self).reporting_round_id >= old(self).reporting_round_id,
            final(self).recorded_funds == old(self).recorded_funds,
            r == (match old(self).close_out_check((round_id - 1) as u64, now) {
                Err(e) => Err::<(), AggregatorError>(e),
                Ok(_) => Ok::<(), AggregatorError>(()),
            }),
            r is Err ==> *final(self) == *old(self),
            r is Ok ==> new_round_state_effects(*old(self), *final(self), round_id, now),
            r is Ok ==> *final(self) == (Aggregator {
                reporting_round_id: round_id,
                rounds: final(self).rounds,
                details: final(self).details,
                ..*old(self)
            }),
    {
        let last_round = round_id - 1;
        proof {
            crate::keyed::lemma_removed(self.details@, last_round);
        }
        match self.update_timed_out_round_info(last_round, now) {
            Ok(()) => {},
            Err(e) => {
                return Err(e);
            },
        }
        self.reporting_round_id = round_id;
        let fresh_round = Round {
            round_id,
            answer: None,
            decimals: self.decimals,
            description: clone_bytes(&self.description),
            started_at: now,
            updated_at: 0,
            answered_in_round: 0,
        };
        self.rounds.push(fresh_round);
        let fresh_details = RoundDetails {
            submissions: Vec::new(),
            max_submissions: self.max_submission_count,
            min_submissions: self.min_submission_count,
            timeout: self.timeout,
            payment_amount: self.payment_amount,
        };
        proof {
            crate::keyed::lemma_inserted(self.details@, round_id, fresh_details);
            assert(fresh_details@.submissions =~= Seq::<Seq<u64>>::empty());
            assert(!has_key(self.details@, round_id)) by {
                if has_key(self.details@, round_id) {
                    let k = crate::keyed::index_of_key(self.details@, round_id);
                }
            }
        }
        crate::keyed::insert_entry(&mut self.details, round_id, fresh_details);
        Ok(())
    }

    /// A reporter's attempt to open `round_id` on the way into a submission:
    /// a losing race (not the next round) or a throttled reporter is a
    /// harmless no-op; otherwise the round is opened and the reporter is
    /// recorded as having started it.  The reporting round id never moves
    /// backwards.
    pub fn oracle_initialize_new_round(&mut self, oracle: u64, round_id: u64, now: u64) -> (r:
        Result<(), AggregatorError>)
        requires
            old(self).wf(),
        ensures
            final(self).wf(),
            final(self).recorded_funds == old(self).recorded_funds,
            r == old(self).oracle_initialize_result(oracle, round_id, now),
            r is Err ==> *final(self) == *old(self),
            r is Ok && !old(self).oracle_will_initialize(oracle, round_id) ==> *final(self)
                == *old(self),
            r is Ok && old(self).oracle_will_initialize(oracle, round_id) ==> {
                &&& new_round_state_effects(*old(self), *final(self), round_id, now)
                &&& final(self).oracle_model_of(oracle) == Some(
                    OracleStatusModel {
                        last_started_round: round_id,
                        ..old(self).oracle_model_of(oracle)->Some_0
                    },
                )
                &&& forall|a: u64|
                    a != oracle ==> final(self).oracle_status_of(a) == old(self).oracle_status_of(
                        a,
                    )
                &&& *final(self) == (Aggregator {
                    reporting_round_id: round_id,
                    rounds: final(self).rounds,
                    details: final(self).details,
                    oracles: final(self).oracles,
                    ..*old(self)
                })
            },
            final(self).reporting_round_id >= old(self).reporting_round_id,
    {
        if !self.new_round(round_id) {
            return Ok(());
        }
        let oi = match crate::keyed::find_key(&self.oracles, oracle) {
            Some(i) => i,
            None => {
                return Err(AggregatorError::NoOracleAtAddress);
            },
        };
        let last_started = self.oracles[oi].1.last_started_round;
        if !((round_id as u128) > (last_started as u128 + self.restart_delay as u128)
            || last_started == 0) {
            return Ok(());
        }
        let mut st = clone_oracle_status(&self.oracles[oi].1);
        st.last_started_round = round_id;
        match self.initialize_new_round(round_id, now) {
            Ok(()) => {},
            Err(e) => {
                return Err(e);
            },
        }
        let ghost mid = *self;
        proof {
            let o = self.oracles@;
            crate::keyed::lemma_inserted(o, oracle, st);
            assert(o.update(oi as int, (oracle, st)) == crate::keyed::inserted(o, oracle, st));
            crate::keyed::lemma_sum_by_update(o, withdrawable_term(), oi as int, (oracle, st));
        }
        self.oracles.set(oi, (oracle, st));
        proof {
            assert forall|k: u64| k != round_id && k != round_id - 1 implies #[trigger] self
                .details_of(k) == old(self).details_of(k) by {
                assert(mid.details_of(k) == old(self).details_of(k));
            }
            assert(self.details_model_of(round_id) == mid.details_model_of(round_id));
            assert(self.details_of((round_id - 1) as u64) == mid.details_of(
                (round_id - 1) as u64,
            ));
        }
        Ok(())
    }

    /// A requester's attempt to open `round_id`: the requester is loaded
    /// first, a losing race is a no-op, and the requester's cool-down is
    /// enforced; on success the requester is recorded as having started the
    /// round.  The reporting round id never moves backwards.
    pub fn requester_initialize_new_round(&mut self, requester: u64, round_id: u64, now: u64) -> (r:
        Result<(), AggregatorError>)
        requires
            old(self).wf(),
        ensures
            final(self).wf(),
            final(self).recorded_funds == old(self).recorded_funds,
            r == old(self).requester_initialize_result(requester, round_id, now),
            r is Err ==> *final(self) == *old(self),
            r is Ok && !old(self).requester_will_initialize(requester, round_id) ==> *final(self)
                == *old(self),
            r is Ok && old(self).requester_will_initialize(requester, round_id) ==> {
                &&& new_round_state_effects(*old(self), *final(self), round_id, now)
                &&& final(self).requester_of(requester) == Some(
                    Requester {
                        last_started_round: round_id,
                        ..old(self).requester_of(requester)->Some_0
                    },
                )
                &&& forall|a: u64|
                    a != requester ==> final(self).requester_of(a) == old(self).requester_of(a)
                &&& *final(self) == (Aggregator {
                    reporting_round_id: round_id,
                    rounds: final(self).rounds,
                    details: final(self).details,
                    requesters: final(self).requesters,
                    ..*old(self)
                })
            },
            final(self).reporting_round_id >= old(self).reporting_round_id,
    {
        let qi = match crate::keyed::find_key(&self.requesters, requester) {
            Some(i) => i,
            None => {
                return Err(AggregatorError::NoRequesterAtAddress);
            },
        };
        let mut q = self.requesters[qi].1;
        if !self.new_round(round_id) {
            return Ok(());
        }
        if !((round_id as u128) > (q.last_started_round as u128 + q.delay as u128)
            || q.last_started_round == 0) {
            return Err(AggregatorError::MustDelayRequests);
        }
        match self.initialize_new_round(round_id, now) {
            Ok(()) => {},
            Err(e) => {
                return Err(e);
            },
        }
        let ghost mid = *self;
        q.last_started_round = round_id;
        proof {
            let s = self.requesters@;
            crate::keyed::lemma_inserted(s, requester, q);
            assert(s.update(qi as int, (requester, q)) == crate::keyed::inserted(s, requester, q));
        }
        self.requesters.set(qi, (requester, q));
        proof {
            assert forall|k: u64| k != round_id && k != round_id - 1 implies #[trigger] self
                .details_of(k) == old(self).details_of(k) by {
                assert(mid.details_of(k) == old(self).details_of(k));
            }
            assert(self.details_model_of(round_id) == mid.details_model_of(round_id));
            assert(self.details_of((round_id - 1) as u64) == mid.details_of(
                (round_id - 1) as u64,
            ));
        }
        Ok(())
    }

    /// Opens the round after the current one at an authorized requester's
    /// demand, without a submission.  The current round must be answered or
    /// timed out, and the requester's own cool-down applies.  Returns the id
    /// of the round it opened.
    pub fn request_new_round(&mut self, caller: u64, now: u64) -> (r: Result<
        u64,
        AggregatorError,
    >)
        requires
            old(self).wf(),
        ensures
            final(self).wf(),
            final(self).recorded_funds == old(self).recorded_funds,
            r == old(self).request_new_round_result(caller, now),
            r is Err ==> *final(self) == *old(self),
            r is Ok ==> {
                let round_id = (old(self).reporting_round_id + 1) as u64;
                &&& r == Ok::<u64, AggregatorError>(round_id)
                &&& new_round_state_effects(*old(self), *final(self), round_id, now)
                &&& final(self).requester_of(caller) == Some(
                    Requester {
                        last_started_round: round_id,
                        ..old(self).requester_of(caller)->Some_0
                    },
                )
                &&& *final(self) == (Aggregator {
                    reporting_round_id: round_id,
                    rounds: final(self).rounds,
                    details: final(self).details,
                    requesters: final(self).requesters,
                    ..*old(self)
                })
            },
            final(self).reporting_round_id >= old(self).reporting_round_id,
    {
        let authorized = match crate::keyed::find_key(&self.requesters, caller) {
            Some(i) => self.requesters[i].1.authorized,
            None => false,
        };
        if !authorized {
            return Err(AggregatorError::NotAuthorizedRequester);
        }
        let current = self.reporting_round_id;
        let round_count = self.rounds.len();
        proof {
            assert(current < round_count as u64);
        }
        let answered = self.rounds[current as usize].updated_at > 0;
        if !answered {
            let timed_out = match self.timed_out(current, now) {
                Ok(t) => t,
                Err(e) => {
                    return Err(e);
                },
            };
            if !timed_out {
                return Err(AggregatorError::PrevRoundMustBeSupersedable);
            }
        }
        let new_round_id = self.next_round_id();
        match self.requester_initialize_new_round(caller, new_round_id, now) {
            Ok(()) => Ok(new_round_id),
            Err(e) => Err(e),
        }
    }

    /// One reporter's submission for one round, the aggregator's central
    /// entry point: validates the batch width, the sequencing rules and the
    /// value bounds; opens the round if this submission is entitled to;
    /// records the values; finalizes the round's answer once enough
    /// submissions are in; pays the reporter one round's reward out of the
    /// available funds; and retires the round's details once full.  Either
    /// all of that happens or the call returns an error with the state
    /// untouched.  The ledger total `available + allocated` and the recorded
    /// deposits less the reward are conserved, and the reporting round id
    /// never moves backwards.
    pub fn submit(&mut self, caller: u64, round_id: u64, values: Vec<u64>, now: u64) -> (r: Result<
        (),
        AggregatorError,
    >)
        requires
            old(self).wf(),
        ensures
            final(self).wf(),
            r == old(self).submit_result(caller, round_id, values@, now),
            r is Err ==> *final(self) == *old(self),
            final(self).reporting_round_id >= old(self).reporting_round_id,
            r is Ok ==> ({
                let will_init = old(self).oracle_will_initialize(caller, round_id);
                let details = old(self).submit_round_details(round_id, will_init);
                let new_submissions = details.submissions.push(values@);
                let payment = details.payment_amount;
                &&& final(self).reporting_round_id == (if will_init {
                    round_id
                } else {
                    old(self).reporting_round_id
                })
                &&& (will_init && old(self).closes_out((round_id - 1) as u64, now)
                    ==> final(self).round_at((round_id - 1) as u64) == old(
                    self,
                ).carried_round_model((round_id - 1) as u64, now))
                &&& final(self).recorded_funds.available == old(self).recorded_funds.available
                    - payment
                &&& final(self).recorded_funds.allocated == old(self).recorded_funds.allocated
                    + payment
                &&& final(self).recorded_funds.available + final(self).recorded_funds.allocated
                    == old(self).recorded_funds.available + old(self).recorded_funds.allocated
                &&& final(self).deposits@ == Self::deposits_after_subtraction(
                    old(self).deposits@,
                    payment as int,
                )
                &&& final(self).oracle_model_of(caller) == Some(
                    OracleStatusModel {
                        withdrawable: (old(self).oracle_model_of(caller)->Some_0.withdrawable
                            + payment) as u64,
                        last_reported_round: round_id,
                        last_started_round: (if will_init {
                            round_id
                        } else {
                            old(self).oracle_model_of(caller)->Some_0.last_started_round
                        }),
                        latest_submission: Some(values@),
                        ..old(self).oracle_model_of(caller)->Some_0
                    },
                )
                &&& forall|a: u64|
                    a != caller ==> final(self).oracle_status_of(a) == old(self).oracle_status_of(
                        a,
                    )
                &&& (if new_submissions.len() >= details.min_submissions {
                    final(self).round_at(round_id) == (RoundModel {
                        answer: Self::batch_median(new_submissions),
                        updated_at: now,
                        answered_in_round: round_id,
                        ..old(self).submit_base_round(round_id, will_init, now)
                    }) && final(self).latest_round_id == round_id
                } else {
                    final(self).round_at(round_id) == old(self).submit_base_round(
                        round_id,
                        will_init,
                        now,
                    ) && final(self).latest_round_id == old(self).latest_round_id
                })
                &&& (if new_submissions.len() >= details.max_submissions {
                    final(self).details_of(round_id) is None
                } else {
                    final(self).details_model_of(round_id) == Some(
                        RoundDetailsModel { submissions: new_submissions, ..details },
                    )
                })
                &&& *final(self) == (Aggregator {
                    reporting_round_id: final(self).reporting_round_id,
                    latest_round_id: final(self).latest_round_id,
                    oracles: final(self).oracles,
                    rounds: final(self).rounds,
                    details: final(self).details,
                    recorded_funds: final(self).recorded_funds,
                    deposits: final(self).deposits,
                    ..*old(self)
                })
            }),
    {
        if values.len() != self.values_count {
            return Err(AggregatorError::WrongNumberOfValues);
        }
        match self.validate_oracle_round(caller, round_id, now) {
            Ok(()) => {},
            Err(e) => {
                return Err(e);
            },
        }
        match self.validate_submission_limits(&values) {
            Ok(()) => {},
            Err(e) => {
                return Err(e);
            },
        }
        let is_new = self.new_round(round_id);
        let oi = match crate::keyed::find_key(&self.oracles, caller) {
            Some(i) => i,
            None => {
                proof {
                    assert(false);
                }
                return Err(AggregatorError::NoOracleAtAddress);
            },
        };
        let last_started = self.oracles[oi].1.last_started_round;
        let will_init = is_new && ((round_id as u128) > (last_started as u128
            + self.restart_delay as u128) || last_started == 0);
        let payment: u64;
        if will_init {
            match self.check_close_out(round_id - 1, now) {
                Ok(_) => {},
                Err(e) => {
                    return Err(e);
                },
            }
            payment = self.payment_amount;
        } else {
            let di = match crate::keyed::find_key(&self.details, round_id) {
                Some(i) => i,
                None => {
                    return Err(AggregatorError::NoRoundDetailsForId);
                },
            };
            if self.details[di].1.max_submissions == 0 || (self.details[di].1.submissions.len()
                as u64) >= self.details[di].1.max_submissions {
                return Err(AggregatorError::RoundNotAcceptingSubmissions);
            }
            payment = self.details[di].1.payment_amount;
        }
        if self.recorded_funds.available < payment {
            return Err(AggregatorError::InsufficientAvailableFunds);
        }
        let ghost s0 = *self;
        match self.oracle_initialize_new_round(caller, round_id, now) {
            Ok(()) => {},
            Err(e) => {
                proof {
                    assert(false);
                }
                return Err(e);
            },
        }
        let ghost s1 = *self;
        match self.record_submission(caller, Submission { values }, round_id) {
            Ok(()) => {},
            Err(e) => {
                proof {
                    assert(false);
                }
                return Err(e);
            },
        }
        let ghost s2 = *self;
        match self.update_round_answer(round_id, now) {
            Ok(()) => {},
            Err(e) => {
                proof {
                    assert(false);
                }
                return Err(e);
            },
        }
        let ghost s3 = *self;
        match self.pay_oracle(round_id, caller) {
            Ok(()) => {},
            Err(e) => {
                proof {
                    assert(false);
                }
                return Err(e);
            },
        }
        let ghost s4 = *self;
        self.delete_round_details(round_id);
        proof {
            assert(self.details_of(round_id) == s4.details_of(round_id) || self.details_of(
                round_id,
            ) is None);
            assert forall|k: u64| k != round_id && k != round_id - 1 implies #[trigger] self
                .details_of(k) == old(self).details_of(k) by {
                crate::keyed::lemma_removed(s4.details@, round_id);
                assert(s4.details_of(k) == s2.details_of(k));
                assert(s2.details_of(k) == s1.details_of(k));
                assert(s1.details_of(k) == old(self).details_of(k));
            }
            assert forall|a: u64| a != caller implies #[trigger] self.oracle_status_of(a) == old(
                self,
            ).oracle_status_of(a) by {
                assert(s1.oracle_status_of(a) == old(self).oracle_status_of(a));
                assert(s2.oracle_status_of(a) == s1.oracle_status_of(a));
                assert(s3.oracle_status_of(a) == s2.oracle_status_of(a));
                assert(s4.oracle_status_of(a) == s3.oracle_status_of(a));
                assert(self.oracle_status_of(a) == s4.oracle_status_of(a));
            }
        }
        Ok(())
    }

    /// Drops the details record of `round_id` once the round holds its full
    /// complement of submissions (keeping it would waste storage); a round
    /// still accepting submissions is left alone.
    fn delete_round_details(&mut self, round_id: u64)
        requires
            old(self).wf(),
        ensures
            final(self).wf(),
            final(self).details@ == (match old(self).details_of(round_id) {
                Some(d) => if d.submissions@.len() < d.max_submissions {
                    old(self).details@
                } else {
                    crate::keyed::removed(old(self).details@, round_id)
                },
                None => crate::keyed::removed(old(self).details@, round_id),
            }),
            *final(self) == (Aggregator { details: final(self).details, ..*old(self) }),
    {
        let keep = match crate::keyed::find_key(&self.details, round_id) {
            Some(i) => (self.details[i].1.submissions.len() as u64)
                < self.details[i].1.max_submissions,
            None => false,
        };
        if keep {
            return ;
        }
        proof {
            crate::keyed::lemma_removed(self.details@, round_id);
        }
        crate::keyed::remove_entry(&mut self.details, round_id);
        proof {
            let t = final(self).details@;
            let s = old(self).details@;
            assert forall|i: int|
                0 <= i < t.len() implies final(self).details_entry_wf((#[trigger] t[i]).1) && t[i].0 < final(self).rounds@.len() by {
                if has_key(s, round_id) {
                    let k = crate::keyed::index_of_key(s, round_id);
                    let i0 = if i < k {
                        i
                    } else {
                        i + 1
                    };
                    assert(t[i] == s[i0]);
                }
            }
        }
    }

    /// Checks every submitted value against the configured bounds, in order
    /// (see [`Self::submission_limits_check`]).
    pub fn validate_submission_limits(&self, values: &Vec<u64>) -> (r: Result<
        (),
        AggregatorError,
    >)
        ensures
            r == self.submission_limits_check(values@),
            r is Ok <==> forall|k: int|
                0 <= k < values@.len() ==> self.min_submission_value <= #[trigger] values@[k]
                    <= self.max_submission_value,
    {
        proof {
            assert(values@.skip(0) =~= values@);
        }
        let mut i: usize = 0;
        while i < values.len()
            invariant
                i <= values@.len(),
                self.submission_limits_check(values@) == self.submission_limits_check(
                    values@.skip(i as int),
                ),
                forall|k: int|
                    0 <= k < i ==> self.min_submission_value <= #[trigger] values@[k]
                        <= self.max_submission_value,
            decreases values@.len() - i,
        {
            proof {
                assert(values@.skip(i as int)[0] == values@[i as int]);
                assert(values@.skip(i as int).drop_first() =~= values@.skip(i as int + 1));
            }
            if values[i] < self.min_submission_value {
                return Err(AggregatorError::ValueBelowMinSubmissionValue);
            }
            if values[i] > self.max_submission_value {
                return Err(AggregatorError::ValueAboveMaxSubmissionValue);
            }
            i = i + 1;
        }
        proof {
            assert(values@.skip(values@.len() as int) =~= Seq::<u64>::empty());
        }
        Ok(())
    }

    /// Appends `oracle`'s submission to the round's details and marks the
    /// reporter as having reported for this round.  Rejected when the round's
    /// details are gone or full, or allow no submissions at all.
    fn record_submission(&mut self, oracle: u64, submission: Submission, round_id: u64) -> (r:
        Result<(), AggregatorError>)
        requires
            old(self).wf(),
            submission@.len() == old(self).values_count,
        ensures
            final(self).wf(),
            r == (match old(self).details_model_of(round_id) {
                None => Err::<(), AggregatorError>(AggregatorError::NoRoundDetailsForId),
                Some(d) => if d.max_submissions == 0 || d.submissions.len() >= d.max_submissions {
                    Err::<(), AggregatorError>(AggregatorError::RoundNotAcceptingSubmissions)
                } else {
                    match old(self).oracle_status_of(oracle) {
                        None => Err::<(), AggregatorError>(AggregatorError::NoOracleAtAddress),
                        Some(_) => Ok::<(), AggregatorError>(()),
                    }
                },
            }),
            r is Err ==> *final(self) == *old(self),
            r is Ok ==> {
                &&& final(self).details_model_of(round_id) == Some(
                    RoundDetailsModel {
                        submissions: old(self).details_model_of(round_id)->Some_0.submissions.push(
                            submission@,
                        ),
                        ..old(self).details_model_of(round_id)->Some_0
                    },
                )
                &&& forall|k: u64|
                    k != round_id ==> #[trigger] final(self).details_of(k) == old(self).details_of(
                        k,
                    )
                &&& final(self).oracle_model_of(oracle) == Some(
                    OracleStatusModel {
                        last_reported_round: round_id,
                        latest_submission: Some(submission@),
                        ..old(self).oracle_model_of(oracle)->Some_0
                    },
                )
                &&& forall|a: u64|
                    a != oracle ==> final(self).oracle_status_of(a) == old(self).oracle_status_of(
                        a,
                    )
                &&& *final(self) == (Aggregator {
                    details: final(self).details,
                    oracles: final(self).oracles,
                    ..*old(self)
                })
            },
    {
        let di = match crate::keyed::find_key(&self.details, round_id) {
            Some(i) => i,
            None => {
                return Err(AggregatorError::NoRoundDetailsForId);
            },
        };
        let submissions_len = self.details[di].1.submissions.len();
        if self.details[di].1.max_submissions == 0 || (submissions_len as u64)
            >= self.details[di].1.max_submissions {
            return Err(AggregatorError::RoundNotAcceptingSubmissions);
        }
        let oi = match crate::keyed::find_key(&self.oracles, oracle) {
            Some(i) => i,
            None => {
                return Err(AggregatorError::NoOracleAtAddress);
            },
        };
        let mut st = clone_oracle_status(&self.oracles[oi].1);
        st.last_reported_round = round_id;
        st.latest_submission = Some(clone_submission(&submission));
        let mut d = clone_round_details(&self.details[di].1);
        d.submissions.push(submission);
        proof {
            let s = self.details@;
            crate::keyed::lemma_inserted(s, round_id, d);
            assert(s.update(di as int, (round_id, d)) == crate::keyed::inserted(s, round_id, d));
            let o = self.oracles@;
            crate::keyed::lemma_inserted(o, oracle, st);
            assert(o.update(oi as int, (oracle, st)) == crate::keyed::inserted(o, oracle, st));
            crate::keyed::lemma_sum_by_update(o, withdrawable_term(), oi as int, (oracle, st));
            assert(d@.submissions =~= old(self).details_model_of(round_id)->Some_0.submissions.push(
                submission@,
            ));
        }
        self.details.set(di, (round_id, d));
        self.oracles.set(oi, (oracle, st));
        proof {
            let t = self.details@;
            assert forall|i: int|
                0 <= i < t.len() implies self.details_entry_wf((#[trigger] t[i]).1) && t[i].0
                    < self.rounds@.len() by {
                if i != di {
                    assert(t[i] == old(self).details@[i]);
                } else {
                    let orig = old(self).details@[di as int].1;
                    assert(old(self).details_entry_wf(orig));
                    assert(t[i].1@.submissions == orig@.submissions.push(submission@));
                    assert forall|j: int|
                        0 <= j < t[i].1.submissions@.len()
                            implies (#[trigger] t[i].1.submissions@[j])@.len()
                            == self.values_count by {
                        assert(t[i].1.submissions@[j]@ == t[i].1@.submissions[j]);
                        if j < orig@.submissions.len() {
                            assert(orig.submissions@[j]@ == orig@.submissions[j]);
                        }
                    }
                }
            }
        }
        Ok(())
    }

    /// Finalizes the round's answer once enough submissions are in: computes
    /// the per-position median of the recorded submissions, stamps the round
    /// updated now, and advances the latest-answered-round pointer.  A round
    /// still short of `min_submissions` is left alone.
    fn update_round_answer(&mut self, round_id: u64, now: u64) -> (r: Result<(), AggregatorError>)
        requires
            old(self).wf(),
        ensures
            final(self).wf(),
            r == (match old(self).details_model_of(round_id) {
                None => Err::<(), AggregatorError>(AggregatorError::NoRoundDetailsForId),
                Some(_) => Ok::<(), AggregatorError>(()),
            }),
            r is Err ==> *final(self) == *old(self),
            r is Ok && old(self).details_model_of(round_id)->Some_0.submissions.len() < old(
                self,
            ).details_model_of(round_id)->Some_0.min_submissions ==> *final(self) == *old(self),
            r is Ok && old(self).details_model_of(round_id)->Some_0.submissions.len() >= old(
                self,
            ).details_model_of(round_id)->Some_0.min_submissions ==> {
                &&& final(self).rounds@.len() == old(self).rounds@.len()
                &&& final(self).round_at(round_id) == (RoundModel {
                    answer: Self::batch_median(
                        old(self).details_model_of(round_id)->Some_0.submissions,
                    ),
                    updated_at: now,
                    answered_in_round: round_id,
                    ..old(self).round_at(round_id)
                })
                &&& forall|i: int|
                    0 <= i < old(self).rounds@.len() && i != round_id
                        ==> (#[trigger] final(self).rounds@[i]) == old(self).rounds@[i]
                &&& final(self).latest_round_id == round_id
                &&& *final(self) == (Aggregator {
                    rounds: final(self).rounds,
                    latest_round_id: round_id,
                    ..*old(self)
                })
            },
    {
        let di = match crate::keyed::find_key(&self.details, round_id) {
            Some(i) => i,
            None => {
                return Err(AggregatorError::NoRoundDetailsForId);
            },
        };
        let submissions_len = self.details[di].1.submissions.len();
        if (submissions_len as u64) < self.details[di].1.min_submissions {
            return Ok(());
        }
        let submissions = clone_submissions(&self.details[di].1.submissions);
        proof {
            let orig = self.details@[di as int].1;
            assert(self.details_entry_wf(orig));
            assert forall|j: int|
                0 <= j < submissions@.len() implies (#[trigger] submissions@[j])@.len()
                    == submissions@[0]@.len() by {
                assert(submissions@[j]@ == submissions.deep_view()[j]);
                assert(submissions@[0]@ == submissions.deep_view()[0]);
                assert(orig.submissions@[j]@ == orig@.submissions[j]);
                assert(orig.submissions@[0]@ == orig@.submissions[0]);
            }
        }
        let answer = match crate::median::calculate_submission_median(submissions) {
            Ok(a) => a,
            Err(_) => {
                proof {
                    assert(false);
                }
                None
            },
        };
        proof {
            assert(answer.deep_view() =~~= Self::batch_median(
                old(self).details_model_of(round_id)->Some_0.submissions,
            ));
        }
        let round_count = self.rounds.len();
        proof {
            assert(round_id < round_count as u64);
        }
        let idx = round_id as usize;
        let updated = Round {
            round_id: self.rounds[idx].round_id,
            answer,
            decimals: self.rounds[idx].decimals,
            description: clone_bytes(&self.rounds[idx].description),
            started_at: self.rounds[idx].started_at,
            updated_at: now,
            answered_in_round: round_id,
        };
        self.rounds.set(idx, updated);
        self.latest_round_id = round_id;
        Ok(())
    }

    /// Moves one round's reward from the available funds to the allocated
    /// funds and credits it to `oracle`: the ledger total is conserved, the
    /// recorded deposits are drawn down by the same reward, oldest first.
    fn pay_oracle(&mut self, round_id: u64, oracle: u64) -> (r: Result<(), AggregatorError>)
        requires
            old(self).wf(),
        ensures
            final(self).wf(),
            r == (match old(self).details_model_of(round_id) {
                None => Err::<(), AggregatorError>(AggregatorError::NoRoundDetailsForId),
                Some(d) => match old(self).oracle_status_of(oracle) {
                    None => Err::<(), AggregatorError>(AggregatorError::NoOracleAtAddress),
                    Some(_) => if old(self).recorded_funds.available < d.payment_amount {
                        Err::<(), AggregatorError>(AggregatorError::InsufficientAvailableFunds)
                    } else {
                        Ok::<(), AggregatorError>(())
                    },
                },
            }),
            r is Err ==> *final(self) == *old(self),
            r is Ok ==> {
                let payment = old(self).details_model_of(round_id)->Some_0.payment_amount;
                &&& final(self).recorded_funds.available == old(self).recorded_funds.available
                    - payment
                &&& final(self).recorded_funds.allocated == old(self).recorded_funds.allocated
                    + payment
                &&& final(self).recorded_funds.available + final(self).recorded_funds.allocated
                    == old(self).recorded_funds.available + old(self).recorded_funds.allocated
                &&& final(self).total_deposits() == old(self).total_deposits() - payment
                &&& final(self).deposits@ == Self::deposits_after_subtraction(
                    old(self).deposits@,
                    payment as int,
                )
                &&& final(self).oracle_model_of(oracle) == Some(
                    OracleStatusModel {
                        withdrawable: (old(self).oracle_model_of(oracle)->Some_0.withdrawable
                            + payment) as u64,
                        ..old(self).oracle_model_of(oracle)->Some_0
                    },
                )
                &&& forall|a: u64|
                    a != oracle ==> final(self).oracle_status_of(a) == old(self).oracle_status_of(
                        a,
                    )
                &&& *final(self) == (Aggregator {
                    recorded_funds: final(self).recorded_funds,
                    deposits: final(self).deposits,
                    oracles: final(self).oracles,
                    ..*old(self)
                })
            },
    {
        let payment = match crate::keyed::find_key(&self.details, round_id) {
            Some(i) => self.details[i].1.payment_amount,
            None => {
                return Err(AggregatorError::NoRoundDetailsForId);
            },
        };
        let oi = match crate::keyed::find_key(&self.oracles, oracle) {
            Some(i) => i,
            None => {
                return Err(AggregatorError::NoOracleAtAddress);
            },
        };
        if self.recorded_funds.available < payment {
            return Err(AggregatorError::InsufficientAvailableFunds);
        }
        proof {
            crate::keyed::lemma_sum_by_element_bound(self.oracles@, withdrawable_term(), oi as int);
        }
        let mut st = clone_oracle_status(&self.oracles[oi].1);
        st.withdrawable = st.withdrawable + payment;
        self.recorded_funds.available = self.recorded_funds.available - payment;
        self.recorded_funds.allocated = self.recorded_funds.allocated + payment;
        self.subtract_amount_from_deposits(payment);
        proof {
            let o = self.oracles@;
            crate::keyed::lemma_inserted(o, oracle, st);
            assert(o.update(oi as int, (oracle, st)) == crate::keyed::inserted(o, oracle, st));
            crate::keyed::lemma_sum_by_update(o, withdrawable_term(), oi as int, (oracle, st));
        }
        self.oracles.set(oi, (oracle, st));
        Ok(())
    }

    /// Whether the error names an aborted lookup (see
    /// [`Self::is_lookup_abort`]).
    fn error_is_lookup_abort(e: AggregatorError) -> (r: bool)
        ensures
            r == Self::is_lookup_abort(e),
    {
        match e {
            AggregatorError::NoOracleAtAddress => true,
            AggregatorError::NoRoundForId => true,
            AggregatorError::NoRoundDetailsForId => true,
            _ => false,
        }
    }

    /// Runs the sequencing rules and reads the verdict as eligibility (see
    /// [`Self::validate_as_eligibility`]).
    fn check_eligibility(&self, oracle: u64, round_id: u64, now: u64) -> (r: Result<
        bool,
        AggregatorError,
    >)
        requires
            self.wf(),
        ensures
            r == self.validate_as_eligibility(oracle, round_id, now),
    {
        match self.validate_oracle_round(oracle, round_id, now) {
            Ok(()) => Ok(true),
            Err(e) => if Self::error_is_lookup_abort(e) {
                Err(e)
            } else {
                Ok(false)
            },
        }
    }

    /// Whether `oracle` could submit to the specific round `queried` right
    /// now (see [`Self::eligible_for_specific_round_result`]).
    pub fn eligible_for_specific_round(&self, oracle: u64, queried: u64, now: u64) -> (r: Result<
        bool,
        AggregatorError,
    >)
        requires
            self.wf(),
        ensures
            r == self.eligible_for_specific_round_result(oracle, queried, now),
    {
        let round_count = self.rounds.len();
        let started = queried < round_count as u64 && self.rounds[queried as usize].started_at > 0;
        if started {
            match self.accepting_submissions(queried) {
                Err(e) => Err(e),
                Ok(false) => Ok(false),
                Ok(true) => self.check_eligibility(oracle, queried, now),
            }
        } else {
            match self.delayed(oracle, queried) {
                Err(e) => Err(e),
                Ok(false) => Ok(false),
                Ok(true) => self.check_eligibility(oracle, queried, now),
            }
        }
    }

    /// The suggested-round report for `oracle` (see
    /// [`Self::suggest_round_result`]).
    pub fn oracle_round_state_suggest_round(&self, oracle: u64, now: u64) -> (r: Result<
        OracleRoundState,
        AggregatorError,
    >)
        requires
            self.wf(),
        ensures
            match r {
                Ok(state) => self.suggest_round_result(oracle, now) == Ok::<
                    crate::aggregator_data::OracleRoundStateModel,
                    AggregatorError,
                >(state@),
                Err(e) => self.suggest_round_result(oracle, now) == Err::<
                    crate::aggregator_data::OracleRoundStateModel,
                    AggregatorError,
                >(e),
            },
    {
        let st = match self.get_oracle_status_result(oracle) {
            Ok(st) => st,
            Err(e) => {
                return Err(e);
            },
        };
        let rr = self.reporting_round_id;
        let should_supersede = if st.last_reported_round == rr {
            true
        } else {
            match self.accepting_submissions(rr) {
                Ok(acc) => !acc,
                Err(e) => {
                    return Err(e);
                },
            }
        };
        let sup = match self.supersedable(rr, now) {
            Ok(s) => s,
            Err(e) => {
                return Err(e);
            },
        };
        if sup && should_supersede {
            return Err(AggregatorError::NoRoundForId);
        }
        let valid = match self.check_eligibility(oracle, rr, now) {
            Ok(v) => v,
            Err(e) => {
                return Err(e);
            },
        };
        let details = match self.get_round_details(rr) {
            Ok(d) => d,
            Err(e) => {
                proof {
                    assert(false);
                }
                return Err(e);
            },
        };
        let round_count = self.rounds.len();
        proof {
            assert(rr < round_count as u64);
        }
        let eligible_to_submit = details.max_submissions != 0 && valid;
        Ok(
            OracleRoundState {
                eligible_to_submit,
                round_id: rr,
                latest_submission: st.latest_submission,
                started_at: self.rounds[rr as usize].started_at,
                timeout: details.timeout,
                available_funds: self.recorded_funds.available,
                oracle_count: round_count_to_u64(self.oracles.len()),
                payment_amount: details.payment_amount,
            },
        )
    }

    /// The round-state report for `oracle` and round `queried`, or the
    /// suggested round when `queried` is zero (see
    /// [`Self::oracle_round_state_result`]).
    pub fn oracle_round_state(&self, oracle: u64, queried_round_id: u64, now: u64) -> (r: Result<
        OracleRoundState,
        AggregatorError,
    >)
        requires
            self.wf(),
        ensures
            match r {
                Ok(state) => self.oracle_round_state_result(oracle, queried_round_id, now) == Ok::<
                    crate::aggregator_data::OracleRoundStateModel,
                    AggregatorError,
                >(state@),
                Err(e) => self.oracle_round_state_result(oracle, queried_round_id, now) == Err::<
                    crate::aggregator_data::OracleRoundStateModel,
                    AggregatorError,
                >(e),
            },
    {
        if queried_round_id == 0 {
            return self.oracle_round_state_suggest_round(oracle, now);
        }
        let eligible_to_submit = match self.eligible_for_specific_round(
            oracle,
            queried_round_id,
            now,
        ) {
            Ok(b) => b,
            Err(e) => {
                return Err(e);
            },
        };
        let round = match self.get_round(queried_round_id) {
            Ok(round) => round,
            Err(e) => {
                return Err(e);
            },
        };
        let details = match self.get_round_details(queried_round_id) {
            Ok(d) => d,
            Err(e) => {
                return Err(e);
            },
        };
        let st = match self.get_oracle_status_result(oracle) {
            Ok(st) => st,
            Err(e) => {
                return Err(e);
            },
        };
        let payment_amount = if round.started_at > 0 {
            details.payment_amount
        } else {
            self.payment_amount
        };
        Ok(
            OracleRoundState {
                eligible_to_submit,
                round_id: queried_round_id,
                latest_submission: st.latest_submission,
                started_at: round.started_at,
                timeout: details.timeout,
                available_funds: self.recorded_funds.available,
                oracle_count: round_count_to_u64(self.oracles.len()),
                payment_amount,
            },
        )
    }

    /// The recorded deposit of `address` (zero when it never deposited).
    pub fn get_deposit(&self, address: u64) -> (r: u64)
        requires
            self.wf(),
        ensures
            r == self.deposit_of(address),
    {
        match crate::keyed::find_key(&self.deposits, address) {
            Some(i) => self.deposits[i].1,
            None => 0,
        }
    }
}

/// Copies a byte vector.
pub fn clone_bytes(v: &Vec<u8>) -> (r: Vec<u8>)
    ensures
        r@ == v@,
{
    let mut r: Vec<u8> = Vec::new();
    let mut i: usize = 0;
    while i < v.len()
        invariant
            i <= v@.len(),
            r@ == v@.take(i as int),
        decreases v@.len() - i,
    {
        r.push(v[i]);
        proof {
            assert(r@ =~= v@.take(i as int + 1));
        }
        i = i + 1;
    }
    proof {
        assert(v@.take(v@.len() as int) =~= v@);
    }
    r
}

/// Copies a value vector.
pub fn clone_values(v: &Vec<u64>) -> (r: Vec<u64>)
    ensures
        r@ == v@,
{
    let mut r: Vec<u64> = Vec::new();
    let mut i: usize = 0;
    while i < v.len()
        invariant
            i <= v@.len(),
            r@ == v@.take(i as int),
        decreases v@.len() - i,
    {
        r.push(v[i]);
        proof {
            assert(r@ =~= v@.take(i as int + 1));
        }
        i = i + 1;
    }
    proof {
        assert(v@.take(v@.len() as int) =~= v@);
    }
    r
}

/// Copies a submission.
pub fn clone_submission(s: &Submission) -> (r: Submission)
    ensures
        r@ == s@,
{
    Submission { values: clone_values(&s.values) }
}

/// Copies an optional submission.
pub fn clone_opt_submission(s: &Option<Submission>) -> (r: Option<Submission>)
    ensures
        r.deep_view() == s.deep_view(),
{
    match s {
        Some(sub) => Some(clone_submission(sub)),
        None => None,
    }
}

/// Copies a round record.
pub fn clone_round(round: &Round) -> (r: Round)
    ensures
        r@ == round@,
{
    Round {
        round_id: round.round_id,
        answer: clone_opt_submission(&round.answer),
        decimals: round.decimals,
        description: clone_bytes(&round.description),
        started_at: round.started_at,
        updated_at: round.updated_at,
        answered_in_round: round.answered_in_round,
    }
}

/// Copies a batch of submissions.
pub fn clone_submissions(v: &Vec<Submission>) -> (r: Vec<Submission>)
    ensures
        r.deep_view() == v.deep_view(),
{
    let mut r: Vec<Submission> = Vec::new();
    let mut i: usize = 0;
    while i < v.len()
        invariant
            i <= v@.len(),
            r@.len() == i,
            forall|k: int| 0 <= k < i ==> (#[trigger] r@[k])@ == v@[k]@,
        decreases v@.len() - i,
    {
        r.push(clone_submission(&v[i]));
        i = i + 1;
    }
    proof {
        assert(r.deep_view() =~= v.deep_view());
    }
    r
}

/// Copies a round's details record.
pub fn clone_round_details(d: &RoundDetails) -> (r: RoundDetails)
    ensures
        r@ == d@,
{
    RoundDetails {
        submissions: clone_submissions(&d.submissions),
        max_submissions: d.max_submissions,
        min_submissions: d.min_submissions,
        timeout: d.timeout,
        payment_amount: d.payment_amount,
    }
}

/// The reserve guard: a parameter change is rejected outright whenever the
/// available balance falls short of the required reserve for the new payment
/// amount — no matter what the other parameters are.
pub proof fn lemma_reserve_guard(
    s: Aggregator,
    payment: u64,
    min_submissions: u64,
    max_submissions: u64,
    restart_delay: u64,
)
    requires
        s.recorded_funds.available < s.required_reserve_spec(payment),
    ensures
        future_rounds_check(
            s.oracles@.len() as int,
            s.recorded_funds.available,
            payment,
            min_submissions,
            max_submissions,
            restart_delay,
        ) is Err,
{
}

/// Double-submission rejection: a reporter recorded as having reported for
/// `round_id` — as every successful `submit` for `round_id` records — has any
/// further submission for the same round rejected as a report on a previous
/// round, whatever values it carries and whenever it arrives.
pub proof fn lemma_double_submission_rejected(
    s: Aggregator,
    caller: u64,
    round_id: u64,
    values: Seq<u64>,
    now: u64,
)
    requires
        values.len() == s.values_count,
        s.oracle_model_of(caller) matches Some(st) && st.last_reported_round >= round_id
            && st.starting_round != 0 && st.starting_round <= round_id <= st.ending_round,
    ensures
        s.submit_result(caller, round_id, values, now) == Err::<(), AggregatorError>(
            AggregatorError::PreviouslyReported,
        ),
{
}

/// The restart-delay throttle: a reporter that opened a round within the last
/// `restart_delay` rounds cannot open another one, so a submission by it
/// never advances the reporting round.  A reporter that never opened a round
/// is exempt.
pub proof fn lemma_restart_delay_throttle(s: Aggregator, oracle: u64, round_id: u64)
    requires
        s.oracle_model_of(oracle) matches Some(st) && st.last_started_round != 0 && round_id
            <= st.last_started_round + s.restart_delay,
    ensures
        !s.oracle_will_initialize(oracle, round_id),
{
}

/// Converts a table length to the 64-bit count the reports carry.
fn round_count_to_u64(n: usize) -> (r: u64)
    ensures
        r == n as u64,
{
    n as u64
}

/// Copies the reporter table.
pub fn clone_oracles_table(v: &Vec<(u64, OracleStatus)>) -> (r: Vec<(u64, OracleStatus)>)
    ensures
        r@.len() == v@.len(),
        forall|k: int|
            0 <= k < v@.len() ==> (#[trigger] r@[k]).0 == v@[k].0 && r@[k].1@ == v@[k].1@,
{
    let mut r: Vec<(u64, OracleStatus)> = Vec::new();
    let mut i: usize = 0;
    while i < v.len()
        invariant
            i <= v@.len(),
            r@.len() == i,
            forall|k: int| 0 <= k < i ==> (#[trigger] r@[k]).0 == v@[k].0 && r@[k].1@ == v@[k].1@,
        decreases v@.len() - i,
    {
        r.push((v[i].0, clone_oracle_status(&v[i].1)));
        i = i + 1;
    }
    r
}

/// Copies a reporter's registry entry.
pub fn clone_oracle_status(st: &OracleStatus) -> (r: OracleStatus)
    ensures
        r@ == st@,
{
    OracleStatus {
        withdrawable: st.withdrawable,
        starting_round: st.starting_round,
        ending_round: st.ending_round,
        last_reported_round: st.last_reported_round,
        last_started_round: st.last_started_round,
        latest_submission: clone_opt_submission(&st.latest_submission),
        admin: st.admin,
        pending_admin: st.pending_admin,
    }
}

} // verus!
