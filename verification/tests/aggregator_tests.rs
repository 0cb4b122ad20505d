use aggregator::aggregator::Aggregator;
use aggregator::aggregator::AggregatorError;

fn fresh_aggregator() -> Aggregator {
    Aggregator::init(
        1,                          // owner
        7,                          // token id
        10,                         // payment amount
        5,                          // timeout
        1,                          // min submission value
        1_000_000,                  // max submission value
        0,                          // decimals
        b"EGLD/USD".to_vec(),       // description
        1,                          // values per submission
        100,                        // now
    )
}

#[test]
fn round_lifecycle_and_funds() {
    let mut agg = fresh_aggregator();

    // deposits in the wrong token are rejected; good ones fund the ledger
    assert_eq!(agg.add_funds(2, 8, 5), Err(AggregatorError::WrongTokenType));
    assert_eq!(agg.add_funds(2, 7, 1000), Ok(()));
    assert_eq!(agg.available_funds(), 1000);
    assert_eq!(agg.allocated_funds(), 0);

    // register three reporters
    assert_eq!(
        agg.change_oracles(1, vec![], vec![10, 11, 12], vec![20, 21, 22], 2, 3, 1),
        Ok(())
    );
    assert_eq!(agg.oracle_count(), 3);
    assert_eq!(agg.get_oracles(), vec![10, 11, 12]);

    // the required reserve backs two rounds' rewards for every reporter
    assert_eq!(agg.required_reserve(100), 600);

    // the reserve guard rejects a payment the balance cannot back
    assert_eq!(
        agg.update_future_rounds(1, 200, 2, 3, 1, 5),
        Err(AggregatorError::InsufficientFundsForPayment)
    );
    // only the owner may reconfigure
    assert_eq!(agg.update_future_rounds(99, 10, 2, 3, 1, 5), Err(AggregatorError::OnlyOwner));
    assert_eq!(agg.update_future_rounds(1, 100, 2, 3, 1, 5), Ok(()));

    // out-of-range values are rejected before anything changes
    assert_eq!(
        agg.submit(10, 1, vec![0], 110),
        Err(AggregatorError::ValueBelowMinSubmissionValue)
    );
    assert_eq!(
        agg.submit(10, 1, vec![2_000_000], 110),
        Err(AggregatorError::ValueAboveMaxSubmissionValue)
    );
    assert_eq!(agg.submit(10, 1, vec![500, 501], 110), Err(AggregatorError::WrongNumberOfValues));
    assert_eq!(agg.submit(99, 1, vec![500], 110), Err(AggregatorError::NoOracleAtAddress));

    // the first submission opens round 1 and pays the reporter
    assert_eq!(agg.submit(10, 1, vec![500], 110), Ok(()));
    assert_eq!(agg.reporting_round_id, 1);
    assert_eq!(agg.available_funds(), 900);
    assert_eq!(agg.allocated_funds(), 100);
    assert_eq!(agg.withdrawable_payment(10), Ok(100));

    // double submission for the same round is rejected
    assert_eq!(agg.submit(10, 1, vec![501], 111), Err(AggregatorError::PreviouslyReported));

    // the second submission reaches the minimum and finalizes the answer
    assert_eq!(agg.submit(11, 1, vec![600], 112), Ok(()));
    let latest = agg.latest_round_data().unwrap();
    assert_eq!(latest.round_id, 1);
    assert_eq!(latest.answered_in_round, 1);
    assert_eq!(latest.answer.as_ref().unwrap().values, vec![550]);
    assert_eq!(agg.available_funds(), 800);
    assert_eq!(agg.allocated_funds(), 200);

    // funds conservation: submissions only move value inside the ledger
    assert_eq!(agg.available_funds() + agg.allocated_funds(), 1000);

    // reward withdrawal, only by the reporter's admin and within balance
    assert_eq!(agg.withdraw_payment(21, 10, 1), Err(AggregatorError::OnlyCallableByAdmin));
    assert_eq!(agg.withdraw_payment(20, 10, 60), Ok(()));
    assert_eq!(
        agg.withdraw_payment(20, 10, 100),
        Err(AggregatorError::InsufficientWithdrawableFunds)
    );
    assert_eq!(agg.allocated_funds(), 140);

    // two-phase admin transfer
    assert_eq!(agg.transfer_admin(99, 10, 33), Err(AggregatorError::OnlyCallableByAdmin));
    assert_eq!(agg.transfer_admin(20, 10, 33), Ok(()));
    assert_eq!(agg.accept_admin(34, 10), Err(AggregatorError::OnlyCallableByPendingAdmin));
    assert_eq!(agg.accept_admin(33, 10), Ok(()));
    assert_eq!(agg.get_admin(10), Ok(33));

    // restart-delay throttle: reporter 10 just opened round 1 and the delay
    // is 1, so it cannot open round 2; the round stays unopened
    assert_eq!(agg.submit(10, 2, vec![700], 113), Err(AggregatorError::NoRoundDetailsForId));
    assert_eq!(agg.reporting_round_id, 1);

    // a reporter that never opened a round may open round 2
    assert_eq!(agg.submit(12, 2, vec![700], 113), Ok(()));
    assert_eq!(agg.reporting_round_id, 2);
    assert_eq!(agg.available_funds(), 700);

    // timeout carry-forward: round 2 times out unanswered (one submission,
    // timeout 5, opened at 113); opening round 3 at 130 closes it out with
    // round 1's answer
    assert_eq!(agg.submit(11, 3, vec![800], 130), Ok(()));
    let round2 = agg.get_round_data(2).unwrap();
    assert_eq!(round2.answer.as_ref().unwrap().values, vec![550]);
    assert_eq!(round2.answered_in_round, 1);
    assert_eq!(round2.updated_at, 130);

    // the retired round's details are gone, so its state can no longer be
    // queried
    assert_eq!(
        agg.oracle_round_state(12, 2, 131).map(|state| state.round_id).unwrap_err(),
        AggregatorError::NoRoundDetailsForId
    );

    // requester-driven round: authorized requesters may open the next round
    // once the current one is supersedable
    assert_eq!(agg.request_new_round(30, 200), Err(AggregatorError::NotAuthorizedRequester));
    assert_eq!(agg.set_requester_permissions(1, 30, true, 0), Ok(()));
    assert_eq!(agg.request_new_round(30, 200), Ok(4));
    assert_eq!(agg.reporting_round_id, 4);

    // withdrawing deposited funds respects the deposit and the reserve
    assert_eq!(agg.withdraw_funds(2, 700), Err(AggregatorError::InsufficientFundsToWithdraw));
    assert_eq!(agg.withdraw_funds(2, 50), Err(AggregatorError::InsufficientReserveFunds));
    assert_eq!(agg.update_future_rounds(1, 10, 2, 3, 1, 5), Ok(()));
    assert_eq!(agg.withdraw_funds(2, 50), Ok(()));
    assert_eq!(agg.get_deposit(2), 550);
    assert_eq!(agg.available_funds(), 550);

    // the ledger total moved only by the two withdrawals
    assert_eq!(agg.available_funds() + agg.allocated_funds(), 890);

    // re-granting permissions resets the requester's cool-down, so it may
    // open round 5
    assert_eq!(agg.set_requester_permissions(1, 30, true, 5), Ok(()));
    assert_eq!(agg.request_new_round(30, 300), Ok(5));
    // round 5 is open and unanswered, so no round can follow it yet
    assert_eq!(
        agg.request_new_round(30, 301),
        Err(AggregatorError::PrevRoundMustBeSupersedable)
    );
    // once round 5 has timed out, the requester's own delay still throttles it
    assert_eq!(agg.request_new_round(30, 400), Err(AggregatorError::MustDelayRequests));

    // a round that never existed cannot be queried
    assert!(agg.get_round_data(99).is_none());
    assert_eq!(
        agg.oracle_round_state(12, 99, 300).map(|state| state.round_id).unwrap_err(),
        AggregatorError::NoRoundForId
    );
}

#[test]
fn sequencing_and_eligibility_errors() {
    // a long timeout, so open rounds stay un-supersedable for a while
    let mut agg = Aggregator::init(1, 7, 10, 1000, 1, 1_000_000, 0, b"A/B".to_vec(), 1, 100);
    assert_eq!(agg.add_funds(2, 7, 1000), Ok(()));
    assert_eq!(agg.change_oracles(1, vec![], vec![10, 11], vec![20, 21], 2, 2, 1), Ok(()));

    // a deposit the ledger cannot record is rejected
    assert_eq!(agg.add_funds(2, 7, u64::MAX), Err(AggregatorError::LedgerCapacityExceeded));

    // only the current round, the next one, or next-after-unanswered may be
    // reported on
    assert_eq!(agg.submit(10, 5, vec![500], 110), Err(AggregatorError::InvalidRoundToReport));

    // round 1 opens but stays unanswered (one of two needed submissions), so
    // neither a reporter nor a requester can open round 2 yet
    assert_eq!(agg.submit(10, 1, vec![500], 110), Ok(()));
    let round1 = agg.get_round_data(1).unwrap();
    assert_eq!(round1.started_at, 110);
    assert_eq!(round1.updated_at, 0);
    assert!(round1.answer.is_none());
    assert_eq!(round1.answered_in_round, 0);
    assert_eq!(
        agg.submit(11, 2, vec![600], 111),
        Err(AggregatorError::PreviousRoundNotSupersedable)
    );
    assert_eq!(agg.set_requester_permissions(1, 30, true, 0), Ok(()));
    assert_eq!(agg.request_new_round(30, 111), Err(AggregatorError::PrevRoundMustBeSupersedable));

    // a reporter added now is only enabled from the next round on
    assert_eq!(agg.change_oracles(1, vec![], vec![12], vec![22], 2, 3, 1), Ok(()));
    assert_eq!(agg.submit(12, 1, vec![700], 112), Err(AggregatorError::NotYetEnabledOracle));

    // the second submission answers round 1
    assert_eq!(agg.submit(11, 1, vec![600], 112), Ok(()));
    let latest = agg.latest_round_data().unwrap();
    assert_eq!(latest.answer.as_ref().unwrap().values, vec![550]);
    assert_eq!(latest.updated_at, 112);
}

#[test]
fn retired_round_does_not_block_the_next() {
    let mut agg = fresh_aggregator();
    assert_eq!(agg.add_funds(2, 7, 1000), Ok(()));
    // two reporters, and a round retires as soon as both have submitted
    assert_eq!(agg.change_oracles(1, vec![], vec![10, 11], vec![20, 21], 2, 2, 1), Ok(()));
    assert_eq!(agg.update_future_rounds(1, 100, 2, 2, 1, 5), Ok(()));

    assert_eq!(agg.submit(10, 1, vec![500], 110), Ok(()));
    assert_eq!(agg.submit(11, 1, vec![600], 112), Ok(()));

    // round 1 is full: answered, and its details are purged
    let round1 = agg.get_round_data(1).unwrap();
    assert_eq!(round1.answer.as_ref().unwrap().values, vec![550]);

    // the retired round is supersedable by virtue of being answered, so
    // round 2 opens normally, and round 1 keeps its answer
    assert_eq!(agg.submit(11, 2, vec![700], 113), Ok(()));
    assert_eq!(agg.reporting_round_id, 2);
    let round1 = agg.get_round_data(1).unwrap();
    assert_eq!(round1.answer.as_ref().unwrap().values, vec![550]);
    assert_eq!(round1.answered_in_round, 1);
    assert_eq!(round1.updated_at, 112);
}

#[test]
fn late_submission_to_round_before_unanswered_current() {
    let mut agg = fresh_aggregator();
    assert_eq!(agg.add_funds(2, 7, 1000), Ok(()));
    assert_eq!(
        agg.change_oracles(1, vec![], vec![10, 11, 12, 13], vec![20, 21, 22, 23], 2, 3, 1),
        Ok(())
    );

    // round 1 answers with two of at most three submissions
    assert_eq!(agg.submit(10, 1, vec![500], 110), Ok(()));
    assert_eq!(agg.submit(11, 1, vec![600], 112), Ok(()));

    // round 2 opens before round 1 times out and stays unanswered
    assert_eq!(agg.submit(12, 2, vec![900], 113), Ok(()));

    // round 1 immediately precedes the unanswered current round, so a late
    // submission to it is still accepted and its answer is recomputed
    assert_eq!(agg.submit(13, 1, vec![700], 114), Ok(()));
    let round1 = agg.get_round_data(1).unwrap();
    assert_eq!(round1.answer.as_ref().unwrap().values, vec![600]);
    assert_eq!(round1.answered_in_round, 1);
    assert_eq!(round1.updated_at, 114);
}

#[test]
fn change_oracles_rejects_duplicates() {
    let mut agg = fresh_aggregator();
    assert_eq!(agg.add_funds(2, 7, 1000), Ok(()));
    assert_eq!(
        agg.change_oracles(1, vec![], vec![10, 10], vec![20, 21], 1, 2, 1),
        Err(AggregatorError::OracleAlreadyEnabled)
    );
    assert_eq!(
        agg.change_oracles(1, vec![], vec![10], vec![20, 21], 1, 1, 0),
        Err(AggregatorError::OracleAdminCountMismatch)
    );
    assert_eq!(agg.change_oracles(99, vec![], vec![], vec![], 0, 0, 0), Err(AggregatorError::OnlyOwner));
    assert_eq!(agg.change_oracles(1, vec![], vec![10, 11], vec![20, 21], 0, 2, 1), Err(AggregatorError::MinMustBePositive));
    assert_eq!(agg.change_oracles(1, vec![], vec![10, 11], vec![20, 21], 2, 1, 1), Err(AggregatorError::MaxBelowMin));
    assert_eq!(agg.change_oracles(1, vec![], vec![10, 11], vec![20, 21], 2, 3, 1), Err(AggregatorError::MaxExceedsTotal));
    assert_eq!(agg.change_oracles(1, vec![], vec![10, 11], vec![20, 21], 2, 2, 2), Err(AggregatorError::DelayExceedsTotal));
    // a removal and a re-addition in the same call is fine
    assert_eq!(agg.change_oracles(1, vec![], vec![10, 11], vec![20, 21], 2, 2, 1), Ok(()));
    assert_eq!(agg.change_oracles(1, vec![10], vec![10], vec![25], 2, 2, 1), Ok(()));
    assert_eq!(agg.get_admin(10), Ok(25));
}

#[test]
fn error_messages_match() {
    assert_eq!(
        AggregatorError::PreviouslyReported.message(),
        "cannot report on previous rounds"
    );
    assert_eq!(AggregatorError::WrongTokenType.message(), "Wrong token type");
    assert_eq!(
        AggregatorError::InsufficientFundsForPayment.message(),
        "insufficient funds for payment"
    );
    assert_eq!(AggregatorError::MustDelayRequests.message(), "must delay requests");
}
