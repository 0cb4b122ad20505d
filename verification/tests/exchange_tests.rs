use aggregator::aggregator_interface::Round;
use aggregator::aggregator_interface::Submission;
use aggregator::exchange::EgldEsdtExchange;
use aggregator::exchange::FetchResult;

fn answered_round(price: u64, decimals: u8, description: &[u8]) -> Round {
    Round {
        round_id: 1,
        answer: Some(Submission { values: vec![price] }),
        decimals,
        description: description.to_vec(),
        started_at: 100,
        updated_at: 110,
        answered_in_round: 1,
    }
}

fn balance_of(ex: &EgldEsdtExchange, token: &[u8]) -> u128 {
    ex.balance
        .iter()
        .find(|e| e.0 == token)
        .map(|e| e.1)
        .unwrap_or(0)
}

#[test]
fn deposit_is_owner_only() {
    let mut ex = EgldEsdtExchange::init(1, 5);
    let err = ex.deposit(2, &b"TOKA".to_vec(), 100).unwrap_err();
    assert_eq!(err, b"only callable by owner".to_vec());
    assert_eq!(ex.deposit(1, &b"TOKA".to_vec(), 100), Ok(()));
    assert_eq!(balance_of(&ex, b"TOKA"), 100);
}

#[test]
fn exchange_validates_payment_and_tokens() {
    let mut ex = EgldEsdtExchange::init(1, 5);
    ex.deposit(1, &b"TOKA".to_vec(), 1_000_000).unwrap();

    let err = ex.exchange(7, 0, b"TOKA".to_vec(), b"/TOKB".to_vec()).unwrap_err();
    assert_eq!(err, b"Payment must be more than 0".to_vec());
    let err = ex.exchange(7, 100, b"MISSING".to_vec(), b"/TOKB".to_vec()).unwrap_err();
    assert_eq!(err, b"ESDT provided as payment not supported by the exchange".to_vec());
    let err = ex.exchange(7, 100, b"TOKA".to_vec(), b"/TOKB".to_vec()).unwrap_err();
    assert_eq!(err, b"Target ESDT token not supported by the exchange".to_vec());
}

#[test]
fn exchange_round_trip_with_answer() {
    let mut ex = EgldEsdtExchange::init(1, 5);
    ex.deposit(1, &b"TOKA".to_vec(), 1_000_000).unwrap();
    ex.deposit(1, &b"/TOKB".to_vec(), 1_000_000).unwrap();

    let request = ex.exchange(7, 100, b"TOKA".to_vec(), b"/TOKB".to_vec()).unwrap();
    assert_eq!(request.caller, 7);
    assert_eq!(request.payment, 100);
    assert_eq!(balance_of(&ex, b"TOKA"), 1_000_100);

    // the aggregator answers: 2.0000 TOKB per TOKA (4 decimals)
    let fetch = FetchResult::Answer(Some(answered_round(20_000, 4, b"TOKA/TOKB")));
    let transfer = ex.finalize_exchange(
        &fetch,
        request.caller,
        request.payment,
        &request.source_token,
        &request.target_token,
    );
    assert_eq!(transfer.to, 7);
    assert_eq!(transfer.token, b"/TOKB".to_vec());
    assert_eq!(transfer.amount, 200);
    assert_eq!(
        String::from_utf8(transfer.message).unwrap(),
        "exchange succesful (conversion from 100 of TOKA, using exchange rate 2.0000, \
         results in 200 of /TOKB)"
    );
    assert_eq!(balance_of(&ex, b"/TOKB"), 999_800);
}

#[test]
fn exchange_refunds_on_failed_fetch() {
    let mut ex = EgldEsdtExchange::init(1, 5);
    ex.deposit(1, &b"TOKA".to_vec(), 1_000).unwrap();
    ex.deposit(1, &b"/TOKB".to_vec(), 1_000).unwrap();

    let request = ex.exchange(7, 100, b"TOKA".to_vec(), b"/TOKB".to_vec()).unwrap();
    assert_eq!(balance_of(&ex, b"TOKA"), 1_100);

    let fetch = FetchResult::Failed(b"boom".to_vec());
    let transfer = ex.finalize_exchange(
        &fetch,
        request.caller,
        request.payment,
        &request.source_token,
        &request.target_token,
    );
    assert_eq!(transfer.to, 7);
    assert_eq!(transfer.token, b"TOKA".to_vec());
    assert_eq!(transfer.amount, 100);
    assert_eq!(
        String::from_utf8(transfer.message).unwrap(),
        "refund (Error when getting the price feed from the aggregator: boom)"
    );
    // the provisional credit was taken back
    assert_eq!(balance_of(&ex, b"TOKA"), 1_000);
}

#[test]
fn exchange_refunds_on_unusable_answer() {
    let mut ex = EgldEsdtExchange::init(1, 5);
    ex.deposit(1, &b"TOKA".to_vec(), 1_000).unwrap();
    ex.deposit(1, &b"/TOKB".to_vec(), 1_000).unwrap();
    let request = ex.exchange(7, 100, b"TOKA".to_vec(), b"/TOKB".to_vec()).unwrap();

    // no round at all: the transfer refunds the payment
    let transfer = ex.finalize_exchange(
        &FetchResult::Answer(None),
        request.caller,
        request.payment,
        &request.source_token,
        &request.target_token,
    );
    assert_eq!(String::from_utf8(transfer.message).unwrap(), "refund (no round data)");
    assert_eq!(transfer.amount, 100);
    assert_eq!(transfer.token, b"TOKA".to_vec());

    // a description that does not pair the two tokens is refused
    let fetch = FetchResult::Answer(Some(answered_round(20_000, 4, b"XXX/YYY")));
    let transfer = ex.finalize_exchange(
        &fetch,
        request.caller,
        request.payment,
        &request.source_token,
        &request.target_token,
    );
    assert_eq!(
        String::from_utf8(transfer.message).unwrap(),
        "refund (Exchange between chosen token types not supported.)"
    );
}
