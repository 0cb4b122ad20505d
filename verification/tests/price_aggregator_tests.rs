use aggregator::price_aggregator::PriceAggregator;
use aggregator::price_aggregator::PriceAggregatorError;
use aggregator::price_aggregator_data::TokenPair;

fn egld_usd() -> (Vec<u8>, Vec<u8>) {
    (b"EGLD".to_vec(), b"USDC".to_vec())
}

fn oracle_counters(agg: &PriceAggregator, oracle: u64) -> (u64, u64) {
    let entry = agg
        .oracle_status
        .iter()
        .find(|e| e.0 == oracle)
        .expect("oracle registered");
    (entry.1.accepted_submissions, entry.1.total_submissions)
}

#[test]
fn submit_counts_and_duplicates() {
    let mut agg = PriceAggregator::new(1);
    agg.init(3, 0, vec![10, 11, 12, 13]);
    let (from, to) = egld_usd();

    // only registered reporters may submit
    assert_eq!(agg.submit(99, &from, &to, 100), Err(PriceAggregatorError::OnlyOracles));

    assert_eq!(agg.submit(10, &from, &to, 100), Ok(()));
    assert_eq!(oracle_counters(&agg, 10), (1, 1));

    // a repeated submission by the same reporter overwrites its price and is
    // not counted as accepted
    assert_eq!(agg.submit(10, &from, &to, 100), Ok(()));
    assert_eq!(oracle_counters(&agg, 10), (1, 2));

    // re-initializing keeps registered reporters' counters
    agg.init(3, 0, vec![10, 14]);
    assert_eq!(oracle_counters(&agg, 10), (1, 2));
    assert_eq!(oracle_counters(&agg, 14), (0, 0));
}

#[test]
fn round_completes_at_submission_count() {
    let mut agg = PriceAggregator::new(1);
    agg.init(3, 0, vec![10, 11, 12, 13]);
    let (from, to) = egld_usd();

    assert_eq!(
        agg.latest_round_data().map(|feeds| feeds.len()).unwrap_err(),
        PriceAggregatorError::NoCompletedRounds
    );
    assert_eq!(agg.submit(10, &from, &to, 10_000), Ok(()));
    assert_eq!(agg.submit(11, &from, &to, 11_000), Ok(()));
    assert_eq!(agg.latest_price_feed(&from, &to), Err(PriceAggregatorError::TokenPairNotFound));

    // the third submission completes the round with the median price
    assert_eq!(agg.submit(12, &from, &to, 12_000), Ok(()));
    let (round_id, feed_from, feed_to, price, decimals) =
        agg.latest_price_feed(&from, &to).unwrap();
    assert_eq!(round_id, 1);
    assert_eq!(feed_from, from);
    assert_eq!(feed_to, to);
    assert_eq!(price, 11_000);
    assert_eq!(decimals, 0);

    // the pair's open submissions were cleared with the completed round
    let pair_entry = agg
        .submissions
        .iter()
        .find(|e| e.0.from == from && e.0.to == to)
        .expect("pair tracked");
    assert_eq!(pair_entry.1.len(), 0);

    let feeds = agg.latest_round_data().unwrap();
    assert_eq!(feeds.len(), 1);
    assert_eq!(feeds[0].price, 11_000);
    assert_eq!(feeds[0].round_id, 1);

    assert!(agg.latest_price_feed_optional(&to, &from).is_none());
}

#[test]
fn submit_batch_covers_two_pairs() {
    let mut agg = PriceAggregator::new(1);
    agg.init(1, 2, vec![10]);
    let items = vec![
        (TokenPair { from: b"EGLD".to_vec(), to: b"USDC".to_vec() }, 5_000),
        (TokenPair { from: b"BTC".to_vec(), to: b"USDC".to_vec() }, 9_000),
    ];
    assert_eq!(agg.submit_batch(99, &items), Err(PriceAggregatorError::OnlyOracles));
    assert_eq!(agg.submit_batch(10, &items), Ok(()));

    let egld = agg.latest_price_feed(&b"EGLD".to_vec(), &b"USDC".to_vec()).unwrap();
    assert_eq!((egld.0, egld.3, egld.4), (1, 5_000, 2));
    let btc = agg.latest_price_feed(&b"BTC".to_vec(), &b"USDC".to_vec()).unwrap();
    assert_eq!((btc.0, btc.3), (1, 9_000));
}

#[test]
fn set_submission_count_is_owner_only() {
    let mut agg = PriceAggregator::new(1);
    agg.init(3, 0, vec![10]);
    assert_eq!(agg.set_submission_count(2, 5), Err(PriceAggregatorError::OnlyOwner));
    assert_eq!(agg.set_submission_count(1, 5), Ok(()));
    assert_eq!(agg.submission_count, 5);
}
