use aggregator::client::Client;
use aggregator::oracle::Oracle;
use aggregator::oracle::OracleError;
use aggregator::price_aggregator_proxy::AggregatorResult;
use aggregator::price_aggregator_proxy::ModuleTest;
use aggregator::price_aggregator_proxy::PriceAggregatorModule;

#[test]
fn client_request_reply_round_trip() {
    let mut client = Client::init(50);
    assert!(client.get_client_data().is_none());

    let request = client.send_request(60);
    assert_eq!(request.callback_address, 60);
    assert_eq!(request.callback_method, b"reply".to_vec());
    assert_eq!(request.nonce, 0);
    assert_eq!(client.nonce, 1);

    // only the oracle may deliver an answer
    assert_eq!(client.reply(51, 0, b"hi".to_vec()), Err("Only oracle can reply"));
    assert!(client.get_client_data().is_none());
    assert_eq!(client.reply(50, 0, b"hi".to_vec()), Ok(()));
    let data = client.get_client_data().unwrap();
    assert_eq!(data.nonce, 0);
    assert_eq!(data.answer, b"hi".to_vec());
}

#[test]
fn oracle_files_and_fulfills_requests() {
    let mut oracle = Oracle::init(1);

    // authorization is owner-managed and rejects duplicates
    assert_eq!(oracle.add_authorization(2, 40), Err(OracleError::OnlyOwner));
    assert_eq!(oracle.add_authorization(1, 40), Ok(()));
    assert_eq!(oracle.add_authorization(1, 40), Err(OracleError::AlreadyAuthorized));

    // the first request of an account must carry nonce zero
    assert_eq!(
        oracle.request(60, 60, b"reply".to_vec(), 5, b"q".to_vec()),
        Err(OracleError::InvalidNonce)
    );
    assert_eq!(oracle.request(60, 60, b"reply".to_vec(), 0, b"q".to_vec()), Ok(()));
    assert_eq!(
        oracle.request(60, 60, b"reply".to_vec(), 0, b"q".to_vec()),
        Err(OracleError::ExistingRequest)
    );
    assert_eq!(oracle.request(60, 60, b"reply".to_vec(), 1, b"q2".to_vec()), Ok(()));

    let listed = oracle.requests_as_vec();
    assert_eq!(listed.len(), 2);
    assert_eq!(listed[0].address, 60);
    assert_eq!(listed[0].nonce, 0);
    assert_eq!(listed[0].data, b"q".to_vec());
    assert_eq!(listed[1].nonce, 1);

    // only authorized nodes fulfill, and each request only once
    assert_eq!(
        oracle.fulfill_request(99, 60, 0, b"a".to_vec()).map(|c| c.nonce).unwrap_err(),
        OracleError::NotAuthorizedNode
    );
    assert_eq!(
        oracle.fulfill_request(40, 61, 0, b"a".to_vec()).map(|c| c.nonce).unwrap_err(),
        OracleError::AccountNotFound
    );
    let call = oracle.fulfill_request(40, 60, 0, b"a".to_vec()).unwrap();
    assert_eq!(call.callback_address, 60);
    assert_eq!(call.nonce, 0);
    assert_eq!(call.data, b"a".to_vec());
    assert_eq!(
        oracle.fulfill_request(40, 60, 0, b"a".to_vec()).map(|c| c.nonce).unwrap_err(),
        OracleError::RequestNotFound
    );
    assert_eq!(oracle.requests_as_vec().len(), 1);

    // the owner-side aggregator submission wraps one value
    let submit = oracle.submit(1, 5, 3, 42).unwrap();
    assert_eq!((submit.aggregator, submit.round_id), (5, 3));
    assert_eq!(submit.values, vec![42]);
    assert_eq!(oracle.submit(2, 5, 3, 42).map(|c| c.round_id).unwrap_err(), OracleError::OnlyOwner);

    // authorization can be withdrawn exactly once
    assert_eq!(oracle.remove_authorization(1, 40), Ok(()));
    assert_eq!(oracle.remove_authorization(1, 40), Err(OracleError::AuthorizationNotFound));
}

#[test]
fn proxy_module_reads_fetched_feeds() {
    let mut module = PriceAggregatorModule::new(1);
    assert_eq!(
        module.set_price_aggregator_address(2, 9, true),
        Err("only callable by owner")
    );
    assert_eq!(
        module.set_price_aggregator_address(1, 9, false),
        Err("Invalid price aggregator address")
    );
    // a module pointing nowhere answers nothing and asks nothing
    assert!(!module.has_aggregator());
    let tuple = (3u32, b"EGLD".to_vec(), b"USD".to_vec(), 12_345u64, 2u8);
    assert!(module.get_price_for_pair(Some(tuple.clone())).is_none());

    assert_eq!(module.set_price_aggregator_address(1, 9, true), Ok(()));
    assert!(module.has_aggregator());
    assert_eq!(module.get_price_for_pair(Some(tuple.clone())), Some(12_345));
    let full = module.get_full_result_for_pair(Some(tuple.clone())).unwrap();
    assert_eq!(full.round_id, 3);
    assert_eq!(full.price, 12_345);
    assert_eq!(full.decimals, 2);

    let unpacked = AggregatorResult::from(tuple);
    assert_eq!(unpacked.from_token_name, b"EGLD".to_vec());
    assert_eq!(unpacked.to_token_name, b"USD".to_vec());

    let harness = ModuleTest::init(1, 9);
    let feed = (1u32, b"EGLD".to_vec(), b"USD".to_vec(), 777u64, 0u8);
    assert_eq!(harness.call_price_aggregatpr(Some(feed)), 777);
    assert_eq!(harness.call_price_aggregatpr(None), 0);
}
