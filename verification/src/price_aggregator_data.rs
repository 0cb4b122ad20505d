//! The per-token-pair aggregator's record types.

use vstd::prelude::*;

verus! {

/// A pair of token tickers naming one price series.
pub struct TokenPair {
    pub from: Vec<u8>,
    pub to: Vec<u8>,
}

impl View for TokenPair {
    type V = (Seq<u8>, Seq<u8>);

    open spec fn view(&self) -> (Seq<u8>, Seq<u8>) {
        (self.from@, self.to@)
    }
}

/// The mathematical content of [`PriceFeed`].
#[verifier::ext_equal]
pub ghost struct PriceFeedModel {
    pub round_id: u32,
    pub from: Seq<u8>,
    pub to: Seq<u8>,
    pub price: u64,
    pub decimals: u8,
}

/// One pair's latest aggregated price, together with the round that produced
/// it.
pub struct PriceFeed {
    pub round_id: u32,
    pub from: Vec<u8>,
    pub to: Vec<u8>,
    pub price: u64,
    pub decimals: u8,
}

impl View for PriceFeed {
    type V = PriceFeedModel;

    open spec fn view(&self) -> PriceFeedModel {
        PriceFeedModel {
            round_id: self.round_id,
            from: self.from@,
            to: self.to@,
            price: self.price,
            decimals: self.decimals,
        }
    }
}

/// Per-reporter counters: how many submissions arrived and how many were
/// accepted (not duplicates within a round).
#[derive(Clone, Copy, PartialEq, Eq, Structural, Debug)]
pub struct OracleStatus {
    pub accepted_submissions: u64,
    pub total_submissions: u64,
}

} // verus!
