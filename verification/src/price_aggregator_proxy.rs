//! The consumer-side view of a per-pair aggregator: a module that other
//! contracts mix in to fetch the latest price for a token pair, and a small
//! test harness contract built on it.

use vstd::prelude::*;

verus! {

use vstd::string::StringSliceAdditionalSpecFns;

/// The flat tuple a price-feed query answers with: round id, the two token
/// tickers, the price and its decimals.
pub type AggregatorFeedTuple = (u32, Vec<u8>, Vec<u8>, u64, u8);

/// The ticker of the native token.
pub fn egld_ticker() -> (r: Vec<u8>)
    ensures
        r@ == ("EGLD").spec_bytes(),
{
    let mut r: Vec<u8> = Vec::new();
    crate::bytes::append_slice(&mut r, ("EGLD").as_bytes());
    proof {
        assert(r@ =~= ("EGLD").spec_bytes());
    }
    r
}

/// The ticker of the dollar side.
pub fn dollar_ticker() -> (r: Vec<u8>)
    ensures
        r@ == ("USD").spec_bytes(),
{
    let mut r: Vec<u8> = Vec::new();
    crate::bytes::append_slice(&mut r, ("USD").as_bytes());
    proof {
        assert(r@ =~= ("USD").spec_bytes());
    }
    r
}

/// The mathematical content of [`AggregatorResult`].
#[verifier::ext_equal]
pub ghost struct AggregatorResultModel {
    pub round_id: u32,
    pub from_token_name: Seq<u8>,
    pub to_token_name: Seq<u8>,
    pub price: u64,
    pub decimals: u8,
}

/// One fetched price feed, unpacked into named fields.
pub struct AggregatorResult {
    pub round_id: u32,
    pub from_token_name: Vec<u8>,
    pub to_token_name: Vec<u8>,
    pub price: u64,
    pub decimals: u8,
}

impl View for AggregatorResult {
    type V = AggregatorResultModel;

    open spec fn view(&self) -> AggregatorResultModel {
        AggregatorResultModel {
            round_id: self.round_id,
            from_token_name: self.from_token_name@,
            to_token_name: self.to_token_name@,
            price: self.price,
            decimals: self.decimals,
        }
    }
}

impl AggregatorResult {
    /// Unpacks the flat tuple a price-feed query answers with.
    pub fn from(multi_result: AggregatorFeedTuple) -> (r: AggregatorResult)
        ensures
            r@ == (AggregatorResultModel {
                round_id: multi_result.0,
                from_token_name: multi_result.1@,
                to_token_name: multi_result.2@,
                price: multi_result.3,
                decimals: multi_result.4,
            }),
    {
        let (round_id, from_token_name, to_token_name, price, decimals) = multi_result;
        AggregatorResult { round_id, from_token_name, to_token_name, price, decimals }
    }
}

/// The consumer module's own state: where the aggregator lives.
pub struct PriceAggregatorModule {
    pub owner: u64,
    pub price_aggregator_address: u64,
}

impl PriceAggregatorModule {
    /// A fresh module owned by `owner`, pointing nowhere yet.
    pub fn new(owner: u64) -> (r: PriceAggregatorModule)
        ensures
            r.owner == owner,
            r.price_aggregator_address == 0,
    {
        PriceAggregatorModule { owner, price_aggregator_address: 0 }
    }

    /// Points the module at an aggregator.  Only the owner may do this, and
    /// the host must vouch that the address carries a contract.
    pub fn set_price_aggregator_address(
        &mut self,
        caller: u64,
        address: u64,
        address_is_contract: bool,
    ) -> (r: Result<(), &'static str>)
        ensures
            caller != old(self).owner ==> r == Err::<(), &'static str>("only callable by owner")
                && *final(self) == *old(self),
            caller == old(self).owner && !address_is_contract ==> r == Err::<(), &'static str>(
                "Invalid price aggregator address",
            ) && *final(self) == *old(self),
            caller == old(self).owner && address_is_contract ==> r == Ok::<(), &'static str>(())
                && *final(self) == (PriceAggregatorModule {
                price_aggregator_address: address,
                ..*old(self)
            }),
    {
        if caller != self.owner {
            return Err("only callable by owner");
        }
        if !address_is_contract {
            return Err("Invalid price aggregator address");
        }
        self.price_aggregator_address = address;
        Ok(())
    }

    /// Whether a price query should be sent at all: a module pointing
    /// nowhere answers every query with nothing, without calling out.
    pub fn has_aggregator(&self) -> (r: bool)
        ensures
            r == (self.price_aggregator_address != 0),
    {
        self.price_aggregator_address != 0
    }

    /// Reads a fetched feed into the full result: nothing when the module
    /// points nowhere or the aggregator had nothing for the pair.
    pub fn get_full_result_for_pair(&self, fetched: Option<AggregatorFeedTuple>) -> (r: Option<
        AggregatorResult,
    >)
        ensures
            self.price_aggregator_address == 0 ==> r is None,
            self.price_aggregator_address != 0 ==> match (r, fetched) {
                (Some(result), Some(t)) => result@ == (AggregatorResultModel {
                    round_id: t.0,
                    from_token_name: t.1@,
                    to_token_name: t.2@,
                    price: t.3,
                    decimals: t.4,
                }),
                (None, None) => true,
                _ => false,
            },
    {
        if self.price_aggregator_address == 0 {
            return None;
        }
        match fetched {
            Some(t) => Some(AggregatorResult::from(t)),
            None => None,
        }
    }

    /// Reads a fetched feed into just the price.
    pub fn get_price_for_pair(&self, fetched: Option<AggregatorFeedTuple>) -> (r: Option<u64>)
        ensures
            self.price_aggregator_address == 0 ==> r is None,
            self.price_aggregator_address != 0 ==> match (r, fetched) {
                (Some(price), Some(t)) => price == t.3,
                (None, None) => true,
                _ => false,
            },
    {
        match self.get_full_result_for_pair(fetched) {
            Some(result) => Some(result.price),
            None => None,
        }
    }
}

/// A minimal contract mixing the consumer module in: it queries the native
/// token against the dollar.
pub struct ModuleTest {
    pub module: PriceAggregatorModule,
}

impl ModuleTest {
    /// A fresh harness pointing at the aggregator at `price_aggregator_address`.
    pub fn init(owner: u64, price_aggregator_address: u64) -> (r: ModuleTest)
        ensures
            r.module.owner == owner,
            r.module.price_aggregator_address == price_aggregator_address,
    {
        ModuleTest {
            module: PriceAggregatorModule { owner, price_aggregator_address },
        }
    }

    /// Reads a fetched native-against-dollar feed into its price, falling
    /// back to zero when there is none.
    pub fn call_price_aggregatpr(&self, fetched: Option<AggregatorFeedTuple>) -> (r: u64)
        ensures
            self.module.price_aggregator_address == 0 ==> r == 0,
            self.module.price_aggregator_address != 0 ==> match fetched {
                Some(t) => r == t.3,
                None => r == 0,
            },
    {
        match self.module.get_price_for_pair(fetched) {
            Some(price) => price,
            None => 0,
        }
    }
}

} // verus!
