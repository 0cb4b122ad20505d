//! A round-based data-feed aggregation library.
//!
//! A set of allow-listed reporters ("oracles") submit numeric observations in
//! rounds; each round's answer is the statistical median of the accepted
//! submissions.  The library owns the round-lifecycle state machine, the
//! median engine, the reporter registry, the funds ledger that pays reporters
//! per accepted submission, and the companion per-token-pair aggregator.
//! Identities, token kinds and timestamps arrive from the host as plain
//! integers; all state transitions are verified.

pub mod aggregator;
pub mod aggregator_data;
pub mod aggregator_interface;
pub mod bytes;
pub mod client;
pub mod exchange;
pub mod keyed;
pub mod median;
pub mod oracle;
pub mod price_aggregator;
pub mod price_aggregator_data;
pub mod price_aggregator_proxy;
