//! The per-token-pair aggregator: reporters submit one price per token pair,
//! a round for a pair completes as soon as enough distinct reporters have
//! submitted, and the pair's price history grows by the median of that
//! round's submissions.

use vstd::prelude::*;

verus! {

use crate::keyed::has_key;
use crate::keyed::inserted;
use crate::keyed::unique_keys;
use crate::keyed::value_of;
use crate::median::median_of;
use crate::price_aggregator_data::OracleStatus;
use crate::price_aggregator_data::PriceFeed;
use crate::price_aggregator_data::PriceFeedModel;
use crate::price_aggregator_data::TokenPair;

/// The most submissions one round of one pair may collect.
pub const SUBMISSION_LIST_MAX_LEN: usize = 50;

/// Every way a per-pair aggregator entry point can abort.  A failed call
/// leaves the state exactly as it was.
#[derive(Clone, Copy, PartialEq, Eq, Structural, Debug)]
pub enum PriceAggregatorError {
    /// The caller is not a registered reporter.
    OnlyOracles,
    /// One round collected more submissions than a round may hold.
    SubmissionListCapacityExceeded,
    /// A round completed with no submissions at all.
    NoSubmissions,
    /// No pair has a completed round yet.
    NoCompletedRounds,
    /// The queried pair has no completed round.
    TokenPairNotFound,
    /// Only the contract owner may do this.
    OnlyOwner,
}

impl PriceAggregatorError {
    /// The message text of each error.
    pub open spec fn spec_message(self) -> &'static str {
        match self {
            PriceAggregatorError::OnlyOracles => "only oracles allowed",
            PriceAggregatorError::SubmissionListCapacityExceeded =>
                "submission list capacity exceeded",
            PriceAggregatorError::NoSubmissions => "no submissions",
            PriceAggregatorError::NoCompletedRounds => "no completed rounds",
            PriceAggregatorError::TokenPairNotFound => "token pair not found",
            PriceAggregatorError::OnlyOwner => "only callable by owner",
        }
    }

    /// The human-readable message for this error.
    pub fn message(&self) -> (r: &'static str)
        ensures
            r == self.spec_message(),
    {
        match self {
            PriceAggregatorError::OnlyOracles => "only oracles allowed",
            PriceAggregatorError::SubmissionListCapacityExceeded =>
                "submission list capacity exceeded",
            PriceAggregatorError::NoSubmissions => "no submissions",
            PriceAggregatorError::NoCompletedRounds => "no completed rounds",
            PriceAggregatorError::TokenPairNotFound => "token pair not found",
            PriceAggregatorError::OnlyOwner => "only callable by owner",
        }
    }
}

/// The mathematical content of a [`PriceAggregator`]: every table abstracted
/// to a sequence of key-value pairs over plain values.
#[verifier::ext_equal]
pub ghost struct PriceAggregatorModel {
    pub owner: u64,
    pub was_contract_deployed: bool,
    pub submission_count: u32,
    pub decimals: u8,
    pub oracle_status: Seq<(u64, OracleStatus)>,
    pub rounds: Seq<((Seq<u8>, Seq<u8>), Seq<u64>)>,
    pub submissions: Seq<((Seq<u8>, Seq<u8>), Seq<(u64, u64)>)>,
}

/// The whole state of one per-pair aggregator deployment: the reporter
/// counters, each pair's price history, and each pair's open submissions
/// (reporter identity to submitted price).
pub struct PriceAggregator {
    pub owner: u64,
    pub was_contract_deployed: bool,
    pub submission_count: u32,
    pub decimals: u8,
    pub oracle_status: Vec<(u64, OracleStatus)>,
    pub rounds: Vec<(TokenPair, Vec<u64>)>,
    pub submissions: Vec<(TokenPair, Vec<(u64, u64)>)>,
}

impl View for PriceAggregator {
    type V = PriceAggregatorModel;

    open spec fn view(&self) -> PriceAggregatorModel {
        PriceAggregatorModel {
            owner: self.owner,
            was_contract_deployed: self.was_contract_deployed,
            submission_count: self.submission_count,
            decimals: self.decimals,
            oracle_status: self.oracle_status@,
            rounds: self.rounds@.map_values(|e: (TokenPair, Vec<u64>)| (e.0@, e.1@)),
            submissions: self.submissions@.map_values(
                |e: (TokenPair, Vec<(u64, u64)>)| (e.0@, e.1@),
            ),
        }
    }
}

/// A counter stepped by one, wrapping around at the top as the host's
/// fixed-width integers do.
pub open spec fn wrapped_increment(x: u64) -> u64 {
    if x == u64::MAX {
        0u64
    } else {
        (x + 1) as u64
    }
}

/// The prices a pair's open submissions carry, in arrival order.
pub open spec fn submission_prices(inner: Seq<(u64, u64)>) -> Seq<u64> {
    Seq::new(inner.len(), |i: int| inner[i].1)
}

impl PriceAggregatorModel {
    /// Every table keyed uniquely, every recorded price history non-empty.
    pub open spec fn wf(self) -> bool {
        &&& unique_keys(self.oracle_status)
        &&& unique_keys(self.rounds)
        &&& unique_keys(self.submissions)
        &&& forall|i: int| 0 <= i < self.rounds.len() ==> (#[trigger] self.rounds[i]).1.len() > 0
        &&& forall|i: int|
            0 <= i < self.submissions.len() ==> unique_keys((#[trigger] self.submissions[i]).1)
    }

    /// What one submission does to the state: the price is recorded under
    /// the reporter (a repeated reporter overwrites its price and does not
    /// count as accepted), the reporter's counters advance (wrapping as the
    /// host's integers do), and once the pair's open submissions reach the
    /// configured count the round completes — the median of the submitted
    /// prices joins the pair's history and the open submissions are cleared.
    pub open spec fn submit_transition(
        self,
        caller: u64,
        key: (Seq<u8>, Seq<u8>),
        price: u64,
    ) -> Result<PriceAggregatorModel, PriceAggregatorError> {
        let inner = match value_of(self.submissions, key) {
            Some(v) => v,
            None => Seq::<(u64, u64)>::empty(),
        };
        let accepted = !has_key(inner, caller);
        let inner2 = inserted(inner, caller, price);
        let new_status = match value_of(self.oracle_status, caller) {
            Some(st) => inserted(
                self.oracle_status,
                caller,
                OracleStatus {
                    accepted_submissions: if accepted {
                        wrapped_increment(st.accepted_submissions)
                    } else {
                        st.accepted_submissions
                    },
                    total_submissions: wrapped_increment(st.total_submissions),
                },
            ),
            None => self.oracle_status,
        };
        if inner2.len() >= self.submission_count {
            if inner2.len() > SUBMISSION_LIST_MAX_LEN {
                Err(PriceAggregatorError::SubmissionListCapacityExceeded)
            } else {
                let history = match value_of(self.rounds, key) {
                    Some(v) => v,
                    None => Seq::<u64>::empty(),
                };
                Ok(
                    PriceAggregatorModel {
                        oracle_status: new_status,
                        rounds: inserted(
                            self.rounds,
                            key,
                            history.push(median_of(submission_prices(inner2))->Some_0),
                        ),
                        submissions: inserted(self.submissions, key, Seq::<(u64, u64)>::empty()),
                        ..self
                    },
                )
            }
        } else {
            Ok(
                PriceAggregatorModel {
                    oracle_status: new_status,
                    submissions: inserted(self.submissions, key, inner2),
                    ..self
                },
            )
        }
    }

    /// A batch of submissions applied in order, stopping at the first error.
    pub open spec fn batch_transition(
        self,
        caller: u64,
        items: Seq<((Seq<u8>, Seq<u8>), u64)>,
    ) -> Result<PriceAggregatorModel, PriceAggregatorError>
        decreases items.len(),
    {
        if items.len() == 0 {
            Ok(self)
        } else {
            match self.submit_transition(caller, items[0].0, items[0].1) {
                Err(e) => Err(e),
                Ok(m2) => m2.batch_transition(caller, items.drop_first()),
            }
        }
    }

    /// The reporter set after registering every identity in order; an
    /// identity already present keeps its counters.
    pub open spec fn oracles_after_registration(
        s: Seq<(u64, OracleStatus)>,
        added: Seq<u64>,
    ) -> Seq<(u64, OracleStatus)>
        decreases added.len(),
    {
        if added.len() == 0 {
            s
        } else {
            let s2 = if has_key(s, added[0]) {
                s
            } else {
                s.push((added[0], OracleStatus { accepted_submissions: 0, total_submissions: 0 }))
            };
            Self::oracles_after_registration(s2, added.drop_first())
        }
    }

    /// Registering one more identity extends the already-grown set unless it
    /// is present.
    pub proof fn lemma_registration_push(s: Seq<(u64, OracleStatus)>, added: Seq<u64>, o: u64)
        ensures
            Self::oracles_after_registration(s, added.push(o)) == ({
                let t = Self::oracles_after_registration(s, added);
                if has_key(t, o) {
                    t
                } else {
                    t.push((o, OracleStatus { accepted_submissions: 0, total_submissions: 0 }))
                }
            }),
        decreases added.len(),
    {
        let more = added.push(o);
        if added.len() == 0 {
            assert(more[0] == o);
            assert(more.drop_first() =~= Seq::<u64>::empty());
            let s2 = if has_key(s, o) {
                s
            } else {
                s.push((o, OracleStatus { accepted_submissions: 0, total_submissions: 0 }))
            };
            assert(Self::oracles_after_registration(s2, more.drop_first()) == s2);
            assert(Self::oracles_after_registration(s, added) == s);
        } else {
            assert(more[0] == added[0]);
            assert(more.drop_first() =~= added.drop_first().push(o));
            let s2 = if has_key(s, added[0]) {
                s
            } else {
                s.push((added[0], OracleStatus { accepted_submissions: 0, total_submissions: 0 }))
            };
            Self::lemma_registration_push(s2, added.drop_first(), o);
        }
    }

    /// A batch splits into a prefix and the rest, and a prefix's error is
    /// the batch's error.
    pub proof fn lemma_batch_split(
        self,
        caller: u64,
        items: Seq<((Seq<u8>, Seq<u8>), u64)>,
        k: int,
    )
        requires
            0 <= k <= items.len(),
        ensures
            self.batch_transition(caller, items) == (match self.batch_transition(
                caller,
                items.take(k),
            ) {
                Err(e) => Err::<PriceAggregatorModel, PriceAggregatorError>(e),
                Ok(m2) => m2.batch_transition(caller, items.skip(k)),
            }),
        decreases k,
    {
        if k == 0 {
            assert(items.take(0) =~= Seq::<((Seq<u8>, Seq<u8>), u64)>::empty());
            assert(items.skip(0) =~= items);
        } else {
            assert(items.take(k)[0] == items[0]);
            match self.submit_transition(caller, items[0].0, items[0].1) {
                Err(_) => {},
                Ok(m2) => {
                    m2.lemma_batch_split(caller, items.drop_first(), k - 1);
                    assert(items.take(k).drop_first() =~= items.drop_first().take(k - 1));
                    assert(items.drop_first().skip(k - 1) =~= items.skip(k));
                },
            }
        }
    }
}

/// The pair-keyed tables with each entry abstracted to its view.
pub open spec fn pairs_model<V: View>(s: Seq<(TokenPair, V)>) -> Seq<
    ((Seq<u8>, Seq<u8>), <V as View>::V),
> {
    s.map_values(|e: (TokenPair, V)| (e.0@, e.1@))
}

impl PriceAggregator {
    /// Every table keyed uniquely, every recorded price history non-empty.
    pub open spec fn wf(self) -> bool {
        self@.wf()
    }

    /// A fresh, not-yet-deployed aggregator owned by `owner`.
    pub fn new(owner: u64) -> (r: PriceAggregator)
        ensures
            r.wf(),
            r@ == (PriceAggregatorModel {
                owner: owner,
                was_contract_deployed: false,
                submission_count: 0,
                decimals: 0,
                oracle_status: Seq::<(u64, OracleStatus)>::empty(),
                rounds: Seq::<((Seq<u8>, Seq<u8>), Seq<u64>)>::empty(),
                submissions: Seq::<((Seq<u8>, Seq<u8>), Seq<(u64, u64)>)>::empty(),
            }),
    {
        let r = PriceAggregator {
            owner,
            was_contract_deployed: false,
            submission_count: 0,
            decimals: 0,
            oracle_status: Vec::new(),
            rounds: Vec::new(),
            submissions: Vec::new(),
        };
        proof {
            assert(r@.oracle_status =~= Seq::<(u64, OracleStatus)>::empty());
            assert(r@.rounds =~= Seq::<((Seq<u8>, Seq<u8>), Seq<u64>)>::empty());
            assert(r@.submissions =~= Seq::<((Seq<u8>, Seq<u8>), Seq<(u64, u64)>)>::empty());
        }
        r
    }

    /// Deploys or upgrades the aggregator: the decimals are fixed on first
    /// deployment only, the submission count is always taken, and the given
    /// reporters are registered (identities already registered keep their
    /// counters).
    pub fn init(&mut self, submission_count: u32, decimals: u8, oracles: Vec<u64>)
        requires
            old(self).wf(),
        ensures
            final(self).wf(),
            final(self)@ == (PriceAggregatorModel {
                was_contract_deployed: true,
                decimals: (if old(self).was_contract_deployed {
                    old(self).decimals
                } else {
                    decimals
                }),
                submission_count: submission_count,
                oracle_status: PriceAggregatorModel::oracles_after_registration(
                    old(self)@.oracle_status,
                    oracles@,
                ),
                ..old(self)@
            }),
    {
        let ghost orig = self.oracle_status@;
        let mut i: usize = 0;
        while i < oracles.len()
            invariant
                i <= oracles@.len(),
                unique_keys(self.oracle_status@),
                self.oracle_status@ == PriceAggregatorModel::oracles_after_registration(
                    orig,
                    oracles@.take(i as int),
                ),
                *self == (PriceAggregator { oracle_status: self.oracle_status, ..*old(self) }),
            decreases oracles@.len() - i,
        {
            proof {
                PriceAggregatorModel::lemma_registration_push(
                    orig,
                    oracles@.take(i as int),
                    oracles@[i as int],
                );
                assert(oracles@.take(i as int).push(oracles@[i as int]) =~= oracles@.take(
                    i as int + 1,
                ));
            }
            if !crate::keyed::contains_key(&self.oracle_status, oracles[i]) {
                let fresh = OracleStatus { accepted_submissions: 0, total_submissions: 0 };
                proof {
                    crate::keyed::lemma_inserted(self.oracle_status@, oracles@[i as int], fresh);
                    assert(crate::keyed::inserted(self.oracle_status@, oracles@[i as int], fresh)
                        == self.oracle_status@.push((oracles@[i as int], fresh)));
                }
                self.oracle_status.push((oracles[i], fresh));
            }
            i = i + 1;
        }
        proof {
            assert(oracles@.take(oracles@.len() as int) =~= oracles@);
        }
        if !self.was_contract_deployed {
            self.decimals = decimals;
            self.was_contract_deployed = true;
        }
        self.submission_count = submission_count;
    }

    /// Fails unless the caller is a registered reporter.
    pub fn require_is_oracle(&self, caller: u64) -> (r: Result<(), PriceAggregatorError>)
        requires
            self.wf(),
        ensures
            r == (if has_key(self@.oracle_status, caller) {
                Ok::<(), PriceAggregatorError>(())
            } else {
                Err::<(), PriceAggregatorError>(PriceAggregatorError::OnlyOracles)
            }),
    {
        if crate::keyed::contains_key(&self.oracle_status, caller) {
            Ok(())
        } else {
            Err(PriceAggregatorError::OnlyOracles)
        }
    }

    /// Completes the pair's round if its open submissions have reached the
    /// configured count: the median of the submitted prices joins the pair's
    /// history and the open submissions are cleared.  A round short of the
    /// count, or a pair with no open submissions, is left alone.
    pub fn create_new_round(&mut self, from: &Vec<u8>, to: &Vec<u8>) -> (r: Result<
        (),
        PriceAggregatorError,
    >)
        requires
            old(self).wf(),
        ensures
            final(self).wf(),
            ({
                let key = (from@, to@);
                if value_of(old(self)@.submissions, key) is None {
                    r == Ok::<(), PriceAggregatorError>(()) && *final(self) == *old(self)
                } else {
                    let inner = value_of(old(self)@.submissions, key)->Some_0;
                    if inner.len() >= old(self).submission_count {
                    if inner.len() > SUBMISSION_LIST_MAX_LEN {
                        r == Err::<(), PriceAggregatorError>(
                            PriceAggregatorError::SubmissionListCapacityExceeded,
                        ) && *final(self) == *old(self)
                    } else if inner.len() == 0 {
                        r == Err::<(), PriceAggregatorError>(PriceAggregatorError::NoSubmissions)
                            && *final(self) == *old(self)
                    } else {
                        let history = match value_of(old(self)@.rounds, key) {
                            Some(v) => v,
                            None => Seq::<u64>::empty(),
                        };
                        r == Ok::<(), PriceAggregatorError>(()) && final(self)@
                            == (PriceAggregatorModel {
                            rounds: inserted(
                                old(self)@.rounds,
                                key,
                                history.push(median_of(submission_prices(inner))->Some_0),
                            ),
                            submissions: inserted(
                                old(self)@.submissions,
                                key,
                                Seq::<(u64, u64)>::empty(),
                            ),
                            ..old(self)@
                        })
                    }
                    } else {
                        r == Ok::<(), PriceAggregatorError>(()) && *final(self) == *old(self)
                    }
                }
            }),
    {
        let si = match find_pair(&self.submissions, from, to) {
            Some(i) => i,
            None => {
                proof {
                    let key = (from@, to@);
                    if has_key(self@.submissions, key) {
                        let j = crate::keyed::index_of_key(self@.submissions, key);
                        assert(self@.submissions[j] == (self.submissions@[j].0@,
                        self.submissions@[j].1@));
                    }
                    assert(value_of(self@.submissions, key) is None);
                }
                return Ok(());
            },
        };
        proof {
            crate::keyed::lemma_key_index_unique(self@.submissions, (from@, to@), si as int);
        }
        let submissions_len = self.submissions[si].1.len();
        if (submissions_len as u64) < self.submission_count as u64 {
            return Ok(());
        }
        if submissions_len > SUBMISSION_LIST_MAX_LEN {
            return Err(PriceAggregatorError::SubmissionListCapacityExceeded);
        }
        if submissions_len == 0 {
            return Err(PriceAggregatorError::NoSubmissions);
        }
        let mut prices: Vec<u64> = Vec::new();
        let mut j: usize = 0;
        while j < self.submissions[si].1.len()
            invariant
                si < self.submissions@.len(),
                j <= self.submissions@[si as int].1@.len(),
                prices@.len() == j,
                forall|k: int|
                    0 <= k < j ==> prices@[k] == (#[trigger] self.submissions@[si as int].1@[k]).1,
            decreases self.submissions@[si as int].1@.len() - j,
        {
            prices.push(self.submissions[si].1[j].1);
            j = j + 1;
        }
        proof {
            assert(prices@ =~= submission_prices(self@.submissions[si as int].1));
        }
        let median = match crate::median::calculate(prices) {
            Ok(Some(m)) => m,
            _ => {
                proof {
                    assert(false);
                }
                0
            },
        };
        let ghost old_model = self@;
        let pair_for_rounds = clone_token_pair(&self.submissions[si].0);
        match find_pair(&self.rounds, from, to) {
            Some(ri) => {
                proof {
                    crate::keyed::lemma_key_index_unique(self@.rounds, (from@, to@), ri as int);
                    crate::keyed::lemma_inserted(
                        self@.rounds,
                        (from@, to@),
                        self@.rounds[ri as int].1.push(median),
                    );
                }
                let mut history = copy_values(&self.rounds[ri].1);
                history.push(median);
                self.rounds.set(ri, (pair_for_rounds, history));
                proof {
                    assert(self@.rounds =~= inserted(
                        old_model.rounds,
                        (from@, to@),
                        old_model.rounds[ri as int].1.push(median),
                    ));
                }
            },
            None => {
                proof {
                    let key = (from@, to@);
                    if has_key(self@.rounds, key) {
                        let j2 = crate::keyed::index_of_key(self@.rounds, key);
                        assert(self@.rounds[j2] == (self.rounds@[j2].0@, self.rounds@[j2].1@));
                    }
                    crate::keyed::lemma_inserted(
                        self@.rounds,
                        key,
                        Seq::<u64>::empty().push(median),
                    );
                }
                let mut history: Vec<u64> = Vec::new();
                history.push(median);
                self.rounds.push((pair_for_rounds, history));
                proof {
                    assert(self@.rounds =~= inserted(
                        old_model.rounds,
                        (from@, to@),
                        Seq::<u64>::empty().push(median),
                    ));
                    assert(Seq::<u64>::empty().push(median) =~= match value_of(
                        old_model.rounds,
                        (from@, to@),
                    ) {
                        Some(v) => v,
                        None => Seq::<u64>::empty(),
                    }.push(median));
                }
            },
        }
        let pair_for_submissions = TokenPair { from: crate::bytes::copy_bytes(from), to: crate::bytes::copy_bytes(to) };
        proof {
            crate::keyed::lemma_inserted(
        self@.submissions,
        (from@, to@),
        Seq::<(u64, u64)>::empty(),
    );
        }
        self.submissions.set(si, (pair_for_submissions, Vec::new()));
        proof {
            assert(self@.submissions =~= inserted(
                old_model.submissions,
                (from@, to@),
                Seq::<(u64, u64)>::empty(),
            ));
            assert forall|i: int|
                0 <= i < self@.rounds.len() implies (#[trigger] self@.rounds[i]).1.len() > 0 by {
                if i < old_model.rounds.len() {
                    if self@.rounds[i] != old_model.rounds[i] {
                    }
                }
            }
        }
        Ok(())
    }
}

impl PriceAggregator {
    /// Records one price for one pair without the reporter check (see
    /// [`PriceAggregatorModel::submit_transition`]).
    pub fn submit_unchecked(&mut self, caller: u64, from: &Vec<u8>, to: &Vec<u8>, price: u64) -> (r:
        Result<(), PriceAggregatorError>)
        requires
            old(self).wf(),
        ensures
            final(self).wf(),
            r == (match old(self)@.submit_transition(caller, (from@, to@), price) {
                Ok(_) => Ok::<(), PriceAggregatorError>(()),
                Err(e) => Err::<(), PriceAggregatorError>(e),
            }),
            r is Err ==> *final(self) == *old(self),
            r is Ok ==> final(self)@ == old(self)@.submit_transition(
                caller,
                (from@, to@),
                price,
            )->Ok_0,
    {
        let ghost key = (from@, to@);
        let ghost m0 = self@;
        let si_opt = find_pair(&self.submissions, from, to);
        let mut inner: Vec<(u64, u64)> = match si_opt {
            Some(i) => {
                proof {
                    crate::keyed::lemma_key_index_unique(m0.submissions, key, i as int);
                }
                copy_pairs(&self.submissions[i].1)
            },
            None => {
                proof {
                    if has_key(m0.submissions, key) {
                        let j = crate::keyed::index_of_key(m0.submissions, key);
                        assert(m0.submissions[j] == (self.submissions@[j].0@,
                        self.submissions@[j].1@));
                    }
                }
                Vec::new()
            },
        };
        proof {
            assert(inner@ == (match value_of(m0.submissions, key) {
                Some(v) => v,
                None => Seq::<(u64, u64)>::empty(),
            }));
            assert(unique_keys(inner@)) by {
                if si_opt is Some {
                    assert(unique_keys(m0.submissions[si_opt->Some_0 as int].1));
                }
            }
        }
        let accepted = !crate::keyed::contains_key(&inner, caller);
        crate::keyed::insert_entry(&mut inner, caller, price);
        let new_len = inner.len();
        proof {
            crate::keyed::lemma_inserted(
                (match value_of(m0.submissions, key) {
                    Some(v) => v,
                    None => Seq::<(u64, u64)>::empty(),
                }),
                caller,
                price,
            );
            assert(has_key(inner@, caller));
            assert(inner@.len() > 0);
        }
        if (new_len as u64) >= self.submission_count as u64 && new_len > SUBMISSION_LIST_MAX_LEN {
            return Err(PriceAggregatorError::SubmissionListCapacityExceeded);
        }
        match crate::keyed::find_key(&self.oracle_status, caller) {
            Some(oi) => {
                let st = self.oracle_status[oi].1;
                let st2 = OracleStatus {
                    accepted_submissions: if accepted {
                        if st.accepted_submissions == u64::MAX {
                            0
                        } else {
                            st.accepted_submissions + 1
                        }
                    } else {
                        st.accepted_submissions
                    },
                    total_submissions: if st.total_submissions == u64::MAX {
                        0
                    } else {
                        st.total_submissions + 1
                    },
                };
                proof {
                    crate::keyed::lemma_inserted(self.oracle_status@, caller, st2);
                    assert(self.oracle_status@.update(oi as int, (caller, st2))
                        == crate::keyed::inserted(self.oracle_status@, caller, st2));
                }
                self.oracle_status.set(oi, (caller, st2));
            },
            None => {},
        }
        let stored_pair = TokenPair { from: crate::bytes::copy_bytes(from), to: crate::bytes::copy_bytes(to) };
        proof {
            crate::keyed::lemma_inserted(m0.submissions, key, inner@);
        }
        match si_opt {
            Some(i) => {
                self.submissions.set(i, (stored_pair, inner));
                proof {
                    assert(self@.submissions =~= crate::keyed::inserted(
                        m0.submissions,
                        key,
                        self.submissions@[i as int].1@,
                    ));
                }
            },
            None => {
                self.submissions.push((stored_pair, inner));
                proof {
                    assert(self@.submissions =~= m0.submissions.push(
                        (key, self.submissions@[self.submissions@.len() - 1].1@),
                    ));
                }
            },
        }
        let ghost mid = *self;
        proof {
            assert forall|i: int|
                0 <= i < mid@.submissions.len() implies unique_keys(
                (#[trigger] mid@.submissions[i]).1,
            ) by {
                crate::keyed::lemma_inserted(m0.submissions, key, mid@.submissions[i].1);
            }
        }
        proof {
            let inner0 = match value_of(m0.submissions, key) {
                Some(v) => v,
                None => Seq::<(u64, u64)>::empty(),
            };
            let inner2 = inserted(inner0, caller, price);
            assert(mid@.submissions == inserted(m0.submissions, key, inner2));
            assert(value_of(mid@.submissions, key) == Some(inner2));
            crate::keyed::lemma_inserted_twice(
                m0.submissions,
                key,
                inner2,
                Seq::<(u64, u64)>::empty(),
            );
        }
        let r = self.create_new_round(from, to);
        match r {
            Ok(()) => {
                proof {
                    let target = m0.submit_transition(caller, key, price)->Ok_0;
                    assert(self@ =~= target);
                }
                Ok(())
            },
            Err(e) => {
                proof {
                    assert(false);
                }
                Err(e)
            },
        }
    }

    /// Records one price for one pair on behalf of a registered reporter.
    pub fn submit(&mut self, caller: u64, from: &Vec<u8>, to: &Vec<u8>, price: u64) -> (r: Result<
        (),
        PriceAggregatorError,
    >)
        requires
            old(self).wf(),
        ensures
            final(self).wf(),
            r == (if !has_key(old(self)@.oracle_status, caller) {
                Err::<(), PriceAggregatorError>(PriceAggregatorError::OnlyOracles)
            } else {
                match old(self)@.submit_transition(caller, (from@, to@), price) {
                    Ok(_) => Ok::<(), PriceAggregatorError>(()),
                    Err(e) => Err::<(), PriceAggregatorError>(e),
                }
            }),
            r is Err ==> *final(self) == *old(self),
            r is Ok ==> final(self)@ == old(self)@.submit_transition(
                caller,
                (from@, to@),
                price,
            )->Ok_0,
    {
        match self.require_is_oracle(caller) {
            Ok(()) => {},
            Err(e) => {
                return Err(e);
            },
        }
        self.submit_unchecked(caller, from, to, price)
    }
}

/// The batch items with each pair abstracted to its view.
pub open spec fn batch_items_model(s: Seq<(TokenPair, u64)>) -> Seq<((Seq<u8>, Seq<u8>), u64)> {
    s.map_values(|e: (TokenPair, u64)| (e.0@, e.1))
}

impl PriceAggregator {
    /// Copies the whole state.
    fn clone_state(&self) -> (r: PriceAggregator)
        ensures
            r@ == self@,
    {
        let mut oracle_status: Vec<(u64, OracleStatus)> = Vec::new();
        let mut i: usize = 0;
        while i < self.oracle_status.len()
            invariant
                i <= self.oracle_status@.len(),
                oracle_status@.len() == i,
                forall|k: int| 0 <= k < i ==> oracle_status@[k] == self.oracle_status@[k],
            decreases self.oracle_status@.len() - i,
        {
            oracle_status.push(self.oracle_status[i]);
            i = i + 1;
        }
        let mut rounds: Vec<(TokenPair, Vec<u64>)> = Vec::new();
        let mut j: usize = 0;
        while j < self.rounds.len()
            invariant
                j <= self.rounds@.len(),
                rounds@.len() == j,
                forall|k: int|
                    0 <= k < j ==> (#[trigger] rounds@[k]).0@ == self.rounds@[k].0@ && rounds@[k].1@
                        == self.rounds@[k].1@,
            decreases self.rounds@.len() - j,
        {
            rounds.push((clone_token_pair(&self.rounds[j].0), copy_values(&self.rounds[j].1)));
            j = j + 1;
        }
        let mut submissions: Vec<(TokenPair, Vec<(u64, u64)>)> = Vec::new();
        let mut k: usize = 0;
        while k < self.submissions.len()
            invariant
                k <= self.submissions@.len(),
                submissions@.len() == k,
                forall|n: int|
                    0 <= n < k ==> (#[trigger] submissions@[n]).0@ == self.submissions@[n].0@
                        && submissions@[n].1@ == self.submissions@[n].1@,
            decreases self.submissions@.len() - k,
        {
            submissions.push(
                (clone_token_pair(&self.submissions[k].0), copy_pairs(&self.submissions[k].1)),
            );
            k = k + 1;
        }
        let r = PriceAggregator {
            owner: self.owner,
            was_contract_deployed: self.was_contract_deployed,
            submission_count: self.submission_count,
            decimals: self.decimals,
            oracle_status,
            rounds,
            submissions,
        };
        proof {
            assert(r@.oracle_status =~= self@.oracle_status);
            assert(r@.rounds =~= self@.rounds);
            assert(r@.submissions =~= self@.submissions);
        }
        r
    }

    /// Records a batch of prices on behalf of a registered reporter, one
    /// pair after another, atomically: the first failing submission aborts
    /// the whole batch with the state untouched.
    pub fn submit_batch(&mut self, caller: u64, items: &Vec<(TokenPair, u64)>) -> (r: Result<
        (),
        PriceAggregatorError,
    >)
        requires
            old(self).wf(),
        ensures
            final(self).wf(),
            r == (if !has_key(old(self)@.oracle_status, caller) {
                Err::<(), PriceAggregatorError>(PriceAggregatorError::OnlyOracles)
            } else {
                match old(self)@.batch_transition(caller, batch_items_model(items@)) {
                    Ok(_) => Ok::<(), PriceAggregatorError>(()),
                    Err(e) => Err::<(), PriceAggregatorError>(e),
                }
            }),
            r is Err ==> *final(self) == *old(self),
            r is Ok ==> final(self)@ == old(self)@.batch_transition(
                caller,
                batch_items_model(items@),
            )->Ok_0,
    {
        match self.require_is_oracle(caller) {
            Ok(()) => {},
            Err(e) => {
                return Err(e);
            },
        }
        let ghost m0 = self@;
        let ghost all = batch_items_model(items@);
        let mut next = self.clone_state();
        let mut i: usize = 0;
        proof {
            assert(batch_items_model(items@).take(0) =~= Seq::<((Seq<u8>, Seq<u8>), u64)>::empty());
        }
        while i < items.len()
            invariant
                i <= items@.len(),
                next.wf(),
                m0 == old(self)@,
                has_key(m0.oracle_status, caller),
                all == batch_items_model(items@),
                *self == *old(self),
                self.wf(),
                m0.batch_transition(caller, all.take(i as int)) == Ok::<
                    PriceAggregatorModel,
                    PriceAggregatorError,
                >(next@),
            decreases items@.len() - i,
        {
            proof {
                m0.lemma_batch_split(caller, all, i as int + 1);
                m0.lemma_batch_split(caller, all.take(i as int + 1), i as int);
                assert(all.take(i as int + 1).take(i as int) =~= all.take(i as int));
                assert(all.take(i as int + 1).skip(i as int) =~= seq![all[i as int]]);
                assert(seq![all[i as int]].drop_first() =~= Seq::<((Seq<u8>, Seq<u8>), u64)>::empty());
                assert(all[i as int] == (items@[i as int].0@, items@[i as int].1));
                assert(seq![all[i as int]][0] == all[i as int]);
            }
            let ghost prev = next@;
            match next.submit_unchecked(caller, &items[i].0.from, &items[i].0.to, items[i].1) {
                Ok(()) => {
                    proof {
                        assert(prev.submit_transition(caller, all[i as int].0, all[i as int].1)
                            == Ok::<PriceAggregatorModel, PriceAggregatorError>(next@));
                        assert(next@.batch_transition(
                            caller,
                            seq![all[i as int]].drop_first(),
                        ) == Ok::<PriceAggregatorModel, PriceAggregatorError>(next@));
                        assert(prev.batch_transition(caller, seq![all[i as int]]) == Ok::<
                            PriceAggregatorModel,
                            PriceAggregatorError,
                        >(next@));
                    }
                },
                Err(e) => {
                    proof {
                        assert(prev.submit_transition(caller, all[i as int].0, all[i as int].1)
                            == Err::<PriceAggregatorModel, PriceAggregatorError>(e));
                        assert(prev.batch_transition(caller, seq![all[i as int]]) == Err::<
                            PriceAggregatorModel,
                            PriceAggregatorError,
                        >(e));
                        assert(m0.batch_transition(caller, all.take(i as int + 1)) == Err::<
                            PriceAggregatorModel,
                            PriceAggregatorError,
                        >(e));
                        assert(m0.batch_transition(caller, all) == Err::<
                            PriceAggregatorModel,
                            PriceAggregatorError,
                        >(e));
                    }
                    return Err(e);
                },
            }
            i = i + 1;
        }
        proof {
            assert(all.take(items@.len() as int) =~= all);
        }
        *self = next;
        Ok(())
    }
}

impl PriceAggregator {
    /// Reconfigures how many submissions complete a round.  Only the owner
    /// may do this.
    pub fn set_submission_count(&mut self, caller: u64, submission_count: u32) -> (r: Result<
        (),
        PriceAggregatorError,
    >)
        requires
            old(self).wf(),
        ensures
            final(self).wf(),
            r == (if caller != old(self).owner {
                Err::<(), PriceAggregatorError>(PriceAggregatorError::OnlyOwner)
            } else {
                Ok::<(), PriceAggregatorError>(())
            }),
            r is Err ==> *final(self) == *old(self),
            r is Ok ==> *final(self) == (PriceAggregator {
                submission_count,
                ..*old(self)
            }),
    {
        if caller != self.owner {
            return Err(PriceAggregatorError::OnlyOwner);
        }
        self.submission_count = submission_count;
        Ok(())
    }

    /// The report for one pair: the number of its completed rounds and its
    /// latest price.  The round counter is reported in the host's 32-bit
    /// width, wrapping as the host's cast does.
    pub fn make_price_feed(&self, pair: &TokenPair, round_values: &Vec<u64>) -> (r: PriceFeed)
        requires
            round_values@.len() > 0,
        ensures
            r@ == (PriceFeedModel {
                round_id: round_values@.len() as u32,
                from: pair@.0,
                to: pair@.1,
                price: round_values@.last(),
                decimals: self.decimals,
            }),
    {
        let round_id = #[verifier::truncate] (round_values.len() as u32);
        PriceFeed {
            round_id,
            from: crate::bytes::copy_bytes(&pair.from),
            to: crate::bytes::copy_bytes(&pair.to),
            price: round_values[round_values.len() - 1],
            decimals: self.decimals,
        }
    }

    /// The latest price feed of every pair with a completed round; fails when
    /// no pair has one.
    pub fn latest_round_data(&self) -> (r: Result<Vec<PriceFeed>, PriceAggregatorError>)
        requires
            self.wf(),
        ensures
            match r {
                Ok(feeds) => self@.rounds.len() > 0 && feeds@.len() == self@.rounds.len() && forall|
                    i: int,
                |
                    0 <= i < feeds@.len() ==> (#[trigger] feeds@[i])@ == (PriceFeedModel {
                        round_id: self@.rounds[i].1.len() as u32,
                        from: self@.rounds[i].0.0,
                        to: self@.rounds[i].0.1,
                        price: self@.rounds[i].1.last(),
                        decimals: self.decimals,
                    }),
                Err(e) => e == PriceAggregatorError::NoCompletedRounds && self@.rounds.len() == 0,
            },
    {
        if self.rounds.is_empty() {
            return Err(PriceAggregatorError::NoCompletedRounds);
        }
        let mut feeds: Vec<PriceFeed> = Vec::new();
        let mut i: usize = 0;
        while i < self.rounds.len()
            invariant
                self.wf(),
                i <= self.rounds@.len(),
                feeds@.len() == i,
                forall|k: int|
                    0 <= k < i ==> (#[trigger] feeds@[k])@ == (PriceFeedModel {
                        round_id: self@.rounds[k].1.len() as u32,
                        from: self@.rounds[k].0.0,
                        to: self@.rounds[k].0.1,
                        price: self@.rounds[k].1.last(),
                        decimals: self.decimals,
                    }),
            decreases self.rounds@.len() - i,
        {
            proof {
                assert(self@.rounds[i as int].1.len() > 0);
            }
            let feed = self.make_price_feed(&self.rounds[i].0, &self.rounds[i].1);
            feeds.push(feed);
            i = i + 1;
        }
        Ok(feeds)
    }

    /// The latest price feed of the pair `(from, to)`, as the flat tuple the
    /// host serializes; fails when the pair has no completed round.
    pub fn latest_price_feed(&self, from: &Vec<u8>, to: &Vec<u8>) -> (r: Result<
        (u32, Vec<u8>, Vec<u8>, u64, u8),
        PriceAggregatorError,
    >)
        requires
            self.wf(),
        ensures
            match r {
                Ok(t) => value_of(self@.rounds, (from@, to@)) matches Some(history) && t.0
                    == history.len() as u32 && t.1@ == from@ && t.2@ == to@ && t.3 == history.last()
                    && t.4 == self.decimals,
                Err(e) => e == PriceAggregatorError::TokenPairNotFound && value_of(
                    self@.rounds,
                    (from@, to@),
                ) is None,
            },
    {
        let ri = match find_pair(&self.rounds, from, to) {
            Some(i) => i,
            None => {
                proof {
                    let key = (from@, to@);
                    if has_key(self@.rounds, key) {
                        let j = crate::keyed::index_of_key(self@.rounds, key);
                        assert(self@.rounds[j] == (self.rounds@[j].0@, self.rounds@[j].1@));
                    }
                }
                return Err(PriceAggregatorError::TokenPairNotFound);
            },
        };
        proof {
            crate::keyed::lemma_key_index_unique(self@.rounds, (from@, to@), ri as int);
            assert(self@.rounds[ri as int].1.len() > 0);
        }
        let feed = self.make_price_feed(&self.rounds[ri].0, &self.rounds[ri].1);
        Ok((feed.round_id, feed.from, feed.to, feed.price, feed.decimals))
    }

    /// The latest price feed of the pair `(from, to)`, or nothing when the
    /// pair has no completed round.
    pub fn latest_price_feed_optional(&self, from: &Vec<u8>, to: &Vec<u8>) -> (r: Option<
        (u32, Vec<u8>, Vec<u8>, u64, u8),
    >)
        requires
            self.wf(),
        ensures
            match r {
                Some(t) => value_of(self@.rounds, (from@, to@)) matches Some(history) && t.0
                    == history.len() as u32 && t.1@ == from@ && t.2@ == to@ && t.3 == history.last()
                    && t.4 == self.decimals,
                None => value_of(self@.rounds, (from@, to@)) is None,
            },
    {
        match self.latest_price_feed(from, to) {
            Ok(t) => Some(t),
            Err(_) => None,
        }
    }

    /// The registered reporters, in registration order.
    pub fn get_oracles(&self) -> (r: Vec<u64>)
        ensures
            r@.len() == self@.oracle_status.len(),
            forall|i: int| 0 <= i < r@.len() ==> r@[i] == (#[trigger] self@.oracle_status[i]).0,
    {
        let mut result: Vec<u64> = Vec::new();
        let mut i: usize = 0;
        while i < self.oracle_status.len()
            invariant
                i <= self.oracle_status@.len(),
                result@.len() == i,
                forall|k: int| 0 <= k < i ==> result@[k] == (#[trigger] self.oracle_status@[k]).0,
            decreases self.oracle_status@.len() - i,
        {
            result.push(self.oracle_status[i].0);
            i = i + 1;
        }
        result
    }
}

/// Copies a list of reporter-price entries.
fn copy_pairs(v: &Vec<(u64, u64)>) -> (r: Vec<(u64, u64)>)
    ensures
        r@ == v@,
{
    let mut r: Vec<(u64, u64)> = Vec::new();
    let mut i: usize = 0;
    while i < v.len()
        invariant
            i <= v@.len(),
            r@.len() == i,
            forall|k: int| 0 <= k < i ==> r@[k] == v@[k],
        decreases v@.len() - i,
    {
        r.push(v[i]);
        i = i + 1;
    }
    proof {
        assert(r@ =~= v@);
    }
    r
}

/// Copies a value list.
fn copy_values(v: &Vec<u64>) -> (r: Vec<u64>)
    ensures
        r@ == v@,
{
    let mut r: Vec<u64> = Vec::new();
    let mut i: usize = 0;
    while i < v.len()
        invariant
            i <= v@.len(),
            r@.len() == i,
            forall|k: int| 0 <= k < i ==> r@[k] == v@[k],
        decreases v@.len() - i,
    {
        r.push(v[i]);
        i = i + 1;
    }
    proof {
        assert(r@ =~= v@);
    }
    r
}

/// Copies a token pair.
pub fn clone_token_pair(p: &TokenPair) -> (r: TokenPair)
    ensures
        r@ == p@,
{
    TokenPair { from: crate::bytes::copy_bytes(&p.from), to: crate::bytes::copy_bytes(&p.to) }
}

/// Finds the position of the entry for the pair `(from, to)`.
fn find_pair<V>(table: &Vec<(TokenPair, V)>, from: &Vec<u8>, to: &Vec<u8>) -> (r: Option<usize>)
    ensures
        match r {
            Some(i) => i < table@.len() && table@[i as int].0@ == (from@, to@),
            None => forall|i: int| 0 <= i < table@.len() ==> (#[trigger] table@[i]).0@ != (from@, to@),
        },
{
    let mut i: usize = 0;
    while i < table.len()
        invariant
            i <= table@.len(),
            forall|k: int| 0 <= k < i ==> (#[trigger] table@[k]).0@ != (from@, to@),
        decreases table@.len() - i,
    {
        if crate::bytes::bytes_eq(&table[i].0.from, from) && crate::bytes::bytes_eq(&table[i].0.to, to) {
            return Some(i);
        }
        i = i + 1;
    }
    None
}

} // verus!
