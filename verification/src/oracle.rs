//! The request relay: clients file numbered requests, authorized nodes
//! fulfill them, and fulfillment calls the client back with the answer.

use vstd::prelude::*;

verus! {

use crate::keyed::has_key;
use crate::keyed::inserted;
use crate::keyed::removed;
use crate::keyed::unique_keys;
use crate::keyed::value_of;

/// Every way a relay entry point can abort.  A failed call leaves the state
/// exactly as it was.
#[derive(Clone, Copy, PartialEq, Eq, Structural, Debug)]
pub enum OracleError {
    /// The caller already has a request filed under this nonce.
    ExistingRequest,
    /// The nonce does not continue the caller's sequence.
    InvalidNonce,
    /// No requests are filed under the given account.
    AccountNotFound,
    /// No request is filed under the given nonce.
    RequestNotFound,
    /// The node is already authorized.
    AlreadyAuthorized,
    /// The node is not among the authorized ones.
    AuthorizationNotFound,
    /// Only an authorized node may fulfill requests.
    NotAuthorizedNode,
    /// Only the contract owner may do this.
    OnlyOwner,
}

impl OracleError {
    /// The message text of each error.
    pub open spec fn spec_message(self) -> &'static str {
        match self {
            OracleError::ExistingRequest => "Existing account and nonce in requests",
            OracleError::InvalidNonce => "Invalid nonce",
            OracleError::AccountNotFound => "Did not find the account to fulfill.",
            OracleError::RequestNotFound => "Did not find the request (nonce) to fulfill.",
            OracleError::AlreadyAuthorized => "Already authorized",
            OracleError::AuthorizationNotFound => "Authorization not found",
            OracleError::NotAuthorizedNode => "Not an authorized node to fulfill requests.",
            OracleError::OnlyOwner => "only callable by owner",
        }
    }

    /// The human-readable message for this error.
    pub fn message(&self) -> (r: &'static str)
        ensures
            r == self.spec_message(),
    {
        match self {
            OracleError::ExistingRequest => "Existing account and nonce in requests",
            OracleError::InvalidNonce => "Invalid nonce",
            OracleError::AccountNotFound => "Did not find the account to fulfill.",
            OracleError::RequestNotFound => "Did not find the request (nonce) to fulfill.",
            OracleError::AlreadyAuthorized => "Already authorized",
            OracleError::AuthorizationNotFound => "Authorization not found",
            OracleError::NotAuthorizedNode => "Not an authorized node to fulfill requests.",
            OracleError::OnlyOwner => "only callable by owner",
        }
    }
}

/// The mathematical content of [`OracleRequest`].
#[verifier::ext_equal]
pub ghost struct OracleRequestModel {
    pub caller: u64,
    pub callback_address: u64,
    pub callback_method: Seq<u8>,
    pub data: Seq<u8>,
}

/// One filed request: who filed it, whom to call back and how, and the
/// request payload.
pub struct OracleRequest {
    pub caller: u64,
    pub callback_address: u64,
    pub callback_method: Vec<u8>,
    pub data: Vec<u8>,
}

impl View for OracleRequest {
    type V = OracleRequestModel;

    open spec fn view(&self) -> OracleRequestModel {
        OracleRequestModel {
            caller: self.caller,
            callback_address: self.callback_address,
            callback_method: self.callback_method@,
            data: self.data@,
        }
    }
}

/// The mathematical content of [`RequestView`].
#[verifier::ext_equal]
pub ghost struct RequestViewModel {
    pub address: u64,
    pub nonce: u64,
    pub data: Seq<u8>,
}

/// One filed request as listed to the outside: the account, the nonce and
/// the payload.
pub struct RequestView {
    pub address: u64,
    pub nonce: u64,
    pub data: Vec<u8>,
}

impl View for RequestView {
    type V = RequestViewModel;

    open spec fn view(&self) -> RequestViewModel {
        RequestViewModel { address: self.address, nonce: self.nonce, data: self.data@ }
    }
}

impl DeepView for RequestView {
    type V = RequestViewModel;

    open spec fn deep_view(&self) -> RequestViewModel {
        self@
    }
}

/// The callback an accepted fulfillment asks the host to perform: deliver
/// `data` as the answer to request `nonce` at `callback_address`.
#[derive(Debug)]
pub struct ReplyCall {
    pub callback_address: u64,
    pub nonce: u64,
    pub data: Vec<u8>,
}

/// The values an oracle-side submission hands to an aggregator.
#[derive(Debug)]
pub struct SubmitCall {
    pub aggregator: u64,
    pub round_id: u64,
    pub values: Vec<u64>,
}

/// One account's filed requests, keyed by nonce, abstracted.
pub open spec fn account_requests_model(s: Seq<(u64, OracleRequest)>) -> Seq<
    (u64, OracleRequestModel),
> {
    s.map_values(|e: (u64, OracleRequest)| (e.0, e.1@))
}

/// The listed form of one account's filed requests.
pub open spec fn account_request_views(address: u64, s: Seq<(u64, OracleRequest)>) -> Seq<
    RequestViewModel,
> {
    Seq::new(
        s.len(),
        |j: int| RequestViewModel { address, nonce: s[j].0, data: s[j].1.data@ },
    )
}

/// The listed form of the whole request table, account by account.
pub open spec fn flattened_requests(s: Seq<(u64, Vec<(u64, OracleRequest)>)>) -> Seq<
    RequestViewModel,
>
    decreases s.len(),
{
    if s.len() == 0 {
        Seq::<RequestViewModel>::empty()
    } else {
        flattened_requests(s.drop_last()) + account_request_views(s.last().0, s.last().1@)
    }
}

/// The relay's state: per-account last nonces, per-account filed requests and
/// the authorized-node list.
pub struct Oracle {
    pub owner: u64,
    pub nonces: Vec<(u64, u64)>,
    pub requests: Vec<(u64, Vec<(u64, OracleRequest)>)>,
    pub authorized_nodes: Vec<u64>,
}

impl Oracle {
    /// Unique keys everywhere, and no node authorized twice.
    pub open spec fn wf(self) -> bool {
        &&& unique_keys(self.nonces@)
        &&& unique_keys(self.requests@)
        &&& forall|i: int|
            0 <= i < self.requests@.len() ==> unique_keys((#[trigger] self.requests@[i]).1@)
        &&& forall|i: int, j: int|
            0 <= i < j < self.authorized_nodes@.len() ==> self.authorized_nodes@[i]
                != self.authorized_nodes@[j]
    }

    /// The requests filed under `address`, abstracted.
    pub open spec fn requests_of(self, address: u64) -> Option<Seq<(u64, OracleRequestModel)>> {
        match value_of(self.requests@, address) {
            Some(v) => Some(account_requests_model(v@)),
            None => None,
        }
    }

    /// Whether `node` is authorized to fulfill requests.
    pub open spec fn is_authorized(self, node: u64) -> bool {
        self.authorized_nodes@.contains(node)
    }

    /// A fresh relay owned by `owner`.
    pub fn init(owner: u64) -> (r: Oracle)
        ensures
            r.wf(),
            r.owner == owner,
            r.nonces@ == Seq::<(u64, u64)>::empty(),
            r.requests@.len() == 0,
            r.authorized_nodes@ == Seq::<u64>::empty(),
    {
        Oracle { owner, nonces: Vec::new(), requests: Vec::new(), authorized_nodes: Vec::new() }
    }

    /// Every filed request, account by account and nonce by nonce.
    pub fn requests_as_vec(&self) -> (r: Vec<RequestView>)
        ensures
            r.deep_view() == flattened_requests(self.requests@),
    {
        let mut result: Vec<RequestView> = Vec::new();
        let mut i: usize = 0;
        while i < self.requests.len()
            invariant
                i <= self.requests@.len(),
                result.deep_view() =~= flattened_requests(self.requests@.take(i as int)),
            decreases self.requests@.len() - i,
        {
            let address = self.requests[i].0;
            let mut j: usize = 0;
            while j < self.requests[i].1.len()
                invariant
                    i < self.requests@.len(),
                    j <= self.requests@[i as int].1@.len(),
                    address == self.requests@[i as int].0,
                    result.deep_view() =~= flattened_requests(self.requests@.take(i as int))
                        + account_request_views(
                        address,
                        self.requests@[i as int].1@.take(j as int),
                    ),
                decreases self.requests@[i as int].1@.len() - j,
            {
                let entry = &self.requests[i].1[j];
                let ghost prev = result.deep_view();
                result.push(
                    RequestView {
                        address,
                        nonce: entry.0,
                        data: crate::bytes::copy_bytes(&entry.1.data),
                    },
                );
                proof {
                    assert(result.deep_view() =~= prev.push(
                        RequestViewModel {
                            address,
                            nonce: self.requests@[i as int].1@[j as int].0,
                            data: self.requests@[i as int].1@[j as int].1.data@,
                        },
                    ));
                    assert(account_request_views(
                        address,
                        self.requests@[i as int].1@.take(j as int + 1),
                    ) =~= account_request_views(
                        address,
                        self.requests@[i as int].1@.take(j as int),
                    ).push(
                        RequestViewModel {
                            address,
                            nonce: self.requests@[i as int].1@[j as int].0,
                            data: self.requests@[i as int].1@[j as int].1.data@,
                        },
                    ));
                    assert(result.deep_view() =~= flattened_requests(
                        self.requests@.take(i as int),
                    ) + account_request_views(
                        address,
                        self.requests@[i as int].1@.take(j as int + 1),
                    ));
                }
                j = j + 1;
            }
            proof {
                assert(self.requests@[i as int].1@.take(
                    self.requests@[i as int].1@.len() as int,
                ) =~= self.requests@[i as int].1@);
                assert(self.requests@.take(i as int + 1).drop_last() =~= self.requests@.take(
                    i as int,
                ));
                assert(self.requests@.take(i as int + 1).last() == self.requests@[i as int]);
            }
            i = i + 1;
        }
        proof {
            assert(self.requests@.take(self.requests@.len() as int) =~= self.requests@);
        }
        result
    }

    /// Fails unless `caller` is an authorized node.
    pub fn only_authorized_node(&self, caller: u64) -> (r: Result<(), OracleError>)
        ensures
            r == (if self.is_authorized(caller) {
                Ok::<(), OracleError>(())
            } else {
                Err::<(), OracleError>(OracleError::NotAuthorizedNode)
            }),
    {
        let mut i: usize = 0;
        while i < self.authorized_nodes.len()
            invariant
                i <= self.authorized_nodes@.len(),
                forall|k: int| 0 <= k < i ==> self.authorized_nodes@[k] != caller,
            decreases self.authorized_nodes@.len() - i,
        {
            if self.authorized_nodes[i] == caller {
                return Ok(());
            }
            i = i + 1;
        }
        proof {
            if self.is_authorized(caller) {
                let k = choose|k: int|
                    0 <= k < self.authorized_nodes@.len() && self.authorized_nodes@[k] == caller;
            }
        }
        Err(OracleError::NotAuthorizedNode)
    }

    /// Files a request under the caller's next nonce: the nonce must not be
    /// taken and must continue the caller's sequence (the first request
    /// carries nonce zero).
    pub fn request(
        &mut self,
        caller: u64,
        callback_address: u64,
        callback_method: Vec<u8>,
        nonce: u64,
        data: Vec<u8>,
    ) -> (r: Result<(), OracleError>)
        requires
            old(self).wf(),
        ensures
            final(self).wf(),
            r == ({
                let filed = match old(self).requests_of(caller) {
                    Some(m) => m,
                    None => Seq::<(u64, OracleRequestModel)>::empty(),
                };
                if has_key(filed, nonce) {
                    Err::<(), OracleError>(OracleError::ExistingRequest)
                } else if !(match value_of(old(self).nonces@, caller) {
                    Some(last) => nonce == last + 1,
                    None => nonce == 0,
                }) {
                    Err::<(), OracleError>(OracleError::InvalidNonce)
                } else {
                    Ok::<(), OracleError>(())
                }
            }),
            r is Err ==> *final(self) == *old(self),
            r is Ok ==> {
                let filed = match old(self).requests_of(caller) {
                    Some(m) => m,
                    None => Seq::<(u64, OracleRequestModel)>::empty(),
                };
                &&& final(self).requests_of(caller) == Some(
                    inserted(
                        filed,
                        nonce,
                        OracleRequestModel {
                            caller,
                            callback_address,
                            callback_method: callback_method@,
                            data: data@,
                        },
                    ),
                )
                &&& forall|a: u64|
                    a != caller ==> #[trigger] final(self).requests_of(a) == old(self).requests_of(
                        a,
                    )
                &&& value_of(final(self).nonces@, caller) == Some(nonce)
                &&& forall|a: u64|
                    a != caller ==> value_of(#[trigger] final(self).nonces@, a) == value_of(
                        old(self).nonces@,
                        a,
                    )
                &&& *final(self) == (Oracle {
                    nonces: final(self).nonces,
                    requests: final(self).requests,
                    ..*old(self)
                })
            },
    {
        let ghost m0 = *self;
        let found = crate::keyed::find_key(&self.requests, caller);
        let mut caller_requests: Vec<(u64, OracleRequest)> = match found {
            Some(i) => {
                let mut copied: Vec<(u64, OracleRequest)> = Vec::new();
                let mut j: usize = 0;
                while j < self.requests[i].1.len()
                    invariant
                        i < self.requests@.len(),
                        j <= self.requests@[i as int].1@.len(),
                        copied@.len() == j,
                        forall|k: int|
                            0 <= k < j ==> (#[trigger] copied@[k]).0
                                == self.requests@[i as int].1@[k].0 && copied@[k].1@
                                == self.requests@[i as int].1@[k].1@,
                    decreases self.requests@[i as int].1@.len() - j,
                {
                    let entry = &self.requests[i].1[j];
                    let request_copy = OracleRequest {
                        caller: entry.1.caller,
                        callback_address: entry.1.callback_address,
                        callback_method: crate::bytes::copy_bytes(&entry.1.callback_method),
                        data: crate::bytes::copy_bytes(&entry.1.data),
                    };
                    copied.push((entry.0, request_copy));
                    j = j + 1;
                }
                copied
            },
            None => Vec::new(),
        };
        proof {
            assert(account_requests_model(caller_requests@) == (match m0.requests_of(caller) {
                Some(m) => m,
                None => Seq::<(u64, OracleRequestModel)>::empty(),
            })) by {
                if found is Some {
                    assert(account_requests_model(caller_requests@) =~= account_requests_model(
                        self.requests@[found->Some_0 as int].1@,
                    ));
                } else {
                    if has_key(self.requests@, caller) {
                        let k = crate::keyed::index_of_key(self.requests@, caller);
                    }
                    assert(account_requests_model(caller_requests@) =~= Seq::<
                        (u64, OracleRequestModel),
                    >::empty());
                }
            }
            assert(unique_keys(caller_requests@)) by {
                if found is Some {
                    assert(unique_keys(self.requests@[found->Some_0 as int].1@));
                }
            }
        }
        if crate::keyed::contains_key(&caller_requests, nonce) {
            proof {
                let filed = account_requests_model(caller_requests@);
                let k = crate::keyed::index_of_key(caller_requests@, nonce);
                assert(filed[k].0 == nonce);
                assert(has_key(filed, nonce));
            }
            return Err(OracleError::ExistingRequest);
        }
        proof {
            let filed = account_requests_model(caller_requests@);
            if has_key(filed, nonce) {
                let k = crate::keyed::index_of_key(filed, nonce);
                assert(caller_requests@[k].0 == nonce);
            }
        }
        let expected_ok = match crate::keyed::find_key(&self.nonces, caller) {
            Some(i) => (nonce as u128) == (self.nonces[i].1 as u128) + 1,
            None => nonce == 0,
        };
        if !expected_ok {
            return Err(OracleError::InvalidNonce);
        }
        let new_request = OracleRequest { caller, callback_address, callback_method, data };
        proof {
            crate::keyed::lemma_inserted(caller_requests@, nonce, new_request);
            crate::keyed::lemma_inserted(
                account_requests_model(caller_requests@),
                nonce,
                new_request@,
            );
        }
        crate::keyed::insert_entry(&mut caller_requests, nonce, new_request);
        proof {
            crate::keyed::lemma_inserted(self.requests@, caller, caller_requests);
            crate::keyed::lemma_inserted(self.nonces@, caller, nonce);
            assert(account_requests_model(caller_requests@) =~= inserted(
                account_requests_model(old(self).requests_of_or_empty(caller)),
                nonce,
                OracleRequestModel {
                    caller,
                    callback_address: new_request.callback_address,
                    callback_method: new_request.callback_method@,
                    data: new_request.data@,
                },
            )) by {
                assert(account_requests_model(caller_requests@).len() == caller_requests@.len());
            }
        }
        crate::keyed::insert_entry(&mut self.requests, caller, caller_requests);
        crate::keyed::insert_entry(&mut self.nonces, caller, nonce);
        proof {
            assert forall|a: u64| a != caller implies #[trigger] self.requests_of(a) == old(
                self,
            ).requests_of(a) by {
                assert(value_of(self.requests@, a) == value_of(old(self).requests@, a));
            }
            assert forall|i: int|
                0 <= i < self.requests@.len() implies unique_keys(
                (#[trigger] self.requests@[i]).1@,
            ) by {
                if self.requests@[i].0 != caller {
                    crate::keyed::lemma_key_index_unique(self.requests@, self.requests@[i].0, i);
                    assert(value_of(self.requests@, self.requests@[i].0) == value_of(
                        old(self).requests@,
                        self.requests@[i].0,
                    ));
                    if has_key(old(self).requests@, self.requests@[i].0) {
                        let k = crate::keyed::index_of_key(
                            old(self).requests@,
                            self.requests@[i].0,
                        );
                        assert(unique_keys(old(self).requests@[k].1@));
                    }
                } else {
                    crate::keyed::lemma_key_index_unique(self.requests@, caller, i);
                }
            }
        }
        Ok(())
    }

    /// The requests filed under `address`, or the empty table.
    pub open spec fn requests_of_or_empty(self, address: u64) -> Seq<(u64, OracleRequest)> {
        match value_of(self.requests@, address) {
            Some(v) => v@,
            None => Seq::<(u64, OracleRequest)>::empty(),
        }
    }

    /// Takes the request filed under `(address, nonce)` out of the table and
    /// hands back the callback the host is to perform with the answer
    /// `data`.  Only an authorized node may fulfill.
    pub fn fulfill_request(&mut self, caller: u64, address: u64, nonce: u64, data: Vec<u8>) -> (r:
        Result<ReplyCall, OracleError>)
        requires
            old(self).wf(),
        ensures
            final(self).wf(),
            ({
                if !old(self).is_authorized(caller) {
                    r == Err::<ReplyCall, OracleError>(OracleError::NotAuthorizedNode)
                        && *final(self) == *old(self)
                } else {
                    match old(self).requests_of(address) {
                        None => r == Err::<ReplyCall, OracleError>(OracleError::AccountNotFound)
                            && *final(self) == *old(self),
                        Some(filed) => if !has_key(filed, nonce) {
                            r == Err::<ReplyCall, OracleError>(OracleError::RequestNotFound)
                                && *final(self) == *old(self)
                        } else {
                            &&& r matches Ok(call) && call.callback_address == value_of(
                                filed,
                                nonce,
                            )->Some_0.callback_address && call.nonce == nonce && call.data@ == data@
                            &&& final(self).requests_of(address) == Some(removed(filed, nonce))
                            &&& forall|a: u64|
                                a != address ==> #[trigger] final(self).requests_of(a) == old(
                                    self,
                                ).requests_of(a)
                            &&& *final(self) == (Oracle {
                                requests: final(self).requests,
                                ..*old(self)
                            })
                        },
                    }
                }
            }),
    {
        match self.only_authorized_node(caller) {
            Ok(()) => {},
            Err(e) => {
                return Err(e);
            },
        }
        let ai = match crate::keyed::find_key(&self.requests, address) {
            Some(i) => i,
            None => {
                return Err(OracleError::AccountNotFound);
            },
        };
        proof {
            assert(unique_keys(self.requests@[ai as int].1@));
        }
        let ni = match crate::keyed::find_key(&self.requests[ai].1, nonce) {
            Some(i) => i,
            None => {
                proof {
                    let filed = account_requests_model(self.requests@[ai as int].1@);
                    if has_key(filed, nonce) {
                        let k = crate::keyed::index_of_key(filed, nonce);
                        assert(self.requests@[ai as int].1@[k].0 == nonce);
                    }
                }
                return Err(OracleError::RequestNotFound);
            },
        };
        proof {
            let filed = account_requests_model(self.requests@[ai as int].1@);
            assert(filed[ni as int].0 == nonce);
            crate::keyed::lemma_key_index_unique(filed, nonce, ni as int);
            crate::keyed::lemma_removed(filed, nonce);
            crate::keyed::lemma_removed(self.requests@[ai as int].1@, nonce);
            crate::keyed::lemma_key_index_unique(self.requests@[ai as int].1@, nonce, ni as int);
        }
        let callback_address = self.requests[ai].1[ni].1.callback_address;
        let mut account_requests: Vec<(u64, OracleRequest)> = Vec::new();
        let mut j: usize = 0;
        while j < self.requests[ai].1.len()
            invariant
                ai < self.requests@.len(),
                ni < self.requests@[ai as int].1@.len(),
                j <= self.requests@[ai as int].1@.len(),
                account_requests@.len() == (if j <= ni {
                    j as int
                } else {
                    j - 1
                }),
                forall|k: int|
                    0 <= k < account_requests@.len() ==> {
                        let k0 = if k < ni {
                            k
                        } else {
                            k + 1
                        };
                        (#[trigger] account_requests@[k]).0 == self.requests@[ai as int].1@[k0].0
                            && account_requests@[k].1@ == self.requests@[ai as int].1@[k0].1@
                    },
            decreases self.requests@[ai as int].1@.len() - j,
        {
            if j != ni {
                let entry = &self.requests[ai].1[j];
                let request_copy = OracleRequest {
                    caller: entry.1.caller,
                    callback_address: entry.1.callback_address,
                    callback_method: crate::bytes::copy_bytes(&entry.1.callback_method),
                    data: crate::bytes::copy_bytes(&entry.1.data),
                };
                account_requests.push((entry.0, request_copy));
            }
            j = j + 1;
        }
        proof {
            let filed = account_requests_model(old(self).requests_of_or_empty(address));
            assert(account_requests_model(account_requests@) =~= removed(filed, nonce));
            assert(unique_keys(account_requests@)) by {
                let orig = self.requests@[ai as int].1@;
                assert forall|a: int, b: int|
                    0 <= a < b < account_requests@.len() implies (#[trigger] account_requests@[a]).0
                    != (#[trigger] account_requests@[b]).0 by {
                    let a0 = if a < ni {
                        a
                    } else {
                        a + 1
                    };
                    let b0 = if b < ni {
                        b
                    } else {
                        b + 1
                    };
                    assert(orig[a0].0 != orig[b0].0);
                }
            }
            crate::keyed::lemma_inserted(self.requests@, address, account_requests);
        }
        crate::keyed::insert_entry(&mut self.requests, address, account_requests);
        proof {
            assert forall|a: u64| a != address implies #[trigger] self.requests_of(a) == old(
                self,
            ).requests_of(a) by {
                assert(value_of(self.requests@, a) == value_of(old(self).requests@, a));
            }
            assert forall|i: int|
                0 <= i < self.requests@.len() implies unique_keys(
                (#[trigger] self.requests@[i]).1@,
            ) by {
                if self.requests@[i].0 != address {
                    crate::keyed::lemma_key_index_unique(self.requests@, self.requests@[i].0, i);
                    assert(value_of(self.requests@, self.requests@[i].0) == value_of(
                        old(self).requests@,
                        self.requests@[i].0,
                    ));
                    if has_key(old(self).requests@, self.requests@[i].0) {
                        let k = crate::keyed::index_of_key(
                            old(self).requests@,
                            self.requests@[i].0,
                        );
                        assert(unique_keys(old(self).requests@[k].1@));
                    }
                } else {
                    crate::keyed::lemma_key_index_unique(self.requests@, address, i);
                }
            }
        }
        Ok(ReplyCall { callback_address, nonce, data })
    }

    /// Builds the single-value submission the owner relays to an aggregator.
    pub fn submit(&self, caller: u64, aggregator: u64, round_id: u64, submission: u64) -> (r:
        Result<SubmitCall, OracleError>)
        ensures
            caller != self.owner ==> r == Err::<SubmitCall, OracleError>(OracleError::OnlyOwner),
            caller == self.owner ==> (r matches Ok(call) && call.aggregator == aggregator
                && call.round_id == round_id && call.values@ == seq![submission]),
    {
        if caller != self.owner {
            return Err(OracleError::OnlyOwner);
        }
        let mut values: Vec<u64> = Vec::new();
        values.push(submission);
        proof {
            assert(values@ =~= seq![submission]);
        }
        Ok(SubmitCall { aggregator, round_id, values })
    }

    /// Authorizes `node` to fulfill requests.  Only the owner may do this.
    pub fn add_authorization(&mut self, caller: u64, node: u64) -> (r: Result<(), OracleError>)
        requires
            old(self).wf(),
        ensures
            final(self).wf(),
            r == (if caller != old(self).owner {
                Err::<(), OracleError>(OracleError::OnlyOwner)
            } else if old(self).is_authorized(node) {
                Err::<(), OracleError>(OracleError::AlreadyAuthorized)
            } else {
                Ok::<(), OracleError>(())
            }),
            r is Err ==> *final(self) == *old(self),
            r is Ok ==> final(self).authorized_nodes@ == old(self).authorized_nodes@.push(node)
                && *final(self) == (Oracle {
                authorized_nodes: final(self).authorized_nodes,
                ..*old(self)
            }),
    {
        if caller != self.owner {
            return Err(OracleError::OnlyOwner);
        }
        match self.only_authorized_node(node) {
            Ok(()) => Err(OracleError::AlreadyAuthorized),
            Err(_) => {
                self.authorized_nodes.push(node);
                Ok(())
            },
        }
    }

    /// Withdraws `node`'s authorization.  Only the owner may do this.
    pub fn remove_authorization(&mut self, caller: u64, node: u64) -> (r: Result<(), OracleError>)
        requires
            old(self).wf(),
        ensures
            final(self).wf(),
            r == (if caller != old(self).owner {
                Err::<(), OracleError>(OracleError::OnlyOwner)
            } else if !old(self).is_authorized(node) {
                Err::<(), OracleError>(OracleError::AuthorizationNotFound)
            } else {
                Ok::<(), OracleError>(())
            }),
            r is Err ==> *final(self) == *old(self),
            r is Ok ==> !final(self).is_authorized(node) && (forall|n: u64|
                n != node ==> final(self).is_authorized(n) == old(self).is_authorized(n))
                && *final(self) == (Oracle {
                authorized_nodes: final(self).authorized_nodes,
                ..*old(self)
            }),
    {
        if caller != self.owner {
            return Err(OracleError::OnlyOwner);
        }
        let mut i: usize = 0;
        while i < self.authorized_nodes.len()
            invariant
                old(self).wf(),
                *self == *old(self),
                caller == self.owner,
                i <= self.authorized_nodes@.len(),
                forall|k: int| 0 <= k < i ==> self.authorized_nodes@[k] != node,
            decreases self.authorized_nodes@.len() - i,
        {
            if self.authorized_nodes[i] == node {
                proof {
                    assert(old(self).authorized_nodes@[i as int] == node);
                    assert(old(self).is_authorized(node));
                }
                self.authorized_nodes.remove(i);
                proof {
                    let t = self.authorized_nodes@;
                    let s = old(self).authorized_nodes@;
                    assert forall|a: int, b: int| 0 <= a < b < t.len() implies t[a] != t[b] by {
                        let a0 = if a < i {
                            a
                        } else {
                            a + 1
                        };
                        let b0 = if b < i {
                            b
                        } else {
                            b + 1
                        };
                        assert(t[a] == s[a0] && t[b] == s[b0]);
                    }
                    assert(!self.is_authorized(node)) by {
                        if self.is_authorized(node) {
                            let k = choose|k: int| 0 <= k < t.len() && t[k] == node;
                            let k0 = if k < i {
                                k
                            } else {
                                k + 1
                            };
                            assert(s[k0] == node && s[i as int] == node);
                        }
                    }
                    assert forall|n: u64| n != node implies self.is_authorized(n) == old(
                        self,
                    ).is_authorized(n) by {
                        if old(self).is_authorized(n) {
                            let k = choose|k: int| 0 <= k < s.len() && s[k] == n;
                            let k1 = if k < i {
                                k
                            } else {
                                k - 1
                            };
                            assert(t[k1] == n);
                        }
                        if self.is_authorized(n) {
                            let k = choose|k: int| 0 <= k < t.len() && t[k] == n;
                        }
                    }
                }
                return Ok(());
            }
            i = i + 1;
        }
        proof {
            if self.is_authorized(node) {
                let k = choose|k: int|
                    0 <= k < self.authorized_nodes@.len() && self.authorized_nodes@[k] == node;
            }
        }
        Err(OracleError::AuthorizationNotFound)
    }
}

} // verus!
