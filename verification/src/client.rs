//! A minimal consumer of the oracle's request/callback relay: it sends
//! numbered requests and stores whatever answer the oracle later delivers.

use vstd::prelude::*;

verus! {

use vstd::string::StringSliceAdditionalSpecFns;

/// The mathematical content of [`ClientData`].
#[verifier::ext_equal]
pub ghost struct ClientDataModel {
    pub nonce: u64,
    pub answer: Seq<u8>,
}

/// The answer most recently delivered by the oracle, with the request number
/// it answers.
pub struct ClientData {
    pub nonce: u64,
    pub answer: Vec<u8>,
}

impl View for ClientData {
    type V = ClientDataModel;

    open spec fn view(&self) -> ClientDataModel {
        ClientDataModel { nonce: self.nonce, answer: self.answer@ }
    }
}

/// A request for the oracle, for the host to send: the oracle is to call
/// `callback_method` on `callback_address` once nonce `nonce` is fulfilled.
pub struct SendRequest {
    pub callback_address: u64,
    pub callback_method: Vec<u8>,
    pub nonce: u64,
    pub data: Vec<u8>,
}

/// The client's state: the oracle it trusts, the answer it last received and
/// the number the next request will carry.
pub struct Client {
    pub oracle_address: u64,
    pub client_data: Option<ClientData>,
    pub nonce: u64,
}

impl Client {
    /// A fresh client trusting the oracle at `oracle_address`.
    pub fn init(oracle_address: u64) -> (r: Client)
        ensures
            r.oracle_address == oracle_address,
            r.client_data is None,
            r.nonce == 0,
    {
        Client { oracle_address, client_data: None, nonce: 0 }
    }

    /// The answer last delivered, if any.
    pub fn get_client_data(&self) -> (r: Option<ClientData>)
        ensures
            match (r, self.client_data) {
                (Some(d), Some(stored)) => d@ == stored@,
                (None, None) => true,
                _ => false,
            },
    {
        match &self.client_data {
            Some(d) => Some(
                ClientData { nonce: d.nonce, answer: crate::bytes::copy_bytes(&d.answer) },
            ),
            None => None,
        }
    }

    /// Prepares the next numbered request for the oracle, aimed back at this
    /// client's own address, and steps the request counter.
    pub fn send_request(&mut self, own_address: u64) -> (r: SendRequest)
        requires
            old(self).nonce < u64::MAX,
        ensures
            r.callback_address == own_address,
            r.callback_method@ == ("reply").spec_bytes(),
            r.nonce == old(self).nonce,
            r.data@ == Seq::<u8>::empty(),
            *final(self) == (Client { nonce: (old(self).nonce + 1) as u64, ..*old(self) }),
    {
        let nonce = self.nonce;
        self.nonce = self.nonce + 1;
        let mut callback_method: Vec<u8> = Vec::new();
        crate::bytes::append_slice(&mut callback_method, ("reply").as_bytes());
        proof {
            assert(callback_method@ =~= ("reply").spec_bytes());
        }
        SendRequest { callback_address: own_address, callback_method, nonce, data: Vec::new() }
    }

    /// Accepts the oracle's answer to request `nonce`.  Only the trusted
    /// oracle may deliver one.
    pub fn reply(&mut self, caller: u64, nonce: u64, answer: Vec<u8>) -> (r: Result<
        (),
        &'static str,
    >)
        ensures
            caller != old(self).oracle_address ==> r == Err::<(), &'static str>(
                "Only oracle can reply",
            ) && *final(self) == *old(self),
            caller == old(self).oracle_address ==> r == Ok::<(), &'static str>(())
                && (final(self).client_data matches Some(d) && d@ == (ClientDataModel {
                nonce,
                answer: answer@,
            })) && *final(self) == (Client {
                client_data: final(self).client_data,
                ..*old(self)
            }),
    {
        if caller != self.oracle_address {
            return Err("Only oracle can reply");
        }
        self.client_data = Some(ClientData { nonce, answer });
        Ok(())
    }
}

} // verus!
