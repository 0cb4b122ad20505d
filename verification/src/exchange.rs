//! The token exchange that consumes the aggregator's answers: deposits fund
//! per-token balances, an exchange credits the incoming payment, asks the
//! aggregator for the latest round and — when the answer arrives — converts
//! at the aggregated rate and pays out, or refunds.  Decimal formatting of
//! amounts lives here too.

use vstd::prelude::*;

verus! {

use crate::aggregator_interface::Round;
use crate::keyed::has_key;
use crate::keyed::inserted;
use crate::keyed::unique_keys;
use crate::keyed::value_of;
use vstd::string::StringSliceAdditionalSpecFns;

/// The decimal digits of `n`, most significant first, no leading zeros
/// (`0` is written as one digit).
pub open spec fn dec_digits(n: nat) -> Seq<u8>
    decreases n,
{
    if n < 10 {
        seq![(48 + n) as u8]
    } else {
        dec_digits(n / 10).push((48 + n % 10) as u8)
    }
}

/// `k` ASCII zeros.
pub open spec fn zero_digits(k: nat) -> Seq<u8> {
    Seq::new(k, |i: int| 48u8)
}

/// `n` written with exactly `decimals` digits after an ASCII dot, zero-padded
/// on the left so at least one digit precedes the dot.
pub open spec fn fixed_precision_digits(n: nat, decimals: nat) -> Seq<u8> {
    let digits = dec_digits(n);
    let padded = if digits.len() < decimals + 1 {
        zero_digits((decimals + 1 - digits.len()) as nat) + digits
    } else {
        digits
    };
    let before = padded.len() - decimals;
    padded.take(before as int) + seq![46u8] + padded.skip(before as int)
}

/// Writes a number in decimal, most significant digit first.
pub fn format_biguint(number: u128) -> (r: Vec<u8>)
    ensures
        r@ == dec_digits(number as nat),
        r@.len() >= 1,
    decreases number,
{
    if number < 10 {
        let mut r: Vec<u8> = Vec::new();
        r.push(48 + (number as u8));
        proof {
            assert(r@ =~= dec_digits(number as nat));
        }
        r
    } else {
        let mut r = format_biguint(number / 10);
        r.push(48 + ((number % 10) as u8));
        r
    }
}

/// Writes a number with exactly `decimals` digits after the decimal dot,
/// zero-padding on the left where the number is too short.
pub fn format_fixed_precision(number: u128, decimals: usize) -> (r: Vec<u8>)
    requires
        decimals + 42 <= usize::MAX,
    ensures
        r@ == fixed_precision_digits(number as nat, decimals as nat),
{
    let formatted_number = format_biguint(number);
    let padding_length = if decimals + 1 >= formatted_number.len() {
        decimals + 1 - formatted_number.len()
    } else {
        0
    };
    let mut padded_number: Vec<u8> = Vec::new();
    let mut i: usize = 0;
    while i < padding_length
        invariant
            i <= padding_length,
            padded_number@ =~= zero_digits(i as nat),
        decreases padding_length - i,
    {
        padded_number.push(48);
        proof {
            assert(padded_number@ =~= zero_digits(i as nat + 1));
        }
        i = i + 1;
    }
    let mut j: usize = 0;
    while j < formatted_number.len()
        invariant
            j <= formatted_number@.len(),
            padded_number@ =~= zero_digits(padding_length as nat) + formatted_number@.take(
                j as int,
            ),
        decreases formatted_number@.len() - j,
    {
        padded_number.push(formatted_number[j]);
        proof {
            assert(padded_number@ =~= zero_digits(padding_length as nat) + formatted_number@.take(
                j as int + 1,
            ));
        }
        j = j + 1;
    }
    proof {
        assert(formatted_number@.take(formatted_number@.len() as int) =~= formatted_number@);
        let digits = dec_digits(number as nat);
        if digits.len() < decimals + 1 {
            assert(padded_number@ =~= zero_digits((decimals + 1 - digits.len()) as nat) + digits);
        } else {
            assert(zero_digits(0) =~= Seq::<u8>::empty());
            assert(padded_number@ =~= digits);
        }
    }
    let digits_before_dot = padded_number.len() - decimals;
    let mut result: Vec<u8> = Vec::new();
    let mut k: usize = 0;
    while k < digits_before_dot
        invariant
            digits_before_dot <= padded_number@.len(),
            k <= digits_before_dot,
            result@ =~= padded_number@.take(k as int),
        decreases digits_before_dot - k,
    {
        result.push(padded_number[k]);
        proof {
            assert(result@ =~= padded_number@.take(k as int + 1));
        }
        k = k + 1;
    }
    result.push(46);
    let mut l: usize = digits_before_dot;
    while l < padded_number.len()
        invariant
            digits_before_dot <= l <= padded_number@.len(),
            result@ =~= padded_number@.take(digits_before_dot as int) + seq![46u8]
                + padded_number@.subrange(digits_before_dot as int, l as int),
        decreases padded_number@.len() - l,
    {
        result.push(padded_number[l]);
        proof {
            assert(result@ =~= padded_number@.take(digits_before_dot as int) + seq![46u8]
                + padded_number@.subrange(digits_before_dot as int, l as int + 1));
        }
        l = l + 1;
    }
    proof {
        assert(padded_number@.subrange(
            digits_before_dot as int,
            padded_number@.len() as int,
        ) =~= padded_number@.skip(digits_before_dot as int));
    }
    result
}

/// What an asynchronous round fetch came back with: the aggregator's latest
/// round (if it has one), or the host's error message for a failed call.
pub enum FetchResult {
    Answer(Option<Round>),
    Failed(Vec<u8>),
}

/// The mathematical content of [`FetchResult`].
#[verifier::ext_equal]
pub ghost enum FetchModel {
    Answer(Option<crate::aggregator_interface::RoundModel>),
    Failed(Seq<u8>),
}

impl View for FetchResult {
    type V = FetchModel;

    open spec fn view(&self) -> FetchModel {
        match self {
            FetchResult::Answer(r) => FetchModel::Answer(r.deep_view()),
            FetchResult::Failed(m) => FetchModel::Failed(m@),
        }
    }
}

/// A transfer for the host to perform: pay `amount` of `token` to `to`, with
/// an attached message.
pub struct Transfer {
    pub to: u64,
    pub token: Vec<u8>,
    pub amount: u128,
    pub message: Vec<u8>,
}

/// An exchange accepted for processing: the host is to fetch the
/// aggregator's latest round and hand the outcome to `finalize_exchange`
/// together with these values.
#[derive(Debug)]
pub struct ExchangeRequest {
    pub caller: u64,
    pub payment: u128,
    pub source_token: Vec<u8>,
    pub target_token: Vec<u8>,
}

/// The position of the first ASCII slash at or after `i`.
pub open spec fn slash_pos(d: Seq<u8>, i: int) -> Option<int>
    decreases d.len() - i,
{
    if i < 0 || i >= d.len() {
        None
    } else if d[i] == 47 {
        Some(i)
    } else {
        slash_pos(d, i + 1)
    }
}

/// The verdict on an aggregator description against the two tokens of an
/// exchange: the description splits at its first slash into a leading token
/// and a trailing part (which keeps the slash, as the original layout does);
/// a match in order means a direct exchange, a match in reverse order a
/// reverse one, anything else is unsupported.
pub open spec fn check_tokens_spec(d: Seq<u8>, source: Seq<u8>, target: Seq<u8>) -> Result<
    bool,
    Seq<u8>,
> {
    match slash_pos(d, 0) {
        None => Err(("Invalid aggregator description format (expected 2 tokens)").spec_bytes()),
        Some(p) => {
            let first = d.take(p);
            let second = d.skip(p);
            if first == source && second == target {
                Ok(false)
            } else if first == target && second == source {
                Ok(true)
            } else {
                Err(("Exchange between chosen token types not supported.").spec_bytes())
            }
        },
    }
}

/// Ten to the `k`th power.
pub open spec fn ten_pow(k: nat) -> int
    decreases k,
{
    if k == 0 {
        1
    } else {
        10 * ten_pow((k - 1) as nat)
    }
}

/// The human-readable account of one conversion.
pub open spec fn conversion_message_of(
    payment: u128,
    source: Seq<u8>,
    rate: u128,
    rate_precision: nat,
    converted: u128,
    target: Seq<u8>,
) -> Seq<u8> {
    ("conversion from ").spec_bytes() + dec_digits(payment as nat) + (" of ").spec_bytes() + source
        + (", using exchange rate ").spec_bytes() + fixed_precision_digits(rate as nat, rate_precision)
        + (", results in ").spec_bytes() + dec_digits(converted as nat) + (" of ").spec_bytes() + target
}

/// A conversion at rate `multiplier / divisor`: the converted amount, and
/// the message describing it, or why it cannot be done.  Amounts past what
/// the ledger's integers can hold are rejected.
pub open spec fn convert_spec(
    amount: u128,
    source: Seq<u8>,
    target: Seq<u8>,
    multiplier: u128,
    divisor: u128,
    precision_factor: u128,
    decimals: nat,
) -> Result<(u128, Seq<u8>), Seq<u8>> {
    if divisor == 0 {
        Err(("Convert - dividing by 0").spec_bytes())
    } else if amount * multiplier > u128::MAX || multiplier * precision_factor > u128::MAX {
        Err(("conversion amount out of range").spec_bytes())
    } else {
        let converted = (amount * multiplier / divisor as int) as u128;
        let rate = (multiplier * precision_factor / divisor as int) as u128;
        Ok(
            (
                converted,
                conversion_message_of(amount, source, rate, decimals, converted, target),
            ),
        )
    }
}

/// A conversion of `payment` at `exchange_rate` with `decimals` digits of
/// precision, in the direct or the reverse direction.
pub open spec fn converted_sum_spec(
    payment: u128,
    source: Seq<u8>,
    target: Seq<u8>,
    exchange_rate: u128,
    decimals: nat,
    reverse_exchange: bool,
) -> Result<(u128, Seq<u8>), Seq<u8>> {
    if ten_pow(decimals) > u128::MAX {
        Err(("conversion amount out of range").spec_bytes())
    } else {
        let pf = ten_pow(decimals) as u128;
        if !reverse_exchange {
            convert_spec(payment, source, target, exchange_rate, pf, pf, decimals)
        } else {
            convert_spec(payment, source, target, pf, exchange_rate, pf, decimals)
        }
    }
}

/// The complaint about a balance too small for `amount`.
pub open spec fn insufficient_balance_msg(balance: u128, token: Seq<u8>) -> Seq<u8> {
    ("Insufficient balance: only ").spec_bytes() + dec_digits(balance as nat) + (" of ").spec_bytes() + token
        + (" available").spec_bytes()
}

/// The complaint about a token with no balance at all.
pub open spec fn no_tokens_msg(token: Seq<u8>) -> Seq<u8> {
    ("No ").spec_bytes() + token + (" tokens are available").spec_bytes()
}

/// The verdict of drawing `amount` of `token` from a balance table, and the
/// table afterwards.
pub open spec fn checked_decrease_spec(
    balances: Seq<(Seq<u8>, u128)>,
    token: Seq<u8>,
    amount: u128,
) -> (Result<(), Seq<u8>>, Seq<(Seq<u8>, u128)>) {
    match value_of(balances, token) {
        Some(balance) => if balance < amount {
            (Err(insufficient_balance_msg(balance, token)), balances)
        } else {
            (Ok(()), inserted(balances, token, (balance - amount) as u128))
        },
        None => (Err(no_tokens_msg(token)), balances),
    }
}

/// The verdict of an arrived round fetch, and the balance table afterwards:
/// a usable answer converts the payment and draws the converted amount from
/// the target balance; a failed fetch returns the payment from the source
/// balance; every complaint names its reason.
pub open spec fn try_convert_spec(
    balances: Seq<(Seq<u8>, u128)>,
    result: FetchModel,
    payment: u128,
    source: Seq<u8>,
    target: Seq<u8>,
) -> (Result<(u128, Seq<u8>), Seq<u8>>, Seq<(Seq<u8>, u128)>) {
    match result {
        FetchModel::Answer(opt_round) => match opt_round {
            None => (Err(("no round data").spec_bytes()), balances),
            Some(round) => match round.answer {
                None => (Err(("no aggregator data").spec_bytes()), balances),
                Some(values) => if values.len() != 1 {
                    (Err(("invalid aggregator data format").spec_bytes()), balances)
                } else {
                    match check_tokens_spec(round.description, source, target) {
                        Err(m) => (Err(m), balances),
                        Ok(reverse) => match converted_sum_spec(
                            payment,
                            source,
                            target,
                            values[0] as u128,
                            round.decimals as nat,
                            reverse,
                        ) {
                            Err(m) => (Err(m), balances),
                            Ok((converted, message)) => {
                                let (verdict, after) = checked_decrease_spec(
                                    balances,
                                    target,
                                    converted,
                                );
                                match verdict {
                                    Err(m) => (Err(m + (" (").spec_bytes() + message + (")").spec_bytes()), after),
                                    Ok(_) => (Ok((converted, message)), after),
                                }
                            },
                        },
                    }
                },
            },
        },
        FetchModel::Failed(err_msg) => {
            let (verdict, after) = checked_decrease_spec(balances, source, payment);
            match verdict {
                Err(m) => (Err(m), after),
                Ok(_) => (
                    Err(("Error when getting the price feed from the aggregator: ").spec_bytes() + err_msg),
                    after,
                ),
            }
        },
    }
}

/// The exchange's state: the aggregator it consults and its per-token
/// balances.  The owner funds balances; exchanges run against them.
pub struct EgldEsdtExchange {
    pub owner: u64,
    pub aggregator: u64,
    pub balance: Vec<(Vec<u8>, u128)>,
}

impl EgldEsdtExchange {
    /// The balance table with token names abstracted to byte strings.
    pub open spec fn balances(self) -> Seq<(Seq<u8>, u128)> {
        self.balance@.map_values(|e: (Vec<u8>, u128)| (e.0@, e.1))
    }

    /// Unique token names.
    pub open spec fn wf(self) -> bool {
        unique_keys(self.balances())
    }

    /// A fresh exchange consulting the aggregator at `aggregator`.
    pub fn init(owner: u64, aggregator: u64) -> (r: EgldEsdtExchange)
        ensures
            r.wf(),
            r.owner == owner,
            r.aggregator == aggregator,
            r.balances() == Seq::<(Seq<u8>, u128)>::empty(),
    {
        let r = EgldEsdtExchange { owner, aggregator, balance: Vec::new() };
        proof {
            assert(r.balances() =~= Seq::<(Seq<u8>, u128)>::empty());
        }
        r
    }

    /// Finds the balance entry of `token`.
    fn find_balance(&self, token: &Vec<u8>) -> (r: Option<usize>)
        requires
            self.wf(),
        ensures
            match r {
                Some(i) => i < self.balance@.len() && has_key(self.balances(), token@)
                    && crate::keyed::index_of_key(self.balances(), token@) == i,
                None => !has_key(self.balances(), token@),
            },
    {
        let mut i: usize = 0;
        while i < self.balance.len()
            invariant
                self.wf(),
                i <= self.balance@.len(),
                forall|k: int| 0 <= k < i ==> (#[trigger] self.balance@[k]).0@ != token@,
            decreases self.balance@.len() - i,
        {
            if crate::bytes::bytes_eq(&self.balance[i].0, token) {
                proof {
                    crate::keyed::lemma_key_index_unique(self.balances(), token@, i as int);
                }
                return Some(i);
            }
            i = i + 1;
        }
        proof {
            if has_key(self.balances(), token@) {
                let j = crate::keyed::index_of_key(self.balances(), token@);
                assert(self.balances()[j] == (self.balance@[j].0@, self.balance@[j].1));
            }
        }
        None
    }

    /// Adds `amount` to `token`'s balance, creating the entry if needed.
    /// Fails only when the balance would outgrow what the ledger's integers
    /// can hold.
    fn increase_balance(&mut self, token: &Vec<u8>, amount: u128) -> (r: Result<(), Vec<u8>>)
        requires
            old(self).wf(),
        ensures
            final(self).wf(),
            ({
                let balance = match value_of(old(self).balances(), token@) {
                    Some(b) => b,
                    None => 0u128,
                };
                if balance + amount > u128::MAX {
                    r matches Err(m) && m@ == ("balance out of range").spec_bytes() && *final(self) == *old(
                        self,
                    )
                } else {
                    r is Ok && final(self).balances() == inserted(
                        old(self).balances(),
                        token@,
                        (balance + amount) as u128,
                    ) && *final(self) == (EgldEsdtExchange {
                        balance: final(self).balance,
                        ..*old(self)
                    })
                }
            }),
    {
        let found = self.find_balance(token);
        let balance = match found {
            Some(i) => self.balance[i].1,
            None => 0,
        };
        if amount > u128::MAX - balance {
            let mut m: Vec<u8> = Vec::new();
            crate::bytes::append_slice(&mut m, ("balance out of range").as_bytes());
            proof {
                assert(m@ =~= ("balance out of range").spec_bytes());
            }
            return Err(m);
        }
        proof {
            crate::keyed::lemma_inserted(self.balances(), token@, (balance + amount) as u128);
        }
        match found {
            Some(i) => {
                let stored = crate::bytes::copy_bytes(token);
                self.balance.set(i, (stored, balance + amount));
                proof {
                    assert(self.balances() =~= inserted(
                        old(self).balances(),
                        token@,
                        (balance + amount) as u128,
                    ));
                }
            },
            None => {
                let stored = crate::bytes::copy_bytes(token);
                self.balance.push((stored, balance + amount));
                proof {
                    assert(self.balances() =~= inserted(
                        old(self).balances(),
                        token@,
                        (balance + amount) as u128,
                    ));
                }
            },
        }
        Ok(())
    }

    /// Draws `amount` from `token`'s balance.
    fn decrease_balance(&mut self, token: &Vec<u8>, amount: u128)
        requires
            old(self).wf(),
            value_of(old(self).balances(), token@) matches Some(b) && b >= amount,
        ensures
            final(self).wf(),
            final(self).balances() == inserted(
                old(self).balances(),
                token@,
                (value_of(old(self).balances(), token@)->Some_0 - amount) as u128,
            ),
            *final(self) == (EgldEsdtExchange { balance: final(self).balance, ..*old(self) }),
    {
        let i = match self.find_balance(token) {
            Some(i) => i,
            None => {
                proof {
                    assert(false);
                }
                return ;
            },
        };
        let balance = self.balance[i].1;
        let stored = crate::bytes::copy_bytes(token);
        proof {
            crate::keyed::lemma_inserted(self.balances(), token@, (balance - amount) as u128);
        }
        self.balance.set(i, (stored, balance - amount));
        proof {
            assert(self.balances() =~= inserted(
                old(self).balances(),
                token@,
                (value_of(old(self).balances(), token@)->Some_0 - amount) as u128,
            ));
        }
    }

    /// Draws `amount` from `token`'s balance, complaining when the balance is
    /// missing or too small (see [`checked_decrease_spec`]).
    pub fn checked_decrease_balance(&mut self, token: &Vec<u8>, amount: u128) -> (r: Result<
        (),
        Vec<u8>,
    >)
        requires
            old(self).wf(),
        ensures
            final(self).wf(),
            ({
                let (verdict, after) = checked_decrease_spec(old(self).balances(), token@, amount);
                &&& (match (r, verdict) {
                    (Ok(()), Ok(())) => true,
                    (Err(m), Err(vm)) => m@ == vm,
                    _ => false,
                })
                &&& final(self).balances() == after
                &&& *final(self) == (EgldEsdtExchange {
                    balance: final(self).balance,
                    ..*old(self)
                })
            }),
    {
        let found = self.find_balance(token);
        match found {
            Some(i) => {
                let balance = self.balance[i].1;
                if balance < amount {
                    let mut m: Vec<u8> = Vec::new();
                    crate::bytes::append_slice(&mut m, ("Insufficient balance: only ").as_bytes());
                    let digits = format_biguint(balance);
                    crate::bytes::append_vec(&mut m, &digits);
                    crate::bytes::append_slice(&mut m, (" of ").as_bytes());
                    crate::bytes::append_vec(&mut m, token);
                    crate::bytes::append_slice(&mut m, (" available").as_bytes());
                    proof {
                        assert(m@ =~= insufficient_balance_msg(balance, token@));
                    }
                    Err(m)
                } else {
                    self.decrease_balance(token, amount);
                    Ok(())
                }
            },
            None => {
                let mut m: Vec<u8> = Vec::new();
                crate::bytes::append_slice(&mut m, ("No ").as_bytes());
                crate::bytes::append_vec(&mut m, token);
                crate::bytes::append_slice(&mut m, (" tokens are available").as_bytes());
                proof {
                    assert(m@ =~= no_tokens_msg(token@));
                }
                Err(m)
            },
        }
    }

    /// Accepts the owner's deposit of `payment` in `payment_token`.
    pub fn deposit(&mut self, caller: u64, payment_token: &Vec<u8>, payment: u128) -> (r: Result<
        (),
        Vec<u8>,
    >)
        requires
            old(self).wf(),
        ensures
            final(self).wf(),
            caller != old(self).owner ==> (r matches Err(m) && m@ == ("only callable by owner").spec_bytes()
                && *final(self) == *old(self)),
            caller == old(self).owner ==> ({
                let balance = match value_of(old(self).balances(), payment_token@) {
                    Some(b) => b,
                    None => 0u128,
                };
                if balance + payment > u128::MAX {
                    r is Err && *final(self) == *old(self)
                } else {
                    r is Ok && final(self).balances() == inserted(
                        old(self).balances(),
                        payment_token@,
                        (balance + payment) as u128,
                    )
                }
            }),
    {
        if caller != self.owner {
            let mut m: Vec<u8> = Vec::new();
            crate::bytes::append_slice(&mut m, ("only callable by owner").as_bytes());
            proof {
                assert(m@ =~= ("only callable by owner").spec_bytes());
            }
            return Err(m);
        }
        self.increase_balance(payment_token, payment)
    }

    /// Accepts an exchange: the payment must be positive and both tokens
    /// funded; the payment is credited to the source balance and the
    /// request to fetch the aggregator's latest round is handed back for the
    /// host to perform.
    pub fn exchange(
        &mut self,
        caller: u64,
        payment: u128,
        source_token: Vec<u8>,
        target_token: Vec<u8>,
    ) -> (r: Result<ExchangeRequest, Vec<u8>>)
        requires
            old(self).wf(),
        ensures
            final(self).wf(),
            payment == 0 ==> (r matches Err(m) && m@ == ("Payment must be more than 0").spec_bytes()
                && *final(self) == *old(self)),
            payment > 0 && !has_key(old(self).balances(), source_token@) ==> (r matches Err(m)
                && m@ == ("ESDT provided as payment not supported by the exchange").spec_bytes() && *final(self)
                == *old(self)),
            payment > 0 && has_key(old(self).balances(), source_token@) && !has_key(
                old(self).balances(),
                target_token@,
            ) ==> (r matches Err(m) && m@ == ("Target ESDT token not supported by the exchange").spec_bytes()
                && *final(self) == *old(self)),
            payment > 0 && has_key(old(self).balances(), source_token@) && has_key(
                old(self).balances(),
                target_token@,
            ) ==> ({
                let balance = value_of(old(self).balances(), source_token@)->Some_0;
                if balance + payment > u128::MAX {
                    r is Err && *final(self) == *old(self)
                } else {
                    r matches Ok(req) && req.caller == caller && req.payment == payment
                        && req.source_token@ == source_token@ && req.target_token@ == target_token@
                        && final(self).balances() == inserted(
                        old(self).balances(),
                        source_token@,
                        (balance + payment) as u128,
                    )
                }
            }),
    {
        if payment == 0 {
            let mut m: Vec<u8> = Vec::new();
            crate::bytes::append_slice(&mut m, ("Payment must be more than 0").as_bytes());
            proof {
                assert(m@ =~= ("Payment must be more than 0").spec_bytes());
            }
            return Err(m);
        }
        if self.find_balance(&source_token).is_none() {
            let mut m: Vec<u8> = Vec::new();
            crate::bytes::append_slice(&mut m, ("ESDT provided as payment not supported by the exchange").as_bytes());
            proof {
                assert(m@ =~= ("ESDT provided as payment not supported by the exchange").spec_bytes());
            }
            return Err(m);
        }
        if self.find_balance(&target_token).is_none() {
            let mut m: Vec<u8> = Vec::new();
            crate::bytes::append_slice(&mut m, ("Target ESDT token not supported by the exchange").as_bytes());
            proof {
                assert(m@ =~= ("Target ESDT token not supported by the exchange").spec_bytes());
            }
            return Err(m);
        }
        match self.increase_balance(&source_token, payment) {
            Ok(()) => {},
            Err(m) => {
                return Err(m);
            },
        }
        Ok(ExchangeRequest { caller, payment, source_token, target_token })
    }
}

/// Ten to a power is positive.
proof fn lemma_ten_pow_pos(k: nat)
    ensures
        ten_pow(k) >= 1,
    decreases k,
{
    if k > 0 {
        lemma_ten_pow_pos((k - 1) as nat);
    }
}

/// Ten to a power grows with the power.
proof fn lemma_ten_pow_monotone(i: nat, j: nat)
    requires
        i <= j,
    ensures
        ten_pow(i) <= ten_pow(j),
    decreases j,
{
    if i < j {
        lemma_ten_pow_monotone(i, (j - 1) as nat);
        lemma_ten_pow_pos((j - 1) as nat);
    }
}

/// Computes ten to the `k`th power, or nothing when it cannot be held.
fn pow10_u128(k: usize) -> (r: Option<u128>)
    ensures
        match r {
            Some(v) => v == ten_pow(k as nat),
            None => ten_pow(k as nat) > u128::MAX,
        },
{
    let mut acc: u128 = 1;
    let mut i: usize = 0;
    while i < k
        invariant
            i <= k,
            acc == ten_pow(i as nat),
        decreases k - i,
    {
        if acc > u128::MAX / 10 {
            proof {
                vstd::arithmetic::div_mod::lemma_fundamental_div_mod(u128::MAX as int, 10);
                assert(ten_pow(i as nat + 1) == 10 * ten_pow(i as nat));
                lemma_ten_pow_monotone(i as nat + 1, k as nat);
            }
            return None;
        }
        proof {
            vstd::arithmetic::div_mod::lemma_fundamental_div_mod(u128::MAX as int, 10);
        }
        acc = acc * 10;
        proof {
            assert(acc == ten_pow(i as nat + 1));
        }
        i = i + 1;
    }
    Some(acc)
}

impl EgldEsdtExchange {
    /// Decides whether the aggregator's description pairs the two tokens of
    /// this exchange, and in which direction (see [`check_tokens_spec`]).
    pub fn check_aggregator_tokens(
        &self,
        description: &Vec<u8>,
        source_token: &Vec<u8>,
        target_token: &Vec<u8>,
    ) -> (r: Result<bool, Vec<u8>>)
        ensures
            match (r, check_tokens_spec(description@, source_token@, target_token@)) {
                (Ok(b), Ok(vb)) => b == vb,
                (Err(m), Err(vm)) => m@ == vm,
                _ => false,
            },
    {
        let mut i: usize = 0;
        while i < description.len() && description[i] != 47
            invariant
                i <= description@.len(),
                slash_pos(description@, 0) == slash_pos(description@, i as int),
            decreases description@.len() - i,
        {
            i = i + 1;
        }
        let pos = if i < description.len() {
            i
        } else {
                let mut m: Vec<u8> = Vec::new();
                crate::bytes::append_slice(
                    &mut m,
                    ("Invalid aggregator description format (expected 2 tokens)").as_bytes(),
                );
                proof {
                    assert(m@ =~= ("Invalid aggregator description format (expected 2 tokens)").spec_bytes());
                }
                return Err(m);
        };
        let first = crate::bytes::bytes_range(description, 0, pos);
        let second = crate::bytes::bytes_range(description, pos, description.len());
        proof {
            assert(first@ =~= description@.take(pos as int));
            assert(second@ =~= description@.skip(pos as int));
        }
        if crate::bytes::bytes_eq(&first, source_token) && crate::bytes::bytes_eq(
            &second,
            target_token,
        ) {
            return Ok(false);
        }
        if crate::bytes::bytes_eq(&first, target_token) && crate::bytes::bytes_eq(
            &second,
            source_token,
        ) {
            return Ok(true);
        }
        let mut m: Vec<u8> = Vec::new();
        crate::bytes::append_slice(
            &mut m,
            ("Exchange between chosen token types not supported.").as_bytes(),
        );
        proof {
            assert(m@ =~= ("Exchange between chosen token types not supported.").spec_bytes());
        }
        Err(m)
    }

    /// Writes the account of one conversion (see [`conversion_message_of`]).
    pub fn conversion_message(
        &self,
        payment: u128,
        source_token: &Vec<u8>,
        rate: u128,
        rate_precision: usize,
        converted_token: u128,
        target_token: &Vec<u8>,
    ) -> (r: Result<Vec<u8>, Vec<u8>>)
        requires
            rate_precision + 42 <= usize::MAX,
        ensures
            r matches Ok(m) && m@ == conversion_message_of(
                payment,
                source_token@,
                rate,
                rate_precision as nat,
                converted_token,
                target_token@,
            ),
    {
        let mut m: Vec<u8> = Vec::new();
        crate::bytes::append_slice(&mut m, ("conversion from ").as_bytes());
        let payment_digits = format_biguint(payment);
        crate::bytes::append_vec(&mut m, &payment_digits);
        crate::bytes::append_slice(&mut m, (" of ").as_bytes());
        crate::bytes::append_vec(&mut m, source_token);
        crate::bytes::append_slice(&mut m, (", using exchange rate ").as_bytes());
        let rate_digits = format_fixed_precision(rate, rate_precision);
        crate::bytes::append_vec(&mut m, &rate_digits);
        crate::bytes::append_slice(&mut m, (", results in ").as_bytes());
        let converted_digits = format_biguint(converted_token);
        crate::bytes::append_vec(&mut m, &converted_digits);
        crate::bytes::append_slice(&mut m, (" of ").as_bytes());
        crate::bytes::append_vec(&mut m, target_token);
        proof {
            assert(m@ =~= conversion_message_of(
                payment,
                source_token@,
                rate,
                rate_precision as nat,
                converted_token,
                target_token@,
            ));
        }
        Ok(m)
    }

    /// Converts `amount` at rate `multiplier / divisor` (see
    /// [`convert_spec`]).
    pub fn convert(
        &self,
        amount: u128,
        source_token: &Vec<u8>,
        target_token: &Vec<u8>,
        multiplier: u128,
        divisor: u128,
        precision_factor: u128,
        decimals: usize,
    ) -> (r: Result<(u128, Vec<u8>), Vec<u8>>)
        requires
            decimals + 42 <= usize::MAX,
        ensures
            match (r, convert_spec(
                amount,
                source_token@,
                target_token@,
                multiplier,
                divisor,
                precision_factor,
                decimals as nat,
            )) {
                (Ok((a, m)), Ok((va, vm))) => a == va && m@ == vm,
                (Err(m), Err(vm)) => m@ == vm,
                _ => false,
            },
    {
        if divisor == 0 {
            let mut m: Vec<u8> = Vec::new();
            crate::bytes::append_slice(&mut m, ("Convert - dividing by 0").as_bytes());
            proof {
                assert(m@ =~= ("Convert - dividing by 0").spec_bytes());
            }
            return Err(m);
        }
        let product = match amount.checked_mul(multiplier) {
            Some(p) => p,
            None => {
                let mut m: Vec<u8> = Vec::new();
                crate::bytes::append_slice(&mut m, ("conversion amount out of range").as_bytes());
                proof {
                    assert(m@ =~= ("conversion amount out of range").spec_bytes());
                }
                return Err(m);
            },
        };
        let rate_product = match multiplier.checked_mul(precision_factor) {
            Some(p) => p,
            None => {
                let mut m: Vec<u8> = Vec::new();
                crate::bytes::append_slice(&mut m, ("conversion amount out of range").as_bytes());
                proof {
                    assert(m@ =~= ("conversion amount out of range").spec_bytes());
                }
                return Err(m);
            },
        };
        let converted_amount = product / divisor;
        let rate = rate_product / divisor;
        let message = match self.conversion_message(
            amount,
            source_token,
            rate,
            decimals,
            converted_amount,
            target_token,
        ) {
            Ok(m) => m,
            Err(m) => {
                return Err(m);
            },
        };
        Ok((converted_amount, message))
    }

    /// Converts `payment` at `exchange_rate`, directly or in reverse (see
    /// [`converted_sum_spec`]).
    pub fn get_converted_sum(
        &self,
        payment: u128,
        source_token: &Vec<u8>,
        target_token: &Vec<u8>,
        exchange_rate: u128,
        decimals: usize,
        reverse_exchange: bool,
    ) -> (r: Result<(u128, Vec<u8>), Vec<u8>>)
        requires
            decimals + 42 <= usize::MAX,
        ensures
            match (r, converted_sum_spec(
                payment,
                source_token@,
                target_token@,
                exchange_rate,
                decimals as nat,
                reverse_exchange,
            )) {
                (Ok((a, m)), Ok((va, vm))) => a == va && m@ == vm,
                (Err(m), Err(vm)) => m@ == vm,
                _ => false,
            },
    {
        let precision_factor = match pow10_u128(decimals) {
            Some(p) => p,
            None => {
                let mut m: Vec<u8> = Vec::new();
                crate::bytes::append_slice(&mut m, ("conversion amount out of range").as_bytes());
                proof {
                    assert(m@ =~= ("conversion amount out of range").spec_bytes());
                }
                return Err(m);
            },
        };
        if !reverse_exchange {
            self.convert(
                payment,
                source_token,
                target_token,
                exchange_rate,
                precision_factor,
                precision_factor,
                decimals,
            )
        } else {
            self.convert(
                payment,
                source_token,
                target_token,
                precision_factor,
                exchange_rate,
                precision_factor,
                decimals,
            )
        }
    }

    /// Settles an arrived round fetch against the balances (see
    /// [`try_convert_spec`]): a usable answer converts the payment and draws
    /// from the target balance, a failed fetch returns the payment to the
    /// source balance, and every complaint names its reason.
    pub fn try_convert(
        &mut self,
        result: &FetchResult,
        payment: u128,
        source_token: &Vec<u8>,
        target_token: &Vec<u8>,
    ) -> (r: Result<(u128, Vec<u8>), Vec<u8>>)
        requires
            old(self).wf(),
        ensures
            final(self).wf(),
            ({
                let (verdict, after) = try_convert_spec(
                    old(self).balances(),
                    result@,
                    payment,
                    source_token@,
                    target_token@,
                );
                &&& (match (r, verdict) {
                    (Ok((a, m)), Ok((va, vm))) => a == va && m@ == vm,
                    (Err(m), Err(vm)) => m@ == vm,
                    _ => false,
                })
                &&& final(self).balances() == after
                &&& *final(self) == (EgldEsdtExchange {
                    balance: final(self).balance,
                    ..*old(self)
                })
            }),
    {
        match result {
            FetchResult::Answer(opt_round) => {
                let round = match opt_round {
                    Some(round) => round,
                    None => {
                        let mut m: Vec<u8> = Vec::new();
                        crate::bytes::append_slice(&mut m, ("no round data").as_bytes());
                        proof {
                            assert(m@ =~= ("no round data").spec_bytes());
                        }
                        return Err(m);
                    },
                };
                let submission = match &round.answer {
                    Some(submission) => submission,
                    None => {
                        let mut m: Vec<u8> = Vec::new();
                        crate::bytes::append_slice(&mut m, ("no aggregator data").as_bytes());
                        proof {
                            assert(m@ =~= ("no aggregator data").spec_bytes());
                        }
                        return Err(m);
                    },
                };
                if submission.values.len() != 1 {
                    let mut m: Vec<u8> = Vec::new();
                    crate::bytes::append_slice(&mut m, ("invalid aggregator data format").as_bytes());
                    proof {
                        assert(m@ =~= ("invalid aggregator data format").spec_bytes());
                    }
                    return Err(m);
                }
                let exchange_rate = submission.values[0];
                let reverse_exchange = match self.check_aggregator_tokens(
                    &round.description,
                    source_token,
                    target_token,
                ) {
                    Ok(b) => b,
                    Err(m) => {
                        return Err(m);
                    },
                };
                let (converted_amount, conversion_message) = match self.get_converted_sum(
                    payment,
                    source_token,
                    target_token,
                    exchange_rate as u128,
                    round.decimals as usize,
                    reverse_exchange,
                ) {
                    Ok(p) => p,
                    Err(m) => {
                        return Err(m);
                    },
                };
                match self.checked_decrease_balance(target_token, converted_amount) {
                    Err(mut error) => {
                        crate::bytes::append_slice(&mut error, (" (").as_bytes());
                        crate::bytes::append_vec(&mut error, &conversion_message);
                        crate::bytes::append_slice(&mut error, (")").as_bytes());
                        Err(error)
                    },
                    Ok(()) => Ok((converted_amount, conversion_message)),
                }
            },
            FetchResult::Failed(err_msg) => {
                match self.checked_decrease_balance(source_token, payment) {
                    Err(m) => Err(m),
                    Ok(()) => {
                        let mut m: Vec<u8> = Vec::new();
                        crate::bytes::append_slice(
                            &mut m,
                            ("Error when getting the price feed from the aggregator: ").as_bytes(),
                        );
                        crate::bytes::append_vec(&mut m, err_msg);
                        Err(m)
                    },
                }
            },
        }
    }

    /// The callback of an exchange: settles the arrived round fetch and hands
    /// back the transfer the host is to perform — the converted amount in the
    /// target token on success, a refund of the payment in the source token
    /// otherwise, each with its message.
    pub fn finalize_exchange(
        &mut self,
        result: &FetchResult,
        caller: u64,
        payment: u128,
        source_token: &Vec<u8>,
        target_token: &Vec<u8>,
    ) -> (t: Transfer)
        requires
            old(self).wf(),
        ensures
            final(self).wf(),
            ({
                let (verdict, after) = try_convert_spec(
                    old(self).balances(),
                    result@,
                    payment,
                    source_token@,
                    target_token@,
                );
                &&& final(self).balances() == after
                &&& t.to == caller
                &&& (match verdict {
                    Ok((converted, message)) => t.token@ == target_token@ && t.amount == converted
                        && t.message@ == ("exchange succesful (").spec_bytes() + message + (
                    ")").spec_bytes(),
                    Err(error) => t.token@ == source_token@ && t.amount == payment && t.message@
                        == ("refund (").spec_bytes() + error + (")").spec_bytes(),
                })
            }),
    {
        match self.try_convert(result, payment, source_token, target_token) {
            Ok((converted_payment, conversion_message)) => {
                let mut message: Vec<u8> = Vec::new();
                crate::bytes::append_slice(&mut message, ("exchange succesful (").as_bytes());
                crate::bytes::append_vec(&mut message, &conversion_message);
                crate::bytes::append_slice(&mut message, (")").as_bytes());
                Transfer {
                    to: caller,
                    token: crate::bytes::copy_bytes(target_token),
                    amount: converted_payment,
                    message,
                }
            },
            Err(error) => {
                let mut message: Vec<u8> = Vec::new();
                crate::bytes::append_slice(&mut message, ("refund (").as_bytes());
                crate::bytes::append_vec(&mut message, &error);
                crate::bytes::append_slice(&mut message, (")").as_bytes());
                Transfer {
                    to: caller,
                    token: crate::bytes::copy_bytes(source_token),
                    amount: payment,
                    message,
                }
            },
        }
    }
}

} // verus!
