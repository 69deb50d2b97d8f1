//! Betslips: placing a slip of combined bets, its NFT, and paying it out.
use vstd::prelude::*;
use std::collections::HashMap;
use crate::errors::ContractError;
use crate::events::{Transfer, TransferModel};
use crate::nft::{IssueRequest, token_name, token_ticker};
use crate::slip::types::{Bet, Betslip, BetslipAttributes, BetslipModel, Status, copy_bets};
use crate::types::{Address, Payment, PaymentToken};
use crate::utils::{decimal_ascii, fixed_be, sha256, sha256_digest, u64_to_ascii};
use crate::encoding::{betslip_attributes_encoding, encode_betslip_attributes};

verus! {

/// The combined odds of some bets: the product of their odds, from 1, as
/// long as every partial product fits.
pub open spec fn total_odd_result(bets: Seq<Bet>) -> Result<u128, ContractError>
    decreases bets.len(),
{
    if bets.len() == 0 {
        Ok(1)
    } else {
        match total_odd_result(bets.drop_last()) {
            Err(e) => Err(e),
            Ok(p) => if p * bets.last().odd > u128::MAX {
                Err(ContractError::AmountOverflow)
            } else {
                Ok((p * bets.last().odd) as u128)
            },
        }
    }
}

/// The value of some bytes read most significant first.
pub open spec fn be_value(bytes: Seq<u8>) -> nat
    decreases bytes.len(),
{
    if bytes.len() == 0 {
        0
    } else {
        be_value(bytes.drop_last()) * 256 + bytes.last() as nat
    }
}

/// The storage of betslips: each betslip by id, the betslip NFT token and
/// its base URI.
pub struct BetslipStorage {
    pub betslip_by_id: HashMap<u64, Betslip>,
    pub betslip_nft_token: Option<String>,
    pub betslip_nft_base_uri: Vec<u8>,
}

/// What a betslip's NFT is minted with: one unit of the betslip token,
/// named "BetCube Ticket #" and its nonce, with one URI under the base URI,
/// the betslip's figures, unpaid, as attributes, and the SHA-256 digest of
/// their bytes as hash.
pub struct SlipMint {
    pub token: String,
    pub amount: u128,
    pub name: Vec<u8>,
    pub royalties: u64,
    pub hash: Vec<u8>,
    pub attributes: BetslipAttributes,
    pub uris: Vec<Vec<u8>>,
}

/// The URI of a betslip NFT: the base URI, "/betslip/", the nonce and "/nft".
pub open spec fn betslip_uri(base: Seq<u8>, nonce: u64) -> Seq<u8> {
    base + seq![47u8, 98u8, 101u8, 116u8, 115u8, 108u8, 105u8, 112u8, 47u8] + decimal_ascii(nonce as nat) + seq![
        47u8,
        110u8,
        102u8,
        116u8,
    ]
}

/// Placing a betslip of `bets` paid with `amount` of `token`, the betslip
/// NFT's last nonce being `last_id`: the deposit must not be empty; the
/// betslip takes the next id, the combined odds of its bets, and pays the
/// stake times those odds. Its NFT needs the betslip token issued.
pub open spec fn betslip_result(
    bets: Seq<Bet>,
    caller: Address,
    token: Seq<char>,
    token_nonce: u64,
    amount: u128,
    last_id: u64,
    token_issued: bool,
) -> Result<BetslipModel, ContractError> {
    if amount == 0 {
        Err(ContractError::ZeroDeposit)
    } else if last_id == u64::MAX {
        Err(ContractError::CounterOverflow)
    } else {
        match total_odd_result(bets) {
            Err(e) => Err(e),
            Ok(odd) => if odd * amount > u128::MAX {
                Err(ContractError::AmountOverflow)
            } else if !token_issued {
                Err(ContractError::TokenNotIssued)
            } else {
                Ok(
                    BetslipModel {
                        creator: caller,
                        bets,
                        total_odd: odd,
                        stake: amount,
                        payout: (odd * amount) as u128,
                        payment_token: token,
                        payment_nonce: token_nonce,
                        status: Status::InProgress,
                        nft_nonce: (last_id + 1) as u64,
                    },
                )
            },
        }
    }
}

/// The combined odds of some bets (see `total_odd_result`).
pub fn calculate_total_odd(bets: &Vec<Bet>) -> (r: Result<u128, ContractError>)
    ensures
        r == total_odd_result(bets@),
{
    let mut total_odd: u128 = 1;
    let mut i: usize = 0;
    assert(bets@.take(0) =~= Seq::<Bet>::empty());
    while i < bets.len()
        invariant
            0 <= i <= bets@.len(),
            total_odd_result(bets@.take(i as int)) == Ok::<u128, ContractError>(total_odd),
        decreases bets.len() - i,
    {
        assert(bets@.take(i + 1).drop_last() =~= bets@.take(i as int));
        total_odd = match total_odd.checked_mul(bets[i].odd) {
            Some(v) => v,
            None => {
                proof {
                    lemma_total_odd_err(bets@, i as int + 1);
                }
                return Err(ContractError::AmountOverflow);
            },
        };
        i = i + 1;
    }
    assert(bets@.take(i as int) =~= bets@);
    Ok(total_odd)
}

/// Once a partial product does not fit, the combined odds fail the same way.
pub proof fn lemma_total_odd_err(bets: Seq<Bet>, k: int)
    requires
        0 <= k <= bets.len(),
        total_odd_result(bets.take(k)) is Err,
    ensures
        total_odd_result(bets) == total_odd_result(bets.take(k)),
    decreases bets.len() - k,
{
    if k == bets.len() {
        assert(bets.take(k) =~= bets);
    } else {
        assert(bets.take(k + 1).drop_last() =~= bets.take(k));
        lemma_total_odd_err(bets, k + 1);
    }
}

/// What a betslip pays: its combined odds times its stake.
pub fn calculate_payout(total_odd: &u128, stake: &u128) -> (r: Result<u128, ContractError>)
    ensures
        *total_odd * *stake > u128::MAX ==> r == Err::<u128, ContractError>(ContractError::AmountOverflow),
        *total_odd * *stake <= u128::MAX ==> r == Ok::<u128, ContractError>((*total_odd * *stake) as u128),
{
    match total_odd.checked_mul(*stake) {
        Some(v) => Ok(v),
        None => Err(ContractError::AmountOverflow),
    }
}

/// The number that some bytes stand for, most significant first; refused
/// when it does not fit in 64 bits.
pub fn nonce_from_bytes(bytes: &Vec<u8>) -> (r: Result<u64, ContractError>)
    ensures
        be_value(bytes@) <= u64::MAX ==> r == Ok::<u64, ContractError>(be_value(bytes@) as u64),
        be_value(bytes@) > u64::MAX ==> r == Err::<u64, ContractError>(ContractError::NonceTooLarge),
{
    let mut value: u64 = 0;
    let mut i: usize = 0;
    assert(bytes@.take(0) =~= Seq::<u8>::empty());
    while i < bytes.len()
        invariant
            0 <= i <= bytes@.len(),
            be_value(bytes@.take(i as int)) == value,
        decreases bytes.len() - i,
    {
        assert(bytes@.take(i + 1).drop_last() =~= bytes@.take(i as int));
        let next = match value.checked_mul(256) {
            Some(v) => match v.checked_add(bytes[i] as u64) {
                Some(w) => w,
                None => {
                    proof {
                        lemma_be_value_grows(bytes@, i as int + 1);
                    }
                    return Err(ContractError::NonceTooLarge);
                },
            },
            None => {
                proof {
                    lemma_be_value_grows(bytes@, i as int + 1);
                }
                return Err(ContractError::NonceTooLarge);
            },
        };
        value = next;
        i = i + 1;
    }
    assert(bytes@.take(i as int) =~= bytes@);
    Ok(value)
}

/// Reading more bytes never gives a smaller value.
pub proof fn lemma_be_value_grows(bytes: Seq<u8>, k: int)
    requires
        0 <= k <= bytes.len(),
    ensures
        be_value(bytes.take(k)) <= be_value(bytes),
    decreases bytes.len() - k,
{
    if k == bytes.len() {
        assert(bytes.take(k) =~= bytes);
    } else {
        lemma_be_value_grows(bytes, k + 1);
        assert(bytes.take(k + 1).drop_last() =~= bytes.take(k));
        let a = be_value(bytes.take(k));
        let b = bytes.take(k + 1).last();
        assert(a <= a * 256 + b) by (nonlinear_arith)
            requires
                a >= 0,
                b >= 0,
        ;
    }
}

/// The eight bytes of a number read back give the number.
pub proof fn lemma_be_value_of_fixed(v: nat, width: nat)
    ensures
        be_value(fixed_be(v, width)) == v % pow256(width),
    decreases width,
{
    if width > 0 {
        lemma_be_value_of_fixed(v / 256, (width - 1) as nat);
        let rest = fixed_be(v / 256, (width - 1) as nat);
        assert(fixed_be(v, width).drop_last() =~= rest);
        let p = pow256((width - 1) as nat);
        assert(p > 0) by {
            lemma_pow256_positive((width - 1) as nat);
        }
        assert((v / 256) % p * 256 + v % 256 == v % (p * 256)) by (nonlinear_arith)
            requires
                p > 0,
        {
            vstd::arithmetic::div_mod::lemma_breakdown(v as int, 256, p as int);
        }
    }
}

/// 256 to the power `n`.
pub open spec fn pow256(n: nat) -> nat
    decreases n,
{
    if n == 0 {
        1
    } else {
        pow256((n - 1) as nat) * 256
    }
}

proof fn lemma_pow256_positive(n: nat)
    ensures
        pow256(n) > 0,
    decreases n,
{
    if n > 0 {
        lemma_pow256_positive((n - 1) as nat);
    }
}

/// Reading back the bytes of a nonce gives the nonce.
pub proof fn lemma_nonce_bytes_roundtrip(n: u64)
    ensures
        be_value(fixed_be(n as nat, 8)) == n,
{
    lemma_be_value_of_fixed(n as nat, 8);
    assert(pow256(0) == 1);
    assert(pow256(1) == 0x100);
    assert(pow256(2) == 0x1_0000);
    assert(pow256(3) == 0x100_0000);
    assert(pow256(4) == 0x1_0000_0000);
    assert(pow256(5) == 0x100_0000_0000);
    assert(pow256(6) == 0x1_0000_0000_0000);
    assert(pow256(7) == 0x100_0000_0000_0000);
    assert(pow256(8) == 0x1_0000_0000_0000_0000);
}

fn append_all(a: &mut Vec<u8>, b: &Vec<u8>)
    ensures
        final(a)@ == old(a)@ + b@,
{
    let mut i: usize = 0;
    let ghost start = a@;
    while i < b.len()
        invariant
            0 <= i <= b@.len(),
            a@ == start + b@.take(i as int),
        decreases b.len() - i,
    {
        a.push(b[i]);
        assert(b@.take(i + 1) =~= b@.take(i as int).push(b@[i as int]));
        i = i + 1;
    }
    assert(b@.take(b@.len() as int) =~= b@);
}

/// The betslip's NFT refuses a call (see the same check for bets): with no
/// payment the caller must be the creator; otherwise exactly one payment,
/// of the betslip token, with the betslip's nonce.
pub open spec fn slip_nft_refusal(b: BetslipModel, caller: Address, payments: Seq<Payment>, nft_token: Option<String>) -> Option<ContractError> {
    if payments.len() == 0 {
        if caller != b.creator {
            Some(ContractError::InvalidRole)
        } else {
            None
        }
    } else if payments.len() != 1 {
        Some(ContractError::InvalidPayment)
    } else {
        match payments[0].token {
            PaymentToken::Egld => Some(ContractError::InvalidPayment),
            PaymentToken::Esdt(t) => match nft_token {
                None => Some(ContractError::InvalidTokenId),
                Some(n) => if t@ != n@ || payments[0].nonce != b.nft_nonce {
                    Some(ContractError::InvalidPayment)
                } else {
                    None
                },
            },
        }
    }
}

impl BetslipStorage {
    /// The betslips, by id.
    pub open spec fn slips(&self) -> Map<u64, BetslipModel> {
        self.betslip_by_id@.map_values(|b: Betslip| b@)
    }

    /// A storage with no betslip and no token.
    pub fn new() -> (s: Self)
        ensures
            s.slips() == Map::<u64, BetslipModel>::empty(),
            s.betslip_nft_token is None,
    {
        let s = BetslipStorage { betslip_by_id: HashMap::new(), betslip_nft_token: None, betslip_nft_base_uri: Vec::new() };
        assert(s.slips() =~= Map::<u64, BetslipModel>::empty());
        s
    }

    /// Issues the betslip NFT token, paid with `issue_cost` EGLD; refused
    /// once the token is issued.
    pub fn issue_token(&self, issue_cost: u128) -> (r: Result<IssueRequest, ContractError>)
        ensures
            self.betslip_nft_token is Some ==> r == Err::<IssueRequest, ContractError>(ContractError::TokenAlreadyIssued),
            self.betslip_nft_token is None ==> (r matches Ok(req) && req.token_name@ == token_name()
                && req.token_ticker@ == token_ticker() && req.num_decimals == 0 && req.cost == issue_cost),
    {
        if self.betslip_nft_token.is_some() {
            return Err(ContractError::TokenAlreadyIssued);
        }
        let name: Vec<u8> = vec![66u8, 101u8, 116u8, 99u8, 117u8, 98u8, 101u8, 84u8, 105u8, 99u8, 107u8, 101u8, 116u8, 115u8];
        let ticker: Vec<u8> = vec![66u8, 69u8, 84u8];
        assert(name@ =~= token_name());
        assert(ticker@ =~= token_ticker());
        Ok(IssueRequest { token_name: name, token_ticker: ticker, num_decimals: 0, cost: issue_cost })
    }

    /// Records the issued token when the issue succeeded.
    pub fn issue_callback(&mut self, result: Option<String>)
        ensures
            match result {
                Some(t) => *final(self) == (BetslipStorage { betslip_nft_token: Some(t), ..*old(self) }),
                None => *final(self) == *old(self),
            },
    {
        if let Some(token) = result {
            self.betslip_nft_token = Some(token);
        }
    }

    /// Places a betslip, first step (see `betslip_result`); nothing is
    /// stored until its NFT is minted.
    pub fn place_bet(
        &self,
        bets: &Vec<Bet>,
        caller: Address,
        token: &String,
        token_nonce: u64,
        amount: u128,
        last_id: u64,
    ) -> (r: Result<Betslip, ContractError>)
        ensures
            match betslip_result(bets@, caller, token@, token_nonce, amount, last_id, self.betslip_nft_token is Some) {
                Ok(b) => r matches Ok(s) && s@ == b,
                Err(e) => r == Err::<Betslip, ContractError>(e),
            },
    {
        if amount == 0 {
            return Err(ContractError::ZeroDeposit);
        }
        if last_id == u64::MAX {
            return Err(ContractError::CounterOverflow);
        }
        let betslip_id = last_id + 1;
        let total_odd = calculate_total_odd(bets)?;
        let payout = calculate_payout(&total_odd, &amount)?;
        if self.betslip_nft_token.is_none() {
            return Err(ContractError::TokenNotIssued);
        }
        Ok(Betslip {
            creator: caller,
            bets: copy_bets(bets),
            total_odd,
            stake: amount,
            payout,
            payment_token: token.clone(),
            payment_nonce: token_nonce,
            status: Status::InProgress,
            nft_nonce: betslip_id,
        })
    }

    /// The same placement as `place_bet`, under the betting manager's name.
    pub fn place_bet2(
        &self,
        bets: &Vec<Bet>,
        caller: Address,
        token: &String,
        token_nonce: u64,
        amount: u128,
        last_id: u64,
    ) -> (r: Result<Betslip, ContractError>)
        ensures
            match betslip_result(bets@, caller, token@, token_nonce, amount, last_id, self.betslip_nft_token is Some) {
                Ok(b) => r matches Ok(s) && s@ == b,
                Err(e) => r == Err::<Betslip, ContractError>(e),
            },
    {
        self.place_bet(bets, caller, token, token_nonce, amount, last_id)
    }

    /// What a betslip's NFT is minted with; refused before the token is
    /// issued.
    pub fn mint_betslip_nft(&self, betslip: &Betslip) -> (r: Result<SlipMint, ContractError>)
        ensures
            match self.betslip_nft_token {
                None => r == Err::<SlipMint, ContractError>(ContractError::TokenNotIssued),
                Some(t) => r matches Ok(m) && {
                    &&& m.token@ == t@
                    &&& m.amount == 1
                    &&& m.name@ == crate::cube::nft::ticket_prefix() + decimal_ascii(betslip.nft_nonce as nat)
                    &&& m.royalties == 0
                    &&& m.uris@.len() == 1
                    &&& m.uris@[0]@ == betslip_uri(self.betslip_nft_base_uri@, betslip.nft_nonce)
                    &&& m.attributes.creator == betslip.creator && m.attributes.bets@ == betslip.bets@
                    &&& m.attributes.total_odd == betslip.total_odd && m.attributes.stake == betslip.stake
                    &&& m.attributes.payout == betslip.payout && m.attributes.payment_token@ == betslip.payment_token@
                    &&& m.attributes.payment_nonce == betslip.payment_nonce && m.attributes.status == betslip.status
                    &&& !m.attributes.is_paid
                    &&& m.hash@ == sha256_digest(
                        betslip_attributes_encoding(
                            betslip.creator,
                            betslip.bets@,
                            betslip.total_odd,
                            betslip.stake,
                            betslip.payout,
                            betslip.payment_token@,
                            betslip.payment_nonce,
                            betslip.status,
                            false,
                        ),
                    )
                },
            },
    {
        let token = match &self.betslip_nft_token {
            None => return Err(ContractError::TokenNotIssued),
            Some(t) => t.clone(),
        };
        let id_text = u64_to_ascii(betslip.nft_nonce);
        let mut name: Vec<u8> = vec![66u8, 101u8, 116u8, 67u8, 117u8, 98u8, 101u8, 32u8, 84u8, 105u8, 99u8, 107u8, 101u8, 116u8, 32u8, 35u8];
        assert(name@ =~= crate::cube::nft::ticket_prefix());
        append_all(&mut name, &id_text);
        let mut uri = crate::cube::types::copy_bytes(&self.betslip_nft_base_uri);
        let middle: Vec<u8> = vec![47u8, 98u8, 101u8, 116u8, 115u8, 108u8, 105u8, 112u8, 47u8];
        let tail: Vec<u8> = vec![47u8, 110u8, 102u8, 116u8];
        append_all(&mut uri, &middle);
        append_all(&mut uri, &id_text);
        append_all(&mut uri, &tail);
        assert(uri@ =~= betslip_uri(self.betslip_nft_base_uri@, betslip.nft_nonce));
        let mut uris: Vec<Vec<u8>> = Vec::new();
        uris.push(uri);
        let attributes = BetslipAttributes {
            creator: betslip.creator,
            bets: copy_bets(&betslip.bets),
            total_odd: betslip.total_odd,
            stake: betslip.stake,
            payout: betslip.payout,
            payment_token: betslip.payment_token.clone(),
            payment_nonce: betslip.payment_nonce,
            status: betslip.status,
            is_paid: false,
        };
        let hash = sha256(&encode_betslip_attributes(&attributes));
        Ok(SlipMint { token, amount: 1, name, royalties: 0, hash, attributes, uris })
    }

    /// Places a betslip, second step, once its NFT was minted with nonce
    /// `nft_nonce`: stores it under `betslip_id` and gives the transfer of the
    /// NFT to its creator; refused before the token is issued.
    pub fn record_betslip(&mut self, betslip_id: u64, betslip: Betslip, nft_nonce: u64) -> (r: Result<Transfer, ContractError>)
        ensures
            old(self).betslip_nft_token is None ==> r == Err::<Transfer, ContractError>(ContractError::TokenNotIssued)
                && *final(self) == *old(self),
            old(self).betslip_nft_token is Some ==> (r matches Ok(t) && t@ == TransferModel {
                to: betslip.creator,
                token: old(self).betslip_nft_token->0@,
                nonce: nft_nonce,
                amount: 1,
            } && final(self).slips() == old(self).slips().insert(betslip_id, betslip@)
                && final(self).betslip_nft_token == old(self).betslip_nft_token),
    {
        let token = match &self.betslip_nft_token {
            None => return Err(ContractError::TokenNotIssued),
            Some(t) => t.clone(),
        };
        let to = betslip.creator;
        let ghost bv = betslip@;
        self.betslip_by_id.insert(betslip_id, betslip);
        assert(self.slips() =~= old(self).slips().insert(betslip_id, bv));
        Ok(Transfer { to, token, nonce: nft_nonce, amount: 1 })
    }

    /// The betslip with the given id, when the call proves the right to it
    /// (see `slip_nft_refusal`); refused for an unknown betslip.
    pub fn require_valid_betslip_nft(&self, betslip_id: u64, caller: Address, payments: &Vec<Payment>) -> (r: Result<Betslip, ContractError>)
        ensures
            !self.slips().contains_key(betslip_id) ==> r == Err::<Betslip, ContractError>(ContractError::BetslipDoesNotExist),
            self.slips().contains_key(betslip_id) ==> match slip_nft_refusal(self.slips()[betslip_id], caller, payments@, self.betslip_nft_token) {
                Some(e) => r == Err::<Betslip, ContractError>(e),
                None => r matches Ok(b) && b@ == self.slips()[betslip_id],
            },
    {
        let slip = match self.betslip_by_id.get(&betslip_id) {
            Some(b) => b.clone(),
            None => return Err(ContractError::BetslipDoesNotExist),
        };
        if payments.len() == 0 {
            if caller != slip.creator {
                return Err(ContractError::InvalidRole);
            }
        } else {
            if payments.len() != 1 {
                return Err(ContractError::InvalidPayment);
            }
            let payment = &payments[0];
            let t = match &payment.token {
                PaymentToken::Egld => return Err(ContractError::InvalidPayment),
                PaymentToken::Esdt(t) => t,
            };
            let n = match &self.betslip_nft_token {
                None => return Err(ContractError::InvalidTokenId),
                Some(n) => n,
            };
            if !t.eq(n) || payment.nonce != slip.nft_nonce {
                return Err(ContractError::InvalidPayment);
            }
        }
        Ok(slip)
    }

    /// What a betslip pays; refused for an unknown betslip.
    pub fn balance(&self, betslip_id: u64) -> (r: Result<u128, ContractError>)
        ensures
            !self.slips().contains_key(betslip_id) ==> r == Err::<u128, ContractError>(ContractError::BetslipDoesNotExist),
            self.slips().contains_key(betslip_id) ==> r == Ok::<u128, ContractError>(self.slips()[betslip_id].payout),
    {
        match self.betslip_by_id.get(&betslip_id) {
            Some(b) => Ok(b.payout),
            None => Err(ContractError::BetslipDoesNotExist),
        }
    }

    /// What claiming a betslip gives (see `claim_from_betslip_internal`).
    pub open spec fn claim_matches(&self, betslip_id: u64, caller: Address, payments: Seq<Payment>, r: Result<(Transfer, Transfer), ContractError>) -> bool {
        &&& !self.slips().contains_key(betslip_id) ==> r == Err::<(Transfer, Transfer), ContractError>(ContractError::BetslipDoesNotExist)
        &&& self.slips().contains_key(betslip_id) ==> ({
            let b = self.slips()[betslip_id];
            match slip_nft_refusal(b, caller, payments, self.betslip_nft_token) {
                Some(e) => r == Err::<(Transfer, Transfer), ContractError>(e),
                None => match self.betslip_nft_token {
                    None => r == Err::<(Transfer, Transfer), ContractError>(ContractError::TokenNotIssued),
                    Some(t) => r matches Ok((nft, pay)) && nft@ == TransferModel {
                        to: caller,
                        token: t@,
                        nonce: b.nft_nonce,
                        amount: 1,
                    } && pay@ == TransferModel { to: caller, token: b.payment_token, nonce: b.payment_nonce, amount: b.payout },
                },
            }
        })
    }

    /// Claims betslip `betslip_id` for `caller` (see `slip_nft_refusal`):
    /// gives the transfer of the betslip's NFT back to the caller and the
    /// payment owed, the betslip's payout in its payment token and nonce.
    pub fn claim_from_betslip_internal(&self, betslip_id: u64, caller: Address, payments: &Vec<Payment>) -> (r: Result<(Transfer, Transfer), ContractError>)
        ensures
            self.claim_matches(betslip_id, caller, payments@, r),
    {
        let slip = self.require_valid_betslip_nft(betslip_id, caller, payments)?;
        let token = match &self.betslip_nft_token {
            None => return Err(ContractError::TokenNotIssued),
            Some(t) => t.clone(),
        };
        let nft = Transfer { to: caller, token, nonce: slip.nft_nonce, amount: 1 };
        let pay = Transfer { to: caller, token: slip.payment_token.clone(), nonce: slip.payment_nonce, amount: slip.payout };
        Ok((nft, pay))
    }

    /// Pays betslip `betslip_id` out to `caller`: the NFT goes back and the
    /// payout is sent (see `claim_from_betslip_internal`).
    pub fn claim_payout(&self, betslip_id: u64, caller: Address, payments: &Vec<Payment>) -> (r: Result<(Transfer, Transfer), ContractError>)
        ensures
            self.claim_matches(betslip_id, caller, payments@, r),
    {
        self.claim_from_betslip_internal(betslip_id, caller, payments)
    }
}

/// Paying out a betslip ticket from its NFT's attributes: the nonce comes
/// as bytes and must fit in 64 bits, and the ticket must not have been paid.
/// Gives the attributes marked paid and the nonce.
pub open spec fn ticket_payout_result(nonce_bytes: Seq<u8>, is_paid: bool) -> Result<u64, ContractError> {
    if be_value(nonce_bytes) > u64::MAX {
        Err(ContractError::NonceTooLarge)
    } else if is_paid {
        Err(ContractError::TicketAlreadyPaid)
    } else {
        Ok(be_value(nonce_bytes) as u64)
    }
}

/// Pays out a betslip ticket: `attributes` are those its NFT (nonce
/// `nft_nonce`, as bytes) carries. Gives the attributes marked paid, the
/// nonce, and the transfer of the payout in EGLD to `caller`.
pub fn payout(nft_nonce: &Vec<u8>, attributes: BetslipAttributes, caller: Address) -> (r: Result<(BetslipAttributes, u64, Transfer), ContractError>)
    ensures
        match ticket_payout_result(nft_nonce@, attributes.is_paid) {
            Err(e) => r is Err && r->Err_0 == e,
            Ok(n) => r matches Ok((a, n2, t)) && n2 == n && a.is_paid && a.payout == attributes.payout
                && a.creator == attributes.creator && a.stake == attributes.stake && a.total_odd == attributes.total_odd
                && t@ == TransferModel { to: caller, token: seq!['E', 'G', 'L', 'D'], nonce: 0, amount: attributes.payout },
        },
{
    let num = nonce_from_bytes(nft_nonce)?;
    if attributes.is_paid {
        return Err(ContractError::TicketAlreadyPaid);
    }
    let amount = attributes.payout;
    let new_attributes = BetslipAttributes { is_paid: true, ..attributes };
    let egld = String::from_str("EGLD");
    proof {
        reveal_strlit("EGLD");
    }
    assert(egld@ =~= seq!['E', 'G', 'L', 'D']);
    Ok((new_attributes, num, Transfer { to: caller, token: egld, nonce: 0, amount }))
}

/// Pays out a betslip ticket in `token` (an ESDT with six decimals, where the
/// payout is counted in units of 10^-18): the payout divided by 10^12 goes
/// to `caller`, and the NFT (`nft` with the nonce given as bytes) is sent
/// back. Gives the attributes marked paid, the nonce, the payout transfer
/// and the NFT transfer.
pub fn payout_meta(
    nft: &String,
    nft_nonce: &Vec<u8>,
    token: &String,
    attributes: BetslipAttributes,
    caller: Address,
) -> (r: Result<(BetslipAttributes, u64, Transfer, Transfer), ContractError>)
    ensures
        match ticket_payout_result(nft_nonce@, attributes.is_paid) {
            Err(e) => r is Err && r->Err_0 == e,
            Ok(n) => r matches Ok((a, n2, pay, back)) && n2 == n && a.is_paid && a.payout == attributes.payout
                && pay@ == TransferModel {
                to: caller,
                token: token@,
                nonce: 0,
                amount: (attributes.payout / 1_000_000_000_000) as u128,
            } && back@ == TransferModel { to: caller, token: nft@, nonce: n, amount: 1 },
        },
{
    let num = nonce_from_bytes(nft_nonce)?;
    if attributes.is_paid {
        return Err(ContractError::TicketAlreadyPaid);
    }
    let micro = attributes.payout / 1_000_000_000_000;
    let new_attributes = BetslipAttributes { is_paid: true, ..attributes };
    Ok((
        new_attributes,
        num,
        Transfer { to: caller, token: token.clone(), nonce: 0, amount: micro },
        Transfer { to: caller, token: nft.clone(), nonce: num, amount: 1 },
    ))
}

} // verus!
