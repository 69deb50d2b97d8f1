//! The bet NFT of the scheduled exchange, checking the NFT a call comes
//! with, and paying out a won bet.
use vstd::prelude::*;
use crate::cube::storage::CubeStorage;
use crate::cube::types::{CubeBetAttributes, CubeBetModel, ScheduledBet};
use crate::errors::ContractError;
use crate::events::{Transfer, TransferModel};
use crate::nft::{IssueRequest, token_name, token_ticker};
use crate::types::{Address, BetStatus, BetType, Payment, PaymentToken};
use crate::utils::{decimal_ascii, sha256, sha256_digest, u64_to_ascii};
use crate::encoding::{cube_attributes_encoding, encode_cube_attributes};

verus! {

/// The prefix of a scheduled bet NFT's name, before its nonce: "BetCube
/// Ticket #".
pub open spec fn ticket_prefix() -> Seq<u8> {
    seq![66u8, 101u8, 116u8, 67u8, 117u8, 98u8, 101u8, 32u8, 84u8, 105u8, 99u8, 107u8, 101u8, 116u8, 32u8, 35u8]
}

/// The URI of a scheduled bet NFT: the base URI, "/bet/", the nonce and
/// "/nft".
pub open spec fn ticket_uri(base: Seq<u8>, nonce: u64) -> Seq<u8> {
    base + seq![47u8, 98u8, 101u8, 116u8, 47u8] + decimal_ascii(nonce as nat) + seq![47u8, 110u8, 102u8, 116u8]
}

/// What a scheduled bet's NFT is minted with.
pub struct CubeNftMint {
    pub token: String,
    pub amount: u128,
    pub name: Vec<u8>,
    pub royalties: u64,
    pub hash: Vec<u8>,
    pub attributes: CubeBetAttributes,
    pub uris: Vec<Vec<u8>>,
}

/// The attributes a scheduled bet's NFT carries: its figures, with its
/// creation time as timestamp.
pub open spec fn cube_attributes_match(a: CubeBetAttributes, b: CubeBetModel) -> bool {
    &&& a.bettor == b.bettor
    &&& a.event == b.event
    &&& a.selection_id == b.selection_id
    &&& a.stake_amount == b.stake_amount
    &&& a.liability == b.liability
    &&& a.matched_amount == b.matched_amount
    &&& a.unmatched_amount == b.unmatched_amount
    &&& a.potential_profit == b.potential_profit
    &&& a.odd == b.odd
    &&& a.bet_type == b.bet_type
    &&& a.status == b.status
    &&& a.payment_token@ == b.payment_token
    &&& a.payment_nonce == b.payment_nonce
    &&& a.timestamp == b.created_at
}

/// Why the NFT a call comes with does not prove the right to bet `b`, if it
/// does not: with no payment the caller must be the bettor; otherwise the
/// call must carry exactly one payment, of the bet NFT token, with the bet's
/// nonce.
pub open spec fn nft_refusal(b: CubeBetModel, caller: Address, payments: Seq<Payment>, nft_token: Option<String>) -> Option<ContractError> {
    if payments.len() == 0 {
        if caller != b.bettor {
            Some(ContractError::InvalidRole)
        } else {
            None
        }
    } else if payments.len() != 1 {
        Some(ContractError::InvalidPayment)
    } else {
        let p = payments[0];
        match p.token {
            PaymentToken::Egld => Some(ContractError::InvalidPayment),
            PaymentToken::Esdt(t) => match nft_token {
                None => Some(ContractError::InvalidTokenId),
                Some(n) => if t@ != n@ {
                    Some(ContractError::InvalidPayment)
                } else if p.nonce != b.nft_nonce {
                    Some(ContractError::InvalidPayment)
                } else {
                    None
                },
            },
        }
    }
}

/// What a won bet is paid: its win amount (its potential profit) for a back
/// bet, its stake less that for a lay bet; nothing else is paid.
pub open spec fn reward_result(b: CubeBetModel) -> Result<u128, ContractError> {
    if b.status != BetStatus::Win {
        Err(ContractError::BetNotWinning)
    } else {
        let amount: Result<u128, ContractError> = match b.bet_type {
            BetType::Back => Ok(b.potential_profit),
            BetType::Lay => if b.potential_profit > b.stake_amount {
                Err(ContractError::NegativeAmount)
            } else {
                Ok((b.stake_amount - b.potential_profit) as u128)
            },
        };
        match amount {
            Err(e) => Err(e),
            Ok(a) => if a == 0 {
                Err(ContractError::NoWinningsToDistribute)
            } else {
                Ok(a)
            },
        }
    }
}

fn append_all(a: &mut Vec<u8>, b: &Vec<u8>)
    ensures
        final(a)@ == old(a)@ + b@,
{
    let mut i: usize = 0;
    let ghost start = a@;
    while i < b.len()
        invariant
            0 <= i <= b@.len(),
            a@ == start + b@.take(i as int),
        decreases b.len() - i,
    {
        a.push(b[i]);
        assert(b@.take(i + 1) =~= b@.take(i as int).push(b@[i as int]));
        i = i + 1;
    }
    assert(b@.take(b@.len() as int) =~= b@);
}

impl CubeStorage {
    /// Issues the bet NFT token, paid with `issue_cost` EGLD; refused once
    /// the token is issued.
    pub fn issue_token(&self, issue_cost: u128) -> (r: Result<IssueRequest, ContractError>)
        ensures
            self.bet_nft_token is Some ==> r == Err::<IssueRequest, ContractError>(ContractError::TokenAlreadyIssued),
            self.bet_nft_token is None ==> (r matches Ok(req) && req.token_name@ == token_name()
                && req.token_ticker@ == token_ticker() && req.num_decimals == 0 && req.cost == issue_cost),
    {
        if self.bet_nft_token.is_some() {
            return Err(ContractError::TokenAlreadyIssued);
        }
        let name: Vec<u8> = vec![66u8, 101u8, 116u8, 99u8, 117u8, 98u8, 101u8, 84u8, 105u8, 99u8, 107u8, 101u8, 116u8, 115u8];
        let ticker: Vec<u8> = vec![66u8, 69u8, 84u8];
        assert(name@ =~= token_name());
        assert(ticker@ =~= token_ticker());
        Ok(IssueRequest { token_name: name, token_ticker: ticker, num_decimals: 0, cost: issue_cost })
    }

    /// Records the issued token when the issue succeeded; a failed issue
    /// changes nothing.
    pub fn issue_callback(&mut self, result: Option<String>)
        ensures
            match result {
                Some(t) => *final(self) == (CubeStorage { bet_nft_token: Some(t), ..*old(self) }),
                None => *final(self) == *old(self),
            },
    {
        if let Some(token) = result {
            self.bet_nft_token = Some(token);
        }
    }

    /// What the NFT of `bet` is minted with: named "BetCube Ticket #" and its
    /// nonce, with one URI under the base URI, the bet's figures as
    /// attributes and the SHA-256 digest of their bytes as hash; refused
    /// before the token is issued.
    pub fn mint_bet_nft(&self, bet: &ScheduledBet) -> (r: Result<CubeNftMint, ContractError>)
        ensures
            match self.bet_nft_token {
                None => r == Err::<CubeNftMint, ContractError>(ContractError::TokenNotIssued),
                Some(t) => r matches Ok(m) && {
                    &&& m.token@ == t@
                    &&& m.amount == 1
                    &&& m.name@ == ticket_prefix() + decimal_ascii(bet.nft_nonce as nat)
                    &&& m.royalties == 0
                    &&& cube_attributes_match(m.attributes, bet@)
                    &&& m.hash@ == sha256_digest(cube_attributes_encoding(m.attributes))
                    &&& m.uris@.len() == 1
                    &&& m.uris@[0]@ == ticket_uri(self.bet_nft_base_uri@, bet.nft_nonce)
                },
            },
    {
        let token = match &self.bet_nft_token {
            None => return Err(ContractError::TokenNotIssued),
            Some(t) => t.clone(),
        };
        let id_text = u64_to_ascii(bet.nft_nonce);
        let mut name: Vec<u8> = vec![66u8, 101u8, 116u8, 67u8, 117u8, 98u8, 101u8, 32u8, 84u8, 105u8, 99u8, 107u8, 101u8, 116u8, 32u8, 35u8];
        assert(name@ =~= ticket_prefix());
        append_all(&mut name, &id_text);
        let mut uri = crate::cube::types::copy_bytes(&self.bet_nft_base_uri);
        let middle: Vec<u8> = vec![47u8, 98u8, 101u8, 116u8, 47u8];
        let tail: Vec<u8> = vec![47u8, 110u8, 102u8, 116u8];
        append_all(&mut uri, &middle);
        append_all(&mut uri, &id_text);
        append_all(&mut uri, &tail);
        assert(middle@ =~= seq![47u8, 98u8, 101u8, 116u8, 47u8]);
        assert(tail@ =~= seq![47u8, 110u8, 102u8, 116u8]);
        assert(uri@ =~= ticket_uri(self.bet_nft_base_uri@, bet.nft_nonce));
        let mut uris: Vec<Vec<u8>> = Vec::new();
        uris.push(uri);
        let attributes = CubeBetAttributes {
            bettor: bet.bettor,
            event: bet.event,
            selection_id: bet.selection_id,
            stake_amount: bet.stake_amount,
            liability: bet.liability,
            matched_amount: bet.matched_amount,
            unmatched_amount: bet.unmatched_amount,
            potential_profit: bet.potential_profit,
            odd: bet.odd,
            bet_type: bet.bet_type,
            status: bet.status,
            payment_token: bet.payment_token.clone(),
            payment_nonce: bet.payment_nonce,
            timestamp: bet.created_at,
        };
        let hash = sha256(&encode_cube_attributes(&attributes));
        Ok(CubeNftMint { token, amount: 1, name, royalties: 0, hash, attributes, uris })
    }

    /// The bet with the given id, when the call proves the right to it (see
    /// `nft_refusal`); refused for an unknown bet.
    pub fn require_valid_bet_nft(&self, bet_id: u64, caller: Address, payments: &Vec<Payment>) -> (r: Result<ScheduledBet, ContractError>)
        ensures
            !self.bets().contains_key(bet_id) ==> r == Err::<ScheduledBet, ContractError>(ContractError::InvalidBetId),
            self.bets().contains_key(bet_id) ==> match nft_refusal(self.bets()[bet_id], caller, payments@, self.bet_nft_token) {
                Some(e) => r == Err::<ScheduledBet, ContractError>(e),
                None => r matches Ok(b) && b@ == self.bets()[bet_id],
            },
    {
        let bet = match self.read_bet(bet_id) {
            Some(b) => b,
            None => return Err(ContractError::InvalidBetId),
        };
        if payments.len() == 0 {
            if caller != bet.bettor {
                return Err(ContractError::InvalidRole);
            }
        } else {
            if payments.len() != 1 {
                return Err(ContractError::InvalidPayment);
            }
            let payment = &payments[0];
            let t = match &payment.token {
                PaymentToken::Egld => return Err(ContractError::InvalidPayment),
                PaymentToken::Esdt(t) => t,
            };
            let n = match &self.bet_nft_token {
                None => return Err(ContractError::InvalidTokenId),
                Some(n) => n,
            };
            if !t.eq(n) {
                return Err(ContractError::InvalidPayment);
            }
            if payment.nonce != bet.nft_nonce {
                return Err(ContractError::InvalidPayment);
            }
        }
        Ok(bet)
    }

    /// Pays out won bet `bet_id` to its bettor, in the bet's payment token
    /// (see `reward_result`), when the call proves the right to the bet.
    pub fn distribute_rewards(&self, bet_id: u64, caller: Address, payments: &Vec<Payment>) -> (r: Result<Transfer, ContractError>)
        ensures
            !self.bets().contains_key(bet_id) ==> r == Err::<Transfer, ContractError>(ContractError::InvalidBetId),
            self.bets().contains_key(bet_id) ==> ({
                let b = self.bets()[bet_id];
                match nft_refusal(b, caller, payments@, self.bet_nft_token) {
                    Some(e) => r == Err::<Transfer, ContractError>(e),
                    None => match reward_result(b) {
                        Err(e) => r == Err::<Transfer, ContractError>(e),
                        Ok(a) => r matches Ok(t) && t@ == TransferModel {
                            to: b.bettor,
                            token: b.payment_token,
                            nonce: b.payment_nonce,
                            amount: a,
                        },
                    },
                }
            }),
    {
        let bet = self.require_valid_bet_nft(bet_id, caller, payments)?;
        if bet.status != BetStatus::Win {
            return Err(ContractError::BetNotWinning);
        }
        let amount = match bet.bet_type {
            BetType::Back => bet.potential_profit,
            BetType::Lay => {
                if bet.potential_profit > bet.stake_amount {
                    return Err(ContractError::NegativeAmount);
                }
                bet.stake_amount - bet.potential_profit
            },
        };
        if amount == 0 {
            return Err(ContractError::NoWinningsToDistribute);
        }
        Ok(Transfer { to: bet.bettor, token: bet.payment_token.clone(), nonce: bet.payment_nonce, amount })
    }
}

} // verus!
