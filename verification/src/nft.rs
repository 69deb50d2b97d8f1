//! The bet NFT: issuing its token, its roles, and what a bet's NFT is
//! minted with.
use vstd::prelude::*;
use crate::errors::ContractError;
use crate::storage::StorageModule;
use crate::types::{Bet, BetAttributes, BetModel};
use crate::utils::{decimal_ascii, sha256, sha256_digest, u64_to_ascii};
use crate::encoding::{bet_attributes_encoding, encode_bet_attributes};

verus! {

/// The royalties of a bet NFT, in hundredths of a percent.
pub const NFT_ROYALTIES: u64 = 0;

/// The amount of a bet NFT that is minted: one.
pub const NFT_AMOUNT: u32 = 1;

/// The name under which the bet NFT token is issued.
pub open spec fn token_name() -> Seq<u8> {
    seq![66u8, 101u8, 116u8, 99u8, 117u8, 98u8, 101u8, 84u8, 105u8, 99u8, 107u8, 101u8, 116u8, 115u8]
}

/// The ticker of the bet NFT token.
pub open spec fn token_ticker() -> Seq<u8> {
    seq![66u8, 69u8, 84u8]
}

/// The prefix of a bet NFT's name, before the bet id.
pub open spec fn betslip_prefix() -> Seq<u8> {
    seq![66u8, 101u8, 116u8, 115u8, 108u8, 105u8, 112u8, 32u8, 35u8]
}

/// A request to issue the non-fungible bet token with all roles, paid with
/// `cost` EGLD.
pub struct IssueRequest {
    pub token_name: Vec<u8>,
    pub token_ticker: Vec<u8>,
    pub num_decimals: u32,
    pub cost: u128,
}

/// A request to give the contract the role to update the attributes of the
/// bet NFTs of `token`.
pub struct RolesRequest {
    pub token: String,
}

/// What a bet NFT is minted with: one unit of the bet token, named
/// "Betslip #" and the bet id, with the bet's figures as attributes, the
/// SHA-256 digest of their bytes as hash, and the bet id as its single URI.
pub struct NftMint {
    pub token: String,
    pub amount: u128,
    pub name: Vec<u8>,
    pub royalties: u64,
    pub hash: Vec<u8>,
    pub attributes: BetAttributes,
    pub uris: Vec<Vec<u8>>,
}

fn bytes_of_token_name() -> (r: Vec<u8>)
    ensures
        r@ == token_name(),
{
    let r: Vec<u8> = vec![66u8, 101u8, 116u8, 99u8, 117u8, 98u8, 101u8, 84u8, 105u8, 99u8, 107u8, 101u8, 116u8, 115u8];
    assert(r@ =~= token_name());
    r
}

fn bytes_of_token_ticker() -> (r: Vec<u8>)
    ensures
        r@ == token_ticker(),
{
    let r: Vec<u8> = vec![66u8, 69u8, 84u8];
    assert(r@ =~= token_ticker());
    r
}

/// The attributes a bet's NFT carries.
pub open spec fn attributes_match(a: BetAttributes, b: BetModel) -> bool {
    &&& a.event == b.event
    &&& a.selection@ == b.selection
    &&& a.stake == b.stake_amount
    &&& a.potential_win == b.potential_profit
    &&& a.odd == b.odd
    &&& a.bet_type == b.bet_type
    &&& a.status == b.status
}

impl StorageModule {
    /// Issues the bet NFT token, paid with `issue_cost` EGLD; refused once
    /// the token is issued.
    pub fn issue_token(&self, issue_cost: u128) -> (r: Result<IssueRequest, ContractError>)
        ensures
            self.bet_nft_token is Some ==> r == Err::<IssueRequest, ContractError>(ContractError::TokenAlreadyIssued),
            self.bet_nft_token is None ==> (r matches Ok(req) && req.token_name@ == token_name()
                && req.token_ticker@ == token_ticker() && req.num_decimals == 0 && req.cost == issue_cost),
    {
        if self.bet_nft_token.is_some() {
            return Err(ContractError::TokenAlreadyIssued);
        }
        Ok(IssueRequest {
            token_name: bytes_of_token_name(),
            token_ticker: bytes_of_token_ticker(),
            num_decimals: 0,
            cost: issue_cost,
        })
    }

    /// Records the issued token when the issue succeeded; a failed issue
    /// changes nothing.
    pub fn issue_callback(&mut self, result: Option<String>)
        ensures
            match result {
                Some(t) => *final(self) == (StorageModule { bet_nft_token: Some(t), ..*old(self) }),
                None => *final(self) == *old(self),
            },
    {
        if let Some(token) = result {
            self.bet_nft_token = Some(token);
        }
    }

    /// Asks for the role to update the bet NFTs' attributes; refused before
    /// the token is issued.
    pub fn set_local_roles(&self) -> (r: Result<RolesRequest, ContractError>)
        ensures
            match self.bet_nft_token {
                None => r == Err::<RolesRequest, ContractError>(ContractError::TokenNotIssued),
                Some(t) => r matches Ok(req) && req.token@ == t@,
            },
    {
        match &self.bet_nft_token {
            None => Err(ContractError::TokenNotIssued),
            Some(t) => Ok(RolesRequest { token: t.clone() }),
        }
    }

    /// What the NFT of `bet` is minted with; refused before the token is
    /// issued.
    pub fn mint_bet_nft(&self, bet: &Bet) -> (r: Result<NftMint, ContractError>)
        ensures
            match self.bet_nft_token {
                None => r == Err::<NftMint, ContractError>(ContractError::TokenNotIssued),
                Some(t) => r matches Ok(m) && {
                    &&& m.token@ == t@
                    &&& m.amount == 1
                    &&& m.name@ == betslip_prefix() + decimal_ascii(bet.bet_id as nat)
                    &&& m.royalties == NFT_ROYALTIES
                    &&& attributes_match(m.attributes, bet@)
                    &&& m.hash@ == sha256_digest(
                        bet_attributes_encoding(
                            bet.event,
                            bet.selection@,
                            bet.stake_amount,
                            bet.potential_profit,
                            bet.odd,
                            bet.bet_type,
                            bet.status,
                        ),
                    )
                    &&& m.uris@.len() == 1
                    &&& m.uris@[0]@ == decimal_ascii(bet.bet_id as nat)
                },
            },
    {
        let token = match &self.bet_nft_token {
            None => return Err(ContractError::TokenNotIssued),
            Some(t) => t.clone(),
        };
        let id_text = u64_to_ascii(bet.bet_id);
        let mut name: Vec<u8> = vec![66u8, 101u8, 116u8, 115u8, 108u8, 105u8, 112u8, 32u8, 35u8];
        assert(name@ =~= betslip_prefix());
        let mut i: usize = 0;
        while i < id_text.len()
            invariant
                0 <= i <= id_text@.len(),
                name@ =~= betslip_prefix() + id_text@.take(i as int),
            decreases id_text.len() - i,
        {
            name.push(id_text[i]);
            assert(id_text@.take(i + 1) =~= id_text@.take(i as int).push(id_text@[i as int]));
            i = i + 1;
        }
        assert(id_text@.take(id_text@.len() as int) =~= id_text@);
        let attributes = BetAttributes {
            event: bet.event,
            selection: bet.selection.clone(),
            stake: bet.stake_amount,
            potential_win: bet.potential_profit,
            odd: bet.odd,
            bet_type: bet.bet_type,
            status: bet.status,
        };
        let hash = sha256(&encode_bet_attributes(&attributes));
        let mut uris: Vec<Vec<u8>> = Vec::new();
        uris.push(id_text);
        Ok(NftMint { token, amount: 1, name, royalties: NFT_ROYALTIES, hash, attributes, uris })
    }

    /// The bet with the given id; refused when there is none.
    pub fn get_bet(&self, bet_id: u64) -> (r: Result<Bet, ContractError>)
        ensures
            self.bets().contains_key(bet_id) ==> (r matches Ok(b) && b@ == self.bets()[bet_id]),
            !self.bets().contains_key(bet_id) ==> r == Err::<Bet, ContractError>(ContractError::InvalidBetId),
    {
        match self.read_bet(bet_id) {
            Some(b) => Ok(b),
            None => Err(ContractError::InvalidBetId),
        }
    }
}

} // verus!
