//! The data of betslips and of peer-to-peer bets.
use vstd::prelude::*;
use crate::types::Address;

verus! {

/// The state of a bet or a betslip.
#[derive(Clone, Copy, PartialEq, Eq, Structural, Debug)]
pub enum Status {
    InProgress,
    Win,
    Lost,
    /// Void: the bet counts with odds 1.
    Nul,
}

/// One bet of a betslip: an event, an option of it (such as total goals),
/// the value chosen (such as over 2.5), its odds with two decimals, and its
/// status.
#[derive(Clone, Copy, PartialEq, Eq, Structural, Debug)]
pub struct Bet {
    pub event: u128,
    pub option: u128,
    pub value: u128,
    pub odd: u128,
    pub status: Status,
}

/// A betslip: its bets, their combined odds, the stake, what it pays
/// (stake times combined odds), the payment token and nonce, its status
/// and the nonce of its NFT.
pub struct Betslip {
    pub creator: Address,
    pub bets: Vec<Bet>,
    pub total_odd: u128,
    pub stake: u128,
    pub payout: u128,
    pub payment_token: String,
    pub payment_nonce: u64,
    pub status: Status,
    pub nft_nonce: u64,
}

/// The value of a betslip.
pub struct BetslipModel {
    pub creator: Address,
    pub bets: Seq<Bet>,
    pub total_odd: u128,
    pub stake: u128,
    pub payout: u128,
    pub payment_token: Seq<char>,
    pub payment_nonce: u64,
    pub status: Status,
    pub nft_nonce: u64,
}

impl View for Betslip {
    type V = BetslipModel;

    open spec fn view(&self) -> BetslipModel {
        BetslipModel {
            creator: self.creator,
            bets: self.bets@,
            total_odd: self.total_odd,
            stake: self.stake,
            payout: self.payout,
            payment_token: self.payment_token@,
            payment_nonce: self.payment_nonce,
            status: self.status,
            nft_nonce: self.nft_nonce,
        }
    }
}

/// A copy of a list of bets.
pub fn copy_bets(v: &Vec<Bet>) -> (r: Vec<Bet>)
    ensures
        r@ == v@,
{
    let mut r: Vec<Bet> = Vec::new();
    let mut i: usize = 0;
    while i < v.len()
        invariant
            0 <= i <= v@.len(),
            r@ == v@.take(i as int),
        decreases v.len() - i,
    {
        r.push(v[i]);
        assert(v@.take(i + 1) =~= v@.take(i as int).push(v@[i as int]));
        i = i + 1;
    }
    assert(v@.take(v@.len() as int) =~= v@);
    r
}

impl Clone for Betslip {
    fn clone(&self) -> (res: Self)
        ensures
            res@ == self@,
    {
        Betslip {
            creator: self.creator,
            bets: copy_bets(&self.bets),
            total_odd: self.total_odd,
            stake: self.stake,
            payout: self.payout,
            payment_token: self.payment_token.clone(),
            payment_nonce: self.payment_nonce,
            status: self.status,
            nft_nonce: self.nft_nonce,
        }
    }
}

/// What a betslip's NFT carries: the betslip's figures and whether it was
/// paid.
pub struct BetslipAttributes {
    pub creator: Address,
    pub bets: Vec<Bet>,
    pub total_odd: u128,
    pub stake: u128,
    pub payout: u128,
    pub payment_token: String,
    pub payment_nonce: u64,
    pub status: Status,
    pub is_paid: bool,
}

/// A participant of a peer-to-peer bet: its address, the option it chose,
/// its stake, and the nonce of its participation NFT once minted.
pub struct BetParticipant {
    pub address: Address,
    pub option_chosen: Vec<u8>,
    pub stake: u128,
    pub nft_id: Option<u64>,
}

/// The value of a participant.
pub struct ParticipantModel {
    pub address: Address,
    pub option_chosen: Seq<u8>,
    pub stake: u128,
    pub nft_id: Option<u64>,
}

impl View for BetParticipant {
    type V = ParticipantModel;

    open spec fn view(&self) -> ParticipantModel {
        ParticipantModel {
            address: self.address,
            option_chosen: self.option_chosen@,
            stake: self.stake,
            nft_id: self.nft_id,
        }
    }
}

/// A peer-to-peer bet: its id, its creator, the event, the options and
/// their odds, the pool of stakes, the participants, whether it is active,
/// whether its result was declared, and the winning option.
pub struct P2PBet {
    pub bet_id: Vec<u8>,
    pub creator: Address,
    pub event_details: Vec<u8>,
    pub options: Vec<Vec<u8>>,
    pub odds: Vec<u128>,
    pub total_pool: u128,
    pub participants: Vec<BetParticipant>,
    pub is_active: bool,
    pub result_declared: bool,
    pub winning_option: Vec<u8>,
}

/// The value of a peer-to-peer bet.
pub struct P2PBetModel {
    pub bet_id: Seq<u8>,
    pub creator: Address,
    pub event_details: Seq<u8>,
    pub options: Seq<Seq<u8>>,
    pub odds: Seq<u128>,
    pub total_pool: u128,
    pub participants: Seq<ParticipantModel>,
    pub is_active: bool,
    pub result_declared: bool,
    pub winning_option: Seq<u8>,
}

/// The values of a list of byte strings.
pub open spec fn byte_strings_view(v: Seq<Vec<u8>>) -> Seq<Seq<u8>> {
    v.map_values(|b: Vec<u8>| b@)
}

/// The values of a list of participants.
pub open spec fn participants_view(v: Seq<BetParticipant>) -> Seq<ParticipantModel> {
    v.map_values(|p: BetParticipant| p@)
}

impl View for P2PBet {
    type V = P2PBetModel;

    open spec fn view(&self) -> P2PBetModel {
        P2PBetModel {
            bet_id: self.bet_id@,
            creator: self.creator,
            event_details: self.event_details@,
            options: byte_strings_view(self.options@),
            odds: self.odds@,
            total_pool: self.total_pool,
            participants: participants_view(self.participants@),
            is_active: self.is_active,
            result_declared: self.result_declared,
            winning_option: self.winning_option@,
        }
    }
}

/// What a participation NFT carries: the bet, the option chosen and the
/// stake.
pub struct ParticipationNFT {
    pub bet_id: Vec<u8>,
    pub option_chosen: Vec<u8>,
    pub stake: u128,
}

} // verus!
