//! What the exchange emits and sends: the data of its events and the
//! transfers that an operation asks for.
use vstd::prelude::*;
use crate::types::{Address, MarketSelectionInfo, MatchedPart};

verus! {

/// A transfer of `amount` of token `token` (with nonce `nonce`) to `to`.
pub struct Transfer {
    pub to: Address,
    pub token: String,
    pub nonce: u64,
    pub amount: u128,
}

/// The value of a transfer.
pub struct TransferModel {
    pub to: Address,
    pub token: Seq<char>,
    pub nonce: u64,
    pub amount: u128,
}

impl View for Transfer {
    type V = TransferModel;

    open spec fn view(&self) -> TransferModel {
        TransferModel { to: self.to, token: self.token@, nonce: self.nonce, amount: self.amount }
    }
}

/// The values of a list of transfers.
pub open spec fn transfers_view(ts: Seq<Transfer>) -> Seq<TransferModel> {
    ts.map_values(|t: Transfer| t@)
}

/// A burn of `amount` of the NFT `token` with nonce `nonce`.
pub struct Burn {
    pub token: String,
    pub nonce: u64,
    pub amount: u128,
}

/// The data of the "placeBet" event. The bettor's address is written out in
/// hexadecimal when the event is emitted.
pub struct PlaceBetEvent {
    pub bettor: Address,
    pub sport_index: u8,
    pub market_id: u64,
    pub selection_id: u64,
    pub stake_amount: u128,
    pub odd: u128,
    pub bet_type: u8,
    pub payment_token: String,
    pub liability: u128,
    pub status: u8,
    pub matched_parts: Vec<MatchedPart>,
    pub bet_id: u64,
    pub potential_profit: u128,
    pub nft_nonce: u64,
}

/// The data of the "cancelBet" event.
pub struct CancelBetEvent {
    pub bettor: Address,
    pub bet_id: u64,
    pub status: u8,
    pub refund_amount: u128,
    pub total_matched: u128,
    pub total_amount: u128,
    pub potential_profit: u128,
    pub liability: u128,
    pub sport_index: u8,
    pub nft_nonce: u64,
}

/// The data of the "claimWin" event.
pub struct ClaimWinEvent {
    pub bettor: Address,
    pub bet_id: u64,
    pub status: u8,
    pub payout: u128,
}

/// The data of the "create_market" event.
pub struct CreateMarketEvent {
    pub sport_index: u8,
    pub event_id: u64,
    pub markets: Vec<MarketSelectionInfo>,
}

} // verus!
