//! The data of the scheduled exchange: bets queued by price and time in a
//! scheduler per selection, its markets and the views its queries give.
use vstd::prelude::*;
use crate::types::{Address, BetStatus, BetType, MarketStatus};

verus! {

/// A bet of the scheduled exchange. `event` is its market; the selection is
/// kept by id and description.
pub struct ScheduledBet {
    pub bettor: Address,
    pub event: u64,
    pub selection_id: u64,
    pub selection_description: Vec<u8>,
    pub stake_amount: u128,
    pub liability: u128,
    pub matched_amount: u128,
    pub unmatched_amount: u128,
    pub potential_profit: u128,
    pub odd: u128,
    pub bet_type: BetType,
    pub status: BetStatus,
    pub payment_token: String,
    pub payment_nonce: u64,
    pub nft_nonce: u64,
    pub created_at: u64,
}

/// The value of a scheduled bet.
pub struct CubeBetModel {
    pub bettor: Address,
    pub event: u64,
    pub selection_id: u64,
    pub selection_description: Seq<u8>,
    pub stake_amount: u128,
    pub liability: u128,
    pub matched_amount: u128,
    pub unmatched_amount: u128,
    pub potential_profit: u128,
    pub odd: u128,
    pub bet_type: BetType,
    pub status: BetStatus,
    pub payment_token: Seq<char>,
    pub payment_nonce: u64,
    pub nft_nonce: u64,
    pub created_at: u64,
}

impl View for ScheduledBet {
    type V = CubeBetModel;

    open spec fn view(&self) -> CubeBetModel {
        CubeBetModel {
            bettor: self.bettor,
            event: self.event,
            selection_id: self.selection_id,
            selection_description: self.selection_description@,
            stake_amount: self.stake_amount,
            liability: self.liability,
            matched_amount: self.matched_amount,
            unmatched_amount: self.unmatched_amount,
            potential_profit: self.potential_profit,
            odd: self.odd,
            bet_type: self.bet_type,
            status: self.status,
            payment_token: self.payment_token@,
            payment_nonce: self.payment_nonce,
            nft_nonce: self.nft_nonce,
            created_at: self.created_at,
        }
    }
}

/// A copy of a list of bytes.
pub fn copy_bytes(v: &Vec<u8>) -> (r: Vec<u8>)
    ensures
        r@ == v@,
{
    let mut r: Vec<u8> = Vec::new();
    let mut i: usize = 0;
    while i < v.len()
        invariant
            0 <= i <= v@.len(),
            r@ == v@.take(i as int),
        decreases v.len() - i,
    {
        r.push(v[i]);
        assert(v@.take(i + 1) =~= v@.take(i as int).push(v@[i as int]));
        i = i + 1;
    }
    assert(v@.take(v@.len() as int) =~= v@);
    r
}

impl Clone for ScheduledBet {
    fn clone(&self) -> (res: Self)
        ensures
            res@ == self@,
    {
        ScheduledBet {
            bettor: self.bettor,
            event: self.event,
            selection_id: self.selection_id,
            selection_description: copy_bytes(&self.selection_description),
            stake_amount: self.stake_amount,
            liability: self.liability,
            matched_amount: self.matched_amount,
            unmatched_amount: self.unmatched_amount,
            potential_profit: self.potential_profit,
            odd: self.odd,
            bet_type: self.bet_type,
            status: self.status,
            payment_token: self.payment_token.clone(),
            payment_nonce: self.payment_nonce,
            nft_nonce: self.nft_nonce,
            created_at: self.created_at,
        }
    }
}

/// The values of a queue of bets.
pub open spec fn queue_view(q: Seq<ScheduledBet>) -> Seq<CubeBetModel> {
    q.map_values(|b: ScheduledBet| b@)
}

/// A copy of a queue of bets.
pub fn clone_queue(q: &Vec<ScheduledBet>) -> (r: Vec<ScheduledBet>)
    ensures
        queue_view(r@) == queue_view(q@),
{
    let mut r: Vec<ScheduledBet> = Vec::new();
    let mut i: usize = 0;
    while i < q.len()
        invariant
            0 <= i <= q@.len(),
            queue_view(r@) == queue_view(q@.take(i as int)),
        decreases q.len() - i,
    {
        let b = q[i].clone();
        let ghost prev = r@;
        r.push(b);
        assert(queue_view(r@) =~= queue_view(prev).push(q@[i as int]@));
        assert(queue_view(q@.take(i + 1)) =~= queue_view(q@.take(i as int)).push(q@[i as int]@));
        i = i + 1;
    }
    assert(q@.take(q@.len() as int) =~= q@);
    r
}

/// The bets of one selection, back and lay, each side queued by price and
/// time, with its best odds, its liquidity and its status counters.
pub struct BetScheduler {
    pub back_bets: Vec<ScheduledBet>,
    pub lay_bets: Vec<ScheduledBet>,
    pub best_back_odds: u128,
    pub best_lay_odds: u128,
    pub back_liquidity: u128,
    pub lay_liquidity: u128,
    pub matched_count: u64,
    pub unmatched_count: u64,
    pub partially_matched_count: u64,
    pub win_count: u64,
    pub lost_count: u64,
    pub canceled_count: u64,
}

/// The value of a scheduler.
pub struct SchedulerModel {
    pub back_bets: Seq<CubeBetModel>,
    pub lay_bets: Seq<CubeBetModel>,
    pub best_back_odds: u128,
    pub best_lay_odds: u128,
    pub back_liquidity: u128,
    pub lay_liquidity: u128,
    pub matched_count: u64,
    pub unmatched_count: u64,
    pub partially_matched_count: u64,
    pub win_count: u64,
    pub lost_count: u64,
    pub canceled_count: u64,
}

impl View for BetScheduler {
    type V = SchedulerModel;

    open spec fn view(&self) -> SchedulerModel {
        SchedulerModel {
            back_bets: queue_view(self.back_bets@),
            lay_bets: queue_view(self.lay_bets@),
            best_back_odds: self.best_back_odds,
            best_lay_odds: self.best_lay_odds,
            back_liquidity: self.back_liquidity,
            lay_liquidity: self.lay_liquidity,
            matched_count: self.matched_count,
            unmatched_count: self.unmatched_count,
            partially_matched_count: self.partially_matched_count,
            win_count: self.win_count,
            lost_count: self.lost_count,
            canceled_count: self.canceled_count,
        }
    }
}

impl Clone for BetScheduler {
    fn clone(&self) -> (res: Self)
        ensures
            res@ == self@,
    {
        BetScheduler {
            back_bets: clone_queue(&self.back_bets),
            lay_bets: clone_queue(&self.lay_bets),
            best_back_odds: self.best_back_odds,
            best_lay_odds: self.best_lay_odds,
            back_liquidity: self.back_liquidity,
            lay_liquidity: self.lay_liquidity,
            matched_count: self.matched_count,
            unmatched_count: self.unmatched_count,
            partially_matched_count: self.partially_matched_count,
            win_count: self.win_count,
            lost_count: self.lost_count,
            canceled_count: self.canceled_count,
        }
    }
}

/// A selection of the scheduled exchange, with its scheduler.
pub struct CubeSelection {
    pub selection_id: u64,
    pub description: Vec<u8>,
    pub priority_queue: BetScheduler,
}

/// The value of a selection.
pub struct CubeSelectionModel {
    pub selection_id: u64,
    pub description: Seq<u8>,
    pub priority_queue: SchedulerModel,
}

impl View for CubeSelection {
    type V = CubeSelectionModel;

    open spec fn view(&self) -> CubeSelectionModel {
        CubeSelectionModel {
            selection_id: self.selection_id,
            description: self.description@,
            priority_queue: self.priority_queue@,
        }
    }
}

impl Clone for CubeSelection {
    fn clone(&self) -> (res: Self)
        ensures
            res@ == self@,
    {
        CubeSelection {
            selection_id: self.selection_id,
            description: copy_bytes(&self.description),
            priority_queue: self.priority_queue.clone(),
        }
    }
}

/// The values of a list of selections.
pub open spec fn cube_selections_view(s: Seq<CubeSelection>) -> Seq<CubeSelectionModel> {
    s.map_values(|x: CubeSelection| x@)
}

/// A market of the scheduled exchange.
pub struct CubeMarket {
    pub market_id: u64,
    pub event_id: u64,
    pub description: Vec<u8>,
    pub selections: Vec<CubeSelection>,
    pub liquidity: u128,
    pub close_timestamp: u64,
    pub market_status: MarketStatus,
    pub total_matched_amount: u128,
    pub created_at: u64,
}

/// The value of a market.
pub struct CubeMarketModel {
    pub market_id: u64,
    pub event_id: u64,
    pub description: Seq<u8>,
    pub selections: Seq<CubeSelectionModel>,
    pub liquidity: u128,
    pub close_timestamp: u64,
    pub market_status: MarketStatus,
    pub total_matched_amount: u128,
    pub created_at: u64,
}

impl View for CubeMarket {
    type V = CubeMarketModel;

    open spec fn view(&self) -> CubeMarketModel {
        CubeMarketModel {
            market_id: self.market_id,
            event_id: self.event_id,
            description: self.description@,
            selections: cube_selections_view(self.selections@),
            liquidity: self.liquidity,
            close_timestamp: self.close_timestamp,
            market_status: self.market_status,
            total_matched_amount: self.total_matched_amount,
            created_at: self.created_at,
        }
    }
}

/// A copy of a list of selections.
pub fn clone_cube_selections(s: &Vec<CubeSelection>) -> (r: Vec<CubeSelection>)
    ensures
        cube_selections_view(r@) == cube_selections_view(s@),
{
    let mut r: Vec<CubeSelection> = Vec::new();
    let mut i: usize = 0;
    while i < s.len()
        invariant
            0 <= i <= s@.len(),
            cube_selections_view(r@) == cube_selections_view(s@.take(i as int)),
        decreases s.len() - i,
    {
        let x = s[i].clone();
        let ghost prev = r@;
        r.push(x);
        assert(cube_selections_view(r@) =~= cube_selections_view(prev).push(s@[i as int]@));
        assert(cube_selections_view(s@.take(i + 1)) =~= cube_selections_view(s@.take(i as int)).push(s@[i as int]@));
        i = i + 1;
    }
    assert(s@.take(s@.len() as int) =~= s@);
    r
}

impl Clone for CubeMarket {
    fn clone(&self) -> (res: Self)
        ensures
            res@ == self@,
    {
        CubeMarket {
            market_id: self.market_id,
            event_id: self.event_id,
            description: copy_bytes(&self.description),
            selections: clone_cube_selections(&self.selections),
            liquidity: self.liquidity,
            close_timestamp: self.close_timestamp,
            market_status: self.market_status,
            total_matched_amount: self.total_matched_amount,
            created_at: self.created_at,
        }
    }
}

/// An entry of the order book view: odds and open amount.
pub struct OrderbookEntry {
    pub odd: u128,
    pub amount: u128,
}

/// An entry of the detailed queue view of a bet.
pub struct DetailedBetEntry {
    pub bet_type: BetType,
    pub odd: u128,
    pub unmatched_amount: u128,
    pub matched_amount: u128,
    pub original_stake: u128,
    pub liability: u128,
    pub status: BetStatus,
    pub nft_nonce: u64,
    pub created_at: u64,
}

/// What a scheduled bet's NFT carries as its attributes.
pub struct CubeBetAttributes {
    pub bettor: Address,
    pub event: u64,
    pub selection_id: u64,
    pub stake_amount: u128,
    pub liability: u128,
    pub matched_amount: u128,
    pub unmatched_amount: u128,
    pub potential_profit: u128,
    pub odd: u128,
    pub bet_type: BetType,
    pub status: BetStatus,
    pub payment_token: String,
    pub payment_nonce: u64,
    pub timestamp: u64,
}

} // verus!
