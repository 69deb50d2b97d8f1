//! What the scheduled exchange stores.
use vstd::prelude::*;
use std::collections::HashMap;
use crate::cube::scheduler::empty_scheduler;
use crate::cube::types::{BetScheduler, CubeBetModel, CubeMarket, CubeMarketModel, SchedulerModel, ScheduledBet};
use crate::storage::{Ledger, selection_key, selection_key_exec};

verus! {

/// The storage of the scheduled exchange: bets by id, the bet NFT token and
/// its base URI, the market counter, the markets, the funds each account
/// has locked, and the scheduler of each selection (by market and
/// selection).
pub struct CubeStorage {
    pub bet_by_id: HashMap<u64, ScheduledBet>,
    pub bet_nft_token: Option<String>,
    pub bet_nft_base_uri: Vec<u8>,
    pub market_counter: u64,
    pub markets: HashMap<u64, CubeMarket>,
    pub locked_funds: Ledger,
    pub selection_scheduler: HashMap<u128, BetScheduler>,
}

impl CubeStorage {
    /// The bets, by id.
    pub open spec fn bets(&self) -> Map<u64, CubeBetModel> {
        self.bet_by_id@.map_values(|b: ScheduledBet| b@)
    }

    /// The markets, by id.
    pub open spec fn market_map(&self) -> Map<u64, CubeMarketModel> {
        self.markets@.map_values(|m: CubeMarket| m@)
    }

    /// Whether a scheduler was written for a selection.
    pub open spec fn has_scheduler(&self, market_id: u64, selection_id: u64) -> bool {
        self.selection_scheduler@.contains_key(selection_key(market_id, selection_id))
    }

    /// The scheduler of a selection; an empty one when none was written.
    pub open spec fn scheduler_of(&self, market_id: u64, selection_id: u64) -> SchedulerModel {
        if self.has_scheduler(market_id, selection_id) {
            self.selection_scheduler@[selection_key(market_id, selection_id)]@
        } else {
            empty_scheduler()
        }
    }

    /// A new storage: no token, no markets, no bets, the market counter at
    /// one.
    pub fn init() -> (s: Self)
        ensures
            s.bets() == Map::<u64, CubeBetModel>::empty(),
            s.market_map() == Map::<u64, CubeMarketModel>::empty(),
            s.market_counter == 1,
            s.bet_nft_token is None,
            forall|a| s.locked_funds.spec_get(a) == 0,
            forall|m: u64, sl: u64| !#[trigger] s.has_scheduler(m, sl),
    {
        let s = CubeStorage {
            bet_by_id: HashMap::new(),
            bet_nft_token: None,
            bet_nft_base_uri: Vec::new(),
            market_counter: 1,
            markets: HashMap::new(),
            locked_funds: Ledger::new(),
            selection_scheduler: HashMap::new(),
        };
        assert(s.bets() =~= Map::<u64, CubeBetModel>::empty());
        assert(s.market_map() =~= Map::<u64, CubeMarketModel>::empty());
        s
    }

    /// A copy of the market with the given id, if there is one.
    pub fn read_market(&self, market_id: u64) -> (r: Option<CubeMarket>)
        ensures
            match r {
                Some(m) => self.market_map().contains_key(market_id) && m@ == self.market_map()[market_id],
                None => !self.market_map().contains_key(market_id),
            },
    {
        match self.markets.get(&market_id) {
            Some(m) => Some(m.clone()),
            None => None,
        }
    }

    /// Writes a market under the given key.
    pub fn store_market(&mut self, key: u64, market: CubeMarket)
        ensures
            *final(self) == (CubeStorage { markets: final(self).markets, ..*old(self) }),
            final(self).market_map() == old(self).market_map().insert(key, market@),
    {
        let ghost mv = market@;
        self.markets.insert(key, market);
        assert(self.market_map() =~= old(self).market_map().insert(key, mv));
    }

    /// A copy of the bet with the given id, if there is one.
    pub fn read_bet(&self, bet_id: u64) -> (r: Option<ScheduledBet>)
        ensures
            match r {
                Some(b) => self.bets().contains_key(bet_id) && b@ == self.bets()[bet_id],
                None => !self.bets().contains_key(bet_id),
            },
    {
        match self.bet_by_id.get(&bet_id) {
            Some(b) => Some(b.clone()),
            None => None,
        }
    }

    /// Writes a bet under the given id.
    pub fn put_bet(&mut self, bet_id: u64, b: ScheduledBet)
        ensures
            *final(self) == (CubeStorage { bet_by_id: final(self).bet_by_id, ..*old(self) }),
            final(self).bets() == old(self).bets().insert(bet_id, b@),
    {
        let ghost bv = b@;
        self.bet_by_id.insert(bet_id, b);
        assert(self.bets() =~= old(self).bets().insert(bet_id, bv));
    }

    /// A copy of the scheduler of a selection: an empty one when none was
    /// written.
    pub fn read_scheduler(&self, market_id: u64, selection_id: u64) -> (r: BetScheduler)
        ensures
            r@ == self.scheduler_of(market_id, selection_id),
    {
        let k = selection_key_exec(market_id, selection_id);
        match self.selection_scheduler.get(&k) {
            Some(s) => s.clone(),
            None => BetScheduler::init_bet_scheduler(),
        }
    }

    /// Writes the scheduler of a selection.
    pub fn put_scheduler(&mut self, market_id: u64, selection_id: u64, s: BetScheduler)
        ensures
            *final(self) == (CubeStorage { selection_scheduler: final(self).selection_scheduler, ..*old(self) }),
            final(self).has_scheduler(market_id, selection_id),
            final(self).scheduler_of(market_id, selection_id) == s@,
            forall|m: u64, sl: u64|
                !(m == market_id && sl == selection_id) ==> #[trigger] final(self).scheduler_of(m, sl)
                    == old(self).scheduler_of(m, sl) && final(self).has_scheduler(m, sl) == old(self).has_scheduler(
                    m,
                    sl,
                ),
    {
        let k = selection_key_exec(market_id, selection_id);
        self.selection_scheduler.insert(k, s);
        proof {
            assert forall|m: u64, sl: u64| !(m == market_id && sl == selection_id) implies #[trigger] self.scheduler_of(
                m,
                sl,
            ) == old(self).scheduler_of(m, sl) && self.has_scheduler(m, sl) == old(self).has_scheduler(m, sl) by {
                if selection_key(m, sl) == k {
                    crate::storage::lemma_selection_key_injective(m, sl, market_id, selection_id);
                }
            }
        }
    }
}

} // verus!
