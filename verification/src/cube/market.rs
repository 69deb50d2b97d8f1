//! The markets of the scheduled exchange: creating and closing them, and
//! the views of their order books and counters.
use vstd::prelude::*;
use crate::cube::scheduler::empty_scheduler;
use crate::cube::storage::CubeStorage;
use crate::cube::types::{
    BetScheduler, CubeBetModel, CubeMarket, CubeMarketModel, CubeSelection, CubeSelectionModel,
    DetailedBetEntry, OrderbookEntry, SchedulerModel, ScheduledBet, copy_bytes, cube_selections_view,
    queue_view,
};
use crate::cube::manager::cube_selection_position;
use crate::errors::ContractError;
use crate::types::MarketStatus;

verus! {

/// How many bets of a market or selection have each status.
pub struct StatusCounts {
    pub matched: u128,
    pub unmatched: u128,
    pub partially_matched: u128,
    pub win: u128,
    pub lost: u128,
    pub canceled: u128,
}

/// The counts of one selection.
pub struct SelectionCounts {
    pub selection_id: u64,
    pub counts: StatusCounts,
}

/// The "marketCreated" event.
pub struct MarketCreatedEvent {
    pub market_id: u64,
    pub event_id: u64,
    pub description: Vec<u8>,
    pub close_timestamp: u64,
    pub created_at: u64,
}

/// The "marketClosed" event: the market and the winning selection given
/// with the closing, 0 when none was.
pub struct MarketClosedEvent {
    pub market_id: u64,
    pub winning_selection_id: u64,
}

/// The order book entries of a queue: each bet's odds and open amount.
pub open spec fn orderbook_entries_match(entries: Seq<OrderbookEntry>, bets: Seq<CubeBetModel>) -> bool {
    &&& entries.len() == bets.len()
    &&& forall|i: int|
        0 <= i < entries.len() ==> (#[trigger] entries[i]).odd == bets[i].odd && entries[i].amount
            == bets[i].unmatched_amount
}

/// The detailed entries of a queue: each bet's figures.
pub open spec fn detailed_entries_match(entries: Seq<DetailedBetEntry>, bets: Seq<CubeBetModel>) -> bool {
    &&& entries.len() == bets.len()
    &&& forall|i: int|
        0 <= i < entries.len() ==> {
            let e = #[trigger] entries[i];
            let b = bets[i];
            &&& e.bet_type == b.bet_type
            &&& e.odd == b.odd
            &&& e.unmatched_amount == b.unmatched_amount
            &&& e.matched_amount == b.matched_amount
            &&& e.original_stake == b.stake_amount
            &&& e.liability == b.liability
            &&& e.status == b.status
            &&& e.nft_nonce == b.nft_nonce
            &&& e.created_at == b.created_at
        }
}

/// The sums of the status counters of the given selections' schedulers.
pub open spec fn counter_sums(sels: Seq<CubeSelectionModel>) -> (int, int, int, int, int, int)
    decreases sels.len(),
{
    if sels.len() == 0 {
        (0, 0, 0, 0, 0, 0)
    } else {
        let p = counter_sums(sels.drop_last());
        let s = sels.last().priority_queue;
        (
            p.0 + s.matched_count,
            p.1 + s.unmatched_count,
            p.2 + s.partially_matched_count,
            p.3 + s.win_count,
            p.4 + s.lost_count,
            p.5 + s.canceled_count,
        )
    }
}

/// The counts match the given sums.
pub open spec fn counts_are(c: StatusCounts, sums: (int, int, int, int, int, int)) -> bool {
    &&& c.matched == sums.0
    &&& c.unmatched == sums.1
    &&& c.partially_matched == sums.2
    &&& c.win == sums.3
    &&& c.lost == sums.4
    &&& c.canceled == sums.5
}

/// A new selection of a market: its position from 1 as id, its
/// description, and an empty scheduler.
pub open spec fn new_cube_selections(descriptions: Seq<Seq<u8>>) -> Seq<CubeSelectionModel> {
    Seq::new(
        descriptions.len(),
        |i: int| CubeSelectionModel { selection_id: (i + 1) as u64, description: descriptions[i], priority_queue: empty_scheduler() },
    )
}

/// The views of a list of descriptions.
pub open spec fn descriptions_view(d: Seq<Vec<u8>>) -> Seq<Seq<u8>> {
    d.map_values(|v: Vec<u8>| v@)
}

/// The order book entries of a queue.
pub fn build_orderbook_entries(bets: &Vec<ScheduledBet>) -> (r: Vec<OrderbookEntry>)
    ensures
        orderbook_entries_match(r@, queue_view(bets@)),
{
    let mut entries: Vec<OrderbookEntry> = Vec::new();
    let mut i: usize = 0;
    while i < bets.len()
        invariant
            0 <= i <= bets@.len(),
            entries@.len() == i,
            forall|k: int|
                0 <= k < i ==> (#[trigger] entries@[k]).odd == bets@[k].odd && entries@[k].amount
                    == bets@[k].unmatched_amount,
        decreases bets.len() - i,
    {
        entries.push(OrderbookEntry { odd: bets[i].odd, amount: bets[i].unmatched_amount });
        i = i + 1;
    }
    entries
}

/// The detailed entries of a queue.
pub fn build_detailed_entries(bets: &Vec<ScheduledBet>) -> (r: Vec<DetailedBetEntry>)
    ensures
        detailed_entries_match(r@, queue_view(bets@)),
{
    let mut entries: Vec<DetailedBetEntry> = Vec::new();
    let mut i: usize = 0;
    while i < bets.len()
        invariant
            0 <= i <= bets@.len(),
            entries@.len() == i,
            forall|k: int|
                0 <= k < i ==> {
                    let e = #[trigger] entries@[k];
                    let b = bets@[k]@;
                    &&& e.bet_type == b.bet_type
                    &&& e.odd == b.odd
                    &&& e.unmatched_amount == b.unmatched_amount
                    &&& e.matched_amount == b.matched_amount
                    &&& e.original_stake == b.stake_amount
                    &&& e.liability == b.liability
                    &&& e.status == b.status
                    &&& e.nft_nonce == b.nft_nonce
                    &&& e.created_at == b.created_at
                },
        decreases bets.len() - i,
    {
        let b = &bets[i];
        entries.push(
            DetailedBetEntry {
                bet_type: b.bet_type,
                odd: b.odd,
                unmatched_amount: b.unmatched_amount,
                matched_amount: b.matched_amount,
                original_stake: b.stake_amount,
                liability: b.liability,
                status: b.status,
                nft_nonce: b.nft_nonce,
                created_at: b.created_at,
            },
        );
        i = i + 1;
    }
    entries
}

/// The selections of a new market, from their descriptions.
pub fn create_selections(descriptions: &Vec<Vec<u8>>) -> (r: Vec<CubeSelection>)
    ensures
        cube_selections_view(r@) == new_cube_selections(descriptions_view(descriptions@)),
{
    let mut selections: Vec<CubeSelection> = Vec::new();
    let mut i: usize = 0;
    while i < descriptions.len()
        invariant
            0 <= i <= descriptions@.len(),
            cube_selections_view(selections@) == new_cube_selections(descriptions_view(descriptions@.take(i as int))),
        decreases descriptions.len() - i,
    {
        let ghost prev = selections@;
        let sel = CubeSelection {
            selection_id: i as u64 + 1,
            description: copy_bytes(&descriptions[i]),
            priority_queue: BetScheduler::init_bet_scheduler(),
        };
        selections.push(sel);
        assert(cube_selections_view(selections@) =~= cube_selections_view(prev).push(selections@.last()@));
        assert(descriptions_view(descriptions@.take(i + 1)) =~= descriptions_view(descriptions@.take(i as int)).push(
            descriptions@[i as int]@,
        ));
        assert(cube_selections_view(selections@) =~= new_cube_selections(descriptions_view(descriptions@.take(i + 1))));
        i = i + 1;
    }
    assert(descriptions@.take(descriptions@.len() as int) =~= descriptions@);
    selections
}

/// A new market, open, with nothing matched yet.
pub fn create_market_struct(
    market_id: u64,
    event_id: u64,
    description: Vec<u8>,
    selections: Vec<CubeSelection>,
    close_timestamp: u64,
    now: u64,
) -> (r: CubeMarket)
    ensures
        r@ == (CubeMarketModel {
            market_id,
            event_id,
            description: description@,
            selections: cube_selections_view(selections@),
            liquidity: 0,
            close_timestamp,
            market_status: MarketStatus::Open,
            total_matched_amount: 0,
            created_at: now,
        }),
{
    CubeMarket {
        market_id,
        event_id,
        description,
        selections,
        liquidity: 0,
        close_timestamp,
        market_status: MarketStatus::Open,
        total_matched_amount: 0,
        created_at: now,
    }
}

/// The selection with the given id in a market; refused when there is none.
pub fn get_selection(market: &CubeMarket, selection_id: u64) -> (r: Result<CubeSelection, ContractError>)
    ensures
        match cube_selection_position(market@.selections, selection_id) {
            Some(i) => r matches Ok(s) && s@ == market@.selections[i],
            None => r == Err::<CubeSelection, ContractError>(ContractError::SelectionNotFound),
        },
{
    let ghost q = market@.selections;
    let mut i: usize = 0;
    assert(q.skip(0) =~= q);
    while i < market.selections.len()
        invariant
            q == market@.selections,
            0 <= i <= market.selections@.len(),
            cube_selection_position(q, selection_id) == match cube_selection_position(q.skip(i as int), selection_id) {
                Some(k) => Some(k + i),
                None => None::<int>,
            },
        decreases market.selections.len() - i,
    {
        assert(q.skip(i as int)[0] == market.selections@[i as int]@);
        assert(q.skip(i as int).drop_first() =~= q.skip(i + 1));
        if market.selections[i].selection_id == selection_id {
            return Ok(market.selections[i].clone());
        }
        i = i + 1;
    }
    assert(q.skip(i as int) =~= Seq::<CubeSelectionModel>::empty());
    Err(ContractError::SelectionNotFound)
}

impl CubeStorage {
    /// The market with the given id; refused when there is none.
    pub fn get_market(&self, market_id: u64) -> (r: Result<CubeMarket, ContractError>)
        ensures
            self.market_map().contains_key(market_id) ==> (r matches Ok(m) && m@ == self.market_map()[market_id]),
            !self.market_map().contains_key(market_id) ==> r == Err::<CubeMarket, ContractError>(
                ContractError::MarketDoesNotExist,
            ),
    {
        match self.read_market(market_id) {
            Some(m) => Ok(m),
            None => Err(ContractError::MarketDoesNotExist),
        }
    }

    /// The status of the market with the given id; refused when there is none.
    pub fn get_market_status(&self, market_id: u64) -> (r: Result<MarketStatus, ContractError>)
        ensures
            self.market_map().contains_key(market_id) ==> r == Ok::<MarketStatus, ContractError>(
                self.market_map()[market_id].market_status,
            ),
            !self.market_map().contains_key(market_id) ==> r == Err::<MarketStatus, ContractError>(
                ContractError::MarketDoesNotExist,
            ),
    {
        let market = self.get_market(market_id)?;
        Ok(market.market_status)
    }

    /// The selections of the market with the given id; refused when there is
    /// none.
    pub fn get_market_selections(&self, market_id: u64) -> (r: Result<Vec<CubeSelection>, ContractError>)
        ensures
            self.market_map().contains_key(market_id) ==> (r matches Ok(s) && cube_selections_view(s@)
                == self.market_map()[market_id].selections),
            !self.market_map().contains_key(market_id) ==> r == Err::<Vec<CubeSelection>, ContractError>(
                ContractError::MarketDoesNotExist,
            ),
    {
        let market = self.get_market(market_id)?;
        Ok(market.selections)
    }

    /// The order book of a selection: its back and lay queues as odds and
    /// open amounts.
    pub fn get_orderbook(&self, market_id: u64, selection_id: u64) -> (r: Result<(Vec<OrderbookEntry>, Vec<OrderbookEntry>), ContractError>)
        ensures
            !self.market_map().contains_key(market_id) ==> r == Err::<(Vec<OrderbookEntry>, Vec<OrderbookEntry>), ContractError>(
                ContractError::MarketDoesNotExist,
            ),
            self.market_map().contains_key(market_id) ==> match cube_selection_position(self.market_map()[market_id].selections, selection_id) {
                None => r == Err::<(Vec<OrderbookEntry>, Vec<OrderbookEntry>), ContractError>(ContractError::SelectionNotFound),
                Some(i) => r matches Ok((back, lay)) && {
                    let q = self.market_map()[market_id].selections[i].priority_queue;
                    orderbook_entries_match(back@, q.back_bets) && orderbook_entries_match(lay@, q.lay_bets)
                },
            },
    {
        let market = self.get_market(market_id)?;
        let selection = get_selection(&market, selection_id)?;
        let back_orders = build_orderbook_entries(&selection.priority_queue.back_bets);
        let lay_orders = build_orderbook_entries(&selection.priority_queue.lay_bets);
        Ok((back_orders, lay_orders))
    }

    /// The detailed queues of a selection.
    pub fn get_detailed_bet_queue(&self, market_id: u64, selection_id: u64) -> (r: Result<(Vec<DetailedBetEntry>, Vec<DetailedBetEntry>), ContractError>)
        ensures
            !self.market_map().contains_key(market_id) ==> r == Err::<(Vec<DetailedBetEntry>, Vec<DetailedBetEntry>), ContractError>(
                ContractError::MarketDoesNotExist,
            ),
            self.market_map().contains_key(market_id) ==> match cube_selection_position(self.market_map()[market_id].selections, selection_id) {
                None => r == Err::<(Vec<DetailedBetEntry>, Vec<DetailedBetEntry>), ContractError>(ContractError::SelectionNotFound),
                Some(i) => r matches Ok((back, lay)) && {
                    let q = self.market_map()[market_id].selections[i].priority_queue;
                    detailed_entries_match(back@, q.back_bets) && detailed_entries_match(lay@, q.lay_bets)
                },
            },
    {
        let market = self.get_market(market_id)?;
        let selection = get_selection(&market, selection_id)?;
        let back_queue = build_detailed_entries(&selection.priority_queue.back_bets);
        let lay_queue = build_detailed_entries(&selection.priority_queue.lay_bets);
        Ok((back_queue, lay_queue))
    }

    /// The numbers of bets of a market by status, summed over its
    /// selections, with each selection's own counts.
    pub fn get_bet_counts_by_status(&self, market_id: u64) -> (r: Result<(StatusCounts, Vec<SelectionCounts>), ContractError>)
        ensures
            !self.market_map().contains_key(market_id) ==> r == Err::<(StatusCounts, Vec<SelectionCounts>), ContractError>(
                ContractError::MarketDoesNotExist,
            ),
            self.market_map().contains_key(market_id) ==> ({
                let sels = self.market_map()[market_id].selections;
                let sums = counter_sums(sels);
                if sums.0 > u128::MAX || sums.1 > u128::MAX || sums.2 > u128::MAX || sums.3 > u128::MAX || sums.4
                    > u128::MAX || sums.5 > u128::MAX {
                    r == Err::<(StatusCounts, Vec<SelectionCounts>), ContractError>(ContractError::AmountOverflow)
                } else {
                    r matches Ok((totals, per)) && counts_are(totals, sums) && per@.len() == sels.len() && forall|i: int|
                        0 <= i < sels.len() ==> (#[trigger] per@[i]).selection_id == sels[i].selection_id && counts_are(
                            per@[i].counts,
                            (
                                sels[i].priority_queue.matched_count as int,
                                sels[i].priority_queue.unmatched_count as int,
                                sels[i].priority_queue.partially_matched_count as int,
                                sels[i].priority_queue.win_count as int,
                                sels[i].priority_queue.lost_count as int,
                                sels[i].priority_queue.canceled_count as int,
                            ),
                        )
                }
            }),
    {
        let market = self.get_market(market_id)?;
        let ghost sels = market@.selections;
        let mut total_matched: u128 = 0;
        let mut total_unmatched: u128 = 0;
        let mut total_partially_matched: u128 = 0;
        let mut total_win: u128 = 0;
        let mut total_lost: u128 = 0;
        let mut total_canceled: u128 = 0;
        let mut per: Vec<SelectionCounts> = Vec::new();
        let mut i: usize = 0;
        assert(sels.take(0) =~= Seq::<CubeSelectionModel>::empty());
        while i < market.selections.len()
            invariant
                sels == market@.selections,
                self.market_map().contains_key(market_id),
                sels == self.market_map()[market_id].selections,
                0 <= i <= sels.len(),
                counter_sums(sels.take(i as int)) == (
                    total_matched as int,
                    total_unmatched as int,
                    total_partially_matched as int,
                    total_win as int,
                    total_lost as int,
                    total_canceled as int,
                ),
                per@.len() == i,
                forall|k: int|
                    0 <= k < i ==> (#[trigger] per@[k]).selection_id == sels[k].selection_id && counts_are(
                        per@[k].counts,
                        (
                            sels[k].priority_queue.matched_count as int,
                            sels[k].priority_queue.unmatched_count as int,
                            sels[k].priority_queue.partially_matched_count as int,
                            sels[k].priority_queue.win_count as int,
                            sels[k].priority_queue.lost_count as int,
                            sels[k].priority_queue.canceled_count as int,
                        ),
                    ),
            decreases market.selections.len() - i,
        {
            let q = &market.selections[i].priority_queue;
            assert(sels[i as int].priority_queue == q@);
            assert(sels.take(i + 1).drop_last() =~= sels.take(i as int));
            let ghost full = counter_sums(sels);
            let m = match total_matched.checked_add(q.matched_count as u128) {
                Some(v) => v,
                None => {
                    proof { lemma_counter_sums_grow(sels, i as int + 1); }
                    return Err(ContractError::AmountOverflow);
                },
            };
            let u = match total_unmatched.checked_add(q.unmatched_count as u128) {
                Some(v) => v,
                None => {
                    proof { lemma_counter_sums_grow(sels, i as int + 1); }
                    return Err(ContractError::AmountOverflow);
                },
            };
            let p = match total_partially_matched.checked_add(q.partially_matched_count as u128) {
                Some(v) => v,
                None => {
                    proof { lemma_counter_sums_grow(sels, i as int + 1); }
                    return Err(ContractError::AmountOverflow);
                },
            };
            let w = match total_win.checked_add(q.win_count as u128) {
                Some(v) => v,
                None => {
                    proof { lemma_counter_sums_grow(sels, i as int + 1); }
                    return Err(ContractError::AmountOverflow);
                },
            };
            let l = match total_lost.checked_add(q.lost_count as u128) {
                Some(v) => v,
                None => {
                    proof { lemma_counter_sums_grow(sels, i as int + 1); }
                    return Err(ContractError::AmountOverflow);
                },
            };
            let c = match total_canceled.checked_add(q.canceled_count as u128) {
                Some(v) => v,
                None => {
                    proof { lemma_counter_sums_grow(sels, i as int + 1); }
                    return Err(ContractError::AmountOverflow);
                },
            };
            total_matched = m;
            total_unmatched = u;
            total_partially_matched = p;
            total_win = w;
            total_lost = l;
            total_canceled = c;
            per.push(
                SelectionCounts {
                    selection_id: market.selections[i].selection_id,
                    counts: StatusCounts {
                        matched: q.matched_count as u128,
                        unmatched: q.unmatched_count as u128,
                        partially_matched: q.partially_matched_count as u128,
                        win: q.win_count as u128,
                        lost: q.lost_count as u128,
                        canceled: q.canceled_count as u128,
                    },
                },
            );
            i = i + 1;
        }
        assert(sels.take(i as int) =~= sels);
        Ok((
            StatusCounts {
                matched: total_matched,
                unmatched: total_unmatched,
                partially_matched: total_partially_matched,
                win: total_win,
                lost: total_lost,
                canceled: total_canceled,
            },
            per,
        ))
    }

    /// Advances the market counter and gives its new value; refused when it
    /// would not fit in 64 bits.
    pub fn get_and_increment_market_counter(&mut self) -> (r: Result<u64, ContractError>)
        ensures
            old(self).market_counter == u64::MAX ==> r == Err::<u64, ContractError>(ContractError::CounterOverflow)
                && *final(self) == *old(self),
            old(self).market_counter < u64::MAX ==> r == Ok::<u64, ContractError>((old(self).market_counter + 1) as u64)
                && *final(self) == (CubeStorage { market_counter: (old(self).market_counter + 1) as u64, ..*old(self) }),
    {
        if self.market_counter == u64::MAX {
            return Err(ContractError::CounterOverflow);
        }
        self.market_counter = self.market_counter + 1;
        Ok(self.market_counter)
    }

    /// Creates a market of event `event_id`, closing at `close_timestamp`,
    /// with one selection per description: the closing time must be after
    /// `now`, the market takes the next counter value as id, and no market
    /// may be stored under it. A refused creation leaves the storage as it
    /// was.
    pub fn create_market(
        &mut self,
        event_id: u64,
        description: Vec<u8>,
        selection_descriptions: &Vec<Vec<u8>>,
        close_timestamp: u64,
        now: u64,
    ) -> (r: Result<(u64, MarketCreatedEvent), ContractError>)
        ensures
            close_timestamp <= now ==> r == Err::<(u64, MarketCreatedEvent), ContractError>(
                ContractError::CloseTimestampInPast,
            ) && *final(self) == *old(self),
            close_timestamp > now && old(self).market_counter == u64::MAX ==> r == Err::<(u64, MarketCreatedEvent), ContractError>(
                ContractError::CounterOverflow,
            ) && *final(self) == *old(self),
            close_timestamp > now && old(self).market_counter < u64::MAX && old(self).market_map().contains_key(
                (old(self).market_counter + 1) as u64,
            ) ==> r == Err::<(u64, MarketCreatedEvent), ContractError>(ContractError::MarketAlreadyExists)
                && *final(self) == *old(self),
            close_timestamp > now && old(self).market_counter < u64::MAX && !old(self).market_map().contains_key(
                (old(self).market_counter + 1) as u64,
            ) ==> ({
                let id = (old(self).market_counter + 1) as u64;
                r matches Ok((mid, ev)) && {
                    &&& mid == id
                    &&& final(self).market_map() == old(self).market_map().insert(
                        id,
                        CubeMarketModel {
                            market_id: id,
                            event_id,
                            description: description@,
                            selections: new_cube_selections(descriptions_view(selection_descriptions@)),
                            liquidity: 0,
                            close_timestamp,
                            market_status: MarketStatus::Open,
                            total_matched_amount: 0,
                            created_at: now,
                        },
                    )
                    &&& final(self).market_counter == id
                    &&& *final(self) == (CubeStorage {
                        markets: final(self).markets,
                        market_counter: final(self).market_counter,
                        ..*old(self)
                    })
                    &&& ev.market_id == id && ev.event_id == event_id && ev.description@ == description@
                        && ev.close_timestamp == close_timestamp && ev.created_at == now
                }
            }),
    {
        if close_timestamp <= now {
            return Err(ContractError::CloseTimestampInPast);
        }
        if self.market_counter == u64::MAX {
            return Err(ContractError::CounterOverflow);
        }
        let next = self.market_counter + 1;
        if self.markets.contains_key(&next) {
            return Err(ContractError::MarketAlreadyExists);
        }
        let market_id = self.get_and_increment_market_counter()?;
        let selections = create_selections(selection_descriptions);
        let event_description = copy_bytes(&description);
        let market = create_market_struct(market_id, event_id, description, selections, close_timestamp, now);
        self.store_market(market_id, market);
        Ok((
            market_id,
            MarketCreatedEvent {
                market_id,
                event_id,
                description: event_description,
                close_timestamp,
                created_at: now,
            },
        ))
    }

    /// Closes an open market; refused, leaving the storage as it was, when
    /// the market does not exist or is not open. Gives the "marketClosed"
    /// event with the winning selection, if one was given.
    pub fn close_market(&mut self, market_id: u64, winning_selection_id: Option<u64>) -> (r: Result<MarketClosedEvent, ContractError>)
        ensures
            !old(self).market_map().contains_key(market_id) ==> r == Err::<MarketClosedEvent, ContractError>(
                ContractError::MarketDoesNotExist,
            ) && *final(self) == *old(self),
            old(self).market_map().contains_key(market_id) && old(self).market_map()[market_id].market_status
                != MarketStatus::Open ==> r == Err::<MarketClosedEvent, ContractError>(ContractError::MarketNotOpen)
                && *final(self) == *old(self),
            old(self).market_map().contains_key(market_id) && old(self).market_map()[market_id].market_status
                == MarketStatus::Open ==> (r matches Ok(ev) && {
                &&& final(self).market_map() == old(self).market_map().insert(
                    market_id,
                    CubeMarketModel { market_status: MarketStatus::Closed, ..old(self).market_map()[market_id] },
                )
                &&& *final(self) == (CubeStorage { markets: final(self).markets, ..*old(self) })
                &&& ev.market_id == market_id
                &&& ev.winning_selection_id == match winning_selection_id {
                    Some(w) => w,
                    None => 0,
                }
            }),
    {
        let mut market = self.get_market(market_id)?;
        if market.market_status != MarketStatus::Open {
            return Err(ContractError::MarketNotOpen);
        }
        market.market_status = MarketStatus::Closed;
        self.store_market(market_id, market);
        let winner = match winning_selection_id {
            Some(w) => w,
            None => 0,
        };
        Ok(MarketClosedEvent { market_id, winning_selection_id: winner })
    }

    /// Whether a market exists and its closing time is still ahead of `now`.
    pub fn is_market_open(&self, market_id: u64, now: u64) -> (r: bool)
        ensures
            r == (self.market_map().contains_key(market_id) && now < self.market_map()[market_id].close_timestamp),
    {
        match self.markets.get(&market_id) {
            None => false,
            Some(m) => now < m.close_timestamp,
        }
    }
}

/// The sums over more selections are at least those over fewer.
pub proof fn lemma_counter_sums_grow(sels: Seq<CubeSelectionModel>, k: int)
    requires
        0 <= k <= sels.len(),
    ensures
        counter_sums(sels.take(k)).0 <= counter_sums(sels).0,
        counter_sums(sels.take(k)).1 <= counter_sums(sels).1,
        counter_sums(sels.take(k)).2 <= counter_sums(sels).2,
        counter_sums(sels.take(k)).3 <= counter_sums(sels).3,
        counter_sums(sels.take(k)).4 <= counter_sums(sels).4,
        counter_sums(sels.take(k)).5 <= counter_sums(sels).5,
    decreases sels.len() - k,
{
    if k == sels.len() {
        assert(sels.take(k) =~= sels);
    } else {
        lemma_counter_sums_grow(sels, k + 1);
        assert(sels.take(k + 1).drop_last() =~= sels.take(k));
    }
}

} // verus!
