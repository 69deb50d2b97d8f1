//! Funds: what is returned of the open bets when a market closes, the
//! settlement of an event's markets from its score, and claiming a win.
use vstd::prelude::*;
use crate::errors::ContractError;
use crate::events::{ClaimWinEvent, Transfer, TransferModel, transfers_view};
use crate::orderbook::{calculate_total_potential_profit, potential_profit_result};
use crate::storage::{Ledger, SelectionStorage, SelectionStorageModel, StorageModule, empty_tracker};
use crate::types::{
    Address, Bet, BetModel, BetStatus, BetType, LevelModel, MarketModel, MarketStatus, MarketType,
    Payment, PaymentToken, PriceLevel, SelectionModel, SelectionType, Sport, TrackerModel, Tracker,
};
use crate::bet::status_number;

verus! {

/// The ids of the bets waiting at a list of price levels, level by level.
pub open spec fn level_nonces(levels: Seq<LevelModel>) -> Seq<u64>
    decreases levels.len(),
{
    if levels.len() == 0 {
        Seq::empty()
    } else {
        level_nonces(levels.drop_last()) + levels.last().bet_nonces
    }
}

/// The funds locked by every account.
pub open spec fn locked_of(l: Ledger) -> spec_fn(Address) -> u128 {
    |a: Address| l.spec_get(a)
}

/// `f` with account `a` given `v`.
pub open spec fn with_locked(f: spec_fn(Address) -> u128, a: Address, v: u128) -> spec_fn(Address) -> u128 {
    |x: Address| if x == a { v } else { f(x) }
}

/// `f` with selection `sl` of market `m` given `v`.
pub open spec fn with_selection(
    f: spec_fn(u64, u64) -> SelectionStorageModel,
    m: u64,
    sl: u64,
    v: SelectionStorageModel,
) -> spec_fn(u64, u64) -> SelectionStorageModel {
    |x: u64, y: u64| if x == m && y == sl { v } else { f(x, y) }
}

/// What becomes of the open part of a bet when its market closes: nothing
/// when nothing of it is open; otherwise the open part is refunded (for a
/// lay bet the share of its paid amount in whole percent of its open stake),
/// and the bet is dropped when nothing of it was matched or else reduced to
/// its matched part and marked matched. `unlock` is the variant of an
/// expired market, which also recomputes a lay bet's paid amount from its
/// liability; the other variant keeps a lay bet's paid amount.
pub open spec fn unmatched_return(b: BetModel, unlock: bool) -> Result<Option<(u128, Option<BetModel>)>, ContractError> {
    if b.total_matched > b.stake_amount {
        Err(ContractError::NegativeAmount)
    } else {
        let unmatched = b.stake_amount - b.total_matched;
        if unmatched == 0 {
            Ok(None)
        } else {
            let refund: Result<u128, ContractError> = match b.bet_type {
                BetType::Back => Ok(unmatched as u128),
                BetType::Lay => if unmatched * 100 > u128::MAX {
                    Err(ContractError::AmountOverflow)
                } else if b.total_amount * (unmatched * 100 / b.stake_amount as int) > u128::MAX {
                    Err(ContractError::AmountOverflow)
                } else {
                    Ok((b.total_amount * (unmatched * 100 / b.stake_amount as int) / 100) as u128)
                },
            };
            match refund {
                Err(e) => Err(e),
                Ok(r) => if b.total_matched > 0 {
                    let tm = b.total_matched;
                    let total: Result<u128, ContractError> = if b.bet_type == BetType::Lay {
                        if !unlock {
                            Ok(b.total_amount)
                        } else if b.liability * tm > u128::MAX {
                            Err(ContractError::AmountOverflow)
                        } else if tm + b.liability * tm / b.stake_amount as int > u128::MAX {
                            Err(ContractError::AmountOverflow)
                        } else {
                            Ok((tm + b.liability * tm / b.stake_amount as int) as u128)
                        }
                    } else {
                        Ok(tm)
                    };
                    match total {
                        Err(e) => Err(e),
                        Ok(t) => {
                            let b1 = BetModel { stake_amount: tm, total_amount: t, status: BetStatus::Matched, ..b };
                            match potential_profit_result(b1) {
                                Err(e) => Err(e),
                                Ok(p) => Ok(Some((r, Some(BetModel { potential_profit: p, ..b1 })))),
                            }
                        },
                    }
                } else {
                    Ok(Some((r, None)))
                },
            }
        }
    }
}

/// What is refunded of a bet's open part when its market closes: a back bet
/// gets its open stake back; a lay bet the share of what it paid that its
/// open stake makes of its stake, counted in whole percent and rounded down
/// to a whole unit, never more than it paid.
pub proof fn lemma_unmatched_refund_share(b: BetModel, unlock: bool)
    requires
        unmatched_return(b, unlock) matches Ok(Some(_)),
    ensures
        b.total_matched < b.stake_amount,
        b.bet_type == BetType::Back ==> unmatched_return(b, unlock)->Ok_0->Some_0.0 == b.stake_amount
            - b.total_matched,
        b.bet_type == BetType::Lay ==> unmatched_return(b, unlock)->Ok_0->Some_0.0 * 100 <= b.total_amount
            * ((b.stake_amount - b.total_matched) * 100 / b.stake_amount as int)
            < unmatched_return(b, unlock)->Ok_0->Some_0.0 * 100 + 100,
        b.bet_type == BetType::Lay ==> unmatched_return(b, unlock)->Ok_0->Some_0.0 <= b.total_amount,
{
    if b.bet_type == BetType::Lay {
        let r = unmatched_return(b, unlock)->Ok_0->Some_0.0 as int;
        let s = b.stake_amount as int;
        let u = (b.stake_amount - b.total_matched) as int;
        let t = b.total_amount as int;
        let pct = u * 100 / s;
        assert(pct <= 100) by (nonlinear_arith)
            requires
                0 < u <= s,
                pct == u * 100 / s,
        ;
        assert(0 <= pct) by (nonlinear_arith)
            requires
                0 < u <= s,
                pct == u * 100 / s,
        ;
        assert(r * 100 <= t * pct < r * 100 + 100 && r <= t) by (nonlinear_arith)
            requires
                r == t * pct / 100,
                0 <= pct <= 100,
                t >= 0,
        ;
    }
}

/// A bet nothing of which was matched, when its market closes, is dropped
/// and refunded all it paid: a back bet its stake, a lay bet its stake and
/// its liability together.
pub proof fn lemma_unmatched_bet_refunded_whole(b: BetModel, unlock: bool)
    requires
        b.total_matched == 0,
        b.stake_amount > 0,
        b.bet_type == BetType::Lay ==> b.stake_amount * 100 <= u128::MAX && b.total_amount * 100
            <= u128::MAX,
    ensures
        b.bet_type == BetType::Back ==> unmatched_return(b, unlock) == Ok::<
            Option<(u128, Option<BetModel>)>,
            ContractError,
        >(Some((b.stake_amount, None))),
        b.bet_type == BetType::Lay ==> unmatched_return(b, unlock) == Ok::<
            Option<(u128, Option<BetModel>)>,
            ContractError,
        >(Some((b.total_amount, None))),
{
    if b.bet_type == BetType::Lay {
        let s = b.stake_amount as int;
        let t = b.total_amount as int;
        assert(s * 100 / s == 100) by (nonlinear_arith)
            requires
                s > 0,
        ;
        assert(t * 100 / 100 == t);
    }
}

/// The state that closing markets works on: the bets, everyone's locked
/// funds, the transfers made so far, the storage of every selection (by
/// market and selection), the markets, and the error that stopped it.
pub struct CloseState {
    pub bets: Map<u64, BetModel>,
    pub locked: spec_fn(Address) -> u128,
    pub transfers: Seq<TransferModel>,
    pub sels: spec_fn(u64, u64) -> SelectionStorageModel,
    pub markets: Map<u64, MarketModel>,
    pub err: Option<ContractError>,
}

/// The close state of a storage, with the transfers made so far.
pub open spec fn close_state(s: StorageModule, transfers: Seq<TransferModel>) -> CloseState {
    CloseState {
        bets: s.bets(),
        locked: locked_of(s.locked_funds),
        transfers,
        sels: |m: u64, sl: u64| s.selection_state(m, sl),
        markets: s.market_map(),
        err: None,
    }
}

/// The close state with an error.
pub open spec fn failed(st: CloseState, e: ContractError) -> CloseState {
    CloseState { err: Some(e), ..st }
}

/// Returning the open part of bet `nonce` (see `unmatched_return`); the
/// bet must be stored. With `unlock`, the refund also comes out of the
/// bettor's locked funds, down to zero.
pub open spec fn return_step(st: CloseState, nonce: u64, unlock: bool) -> CloseState {
    if st.err is Some {
        st
    } else if !st.bets.contains_key(nonce) {
        failed(st, ContractError::StorageDecode)
    } else {
        let b = st.bets[nonce];
        match unmatched_return(b, unlock) {
            Err(e) => failed(st, e),
            Ok(None) => st,
            Ok(Some((refund, kept))) => {
                let l = (st.locked)(b.bettor);
                CloseState {
                    bets: match kept {
                        Some(k) => st.bets.insert(nonce, k),
                        None => st.bets.remove(nonce),
                    },
                    locked: if unlock {
                        with_locked(st.locked, b.bettor, if l >= refund { (l - refund) as u128 } else { 0 })
                    } else {
                        st.locked
                    },
                    transfers: st.transfers.push(
                        TransferModel { to: b.bettor, token: b.payment_token, nonce: b.payment_nonce, amount: refund },
                    ),
                    ..st
                }
            },
        }
    }
}

/// Returning the open parts of the given bets, in order.
pub open spec fn return_run(st: CloseState, nonces: Seq<u64>, unlock: bool) -> CloseState
    decreases nonces.len(),
{
    if nonces.len() == 0 {
        st
    } else {
        return_step(return_run(st, nonces.drop_last(), unlock), nonces.last(), unlock)
    }
}

/// A selection's storage once its order book is emptied: no levels, no
/// liquidity, and a tracker that keeps only the selection's counters.
pub open spec fn emptied_selection(st: SelectionStorageModel) -> SelectionStorageModel {
    SelectionStorageModel {
        back_levels: Seq::empty(),
        lay_levels: Seq::empty(),
        back_liquidity: 0,
        lay_liquidity: 0,
        tracker: TrackerModel {
            back_levels: Seq::empty(),
            lay_levels: Seq::empty(),
            back_liquidity: 0,
            lay_liquidity: 0,
            matched_count: st.matched_count,
            unmatched_count: st.unmatched_count,
            partially_matched_count: st.partially_matched_count,
            win_count: st.win_count,
            lost_count: st.lost_count,
            canceled_count: st.canceled_count,
        },
        ..st
    }
}

/// The bets waiting on both sides of a selection: back levels, then lay.
pub open spec fn selection_nonces(st: SelectionStorageModel) -> Seq<u64> {
    level_nonces(st.back_levels) + level_nonces(st.lay_levels)
}

/// A selection's storage once the open parts of its bets were returned:
/// emptied when its market expired (`unlock`), or else with no liquidity.
pub open spec fn drained_selection(st: SelectionStorageModel, unlock: bool) -> SelectionStorageModel {
    if unlock {
        emptied_selection(st)
    } else {
        SelectionStorageModel { back_liquidity: 0, lay_liquidity: 0, ..st }
    }
}

/// Returning the open parts of the bets waiting at selection `sid` of
/// market `market_id`, then draining its storage.
pub open spec fn drain_selection(st: CloseState, market_id: u64, sid: u64, unlock: bool) -> CloseState {
    let s = (st.sels)(market_id, sid);
    let r = return_run(st, selection_nonces(s), unlock);
    if r.err is Some {
        r
    } else {
        CloseState { sels: with_selection(r.sels, market_id, sid, drained_selection(s, unlock)), ..r }
    }
}

/// Draining the given selections of a market, in order.
pub open spec fn drain_selections(st: CloseState, market_id: u64, ids: Seq<u64>, unlock: bool) -> CloseState
    decreases ids.len(),
{
    if ids.len() == 0 {
        st
    } else {
        let prev = drain_selections(st, market_id, ids.drop_last(), unlock);
        if prev.err is Some {
            prev
        } else {
            drain_selection(prev, market_id, ids.last(), unlock)
        }
    }
}

/// Draining every selection of the given markets, in order, without
/// closing them.
pub open spec fn drain_markets(st: CloseState, ids: Seq<u64>) -> CloseState
    decreases ids.len(),
{
    if ids.len() == 0 {
        st
    } else {
        let prev = drain_markets(st, ids.drop_last());
        let id = ids.last();
        if prev.err is Some {
            prev
        } else if !prev.markets.contains_key(id) {
            failed(prev, ContractError::StorageDecode)
        } else {
            drain_selections(prev, id, selection_ids(prev.markets[id].selections), false)
        }
    }
}

/// The ids of a market's selections.
pub open spec fn selection_ids(sels: Seq<SelectionModel>) -> Seq<u64> {
    sels.map_values(|s: SelectionModel| s.id)
}

/// Handling an expired market of an event: the market must be one of the
/// event's and be stored; it is closed and each of its selections emptied.
pub open spec fn expire_market(st: CloseState, event_markets: Seq<u64>, market_id: u64) -> CloseState {
    if st.err is Some {
        st
    } else if !event_markets.contains(market_id) {
        failed(st, ContractError::MarketMissing)
    } else if !st.markets.contains_key(market_id) {
        failed(st, ContractError::StorageDecode)
    } else {
        let m = st.markets[market_id];
        let closed = CloseState {
            markets: st.markets.insert(market_id, MarketModel { market_status: MarketStatus::Closed, ..m }),
            ..st
        };
        drain_selections(closed, market_id, selection_ids(m.selections), true)
    }
}

/// A storage holds a close state, and besides the bets, the locked funds,
/// the selections and the markets it holds what `old` holds.
pub open spec fn holds_close_state(s: StorageModule, st: CloseState, old: StorageModule) -> bool {
    &&& s.bets() == st.bets
    &&& forall|a: Address| #[trigger] s.locked_funds.spec_get(a) == (st.locked)(a)
    &&& forall|m: u64, sl: u64| #[trigger] s.selection_state(m, sl) == (st.sels)(m, sl)
    &&& s.market_map() == st.markets
    &&& s.same_lists(&old)
}

/// Closing the markets of an event: each must be stored and open, and is
/// handled as an expired market.
pub open spec fn close_event_markets(st: CloseState, event_markets: Seq<u64>, ids: Seq<u64>) -> CloseState
    decreases ids.len(),
{
    if ids.len() == 0 {
        st
    } else {
        let prev = close_event_markets(st, event_markets, ids.drop_last());
        let id = ids.last();
        if prev.err is Some {
            prev
        } else if !prev.markets.contains_key(id) {
            failed(prev, ContractError::StorageDecode)
        } else if prev.markets[id].market_status != MarketStatus::Open {
            failed(prev, ContractError::MarketNotOpen)
        } else {
            expire_market(prev, event_markets, id)
        }
    }
}

/// A storage that holds a close state without error is that state.
pub proof fn lemma_close_state_ext(s: StorageModule, t: StorageModule, tr: Seq<TransferModel>, st: CloseState)
    requires
        holds_close_state(s, st, t),
        st.transfers == tr,
        st.err is None,
    ensures
        close_state(s, tr) == st,
{
    let c = close_state(s, tr);
    assert(c.sels =~= st.sels);
    assert(c.locked =~= st.locked);
}


/// Once an error stops a run of returns, the rest of the run keeps it.
pub proof fn lemma_return_run_err(st: CloseState, nonces: Seq<u64>, unlock: bool, k: int)
    requires
        0 <= k <= nonces.len(),
        return_run(st, nonces.take(k), unlock).err is Some,
    ensures
        return_run(st, nonces, unlock) == return_run(st, nonces.take(k), unlock),
    decreases nonces.len() - k,
{
    if k == nonces.len() {
        assert(nonces.take(k) =~= nonces);
    } else {
        assert(nonces.take(k + 1).drop_last() =~= nonces.take(k));
        lemma_return_run_err(st, nonces, unlock, k + 1);
    }
}

/// Returning the open parts of bets leaves the selections and the markets.
pub proof fn lemma_return_run_frame(st: CloseState, nonces: Seq<u64>, unlock: bool)
    ensures
        return_run(st, nonces, unlock).sels == st.sels,
        return_run(st, nonces, unlock).markets == st.markets,
    decreases nonces.len(),
{
    if nonces.len() > 0 {
        lemma_return_run_frame(st, nonces.drop_last(), unlock);
    }
}

/// Once an error stops the draining of selections, the rest keeps it.
pub proof fn lemma_drain_selections_err(st: CloseState, market_id: u64, ids: Seq<u64>, unlock: bool, k: int)
    requires
        0 <= k <= ids.len(),
        drain_selections(st, market_id, ids.take(k), unlock).err is Some,
    ensures
        drain_selections(st, market_id, ids, unlock) == drain_selections(st, market_id, ids.take(k), unlock),
    decreases ids.len() - k,
{
    if k == ids.len() {
        assert(ids.take(k) =~= ids);
    } else {
        assert(ids.take(k + 1).drop_last() =~= ids.take(k));
        lemma_drain_selections_err(st, market_id, ids, unlock, k + 1);
    }
}

/// The ids of the bets waiting at a list of price levels.
pub fn collect_nonces(levels: &Vec<PriceLevel>) -> (r: Vec<u64>)
    ensures
        r@ == level_nonces(crate::types::levels_view(levels@)),
{
    let mut r: Vec<u64> = Vec::new();
    let mut i: usize = 0;
    while i < levels.len()
        invariant
            0 <= i <= levels@.len(),
            r@ == level_nonces(crate::types::levels_view(levels@.take(i as int))),
        decreases levels.len() - i,
    {
        let level = &levels[i];
        let mut j: usize = 0;
        let ghost start = r@;
        while j < level.bet_nonces.len()
            invariant
                0 <= j <= level.bet_nonces@.len(),
                r@ == start + level.bet_nonces@.take(j as int),
            decreases level.bet_nonces.len() - j,
        {
            r.push(level.bet_nonces[j]);
            assert(level.bet_nonces@.take(j + 1) =~= level.bet_nonces@.take(j as int).push(level.bet_nonces@[j as int]));
            j = j + 1;
        }
        assert(level.bet_nonces@.take(j as int) =~= level.bet_nonces@);
        assert(crate::types::levels_view(levels@.take(i + 1)).drop_last() =~= crate::types::levels_view(
            levels@.take(i as int),
        ));
        assert(crate::types::levels_view(levels@.take(i + 1)).last() == levels@[i as int]@);
        i = i + 1;
    }
    assert(levels@.take(levels@.len() as int) =~= levels@);
    r
}

impl StorageModule {
    /// Returns the open part of bet `nonce` (see `return_step`), adding the
    /// refund to `transfers`.
    fn settle_unmatched(&mut self, nonce: u64, unlock: bool, transfers: &mut Vec<Transfer>) -> (r: Result<(), ContractError>)
        ensures
            ({
                let st = return_step(close_state(*old(self), transfers_view(old(transfers)@)), nonce, unlock);
                match st.err {
                    Some(e) => r == Err::<(), ContractError>(e) && *final(self) == *old(self),
                    None => r is Ok && holds_close_state(*final(self), st, *old(self)) && transfers_view(
                        final(transfers)@,
                    ) == st.transfers,
                }
            }),
    {
        let ghost st0 = close_state(*self, transfers_view(transfers@));
        let bet = match self.read_bet(nonce) {
            Some(b) => b,
            None => return Err(ContractError::StorageDecode),
        };
        if bet.total_matched > bet.stake_amount {
            return Err(ContractError::NegativeAmount);
        }
        let unmatched = bet.stake_amount - bet.total_matched;
        if unmatched == 0 {
            return Ok(());
        }
        let refund: u128 = match bet.bet_type {
            BetType::Back => unmatched,
            BetType::Lay => {
                let scaled = match unmatched.checked_mul(100) {
                    Some(v) => v,
                    None => return Err(ContractError::AmountOverflow),
                };
                let ratio = scaled / bet.stake_amount;
                match bet.total_amount.checked_mul(ratio) {
                    Some(v) => v / 100,
                    None => return Err(ContractError::AmountOverflow),
                }
            },
        };
        let tm = bet.total_matched;
        let kept: Option<Bet> = if tm > 0 {
            let total: u128 = if bet.bet_type == BetType::Lay {
                if !unlock {
                    bet.total_amount
                } else {
                    let prod = match bet.liability.checked_mul(tm) {
                        Some(v) => v,
                        None => return Err(ContractError::AmountOverflow),
                    };
                    match tm.checked_add(prod / bet.stake_amount) {
                        Some(v) => v,
                        None => return Err(ContractError::AmountOverflow),
                    }
                }
            } else {
                tm
            };
            let mut b1 = bet.clone();
            b1.stake_amount = tm;
            b1.total_amount = total;
            b1.status = BetStatus::Matched;
            let p = calculate_total_potential_profit(&b1)?;
            b1.potential_profit = p;
            Some(b1)
        } else {
            None
        };
        let bettor = bet.bettor;
        let ghost s0 = *self;
        if unlock {
            let l = self.locked_funds.get(&bettor);
            let nl = if l >= refund {
                l - refund
            } else {
                0
            };
            self.locked_funds.set(&bettor, nl);
        }
        let ghost s1 = *self;
        transfers.push(Transfer { to: bettor, token: bet.payment_token.clone(), nonce: bet.payment_nonce, amount: refund });
        match kept {
            Some(k) => self.put_bet(nonce, k),
            None => {
                let _ = self.take_bet(nonce);
            },
        }
        let ghost st = return_step(st0, nonce, unlock);
        assert(transfers_view(transfers@) =~= st.transfers);
        assert forall|m: u64, sl: u64| #[trigger] self.selection_state(m, sl) == (st.sels)(m, sl) by {
            assert(self.selections == s0.selections);
        }
        Ok(())
    }

    /// Returns the open parts of the given bets, in order.
    fn settle_all(&mut self, nonces: &Vec<u64>, unlock: bool, transfers: &mut Vec<Transfer>) -> (r: Result<(), ContractError>)
        ensures
            ({
                let st = return_run(close_state(*old(self), transfers_view(old(transfers)@)), nonces@, unlock);
                match st.err {
                    Some(e) => r == Err::<(), ContractError>(e),
                    None => r is Ok && holds_close_state(*final(self), st, *old(self)) && transfers_view(
                        final(transfers)@,
                    ) == st.transfers,
                }
            }),
    {
        let ghost st0 = close_state(*self, transfers_view(transfers@));
        let ghost s0 = *self;
        let mut i: usize = 0;
        assert(nonces@.take(0) =~= Seq::<u64>::empty());
        proof {
            lemma_holds_own_state(*self, transfers_view(transfers@));
        }
        while i < nonces.len()
            invariant
                st0 == close_state(*old(self), transfers_view(old(transfers)@)),
                s0 == *old(self),
                0 <= i <= nonces@.len(),
                return_run(st0, nonces@.take(i as int), unlock).err is None,
                holds_close_state(*self, return_run(st0, nonces@.take(i as int), unlock), s0),
                transfers_view(transfers@) == return_run(st0, nonces@.take(i as int), unlock).transfers,
            decreases nonces.len() - i,
        {
            let ghost prev = return_run(st0, nonces@.take(i as int), unlock);
            proof {
                lemma_close_state_ext(*self, s0, transfers_view(transfers@), prev);
            }
            assert(nonces@.take(i + 1).drop_last() =~= nonces@.take(i as int));
            assert(nonces@.take(i + 1).last() == nonces@[i as int]);
            assert(return_run(st0, nonces@.take(i + 1), unlock) == return_step(prev, nonces@[i as int], unlock));
            let ghost mid = *self;
            match self.settle_unmatched(nonces[i], unlock, transfers) {
                Ok(()) => {},
                Err(e) => {
                    assert(return_step(prev, nonces@[i as int], unlock).err == Some(e));
                    proof {
                        lemma_return_run_err(st0, nonces@, unlock, i + 1);
                    }
                    assert(return_run(st0, nonces@, unlock).err == Some(e));
                    return Err(e);
                },
            }
            i = i + 1;
        }
        assert(nonces@.take(nonces@.len() as int) =~= nonces@);
        Ok(())
    }
}

/// A storage holds its own close state.
pub proof fn lemma_holds_own_state(s: StorageModule, tr: Seq<TransferModel>)
    ensures
        holds_close_state(s, close_state(s, tr), s),
{
}


fn append_ids(a: &mut Vec<u64>, b: &Vec<u64>)
    ensures
        final(a)@ == old(a)@ + b@,
{
    let mut i: usize = 0;
    let ghost start = a@;
    while i < b.len()
        invariant
            0 <= i <= b@.len(),
            a@ == start + b@.take(i as int),
        decreases b.len() - i,
    {
        a.push(b[i]);
        assert(b@.take(i + 1) =~= b@.take(i as int).push(b@[i as int]));
        i = i + 1;
    }
    assert(b@.take(b@.len() as int) =~= b@);
}

impl StorageModule {
    /// A copy of what the storage holds for a selection.
    pub fn selection_copy(&self, market_id: u64, selection_id: u64) -> (r: SelectionStorage)
        ensures
            r@ == self.selection_state(market_id, selection_id),
    {
        let k = crate::storage::selection_key_exec(market_id, selection_id);
        match self.selections.get(&k) {
            Some(st) => st.clone(),
            None => crate::storage::new_selection_storage(),
        }
    }

    /// Returns the open parts of the bets waiting at a selection and drains
    /// its storage (see `drain_selection`).
    fn drain_selection_exec(&mut self, market_id: u64, sid: u64, unlock: bool, transfers: &mut Vec<Transfer>) -> (r: Result<(), ContractError>)
        ensures
            ({
                let st = drain_selection(close_state(*old(self), transfers_view(old(transfers)@)), market_id, sid, unlock);
                match st.err {
                    Some(e) => r == Err::<(), ContractError>(e),
                    None => r is Ok && holds_close_state(*final(self), st, *old(self)) && transfers_view(
                        final(transfers)@,
                    ) == st.transfers,
                }
            }),
    {
        let ghost st0 = close_state(*self, transfers_view(transfers@));
        let current = self.selection_copy(market_id, sid);
        let mut nonces = collect_nonces(&current.back_levels);
        let lay = collect_nonces(&current.lay_levels);
        append_ids(&mut nonces, &lay);
        assert(nonces@ == selection_nonces((st0.sels)(market_id, sid)));
        self.settle_all(&nonces, unlock, transfers)?;
        let ghost r1 = return_run(st0, nonces@, unlock);
        proof {
            lemma_return_run_frame(st0, nonces@, unlock);
        }
        let ghost s1 = *self;
        let mut st = self.take_selection(market_id, sid);
        assert(st@ == (st0.sels)(market_id, sid));
        if unlock {
            let tracker = Tracker {
                back_levels: Vec::new(),
                lay_levels: Vec::new(),
                back_liquidity: 0,
                lay_liquidity: 0,
                matched_count: st.matched_count,
                unmatched_count: st.unmatched_count,
                partially_matched_count: st.partially_matched_count,
                win_count: st.win_count,
                lost_count: st.lost_count,
                canceled_count: st.canceled_count,
            };
            st.back_levels = Vec::new();
            st.lay_levels = Vec::new();
            st.back_liquidity = 0;
            st.lay_liquidity = 0;
            st.tracker = tracker;
            assert(crate::types::levels_view(st.back_levels@) =~= Seq::<LevelModel>::empty());
            assert(crate::types::levels_view(st.lay_levels@) =~= Seq::<LevelModel>::empty());
            assert(crate::types::levels_view(st.tracker.back_levels@) =~= Seq::<LevelModel>::empty());
            assert(crate::types::levels_view(st.tracker.lay_levels@) =~= Seq::<LevelModel>::empty());
        } else {
            st.back_liquidity = 0;
            st.lay_liquidity = 0;
        }
        assert(st@ == drained_selection((st0.sels)(market_id, sid), unlock));
        self.put_selection(market_id, sid, st);
        let ghost fin = drain_selection(st0, market_id, sid, unlock);
        assert forall|m: u64, sl: u64| #[trigger] self.selection_state(m, sl) == (fin.sels)(m, sl) by {
            if !(m == market_id && sl == sid) {
                assert(s1.selection_state(m, sl) == (r1.sels)(m, sl));
            }
        }
        Ok(())
    }

    /// Drains the given selections of a market, in order.
    fn drain_selections_exec(&mut self, market_id: u64, ids: &Vec<u64>, unlock: bool, transfers: &mut Vec<Transfer>) -> (r: Result<(), ContractError>)
        ensures
            ({
                let st = drain_selections(close_state(*old(self), transfers_view(old(transfers)@)), market_id, ids@, unlock);
                match st.err {
                    Some(e) => r == Err::<(), ContractError>(e),
                    None => r is Ok && holds_close_state(*final(self), st, *old(self)) && transfers_view(
                        final(transfers)@,
                    ) == st.transfers,
                }
            }),
    {
        let ghost st0 = close_state(*self, transfers_view(transfers@));
        let ghost s0 = *self;
        let mut i: usize = 0;
        assert(ids@.take(0) =~= Seq::<u64>::empty());
        proof {
            lemma_holds_own_state(*self, transfers_view(transfers@));
        }
        while i < ids.len()
            invariant
                st0 == close_state(*old(self), transfers_view(old(transfers)@)),
                s0 == *old(self),
                0 <= i <= ids@.len(),
                drain_selections(st0, market_id, ids@.take(i as int), unlock).err is None,
                holds_close_state(*self, drain_selections(st0, market_id, ids@.take(i as int), unlock), s0),
                transfers_view(transfers@) == drain_selections(st0, market_id, ids@.take(i as int), unlock).transfers,
            decreases ids.len() - i,
        {
            let ghost prev = drain_selections(st0, market_id, ids@.take(i as int), unlock);
            proof {
                lemma_close_state_ext(*self, s0, transfers_view(transfers@), prev);
            }
            assert(ids@.take(i + 1).drop_last() =~= ids@.take(i as int));
            assert(ids@.take(i + 1).last() == ids@[i as int]);
            assert(drain_selections(st0, market_id, ids@.take(i + 1), unlock) == drain_selection(
                prev,
                market_id,
                ids@[i as int],
                unlock,
            ));
            match self.drain_selection_exec(market_id, ids[i], unlock, transfers) {
                Ok(()) => {},
                Err(e) => {
                    proof {
                        lemma_drain_selections_err(st0, market_id, ids@, unlock, i + 1);
                    }
                    return Err(e);
                },
            }
            i = i + 1;
        }
        assert(ids@.take(ids@.len() as int) =~= ids@);
        Ok(())
    }
}


/// The ids of the selections of a market.
pub fn market_selection_ids(selections: &Vec<crate::types::Selection>) -> (r: Vec<u64>)
    ensures
        r@ == selection_ids(crate::types::selections_view(selections@)),
{
    let mut r: Vec<u64> = Vec::new();
    let mut i: usize = 0;
    while i < selections.len()
        invariant
            0 <= i <= selections@.len(),
            r@ == selection_ids(crate::types::selections_view(selections@.take(i as int))),
        decreases selections.len() - i,
    {
        r.push(selections[i].id);
        assert(selection_ids(crate::types::selections_view(selections@.take(i + 1))) =~= selection_ids(
            crate::types::selections_view(selections@.take(i as int)),
        ).push(selections@[i as int].id));
        i = i + 1;
    }
    assert(selections@.take(selections@.len() as int) =~= selections@);
    r
}

/// Once an error stops the draining of markets, the rest keeps it.
pub proof fn lemma_drain_markets_err(st: CloseState, ids: Seq<u64>, k: int)
    requires
        0 <= k <= ids.len(),
        drain_markets(st, ids.take(k)).err is Some,
    ensures
        drain_markets(st, ids) == drain_markets(st, ids.take(k)),
    decreases ids.len() - k,
{
    if k == ids.len() {
        assert(ids.take(k) =~= ids);
    } else {
        assert(ids.take(k + 1).drop_last() =~= ids.take(k));
        lemma_drain_markets_err(st, ids, k + 1);
    }
}

/// Once an error stops the closing of markets, the rest keeps it.
pub proof fn lemma_close_event_markets_err(st: CloseState, event_markets: Seq<u64>, ids: Seq<u64>, k: int)
    requires
        0 <= k <= ids.len(),
        close_event_markets(st, event_markets, ids.take(k)).err is Some,
    ensures
        close_event_markets(st, event_markets, ids) == close_event_markets(st, event_markets, ids.take(k)),
    decreases ids.len() - k,
{
    if k == ids.len() {
        assert(ids.take(k) =~= ids);
    } else {
        assert(ids.take(k + 1).drop_last() =~= ids.take(k));
        lemma_close_event_markets_err(st, event_markets, ids, k + 1);
    }
}

impl StorageModule {
    /// Returns the open part of a bet when its market expired: the refund
    /// also comes out of the bettor's locked funds (see `return_step`).
    pub fn return_unmatched_amount(&mut self, bet_nonce: u64) -> (r: Result<Option<Transfer>, ContractError>)
        ensures
            ({
                let st = return_step(close_state(*old(self), Seq::empty()), bet_nonce, true);
                match st.err {
                    Some(e) => r == Err::<Option<Transfer>, ContractError>(e) && *final(self) == *old(self),
                    None => r matches Ok(o) && holds_close_state(*final(self), st, *old(self)) && match o {
                        Some(t) => st.transfers == seq![t@],
                        None => st.transfers.len() == 0,
                    },
                }
            }),
    {
        let mut transfers: Vec<Transfer> = Vec::new();
        assert(transfers_view(transfers@) =~= Seq::<TransferModel>::empty());
        self.settle_unmatched(bet_nonce, true, &mut transfers)?;
        if transfers.len() > 0 {
            assert(transfers_view(transfers@).len() == 1);
            let t = transfers.pop().unwrap();
            Ok(Some(t))
        } else {
            Ok(None)
        }
    }

    /// Returns the open part of a bet when the open bets of an event are
    /// processed: the locked funds stay (see `return_step`).
    pub fn process_unmatched_bet(&mut self, bet_nonce: u64) -> (r: Result<Option<Transfer>, ContractError>)
        ensures
            ({
                let st = return_step(close_state(*old(self), Seq::empty()), bet_nonce, false);
                match st.err {
                    Some(e) => r == Err::<Option<Transfer>, ContractError>(e) && *final(self) == *old(self),
                    None => r matches Ok(o) && holds_close_state(*final(self), st, *old(self)) && match o {
                        Some(t) => st.transfers == seq![t@],
                        None => st.transfers.len() == 0,
                    },
                }
            }),
    {
        let mut transfers: Vec<Transfer> = Vec::new();
        assert(transfers_view(transfers@) =~= Seq::<TransferModel>::empty());
        self.settle_unmatched(bet_nonce, false, &mut transfers)?;
        if transfers.len() > 0 {
            assert(transfers_view(transfers@).len() == 1);
            let t = transfers.pop().unwrap();
            Ok(Some(t))
        } else {
            Ok(None)
        }
    }

    fn expire_market_exec(&mut self, sport: Sport, event_id: u64, market_id: u64, transfers: &mut Vec<Transfer>) -> (r: Result<(), ContractError>)
        ensures
            ({
                let st = expire_market(
                    close_state(*old(self), transfers_view(old(transfers)@)),
                    old(self).event_markets(sport, event_id),
                    market_id,
                );
                match st.err {
                    Some(e) => r == Err::<(), ContractError>(e),
                    None => r is Ok && holds_close_state(*final(self), st, *old(self)) && transfers_view(
                        final(transfers)@,
                    ) == st.transfers,
                }
            }),
    {
        let ghost st0 = close_state(*self, transfers_view(transfers@));
        let ghost s0 = *self;
        let list = self.event_market_list(sport, event_id);
        if !crate::storage::contains_id(&list, market_id) {
            return Err(ContractError::MarketMissing);
        }
        let mut market = match self.read_market(market_id) {
            Some(m) => m,
            None => return Err(ContractError::StorageDecode),
        };
        let ids = market_selection_ids(&market.selections);
        market.market_status = MarketStatus::Closed;
        self.store_market(market_id, market);
        let ghost closed = CloseState {
            markets: st0.markets.insert(market_id, MarketModel { market_status: MarketStatus::Closed, ..st0.markets[market_id] }),
            ..st0
        };
        assert forall|m: u64, sl: u64| #[trigger] self.selection_state(m, sl) == s0.selection_state(m, sl) by {
            assert(self.selections == s0.selections);
        }
        assert(holds_close_state(*self, closed, s0));
        proof {
            lemma_close_state_ext(*self, s0, transfers_view(transfers@), closed);
        }
        let ghost s1 = *self;
        self.drain_selections_exec(market_id, &ids, true, transfers)
    }

    /// Handles an expired market of an event: closes it, returns the open
    /// parts of the bets waiting at its selections and empties their order
    /// books (see `expire_market`). Gives the refunds. A refused operation
    /// leaves the storage as it was.
    pub fn handle_expired_market(&mut self, sport: Sport, event_id: u64, market_id: u64) -> (r: Result<Vec<Transfer>, ContractError>)
        ensures
            ({
                let st = expire_market(close_state(*old(self), Seq::empty()), old(self).event_markets(sport, event_id), market_id);
                match st.err {
                    Some(e) => r == Err::<Vec<Transfer>, ContractError>(e) && final(self).same_as(old(self)),
                    None => r matches Ok(ts) && holds_close_state(*final(self), st, *old(self)) && transfers_view(ts@)
                        == st.transfers,
                }
            }),
    {
        let snapshot = self.snapshot();
        let mut transfers: Vec<Transfer> = Vec::new();
        assert(transfers_view(transfers@) =~= Seq::<TransferModel>::empty());
        match self.expire_market_exec(sport, event_id, market_id, &mut transfers) {
            Ok(()) => Ok(transfers),
            Err(e) => {
                *self = snapshot;
                Err(e)
            },
        }
    }

    /// Returns the open parts of the bets of every market of an event and
    /// clears the selections' liquidity, without closing the markets (see
    /// `drain_markets`). Gives the refunds. A refused operation leaves the
    /// storage as it was.
    pub fn process_unmatched_bets(&mut self, sport: Sport, event_id: u64) -> (r: Result<Vec<Transfer>, ContractError>)
        ensures
            ({
                let st = drain_markets(close_state(*old(self), Seq::empty()), old(self).event_markets(sport, event_id));
                match st.err {
                    Some(e) => r == Err::<Vec<Transfer>, ContractError>(e) && final(self).same_as(old(self)),
                    None => r matches Ok(ts) && holds_close_state(*final(self), st, *old(self)) && transfers_view(ts@)
                        == st.transfers,
                }
            }),
    {
        let snapshot = self.snapshot();
        let mut transfers: Vec<Transfer> = Vec::new();
        assert(transfers_view(transfers@) =~= Seq::<TransferModel>::empty());
        let ids = self.event_market_list(sport, event_id);
        let ghost st0 = close_state(*self, transfers_view(transfers@));
        let ghost s0 = *self;
        let mut i: usize = 0;
        assert(ids@.take(0) =~= Seq::<u64>::empty());
        proof {
            lemma_holds_own_state(*self, transfers_view(transfers@));
        }
        while i < ids.len()
            invariant
                st0 == close_state(*old(self), Seq::empty()),
                s0 == *old(self),
                snapshot.same_as(old(self)),
                ids@ == old(self).event_markets(sport, event_id),
                0 <= i <= ids@.len(),
                drain_markets(st0, ids@.take(i as int)).err is None,
                holds_close_state(*self, drain_markets(st0, ids@.take(i as int)), s0),
                transfers_view(transfers@) == drain_markets(st0, ids@.take(i as int)).transfers,
            decreases ids.len() - i,
        {
            let ghost prev = drain_markets(st0, ids@.take(i as int));
            proof {
                lemma_close_state_ext(*self, s0, transfers_view(transfers@), prev);
            }
            assert(ids@.take(i + 1).drop_last() =~= ids@.take(i as int));
            assert(ids@.take(i + 1).last() == ids@[i as int]);
            let id = ids[i];
            let market = match self.read_market(id) {
                Some(m) => m,
                None => {
                    proof {
                        lemma_drain_markets_err(st0, ids@, i + 1);
                    }
                    *self = snapshot;
                    return Err(ContractError::StorageDecode);
                },
            };
            let sel_ids = market_selection_ids(&market.selections);
            match self.drain_selections_exec(id, &sel_ids, false, &mut transfers) {
                Ok(()) => {},
                Err(e) => {
                    proof {
                        lemma_drain_markets_err(st0, ids@, i + 1);
                    }
                    *self = snapshot;
                    return Err(e);
                },
            }
            i = i + 1;
        }
        assert(ids@.take(ids@.len() as int) =~= ids@);
        Ok(transfers)
    }

    /// Closes every market of an event, which must have markets, each
    /// stored and open: each is handled as an expired market (see
    /// `close_event_markets`). Gives the refunds. A refused operation leaves
    /// the storage as it was.
    pub fn process_event_markets(&mut self, sport: Sport, event_id: u64) -> (r: Result<Vec<Transfer>, ContractError>)
        ensures
            old(self).event_markets(sport, event_id).len() == 0 ==> r == Err::<Vec<Transfer>, ContractError>(
                ContractError::NoMarketsFoundForEventAndSport,
            ) && final(self).same_as(old(self)),
            old(self).event_markets(sport, event_id).len() > 0 ==> ({
                let st = close_event_markets(
                    close_state(*old(self), Seq::empty()),
                    old(self).event_markets(sport, event_id),
                    old(self).event_markets(sport, event_id),
                );
                match st.err {
                    Some(e) => r == Err::<Vec<Transfer>, ContractError>(e) && final(self).same_as(old(self)),
                    None => r matches Ok(ts) && holds_close_state(*final(self), st, *old(self)) && transfers_view(ts@)
                        == st.transfers,
                }
            }),
    {
        let ids = self.event_market_list(sport, event_id);
        if ids.len() == 0 {
            return Err(ContractError::NoMarketsFoundForEventAndSport);
        }
        let snapshot = self.snapshot();
        let mut transfers: Vec<Transfer> = Vec::new();
        assert(transfers_view(transfers@) =~= Seq::<TransferModel>::empty());
        let ghost st0 = close_state(*self, transfers_view(transfers@));
        let ghost s0 = *self;
        let ghost em = ids@;
        let mut i: usize = 0;
        assert(ids@.take(0) =~= Seq::<u64>::empty());
        proof {
            lemma_holds_own_state(*self, transfers_view(transfers@));
        }
        while i < ids.len()
            invariant
                st0 == close_state(*old(self), Seq::empty()),
                s0 == *old(self),
                snapshot.same_as(old(self)),
                ids@ == old(self).event_markets(sport, event_id),
                em == ids@,
                0 <= i <= ids@.len(),
                close_event_markets(st0, em, ids@.take(i as int)).err is None,
                holds_close_state(*self, close_event_markets(st0, em, ids@.take(i as int)), s0),
                transfers_view(transfers@) == close_event_markets(st0, em, ids@.take(i as int)).transfers,
            decreases ids.len() - i,
        {
            let ghost prev = close_event_markets(st0, em, ids@.take(i as int));
            proof {
                lemma_close_state_ext(*self, s0, transfers_view(transfers@), prev);
            }
            assert(ids@.take(i + 1).drop_last() =~= ids@.take(i as int));
            assert(ids@.take(i + 1).last() == ids@[i as int]);
            let id = ids[i];
            let failure = match self.read_market(id) {
                None => Some(ContractError::StorageDecode),
                Some(m) => if m.market_status != MarketStatus::Open {
                    Some(ContractError::MarketNotOpen)
                } else {
                    None
                },
            };
            if let Some(e) = failure {
                proof {
                    lemma_close_event_markets_err(st0, em, ids@, i + 1);
                }
                *self = snapshot;
                return Err(e);
            }
            proof {
                crate::storage::lemma_same_lists_lookups(*self, s0);
            }
            assert(self.event_markets(sport, event_id) == em);
            match self.expire_market_exec(sport, event_id, id, &mut transfers) {
                Ok(()) => {},
                Err(e) => {
                    proof {
                        lemma_close_event_markets_err(st0, em, ids@, i + 1);
                    }
                    *self = snapshot;
                    return Err(e);
                },
            }
            i = i + 1;
        }
        assert(ids@.take(ids@.len() as int) =~= ids@);
        Ok(transfers)
    }
}


/// Whether a matched bet wins: a back bet when its selection won, a lay bet
/// when it did not.
pub open spec fn bet_wins(b: BetModel, winner: u64) -> bool {
    match b.bet_type {
        BetType::Back => b.selection.id == winner,
        BetType::Lay => b.selection.id != winner,
    }
}

/// Settling bet `id` of market `market_id` won by selection `winner`: a
/// stored matched bet becomes won or lost, and its selection counts it.
pub open spec fn mark_step(st: CloseState, market_id: u64, winner: u64, id: u64) -> CloseState {
    if st.err is Some || !st.bets.contains_key(id) || st.bets[id].status != BetStatus::Matched {
        st
    } else {
        let b = st.bets[id];
        let sel = (st.sels)(market_id, b.selection.id);
        let w = bet_wins(b, winner);
        if (w && sel.win_count == u64::MAX) || (!w && sel.lost_count == u64::MAX) {
            failed(st, ContractError::CounterOverflow)
        } else {
            CloseState {
                bets: st.bets.insert(id, BetModel { status: if w { BetStatus::Win } else { BetStatus::Lost }, ..b }),
                sels: with_selection(
                    st.sels,
                    market_id,
                    b.selection.id,
                    if w {
                        SelectionStorageModel { win_count: (sel.win_count + 1) as u64, ..sel }
                    } else {
                        SelectionStorageModel { lost_count: (sel.lost_count + 1) as u64, ..sel }
                    },
                ),
                ..st
            }
        }
    }
}

/// Settling the given bets of a market, in order.
pub open spec fn mark_run(st: CloseState, market_id: u64, winner: u64, ids: Seq<u64>) -> CloseState
    decreases ids.len(),
{
    if ids.len() == 0 {
        st
    } else {
        mark_step(mark_run(st, market_id, winner, ids.drop_last()), market_id, winner, ids.last())
    }
}

/// The first of the given markets of type `t`; reading a market that is
/// not stored fails, and so does finding none.
pub open spec fn first_market_of_type(markets: Map<u64, MarketModel>, ids: Seq<u64>, t: MarketType) -> Result<u64, ContractError>
    decreases ids.len(),
{
    if ids.len() == 0 {
        Err(ContractError::MarketMissing)
    } else if !markets.contains_key(ids[0]) {
        Err(ContractError::StorageDecode)
    } else if markets[ids[0]].market_type == t {
        Ok(ids[0])
    } else {
        first_market_of_type(markets, ids.drop_first(), t)
    }
}

/// The winning selection type of a market of type `t` for a score: the
/// home win, the draw or the away win of a result market; over 2.5 goals or
/// under; both teams scoring or not.
pub open spec fn winning_type(t: MarketType, score_home: u32, score_away: u32) -> SelectionType {
    match t {
        MarketType::FullTimeResult => if score_home > score_away {
            SelectionType::One
        } else if score_home < score_away {
            SelectionType::Two
        } else {
            SelectionType::Draw
        },
        MarketType::TotalGoals => if score_home + score_away > 2 {
            SelectionType::Over
        } else {
            SelectionType::Under
        },
        MarketType::BothTeamsToScore => if score_home > 0 && score_away > 0 {
            SelectionType::Yes
        } else {
            SelectionType::No
        },
    }
}

/// The position of the first selection of type `ty` in `sels`, if any.
pub open spec fn type_position(sels: Seq<SelectionModel>, ty: SelectionType) -> Option<int>
    decreases sels.len(),
{
    if sels.len() == 0 {
        None
    } else if sels[0].selection_type == ty {
        Some(0)
    } else {
        match type_position(sels.drop_first(), ty) {
            None => None,
            Some(i) => Some(i + 1),
        }
    }
}

/// Where `type_position` finds a selection, it has that type.
pub proof fn lemma_type_position(sels: Seq<SelectionModel>, ty: SelectionType)
    ensures
        match type_position(sels, ty) {
            Some(i) => 0 <= i < sels.len() && sels[i].selection_type == ty && forall|j: int|
                0 <= j < i ==> sels[j].selection_type != ty,
            None => forall|j: int| 0 <= j < sels.len() ==> sels[j].selection_type != ty,
        },
    decreases sels.len(),
{
    if sels.len() > 0 {
        lemma_type_position(sels.drop_first(), ty);
        assert forall|j: int| 1 <= j < sels.len() implies sels[j] == sels.drop_first()[j - 1] by {}
    }
}

/// The winning selection of the event's market of type `t`: the selection
/// of that market whose type wins for the score.
pub open spec fn winner_result(markets: Map<u64, MarketModel>, event_markets: Seq<u64>, t: MarketType, score_home: u32, score_away: u32) -> Result<u64, ContractError> {
    match first_market_of_type(markets, event_markets, t) {
        Err(e) => Err(e),
        Ok(id) => match type_position(markets[id].selections, winning_type(t, score_home, score_away)) {
            None => Err(ContractError::InvalidSelection),
            Some(i) => Ok(markets[id].selections[i].id),
        },
    }
}

/// The winning selection of an event's market is one of that market's
/// selections, at position `i`, whose type the score makes win: in a
/// full-time result market the home win exactly when the home side scored
/// more, the away win exactly when it scored less, the draw exactly on
/// level scores; in a total-goals market over exactly when more than two
/// goals were scored, under otherwise; in a both-teams-to-score market yes
/// exactly when both sides scored, no when either side did not.
pub proof fn lemma_winner_type(
    markets: Map<u64, MarketModel>,
    event_markets: Seq<u64>,
    t: MarketType,
    score_home: u32,
    score_away: u32,
) -> (i: int)
    requires
        winner_result(markets, event_markets, t, score_home, score_away) is Ok,
    ensures
        first_market_of_type(markets, event_markets, t) is Ok,
        0 <= i < markets[first_market_of_type(markets, event_markets, t)->Ok_0].selections.len(),
        markets[first_market_of_type(markets, event_markets, t)->Ok_0].selections[i].id
            == winner_result(markets, event_markets, t, score_home, score_away)->Ok_0,
        t == MarketType::FullTimeResult ==> {
            let ty = markets[first_market_of_type(markets, event_markets, t)->Ok_0].selections[i].selection_type;
            &&& (ty == SelectionType::One <==> score_home > score_away)
            &&& (ty == SelectionType::Two <==> score_home < score_away)
            &&& (ty == SelectionType::Draw <==> score_home == score_away)
        },
        t == MarketType::TotalGoals ==> {
            let ty = markets[first_market_of_type(markets, event_markets, t)->Ok_0].selections[i].selection_type;
            &&& (ty == SelectionType::Over <==> score_home + score_away > 2)
            &&& (ty == SelectionType::Under <==> score_home + score_away <= 2)
        },
        t == MarketType::BothTeamsToScore ==> {
            let ty = markets[first_market_of_type(markets, event_markets, t)->Ok_0].selections[i].selection_type;
            &&& (ty == SelectionType::Yes <==> score_home > 0 && score_away > 0)
            &&& (ty == SelectionType::No <==> score_home == 0 || score_away == 0)
        },
{
    let id = first_market_of_type(markets, event_markets, t)->Ok_0;
    let ty = winning_type(t, score_home, score_away);
    lemma_type_position(markets[id].selections, ty);
    type_position(markets[id].selections, ty)->Some_0
}

/// Settling the markets of an event from its score: the state, and the
/// winning selection recorded for each market.
pub struct SettleState {
    pub st: CloseState,
    pub winning: Map<u64, u64>,
}

/// Settling the given markets of an event: each must be stored and closed;
/// its winning selection is recorded, it becomes settled, and its bets are
/// settled.
pub open spec fn settle_run(
    ss: SettleState,
    event_markets: Seq<u64>,
    market_bets: spec_fn(u64) -> Seq<u64>,
    score_home: u32,
    score_away: u32,
    ids: Seq<u64>,
) -> SettleState
    decreases ids.len(),
{
    if ids.len() == 0 {
        ss
    } else {
        let prev = settle_run(ss, event_markets, market_bets, score_home, score_away, ids.drop_last());
        let id = ids.last();
        let st = prev.st;
        if st.err is Some {
            prev
        } else if !st.markets.contains_key(id) {
            SettleState { st: failed(st, ContractError::StorageDecode), ..prev }
        } else if st.markets[id].market_status != MarketStatus::Closed {
            SettleState { st: failed(st, ContractError::MarketNotClosed), ..prev }
        } else {
            let m = st.markets[id];
            match winner_result(st.markets, event_markets, m.market_type, score_home, score_away) {
                Err(e) => SettleState { st: failed(st, e), ..prev },
                Ok(w) => {
                    let st1 = CloseState {
                        markets: st.markets.insert(id, MarketModel { market_status: MarketStatus::Settled, ..m }),
                        ..st
                    };
                    SettleState { st: mark_run(st1, id, w, market_bets(id)), winning: prev.winning.insert(id, w) }
                },
            }
        }
    }
}

/// A storage holds a settlement state: besides the bets, the locked funds,
/// the selections, the markets, the winning selections and the event scores,
/// it holds what `old` holds.
pub open spec fn holds_settle_state(s: StorageModule, ss: SettleState, old: StorageModule) -> bool {
    &&& s.bets() == ss.st.bets
    &&& forall|a: Address| #[trigger] s.locked_funds.spec_get(a) == (ss.st.locked)(a)
    &&& forall|m: u64, sl: u64| #[trigger] s.selection_state(m, sl) == (ss.st.sels)(m, sl)
    &&& s.market_map() == ss.st.markets
    &&& s.winning_selection@ == ss.winning
    &&& s.bet_nft_token == old.bet_nft_token
    &&& s.bet_nft_base_uri@ == old.bet_nft_base_uri@
    &&& s.market_counter == old.market_counter
    &&& crate::storage::lists_view(s.market_bet_ids@) == crate::storage::lists_view(old.market_bet_ids@)
    &&& s.bet_nonce_to_id@ == old.bet_nonce_to_id@
    &&& crate::storage::lists_view(s.markets_by_event_and_sport@) == crate::storage::lists_view(
        old.markets_by_event_and_sport@,
    )
    &&& crate::storage::lists_view(s.markets_by_event@) == crate::storage::lists_view(old.markets_by_event@)
}

/// Once an error stops the settling of bets, the rest keeps it.
pub proof fn lemma_mark_run_err(st: CloseState, market_id: u64, winner: u64, ids: Seq<u64>, k: int)
    requires
        0 <= k <= ids.len(),
        mark_run(st, market_id, winner, ids.take(k)).err is Some,
    ensures
        mark_run(st, market_id, winner, ids) == mark_run(st, market_id, winner, ids.take(k)),
    decreases ids.len() - k,
{
    if k == ids.len() {
        assert(ids.take(k) =~= ids);
    } else {
        assert(ids.take(k + 1).drop_last() =~= ids.take(k));
        lemma_mark_run_err(st, market_id, winner, ids, k + 1);
    }
}

/// A matched bet that is settled is won exactly when it wins by the rule of
/// its type, and lost otherwise.
pub proof fn lemma_settled_bet_outcome(st: CloseState, market_id: u64, winner: u64, id: u64)
    requires
        st.err is None,
        st.bets.contains_key(id),
        st.bets[id].status == BetStatus::Matched,
        mark_step(st, market_id, winner, id).err is None,
    ensures
        mark_step(st, market_id, winner, id).bets[id].status == if bet_wins(st.bets[id], winner) {
            BetStatus::Win
        } else {
            BetStatus::Lost
        },
{
}

impl StorageModule {
    /// Settles bet `id` of market `market_id` won by selection `winner` (see
    /// `mark_step`).
    fn mark_bet(&mut self, market_id: u64, winner: u64, id: u64) -> (r: Result<(), ContractError>)
        ensures
            ({
                let st = mark_step(close_state(*old(self), Seq::empty()), market_id, winner, id);
                match st.err {
                    Some(e) => r == Err::<(), ContractError>(e),
                    None => r is Ok && holds_close_state(*final(self), st, *old(self)),
                }
            }),
    {
        let ghost st0 = close_state(*self, Seq::empty());
        let mut bet = match self.read_bet(id) {
            Some(b) => b,
            None => return Ok(()),
        };
        if bet.status != BetStatus::Matched {
            return Ok(());
        }
        let is_winner = match bet.bet_type {
            BetType::Back => bet.selection.id == winner,
            BetType::Lay => bet.selection.id != winner,
        };
        let sid = bet.selection.id;
        let mut st = self.take_selection(market_id, sid);
        if is_winner {
            if st.win_count == u64::MAX {
                return Err(ContractError::CounterOverflow);
            }
            st.win_count = st.win_count + 1;
        } else {
            if st.lost_count == u64::MAX {
                return Err(ContractError::CounterOverflow);
            }
            st.lost_count = st.lost_count + 1;
        }
        self.put_selection(market_id, sid, st);
        bet.status = if is_winner {
            BetStatus::Win
        } else {
            BetStatus::Lost
        };
        self.put_bet(id, bet);
        let ghost fin = mark_step(st0, market_id, winner, id);
        assert(forall|m: u64, sl: u64| #[trigger] self.selection_state(m, sl) == (fin.sels)(m, sl));
        Ok(())
    }

    /// Settles the bets of market `market_id`, won by selection `winner`:
    /// each stored matched bet becomes won or lost by the rule of its type,
    /// and its selection counts it (see `mark_run`). A refusal leaves the
    /// storage as it was.
    pub fn mark_bets_win_loss(&mut self, market_id: u64, winning_selection: u64) -> (r: Result<(), ContractError>)
        ensures
            ({
                let st = mark_run(close_state(*old(self), Seq::empty()), market_id, winning_selection, old(self).market_bets(market_id));
                match st.err {
                    Some(e) => r == Err::<(), ContractError>(e) && final(self).same_as(old(self)),
                    None => r is Ok && holds_close_state(*final(self), st, *old(self)),
                }
            }),
    {
        let snapshot = self.snapshot();
        let r = self.try_mark_bets_win_loss(market_id, winning_selection);
        if r.is_err() {
            *self = snapshot;
        }
        r
    }

    fn try_mark_bets_win_loss(&mut self, market_id: u64, winning_selection: u64) -> (r: Result<(), ContractError>)
        ensures
            ({
                let st = mark_run(close_state(*old(self), Seq::empty()), market_id, winning_selection, old(self).market_bets(market_id));
                match st.err {
                    Some(e) => r == Err::<(), ContractError>(e),
                    None => r is Ok && holds_close_state(*final(self), st, *old(self)),
                }
            }),
    {
        let ids = self.market_bet_list(market_id);
        let ghost st0 = close_state(*self, Seq::empty());
        let ghost s0 = *self;
        let mut i: usize = 0;
        assert(ids@.take(0) =~= Seq::<u64>::empty());
        proof {
            lemma_holds_own_state(*self, Seq::empty());
        }
        while i < ids.len()
            invariant
                st0 == close_state(*old(self), Seq::empty()),
                s0 == *old(self),
                ids@ == old(self).market_bets(market_id),
                0 <= i <= ids@.len(),
                mark_run(st0, market_id, winning_selection, ids@.take(i as int)).err is None,
                holds_close_state(*self, mark_run(st0, market_id, winning_selection, ids@.take(i as int)), s0),
                mark_run(st0, market_id, winning_selection, ids@.take(i as int)).transfers == Seq::<TransferModel>::empty(),
            decreases ids.len() - i,
        {
            let ghost prev = mark_run(st0, market_id, winning_selection, ids@.take(i as int));
            proof {
                lemma_close_state_ext(*self, s0, Seq::empty(), prev);
            }
            assert(ids@.take(i + 1).drop_last() =~= ids@.take(i as int));
            assert(ids@.take(i + 1).last() == ids@[i as int]);
            match self.mark_bet(market_id, winning_selection, ids[i]) {
                Ok(()) => {},
                Err(e) => {
                    proof {
                        lemma_mark_run_err(st0, market_id, winning_selection, ids@, i + 1);
                    }
                    return Err(e);
                },
            }
            i = i + 1;
        }
        assert(ids@.take(ids@.len() as int) =~= ids@);
        Ok(())
    }
}


/// What a claim gives: the payout, the bet NFT sent back, and the
/// "claimWin" event.
pub struct ClaimOutcome {
    pub payout: Transfer,
    pub nft_back: Transfer,
    pub event: ClaimWinEvent,
}

/// Claiming the win of bet `bet_id`: the payment must be an ESDT, the bet
/// must be stored, owned by the caller, not claimed yet and won, and the
/// payment must be one unit of the bet's NFT. A back bet pays its stake and
/// its potential profit, a lay bet its paid amount and its potential profit.
/// Gives the payout and the bet as claimed.
pub open spec fn claim_result(
    bets: Map<u64, BetModel>,
    nft_token: Option<String>,
    bet_id: u64,
    caller: Address,
    payment: Payment,
) -> Result<(u128, BetModel), ContractError> {
    match payment.token {
        PaymentToken::Egld => Err(ContractError::EsdtExpected),
        PaymentToken::Esdt(t) => if !bets.contains_key(bet_id) {
            Err(ContractError::StorageDecode)
        } else {
            let b = bets[bet_id];
            if b.bettor != caller {
                Err(ContractError::NotBetOwnerClaim)
            } else if b.status == BetStatus::Claimed {
                Err(ContractError::BetAlreadyClaimed)
            } else if b.status != BetStatus::Win {
                Err(ContractError::BetNotWon)
            } else if nft_token is None {
                Err(ContractError::InvalidTokenId)
            } else if t@ != nft_token->0@ {
                Err(ContractError::MustSendBetNftToClaim)
            } else if payment.nonce != b.nft_nonce {
                Err(ContractError::InvalidNftNonce)
            } else if payment.amount != 1 {
                Err(ContractError::MustSendExactlyOneNft)
            } else {
                let base = match b.bet_type {
                    BetType::Back => b.stake_amount,
                    BetType::Lay => b.total_amount,
                };
                if base + b.potential_profit > u128::MAX {
                    Err(ContractError::AmountOverflow)
                } else {
                    Ok(((base + b.potential_profit) as u128, BetModel { status: BetStatus::Claimed, ..b }))
                }
            }
        },
    }
}

/// A win is paid once: after a claim of a bet went through, a new claim of
/// it by its owner, paid with any ESDT, is refused as already claimed.
pub proof fn lemma_claim_once(
    bets: Map<u64, BetModel>,
    nft_token: Option<String>,
    bet_id: u64,
    caller: Address,
    payment: Payment,
    again: Payment,
)
    requires
        claim_result(bets, nft_token, bet_id, caller, payment) is Ok,
        again.token is Esdt,
    ensures
        claim_result(
            bets.insert(bet_id, claim_result(bets, nft_token, bet_id, caller, payment)->Ok_0.1),
            nft_token,
            bet_id,
            caller,
            again,
        ) == Err::<(u128, BetModel), ContractError>(ContractError::BetAlreadyClaimed),
{
}

/// A claim pays a won bet what it put in and its potential profit: a back
/// bet its stake, a lay bet all it paid (stake and liability), so a lay bet
/// gets back at least what it paid. The bet is left as it was, but claimed.
pub proof fn lemma_claim_pays(
    bets: Map<u64, BetModel>,
    nft_token: Option<String>,
    bet_id: u64,
    caller: Address,
    payment: Payment,
)
    requires
        claim_result(bets, nft_token, bet_id, caller, payment) is Ok,
    ensures
        bets.contains_key(bet_id),
        bets[bet_id].status == BetStatus::Win,
        bets[bet_id].bettor == caller,
        bets[bet_id].bet_type == BetType::Back ==> claim_result(bets, nft_token, bet_id, caller, payment)->Ok_0.0
            == bets[bet_id].stake_amount + bets[bet_id].potential_profit,
        bets[bet_id].bet_type == BetType::Lay ==> claim_result(bets, nft_token, bet_id, caller, payment)->Ok_0.0
            == bets[bet_id].total_amount + bets[bet_id].potential_profit,
        bets[bet_id].bet_type == BetType::Lay ==> claim_result(bets, nft_token, bet_id, caller, payment)->Ok_0.0
            >= bets[bet_id].total_amount,
        claim_result(bets, nft_token, bet_id, caller, payment)->Ok_0.1 == (BetModel {
            status: BetStatus::Claimed,
            ..bets[bet_id]
        }),
{
}

impl StorageModule {
    /// The first of the given markets of type `market_type` (see
    /// `first_market_of_type`).
    fn find_market_of_type(&self, ids: &Vec<u64>, market_type: MarketType) -> (r: Result<u64, ContractError>)
        ensures
            r == first_market_of_type(self.market_map(), ids@, market_type),
            r matches Ok(id) ==> self.market_map().contains_key(id),
    {
        let mut i: usize = 0;
        assert(ids@.skip(0) =~= ids@);
        while i < ids.len()
            invariant
                0 <= i <= ids@.len(),
                first_market_of_type(self.market_map(), ids@, market_type) == first_market_of_type(
                    self.market_map(),
                    ids@.skip(i as int),
                    market_type,
                ),
            decreases ids.len() - i,
        {
            let id = ids[i];
            assert(ids@.skip(i as int)[0] == id);
            assert(ids@.skip(i as int).drop_first() =~= ids@.skip(i + 1));
            match self.markets.get(&id) {
                None => return Err(ContractError::StorageDecode),
                Some(m) => if m.market_type == market_type {
                    return Ok(id);
                },
            }
            i = i + 1;
        }
        assert(ids@.skip(i as int) =~= Seq::<u64>::empty());
        Err(ContractError::MarketMissing)
    }

    /// The winning selection of the event's market of type `market_type`
    /// for a score (see `winner_result`).
    pub fn determine_winner(
        &self,
        sport: Sport,
        market_type: MarketType,
        score_home: u32,
        score_away: u32,
        event_id: u64,
    ) -> (r: Result<u64, ContractError>)
        ensures
            r == winner_result(self.market_map(), self.event_markets(sport, event_id), market_type, score_home, score_away),
    {
        let ids = self.event_market_list(sport, event_id);
        let market_id = self.find_market_of_type(&ids, market_type)?;
        let market = match self.markets.get(&market_id) {
            Some(m) => m,
            None => return Err(ContractError::StorageDecode),
        };
        let winning = match market_type {
            MarketType::FullTimeResult => if score_home > score_away {
                SelectionType::One
            } else if score_home < score_away {
                SelectionType::Two
            } else {
                SelectionType::Draw
            },
            MarketType::TotalGoals => if score_home as u64 + score_away as u64 > 2 {
                SelectionType::Over
            } else {
                SelectionType::Under
            },
            MarketType::BothTeamsToScore => if score_home > 0 && score_away > 0 {
                SelectionType::Yes
            } else {
                SelectionType::No
            },
        };
        assert(winning == winning_type(market_type, score_home, score_away));
        let ghost sels = self.market_map()[market_id].selections;
        proof {
            lemma_type_position(sels, winning);
        }
        let mut i: usize = 0;
        while i < market.selections.len()
            invariant
                0 <= i <= market.selections@.len(),
                first_market_of_type(self.market_map(), self.event_markets(sport, event_id), market_type) == Ok::<
                    u64,
                    ContractError,
                >(market_id),
                sels == self.market_map()[market_id].selections,
                winning == winning_type(market_type, score_home, score_away),
                sels.len() == market.selections@.len(),
                forall|j: int| 0 <= j < sels.len() ==> sels[j] == #[trigger] market.selections@[j]@,
                forall|j: int| 0 <= j < i ==> sels[j].selection_type != winning,
                match type_position(sels, winning) {
                    Some(k) => i <= k < sels.len() && sels[k].selection_type == winning && forall|j: int|
                        0 <= j < k ==> sels[j].selection_type != winning,
                    None => forall|j: int| 0 <= j < sels.len() ==> sels[j].selection_type != winning,
                },
            decreases market.selections.len() - i,
        {
            assert(sels[i as int] == market.selections@[i as int]@);
            if market.selections[i].selection_type == winning {
                assert(sels[i as int].selection_type == winning);
                assert(type_position(sels, winning) == Some(i as int));
                return Ok(market.selections[i].id);
            }
            i = i + 1;
        }
        Err(ContractError::InvalidSelection)
    }

    /// Claims the win of bet `bet_id` for `caller`, who sends `payment` (the
    /// bet's NFT): the bet becomes claimed, the payout goes to the caller and
    /// the NFT that came with the call, the bet's, is sent back. A refused
    /// claim leaves the storage as it was.
    pub fn claim_win(&mut self, bet_id: u64, caller: Address, payment: &Payment) -> (r: Result<ClaimOutcome, ContractError>)
        ensures
            match claim_result(old(self).bets(), old(self).bet_nft_token, bet_id, caller, *payment) {
                Err(e) => r == Err::<ClaimOutcome, ContractError>(e) && *final(self) == *old(self),
                Ok((payout, claimed)) => r matches Ok(out) && {
                    &&& final(self).bets() == old(self).bets().insert(bet_id, claimed)
                    &&& *final(self) == (StorageModule { bet_by_id: final(self).bet_by_id, ..*old(self) })
                    &&& out.payout@ == TransferModel { to: caller, token: claimed.payment_token, nonce: 0, amount: payout }
                    &&& out.nft_back@ == TransferModel {
                        to: caller,
                        token: payment.token->Esdt_0@,
                        nonce: claimed.nft_nonce,
                        amount: 1,
                    }
                    &&& out.event.bettor == caller && out.event.bet_id == bet_id && out.event.status == status_number(
                        BetStatus::Claimed,
                    ) && out.event.payout == payout
                },
            },
    {
        let token = match &payment.token {
            PaymentToken::Egld => return Err(ContractError::EsdtExpected),
            PaymentToken::Esdt(t) => t,
        };
        let mut bet = match self.read_bet(bet_id) {
            Some(b) => b,
            None => return Err(ContractError::StorageDecode),
        };
        if bet.bettor != caller {
            return Err(ContractError::NotBetOwnerClaim);
        }
        if bet.status == BetStatus::Claimed {
            return Err(ContractError::BetAlreadyClaimed);
        }
        if bet.status != BetStatus::Win {
            return Err(ContractError::BetNotWon);
        }
        let nft = match &self.bet_nft_token {
            Some(n) => n,
            None => return Err(ContractError::InvalidTokenId),
        };
        if !token.eq(nft) {
            return Err(ContractError::MustSendBetNftToClaim);
        }
        if payment.nonce != bet.nft_nonce {
            return Err(ContractError::InvalidNftNonce);
        }
        if payment.amount != 1 {
            return Err(ContractError::MustSendExactlyOneNft);
        }
        let base = match bet.bet_type {
            BetType::Back => bet.stake_amount,
            BetType::Lay => bet.total_amount,
        };
        let payout = match base.checked_add(bet.potential_profit) {
            Some(p) => p,
            None => return Err(ContractError::AmountOverflow),
        };
        let nft_token = token.clone();
        let nft_nonce = bet.nft_nonce;
        bet.status = BetStatus::Claimed;
        let payment_token = bet.payment_token.clone();
        self.put_bet(bet_id, bet);
        Ok(ClaimOutcome {
            payout: Transfer { to: caller, token: payment_token, nonce: 0, amount: payout },
            nft_back: Transfer { to: caller, token: nft_token, nonce: nft_nonce, amount: 1 },
            event: ClaimWinEvent { bettor: caller, bet_id, status: 6, payout },
        })
    }
}


/// Settling bets makes no transfer and keeps the locked funds.
pub proof fn lemma_mark_run_frame(st: CloseState, market_id: u64, winner: u64, ids: Seq<u64>)
    ensures
        mark_run(st, market_id, winner, ids).transfers == st.transfers,
        mark_run(st, market_id, winner, ids).locked == st.locked,
        mark_run(st, market_id, winner, ids).markets == st.markets,
    decreases ids.len(),
{
    if ids.len() > 0 {
        lemma_mark_run_frame(st, market_id, winner, ids.drop_last());
    }
}

/// Once an error stops the settling of markets, the rest keeps it.
pub proof fn lemma_settle_run_err(
    ss: SettleState,
    event_markets: Seq<u64>,
    market_bets: spec_fn(u64) -> Seq<u64>,
    score_home: u32,
    score_away: u32,
    ids: Seq<u64>,
    k: int,
)
    requires
        0 <= k <= ids.len(),
        settle_run(ss, event_markets, market_bets, score_home, score_away, ids.take(k)).st.err is Some,
    ensures
        settle_run(ss, event_markets, market_bets, score_home, score_away, ids) == settle_run(
            ss,
            event_markets,
            market_bets,
            score_home,
            score_away,
            ids.take(k),
        ),
    decreases ids.len() - k,
{
    if k == ids.len() {
        assert(ids.take(k) =~= ids);
    } else {
        assert(ids.take(k + 1).drop_last() =~= ids.take(k));
        lemma_settle_run_err(ss, event_markets, market_bets, score_home, score_away, ids, k + 1);
    }
}

/// Settling the markets of an event makes no transfer.
pub proof fn lemma_settle_run_transfers(
    ss: SettleState,
    event_markets: Seq<u64>,
    market_bets: spec_fn(u64) -> Seq<u64>,
    score_home: u32,
    score_away: u32,
    ids: Seq<u64>,
)
    ensures
        settle_run(ss, event_markets, market_bets, score_home, score_away, ids).st.transfers == ss.st.transfers,
    decreases ids.len(),
{
    if ids.len() > 0 {
        lemma_settle_run_transfers(ss, event_markets, market_bets, score_home, score_away, ids.drop_last());
        let prev = settle_run(ss, event_markets, market_bets, score_home, score_away, ids.drop_last());
        let id = ids.last();
        if prev.st.err is None && prev.st.markets.contains_key(id) {
            let m = prev.st.markets[id];
            let st1 = CloseState {
                markets: prev.st.markets.insert(id, MarketModel { market_status: MarketStatus::Settled, ..m }),
                ..prev.st
            };
            match winner_result(prev.st.markets, event_markets, m.market_type, score_home, score_away) {
                Ok(w) => lemma_mark_run_frame(st1, id, w, market_bets(id)),
                Err(_) => {},
            }
        }
    }
}

impl StorageModule {
    /// Records the score of event `event_id` of `sport` and settles its
    /// markets, which must exist and all be closed: each gets its winning
    /// selection, becomes settled, and its matched bets become won or lost
    /// (see `settle_run`). A refused operation leaves the storage as it was.
    pub fn set_event_score(&mut self, sport: Sport, event_id: u64, score_home: u32, score_away: u32) -> (r: Result<(), ContractError>)
        ensures
            old(self).event_markets(sport, event_id).len() == 0 ==> r == Err::<(), ContractError>(
                ContractError::NoMarketsFound,
            ) && final(self).same_as(old(self)),
            old(self).event_markets(sport, event_id).len() > 0 ==> ({
                let em = old(self).event_markets(sport, event_id);
                let ss = settle_run(
                    SettleState { st: close_state(*old(self), Seq::empty()), winning: old(self).winning_selection@ },
                    em,
                    |m: u64| old(self).market_bets(m),
                    score_home,
                    score_away,
                    em,
                );
                match ss.st.err {
                    Some(e) => r == Err::<(), ContractError>(e) && final(self).same_as(old(self)),
                    None => r is Ok && holds_settle_state(*final(self), ss, *old(self)) && final(self).event_score@
                        == old(self).event_score@.insert(event_id, (score_home, score_away)),
                }
            }),
    {
        let snapshot = self.snapshot();
        let ghost s0 = *self;
        let ids = self.event_market_list(sport, event_id);
        self.event_score.insert(event_id, (score_home, score_away));
        if ids.len() == 0 {
            *self = snapshot;
            return Err(ContractError::NoMarketsFound);
        }
        let ghost em = ids@;
        let ghost mb = |m: u64| s0.market_bets(m);
        let ghost ss0 = SettleState { st: close_state(s0, Seq::empty()), winning: s0.winning_selection@ };
        let mut i: usize = 0;
        assert(ids@.take(0) =~= Seq::<u64>::empty());
        while i < ids.len()
            invariant
                s0 == *old(self),
                snapshot.same_as(old(self)),
                ids@ == em,
                em == s0.event_markets(sport, event_id),
                mb == (|m: u64| s0.market_bets(m)),
                ss0 == (SettleState { st: close_state(s0, Seq::empty()), winning: s0.winning_selection@ }),
                0 <= i <= ids@.len(),
                settle_run(ss0, em, mb, score_home, score_away, ids@.take(i as int)).st.err is None,
                settle_run(ss0, em, mb, score_home, score_away, ids@.take(i as int)).st.transfers == Seq::<TransferModel>::empty(),
                holds_settle_state(*self, settle_run(ss0, em, mb, score_home, score_away, ids@.take(i as int)), s0),
                self.event_score@ == s0.event_score@.insert(event_id, (score_home, score_away)),
            decreases ids.len() - i,
        {
            let ghost prev = settle_run(ss0, em, mb, score_home, score_away, ids@.take(i as int));
            let ghost before = *self;
            assert(ids@.take(i + 1).drop_last() =~= ids@.take(i as int));
            assert(ids@.take(i + 1).last() == ids@[i as int]);
            let id = ids[i];
            let mut market = match self.read_market(id) {
                Some(m) => m,
                None => {
                    proof {
                        lemma_settle_run_err(ss0, em, mb, score_home, score_away, ids@, i + 1);
                    }
                    *self = snapshot;
                    return Err(ContractError::StorageDecode);
                },
            };
            if market.market_status != MarketStatus::Closed {
                proof {
                    lemma_settle_run_err(ss0, em, mb, score_home, score_away, ids@, i + 1);
                }
                *self = snapshot;
                return Err(ContractError::MarketNotClosed);
            }
            proof {
                crate::storage::lemma_lists_view_key(
                    self.markets_by_event_and_sport@,
                    s0.markets_by_event_and_sport@,
                    crate::storage::event_key(sport, event_id),
                );
            }
            let winner = match self.determine_winner(sport, market.market_type, score_home, score_away, event_id) {
                Ok(w) => w,
                Err(e) => {
                    proof {
                        lemma_settle_run_err(ss0, em, mb, score_home, score_away, ids@, i + 1);
                    }
                    *self = snapshot;
                    return Err(e);
                },
            };
            self.winning_selection.insert(id, winner);
            market.market_status = MarketStatus::Settled;
            self.store_market(id, market);
            let ghost mid = *self;
            let ghost st1 = CloseState {
                markets: prev.st.markets.insert(id, MarketModel { market_status: MarketStatus::Settled, ..prev.st.markets[id] }),
                ..prev.st
            };
            assert(mid.selections == before.selections);
            assert(mid.locked_funds == before.locked_funds);
            assert(mid.bet_by_id == before.bet_by_id);
            assert forall|m: u64, sl: u64| #[trigger] mid.selection_state(m, sl) == (st1.sels)(m, sl) by {
                assert(before.selection_state(m, sl) == (prev.st.sels)(m, sl));
            }
            assert forall|a: Address| #[trigger] mid.locked_funds.spec_get(a) == (st1.locked)(a) by {
                assert(before.locked_funds.spec_get(a) == (prev.st.locked)(a));
            }
            assert(mid.market_map() == st1.markets);
            assert(holds_close_state(mid, st1, mid));
            proof {
                lemma_close_state_ext(mid, mid, Seq::empty(), st1);
                crate::storage::lemma_lists_view_key(mid.market_bet_ids@, s0.market_bet_ids@, id);
                lemma_mark_run_frame(st1, id, winner, s0.market_bets(id));
            }
            assert(mid.market_bets(id) == s0.market_bets(id));
            match self.try_mark_bets_win_loss(id, winner) {
                Ok(()) => {},
                Err(e) => {
                    proof {
                        lemma_settle_run_err(ss0, em, mb, score_home, score_away, ids@, i + 1);
                    }
                    *self = snapshot;
                    return Err(e);
                },
            }
            i = i + 1;
        }
        assert(ids@.take(ids@.len() as int) =~= ids@);
        Ok(())
    }
}

} // verus!
