//! The checks that a bet and a market must pass.
use vstd::prelude::*;
use crate::errors::ContractError;
use crate::storage::StorageModule;
use crate::types::{Market, MarketModel, MarketStatus};

verus! {

/// One token, in its smallest units (18 decimals).
pub const ONE_TOKEN: u128 = 1_000_000_000_000_000_000;

/// How many tenths of a token an amount holds, rounded down.
pub open spec fn tenths_of_token(total_amount: u128) -> int {
    total_amount * 10 / ONE_TOKEN as int
}

/// A stake is accepted from 0.1 to 10000 tokens.
pub open spec fn bet_amount_ok(total_amount: u128) -> bool {
    1 <= tenths_of_token(total_amount) <= 100000
}

/// Odds are accepted from 1.01 to 1000.00.
pub open spec fn bet_odds_ok(odds: u128) -> bool {
    101 <= odds <= 100000
}

/// The stake and liability of a lay bet paid with `total_amount` at `odds`,
/// as the lay check computes them: the stake `total * 100 / odds` and the
/// liability `stake * (odds - 1.00)`.
pub open spec fn lay_split(total_amount: u128, odds: u128) -> (int, int) {
    let stake = total_amount * 100 / odds as int;
    (stake, stake * (odds - 100) / 100)
}

pub proof fn lemma_tenths_of_token(total_amount: u128)
    ensures
        tenths_of_token(total_amount) == total_amount / 100_000_000_000_000_000,
{
    let t = total_amount as int;
    let q = t / 100_000_000_000_000_000;
    let r = t % 100_000_000_000_000_000;
    assert(t == q * 100_000_000_000_000_000 + r && 0 <= r < 100_000_000_000_000_000) by (nonlinear_arith)
        requires
            q == t / 100_000_000_000_000_000,
            r == t % 100_000_000_000_000_000,
            t >= 0,
    ;
    assert(t * 10 == q * 1_000_000_000_000_000_000 + r * 10) by (nonlinear_arith)
        requires
            t == q * 100_000_000_000_000_000 + r,
    ;
    assert((t * 10) / 1_000_000_000_000_000_000 == q) by (nonlinear_arith)
        requires
            t * 10 == q * 1_000_000_000_000_000_000 + r * 10,
            0 <= r * 10 < 1_000_000_000_000_000_000,
    ;
}

/// The lay split never asks for more than was paid.
pub proof fn lemma_lay_split_within_total(total_amount: u128, odds: u128)
    requires
        odds >= 100,
    ensures
        0 <= lay_split(total_amount, odds).0,
        0 <= lay_split(total_amount, odds).1,
        lay_split(total_amount, odds).0 + lay_split(total_amount, odds).1 <= total_amount,
{
    let t = total_amount as int;
    let o = odds as int;
    let s = t * 100 / o;
    let l = s * (o - 100) / 100;
    assert(0 <= s && s * o <= t * 100) by (nonlinear_arith)
        requires
            s == t * 100 / o,
            o >= 100,
            t >= 0,
    ;
    assert(0 <= l && l * 100 <= s * (o - 100)) by (nonlinear_arith)
        requires
            l == s * (o - 100) / 100,
            s >= 0,
            o >= 100,
    ;
    assert(s + l <= t) by (nonlinear_arith)
        requires
            l * 100 <= s * (o - 100),
            s * o <= t * 100,
            s >= 0,
            l >= 0,
    ;
}

/// Accepts a stake from 0.1 to 10000 tokens.
pub fn validate_bet_amount(total_amount: &u128) -> (r: Result<(), ContractError>)
    ensures
        r is Ok <==> bet_amount_ok(*total_amount),
        r is Err ==> r == Err::<(), ContractError>(ContractError::StakeOutOfRange),
{
    proof {
        lemma_tenths_of_token(*total_amount);
    }
    let tokens = *total_amount / 100_000_000_000_000_000;
    if tokens >= 1 && tokens <= 100000 {
        Ok(())
    } else {
        Err(ContractError::StakeOutOfRange)
    }
}

/// Accepts odds from 1.01 to 1000.00.
pub fn validate_bet_odds(odds: &u128) -> (r: Result<(), ContractError>)
    ensures
        r is Ok <==> bet_odds_ok(*odds),
        r is Err ==> r == Err::<(), ContractError>(ContractError::OddsOutOfRange),
{
    if *odds >= 101 && *odds <= 100000 {
        Ok(())
    } else {
        Err(ContractError::OddsOutOfRange)
    }
}

/// The stake and liability of a lay bet paid with `total_amount` at `odds`,
/// after checking that they are covered by the amount paid.
pub fn validate_lay_bet(total_amount: &u128, odds: &u128) -> (r: Result<(u128, u128), ContractError>)
    ensures
        *odds < 100 ==> r == Err::<(u128, u128), ContractError>(ContractError::NegativeAmount),
        *odds >= 100 && *total_amount * 100 > u128::MAX ==> r == Err::<(u128, u128), ContractError>(
            ContractError::AmountOverflow,
        ),
        *odds >= 100 && *total_amount * 100 <= u128::MAX ==> (r matches Ok((stake, liability)) && stake
            == lay_split(*total_amount, *odds).0 && liability == lay_split(*total_amount, *odds).1),
{
    if *odds < 100 {
        return Err(ContractError::NegativeAmount);
    }
    let odds_minus_one = *odds - 100;
    let scaled = match total_amount.checked_mul(100) {
        Some(v) => v,
        None => return Err(ContractError::AmountOverflow),
    };
    let stake = scaled / *odds;
    proof {
        lemma_lay_split_within_total(*total_amount, *odds);
        assert(stake as int * odds_minus_one as int <= u128::MAX) by (nonlinear_arith)
            requires
                stake as int <= *total_amount,
                odds_minus_one <= u128::MAX,
                stake * 100 <= scaled,
                scaled <= u128::MAX,
                odds_minus_one < *odds,
                stake as int == scaled as int / *odds as int,
                *odds >= 100,
        ;
    }
    let liability = stake * odds_minus_one / 100;
    if *total_amount < stake + liability {
        return Err(ContractError::InsufficientLayFunds);
    }
    Ok((stake, liability))
}

/// A back bet stakes the whole amount paid and has no liability.
pub fn validate_back_bet(total_amount: &u128) -> (r: (u128, u128))
    ensures
        r == (*total_amount, 0u128),
{
    (*total_amount, 0)
}

/// A market may only be created with a closing time after `now`.
pub fn validate_market_creation(close_timestamp: u64, now: u64) -> (r: Result<(), ContractError>)
    ensures
        r is Ok <==> close_timestamp > now,
        r is Err ==> r == Err::<(), ContractError>(ContractError::InvalidMarketTimestamp),
{
    validate_market_timestamp(close_timestamp, now)
}

/// A closing time must lie after `now`.
pub fn validate_market_timestamp(close_timestamp: u64, now: u64) -> (r: Result<(), ContractError>)
    ensures
        r is Ok <==> close_timestamp > now,
        r is Err ==> r == Err::<(), ContractError>(ContractError::InvalidMarketTimestamp),
{
    if close_timestamp > now {
        Ok(())
    } else {
        Err(ContractError::InvalidMarketTimestamp)
    }
}

/// A market is open, and its closing time is still ahead of `now`.
pub fn validate_market_open_status(market: &Market, now: u64) -> (r: Result<(), ContractError>)
    ensures
        market.market_status != MarketStatus::Open ==> r == Err::<(), ContractError>(
            ContractError::MarketNotOpen,
        ),
        market.market_status == MarketStatus::Open && now >= market.close_timestamp ==> r == Err::<
            (),
            ContractError,
        >(ContractError::MarketAlreadyClosed),
        market.market_status == MarketStatus::Open && now < market.close_timestamp ==> r is Ok,
{
    if market.market_status != MarketStatus::Open {
        return Err(ContractError::MarketNotOpen);
    }
    if now >= market.close_timestamp {
        return Err(ContractError::MarketAlreadyClosed);
    }
    Ok(())
}

/// Why a bet cannot be placed on a market at `now`, if it can't.
pub open spec fn market_betting_error(m: Option<MarketModel>, now: u64) -> Option<ContractError> {
    match m {
        None => Some(ContractError::InvalidMarket),
        Some(mk) => if mk.market_status != MarketStatus::Open {
            Some(ContractError::MarketNotOpenForBetting)
        } else if now >= mk.close_timestamp {
            Some(ContractError::MarketAlreadyClosed)
        } else {
            None
        },
    }
}

/// The market as the storage holds it, if it exists.
pub open spec fn stored_market(storage: &StorageModule, market_id: u64) -> Option<MarketModel> {
    if storage.market_map().contains_key(market_id) {
        Some(storage.market_map()[market_id])
    } else {
        None
    }
}

/// The selection ids of a market.
pub open spec fn has_selection(m: MarketModel, selection_id: u64) -> bool {
    exists|i: int| 0 <= i < m.selections.len() && m.selections[i].id == selection_id
}

impl StorageModule {
    /// A bet can be placed on the market at `now`: it exists, is open and has
    /// not reached its closing time.
    pub fn validate_market(&self, market_id: u64, now: u64) -> (r: Result<(), ContractError>)
        ensures
            r == crate::orderbook::run_result(market_betting_error(stored_market(self, market_id), now)),
    {
        let market = match self.markets.get(&market_id) {
            Some(m) => m,
            None => return Err(ContractError::InvalidMarket),
        };
        if market.market_status != MarketStatus::Open {
            return Err(ContractError::MarketNotOpenForBetting);
        }
        if now >= market.close_timestamp {
            return Err(ContractError::MarketAlreadyClosed);
        }
        Ok(())
    }

    /// Whether the market exists and is open.
    pub fn validate_market_status(&self, market_id: u64) -> (r: bool)
        ensures
            r == (self.market_map().contains_key(market_id) && self.market_map()[market_id].market_status
                == MarketStatus::Open),
    {
        match self.markets.get(&market_id) {
            Some(m) => m.market_status == MarketStatus::Open,
            None => false,
        }
    }

    /// The market has a selection with the given id.
    pub fn validate_selection(&self, market_id: u64, selection_id: u64) -> (r: Result<(), ContractError>)
        ensures
            match stored_market(self, market_id) {
                None => r == Err::<(), ContractError>(ContractError::StorageDecode),
                Some(m) => if has_selection(m, selection_id) {
                    r is Ok
                } else {
                    r == Err::<(), ContractError>(ContractError::InvalidSelection)
                },
            },
    {
        let market = match self.markets.get(&market_id) {
            Some(m) => m,
            None => return Err(ContractError::StorageDecode),
        };
        let ghost mv = market@;
        assert(stored_market(self, market_id) == Some(mv));
        let mut i: usize = 0;
        while i < market.selections.len()
            invariant
                mv == market@,
                stored_market(self, market_id) == Some(mv),
                0 <= i <= market.selections@.len(),
                forall|j: int| 0 <= j < i ==> #[trigger] market.selections@[j].id != selection_id,
            decreases market.selections.len() - i,
        {
            if market.selections[i].id == selection_id {
                assert(mv.selections[i as int].id == selection_id);
                return Ok(());
            }
            i = i + 1;
        }
        assert(!has_selection(mv, selection_id)) by {
            assert forall|j: int| 0 <= j < mv.selections.len() implies mv.selections[j].id != selection_id by {
                assert(mv.selections[j] == market.selections@[j]@);
            }
        }
        Err(ContractError::InvalidSelection)
    }

    /// Advances the market counter and returns its new value.
    pub fn get_next_market_id(&mut self) -> (r: Result<u64, ContractError>)
        ensures
            old(self).market_counter < u64::MAX ==> r == Ok::<u64, ContractError>(
                (old(self).market_counter + 1) as u64,
            ) && final(self).market_counter == old(self).market_counter + 1,
            old(self).market_counter == u64::MAX ==> r == Err::<u64, ContractError>(
                ContractError::CounterOverflow,
            ) && final(self).market_counter == old(self).market_counter,
            final(self).bets() == old(self).bets(),
            final(self).market_map() == old(self).market_map(),
            final(self).selections@ == old(self).selections@,
    {
        if self.market_counter == u64::MAX {
            return Err(ContractError::CounterOverflow);
        }
        let next_counter = self.market_counter + 1;
        self.market_counter = next_counter;
        Ok(next_counter)
    }
}

} // verus!
