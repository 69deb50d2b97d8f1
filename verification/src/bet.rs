//! Placing and cancelling bets.
//!
//! Placing a bet runs in two steps around the minting of its NFT: the first
//! checks the bet, matches it and records the matched total on its market;
//! the second records the NFT nonce, indexes the bet and locks the funds
//! still at stake.
use vstd::prelude::*;
use crate::errors::ContractError;
use crate::events::{Burn, CancelBetEvent, PlaceBetEvent, Transfer};
use crate::orderbook::{
    ProcessOutcome, calculate_total_potential_profit, potential_profit_result, process_bet_result,
};
use crate::storage::{SelectionStorageModel, StorageModule, selection_key, set_with};
use crate::types::{
    Address, Bet, BetModel, BetStatus, BetType, Market, MarketModel, MatchedPart, Payment,
    PaymentToken, SelectionModel, Sport, TrackerModel, find_selection, selection_position,
    selections_view,
};
use crate::validation::{
    bet_amount_ok, bet_odds_ok, has_selection, market_betting_error, stored_market,
    validate_bet_amount, validate_bet_odds,
};

verus! {

/// The index by which the bet events name a sport.
pub open spec fn event_sport_index(sport: Sport) -> u8 {
    match sport {
        Sport::Football => 1,
        Sport::Basketball => 2,
        Sport::CounterStrike2 => 3,
        Sport::Dota2 => 4,
        Sport::LeagueOfLegends => 5,
        Sport::Tennis => 6,
    }
}

/// The code by which the bet events name a bet type.
pub open spec fn bet_type_code(bet_type: BetType) -> u8 {
    match bet_type {
        BetType::Back => 1,
        BetType::Lay => 2,
    }
}

/// The code by which the "placeBet" event names a status.
pub open spec fn event_status_code(status: BetStatus) -> u8 {
    match status {
        BetStatus::Unmatched => 1,
        BetStatus::Matched => 2,
        BetStatus::PartiallyMatched => 3,
        BetStatus::Win => 4,
        BetStatus::Lost => 5,
        BetStatus::Claimed => 6,
        BetStatus::Canceled => 7,
    }
}

/// The number of a status in declaration order, from 0.
pub open spec fn status_number(status: BetStatus) -> u8 {
    match status {
        BetStatus::Matched => 0,
        BetStatus::Unmatched => 1,
        BetStatus::PartiallyMatched => 2,
        BetStatus::Win => 3,
        BetStatus::Lost => 4,
        BetStatus::Canceled => 5,
        BetStatus::Claimed => 6,
    }
}

pub fn event_sport_index_exec(sport: Sport) -> (r: u8)
    ensures
        r == event_sport_index(sport),
{
    match sport {
        Sport::Football => 1,
        Sport::Basketball => 2,
        Sport::CounterStrike2 => 3,
        Sport::Dota2 => 4,
        Sport::LeagueOfLegends => 5,
        Sport::Tennis => 6,
    }
}

pub fn status_number_exec(status: BetStatus) -> (r: u8)
    ensures
        r == status_number(status),
{
    match status {
        BetStatus::Matched => 0,
        BetStatus::Unmatched => 1,
        BetStatus::PartiallyMatched => 2,
        BetStatus::Win => 3,
        BetStatus::Lost => 4,
        BetStatus::Canceled => 5,
        BetStatus::Claimed => 6,
    }
}

/// The stake and liability of a bet paid with `total_amount`: a back bet
/// stakes it all; a lay bet stakes `total * 100 / odds` and the rest is its
/// liability.
pub open spec fn stake_and_liability_result(bet_type: BetType, total_amount: u128, odds: u128) -> Result<(u128, u128), ContractError> {
    match bet_type {
        BetType::Back => Ok((total_amount, 0)),
        BetType::Lay => if odds < 100 {
            Err(ContractError::NegativeAmount)
        } else if odds == 100 {
            Err(ContractError::OddsTooLow)
        } else if total_amount * 100 > u128::MAX {
            Err(ContractError::AmountOverflow)
        } else if total_amount * 100 / odds as int == 0 {
            Err(ContractError::InvalidStake)
        } else {
            Ok(
                (
                    (total_amount * 100 / odds as int) as u128,
                    (total_amount - total_amount * 100 / odds as int) as u128,
                ),
            )
        },
    }
}

/// What a bet stands to win on its matched parts: for a back bet each
/// part's amount times its odds, less the amount; for a lay bet the sum of
/// the amounts.
pub open spec fn matched_parts_profit(parts: Seq<MatchedPart>, bet_type: BetType) -> Result<u128, ContractError>
    decreases parts.len(),
{
    if parts.len() == 0 {
        Ok(0)
    } else {
        match matched_parts_profit(parts.drop_last(), bet_type) {
            Err(e) => Err(e),
            Ok(acc) => {
                let p = parts.last();
                let part: Result<u128, ContractError> = match bet_type {
                    BetType::Back => if p.amount * p.odds > u128::MAX {
                        Err(ContractError::AmountOverflow)
                    } else if p.amount * p.odds / 100 < p.amount {
                        Err(ContractError::NegativeAmount)
                    } else {
                        Ok((p.amount * p.odds / 100 - p.amount) as u128)
                    },
                    BetType::Lay => Ok(p.amount),
                };
                match part {
                    Err(e) => Err(e),
                    Ok(v) => if acc + v > u128::MAX {
                        Err(ContractError::AmountOverflow)
                    } else {
                        Ok((acc + v) as u128)
                    },
                }
            },
        }
    }
}

/// The status of a bet after placement: matched when something was matched
/// and nothing is left open, partially matched when both, unmatched when
/// nothing was matched.
pub open spec fn placement_status(matched: u128, remaining: u128) -> BetStatus {
    if matched > 0 {
        if remaining > 0 {
            BetStatus::PartiallyMatched
        } else {
            BetStatus::Matched
        }
    } else {
        BetStatus::Unmatched
    }
}

/// A new bet, unmatched, on the selection `selection` of market `market_id`.
pub open spec fn new_bet_model(
    bet_id: u64,
    caller: Address,
    sport: Sport,
    market_id: u64,
    selection: SelectionModel,
    stake: u128,
    liability: u128,
    total_amount: u128,
    odds: u128,
    bet_type: BetType,
    payment_token: Seq<char>,
    payment_nonce: u64,
    nft_nonce: u64,
    created_at: u64,
) -> BetModel {
    BetModel {
        bet_id,
        bettor: caller,
        sport,
        event: market_id,
        selection,
        stake_amount: stake,
        liability,
        total_amount,
        total_matched: 0,
        unmatched_amount: stake,
        matched_parts: Seq::empty(),
        potential_profit: 0,
        odd: odds,
        bet_type,
        status: BetStatus::Unmatched,
        payment_token,
        payment_nonce,
        nft_nonce,
        created_at,
    }
}

/// A market after a bet placed on it matched `matched`: the selection takes
/// the selection's current tracker, and the market's matched total grows.
pub open spec fn market_after_placement(m: MarketModel, selection_id: u64, tracker: TrackerModel, matched: u128) -> Result<MarketModel, ContractError> {
    match selection_position(m.selections, selection_id) {
        None => Err(ContractError::InvalidSelectionId),
        Some(i) => if m.total_matched_amount + matched > u128::MAX {
            Err(ContractError::AmountOverflow)
        } else {
            Ok(
                MarketModel {
                    selections: m.selections.update(
                        i,
                        SelectionModel { priority_queue: tracker, ..m.selections[i] },
                    ),
                    total_matched_amount: (m.total_matched_amount + matched) as u128,
                    ..m
                },
            )
        },
    }
}

/// What the first step of placing a bet gives.
pub struct PlacementModel {
    pub bet: BetModel,
    pub matched: u128,
    pub remaining: u128,
    pub bets: Map<u64, BetModel>,
    pub selection: SelectionStorageModel,
    pub market: MarketModel,
}

/// The first step of placing a bet: the stake must lie in range, the odds
/// too, the market must be open for betting and have the selection; the
/// stake and liability are computed, the bet is created and processed, and
/// its market records the match. The bet handed on carries the placement
/// status.
pub open spec fn placement_result(
    bets: Map<u64, BetModel>,
    market: Option<MarketModel>,
    selection_state: SelectionStorageModel,
    sport: Sport,
    market_id: u64,
    selection_id: u64,
    odds: u128,
    bet_type: BetType,
    caller: Address,
    payment_token: Seq<char>,
    payment_nonce: u64,
    total_amount: u128,
    bet_id: u64,
    nft_nonce: u64,
    now: u64,
) -> Result<PlacementModel, ContractError> {
    if !bet_amount_ok(total_amount) {
        Err(ContractError::StakeOutOfRange)
    } else if !bet_odds_ok(odds) {
        Err(ContractError::OddsOutOfRange)
    } else if market_betting_error(market, now) is Some {
        Err(market_betting_error(market, now)->0)
    } else if !has_selection(market->0, selection_id) {
        Err(ContractError::InvalidSelection)
    } else {
        let m = market->0;
        match stake_and_liability_result(bet_type, total_amount, odds) {
            Err(e) => Err(e),
            Ok((stake, liability)) => {
                let sel = m.selections[selection_position(m.selections, selection_id)->0];
                let b = new_bet_model(
                    bet_id,
                    caller,
                    sport,
                    market_id,
                    sel,
                    stake,
                    liability,
                    total_amount,
                    odds,
                    bet_type,
                    payment_token,
                    payment_nonce,
                    nft_nonce,
                    now,
                );
                match process_bet_result(bets, selection_state, b, now) {
                    Err(e) => Err(e),
                    Ok(out) => {
                        let stored = out.bets.insert(bet_id, out.bet);
                        match market_after_placement(m, selection_id, out.selection.tracker, out.matched) {
                            Err(e) => Err(e),
                            Ok(m2) => Ok(
                                PlacementModel {
                                    bet: BetModel {
                                        total_matched: out.matched,
                                        status: placement_status(out.matched, out.remaining),
                                        ..out.bet
                                    },
                                    matched: out.matched,
                                    remaining: out.remaining,
                                    bets: stored,
                                    selection: out.selection,
                                    market: m2,
                                },
                            ),
                        }
                    },
                }
            },
        }
    }
}

/// The funds a placed bet locks: the open stake of a back bet; for a lay
/// bet the share of its paid amount in whole percent of the open stake.
pub open spec fn amount_to_lock(b: BetModel, remaining: u128) -> Result<u128, ContractError> {
    match b.bet_type {
        BetType::Back => Ok(remaining),
        BetType::Lay => if b.stake_amount == 0 {
            Err(ContractError::DivisionByZero)
        } else if remaining * 100 > u128::MAX {
            Err(ContractError::AmountOverflow)
        } else if b.total_amount * (remaining * 100 / b.stake_amount as int) > u128::MAX {
            Err(ContractError::AmountOverflow)
        } else {
            Ok((b.total_amount * (remaining * 100 / b.stake_amount as int) / 100) as u128)
        },
    }
}

/// The refund of a cancelled bet: a back bet gets back its whole stake when
/// unmatched, its open stake otherwise; a lay bet its whole paid amount when
/// unmatched, otherwise the share of it in whole percent of its open stake.
pub open spec fn cancel_refund(b: BetModel) -> Result<u128, ContractError> {
    if b.total_matched > b.stake_amount {
        Err(ContractError::NegativeAmount)
    } else {
        let unmatched = b.stake_amount - b.total_matched;
        match b.bet_type {
            BetType::Back => Ok(
                if b.status == BetStatus::Unmatched {
                    b.stake_amount
                } else {
                    unmatched as u128
                },
            ),
            BetType::Lay => if unmatched * 100 > u128::MAX {
                Err(ContractError::AmountOverflow)
            } else if b.stake_amount == 0 {
                Err(ContractError::DivisionByZero)
            } else if b.total_amount * (unmatched * 100 / b.stake_amount as int) > u128::MAX {
                Err(ContractError::AmountOverflow)
            } else if b.status == BetStatus::Unmatched {
                Ok(b.total_amount)
            } else {
                Ok((b.total_amount * (unmatched * 100 / b.stake_amount as int) / 100) as u128)
            },
        }
    }
}

/// An unmatched bet, cancelled, gets back exactly what placing it locked:
/// with its whole stake still open, the amount locked for it and the refund
/// of its cancellation are the same.
pub proof fn lemma_unmatched_cancel_refunds_lock(b: BetModel)
    requires
        b.status == BetStatus::Unmatched,
        b.total_matched == 0,
        amount_to_lock(b, b.stake_amount) is Ok,
    ensures
        cancel_refund(b) == amount_to_lock(b, b.stake_amount),
{
    if b.bet_type == BetType::Lay {
        let s = b.stake_amount as int;
        let t = b.total_amount as int;
        assert(s * 100 / s == 100) by (nonlinear_arith)
            requires
                s > 0,
        ;
        assert(t * 100 / 100 == t);
    }
}

/// A partially matched bet reduced to its matched part: its stake becomes
/// the matched total, a lay bet keeps the matched share of its liability,
/// and the bet becomes matched.
pub open spec fn reduced_to_matched(b: BetModel) -> Result<BetModel, ContractError> {
    let tm = b.total_matched;
    let ml: Result<u128, ContractError> = if b.bet_type == BetType::Lay {
        if b.liability * tm > u128::MAX {
            Err(ContractError::AmountOverflow)
        } else if b.stake_amount == 0 {
            Err(ContractError::DivisionByZero)
        } else {
            Ok((b.liability * tm / b.stake_amount as int) as u128)
        }
    } else {
        Ok(0)
    };
    match ml {
        Err(e) => Err(e),
        Ok(matched_liability) => {
            let total: Result<u128, ContractError> = if tm > 0 {
                match b.bet_type {
                    BetType::Back => Ok(tm),
                    BetType::Lay => if tm + matched_liability > u128::MAX {
                        Err(ContractError::AmountOverflow)
                    } else {
                        Ok((tm + matched_liability) as u128)
                    },
                }
            } else {
                Ok(0)
            };
            match total {
                Err(e) => Err(e),
                Ok(ta) => {
                    let b1 = BetModel {
                        status: BetStatus::Matched,
                        stake_amount: tm,
                        total_amount: ta,
                        liability: matched_liability,
                        ..b
                    };
                    match potential_profit_result(b1) {
                        Err(e) => Err(e),
                        Ok(p) => Ok(BetModel { potential_profit: p, ..b1 }),
                    }
                },
            }
        },
    }
}

/// The stake and liability of a bet paid with `total_amount`.
pub fn calculate_stake_and_liability(bet_type: &BetType, total_amount: &u128, odds: &u128) -> (r: Result<(u128, u128), ContractError>)
    ensures
        r == stake_and_liability_result(*bet_type, *total_amount, *odds),
{
    match bet_type {
        BetType::Back => Ok((*total_amount, 0)),
        BetType::Lay => {
            if *odds < 100 {
                return Err(ContractError::NegativeAmount);
            }
            let odds_minus_one = *odds - 100;
            if odds_minus_one == 0 {
                return Err(ContractError::OddsTooLow);
            }
            let scaled = match total_amount.checked_mul(100) {
                Some(v) => v,
                None => return Err(ContractError::AmountOverflow),
            };
            let stake = scaled / *odds;
            if stake == 0 {
                return Err(ContractError::InvalidStake);
            }
            proof {
                lemma_lay_stake_within_total(*total_amount, *odds);
            }
            let liability = *total_amount - stake;
            Ok((stake, liability))
        },
    }
}

/// The stake of a lay bet at odds above 1.00 is at most what was paid.
pub proof fn lemma_lay_stake_within_total(total_amount: u128, odds: u128)
    requires
        odds > 100,
    ensures
        total_amount * 100 / odds as int <= total_amount,
{
    let t = total_amount as int;
    let o = odds as int;
    assert(t * 100 / o <= t) by (nonlinear_arith)
        requires
            o > 100,
            t >= 0,
    ;
}

/// Stake and liability together are what was paid.
pub proof fn lemma_stake_and_liability_sum(bet_type: BetType, total_amount: u128, odds: u128)
    requires
        stake_and_liability_result(bet_type, total_amount, odds) is Ok,
    ensures
        ({
            let (stake, liability) = stake_and_liability_result(bet_type, total_amount, odds)->Ok_0;
            stake + liability == total_amount
        }),
{
    if bet_type == BetType::Lay {
        lemma_lay_stake_within_total(total_amount, odds);
    }
}

/// A lay bet paid with some amount stakes the largest whole number of units
/// whose value at its odds fits in what was paid, and never nothing; what is
/// left of the payment is its liability. A back bet stakes all it paid.
pub proof fn lemma_lay_stake_at_odds(bet_type: BetType, total_amount: u128, odds: u128)
    requires
        stake_and_liability_result(bet_type, total_amount, odds) is Ok,
    ensures
        bet_type == BetType::Back ==> stake_and_liability_result(bet_type, total_amount, odds) == Ok::<
            (u128, u128),
            ContractError,
        >((total_amount, 0)),
        bet_type == BetType::Lay ==> {
            let (stake, liability) = stake_and_liability_result(bet_type, total_amount, odds)->Ok_0;
            &&& odds > 100
            &&& 0 < stake
            &&& stake * odds <= total_amount * 100 < stake * odds + odds
            &&& liability == total_amount - stake
        },
{
    if bet_type == BetType::Lay {
        let s = stake_and_liability_result(bet_type, total_amount, odds)->Ok_0.0 as int;
        let t = total_amount as int;
        let o = odds as int;
        assert(s * o <= t * 100 < s * o + o) by (nonlinear_arith)
            requires
                s == t * 100 / o,
                o > 0,
                t >= 0,
        ;
        lemma_lay_stake_within_total(total_amount, odds);
    }
}

/// What placing a bet locks of its open stake: a back bet the open stake; a
/// lay bet the share of what it paid that the open stake makes of its stake,
/// in whole percent, rounded down to a whole unit, so with its whole stake
/// open everything it paid.
pub proof fn lemma_lock_share(b: BetModel, remaining: u128)
    requires
        amount_to_lock(b, remaining) is Ok,
    ensures
        b.bet_type == BetType::Back ==> amount_to_lock(b, remaining) == Ok::<u128, ContractError>(remaining),
        b.bet_type == BetType::Lay ==> amount_to_lock(b, remaining)->Ok_0 * 100 <= b.total_amount * (
        remaining * 100 / b.stake_amount as int) < amount_to_lock(b, remaining)->Ok_0 * 100 + 100,
        b.bet_type == BetType::Lay && remaining <= b.stake_amount ==> amount_to_lock(b, remaining)->Ok_0
            <= b.total_amount,
        b.bet_type == BetType::Lay && remaining == b.stake_amount ==> amount_to_lock(b, remaining)
            == Ok::<u128, ContractError>(b.total_amount),
{
    if b.bet_type == BetType::Lay {
        let l = amount_to_lock(b, remaining)->Ok_0 as int;
        let s = b.stake_amount as int;
        let r = remaining as int;
        let t = b.total_amount as int;
        let pct = r * 100 / s;
        assert(r <= s ==> 0 <= pct <= 100) by (nonlinear_arith)
            requires
                s > 0,
                r >= 0,
                pct == r * 100 / s,
        ;
        assert(r == s ==> pct == 100) by (nonlinear_arith)
            requires
                s > 0,
                pct == r * 100 / s,
        ;
        assert(l * 100 <= t * pct < l * 100 + 100) by (nonlinear_arith)
            requires
                l == t * pct / 100,
                t * pct >= 0,
        ;
        assert(0 <= pct <= 100 ==> l <= t) by (nonlinear_arith)
            requires
                l * 100 <= t * pct,
                t >= 0,
        ;
        assert(t * 100 / 100 == t);
    }
}

/// The refund of a cancelled bet: an unmatched bet gets back all it paid (a
/// back bet its stake, a lay bet its stake and liability); a partly matched
/// back bet its open stake, a partly matched lay bet the share of what it
/// paid that its open stake makes of its stake, in whole percent, rounded
/// down to a whole unit.
pub proof fn lemma_cancel_refund_share(b: BetModel)
    requires
        cancel_refund(b) is Ok,
    ensures
        b.bet_type == BetType::Back && b.status == BetStatus::Unmatched ==> cancel_refund(b)
            == Ok::<u128, ContractError>(b.stake_amount),
        b.bet_type == BetType::Back && b.status != BetStatus::Unmatched ==> cancel_refund(b)
            == Ok::<u128, ContractError>((b.stake_amount - b.total_matched) as u128),
        b.bet_type == BetType::Lay && b.status == BetStatus::Unmatched ==> cancel_refund(b)
            == Ok::<u128, ContractError>(b.total_amount),
        b.bet_type == BetType::Lay && b.status != BetStatus::Unmatched ==> cancel_refund(b)->Ok_0 * 100
            <= b.total_amount * ((b.stake_amount - b.total_matched) * 100 / b.stake_amount as int)
            < cancel_refund(b)->Ok_0 * 100 + 100,
        b.bet_type == BetType::Lay ==> cancel_refund(b)->Ok_0 <= b.total_amount,
{
    if b.bet_type == BetType::Lay {
        let c = cancel_refund(b)->Ok_0 as int;
        let s = b.stake_amount as int;
        let u = (b.stake_amount - b.total_matched) as int;
        let t = b.total_amount as int;
        let pct = u * 100 / s;
        assert(0 <= pct <= 100) by (nonlinear_arith)
            requires
                s > 0,
                0 <= u <= s,
                pct == u * 100 / s,
        ;
        if b.status != BetStatus::Unmatched {
            assert(c * 100 <= t * pct < c * 100 + 100 && c <= t) by (nonlinear_arith)
                requires
                    c == t * pct / 100,
                    0 <= pct <= 100,
                    t >= 0,
            ;
        }
    }
}

/// Each matched part adds its own profit to a bet's: for a back bet the
/// part's amount times its odds above 1.00, rounded down to a whole unit;
/// for a lay bet the part's amount.
pub proof fn lemma_matched_part_adds_profit(parts: Seq<MatchedPart>, p: MatchedPart, bet_type: BetType)
    requires
        matched_parts_profit(parts.push(p), bet_type) is Ok,
    ensures
        matched_parts_profit(parts, bet_type) is Ok,
        bet_type == BetType::Back ==> {
            let added = matched_parts_profit(parts.push(p), bet_type)->Ok_0 - matched_parts_profit(
                parts,
                bet_type,
            )->Ok_0;
            added * 100 <= p.amount * (p.odds - 100) < added * 100 + 100
        },
        bet_type == BetType::Lay ==> matched_parts_profit(parts.push(p), bet_type)->Ok_0
            == matched_parts_profit(parts, bet_type)->Ok_0 + p.amount,
{
    assert(parts.push(p).drop_last() =~= parts);
    assert(parts.push(p).last() == p);
    if bet_type == BetType::Back {
        let a = p.amount as int;
        let o = p.odds as int;
        let f = a * o / 100;
        assert(f * 100 <= a * o < f * 100 + 100) by (nonlinear_arith)
            requires
                a * o >= 0,
                f == a * o / 100,
        ;
        assert(a * (o - 100) == a * o - 100 * a) by (nonlinear_arith);
    }
}

/// A failure on a prefix of the parts is the failure on all of them.
pub proof fn lemma_matched_parts_profit_err(parts: Seq<MatchedPart>, bet_type: BetType, k: int)
    requires
        0 <= k <= parts.len(),
        matched_parts_profit(parts.take(k), bet_type) is Err,
    ensures
        matched_parts_profit(parts, bet_type) == matched_parts_profit(parts.take(k), bet_type),
    decreases parts.len() - k,
{
    if k == parts.len() {
        assert(parts.take(k) =~= parts);
    } else {
        assert(parts.take(k + 1).drop_last() =~= parts.take(k));
        lemma_matched_parts_profit_err(parts, bet_type, k + 1);
    }
}

/// What a bet stands to win on its matched parts.
pub fn calculate_matched_potential_profit(bet: &Bet) -> (r: Result<u128, ContractError>)
    ensures
        r == matched_parts_profit(bet.matched_parts@, bet.bet_type),
{
    let mut total: u128 = 0;
    let mut i: usize = 0;
    let ghost parts = bet.matched_parts@;
    assert(parts.take(0) =~= Seq::<MatchedPart>::empty());
    while i < bet.matched_parts.len()
        invariant
            parts == bet.matched_parts@,
            0 <= i <= parts.len(),
            matched_parts_profit(parts.take(i as int), bet.bet_type) == Ok::<u128, ContractError>(total),
        decreases parts.len() - i,
    {
        let part = bet.matched_parts[i];
        assert(parts.take(i + 1).drop_last() =~= parts.take(i as int));
        assert(parts.take(i + 1).last() == part);
        let v = match bet.bet_type {
            BetType::Back => {
                let gross = match part.amount.checked_mul(part.odds) {
                    Some(g) => g / 100,
                    None => {
                        proof {
                            lemma_matched_parts_profit_err(parts, bet.bet_type, i + 1);
                        }
                        return Err(ContractError::AmountOverflow);
                    },
                };
                if gross < part.amount {
                    proof {
                        lemma_matched_parts_profit_err(parts, bet.bet_type, i + 1);
                    }
                    return Err(ContractError::NegativeAmount);
                }
                gross - part.amount
            },
            BetType::Lay => part.amount,
        };
        total = match total.checked_add(v) {
            Some(t) => t,
            None => {
                proof {
                    lemma_matched_parts_profit_err(parts, bet.bet_type, i + 1);
                }
                return Err(ContractError::AmountOverflow);
            },
        };
        i = i + 1;
    }
    assert(parts.take(i as int) =~= parts);
    Ok(total)
}

/// Sets a placed bet's matched total and its placement status.
pub fn update_bet_status(bet: Bet, matched_amount: u128, remaining: u128) -> (r: Bet)
    ensures
        r@ == (BetModel {
            total_matched: matched_amount,
            status: placement_status(matched_amount, remaining),
            ..bet@
        }),
{
    let mut bet = bet;
    bet.total_matched = matched_amount;
    bet.status = if matched_amount > 0 {
        if remaining > 0 {
            BetStatus::PartiallyMatched
        } else {
            BetStatus::Matched
        }
    } else {
        BetStatus::Unmatched
    };
    bet
}

/// Why the "placeBet" event of a bet cannot be computed, if it cannot: the
/// potential profit of a back bet needs odds of at least 1.00 and a product
/// that fits.
pub open spec fn placed_event_error(b: BetModel) -> Option<ContractError> {
    if b.bet_type == BetType::Back && b.odd < 100 {
        Some(ContractError::NegativeAmount)
    } else if b.bet_type == BetType::Back && b.stake_amount * (b.odd - 100) > u128::MAX {
        Some(ContractError::AmountOverflow)
    } else {
        None
    }
}

/// The figures of the "placeBet" event of bet `b`, paid in `token`.
pub open spec fn placed_event_matches(ev: PlaceBetEvent, b: BetModel, token: Seq<char>, nft_nonce: u64, bet_id: u64) -> bool {
    &&& ev.bettor == b.bettor
    &&& ev.sport_index == event_sport_index(b.sport)
    &&& ev.market_id == b.event
    &&& ev.selection_id == b.selection.id
    &&& ev.stake_amount == b.stake_amount
    &&& ev.odd == b.odd
    &&& ev.bet_type == bet_type_code(b.bet_type)
    &&& ev.payment_token@ == token
    &&& ev.liability == b.liability
    &&& ev.status == event_status_code(b.status)
    &&& ev.matched_parts@ == b.matched_parts
    &&& ev.bet_id == bet_id
    &&& ev.potential_profit == (match b.bet_type {
        BetType::Back => (b.stake_amount * (b.odd - 100) / 100) as u128,
        BetType::Lay => b.stake_amount,
    })
    &&& ev.nft_nonce == nft_nonce
}

/// The data of the "placeBet" event of a bet. Its potential profit is the
/// stake times the odds above 1.00 for a back bet, the stake for a lay bet.
pub fn emit_bet_placed_event(bet: &Bet, token_identifier: &String, nft_nonce: u64, bet_id: u64) -> (r: Result<PlaceBetEvent, ContractError>)
    ensures
        match placed_event_error(bet@) {
            Some(e) => r == Err::<PlaceBetEvent, ContractError>(e),
            None => r matches Ok(ev) && placed_event_matches(ev, bet@, token_identifier@, nft_nonce, bet_id),
        },
{
    let potential_profit = match bet.bet_type {
        BetType::Back => {
            if bet.odd < 100 {
                return Err(ContractError::NegativeAmount);
            }
            match bet.stake_amount.checked_mul(bet.odd - 100) {
                Some(p) => p / 100,
                None => return Err(ContractError::AmountOverflow),
            }
        },
        BetType::Lay => bet.stake_amount,
    };
    let bet_type_value: u8 = match bet.bet_type {
        BetType::Back => 1,
        BetType::Lay => 2,
    };
    let status_value: u8 = match bet.status {
        BetStatus::Unmatched => 1,
        BetStatus::Matched => 2,
        BetStatus::PartiallyMatched => 3,
        BetStatus::Win => 4,
        BetStatus::Lost => 5,
        BetStatus::Claimed => 6,
        BetStatus::Canceled => 7,
    };
    let parts = bet.matched_parts.clone();
    assert(parts@ =~= bet.matched_parts@);
    Ok(PlaceBetEvent {
        bettor: bet.bettor,
        sport_index: event_sport_index_exec(bet.sport),
        market_id: bet.event,
        selection_id: bet.selection.id,
        stake_amount: bet.stake_amount,
        odd: bet.odd,
        bet_type: bet_type_value,
        payment_token: token_identifier.clone(),
        liability: bet.liability,
        status: status_value,
        matched_parts: parts,
        bet_id,
        potential_profit,
        nft_nonce,
    })
}

/// Why a cancellation is refused, if it is: the bet must exist, the bet NFT
/// (one unit, the bet's nonce) must come with the call, the caller must own
/// the bet, and the bet must still be unmatched or partially matched.
pub open spec fn cancel_refusal(
    bets: Map<u64, BetModel>,
    nft_token: Option<String>,
    bet_id: u64,
    caller: Address,
    payment: Payment,
) -> Option<ContractError> {
    if !bets.contains_key(bet_id) {
        Some(ContractError::BetDoesNotExist)
    } else {
        let b = bets[bet_id];
        match payment.token {
            PaymentToken::Egld => Some(ContractError::EsdtExpected),
            PaymentToken::Esdt(t) => match nft_token {
                None => Some(ContractError::InvalidTokenId),
                Some(nft) => if t@ != nft@ {
                    Some(ContractError::MustSendBetNftToCancel)
                } else if payment.nonce != b.nft_nonce {
                    Some(ContractError::InvalidNftNonce)
                } else if payment.amount != 1 {
                    Some(ContractError::MustSendExactlyOneNft)
                } else if b.bettor != caller {
                    Some(ContractError::NotBetOwnerCancel)
                } else if b.status != BetStatus::Unmatched && b.status != BetStatus::PartiallyMatched {
                    Some(ContractError::BetCannotBeCancelled)
                } else {
                    None
                },
            },
        }
    }
}

/// What a cancellation gives.
pub struct CancelOutcome {
    pub refund: Transfer,
    pub returned_nft: Option<Transfer>,
    pub burned_nft: Option<Burn>,
    pub event: CancelBetEvent,
}

impl StorageModule {
    /// A new unmatched bet on the selection `selection_id` of market
    /// `market_id`, which must exist.
    pub fn create_bet(
        &self,
        sport: Sport,
        market_id: u64,
        selection_id: u64,
        caller: &Address,
        stake: &u128,
        liability: &u128,
        total_amount: &u128,
        odds: &u128,
        bet_type: BetType,
        token_identifier: &String,
        token_nonce: u64,
        bet_id: u64,
        nft_nonce: u64,
        now: u64,
    ) -> (r: Result<Bet, ContractError>)
        ensures
            match stored_market(self, market_id) {
                None => r == Err::<Bet, ContractError>(ContractError::StorageDecode),
                Some(m) => match selection_position(m.selections, selection_id) {
                    None => r == Err::<Bet, ContractError>(ContractError::InvalidSelectionId),
                    Some(i) => r matches Ok(b) && b@ == new_bet_model(
                        bet_id,
                        *caller,
                        sport,
                        market_id,
                        m.selections[i],
                        *stake,
                        *liability,
                        *total_amount,
                        *odds,
                        bet_type,
                        token_identifier@,
                        token_nonce,
                        nft_nonce,
                        now,
                    ),
                },
            },
    {
        let market = match self.markets.get(&market_id) {
            Some(m) => m,
            None => return Err(ContractError::StorageDecode),
        };
        assert(stored_market(self, market_id) == Some(market@));
        let pos = match find_selection(&market.selections, selection_id) {
            Some(p) => p,
            None => return Err(ContractError::InvalidSelectionId),
        };
        let selection = market.selections[pos].clone();
        let bet = Bet {
            bet_id,
            bettor: *caller,
            sport,
            event: market_id,
            selection,
            stake_amount: *stake,
            liability: *liability,
            total_amount: *total_amount,
            total_matched: 0,
            unmatched_amount: *stake,
            matched_parts: Vec::new(),
            potential_profit: 0,
            odd: *odds,
            bet_type,
            status: BetStatus::Unmatched,
            payment_token: token_identifier.clone(),
            payment_nonce: token_nonce,
            nft_nonce,
            created_at: now,
        };
        assert(bet.matched_parts@ =~= Seq::<MatchedPart>::empty());
        Ok(bet)
    }

    /// Records on a market what a bet placed on its selection matched; a
    /// refusal leaves the storage as it was.
    #[verifier::spinoff_prover]
    #[verifier::rlimit(40)]
    pub fn update_market_and_selection(&mut self, market_id: u64, selection_id: u64, matched_amount: &u128) -> (r: Result<(), ContractError>)
        ensures
            match stored_market(old(self), market_id) {
                None => r == Err::<(), ContractError>(ContractError::StorageDecode) && final(self).same_as(old(self)),
                Some(m) => match market_after_placement(
                    m,
                    selection_id,
                    old(self).selection_state(market_id, selection_id).tracker,
                    *matched_amount,
                ) {
                    Err(e) => r == Err::<(), ContractError>(e) && final(self).same_as(old(self)),
                    Ok(m2) => {
                        &&& r is Ok
                        &&& final(self).market_map() == old(self).market_map().insert(market_id, m2)
                        &&& final(self).bets() == old(self).bets()
                        &&& final(self).selections@ == old(self).selections@
                        &&& final(self).locked_funds.entries_view() == old(self).locked_funds.entries_view()
                        &&& final(self).same_lists(old(self))
                    },
                },
            },
    {
        let mut market = match self.markets.remove(&market_id) {
            Some(m) => m,
            None => {
                assert(self.markets@ =~= old(self).markets@);
                assert(self.market_map() =~= old(self).market_map());
                return Err(ContractError::StorageDecode);
            },
        };
        let ghost m0 = market@;
        assert(stored_market(old(self), market_id) == Some(m0));
        let selection_index = match find_selection(&market.selections, selection_id) {
            Some(p) => p,
            None => {
                self.markets.insert(market_id, market);
                assert(self.market_map() =~= old(self).market_map());
                return Err(ContractError::InvalidSelectionId);
            },
        };
        let k = crate::storage::selection_key_exec(market_id, selection_id);
        let tracker = match self.selections.get(&k) {
            Some(st) => st.tracker.clone(),
            None => crate::storage::new_tracker(),
        };
        let total = match market.total_matched_amount.checked_add(*matched_amount) {
            Some(t) => t,
            None => {
                self.markets.insert(market_id, market);
                assert(self.market_map() =~= old(self).market_map());
                return Err(ContractError::AmountOverflow);
            },
        };
        let mut selection = market.selections[selection_index].clone();
        selection.priority_queue = tracker;
        let ghost sm = selection@;
        let ghost before = market.selections@;
        market.selections.set(selection_index, selection);
        assert(selections_view(market.selections@) =~= selections_view(before).update(selection_index as int, sm));
        market.total_matched_amount = total;
        let ghost mv = market@;
        self.markets.insert(market_id, market);
        assert(self.market_map() =~= old(self).market_map().insert(market_id, mv));
        Ok(())
    }

    /// Places a bet, first step: checks the stake, the odds, the market and
    /// the selection, computes stake and liability, creates the bet,
    /// matches it and records the match on its market. Gives the bet with
    /// its placement status, the amount matched and the amount left open. A
    /// refused bet leaves the storage as it was.
    pub fn place_bet(
        &mut self,
        sport: Sport,
        market_id: u64,
        selection_id: u64,
        odds: u128,
        bet_type: BetType,
        caller: Address,
        payment_token: &String,
        payment_nonce: u64,
        total_amount: u128,
        bet_id: u64,
        nft_nonce: u64,
        now: u64,
    ) -> (r: Result<(Bet, u128, u128), ContractError>)
        ensures
            match placement_result(
                old(self).bets(),
                stored_market(old(self), market_id),
                old(self).selection_state(market_id, selection_id),
                sport,
                market_id,
                selection_id,
                odds,
                bet_type,
                caller,
                payment_token@,
                payment_nonce,
                total_amount,
                bet_id,
                nft_nonce,
                now,
            ) {
                Ok(p) => if old(self).bet_nft_token is None {
                    r == Err::<(Bet, u128, u128), ContractError>(ContractError::TokenNotIssued)
                        && final(self).same_as(old(self))
                } else {
                    r matches Ok((b, m, rem)) && {
                    &&& b@ == p.bet
                    &&& m == p.matched
                    &&& rem == p.remaining
                    &&& final(self).bets() == p.bets
                    &&& final(self).selection_state(market_id, selection_id) == p.selection
                    &&& forall|mk: u64, s: u64|
                        !(mk == market_id && s == selection_id) ==> #[trigger] final(self).selection_state(mk, s)
                            == old(self).selection_state(mk, s)
                    &&& final(self).market_map() == old(self).market_map().insert(market_id, p.market)
                    &&& final(self).locked_funds.entries_view() == old(self).locked_funds.entries_view()
                    &&& final(self).same_lists(old(self))
                    }
                },
                Err(e) => r matches Err(e2) && e2 == e && final(self).same_as(old(self)),
            },
    {
        let snapshot = self.snapshot();
        let res = self.try_place_bet(
            sport,
            market_id,
            selection_id,
            odds,
            bet_type,
            caller,
            payment_token,
            payment_nonce,
            total_amount,
            bet_id,
            nft_nonce,
            now,
        );
        match res {
            Ok(v) => if self.bet_nft_token.is_none() {
                *self = snapshot;
                Err(ContractError::TokenNotIssued)
            } else {
                Ok(v)
            },
            Err(e) => {
                *self = snapshot;
                Err(e)
            },
        }
    }

    fn try_place_bet(
        &mut self,
        sport: Sport,
        market_id: u64,
        selection_id: u64,
        odds: u128,
        bet_type: BetType,
        caller: Address,
        payment_token: &String,
        payment_nonce: u64,
        total_amount: u128,
        bet_id: u64,
        nft_nonce: u64,
        now: u64,
    ) -> (r: Result<(Bet, u128, u128), ContractError>)
        ensures
            match placement_result(
                old(self).bets(),
                stored_market(old(self), market_id),
                old(self).selection_state(market_id, selection_id),
                sport,
                market_id,
                selection_id,
                odds,
                bet_type,
                caller,
                payment_token@,
                payment_nonce,
                total_amount,
                bet_id,
                nft_nonce,
                now,
            ) {
                Ok(p) => r matches Ok((b, m, rem)) && {
                    &&& b@ == p.bet
                    &&& m == p.matched
                    &&& rem == p.remaining
                    &&& final(self).bets() == p.bets
                    &&& final(self).selection_state(market_id, selection_id) == p.selection
                    &&& forall|mk: u64, s: u64|
                        !(mk == market_id && s == selection_id) ==> #[trigger] final(self).selection_state(mk, s)
                            == old(self).selection_state(mk, s)
                    &&& final(self).market_map() == old(self).market_map().insert(market_id, p.market)
                    &&& final(self).locked_funds.entries_view() == old(self).locked_funds.entries_view()
                    &&& final(self).same_lists(old(self))
                },
                Err(e) => r matches Err(e2) && e2 == e,
            },
    {
        validate_bet_amount(&total_amount)?;
        validate_bet_odds(&odds)?;
        self.validate_market(market_id, now)?;
        self.validate_selection(market_id, selection_id)?;
        let ghost m = stored_market(old(self), market_id)->0;
        proof {
            crate::types::lemma_selection_position(m.selections, selection_id);
        }
        let (final_stake, final_liability) = calculate_stake_and_liability(&bet_type, &total_amount, &odds)?;
        let bet = self.create_bet(
            sport,
            market_id,
            selection_id,
            &caller,
            &final_stake,
            &final_liability,
            &total_amount,
            &odds,
            bet_type,
            payment_token,
            payment_nonce,
            bet_id,
            nft_nonce,
            now,
        )?;
        let ghost pos = selection_position(m.selections, selection_id)->0;
        assert(bet@ == new_bet_model(
            bet_id,
            caller,
            sport,
            market_id,
            m.selections[pos],
            final_stake,
            final_liability,
            total_amount,
            odds,
            bet_type,
            payment_token@,
            payment_nonce,
            nft_nonce,
            now,
        ));
        assert(bet.event == market_id && bet.selection.id == selection_id);
        let ghost s1 = *self;
        let (updated_bet, matched_amount, remaining) = self.process_bet(bet, now)?;
        let ghost out = process_bet_result(s1.bets(), s1.selection_state(market_id, selection_id), bet@, now)->Ok_0;
        assert(stored_market(&*self, market_id) == Some(m));
        let ghost s2 = *self;
        let stored = updated_bet.clone();
        self.put_bet(bet_id, stored);
        assert(self.bets() == out.bets.insert(bet_id, out.bet));
        assert(stored_market(&*self, market_id) == Some(m));
        assert(self.selection_state(market_id, selection_id) == out.selection);
        let final_bet = update_bet_status(updated_bet, matched_amount, remaining);
        self.update_market_and_selection(market_id, selection_id, &matched_amount)?;
        proof {
            assert forall|mk: u64, sl: u64| !(mk == market_id && sl == selection_id) implies #[trigger] self.selection_state(mk, sl)
                == old(self).selection_state(mk, sl) by {
                assert(s2.selection_state(mk, sl) == s1.selection_state(mk, sl));
            }
        }
        Ok((final_bet, matched_amount, remaining))
    }
}


/// The bet a partially matched bet becomes when its open part is cancelled.
pub fn reduce_to_matched(bet: Bet) -> (r: Result<Bet, ContractError>)
    ensures
        match reduced_to_matched(bet@) {
            Ok(b) => r matches Ok(b2) && b2@ == b,
            Err(e) => r == Err::<Bet, ContractError>(e),
        },
{
    let mut bet = bet;
    let tm = bet.total_matched;
    let matched_liability: u128 = if bet.bet_type == BetType::Lay {
        let scaled = match bet.liability.checked_mul(tm) {
            Some(v) => v,
            None => return Err(ContractError::AmountOverflow),
        };
        if bet.stake_amount == 0 {
            return Err(ContractError::DivisionByZero);
        }
        scaled / bet.stake_amount
    } else {
        0
    };
    let total: u128 = if tm > 0 {
        match bet.bet_type {
            BetType::Back => tm,
            BetType::Lay => match tm.checked_add(matched_liability) {
                Some(v) => v,
                None => return Err(ContractError::AmountOverflow),
            },
        }
    } else {
        0
    };
    bet.status = BetStatus::Matched;
    bet.stake_amount = tm;
    bet.total_amount = total;
    bet.liability = matched_liability;
    let profit = calculate_total_potential_profit(&bet)?;
    bet.potential_profit = profit;
    Ok(bet)
}

/// The refund owed when a bet is cancelled.
pub fn calculate_cancel_refund(bet: &Bet) -> (r: Result<u128, ContractError>)
    ensures
        r == cancel_refund(bet@),
{
    if bet.total_matched > bet.stake_amount {
        return Err(ContractError::NegativeAmount);
    }
    let unmatched = bet.stake_amount - bet.total_matched;
    match bet.bet_type {
        BetType::Back => {
            if bet.status == BetStatus::Unmatched {
                Ok(bet.stake_amount)
            } else {
                Ok(unmatched)
            }
        },
        BetType::Lay => {
            let scaled = match unmatched.checked_mul(100) {
                Some(v) => v,
                None => return Err(ContractError::AmountOverflow),
            };
            if bet.stake_amount == 0 {
                return Err(ContractError::DivisionByZero);
            }
            let ratio = scaled / bet.stake_amount;
            let refund = match bet.total_amount.checked_mul(ratio) {
                Some(v) => v / 100,
                None => return Err(ContractError::AmountOverflow),
            };
            if bet.status == BetStatus::Unmatched {
                Ok(bet.total_amount)
            } else {
                Ok(refund)
            }
        },
    }
}

/// What a cancellation leaves: the bets, the selection's storage, the
/// caller's locked funds, the refund, the status the event reports and the
/// bet whose figures it reports.
pub struct CancelModel {
    pub bets: Map<u64, BetModel>,
    pub selection: SelectionStorageModel,
    pub locked: u128,
    pub refund: u128,
    pub status: u8,
    pub bet: BetModel,
}

/// Cancelling bet `bet_id`: an unmatched bet is deleted and its NFT burned;
/// a partially matched bet keeps only its matched part, becomes matched, and
/// its NFT goes back to the caller. Either way the refund comes out of the
/// caller's locked funds, which must cover it, and the selection's counters
/// follow the bet. `st` is the storage of the bet's selection and `locked`
/// the caller's locked funds.
pub open spec fn cancel_result(
    bets: Map<u64, BetModel>,
    st: SelectionStorageModel,
    locked: u128,
    nft_token: Option<String>,
    bet_id: u64,
    caller: Address,
    payment: Payment,
) -> Result<CancelModel, ContractError> {
    match cancel_refusal(bets, nft_token, bet_id, caller, payment) {
        Some(e) => Err(e),
        None => {
            let b = bets[bet_id];
            match cancel_refund(b) {
                Err(e) => Err(e),
                Ok(refund) => if locked < refund {
                    Err(ContractError::InsufficientLockedFunds)
                } else if b.status == BetStatus::Unmatched {
                    if st.unmatched_count == 0 {
                        Err(ContractError::CounterOverflow)
                    } else {
                        Ok(
                            CancelModel {
                                bets: bets.remove(bet_id),
                                selection: SelectionStorageModel {
                                    unmatched_count: (st.unmatched_count - 1) as u64,
                                    ..st
                                },
                                locked: (locked - refund) as u128,
                                refund,
                                status: status_number(BetStatus::Unmatched),
                                bet: b,
                            },
                        )
                    }
                } else if st.partially_matched_count == 0 || st.matched_count == u64::MAX {
                    Err(ContractError::CounterOverflow)
                } else {
                    match reduced_to_matched(b) {
                        Err(e) => Err(e),
                        Ok(b2) => Ok(
                            CancelModel {
                                bets: bets.insert(bet_id, b2),
                                selection: SelectionStorageModel {
                                    partially_matched_count: (st.partially_matched_count - 1) as u64,
                                    matched_count: (st.matched_count + 1) as u64,
                                    ..st
                                },
                                locked: (locked - refund) as u128,
                                refund,
                                status: status_number(BetStatus::Matched),
                                bet: b2,
                            },
                        ),
                    }
                },
            }
        },
    }
}

/// The figures of the "cancelBet" event for bet `bet_id` cancelled by
/// `caller`.
pub open spec fn cancel_event_matches(ev: CancelBetEvent, c: CancelModel, caller: Address, bet_id: u64) -> bool {
    &&& ev.bettor == caller
    &&& ev.bet_id == bet_id
    &&& ev.status == c.status
    &&& ev.refund_amount == c.refund
    &&& ev.total_matched == c.bet.total_matched
    &&& ev.total_amount == c.bet.total_amount
    &&& ev.potential_profit == c.bet.potential_profit
    &&& ev.liability == c.bet.liability
    &&& ev.sport_index == event_sport_index(c.bet.sport)
    &&& ev.nft_nonce == c.bet.nft_nonce
}

/// The transfers of a cancellation: the refund in the bet's payment token,
/// and the NFT burned (unmatched bet) or sent back (partially matched bet).
pub open spec fn cancel_transfers_match(out: CancelOutcome, c: CancelModel, caller: Address, payment: Payment) -> bool {
    &&& out.refund.to == caller
    &&& out.refund.token@ == c.bet.payment_token
    &&& out.refund.nonce == 0
    &&& out.refund.amount == c.refund
    &&& if c.status == status_number(BetStatus::Unmatched) {
        &&& out.returned_nft is None
        &&& out.burned_nft matches Some(burn) && burn.token@ == payment.token->Esdt_0@ && burn.nonce
            == payment.nonce && burn.amount == 1
    } else {
        &&& out.burned_nft is None
        &&& out.returned_nft matches Some(t) && t.to == caller && t.token@ == payment.token->Esdt_0@
            && t.nonce == c.bet.nft_nonce && t.amount == 1
    }
}

impl StorageModule {
    /// Whether a bet with the given id is stored.
    pub fn bet_exists(&self, bet_id: u64) -> (r: bool)
        ensures
            r == self.bets().contains_key(bet_id),
    {
        self.bet_by_id.contains_key(&bet_id)
    }

    /// Cancels bet `bet_id` at the request of `caller`, who sends `payment`
    /// (the bet's NFT). A refused cancellation leaves the storage as it was.
    pub fn cancel_bet(&mut self, bet_id: u64, caller: Address, payment: &Payment) -> (r: Result<CancelOutcome, ContractError>)
        ensures
            ({
                let b = old(self).bets()[bet_id];
                match cancel_result(
                    old(self).bets(),
                    old(self).selection_state(b.event, b.selection.id),
                    old(self).locked_funds.spec_get(caller),
                    old(self).bet_nft_token,
                    bet_id,
                    caller,
                    *payment,
                ) {
                    Ok(c) => r matches Ok(out) && {
                        &&& final(self).bets() == c.bets
                        &&& final(self).selection_state(b.event, b.selection.id) == c.selection
                        &&& forall|m: u64, s: u64|
                            !(m == b.event && s == b.selection.id) ==> #[trigger] final(self).selection_state(m, s)
                                == old(self).selection_state(m, s)
                        &&& final(self).locked_funds.spec_get(caller) == c.locked
                        &&& forall|a: Address|
                            a != caller ==> #[trigger] final(self).locked_funds.spec_get(a)
                                == old(self).locked_funds.spec_get(a)
                        &&& final(self).market_map() == old(self).market_map()
                        &&& final(self).same_lists(old(self))
                        &&& cancel_event_matches(out.event, c, caller, bet_id)
                        &&& cancel_transfers_match(out, c, caller, *payment)
                    },
                    Err(e) => r matches Err(e2) && e2 == e && final(self).same_as(old(self)),
                }
            }),
    {
        let snapshot = self.snapshot();
        match self.try_cancel_bet(bet_id, caller, payment) {
            Ok(out) => Ok(out),
            Err(e) => {
                *self = snapshot;
                Err(e)
            },
        }
    }

    fn try_cancel_bet(&mut self, bet_id: u64, caller: Address, payment: &Payment) -> (r: Result<CancelOutcome, ContractError>)
        ensures
            ({
                let b = old(self).bets()[bet_id];
                match cancel_result(
                    old(self).bets(),
                    old(self).selection_state(b.event, b.selection.id),
                    old(self).locked_funds.spec_get(caller),
                    old(self).bet_nft_token,
                    bet_id,
                    caller,
                    *payment,
                ) {
                    Ok(c) => r matches Ok(out) && {
                        &&& final(self).bets() == c.bets
                        &&& final(self).selection_state(b.event, b.selection.id) == c.selection
                        &&& forall|m: u64, s: u64|
                            !(m == b.event && s == b.selection.id) ==> #[trigger] final(self).selection_state(m, s)
                                == old(self).selection_state(m, s)
                        &&& final(self).locked_funds.spec_get(caller) == c.locked
                        &&& forall|a: Address|
                            a != caller ==> #[trigger] final(self).locked_funds.spec_get(a)
                                == old(self).locked_funds.spec_get(a)
                        &&& final(self).market_map() == old(self).market_map()
                        &&& final(self).same_lists(old(self))
                        &&& cancel_event_matches(out.event, c, caller, bet_id)
                        &&& cancel_transfers_match(out, c, caller, *payment)
                    },
                    Err(e) => r matches Err(e2) && e2 == e,
                }
            }),
    {
        let bet = match self.read_bet(bet_id) {
            Some(b) => b,
            None => return Err(ContractError::BetDoesNotExist),
        };
        let token = match &payment.token {
            PaymentToken::Egld => return Err(ContractError::EsdtExpected),
            PaymentToken::Esdt(t) => t,
        };
        let nft = match &self.bet_nft_token {
            Some(n) => n,
            None => return Err(ContractError::InvalidTokenId),
        };
        if !token.eq(nft) {
            return Err(ContractError::MustSendBetNftToCancel);
        }
        if payment.nonce != bet.nft_nonce {
            return Err(ContractError::InvalidNftNonce);
        }
        if payment.amount != 1 {
            return Err(ContractError::MustSendExactlyOneNft);
        }
        if bet.bettor != caller {
            return Err(ContractError::NotBetOwnerCancel);
        }
        if bet.status != BetStatus::Unmatched && bet.status != BetStatus::PartiallyMatched {
            return Err(ContractError::BetCannotBeCancelled);
        }
        let refund = calculate_cancel_refund(&bet)?;
        let locked = self.locked_funds.get(&caller);
        if locked < refund {
            return Err(ContractError::InsufficientLockedFunds);
        }
        let nft_token = token.clone();
        let ghost s0 = *self;
        let mut st = self.take_selection(bet.event, bet.selection.id);
        let (event_bet, status_for_event, returned_nft, burned_nft) = if bet.status == BetStatus::Unmatched {
            if st.unmatched_count == 0 {
                return Err(ContractError::CounterOverflow);
            }
            st.unmatched_count = st.unmatched_count - 1;
            self.put_selection(bet.event, bet.selection.id, st);
            let _ = self.take_bet(bet_id);
            let burn = Burn { token: nft_token, nonce: payment.nonce, amount: 1 };
            (bet, 1u8, None, Some(burn))
        } else {
            if st.partially_matched_count == 0 || st.matched_count == u64::MAX {
                return Err(ContractError::CounterOverflow);
            }
            st.partially_matched_count = st.partially_matched_count - 1;
            st.matched_count = st.matched_count + 1;
            self.put_selection(bet.event, bet.selection.id, st);
            let reduced = reduce_to_matched(bet)?;
            let back = Transfer { to: caller, token: nft_token, nonce: reduced.nft_nonce, amount: 1 };
            let stored = reduced.clone();
            self.put_bet(bet_id, stored);
            (reduced, 0u8, Some(back), None)
        };
        let ghost s1 = *self;
        self.locked_funds.set(&caller, locked - refund);
        assert(self.selections@ == s1.selections@);
        let refund_transfer = Transfer {
            to: caller,
            token: event_bet.payment_token.clone(),
            nonce: 0,
            amount: refund,
        };
        let event = CancelBetEvent {
            bettor: caller,
            bet_id,
            status: status_for_event,
            refund_amount: refund,
            total_matched: event_bet.total_matched,
            total_amount: event_bet.total_amount,
            potential_profit: event_bet.potential_profit,
            liability: event_bet.liability,
            sport_index: event_sport_index_exec(event_bet.sport),
            nft_nonce: event_bet.nft_nonce,
        };
        proof {
            assert forall|m: u64, sl: u64|
                !(m == bet.event && sl == bet.selection.id) implies #[trigger] self.selection_state(m, sl)
                == old(self).selection_state(m, sl) by {
                assert(s1.selection_state(m, sl) == s0.selection_state(m, sl));
            }
        }
        Ok(CancelOutcome { refund: refund_transfer, returned_nft, burned_nft, event })
    }
}


/// The funds a placed bet locks, out of what is left open of it.
pub fn calculate_amount_to_lock(bet: &Bet, remaining: u128) -> (r: Result<u128, ContractError>)
    ensures
        r == amount_to_lock(bet@, remaining),
{
    match bet.bet_type {
        BetType::Back => Ok(remaining),
        BetType::Lay => {
            if bet.stake_amount == 0 {
                return Err(ContractError::DivisionByZero);
            }
            let scaled = match remaining.checked_mul(100) {
                Some(v) => v,
                None => return Err(ContractError::AmountOverflow),
            };
            let ratio = scaled / bet.stake_amount;
            match bet.total_amount.checked_mul(ratio) {
                Some(v) => Ok(v / 100),
                None => Err(ContractError::AmountOverflow),
            }
        },
    }
}

/// The second step of placing a bet, once its NFT was minted with nonce
/// `nft_nonce`: the bet NFT token must be issued, the funds to lock must be
/// computable and fit beside what the bettor has locked, and the event must
/// be computable. Gives the bettor's locked funds afterwards.
pub open spec fn record_result(b: BetModel, remaining: u128, token: Option<String>, locked: u128, nft_nonce: u64) -> Result<u128, ContractError> {
    if token is None {
        Err(ContractError::TokenNotIssued)
    } else {
        match amount_to_lock(b, remaining) {
            Err(e) => Err(e),
            Ok(a) => if locked + a > u128::MAX {
                Err(ContractError::AmountOverflow)
            } else {
                match placed_event_error(BetModel { nft_nonce, ..b }) {
                    Some(e) => Err(e),
                    None => Ok((locked + a) as u128),
                }
            },
        }
    }
}

impl StorageModule {
    /// Places a bet, second step, once its NFT was minted with nonce
    /// `nft_nonce`: stores the bet with that nonce, indexes it by nonce and
    /// under its market, locks the funds still at stake and gives the
    /// transfer of the NFT to the bettor and the "placeBet" event. A refused
    /// step leaves the storage as it was.
    pub fn record_placed_bet(&mut self, bet: Bet, remaining: u128, nft_nonce: u64) -> (r: Result<(Transfer, PlaceBetEvent), ContractError>)
        ensures
            match record_result(bet@, remaining, old(self).bet_nft_token, old(self).locked_funds.spec_get(bet.bettor), nft_nonce) {
                Err(e) => r == Err::<(Transfer, PlaceBetEvent), ContractError>(e) && *final(self) == *old(self),
                Ok(locked) => r matches Ok((t, ev)) && {
                    &&& final(self).bets() == old(self).bets().insert(bet.bet_id, BetModel { nft_nonce, ..bet@ })
                    &&& final(self).bet_nonce_to_id@ == old(self).bet_nonce_to_id@.insert(nft_nonce, bet.bet_id)
                    &&& final(self).market_bets(bet.event) == set_with(old(self).market_bets(bet.event), bet.bet_id)
                    &&& forall|m: u64| m != bet.event ==> #[trigger] final(self).market_bets(m) == old(self).market_bets(m)
                    &&& final(self).locked_funds.spec_get(bet.bettor) == locked
                    &&& forall|a: Address|
                        a != bet.bettor ==> #[trigger] final(self).locked_funds.spec_get(a)
                            == old(self).locked_funds.spec_get(a)
                    &&& final(self).market_map() == old(self).market_map()
                    &&& final(self).selections@ == old(self).selections@
                    &&& final(self).bet_nft_token == old(self).bet_nft_token
                    &&& final(self).market_counter == old(self).market_counter
                    &&& final(self).markets_by_event_and_sport@ == old(self).markets_by_event_and_sport@
                    &&& final(self).markets_by_event@ == old(self).markets_by_event@
                    &&& final(self).winning_selection@ == old(self).winning_selection@
                    &&& final(self).event_score@ == old(self).event_score@
                    &&& t.to == bet.bettor && t.token@ == old(self).bet_nft_token->0@ && t.nonce == nft_nonce
                        && t.amount == 1
                    &&& placed_event_matches(ev, BetModel { nft_nonce, ..bet@ }, bet.payment_token@, nft_nonce, bet.bet_id)
                },
            },
    {
        let token = match &self.bet_nft_token {
            Some(t) => t.clone(),
            None => return Err(ContractError::TokenNotIssued),
        };
        let to_lock = calculate_amount_to_lock(&bet, remaining)?;
        let locked = self.locked_funds.get(&bet.bettor);
        let new_locked = match locked.checked_add(to_lock) {
            Some(v) => v,
            None => return Err(ContractError::AmountOverflow),
        };
        let mut with_nonce = bet;
        with_nonce.nft_nonce = nft_nonce;
        let event = emit_bet_placed_event(&with_nonce, &with_nonce.payment_token, nft_nonce, with_nonce.bet_id)?;
        let bet_id = with_nonce.bet_id;
        let market_id = with_nonce.event;
        let bettor = with_nonce.bettor;
        self.put_bet(bet_id, with_nonce);
        self.bet_nonce_to_id.insert(nft_nonce, bet_id);
        self.add_market_bet(market_id, bet_id);
        let ghost s1 = *self;
        if to_lock > 0 {
            self.locked_funds.set(&bettor, new_locked);
        }
        assert(self.market_bet_ids == s1.market_bet_ids);
        assert forall|m: u64| m != market_id implies #[trigger] self.market_bets(m) == old(self).market_bets(m) by {
            assert(s1.market_bets(m) == old(self).market_bets(m));
        }
        let transfer = Transfer { to: bettor, token, nonce: nft_nonce, amount: 1 };
        Ok((transfer, event))
    }
}

} // verus!
