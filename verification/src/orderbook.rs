//! Matching a new bet against the opposite side of its selection's order
//! book, and keeping the order book of open stakes.
//!
//! A back bet is matched against lay levels and a lay bet against back
//! levels, only at its own odds. Together the bets of a level receive at
//! most the amount matched at that level, each match recorded on both bets
//! with its counterparty; the level then keeps the bets that still have an
//! open stake.
use vstd::prelude::*;
use crate::errors::ContractError;
use crate::storage::{
    SelectionStorageModel, StorageModule, selection_key,
};
use crate::types::{
    Address, Bet, BetModel, BetStatus, BetType, Counterparty, LevelModel, MatchedPart, PriceLevel,
    clone_levels, levels_view,
};

verus! {

/// The profit a bet stands to make on what has been matched of it: for a
/// back bet the matched amount times the odds above 1.00, for a lay bet the
/// matched amount.
pub open spec fn potential_profit_result(b: BetModel) -> Result<u128, ContractError> {
    match b.bet_type {
        BetType::Back => if b.odd < 100 {
            Err(ContractError::NegativeAmount)
        } else if b.total_matched * (b.odd - 100) > u128::MAX {
            Err(ContractError::AmountOverflow)
        } else {
            Ok((b.total_matched * (b.odd - 100) / 100) as u128)
        },
        BetType::Lay => Ok(b.total_matched),
    }
}

/// The liability still open on the unmatched part of a bet: none for a back
/// bet, the open amount times the odds above 1.00 for a lay bet.
pub open spec fn remaining_liability_result(b: BetModel, remaining: u128) -> Result<u128, ContractError> {
    match b.bet_type {
        BetType::Back => Ok(0),
        BetType::Lay => if b.odd < 100 {
            Err(ContractError::NegativeAmount)
        } else if remaining * (b.odd - 100) > u128::MAX {
            Err(ContractError::AmountOverflow)
        } else {
            Ok((remaining * (b.odd - 100) / 100) as u128)
        },
    }
}

/// What a counterparty bet becomes when `m` more of its stake is matched:
/// the matched total grows, a lay bet gives up the share `m / stake` (in
/// whole units) of its paid amount, the status follows the matched total
/// and the potential profit is computed again.
pub open spec fn counterparty_update(b: BetModel, m: u128) -> Result<BetModel, ContractError> {
    let tm = b.total_matched + m;
    if tm > u128::MAX {
        Err(ContractError::AmountOverflow)
    } else {
        let paid: Result<u128, ContractError> = if b.bet_type == BetType::Lay {
            if b.stake_amount == 0 {
                Err(ContractError::DivisionByZero)
            } else {
                let share = b.total_amount * (m / b.stake_amount);
                if share > u128::MAX {
                    Err(ContractError::AmountOverflow)
                } else if share > b.total_amount {
                    Err(ContractError::NegativeAmount)
                } else {
                    Ok((b.total_amount - share) as u128)
                }
            }
        } else {
            Ok(b.total_amount)
        };
        match paid {
            Err(e) => Err(e),
            Ok(ta) => {
                let b1 = BetModel {
                    total_matched: tm as u128,
                    total_amount: ta,
                    status: if tm == b.stake_amount {
                        BetStatus::Matched
                    } else {
                        BetStatus::PartiallyMatched
                    },
                    ..b
                };
                match potential_profit_result(b1) {
                    Err(e) => Err(e),
                    Ok(p) => Ok(BetModel { potential_profit: p, ..b1 }),
                }
            },
        }
    }
}

/// The levels after the level at `index` was replaced by `level`: a level
/// with no bet left is dropped, the last level taking its place.
pub open spec fn updated_levels(levels: Seq<LevelModel>, index: int, level: LevelModel) -> Seq<
    LevelModel,
> {
    if level.bet_nonces.len() > 0 {
        levels.update(index, level)
    } else if index < levels.len() - 1 {
        levels.update(index, levels.last()).drop_last()
    } else {
        levels.drop_last()
    }
}

/// The state of a pass over the bets of one level.
pub struct LevelRun {
    pub bets: Map<u64, BetModel>,
    pub parts: Seq<MatchedPart>,
    pub kept: Seq<u64>,
    pub total: int,
    pub left: int,
    pub err: Option<ContractError>,
}

/// The bet being matched, as the matches record it: its bettor, odds, NFT
/// and payment nonces, and the time of the match.
pub struct Taker {
    pub bettor: Address,
    pub odd: u128,
    pub nft_nonce: u64,
    pub payment_nonce: u64,
    pub at: u64,
}

/// The bet `b` being matched at time `now`.
pub open spec fn taker_of(b: BetModel, now: u64) -> Taker {
    Taker { bettor: b.bettor, odd: b.odd, nft_nonce: b.nft_nonce, payment_nonce: b.payment_nonce, at: now }
}

/// The matched part that a bet of the level records when `tk` takes `m` of it.
pub open spec fn maker_part(b: BetModel, tk: Taker, m: u128) -> MatchedPart {
    MatchedPart {
        amount: m,
        odds: b.odd,
        counterparty: Some(
            Counterparty { bettor: tk.bettor, bet_id: tk.nft_nonce, payment_nonce: tk.payment_nonce, matched_at: tk.at },
        ),
    }
}

/// The matched part that the taking bet records when it takes `m` of `b`.
pub open spec fn taker_part(b: BetModel, tk: Taker, m: u128) -> MatchedPart {
    MatchedPart {
        amount: m,
        odds: tk.odd,
        counterparty: Some(
            Counterparty { bettor: b.bettor, bet_id: b.nft_nonce, payment_nonce: b.payment_nonce, matched_at: tk.at },
        ),
    }
}

/// The pass over one bet of a level, `st.left` being what is still to be
/// matched at the level by the bet `tk`: a bet with an open stake is matched
/// for the smaller of its open stake and what is left, both bets record the
/// match, what is left goes down by it, and the bet stays on the level while
/// some of its stake is still open.
pub open spec fn level_step(st: LevelRun, nonce: u64, tk: Taker) -> LevelRun {
    if st.err is Some {
        st
    } else if !st.bets.contains_key(nonce) {
        LevelRun { err: Some(ContractError::StorageDecode), ..st }
    } else {
        let b = st.bets[nonce];
        if b.total_matched > b.stake_amount {
            LevelRun { err: Some(ContractError::NegativeAmount), ..st }
        } else {
            let open = b.stake_amount - b.total_matched;
            let m = if open < st.left {
                open
            } else {
                st.left
            };
            if m <= 0 {
                st
            } else {
                let b1 = BetModel { matched_parts: b.matched_parts.push(maker_part(b, tk, m as u128)), ..b };
                match counterparty_update(b1, m as u128) {
                    Err(e) => LevelRun { err: Some(e), ..st },
                    Ok(b2) => {
                        let rest = b2.stake_amount - b2.total_matched;
                        let parts = st.parts.push(taker_part(b, tk, m as u128));
                        if rest > 0 && st.total + rest > u128::MAX {
                            LevelRun { err: Some(ContractError::AmountOverflow), ..st }
                        } else if rest > 0 {
                            LevelRun {
                                bets: st.bets.insert(nonce, b2),
                                parts,
                                kept: st.kept.push(nonce),
                                total: st.total + rest,
                                left: st.left - m,
                                err: None,
                            }
                        } else {
                            LevelRun { bets: st.bets.insert(nonce, b2), parts, left: st.left - m, ..st }
                        }
                    },
                }
            }
        }
    }
}

/// The pass over the bets `nonces[k..]` of a level.
pub open spec fn level_run(st: LevelRun, nonces: Seq<u64>, k: int, tk: Taker) -> LevelRun
    decreases nonces.len() - k,
{
    if k < 0 || k >= nonces.len() {
        st
    } else {
        level_run(level_step(st, nonces[k], tk), nonces, k + 1, tk)
    }
}

/// The first index of a level at `odds`, if any.
pub open spec fn level_index(levels: Seq<LevelModel>, odds: u128) -> Option<int> {
    if exists|i: int| 0 <= i < levels.len() && levels[i].odds == odds {
        Some(
            choose|i: int|
                0 <= i < levels.len() && levels[i].odds == odds && forall|j: int|
                    0 <= j < i ==> levels[j].odds != odds,
        )
    } else {
        None
    }
}

pub proof fn lemma_level_index(levels: Seq<LevelModel>, odds: u128, i: int)
    requires
        0 <= i < levels.len(),
        levels[i].odds == odds,
        forall|j: int| 0 <= j < i ==> levels[j].odds != odds,
    ensures
        level_index(levels, odds) == Some(i),
{
    let k = choose|k: int|
        0 <= k < levels.len() && levels[k].odds == odds && forall|j: int|
            0 <= j < k ==> levels[j].odds != odds;
    assert(k == i) by {
        if k < i {
            assert(levels[k].odds != odds);
        } else if k > i {
            assert(levels[i].odds != odds);
        }
    }
}

pub proof fn lemma_level_index_some(levels: Seq<LevelModel>, odds: u128)
    ensures
        match level_index(levels, odds) {
            Some(i) => 0 <= i < levels.len() && levels[i].odds == odds && forall|j: int|
                0 <= j < i ==> levels[j].odds != odds,
            None => forall|j: int| 0 <= j < levels.len() ==> levels[j].odds != odds,
        },
{
    if exists|i: int| 0 <= i < levels.len() && levels[i].odds == odds {
        let w = choose|i: int| 0 <= i < levels.len() && levels[i].odds == odds;
        lemma_first_index(levels, odds, w);
    }
}

proof fn lemma_first_index(levels: Seq<LevelModel>, odds: u128, w: int)
    requires
        0 <= w < levels.len(),
        levels[w].odds == odds,
    ensures
        exists|i: int|
            0 <= i < levels.len() && levels[i].odds == odds && forall|j: int|
                0 <= j < i ==> levels[j].odds != odds,
    decreases w,
{
    if exists|j: int| 0 <= j < w && levels[j].odds == odds {
        let j = choose|j: int| 0 <= j < w && levels[j].odds == odds;
        lemma_first_index(levels, odds, j);
    } else {
        assert(forall|j: int| 0 <= j < w ==> levels[j].odds != odds);
    }
}

/// The profit a bet stands to make on what has been matched of it.
pub fn calculate_total_potential_profit(bet: &Bet) -> (r: Result<u128, ContractError>)
    ensures
        r == potential_profit_result(bet@),
{
    match bet.bet_type {
        BetType::Back => {
            if bet.odd < 100 {
                return Err(ContractError::NegativeAmount);
            }
            match bet.total_matched.checked_mul(bet.odd - 100) {
                Some(p) => Ok(p / 100),
                None => Err(ContractError::AmountOverflow),
            }
        },
        BetType::Lay => Ok(bet.total_matched),
    }
}

/// A back bet stands to win its matched amount times the odds above 1.00,
/// rounded down to a whole unit, so its profit follows its odds: above 2.00
/// it exceeds the matched amount (from a hundred units matched on), at 2.00
/// it equals it, below 2.00 it stays under it. A lay bet stands to win the
/// amount matched of it.
pub proof fn lemma_potential_profit_follows_odds(b: BetModel)
    requires
        b.bet_type == BetType::Back ==> b.odd >= 100 && b.total_matched * (b.odd - 100) <= u128::MAX,
    ensures
        potential_profit_result(b) is Ok,
        b.bet_type == BetType::Back ==> potential_profit_result(b)->Ok_0 * 100 <= b.total_matched * (
        b.odd - 100) < potential_profit_result(b)->Ok_0 * 100 + 100,
        b.bet_type == BetType::Back && b.odd > 200 && b.total_matched >= 100 ==> potential_profit_result(
            b,
        )->Ok_0 > b.total_matched,
        b.bet_type == BetType::Back && b.odd == 200 ==> potential_profit_result(b)->Ok_0
            == b.total_matched,
        b.bet_type == BetType::Back && b.odd < 200 ==> potential_profit_result(b)->Ok_0
            <= b.total_matched,
        b.bet_type == BetType::Lay ==> potential_profit_result(b) == Ok::<u128, ContractError>(
            b.total_matched,
        ),
{
    if b.bet_type == BetType::Back {
        let p = potential_profit_result(b)->Ok_0 as int;
        let t = b.total_matched as int;
        let o = b.odd as int;
        assert(p * 100 <= t * (o - 100) < p * 100 + 100) by (nonlinear_arith)
            requires
                p == t * (o - 100) / 100,
                t * (o - 100) >= 0,
        ;
        assert(o > 200 && t >= 100 ==> p > t) by (nonlinear_arith)
            requires
                p * 100 <= t * (o - 100) < p * 100 + 100,
                t >= 0,
        ;
        assert(o == 200 ==> p == t) by (nonlinear_arith)
            requires
                p * 100 <= t * (o - 100) < p * 100 + 100,
                t >= 0,
        ;
        assert(o < 200 ==> p <= t) by (nonlinear_arith)
            requires
                p * 100 <= t * (o - 100) < p * 100 + 100,
                t >= 0,
        ;
    }
}

/// The liability left open on part of a bet's stake: none for a back bet;
/// for a lay bet that part times its odds above 1.00, rounded down to a
/// whole unit.
pub proof fn lemma_remaining_liability_at_odds(b: BetModel, remaining: u128)
    requires
        b.bet_type == BetType::Lay ==> b.odd >= 100 && remaining * (b.odd - 100) <= u128::MAX,
    ensures
        b.bet_type == BetType::Back ==> remaining_liability_result(b, remaining) == Ok::<u128, ContractError>(0),
        b.bet_type == BetType::Lay ==> remaining_liability_result(b, remaining) is Ok
            && remaining_liability_result(b, remaining)->Ok_0 * 100 <= remaining * (b.odd - 100)
            < remaining_liability_result(b, remaining)->Ok_0 * 100 + 100,
{
    if b.bet_type == BetType::Lay {
        let l = remaining_liability_result(b, remaining)->Ok_0 as int;
        let r = remaining as int;
        let o = b.odd as int;
        assert(l * 100 <= r * (o - 100) < l * 100 + 100) by (nonlinear_arith)
            requires
                l == r * (o - 100) / 100,
                r * (o - 100) >= 0,
        ;
    }
}

/// A bet matched further against a new bet has its potential profit
/// computed again on its new matched total: for a back bet that total times
/// its odds above 1.00 (rounded down to a whole unit), for a lay bet the
/// total itself.
pub proof fn lemma_counterparty_profit(b: BetModel, m: u128)
    requires
        counterparty_update(b, m) is Ok,
    ensures
        counterparty_update(b, m)->Ok_0.total_matched == b.total_matched + m,
        counterparty_update(b, m)->Ok_0.odd == b.odd,
        b.bet_type == BetType::Back ==> counterparty_update(b, m)->Ok_0.potential_profit * 100 <= (
        b.total_matched + m) * (b.odd - 100) < counterparty_update(b, m)->Ok_0.potential_profit * 100
            + 100,
        b.bet_type == BetType::Lay ==> counterparty_update(b, m)->Ok_0.potential_profit
            == b.total_matched + m,
{
    let tm = (b.total_matched + m) as u128;
    let b2 = counterparty_update(b, m)->Ok_0;
    let paid: Result<u128, ContractError> = if b.bet_type == BetType::Lay {
        if b.stake_amount == 0 {
            Err(ContractError::DivisionByZero)
        } else {
            let share = b.total_amount * (m / b.stake_amount);
            if share > u128::MAX {
                Err(ContractError::AmountOverflow)
            } else if share > b.total_amount {
                Err(ContractError::NegativeAmount)
            } else {
                Ok((b.total_amount - share) as u128)
            }
        }
    } else {
        Ok(b.total_amount)
    };
    let b1 = BetModel {
        total_matched: tm,
        total_amount: paid->Ok_0,
        status: if tm == b.stake_amount {
            BetStatus::Matched
        } else {
            BetStatus::PartiallyMatched
        },
        ..b
    };
    assert(potential_profit_result(b1) is Ok);
    lemma_potential_profit_follows_odds(b1);
    assert(b2.potential_profit == potential_profit_result(b1)->Ok_0);
}

/// The liability still open on `remaining` of a bet's stake.
pub fn calculate_remaining_liability(bet: &Bet, remaining: &u128) -> (r: Result<u128, ContractError>)
    ensures
        r == remaining_liability_result(bet@, *remaining),
{
    match bet.bet_type {
        BetType::Back => Ok(0),
        BetType::Lay => {
            if bet.odd < 100 {
                return Err(ContractError::NegativeAmount);
            }
            match remaining.checked_mul(bet.odd - 100) {
                Some(p) => Ok(p / 100),
                None => Err(ContractError::AmountOverflow),
            }
        },
    }
}

/// Records a match of `match_amount` on both bets, each at its own odds and
/// with the other bet as its counterparty, at `timestamp`.
pub fn add_matched_part(bet: &mut Bet, matched_bet: &mut Bet, match_amount: &u128, timestamp: u64)
    ensures
        final(bet)@ == (BetModel {
            matched_parts: old(bet).matched_parts@.push(
                taker_part(old(matched_bet)@, taker_of(old(bet)@, timestamp), *match_amount),
            ),
            ..old(bet)@
        }),
        final(matched_bet)@ == (BetModel {
            matched_parts: old(matched_bet).matched_parts@.push(
                maker_part(old(matched_bet)@, taker_of(old(bet)@, timestamp), *match_amount),
            ),
            ..old(matched_bet)@
        }),
{
    let taken = MatchedPart {
        amount: *match_amount,
        odds: bet.odd,
        counterparty: Some(
            Counterparty {
                bettor: matched_bet.bettor,
                bet_id: matched_bet.nft_nonce,
                payment_nonce: matched_bet.payment_nonce,
                matched_at: timestamp,
            },
        ),
    };
    let made = MatchedPart {
        amount: *match_amount,
        odds: matched_bet.odd,
        counterparty: Some(
            Counterparty { bettor: bet.bettor, bet_id: bet.nft_nonce, payment_nonce: bet.payment_nonce, matched_at: timestamp },
        ),
    };
    bet.matched_parts.push(taken);
    matched_bet.matched_parts.push(made);
}

/// Brings a counterparty bet up to date after `match_amount` more of its
/// stake was matched.
pub fn update_matched_bet(matched_bet: &mut Bet, match_amount: &u128) -> (r: Result<(), ContractError>)
    ensures
        match counterparty_update(old(matched_bet)@, *match_amount) {
            Ok(b) => r is Ok && final(matched_bet)@ == b,
            Err(e) => r == Err::<(), ContractError>(e) && final(matched_bet)@ == old(matched_bet)@,
        },
{
    let saved = matched_bet.clone();
    let r = apply_matched_update(matched_bet, match_amount);
    if r.is_err() {
        *matched_bet = saved;
    }
    r
}

fn apply_matched_update(matched_bet: &mut Bet, match_amount: &u128) -> (r: Result<(), ContractError>)
    ensures
        match counterparty_update(old(matched_bet)@, *match_amount) {
            Ok(b) => r is Ok && final(matched_bet)@ == b,
            Err(e) => r == Err::<(), ContractError>(e),
        },
{
    let tm = match matched_bet.total_matched.checked_add(*match_amount) {
        Some(v) => v,
        None => return Err(ContractError::AmountOverflow),
    };
    matched_bet.total_matched = tm;
    if matched_bet.bet_type == BetType::Lay {
        if matched_bet.stake_amount == 0 {
            return Err(ContractError::DivisionByZero);
        }
        let ratio = *match_amount / matched_bet.stake_amount;
        let share = match matched_bet.total_amount.checked_mul(ratio) {
            Some(v) => v,
            None => return Err(ContractError::AmountOverflow),
        };
        if share > matched_bet.total_amount {
            return Err(ContractError::NegativeAmount);
        }
        matched_bet.total_amount = matched_bet.total_amount - share;
    }
    matched_bet.status = if matched_bet.total_matched == matched_bet.stake_amount {
        BetStatus::Matched
    } else {
        BetStatus::PartiallyMatched
    };
    let p = calculate_total_potential_profit(matched_bet)?;
    matched_bet.potential_profit = p;
    Ok(())
}

/// Puts `level` back at `index`, or drops it when no bet is left on it, the
/// last level taking its place.
pub fn update_opposite_levels(opposite_levels: &mut Vec<PriceLevel>, index: usize, level: PriceLevel)
    requires
        index < old(opposite_levels).len(),
    ensures
        levels_view(final(opposite_levels)@) == updated_levels(
            levels_view(old(opposite_levels)@),
            index as int,
            level@,
        ),
{
    let ghost before = opposite_levels@;
    if !level.bet_nonces.is_empty() {
        opposite_levels.set(index, level);
        assert(levels_view(opposite_levels@) =~= levels_view(before).update(index as int, level@));
    } else {
        opposite_levels.swap_remove(index);
        assert(levels_view(opposite_levels@) =~= updated_levels(levels_view(before), index as int, level@));
    }
}

/// The index of the first level at `odds`, if any.
pub fn find_level_index(levels: &Vec<PriceLevel>, odds: &u128) -> (r: Option<usize>)
    ensures
        match r {
            Some(i) => level_index(levels_view(levels@), *odds) == Some(i as int),
            None => level_index(levels_view(levels@), *odds) is None,
        },
{
    let mut i: usize = 0;
    while i < levels.len()
        invariant
            0 <= i <= levels@.len(),
            forall|j: int| 0 <= j < i ==> #[trigger] levels@[j].odds != *odds,
        decreases levels.len() - i,
    {
        if levels[i].odds == *odds {
            proof {
                lemma_level_index(levels_view(levels@), *odds, i as int);
            }
            return Some(i);
        }
        i = i + 1;
    }
    assert(!exists|j: int|
        0 <= j < levels_view(levels@).len() && levels_view(levels@)[j].odds == *odds) by {
        assert forall|j: int| 0 <= j < levels_view(levels@).len() implies levels_view(levels@)[j].odds
            != *odds by {
            assert(levels_view(levels@)[j] == levels@[j]@);
        }
    }
    None
}

/// A pass that has failed stays failed with the same error.
pub proof fn lemma_level_run_err(st: LevelRun, nonces: Seq<u64>, k: int, tk: Taker)
    requires
        st.err is Some,
    ensures
        level_run(st, nonces, k, tk) == st,
    decreases nonces.len() - k,
{
    if 0 <= k < nonces.len() {
        lemma_level_run_err(level_step(st, nonces[k], tk), nonces, k + 1, tk);
    }
}

/// The outcome of a pass as a result.
pub open spec fn run_result(err: Option<ContractError>) -> Result<(), ContractError> {
    match err {
        Some(e) => Err(e),
        None => Ok(()),
    }
}

/// The pass over a whole level, from the given bets and matched parts, when
/// `amount` is matched at the level by the bet `tk`.
pub open spec fn level_pass(bets: Map<u64, BetModel>, parts: Seq<MatchedPart>, nonces: Seq<u64>, amount: u128, tk: Taker) -> LevelRun {
    level_run(LevelRun { bets, parts, kept: Seq::empty(), total: 0, left: amount as int, err: None }, nonces, 0, tk)
}

/// The state of a pass over the opposite levels of a bet.
pub struct MatchRun {
    pub levels: Seq<LevelModel>,
    pub i: int,
    pub total_matched: int,
    pub remaining: int,
    pub bets: Map<u64, BetModel>,
    pub parts: Seq<MatchedPart>,
    pub err: Option<ContractError>,
}

/// The pass over level `i`: at the bet's odds, the smaller of the open
/// remainder and the level's stake is matched against the level's bets, and
/// the level is replaced by what is left of it.
pub open spec fn match_step(st: MatchRun, tk: Taker) -> MatchRun {
    let level = st.levels[st.i];
    if level.odds != tk.odd {
        MatchRun { i: st.i + 1, ..st }
    } else {
        let to_match = if st.remaining < level.total_stake {
            st.remaining
        } else {
            level.total_stake as int
        };
        if to_match <= 0 {
            MatchRun { i: st.i + 1, ..st }
        } else if st.total_matched + to_match > u128::MAX {
            MatchRun { err: Some(ContractError::AmountOverflow), ..st }
        } else {
            let lr = level_pass(st.bets, st.parts, level.bet_nonces, to_match as u128, tk);
            match lr.err {
                Some(e) => MatchRun { err: Some(e), ..st },
                None => MatchRun {
                    levels: updated_levels(
                        st.levels,
                        st.i,
                        LevelModel {
                            odds: level.odds,
                            total_stake: lr.total as u128,
                            bet_nonces: lr.kept,
                        },
                    ),
                    i: st.i + 1,
                    total_matched: st.total_matched + to_match,
                    remaining: st.remaining - to_match,
                    bets: lr.bets,
                    parts: lr.parts,
                    err: None,
                },
            }
        }
    }
}

/// The pass over the levels from `st.i` on, while some of the bet is open.
pub open spec fn match_run(st: MatchRun, tk: Taker) -> MatchRun
    decreases st.levels.len() + 1 - st.i,
{
    if st.err is Some || st.i < 0 || st.i >= st.levels.len() || st.remaining <= 0 {
        st
    } else {
        let nx = match_step(st, tk);
        if nx.err is Some {
            nx
        } else {
            match_run(nx, tk)
        }
    }
}

/// The storage of a selection after the levels opposite to a bet of type
/// `bet_type` were replaced by `levels`.
pub open spec fn with_opposite_levels(st: SelectionStorageModel, bet_type: BetType, levels: Seq<LevelModel>) -> SelectionStorageModel {
    match bet_type {
        BetType::Back => SelectionStorageModel { lay_levels: levels, ..st },
        BetType::Lay => SelectionStorageModel { back_levels: levels, ..st },
    }
}

/// The levels opposite to a bet of type `bet_type`.
pub open spec fn opposite_levels_of(st: SelectionStorageModel, bet_type: BetType) -> Seq<LevelModel> {
    match bet_type {
        BetType::Back => st.lay_levels,
        BetType::Lay => st.back_levels,
    }
}

/// The levels of the bet's own side.
pub open spec fn own_levels_of(st: SelectionStorageModel, bet_type: BetType) -> Seq<LevelModel> {
    match bet_type {
        BetType::Back => st.back_levels,
        BetType::Lay => st.lay_levels,
    }
}

/// The liquidity of the bet's own side.
pub open spec fn own_liquidity_of(st: SelectionStorageModel, bet_type: BetType) -> u128 {
    match bet_type {
        BetType::Back => st.back_liquidity,
        BetType::Lay => st.lay_liquidity,
    }
}

/// The storage of a selection with the levels and liquidity of the bet's own
/// side replaced.
pub open spec fn with_own_side(st: SelectionStorageModel, bet_type: BetType, levels: Seq<LevelModel>, liquidity: u128) -> SelectionStorageModel {
    match bet_type {
        BetType::Back => SelectionStorageModel { back_levels: levels, back_liquidity: liquidity, ..st },
        BetType::Lay => SelectionStorageModel { lay_levels: levels, lay_liquidity: liquidity, ..st },
    }
}

/// The own side of the selection after its levels were replaced by `levels`
/// and `change` was added to its liquidity.
pub open spec fn levels_and_liquidity_result(st: SelectionStorageModel, bet_type: BetType, levels: Seq<LevelModel>, change: u128) -> Result<SelectionStorageModel, ContractError> {
    if own_liquidity_of(st, bet_type) + change > u128::MAX {
        Err(ContractError::AmountOverflow)
    } else {
        Ok(with_own_side(st, bet_type, levels, (own_liquidity_of(st, bet_type) + change) as u128))
    }
}

/// The selection's storage after the open stake of a bet was put on the
/// level of its side at its odds: onto the existing level, or onto a new
/// level at the end.
pub open spec fn orderbook_add_result(st: SelectionStorageModel, b: BetModel) -> Result<SelectionStorageModel, ContractError> {
    if b.total_matched > b.stake_amount {
        Err(ContractError::NegativeAmount)
    } else {
        let open = (b.stake_amount - b.total_matched) as u128;
        let levels = own_levels_of(st, b.bet_type);
        if open == 0 {
            Ok(st)
        } else {
            match level_index(levels, b.odd) {
                Some(i) => if levels[i].total_stake + open > u128::MAX {
                    Err(ContractError::AmountOverflow)
                } else {
                    levels_and_liquidity_result(
                        st,
                        b.bet_type,
                        levels.update(
                            i,
                            LevelModel {
                                odds: levels[i].odds,
                                total_stake: (levels[i].total_stake + open) as u128,
                                bet_nonces: levels[i].bet_nonces.push(b.bet_id),
                            },
                        ),
                        open,
                    )
                },
                None => levels_and_liquidity_result(
                    st,
                    b.bet_type,
                    levels.push(LevelModel { odds: b.odd, total_stake: open, bet_nonces: seq![b.bet_id] }),
                    open,
                ),
            }
        }
    }
}

/// The nonces of `s`, in order, other than `id`.
pub open spec fn nonces_without(s: Seq<u64>, id: u64) -> Seq<u64>
    decreases s.len(),
{
    if s.len() == 0 {
        s
    } else if s.last() != id {
        nonces_without(s.drop_last(), id).push(s.last())
    } else {
        nonces_without(s.drop_last(), id)
    }
}

/// The selection's storage after a bet was taken off the level of its side
/// at its odds: its open stake comes off that level and off the side's
/// liquidity, the bet leaves the level's list of bets, and a level left
/// with no bet is dropped. Without a level at its odds nothing changes.
pub open spec fn orderbook_remove_result(st: SelectionStorageModel, b: BetModel) -> Result<SelectionStorageModel, ContractError> {
    if b.total_matched > b.stake_amount {
        Err(ContractError::NegativeAmount)
    } else {
        let open = (b.stake_amount - b.total_matched) as u128;
        let levels = own_levels_of(st, b.bet_type);
        match level_index(levels, b.odd) {
            None => Ok(st),
            Some(i) => if levels[i].total_stake < open || own_liquidity_of(st, b.bet_type) < open {
                Err(ContractError::NegativeAmount)
            } else {
                Ok(
                    with_own_side(
                        st,
                        b.bet_type,
                        updated_levels(
                            levels,
                            i,
                            LevelModel {
                                odds: levels[i].odds,
                                total_stake: (levels[i].total_stake - open) as u128,
                                bet_nonces: nonces_without(levels[i].bet_nonces, b.bet_id),
                            },
                        ),
                        (own_liquidity_of(st, b.bet_type) - open) as u128,
                    ),
                )
            },
        }
    }
}

/// Taking an id that a list lacks out of it leaves the list as it was.
pub proof fn lemma_nonces_without_absent(s: Seq<u64>, id: u64)
    requires
        !s.contains(id),
    ensures
        nonces_without(s, id) == s,
    decreases s.len(),
{
    if s.len() > 0 {
        assert(!s.drop_last().contains(id)) by {
            if s.drop_last().contains(id) {
                let k = choose|k: int| 0 <= k < s.drop_last().len() && s.drop_last()[k] == id;
                assert(s[k] == id);
            }
        }
        lemma_nonces_without_absent(s.drop_last(), id);
        assert(s.last() != id) by {
            assert(s[s.len() - 1] == s.last());
        }
        assert(s.drop_last().push(s.last()) =~= s);
    }
}

/// Taking a bet off the order book right after it was put on gives back
/// the selection's storage as it was, when the level at its odds, if there
/// is one, holds some bet and not this one.
pub proof fn lemma_remove_undoes_add(st: SelectionStorageModel, b: BetModel)
    requires
        b.total_matched < b.stake_amount,
        orderbook_add_result(st, b) is Ok,
        match level_index(own_levels_of(st, b.bet_type), b.odd) {
            Some(i) => own_levels_of(st, b.bet_type)[i].bet_nonces.len() > 0 && !own_levels_of(
                st,
                b.bet_type,
            )[i].bet_nonces.contains(b.bet_id),
            None => true,
        },
    ensures
        orderbook_remove_result(orderbook_add_result(st, b)->Ok_0, b) == Ok::<SelectionStorageModel, ContractError>(st),
{
    let levels = own_levels_of(st, b.bet_type);
    let liq = own_liquidity_of(st, b.bet_type);
    let open = (b.stake_amount - b.total_matched) as u128;
    lemma_level_index_some(levels, b.odd);
    let (nl, i) = match level_index(levels, b.odd) {
        Some(i) => (
            levels.update(
                i,
                LevelModel {
                    odds: levels[i].odds,
                    total_stake: (levels[i].total_stake + open) as u128,
                    bet_nonces: levels[i].bet_nonces.push(b.bet_id),
                },
            ),
            i,
        ),
        None => (
            levels.push(LevelModel { odds: b.odd, total_stake: open, bet_nonces: seq![b.bet_id] }),
            levels.len() as int,
        ),
    };
    let added = with_own_side(st, b.bet_type, nl, (liq + open) as u128);
    assert(orderbook_add_result(st, b) == Ok::<SelectionStorageModel, ContractError>(added));
    assert(own_levels_of(added, b.bet_type) == nl && own_liquidity_of(added, b.bet_type) == liq + open) by {
        match b.bet_type {
            BetType::Back => {},
            BetType::Lay => {},
        }
    }
    assert forall|j: int| 0 <= j < i implies nl[j].odds != b.odd by {
        assert(nl[j] == levels[j]);
    }
    lemma_level_index(nl, b.odd, i);
    let kept = LevelModel {
        odds: nl[i].odds,
        total_stake: (nl[i].total_stake - open) as u128,
        bet_nonces: nonces_without(nl[i].bet_nonces, b.bet_id),
    };
    match level_index(levels, b.odd) {
        Some(_) => {
            lemma_nonces_without_absent(levels[i].bet_nonces, b.bet_id);
            assert(levels[i].bet_nonces.push(b.bet_id).drop_last() =~= levels[i].bet_nonces);
            assert(nl[i].bet_nonces == levels[i].bet_nonces.push(b.bet_id));
            assert(kept.bet_nonces == levels[i].bet_nonces);
            assert(kept == levels[i]);
            assert(updated_levels(nl, i, kept) =~= levels);
        },
        None => {
            assert(nonces_without(seq![b.bet_id], b.bet_id) =~= Seq::<u64>::empty()) by {
                reveal_with_fuel(nonces_without, 2);
                assert(seq![b.bet_id].drop_last() =~= Seq::<u64>::empty());
                assert(seq![b.bet_id].last() == b.bet_id);
            }
            assert(nl[i].bet_nonces == seq![b.bet_id]);
            assert(updated_levels(nl, i, kept) =~= levels);
        },
    }
    assert(with_own_side(added, b.bet_type, levels, liq) == st) by {
        match b.bet_type {
            BetType::Back => {},
            BetType::Lay => {},
        }
    }
}

/// The selection's storage after `amount` was added to its matched total,
/// which may not exceed the back liquidity.
pub open spec fn total_matched_result(st: SelectionStorageModel, amount: u128) -> Result<SelectionStorageModel, ContractError> {
    let t = st.total_matched_amount + amount;
    if t > u128::MAX {
        Err(ContractError::AmountOverflow)
    } else if t > st.back_liquidity {
        Err(ContractError::InvalidMatchedAmount)
    } else {
        Ok(SelectionStorageModel { total_matched_amount: t as u128, ..st })
    }
}

/// The bet and its selection's storage once the pass over the opposite
/// levels matched `tm` in all and left `remaining` open: a fully matched bet
/// keeps only its matched stake, the counter of the new status goes up, the
/// potential profit is computed again, the new matches (`tm` less what the
/// bet had matched before) are added to the selection's matched total, which
/// may not exceed its back liquidity, and an open remainder goes on the
/// bet's own side of the order book.
pub open spec fn status_and_totals_result(st: SelectionStorageModel, b: BetModel, tm: u128, remaining: u128) -> Result<(SelectionStorageModel, BetModel), ContractError> {
    let b1 = BetModel { total_matched: tm, ..b };
    let (st1, b2, over) = if remaining == 0 {
        (
            SelectionStorageModel { matched_count: (st.matched_count + 1) as u64, ..st },
            BetModel {
                stake_amount: tm,
                total_amount: if b.bet_type == BetType::Back {
                    tm
                } else {
                    b.total_amount
                },
                status: BetStatus::Matched,
                ..b1
            },
            st.matched_count + 1 > u64::MAX,
        )
    } else if tm > 0 {
        (
            SelectionStorageModel { partially_matched_count: (st.partially_matched_count + 1) as u64, ..st },
            BetModel { status: BetStatus::PartiallyMatched, ..b1 },
            st.partially_matched_count + 1 > u64::MAX,
        )
    } else {
        (
            SelectionStorageModel { unmatched_count: (st.unmatched_count + 1) as u64, ..st },
            BetModel { status: BetStatus::Unmatched, ..b1 },
            st.unmatched_count + 1 > u64::MAX,
        )
    };
    if over {
        Err(ContractError::CounterOverflow)
    } else {
        match potential_profit_result(b2) {
            Err(e) => Err(e),
            Ok(p) => {
                let b3 = BetModel { potential_profit: p, ..b2 };
                let checked = if tm > 0 {
                    if tm < b.total_matched {
                        Err(ContractError::NegativeAmount)
                    } else {
                        total_matched_result(st1, (tm - b.total_matched) as u128)
                    }
                } else {
                    Ok(st1)
                };
                match checked {
                    Err(e) => Err(e),
                    Ok(st2) => if remaining > 0 {
                        match orderbook_add_result(st2, b3) {
                            Err(e) => Err(e),
                            Ok(st3) => Ok((st3, b3)),
                        }
                    } else {
                        Ok((st2, b3))
                    },
                }
            },
        }
    }
}

/// The nonces of `nonces`, in order, other than `id`.
pub fn nonces_other_than(nonces: &Vec<u64>, id: u64) -> (r: Vec<u64>)
    ensures
        r@ == nonces_without(nonces@, id),
{
    let mut out: Vec<u64> = Vec::new();
    let mut i: usize = 0;
    assert(nonces@.take(0) =~= Seq::<u64>::empty());
    while i < nonces.len()
        invariant
            0 <= i <= nonces@.len(),
            out@ == nonces_without(nonces@.take(i as int), id),
        decreases nonces.len() - i,
    {
        assert(nonces@.take(i + 1).drop_last() =~= nonces@.take(i as int));
        if nonces[i] != id {
            out.push(nonces[i]);
        }
        i = i + 1;
    }
    assert(nonces@.take(i as int) =~= nonces@);
    out
}

/// What processing a new bet gives: the bet after matching, the selection's
/// storage, the bets of the store, the amount matched and the amount left
/// open.
pub struct ProcessOutcome {
    pub bet: BetModel,
    pub selection: SelectionStorageModel,
    pub bets: Map<u64, BetModel>,
    pub matched: u128,
    pub remaining: u128,
}

/// Processing a new bet: its open remainder is matched against the opposite
/// levels at its odds, its status and totals are set, an open remainder goes
/// on the order book, and the bet keeps as liability the liability of the
/// remainder that was open before matching.
pub open spec fn process_bet_result(
    bets: Map<u64, BetModel>,
    st: SelectionStorageModel,
    b: BetModel,
    now: u64,
) -> Result<ProcessOutcome, ContractError> {
    if b.total_matched > b.stake_amount {
        Err(ContractError::NegativeAmount)
    } else {
        let remaining = (b.stake_amount - b.total_matched) as u128;
        match remaining_liability_result(b, remaining) {
            Err(e) => Err(e),
            Ok(liability) => {
                let run = match_run(
                    MatchRun {
                        levels: opposite_levels_of(st, b.bet_type),
                        i: 0,
                        total_matched: b.total_matched as int,
                        remaining: remaining as int,
                        bets,
                        parts: b.matched_parts,
                        err: None,
                    },
                    taker_of(b, now),
                );
                match run.err {
                    Some(e) => Err(e),
                    None => {
                        let st1 = with_opposite_levels(st, b.bet_type, run.levels);
                        let b1 = BetModel { matched_parts: run.parts, ..b };
                        match status_and_totals_result(
                            st1,
                            b1,
                            run.total_matched as u128,
                            run.remaining as u128,
                        ) {
                            Err(e) => Err(e),
                            Ok((st2, b2)) => {
                                let b3 = BetModel { liability, ..b2 };
                                Ok(
                                    ProcessOutcome {
                                        bet: b3,
                                        selection: st2,
                                        bets: run.bets.insert(b3.bet_id, b3),
                                        matched: run.total_matched as u128,
                                        remaining: run.remaining as u128,
                                    },
                                )
                            },
                        }
                    },
                }
            },
        }
    }
}

/// A pass over the levels keeps its matched and open amounts within the
/// 128-bit range and never lets the open amount go below zero.
pub proof fn lemma_match_run_bounds(st: MatchRun, tk: Taker)
    requires
        0 <= st.total_matched <= u128::MAX,
        0 <= st.remaining <= u128::MAX,
    ensures
        0 <= match_run(st, tk).total_matched <= u128::MAX,
        0 <= match_run(st, tk).remaining <= u128::MAX,
    decreases st.levels.len() + 1 - st.i,
{
    if st.err is Some || st.i < 0 || st.i >= st.levels.len() || st.remaining <= 0 {
    } else {
        let nx = match_step(st, tk);
        if nx.err is None {
            assert(nx.levels.len() >= st.levels.len() - 1);
            lemma_match_run_bounds(nx, tk);
        }
    }
}

/// A pass over the levels moves stake from open to matched and loses none:
/// the matched and open amounts add up to what they added up to before.
pub proof fn lemma_match_run_conserves(st: MatchRun, tk: Taker)
    ensures
        match_run(st, tk).total_matched + match_run(st, tk).remaining == st.total_matched + st.remaining,
    decreases st.levels.len() + 1 - st.i,
{
    if st.err is Some || st.i < 0 || st.i >= st.levels.len() || st.remaining <= 0 {
    } else {
        let nx = match_step(st, tk);
        if nx.err is None {
            assert(nx.levels.len() >= st.levels.len() - 1);
            lemma_match_run_conserves(nx, tk);
        }
    }
}

/// A processed bet's matched and open amounts add up to its stake.
pub proof fn lemma_processed_bet_split(bets: Map<u64, BetModel>, st: SelectionStorageModel, b: BetModel, now: u64)
    requires
        process_bet_result(bets, st, b, now) is Ok,
    ensures
        process_bet_result(bets, st, b, now)->Ok_0.matched + process_bet_result(bets, st, b, now)->Ok_0.remaining
            == b.stake_amount,
{
    let remaining = (b.stake_amount - b.total_matched) as u128;
    let start = MatchRun {
        levels: opposite_levels_of(st, b.bet_type),
        i: 0,
        total_matched: b.total_matched as int,
        remaining: remaining as int,
        bets,
        parts: b.matched_parts,
        err: None,
    };
    lemma_match_run_conserves(start, taker_of(b, now));
    lemma_match_run_bounds(start, taker_of(b, now));
}

impl StorageModule {
    /// Processes a new bet: matches it against the opposite side of its
    /// selection, sets its status and totals, puts its open remainder on the
    /// order book and stores it under its id. A refusal leaves the storage
    /// as it was.
    pub fn process_bet(&mut self, bet: Bet, current_timestamp: u64) -> (r: Result<(Bet, u128, u128), ContractError>)
        ensures
            match process_bet_result(
                old(self).bets(),
                old(self).selection_state(bet.event, bet.selection.id),
                bet@,
                current_timestamp,
            ) {
                Ok(out) => r matches Ok((b, m, rem)) && {
                    &&& b@ == out.bet
                    &&& m == out.matched
                    &&& rem == out.remaining
                    &&& final(self).bets() == out.bets
                    &&& final(self).selection_state(bet.event, bet.selection.id) == out.selection
                    &&& final(self).same_indexes(old(self))
                    &&& forall|m: u64, s: u64|
                        !(m == bet.event && s == bet.selection.id) ==> #[trigger] final(self).selection_state(m, s)
                            == old(self).selection_state(m, s)
                },
                Err(e) => r matches Err(e2) && e2 == e && final(self).same_as(old(self)),
            },
    {
        let snapshot = self.snapshot();
        let r = self.try_process_bet(bet, current_timestamp);
        if r.is_err() {
            *self = snapshot;
        }
        r
    }

    fn try_process_bet(&mut self, bet: Bet, current_timestamp: u64) -> (r: Result<(Bet, u128, u128), ContractError>)
        ensures
            match process_bet_result(
                old(self).bets(),
                old(self).selection_state(bet.event, bet.selection.id),
                bet@,
                current_timestamp,
            ) {
                Ok(out) => r matches Ok((b, m, rem)) && {
                    &&& b@ == out.bet
                    &&& m == out.matched
                    &&& rem == out.remaining
                    &&& final(self).bets() == out.bets
                    &&& final(self).selection_state(bet.event, bet.selection.id) == out.selection
                    &&& final(self).same_indexes(old(self))
                    &&& forall|m: u64, s: u64|
                        !(m == bet.event && s == bet.selection.id) ==> #[trigger] final(self).selection_state(m, s)
                            == old(self).selection_state(m, s)
                },
                Err(e) => r matches Err(e2) && e2 == e,
            },
    {
        let mut bet = bet;
        let ghost b0 = bet@;
        let mut total_matched = bet.total_matched;
        if bet.total_matched > bet.stake_amount {
            return Err(ContractError::NegativeAmount);
        }
        let mut remaining = bet.stake_amount - bet.total_matched;
        let remaining_liability = calculate_remaining_liability(&bet, &remaining)?;
        let opposite_levels = self.get_opposite_levels(&bet);
        proof {
            lemma_match_run_bounds(
                MatchRun {
                    levels: levels_view(opposite_levels@),
                    i: 0,
                    total_matched: total_matched as int,
                    remaining: remaining as int,
                    bets: self.bets(),
                    parts: bet.matched_parts@,
                    err: None,
                },
                taker_of(bet@, current_timestamp),
            );
        }
        self.match_bet_against_levels(&mut bet, &mut total_matched, &mut remaining, opposite_levels, current_timestamp)?;
        self.update_bet_status_and_totals(&mut bet, &total_matched, &remaining)?;
        bet.liability = remaining_liability;
        let stored = bet.clone();
        self.put_bet(bet.bet_id, stored);
        Ok((bet, total_matched, remaining))
    }

    /// A copy of the levels of the bet's own side in its selection.
    pub fn get_own_levels(&self, bet: &Bet) -> (levels: Vec<PriceLevel>)
        ensures
            levels_view(levels@) == own_levels_of(
                self.selection_state(bet.event, bet.selection.id),
                bet.bet_type,
            ),
    {
        let k = crate::storage::selection_key_exec(bet.event, bet.selection.id);
        match self.selections.get(&k) {
            Some(st) => match bet.bet_type {
                BetType::Back => clone_levels(&st.back_levels),
                BetType::Lay => clone_levels(&st.lay_levels),
            },
            None => {
                let v: Vec<PriceLevel> = Vec::new();
                assert(levels_view(v@) =~= Seq::<LevelModel>::empty());
                v
            },
        }
    }

    /// Writes the levels of the bet's own side and adds `amount_change` to
    /// its liquidity.
    pub fn update_levels_and_liquidity(&mut self, bet: &Bet, levels: Vec<PriceLevel>, amount_change: u128) -> (r: Result<(), ContractError>)
        ensures
            match levels_and_liquidity_result(
                old(self).selection_state(bet.event, bet.selection.id),
                bet.bet_type,
                levels_view(levels@),
                amount_change,
            ) {
                Ok(st) => {
                    &&& r is Ok
                    &&& final(self).selection_state(bet.event, bet.selection.id) == st
                    &&& final(self).same_indexes(old(self))
                    &&& final(self).bets() == old(self).bets()
                    &&& forall|m: u64, s: u64|
                        !(m == bet.event && s == bet.selection.id) ==> #[trigger] final(self).selection_state(m, s)
                            == old(self).selection_state(m, s)
                },
                Err(e) => r == Err::<(), ContractError>(e) && final(self).same_as(old(self)),
            },
    {
        let mut st = self.take_selection(bet.event, bet.selection.id);
        match bet.bet_type {
            BetType::Back => {
                let liq = match st.back_liquidity.checked_add(amount_change) {
                    Some(v) => v,
                    None => {
                        self.put_selection(bet.event, bet.selection.id, st);
                        return Err(ContractError::AmountOverflow);
                    },
                };
                st.back_levels = levels;
                st.back_liquidity = liq;
            },
            BetType::Lay => {
                let liq = match st.lay_liquidity.checked_add(amount_change) {
                    Some(v) => v,
                    None => {
                        self.put_selection(bet.event, bet.selection.id, st);
                        return Err(ContractError::AmountOverflow);
                    },
                };
                st.lay_levels = levels;
                st.lay_liquidity = liq;
            },
        }
        self.put_selection(bet.event, bet.selection.id, st);
        Ok(())
    }

    /// Puts the open stake of a bet on the level of its side at its odds.
    pub fn add_to_orderbook(&mut self, bet: &Bet) -> (r: Result<(), ContractError>)
        ensures
            match orderbook_add_result(old(self).selection_state(bet.event, bet.selection.id), bet@) {
                Ok(st) => {
                    &&& r is Ok
                    &&& final(self).selection_state(bet.event, bet.selection.id) == st
                    &&& final(self).same_indexes(old(self))
                    &&& final(self).bets() == old(self).bets()
                    &&& forall|m: u64, s: u64|
                        !(m == bet.event && s == bet.selection.id) ==> #[trigger] final(self).selection_state(m, s)
                            == old(self).selection_state(m, s)
                },
                Err(e) => r == Err::<(), ContractError>(e) && final(self).same_as(old(self)),
            },
    {
        if bet.total_matched > bet.stake_amount {
            return Err(ContractError::NegativeAmount);
        }
        let unmatched_amount = bet.stake_amount - bet.total_matched;
        if unmatched_amount == 0 {
            return Ok(());
        }
        let mut levels = self.get_own_levels(bet);
        let ghost lv = levels_view(levels@);
        let level_index = find_level_index(&levels, &bet.odd);
        proof {
            lemma_level_index_some(lv, bet.odd);
        }
        match level_index {
            Some(i) => {
                assert(lv.len() == levels@.len());
                let mut level = levels[i].clone();
                assert(level@ == lv[i as int]);
                level.total_stake = match level.total_stake.checked_add(unmatched_amount) {
                    Some(v) => v,
                    None => return Err(ContractError::AmountOverflow),
                };
                level.bet_nonces.push(bet.bet_id);
                let ghost lm = level@;
                levels.set(i, level);
                assert(levels_view(levels@) =~= lv.update(i as int, lm));
            },
            None => {
                let mut nonces: Vec<u64> = Vec::new();
                nonces.push(bet.bet_id);
                let new_level = PriceLevel {
                    odds: bet.odd,
                    total_stake: unmatched_amount,
                    bet_nonces: nonces,
                };
                assert(new_level.bet_nonces@ =~= seq![bet.bet_id]);
                let ghost lm = new_level@;
                levels.push(new_level);
                assert(levels_view(levels@) =~= lv.push(lm));
            },
        }
        self.update_levels_and_liquidity(bet, levels, unmatched_amount)
    }

    /// Takes a bet off the level of its side at its odds (see
    /// `orderbook_remove_result`); a refusal leaves the storage as it was.
    pub fn remove_from_orderbook(&mut self, bet: &Bet) -> (r: Result<(), ContractError>)
        ensures
            match orderbook_remove_result(old(self).selection_state(bet.event, bet.selection.id), bet@) {
                Ok(st) => {
                    &&& r is Ok
                    &&& final(self).selection_state(bet.event, bet.selection.id) == st
                    &&& final(self).same_indexes(old(self))
                    &&& final(self).bets() == old(self).bets()
                    &&& forall|m: u64, s: u64|
                        !(m == bet.event && s == bet.selection.id) ==> #[trigger] final(self).selection_state(m, s)
                            == old(self).selection_state(m, s)
                },
                Err(e) => r == Err::<(), ContractError>(e) && final(self).same_as(old(self)),
            },
    {
        if bet.total_matched > bet.stake_amount {
            return Err(ContractError::NegativeAmount);
        }
        let unmatched_amount = bet.stake_amount - bet.total_matched;
        let mut levels = self.get_own_levels(bet);
        let ghost lv = levels_view(levels@);
        let level_index = find_level_index(&levels, &bet.odd);
        proof {
            lemma_level_index_some(lv, bet.odd);
        }
        match level_index {
            None => Ok(()),
            Some(i) => {
                assert(lv.len() == levels@.len());
                let mut level = levels[i].clone();
                assert(level@ == lv[i as int]);
                if level.total_stake < unmatched_amount {
                    return Err(ContractError::NegativeAmount);
                }
                level.total_stake = level.total_stake - unmatched_amount;
                let updated_nonces = nonces_other_than(&level.bet_nonces, bet.bet_id);
                level.bet_nonces = updated_nonces;
                update_opposite_levels(&mut levels, i, level);
                let mut st = self.take_selection(bet.event, bet.selection.id);
                match bet.bet_type {
                    BetType::Back => {
                        if st.back_liquidity < unmatched_amount {
                            self.put_selection(bet.event, bet.selection.id, st);
                            return Err(ContractError::NegativeAmount);
                        }
                        st.back_levels = levels;
                        st.back_liquidity = st.back_liquidity - unmatched_amount;
                    },
                    BetType::Lay => {
                        if st.lay_liquidity < unmatched_amount {
                            self.put_selection(bet.event, bet.selection.id, st);
                            return Err(ContractError::NegativeAmount);
                        }
                        st.lay_levels = levels;
                        st.lay_liquidity = st.lay_liquidity - unmatched_amount;
                    },
                }
                self.put_selection(bet.event, bet.selection.id, st);
                Ok(())
            },
        }
    }

    /// Adds `matched_amount` to the matched total of a selection, which may
    /// not exceed its back liquidity.
    pub fn update_total_matched(&mut self, market_id: u64, selection_id: u64, matched_amount: &u128) -> (r: Result<(), ContractError>)
        ensures
            match total_matched_result(old(self).selection_state(market_id, selection_id), *matched_amount) {
                Ok(st) => {
                    &&& r is Ok
                    &&& final(self).selection_state(market_id, selection_id) == st
                    &&& final(self).same_indexes(old(self))
                    &&& final(self).bets() == old(self).bets()
                    &&& forall|m: u64, s: u64|
                        !(m == market_id && s == selection_id) ==> #[trigger] final(self).selection_state(m, s)
                            == old(self).selection_state(m, s)
                },
                Err(e) => r == Err::<(), ContractError>(e) && final(self).same_as(old(self)),
            },
    {
        let mut st = self.take_selection(market_id, selection_id);
        let total = match st.total_matched_amount.checked_add(*matched_amount) {
            Some(t) => t,
            None => {
                self.put_selection(market_id, selection_id, st);
                return Err(ContractError::AmountOverflow);
            },
        };
        if total > st.back_liquidity {
            self.put_selection(market_id, selection_id, st);
            return Err(ContractError::InvalidMatchedAmount);
        }
        st.total_matched_amount = total;
        self.put_selection(market_id, selection_id, st);
        Ok(())
    }

    /// Sets a bet's matched total and status after matching, counts it under
    /// its new status, and puts its open remainder on the order book.
    pub fn update_bet_status_and_totals(&mut self, bet: &mut Bet, total_matched: &u128, remaining: &u128) -> (r: Result<(), ContractError>)
        ensures
            match status_and_totals_result(
                old(self).selection_state(old(bet).event, old(bet).selection.id),
                old(bet)@,
                *total_matched,
                *remaining,
            ) {
                Ok((st, b)) => {
                    &&& r is Ok
                    &&& final(bet)@ == b
                    &&& final(self).selection_state(old(bet).event, old(bet).selection.id) == st
                    &&& final(self).same_indexes(old(self))
                    &&& final(self).bets() == old(self).bets()
                    &&& forall|m: u64, s: u64|
                        !(m == old(bet).event && s == old(bet).selection.id) ==> #[trigger] final(self).selection_state(m, s)
                            == old(self).selection_state(m, s)
                },
                Err(e) => r == Err::<(), ContractError>(e) && final(self).same_as(old(self)) && final(bet)@ == old(bet)@,
            },
    {
        let saved = bet.clone();
        let snapshot = self.snapshot();
        let r = self.apply_status_and_totals(bet, total_matched, remaining);
        if r.is_err() {
            *self = snapshot;
            *bet = saved;
        }
        r
    }

    fn apply_status_and_totals(&mut self, bet: &mut Bet, total_matched: &u128, remaining: &u128) -> (r: Result<(), ContractError>)
        ensures
            match status_and_totals_result(
                old(self).selection_state(old(bet).event, old(bet).selection.id),
                old(bet)@,
                *total_matched,
                *remaining,
            ) {
                Ok((st, b)) => {
                    &&& r is Ok
                    &&& final(bet)@ == b
                    &&& final(self).selection_state(old(bet).event, old(bet).selection.id) == st
                    &&& final(self).same_indexes(old(self))
                    &&& final(self).bets() == old(self).bets()
                    &&& forall|m: u64, s: u64|
                        !(m == old(bet).event && s == old(bet).selection.id) ==> #[trigger] final(self).selection_state(m, s)
                            == old(self).selection_state(m, s)
                },
                Err(e) => r == Err::<(), ContractError>(e),
            },
    {
        let previous = bet.total_matched;
        bet.total_matched = *total_matched;
        let mut st = self.take_selection(bet.event, bet.selection.id);
        if *remaining == 0 {
            bet.stake_amount = *total_matched;
            if bet.bet_type == BetType::Back {
                bet.total_amount = *total_matched;
            }
            st.matched_count = match st.matched_count.checked_add(1) {
                Some(c) => c,
                None => return Err(ContractError::CounterOverflow),
            };
            bet.status = BetStatus::Matched;
        } else if *total_matched > 0 {
            st.partially_matched_count = match st.partially_matched_count.checked_add(1) {
                Some(c) => c,
                None => return Err(ContractError::CounterOverflow),
            };
            bet.status = BetStatus::PartiallyMatched;
        } else {
            st.unmatched_count = match st.unmatched_count.checked_add(1) {
                Some(c) => c,
                None => return Err(ContractError::CounterOverflow),
            };
            bet.status = BetStatus::Unmatched;
        }
        self.put_selection(bet.event, bet.selection.id, st);
        let p = calculate_total_potential_profit(bet)?;
        bet.potential_profit = p;
        if *total_matched > 0 {
            if *total_matched < previous {
                return Err(ContractError::NegativeAmount);
            }
            let new_matches = *total_matched - previous;
            self.update_total_matched(bet.event, bet.selection.id, &new_matches)?;
        }
        if *remaining > 0 {
            self.add_to_orderbook(bet)?;
        }
        Ok(())
    }

    /// A copy of the levels opposite to the bet in its selection.
    pub fn get_opposite_levels(&self, bet: &Bet) -> (levels: Vec<PriceLevel>)
        ensures
            levels_view(levels@) == opposite_levels_of(
                self.selection_state(bet.event, bet.selection.id),
                bet.bet_type,
            ),
    {
        let k = crate::storage::selection_key_exec(bet.event, bet.selection.id);
        match self.selections.get(&k) {
            Some(st) => match bet.bet_type {
                BetType::Back => clone_levels(&st.lay_levels),
                BetType::Lay => clone_levels(&st.back_levels),
            },
            None => {
                let v: Vec<PriceLevel> = Vec::new();
                assert(levels_view(v@) =~= Seq::<LevelModel>::empty());
                v
            },
        }
    }

    /// Writes the levels opposite to the bet in its selection.
    pub fn save_opposite_levels(&mut self, bet: &Bet, opposite_levels: Vec<PriceLevel>)
        ensures
            final(self).same_indexes(old(self)),
            final(self).bets() == old(self).bets(),
            final(self).selection_state(bet.event, bet.selection.id) == with_opposite_levels(
                old(self).selection_state(bet.event, bet.selection.id),
                bet.bet_type,
                levels_view(opposite_levels@),
            ),
            forall|m: u64, s: u64|
                !(m == bet.event && s == bet.selection.id) ==> #[trigger] final(self).selection_state(m, s)
                    == old(self).selection_state(m, s),
    {
        let mut st = self.take_selection(bet.event, bet.selection.id);
        match bet.bet_type {
            BetType::Back => st.lay_levels = opposite_levels,
            BetType::Lay => st.back_levels = opposite_levels,
        }
        self.put_selection(bet.event, bet.selection.id, st);
    }

    /// Matches the open remainder of a bet against the opposite levels at
    /// its odds, in level order, and writes back what is left of them.
    pub fn match_bet_against_levels(
        &mut self,
        bet: &mut Bet,
        total_matched: &mut u128,
        remaining: &mut u128,
        opposite_levels: Vec<PriceLevel>,
        current_timestamp: u64,
    ) -> (r: Result<(), ContractError>)
        ensures
            ({
                let run = match_run(
                    MatchRun {
                        levels: levels_view(opposite_levels@),
                        i: 0,
                        total_matched: *old(total_matched) as int,
                        remaining: *old(remaining) as int,
                        bets: old(self).bets(),
                        parts: old(bet).matched_parts@,
                        err: None,
                    },
                    taker_of(old(bet)@, current_timestamp),
                );
                &&& r == run_result(run.err)
                &&& r is Ok ==> {
                    &&& final(self).bets() == run.bets
                    &&& final(self).same_indexes(old(self))
                    &&& *final(total_matched) == run.total_matched
                    &&& *final(remaining) == run.remaining
                    &&& final(bet)@ == (BetModel { matched_parts: run.parts, ..old(bet)@ })
                    &&& final(self).selection_state(old(bet).event, old(bet).selection.id)
                        == with_opposite_levels(
                        old(self).selection_state(old(bet).event, old(bet).selection.id),
                        old(bet).bet_type,
                        run.levels,
                    )
                    &&& forall|m: u64, s: u64|
                        !(m == old(bet).event && s == old(bet).selection.id)
                            ==> #[trigger] final(self).selection_state(m, s)
                            == old(self).selection_state(m, s)
                }
            }),
    {
        let ghost bet0 = bet@;
        let ghost self0 = *self;
        let ghost init = MatchRun {
            levels: levels_view(opposite_levels@),
            i: 0,
            total_matched: *total_matched as int,
            remaining: *remaining as int,
            bets: self.bets(),
            parts: bet.matched_parts@,
            err: None,
        };
        let mut levels = opposite_levels;
        let mut i: usize = 0;
        while i < levels.len() && *remaining > 0
            invariant
                init == (MatchRun {
                    levels: levels_view(opposite_levels@),
                    i: 0,
                    total_matched: *old(total_matched) as int,
                    remaining: *old(remaining) as int,
                    bets: old(self).bets(),
                    parts: old(bet).matched_parts@,
                    err: None,
                }),
                bet0 == old(bet)@,
                self0 == *old(self),
                i <= levels@.len() + 1,
                match_run(
                    MatchRun {
                        levels: levels_view(levels@),
                        i: i as int,
                        total_matched: *total_matched as int,
                        remaining: *remaining as int,
                        bets: self.bets(),
                        parts: bet.matched_parts@,
                        err: None,
                    },
                    taker_of(bet0, current_timestamp),
                ) == match_run(init, taker_of(bet0, current_timestamp)),
                bet@ == (BetModel { matched_parts: bet.matched_parts@, ..bet0 }),
                self.same_indexes(&self0),
                self.selections@ == self0.selections@,
            decreases levels@.len() + 1 - i,
        {
            let ghost cur = MatchRun {
                levels: levels_view(levels@),
                i: i as int,
                total_matched: *total_matched as int,
                remaining: *remaining as int,
                bets: self.bets(),
                parts: bet.matched_parts@,
                err: None,
            };
            let ghost next = match_step(cur, taker_of(bet0, current_timestamp));
            assert(cur.levels[cur.i] == levels@[i as int]@);
            let mut level = levels[i].clone();
            if level.odds == bet.odd {
                let to_match = if *remaining < level.total_stake {
                    *remaining
                } else {
                    level.total_stake
                };
                if to_match > 0 {
                    *total_matched = match total_matched.checked_add(to_match) {
                        Some(t) => t,
                        None => {
                            assert(match_run(init, taker_of(bet0, current_timestamp)) == next);
                            return Err(ContractError::AmountOverflow);
                        },
                    };
                    *remaining = *remaining - to_match;
                    let res = self.process_level_matches(bet, &to_match, &mut level, current_timestamp);
                    if let Err(e) = res {
                        assert(match_run(init, taker_of(bet0, current_timestamp)) == next);
                        return Err(e);
                    }
                    let ghost before = levels@;
                    update_opposite_levels(&mut levels, i, level);
                    assert(levels_view(levels@).len() == levels@.len());
                    assert(levels_view(before).len() == before.len());
                    assert(levels@.len() >= before.len() - 1);
                }
                i = i + 1;
            } else {
                i = i + 1;
            }
            assert((MatchRun {
                levels: levels_view(levels@),
                i: i as int,
                total_matched: *total_matched as int,
                remaining: *remaining as int,
                bets: self.bets(),
                parts: bet.matched_parts@,
                err: None,
            }) == next);
        }
        self.save_opposite_levels(bet, levels);
        Ok(())
    }

    /// Matches `match_amount` at a level against its bets in order, each
    /// getting at most `match_amount`, and keeps on the level the bets that
    /// still have an open stake, with the sum of their open stakes.
    pub fn process_level_matches(
        &mut self,
        bet: &mut Bet,
        match_amount: &u128,
        level: &mut PriceLevel,
        current_timestamp: u64,
    ) -> (r: Result<(), ContractError>)
        ensures
            ({
                let run = level_pass(
                    old(self).bets(),
                    old(bet).matched_parts@,
                    old(level).bet_nonces@,
                    *match_amount,
                    taker_of(old(bet)@, current_timestamp),
                );
                &&& r == run_result(run.err)
                &&& r is Ok ==> {
                    &&& final(self).bets() == run.bets
                    &&& final(self).same_indexes(old(self))
                    &&& final(self).selections@ == old(self).selections@
                    &&& final(bet)@ == (BetModel { matched_parts: run.parts, ..old(bet)@ })
                    &&& final(level)@ == (LevelModel {
                        odds: old(level).odds,
                        total_stake: run.total as u128,
                        bet_nonces: run.kept,
                    })
                }
            }),
    {
        let ghost nonces = level.bet_nonces@;
        let ghost init = LevelRun {
            bets: self.bets(),
            parts: bet.matched_parts@,
            kept: Seq::empty(),
            total: 0,
            left: *match_amount as int,
            err: None,
        };
        let ghost bet0 = bet@;
        let ghost tk = taker_of(bet@, current_timestamp);
        let ghost self0 = *self;
        let mut kept: Vec<u64> = Vec::new();
        let mut total: u128 = 0;
        let mut left: u128 = *match_amount;
        let n = level.bet_nonces.len();
        let mut k: usize = 0;
        assert(kept@ =~= Seq::<u64>::empty());
        while k < n
            invariant
                init == (LevelRun {
                    bets: old(self).bets(),
                    parts: old(bet).matched_parts@,
                    kept: Seq::empty(),
                    total: 0,
                    left: *match_amount as int,
                    err: None,
                }),
                tk == taker_of(old(bet)@, current_timestamp),
                nonces == old(level).bet_nonces@,
                bet0 == old(bet)@,
                self0 == *old(self),
                n == nonces.len(),
                level.bet_nonces@ == nonces,
                0 <= k <= n,
                level_run(
                    LevelRun {
                        bets: self.bets(),
                        parts: bet.matched_parts@,
                        kept: kept@,
                        total: total as int,
                        left: left as int,
                        err: None,
                    },
                    nonces,
                    k as int,
                    tk,
                ) == level_run(init, nonces, 0, tk),
                bet@ == (BetModel { matched_parts: bet.matched_parts@, ..bet0 }),
                self.same_indexes(&self0),
                self.selections@ == self0.selections@,
            decreases n - k,
        {
            let ghost cur = LevelRun {
                bets: self.bets(),
                parts: bet.matched_parts@,
                kept: kept@,
                total: total as int,
                left: left as int,
                err: None,
            };
            let nonce = level.bet_nonces[k];
            let ghost next = level_step(cur, nonce, tk);
            assert(level_run(cur, nonces, k as int, tk) == level_run(
                next,
                nonces,
                k + 1,
                tk,
            ));
            let taken = self.take_bet(nonce);
            let mut matched_bet = match taken {
                Some(b) => b,
                None => {
                    proof {
                        assert(!cur.bets.contains_key(nonce));
                        assert(next.err == Some(ContractError::StorageDecode));
                        lemma_level_run_err(next, nonces, k + 1, tk);
                        assert(level_run(init, nonces, 0, tk) == next);
assert(level_pass(old(self).bets(), old(bet).matched_parts@, old(level).bet_nonces@, *match_amount, taker_of(old(bet)@, current_timestamp)) == next);
                        assert(level_run(init, nonces, 0, tk) == next);
                    }
                    return Err(ContractError::StorageDecode);
                },
            };
            if matched_bet.total_matched > matched_bet.stake_amount {
                proof {
                    lemma_level_run_err(next, nonces, k + 1, tk);
                    assert(level_run(init, nonces, 0, tk) == next);
assert(level_pass(old(self).bets(), old(bet).matched_parts@, old(level).bet_nonces@, *match_amount, taker_of(old(bet)@, current_timestamp)) == next);
                }
                return Err(ContractError::NegativeAmount);
            }
            let current_unmatched = matched_bet.stake_amount - matched_bet.total_matched;
            if current_unmatched > 0 {
                let match_this_bet = if current_unmatched < left {
                    current_unmatched
                } else {
                    left
                };
                if match_this_bet > 0 {
                    let ghost mb0 = matched_bet@;
                    add_matched_part(bet, &mut matched_bet, &match_this_bet, current_timestamp);
                    let upd = update_matched_bet(&mut matched_bet, &match_this_bet);
                    if let Err(e) = upd {
                        proof {
                            lemma_level_run_err(next, nonces, k + 1, tk);
                            assert(level_run(init, nonces, 0, tk) == next);
assert(level_pass(old(self).bets(), old(bet).matched_parts@, old(level).bet_nonces@, *match_amount, taker_of(old(bet)@, current_timestamp)) == next);
                        }
                        return Err(e);
                    }
                    let remaining_unmatched = matched_bet.stake_amount - matched_bet.total_matched;
                    left = left - match_this_bet;
                    if remaining_unmatched > 0 {
                        total = match total.checked_add(remaining_unmatched) {
                            Some(t) => t,
                            None => {
                                proof {
                                    lemma_level_run_err(next, nonces, k + 1, tk);
                                    assert(level_run(init, nonces, 0, tk) == next);
assert(level_pass(old(self).bets(), old(bet).matched_parts@, old(level).bet_nonces@, *match_amount, taker_of(old(bet)@, current_timestamp)) == next);
                                }
                                return Err(ContractError::AmountOverflow);
                            },
                        };
                        kept.push(nonce);
                    }
                    let ghost mbv = matched_bet@;
                    self.put_bet(nonce, matched_bet);
                    proof {
                        assert(self.bets() =~= cur.bets.insert(nonce, mbv));
                        assert(mbv.stake_amount - mbv.total_matched == remaining_unmatched);
                    }
                } else {
                    self.put_bet(nonce, matched_bet);
                    assert(self.bets() =~= cur.bets);
                }
            } else {
                self.put_bet(nonce, matched_bet);
                assert(self.bets() =~= cur.bets);
            }
            assert((LevelRun {
                bets: self.bets(),
                parts: bet.matched_parts@,
                kept: kept@,
                total: total as int,
                left: left as int,
                err: None,
            }) == next);
            k = k + 1;
        }
        level.bet_nonces = kept;
        level.total_stake = total;
        Ok(())
    }
}

} // verus!
