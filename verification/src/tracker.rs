//! The order book of a selection as the market module keeps it: price
//! levels kept in price order (back levels by falling odds, lay levels by
//! rising odds), the liquidity of a side always the sum of its levels, and
//! bets stored under their NFT nonce.
use vstd::prelude::*;
use crate::errors::ContractError;
use crate::orderbook::{
    level_index, lemma_level_index_some, find_level_index, nonces_other_than, nonces_without,
    opposite_levels_of, own_levels_of, own_liquidity_of, run_result, status_and_totals_result,
    total_matched_result, update_opposite_levels, updated_levels, with_opposite_levels,
    with_own_side,
};
use crate::storage::{SelectionStorageModel, StorageModule};
use crate::types::{
    Bet, BetMatchingState, BetModel, BetStatus, BetType, BetView, LevelModel, MatchedPart,
    PriceLevel, levels_view,
};

verus! {

/// The profit on matched parts: for a back bet each part's amount times its
/// odds above 1.00 (rounded down part by part), for a lay bet the sum of the
/// amounts.
pub open spec fn parts_profit(parts: Seq<MatchedPart>, bet_type: BetType) -> Result<u128, ContractError>
    decreases parts.len(),
{
    if parts.len() == 0 {
        Ok(0)
    } else {
        match parts_profit(parts.drop_last(), bet_type) {
            Err(e) => Err(e),
            Ok(acc) => {
                let p = parts.last();
                let part: Result<u128, ContractError> = match bet_type {
                    BetType::Back => if p.odds < 100 {
                        Err(ContractError::NegativeAmount)
                    } else if (p.odds - 100) * p.amount > u128::MAX {
                        Err(ContractError::AmountOverflow)
                    } else {
                        Ok(((p.odds - 100) * p.amount / 100) as u128)
                    },
                    BetType::Lay => Ok(p.amount),
                };
                match part {
                    Err(e) => Err(e),
                    Ok(v) => if acc + v > u128::MAX {
                        Err(ContractError::AmountOverflow)
                    } else {
                        Ok((acc + v) as u128)
                    },
                }
            },
        }
    }
}

/// A counterparty bet after `m` more of it was matched: the part is
/// recorded, the matched total and status follow, the profit is computed
/// again from the parts.
pub open spec fn tracker_counterparty(b: BetModel, m: u128) -> Result<BetModel, ContractError> {
    let parts = b.matched_parts.push(MatchedPart { amount: m, odds: b.odd, counterparty: None });
    let tm = b.total_matched + m;
    if tm > u128::MAX {
        Err(ContractError::AmountOverflow)
    } else {
        match parts_profit(parts, b.bet_type) {
            Err(e) => Err(e),
            Ok(p) => Ok(
                BetModel {
                    matched_parts: parts,
                    total_matched: tm as u128,
                    status: if tm == b.stake_amount {
                        BetStatus::Matched
                    } else {
                        BetStatus::PartiallyMatched
                    },
                    potential_profit: p,
                    ..b
                },
            ),
        }
    }
}

/// The state of a pass over the bets of one level.
pub struct TrackerLevelRun {
    pub bets: Map<u64, BetModel>,
    pub kept: Seq<u64>,
    pub total: int,
    pub left: int,
    pub err: Option<ContractError>,
}

/// The pass over one bet of a level, `st.left` being what is still to be
/// matched at the level: the bet is matched for the smaller of its open
/// stake and what is left, and what is left goes down by it.
pub open spec fn tracker_level_step(st: TrackerLevelRun, nonce: u64) -> TrackerLevelRun {
    if st.err is Some {
        st
    } else if !st.bets.contains_key(nonce) {
        TrackerLevelRun { err: Some(ContractError::StorageDecode), ..st }
    } else {
        let b = st.bets[nonce];
        if b.total_matched > b.stake_amount {
            TrackerLevelRun { err: Some(ContractError::NegativeAmount), ..st }
        } else {
            let open = b.stake_amount - b.total_matched;
            let m = if open < st.left {
                open
            } else {
                st.left
            };
            if m <= 0 {
                st
            } else {
                match tracker_counterparty(b, m as u128) {
                    Err(e) => TrackerLevelRun { err: Some(e), ..st },
                    Ok(b2) => {
                        let rest = b2.stake_amount - b2.total_matched;
                        if rest > 0 && st.total + rest > u128::MAX {
                            TrackerLevelRun { err: Some(ContractError::AmountOverflow), ..st }
                        } else if rest > 0 {
                            TrackerLevelRun {
                                bets: st.bets.insert(nonce, b2),
                                kept: st.kept.push(nonce),
                                total: st.total + rest,
                                left: st.left - m,
                                err: None,
                            }
                        } else {
                            TrackerLevelRun { bets: st.bets.insert(nonce, b2), left: st.left - m, ..st }
                        }
                    },
                }
            }
        }
    }
}

/// The pass over the bets `nonces[k..]` of a level.
pub open spec fn tracker_level_run(st: TrackerLevelRun, nonces: Seq<u64>, k: int) -> TrackerLevelRun
    decreases nonces.len() - k,
{
    if k < 0 || k >= nonces.len() {
        st
    } else {
        tracker_level_run(tracker_level_step(st, nonces[k]), nonces, k + 1)
    }
}

pub proof fn lemma_tracker_level_run_err(st: TrackerLevelRun, nonces: Seq<u64>, k: int)
    requires
        st.err is Some,
    ensures
        tracker_level_run(st, nonces, k) == st,
    decreases nonces.len() - k,
{
    if 0 <= k < nonces.len() {
        lemma_tracker_level_run_err(tracker_level_step(st, nonces[k]), nonces, k + 1);
    }
}

/// The state of a pass over the opposite levels of a bet.
pub struct TrackerRun {
    pub levels: Seq<LevelModel>,
    pub i: int,
    pub total_matched: int,
    pub remaining: int,
    pub bets: Map<u64, BetModel>,
    pub parts: Seq<MatchedPart>,
    pub err: Option<ContractError>,
}

/// The pass over level `i`: at the bet's odds the smaller of the open
/// remainder and the level's stake is matched, recorded once on the bet, and
/// shared out over the level's bets; a level left without bets is replaced
/// by the last level, which is looked at next.
pub open spec fn tracker_step(st: TrackerRun, bet_odd: u128) -> TrackerRun {
    let level = st.levels[st.i];
    if level.odds != bet_odd {
        TrackerRun { i: st.i + 1, ..st }
    } else {
        let m = if st.remaining < level.total_stake {
            st.remaining
        } else {
            level.total_stake as int
        };
        if m <= 0 {
            TrackerRun { i: st.i + 1, ..st }
        } else if st.total_matched + m > u128::MAX {
            TrackerRun { err: Some(ContractError::AmountOverflow), ..st }
        } else {
            let lr = tracker_level_run(
                TrackerLevelRun { bets: st.bets, kept: Seq::empty(), total: 0, left: m, err: None },
                level.bet_nonces,
                0,
            );
            match lr.err {
                Some(e) => TrackerRun { err: Some(e), ..st },
                None => {
                    let parts = st.parts.push(MatchedPart { amount: m as u128, odds: level.odds, counterparty: None });
                    if lr.kept.len() > 0 {
                        TrackerRun {
                            levels: st.levels.update(
                                st.i,
                                LevelModel { odds: level.odds, total_stake: lr.total as u128, bet_nonces: lr.kept },
                            ),
                            i: st.i + 1,
                            total_matched: st.total_matched + m,
                            remaining: st.remaining - m,
                            bets: lr.bets,
                            parts,
                            err: None,
                        }
                    } else {
                        TrackerRun {
                            levels: st.levels.update(st.i, st.levels.last()).drop_last(),
                            total_matched: st.total_matched + m,
                            remaining: st.remaining - m,
                            bets: lr.bets,
                            parts,
                            ..st
                        }
                    }
                },
            }
        }
    }
}

/// The pass over the levels from `st.i` on, while some of the bet is open.
pub open spec fn tracker_run(st: TrackerRun, bet_odd: u128) -> TrackerRun
    decreases st.levels.len() - st.i,
{
    if st.err is Some || st.i < 0 || st.i >= st.levels.len() || st.remaining <= 0 {
        st
    } else {
        let nx = tracker_step(st, bet_odd);
        if nx.err is Some {
            nx
        } else {
            tracker_run(nx, bet_odd)
        }
    }
}

/// The sum of the stakes of a side's levels.
pub open spec fn levels_total(levels: Seq<LevelModel>) -> int
    decreases levels.len(),
{
    if levels.len() == 0 {
        0
    } else {
        levels_total(levels.drop_last()) + levels.last().total_stake
    }
}

/// `p` is where a new level at `odd` goes on the side of a bet of type
/// `bet_type`: in front of the first level it beats, or at the end.
pub open spec fn is_level_position(levels: Seq<LevelModel>, odd: u128, bet_type: BetType, p: int) -> bool {
    &&& 0 <= p <= levels.len()
    &&& forall|j: int| 0 <= j < p ==> !level_beaten(#[trigger] levels[j], odd, bet_type)
    &&& p < levels.len() ==> level_beaten(levels[p], odd, bet_type)
}

/// A level is behind a new level at `odd`: at lower odds on the back side,
/// at higher odds on the lay side.
pub open spec fn level_beaten(level: LevelModel, odd: u128, bet_type: BetType) -> bool {
    match bet_type {
        BetType::Back => odd > level.odds,
        BetType::Lay => odd < level.odds,
    }
}

/// The levels of a side are in price order.
pub open spec fn levels_ordered(levels: Seq<LevelModel>, bet_type: BetType) -> bool {
    forall|i: int, j: int|
        0 <= i < j < levels.len() ==> !level_beaten(#[trigger] levels[i], #[trigger] levels[j].odds, bet_type)
}

/// Where a new level at `odd` goes on the side of a bet of type
/// `bet_type`: in front of the first level that it beats, or at the end.
pub open spec fn level_position(levels: Seq<LevelModel>, odd: u128, bet_type: BetType) -> int {
    if exists|i: int| 0 <= i < levels.len() && level_beaten(levels[i], odd, bet_type) {
        choose|i: int|
            0 <= i < levels.len() && level_beaten(levels[i], odd, bet_type) && forall|j: int|
                0 <= j < i ==> !level_beaten(levels[j], odd, bet_type)
    } else {
        levels.len() as int
    }
}

proof fn lemma_first_beaten(levels: Seq<LevelModel>, odd: u128, bet_type: BetType, w: int)
    requires
        0 <= w < levels.len(),
        level_beaten(levels[w], odd, bet_type),
    ensures
        exists|i: int|
            0 <= i < levels.len() && level_beaten(levels[i], odd, bet_type) && forall|j: int|
                0 <= j < i ==> !level_beaten(levels[j], odd, bet_type),
    decreases w,
{
    if exists|j: int| 0 <= j < w && level_beaten(levels[j], odd, bet_type) {
        let j = choose|j: int| 0 <= j < w && level_beaten(levels[j], odd, bet_type);
        lemma_first_beaten(levels, odd, bet_type, j);
    }
}

pub proof fn lemma_level_position(levels: Seq<LevelModel>, odd: u128, bet_type: BetType)
    ensures
        is_level_position(levels, odd, bet_type, level_position(levels, odd, bet_type)),
{
    if exists|i: int| 0 <= i < levels.len() && level_beaten(levels[i], odd, bet_type) {
        let w = choose|i: int| 0 <= i < levels.len() && level_beaten(levels[i], odd, bet_type);
        lemma_first_beaten(levels, odd, bet_type, w);
    }
}

pub proof fn lemma_level_position_unique(levels: Seq<LevelModel>, odd: u128, bet_type: BetType, p: int)
    requires
        is_level_position(levels, odd, bet_type, p),
    ensures
        p == level_position(levels, odd, bet_type),
{
    lemma_level_position(levels, odd, bet_type);
    let q = level_position(levels, odd, bet_type);
    if p < q {
        assert(!level_beaten(levels[p], odd, bet_type));
    } else if q < p {
        assert(!level_beaten(levels[q], odd, bet_type));
    }
}

/// The selection's storage after the open stake of a bet was put on its
/// side: onto the level at its odds, or onto a new level at its place in
/// price order; the side's liquidity is then the sum of its levels.
pub open spec fn tracker_add_result(st: SelectionStorageModel, b: BetModel) -> Result<SelectionStorageModel, ContractError> {
    if b.total_matched > b.stake_amount {
        Err(ContractError::NegativeAmount)
    } else if b.stake_amount - b.total_matched == 0 {
        Err(ContractError::NoUnmatchedAmount)
    } else {
        let open = (b.stake_amount - b.total_matched) as u128;
        let levels = own_levels_of(st, b.bet_type);
        let placed: Option<Seq<LevelModel>> = match level_index(levels, b.odd) {
            Some(i) => if levels[i].total_stake + open > u128::MAX {
                None
            } else {
                Some(
                    levels.update(
                        i,
                        LevelModel {
                            odds: levels[i].odds,
                            total_stake: (levels[i].total_stake + open) as u128,
                            bet_nonces: levels[i].bet_nonces.push(b.nft_nonce),
                        },
                    ),
                )
            },
            None => {
                let p = level_position(levels, b.odd, b.bet_type);
                Some(
                    levels.take(p) + seq![
                        LevelModel { odds: b.odd, total_stake: open, bet_nonces: seq![b.nft_nonce] },
                    ] + levels.skip(p),
                )
            },
        };
        match placed {
            None => Err(ContractError::AmountOverflow),
            Some(nl) => if levels_total(nl) > u128::MAX {
                Err(ContractError::AmountOverflow)
            } else {
                Ok(with_own_side(st, b.bet_type, nl, levels_total(nl) as u128))
            },
        }
    }
}

/// No two levels of a side are at the same odds.
pub open spec fn levels_distinct(levels: Seq<LevelModel>) -> bool {
    forall|i: int, j: int| 0 <= i < j < levels.len() ==> #[trigger] levels[i].odds != #[trigger] levels[j].odds
}

/// Adding a bet to the order book: the bet's open stake and NFT nonce go
/// onto the level at its odds, or onto a new level at its place, the other
/// levels staying as they were; a side in price order with distinct odds
/// stays so, and the side's liquidity is the sum of the stakes of its levels.
pub proof fn lemma_tracker_add_keeps_order(st: SelectionStorageModel, b: BetModel)
    requires
        levels_ordered(own_levels_of(st, b.bet_type), b.bet_type),
        levels_distinct(own_levels_of(st, b.bet_type)),
        tracker_add_result(st, b) is Ok,
    ensures
        ({
            let levels = own_levels_of(st, b.bet_type);
            let open = (b.stake_amount - b.total_matched) as u128;
            let after = tracker_add_result(st, b)->Ok_0;
            let nl = own_levels_of(after, b.bet_type);
            &&& levels_ordered(nl, b.bet_type)
            &&& levels_distinct(nl)
            &&& own_liquidity_of(after, b.bet_type) == levels_total(nl)
            &&& match level_index(levels, b.odd) {
                Some(i) => nl == levels.update(
                    i,
                    LevelModel {
                        odds: b.odd,
                        total_stake: (levels[i].total_stake + open) as u128,
                        bet_nonces: levels[i].bet_nonces.push(b.nft_nonce),
                    },
                ),
                None => exists|p: int|
                    0 <= p <= levels.len() && nl == levels.take(p) + seq![
                        LevelModel { odds: b.odd, total_stake: open, bet_nonces: seq![b.nft_nonce] },
                    ] + levels.skip(p),
            }
        }),
{
    let levels = own_levels_of(st, b.bet_type);
    let open = (b.stake_amount - b.total_matched) as u128;
    lemma_level_index_some(levels, b.odd);
    let nl = match level_index(levels, b.odd) {
        Some(i) => {
            let l = LevelModel {
                odds: levels[i].odds,
                total_stake: (levels[i].total_stake + open) as u128,
                bet_nonces: levels[i].bet_nonces.push(b.nft_nonce),
            };
            lemma_level_update_keeps_order(levels, i, l, b.bet_type);
            let r = levels.update(i, l);
            assert forall|x: int, y: int| 0 <= x < y < r.len() implies #[trigger] r[x].odds != #[trigger] r[y].odds by {
                assert(r[x].odds == levels[x].odds && r[y].odds == levels[y].odds);
            }
            r
        },
        None => {
            let p = level_position(levels, b.odd, b.bet_type);
            let l = LevelModel { odds: b.odd, total_stake: open, bet_nonces: seq![b.nft_nonce] };
            lemma_level_position(levels, b.odd, b.bet_type);
            lemma_level_insert_keeps_order(levels, l, b.bet_type, p);
            let r = levels.take(p) + seq![l] + levels.skip(p);
            assert forall|x: int, y: int| 0 <= x < y < r.len() implies #[trigger] r[x].odds != #[trigger] r[y].odds by {
                if y < p {
                    assert(r[x] == levels[x] && r[y] == levels[y]);
                } else if y == p {
                    assert(r[x] == levels[x] && r[y] == l);
                } else if x < p {
                    assert(r[x] == levels[x] && r[y] == levels[y - 1]);
                } else if x == p {
                    assert(r[x] == l && r[y] == levels[y - 1]);
                } else {
                    assert(r[x] == levels[x - 1] && r[y] == levels[y - 1]);
                }
            }
            r
        },
    };
    let after = with_own_side(st, b.bet_type, nl, levels_total(nl) as u128);
    assert(tracker_add_result(st, b) == Ok::<SelectionStorageModel, ContractError>(after));
    lemma_levels_total_nonneg(nl);
    assert(levels_total(nl) <= u128::MAX);
    assert(own_levels_of(after, b.bet_type) == nl && own_liquidity_of(after, b.bet_type) == levels_total(nl)) by {
        match b.bet_type {
            BetType::Back => {},
            BetType::Lay => {},
        }
    }
}

/// Inserting a new level at its place keeps a side in price order.
pub proof fn lemma_level_insert_keeps_order(levels: Seq<LevelModel>, new_level: LevelModel, bet_type: BetType, p: int)
    requires
        levels_ordered(levels, bet_type),
        is_level_position(levels, new_level.odds, bet_type, p),
    ensures
        levels_ordered(levels.take(p) + seq![new_level] + levels.skip(p), bet_type),
{
    let r = levels.take(p) + seq![new_level] + levels.skip(p);
    assert forall|i: int, j: int| 0 <= i < j < r.len() implies !level_beaten(
        #[trigger] r[i],
        #[trigger] r[j].odds,
        bet_type,
    ) by {
        if j < p {
            assert(r[i] == levels[i] && r[j] == levels[j]);
        } else if j == p {
            assert(r[i] == levels[i] && r[j] == new_level);
        } else if i < p {
            assert(r[i] == levels[i] && r[j] == levels[j - 1]);
        } else if i == p {
            assert(r[i] == new_level && r[j] == levels[j - 1]);
            assert(level_beaten(levels[p], new_level.odds, bet_type));
            assert(!level_beaten(levels[p], levels[j - 1].odds, bet_type) || j - 1 == p);
        } else {
            assert(r[i] == levels[i - 1] && r[j] == levels[j - 1]);
        }
    }
}

/// Adding to an existing level keeps a side in price order.
pub proof fn lemma_level_update_keeps_order(levels: Seq<LevelModel>, i: int, level: LevelModel, bet_type: BetType)
    requires
        levels_ordered(levels, bet_type),
        0 <= i < levels.len(),
        level.odds == levels[i].odds,
    ensures
        levels_ordered(levels.update(i, level), bet_type),
{
    let r = levels.update(i, level);
    assert forall|a: int, c: int| 0 <= a < c < r.len() implies !level_beaten(
        #[trigger] r[a],
        #[trigger] r[c].odds,
        bet_type,
    ) by {
        assert(r[a].odds == levels[a].odds && r[c].odds == levels[c].odds);
    }
}

pub proof fn lemma_levels_total_prefix(levels: Seq<LevelModel>, i: int)
    requires
        0 <= i < levels.len(),
    ensures
        levels_total(levels.take(i + 1)) == levels_total(levels.take(i)) + levels[i].total_stake,
{
    assert(levels.take(i + 1).drop_last() =~= levels.take(i));
}

pub proof fn lemma_levels_total_prefix_bound(levels: Seq<LevelModel>, i: int)
    requires
        0 <= i <= levels.len(),
    ensures
        0 <= levels_total(levels.take(i)) <= levels_total(levels),
    decreases levels.len() - i,
{
    lemma_levels_total_nonneg(levels.take(i));
    if i == levels.len() {
        assert(levels.take(i) =~= levels);
    } else {
        lemma_levels_total_prefix_bound(levels, i + 1);
        lemma_levels_total_prefix(levels, i);
    }
}

pub proof fn lemma_levels_total_nonneg(levels: Seq<LevelModel>)
    ensures
        0 <= levels_total(levels),
    decreases levels.len(),
{
    if levels.len() > 0 {
        lemma_levels_total_nonneg(levels.drop_last());
    }
}

/// A failure on a prefix of the parts is the failure on all of them.
pub proof fn lemma_parts_profit_err(parts: Seq<MatchedPart>, bet_type: BetType, k: int)
    requires
        0 <= k <= parts.len(),
        parts_profit(parts.take(k), bet_type) is Err,
    ensures
        parts_profit(parts, bet_type) == parts_profit(parts.take(k), bet_type),
    decreases parts.len() - k,
{
    if k == parts.len() {
        assert(parts.take(k) =~= parts);
    } else {
        assert(parts.take(k + 1).drop_last() =~= parts.take(k));
        lemma_parts_profit_err(parts, bet_type, k + 1);
    }
}

/// The profit a bet stands to make on its matched parts.
pub fn calculate_total_potential_profit(bet: &Bet) -> (r: Result<u128, ContractError>)
    ensures
        r == parts_profit(bet.matched_parts@, bet.bet_type),
{
    let mut total_profit: u128 = 0;
    let mut i: usize = 0;
    let ghost parts = bet.matched_parts@;
    assert(parts.take(0) =~= Seq::<MatchedPart>::empty());
    while i < bet.matched_parts.len()
        invariant
            parts == bet.matched_parts@,
            0 <= i <= parts.len(),
            parts_profit(parts.take(i as int), bet.bet_type) == Ok::<u128, ContractError>(total_profit),
        decreases parts.len() - i,
    {
        let part = bet.matched_parts[i];
        assert(parts.take(i + 1).drop_last() =~= parts.take(i as int));
        assert(parts.take(i + 1).last() == part);
        let v = match bet.bet_type {
            BetType::Back => {
                if part.odds < 100 {
                    proof {
                        lemma_parts_profit_err(parts, bet.bet_type, i + 1);
                    }
                    return Err(ContractError::NegativeAmount);
                }
                match (part.odds - 100).checked_mul(part.amount) {
                    Some(p) => p / 100,
                    None => {
                        proof {
                            lemma_parts_profit_err(parts, bet.bet_type, i + 1);
                        }
                        return Err(ContractError::AmountOverflow);
                    },
                }
            },
            BetType::Lay => part.amount,
        };
        total_profit = match total_profit.checked_add(v) {
            Some(t) => t,
            None => {
                proof {
                    lemma_parts_profit_err(parts, bet.bet_type, i + 1);
                }
                return Err(ContractError::AmountOverflow);
            },
        };
        i = i + 1;
    }
    assert(parts.take(i as int) =~= parts);
    Ok(total_profit)
}

/// Matches `match_amount` at a level against its bets in order, each for
/// at most what is still to be matched, keeping on the level the bets that
/// still have an open stake.
pub fn process_level(storage: &mut StorageModule, match_amount: u128, level: &PriceLevel) -> (r: Result<(Vec<u64>, u128), ContractError>)
    ensures
        ({
            let run = tracker_level_run(
                TrackerLevelRun { bets: old(storage).bets(), kept: Seq::empty(), total: 0, left: match_amount as int, err: None },
                level.bet_nonces@,
                0,
            );
            &&& match run.err {
                Some(e) => r matches Err(e2) && e2 == e,
                None => r matches Ok((kept, total)) && kept@ == run.kept && total == run.total,
            }
            &&& r is Ok ==> {
                &&& final(storage).bets() == run.bets
                &&& final(storage).same_indexes(old(storage))
                &&& final(storage).selections@ == old(storage).selections@
            }
        }),
{
    let ghost nonces = level.bet_nonces@;
    let ghost init = TrackerLevelRun { bets: storage.bets(), kept: Seq::empty(), total: 0, left: match_amount as int, err: None };
    let ghost s0 = *storage;
    let mut kept: Vec<u64> = Vec::new();
    let mut total: u128 = 0;
    let mut left: u128 = match_amount;
    let n = level.bet_nonces.len();
    let mut k: usize = 0;
    assert(kept@ =~= Seq::<u64>::empty());
    while k < n
        invariant
            init == (TrackerLevelRun { bets: old(storage).bets(), kept: Seq::empty(), total: 0, left: match_amount as int, err: None }),
            nonces == level.bet_nonces@,
            s0 == *old(storage),
            n == nonces.len(),
            0 <= k <= n,
            tracker_level_run(
                TrackerLevelRun { bets: storage.bets(), kept: kept@, total: total as int, left: left as int, err: None },
                nonces,
                k as int,
            ) == tracker_level_run(init, nonces, 0),
            storage.same_indexes(&s0),
            storage.selections@ == s0.selections@,
        decreases n - k,
    {
        let ghost cur = TrackerLevelRun { bets: storage.bets(), kept: kept@, total: total as int, left: left as int, err: None };
        let nonce = level.bet_nonces[k];
        let ghost next = tracker_level_step(cur, nonce);
        assert(tracker_level_run(cur, nonces, k as int) == tracker_level_run(next, nonces, k + 1));
        let mut matched_bet = match storage.take_bet(nonce) {
            Some(b) => b,
            None => {
                proof {
                    lemma_tracker_level_run_err(next, nonces, k + 1);
                }
                return Err(ContractError::StorageDecode);
            },
        };
        if matched_bet.total_matched > matched_bet.stake_amount {
            proof {
                lemma_tracker_level_run_err(next, nonces, k + 1);
            }
            return Err(ContractError::NegativeAmount);
        }
        let current_unmatched = matched_bet.stake_amount - matched_bet.total_matched;
        if current_unmatched > 0 {
            let match_this_bet = if current_unmatched < left {
                current_unmatched
            } else {
                left
            };
            if match_this_bet > 0 {
                matched_bet.matched_parts.push(MatchedPart { amount: match_this_bet, odds: matched_bet.odd, counterparty: None });
                matched_bet.total_matched = match matched_bet.total_matched.checked_add(match_this_bet) {
                    Some(t) => t,
                    None => {
                        proof {
                            lemma_tracker_level_run_err(next, nonces, k + 1);
                        }
                        return Err(ContractError::AmountOverflow);
                    },
                };
                matched_bet.status = if matched_bet.total_matched == matched_bet.stake_amount {
                    BetStatus::Matched
                } else {
                    BetStatus::PartiallyMatched
                };
                matched_bet.potential_profit = match calculate_total_potential_profit(&matched_bet) {
                    Ok(p) => p,
                    Err(e) => {
                        proof {
                            lemma_tracker_level_run_err(next, nonces, k + 1);
                        }
                        return Err(e);
                    },
                };
                let remaining_unmatched = matched_bet.stake_amount - matched_bet.total_matched;
                left = left - match_this_bet;
                if remaining_unmatched > 0 {
                    total = match total.checked_add(remaining_unmatched) {
                        Some(t) => t,
                        None => {
                            proof {
                                lemma_tracker_level_run_err(next, nonces, k + 1);
                            }
                            return Err(ContractError::AmountOverflow);
                        },
                    };
                    kept.push(nonce);
                }
                let ghost mbv = matched_bet@;
                storage.put_bet(nonce, matched_bet);
                proof {
                    assert(storage.bets() =~= cur.bets.insert(nonce, mbv));
                }
            } else {
                storage.put_bet(nonce, matched_bet);
                assert(storage.bets() =~= cur.bets);
            }
        } else {
            storage.put_bet(nonce, matched_bet);
            assert(storage.bets() =~= cur.bets);
        }
        assert((TrackerLevelRun { bets: storage.bets(), kept: kept@, total: total as int, left: left as int, err: None }) == next);
        k = k + 1;
    }
    Ok((kept, total))
}

/// The selection's storage after a bet was taken off the level of its side
/// at its odds: the level loses the bet's open stake and the bet, a level
/// left without bets is replaced by the last level, and the side's
/// liquidity loses the bet's open stake.
pub open spec fn tracker_remove_result(st: SelectionStorageModel, b: BetModel) -> Result<SelectionStorageModel, ContractError> {
    if b.total_matched > b.stake_amount {
        Err(ContractError::NegativeAmount)
    } else {
        let open = (b.stake_amount - b.total_matched) as u128;
        let levels = own_levels_of(st, b.bet_type);
        match level_index(levels, b.odd) {
            None => Ok(st),
            Some(i) => if levels[i].total_stake < open {
                Err(ContractError::NegativeAmount)
            } else if own_liquidity_of(st, b.bet_type) < open {
                Err(ContractError::NegativeAmount)
            } else {
                Ok(
                    with_own_side(
                        st,
                        b.bet_type,
                        updated_levels(
                            levels,
                            i,
                            LevelModel {
                                odds: levels[i].odds,
                                total_stake: (levels[i].total_stake - open) as u128,
                                bet_nonces: nonces_without(levels[i].bet_nonces, b.nft_nonce),
                            },
                        ),
                        (own_liquidity_of(st, b.bet_type) - open) as u128,
                    ),
                )
            },
        }
    }
}

/// The sum of the stakes of the levels, when it fits in 128 bits.
pub fn sum_level_stakes(levels: &Vec<PriceLevel>) -> (r: Option<u128>)
    ensures
        match r {
            Some(v) => v == levels_total(levels_view(levels@)),
            None => levels_total(levels_view(levels@)) > u128::MAX,
        },
{
    let ghost lv = levels_view(levels@);
    let mut total: u128 = 0;
    let mut i: usize = 0;
    assert(lv.take(0) =~= Seq::<LevelModel>::empty());
    while i < levels.len()
        invariant
            lv == levels_view(levels@),
            0 <= i <= levels@.len(),
            total == levels_total(lv.take(i as int)),
        decreases levels.len() - i,
    {
        proof {
            lemma_levels_total_prefix(lv, i as int);
            lemma_levels_total_prefix_bound(lv, i as int + 1);
        }
        assert(lv[i as int] == levels@[i as int]@);
        total = match total.checked_add(levels[i].total_stake) {
            Some(t) => t,
            None => return None,
        };
        i = i + 1;
    }
    assert(lv.take(i as int) =~= lv);
    Some(total)
}

/// Puts the open stake of a bet on its side: onto the level at its odds, or
/// onto a new level at its place in price order; the side's liquidity is
/// set to the sum of its levels.
pub fn add_to_orderbook(storage: &mut StorageModule, bet: &Bet) -> (r: Result<(), ContractError>)
    ensures
        match tracker_add_result(old(storage).selection_state(bet.event, bet.selection.id), bet@) {
            Ok(st) => {
                &&& r is Ok
                &&& final(storage).selection_state(bet.event, bet.selection.id) == st
                &&& final(storage).same_indexes(old(storage))
                &&& final(storage).bets() == old(storage).bets()
                &&& forall|m: u64, s: u64|
                    !(m == bet.event && s == bet.selection.id) ==> #[trigger] final(storage).selection_state(m, s)
                        == old(storage).selection_state(m, s)
            },
            Err(e) => r == Err::<(), ContractError>(e) && final(storage).same_as(old(storage)),
        },
{
    if bet.total_matched > bet.stake_amount {
        return Err(ContractError::NegativeAmount);
    }
    let unmatched_amount = bet.stake_amount - bet.total_matched;
    if unmatched_amount == 0 {
        return Err(ContractError::NoUnmatchedAmount);
    }
    let mut levels = storage.get_own_levels(bet);
    let ghost lv = levels_view(levels@);
    let level_index = find_level_index(&levels, &bet.odd);
    proof {
        lemma_level_index_some(lv, bet.odd);
    }
    match level_index {
        Some(i) => {
            assert(lv.len() == levels@.len());
            let mut level = levels[i].clone();
            assert(level@ == lv[i as int]);
            level.total_stake = match level.total_stake.checked_add(unmatched_amount) {
                Some(v) => v,
                None => return Err(ContractError::AmountOverflow),
            };
            level.bet_nonces.push(bet.nft_nonce);
            let ghost lm = level@;
            levels.set(i, level);
            assert(levels_view(levels@) =~= lv.update(i as int, lm));
        },
        None => {
            let mut nonces: Vec<u64> = Vec::new();
            nonces.push(bet.nft_nonce);
            let new_level = PriceLevel { odds: bet.odd, total_stake: unmatched_amount, bet_nonces: nonces };
            assert(new_level.bet_nonces@ =~= seq![bet.nft_nonce]);
            let ghost lm = new_level@;
            let mut insert_pos: usize = levels.len();
            let mut found = false;
            let mut i: usize = 0;
            while i < levels.len() && !found
                invariant
                    lv == levels_view(levels@),
                    0 <= i <= levels@.len(),
                    forall|j: int| 0 <= j < i ==> !level_beaten(#[trigger] lv[j], bet.odd, bet.bet_type),
                    found ==> insert_pos < levels@.len() && level_beaten(lv[insert_pos as int], bet.odd, bet.bet_type)
                        && forall|j: int| 0 <= j < insert_pos ==> !level_beaten(#[trigger] lv[j], bet.odd, bet.bet_type),
                    !found ==> insert_pos == levels@.len(),
                decreases levels@.len() - i, if found { 0int } else { 1int },
            {
                assert(lv[i as int] == levels@[i as int]@);
                let beaten = match bet.bet_type {
                    BetType::Back => bet.odd > levels[i].odds,
                    BetType::Lay => bet.odd < levels[i].odds,
                };
                if beaten {
                    insert_pos = i;
                    found = true;
                } else {
                    i = i + 1;
                }
            }
            proof {
                assert(is_level_position(lv, bet.odd, bet.bet_type, insert_pos as int));
                lemma_level_position_unique(lv, bet.odd, bet.bet_type, insert_pos as int);
            }
            levels.insert(insert_pos, new_level);
            assert(levels_view(levels@) =~= lv.take(insert_pos as int) + seq![lm] + lv.skip(insert_pos as int));
        },
    }
    let total = match sum_level_stakes(&levels) {
        Some(t) => t,
        None => return Err(ContractError::AmountOverflow),
    };
    let mut st = storage.take_selection(bet.event, bet.selection.id);
    match bet.bet_type {
        BetType::Back => {
            st.back_levels = levels;
            st.back_liquidity = total;
        },
        BetType::Lay => {
            st.lay_levels = levels;
            st.lay_liquidity = total;
        },
    }
    storage.put_selection(bet.event, bet.selection.id, st);
    Ok(())
}

/// Takes a bet off the level of its side at its odds, and its open stake
/// off the level and the side's liquidity.
pub fn remove_from_orderbook(storage: &mut StorageModule, bet: &Bet) -> (r: Result<(), ContractError>)
    ensures
        match tracker_remove_result(old(storage).selection_state(bet.event, bet.selection.id), bet@) {
            Ok(st) => {
                &&& r is Ok
                &&& final(storage).selection_state(bet.event, bet.selection.id) == st
                &&& final(storage).same_indexes(old(storage))
                &&& final(storage).bets() == old(storage).bets()
                &&& forall|m: u64, s: u64|
                    !(m == bet.event && s == bet.selection.id) ==> #[trigger] final(storage).selection_state(m, s)
                        == old(storage).selection_state(m, s)
            },
            Err(e) => r == Err::<(), ContractError>(e) && final(storage).same_as(old(storage)),
        },
{
    if bet.total_matched > bet.stake_amount {
        return Err(ContractError::NegativeAmount);
    }
    let unmatched_amount = bet.stake_amount - bet.total_matched;
    let mut levels = storage.get_own_levels(bet);
    let ghost lv = levels_view(levels@);
    let level_index = find_level_index(&levels, &bet.odd);
    proof {
        lemma_level_index_some(lv, bet.odd);
    }
    match level_index {
        None => {
            assert(storage.selection_state(bet.event, bet.selection.id) == old(storage).selection_state(bet.event, bet.selection.id));
            Ok(())
        },
        Some(i) => {
            assert(lv.len() == levels@.len());
            let mut level = levels[i].clone();
            assert(level@ == lv[i as int]);
            if level.total_stake < unmatched_amount {
                return Err(ContractError::NegativeAmount);
            }
            level.total_stake = level.total_stake - unmatched_amount;
            level.bet_nonces = nonces_other_than(&level.bet_nonces, bet.nft_nonce);
            update_opposite_levels(&mut levels, i, level);
            let mut st = storage.take_selection(bet.event, bet.selection.id);
            match bet.bet_type {
                BetType::Back => {
                    if st.back_liquidity < unmatched_amount {
                        storage.put_selection(bet.event, bet.selection.id, st);
                        return Err(ContractError::NegativeAmount);
                    }
                    st.back_levels = levels;
                    st.back_liquidity = st.back_liquidity - unmatched_amount;
                },
                BetType::Lay => {
                    if st.lay_liquidity < unmatched_amount {
                        storage.put_selection(bet.event, bet.selection.id, st);
                        return Err(ContractError::NegativeAmount);
                    }
                    st.lay_levels = levels;
                    st.lay_liquidity = st.lay_liquidity - unmatched_amount;
                },
            }
            storage.put_selection(bet.event, bet.selection.id, st);
            Ok(())
        },
    }
}

/// Adds `matched_amount` to the matched total of a selection, which may not
/// exceed its back liquidity.
pub fn update_total_matched(storage: &mut StorageModule, market_id: u64, selection_id: u64, matched_amount: &u128) -> (r: Result<(), ContractError>)
    ensures
        match total_matched_result(old(storage).selection_state(market_id, selection_id), *matched_amount) {
            Ok(st) => {
                &&& r is Ok
                &&& final(storage).selection_state(market_id, selection_id) == st
                &&& final(storage).same_indexes(old(storage))
                &&& final(storage).bets() == old(storage).bets()
                &&& forall|m: u64, s: u64|
                    !(m == market_id && s == selection_id) ==> #[trigger] final(storage).selection_state(m, s)
                        == old(storage).selection_state(m, s)
            },
            Err(e) => r == Err::<(), ContractError>(e) && final(storage).same_as(old(storage)),
        },
{
    storage.update_total_matched(market_id, selection_id, matched_amount)
}

/// The matching state of the bet stored under `bet_nonce`.
pub fn get_bet_matching_state(storage: &StorageModule, bet_nonce: u64) -> (r: Result<BetMatchingState, ContractError>)
    ensures
        match r {
            Ok(v) => storage.bets().contains_key(bet_nonce) && {
                let b = storage.bets()[bet_nonce];
                &&& b.total_matched <= b.stake_amount
                &&& v.bet_type == b.bet_type
                &&& v.original_stake == b.stake_amount
                &&& v.matched_amount == b.total_matched
                &&& v.unmatched_amount == b.stake_amount - b.total_matched
                &&& v.status == b.status
                &&& v.odds == b.odd
            },
            Err(e) => (e == ContractError::StorageDecode && !storage.bets().contains_key(bet_nonce))
                || (e == ContractError::NegativeAmount && storage.bets().contains_key(bet_nonce)
                && storage.bets()[bet_nonce].total_matched > storage.bets()[bet_nonce].stake_amount),
        },
        storage.bets().contains_key(bet_nonce) && storage.bets()[bet_nonce].total_matched
            <= storage.bets()[bet_nonce].stake_amount ==> r is Ok,
{
    let bet = match storage.bet_by_id.get(&bet_nonce) {
        Some(b) => b,
        None => return Err(ContractError::StorageDecode),
    };
    if bet.total_matched > bet.stake_amount {
        return Err(ContractError::NegativeAmount);
    }
    Ok(BetMatchingState {
        bet_type: bet.bet_type,
        original_stake: bet.stake_amount,
        matched_amount: bet.total_matched,
        unmatched_amount: bet.stake_amount - bet.total_matched,
        status: bet.status,
        odds: bet.odd,
    })
}

/// The view of the bet stored under `bet_nonce`.
pub fn get_bet_details(storage: &StorageModule, bet_nonce: u64) -> (r: Result<BetView, ContractError>)
    ensures
        match r {
            Ok(v) => storage.bets().contains_key(bet_nonce) && {
                let b = storage.bets()[bet_nonce];
                &&& b.total_matched <= b.stake_amount
                &&& v.nonce == b.nft_nonce
                &&& v.bettor == b.bettor
                &&& v.stake == b.stake_amount
                &&& v.matched == b.total_matched
                &&& v.unmatched == b.stake_amount - b.total_matched
                &&& v.status == b.status
            },
            Err(e) => (e == ContractError::StorageDecode && !storage.bets().contains_key(bet_nonce))
                || (e == ContractError::NegativeAmount && storage.bets().contains_key(bet_nonce)
                && storage.bets()[bet_nonce].total_matched > storage.bets()[bet_nonce].stake_amount),
        },
        storage.bets().contains_key(bet_nonce) && storage.bets()[bet_nonce].total_matched
            <= storage.bets()[bet_nonce].stake_amount ==> r is Ok,
{
    let bet = match storage.bet_by_id.get(&bet_nonce) {
        Some(b) => b,
        None => return Err(ContractError::StorageDecode),
    };
    if bet.total_matched > bet.stake_amount {
        return Err(ContractError::NegativeAmount);
    }
    Ok(BetView {
        nonce: bet.nft_nonce,
        bettor: bet.bettor,
        stake: bet.stake_amount,
        matched: bet.total_matched,
        unmatched: bet.stake_amount - bet.total_matched,
        status: bet.status,
    })
}

/// The number of matched bets of a selection (its low 32 bits) and its
/// matched total.
pub fn get_matching_stats(storage: &StorageModule, market_id: u64, selection_id: u64) -> (r: (u32, u128))
    ensures
        r.0 == storage.selection_state(market_id, selection_id).matched_count as u32,
        r.1 == storage.selection_state(market_id, selection_id).total_matched_amount,
{
    let k = crate::storage::selection_key_exec(market_id, selection_id);
    match storage.selections.get(&k) {
        Some(st) => (st.matched_count as u32, st.total_matched_amount),
        None => (0, 0),
    }
}

/// The bet and its selection's storage once the pass over the opposite
/// levels matched `tm` in all and left `remaining` open: the counter of the
/// new status goes up, the profit is computed from the parts, the new
/// matches (`tm` less what the bet had matched before) are added to the
/// selection's matched total, which may not exceed the back liquidity, and
/// an open remainder goes on the bet's own side.
pub open spec fn tracker_status_result(st: SelectionStorageModel, b: BetModel, tm: u128, remaining: u128) -> Result<(SelectionStorageModel, BetModel), ContractError> {
    let (st1, status, over) = if remaining == 0 {
        (
            SelectionStorageModel { matched_count: (st.matched_count + 1) as u64, ..st },
            BetStatus::Matched,
            st.matched_count + 1 > u64::MAX,
        )
    } else if tm > 0 {
        (
            SelectionStorageModel { partially_matched_count: (st.partially_matched_count + 1) as u64, ..st },
            BetStatus::PartiallyMatched,
            st.partially_matched_count + 1 > u64::MAX,
        )
    } else {
        (
            SelectionStorageModel { unmatched_count: (st.unmatched_count + 1) as u64, ..st },
            BetStatus::Unmatched,
            st.unmatched_count + 1 > u64::MAX,
        )
    };
    if over {
        Err(ContractError::CounterOverflow)
    } else {
        match parts_profit(b.matched_parts, b.bet_type) {
            Err(e) => Err(e),
            Ok(p) => {
                let b2 = BetModel { total_matched: tm, status, potential_profit: p, ..b };
                let checked = if tm > 0 {
                    if tm < b.total_matched {
                        Err(ContractError::NegativeAmount)
                    } else {
                        total_matched_result(st1, (tm - b.total_matched) as u128)
                    }
                } else {
                    Ok(st1)
                };
                match checked {
                    Err(e) => Err(e),
                    Ok(st2) => if remaining > 0 {
                        match tracker_add_result(st2, b2) {
                            Err(e) => Err(e),
                            Ok(st3) => Ok((st3, b2)),
                        }
                    } else {
                        Ok((st2, b2))
                    },
                }
            },
        }
    }
}

/// Processing a new bet: its open remainder is matched against the opposite
/// levels at its odds, its status and totals are set, an open remainder goes
/// on the order book, and the bet is stored under its NFT nonce.
pub open spec fn tracker_process_result(
    bets: Map<u64, BetModel>,
    st: SelectionStorageModel,
    b: BetModel,
) -> Result<crate::orderbook::ProcessOutcome, ContractError> {
    if b.total_matched > b.stake_amount {
        Err(ContractError::NegativeAmount)
    } else {
        let run = tracker_run(
            TrackerRun {
                levels: opposite_levels_of(st, b.bet_type),
                i: 0,
                total_matched: b.total_matched as int,
                remaining: b.stake_amount - b.total_matched,
                bets,
                parts: b.matched_parts,
                err: None,
            },
            b.odd,
        );
        match run.err {
            Some(e) => Err(e),
            None => {
                let st1 = with_opposite_levels(st, b.bet_type, run.levels);
                let b1 = BetModel { matched_parts: run.parts, ..b };
                match tracker_status_result(st1, b1, run.total_matched as u128, run.remaining as u128) {
                    Err(e) => Err(e),
                    Ok((st2, b2)) => Ok(
                        crate::orderbook::ProcessOutcome {
                            bet: b2,
                            selection: st2,
                            bets: run.bets.insert(b2.nft_nonce, b2),
                            matched: run.total_matched as u128,
                            remaining: run.remaining as u128,
                        },
                    ),
                }
            },
        }
    }
}

/// The pass over the levels keeps its amounts within the 128-bit range.
pub proof fn lemma_tracker_run_bounds(st: TrackerRun, bet_odd: u128)
    requires
        0 <= st.total_matched <= u128::MAX,
        0 <= st.remaining <= u128::MAX,
    ensures
        0 <= tracker_run(st, bet_odd).total_matched <= u128::MAX,
        0 <= tracker_run(st, bet_odd).remaining <= u128::MAX,
    decreases st.levels.len() - st.i,
{
    if st.err is Some || st.i < 0 || st.i >= st.levels.len() || st.remaining <= 0 {
    } else {
        let nx = tracker_step(st, bet_odd);
        if nx.err is None {
            lemma_tracker_run_bounds(nx, bet_odd);
        }
    }
}

/// A pass over the levels moves stake from open to matched and loses none.
pub proof fn lemma_tracker_run_conserves(st: TrackerRun, bet_odd: u128)
    ensures
        tracker_run(st, bet_odd).total_matched + tracker_run(st, bet_odd).remaining == st.total_matched + st.remaining,
    decreases st.levels.len() - st.i,
{
    if st.err is Some || st.i < 0 || st.i >= st.levels.len() || st.remaining <= 0 {
    } else {
        let nx = tracker_step(st, bet_odd);
        if nx.err is None {
            lemma_tracker_run_conserves(nx, bet_odd);
        }
    }
}

/// A bet processed by the tracker has its matched and open amounts add up
/// to its stake.
pub proof fn lemma_tracker_processed_split(bets: Map<u64, BetModel>, st: SelectionStorageModel, b: BetModel)
    requires
        tracker_process_result(bets, st, b) is Ok,
    ensures
        tracker_process_result(bets, st, b)->Ok_0.matched + tracker_process_result(bets, st, b)->Ok_0.remaining
            == b.stake_amount,
{
    let start = TrackerRun {
        levels: opposite_levels_of(st, b.bet_type),
        i: 0,
        total_matched: b.total_matched as int,
        remaining: b.stake_amount - b.total_matched,
        bets,
        parts: b.matched_parts,
        err: None,
    };
    lemma_tracker_run_conserves(start, b.odd);
    lemma_tracker_run_bounds(start, b.odd);
}

/// The pass over the opposite levels of a bet, in level order, while some
/// of it is open.
fn match_levels(
    storage: &mut StorageModule,
    bet: &mut Bet,
    total_matched: &mut u128,
    remaining: &mut u128,
    opposite_levels: &mut Vec<PriceLevel>,
) -> (r: Result<(), ContractError>)
    ensures
        ({
            let run = tracker_run(
                TrackerRun {
                    levels: levels_view(old(opposite_levels)@),
                    i: 0,
                    total_matched: *old(total_matched) as int,
                    remaining: *old(remaining) as int,
                    bets: old(storage).bets(),
                    parts: old(bet).matched_parts@,
                    err: None,
                },
                old(bet).odd,
            );
            &&& r == run_result(run.err)
            &&& r is Ok ==> {
                &&& final(storage).bets() == run.bets
                &&& final(storage).same_indexes(old(storage))
                &&& final(storage).selections@ == old(storage).selections@
                &&& *final(total_matched) == run.total_matched
                &&& *final(remaining) == run.remaining
                &&& final(bet)@ == (BetModel { matched_parts: run.parts, ..old(bet)@ })
                &&& levels_view(final(opposite_levels)@) == run.levels
            }
        }),
{
    let ghost b0 = bet@;
    let ghost s0 = *storage;
    let ghost init = TrackerRun {
        levels: levels_view(opposite_levels@),
        i: 0,
        total_matched: *total_matched as int,
        remaining: *remaining as int,
        bets: storage.bets(),
        parts: bet.matched_parts@,
        err: None,
    };
    let mut i: usize = 0;
    while i < opposite_levels.len() && *remaining > 0
        invariant
            init == (TrackerRun {
                levels: levels_view(old(opposite_levels)@),
                i: 0,
                total_matched: *old(total_matched) as int,
                remaining: *old(remaining) as int,
                bets: old(storage).bets(),
                parts: old(bet).matched_parts@,
                err: None,
            }),
            b0 == old(bet)@,
            s0 == *old(storage),
            tracker_run(
                TrackerRun {
                    levels: levels_view(opposite_levels@),
                    i: i as int,
                    total_matched: *total_matched as int,
                    remaining: *remaining as int,
                    bets: storage.bets(),
                    parts: bet.matched_parts@,
                    err: None,
                },
                b0.odd,
            ) == tracker_run(init, b0.odd),
            bet@ == (BetModel { matched_parts: bet.matched_parts@, ..b0 }),
            storage.same_indexes(&s0),
            storage.selections@ == s0.selections@,
            i <= opposite_levels@.len(),
        decreases opposite_levels@.len() - i,
    {
        let ghost cur = TrackerRun {
            levels: levels_view(opposite_levels@),
            i: i as int,
            total_matched: *total_matched as int,
            remaining: *remaining as int,
            bets: storage.bets(),
            parts: bet.matched_parts@,
            err: None,
        };
        let ghost next = tracker_step(cur, b0.odd);
        assert(cur.levels[cur.i] == opposite_levels@[i as int]@);
        let mut level = opposite_levels[i].clone();
        if level.odds == bet.odd {
            let match_amount = if *remaining < level.total_stake {
                *remaining
            } else {
                level.total_stake
            };
            if match_amount > 0 {
                *total_matched = match total_matched.checked_add(match_amount) {
                    Some(t) => t,
                    None => {
                        assert(tracker_run(init, b0.odd) == next);
                        return Err(ContractError::AmountOverflow);
                    },
                };
                *remaining = *remaining - match_amount;
                bet.matched_parts.push(MatchedPart { amount: match_amount, odds: level.odds, counterparty: None });
                let (updated_nonces, total_level_stake) = match process_level(storage, match_amount, &level) {
                    Ok(v) => v,
                    Err(e) => {
                        assert(tracker_run(init, b0.odd) == next);
                        return Err(e);
                    },
                };
                if !updated_nonces.is_empty() {
                    level.bet_nonces = updated_nonces;
                    level.total_stake = total_level_stake;
                    let ghost lm = level@;
                    let ghost before = opposite_levels@;
                    opposite_levels.set(i, level);
                    assert(levels_view(opposite_levels@) =~= levels_view(before).update(i as int, lm));
                    i = i + 1;
                } else {
                    let ghost before = opposite_levels@;
                    opposite_levels.swap_remove(i);
                    assert(levels_view(opposite_levels@) =~= levels_view(before).update(
                        i as int,
                        levels_view(before).last(),
                    ).drop_last());
                }
            } else {
                i = i + 1;
            }
        } else {
            i = i + 1;
        }
        assert((TrackerRun {
            levels: levels_view(opposite_levels@),
            i: i as int,
            total_matched: *total_matched as int,
            remaining: *remaining as int,
            bets: storage.bets(),
            parts: bet.matched_parts@,
            err: None,
        }) == next);
    }
    Ok(())
}

/// Processes a new bet: matches it against the opposite side of its
/// selection, sets its status and totals, puts its open remainder on the
/// order book and stores it under its NFT nonce. Gives the matched and the
/// open amounts. A refusal leaves the storage as it was.
pub fn process_bet(storage: &mut StorageModule, bet: Bet) -> (r: Result<(u128, u128), ContractError>)
    ensures
        match tracker_process_result(
            old(storage).bets(),
            old(storage).selection_state(bet.event, bet.selection.id),
            bet@,
        ) {
            Ok(out) => r matches Ok((m, rem)) && {
                &&& m == out.matched
                &&& rem == out.remaining
                &&& final(storage).bets() == out.bets
                &&& final(storage).selection_state(bet.event, bet.selection.id) == out.selection
                &&& final(storage).same_indexes(old(storage))
                &&& forall|m: u64, s: u64|
                    !(m == bet.event && s == bet.selection.id) ==> #[trigger] final(storage).selection_state(m, s)
                        == old(storage).selection_state(m, s)
            },
            Err(e) => r matches Err(e2) && e2 == e && final(storage).same_as(old(storage)),
        },
{
    let snapshot = storage.snapshot();
    let r = try_process_bet(storage, bet);
    if r.is_err() {
        *storage = snapshot;
    }
    r
}

fn try_process_bet(storage: &mut StorageModule, bet: Bet) -> (r: Result<(u128, u128), ContractError>)
    ensures
        match tracker_process_result(
            old(storage).bets(),
            old(storage).selection_state(bet.event, bet.selection.id),
            bet@,
        ) {
            Ok(out) => r matches Ok((m, rem)) && {
                &&& m == out.matched
                &&& rem == out.remaining
                &&& final(storage).bets() == out.bets
                &&& final(storage).selection_state(bet.event, bet.selection.id) == out.selection
                &&& final(storage).same_indexes(old(storage))
                &&& forall|m: u64, s: u64|
                    !(m == bet.event && s == bet.selection.id) ==> #[trigger] final(storage).selection_state(m, s)
                        == old(storage).selection_state(m, s)
            },
            Err(e) => r matches Err(e2) && e2 == e,
        },
{
    let mut bet = bet;
    if bet.total_matched > bet.stake_amount {
        return Err(ContractError::NegativeAmount);
    }
    let mut total_matched = bet.total_matched;
    let mut remaining = bet.stake_amount - bet.total_matched;
    let mut opposite_levels = storage.get_opposite_levels(&bet);
    proof {
        lemma_tracker_run_bounds(
            TrackerRun {
                levels: levels_view(opposite_levels@),
                i: 0,
                total_matched: total_matched as int,
                remaining: remaining as int,
                bets: storage.bets(),
                parts: bet.matched_parts@,
                err: None,
            },
            bet.odd,
        );
    }
    match_levels(storage, &mut bet, &mut total_matched, &mut remaining, &mut opposite_levels)?;
    storage.save_opposite_levels(&bet, opposite_levels);
    let previous = bet.total_matched;
    bet.total_matched = total_matched;
    let mut st = storage.take_selection(bet.event, bet.selection.id);
    if remaining == 0 {
        st.matched_count = match st.matched_count.checked_add(1) {
            Some(c) => c,
            None => return Err(ContractError::CounterOverflow),
        };
        bet.status = BetStatus::Matched;
    } else if total_matched > 0 {
        st.partially_matched_count = match st.partially_matched_count.checked_add(1) {
            Some(c) => c,
            None => return Err(ContractError::CounterOverflow),
        };
        bet.status = BetStatus::PartiallyMatched;
    } else {
        st.unmatched_count = match st.unmatched_count.checked_add(1) {
            Some(c) => c,
            None => return Err(ContractError::CounterOverflow),
        };
        bet.status = BetStatus::Unmatched;
    }
    storage.put_selection(bet.event, bet.selection.id, st);
    bet.potential_profit = calculate_total_potential_profit(&bet)?;
    if total_matched > 0 {
        if total_matched < previous {
            return Err(ContractError::NegativeAmount);
        }
        let new_matches = total_matched - previous;
        update_total_matched(storage, bet.event, bet.selection.id, &new_matches)?;
    }
    if remaining > 0 {
        add_to_orderbook(storage, &bet)?;
    }
    let key = bet.nft_nonce;
    storage.put_bet(key, bet);
    Ok((total_matched, remaining))
}

} // verus!
