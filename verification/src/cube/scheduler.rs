//! The scheduler of a selection: adding and removing bets, finding the bets
//! a new bet matches, matching it, and the status counters.
//!
//! Back bets are queued best (highest) odds first, lay bets lowest odds
//! first; at equal odds the earlier bet goes first. A scheduler's liquidity
//! is the sum of the open stakes of its back bets and of the liabilities of
//! its lay bets as they were added.
use vstd::prelude::*;
use crate::cube::types::{BetScheduler, CubeBetModel, SchedulerModel, ScheduledBet, queue_view};
use crate::errors::ContractError;
use crate::types::{BetStatus, BetType};

verus! {

/// A scheduler with no bets and all counters at zero.
pub open spec fn empty_scheduler() -> SchedulerModel {
    SchedulerModel {
        back_bets: Seq::empty(),
        lay_bets: Seq::empty(),
        best_back_odds: 0,
        best_lay_odds: 0,
        back_liquidity: 0,
        lay_liquidity: 0,
        matched_count: 0,
        unmatched_count: 0,
        partially_matched_count: 0,
        win_count: 0,
        lost_count: 0,
        canceled_count: 0,
    }
}

/// Whether `new_bet` goes before `existing` in a queue: a better price
/// (higher odds on the back side, lower on the lay side), or the same price
/// and an earlier time.
pub open spec fn goes_before(new_bet: CubeBetModel, existing: CubeBetModel, is_back: bool) -> bool {
    if is_back {
        new_bet.odd > existing.odd || (new_bet.odd == existing.odd && new_bet.created_at < existing.created_at)
    } else {
        new_bet.odd < existing.odd || (new_bet.odd == existing.odd && new_bet.created_at < existing.created_at)
    }
}

/// The position at which a bet enters a queue: before the first bet it goes
/// before, or at the end.
pub open spec fn insert_index(q: Seq<CubeBetModel>, b: CubeBetModel, is_back: bool) -> nat
    decreases q.len(),
{
    if q.len() == 0 {
        0
    } else if goes_before(b, q[0], is_back) {
        0
    } else {
        1 + insert_index(q.drop_first(), b, is_back)
    }
}

/// A queue in the order of its side: no bet goes before an earlier one.
pub open spec fn queue_ordered(q: Seq<CubeBetModel>, is_back: bool) -> bool {
    forall|i: int, j: int| 0 <= i < j < q.len() ==> !goes_before(q[j], q[i], is_back)
}

/// The best odds of a queue: those of its first bet, zero when empty.
pub open spec fn best_odds(q: Seq<CubeBetModel>) -> u128 {
    if q.len() == 0 {
        0
    } else {
        q[0].odd
    }
}

/// A scheduler's counters after a bet moved from status `old` to `new`: the
/// old status's counter goes down (not below zero) and the new one's up.
/// Claimed bets are not counted.
pub open spec fn counters_after(s: SchedulerModel, old: BetStatus, new: BetStatus) -> Result<SchedulerModel, ContractError> {
    let dec = |c: u64| if c == 0 { 0u64 } else { (c - 1) as u64 };
    let s1 = match old {
        BetStatus::Matched => SchedulerModel { matched_count: dec(s.matched_count), ..s },
        BetStatus::Unmatched => SchedulerModel { unmatched_count: dec(s.unmatched_count), ..s },
        BetStatus::PartiallyMatched => SchedulerModel { partially_matched_count: dec(s.partially_matched_count), ..s },
        BetStatus::Win => SchedulerModel { win_count: dec(s.win_count), ..s },
        BetStatus::Lost => SchedulerModel { lost_count: dec(s.lost_count), ..s },
        BetStatus::Canceled => SchedulerModel { canceled_count: dec(s.canceled_count), ..s },
        BetStatus::Claimed => s,
    };
    match new {
        BetStatus::Matched => if s1.matched_count == u64::MAX {
            Err(ContractError::CounterOverflow)
        } else {
            Ok(SchedulerModel { matched_count: (s1.matched_count + 1) as u64, ..s1 })
        },
        BetStatus::Unmatched => if s1.unmatched_count == u64::MAX {
            Err(ContractError::CounterOverflow)
        } else {
            Ok(SchedulerModel { unmatched_count: (s1.unmatched_count + 1) as u64, ..s1 })
        },
        BetStatus::PartiallyMatched => if s1.partially_matched_count == u64::MAX {
            Err(ContractError::CounterOverflow)
        } else {
            Ok(SchedulerModel { partially_matched_count: (s1.partially_matched_count + 1) as u64, ..s1 })
        },
        BetStatus::Win => if s1.win_count == u64::MAX {
            Err(ContractError::CounterOverflow)
        } else {
            Ok(SchedulerModel { win_count: (s1.win_count + 1) as u64, ..s1 })
        },
        BetStatus::Lost => if s1.lost_count == u64::MAX {
            Err(ContractError::CounterOverflow)
        } else {
            Ok(SchedulerModel { lost_count: (s1.lost_count + 1) as u64, ..s1 })
        },
        BetStatus::Canceled => if s1.canceled_count == u64::MAX {
            Err(ContractError::CounterOverflow)
        } else {
            Ok(SchedulerModel { canceled_count: (s1.canceled_count + 1) as u64, ..s1 })
        },
        BetStatus::Claimed => Ok(s1),
    }
}

/// The number of bets the counters count.
pub open spec fn counted(s: SchedulerModel) -> int {
    s.matched_count + s.unmatched_count + s.partially_matched_count + s.win_count + s.lost_count + s.canceled_count
}

/// The counter of a status (none for claimed bets).
pub open spec fn status_count(s: SchedulerModel, st: BetStatus) -> int {
    match st {
        BetStatus::Matched => s.matched_count as int,
        BetStatus::Unmatched => s.unmatched_count as int,
        BetStatus::PartiallyMatched => s.partially_matched_count as int,
        BetStatus::Win => s.win_count as int,
        BetStatus::Lost => s.lost_count as int,
        BetStatus::Canceled => s.canceled_count as int,
        BetStatus::Claimed => 0,
    }
}

/// Adding a bet: it is counted as unmatched (leaving its former status),
/// queued on its side, and its open stake (back) or liability (lay) joins
/// the side's liquidity.
pub open spec fn add_result(s: SchedulerModel, b: CubeBetModel) -> Result<SchedulerModel, ContractError> {
    match counters_after(s, b.status, BetStatus::Unmatched) {
        Err(e) => Err(e),
        Ok(s1) => {
            let nb = CubeBetModel { status: BetStatus::Unmatched, ..b };
            match b.bet_type {
                BetType::Back => if s1.back_liquidity + b.stake_amount > u128::MAX {
                    Err(ContractError::AmountOverflow)
                } else {
                    let q = s1.back_bets.insert(insert_index(s1.back_bets, nb, true) as int, nb);
                    Ok(
                        SchedulerModel {
                            back_bets: q,
                            back_liquidity: (s1.back_liquidity + b.stake_amount) as u128,
                            best_back_odds: best_odds(q),
                            ..s1
                        },
                    )
                },
                BetType::Lay => if s1.lay_liquidity + b.liability > u128::MAX {
                    Err(ContractError::AmountOverflow)
                } else {
                    let q = s1.lay_bets.insert(insert_index(s1.lay_bets, nb, false) as int, nb);
                    Ok(
                        SchedulerModel {
                            lay_bets: q,
                            lay_liquidity: (s1.lay_liquidity + b.liability) as u128,
                            best_lay_odds: best_odds(q),
                            ..s1
                        },
                    )
                },
            }
        },
    }
}

/// The first position of a bet with the given NFT nonce in a queue.
pub open spec fn nonce_position(q: Seq<CubeBetModel>, nonce: u64) -> Option<int>
    decreases q.len(),
{
    if q.len() == 0 {
        None
    } else if q[0].nft_nonce == nonce {
        Some(0)
    } else {
        match nonce_position(q.drop_first(), nonce) {
            Some(i) => Some(i + 1),
            None => None,
        }
    }
}

/// Removing the first bet with `b`'s NFT nonce from `b`'s side: its open
/// stake (back) or liability (lay) leaves the side's liquidity. Gives the
/// removed bet, or nothing when there is none.
pub open spec fn remove_result(s: SchedulerModel, b: CubeBetModel) -> Result<(SchedulerModel, Option<CubeBetModel>), ContractError> {
    match b.bet_type {
        BetType::Back => match nonce_position(s.back_bets, b.nft_nonce) {
            None => Ok((s, None)),
            Some(i) => {
                let removed = s.back_bets[i];
                if removed.unmatched_amount > s.back_liquidity {
                    Err(ContractError::NegativeAmount)
                } else {
                    let q = s.back_bets.remove(i);
                    Ok(
                        (
                            SchedulerModel {
                                back_bets: q,
                                back_liquidity: (s.back_liquidity - removed.unmatched_amount) as u128,
                                best_back_odds: best_odds(q),
                                ..s
                            },
                            Some(removed),
                        ),
                    )
                }
            },
        },
        BetType::Lay => match nonce_position(s.lay_bets, b.nft_nonce) {
            None => Ok((s, None)),
            Some(i) => {
                let removed = s.lay_bets[i];
                if removed.liability > s.lay_liquidity {
                    Err(ContractError::NegativeAmount)
                } else {
                    let q = s.lay_bets.remove(i);
                    Ok(
                        (
                            SchedulerModel {
                                lay_bets: q,
                                lay_liquidity: (s.lay_liquidity - removed.liability) as u128,
                                best_lay_odds: best_odds(q),
                                ..s
                            },
                            Some(removed),
                        ),
                    )
                }
            },
        },
    }
}

/// The state of the search for the bets a new bet matches.
pub struct MatchSearch {
    pub bets: Seq<CubeBetModel>,
    pub matched: u128,
    pub unmatched: u128,
    pub done: bool,
    pub err: Option<ContractError>,
}

/// One step of the search, at the next bet of the opposite queue: the
/// search stops at the first bet whose price the new bet does not reach
/// (a back bet takes lay odds up to its own, a lay bet back odds from its
/// own up) or once nothing is left open. A matched bet takes the smaller of
/// what is open of the new bet and its own open stake (back) or stake
/// (lay); a lay bet gives each matched back bet the liability of the
/// matched amount times its odds less one unit.
pub open spec fn search_step(acc: MatchSearch, bet: CubeBetModel, existing: CubeBetModel) -> MatchSearch {
    if acc.done || acc.err is Some {
        acc
    } else {
        let is_match = match bet.bet_type {
            BetType::Back => bet.odd >= existing.odd,
            BetType::Lay => bet.odd <= existing.odd,
        };
        if !is_match {
            MatchSearch { done: true, ..acc }
        } else {
            let cap = if bet.bet_type == BetType::Back { existing.unmatched_amount } else { existing.stake_amount };
            let m = if acc.unmatched <= cap { acc.unmatched } else { cap };
            if acc.matched + m > u128::MAX {
                MatchSearch { err: Some(ContractError::AmountOverflow), ..acc }
            } else if existing.matched_amount + m > u128::MAX {
                MatchSearch { err: Some(ContractError::AmountOverflow), ..acc }
            } else if m > existing.unmatched_amount {
                MatchSearch { err: Some(ContractError::NegativeAmount), ..acc }
            } else if bet.bet_type == BetType::Lay && bet.odd < 1 {
                MatchSearch { err: Some(ContractError::NegativeAmount), ..acc }
            } else if bet.bet_type == BetType::Lay && m * (bet.odd - 1) > u128::MAX {
                MatchSearch { err: Some(ContractError::AmountOverflow), ..acc }
            } else {
                let updated = CubeBetModel {
                    matched_amount: (existing.matched_amount + m) as u128,
                    unmatched_amount: (existing.unmatched_amount - m) as u128,
                    liability: if bet.bet_type == BetType::Lay {
                        (m * (bet.odd - 1)) as u128
                    } else {
                        existing.liability
                    },
                    ..existing
                };
                let unmatched = (acc.unmatched - m) as u128;
                MatchSearch {
                    bets: acc.bets.push(updated),
                    matched: (acc.matched + m) as u128,
                    unmatched,
                    done: unmatched == 0,
                    err: None,
                }
            }
        }
    }
}

/// The search over the first `n` bets of the opposite queue.
pub open spec fn search_run(bet: CubeBetModel, source: Seq<CubeBetModel>, n: nat) -> MatchSearch
    decreases n,
{
    if n == 0 {
        MatchSearch {
            bets: Seq::empty(),
            matched: 0,
            unmatched: match bet.bet_type {
                BetType::Back => bet.stake_amount,
                BetType::Lay => bet.liability,
            },
            done: false,
            err: None,
        }
    } else {
        search_step(search_run(bet, source, (n - 1) as nat), bet, source[n - 1])
    }
}

/// The queue a bet is matched against: the lay queue for a back bet and the
/// back queue for a lay bet.
pub open spec fn opposite_queue(s: SchedulerModel, bet_type: BetType) -> Seq<CubeBetModel> {
    match bet_type {
        BetType::Back => s.lay_bets,
        BetType::Lay => s.back_bets,
    }
}

/// The bets a new bet matches, the amount matched and the amount left open.
pub open spec fn matching_result(s: SchedulerModel, bet: CubeBetModel) -> Result<(Seq<CubeBetModel>, u128, u128), ContractError> {
    let r = search_run(bet, opposite_queue(s, bet.bet_type), opposite_queue(s, bet.bet_type).len());
    match r.err {
        Some(e) => Err(e),
        None => Ok((r.bets, r.matched, r.unmatched)),
    }
}

proof fn lemma_search_run_err(bet: CubeBetModel, source: Seq<CubeBetModel>, k: nat, n: nat)
    requires
        k <= n,
        search_run(bet, source, k).err is Some || search_run(bet, source, k).done,
    ensures
        search_run(bet, source, n) == search_run(bet, source, k),
    decreases n - k,
{
    if k < n {
        lemma_search_run_err(bet, source, k, (n - 1) as nat);
    }
}

proof fn lemma_search_run_prices(bet: CubeBetModel, source: Seq<CubeBetModel>, n: nat)
    requires
        n <= source.len(),
        search_run(bet, source, n).err is None,
    ensures
        search_run(bet, source, n).bets.len() <= n,
        !search_run(bet, source, n).done ==> search_run(bet, source, n).bets.len() == n,
        forall|i: int|
            0 <= i < search_run(bet, source, n).bets.len() ==> {
                &&& (#[trigger] search_run(bet, source, n).bets[i]).odd == source[i].odd
                &&& search_run(bet, source, n).bets[i].nft_nonce == source[i].nft_nonce
                &&& (bet.bet_type == BetType::Lay ==> source[i].odd >= bet.odd)
                &&& (bet.bet_type == BetType::Back ==> source[i].odd <= bet.odd)
            },
        search_run(bet, source, n).done && search_run(bet, source, n).unmatched > 0 ==> {
            let k = search_run(bet, source, n).bets.len() as int;
            &&& k < n
            &&& (bet.bet_type == BetType::Lay ==> source[k].odd < bet.odd)
            &&& (bet.bet_type == BetType::Back ==> source[k].odd > bet.odd)
        },
    decreases n,
{
    if n > 0 {
        let acc = search_run(bet, source, (n - 1) as nat);
        assert(acc.err is None);
        lemma_search_run_prices(bet, source, (n - 1) as nat);
        let r = search_run(bet, source, n);
        assert(r == search_step(acc, bet, source[n - 1]));
        if !acc.done && r.bets.len() == acc.bets.len() + 1 {
            assert forall|i: int| 0 <= i < r.bets.len() implies {
                &&& (#[trigger] r.bets[i]).odd == source[i].odd
                &&& r.bets[i].nft_nonce == source[i].nft_nonce
                &&& (bet.bet_type == BetType::Lay ==> source[i].odd >= bet.odd)
                &&& (bet.bet_type == BetType::Back ==> source[i].odd <= bet.odd)
            } by {
                if i < acc.bets.len() {
                    assert(r.bets[i] == acc.bets[i]);
                }
            }
        }
    }
}

/// A new bet is matched against the opposite queue in its order, at each
/// bet whose price it reaches: a lay bet takes back bets whose odds are at
/// least its own, a back bet takes lay bets whose odds are at most its own.
/// The search ends with something still open only at the first bet whose
/// price the new bet does not reach: a back bet at lower odds than a lay
/// bet, a lay bet at higher odds than a back bet.
pub proof fn lemma_matching_reaches_price(s: SchedulerModel, bet: CubeBetModel)
    requires
        matching_result(s, bet) is Ok,
    ensures
        bet.bet_type == BetType::Lay ==> {
            let list = matching_result(s, bet)->Ok_0.0;
            &&& list.len() <= s.back_bets.len()
            &&& forall|i: int|
                0 <= i < list.len() ==> (#[trigger] list[i]).nft_nonce == s.back_bets[i].nft_nonce
                    && list[i].odd == s.back_bets[i].odd && s.back_bets[i].odd >= bet.odd
            &&& (matching_result(s, bet)->Ok_0.2 > 0 && list.len() < s.back_bets.len())
                ==> s.back_bets[list.len() as int].odd < bet.odd
        },
        bet.bet_type == BetType::Back ==> {
            let list = matching_result(s, bet)->Ok_0.0;
            &&& list.len() <= s.lay_bets.len()
            &&& forall|i: int|
                0 <= i < list.len() ==> (#[trigger] list[i]).nft_nonce == s.lay_bets[i].nft_nonce
                    && list[i].odd == s.lay_bets[i].odd && s.lay_bets[i].odd <= bet.odd
            &&& (matching_result(s, bet)->Ok_0.2 > 0 && list.len() < s.lay_bets.len())
                ==> s.lay_bets[list.len() as int].odd > bet.odd
        },
{
    let q = opposite_queue(s, bet.bet_type);
    lemma_search_run_prices(bet, q, q.len());
}

/// The status of a new bet once `matched` of it was matched: matched when
/// that is all of its stake (back) or liability (lay), partially matched
/// when it is some, unmatched otherwise.
pub open spec fn new_bet_status(b: CubeBetModel, matched: u128) -> BetStatus {
    let full = match b.bet_type {
        BetType::Back => b.stake_amount,
        BetType::Lay => b.liability,
    };
    if matched == full {
        BetStatus::Matched
    } else if matched > 0 {
        BetStatus::PartiallyMatched
    } else {
        BetStatus::Unmatched
    }
}

/// The status of a bet that a new bet matched: matched once its matched
/// amount reaches its stake (back) or liability (lay), partially matched
/// otherwise.
pub open spec fn counterpart_status(b: CubeBetModel) -> BetStatus {
    let full = match b.bet_type {
        BetType::Back => b.stake_amount,
        BetType::Lay => b.liability,
    };
    if b.matched_amount == full {
        BetStatus::Matched
    } else {
        BetStatus::PartiallyMatched
    }
}

/// The state of matching a new bet: the scheduler that the removals and
/// additions work on, the scheduler that keeps the counters, and the error
/// that stopped it.
pub struct MatchState {
    pub work: SchedulerModel,
    pub local: SchedulerModel,
    pub err: Option<ContractError>,
}

/// Taking a matched bet out of its queue, counting its new status, and
/// queueing it again while something of it is still open.
pub open spec fn counterpart_step(st: MatchState, mb: CubeBetModel) -> MatchState {
    if st.err is Some {
        st
    } else {
        match remove_result(st.work, mb) {
            Err(e) => MatchState { err: Some(e), ..st },
            Ok((w1, _)) => {
                let ns = counterpart_status(mb);
                let l1 = if mb.status != ns {
                    counters_after(st.local, mb.status, ns)
                } else {
                    Ok(st.local)
                };
                match l1 {
                    Err(e) => MatchState { err: Some(e), ..st },
                    Ok(l) => {
                        let mb2 = CubeBetModel { status: ns, ..mb };
                        if mb2.unmatched_amount > 0 {
                            match add_result(w1, mb2) {
                                Err(e) => MatchState { err: Some(e), ..st },
                                Ok(w2) => MatchState { work: w2, local: l, err: None },
                            }
                        } else {
                            MatchState { work: w1, local: l, err: None }
                        }
                    },
                }
            },
        }
    }
}

/// Handling the matched bets, in order.
pub open spec fn counterpart_run(st: MatchState, bets: Seq<CubeBetModel>) -> MatchState
    decreases bets.len(),
{
    if bets.len() == 0 {
        st
    } else {
        counterpart_step(counterpart_run(st, bets.drop_last()), bets.last())
    }
}

/// The end of matching a new bet, once the bets it matched were handled:
/// the new bet is queued while something of it is open, on the copy.
pub open spec fn finish_match(run: MatchState, matched: u128, unmatched: u128, ub: CubeBetModel) -> Result<(SchedulerModel, u128, u128, CubeBetModel), ContractError> {
    match run.err {
        Some(e) => Err(e),
        None => if ub.unmatched_amount > 0 {
            match add_result(run.work, ub) {
                Err(e) => Err(e),
                Ok(_) => Ok((run.local, matched, unmatched, ub)),
            }
        } else {
            Ok((run.local, matched, unmatched, ub))
        },
    }
}

/// Matching a new bet: the bets it matches are found, its matched and open
/// amounts and its status are set and counted, each matched bet is handled
/// (see `counterpart_step`), and the new bet is queued while something of it
/// is open. The removals and additions work on a copy of the scheduler; the
/// scheduler keeps only the status counters. Gives the scheduler, the amount
/// matched, the amount left open and the bet.
pub open spec fn match_bet_result(s: SchedulerModel, b: CubeBetModel) -> Result<(SchedulerModel, u128, u128, CubeBetModel), ContractError> {
    match matching_result(s, b) {
        Err(e) => Err(e),
        Ok((list, matched, unmatched)) => {
            let ns = new_bet_status(b, matched);
            let l0 = if b.status != ns {
                counters_after(s, b.status, ns)
            } else {
                Ok(s)
            };
            match l0 {
                Err(e) => Err(e),
                Ok(l) => {
                    let ub = CubeBetModel { matched_amount: matched, unmatched_amount: unmatched, status: ns, ..b };
                    finish_match(counterpart_run(MatchState { work: s, local: l, err: None }, list), matched, unmatched, ub)
                },
            }
        },
    }
}

proof fn lemma_counterpart_run_err(st: MatchState, bets: Seq<CubeBetModel>, k: int)
    requires
        0 <= k <= bets.len(),
        counterpart_run(st, bets.take(k)).err is Some,
    ensures
        counterpart_run(st, bets) == counterpart_run(st, bets.take(k)),
    decreases bets.len() - k,
{
    if k == bets.len() {
        assert(bets.take(k) =~= bets);
    } else {
        assert(bets.take(k + 1).drop_last() =~= bets.take(k));
        lemma_counterpart_run_err(st, bets, k + 1);
    }
}

/// Where a bet enters a queue: after every bet it does not go before, and
/// before the bet at its position, if any.
pub proof fn lemma_insert_index(q: Seq<CubeBetModel>, b: CubeBetModel, is_back: bool)
    ensures
        insert_index(q, b, is_back) <= q.len(),
        forall|i: int| 0 <= i < insert_index(q, b, is_back) ==> !goes_before(b, #[trigger] q[i], is_back),
        insert_index(q, b, is_back) < q.len() ==> goes_before(b, q[insert_index(q, b, is_back) as int], is_back),
    decreases q.len(),
{
    if q.len() > 0 && !goes_before(b, q[0], is_back) {
        lemma_insert_index(q.drop_first(), b, is_back);
        assert forall|i: int| 0 <= i < insert_index(q, b, is_back) implies !goes_before(b, #[trigger] q[i], is_back) by {
            if i > 0 {
                assert(q[i] == q.drop_first()[i - 1]);
            }
        }
    }
}

/// Queueing a bet keeps a queue in the order of its side.
pub proof fn lemma_insert_keeps_queue_order(q: Seq<CubeBetModel>, b: CubeBetModel, is_back: bool)
    requires
        queue_ordered(q, is_back),
    ensures
        queue_ordered(q.insert(insert_index(q, b, is_back) as int, b), is_back),
{
    lemma_insert_index(q, b, is_back);
    let k = insert_index(q, b, is_back) as int;
    let r = q.insert(k, b);
    assert forall|i: int, j: int| 0 <= i < j < r.len() implies !goes_before(r[j], r[i], is_back) by {
        if j < k {
            assert(r[i] == q[i] && r[j] == q[j]);
        } else if j == k {
            assert(r[i] == q[i]);
        } else if i < k {
            assert(r[i] == q[i] && r[j] == q[j - 1]);
            if k < q.len() {
                assert(!goes_before(q[j - 1], q[k], is_back) || j - 1 == k);
            }
        } else if i == k {
            assert(r[j] == q[j - 1]);
            assert(!goes_before(q[j - 1], q[k], is_back) || j - 1 == k);
        } else {
            assert(r[i] == q[i - 1] && r[j] == q[j - 1]);
        }
    }
}

/// Moving a bet between two counted statuses keeps the number of bets
/// counted, when the old status's counter had the bet.
#[verifier::rlimit(50)]
pub proof fn lemma_counters_move(s: SchedulerModel, old: BetStatus, new: BetStatus)
    requires
        old != BetStatus::Claimed,
        new != BetStatus::Claimed,
        status_count(s, old) > 0,
        counters_after(s, old, new) is Ok,
    ensures
        counted(counters_after(s, old, new)->Ok_0) == counted(s),
        status_count(counters_after(s, old, new)->Ok_0, new) == if old == new {
            status_count(s, new)
        } else {
            status_count(s, new) + 1
        },
{
}

impl BetScheduler {
    /// A scheduler with no bets and all counters at zero.
    pub fn init_bet_scheduler() -> (s: Self)
        ensures
            s@ == empty_scheduler(),
    {
        let s = BetScheduler {
            back_bets: Vec::new(),
            lay_bets: Vec::new(),
            best_back_odds: 0,
            best_lay_odds: 0,
            back_liquidity: 0,
            lay_liquidity: 0,
            matched_count: 0,
            unmatched_count: 0,
            partially_matched_count: 0,
            win_count: 0,
            lost_count: 0,
            canceled_count: 0,
        };
        assert(queue_view(s.back_bets@) =~= Seq::<CubeBetModel>::empty());
        assert(queue_view(s.lay_bets@) =~= Seq::<CubeBetModel>::empty());
        s
    }

    /// Whether `new_bet` goes before `existing` in a queue of its side.
    pub fn should_insert_before(new_bet: &ScheduledBet, existing: &ScheduledBet, is_back: bool) -> (r: bool)
        ensures
            r == goes_before(new_bet@, existing@, is_back),
    {
        if is_back {
            new_bet.odd > existing.odd || (new_bet.odd == existing.odd && new_bet.created_at < existing.created_at)
        } else {
            new_bet.odd < existing.odd || (new_bet.odd == existing.odd && new_bet.created_at < existing.created_at)
        }
    }

    /// The position at which a bet enters a queue (see `insert_index`).
    fn find_insert_index(queue: &Vec<ScheduledBet>, bet: &ScheduledBet, is_back: bool) -> (r: usize)
        ensures
            r == insert_index(queue_view(queue@), bet@, is_back),
            r <= queue@.len(),
    {
        let ghost q = queue_view(queue@);
        let mut i: usize = 0;
        assert(q.skip(0) =~= q);
        while i < queue.len()
            invariant
                q == queue_view(queue@),
                0 <= i <= queue@.len(),
                insert_index(q, bet@, is_back) == i + insert_index(q.skip(i as int), bet@, is_back),
            decreases queue.len() - i,
        {
            assert(q.skip(i as int)[0] == queue@[i as int]@);
            assert(q.skip(i as int).drop_first() =~= q.skip(i + 1));
            if Self::should_insert_before(bet, &queue[i], is_back) {
                return i;
            }
            i = i + 1;
        }
        assert(q.skip(i as int) =~= Seq::<CubeBetModel>::empty());
        i
    }

    /// Queues a bet before the first bet it goes before, or at the end.
    pub fn insert_bet(queue: &mut Vec<ScheduledBet>, bet: ScheduledBet)
        ensures
            queue_view(final(queue)@) == queue_view(old(queue)@).insert(
                insert_index(queue_view(old(queue)@), bet@, bet.bet_type == BetType::Back) as int,
                bet@,
            ),
    {
        let is_back = bet.bet_type == BetType::Back;
        let ghost q = queue_view(queue@);
        let insert_index_found = Self::find_insert_index(queue, &bet, is_back);
        let ghost bv = bet@;
        queue.insert(insert_index_found, bet);
        assert(queue_view(queue@) =~= q.insert(insert_index_found as int, bv));
    }

    /// Moves a bet from status `old_status` to `new_status` in the counters.
    pub fn update_status_counters(&mut self, old_status: BetStatus, new_status: BetStatus) -> (r: Result<(), ContractError>)
        ensures
            match counters_after(old(self)@, old_status, new_status) {
                Ok(s) => r is Ok && final(self)@ == s,
                Err(e) => r == Err::<(), ContractError>(e) && final(self)@ == old(self)@,
            },
    {
        let before = (
            self.matched_count,
            self.unmatched_count,
            self.partially_matched_count,
            self.win_count,
            self.lost_count,
            self.canceled_count,
        );
        match old_status {
            BetStatus::Matched => self.matched_count = self.matched_count.saturating_sub(1),
            BetStatus::Unmatched => self.unmatched_count = self.unmatched_count.saturating_sub(1),
            BetStatus::PartiallyMatched => self.partially_matched_count = self.partially_matched_count.saturating_sub(1),
            BetStatus::Win => self.win_count = self.win_count.saturating_sub(1),
            BetStatus::Lost => self.lost_count = self.lost_count.saturating_sub(1),
            BetStatus::Canceled => self.canceled_count = self.canceled_count.saturating_sub(1),
            BetStatus::Claimed => {},
        }
        let overflow = match new_status {
            BetStatus::Matched => self.matched_count == u64::MAX,
            BetStatus::Unmatched => self.unmatched_count == u64::MAX,
            BetStatus::PartiallyMatched => self.partially_matched_count == u64::MAX,
            BetStatus::Win => self.win_count == u64::MAX,
            BetStatus::Lost => self.lost_count == u64::MAX,
            BetStatus::Canceled => self.canceled_count == u64::MAX,
            BetStatus::Claimed => false,
        };
        if overflow {
            self.matched_count = before.0;
            self.unmatched_count = before.1;
            self.partially_matched_count = before.2;
            self.win_count = before.3;
            self.lost_count = before.4;
            self.canceled_count = before.5;
            return Err(ContractError::CounterOverflow);
        }
        match new_status {
            BetStatus::Matched => self.matched_count = self.matched_count + 1,
            BetStatus::Unmatched => self.unmatched_count = self.unmatched_count + 1,
            BetStatus::PartiallyMatched => self.partially_matched_count = self.partially_matched_count + 1,
            BetStatus::Win => self.win_count = self.win_count + 1,
            BetStatus::Lost => self.lost_count = self.lost_count + 1,
            BetStatus::Canceled => self.canceled_count = self.canceled_count + 1,
            BetStatus::Claimed => {},
        }
        Ok(())
    }

    /// Sets the best back odds to those of the first back bet, or zero.
    pub fn update_best_back_odds(&mut self)
        ensures
            final(self)@ == (SchedulerModel { best_back_odds: best_odds(old(self)@.back_bets), ..old(self)@ }),
    {
        if self.back_bets.len() == 0 {
            self.best_back_odds = 0;
        } else {
            self.best_back_odds = self.back_bets[0].odd;
        }
    }

    /// Sets the best lay odds to those of the first lay bet, or zero.
    pub fn update_best_lay_odds(&mut self)
        ensures
            final(self)@ == (SchedulerModel { best_lay_odds: best_odds(old(self)@.lay_bets), ..old(self)@ }),
    {
        if self.lay_bets.len() == 0 {
            self.best_lay_odds = 0;
        } else {
            self.best_lay_odds = self.lay_bets[0].odd;
        }
    }

    /// Adds a bet (see `add_result`). A refused addition leaves the
    /// scheduler as it was.
    pub fn add(&mut self, bet: ScheduledBet) -> (r: Result<(), ContractError>)
        ensures
            match add_result(old(self)@, bet@) {
                Ok(s) => r is Ok && final(self)@ == s,
                Err(e) => r == Err::<(), ContractError>(e) && final(self)@ == old(self)@,
            },
    {
        let saved = (
            self.matched_count,
            self.unmatched_count,
            self.partially_matched_count,
            self.win_count,
            self.lost_count,
            self.canceled_count,
        );
        let old_status = bet.status;
        self.update_status_counters(old_status, BetStatus::Unmatched)?;
        let mut new_bet = bet;
        new_bet.status = BetStatus::Unmatched;
        match new_bet.bet_type {
            BetType::Back => {
                let total = match self.back_liquidity.checked_add(new_bet.stake_amount) {
                    Some(t) => t,
                    None => {
                        self.matched_count = saved.0;
                        self.unmatched_count = saved.1;
                        self.partially_matched_count = saved.2;
                        self.win_count = saved.3;
                        self.lost_count = saved.4;
                        self.canceled_count = saved.5;
                        return Err(ContractError::AmountOverflow);
                    },
                };
                Self::insert_bet(&mut self.back_bets, new_bet);
                self.back_liquidity = total;
                self.update_best_back_odds();
            },
            BetType::Lay => {
                let total = match self.lay_liquidity.checked_add(new_bet.liability) {
                    Some(t) => t,
                    None => {
                        self.matched_count = saved.0;
                        self.unmatched_count = saved.1;
                        self.partially_matched_count = saved.2;
                        self.win_count = saved.3;
                        self.lost_count = saved.4;
                        self.canceled_count = saved.5;
                        return Err(ContractError::AmountOverflow);
                    },
                };
                Self::insert_bet(&mut self.lay_bets, new_bet);
                self.lay_liquidity = total;
                self.update_best_lay_odds();
            },
        }
        Ok(())
    }
}


/// The values a search gives, read from exec values.
pub open spec fn opt_view(o: Option<ScheduledBet>) -> Option<CubeBetModel> {
    match o {
        Some(b) => Some(b@),
        None => None,
    }
}

impl BetScheduler {
    fn find_nonce(queue: &Vec<ScheduledBet>, nonce: u64) -> (r: Option<usize>)
        ensures
            match r {
                Some(i) => nonce_position(queue_view(queue@), nonce) == Some(i as int) && i < queue@.len(),
                None => nonce_position(queue_view(queue@), nonce) is None,
            },
    {
        let ghost q = queue_view(queue@);
        let mut i: usize = 0;
        assert(q.skip(0) =~= q);
        while i < queue.len()
            invariant
                q == queue_view(queue@),
                0 <= i <= queue@.len(),
                nonce_position(q, nonce) == match nonce_position(q.skip(i as int), nonce) {
                    Some(k) => Some(k + i),
                    None => None::<int>,
                },
            decreases queue.len() - i,
        {
            assert(q.skip(i as int)[0] == queue@[i as int]@);
            assert(q.skip(i as int).drop_first() =~= q.skip(i + 1));
            if queue[i].nft_nonce == nonce {
                return Some(i);
            }
            i = i + 1;
        }
        assert(q.skip(i as int) =~= Seq::<CubeBetModel>::empty());
        None
    }

    /// Removes the first bet with `bet`'s NFT nonce from `bet`'s side (see
    /// `remove_result`). A refused removal leaves the scheduler as it was.
    pub fn remove(&mut self, bet: ScheduledBet) -> (r: Result<Option<ScheduledBet>, ContractError>)
        ensures
            match remove_result(old(self)@, bet@) {
                Ok((s, o)) => r matches Ok(o2) && final(self)@ == s && opt_view(o2) == o,
                Err(e) => r == Err::<Option<ScheduledBet>, ContractError>(e) && final(self)@ == old(self)@,
            },
    {
        match bet.bet_type {
            BetType::Back => {
                let i = match Self::find_nonce(&self.back_bets, bet.nft_nonce) {
                    Some(i) => i,
                    None => return Ok(None),
                };
                if self.back_bets[i].unmatched_amount > self.back_liquidity {
                    return Err(ContractError::NegativeAmount);
                }
                let ghost q = self.back_bets@;
                let removed = self.back_bets.remove(i);
                assert(queue_view(self.back_bets@) =~= queue_view(q).remove(i as int));
                self.back_liquidity = self.back_liquidity - removed.unmatched_amount;
                self.update_best_back_odds();
                Ok(Some(removed))
            },
            BetType::Lay => {
                let i = match Self::find_nonce(&self.lay_bets, bet.nft_nonce) {
                    Some(i) => i,
                    None => return Ok(None),
                };
                if self.lay_bets[i].liability > self.lay_liquidity {
                    return Err(ContractError::NegativeAmount);
                }
                let ghost q = self.lay_bets@;
                let removed = self.lay_bets.remove(i);
                assert(queue_view(self.lay_bets@) =~= queue_view(q).remove(i as int));
                self.lay_liquidity = self.lay_liquidity - removed.liability;
                self.update_best_lay_odds();
                Ok(Some(removed))
            },
        }
    }

    /// The bets a new bet matches, with their amounts updated, the amount
    /// matched and the amount left open (see `matching_result`).
    pub fn get_matching_bets(&self, bet: &ScheduledBet) -> (r: Result<(Vec<ScheduledBet>, u128, u128), ContractError>)
        ensures
            match matching_result(self@, bet@) {
                Ok((list, m, u)) => r matches Ok((l2, m2, u2)) && queue_view(l2@) == list && m2 == m && u2 == u,
                Err(e) => r == Err::<(Vec<ScheduledBet>, u128, u128), ContractError>(e),
            },
    {
        let source = match bet.bet_type {
            BetType::Back => &self.lay_bets,
            BetType::Lay => &self.back_bets,
        };
        let ghost src = queue_view(source@);
        assert(src == opposite_queue(self@, bet.bet_type));
        let mut matched_amount: u128 = 0;
        let mut unmatched_amount: u128 = match bet.bet_type {
            BetType::Back => bet.stake_amount,
            BetType::Lay => bet.liability,
        };
        let mut matching_bets: Vec<ScheduledBet> = Vec::new();
        let mut i: usize = 0;
        assert(queue_view(matching_bets@) =~= Seq::<CubeBetModel>::empty());
        while i < source.len()
            invariant
                src == queue_view(source@),
                src == opposite_queue(self@, bet.bet_type),
                0 <= i <= source@.len(),
                search_run(bet@, src, i as nat).err is None,
                !search_run(bet@, src, i as nat).done,
                queue_view(matching_bets@) == search_run(bet@, src, i as nat).bets,
                matched_amount == search_run(bet@, src, i as nat).matched,
                unmatched_amount == search_run(bet@, src, i as nat).unmatched,
            decreases source.len() - i,
        {
            let existing = &source[i];
            assert(src[i as int] == existing@);
            let is_match = match bet.bet_type {
                BetType::Back => bet.odd >= existing.odd,
                BetType::Lay => bet.odd <= existing.odd,
            };
            assert(search_run(bet@, src, (i + 1) as nat) == search_step(search_run(bet@, src, i as nat), bet@, src[i as int]));
            if !is_match {
                assert(search_run(bet@, src, (i + 1) as nat).done);
                proof {
                    lemma_search_run_err(bet@, src, (i + 1) as nat, src.len());
                }
                return Ok((matching_bets, matched_amount, unmatched_amount));
            }
            let cap = if bet.bet_type == BetType::Back {
                existing.unmatched_amount
            } else {
                existing.stake_amount
            };
            let m = if unmatched_amount <= cap {
                unmatched_amount
            } else {
                cap
            };
            let new_matched = match matched_amount.checked_add(m) {
                Some(v) => v,
                None => {
                    proof {
                        lemma_search_run_err(bet@, src, (i + 1) as nat, src.len());
                    }
                    return Err(ContractError::AmountOverflow);
                },
            };
            let bet_matched = match existing.matched_amount.checked_add(m) {
                Some(v) => v,
                None => {
                    proof {
                        lemma_search_run_err(bet@, src, (i + 1) as nat, src.len());
                    }
                    return Err(ContractError::AmountOverflow);
                },
            };
            if m > existing.unmatched_amount {
                proof {
                    lemma_search_run_err(bet@, src, (i + 1) as nat, src.len());
                }
                return Err(ContractError::NegativeAmount);
            }
            let mut updated = existing.clone();
            updated.matched_amount = bet_matched;
            updated.unmatched_amount = existing.unmatched_amount - m;
            if bet.bet_type == BetType::Lay {
                if bet.odd < 1 {
                    proof {
                        lemma_search_run_err(bet@, src, (i + 1) as nat, src.len());
                    }
                    return Err(ContractError::NegativeAmount);
                }
                updated.liability = match m.checked_mul(bet.odd - 1) {
                    Some(v) => v,
                    None => {
                        proof {
                            lemma_search_run_err(bet@, src, (i + 1) as nat, src.len());
                        }
                        return Err(ContractError::AmountOverflow);
                    },
                };
            }
            matched_amount = new_matched;
            unmatched_amount = unmatched_amount - m;
            let ghost prev = matching_bets@;
            matching_bets.push(updated);
            assert(queue_view(matching_bets@) =~= queue_view(prev).push(matching_bets@.last()@));
            i = i + 1;
            if unmatched_amount == 0 {
                proof {
                    lemma_search_run_err(bet@, src, i as nat, src.len());
                }
                return Ok((matching_bets, matched_amount, unmatched_amount));
            }
        }
        Ok((matching_bets, matched_amount, unmatched_amount))
    }

    /// Moves a bet to a new status in the counters and gives it with that
    /// status. A refused move leaves the scheduler as it was.
    pub fn update_bet_status(&mut self, bet: ScheduledBet, new_status: BetStatus) -> (r: Result<ScheduledBet, ContractError>)
        ensures
            match counters_after(old(self)@, bet.status, new_status) {
                Ok(s) => r matches Ok(b) && final(self)@ == s && b@ == (CubeBetModel { status: new_status, ..bet@ }),
                Err(e) => r == Err::<ScheduledBet, ContractError>(e) && final(self)@ == old(self)@,
            },
    {
        self.update_status_counters(bet.status, new_status)?;
        let mut updated = bet;
        updated.status = new_status;
        Ok(updated)
    }
}


impl BetScheduler {
    /// Handles a bet that a new bet matched (see `counterpart_step`): the
    /// removal and the addition work on `self`, the counters on `local`.
    fn handle_counterpart(&mut self, local: &mut BetScheduler, matched_bet: ScheduledBet) -> (r: Result<(), ContractError>)
        ensures
            ({
                let st = counterpart_step(MatchState { work: old(self)@, local: old(local)@, err: None }, matched_bet@);
                match st.err {
                    Some(e) => r == Err::<(), ContractError>(e),
                    None => r is Ok && final(self)@ == st.work && final(local)@ == st.local,
                }
            }),
    {
        let mut matched_bet = matched_bet;
        let old_matched_status = matched_bet.status;
        self.remove(matched_bet.clone())?;
        let full_m = match matched_bet.bet_type {
            BetType::Back => matched_bet.stake_amount,
            BetType::Lay => matched_bet.liability,
        };
        let new_matched_status = if matched_bet.matched_amount == full_m {
            BetStatus::Matched
        } else {
            BetStatus::PartiallyMatched
        };
        if old_matched_status != new_matched_status {
            local.update_status_counters(old_matched_status, new_matched_status)?;
        }
        matched_bet.status = new_matched_status;
        if matched_bet.unmatched_amount > 0 {
            self.add(matched_bet)?;
        }
        Ok(())
    }

    /// Matches a new bet against the opposite queue (see
    /// `match_bet_result`). Gives the amount matched, the amount left open
    /// and the bet. A refused match leaves the scheduler as it was.
    pub fn match_bet(&mut self, bet: ScheduledBet) -> (r: Result<(u128, u128, ScheduledBet), ContractError>)
        ensures
            match match_bet_result(old(self)@, bet@) {
                Ok((s, m, u, b)) => r matches Ok((m2, u2, b2)) && final(self)@ == s && m2 == m && u2 == u && b2@ == b,
                Err(e) => r == Err::<(u128, u128, ScheduledBet), ContractError>(e) && final(self)@ == old(self)@,
            },
    {
        let snapshot = self.clone();
        let mut local = self.clone();
        let old_status = bet.status;
        let ghost bet0 = bet@;
        let (matching_bets, matched_amount, unmatched_amount) = self.get_matching_bets(&bet)?;
        let ghost list = queue_view(matching_bets@);
        let mut updated_bet = bet;
        updated_bet.matched_amount = matched_amount;
        updated_bet.unmatched_amount = unmatched_amount;
        let full = match updated_bet.bet_type {
            BetType::Back => updated_bet.stake_amount,
            BetType::Lay => updated_bet.liability,
        };
        let new_status = if matched_amount == full {
            BetStatus::Matched
        } else if matched_amount > 0 {
            BetStatus::PartiallyMatched
        } else {
            BetStatus::Unmatched
        };
        if old_status != new_status {
            local.update_status_counters(old_status, new_status)?;
        }
        updated_bet.status = new_status;
        let ghost st0 = MatchState { work: self@, local: local@, err: None };
        assert(match_bet_result(old(self)@, bet0) == finish_match(counterpart_run(st0, list), matched_amount, unmatched_amount, updated_bet@));
        let mut i: usize = 0;
        assert(list.take(0) =~= Seq::<CubeBetModel>::empty());
        while i < matching_bets.len()
            invariant
                list == queue_view(matching_bets@),
                bet0 == bet@,
                snapshot@ == old(self)@,
                match_bet_result(old(self)@, bet0) == finish_match(counterpart_run(st0, list), matched_amount, unmatched_amount, updated_bet@),
                0 <= i <= matching_bets@.len(),
                counterpart_run(st0, list.take(i as int)).err is None,
                counterpart_run(st0, list.take(i as int)).work == self@,
                counterpart_run(st0, list.take(i as int)).local == local@,
            decreases matching_bets.len() - i,
        {
            assert(list.take(i + 1).drop_last() =~= list.take(i as int));
            assert(list.take(i + 1).last() == matching_bets@[i as int]@);
            let matched_bet = matching_bets[i].clone();
            let ghost cur = MatchState { work: self@, local: local@, err: None };
            assert(counterpart_run(st0, list.take(i as int)) == cur);
            assert(counterpart_run(st0, list.take(i + 1)) == counterpart_step(cur, matched_bet@));
            if let Err(e) = self.handle_counterpart(&mut local, matched_bet) {
                proof {
                    lemma_counterpart_run_err(st0, list, i + 1);
                }
                *self = snapshot;
                return Err(e);
            }
            i = i + 1;
        }
        assert(list.take(list.len() as int) =~= list);
        if updated_bet.unmatched_amount > 0 {
            if let Err(e) = self.add(updated_bet.clone()) {
                *self = snapshot;
                return Err(e);
            }
        }
        *self = local;
        Ok((matched_amount, unmatched_amount, updated_bet))
    }
}

} // verus!
