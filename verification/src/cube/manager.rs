//! Placing a bet on the scheduled exchange, its NFT, and paying out a win.
//!
//! Placing a bet runs in two steps around the minting of its NFT: the first
//! checks the bet, matches it in its selection's scheduler and records the
//! match on its market; the second stores the bet and locks its funds.
use vstd::prelude::*;
use crate::cube::scheduler::match_bet_result;
use crate::cube::storage::CubeStorage;
use crate::cube::types::{
    BetScheduler, CubeBetAttributes, CubeBetModel, CubeMarketModel, CubeSelection, CubeSelectionModel,
    SchedulerModel, ScheduledBet, cube_selections_view,
};
use crate::errors::ContractError;
use crate::events::{Transfer, TransferModel};
use crate::types::{Address, BetStatus, BetType, MarketStatus, Payment, PaymentToken};
use crate::utils::{decimal_ascii, u64_to_ascii};

verus! {

/// The profit a bet stands to make: for a back bet the stake times the odds
/// above 1.00, for a lay bet its stake.
pub open spec fn cube_potential_profit(bet_type: BetType, stake: u128, odds: u128) -> Result<u128, ContractError> {
    match bet_type {
        BetType::Back => if odds < 100 {
            Err(ContractError::NegativeAmount)
        } else if (odds - 100) * stake > u128::MAX {
            Err(ContractError::AmountOverflow)
        } else {
            Ok(((odds - 100) * stake / 100) as u128)
        },
        BetType::Lay => Ok(stake),
    }
}

/// The liability of a bet: its stake for a back bet, the stake times the
/// odds above 1.00 for a lay bet.
pub open spec fn cube_potential_liability(bet_type: BetType, stake: u128, odds: u128) -> Result<u128, ContractError> {
    match bet_type {
        BetType::Back => Ok(stake),
        BetType::Lay => if odds < 100 {
            Err(ContractError::NegativeAmount)
        } else if stake * (odds - 100) > u128::MAX {
            Err(ContractError::AmountOverflow)
        } else {
            Ok((stake * (odds - 100) / 100) as u128)
        },
    }
}

/// The stake and liability of a bet paid with `total`: a back bet must
/// declare no liability and stakes it all; a lay bet must declare a
/// liability, stakes the rest, and the liability must be what that stake at
/// the odds asks for.
pub open spec fn cube_stake_and_liability(bet_type: BetType, total: u128, odds: u128, liability: u128) -> Result<(u128, u128), ContractError> {
    match bet_type {
        BetType::Back => if liability != 0 {
            Err(ContractError::LiabilityNotZero)
        } else {
            Ok((total, 0))
        },
        BetType::Lay => if liability == 0 {
            Err(ContractError::LiabilityZero)
        } else if liability > total {
            Err(ContractError::NegativeAmount)
        } else if odds < 100 {
            Err(ContractError::NegativeAmount)
        } else if liability * 100 > u128::MAX {
            Err(ContractError::AmountOverflow)
        } else if odds == 100 {
            Err(ContractError::DivisionByZero)
        } else if total - liability != liability * 100 / (odds - 100) as int {
            Err(ContractError::LiabilityMismatch)
        } else {
            Ok(((total - liability) as u128, liability))
        },
    }
}

/// A scheduled bet's profit and liability at its odds: a back bet stands to
/// win its stake times the odds above 1.00 and risks its stake; a lay bet
/// stands to win its stake and risks its stake times the odds above 1.00;
/// each product rounded down to a whole unit.
pub proof fn lemma_cube_profit_and_liability(bet_type: BetType, stake: u128, odds: u128)
    requires
        odds >= 100,
        stake * (odds - 100) <= u128::MAX,
    ensures
        cube_potential_profit(bet_type, stake, odds) is Ok,
        cube_potential_liability(bet_type, stake, odds) is Ok,
        bet_type == BetType::Back ==> cube_potential_profit(bet_type, stake, odds)->Ok_0 * 100 <= stake
            * (odds - 100) < cube_potential_profit(bet_type, stake, odds)->Ok_0 * 100 + 100,
        bet_type == BetType::Back ==> cube_potential_liability(bet_type, stake, odds) == Ok::<
            u128,
            ContractError,
        >(stake),
        bet_type == BetType::Lay ==> cube_potential_profit(bet_type, stake, odds) == Ok::<u128, ContractError>(
            stake,
        ),
        bet_type == BetType::Lay ==> cube_potential_liability(bet_type, stake, odds)->Ok_0 * 100 <= stake
            * (odds - 100) < cube_potential_liability(bet_type, stake, odds)->Ok_0 * 100 + 100,
{
    let s = stake as int;
    let o = odds as int;
    assert((o - 100) * s == s * (o - 100)) by (nonlinear_arith);
    let q = s * (o - 100) / 100;
    assert(q * 100 <= s * (o - 100) < q * 100 + 100) by (nonlinear_arith)
        requires
            s * (o - 100) >= 0,
            q == s * (o - 100) / 100,
    ;
}

/// A lay bet paid with `total` and declaring `liability` stakes the rest of
/// its payment, and that stake is the largest whole number of units whose
/// value at the odds above 1.00 fits in the liability; a back bet declares
/// no liability and stakes all it paid.
pub proof fn lemma_cube_stake_matches_liability(bet_type: BetType, total: u128, odds: u128, liability: u128)
    requires
        cube_stake_and_liability(bet_type, total, odds, liability) is Ok,
    ensures
        bet_type == BetType::Back ==> liability == 0 && cube_stake_and_liability(bet_type, total, odds, liability)
            == Ok::<(u128, u128), ContractError>((total, 0)),
        bet_type == BetType::Lay ==> {
            let (stake, l) = cube_stake_and_liability(bet_type, total, odds, liability)->Ok_0;
            &&& odds > 100
            &&& 0 < l == liability <= total
            &&& stake + l == total
            &&& stake * (odds - 100) <= liability * 100 < stake * (odds - 100) + (odds - 100)
        },
{
    if bet_type == BetType::Lay {
        let s = (total - liability) as int;
        let l = liability as int;
        let d = (odds - 100) as int;
        assert(s * d <= l * 100 < s * d + d) by (nonlinear_arith)
            requires
                s == l * 100 / d,
                d > 0,
                l >= 0,
        ;
    }
}

/// The first position of a selection with the given id.
pub open spec fn cube_selection_position(sels: Seq<CubeSelectionModel>, id: u64) -> Option<int>
    decreases sels.len(),
{
    if sels.len() == 0 {
        None
    } else if sels[0].selection_id == id {
        Some(0)
    } else {
        match cube_selection_position(sels.drop_first(), id) {
            Some(i) => Some(i + 1),
            None => None,
        }
    }
}

/// What the first step of placing a bet gives.
pub struct CubePlacement {
    pub bet_id: u64,
    pub stake: u128,
    pub liability: u128,
    pub matched: u128,
    pub unmatched: u128,
    pub bet: CubeBetModel,
    pub scheduler: SchedulerModel,
    pub market: CubeMarketModel,
}

/// The first step of placing a bet on market `market_id`, paid with
/// `total` of `token`: the market must be stored, open and not past its
/// closing time, the odds within 1.01 and 1000.00; the bet takes the id
/// after `last_bet_id`; its stake and liability are checked, the selection
/// must exist; the bet is matched in the selection's scheduler (`sched`),
/// which the selection takes, and the market's matched total grows. The
/// NFT token must be issued for the bet's NFT to be minted.
pub open spec fn cube_placement_result(
    market: Option<CubeMarketModel>,
    sched: SchedulerModel,
    token_issued: bool,
    market_id: u64,
    selection_id: u64,
    odds: u128,
    bet_type: BetType,
    liability: u128,
    caller: Address,
    token: Seq<char>,
    token_nonce: u64,
    total: u128,
    last_bet_id: u64,
    now: u64,
) -> Result<CubePlacement, ContractError> {
    match market {
        None => Err(ContractError::StorageDecode),
        Some(m) => if m.market_status != MarketStatus::Open {
            Err(ContractError::MarketNotOpenForBetting)
        } else if now >= m.close_timestamp {
            Err(ContractError::BetsClosed)
        } else if odds < 101 || odds > 100000 {
            Err(ContractError::OddsOutOfRange)
        } else if last_bet_id == u64::MAX {
            Err(ContractError::CounterOverflow)
        } else {
            match cube_stake_and_liability(bet_type, total, odds, liability) {
                Err(e) => Err(e),
                Ok((stake, liab)) => match cube_selection_position(m.selections, selection_id) {
                    None => Err(ContractError::InvalidSelection),
                    Some(i) => match cube_potential_profit(bet_type, stake, odds) {
                        Err(e) => Err(e),
                        Ok(p) => {
                            let bet = CubeBetModel {
                                bettor: caller,
                                event: market_id,
                                selection_id,
                                selection_description: m.selections[i].description,
                                stake_amount: stake,
                                liability: liab,
                                matched_amount: 0,
                                unmatched_amount: stake,
                                potential_profit: p,
                                odd: odds,
                                bet_type,
                                status: BetStatus::Unmatched,
                                payment_token: token,
                                payment_nonce: token_nonce,
                                nft_nonce: (last_bet_id + 1) as u64,
                                created_at: now,
                            };
                            match match_bet_result(sched, bet) {
                                Err(e) => Err(e),
                                Ok((s2, matched, unmatched, ub)) => if m.total_matched_amount + matched > u128::MAX {
                                    Err(ContractError::AmountOverflow)
                                } else if !token_issued {
                                    Err(ContractError::TokenNotIssued)
                                } else {
                                    Ok(
                                        CubePlacement {
                                            bet_id: (last_bet_id + 1) as u64,
                                            stake,
                                            liability: liab,
                                            matched,
                                            unmatched,
                                            bet: ub,
                                            scheduler: s2,
                                            market: CubeMarketModel {
                                                selections: m.selections.update(
                                                    i,
                                                    CubeSelectionModel { priority_queue: s2, ..m.selections[i] },
                                                ),
                                                total_matched_amount: (m.total_matched_amount + matched) as u128,
                                                ..m
                                            },
                                        },
                                    )
                                },
                            }
                        },
                    },
                },
            }
        },
    }
}

/// What the first step of placing a bet returns.
pub struct PlacedBet {
    pub bet_id: u64,
    pub bet: ScheduledBet,
    pub matched: u128,
    pub unmatched: u128,
    pub stake: u128,
    pub liability: u128,
}

/// The "placeBet" event of the scheduled exchange.
pub struct CubePlaceBetEvent {
    pub bettor: Address,
    pub nft_token: String,
    pub market_id: u64,
    pub selection_id: u64,
    pub stake: u128,
    pub odds: u128,
    pub bet_type: BetType,
    pub payment_token: String,
    pub payment_nonce: u64,
    pub matched: u128,
    pub unmatched: u128,
    pub liability: u128,
}

/// The profit a bet stands to make (see `cube_potential_profit`).
pub fn calculate_potential_profit(bet_type: &BetType, stake: &u128, odds: &u128) -> (r: Result<u128, ContractError>)
    ensures
        r == cube_potential_profit(*bet_type, *stake, *odds),
{
    match bet_type {
        BetType::Back => {
            if *odds < 100 {
                return Err(ContractError::NegativeAmount);
            }
            match (*odds - 100).checked_mul(*stake) {
                Some(v) => Ok(v / 100),
                None => Err(ContractError::AmountOverflow),
            }
        },
        BetType::Lay => Ok(*stake),
    }
}

/// The stake bought by `total` at `odds`: `total * 100 / odds`.
pub fn calculate_stake_from_total(total: &u128, odds: &u128) -> (r: Result<u128, ContractError>)
    ensures
        *odds == 0 ==> r == Err::<u128, ContractError>(ContractError::DivisionByZero),
        *odds > 0 && *total * 100 > u128::MAX ==> r == Err::<u128, ContractError>(ContractError::AmountOverflow),
        *odds > 0 && *total * 100 <= u128::MAX ==> r == Ok::<u128, ContractError>((*total * 100 / *odds as int) as u128),
{
    if *odds == 0 {
        return Err(ContractError::DivisionByZero);
    }
    match total.checked_mul(100) {
        Some(v) => Ok(v / *odds),
        None => Err(ContractError::AmountOverflow),
    }
}

/// The liability of a bet (see `cube_potential_liability`).
pub fn calculate_potential_liability(bet_type: &BetType, stake: &u128, odds: &u128) -> (r: Result<u128, ContractError>)
    ensures
        r == cube_potential_liability(*bet_type, *stake, *odds),
{
    match bet_type {
        BetType::Back => Ok(*stake),
        BetType::Lay => {
            if *odds < 100 {
                return Err(ContractError::NegativeAmount);
            }
            match stake.checked_mul(*odds - 100) {
                Some(v) => Ok(v / 100),
                None => Err(ContractError::AmountOverflow),
            }
        },
    }
}

/// What a bet wins: its potential profit for a back bet, its liability for
/// a lay bet.
pub fn calculate_win_amount(bet_type: &BetType, stake_amount: &u128, odds: &u128) -> (r: Result<u128, ContractError>)
    ensures
        *bet_type == BetType::Back ==> r == cube_potential_profit(*bet_type, *stake_amount, *odds),
        *bet_type == BetType::Lay ==> r == cube_potential_liability(*bet_type, *stake_amount, *odds),
{
    match bet_type {
        BetType::Back => calculate_potential_profit(bet_type, stake_amount, odds),
        BetType::Lay => calculate_potential_liability(bet_type, stake_amount, odds),
    }
}

fn find_cube_selection(sels: &Vec<CubeSelection>, id: u64) -> (r: Option<usize>)
    ensures
        match r {
            Some(i) => cube_selection_position(cube_selections_view(sels@), id) == Some(i as int) && i < sels@.len(),
            None => cube_selection_position(cube_selections_view(sels@), id) is None,
        },
{
    let ghost q = cube_selections_view(sels@);
    let mut i: usize = 0;
    assert(q.skip(0) =~= q);
    while i < sels.len()
        invariant
            q == cube_selections_view(sels@),
            0 <= i <= sels@.len(),
            cube_selection_position(q, id) == match cube_selection_position(q.skip(i as int), id) {
                Some(k) => Some(k + i),
                None => None::<int>,
            },
        decreases sels.len() - i,
    {
        assert(q.skip(i as int)[0] == sels@[i as int]@);
        assert(q.skip(i as int).drop_first() =~= q.skip(i + 1));
        if sels[i].selection_id == id {
            return Some(i);
        }
        i = i + 1;
    }
    assert(q.skip(i as int) =~= Seq::<CubeSelectionModel>::empty());
    None
}

fn cube_stake_and_liability_exec(bet_type: BetType, total: u128, odds: u128, liability: u128) -> (r: Result<(u128, u128), ContractError>)
    ensures
        r == cube_stake_and_liability(bet_type, total, odds, liability),
{
    match bet_type {
        BetType::Back => {
            if liability != 0 {
                return Err(ContractError::LiabilityNotZero);
            }
            Ok((total, 0))
        },
        BetType::Lay => {
            if liability == 0 {
                return Err(ContractError::LiabilityZero);
            }
            if liability > total {
                return Err(ContractError::NegativeAmount);
            }
            let stake = total - liability;
            if odds < 100 {
                return Err(ContractError::NegativeAmount);
            }
            let odds_minus_one = odds - 100;
            let scaled = match liability.checked_mul(100) {
                Some(v) => v,
                None => return Err(ContractError::AmountOverflow),
            };
            if odds_minus_one == 0 {
                return Err(ContractError::DivisionByZero);
            }
            let stake_check = scaled / odds_minus_one;
            if stake != stake_check {
                return Err(ContractError::LiabilityMismatch);
            }
            Ok((stake, liability))
        },
    }
}

impl CubeStorage {
    /// Places a bet, first step (see `cube_placement_result`), for `caller`
    /// paying `total` of `token`, at `now`, the bet NFT's last nonce being
    /// `last_bet_id`. A refused bet leaves the storage as it was.
    pub fn place_bet(
        &mut self,
        market_id: u64,
        selection_id: u64,
        odds: u128,
        bet_type: BetType,
        liability: u128,
        caller: Address,
        token: &String,
        token_nonce: u64,
        total: u128,
        last_bet_id: u64,
        now: u64,
    ) -> (r: Result<PlacedBet, ContractError>)
        ensures
            match cube_placement_result(
                if old(self).market_map().contains_key(market_id) {
                    Some(old(self).market_map()[market_id])
                } else {
                    None
                },
                old(self).scheduler_of(market_id, selection_id),
                old(self).bet_nft_token is Some,
                market_id,
                selection_id,
                odds,
                bet_type,
                liability,
                caller,
                token@,
                token_nonce,
                total,
                last_bet_id,
                now,
            ) {
                Err(e) => r == Err::<PlacedBet, ContractError>(e) && *final(self) == *old(self),
                Ok(p) => r matches Ok(out) && {
                    &&& out.bet_id == p.bet_id && out.bet@ == p.bet && out.matched == p.matched
                    &&& out.unmatched == p.unmatched && out.stake == p.stake && out.liability == p.liability
                    &&& final(self).market_map() == old(self).market_map().insert(market_id, p.market)
                    &&& final(self).scheduler_of(market_id, selection_id) == p.scheduler
                    &&& forall|m: u64, sl: u64|
                        !(m == market_id && sl == selection_id) ==> #[trigger] final(self).scheduler_of(m, sl)
                            == old(self).scheduler_of(m, sl)
                    &&& *final(self) == (CubeStorage {
                        markets: final(self).markets,
                        selection_scheduler: final(self).selection_scheduler,
                        ..*old(self)
                    })
                },
            },
    {
        let mut market = match self.read_market(market_id) {
            Some(m) => m,
            None => return Err(ContractError::StorageDecode),
        };
        if market.market_status != MarketStatus::Open {
            return Err(ContractError::MarketNotOpenForBetting);
        }
        if now >= market.close_timestamp {
            return Err(ContractError::BetsClosed);
        }
        if odds < 101 || odds > 100000 {
            return Err(ContractError::OddsOutOfRange);
        }
        if last_bet_id == u64::MAX {
            return Err(ContractError::CounterOverflow);
        }
        let bet_id = last_bet_id + 1;
        let (final_stake, final_liability) = cube_stake_and_liability_exec(bet_type, total, odds, liability)?;
        let selection_index = match find_cube_selection(&market.selections, selection_id) {
            Some(i) => i,
            None => return Err(ContractError::InvalidSelection),
        };
        let mut selection = market.selections[selection_index].clone();
        let potential_profit = calculate_potential_profit(&bet_type, &final_stake, &odds)?;
        let bet = ScheduledBet {
            bettor: caller,
            event: market_id,
            selection_id,
            selection_description: crate::cube::types::copy_bytes(&selection.description),
            stake_amount: final_stake,
            liability: final_liability,
            matched_amount: 0,
            unmatched_amount: final_stake,
            potential_profit,
            odd: odds,
            bet_type,
            status: BetStatus::Unmatched,
            payment_token: token.clone(),
            payment_nonce: token_nonce,
            nft_nonce: bet_id,
            created_at: now,
        };
        let mut scheduler = self.read_scheduler(market_id, selection_id);
        let (matched_amount, unmatched_amount, updated_bet) = scheduler.match_bet(bet)?;
        let total_matched = match market.total_matched_amount.checked_add(matched_amount) {
            Some(t) => t,
            None => return Err(ContractError::AmountOverflow),
        };
        if self.bet_nft_token.is_none() {
            return Err(ContractError::TokenNotIssued);
        }
        selection.priority_queue = scheduler.clone();
        let ghost sel_view = selection@;
        let ghost before = market.selections@;
        market.selections.set(selection_index, selection);
        assert(cube_selections_view(market.selections@) =~= cube_selections_view(before).update(
            selection_index as int,
            sel_view,
        ));
        market.total_matched_amount = total_matched;
        self.put_scheduler(market_id, selection_id, scheduler);
        let ghost s1 = *self;
        self.store_market(market_id, market);
        assert forall|m: u64, sl: u64| !(m == market_id && sl == selection_id) implies #[trigger] self.scheduler_of(m, sl)
            == old(self).scheduler_of(m, sl) by {
            assert(s1.scheduler_of(m, sl) == old(self).scheduler_of(m, sl));
        }
        Ok(PlacedBet {
            bet_id,
            bet: updated_bet,
            matched: matched_amount,
            unmatched: unmatched_amount,
            stake: final_stake,
            liability: final_liability,
        })
    }

    /// The "placeBet" event of a placed bet: the bettor, the bet NFT token,
    /// the market and selection, the stake, the odds and type, the payment
    /// token and nonce, the amounts matched and left open, and the
    /// liability; refused before the token is issued.
    pub fn place_bet_event(&self, placed: &PlacedBet) -> (r: Result<CubePlaceBetEvent, ContractError>)
        ensures
            match self.bet_nft_token {
                None => r == Err::<CubePlaceBetEvent, ContractError>(ContractError::TokenNotIssued),
                Some(t) => r matches Ok(ev) && {
                    &&& ev.bettor == placed.bet.bettor && ev.nft_token@ == t@
                    &&& ev.market_id == placed.bet.event && ev.selection_id == placed.bet.selection_id
                    &&& ev.stake == placed.stake && ev.odds == placed.bet.odd && ev.bet_type == placed.bet.bet_type
                    &&& ev.payment_token@ == placed.bet.payment_token@ && ev.payment_nonce == placed.bet.payment_nonce
                    &&& ev.matched == placed.matched && ev.unmatched == placed.unmatched
                    &&& ev.liability == placed.liability
                },
            },
    {
        let token = match &self.bet_nft_token {
            Some(t) => t.clone(),
            None => return Err(ContractError::TokenNotIssued),
        };
        Ok(CubePlaceBetEvent {
            bettor: placed.bet.bettor,
            nft_token: token,
            market_id: placed.bet.event,
            selection_id: placed.bet.selection_id,
            stake: placed.stake,
            odds: placed.bet.odd,
            bet_type: placed.bet.bet_type,
            payment_token: placed.bet.payment_token.clone(),
            payment_nonce: placed.bet.payment_nonce,
            matched: placed.matched,
            unmatched: placed.unmatched,
            liability: placed.liability,
        })
    }

    /// Places a bet, second step, once its NFT was minted with nonce
    /// `nft_nonce`: stores the bet under `bet_id`, locks its open stake (back)
    /// or its liability (lay) for the bettor, and gives the transfer of the
    /// NFT to the bettor. Refused, leaving the storage as it was, before the
    /// token is issued or when the locked funds would not fit.
    pub fn record_bet(&mut self, bet_id: u64, bet: ScheduledBet, nft_nonce: u64) -> (r: Result<Transfer, ContractError>)
        ensures
            ({
                let lock = match bet.bet_type {
                    BetType::Back => bet.unmatched_amount,
                    BetType::Lay => bet.liability,
                };
                if old(self).bet_nft_token is None {
                    r == Err::<Transfer, ContractError>(ContractError::TokenNotIssued) && *final(self) == *old(self)
                } else if old(self).locked_funds.spec_get(bet.bettor) + lock > u128::MAX {
                    r == Err::<Transfer, ContractError>(ContractError::AmountOverflow) && *final(self) == *old(self)
                } else {
                    r matches Ok(t) && {
                        &&& t@ == TransferModel {
                            to: bet.bettor,
                            token: old(self).bet_nft_token->0@,
                            nonce: nft_nonce,
                            amount: 1,
                        }
                        &&& final(self).bets() == old(self).bets().insert(bet_id, bet@)
                        &&& final(self).locked_funds.spec_get(bet.bettor) == old(self).locked_funds.spec_get(bet.bettor)
                            + lock
                        &&& forall|a: Address|
                            a != bet.bettor ==> #[trigger] final(self).locked_funds.spec_get(a)
                                == old(self).locked_funds.spec_get(a)
                        &&& *final(self) == (CubeStorage {
                            bet_by_id: final(self).bet_by_id,
                            locked_funds: final(self).locked_funds,
                            ..*old(self)
                        })
                    }
                }
            }),
    {
        let token = match &self.bet_nft_token {
            Some(t) => t.clone(),
            None => return Err(ContractError::TokenNotIssued),
        };
        let lock = match bet.bet_type {
            BetType::Back => bet.unmatched_amount,
            BetType::Lay => bet.liability,
        };
        let bettor = bet.bettor;
        let locked = self.locked_funds.get(&bettor);
        let new_locked = match locked.checked_add(lock) {
            Some(v) => v,
            None => return Err(ContractError::AmountOverflow),
        };
        self.put_bet(bet_id, bet);
        self.locked_funds.set(&bettor, new_locked);
        Ok(Transfer { to: bettor, token, nonce: nft_nonce, amount: 1 })
    }
}

} // verus!
