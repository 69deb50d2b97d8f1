use betcube::errors::ContractError;
use betcube::tracker::add_to_orderbook;
use betcube::storage::{selection_key_exec, SelectionStorage, StorageModule};
use betcube::types::{Address, BetStatus, BetType, MarketStatus, MarketType, Payment, PaymentToken, Sport};

const ONE: u128 = 1_000_000_000_000_000_000;
const HOME_MARKET: u64 = 1_007_001;
const HOME: u64 = 10_070_011;

fn addr(n: u128) -> Address {
    Address { hi: 0, lo: n }
}

fn selection(s: &StorageModule) -> &SelectionStorage {
    s.selections.get(&selection_key_exec(HOME_MARKET, HOME)).unwrap()
}

fn nft(nonce: u64) -> Payment {
    Payment { token: PaymentToken::Esdt("BET-abcdef".to_string()), nonce, amount: 1 }
}

/// A football event with a back bet of one token at 2.00 on the home win by
/// account 1 (bet 1, NFT 11), half of it matched by a lay bet of account 2
/// (bet 2, NFT 12).
fn matched_event() -> StorageModule {
    let mut s = StorageModule::new();
    s.issue_callback(Some("BET-abcdef".to_string()));
    s.create_market(Sport::Football, 7, 1_000, 10).unwrap();
    let (back, m1, r1) =
        s.place_bet(Sport::Football, HOME_MARKET, HOME, 200, BetType::Back, addr(1), &"EGLD".to_string(), 0, ONE, 1, 0, 20).unwrap();
    assert_eq!((m1, r1), (0, ONE));
    s.record_placed_bet(back, r1, 11).unwrap();
    let (lay, m2, r2) =
        s.place_bet(Sport::Football, HOME_MARKET, HOME, 200, BetType::Lay, addr(2), &"EGLD".to_string(), 0, ONE, 2, 0, 30).unwrap();
    assert_eq!(m2, ONE / 2);
    assert_eq!(r2, 0);
    assert_eq!(lay.status, BetStatus::Matched);
    s.record_placed_bet(lay, r2, 12).unwrap();
    s
}

#[test]
fn a_lay_bet_at_the_same_odds_matches_the_back_bet() {
    let s = matched_event();
    let back = s.read_bet(1).unwrap();
    assert_eq!(back.total_matched, ONE / 2);
    assert_eq!(back.status, BetStatus::PartiallyMatched);
    assert_eq!(s.locked_funds.get(&addr(1)), ONE);
    assert_eq!(s.locked_funds.get(&addr(2)), 0);
    assert_eq!(s.read_market(HOME_MARKET).unwrap().total_matched_amount, ONE / 2);
}

#[test]
fn a_bet_matched_by_a_later_bet_is_not_counted_as_partially_matched() {
    let mut s = matched_event();
    let before = s.read_bet(1).unwrap();
    assert_eq!(s.cancel_bet(1, addr(1), &nft(11)).err(), Some(ContractError::CounterOverflow));
    let after = s.read_bet(1).unwrap();
    assert_eq!(after.status, before.status);
    assert_eq!(after.stake_amount, before.stake_amount);
    assert_eq!(s.locked_funds.get(&addr(1)), ONE);
}

#[test]
fn cancelling_a_partially_matched_bet_keeps_its_matched_part() {
    let mut s = matched_event();
    let (lay, m3, r3) =
        s.place_bet(Sport::Football, HOME_MARKET, HOME, 200, BetType::Lay, addr(3), &"EGLD".to_string(), 0, 2 * ONE, 3, 0, 40).unwrap();
    assert_eq!((m3, r3), (ONE / 2, ONE / 2));
    assert_eq!(m3 + r3, lay.stake_amount);
    assert_eq!(lay.status, BetStatus::PartiallyMatched);
    s.record_placed_bet(lay, r3, 13).unwrap();
    assert_eq!(selection(&s).total_matched_amount, ONE);
    assert_eq!(s.locked_funds.get(&addr(3)), ONE);
    let out = s.cancel_bet(3, addr(3), &nft(13)).unwrap();
    assert_eq!(out.refund.amount, ONE);
    assert_eq!(out.event.status, 0);
    assert_eq!(out.returned_nft.unwrap().nonce, 13);
    assert!(out.burned_nft.is_none());
    let kept = s.read_bet(3).unwrap();
    assert_eq!(kept.status, BetStatus::Matched);
    assert_eq!(kept.stake_amount, ONE / 2);
    assert_eq!(s.locked_funds.get(&addr(3)), 0);
}

#[test]
fn matches_count_against_the_back_liquidity() {
    let mut s = StorageModule::new();
    s.issue_callback(Some("BET-abcdef".to_string()));
    s.create_market(Sport::Football, 7, 1_000, 10).unwrap();
    let (lay, _, r1) =
        s.place_bet(Sport::Football, HOME_MARKET, HOME, 200, BetType::Lay, addr(2), &"EGLD".to_string(), 0, ONE, 1, 0, 20).unwrap();
    s.record_placed_bet(lay, r1, 11).unwrap();
    let before = selection(&s).lay_liquidity;
    assert_eq!(
        s.place_bet(Sport::Football, HOME_MARKET, HOME, 200, BetType::Back, addr(1), &"EGLD".to_string(), 0, ONE, 2, 0, 30).err(),
        Some(ContractError::InvalidMatchedAmount)
    );
    assert_eq!(selection(&s).lay_liquidity, before);
    assert_eq!(selection(&s).total_matched_amount, 0);
    assert!(s.read_bet(1).is_some());
}

#[test]
fn an_open_bet_comes_off_the_order_book() {
    let mut s = StorageModule::new();
    s.issue_callback(Some("BET-abcdef".to_string()));
    s.create_market(Sport::Football, 7, 1_000, 10).unwrap();
    let (back, _, _) =
        s.place_bet(Sport::Football, HOME_MARKET, HOME, 200, BetType::Back, addr(1), &"EGLD".to_string(), 0, ONE, 1, 0, 20).unwrap();
    assert_eq!(selection(&s).back_liquidity, ONE);
    assert_eq!(selection(&s).back_levels.len(), 1);
    s.remove_from_orderbook(&back).unwrap();
    assert_eq!(selection(&s).back_liquidity, 0);
    assert!(selection(&s).back_levels.is_empty());
    assert!(s.remove_from_orderbook(&back).is_ok());
}

#[test]
fn a_matched_bet_cannot_be_cancelled() {
    let mut s = matched_event();
    assert_eq!(s.cancel_bet(2, addr(2), &nft(12)).err(), Some(ContractError::BetCannotBeCancelled));
}

#[test]
fn closing_the_event_returns_what_is_still_open() {
    let mut s = matched_event();
    let refunds = s.process_event_markets(Sport::Football, 7).unwrap();
    assert_eq!(refunds.len(), 1);
    assert_eq!(refunds[0].to, addr(1));
    assert_eq!(refunds[0].amount, ONE / 2);
    assert_eq!(s.locked_funds.get(&addr(1)), ONE / 2);
    let back = s.read_bet(1).unwrap();
    assert_eq!(back.status, BetStatus::Matched);
    assert_eq!(back.stake_amount, ONE / 2);
    assert_eq!(s.get_market_status(HOME_MARKET), Ok(MarketStatus::Closed));
    assert_eq!(s.get_market_status(1_007_003), Ok(MarketStatus::Closed));
    assert_eq!(s.process_event_markets(Sport::Football, 7).err(), Some(ContractError::MarketNotOpen));
    assert_eq!(s.process_event_markets(Sport::Football, 8).err(), Some(ContractError::NoMarketsFoundForEventAndSport));
}

#[test]
fn markets_must_be_closed_before_the_score_settles_them() {
    let mut s = matched_event();
    assert_eq!(s.set_event_score(Sport::Football, 7, 2, 1).err(), Some(ContractError::MarketNotClosed));
    assert!(s.event_score.get(&7).is_none());
    assert_eq!(s.set_event_score(Sport::Football, 9, 2, 1).err(), Some(ContractError::NoMarketsFound));
}

#[test]
fn the_score_settles_back_and_lay_bets() {
    let mut s = matched_event();
    s.process_event_markets(Sport::Football, 7).unwrap();
    s.set_event_score(Sport::Football, 7, 2, 1).unwrap();
    assert_eq!(s.winning_selection.get(&HOME_MARKET), Some(&HOME));
    assert_eq!(s.winning_selection.get(&1_007_002), Some(&10_070_021));
    assert_eq!(s.winning_selection.get(&1_007_003), Some(&10_070_031));
    assert_eq!(s.get_market_status(HOME_MARKET), Ok(MarketStatus::Settled));
    assert_eq!(s.read_bet(1).unwrap().status, BetStatus::Win);
    assert_eq!(s.read_bet(2).unwrap().status, BetStatus::Lost);
    assert_eq!(s.event_score.get(&7), Some(&(2, 1)));
}

#[test]
fn a_draw_and_few_goals_pick_the_middle_and_second_selections() {
    let mut s = StorageModule::new();
    s.create_market(Sport::Football, 4, 1_000, 10).unwrap();
    assert_eq!(s.determine_winner(Sport::Football, MarketType::FullTimeResult, 1, 1, 4), Ok(10_040_012));
    assert_eq!(s.determine_winner(Sport::Football, MarketType::FullTimeResult, 0, 3, 4), Ok(10_040_013));
    assert_eq!(s.determine_winner(Sport::Football, MarketType::TotalGoals, 1, 1, 4), Ok(10_040_022));
    assert_eq!(s.determine_winner(Sport::Football, MarketType::BothTeamsToScore, 0, 3, 4), Ok(10_040_032));
    assert_eq!(s.determine_winner(Sport::Football, MarketType::TotalGoals, 1, 1, 5).err(), Some(ContractError::MarketMissing));
}

#[test]
fn an_away_win_in_a_two_way_market_picks_its_second_selection() {
    let mut s = StorageModule::new();
    s.create_market(Sport::Tennis, 4, 1_000, 10).unwrap();
    assert_eq!(s.determine_winner(Sport::Tennis, MarketType::FullTimeResult, 2, 0, 4), Ok(30_040_011));
    assert_eq!(s.determine_winner(Sport::Tennis, MarketType::FullTimeResult, 0, 2, 4), Ok(30_040_012));
    assert_eq!(s.determine_winner(Sport::Tennis, MarketType::FullTimeResult, 1, 1, 4).err(), Some(ContractError::InvalidSelection));
}

#[test]
fn a_won_bet_is_claimed_once() {
    let mut s = matched_event();
    s.process_event_markets(Sport::Football, 7).unwrap();
    s.set_event_score(Sport::Football, 7, 2, 1).unwrap();
    assert_eq!(s.claim_win(2, addr(2), &nft(12)).err(), Some(ContractError::BetNotWon));
    assert_eq!(s.claim_win(1, addr(2), &nft(11)).err(), Some(ContractError::NotBetOwnerClaim));
    let out = s.claim_win(1, addr(1), &nft(11)).unwrap();
    assert_eq!(out.payout.amount, ONE);
    assert_eq!(out.payout.to, addr(1));
    assert_eq!(out.nft_back.nonce, 11);
    assert_eq!(out.event.status, 6);
    assert_eq!(s.read_bet(1).unwrap().status, BetStatus::Claimed);
    assert_eq!(s.claim_win(1, addr(1), &nft(11)).err(), Some(ContractError::BetAlreadyClaimed));
}

#[test]
fn an_expired_market_must_belong_to_the_event() {
    let mut s = matched_event();
    assert_eq!(s.handle_expired_market(Sport::Football, 8, HOME_MARKET).err(), Some(ContractError::MarketMissing));
    let refunds = s.handle_expired_market(Sport::Football, 7, HOME_MARKET).unwrap();
    assert_eq!(refunds.len(), 1);
    assert_eq!(s.get_market_status(HOME_MARKET), Ok(MarketStatus::Closed));
    assert_eq!(s.get_market_status(1_007_002), Ok(MarketStatus::Open));
}

#[test]
fn returning_an_open_bet_drops_it_when_nothing_matched() {
    let mut s = StorageModule::new();
    s.issue_callback(Some("BET-abcdef".to_string()));
    s.create_market(Sport::Football, 7, 1_000, 10).unwrap();
    let (back, _, r) =
        s.place_bet(Sport::Football, HOME_MARKET, HOME, 300, BetType::Back, addr(3), &"EGLD".to_string(), 0, ONE, 5, 0, 20).unwrap();
    s.record_placed_bet(back, r, 15).unwrap();
    let t = s.return_unmatched_amount(5).unwrap().unwrap();
    assert_eq!(t.amount, ONE);
    assert!(!s.bet_exists(5));
    assert_eq!(s.locked_funds.get(&addr(3)), 0);
    assert_eq!(s.return_unmatched_amount(5).err(), Some(ContractError::StorageDecode));
}

#[test]
fn the_markets_of_an_event_are_closed_when_all_are() {
    let s = StorageModule::new();
    assert_eq!(s.are_event_markets_closed(7).err(), Some(ContractError::NoMarketsFoundForEvent));
}

#[test]
fn the_tracker_keeps_back_levels_best_odds_first() {
    let mut scratch = StorageModule::new();
    scratch.issue_callback(Some("BET-abcdef".to_string()));
    scratch.create_market(Sport::Football, 7, 1_000, 10).unwrap();
    let mut bets = Vec::new();
    for (id, odds) in [(1u64, 200u128), (2, 300), (3, 250)] {
        let (bet, m, r) = scratch
            .place_bet(Sport::Football, HOME_MARKET, HOME, odds, BetType::Back, addr(1), &"EGLD".to_string(), 0, ONE, id, id, 20)
            .unwrap();
        assert_eq!(m + r, bet.stake_amount);
        bets.push(bet);
    }
    let mut s = StorageModule::new();
    s.create_market(Sport::Football, 7, 1_000, 10).unwrap();
    for bet in &bets {
        add_to_orderbook(&mut s, bet).unwrap();
    }
    let odds: Vec<u128> = selection(&s).back_levels.iter().map(|l| l.odds).collect();
    assert_eq!(odds, vec![300, 250, 200]);
    assert_eq!(selection(&s).back_liquidity, 3 * ONE);
}

#[test]
fn a_level_shares_out_no_more_than_is_matched_at_it() {
    let mut s = StorageModule::new();
    s.issue_callback(Some("BET-abcdef".to_string()));
    s.create_market(Sport::Football, 7, 1_000, 10).unwrap();
    for (id, who) in [(1u64, 1u128), (2, 2)] {
        let (back, _, r) = s
            .place_bet(Sport::Football, HOME_MARKET, HOME, 200, BetType::Back, addr(who), &"EGLD".to_string(), 0, ONE, id, 10 + id, 20)
            .unwrap();
        s.record_placed_bet(back, r, 10 + id).unwrap();
    }
    let (lay, m, r) =
        s.place_bet(Sport::Football, HOME_MARKET, HOME, 200, BetType::Lay, addr(3), &"EGLD".to_string(), 5, ONE, 3, 13, 30).unwrap();
    assert_eq!((m, r), (ONE / 2, 0));
    let first = s.read_bet(1).unwrap();
    let second = s.read_bet(2).unwrap();
    assert_eq!(first.total_matched + second.total_matched, ONE / 2);
    assert_eq!(first.total_matched, ONE / 2);
    assert_eq!(second.total_matched, 0);
    assert_eq!(second.status, BetStatus::Unmatched);
    let made = first.matched_parts[0].counterparty.unwrap();
    assert_eq!((made.bettor, made.bet_id, made.payment_nonce, made.matched_at), (addr(3), 13, 5, 30));
    let taken = lay.matched_parts[0].counterparty.unwrap();
    assert_eq!((taken.bettor, taken.bet_id, taken.matched_at), (addr(1), 11, 30));
    assert_eq!(lay.matched_parts[0].amount, ONE / 2);
}
