use betcube::encoding::encode_cube_attributes;
use sha2::Digest;
use betcube::cube::manager::{calculate_potential_liability, calculate_potential_profit, calculate_stake_from_total, calculate_win_amount};
use betcube::cube::market::{build_orderbook_entries, create_selections};
use betcube::cube::storage::CubeStorage;
use betcube::cube::types::{BetScheduler, ScheduledBet};
use betcube::errors::ContractError;
use betcube::types::{Address, BetStatus, BetType, MarketStatus, Payment, PaymentToken};

const ONE: u128 = 1_000_000_000_000_000_000;

fn addr(n: u128) -> Address {
    Address { hi: 0, lo: n }
}

fn bet(nonce: u64, bet_type: BetType, odd: u128, stake: u128, liability: u128, created_at: u64) -> ScheduledBet {
    ScheduledBet {
        bettor: addr(nonce as u128),
        event: 1,
        selection_id: 1,
        selection_description: b"Home".to_vec(),
        stake_amount: stake,
        liability,
        matched_amount: 0,
        unmatched_amount: stake,
        potential_profit: 0,
        odd,
        bet_type,
        status: BetStatus::Unmatched,
        payment_token: "EGLD".to_string(),
        payment_nonce: 0,
        nft_nonce: nonce,
        created_at,
    }
}

fn storage_with_market() -> CubeStorage {
    let mut s = CubeStorage::init();
    s.issue_callback(Some("BET-123456".to_string()));
    let descriptions = vec![b"Home".to_vec(), b"Away".to_vec()];
    s.create_market(5, b"Final".to_vec(), &descriptions, 100, 10).unwrap();
    s
}

#[test]
fn back_bets_queue_best_odds_first_then_earliest() {
    let mut s = BetScheduler::init_bet_scheduler();
    s.add(bet(1, BetType::Back, 200, ONE, 0, 5)).unwrap();
    s.add(bet(2, BetType::Back, 300, ONE, 0, 6)).unwrap();
    s.add(bet(3, BetType::Back, 200, ONE, 0, 4)).unwrap();
    let order: Vec<u64> = s.back_bets.iter().map(|b| b.nft_nonce).collect();
    assert_eq!(order, vec![2, 3, 1]);
    assert_eq!(s.best_back_odds, 300);
    assert_eq!(s.back_liquidity, 3 * ONE);
    assert_eq!(s.unmatched_count, 1);
}

#[test]
fn lay_bets_queue_lowest_odds_first() {
    let mut s = BetScheduler::init_bet_scheduler();
    s.add(bet(1, BetType::Lay, 300, ONE, 2 * ONE, 5)).unwrap();
    s.add(bet(2, BetType::Lay, 150, ONE, ONE / 2, 6)).unwrap();
    assert_eq!(s.lay_bets[0].nft_nonce, 2);
    assert_eq!(s.best_lay_odds, 150);
    assert_eq!(s.lay_liquidity, 2 * ONE + ONE / 2);
}

#[test]
fn removing_a_bet_gives_back_its_liquidity() {
    let mut s = BetScheduler::init_bet_scheduler();
    s.add(bet(1, BetType::Back, 200, ONE, 0, 5)).unwrap();
    s.add(bet(2, BetType::Back, 300, 2 * ONE, 0, 6)).unwrap();
    let removed = s.remove(bet(2, BetType::Back, 0, 0, 0, 0)).unwrap().unwrap();
    assert_eq!(removed.stake_amount, 2 * ONE);
    assert_eq!(s.back_liquidity, ONE);
    assert_eq!(s.best_back_odds, 200);
    assert!(s.remove(bet(9, BetType::Back, 0, 0, 0, 0)).unwrap().is_none());
}

#[test]
fn a_back_bet_matches_lay_bets_up_to_its_odds() {
    let mut s = BetScheduler::init_bet_scheduler();
    s.add(bet(1, BetType::Lay, 150, ONE / 2, ONE / 4, 5)).unwrap();
    s.add(bet(2, BetType::Lay, 250, ONE, ONE, 6)).unwrap();
    s.add(bet(3, BetType::Lay, 400, ONE, 3 * ONE, 7)).unwrap();
    let (matching, matched, unmatched) = s.get_matching_bets(&bet(4, BetType::Back, 300, 2 * ONE, 0, 8)).unwrap();
    assert_eq!(matching.len(), 2);
    assert_eq!(matched, ONE + ONE / 2);
    assert_eq!(unmatched, ONE / 2);
    assert_eq!(matching[0].matched_amount, ONE / 2);
    assert_eq!(matching[1].unmatched_amount, 0);
}

#[test]
fn matching_keeps_only_the_counters_on_the_scheduler() {
    let mut s = BetScheduler::init_bet_scheduler();
    s.add(bet(1, BetType::Lay, 200, ONE, ONE, 5)).unwrap();
    let (matched, unmatched, placed) = s.match_bet(bet(2, BetType::Back, 200, ONE, 0, 6)).unwrap();
    assert_eq!(matched, ONE);
    assert_eq!(unmatched, 0);
    assert_eq!(placed.status, BetStatus::Matched);
    assert_eq!(s.lay_bets.len(), 1);
    assert_eq!(s.lay_bets[0].unmatched_amount, ONE);
    assert_eq!(s.matched_count, 2);
    assert_eq!(s.unmatched_count, 0);
}

#[test]
fn status_counters_never_go_below_zero() {
    let mut s = BetScheduler::init_bet_scheduler();
    s.update_status_counters(BetStatus::Win, BetStatus::Lost).unwrap();
    assert_eq!(s.win_count, 0);
    assert_eq!(s.lost_count, 1);
    let b = s.update_bet_status(bet(1, BetType::Back, 200, ONE, 0, 1), BetStatus::Canceled).unwrap();
    assert_eq!(b.status, BetStatus::Canceled);
    assert_eq!(s.canceled_count, 1);
}

#[test]
fn profit_liability_and_stake_formulas() {
    assert_eq!(calculate_potential_profit(&BetType::Back, &ONE, &250), Ok(ONE * 150 / 100));
    assert_eq!(calculate_potential_profit(&BetType::Lay, &ONE, &250), Ok(ONE));
    assert_eq!(calculate_potential_liability(&BetType::Lay, &ONE, &250), Ok(ONE * 150 / 100));
    assert_eq!(calculate_potential_liability(&BetType::Back, &ONE, &250), Ok(ONE));
    assert_eq!(calculate_stake_from_total(&ONE, &250), Ok(ONE * 100 / 250));
    assert_eq!(calculate_stake_from_total(&ONE, &0), Err(ContractError::DivisionByZero));
    assert_eq!(calculate_win_amount(&BetType::Lay, &ONE, &300), Ok(2 * ONE));
}

#[test]
fn markets_take_the_next_counter_value() {
    let mut s = CubeStorage::init();
    let descriptions = vec![b"Home".to_vec(), b"Away".to_vec()];
    let (id, ev) = s.create_market(5, b"Final".to_vec(), &descriptions, 100, 10).unwrap();
    assert_eq!(id, 2);
    assert_eq!(ev.description, b"Final".to_vec());
    assert_eq!(s.market_counter, 2);
    let m = s.get_market(2).unwrap();
    assert_eq!(m.selections.len(), 2);
    assert_eq!(m.selections[1].selection_id, 2);
    assert_eq!(s.create_market(5, b"Late".to_vec(), &descriptions, 10, 10).err(), Some(ContractError::CloseTimestampInPast));
    assert_eq!(s.get_market(9).err(), Some(ContractError::MarketDoesNotExist));
    assert!(s.is_market_open(2, 99));
    assert!(!s.is_market_open(2, 100));
}

#[test]
fn a_market_is_closed_once() {
    let mut s = storage_with_market();
    let ev = s.close_market(2, Some(1)).unwrap();
    assert_eq!(ev.winning_selection_id, 1);
    assert_eq!(s.get_market_status(2), Ok(MarketStatus::Closed));
    assert_eq!(s.close_market(2, None).err(), Some(ContractError::MarketNotOpen));
}

#[test]
fn a_back_bet_is_placed_and_locks_its_open_stake() {
    let mut s = storage_with_market();
    let placed = s.place_bet(2, 1, 200, BetType::Back, 0, addr(1), &"EGLD".to_string(), 0, ONE, 0, 20).unwrap();
    assert_eq!(placed.bet_id, 1);
    assert_eq!(placed.stake, ONE);
    assert_eq!(placed.unmatched, ONE);
    assert_eq!(placed.bet.potential_profit, ONE);
    let mint = s.mint_bet_nft(&placed.bet).unwrap();
    assert_eq!(mint.name, b"BetCube Ticket #1".to_vec());
    let t = s.record_bet(placed.bet_id, placed.bet, 1).unwrap();
    assert_eq!(t.nonce, 1);
    assert_eq!(s.locked_funds.get(&addr(1)), ONE);
}

#[test]
fn a_lay_bet_must_declare_the_matching_liability() {
    let mut s = storage_with_market();
    let r = s.place_bet(2, 1, 200, BetType::Lay, ONE / 4, addr(1), &"EGLD".to_string(), 0, ONE, 0, 20);
    assert_eq!(r.err(), Some(ContractError::LiabilityMismatch));
    let r = s.place_bet(2, 1, 200, BetType::Back, 5, addr(1), &"EGLD".to_string(), 0, ONE, 0, 20);
    assert_eq!(r.err(), Some(ContractError::LiabilityNotZero));
    let placed = s.place_bet(2, 1, 200, BetType::Lay, ONE / 2, addr(1), &"EGLD".to_string(), 0, ONE, 0, 20).unwrap();
    assert_eq!(placed.stake, ONE / 2);
    assert_eq!(placed.liability, ONE / 2);
    let r = s.place_bet(2, 1, 100_001, BetType::Back, 0, addr(1), &"EGLD".to_string(), 0, ONE, 0, 20);
    assert_eq!(r.err(), Some(ContractError::OddsOutOfRange));
    let r = s.place_bet(2, 7, 200, BetType::Back, 0, addr(1), &"EGLD".to_string(), 0, ONE, 0, 20);
    assert_eq!(r.err(), Some(ContractError::InvalidSelection));
}

#[test]
fn orderbook_entries_show_odds_and_open_amounts() {
    let entries = build_orderbook_entries(&vec![bet(1, BetType::Back, 210, ONE, 0, 1)]);
    assert_eq!(entries.len(), 1);
    assert_eq!(entries[0].odd, 210);
    assert_eq!(entries[0].amount, ONE);
    let sels = create_selections(&vec![b"Yes".to_vec()]);
    assert_eq!(sels[0].selection_id, 1);
    assert_eq!(sels[0].description, b"Yes".to_vec());
}

#[test]
fn counts_sum_over_the_selections() {
    let s = storage_with_market();
    let (totals, per) = s.get_bet_counts_by_status(2).unwrap();
    assert_eq!(totals.matched, 0);
    assert_eq!(per.len(), 2);
    assert_eq!(per[1].selection_id, 2);
}

#[test]
fn only_a_won_bet_is_paid_out() {
    let mut s = storage_with_market();
    let placed = s.place_bet(2, 1, 200, BetType::Back, 0, addr(1), &"EGLD".to_string(), 0, ONE, 0, 20).unwrap();
    let mut won = placed.bet.clone();
    won.status = BetStatus::Win;
    s.record_bet(1, won, 1).unwrap();
    let t = s.distribute_rewards(1, addr(1), &vec![]).unwrap();
    assert_eq!(t.amount, ONE);
    assert_eq!(t.to, addr(1));
    assert_eq!(s.distribute_rewards(1, addr(2), &vec![]).err(), Some(ContractError::InvalidRole));
    let wrong = Payment { token: PaymentToken::Esdt("BET-123456".to_string()), nonce: 9, amount: 1 };
    assert_eq!(s.distribute_rewards(1, addr(2), &vec![wrong]).err(), Some(ContractError::InvalidPayment));
    assert_eq!(s.distribute_rewards(3, addr(1), &vec![]).err(), Some(ContractError::InvalidBetId));
}

#[test]
fn a_scheduled_bet_nft_is_minted_with_the_hash_of_its_attributes() {
    let s = storage_with_market();
    let mint = s.mint_bet_nft(&bet(7, BetType::Back, 250, ONE, 0, 9)).unwrap();
    let bytes = encode_cube_attributes(&mint.attributes);
    assert_eq!(&bytes[..32], &[&[0u8; 31][..], &[7u8][..]].concat()[..]);
    assert_eq!(&bytes[32..40], &1u64.to_be_bytes()[..]);
    assert_eq!(&bytes[bytes.len() - 16..bytes.len() - 8], &0u64.to_be_bytes()[..]);
    assert_eq!(&bytes[bytes.len() - 8..], &9u64.to_be_bytes()[..]);
    assert_eq!(mint.hash.len(), 32);
    assert_eq!(mint.hash, sha2::Sha256::digest(&bytes).to_vec());
}
