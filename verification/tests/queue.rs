use betcube::priority_queue::PriorityQueue;
use betcube::storage::StorageModule;
use betcube::types::{Address, Bet, BetType, Sport};

const ONE: u128 = 1_000_000_000_000_000_000;
const HOME_MARKET: u64 = 1_007_001;
const HOME: u64 = 10_070_011;

fn addr(n: u128) -> Address {
    Address { hi: 0, lo: n }
}

/// Bets as placement builds them, on the home win of a football event.
fn placed(bet_type: BetType, odds: u128, created_at: u64, bet_id: u64) -> Bet {
    let mut s = StorageModule::new();
    s.issue_callback(Some("BET-abcdef".to_string()));
    s.create_market(Sport::Football, 7, 1_000, 10).unwrap();
    let (bet, _, _) = s
        .place_bet(Sport::Football, HOME_MARKET, HOME, odds, bet_type, addr(1), &"EGLD".to_string(), 0, ONE, bet_id, bet_id, created_at)
        .unwrap();
    bet
}

#[test]
fn a_new_queue_is_empty() {
    let q = PriorityQueue::new();
    assert!(!q.contains(1));
    assert!(q.peek(BetType::Back).is_none());
    assert!(q.peek(BetType::Lay).is_none());
    assert_eq!(q.get_best_back_odds(), 0);
    assert_eq!(q.get_best_lay_odds(), 0);
    assert_eq!(q.get_back_liquidity(), 0);
    assert_eq!(q.get_lay_liquidity(), 0);
}

#[test]
fn back_bets_go_best_odds_first_then_earliest() {
    let q = PriorityQueue::new();
    let mut queue: Vec<Bet> = Vec::new();
    q.insert_bet_to_queue(&mut queue, placed(BetType::Back, 200, 5, 1), true);
    q.insert_bet_to_queue(&mut queue, placed(BetType::Back, 300, 6, 2), true);
    q.insert_bet_to_queue(&mut queue, placed(BetType::Back, 200, 4, 3), true);
    let order: Vec<u64> = queue.iter().map(|b| b.bet_id).collect();
    assert_eq!(order, vec![2, 3, 1]);
}

#[test]
fn lay_bets_go_lowest_odds_first() {
    let q = PriorityQueue::new();
    let mut queue: Vec<Bet> = Vec::new();
    q.insert_bet_to_queue(&mut queue, placed(BetType::Lay, 300, 5, 1), false);
    q.insert_bet_to_queue(&mut queue, placed(BetType::Lay, 150, 6, 2), false);
    q.insert_bet_to_queue(&mut queue, placed(BetType::Lay, 300, 1, 3), false);
    let order: Vec<u64> = queue.iter().map(|b| b.bet_id).collect();
    assert_eq!(order, vec![2, 3, 1]);
    assert!(q.should_insert_before(&queue[0], &queue[1], false));
    assert!(!q.should_insert_before(&queue[2], &queue[1], false));
}

#[test]
fn an_added_bet_enters_its_queue_and_leaves_on_removal() {
    let mut q = PriorityQueue::new();
    q.add(placed(BetType::Back, 200, 5, 1));
    q.add(placed(BetType::Back, 300, 6, 2));
    q.add(placed(BetType::Lay, 150, 7, 3));
    assert!(q.contains(1) && q.contains(2) && q.contains(3));
    assert_eq!(q.peek(BetType::Back).unwrap().bet_id, 2);
    assert_eq!(q.get_best_back_odds(), 300);
    assert_eq!(q.get_back_liquidity(), 2 * ONE);
    assert_eq!(q.get_best_lay_odds(), 150);
    let removed = q.remove(2).unwrap();
    assert_eq!(removed.bet_id, 2);
    assert!(!q.contains(2));
    assert_eq!(q.get_best_back_odds(), 200);
    assert_eq!(q.get_back_liquidity(), ONE);
    assert_eq!(q.remove(3).unwrap().bet_id, 3);
    assert_eq!(q.get_lay_liquidity(), 0);
    assert!(q.remove(9).is_none());
}
