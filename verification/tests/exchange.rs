use betcube::bet::{calculate_stake_and_liability, event_sport_index_exec, status_number_exec};
use betcube::encoding::encode_bet_attributes;
use betcube::errors::ContractError;
use betcube::market::get_selection;
use betcube::storage::StorageModule;
use betcube::types::{
    Address, BetStatus, BetType, MarketStatus, MarketType, Payment, PaymentToken, SelectionType, Sport,
};
use betcube::utils::{generate_unique_bet_hash, generate_unique_bet_hash_input, serialize_u64, u64_to_ascii};
use sha2::Digest;
use betcube::validation::{validate_bet_amount, validate_bet_odds, validate_market_timestamp};

const ONE: u128 = 1_000_000_000_000_000_000;

fn addr(n: u128) -> Address {
    Address { hi: 0, lo: n }
}

fn egld() -> String {
    "EGLD".to_string()
}

fn storage_with_token() -> StorageModule {
    let mut s = StorageModule::new();
    s.issue_callback(Some("BET-abcdef".to_string()));
    s
}

#[test]
fn football_event_gets_three_markets_with_numbered_ids() {
    let mut s = StorageModule::new();
    let ev = s.create_market(Sport::Football, 7, 1_000, 10).unwrap();
    assert_eq!(ev.sport_index, 1);
    assert_eq!(ev.event_id, 7);
    assert_eq!(ev.markets.len(), 3);
    assert_eq!(ev.markets[0].market_id, 1_007_001);
    assert_eq!(ev.markets[1].market_id, 1_007_002);
    assert_eq!(ev.markets[2].market_id, 1_007_003);
    assert_eq!(ev.markets[0].selections.len(), 3);
    assert_eq!(ev.markets[0].selections[1].selection_id, 2);
    assert_eq!(ev.markets[0].selections[1].selection_type, SelectionType::Draw);
    assert_eq!(s.get_market_status(1_007_002), Ok(MarketStatus::Open));
    let market = s.read_market(1_007_001).unwrap();
    assert_eq!(market.selections[0].id, 10_070_011);
    assert_eq!(market.selections[2].id, 10_070_013);
    assert_eq!(market.description, b"Fulltime Result".to_vec());
    assert_eq!(get_selection(&market, 10_070_012).unwrap().selection_type, SelectionType::Draw);
    assert_eq!(get_selection(&market, 99).err(), Some(ContractError::SelectionNotFound));
}

#[test]
fn other_sports_get_a_two_way_result_market() {
    let mut s = StorageModule::new();
    let ev = s.create_market(Sport::Tennis, 5, 1_000, 10).unwrap();
    assert_eq!(ev.sport_index, 3);
    assert_eq!(ev.markets.len(), 1);
    assert_eq!(ev.markets[0].market_id, 3_005_001);
    assert_eq!(ev.markets[0].selections.len(), 2);
    assert_eq!(ev.markets[0].selections[1].selection_type, SelectionType::Two);
}

#[test]
fn markets_of_an_event_are_created_once() {
    let mut s = StorageModule::new();
    s.create_market(Sport::Basketball, 3, 1_000, 10).unwrap();
    assert_eq!(s.create_market(Sport::Basketball, 3, 2_000, 10).err(), Some(ContractError::MarketsAlreadyExist));
}

#[test]
fn markets_must_close_in_the_future() {
    let mut s = StorageModule::new();
    assert_eq!(s.create_market(Sport::Football, 1, 10, 10).err(), Some(ContractError::InvalidMarketTimestamp));
    assert_eq!(validate_market_timestamp(11, 10), Ok(()));
}

#[test]
fn stake_must_lie_between_a_tenth_and_ten_thousand_tokens() {
    assert_eq!(validate_bet_amount(&(ONE / 10)), Ok(()));
    assert_eq!(validate_bet_amount(&(ONE / 10 - 1)), Err(ContractError::StakeOutOfRange));
    assert_eq!(validate_bet_amount(&(10_000 * ONE)), Ok(()));
    assert_eq!(validate_bet_amount(&(10_000 * ONE + ONE / 10)), Err(ContractError::StakeOutOfRange));
}

#[test]
fn odds_must_lie_between_1_01_and_1000() {
    assert_eq!(validate_bet_odds(&101), Ok(()));
    assert_eq!(validate_bet_odds(&100), Err(ContractError::OddsOutOfRange));
    assert_eq!(validate_bet_odds(&100_000), Ok(()));
    assert_eq!(validate_bet_odds(&100_001), Err(ContractError::OddsOutOfRange));
}

#[test]
fn lay_stake_and_liability_add_up_to_the_amount_paid() {
    let (stake, liability) = calculate_stake_and_liability(&BetType::Lay, &ONE, &250).unwrap();
    assert_eq!(stake, ONE * 100 / 250);
    assert_eq!(stake + liability, ONE);
    assert_eq!(calculate_stake_and_liability(&BetType::Back, &ONE, &250), Ok((ONE, 0)));
    assert_eq!(calculate_stake_and_liability(&BetType::Lay, &ONE, &100), Err(ContractError::OddsTooLow));
    assert_eq!(calculate_stake_and_liability(&BetType::Lay, &1, &250), Err(ContractError::InvalidStake));
}

#[test]
fn a_bet_needs_an_open_market_and_an_issued_token() {
    let mut s = StorageModule::new();
    let r = s.place_bet(Sport::Football, 1_007_001, 10_070_011, 200, BetType::Back, addr(1), &egld(), 0, ONE, 1, 0, 20);
    assert_eq!(r.err(), Some(ContractError::InvalidMarket));
    s.create_market(Sport::Football, 7, 1_000, 10).unwrap();
    let r = s.place_bet(Sport::Football, 1_007_001, 10_070_011, 200, BetType::Back, addr(1), &egld(), 0, ONE, 1, 0, 20);
    assert_eq!(r.err(), Some(ContractError::TokenNotIssued));
    let r = s.place_bet(Sport::Football, 1_007_001, 10_070_011, 200, BetType::Back, addr(1), &egld(), 0, ONE, 1, 0, 1_000);
    assert_eq!(r.err(), Some(ContractError::MarketAlreadyClosed));
    let r = s.place_bet(Sport::Football, 1_007_001, 99, 200, BetType::Back, addr(1), &egld(), 0, ONE, 1, 0, 20);
    assert_eq!(r.err(), Some(ContractError::InvalidSelection));
    assert!(!s.bet_exists(1));
}

#[test]
fn an_unmatched_back_bet_locks_its_stake() {
    let mut s = storage_with_token();
    s.create_market(Sport::Football, 7, 1_000, 10).unwrap();
    let (bet, matched, remaining) =
        s.place_bet(Sport::Football, 1_007_001, 10_070_011, 200, BetType::Back, addr(1), &egld(), 0, ONE, 1, 0, 20).unwrap();
    assert_eq!(matched, 0);
    assert_eq!(remaining, ONE);
    assert_eq!(bet.status, BetStatus::Unmatched);
    assert_eq!(bet.stake_amount, ONE);
    let (nft, event) = s.record_placed_bet(bet, remaining, 5).unwrap();
    assert_eq!(nft.to, addr(1));
    assert_eq!(nft.token, "BET-abcdef".to_string());
    assert_eq!(nft.nonce, 5);
    assert_eq!(nft.amount, 1);
    assert_eq!(event.bet_id, 1);
    assert_eq!(event.status, 1);
    assert_eq!(event.potential_profit, ONE);
    assert_eq!(s.locked_funds.get(&addr(1)), ONE);
    assert!(s.bet_exists(1));
    assert_eq!(s.bet_nonce_to_id.get(&5), Some(&1));
}

#[test]
fn a_lay_bet_locks_its_share_of_what_was_paid() {
    let mut s = storage_with_token();
    s.create_market(Sport::Football, 7, 1_000, 10).unwrap();
    let (bet, _, remaining) =
        s.place_bet(Sport::Football, 1_007_001, 10_070_011, 200, BetType::Lay, addr(2), &egld(), 0, ONE, 3, 0, 20).unwrap();
    assert_eq!(bet.stake_amount, ONE / 2);
    assert_eq!(remaining, ONE / 2);
    s.record_placed_bet(bet, remaining, 6).unwrap();
    assert_eq!(s.locked_funds.get(&addr(2)), ONE);
}

#[test]
fn cancelling_an_unmatched_bet_refunds_and_burns_its_nft() {
    let mut s = storage_with_token();
    s.create_market(Sport::Football, 7, 1_000, 10).unwrap();
    let (bet, _, remaining) =
        s.place_bet(Sport::Football, 1_007_001, 10_070_011, 200, BetType::Back, addr(1), &egld(), 0, ONE, 1, 0, 20).unwrap();
    s.record_placed_bet(bet, remaining, 5).unwrap();
    let wrong_owner = Payment { token: PaymentToken::Esdt("BET-abcdef".to_string()), nonce: 5, amount: 1 };
    assert_eq!(s.cancel_bet(1, addr(9), &wrong_owner).err(), Some(ContractError::NotBetOwnerCancel));
    let wrong_nonce = Payment { token: PaymentToken::Esdt("BET-abcdef".to_string()), nonce: 4, amount: 1 };
    assert_eq!(s.cancel_bet(1, addr(1), &wrong_nonce).err(), Some(ContractError::InvalidNftNonce));
    let egld_payment = Payment { token: PaymentToken::Egld, nonce: 0, amount: 1 };
    assert_eq!(s.cancel_bet(1, addr(1), &egld_payment).err(), Some(ContractError::EsdtExpected));
    let nft = Payment { token: PaymentToken::Esdt("BET-abcdef".to_string()), nonce: 5, amount: 1 };
    let out = s.cancel_bet(1, addr(1), &nft).unwrap();
    assert_eq!(out.refund.amount, ONE);
    assert_eq!(out.refund.to, addr(1));
    assert_eq!(out.event.status, 1);
    assert!(out.returned_nft.is_none());
    assert_eq!(out.burned_nft.unwrap().nonce, 5);
    assert_eq!(s.locked_funds.get(&addr(1)), 0);
    assert!(!s.bet_exists(1));
    assert_eq!(s.cancel_bet(1, addr(1), &nft).err(), Some(ContractError::BetDoesNotExist));
}

#[test]
fn event_indexes_and_status_numbers() {
    assert_eq!(event_sport_index_exec(Sport::Football), 1);
    assert_eq!(event_sport_index_exec(Sport::Dota2), 4);
    assert_eq!(status_number_exec(BetStatus::Matched), 0);
    assert_eq!(status_number_exec(BetStatus::Claimed), 6);
}

#[test]
fn decimal_text_of_numbers() {
    assert_eq!(u64_to_ascii(0), b"0".to_vec());
    assert_eq!(u64_to_ascii(7), b"7".to_vec());
    assert_eq!(u64_to_ascii(12_045), b"12045".to_vec());
    assert_eq!(u64_to_ascii(u64::MAX), b"18446744073709551615".to_vec());
}

#[test]
fn numbers_serialize_big_endian() {
    assert_eq!(serialize_u64(0x0102_0304_0506_0708), vec![1, 2, 3, 4, 5, 6, 7, 8]);
    assert_eq!(serialize_u64(1), vec![0, 0, 0, 0, 0, 0, 0, 1]);
}

#[test]
fn selection_labels_and_market_types() {
    assert_eq!(SelectionType::Draw.to_string(), "X");
    assert_eq!(SelectionType::Under.to_string(), "UNDER");
    assert_eq!(SelectionType::from_market_type_and_index(&MarketType::TotalGoals, 1), SelectionType::Under);
    assert_eq!(MarketType::from_u64(2), MarketType::TotalGoals);
    assert_eq!(MarketType::BothTeamsToScore.to_u64(), 3);
    assert_eq!(MarketType::from_u64(MarketType::FullTimeResult.to_u64()), MarketType::FullTimeResult);
    assert_eq!(MarketType::TotalGoals.to_description(), b"Over/Under 2.5 Goals");
}

#[test]
fn token_issue_is_refused_once_issued() {
    let s = storage_with_token();
    assert_eq!(s.issue_token(5).err(), Some(ContractError::TokenAlreadyIssued));
    let fresh = StorageModule::new();
    let req = fresh.issue_token(5).unwrap();
    assert_eq!(req.token_name, b"BetcubeTickets".to_vec());
    assert_eq!(req.token_ticker, b"BET".to_vec());
    assert_eq!(fresh.set_local_roles().err(), Some(ContractError::TokenNotIssued));
}

#[test]
fn error_messages() {
    assert_eq!(ContractError::MarketsAlreadyExist.message(), "Markets already exist for this event");
    assert_eq!(ContractError::NoWinners.message(), "No winners for this bet!");
}

#[test]
fn a_bet_hash_is_the_sha256_of_its_details() {
    let token = b"EGLD".to_vec();
    let input = generate_unique_bet_hash_input(&addr(3), Sport::Football, 7, 9, 250, BetType::Lay, &token, 0, ONE, 1_700_000_000, 42);
    assert_eq!(input.len(), 32 + 1 + 8 + 8 + 1 + 1 + 4 + 8 + 8 + 8 + 8);
    let hash = generate_unique_bet_hash(&addr(3), Sport::Football, 7, 9, 250, BetType::Lay, &token, 0, ONE, 1_700_000_000, 42);
    assert_eq!(hash.len(), 32);
    assert_eq!(hash, sha2::Sha256::digest(&input).to_vec());
    assert_ne!(hash, input);
}

#[test]
fn cancelling_an_unmatched_lay_bet_refunds_what_it_locked() {
    let mut s = storage_with_token();
    s.create_market(Sport::Football, 7, 1_000, 10).unwrap();
    let (bet, _, remaining) =
        s.place_bet(Sport::Football, 1_007_001, 10_070_011, 250, BetType::Lay, addr(2), &egld(), 0, 3 * ONE, 3, 0, 20).unwrap();
    s.record_placed_bet(bet, remaining, 6).unwrap();
    let locked = s.locked_funds.get(&addr(2));
    assert_eq!(locked, 3 * ONE);
    let nft = Payment { token: PaymentToken::Esdt("BET-abcdef".to_string()), nonce: 6, amount: 1 };
    let out = s.cancel_bet(3, addr(2), &nft).unwrap();
    assert_eq!(out.refund.amount, locked);
    assert_eq!(s.locked_funds.get(&addr(2)), 0);
}

#[test]
fn a_bet_nft_is_minted_with_the_hash_of_its_attributes() {
    let mut s = storage_with_token();
    s.create_market(Sport::Football, 7, 1_000, 10).unwrap();
    let (bet, _, _) =
        s.place_bet(Sport::Football, 1_007_001, 10_070_011, 250, BetType::Lay, addr(2), &egld(), 0, ONE, 3, 0, 20).unwrap();
    let mint = s.mint_bet_nft(&bet).unwrap();
    let bytes = encode_bet_attributes(&mint.attributes);
    assert_eq!(&bytes[..8], &1_007_001u64.to_be_bytes()[..]);
    assert_eq!(&bytes[8..16], &10_070_011u64.to_be_bytes()[..]);
    assert_eq!(bytes[16], 0);
    assert_eq!(&bytes[bytes.len() - 7..], &[0, 0, 0, 1, 250, 1, 1][..]);
    assert_eq!(mint.hash.len(), 32);
    assert_eq!(mint.hash, sha2::Sha256::digest(&bytes).to_vec());
}
