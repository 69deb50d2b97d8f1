use betcube::encoding::encode_betslip_attributes;
use betcube::errors::ContractError;
use sha2::Digest;
use betcube::slip::betslip::{calculate_payout, calculate_total_odd, nonce_from_bytes, payout, payout_meta, BetslipStorage};
use betcube::slip::p2p::P2PStorage;
use betcube::slip::types::{Bet, BetslipAttributes, Status};
use betcube::types::{Address, Payment, PaymentToken};

fn addr(n: u128) -> Address {
    Address { hi: 0, lo: n }
}

fn leg(odd: u128) -> Bet {
    Bet { event: 1, option: 2, value: 3, odd, status: Status::InProgress }
}

fn issued_slips() -> BetslipStorage {
    let mut s = BetslipStorage::new();
    s.issue_callback(Some("TICKET-1a2b3c".to_string()));
    s.betslip_nft_base_uri = b"https://x.io".to_vec();
    s
}

fn attributes(payout: u128, is_paid: bool) -> BetslipAttributes {
    BetslipAttributes {
        creator: addr(1),
        bets: vec![leg(150)],
        total_odd: 150,
        stake: 10,
        payout,
        payment_token: "EGLD".to_string(),
        payment_nonce: 0,
        status: Status::InProgress,
        is_paid,
    }
}

#[test]
fn combined_odds_are_the_product_of_the_legs() {
    assert_eq!(calculate_total_odd(&vec![]), Ok(1));
    assert_eq!(calculate_total_odd(&vec![leg(150), leg(200), leg(110)]), Ok(150 * 200 * 110));
    assert_eq!(calculate_total_odd(&vec![leg(u128::MAX), leg(2)]), Err(ContractError::AmountOverflow));
}

#[test]
fn payout_is_odds_times_stake() {
    assert_eq!(calculate_payout(&300, &7), Ok(2100));
    assert_eq!(calculate_payout(&u128::MAX, &2), Err(ContractError::AmountOverflow));
}

#[test]
fn nonce_bytes_read_most_significant_first() {
    assert_eq!(nonce_from_bytes(&vec![]), Ok(0));
    assert_eq!(nonce_from_bytes(&vec![1, 2]), Ok(258));
    assert_eq!(nonce_from_bytes(&vec![0, 0, 0, 0, 0, 0, 0, 0, 5]), Ok(5));
    assert_eq!(nonce_from_bytes(&vec![1, 0, 0, 0, 0, 0, 0, 0, 0]), Err(ContractError::NonceTooLarge));
    assert_eq!(nonce_from_bytes(&u64::MAX.to_be_bytes().to_vec()), Ok(u64::MAX));
}

#[test]
fn placing_a_betslip_needs_a_deposit_and_the_token() {
    let bare = BetslipStorage::new();
    let legs = vec![leg(150), leg(200)];
    let egld = "EGLD".to_string();
    assert_eq!(bare.place_bet(&legs, addr(1), &egld, 0, 0, 4).err(), Some(ContractError::ZeroDeposit));
    assert_eq!(bare.place_bet(&legs, addr(1), &egld, 0, 10, u64::MAX).err(), Some(ContractError::CounterOverflow));
    assert_eq!(bare.place_bet(&legs, addr(1), &egld, 0, 10, 4).err(), Some(ContractError::TokenNotIssued));
    let s = issued_slips();
    let slip = s.place_bet(&legs, addr(1), &egld, 0, 10, 4).unwrap();
    assert_eq!(slip.total_odd, 30_000);
    assert_eq!(slip.payout, 300_000);
    assert_eq!(slip.nft_nonce, 5);
    assert_eq!(slip.status, Status::InProgress);
    let again = s.place_bet2(&legs, addr(1), &egld, 0, 10, 4).unwrap();
    assert_eq!(again.payout, slip.payout);
}

#[test]
fn a_betslip_nft_is_named_and_linked_by_its_nonce() {
    let s = issued_slips();
    let slip = s.place_bet(&vec![leg(150)], addr(1), &"EGLD".to_string(), 0, 10, 41).unwrap();
    let mint = s.mint_betslip_nft(&slip).unwrap();
    assert_eq!(mint.token, "TICKET-1a2b3c");
    assert_eq!(mint.amount, 1);
    assert_eq!(mint.name, b"BetCube Ticket #42".to_vec());
    assert_eq!(mint.uris, vec![b"https://x.io/betslip/42/nft".to_vec()]);
    assert!(!mint.attributes.is_paid);
    assert_eq!(mint.attributes.payout, 1500);
    assert!(BetslipStorage::new().mint_betslip_nft(&slip).is_err());
}

#[test]
fn a_recorded_betslip_is_claimed_with_its_nft() {
    let mut s = issued_slips();
    let slip = s.place_bet(&vec![leg(250)], addr(1), &"EGLD".to_string(), 0, 4, 0).unwrap();
    let sent = s.record_betslip(1, slip, 1).unwrap();
    assert_eq!((sent.to, sent.nonce, sent.amount), (addr(1), 1, 1));
    assert_eq!(s.balance(1), Ok(1000));
    assert_eq!(s.balance(2), Err(ContractError::BetslipDoesNotExist));
    let nft = vec![Payment { token: PaymentToken::Esdt("TICKET-1a2b3c".to_string()), nonce: 1, amount: 1 }];
    let (back, paid) = s.claim_payout(1, addr(7), &nft).unwrap();
    assert_eq!((back.to, back.nonce), (addr(7), 1));
    assert_eq!((paid.to, paid.amount), (addr(7), 1000));
    let (_, own) = s.claim_from_betslip_internal(1, addr(1), &vec![]).unwrap();
    assert_eq!(own.amount, 1000);
    assert_eq!(s.claim_payout(1, addr(7), &vec![]).err(), Some(ContractError::InvalidRole));
    let wrong = vec![Payment { token: PaymentToken::Esdt("TICKET-1a2b3c".to_string()), nonce: 2, amount: 1 }];
    assert_eq!(s.claim_payout(1, addr(7), &wrong).err(), Some(ContractError::InvalidPayment));
    assert_eq!(s.claim_payout(9, addr(1), &vec![]).err(), Some(ContractError::BetslipDoesNotExist));
}

#[test]
fn a_ticket_is_paid_once() {
    let (marked, nonce, t) = payout(&vec![0, 3], attributes(5000, false), addr(2)).unwrap();
    assert!(marked.is_paid);
    assert_eq!(nonce, 3);
    assert_eq!((t.to, t.token.as_str(), t.amount), (addr(2), "EGLD", 5000));
    assert_eq!(payout(&vec![0, 3], marked, addr(2)).err(), Some(ContractError::TicketAlreadyPaid));
    assert_eq!(
        payout(&vec![1, 0, 0, 0, 0, 0, 0, 0, 0], attributes(5000, false), addr(2)).err(),
        Some(ContractError::NonceTooLarge)
    );
}

#[test]
fn a_ticket_paid_in_a_six_decimal_token_is_scaled_down() {
    let (_, nonce, pay, back) =
        payout_meta(&"TICKET-1a2b3c".to_string(), &vec![9], &"USDC-aaaaaa".to_string(), attributes(3_000_000_000_000_000, false), addr(4))
            .unwrap();
    assert_eq!(nonce, 9);
    assert_eq!(pay.amount, 3000);
    assert_eq!(pay.token, "USDC-aaaaaa");
    assert_eq!((back.nonce, back.amount, back.token.as_str()), (9, 1, "TICKET-1a2b3c"));
}

fn p2p() -> P2PStorage {
    let mut s = P2PStorage { token_manager: None, p2p_bets: vec![], active_bets: vec![] };
    s.create_p2p_bet(b"A vs B".to_vec(), vec![b"A".to_vec(), b"B".to_vec()], vec![180, 210], addr(1)).unwrap();
    s
}

fn match_1(s: &P2PStorage) -> Vec<u8> {
    s.p2p_bets[0].bet_id.clone()
}

#[test]
fn a_p2p_bet_is_known_by_the_sha256_of_its_event() {
    let mut s = P2PStorage { token_manager: None, p2p_bets: vec![], active_bets: vec![] };
    let created = s.create_p2p_bet(b"abc".to_vec(), vec![b"A".to_vec()], vec![150], addr(1)).unwrap();
    assert_eq!(created.creator, addr(1));
    assert_eq!(created.event_details, b"abc".to_vec());
    assert_eq!(created.bet_id, s.p2p_bets[0].bet_id);
    let hex: String = created.bet_id.iter().map(|b| format!("{:02x}", b)).collect();
    assert_eq!(hex, "ba7816bf8f01cfea414140de5dae2223b00361a396177a9cb410ff61f20015ad");
    assert_eq!(s.active_bets, vec![s.p2p_bets[0].bet_id.clone()]);
}

#[test]
fn a_p2p_bet_id_is_open_once() {
    let mut s = p2p();
    let id = match_1(&s);
    assert_eq!(s.create_p2p_bet(b"A vs B".to_vec(), vec![], vec![], addr(2)).err(), Some(ContractError::P2PBetExists));
    assert_eq!(s.p2p_bets.len(), 1);
    assert_eq!(s.p2p_bets[0].event_details, b"A vs B".to_vec());
    assert_eq!(s.active_bets, vec![id]);
}

#[test]
fn joining_needs_an_active_bet_a_known_option_and_the_token() {
    let mut s = p2p();
    let id = match_1(&s);
    assert_eq!(s.join_p2p_bet(&b"match-2".to_vec(), &b"A".to_vec(), addr(2), 10).err(), Some(ContractError::P2PBetNotActive));
    assert_eq!(s.join_p2p_bet(&id, &b"C".to_vec(), addr(2), 10).err(), Some(ContractError::InvalidBettingOption));
    assert_eq!(s.join_p2p_bet(&id, &b"A".to_vec(), addr(2), 10).err(), Some(ContractError::TokenNotIssued));
    assert_eq!(s.p2p_bets[0].total_pool, 0);
    s.token_manager = Some("PART-000001".to_string());
    let mint = s.join_p2p_bet(&id, &b"A".to_vec(), addr(2), 10).unwrap();
    assert_eq!((mint.to, mint.amount, mint.attributes.stake), (addr(2), 1, 10));
    assert_eq!(mint.name, b"Participation NFT".to_vec());
    assert_eq!(s.p2p_bets[0].total_pool, 10);
    let sent = s.record_participation_nft(&id, 77).unwrap();
    assert_eq!((sent.to, sent.nonce), (addr(2), 77));
    assert_eq!(s.p2p_bets[0].participants[0].nft_id, Some(77));
}

#[test]
fn winners_share_the_pool_by_stake() {
    let mut s = p2p();
    let id = match_1(&s);
    s.token_manager = Some("PART-000001".to_string());
    s.join_p2p_bet(&id, &b"A".to_vec(), addr(2), 30).unwrap();
    s.join_p2p_bet(&id, &b"B".to_vec(), addr(3), 50).unwrap();
    s.join_p2p_bet(&id, &b"A".to_vec(), addr(4), 10).unwrap();
    assert_eq!(s.finalize_p2p_bet(&id, &b"A".to_vec(), addr(2)).err(), Some(ContractError::NotBetCreator));
    let paid = s.finalize_p2p_bet(&id, &b"A".to_vec(), addr(1)).unwrap();
    assert_eq!(paid.len(), 2);
    assert_eq!((paid[0].to, paid[0].amount), (addr(2), 30 * 90 / 40));
    assert_eq!((paid[1].to, paid[1].amount), (addr(4), 10 * 90 / 40));
    assert!(paid.iter().map(|t| t.amount).sum::<u128>() <= 90);
    assert!(!s.p2p_bets[0].is_active);
    assert!(s.p2p_bets[0].result_declared);
    assert!(s.active_bets.is_empty());
    assert_eq!(
        s.join_p2p_bet(&id, &b"A".to_vec(), addr(5), 1).err(),
        Some(ContractError::P2PBetNotActive)
    );
    assert_eq!(s.finalize_p2p_bet(&id, &b"A".to_vec(), addr(1)).err(), Some(ContractError::BetAlreadyFinalized));
}

#[test]
fn a_result_nobody_chose_is_refused() {
    let mut s = p2p();
    let id = match_1(&s);
    s.token_manager = Some("PART-000001".to_string());
    s.join_p2p_bet(&id, &b"A".to_vec(), addr(2), 30).unwrap();
    assert_eq!(s.finalize_p2p_bet(&id, &b"B".to_vec(), addr(1)).err(), Some(ContractError::NoWinners));
    assert!(s.p2p_bets[0].is_active);
    assert_eq!(s.finalize_p2p_bet(&b"nope".to_vec(), &b"B".to_vec(), addr(1)).err(), Some(ContractError::StorageDecode));
}

#[test]
fn betslip_attributes_are_written_field_by_field() {
    let a = attributes(1500, false);
    let mut expected: Vec<u8> = vec![0; 31];
    expected.push(1);
    expected.extend_from_slice(&[0, 0, 0, 1]);
    expected.extend_from_slice(&[0, 0, 0, 1, 1, 0, 0, 0, 1, 2, 0, 0, 0, 1, 3, 0, 0, 0, 1, 150, 0]);
    expected.extend_from_slice(&[0, 0, 0, 1, 150]);
    expected.extend_from_slice(&[0, 0, 0, 1, 10]);
    expected.extend_from_slice(&[0, 0, 0, 2, 0x05, 0xdc]);
    expected.extend_from_slice(&[0, 0, 0, 4, b'E', b'G', b'L', b'D']);
    expected.extend_from_slice(&[0; 8]);
    expected.extend_from_slice(&[0, 0]);
    assert_eq!(encode_betslip_attributes(&a), expected);
}

#[test]
fn a_betslip_nft_is_minted_with_the_hash_of_its_attributes() {
    let s = issued_slips();
    let slip = s.place_bet(&vec![leg(150)], addr(1), &"EGLD".to_string(), 0, 10, 41).unwrap();
    let mint = s.mint_betslip_nft(&slip).unwrap();
    assert_eq!(mint.hash.len(), 32);
    assert_eq!(mint.hash, sha2::Sha256::digest(encode_betslip_attributes(&mint.attributes)).to_vec());
}
