//! The bytes in which a bet NFT's attributes are written: each number of 64
//! bits as its eight bytes, each amount as its length in four bytes and its
//! bytes with no leading zero, each list as its length in four bytes and its
//! items, each choice (type, status) as the one byte of its position, each
//! flag as one byte, each address as its 32 bytes and each token name as its
//! length and its bytes, all most significant first and in the order of the
//! fields.
use vstd::prelude::*;
use crate::bet::status_number;
use crate::types::{
    BetAttributes, BetStatus, BetType, LevelModel, PriceLevel, Selection, SelectionModel,
    SelectionType, TrackerModel,
};
use crate::cube::types::CubeBetAttributes;
use crate::slip::types::{Bet as SlipLeg, BetslipAttributes, Status};
use crate::types::Address;
use crate::utils::{address_bytes, amount_bytes, fixed_be, fixed_width_bytes, minimal_be, serialize_u64};
use vstd::utf8::encode_utf8;

verus! {

/// A length as it is written: its four low bytes.
pub open spec fn enc_len(n: nat) -> Seq<u8> {
    fixed_be(n, 4)
}

/// An amount as it is written: the length of its bytes, then its bytes.
pub open spec fn enc_amount(v: u128) -> Seq<u8> {
    enc_len(minimal_be(v as nat).len()) + minimal_be(v as nat)
}

/// A number of 64 bits as it is written: its eight bytes.
pub open spec fn enc_u64(v: u64) -> Seq<u8> {
    fixed_be(v as nat, 8)
}

/// The numbers of a list, one after the other.
pub open spec fn enc_u64_items(s: Seq<u64>) -> Seq<u8>
    decreases s.len(),
{
    if s.len() == 0 {
        Seq::empty()
    } else {
        enc_u64_items(s.drop_last()) + enc_u64(s.last())
    }
}

/// A list of numbers: its length, then its numbers.
pub open spec fn enc_u64_list(s: Seq<u64>) -> Seq<u8> {
    enc_len(s.len()) + enc_u64_items(s)
}

/// A price level: its odds, its stake, then its bets.
pub open spec fn enc_level(l: LevelModel) -> Seq<u8> {
    enc_amount(l.odds) + enc_amount(l.total_stake) + enc_u64_list(l.bet_nonces)
}

/// The price levels of a list, one after the other.
pub open spec fn enc_level_items(s: Seq<LevelModel>) -> Seq<u8>
    decreases s.len(),
{
    if s.len() == 0 {
        Seq::empty()
    } else {
        enc_level_items(s.drop_last()) + enc_level(s.last())
    }
}

/// A list of price levels: its length, then its levels.
pub open spec fn enc_level_list(s: Seq<LevelModel>) -> Seq<u8> {
    enc_len(s.len()) + enc_level_items(s)
}

/// An order book: its back and lay levels, its back and lay liquidity, then
/// its counters of matched, unmatched, partially matched, won, lost and
/// cancelled bets.
pub open spec fn enc_tracker(t: TrackerModel) -> Seq<u8> {
    enc_level_list(t.back_levels) + enc_level_list(t.lay_levels) + enc_amount(t.back_liquidity) + enc_amount(
        t.lay_liquidity,
    ) + enc_u64(t.matched_count) + enc_u64(t.unmatched_count) + enc_u64(t.partially_matched_count) + enc_u64(
        t.win_count,
    ) + enc_u64(t.lost_count) + enc_u64(t.canceled_count)
}

/// The position of a selection type among the types.
pub open spec fn selection_type_position(t: SelectionType) -> u8 {
    match t {
        SelectionType::One => 0,
        SelectionType::Draw => 1,
        SelectionType::Two => 2,
        SelectionType::Over => 3,
        SelectionType::Under => 4,
        SelectionType::Yes => 5,
        SelectionType::No => 6,
    }
}

/// The position of a bet type among the types.
pub open spec fn bet_type_position(t: BetType) -> u8 {
    match t {
        BetType::Back => 0,
        BetType::Lay => 1,
    }
}

/// A selection: its id, its type, then its order book.
pub open spec fn enc_selection(s: SelectionModel) -> Seq<u8> {
    enc_u64(s.id) + seq![selection_type_position(s.selection_type)] + enc_tracker(s.priority_queue)
}

/// The attributes of a bet NFT: the event, the selection, the stake, the
/// potential win, the odds, the bet type and the status.
pub open spec fn bet_attributes_encoding(
    event: u64,
    selection: SelectionModel,
    stake: u128,
    potential_win: u128,
    odd: u128,
    bet_type: BetType,
    status: BetStatus,
) -> Seq<u8> {
    enc_u64(event) + enc_selection(selection) + enc_amount(stake) + enc_amount(potential_win) + enc_amount(odd)
        + seq![bet_type_position(bet_type), status_number(status)]
}

fn push_all(out: &mut Vec<u8>, bytes: &Vec<u8>)
    ensures
        final(out)@ == old(out)@ + bytes@,
{
    let mut i: usize = 0;
    let ghost start = out@;
    while i < bytes.len()
        invariant
            0 <= i <= bytes@.len(),
            out@ == start + bytes@.take(i as int),
        decreases bytes.len() - i,
    {
        out.push(bytes[i]);
        assert(bytes@.take(i + 1) =~= bytes@.take(i as int).push(bytes@[i as int]));
        i = i + 1;
    }
    assert(bytes@.take(bytes@.len() as int) =~= bytes@);
}

fn write_len(out: &mut Vec<u8>, n: usize)
    ensures
        final(out)@ == old(out)@ + enc_len(n as nat),
{
    let b = fixed_width_bytes(n as u128, 4);
    push_all(out, &b);
}

fn write_amount(out: &mut Vec<u8>, v: u128)
    ensures
        final(out)@ == old(out)@ + enc_amount(v),
{
    let b = amount_bytes(v);
    let ghost start = out@;
    write_len(out, b.len());
    push_all(out, &b);
    assert(out@ =~= start + enc_amount(v));
}

fn write_u64(out: &mut Vec<u8>, v: u64)
    ensures
        final(out)@ == old(out)@ + enc_u64(v),
{
    let b = serialize_u64(v);
    push_all(out, &b);
}

fn write_u64_list(out: &mut Vec<u8>, s: &Vec<u64>)
    ensures
        final(out)@ == old(out)@ + enc_u64_list(s@),
{
    let ghost start = out@;
    write_len(out, s.len());
    let ghost mid = out@;
    let mut i: usize = 0;
    assert(s@.take(0) =~= Seq::<u64>::empty());
    while i < s.len()
        invariant
            0 <= i <= s@.len(),
            out@ == mid + enc_u64_items(s@.take(i as int)),
        decreases s.len() - i,
    {
        assert(s@.take(i + 1).drop_last() =~= s@.take(i as int));
        write_u64(out, s[i]);
        assert(out@ =~= mid + enc_u64_items(s@.take(i + 1)));
        i = i + 1;
    }
    assert(s@.take(i as int) =~= s@);
    assert(out@ =~= start + enc_u64_list(s@));
}

fn write_level_list(out: &mut Vec<u8>, s: &Vec<PriceLevel>)
    ensures
        final(out)@ == old(out)@ + enc_level_list(crate::types::levels_view(s@)),
{
    let ghost lv = crate::types::levels_view(s@);
    let ghost start = out@;
    write_len(out, s.len());
    let ghost mid = out@;
    let mut i: usize = 0;
    assert(lv.take(0) =~= Seq::<LevelModel>::empty());
    while i < s.len()
        invariant
            0 <= i <= s@.len(),
            lv == crate::types::levels_view(s@),
            out@ == mid + enc_level_items(lv.take(i as int)),
        decreases s.len() - i,
    {
        assert(lv.take(i + 1).drop_last() =~= lv.take(i as int));
        assert(lv.take(i + 1).last() == s@[i as int]@);
        let ghost before = out@;
        write_amount(out, s[i].odds);
        write_amount(out, s[i].total_stake);
        write_u64_list(out, &s[i].bet_nonces);
        assert(out@ =~= before + enc_level(s@[i as int]@));
        assert(out@ =~= mid + enc_level_items(lv.take(i + 1)));
        i = i + 1;
    }
    assert(lv.take(i as int) =~= lv);
    assert(out@ =~= start + enc_level_list(lv));
}

fn selection_type_byte(t: SelectionType) -> (b: u8)
    ensures
        b == selection_type_position(t),
{
    match t {
        SelectionType::One => 0,
        SelectionType::Draw => 1,
        SelectionType::Two => 2,
        SelectionType::Over => 3,
        SelectionType::Under => 4,
        SelectionType::Yes => 5,
        SelectionType::No => 6,
    }
}

fn write_selection(out: &mut Vec<u8>, s: &Selection)
    ensures
        final(out)@ == old(out)@ + enc_selection(s@),
{
    let ghost start = out@;
    write_u64(out, s.id);
    out.push(selection_type_byte(s.selection_type));
    let t = &s.priority_queue;
    write_level_list(out, &t.back_levels);
    write_level_list(out, &t.lay_levels);
    write_amount(out, t.back_liquidity);
    write_amount(out, t.lay_liquidity);
    write_u64(out, t.matched_count);
    write_u64(out, t.unmatched_count);
    write_u64(out, t.partially_matched_count);
    write_u64(out, t.win_count);
    write_u64(out, t.lost_count);
    write_u64(out, t.canceled_count);
    assert(out@ =~= start + enc_selection(s@));
}

/// The bytes in which a bet NFT's attributes are written (see
/// `bet_attributes_encoding`).
pub fn encode_bet_attributes(a: &BetAttributes) -> (r: Vec<u8>)
    ensures
        r@ == bet_attributes_encoding(a.event, a.selection@, a.stake, a.potential_win, a.odd, a.bet_type, a.status),
{
    let mut out: Vec<u8> = Vec::new();
    write_u64(&mut out, a.event);
    write_selection(&mut out, &a.selection);
    write_amount(&mut out, a.stake);
    write_amount(&mut out, a.potential_win);
    write_amount(&mut out, a.odd);
    let bt: u8 = match a.bet_type {
        BetType::Back => 0,
        BetType::Lay => 1,
    };
    out.push(bt);
    let st: u8 = match a.status {
        BetStatus::Matched => 0,
        BetStatus::Unmatched => 1,
        BetStatus::PartiallyMatched => 2,
        BetStatus::Win => 3,
        BetStatus::Lost => 4,
        BetStatus::Canceled => 5,
        BetStatus::Claimed => 6,
    };
    out.push(st);
    assert(out@ =~= bet_attributes_encoding(a.event, a.selection@, a.stake, a.potential_win, a.odd, a.bet_type, a.status));
    out
}

/// The position of a leg's status among the statuses.
pub open spec fn slip_status_position(st: Status) -> u8 {
    match st {
        Status::InProgress => 0,
        Status::Win => 1,
        Status::Lost => 2,
        Status::Nul => 3,
    }
}

/// A leg of a betslip: its event, option, value and odds, then its status.
pub open spec fn enc_leg(b: SlipLeg) -> Seq<u8> {
    enc_amount(b.event) + enc_amount(b.option) + enc_amount(b.value) + enc_amount(b.odd) + seq![
        slip_status_position(b.status),
    ]
}

/// The legs of a list, one after the other.
pub open spec fn enc_leg_items(s: Seq<SlipLeg>) -> Seq<u8>
    decreases s.len(),
{
    if s.len() == 0 {
        Seq::empty()
    } else {
        enc_leg_items(s.drop_last()) + enc_leg(s.last())
    }
}

/// A token name: the length of its bytes, then its bytes.
pub open spec fn enc_token(token: Seq<char>) -> Seq<u8> {
    enc_len(encode_utf8(token).len()) + encode_utf8(token)
}

/// The attributes of a betslip NFT: the creator, the legs, the combined
/// odds, the stake, the payout, the payment token and nonce, the status and
/// whether it was paid.
pub open spec fn betslip_attributes_encoding(
    creator: Address,
    bets: Seq<SlipLeg>,
    total_odd: u128,
    stake: u128,
    payout: u128,
    payment_token: Seq<char>,
    payment_nonce: u64,
    status: Status,
    is_paid: bool,
) -> Seq<u8> {
    address_bytes(creator) + enc_len(bets.len()) + enc_leg_items(bets) + enc_amount(total_odd) + enc_amount(stake)
        + enc_amount(payout) + enc_token(payment_token) + enc_u64(payment_nonce) + seq![
        slip_status_position(status),
        if is_paid {
            1u8
        } else {
            0u8
        },
    ]
}

fn slip_status_byte(st: Status) -> (b: u8)
    ensures
        b == slip_status_position(st),
{
    match st {
        Status::InProgress => 0,
        Status::Win => 1,
        Status::Lost => 2,
        Status::Nul => 3,
    }
}

fn write_token(out: &mut Vec<u8>, token: &String)
    ensures
        final(out)@ == old(out)@ + enc_token(token@),
{
    let ghost start = out@;
    let bytes = token.as_str().as_bytes();
    assert(bytes@ == encode_utf8(token@));
    write_len(out, bytes.len());
    let ghost mid = out@;
    let mut i: usize = 0;
    while i < bytes.len()
        invariant
            0 <= i <= bytes@.len(),
            out@ == mid + bytes@.take(i as int),
        decreases bytes.len() - i,
    {
        out.push(bytes[i]);
        assert(bytes@.take(i + 1) =~= bytes@.take(i as int).push(bytes@[i as int]));
        i = i + 1;
    }
    assert(bytes@.take(bytes@.len() as int) =~= bytes@);
    assert(out@ =~= start + enc_token(token@));
}

/// The bytes in which a betslip NFT's attributes are written (see
/// `betslip_attributes_encoding`).
pub fn encode_betslip_attributes(a: &BetslipAttributes) -> (r: Vec<u8>)
    ensures
        r@ == betslip_attributes_encoding(
            a.creator,
            a.bets@,
            a.total_odd,
            a.stake,
            a.payout,
            a.payment_token@,
            a.payment_nonce,
            a.status,
            a.is_paid,
        ),
{
    let mut out: Vec<u8> = Vec::new();
    let hi = fixed_width_bytes(a.creator.hi, 16);
    let lo = fixed_width_bytes(a.creator.lo, 16);
    push_all(&mut out, &hi);
    push_all(&mut out, &lo);
    write_len(&mut out, a.bets.len());
    let ghost mid = out@;
    let ghost legs = a.bets@;
    let mut i: usize = 0;
    assert(legs.take(0) =~= Seq::<SlipLeg>::empty());
    while i < a.bets.len()
        invariant
            0 <= i <= legs.len(),
            legs == a.bets@,
            out@ == mid + enc_leg_items(legs.take(i as int)),
        decreases a.bets.len() - i,
    {
        assert(legs.take(i + 1).drop_last() =~= legs.take(i as int));
        let leg = a.bets[i];
        let ghost before = out@;
        write_amount(&mut out, leg.event);
        write_amount(&mut out, leg.option);
        write_amount(&mut out, leg.value);
        write_amount(&mut out, leg.odd);
        out.push(slip_status_byte(leg.status));
        assert(out@ =~= before + enc_leg(legs[i as int]));
        assert(out@ =~= mid + enc_leg_items(legs.take(i + 1)));
        i = i + 1;
    }
    assert(legs.take(i as int) =~= legs);
    write_amount(&mut out, a.total_odd);
    write_amount(&mut out, a.stake);
    write_amount(&mut out, a.payout);
    write_token(&mut out, &a.payment_token);
    write_u64(&mut out, a.payment_nonce);
    out.push(slip_status_byte(a.status));
    let paid: u8 = if a.is_paid {
        1
    } else {
        0
    };
    out.push(paid);
    assert(out@ =~= betslip_attributes_encoding(
        a.creator,
        a.bets@,
        a.total_odd,
        a.stake,
        a.payout,
        a.payment_token@,
        a.payment_nonce,
        a.status,
        a.is_paid,
    ));
    out
}

/// The attributes of a scheduled bet's NFT: the bettor, the market, the
/// selection (by its id), the stake, the liability, the matched and open
/// amounts, the potential profit, the odds, the bet type, the status, the
/// payment token and nonce, and the time the bet was placed.
pub open spec fn cube_attributes_encoding(a: CubeBetAttributes) -> Seq<u8> {
    address_bytes(a.bettor) + enc_u64(a.event) + enc_u64(a.selection_id) + enc_amount(a.stake_amount) + enc_amount(
        a.liability,
    ) + enc_amount(a.matched_amount) + enc_amount(a.unmatched_amount) + enc_amount(a.potential_profit) + enc_amount(
        a.odd,
    ) + seq![bet_type_position(a.bet_type), status_number(a.status)] + enc_token(a.payment_token@) + enc_u64(
        a.payment_nonce,
    ) + enc_u64(a.timestamp)
}

/// The bytes in which a scheduled bet NFT's attributes are written (see
/// `cube_attributes_encoding`).
pub fn encode_cube_attributes(a: &CubeBetAttributes) -> (r: Vec<u8>)
    ensures
        r@ == cube_attributes_encoding(*a),
{
    let mut out: Vec<u8> = Vec::new();
    let hi = fixed_width_bytes(a.bettor.hi, 16);
    let lo = fixed_width_bytes(a.bettor.lo, 16);
    push_all(&mut out, &hi);
    push_all(&mut out, &lo);
    write_u64(&mut out, a.event);
    write_u64(&mut out, a.selection_id);
    write_amount(&mut out, a.stake_amount);
    write_amount(&mut out, a.liability);
    write_amount(&mut out, a.matched_amount);
    write_amount(&mut out, a.unmatched_amount);
    write_amount(&mut out, a.potential_profit);
    write_amount(&mut out, a.odd);
    let bt: u8 = match a.bet_type {
        BetType::Back => 0,
        BetType::Lay => 1,
    };
    out.push(bt);
    let st: u8 = match a.status {
        BetStatus::Matched => 0,
        BetStatus::Unmatched => 1,
        BetStatus::PartiallyMatched => 2,
        BetStatus::Win => 3,
        BetStatus::Lost => 4,
        BetStatus::Canceled => 5,
        BetStatus::Claimed => 6,
    };
    out.push(st);
    write_token(&mut out, &a.payment_token);
    write_u64(&mut out, a.payment_nonce);
    write_u64(&mut out, a.timestamp);
    assert(out@ =~= cube_attributes_encoding(*a));
    out
}

} // verus!
