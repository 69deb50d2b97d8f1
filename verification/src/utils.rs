//! Byte encodings: decimal text of a number, fixed-width and minimal
//! big-endian bytes, the bytes from which a bet's unique hash is taken,
//! and that hash.
use vstd::prelude::*;
use sha2::Digest;
use crate::bet::{bet_type_code, event_sport_index, event_sport_index_exec};
use crate::types::{Address, BetType, Sport};

verus! {

/// The decimal digits of `n` as ASCII characters, most significant first,
/// with no leading zero ("0" for zero).
pub open spec fn decimal_ascii(n: nat) -> Seq<u8>
    decreases n,
{
    if n < 10 {
        seq![(48 + n) as u8]
    } else {
        decimal_ascii(n / 10).push((48 + n % 10) as u8)
    }
}

/// The digits that are still to be written for `n` when `n` is left of a
/// number being written out from its last digit: none once `n` is zero.
pub open spec fn pending_digits(n: nat) -> Seq<u8> {
    if n == 0 {
        Seq::empty()
    } else {
        decimal_ascii(n)
    }
}

/// `s` read backwards.
pub open spec fn reversed(s: Seq<u8>) -> Seq<u8> {
    Seq::new(s.len(), |i: int| s[s.len() - 1 - i])
}

/// The decimal text of `number`.
pub fn u64_to_ascii(number: u64) -> (r: Vec<u8>)
    ensures
        r@ == decimal_ascii(number as nat),
{
    if number == 0 {
        let mut z: Vec<u8> = Vec::new();
        z.push(48u8);
        assert(z@ =~= decimal_ascii(0));
        return z;
    }
    let mut reversed_digits: Vec<u8> = Vec::new();
    let mut rest = number;
    assert(reversed(reversed_digits@) =~= Seq::<u8>::empty());
    assert(decimal_ascii(number as nat) =~= pending_digits(rest as nat) + reversed(reversed_digits@));
    while rest > 0
        invariant
            decimal_ascii(number as nat) == pending_digits(rest as nat) + reversed(reversed_digits@),
        decreases rest,
    {
        let digit = rest % 10;
        let ghost old_digits = reversed_digits@;
        reversed_digits.push(48u8 + digit as u8);
        assert(reversed(reversed_digits@) =~= seq![(48 + digit) as u8] + reversed(old_digits));
        assert(pending_digits(rest as nat) =~= pending_digits((rest / 10) as nat).push(
            (48 + rest % 10) as u8,
        ));
        rest = rest / 10;
        assert(decimal_ascii(number as nat) =~= pending_digits(rest as nat) + reversed(
            reversed_digits@,
        ));
    }
    assert(pending_digits(0) =~= Seq::<u8>::empty());
    assert(decimal_ascii(number as nat) =~= reversed(reversed_digits@));
    let mut output: Vec<u8> = Vec::new();
    let n = reversed_digits.len();
    let mut i: usize = 0;
    while i < n
        invariant
            n == reversed_digits@.len(),
            0 <= i <= n,
            output@ =~= reversed(reversed_digits@).take(i as int),
        decreases n - i,
    {
        output.push(reversed_digits[n - 1 - i]);
        assert(reversed(reversed_digits@).take(i + 1) =~= reversed(reversed_digits@).take(
            i as int,
        ).push(reversed_digits@[n - 1 - i]));
        i = i + 1;
    }
    assert(reversed(reversed_digits@).take(n as int) =~= reversed(reversed_digits@));
    output
}

/// The `width` low bytes of `v`, most significant first.
pub open spec fn fixed_be(v: nat, width: nat) -> Seq<u8>
    decreases width,
{
    if width == 0 {
        Seq::empty()
    } else {
        fixed_be(v / 256, (width - 1) as nat).push((v % 256) as u8)
    }
}

/// The bytes of `v`, most significant first, with no leading zero byte
/// (none for zero).
pub open spec fn minimal_be(v: nat) -> Seq<u8>
    decreases v,
{
    if v == 0 {
        Seq::empty()
    } else {
        minimal_be(v / 256).push((v % 256) as u8)
    }
}

/// The low `width` bytes of `v`, most significant first.
pub(crate) fn fixed_width_bytes(v: u128, width: usize) -> (r: Vec<u8>)
    requires
        width <= 16,
    ensures
        r@ == fixed_be(v as nat, width as nat),
    decreases width,
{
    if width == 0 {
        Vec::new()
    } else {
        let mut r = fixed_width_bytes(v / 256, width - 1);
        r.push((v % 256) as u8);
        r
    }
}

/// The eight bytes of a `u64`, most significant first.
pub fn serialize_u64(value: u64) -> (r: Vec<u8>)
    ensures
        r@ == fixed_be(value as nat, 8),
        r@.len() == 8,
{
    proof {
        lemma_fixed_be_len(value as nat, 8);
    }
    fixed_width_bytes(value as u128, 8)
}

proof fn lemma_fixed_be_len(v: nat, width: nat)
    ensures
        fixed_be(v, width).len() == width,
    decreases width,
{
    if width > 0 {
        lemma_fixed_be_len(v / 256, (width - 1) as nat);
    }
}

/// The bytes of an amount, most significant first, with no leading zero.
pub fn amount_bytes(v: u128) -> (r: Vec<u8>)
    ensures
        r@ == minimal_be(v as nat),
    decreases v,
{
    if v == 0 {
        Vec::new()
    } else {
        let mut r = amount_bytes(v / 256);
        r.push((v % 256) as u8);
        r
    }
}

/// The 32 bytes of an address.
pub open spec fn address_bytes(a: Address) -> Seq<u8> {
    fixed_be(a.hi as nat, 16) + fixed_be(a.lo as nat, 16)
}

/// The bytes from which the unique hash of a bet is taken: the bettor's
/// address, the sport, the market and the selection, the odds, the bet
/// type, the payment token's name and nonce, the amount paid, and the block's
/// timestamp and nonce.
pub open spec fn bet_hash_input(
    caller: Address,
    sport: Sport,
    market_id: u64,
    selection_id: u64,
    odds: u128,
    bet_type: BetType,
    token_name: Seq<u8>,
    token_nonce: u64,
    amount: u128,
    timestamp: u64,
    block_nonce: u64,
) -> Seq<u8> {
    address_bytes(caller) + seq![event_sport_index(sport)] + fixed_be(market_id as nat, 8) + fixed_be(
        selection_id as nat,
        8,
    ) + minimal_be(odds as nat) + seq![bet_type_code(bet_type)] + token_name + fixed_be(
        token_nonce as nat,
        8,
    ) + minimal_be(amount as nat) + fixed_be(timestamp as nat, 8) + fixed_be(block_nonce as nat, 8)
}

fn append_bytes(data: &mut Vec<u8>, bytes: &Vec<u8>)
    ensures
        final(data)@ == old(data)@ + bytes@,
{
    let mut i: usize = 0;
    let ghost start = data@;
    while i < bytes.len()
        invariant
            0 <= i <= bytes@.len(),
            data@ == start + bytes@.take(i as int),
        decreases bytes.len() - i,
    {
        data.push(bytes[i]);
        assert(bytes@.take(i + 1) =~= bytes@.take(i as int).push(bytes@[i as int]));
        i = i + 1;
    }
    assert(bytes@.take(bytes@.len() as int) =~= bytes@);
}

/// The bytes from which the unique hash of a bet is taken.
pub fn generate_unique_bet_hash_input(
    caller: &Address,
    sport: Sport,
    market_id: u64,
    selection_id: u64,
    odds: u128,
    bet_type: BetType,
    token_name: &Vec<u8>,
    token_nonce: u64,
    amount: u128,
    timestamp: u64,
    block_nonce: u64,
) -> (r: Vec<u8>)
    ensures
        r@ == bet_hash_input(
            *caller,
            sport,
            market_id,
            selection_id,
            odds,
            bet_type,
            token_name@,
            token_nonce,
            amount,
            timestamp,
            block_nonce,
        ),
{
    let mut data: Vec<u8> = Vec::new();
    append_bytes(&mut data, &fixed_width_bytes(caller.hi, 16));
    append_bytes(&mut data, &fixed_width_bytes(caller.lo, 16));
    data.push(event_sport_index_exec(sport));
    append_bytes(&mut data, &serialize_u64(market_id));
    append_bytes(&mut data, &serialize_u64(selection_id));
    append_bytes(&mut data, &amount_bytes(odds));
    let bet_type_value: u8 = match bet_type {
        BetType::Back => 1,
        BetType::Lay => 2,
    };
    data.push(bet_type_value);
    append_bytes(&mut data, token_name);
    append_bytes(&mut data, &serialize_u64(token_nonce));
    append_bytes(&mut data, &amount_bytes(amount));
    append_bytes(&mut data, &serialize_u64(timestamp));
    append_bytes(&mut data, &serialize_u64(block_nonce));
    assert(data@ =~= bet_hash_input(
        *caller,
        sport,
        market_id,
        selection_id,
        odds,
        bet_type,
        token_name@,
        token_nonce,
        amount,
        timestamp,
        block_nonce,
    ));
    data
}

/// The SHA-256 digest of some bytes.
pub uninterp spec fn sha256_digest(data: Seq<u8>) -> Seq<u8>;

/// Hashes `data` with `sha2::Sha256::digest`. The contract claims that the
/// result is the SHA-256 digest of the bytes (a function of them alone) and
/// that it is 32 bytes long, as the digest's output type fixes.
#[verifier::external_body]
pub(crate) fn sha256(data: &Vec<u8>) -> (r: Vec<u8>)
    ensures
        r@ == sha256_digest(data@),
        r@.len() == 32,
{
    sha2::Sha256::digest(data.as_slice()).to_vec()
}

/// The unique hash of a bet: the SHA-256 digest of the bytes that
/// `bet_hash_input` lists, `timestamp` and `block_nonce` being those of the
/// block the bet is placed in.
pub fn generate_unique_bet_hash(
    caller: &Address,
    sport: Sport,
    market_id: u64,
    selection_id: u64,
    odds: u128,
    bet_type: BetType,
    token_name: &Vec<u8>,
    token_nonce: u64,
    amount: u128,
    timestamp: u64,
    block_nonce: u64,
) -> (r: Vec<u8>)
    ensures
        r@ == sha256_digest(
            bet_hash_input(
                *caller,
                sport,
                market_id,
                selection_id,
                odds,
                bet_type,
                token_name@,
                token_nonce,
                amount,
                timestamp,
                block_nonce,
            ),
        ),
        r@.len() == 32,
{
    let data = generate_unique_bet_hash_input(
        caller,
        sport,
        market_id,
        selection_id,
        odds,
        bet_type,
        token_name,
        token_nonce,
        amount,
        timestamp,
        block_nonce,
    );
    sha256(&data)
}

} // verus!
