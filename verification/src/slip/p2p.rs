//! Peer-to-peer bets: a creator opens a bet on an event with its options,
//! participants stake on an option, and the creator declares the winning
//! option, whose backers share the pool in proportion to their stakes.
use vstd::prelude::*;
use crate::errors::ContractError;
use crate::events::{Transfer, TransferModel};
use crate::slip::types::{
    BetParticipant, P2PBet, P2PBetModel, ParticipantModel, ParticipationNFT, byte_strings_view,
    participants_view,
};
use crate::types::Address;
use crate::utils::{sha256, sha256_digest};

verus! {

/// Whether two byte strings are equal.
pub fn bytes_eq(a: &Vec<u8>, b: &Vec<u8>) -> (r: bool)
    ensures
        r == (a@ == b@),
{
    if a.len() != b.len() {
        return false;
    }
    let mut i: usize = 0;
    while i < a.len()
        invariant
            a@.len() == b@.len(),
            0 <= i <= a@.len(),
            forall|j: int| 0 <= j < i ==> a@[j] == b@[j],
        decreases a.len() - i,
    {
        if a[i] != b[i] {
            return false;
        }
        i = i + 1;
    }
    assert(a@ =~= b@);
    true
}

/// A copy of a byte string.
pub fn copy_bytes(v: &Vec<u8>) -> (r: Vec<u8>)
    ensures
        r@ == v@,
{
    crate::cube::types::copy_bytes(v)
}

/// Whether `x` is among the byte strings `v`.
pub fn contains_bytes(v: &Vec<Vec<u8>>, x: &Vec<u8>) -> (r: bool)
    ensures
        r == byte_strings_view(v@).contains(x@),
{
    let mut i: usize = 0;
    while i < v.len()
        invariant
            0 <= i <= v@.len(),
            forall|j: int| 0 <= j < i ==> v@[j]@ != x@,
        decreases v.len() - i,
    {
        if bytes_eq(&v[i], x) {
            assert(byte_strings_view(v@)[i as int] == x@);
            return true;
        }
        i = i + 1;
    }
    assert forall|j: int| 0 <= j < byte_strings_view(v@).len() implies byte_strings_view(v@)[j] != x@ by {
        assert(byte_strings_view(v@)[j] == v@[j]@);
    }
    false
}

/// The storage of peer-to-peer bets: the participation NFT token, the
/// bets (one per id), and the ids of the active bets.
pub struct P2PStorage {
    pub token_manager: Option<String>,
    pub p2p_bets: Vec<P2PBet>,
    pub active_bets: Vec<Vec<u8>>,
}

/// The position of the bet with the given id in a list of bets.
pub open spec fn p2p_position(bets: Seq<P2PBetModel>, id: Seq<u8>) -> Option<int>
    decreases bets.len(),
{
    if bets.len() == 0 {
        None
    } else if bets.last().bet_id == id {
        Some(bets.len() - 1)
    } else {
        p2p_position(bets.drop_last(), id)
    }
}

/// The values of a list of bets.
pub open spec fn p2p_view(bets: Seq<P2PBet>) -> Seq<P2PBetModel> {
    bets.map_values(|b: P2PBet| b@)
}

/// The bet with the given id in a list of bets, if any.
pub open spec fn p2p_lookup(bets: Seq<P2PBetModel>, id: Seq<u8>) -> Option<P2PBetModel> {
    match p2p_position(bets, id) {
        Some(i) => Some(bets[i]),
        None => None,
    }
}

/// The ids of a set of ids once `x` left it.
pub open spec fn without(s: Seq<Seq<u8>>, x: Seq<u8>) -> Seq<Seq<u8>>
    decreases s.len(),
{
    if s.len() == 0 {
        s
    } else if s.last() == x {
        without(s.drop_last(), x)
    } else {
        without(s.drop_last(), x).push(s.last())
    }
}

/// What is left of a set of ids once `x` left it.
pub proof fn lemma_without(s: Seq<Seq<u8>>, x: Seq<u8>, y: Seq<u8>)
    ensures
        without(s, x).contains(y) <==> (y != x && s.contains(y)),
    decreases s.len(),
{
    if s.len() > 0 {
        lemma_without(s.drop_last(), x, y);
        let w = without(s.drop_last(), x);
        if s.contains(y) && y != x {
            let k = choose|k: int| 0 <= k < s.len() && s[k] == y;
            if k < s.len() - 1 {
                assert(s.drop_last()[k] == y);
            }
        }
        if s.drop_last().contains(y) {
            let k = choose|k: int| 0 <= k < s.drop_last().len() && s.drop_last()[k] == y;
            assert(s[k] == y);
        }
        if s.last() != x {
            assert(w.push(s.last())[w.len() as int] == s.last());
            if w.push(s.last()).contains(y) {
                let k = choose|k: int| 0 <= k < w.push(s.last()).len() && w.push(s.last())[k] == y;
                if k < w.len() {
                    assert(w[k] == y);
                }
            }
            if w.contains(y) {
                let k = choose|k: int| 0 <= k < w.len() && w[k] == y;
                assert(w.push(s.last())[k] == y);
            }
        }
    }
}

/// Writing a bet over the one with its id changes only that id's bet.
pub proof fn lemma_p2p_update_lookup(v: Seq<P2PBetModel>, i: int, bv: P2PBetModel)
    requires
        0 <= i < v.len(),
        p2p_position(v, bv.bet_id) == Some(i),
    ensures
        p2p_lookup(v.update(i, bv), bv.bet_id) == Some(bv),
        forall|id: Seq<u8>| id != bv.bet_id ==> #[trigger] p2p_lookup(v.update(i, bv), id) == p2p_lookup(v, id),
{
    lemma_p2p_update(v, i, bv, bv.bet_id);
    assert forall|id: Seq<u8>| id != bv.bet_id implies #[trigger] p2p_lookup(v.update(i, bv), id) == p2p_lookup(v, id) by {
        lemma_p2p_update(v, i, bv, id);
        lemma_p2p_position(v, id);
        lemma_p2p_position(v, bv.bet_id);
    }
}

/// Adding a bet with a new id changes only that id's bet.
pub proof fn lemma_p2p_push_lookup(v: Seq<P2PBetModel>, bv: P2PBetModel)
    requires
        p2p_position(v, bv.bet_id) is None,
    ensures
        p2p_lookup(v.push(bv), bv.bet_id) == Some(bv),
        forall|id: Seq<u8>| id != bv.bet_id ==> #[trigger] p2p_lookup(v.push(bv), id) == p2p_lookup(v, id),
{
    assert(v.push(bv).drop_last() =~= v);
    assert forall|id: Seq<u8>| id != bv.bet_id implies #[trigger] p2p_lookup(v.push(bv), id) == p2p_lookup(v, id) by {
        lemma_p2p_position(v, id);
    }
}

impl P2PStorage {
    /// The bet stored under an id, if any.
    pub open spec fn bet_of(&self, id: Seq<u8>) -> Option<P2PBetModel> {
        p2p_lookup(p2p_view(self.p2p_bets@), id)
    }

    /// Whether the bet with the given id is active.
    pub open spec fn is_active_id(&self, id: Seq<u8>) -> bool {
        byte_strings_view(self.active_bets@).contains(id)
    }
}

/// Where an id is in a list, the bet there has it; where it is not, no bet has it.
pub proof fn lemma_p2p_position(bets: Seq<P2PBetModel>, id: Seq<u8>)
    ensures
        match p2p_position(bets, id) {
            Some(i) => 0 <= i < bets.len() && bets[i].bet_id == id,
            None => forall|j: int| 0 <= j < bets.len() ==> bets[j].bet_id != id,
        },
    decreases bets.len(),
{
    if bets.len() > 0 {
        lemma_p2p_position(bets.drop_last(), id);
        if p2p_position(bets, id) is None {
            assert forall|j: int| 0 <= j < bets.len() implies bets[j].bet_id != id by {
                if j < bets.len() - 1 {
                    assert(bets[j] == bets.drop_last()[j]);
                }
            }
        }
    }
}

/// Writing a bet under an id already present leaves the other ids' bets.
pub proof fn lemma_p2p_update(bets: Seq<P2PBetModel>, i: int, b: P2PBetModel, id: Seq<u8>)
    requires
        0 <= i < bets.len(),
        p2p_position(bets, b.bet_id) == Some(i),
    ensures
        p2p_position(bets.update(i, b), id) == p2p_position(bets, id),
    decreases bets.len(),
{
    lemma_p2p_position(bets, b.bet_id);
    if i == bets.len() - 1 {
        assert(bets.update(i, b).drop_last() =~= bets.drop_last());
    } else {
        assert(bets.last().bet_id != b.bet_id);
        assert(bets.update(i, b).drop_last() =~= bets.drop_last().update(i, b));
        assert(bets.update(i, b).last() == bets.last());
        lemma_p2p_update(bets.drop_last(), i, b, id);
    }
}

/// What a participation NFT is minted with: one unit of the participation
/// token, named "Participation NFT", with the participant's choice as its
/// attributes, sent to the participant.
pub struct ParticipationMint {
    pub token: String,
    pub to: Address,
    pub amount: u128,
    pub name: Vec<u8>,
    pub attributes: ParticipationNFT,
}

/// The "createP2PBet" event: the new bet's id, its creator and its event.
pub struct P2PCreatedEvent {
    pub bet_id: Vec<u8>,
    pub creator: Address,
    pub event_details: Vec<u8>,
}

/// The name of a participation NFT: "Participation NFT".
pub open spec fn participation_nft_name() -> Seq<u8> {
    seq![80u8, 97u8, 114u8, 116u8, 105u8, 99u8, 105u8, 112u8, 97u8, 116u8, 105u8, 111u8, 110u8, 32u8, 78u8, 70u8, 84u8]
}

/// A participation NFT minted for `participant` in token `token`: one unit
/// named "Participation NFT", carrying the bet, the option chosen and the
/// stake.
pub open spec fn participation_mint_matches(
    m: ParticipationMint,
    token: Seq<char>,
    participant: Address,
    bet_id: Seq<u8>,
    option_chosen: Seq<u8>,
    stake: u128,
) -> bool {
    &&& m.token@ == token && m.to == participant && m.amount == 1
    &&& m.name@ == participation_nft_name()
    &&& m.attributes.bet_id@ == bet_id && m.attributes.option_chosen@ == option_chosen
    &&& m.attributes.stake == stake
}

/// The shares of a finalized bet: each participant who chose the winning
/// option gets its stake times the pool divided by the winning stakes.
pub open spec fn shares(participants: Seq<ParticipantModel>, winning: Seq<u8>, pool: u128, winning_stake: int) -> Seq<TransferModel>
    decreases participants.len(),
{
    if participants.len() == 0 {
        Seq::empty()
    } else {
        let prev = shares(participants.drop_last(), winning, pool, winning_stake);
        let p = participants.last();
        if p.option_chosen == winning {
            prev.push(
                TransferModel {
                    to: p.address,
                    token: seq!['E', 'G', 'L', 'D'],
                    nonce: 0,
                    amount: (p.stake * pool / winning_stake) as u128,
                },
            )
        } else {
            prev
        }
    }
}

/// The stakes of the participants who chose `winning`.
pub open spec fn winning_stake(participants: Seq<ParticipantModel>, winning: Seq<u8>) -> int
    decreases participants.len(),
{
    if participants.len() == 0 {
        0
    } else {
        winning_stake(participants.drop_last(), winning) + if participants.last().option_chosen == winning {
            participants.last().stake as int
        } else {
            0
        }
    }
}

/// The total of some transfers.
pub open spec fn transfers_total(ts: Seq<TransferModel>) -> int
    decreases ts.len(),
{
    if ts.len() == 0 {
        0
    } else {
        transfers_total(ts.drop_last()) + ts.last().amount
    }
}

/// Whole shares of a pool never add up to more than their fraction of it.
proof fn lemma_floor_add(a: int, b: int, w: int)
    requires
        a >= 0,
        b >= 0,
        w > 0,
    ensures
        a / w + b / w <= (a + b) / w,
{
    assert(a / w + b / w <= (a + b) / w) by (nonlinear_arith)
        requires
            a >= 0,
            b >= 0,
            w > 0,
    ;
}

/// The shares of the participants so far add up to at most their winning
/// stakes' fraction of the pool.
pub proof fn lemma_shares_bounded(participants: Seq<ParticipantModel>, winning: Seq<u8>, pool: u128, w: int)
    requires
        w > 0,
        winning_stake(participants, winning) <= w,
    ensures
        transfers_total(shares(participants, winning, pool, w)) <= winning_stake(participants, winning) * pool / w,
        winning_stake(participants, winning) >= 0,
    decreases participants.len(),
{
    if participants.len() > 0 {
        let prev = participants.drop_last();
        lemma_winning_stake_nonneg(prev, winning);
        lemma_shares_bounded(prev, winning, pool, w);
        let p = participants.last();
        if p.option_chosen == winning {
            let ws = winning_stake(prev, winning);
            let st = p.stake as int;
            let pl = pool as int;
            assert(ws * pl >= 0 && st * pl >= 0) by (nonlinear_arith)
                requires
                    ws >= 0,
                    st >= 0,
                    pl >= 0,
            ;
            lemma_floor_add(ws * pl, st * pl, w);
            assert((ws + st) * pl == ws * pl + st * pl) by (nonlinear_arith);
            assert(st * pl / w <= pl) by (nonlinear_arith)
                requires
                    0 <= st <= w,
                    pl >= 0,
                    w > 0,
            ;
            let all = shares(participants, winning, pool, w);
            let before = shares(prev, winning, pool, w);
            assert(all.drop_last() =~= before);
            assert(all.last().amount == st * pl / w);
            assert(transfers_total(all) == transfers_total(before) + st * pl / w);
        }
    }
}

/// Stakes are never negative.
pub proof fn lemma_winning_stake_nonneg(participants: Seq<ParticipantModel>, winning: Seq<u8>)
    ensures
        winning_stake(participants, winning) >= 0,
    decreases participants.len(),
{
    if participants.len() > 0 {
        lemma_winning_stake_nonneg(participants.drop_last(), winning);
    }
}

/// The shares of a finalized bet add up to at most its pool, when the
/// winning stakes are part of it.
pub proof fn lemma_shares_within_pool(participants: Seq<ParticipantModel>, winning: Seq<u8>, pool: u128)
    requires
        winning_stake(participants, winning) > 0,
        winning_stake(participants, winning) <= pool,
    ensures
        transfers_total(shares(participants, winning, pool, winning_stake(participants, winning))) <= pool,
{
    let w = winning_stake(participants, winning);
    lemma_shares_bounded(participants, winning, pool, w);
    let pl = pool as int;
    assert(w * pl / w == pl) by (nonlinear_arith)
        requires
            w > 0,
    ;
}


/// Finalizing peer-to-peer bet `b` with `winning` as the winning option, at
/// the request of `caller`: the caller must be its creator and the bet
/// active; some stake must be on the winning option; the shares must be
/// computable. Gives the shares.
pub open spec fn finalize_result(b: P2PBetModel, winning: Seq<u8>, caller: Address) -> Result<Seq<TransferModel>, ContractError> {
    let w = winning_stake(b.participants, winning);
    if b.creator != caller {
        Err(ContractError::NotBetCreator)
    } else if !b.is_active {
        Err(ContractError::BetAlreadyFinalized)
    } else if w > u128::MAX {
        Err(ContractError::AmountOverflow)
    } else if w == 0 {
        Err(ContractError::NoWinners)
    } else if exists|i: int|
        0 <= i < b.participants.len() && (#[trigger] b.participants[i]).option_chosen == winning && b.participants[i].stake
            * b.total_pool > u128::MAX {
        Err(ContractError::AmountOverflow)
    } else {
        Ok(shares(b.participants, winning, b.total_pool, w))
    }
}

proof fn lemma_winning_stake_grow(ps: Seq<ParticipantModel>, winning: Seq<u8>, k: int)
    requires
        0 <= k <= ps.len(),
    ensures
        winning_stake(ps.take(k), winning) <= winning_stake(ps, winning),
    decreases ps.len() - k,
{
    if k == ps.len() {
        assert(ps.take(k) =~= ps);
    } else {
        lemma_winning_stake_grow(ps, winning, k + 1);
        assert(ps.take(k + 1).drop_last() =~= ps.take(k));
    }
}

impl P2PStorage {
    fn find_p2p(&self, id: &Vec<u8>) -> (r: Option<usize>)
        ensures
            match r {
                Some(i) => p2p_position(p2p_view(self.p2p_bets@), id@) == Some(i as int) && i < self.p2p_bets@.len(),
                None => p2p_position(p2p_view(self.p2p_bets@), id@) is None,
            },
    {
        let ghost v = p2p_view(self.p2p_bets@);
        let mut i = self.p2p_bets.len();
        assert(v.take(i as int) =~= v);
        while i > 0
            invariant
                v == p2p_view(self.p2p_bets@),
                0 <= i <= v.len(),
                p2p_position(v, id@) == p2p_position(v.take(i as int), id@),
            decreases i,
        {
            assert(v.take(i as int).last() == self.p2p_bets@[i - 1]@);
            assert(v.take(i as int).drop_last() =~= v.take(i - 1));
            if bytes_eq(&self.p2p_bets[i - 1].bet_id, id) {
                return Some(i - 1);
            }
            i = i - 1;
        }
        None
    }

    fn put_p2p(&mut self, bet: P2PBet)
        ensures
            final(self).bet_of(bet.bet_id@) == Some(bet@),
            forall|id: Seq<u8>| id != bet.bet_id@ ==> #[trigger] final(self).bet_of(id) == old(self).bet_of(id),
            final(self).token_manager == old(self).token_manager,
            final(self).active_bets@ == old(self).active_bets@,
    {
        let ghost v = p2p_view(self.p2p_bets@);
        let ghost bv = bet@;
        match self.find_p2p(&bet.bet_id) {
            Some(i) => {
                self.p2p_bets.set(i, bet);
                assert(p2p_view(self.p2p_bets@) =~= v.update(i as int, bv));
                proof {
                    lemma_p2p_update_lookup(v, i as int, bv);
                }
            },
            None => {
                self.p2p_bets.push(bet);
                assert(p2p_view(self.p2p_bets@) =~= v.push(bv));
                proof {
                    lemma_p2p_push_lookup(v, bv);
                }
            },
        }
    }

    fn deactivate(&mut self, id: &Vec<u8>)
        ensures
            !final(self).is_active_id(id@),
            forall|x: Seq<u8>| x != id@ ==> #[trigger] final(self).is_active_id(x) == old(self).is_active_id(x),
            final(self).p2p_bets@ == old(self).p2p_bets@,
            final(self).token_manager == old(self).token_manager,
    {
        let mut kept: Vec<Vec<u8>> = Vec::new();
        let mut i: usize = 0;
        let ghost all = byte_strings_view(self.active_bets@);
        assert(all.take(0) =~= Seq::<Seq<u8>>::empty());
        assert(byte_strings_view(kept@) =~= Seq::<Seq<u8>>::empty());
        while i < self.active_bets.len()
            invariant
                0 <= i <= self.active_bets@.len(),
                all == byte_strings_view(self.active_bets@),
                self.active_bets@ == old(self).active_bets@,
                self.p2p_bets@ == old(self).p2p_bets@,
                self.token_manager == old(self).token_manager,
                byte_strings_view(kept@) == without(all.take(i as int), id@),
            decreases self.active_bets.len() - i,
        {
            let ghost prev = kept@;
            assert(all.take(i + 1).drop_last() =~= all.take(i as int));
            assert(all.take(i + 1).last() == self.active_bets@[i as int]@);
            if !bytes_eq(&self.active_bets[i], id) {
                let c = copy_bytes(&self.active_bets[i]);
                kept.push(c);
                assert(byte_strings_view(kept@) =~= byte_strings_view(prev).push(self.active_bets@[i as int]@));
            }
            i = i + 1;
        }
        assert(all.take(i as int) =~= all);
        self.active_bets = kept;
        proof {
            lemma_without(all, id@, id@);
            assert forall|x: Seq<u8>| x != id@ implies #[trigger] self.is_active_id(x) == old(self).is_active_id(x) by {
                lemma_without(all, id@, x);
            }
        }
    }

    /// Opens peer-to-peer bet `bet_id` for `caller`, with its event details,
    /// its options and their odds; refused, leaving the storage as it was,
    /// while a bet with that id is active.
    pub fn open_p2p_bet(
        &mut self,
        bet_id: Vec<u8>,
        event_details: Vec<u8>,
        options: Vec<Vec<u8>>,
        odds: Vec<u128>,
        caller: Address,
    ) -> (r: Result<(), ContractError>)
        ensures
            old(self).is_active_id(bet_id@) ==> r == Err::<(), ContractError>(ContractError::P2PBetExists)
                && final(self).p2p_bets@ == old(self).p2p_bets@ && final(self).active_bets@ == old(self).active_bets@,
            !old(self).is_active_id(bet_id@) ==> r is Ok && final(self).bet_of(bet_id@) == Some(
                P2PBetModel {
                    bet_id: bet_id@,
                    creator: caller,
                    event_details: event_details@,
                    options: byte_strings_view(options@),
                    odds: odds@,
                    total_pool: 0,
                    participants: Seq::empty(),
                    is_active: true,
                    result_declared: false,
                    winning_option: Seq::empty(),
                },
            ) && final(self).is_active_id(bet_id@) && (forall|id: Seq<u8>|
                id != bet_id@ ==> #[trigger] final(self).bet_of(id) == old(self).bet_of(id)
                    && final(self).is_active_id(id) == old(self).is_active_id(id)),
            final(self).token_manager == old(self).token_manager,
    {
        if contains_bytes(&self.active_bets, &bet_id) {
            return Err(ContractError::P2PBetExists);
        }
        let key = copy_bytes(&bet_id);
        let new_bet = P2PBet {
            bet_id,
            creator: caller,
            event_details,
            options,
            odds,
            total_pool: 0,
            participants: Vec::new(),
            is_active: true,
            result_declared: false,
            winning_option: Vec::new(),
        };
        assert(participants_view(new_bet.participants@) =~= Seq::<ParticipantModel>::empty());
        assert(new_bet.winning_option@ =~= Seq::<u8>::empty());
        self.put_p2p(new_bet);
        let ghost before = byte_strings_view(self.active_bets@);
        let ghost mid = *self;
        self.active_bets.push(key);
        assert(self.p2p_bets@ == mid.p2p_bets@);
        assert(byte_strings_view(self.active_bets@) =~= before.push(bet_id@));
        assert(byte_strings_view(self.active_bets@).contains(bet_id@)) by {
            assert(byte_strings_view(self.active_bets@)[before.len() as int] == bet_id@);
        }
        assert forall|id: Seq<u8>| id != bet_id@ implies #[trigger] self.is_active_id(id) == old(self).is_active_id(id) by {
            if before.contains(id) {
                let k = choose|k: int| 0 <= k < before.len() && before[k] == id;
                assert(byte_strings_view(self.active_bets@)[k] == id);
            }
            if byte_strings_view(self.active_bets@).contains(id) {
                let k = choose|k: int| 0 <= k < byte_strings_view(self.active_bets@).len() && byte_strings_view(self.active_bets@)[k] == id;
                assert(before[k] == id);
            }
        }
        assert forall|id: Seq<u8>| id != bet_id@ implies #[trigger] self.bet_of(id) == old(self).bet_of(id) by {
            assert(mid.bet_of(id) == old(self).bet_of(id));
        }
        Ok(())
    }

    /// Opens a peer-to-peer bet for `caller` on an event, with its options
    /// and their odds; its id is the SHA-256 digest of the event details (see
    /// `open_p2p_bet`, which says what is done with that id). Gives the
    /// "createP2PBet" event.
    pub fn create_p2p_bet(
        &mut self,
        event_details: Vec<u8>,
        options: Vec<Vec<u8>>,
        odds: Vec<u128>,
        caller: Address,
    ) -> (r: Result<P2PCreatedEvent, ContractError>)
        ensures
            ({
                let id = sha256_digest(event_details@);
                &&& old(self).is_active_id(id) ==> r == Err::<P2PCreatedEvent, ContractError>(ContractError::P2PBetExists)
                    && final(self).p2p_bets@ == old(self).p2p_bets@ && final(self).active_bets@ == old(self).active_bets@
                &&& !old(self).is_active_id(id) ==> (r matches Ok(ev) && ev.bet_id@ == id && ev.creator == caller
                    && ev.event_details@ == event_details@) && final(self).bet_of(id) == Some(
                    P2PBetModel {
                        bet_id: id,
                        creator: caller,
                        event_details: event_details@,
                        options: byte_strings_view(options@),
                        odds: odds@,
                        total_pool: 0,
                        participants: Seq::empty(),
                        is_active: true,
                        result_declared: false,
                        winning_option: Seq::empty(),
                    },
                ) && final(self).is_active_id(id) && (forall|other: Seq<u8>|
                    other != id ==> #[trigger] final(self).bet_of(other) == old(self).bet_of(other)
                        && final(self).is_active_id(other) == old(self).is_active_id(other))
            }),
            final(self).token_manager == old(self).token_manager,
    {
        let bet_id = sha256(&event_details);
        let id = copy_bytes(&bet_id);
        let details = copy_bytes(&event_details);
        self.open_p2p_bet(bet_id, event_details, options, odds, caller)?;
        Ok(P2PCreatedEvent { bet_id: id, creator: caller, event_details: details })
    }

    /// Joins active peer-to-peer bet `bet_id` for `caller`, staking
    /// `payment` EGLD on `option_chosen`, which must be one of its options;
    /// the participation token must be issued. Gives what the participation
    /// NFT is minted with. A refused join leaves the storage as it was.
    pub fn join_p2p_bet(&mut self, bet_id: &Vec<u8>, option_chosen: &Vec<u8>, caller: Address, payment: u128) -> (r: Result<ParticipationMint, ContractError>)
        ensures
            !old(self).is_active_id(bet_id@) ==> r == Err::<ParticipationMint, ContractError>(ContractError::P2PBetNotActive)
                && final(self).p2p_bets@ == old(self).p2p_bets@,
            old(self).is_active_id(bet_id@) ==> match old(self).bet_of(bet_id@) {
                None => r == Err::<ParticipationMint, ContractError>(ContractError::StorageDecode)
                    && final(self).p2p_bets@ == old(self).p2p_bets@,
                Some(b) => if !b.options.contains(option_chosen@) {
                    r == Err::<ParticipationMint, ContractError>(ContractError::InvalidBettingOption)
                        && final(self).p2p_bets@ == old(self).p2p_bets@
                } else if b.total_pool + payment > u128::MAX {
                    r == Err::<ParticipationMint, ContractError>(ContractError::AmountOverflow)
                        && final(self).p2p_bets@ == old(self).p2p_bets@
                } else if old(self).token_manager is None {
                    r == Err::<ParticipationMint, ContractError>(ContractError::TokenNotIssued)
                        && final(self).p2p_bets@ == old(self).p2p_bets@
                } else {
                    r matches Ok(m) && {
                        &&& final(self).bet_of(bet_id@) == Some(
                            P2PBetModel {
                                total_pool: (b.total_pool + payment) as u128,
                                participants: b.participants.push(
                                    ParticipantModel {
                                        address: caller,
                                        option_chosen: option_chosen@,
                                        stake: payment,
                                        nft_id: None,
                                    },
                                ),
                                ..b
                            },
                        )
                        &&& forall|id: Seq<u8>| id != bet_id@ ==> #[trigger] final(self).bet_of(id) == old(self).bet_of(id)
                        &&& participation_mint_matches(m, old(self).token_manager->0@, caller, bet_id@, option_chosen@, payment)
                    }
                },
            },
            final(self).active_bets@ == old(self).active_bets@,
            final(self).token_manager == old(self).token_manager,
    {
        if !contains_bytes(&self.active_bets, bet_id) {
            return Err(ContractError::P2PBetNotActive);
        }
        let i = match self.find_p2p(bet_id) {
            Some(i) => i,
            None => return Err(ContractError::StorageDecode),
        };
        assert(p2p_view(self.p2p_bets@)[i as int] == self.p2p_bets@[i as int]@);
        if !contains_bytes(&self.p2p_bets[i].options, option_chosen) {
            return Err(ContractError::InvalidBettingOption);
        }
        let pool = match self.p2p_bets[i].total_pool.checked_add(payment) {
            Some(p) => p,
            None => return Err(ContractError::AmountOverflow),
        };
        let mint = self.issue_participation_nft(caller, bet_id, option_chosen, payment)?;
        let mut bet = self.p2p_bets.remove(i);
        let ghost b0 = bet@;
        let participant = BetParticipant {
            address: caller,
            option_chosen: copy_bytes(option_chosen),
            stake: payment,
            nft_id: None,
        };
        let ghost pv = bet.participants@;
        bet.participants.push(participant);
        assert(participants_view(bet.participants@) =~= participants_view(pv).push(
            ParticipantModel { address: caller, option_chosen: option_chosen@, stake: payment, nft_id: None },
        ));
        bet.total_pool = pool;
        let ghost v = p2p_view(old(self).p2p_bets@);
        let ghost bv = bet@;
        self.p2p_bets.insert(i, bet);
        assert(p2p_view(self.p2p_bets@) =~= v.update(i as int, bv));
        proof {
            lemma_p2p_position(v, bet_id@);
            lemma_p2p_update_lookup(v, i as int, bv);
        }
        Ok(mint)
    }

    /// What the participation NFT of `participant` in bet `bet_id` is minted
    /// with (see `ParticipationMint`); refused before the participation
    /// token is issued.
    pub fn issue_participation_nft(&self, participant: Address, bet_id: &Vec<u8>, option_chosen: &Vec<u8>, stake: u128) -> (r: Result<ParticipationMint, ContractError>)
        ensures
            match self.token_manager {
                None => r == Err::<ParticipationMint, ContractError>(ContractError::TokenNotIssued),
                Some(t) => r matches Ok(m) && participation_mint_matches(m, t@, participant, bet_id@, option_chosen@, stake),
            },
    {
        let token = match &self.token_manager {
            Some(t) => t.clone(),
            None => return Err(ContractError::TokenNotIssued),
        };
        let attributes = ParticipationNFT { bet_id: copy_bytes(bet_id), option_chosen: copy_bytes(option_chosen), stake };
        let name: Vec<u8> = vec![80u8, 97u8, 114u8, 116u8, 105u8, 99u8, 105u8, 112u8, 97u8, 116u8, 105u8, 111u8, 110u8, 32u8, 78u8, 70u8, 84u8];
        assert(name@ =~= participation_nft_name());
        Ok(ParticipationMint { token, to: participant, amount: 1, name, attributes })
    }

    /// Finalizes peer-to-peer bet `bet_id` with `winning_option` (see
    /// `finalize_result`): the bet becomes inactive with its result declared,
    /// and leaves the active bets. Gives the shares of the winners. A refused
    /// finalization leaves the storage as it was.
    pub fn finalize_p2p_bet(&mut self, bet_id: &Vec<u8>, winning_option: &Vec<u8>, caller: Address) -> (r: Result<Vec<Transfer>, ContractError>)
        ensures
            match old(self).bet_of(bet_id@) {
                None => r == Err::<Vec<Transfer>, ContractError>(ContractError::StorageDecode)
                    && final(self).p2p_bets@ == old(self).p2p_bets@ && final(self).active_bets@ == old(self).active_bets@,
                Some(b) => match finalize_result(b, winning_option@, caller) {
                    Err(e) => r == Err::<Vec<Transfer>, ContractError>(e) && final(self).p2p_bets@ == old(self).p2p_bets@
                        && final(self).active_bets@ == old(self).active_bets@,
                    Ok(ts) => r matches Ok(out) && {
                        &&& crate::events::transfers_view(out@) == ts
                        &&& final(self).bet_of(bet_id@) == Some(
                            P2PBetModel { is_active: false, result_declared: true, winning_option: winning_option@, ..b },
                        )
                        &&& forall|id: Seq<u8>| id != bet_id@ ==> #[trigger] final(self).bet_of(id) == old(self).bet_of(id)
                        &&& !final(self).is_active_id(bet_id@)
                        &&& forall|id: Seq<u8>| id != bet_id@ ==> #[trigger] final(self).is_active_id(id) == old(self).is_active_id(id)
                    },
                },
            },
            final(self).token_manager == old(self).token_manager,
    {
        let i = match self.find_p2p(bet_id) {
            Some(i) => i,
            None => return Err(ContractError::StorageDecode),
        };
        let ghost b = self.p2p_bets@[i as int]@;
        assert(p2p_view(self.p2p_bets@)[i as int] == b);
        let bet = &self.p2p_bets[i];
        if bet.creator != caller {
            return Err(ContractError::NotBetCreator);
        }
        if !bet.is_active {
            return Err(ContractError::BetAlreadyFinalized);
        }
        let ghost ps = b.participants;
        let mut total_winning: u128 = 0;
        let mut k: usize = 0;
        assert(ps.take(0) =~= Seq::<ParticipantModel>::empty());
        while k < bet.participants.len()
            invariant
                ps == participants_view(bet.participants@),
                ps == b.participants,
                old(self).bet_of(bet_id@) == Some(b),
                b.creator == caller,
                b.is_active,
                self.p2p_bets@ == old(self).p2p_bets@,
                self.active_bets@ == old(self).active_bets@,
                0 <= k <= ps.len(),
                total_winning == winning_stake(ps.take(k as int), winning_option@),
            decreases bet.participants.len() - k,
        {
            assert(ps.take(k + 1).drop_last() =~= ps.take(k as int));
            assert(ps.take(k + 1).last() == bet.participants@[k as int]@);
            let ghost before_sum = total_winning;
            if bytes_eq(&bet.participants[k].option_chosen, winning_option) {
                assert(winning_stake(ps.take(k + 1), winning_option@) == before_sum + bet.participants@[k as int].stake);
                total_winning = match total_winning.checked_add(bet.participants[k].stake) {
                    Some(t) => t,
                    None => {
                        proof {
                            lemma_winning_stake_grow(ps, winning_option@, k + 1);
                        }
                        return Err(ContractError::AmountOverflow);
                    },
                };
            }
            k = k + 1;
        }
        assert(ps.take(k as int) =~= ps);
        if total_winning == 0 {
            return Err(ContractError::NoWinners);
        }
        let pool = bet.total_pool;
        let mut transfers: Vec<Transfer> = Vec::new();
        let mut k: usize = 0;
        assert(crate::events::transfers_view(transfers@) =~= shares(ps.take(0), winning_option@, pool, total_winning as int));
        while k < bet.participants.len()
            invariant
                ps == participants_view(bet.participants@),
                ps == b.participants,
                old(self).bet_of(bet_id@) == Some(b),
                b.creator == caller,
                b.is_active,
                self.p2p_bets@ == old(self).p2p_bets@,
                self.active_bets@ == old(self).active_bets@,
                b.total_pool == pool,
                total_winning as int == winning_stake(ps, winning_option@),
                total_winning > 0,
                0 <= k <= ps.len(),
                crate::events::transfers_view(transfers@) == shares(ps.take(k as int), winning_option@, pool, total_winning as int),
                forall|j: int|
                    0 <= j < k && (#[trigger] ps[j]).option_chosen == winning_option@ ==> ps[j].stake * pool <= u128::MAX,
            decreases bet.participants.len() - k,
        {
            assert(ps.take(k + 1).drop_last() =~= ps.take(k as int));
            assert(ps.take(k + 1).last() == bet.participants@[k as int]@);
            let p = &bet.participants[k];
            if bytes_eq(&p.option_chosen, winning_option) {
                let prod = match p.stake.checked_mul(pool) {
                    Some(v) => v,
                    None => {
                        assert(ps[k as int].option_chosen == winning_option@ && ps[k as int].stake * pool > u128::MAX);
                        return Err(ContractError::AmountOverflow);
                    },
                };
                let share = prod / total_winning;
                let ghost prev = transfers@;
                let egld = String::from_str("EGLD");
                proof {
                    reveal_strlit("EGLD");
                }
                assert(egld@ =~= seq!['E', 'G', 'L', 'D']);
                let t = Transfer { to: p.address, token: egld, nonce: 0, amount: share };
                assert(t@ == TransferModel {
                    to: ps[k as int].address,
                    token: seq!['E', 'G', 'L', 'D'],
                    nonce: 0,
                    amount: (ps[k as int].stake * pool / (total_winning as int)) as u128,
                });
                transfers.push(t);
                assert(crate::events::transfers_view(transfers@) =~= crate::events::transfers_view(prev).push(transfers@.last()@));
            }
            k = k + 1;
        }
        assert(ps.take(k as int) =~= ps);
        let mut updated = self.p2p_bets.remove(i);
        updated.is_active = false;
        updated.result_declared = true;
        updated.winning_option = copy_bytes(winning_option);
        let ghost v = p2p_view(old(self).p2p_bets@);
        let ghost bv = updated@;
        self.p2p_bets.insert(i, updated);
        assert(p2p_view(self.p2p_bets@) =~= v.update(i as int, bv));
        proof {
            lemma_p2p_position(v, bet_id@);
            lemma_p2p_update_lookup(v, i as int, bv);
        }
        self.deactivate(bet_id);
        Ok(transfers)
    }

    /// Records the nonce of the participation NFT minted for the last
    /// participant of bet `bet_id`, and gives the transfer of that NFT to
    /// the participant; refused, leaving the storage as it was, when the bet
    /// is not stored, has no participant, or the token is not issued.
    pub fn record_participation_nft(&mut self, bet_id: &Vec<u8>, nft_nonce: u64) -> (r: Result<Transfer, ContractError>)
        ensures
            match old(self).bet_of(bet_id@) {
                None => r == Err::<Transfer, ContractError>(ContractError::StorageDecode) && final(self).p2p_bets@
                    == old(self).p2p_bets@,
                Some(b) => if b.participants.len() == 0 {
                    r == Err::<Transfer, ContractError>(ContractError::IndexOutOfRange) && final(self).p2p_bets@
                        == old(self).p2p_bets@
                } else if old(self).token_manager is None {
                    r == Err::<Transfer, ContractError>(ContractError::TokenNotIssued) && final(self).p2p_bets@
                        == old(self).p2p_bets@
                } else {
                    r matches Ok(t) && {
                        let last = b.participants.last();
                        &&& final(self).bet_of(bet_id@) == Some(
                            P2PBetModel {
                                participants: b.participants.update(
                                    b.participants.len() - 1,
                                    ParticipantModel { nft_id: Some(nft_nonce), ..last },
                                ),
                                ..b
                            },
                        )
                        &&& forall|id: Seq<u8>| id != bet_id@ ==> #[trigger] final(self).bet_of(id) == old(self).bet_of(id)
                        &&& t@ == TransferModel { to: last.address, token: old(self).token_manager->0@, nonce: nft_nonce, amount: 1 }
                    }
                },
            },
            final(self).active_bets@ == old(self).active_bets@,
            final(self).token_manager == old(self).token_manager,
    {
        let i = match self.find_p2p(bet_id) {
            Some(i) => i,
            None => return Err(ContractError::StorageDecode),
        };
        assert(p2p_view(self.p2p_bets@)[i as int] == self.p2p_bets@[i as int]@);
        let n = self.p2p_bets[i].participants.len();
        if n == 0 {
            return Err(ContractError::IndexOutOfRange);
        }
        let token = match &self.token_manager {
            Some(t) => t.clone(),
            None => return Err(ContractError::TokenNotIssued),
        };
        let mut bet = self.p2p_bets.remove(i);
        let mut participant = bet.participants.remove(n - 1);
        let to = participant.address;
        participant.nft_id = Some(nft_nonce);
        let ghost pv = bet.participants@;
        bet.participants.push(participant);
        let ghost v = p2p_view(old(self).p2p_bets@);
        let ghost b = v[i as int];
        assert(participants_view(bet.participants@) =~= b.participants.update(
            b.participants.len() - 1,
            ParticipantModel { nft_id: Some(nft_nonce), ..b.participants.last() },
        ));
        let ghost bv = bet@;
        self.p2p_bets.insert(i, bet);
        assert(p2p_view(self.p2p_bets@) =~= v.update(i as int, bv));
        proof {
            lemma_p2p_position(v, bet_id@);
            lemma_p2p_update_lookup(v, i as int, bv);
        }
        Ok(Transfer { to, token, nonce: nft_nonce, amount: 1 })
    }
}

} // verus!
