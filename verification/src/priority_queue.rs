//! A two-sided queue of open bets, each side kept in priority order: back
//! bets by falling odds, lay bets by rising odds, earlier bets first at
//! equal odds.
use vstd::prelude::*;
use crate::types::{Bet, BetType, bet_copied, lemma_bet_copied_trans};

verus! {

/// `new_bet` goes in front of `existing` in the queue of the given side.
pub open spec fn beats(new_bet: Bet, existing: Bet, is_back: bool) -> bool {
    if is_back {
        new_bet.odd > existing.odd || (new_bet.odd == existing.odd && new_bet.created_at
            < existing.created_at)
    } else {
        new_bet.odd < existing.odd || (new_bet.odd == existing.odd && new_bet.created_at
            < existing.created_at)
    }
}

/// No bet of the queue goes in front of one that precedes it.
pub open spec fn queue_ordered(q: Seq<Bet>, is_back: bool) -> bool {
    forall|i: int, j: int| 0 <= i < j < q.len() ==> !beats(#[trigger] q[j], #[trigger] q[i], is_back)
}

/// `p` is where `bet` enters the queue: in front of the first bet that it
/// beats, or at the end.
pub open spec fn is_insert_position(q: Seq<Bet>, bet: Bet, is_back: bool, p: int) -> bool {
    &&& 0 <= p <= q.len()
    &&& forall|j: int| 0 <= j < p ==> !beats(bet, #[trigger] q[j], is_back)
    &&& p < q.len() ==> beats(bet, q[p], is_back)
}

/// The amount a bet brings to the liquidity of its side: the stake of a
/// back bet, the liability of a lay bet.
pub open spec fn side_amount(b: Bet, is_back: bool) -> int {
    if is_back {
        b.stake_amount as int
    } else {
        b.liability as int
    }
}

/// The liquidity of a queue: the sum of the side amounts of its bets.
pub open spec fn queue_sum(q: Seq<Bet>, is_back: bool) -> int
    decreases q.len(),
{
    if q.len() == 0 {
        0
    } else {
        queue_sum(q.drop_last(), is_back) + side_amount(q.last(), is_back)
    }
}

/// The best odds of a queue: those of its first bet, 0 when it is empty.
pub open spec fn best_odds(q: Seq<Bet>) -> u128 {
    if q.len() == 0 {
        0
    } else {
        q[0].odd
    }
}

/// A bet of the queue on side `is_back` can be taken at `odds`: a back bet
/// at odds no higher, a lay bet at odds no lower.
pub open spec fn takes(b: Bet, odds: u128, is_back: bool) -> bool {
    if is_back {
        odds >= b.odd
    } else {
        odds <= b.odd
    }
}

/// The bets of `q`, in order, that can (`taken`) or cannot (`!taken`) be
/// taken at `odds`.
pub open spec fn split_queue(q: Seq<Bet>, odds: u128, is_back: bool, taken: bool) -> Seq<Bet>
    decreases q.len(),
{
    if q.len() == 0 {
        q
    } else {
        let rest = split_queue(q.drop_last(), odds, is_back, taken);
        if takes(q.last(), odds, is_back) == taken {
            rest.push(q.last())
        } else {
            rest
        }
    }
}

/// The index of the last bet of `q` with the given NFT nonce, -1 when none.
pub open spec fn last_with_nonce(q: Seq<Bet>, bet_id: u64) -> int
    decreases q.len(),
{
    if q.len() == 0 {
        -1
    } else if q.last().nft_nonce == bet_id {
        q.len() - 1
    } else {
        last_with_nonce(q.drop_last(), bet_id)
    }
}

/// The bets of `q`, in order, whose NFT nonce is not `bet_id`.
pub open spec fn without_nonce(q: Seq<Bet>, bet_id: u64) -> Seq<Bet>
    decreases q.len(),
{
    if q.len() == 0 {
        q
    } else {
        let rest = without_nonce(q.drop_last(), bet_id);
        if q.last().nft_nonce != bet_id {
            rest.push(q.last())
        } else {
            rest
        }
    }
}

pub proof fn lemma_queue_sum_prefix(q: Seq<Bet>, is_back: bool, i: int)
    requires
        0 <= i < q.len(),
    ensures
        queue_sum(q.take(i + 1), is_back) == queue_sum(q.take(i), is_back) + side_amount(
            q[i],
            is_back,
        ),
{
    assert(q.take(i + 1).drop_last() =~= q.take(i));
}

pub proof fn lemma_queue_sum_prefix_bound(q: Seq<Bet>, is_back: bool, i: int)
    requires
        0 <= i <= q.len(),
    ensures
        queue_sum(q.take(i), is_back) <= queue_sum(q, is_back),
        0 <= queue_sum(q.take(i), is_back),
    decreases q.len() - i,
{
    lemma_queue_sum_nonneg(q.take(i), is_back);
    if i == q.len() {
        assert(q.take(i) =~= q);
    } else {
        lemma_queue_sum_prefix_bound(q, is_back, i + 1);
        lemma_queue_sum_prefix(q, is_back, i);
    }
}

pub proof fn lemma_queue_sum_nonneg(q: Seq<Bet>, is_back: bool)
    ensures
        0 <= queue_sum(q, is_back),
    decreases q.len(),
{
    if q.len() > 0 {
        lemma_queue_sum_nonneg(q.drop_last(), is_back);
    }
}

pub proof fn lemma_split_prefix(q: Seq<Bet>, odds: u128, is_back: bool, taken: bool, k: int)
    requires
        0 <= k < q.len(),
    ensures
        split_queue(q.take(k + 1), odds, is_back, taken) == (if takes(q[k], odds, is_back)
            == taken {
            split_queue(q.take(k), odds, is_back, taken).push(q[k])
        } else {
            split_queue(q.take(k), odds, is_back, taken)
        }),
{
    assert(q.take(k + 1).drop_last() =~= q.take(k));
}

pub proof fn lemma_split_sum(q: Seq<Bet>, odds: u128, is_back: bool, taken: bool)
    ensures
        queue_sum(split_queue(q, odds, is_back, taken), is_back) <= queue_sum(q, is_back),
    decreases q.len(),
{
    if q.len() > 0 {
        lemma_split_sum(q.drop_last(), odds, is_back, taken);
        let rest = split_queue(q.drop_last(), odds, is_back, taken);
        assert(rest.push(q.last()).drop_last() =~= rest);
    }
}

/// Every bet of a split comes from the queue, after the bets that come
/// before it there.
pub proof fn lemma_split_from_queue(q: Seq<Bet>, odds: u128, is_back: bool, taken: bool)
    ensures
        forall|i: int|
            0 <= i < split_queue(q, odds, is_back, taken).len() ==> exists|j: int|
                0 <= j < q.len() && #[trigger] split_queue(q, odds, is_back, taken)[i] == q[j],
        split_queue(q, odds, is_back, taken).len() <= q.len(),
    decreases q.len(),
{
    if q.len() > 0 {
        lemma_split_from_queue(q.drop_last(), odds, is_back, taken);
        let rest = split_queue(q.drop_last(), odds, is_back, taken);
        assert forall|i: int|
            0 <= i < split_queue(q, odds, is_back, taken).len() implies exists|j: int|
                0 <= j < q.len() && #[trigger] split_queue(q, odds, is_back, taken)[i] == q[j] by {
            if i < rest.len() {
                let j = choose|j: int| 0 <= j < q.drop_last().len() && rest[i] == q.drop_last()[j];
                assert(split_queue(q, odds, is_back, taken)[i] == q[j]);
            } else {
                assert(split_queue(q, odds, is_back, taken)[i] == q[q.len() - 1]);
            }
        }
    }
}

/// A split of an ordered queue is ordered.
pub proof fn lemma_split_ordered(q: Seq<Bet>, odds: u128, is_back: bool, taken: bool)
    requires
        queue_ordered(q, is_back),
    ensures
        queue_ordered(split_queue(q, odds, is_back, taken), is_back),
    decreases q.len(),
{
    if q.len() > 0 {
        let d = q.drop_last();
        assert(queue_ordered(d, is_back)) by {
            assert forall|i: int, j: int| 0 <= i < j < d.len() implies !beats(
                #[trigger] d[j],
                #[trigger] d[i],
                is_back,
            ) by {
                assert(d[j] == q[j] && d[i] == q[i]);
            }
        }
        lemma_split_ordered(d, odds, is_back, taken);
        lemma_split_from_queue(d, odds, is_back, taken);
        let rest = split_queue(d, odds, is_back, taken);
        let s = split_queue(q, odds, is_back, taken);
        assert forall|i: int, j: int| 0 <= i < j < s.len() implies !beats(
            #[trigger] s[j],
            #[trigger] s[i],
            is_back,
        ) by {
            if j < rest.len() {
                assert(s[j] == rest[j] && s[i] == rest[i]);
            } else {
                assert(s[j] == q.last());
                assert(s[i] == rest[i]);
                let k = choose|k: int| 0 <= k < d.len() && rest[i] == d[k];
                assert(q[k] == rest[i]);
                assert(q[q.len() - 1] == q.last());
            }
        }
    }
}

/// The liquidity of two queues one after the other is the sum of theirs.
pub proof fn lemma_queue_sum_append(a: Seq<Bet>, b: Seq<Bet>, is_back: bool)
    ensures
        queue_sum(a + b, is_back) == queue_sum(a, is_back) + queue_sum(b, is_back),
    decreases b.len(),
{
    if b.len() == 0 {
        assert(a + b =~= a);
    } else {
        lemma_queue_sum_append(a, b.drop_last(), is_back);
        assert((a + b).drop_last() =~= a + b.drop_last());
        assert((a + b).last() == b.last());
    }
}

/// Inserting a bet adds its side amount to the liquidity of the queue.
pub proof fn lemma_queue_sum_insert(q: Seq<Bet>, bet: Bet, is_back: bool, p: int)
    requires
        0 <= p <= q.len(),
    ensures
        queue_sum(q.take(p) + seq![bet] + q.skip(p), is_back) == queue_sum(q, is_back) + side_amount(bet, is_back),
{
    lemma_queue_sum_append(q.take(p) + seq![bet], q.skip(p), is_back);
    lemma_queue_sum_append(q.take(p), seq![bet], is_back);
    lemma_queue_sum_append(q.take(p), q.skip(p), is_back);
    assert(q.take(p) + q.skip(p) =~= q);
    assert(queue_sum(seq![bet], is_back) == side_amount(bet, is_back)) by {
        reveal_with_fuel(queue_sum, 2);
        assert(seq![bet].drop_last() =~= Seq::<Bet>::empty());
        assert(seq![bet].last() == bet);
        assert(queue_sum(seq![bet].drop_last(), is_back) == 0);
    }
}

/// Taking bets out of a queue does not raise its liquidity.
pub proof fn lemma_without_sum(q: Seq<Bet>, bet_id: u64, is_back: bool)
    ensures
        queue_sum(without_nonce(q, bet_id), is_back) <= queue_sum(q, is_back),
    decreases q.len(),
{
    if q.len() > 0 {
        lemma_without_sum(q.drop_last(), bet_id, is_back);
        let rest = without_nonce(q.drop_last(), bet_id);
        assert(rest.push(q.last()).drop_last() =~= rest);
        lemma_queue_sum_nonneg(q, is_back);
    }
}

/// Every bet left in a queue after taking bets out comes from the queue,
/// no later in it than where it was.
pub proof fn lemma_without_from_queue(q: Seq<Bet>, bet_id: u64)
    ensures
        without_nonce(q, bet_id).len() <= q.len(),
        forall|i: int|
            0 <= i < without_nonce(q, bet_id).len() ==> exists|j: int|
                i <= j < q.len() && #[trigger] without_nonce(q, bet_id)[i] == q[j],
    decreases q.len(),
{
    if q.len() > 0 {
        lemma_without_from_queue(q.drop_last(), bet_id);
        let rest = without_nonce(q.drop_last(), bet_id);
        let w = without_nonce(q, bet_id);
        assert forall|i: int| 0 <= i < w.len() implies exists|j: int| i <= j < q.len() && #[trigger] w[i] == q[j] by {
            if i < rest.len() {
                let j = choose|j: int| i <= j < q.drop_last().len() && rest[i] == q.drop_last()[j];
                assert(w[i] == q[j]);
            } else {
                assert(w[i] == q[q.len() - 1]);
            }
        }
    }
}

/// Taking bets out of an ordered queue leaves it ordered.
pub proof fn lemma_without_ordered(q: Seq<Bet>, bet_id: u64, is_back: bool)
    requires
        queue_ordered(q, is_back),
    ensures
        queue_ordered(without_nonce(q, bet_id), is_back),
    decreases q.len(),
{
    if q.len() > 0 {
        let d = q.drop_last();
        assert(queue_ordered(d, is_back)) by {
            assert forall|i: int, j: int| 0 <= i < j < d.len() implies !beats(
                #[trigger] d[j],
                #[trigger] d[i],
                is_back,
            ) by {
                assert(d[j] == q[j] && d[i] == q[i]);
            }
        }
        lemma_without_ordered(d, bet_id, is_back);
        lemma_without_from_queue(d, bet_id);
        let rest = without_nonce(d, bet_id);
        let w = without_nonce(q, bet_id);
        assert forall|i: int, j: int| 0 <= i < j < w.len() implies !beats(#[trigger] w[j], #[trigger] w[i], is_back) by {
            if j < rest.len() {
                assert(w[j] == rest[j] && w[i] == rest[i]);
            } else {
                assert(w[j] == q.last());
                assert(w[i] == rest[i]);
                let k = choose|k: int| i <= k < d.len() && rest[i] == d[k];
                assert(q[k] == rest[i]);
                assert(q[q.len() - 1] == q.last());
            }
        }
    }
}

/// A queue with no bet of the given nonce loses nothing when they are taken out.
pub proof fn lemma_without_none(q: Seq<Bet>, bet_id: u64)
    requires
        last_with_nonce(q, bet_id) == -1,
    ensures
        without_nonce(q, bet_id) == q,
    decreases q.len(),
{
    if q.len() > 0 {
        lemma_without_none(q.drop_last(), bet_id);
        assert(q.drop_last().push(q.last()) =~= q);
    }
}

pub proof fn lemma_without_prefix(q: Seq<Bet>, bet_id: u64, k: int)
    requires
        0 <= k < q.len(),
    ensures
        without_nonce(q.take(k + 1), bet_id) == (if q[k].nft_nonce != bet_id {
            without_nonce(q.take(k), bet_id).push(q[k])
        } else {
            without_nonce(q.take(k), bet_id)
        }),
        last_with_nonce(q.take(k + 1), bet_id) == (if q[k].nft_nonce == bet_id {
            k
        } else {
            last_with_nonce(q.take(k), bet_id)
        }),
{
    assert(q.take(k + 1).drop_last() =~= q.take(k));
}

pub proof fn lemma_last_with_nonce_range(q: Seq<Bet>, bet_id: u64)
    ensures
        -1 <= last_with_nonce(q, bet_id) < q.len(),
        last_with_nonce(q, bet_id) >= 0 ==> q[last_with_nonce(q, bet_id)].nft_nonce == bet_id,
        last_with_nonce(q, bet_id) == -1 <==> (forall|i: int|
            0 <= i < q.len() ==> #[trigger] q[i].nft_nonce != bet_id),
    decreases q.len(),
{
    if q.len() > 0 {
        lemma_last_with_nonce_range(q.drop_last(), bet_id);
        if q.last().nft_nonce != bet_id {
            assert forall|i: int|
                0 <= i < q.len() && (forall|i: int|
                    0 <= i < q.drop_last().len() ==> #[trigger] q.drop_last()[i].nft_nonce
                        != bet_id) implies #[trigger] q[i].nft_nonce != bet_id by {
                if i < q.len() - 1 {
                    assert(q[i] == q.drop_last()[i]);
                }
            }
            if last_with_nonce(q, bet_id) == -1 {
                assert forall|i: int| 0 <= i < q.drop_last().len() implies #[trigger] q.drop_last()[i].nft_nonce != bet_id by {
                    assert(q.drop_last()[i] == q[i]);
                }
            } else {
                let k = last_with_nonce(q, bet_id);
                assert(q.drop_last()[k] == q[k]);
            }
        }
    }
}

/// An insertion at the insertion position keeps an ordered queue ordered.
pub proof fn lemma_insert_keeps_order(q: Seq<Bet>, bet: Bet, is_back: bool, p: int)
    requires
        queue_ordered(q, is_back),
        is_insert_position(q, bet, is_back, p),
    ensures
        queue_ordered(q.take(p) + seq![bet] + q.skip(p), is_back),
{
    let r = q.take(p) + seq![bet] + q.skip(p);
    assert forall|i: int, j: int| 0 <= i < j < r.len() implies !beats(
        #[trigger] r[j],
        #[trigger] r[i],
        is_back,
    ) by {
        if j < p {
            assert(r[j] == q[j] && r[i] == q[i]);
        } else if j == p {
            assert(r[j] == bet && r[i] == q[i]);
        } else if i < p {
            assert(r[j] == q[j - 1] && r[i] == q[i]);
        } else if i == p {
            assert(r[j] == q[j - 1] && r[i] == bet);
            assert(beats(bet, q[p], is_back));
            assert(!beats(q[j - 1], q[p], is_back) || j - 1 == p);
        } else {
            assert(r[j] == q[j - 1] && r[i] == q[i - 1]);
        }
    }
}

/// Queues that copy each other bet by bet hold their last bet with a given
/// nonce at the same place.
pub proof fn lemma_copied_queue_last(a: Seq<Bet>, b: Seq<Bet>, bet_id: u64)
    requires
        a.len() == b.len(),
        forall|i: int| 0 <= i < a.len() ==> bet_copied(#[trigger] a[i], b[i]),
    ensures
        last_with_nonce(a, bet_id) == last_with_nonce(b, bet_id),
    decreases a.len(),
{
    if a.len() > 0 {
        assert(bet_copied(a[a.len() - 1], b[b.len() - 1]));
        lemma_copied_queue_last(a.drop_last(), b.drop_last(), bet_id);
    }
}

/// The open back and lay bets of a selection, with their liquidity and
/// best odds.
pub struct PriorityQueue {
    back_bets: Vec<Bet>,
    lay_bets: Vec<Bet>,
    best_back_odds: u128,
    best_lay_odds: u128,
    back_liquidity: u128,
    lay_liquidity: u128,
}

impl PriorityQueue {
    pub closed spec fn back_queue(&self) -> Seq<Bet> {
        self.back_bets@
    }

    pub closed spec fn lay_queue(&self) -> Seq<Bet> {
        self.lay_bets@
    }

    pub closed spec fn back_liquidity_spec(&self) -> u128 {
        self.back_liquidity
    }

    pub closed spec fn lay_liquidity_spec(&self) -> u128 {
        self.lay_liquidity
    }

    pub closed spec fn best_back_odds_spec(&self) -> u128 {
        self.best_back_odds
    }

    pub closed spec fn best_lay_odds_spec(&self) -> u128 {
        self.best_lay_odds
    }

    /// Both queues are in priority order, their liquidities fit in 128 bits
    /// and the stored liquidity and best odds are those of the queues.
    pub open spec fn wf(&self) -> bool {
        &&& queue_ordered(self.back_queue(), true)
        &&& queue_ordered(self.lay_queue(), false)
        &&& queue_sum(self.back_queue(), true) <= u128::MAX
        &&& queue_sum(self.lay_queue(), false) <= u128::MAX
        &&& self.back_liquidity_spec() == queue_sum(self.back_queue(), true)
        &&& self.lay_liquidity_spec() == queue_sum(self.lay_queue(), false)
        &&& self.best_back_odds_spec() == best_odds(self.back_queue())
        &&& self.best_lay_odds_spec() == best_odds(self.lay_queue())
    }

    pub fn new() -> (q: Self)
        ensures
            q.wf(),
            q.back_queue() == Seq::<Bet>::empty(),
            q.lay_queue() == Seq::<Bet>::empty(),
            q.back_liquidity_spec() == 0,
            q.lay_liquidity_spec() == 0,
            q.best_back_odds_spec() == 0,
            q.best_lay_odds_spec() == 0,
    {
        let q = PriorityQueue {
            back_bets: Vec::new(),
            lay_bets: Vec::new(),
            best_back_odds: 0,
            best_lay_odds: 0,
            back_liquidity: 0,
            lay_liquidity: 0,
        };
        assert(q.back_bets@ =~= Seq::<Bet>::empty());
        assert(q.lay_bets@ =~= Seq::<Bet>::empty());
        q
    }

    /// Adds a bet to the queue of its side, in front of the first bet that it
    /// beats (or at the end), and computes the side's liquidity and best odds
    /// again.
    pub fn add(&mut self, bet: Bet)
        requires
            old(self).wf(),
            queue_sum(
                if bet.bet_type == BetType::Back {
                    old(self).back_queue()
                } else {
                    old(self).lay_queue()
                },
                bet.bet_type == BetType::Back,
            ) + side_amount(bet, bet.bet_type == BetType::Back) <= u128::MAX,
        ensures
            final(self).wf(),
            bet.bet_type == BetType::Back ==> {
                &&& exists|p: int|
                    is_insert_position(old(self).back_queue(), bet, true, p) && final(self).back_queue()
                        == old(self).back_queue().take(p) + seq![bet] + old(self).back_queue().skip(p)
                &&& final(self).lay_queue() == old(self).lay_queue()
            },
            bet.bet_type == BetType::Lay ==> {
                &&& exists|p: int|
                    is_insert_position(old(self).lay_queue(), bet, false, p) && final(self).lay_queue()
                        == old(self).lay_queue().take(p) + seq![bet] + old(self).lay_queue().skip(p)
                &&& final(self).back_queue() == old(self).back_queue()
            },
    {
        let is_back = bet.bet_type == BetType::Back;
        let mut queue: Vec<Bet> = Vec::new();
        if is_back {
            std::mem::swap(&mut queue, &mut self.back_bets);
        } else {
            std::mem::swap(&mut queue, &mut self.lay_bets);
        }
        let ghost before = queue@;
        let ghost b = bet;
        self.insert_bet_to_queue(&mut queue, bet, is_back);
        proof {
            let p = choose|p: int|
                is_insert_position(before, b, is_back, p) && queue@ == before.take(p) + seq![b] + before.skip(p);
            lemma_insert_keeps_order(before, b, is_back, p);
            lemma_queue_sum_insert(before, b, is_back, p);
        }
        if is_back {
            self.back_bets = queue;
            self.update_back_liquidity_and_odds();
        } else {
            self.lay_bets = queue;
            self.update_lay_liquidity_and_odds();
        }
    }

    /// Inserts `bet` in front of the first bet of `queue` that it beats, or
    /// at the end.
    pub fn insert_bet_to_queue(&self, queue: &mut Vec<Bet>, bet: Bet, is_back: bool)
        ensures
            exists|p: int|
                is_insert_position(old(queue)@, bet, is_back, p) && final(queue)@ == old(
                    queue,
                )@.take(p) + seq![bet] + old(queue)@.skip(p),
    {
        let mut p: usize = 0;
        let mut found = false;
        while p < queue.len() && !found
            invariant
                0 <= p <= queue.len(),
                forall|j: int| 0 <= j < p ==> !beats(bet, #[trigger] queue@[j], is_back),
                found ==> p < queue.len() && beats(bet, queue@[p as int], is_back),
            decreases queue.len() - p, if found { 0int } else { 1int },
        {
            if self.should_insert_before(&bet, &queue[p], is_back) {
                found = true;
            } else {
                p = p + 1;
            }
        }
        proof {
            assert(is_insert_position(queue@, bet, is_back, p as int));
        }
        let ghost before = queue@;
        queue.insert(p, bet);
        assert(queue@ =~= before.take(p as int) + seq![bet] + before.skip(p as int));
    }

    /// Whether a bet with the given NFT nonce is in either queue.
    pub fn contains(&self, bet_id: u64) -> (found: bool)
        ensures
            found == ((exists|i: int|
                0 <= i < self.back_queue().len() && #[trigger] self.back_queue()[i].nft_nonce
                    == bet_id) || (exists|i: int|
                0 <= i < self.lay_queue().len() && #[trigger] self.lay_queue()[i].nft_nonce
                    == bet_id)),
    {
        let mut i: usize = 0;
        while i < self.back_bets.len()
            invariant
                0 <= i <= self.back_bets.len(),
                forall|j: int| 0 <= j < i ==> #[trigger] self.back_bets@[j].nft_nonce != bet_id,
            decreases self.back_bets.len() - i,
        {
            if self.back_bets[i].nft_nonce == bet_id {
                return true;
            }
            i = i + 1;
        }
        let mut k: usize = 0;
        while k < self.lay_bets.len()
            invariant
                0 <= k <= self.lay_bets.len(),
                forall|j: int| 0 <= j < self.back_bets@.len() ==> #[trigger] self.back_bets@[j].nft_nonce != bet_id,
                forall|j: int| 0 <= j < k ==> #[trigger] self.lay_bets@[j].nft_nonce != bet_id,
            decreases self.lay_bets.len() - k,
        {
            if self.lay_bets[k].nft_nonce == bet_id {
                return true;
            }
            k = k + 1;
        }
        false
    }

    /// A copy of the first bet of the queue of the given side, if any.
    pub fn peek(&self, bet_type: BetType) -> (first: Option<Bet>)
        ensures
            bet_type == BetType::Back ==> (match first {
                Some(b) => self.back_queue().len() > 0 && bet_copied(self.back_queue()[0], b),
                None => self.back_queue().len() == 0,
            }),
            bet_type == BetType::Lay ==> (match first {
                Some(b) => self.lay_queue().len() > 0 && bet_copied(self.lay_queue()[0], b),
                None => self.lay_queue().len() == 0,
            }),
    {
        match bet_type {
            BetType::Back => if !self.back_bets.is_empty() {
                Some(self.back_bets[0].clone())
            } else {
                None
            },
            BetType::Lay => if !self.lay_bets.is_empty() {
                Some(self.lay_bets[0].clone())
            } else {
                None
            },
        }
    }

    /// Takes the bets with the given NFT nonce out of the back queue, or, when
    /// it has none, out of the lay queue, and computes that side's liquidity
    /// and best odds again. Gives the last bet taken out.
    pub fn remove(&mut self, bet_id: u64) -> (removed: Option<Bet>)
        requires
            old(self).wf(),
        ensures
            final(self).wf(),
            last_with_nonce(old(self).back_queue(), bet_id) >= 0 ==> {
                &&& final(self).back_queue() == without_nonce(old(self).back_queue(), bet_id)
                &&& final(self).lay_queue() == old(self).lay_queue()
                &&& removed matches Some(b) && bet_copied(
                    old(self).back_queue()[last_with_nonce(old(self).back_queue(), bet_id)],
                    b,
                )
            },
            last_with_nonce(old(self).back_queue(), bet_id) < 0 ==> {
                &&& final(self).back_queue() == old(self).back_queue()
                &&& final(self).lay_queue() == without_nonce(old(self).lay_queue(), bet_id)
                &&& match removed {
                    Some(b) => last_with_nonce(old(self).lay_queue(), bet_id) >= 0 && bet_copied(
                        old(self).lay_queue()[last_with_nonce(old(self).lay_queue(), bet_id)],
                        b,
                    ),
                    None => last_with_nonce(old(self).lay_queue(), bet_id) == -1,
                }
            },
    {
        let mut back: Vec<Bet> = Vec::new();
        std::mem::swap(&mut back, &mut self.back_bets);
        let ghost back_before = back@;
        let found_back = self.remove_from_queue(&mut back, bet_id);
        proof {
            lemma_without_ordered(back_before, bet_id, true);
            lemma_without_sum(back_before, bet_id, true);
            lemma_queue_sum_nonneg(without_nonce(back_before, bet_id), true);
        }
        if found_back.is_some() {
            self.back_bets = back;
            self.update_back_liquidity_and_odds();
            return found_back;
        }
        proof {
            lemma_last_with_nonce_range(back_before, bet_id);
            lemma_without_none(back_before, bet_id);
        }
        self.back_bets = back;
        let mut lay: Vec<Bet> = Vec::new();
        std::mem::swap(&mut lay, &mut self.lay_bets);
        let ghost lay_before = lay@;
        let found_lay = self.remove_from_queue(&mut lay, bet_id);
        proof {
            lemma_without_ordered(lay_before, bet_id, false);
            lemma_without_sum(lay_before, bet_id, false);
            lemma_queue_sum_nonneg(without_nonce(lay_before, bet_id), false);
        }
        self.lay_bets = lay;
        self.update_lay_liquidity_and_odds();
        found_lay
    }

    /// Takes every bet with the given NFT nonce out of `queue`, keeping the
    /// order of the others, and returns the last one taken.
    pub fn remove_from_queue(&self, queue: &mut Vec<Bet>, bet_id: u64) -> (removed: Option<Bet>)
        ensures
            final(queue)@ == without_nonce(old(queue)@, bet_id),
            match removed {
                Some(b) => last_with_nonce(old(queue)@, bet_id) >= 0 && bet_copied(
                    old(queue)@[last_with_nonce(old(queue)@, bet_id)],
                    b,
                ),
                None => last_with_nonce(old(queue)@, bet_id) == -1,
            },
    {
        let ghost orig = queue@;
        let mut removed: Option<Bet> = None;
        let mut k: usize = 0;
        let mut j: usize = 0;
        let len = queue.len();
        assert(orig.take(0) =~= Seq::<Bet>::empty());
        while k < len
            invariant
                len == orig.len(),
                0 <= k <= len,
                queue@ == without_nonce(orig.take(k as int), bet_id) + orig.skip(k as int),
                j == without_nonce(orig.take(k as int), bet_id).len(),
                j <= k,
                match removed {
                    Some(b) => last_with_nonce(orig.take(k as int), bet_id) >= 0 && bet_copied(
                        orig[last_with_nonce(orig.take(k as int), bet_id)],
                        b,
                    ),
                    None => last_with_nonce(orig.take(k as int), bet_id) == -1,
                },
            decreases len - k,
        {
            proof {
                lemma_without_prefix(orig, bet_id, k as int);
                assert(queue@[j as int] == orig[k as int]);
                lemma_last_with_nonce_range(orig.take(k as int), bet_id);
            }
            let ghost before = queue@;
            if queue[j].nft_nonce == bet_id {
                let b = queue.remove(j);
                removed = Some(b);
                assert(queue@ =~= without_nonce(orig.take(k + 1), bet_id) + orig.skip(k + 1));
            } else {
                assert(before =~= without_nonce(orig.take(k + 1), bet_id) + orig.skip(k + 1));
                proof {
                    let lw = last_with_nonce(orig.take(k as int), bet_id);
                    if lw >= 0 {
                        assert(orig.take(k as int)[lw] == orig[lw]);
                    }
                }
                j = j + 1;
            }
            k = k + 1;
        }
        proof {
            assert(orig.take(len as int) =~= orig);
            assert(orig.skip(len as int) =~= Seq::<Bet>::empty());
            assert(queue@ =~= without_nonce(orig, bet_id));
        }
        removed
    }

    /// `new_bet` goes in front of `existing` in the queue of the given side.
    pub fn should_insert_before(&self, new_bet: &Bet, existing_bet: &Bet, is_back: bool) -> (r: bool)
        ensures
            r == beats(*new_bet, *existing_bet, is_back),
    {
        if is_back {
            new_bet.odd > existing_bet.odd || (new_bet.odd == existing_bet.odd
                && new_bet.created_at < existing_bet.created_at)
        } else {
            new_bet.odd < existing_bet.odd || (new_bet.odd == existing_bet.odd
                && new_bet.created_at < existing_bet.created_at)
        }
    }

    /// Sets the back liquidity to the sum of the back stakes and the best
    /// back odds to those of the first back bet (0 when there is none).
    pub fn update_back_liquidity_and_odds(&mut self)
        requires
            queue_sum(old(self).back_queue(), true) <= u128::MAX,
        ensures
            final(self).back_queue() == old(self).back_queue(),
            final(self).lay_queue() == old(self).lay_queue(),
            final(self).lay_liquidity_spec() == old(self).lay_liquidity_spec(),
            final(self).best_lay_odds_spec() == old(self).best_lay_odds_spec(),
            final(self).back_liquidity_spec() == queue_sum(old(self).back_queue(), true),
            final(self).best_back_odds_spec() == best_odds(old(self).back_queue()),
    {
        let mut total: u128 = 0;
        let mut i: usize = 0;
        while i < self.back_bets.len()
            invariant
                0 <= i <= self.back_bets.len(),
                queue_sum(self.back_bets@, true) <= u128::MAX,
                total == queue_sum(self.back_bets@.take(i as int), true),
            decreases self.back_bets.len() - i,
        {
            proof {
                lemma_queue_sum_prefix(self.back_bets@, true, i as int);
                lemma_queue_sum_prefix_bound(self.back_bets@, true, i as int + 1);
            }
            total = total + self.back_bets[i].stake_amount;
            i = i + 1;
        }
        assert(self.back_bets@.take(i as int) =~= self.back_bets@);
        self.back_liquidity = total;
        self.best_back_odds = if !self.back_bets.is_empty() {
            self.back_bets[0].odd
        } else {
            0
        };
    }

    /// Sets the lay liquidity to the sum of the lay liabilities and the best
    /// lay odds to those of the first lay bet (0 when there is none).
    pub fn update_lay_liquidity_and_odds(&mut self)
        requires
            queue_sum(old(self).lay_queue(), false) <= u128::MAX,
        ensures
            final(self).back_queue() == old(self).back_queue(),
            final(self).lay_queue() == old(self).lay_queue(),
            final(self).back_liquidity_spec() == old(self).back_liquidity_spec(),
            final(self).best_back_odds_spec() == old(self).best_back_odds_spec(),
            final(self).lay_liquidity_spec() == queue_sum(old(self).lay_queue(), false),
            final(self).best_lay_odds_spec() == best_odds(old(self).lay_queue()),
    {
        let mut total: u128 = 0;
        let mut i: usize = 0;
        while i < self.lay_bets.len()
            invariant
                0 <= i <= self.lay_bets.len(),
                queue_sum(self.lay_bets@, false) <= u128::MAX,
                total == queue_sum(self.lay_bets@.take(i as int), false),
            decreases self.lay_bets.len() - i,
        {
            proof {
                lemma_queue_sum_prefix(self.lay_bets@, false, i as int);
                lemma_queue_sum_prefix_bound(self.lay_bets@, false, i as int + 1);
            }
            total = total + self.lay_bets[i].liability;
            i = i + 1;
        }
        assert(self.lay_bets@.take(i as int) =~= self.lay_bets@);
        self.lay_liquidity = total;
        self.best_lay_odds = if !self.lay_bets.is_empty() {
            self.lay_bets[0].odd
        } else {
            0
        };
    }

    /// Takes out of the opposite queue every bet that a bet of the given type
    /// at `odds` can be matched with, in queue order.
    pub fn get_matching_bets(&mut self, bet_type: &BetType, odds: &u128) -> (taken: Vec<Bet>)
        requires
            old(self).wf(),
        ensures
            final(self).wf(),
            *bet_type == BetType::Back ==> {
                &&& taken@ == split_queue(old(self).lay_queue(), *odds, false, true)
                &&& final(self).lay_queue() == split_queue(old(self).lay_queue(), *odds, false, false)
                &&& final(self).back_queue() == old(self).back_queue()
            },
            *bet_type == BetType::Lay ==> {
                &&& taken@ == split_queue(old(self).back_queue(), *odds, true, true)
                &&& final(self).back_queue() == split_queue(old(self).back_queue(), *odds, true, false)
                &&& final(self).lay_queue() == old(self).lay_queue()
            },
    {
        match bet_type {
            BetType::Back => self.get_matching_lay_bets(odds),
            BetType::Lay => self.get_matching_back_bets(odds),
        }
    }

    /// Takes out the back bets at odds no higher than `odds`.
    pub fn get_matching_back_bets(&mut self, odds: &u128) -> (taken: Vec<Bet>)
        requires
            old(self).wf(),
        ensures
            final(self).wf(),
            taken@ == split_queue(old(self).back_queue(), *odds, true, true),
            final(self).back_queue() == split_queue(old(self).back_queue(), *odds, true, false),
            final(self).lay_queue() == old(self).lay_queue(),
    {
        let ghost orig = self.back_bets@;
        let mut source: Vec<Bet> = Vec::new();
        std::mem::swap(&mut source, &mut self.back_bets);
        let (matching, remaining) = split_by_odds(source, *odds, true);
        self.back_bets = remaining;
        proof {
            lemma_split_sum(orig, *odds, true, false);
            lemma_split_ordered(orig, *odds, true, false);
        }
        self.update_back_liquidity_and_odds();
        matching
    }

    /// Takes out the lay bets at odds no lower than `odds`.
    pub fn get_matching_lay_bets(&mut self, odds: &u128) -> (taken: Vec<Bet>)
        requires
            old(self).wf(),
        ensures
            final(self).wf(),
            taken@ == split_queue(old(self).lay_queue(), *odds, false, true),
            final(self).lay_queue() == split_queue(old(self).lay_queue(), *odds, false, false),
            final(self).back_queue() == old(self).back_queue(),
    {
        let ghost orig = self.lay_bets@;
        let mut source: Vec<Bet> = Vec::new();
        std::mem::swap(&mut source, &mut self.lay_bets);
        let (matching, remaining) = split_by_odds(source, *odds, false);
        self.lay_bets = remaining;
        proof {
            lemma_split_sum(orig, *odds, false, false);
            lemma_split_ordered(orig, *odds, false, false);
        }
        self.update_lay_liquidity_and_odds();
        matching
    }

    pub fn get_best_back_odds(&self) -> (r: u128)
        ensures
            r == self.best_back_odds_spec(),
    {
        self.best_back_odds
    }

    pub fn get_best_lay_odds(&self) -> (r: u128)
        ensures
            r == self.best_lay_odds_spec(),
    {
        self.best_lay_odds
    }

    pub fn get_back_liquidity(&self) -> (r: u128)
        ensures
            r == self.back_liquidity_spec(),
    {
        self.back_liquidity
    }

    pub fn get_lay_liquidity(&self) -> (r: u128)
        ensures
            r == self.lay_liquidity_spec(),
    {
        self.lay_liquidity
    }
}

/// Splits a queue into the bets that can be taken at `odds` and the others,
/// both in queue order.
fn split_by_odds(source: Vec<Bet>, odds: u128, is_back: bool) -> (r: (Vec<Bet>, Vec<Bet>))
    ensures
        r.0@ == split_queue(source@, odds, is_back, true),
        r.1@ == split_queue(source@, odds, is_back, false),
{
    let ghost orig = source@;
    let mut source = source;
    let mut matching: Vec<Bet> = Vec::new();
    let mut remaining: Vec<Bet> = Vec::new();
    let len = source.len();
    let mut k: usize = 0;
    assert(orig.take(0) =~= Seq::<Bet>::empty());
    assert(orig.skip(0) =~= orig);
    while k < len
        invariant
            len == orig.len(),
            0 <= k <= len,
            source@ == orig.skip(k as int),
            matching@ == split_queue(orig.take(k as int), odds, is_back, true),
            remaining@ == split_queue(orig.take(k as int), odds, is_back, false),
        decreases len - k,
    {
        proof {
            lemma_split_prefix(orig, odds, is_back, true, k as int);
            lemma_split_prefix(orig, odds, is_back, false, k as int);
        }
        let b = source.remove(0);
        assert(b == orig[k as int]);
        assert(source@ =~= orig.skip(k + 1));
        let take_it = if is_back {
            odds >= b.odd
        } else {
            odds <= b.odd
        };
        if take_it {
            matching.push(b);
        } else {
            remaining.push(b);
        }
        k = k + 1;
    }
    assert(orig.take(len as int) =~= orig);
    (matching, remaining)
}

} // verus!
