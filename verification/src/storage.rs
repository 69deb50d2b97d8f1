//! The storage of the exchange: bets, markets, per-selection order books
//! and counters, locked funds and the indexes between them.
use vstd::prelude::*;
use std::collections::HashMap;
use crate::types::{Address, Bet, BetModel, LevelModel, Market, MarketModel, PriceLevel, Sport, Tracker, TrackerModel, clone_levels, levels_view};

verus! {

/// The funds that each account has locked in open bets; an account that
/// was never written holds 0.
pub struct Ledger {
    entries: Vec<(Address, u128)>,
}

/// The index of the last entry of `s` for account `a`, -1 when none.
pub open spec fn ledger_last(s: Seq<(Address, u128)>, a: Address) -> int
    decreases s.len(),
{
    if s.len() == 0 {
        -1
    } else if s.last().0 == a {
        s.len() - 1
    } else {
        ledger_last(s.drop_last(), a)
    }
}

pub proof fn lemma_ledger_last_range(s: Seq<(Address, u128)>, a: Address)
    ensures
        -1 <= ledger_last(s, a) < s.len(),
        ledger_last(s, a) >= 0 ==> s[ledger_last(s, a)].0 == a,
        ledger_last(s, a) >= 0 ==> forall|j: int|
            ledger_last(s, a) < j < s.len() ==> #[trigger] s[j].0 != a,
        ledger_last(s, a) == -1 ==> forall|j: int| 0 <= j < s.len() ==> #[trigger] s[j].0 != a,
    decreases s.len(),
{
    if s.len() > 0 {
        lemma_ledger_last_range(s.drop_last(), a);
        if s.last().0 != a {
            assert forall|j: int| ledger_last(s, a) < j < s.len() implies #[trigger] s[j].0 != a by {
                if j < s.len() - 1 {
                    assert(s[j] == s.drop_last()[j]);
                }
            }
            if ledger_last(s, a) >= 0 {
                assert(s[ledger_last(s, a)] == s.drop_last()[ledger_last(s, a)]);
            }
        }
    }
}

/// Entries for the same accounts, in the same places, have their last
/// entry for each account in the same place.
pub proof fn lemma_ledger_last_same_accounts(s: Seq<(Address, u128)>, t: Seq<(Address, u128)>, a: Address)
    requires
        s.len() == t.len(),
        forall|i: int| 0 <= i < s.len() ==> (#[trigger] s[i]).0 == t[i].0,
    ensures
        ledger_last(s, a) == ledger_last(t, a),
    decreases s.len(),
{
    if s.len() > 0 {
        assert(s[s.len() - 1].0 == t[t.len() - 1].0);
        lemma_ledger_last_same_accounts(s.drop_last(), t.drop_last(), a);
    }
}

pub proof fn lemma_ledger_last_push(s: Seq<(Address, u128)>, e: (Address, u128), a: Address)
    ensures
        ledger_last(s.push(e), a) == if e.0 == a {
            s.len() as int
        } else {
            ledger_last(s, a)
        },
{
    assert(s.push(e).drop_last() =~= s);
}

impl Ledger {
    pub closed spec fn entries_view(&self) -> Seq<(Address, u128)> {
        self.entries@
    }

    /// The funds locked by account `a`.
    pub open spec fn spec_get(&self, a: Address) -> u128 {
        let i = ledger_last(self.entries_view(), a);
        if i >= 0 {
            self.entries_view()[i].1
        } else {
            0
        }
    }

    pub fn new() -> (l: Self)
        ensures
            forall|a: Address| l.spec_get(a) == 0,
    {
        Ledger { entries: Vec::new() }
    }

    /// The funds locked by account `a`.
    pub fn get(&self, a: &Address) -> (v: u128)
        ensures
            v == self.spec_get(*a),
    {
        proof {
            lemma_ledger_last_range(self.entries@, *a);
        }
        let mut i = self.entries.len();
        while i > 0
            invariant
                0 <= i <= self.entries@.len(),
                forall|j: int| i <= j < self.entries@.len() ==> #[trigger] self.entries@[j].0 != *a,
                -1 <= ledger_last(self.entries@, *a) < self.entries@.len(),
                ledger_last(self.entries@, *a) >= 0 ==> self.entries@[ledger_last(self.entries@, *a)].0 == *a,
                ledger_last(self.entries@, *a) >= 0 ==> forall|j: int|
                    ledger_last(self.entries@, *a) < j < self.entries@.len() ==> #[trigger] self.entries@[j].0 != *a,
            decreases i,
        {
            if self.entries[i - 1].0 == *a {
                proof {
                    lemma_ledger_last_range(self.entries@, *a);
                    let l = ledger_last(self.entries@, *a);
                    if l > i - 1 {
                        assert(self.entries@[l].0 != *a);
                    } else if l < i - 1 {
                        assert(self.entries@[i - 1].0 != *a);
                    }
                }
                return self.entries[i - 1].1;
            }
            i = i - 1;
        }
        proof {
            lemma_ledger_last_range(self.entries@, *a);
            let l = ledger_last(self.entries@, *a);
            if l >= 0 {
                assert(self.entries@[l].0 != *a);
            }
        }
        0
    }

    /// Locks `v` as the funds of account `a`.
    pub fn set(&mut self, a: &Address, v: u128)
        ensures
            final(self).spec_get(*a) == v,
            forall|b: Address| b != *a ==> final(self).spec_get(b) == old(self).spec_get(b),
    {
        let ghost s = self.entries@;
        proof {
            lemma_ledger_last_range(s, *a);
        }
        let mut i = self.entries.len();
        let mut found = false;
        while i > 0 && !found
            invariant
                0 <= i <= s.len(),
                self.entries@ == s,
                found ==> 0 < i && s[i - 1].0 == *a && ledger_last(s, *a) == i - 1,
                !found ==> forall|j: int| i <= j < s.len() ==> #[trigger] s[j].0 != *a,
                -1 <= ledger_last(s, *a) < s.len(),
                ledger_last(s, *a) >= 0 ==> s[ledger_last(s, *a)].0 == *a,
                ledger_last(s, *a) >= 0 ==> forall|j: int|
                    ledger_last(s, *a) < j < s.len() ==> #[trigger] s[j].0 != *a,
                ledger_last(s, *a) == -1 ==> forall|j: int| 0 <= j < s.len() ==> #[trigger] s[j].0 != *a,
            decreases i, if found { 0int } else { 1int },
        {
            if self.entries[i - 1].0 == *a {
                found = true;
            } else {
                i = i - 1;
            }
        }
        if found {
            self.entries.set(i - 1, (*a, v));
            proof {
                let t = self.entries@;
                assert forall|b: Address| true implies ledger_last(t, b) == ledger_last(s, b) by {
                    lemma_ledger_last_same_accounts(s, t, b);
                }
                assert forall|b: Address| b != *a implies self.spec_get(b) == (Ledger { entries: self.entries }).spec_get(b) by {}
                assert forall|b: Address| b != *a implies #[trigger] self.spec_get(b) == {
                    let k = ledger_last(s, b);
                    if k >= 0 { s[k].1 } else { 0 }
                } by {
                    lemma_ledger_last_range(s, b);
                    let k = ledger_last(s, b);
                    if k >= 0 {
                        assert(k != i - 1);
                    }
                }
            }
        } else {
            proof {
                if ledger_last(s, *a) >= 0 {
                    assert(s[ledger_last(s, *a)].0 != *a);
                }
            }
            self.entries.push((*a, v));
            proof {
                let t = self.entries@;
                assert(t == s.push((*a, v)));
                assert forall|b: Address| b != *a implies #[trigger] self.spec_get(b) == {
                    let k = ledger_last(s, b);
                    if k >= 0 { s[k].1 } else { 0 }
                } by {
                    lemma_ledger_last_push(s, (*a, v), b);
                    lemma_ledger_last_range(s, b);
                }
                lemma_ledger_last_push(s, (*a, v), *a);
            }
        }
    }

    /// A second ledger with the same locked funds.
    pub fn duplicate(&self) -> (l: Self)
        ensures
            l.entries_view() == self.entries_view(),
    {
        let mut entries: Vec<(Address, u128)> = Vec::new();
        let mut i: usize = 0;
        while i < self.entries.len()
            invariant
                0 <= i <= self.entries@.len(),
                entries@ == self.entries@.take(i as int),
            decreases self.entries.len() - i,
        {
            let e = self.entries[i];
            entries.push(e);
            assert(entries@ =~= self.entries@.take(i + 1));
            i = i + 1;
        }
        assert(self.entries@.take(i as int) =~= self.entries@);
        Ledger { entries }
    }
}

/// The key under which the storage of selection `selection_id` of market
/// `market_id` is kept.
pub open spec fn selection_key(market_id: u64, selection_id: u64) -> u128 {
    (market_id as int * 0x1_0000_0000_0000_0000 + selection_id as int) as u128
}

pub fn selection_key_exec(market_id: u64, selection_id: u64) -> (k: u128)
    ensures
        k == selection_key(market_id, selection_id),
{
    assert(market_id as int * 0x1_0000_0000_0000_0000 + selection_id as int <= u128::MAX) by (nonlinear_arith)
        requires
            market_id <= u64::MAX,
            selection_id <= u64::MAX,
    ;
    market_id as u128 * 0x1_0000_0000_0000_0000u128 + selection_id as u128
}

/// Distinct selections are kept under distinct keys.
pub proof fn lemma_selection_key_injective(m1: u64, s1: u64, m2: u64, s2: u64)
    requires
        selection_key(m1, s1) == selection_key(m2, s2),
    ensures
        m1 == m2 && s1 == s2,
{
    assert(m1 as int * 0x1_0000_0000_0000_0000 + s1 as int <= u128::MAX) by (nonlinear_arith)
        requires
            m1 <= u64::MAX,
            s1 <= u64::MAX,
    ;
    assert(m2 as int * 0x1_0000_0000_0000_0000 + s2 as int <= u128::MAX) by (nonlinear_arith)
        requires
            m2 <= u64::MAX,
            s2 <= u64::MAX,
    ;
    assert(m1 == m2 && s1 == s2) by (nonlinear_arith)
        requires
            m1 as int * 0x1_0000_0000_0000_0000 + s1 as int == m2 as int * 0x1_0000_0000_0000_0000
                + s2 as int,
            0 <= s1 < 0x1_0000_0000_0000_0000,
            0 <= s2 < 0x1_0000_0000_0000_0000,
            0 <= m1,
            0 <= m2,
    ;
}

/// What the storage holds for one selection of one market.
pub struct SelectionStorage {
    pub back_levels: Vec<PriceLevel>,
    pub lay_levels: Vec<PriceLevel>,
    pub tracker: Tracker,
    pub back_liquidity: u128,
    pub lay_liquidity: u128,
    pub matched_count: u64,
    pub unmatched_count: u64,
    pub partially_matched_count: u64,
    pub win_count: u64,
    pub lost_count: u64,
    pub canceled_count: u64,
    pub total_matched_amount: u128,
}

impl Clone for SelectionStorage {
    fn clone(&self) -> (res: Self)
        ensures
            res@ == self@,
    {
        SelectionStorage {
            back_levels: clone_levels(&self.back_levels),
            lay_levels: clone_levels(&self.lay_levels),
            tracker: self.tracker.clone(),
            back_liquidity: self.back_liquidity,
            lay_liquidity: self.lay_liquidity,
            matched_count: self.matched_count,
            unmatched_count: self.unmatched_count,
            partially_matched_count: self.partially_matched_count,
            win_count: self.win_count,
            lost_count: self.lost_count,
            canceled_count: self.canceled_count,
            total_matched_amount: self.total_matched_amount,
        }
    }
}

/// The value of a selection's storage.
pub struct SelectionStorageModel {
    pub back_levels: Seq<LevelModel>,
    pub lay_levels: Seq<LevelModel>,
    pub tracker: TrackerModel,
    pub back_liquidity: u128,
    pub lay_liquidity: u128,
    pub matched_count: u64,
    pub unmatched_count: u64,
    pub partially_matched_count: u64,
    pub win_count: u64,
    pub lost_count: u64,
    pub canceled_count: u64,
    pub total_matched_amount: u128,
}

impl View for SelectionStorage {
    type V = SelectionStorageModel;

    open spec fn view(&self) -> SelectionStorageModel {
        SelectionStorageModel {
            back_levels: levels_view(self.back_levels@),
            lay_levels: levels_view(self.lay_levels@),
            tracker: self.tracker@,
            back_liquidity: self.back_liquidity,
            lay_liquidity: self.lay_liquidity,
            matched_count: self.matched_count,
            unmatched_count: self.unmatched_count,
            partially_matched_count: self.partially_matched_count,
            win_count: self.win_count,
            lost_count: self.lost_count,
            canceled_count: self.canceled_count,
            total_matched_amount: self.total_matched_amount,
        }
    }
}

/// An empty tracker: no levels, no liquidity, all counters at 0.
pub open spec fn empty_tracker() -> TrackerModel {
    TrackerModel {
        back_levels: Seq::empty(),
        lay_levels: Seq::empty(),
        back_liquidity: 0,
        lay_liquidity: 0,
        matched_count: 0,
        unmatched_count: 0,
        partially_matched_count: 0,
        win_count: 0,
        lost_count: 0,
        canceled_count: 0,
    }
}

/// What a selection that was never written holds.
pub open spec fn empty_selection_storage() -> SelectionStorageModel {
    SelectionStorageModel {
        back_levels: Seq::empty(),
        lay_levels: Seq::empty(),
        tracker: empty_tracker(),
        back_liquidity: 0,
        lay_liquidity: 0,
        matched_count: 0,
        unmatched_count: 0,
        partially_matched_count: 0,
        win_count: 0,
        lost_count: 0,
        canceled_count: 0,
        total_matched_amount: 0,
    }
}

pub fn new_tracker() -> (t: Tracker)
    ensures
        t@ == empty_tracker(),
{
    let t = Tracker {
        back_levels: Vec::new(),
        lay_levels: Vec::new(),
        back_liquidity: 0,
        lay_liquidity: 0,
        matched_count: 0,
        unmatched_count: 0,
        partially_matched_count: 0,
        win_count: 0,
        lost_count: 0,
        canceled_count: 0,
    };
    assert(levels_view(t.back_levels@) =~= Seq::<LevelModel>::empty());
    assert(levels_view(t.lay_levels@) =~= Seq::<LevelModel>::empty());
    t
}

pub fn new_selection_storage() -> (s: SelectionStorage)
    ensures
        s@ == empty_selection_storage(),
{
    let s = SelectionStorage {
        back_levels: Vec::new(),
        lay_levels: Vec::new(),
        tracker: new_tracker(),
        back_liquidity: 0,
        lay_liquidity: 0,
        matched_count: 0,
        unmatched_count: 0,
        partially_matched_count: 0,
        win_count: 0,
        lost_count: 0,
        canceled_count: 0,
        total_matched_amount: 0,
    };
    assert(levels_view(s.back_levels@) =~= Seq::<LevelModel>::empty());
    assert(levels_view(s.lay_levels@) =~= Seq::<LevelModel>::empty());
    s
}

/// The key under which the markets of an event of a sport are listed.
pub open spec fn event_key(sport: Sport, event_id: u64) -> u128 {
    (sport_code(sport) as int * 0x1_0000_0000_0000_0000 + event_id as int) as u128
}

/// The number by which a sport is listed, 1 to 6.
pub open spec fn sport_code(sport: Sport) -> u64 {
    match sport {
        Sport::Football => 1,
        Sport::Basketball => 2,
        Sport::Tennis => 3,
        Sport::LeagueOfLegends => 4,
        Sport::CounterStrike2 => 5,
        Sport::Dota2 => 6,
    }
}

pub fn sport_code_exec(sport: Sport) -> (c: u64)
    ensures
        c == sport_code(sport),
{
    match sport {
        Sport::Football => 1,
        Sport::Basketball => 2,
        Sport::Tennis => 3,
        Sport::LeagueOfLegends => 4,
        Sport::CounterStrike2 => 5,
        Sport::Dota2 => 6,
    }
}

/// Distinct events of distinct sports are listed under distinct keys.
pub proof fn lemma_event_key_injective(s1: Sport, e1: u64, s2: Sport, e2: u64)
    requires
        event_key(s1, e1) == event_key(s2, e2),
    ensures
        s1 == s2 && e1 == e2,
{
    assert(event_key(s1, e1) == selection_key(sport_code(s1), e1));
    assert(event_key(s2, e2) == selection_key(sport_code(s2), e2));
    lemma_selection_key_injective(sport_code(s1), e1, sport_code(s2), e2);
}

pub fn event_key_exec(sport: Sport, event_id: u64) -> (k: u128)
    ensures
        k == event_key(sport, event_id),
{
    let c = sport_code_exec(sport);
    c as u128 * 0x1_0000_0000_0000_0000u128 + event_id as u128
}

/// The storage of the exchange.
pub struct StorageModule {
    pub bet_by_id: HashMap<u64, Bet>,
    pub bet_nft_token: Option<String>,
    pub bet_nft_base_uri: Vec<u8>,
    pub market_counter: u64,
    pub markets: HashMap<u64, Market>,
    pub locked_funds: Ledger,
    pub selections: HashMap<u128, SelectionStorage>,
    pub market_bet_ids: HashMap<u64, Vec<u64>>,
    pub bet_nonce_to_id: HashMap<u64, u64>,
    pub markets_by_event_and_sport: HashMap<u128, Vec<u64>>,
    pub markets_by_event: HashMap<u64, Vec<u64>>,
    pub winning_selection: HashMap<u64, u64>,
    pub event_score: HashMap<u64, (u32, u32)>,
}

/// The values of the bets of a bet store.
pub open spec fn bets_view(m: Map<u64, Bet>) -> Map<u64, BetModel> {
    m.map_values(|b: Bet| b@)
}

/// The values of the markets of a market store.
pub open spec fn markets_view(m: Map<u64, Market>) -> Map<u64, MarketModel> {
    m.map_values(|mk: Market| mk@)
}

/// The values of a store of id lists.
pub open spec fn lists_view<K>(m: Map<K, Vec<u64>>) -> Map<K, Seq<u64>> {
    m.map_values(|v: Vec<u64>| v@)
}

impl StorageModule {
    /// The bets, by id.
    pub open spec fn bets(&self) -> Map<u64, BetModel> {
        bets_view(self.bet_by_id@)
    }

    /// The markets, by id.
    pub open spec fn market_map(&self) -> Map<u64, MarketModel> {
        markets_view(self.markets@)
    }

    /// What the storage holds for a selection; an empty selection storage
    /// when nothing was written for it.
    pub open spec fn selection_state(&self, market_id: u64, selection_id: u64) -> SelectionStorageModel {
        let k = selection_key(market_id, selection_id);
        if self.selections@.contains_key(k) {
            self.selections@[k]@
        } else {
            empty_selection_storage()
        }
    }

    /// The bet ids recorded for a market.
    pub open spec fn market_bets(&self, market_id: u64) -> Seq<u64> {
        if self.market_bet_ids@.contains_key(market_id) {
            self.market_bet_ids@[market_id]@
        } else {
            Seq::empty()
        }
    }

    /// The markets of an event of a sport.
    pub open spec fn event_markets(&self, sport: Sport, event_id: u64) -> Seq<u64> {
        let k = event_key(sport, event_id);
        if self.markets_by_event_and_sport@.contains_key(k) {
            self.markets_by_event_and_sport@[k]@
        } else {
            Seq::empty()
        }
    }

    /// Everything but the bets and the selections is as in `other`.
    pub open spec fn same_indexes(&self, other: &StorageModule) -> bool {
        &&& self.market_map() == other.market_map()
        &&& self.locked_funds.entries_view() == other.locked_funds.entries_view()
        &&& self.same_lists(other)
    }

    /// The token, the counter and the lists of ids are as in `other`.
    pub open spec fn same_lists(&self, other: &StorageModule) -> bool {
        &&& self.bet_nft_token == other.bet_nft_token
        &&& self.bet_nft_base_uri@ == other.bet_nft_base_uri@
        &&& self.market_counter == other.market_counter
        &&& lists_view(self.market_bet_ids@) == lists_view(other.market_bet_ids@)
        &&& self.bet_nonce_to_id@ == other.bet_nonce_to_id@
        &&& lists_view(self.markets_by_event_and_sport@) == lists_view(other.markets_by_event_and_sport@)
        &&& lists_view(self.markets_by_event@) == lists_view(other.markets_by_event@)
        &&& self.winning_selection@ == other.winning_selection@
        &&& self.event_score@ == other.event_score@
    }

    /// The storage holds what `other` holds.
    pub open spec fn same_as(&self, other: &StorageModule) -> bool {
        &&& self.same_indexes(other)
        &&& self.bets() == other.bets()
        &&& forall|m: u64, s: u64| #[trigger] self.selection_state(m, s) == other.selection_state(m, s)
    }

    /// An empty storage: no token, no markets, no bets.
    pub fn new() -> (s: Self)
        ensures
            s.bets() == Map::<u64, BetModel>::empty(),
            s.market_map() == Map::<u64, MarketModel>::empty(),
            s.market_counter == 0,
            s.bet_nft_token is None,
            forall|m: u64, sel: u64| #[trigger] s.selection_state(m, sel) == empty_selection_storage(),
            forall|a: Address| s.locked_funds.spec_get(a) == 0,
    {
        let s = StorageModule {
            bet_by_id: HashMap::new(),
            bet_nft_token: None,
            bet_nft_base_uri: Vec::new(),
            market_counter: 0,
            markets: HashMap::new(),
            locked_funds: Ledger::new(),
            selections: HashMap::new(),
            market_bet_ids: HashMap::new(),
            bet_nonce_to_id: HashMap::new(),
            markets_by_event_and_sport: HashMap::new(),
            markets_by_event: HashMap::new(),
            winning_selection: HashMap::new(),
            event_score: HashMap::new(),
        };
        assert(s.bets() =~= Map::<u64, BetModel>::empty());
        assert(s.market_map() =~= Map::<u64, MarketModel>::empty());
        s
    }

    /// Takes the bet with the given id out of storage, if there is one.
    pub fn take_bet(&mut self, bet_id: u64) -> (b: Option<Bet>)
        ensures
            *final(self) == (StorageModule { bet_by_id: final(self).bet_by_id, ..*old(self) }),
            final(self).same_indexes(old(self)),
            forall|m: u64, s: u64| #[trigger] final(self).selection_state(m, s) == old(self).selection_state(m, s),
            final(self).selections@ == old(self).selections@,
            final(self).bets() == old(self).bets().remove(bet_id),
            match b {
                Some(b) => old(self).bets().contains_key(bet_id) && b@ == old(self).bets()[bet_id],
                None => !old(self).bets().contains_key(bet_id),
            },
    {
        let b = self.bet_by_id.remove(&bet_id);
        assert(self.bets() =~= old(self).bets().remove(bet_id));
        b
    }

    /// Writes a bet under the given id.
    pub fn put_bet(&mut self, bet_id: u64, b: Bet)
        ensures
            *final(self) == (StorageModule { bet_by_id: final(self).bet_by_id, ..*old(self) }),
            final(self).same_indexes(old(self)),
            forall|m: u64, s: u64| #[trigger] final(self).selection_state(m, s) == old(self).selection_state(m, s),
            final(self).selections@ == old(self).selections@,
            final(self).bets() == old(self).bets().insert(bet_id, b@),
    {
        let ghost bv = b@;
        self.bet_by_id.insert(bet_id, b);
        assert(self.bets() =~= old(self).bets().insert(bet_id, bv));
    }

    /// A copy of the bet with the given id, if there is one.
    pub fn read_bet(&self, bet_id: u64) -> (b: Option<Bet>)
        ensures
            match b {
                Some(b) => self.bets().contains_key(bet_id) && b@ == self.bets()[bet_id],
                None => !self.bets().contains_key(bet_id),
            },
    {
        match self.bet_by_id.get(&bet_id) {
            Some(b) => Some(b.clone()),
            None => None,
        }
    }

    /// Takes the storage of a selection out, leaving an empty one in its
    /// place.
    pub fn take_selection(&mut self, market_id: u64, selection_id: u64) -> (st: SelectionStorage)
        ensures
            *final(self) == (StorageModule { selections: final(self).selections, ..*old(self) }),
            final(self).same_indexes(old(self)),
            final(self).bets() == old(self).bets(),
            st@ == old(self).selection_state(market_id, selection_id),
            final(self).selection_state(market_id, selection_id) == empty_selection_storage(),
            forall|m: u64, s: u64|
                !(m == market_id && s == selection_id) ==> #[trigger] final(self).selection_state(m, s)
                    == old(self).selection_state(m, s),
    {
        let k = selection_key_exec(market_id, selection_id);
        let st = match self.selections.remove(&k) {
            Some(st) => st,
            None => new_selection_storage(),
        };
        proof {
            assert forall|m: u64, s: u64|
                !(m == market_id && s == selection_id) implies #[trigger] self.selection_state(m, s)
                    == old(self).selection_state(m, s) by {
                if selection_key(m, s) == k {
                    lemma_selection_key_injective(m, s, market_id, selection_id);
                }
            }
        }
        st
    }

    /// Writes the storage of a selection.
    pub fn put_selection(&mut self, market_id: u64, selection_id: u64, st: SelectionStorage)
        ensures
            *final(self) == (StorageModule { selections: final(self).selections, ..*old(self) }),
            final(self).same_indexes(old(self)),
            final(self).bets() == old(self).bets(),
            final(self).selection_state(market_id, selection_id) == st@,
            forall|m: u64, s: u64|
                !(m == market_id && s == selection_id) ==> #[trigger] final(self).selection_state(m, s)
                    == old(self).selection_state(m, s),
    {
        let k = selection_key_exec(market_id, selection_id);
        let ghost sv = st@;
        self.selections.insert(k, st);
        proof {
            assert forall|m: u64, s: u64|
                !(m == market_id && s == selection_id) implies #[trigger] self.selection_state(m, s)
                    == old(self).selection_state(m, s) by {
                if selection_key(m, s) == k {
                    lemma_selection_key_injective(m, s, market_id, selection_id);
                }
            }
        }
    }

    /// A second storage with the same contents, kept to undo a refused
    /// operation.
    pub fn snapshot(&self) -> (s: Self)
        ensures
            s.same_as(self),
    {
        let uri = self.bet_nft_base_uri.clone();
        assert(uri@ =~= self.bet_nft_base_uri@);
        let token = match &self.bet_nft_token {
            Some(t) => Some(t.clone()),
            None => None,
        };
        let s = StorageModule {
            bet_by_id: self.bet_by_id.clone(),
            bet_nft_token: token,
            bet_nft_base_uri: uri,
            market_counter: self.market_counter,
            markets: self.markets.clone(),
            locked_funds: self.locked_funds.duplicate(),
            selections: self.selections.clone(),
            market_bet_ids: self.market_bet_ids.clone(),
            bet_nonce_to_id: self.bet_nonce_to_id.clone(),
            markets_by_event_and_sport: self.markets_by_event_and_sport.clone(),
            markets_by_event: self.markets_by_event.clone(),
            winning_selection: self.winning_selection.clone(),
            event_score: self.event_score.clone(),
        };
        s
    }
}


/// The ids of a set of ids after `id` was added to it.
pub open spec fn set_with(ids: Seq<u64>, id: u64) -> Seq<u64> {
    if ids.contains(id) {
        ids
    } else {
        ids.push(id)
    }
}

/// Whether `x` is among the ids `v`.
pub fn contains_id(v: &Vec<u64>, x: u64) -> (r: bool)
    ensures
        r == v@.contains(x),
{
    let mut i: usize = 0;
    while i < v.len()
        invariant
            0 <= i <= v@.len(),
            forall|j: int| 0 <= j < i ==> v@[j] != x,
        decreases v.len() - i,
    {
        if v[i] == x {
            assert(v@[i as int] == x);
            return true;
        }
        i = i + 1;
    }
    false
}

/// A copy of a list of ids.
pub fn copy_ids(v: &Vec<u64>) -> (r: Vec<u64>)
    ensures
        r@ == v@,
{
    let mut r: Vec<u64> = Vec::new();
    let mut i: usize = 0;
    while i < v.len()
        invariant
            0 <= i <= v@.len(),
            r@ == v@.take(i as int),
        decreases v.len() - i,
    {
        r.push(v[i]);
        assert(v@.take(i + 1) =~= v@.take(i as int).push(v@[i as int]));
        i = i + 1;
    }
    assert(v@.take(v@.len() as int) =~= v@);
    r
}

impl StorageModule {
    /// Records `bet_id` among the bets of market `market_id`, once.
    pub fn add_market_bet(&mut self, market_id: u64, bet_id: u64)
        ensures
            *final(self) == (StorageModule { market_bet_ids: final(self).market_bet_ids, ..*old(self) }),
            final(self).market_bets(market_id) == set_with(old(self).market_bets(market_id), bet_id),
            forall|m: u64| m != market_id ==> #[trigger] final(self).market_bets(m) == old(self).market_bets(m),
    {
        let mut ids = match self.market_bet_ids.remove(&market_id) {
            Some(v) => v,
            None => Vec::new(),
        };
        assert(ids@ == old(self).market_bets(market_id));
        if !contains_id(&ids, bet_id) {
            ids.push(bet_id);
        }
        self.market_bet_ids.insert(market_id, ids);
    }

    /// The ids of the bets recorded for market `market_id`.
    pub fn market_bet_list(&self, market_id: u64) -> (r: Vec<u64>)
        ensures
            r@ == self.market_bets(market_id),
    {
        match self.market_bet_ids.get(&market_id) {
            Some(v) => copy_ids(v),
            None => Vec::new(),
        }
    }

    /// The ids of the markets of event `event_id` of `sport`.
    pub fn event_market_list(&self, sport: Sport, event_id: u64) -> (r: Vec<u64>)
        ensures
            r@ == self.event_markets(sport, event_id),
    {
        let k = event_key_exec(sport, event_id);
        match self.markets_by_event_and_sport.get(&k) {
            Some(v) => copy_ids(v),
            None => Vec::new(),
        }
    }

    /// Records `market_ids` as the markets of event `event_id` of `sport`.
    pub fn set_event_markets(&mut self, sport: Sport, event_id: u64, market_ids: Vec<u64>)
        ensures
            *final(self) == (StorageModule {
                markets_by_event_and_sport: final(self).markets_by_event_and_sport,
                ..*old(self)
            }),
            final(self).event_markets(sport, event_id) == market_ids@,
            forall|sp: Sport, e: u64|
                !(sp == sport && e == event_id) ==> #[trigger] final(self).event_markets(sp, e)
                    == old(self).event_markets(sp, e),
    {
        let k = event_key_exec(sport, event_id);
        self.markets_by_event_and_sport.insert(k, market_ids);
        proof {
            assert forall|sp: Sport, e: u64| !(sp == sport && e == event_id) implies #[trigger] self.event_markets(sp, e)
                == old(self).event_markets(sp, e) by {
                if event_key(sp, e) == event_key(sport, event_id) {
                    lemma_event_key_injective(sp, e, sport, event_id);
                }
            }
        }
    }

    /// The markets recorded for event `event_id`, whatever its sport.
    pub open spec fn markets_of_event(&self, event_id: u64) -> Seq<u64> {
        if self.markets_by_event@.contains_key(event_id) {
            self.markets_by_event@[event_id]@
        } else {
            Seq::empty()
        }
    }

    /// The ids of the markets recorded for event `event_id`.
    pub fn event_market_ids(&self, event_id: u64) -> (r: Vec<u64>)
        ensures
            r@ == self.markets_of_event(event_id),
    {
        match self.markets_by_event.get(&event_id) {
            Some(v) => copy_ids(v),
            None => Vec::new(),
        }
    }
}


impl StorageModule {
    /// A copy of the market with the given id, if there is one.
    pub fn read_market(&self, market_id: u64) -> (r: Option<Market>)
        ensures
            match r {
                Some(m) => self.market_map().contains_key(market_id) && m@ == self.market_map()[market_id],
                None => !self.market_map().contains_key(market_id),
            },
    {
        match self.markets.get(&market_id) {
            Some(m) => Some(m.clone()),
            None => None,
        }
    }

    /// Writes a market under the given key.
    pub fn store_market(&mut self, key: u64, market: Market)
        ensures
            *final(self) == (StorageModule { markets: final(self).markets, ..*old(self) }),
            final(self).market_map() == old(self).market_map().insert(key, market@),
    {
        let ghost mv = market@;
        self.markets.insert(key, market);
        assert(self.market_map() =~= old(self).market_map().insert(key, mv));
    }

    /// Writes a market under its id.
    pub fn put_market(&mut self, market: Market)
        ensures
            *final(self) == (StorageModule { markets: final(self).markets, ..*old(self) }),
            final(self).market_map() == old(self).market_map().insert(market.market_id, market@),
    {
        let ghost mv = market@;
        let id = market.market_id;
        self.markets.insert(id, market);
        assert(self.market_map() =~= old(self).market_map().insert(id, mv));
    }
}


/// Equal views of two stores of id lists agree on each key.
pub proof fn lemma_lists_view_key<K>(a: Map<K, Vec<u64>>, b: Map<K, Vec<u64>>, k: K)
    requires
        lists_view(a) == lists_view(b),
    ensures
        a.contains_key(k) == b.contains_key(k),
        a.contains_key(k) ==> a[k]@ == b[k]@,
{
    assert(lists_view(a).dom() == a.dom());
    assert(lists_view(b).dom() == b.dom());
    if a.contains_key(k) {
        assert(lists_view(a)[k] == a[k]@);
        assert(lists_view(b)[k] == b[k]@);
    }
}

/// Storages with the same lists have the same markets for each event and
/// the same bets for each market.
pub proof fn lemma_same_lists_lookups(s: StorageModule, t: StorageModule)
    requires
        s.same_lists(&t),
    ensures
        forall|sp: Sport, e: u64| #[trigger] s.event_markets(sp, e) == t.event_markets(sp, e),
        forall|m: u64| #[trigger] s.market_bets(m) == t.market_bets(m),
        forall|e: u64| #[trigger] s.markets_of_event(e) == t.markets_of_event(e),
{
    assert forall|sp: Sport, e: u64| #[trigger] s.event_markets(sp, e) == t.event_markets(sp, e) by {
        lemma_lists_view_key(s.markets_by_event_and_sport@, t.markets_by_event_and_sport@, event_key(sp, e));
    }
    assert forall|m: u64| #[trigger] s.market_bets(m) == t.market_bets(m) by {
        lemma_lists_view_key(s.market_bet_ids@, t.market_bet_ids@, m);
    }
    assert forall|e: u64| #[trigger] s.markets_of_event(e) == t.markets_of_event(e) by {
        lemma_lists_view_key(s.markets_by_event@, t.markets_by_event@, e);
    }
}

} // verus!
