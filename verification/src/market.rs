//! Opening the markets of an event, closing them, and the queries on them.
//!
//! A market's id is made of its sport's code, its event and its type
//! (`sport * 1_000_000 + event * 1000 + type`), and a selection's id of its
//! market's id and its position (`market * 10 + position`, from 1).
use vstd::prelude::*;
use crate::errors::ContractError;
use crate::events::CreateMarketEvent;
use crate::storage::{
    StorageModule, empty_selection_storage, empty_tracker, new_selection_storage, new_tracker, sport_code,
    sport_code_exec,
};
use crate::types::{
    Market, MarketModel, MarketSelectionInfo, MarketStatus, MarketType, Selection, SelectionInfo,
    SelectionModel, SelectionType, Sport, market_type_code,
    market_type_description, selection_position, selections_view, find_selection,
};
use crate::validation::validate_market_creation;

verus! {

/// The market types opened for an event: football gets the full-time
/// result, total goals and both-teams-to-score markets, other sports the
/// full-time result alone.
pub open spec fn event_market_types(sport: Sport) -> Seq<MarketType> {
    if sport == Sport::Football {
        seq![MarketType::FullTimeResult, MarketType::TotalGoals, MarketType::BothTeamsToScore]
    } else {
        seq![MarketType::FullTimeResult]
    }
}

/// The selections of a market of type `t` for an event of `sport`: a
/// football result has a draw, other results do not.
pub open spec fn market_selection_types(sport: Sport, t: MarketType) -> Seq<SelectionType> {
    match t {
        MarketType::FullTimeResult => if sport == Sport::Football {
            seq![SelectionType::One, SelectionType::Draw, SelectionType::Two]
        } else {
            seq![SelectionType::One, SelectionType::Two]
        },
        MarketType::TotalGoals => seq![SelectionType::Over, SelectionType::Under],
        MarketType::BothTeamsToScore => seq![SelectionType::Yes, SelectionType::No],
    }
}

/// The id of the market of type `t` of an event.
pub open spec fn market_id_for(sport: Sport, event_id: u64, t: MarketType) -> int {
    sport_code(sport) * 1_000_000 + event_id * 1000 + market_type_code(t)
}

/// The id of the selection at position `index` (from 0) of a market.
pub open spec fn selection_id_for(market_id: int, index: int) -> int {
    market_id * 10 + index + 1
}

/// The ids of an event's markets and selections fit in 64 bits: the
/// largest is that of the last selection of its last market.
pub open spec fn event_ids_fit(sport: Sport, event_id: u64) -> bool {
    let types = event_market_types(sport);
    let last = types.last();
    selection_id_for(market_id_for(sport, event_id, last), market_selection_types(sport, last).len() - 1)
        <= u64::MAX
}

/// The selections of a new market: each with its id, its type and an empty
/// order book.
pub open spec fn new_selections(market_id: u64, types: Seq<SelectionType>) -> Seq<SelectionModel> {
    Seq::new(
        types.len(),
        |i: int|
            SelectionModel {
                id: selection_id_for(market_id as int, i) as u64,
                selection_type: types[i],
                priority_queue: empty_tracker(),
            },
    )
}

/// A new market, open, with nothing matched yet.
pub open spec fn new_market(
    market_id: u64,
    event_id: u64,
    market_type: MarketType,
    types: Seq<SelectionType>,
    close_timestamp: u64,
    now: u64,
) -> MarketModel {
    MarketModel {
        market_id,
        event_id,
        description: market_type_description(market_type),
        market_type,
        selections: new_selections(market_id, types),
        close_timestamp,
        market_status: MarketStatus::Open,
        total_matched_amount: 0,
        liquidity: 0,
        created_at: now,
    }
}

/// The market of type `t` of an event, as it is created.
pub open spec fn event_market(sport: Sport, event_id: u64, t: MarketType, close_timestamp: u64, now: u64) -> MarketModel {
    new_market(
        market_id_for(sport, event_id, t) as u64,
        event_id,
        t,
        market_selection_types(sport, t),
        close_timestamp,
        now,
    )
}

/// The markets after those of an event were created.
pub open spec fn markets_after_creation(
    markets: Map<u64, MarketModel>,
    sport: Sport,
    event_id: u64,
    close_timestamp: u64,
    now: u64,
) -> Map<u64, MarketModel> {
    let ftr = MarketType::FullTimeResult;
    let m1 = markets.insert(
        market_id_for(sport, event_id, ftr) as u64,
        event_market(sport, event_id, ftr, close_timestamp, now),
    );
    if sport == Sport::Football {
        let tg = MarketType::TotalGoals;
        let btts = MarketType::BothTeamsToScore;
        m1.insert(market_id_for(sport, event_id, tg) as u64, event_market(sport, event_id, tg, close_timestamp, now)).insert(
            market_id_for(sport, event_id, btts) as u64,
            event_market(sport, event_id, btts, close_timestamp, now),
        )
    } else {
        m1
    }
}

/// The selection `s` of market `m` is one of those of the market of type
/// `t` of an event.
pub open spec fn is_selection_of(sport: Sport, event_id: u64, t: MarketType, m: u64, s: u64) -> bool {
    let mid = market_id_for(sport, event_id, t);
    &&& m == mid
    &&& selection_id_for(mid, 0) <= s <= selection_id_for(mid, market_selection_types(sport, t).len() - 1)
}

/// The selection `s` of market `m` is one of those created with the markets
/// of an event.
pub open spec fn is_new_selection(sport: Sport, event_id: u64, m: u64, s: u64) -> bool {
    ||| is_selection_of(sport, event_id, MarketType::FullTimeResult, m, s)
    ||| sport == Sport::Football && is_selection_of(sport, event_id, MarketType::TotalGoals, m, s)
    ||| sport == Sport::Football && is_selection_of(sport, event_id, MarketType::BothTeamsToScore, m, s)
}

/// The selection entries of a new market: position from 1 and type.
pub open spec fn infos_match(infos: Seq<SelectionInfo>, types: Seq<SelectionType>) -> bool {
    &&& infos.len() == types.len()
    &&& forall|i: int|
        0 <= i < infos.len() ==> #[trigger] infos[i].selection_id == i + 1 && infos[i].selection_type == types[i]
}

/// The entries of the "create_market" event: one per market type, in order.
pub open spec fn market_infos_match(infos: Seq<MarketSelectionInfo>, sport: Sport, event_id: u64) -> bool {
    let types = event_market_types(sport);
    &&& infos.len() == types.len()
    &&& forall|j: int|
        0 <= j < infos.len() ==> {
            &&& #[trigger] infos[j].market_id == market_id_for(sport, event_id, types[j])
            &&& infos[j].market_type == types[j]
            &&& infos_match(infos[j].selections@, market_selection_types(sport, types[j]))
        }
}

/// The ids of an event's markets, in the order they are created.
pub open spec fn event_market_ids(sport: Sport, event_id: u64) -> Seq<u64> {
    Seq::new(event_market_types(sport).len(), |j: int| market_id_for(sport, event_id, event_market_types(sport)[j]) as u64)
}

/// Why opening the markets of an event is refused, if it is.
pub open spec fn create_market_refusal(existing: Seq<u64>, sport: Sport, event_id: u64, close_timestamp: u64, now: u64) -> Option<ContractError> {
    if close_timestamp <= now {
        Some(ContractError::InvalidMarketTimestamp)
    } else if existing.len() > 0 {
        Some(ContractError::MarketsAlreadyExist)
    } else if !event_ids_fit(sport, event_id) {
        Some(ContractError::CounterOverflow)
    } else {
        None
    }
}

/// Whether the given markets are all closed, reading them in order: a
/// market that is not stored cannot be read, and the first one not closed
/// answers.
pub open spec fn all_closed(markets: Map<u64, MarketModel>, ids: Seq<u64>) -> Result<bool, ContractError>
    decreases ids.len(),
{
    if ids.len() == 0 {
        Ok(true)
    } else if !markets.contains_key(ids[0]) {
        Err(ContractError::StorageDecode)
    } else if markets[ids[0]].market_status != MarketStatus::Closed {
        Ok(false)
    } else {
        all_closed(markets, ids.drop_first())
    }
}

fn selection_types_exec(sport: Sport, t: MarketType) -> (r: Vec<SelectionType>)
    ensures
        r@ == market_selection_types(sport, t),
{
    let r: Vec<SelectionType> = match t {
        MarketType::FullTimeResult => if sport == Sport::Football {
            vec![SelectionType::One, SelectionType::Draw, SelectionType::Two]
        } else {
            vec![SelectionType::One, SelectionType::Two]
        },
        MarketType::TotalGoals => vec![SelectionType::Over, SelectionType::Under],
        MarketType::BothTeamsToScore => vec![SelectionType::Yes, SelectionType::No],
    };
    assert(r@ =~= market_selection_types(sport, t));
    r
}

fn market_type_code_exec(t: MarketType) -> (c: u64)
    ensures
        c == market_type_code(t),
{
    match t {
        MarketType::FullTimeResult => 1,
        MarketType::TotalGoals => 2,
        MarketType::BothTeamsToScore => 3,
    }
}

/// The selection with the given id in a market; refused when there is none.
pub fn get_selection(market: &Market, selection_id: u64) -> (r: Result<Selection, ContractError>)
    ensures
        match selection_position(market@.selections, selection_id) {
            Some(i) => r matches Ok(s) && s@ == market@.selections[i],
            None => r == Err::<Selection, ContractError>(ContractError::SelectionNotFound),
        },
{
    match find_selection(&market.selections, selection_id) {
        Some(i) => Ok(market.selections[i].clone()),
        None => Err(ContractError::SelectionNotFound),
    }
}

/// The selection entries of a new market with the given selections.
fn selection_infos_of(selection_types: &Vec<SelectionType>) -> (r: Vec<SelectionInfo>)
    ensures
        infos_match(r@, selection_types@),
{
    let mut selection_infos: Vec<SelectionInfo> = Vec::new();
    let mut index: usize = 0;
    while index < selection_types.len()
        invariant
            0 <= index <= selection_types@.len(),
            selection_infos@.len() == index,
            forall|i: int|
                0 <= i < index ==> (#[trigger] selection_infos@[i]).selection_id == i + 1
                    && selection_infos@[i].selection_type == selection_types@[i],
        decreases selection_types.len() - index,
    {
        let info = SelectionInfo { selection_id: index as u64 + 1, selection_type: selection_types[index] };
        selection_infos.push(info);
        index = index + 1;
    }
    selection_infos
}

impl StorageModule {
    /// Gives a selection an empty order book and zero counters.
    pub fn init_selection_storage(&mut self, market_id: u64, selection_id: u64)
        ensures
            *final(self) == (StorageModule { selections: final(self).selections, ..*old(self) }),
            final(self).selection_state(market_id, selection_id) == empty_selection_storage(),
            forall|m: u64, s: u64|
                !(m == market_id && s == selection_id) ==> #[trigger] final(self).selection_state(m, s)
                    == old(self).selection_state(m, s),
    {
        self.put_selection(market_id, selection_id, new_selection_storage());
    }

    /// The selections of a new market, each with its storage initialised.
    pub fn create_selections(&mut self, market_id: u64, selection_types: &Vec<SelectionType>) -> (r: Vec<Selection>)
        requires
            market_id * 10 + selection_types@.len() <= u64::MAX,
        ensures
            *final(self) == (StorageModule { selections: final(self).selections, ..*old(self) }),
            selections_view(r@) == new_selections(market_id, selection_types@),
            forall|m: u64, s: u64| #[trigger]
                final(self).selection_state(m, s) == if m == market_id && selection_id_for(market_id as int, 0)
                    <= s <= selection_id_for(market_id as int, selection_types@.len() - 1) {
                    empty_selection_storage()
                } else {
                    old(self).selection_state(m, s)
                },
    {
        let mut selections: Vec<Selection> = Vec::new();
        let mut index: usize = 0;
        while index < selection_types.len()
            invariant
                0 <= index <= selection_types@.len(),
                market_id * 10 + selection_types@.len() <= u64::MAX,
                *self == (StorageModule { selections: self.selections, ..*old(self) }),
                selections_view(selections@) == new_selections(market_id, selection_types@.take(index as int)),
                forall|m: u64, s: u64| #[trigger]
                    self.selection_state(m, s) == if m == market_id && selection_id_for(market_id as int, 0) <= s
                        <= selection_id_for(market_id as int, index - 1) {
                        empty_selection_storage()
                    } else {
                        old(self).selection_state(m, s)
                    },
            decreases selection_types.len() - index,
        {
            let id = market_id * 10 + (index as u64 + 1);
            let ghost before = *self;
            self.init_selection_storage(market_id, id);
            let tracker = new_tracker();
            let ghost prev = selections@;
            selections.push(Selection { id, selection_type: selection_types[index], priority_queue: tracker });
            assert(selections_view(selections@) =~= selections_view(prev).push(selections@[index as int]@));
            assert(selection_types@.take(index + 1) =~= selection_types@.take(index as int).push(
                selection_types@[index as int],
            ));
            assert(selections_view(selections@) =~= new_selections(market_id, selection_types@.take(index + 1)));
            index = index + 1;
            assert forall|m: u64, s: u64| #[trigger]
                self.selection_state(m, s) == if m == market_id && selection_id_for(market_id as int, 0) <= s
                    <= selection_id_for(market_id as int, index - 1) {
                    empty_selection_storage()
                } else {
                    old(self).selection_state(m, s)
                } by {
                if !(m == market_id && s == id) {
                    assert(self.selection_state(m, s) == before.selection_state(m, s));
                }
            }
        }
        assert(selection_types@.take(index as int) =~= selection_types@);
        selections
    }

    /// Creates and stores the market of type `market_type` of an event,
    /// with the given selections; gives its id and its selection entries.
    pub fn create_single_market(
        &mut self,
        sport: Sport,
        event_id: u64,
        selection_types: &Vec<SelectionType>,
        close_timestamp: u64,
        market_type: MarketType,
        now: u64,
    ) -> (r: (u64, Vec<SelectionInfo>))
        requires
            selection_types@.len() >= 1,
            selection_id_for(market_id_for(sport, event_id, market_type), selection_types@.len() - 1) <= u64::MAX,
        ensures
            r.0 == market_id_for(sport, event_id, market_type),
            infos_match(r.1@, selection_types@),
            *final(self) == (StorageModule {
                selections: final(self).selections,
                markets: final(self).markets,
                ..*old(self)
            }),
            final(self).market_map() == old(self).market_map().insert(
                r.0,
                new_market(r.0, event_id, market_type, selection_types@, close_timestamp, now),
            ),
            forall|m: u64, s: u64| #[trigger]
                final(self).selection_state(m, s) == if m == r.0 && selection_id_for(r.0 as int, 0) <= s
                    <= selection_id_for(r.0 as int, selection_types@.len() - 1) {
                    empty_selection_storage()
                } else {
                    old(self).selection_state(m, s)
                },
    {
        let market_type_index = market_type_code_exec(market_type);
        let sport_index = sport_code_exec(sport);
        let market_id = sport_index * 1_000_000 + event_id * 1000 + market_type_index;
        let selections = self.create_selections(market_id, selection_types);
        let description = vstd::slice::slice_to_vec(market_type.to_description());
        let market = Market {
            market_id,
            event_id,
            description,
            market_type,
            selections,
            close_timestamp,
            market_status: MarketStatus::Open,
            total_matched_amount: 0,
            liquidity: 0,
            created_at: now,
        };
        let ghost s1 = *self;
        self.put_market(market);
        assert forall|m: u64, s: u64| #[trigger] self.selection_state(m, s) == s1.selection_state(m, s) by {
            assert(self.selections == s1.selections);
        }
        let selection_infos = selection_infos_of(selection_types);
        (market_id, selection_infos)
    }

    /// Opens the markets of event `event_id` of `sport`, closing at
    /// `close_timestamp`; refused when that is not after `now` or the event
    /// already has markets. Gives the "create_market" event.
    pub fn create_market(&mut self, sport: Sport, event_id: u64, close_timestamp: u64, now: u64) -> (r: Result<CreateMarketEvent, ContractError>)
        ensures
            match create_market_refusal(old(self).event_markets(sport, event_id), sport, event_id, close_timestamp, now) {
                Some(e) => r == Err::<CreateMarketEvent, ContractError>(e) && *final(self) == *old(self),
                None => r matches Ok(ev) && {
                    &&& ev.sport_index == sport_code(sport)
                    &&& ev.event_id == event_id
                    &&& market_infos_match(ev.markets@, sport, event_id)
                    &&& final(self).market_map() == markets_after_creation(
                        old(self).market_map(),
                        sport,
                        event_id,
                        close_timestamp,
                        now,
                    )
                    &&& forall|m: u64, s: u64| #[trigger]
                        final(self).selection_state(m, s) == if is_new_selection(sport, event_id, m, s) {
                            empty_selection_storage()
                        } else {
                            old(self).selection_state(m, s)
                        }
                    &&& final(self).event_markets(sport, event_id) == event_market_ids(sport, event_id)
                    &&& forall|sp: Sport, e: u64|
                        !(sp == sport && e == event_id) ==> #[trigger] final(self).event_markets(sp, e)
                            == old(self).event_markets(sp, e)
                    &&& *final(self) == (StorageModule {
                        selections: final(self).selections,
                        markets: final(self).markets,
                        markets_by_event_and_sport: final(self).markets_by_event_and_sport,
                        ..*old(self)
                    })
                },
            },
    {
        validate_market_creation(close_timestamp, now)?;
        let existing = self.event_market_list(sport, event_id);
        if existing.len() > 0 {
            return Err(ContractError::MarketsAlreadyExist);
        }
        let sport_index = sport_code_exec(sport);
        let last_type = if sport == Sport::Football {
            MarketType::BothTeamsToScore
        } else {
            MarketType::FullTimeResult
        };
        let last_count: u64 = if sport == Sport::Football {
            2
        } else {
            2
        };
        let ghost last = event_market_types(sport).last();
        assert(last == last_type);
        assert(market_selection_types(sport, last).len() == last_count);
        let fits = match event_id.checked_mul(1000) {
            None => false,
            Some(e) => match (sport_index * 1_000_000).checked_add(e) {
                None => false,
                Some(base) => match base.checked_add(market_type_code_exec(last_type)) {
                    None => false,
                    Some(mid) => match mid.checked_mul(10) {
                        None => false,
                        Some(m10) => m10.checked_add(last_count).is_some(),
                    },
                },
            },
        };
        if !fits {
            return Err(ContractError::CounterOverflow);
        }
        let ghost s0 = *self;
        let ft_result_selections = selection_types_exec(sport, MarketType::FullTimeResult);
        let (market_id_1x2, selections_1x2) = self.create_single_market(
            sport,
            event_id,
            &ft_result_selections,
            close_timestamp,
            MarketType::FullTimeResult,
            now,
        );
        let mut market_ids: Vec<u64> = Vec::new();
        let mut markets_info: Vec<MarketSelectionInfo> = Vec::new();
        market_ids.push(market_id_1x2);
        markets_info.push(
            MarketSelectionInfo {
                market_id: market_id_1x2,
                market_type: MarketType::FullTimeResult,
                selections: selections_1x2,
            },
        );
        if sport == Sport::Football {
            let ghost s1 = *self;
            let ou = selection_types_exec(sport, MarketType::TotalGoals);
            let (market_id_ou, selections_ou) = self.create_single_market(
                sport,
                event_id,
                &ou,
                close_timestamp,
                MarketType::TotalGoals,
                now,
            );
            market_ids.push(market_id_ou);
            markets_info.push(
                MarketSelectionInfo {
                    market_id: market_id_ou,
                    market_type: MarketType::TotalGoals,
                    selections: selections_ou,
                },
            );
            let ghost s2 = *self;
            let ggng = selection_types_exec(sport, MarketType::BothTeamsToScore);
            let (market_id_ggng, selections_ggng) = self.create_single_market(
                sport,
                event_id,
                &ggng,
                close_timestamp,
                MarketType::BothTeamsToScore,
                now,
            );
            market_ids.push(market_id_ggng);
            markets_info.push(
                MarketSelectionInfo {
                    market_id: market_id_ggng,
                    market_type: MarketType::BothTeamsToScore,
                    selections: selections_ggng,
                },
            );
            assert forall|m: u64, s: u64| #[trigger]
                self.selection_state(m, s) == if is_new_selection(sport, event_id, m, s) {
                    empty_selection_storage()
                } else {
                    old(self).selection_state(m, s)
                } by {
                assert(s2.selection_state(m, s) == if is_selection_of(sport, event_id, MarketType::TotalGoals, m, s) {
                    empty_selection_storage()
                } else {
                    s1.selection_state(m, s)
                });
                assert(s1.selection_state(m, s) == if is_selection_of(sport, event_id, MarketType::FullTimeResult, m, s) {
                    empty_selection_storage()
                } else {
                    s0.selection_state(m, s)
                });
            }
        }
        let ghost ids = market_ids@;
        assert(ids =~= event_market_ids(sport, event_id));
        let ghost s3 = *self;
        assert forall|m: u64, s: u64| #[trigger]
            s3.selection_state(m, s) == if is_new_selection(sport, event_id, m, s) {
                empty_selection_storage()
            } else {
                old(self).selection_state(m, s)
            } by {
            if sport != Sport::Football {
                assert(s3.selection_state(m, s) == if is_selection_of(sport, event_id, MarketType::FullTimeResult, m, s) {
                    empty_selection_storage()
                } else {
                    s0.selection_state(m, s)
                });
            }
        }
        self.set_event_markets(sport, event_id, market_ids);
        assert forall|m: u64, s: u64| #[trigger] self.selection_state(m, s) == s3.selection_state(m, s) by {
            assert(self.selections == s3.selections);
        }
        assert(markets_info@.len() == event_market_types(sport).len());
        Ok(CreateMarketEvent { sport_index: sport_index as u8, event_id, markets: markets_info })
    }

    /// The status of the market with the given id; refused when there is none.
    pub fn get_market_status(&self, market_id: u64) -> (r: Result<MarketStatus, ContractError>)
        ensures
            self.market_map().contains_key(market_id) ==> r == Ok::<MarketStatus, ContractError>(
                self.market_map()[market_id].market_status,
            ),
            !self.market_map().contains_key(market_id) ==> r == Err::<MarketStatus, ContractError>(
                ContractError::StorageDecode,
            ),
    {
        match self.markets.get(&market_id) {
            Some(m) => Ok(m.market_status),
            None => Err(ContractError::StorageDecode),
        }
    }
}


impl StorageModule {
    /// Whether every market recorded for event `event_id` is closed; refused
    /// when none is recorded.
    pub fn are_event_markets_closed(&self, event_id: u64) -> (r: Result<bool, ContractError>)
        ensures
            self.markets_of_event(event_id).len() == 0 ==> r == Err::<bool, ContractError>(
                ContractError::NoMarketsFoundForEvent,
            ),
            self.markets_of_event(event_id).len() > 0 ==> r == all_closed(self.market_map(), self.markets_of_event(event_id)),
    {
        let ids = self.event_market_ids(event_id);
        if ids.len() == 0 {
            return Err(ContractError::NoMarketsFoundForEvent);
        }
        let mut i: usize = 0;
        assert(ids@.skip(0) =~= ids@);
        while i < ids.len()
            invariant
                ids@ == self.markets_of_event(event_id),
                ids@.len() > 0,
                0 <= i <= ids@.len(),
                all_closed(self.market_map(), ids@) == all_closed(self.market_map(), ids@.skip(i as int)),
            decreases ids.len() - i,
        {
            assert(ids@.skip(i as int)[0] == ids@[i as int]);
            assert(ids@.skip(i as int).drop_first() =~= ids@.skip(i + 1));
            match self.markets.get(&ids[i]) {
                None => return Err(ContractError::StorageDecode),
                Some(m) => if m.market_status != MarketStatus::Closed {
                    return Ok(false);
                },
            }
            i = i + 1;
        }
        assert(ids@.skip(i as int) =~= Seq::<u64>::empty());
        Ok(true)
    }
}

} // verus!
