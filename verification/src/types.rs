//! The data of the exchange: bets, markets, selections and the views that
//! the queries return.
use vstd::prelude::*;
use vstd::string::StringSliceAdditionalSpecFns;

verus! {

/// A 32-byte account address, held as its high and low 16 bytes.
#[derive(Clone, Copy, PartialEq, Eq, Structural, Debug)]
pub struct Address {
    pub hi: u128,
    pub lo: u128,
}

/// The token of a payment: EGLD, or an ESDT by its identifier.
#[derive(Clone, Debug)]
pub enum PaymentToken {
    Egld,
    Esdt(String),
}

/// A payment made to or by the contract.
#[derive(Clone, Debug)]
pub struct Payment {
    pub token: PaymentToken,
    pub nonce: u64,
    pub amount: u128,
}

/// The sports on which markets are opened.
#[derive(Clone, Copy, PartialEq, Eq, Structural, Debug)]
pub enum Sport {
    Football,
    Basketball,
    Tennis,
    LeagueOfLegends,
    CounterStrike2,
    Dota2,
}

#[derive(Clone, Copy, PartialEq, Eq, Structural, Debug)]
pub enum BetStatus {
    Matched,
    Unmatched,
    PartiallyMatched,
    Win,
    Lost,
    Canceled,
    Claimed,
}

#[derive(Clone, Copy, PartialEq, Eq, Structural, Debug)]
pub enum BetType {
    Back,
    Lay,
}

#[derive(Clone, Copy, PartialEq, Eq, Structural, Debug)]
pub enum MarketStatus {
    Open,
    Closed,
    Settled,
}

/// Who a bet was matched with: the other bettor, the other bet's NFT
/// nonce, the other bet's payment nonce, and when the match was made.
#[derive(Clone, Copy, PartialEq, Eq, Structural, Debug)]
pub struct Counterparty {
    pub bettor: Address,
    pub bet_id: u64,
    pub payment_nonce: u64,
    pub matched_at: u64,
}

/// One matched slice of a bet: the amount and the odds at which it matched,
/// and the counterparty where the match was made bet against bet.
#[derive(Clone, Copy, PartialEq, Eq, Structural, Debug)]
pub struct MatchedPart {
    pub amount: u128,
    pub odds: u128,
    pub counterparty: Option<Counterparty>,
}

/// A bet as the contract stores it.
///
/// `stake_amount` is the part that can be matched, `liability` what a lay
/// bettor risks on top of it, `total_amount` what was paid in, and
/// `total_matched` how much of the stake has found a counterparty.
/// `unmatched_amount` is the open amount as the scheduler of the second
/// contract counts it.
pub struct Bet {
    pub bet_id: u64,
    pub bettor: Address,
    pub sport: Sport,
    pub event: u64,
    pub selection: Selection,
    pub stake_amount: u128,
    pub liability: u128,
    pub total_amount: u128,
    pub total_matched: u128,
    pub unmatched_amount: u128,
    pub matched_parts: Vec<MatchedPart>,
    pub potential_profit: u128,
    pub odd: u128,
    pub bet_type: BetType,
    pub status: BetStatus,
    pub payment_token: String,
    pub payment_nonce: u64,
    pub nft_nonce: u64,
    pub created_at: u64,
}

/// What a bet NFT carries as its attributes.
pub struct BetAttributes {
    pub event: u64,
    pub selection: Selection,
    pub stake: u128,
    pub potential_win: u128,
    pub odd: u128,
    pub bet_type: BetType,
    pub status: BetStatus,
}

pub struct Market {
    pub market_id: u64,
    pub event_id: u64,
    pub description: Vec<u8>,
    pub market_type: MarketType,
    pub selections: Vec<Selection>,
    pub close_timestamp: u64,
    pub market_status: MarketStatus,
    pub total_matched_amount: u128,
    pub liquidity: u128,
    pub created_at: u64,
}

#[derive(Clone, Copy, PartialEq, Eq, Structural, Debug)]
pub enum SelectionType {
    One,
    Draw,
    Two,
    Over,
    Under,
    Yes,
    No,
}

/// The label of each selection type.
pub open spec fn selection_label(t: SelectionType) -> Seq<char> {
    match t {
        SelectionType::One => "1"@,
        SelectionType::Draw => "X"@,
        SelectionType::Two => "2"@,
        SelectionType::Over => "OVER"@,
        SelectionType::Under => "UNDER"@,
        SelectionType::Yes => "YES"@,
        SelectionType::No => "NO"@,
    }
}

/// How many selections a market of the given type has.
pub open spec fn selection_count(market_type: MarketType) -> nat {
    match market_type {
        MarketType::FullTimeResult => 3,
        MarketType::TotalGoals => 2,
        MarketType::BothTeamsToScore => 2,
    }
}

/// The selection at position `index` of a market of the given type.
pub open spec fn selection_at(market_type: MarketType, index: int) -> SelectionType {
    match market_type {
        MarketType::FullTimeResult => if index == 0 {
            SelectionType::One
        } else if index == 1 {
            SelectionType::Draw
        } else {
            SelectionType::Two
        },
        MarketType::TotalGoals => if index == 0 {
            SelectionType::Over
        } else {
            SelectionType::Under
        },
        MarketType::BothTeamsToScore => if index == 0 {
            SelectionType::Yes
        } else {
            SelectionType::No
        },
    }
}

impl SelectionType {
    /// The label of the selection: "1", "X", "2", "OVER", "UNDER", "YES" or "NO".
    pub fn to_string(&self) -> (s: &'static str)
        ensures
            s@ == selection_label(*self),
    {
        proof {
            reveal_strlit("1");
            reveal_strlit("X");
            reveal_strlit("2");
            reveal_strlit("OVER");
            reveal_strlit("UNDER");
            reveal_strlit("YES");
            reveal_strlit("NO");
        }
        match self {
            SelectionType::One => "1",
            SelectionType::Draw => "X",
            SelectionType::Two => "2",
            SelectionType::Over => "OVER",
            SelectionType::Under => "UNDER",
            SelectionType::Yes => "YES",
            SelectionType::No => "NO",
        }
    }

    /// The selection at position `index` of a market of the given type; the
    /// index must be one of the market's positions.
    pub fn from_market_type_and_index(market_type: &MarketType, index: usize) -> (t: Self)
        requires
            index < selection_count(*market_type),
        ensures
            t == selection_at(*market_type, index as int),
    {
        match market_type {
            MarketType::FullTimeResult => if index == 0 {
                SelectionType::One
            } else if index == 1 {
                SelectionType::Draw
            } else {
                SelectionType::Two
            },
            MarketType::TotalGoals => if index == 0 {
                SelectionType::Over
            } else {
                SelectionType::Under
            },
            MarketType::BothTeamsToScore => if index == 0 {
                SelectionType::Yes
            } else {
                SelectionType::No
            },
        }
    }
}

/// Distinct positions of one market give distinct selections.
pub proof fn lemma_selection_at_injective(market_type: MarketType, i: int, j: int)
    requires
        0 <= i < selection_count(market_type),
        0 <= j < selection_count(market_type),
        i != j,
    ensures
        selection_at(market_type, i) != selection_at(market_type, j),
{
}

pub struct SelectionInfo {
    pub selection_id: u64,
    pub selection_type: SelectionType,
}

/// A selection of a market, with the order book state it had when the
/// market was last written.
pub struct Selection {
    pub id: u64,
    pub selection_type: SelectionType,
    pub priority_queue: Tracker,
}

pub struct MarketSelectionInfo {
    pub market_id: u64,
    pub market_type: MarketType,
    pub selections: Vec<SelectionInfo>,
}

pub struct EventMarketsCreationResponse {
    pub event_id: u64,
    pub markets: Vec<MarketSelectionInfo>,
}

/// The open bets of one side of a selection at one price.
pub struct PriceLevel {
    pub odds: u128,
    pub total_stake: u128,
    pub bet_nonces: Vec<u64>,
}

/// The order book of a selection and its bet counters.
pub struct Tracker {
    pub back_levels: Vec<PriceLevel>,
    pub lay_levels: Vec<PriceLevel>,
    pub back_liquidity: u128,
    pub lay_liquidity: u128,
    pub matched_count: u64,
    pub unmatched_count: u64,
    pub partially_matched_count: u64,
    pub win_count: u64,
    pub lost_count: u64,
    pub canceled_count: u64,
}

/// The value of a price level.
pub struct LevelModel {
    pub odds: u128,
    pub total_stake: u128,
    pub bet_nonces: Seq<u64>,
}

impl View for PriceLevel {
    type V = LevelModel;

    open spec fn view(&self) -> LevelModel {
        LevelModel { odds: self.odds, total_stake: self.total_stake, bet_nonces: self.bet_nonces@ }
    }
}

/// The values of a sequence of price levels.
pub open spec fn levels_view(levels: Seq<PriceLevel>) -> Seq<LevelModel> {
    levels.map_values(|l: PriceLevel| l@)
}

/// The value of a tracker.
pub struct TrackerModel {
    pub back_levels: Seq<LevelModel>,
    pub lay_levels: Seq<LevelModel>,
    pub back_liquidity: u128,
    pub lay_liquidity: u128,
    pub matched_count: u64,
    pub unmatched_count: u64,
    pub partially_matched_count: u64,
    pub win_count: u64,
    pub lost_count: u64,
    pub canceled_count: u64,
}

impl View for Tracker {
    type V = TrackerModel;

    open spec fn view(&self) -> TrackerModel {
        TrackerModel {
            back_levels: levels_view(self.back_levels@),
            lay_levels: levels_view(self.lay_levels@),
            back_liquidity: self.back_liquidity,
            lay_liquidity: self.lay_liquidity,
            matched_count: self.matched_count,
            unmatched_count: self.unmatched_count,
            partially_matched_count: self.partially_matched_count,
            win_count: self.win_count,
            lost_count: self.lost_count,
            canceled_count: self.canceled_count,
        }
    }
}

/// The value of a selection.
pub struct SelectionModel {
    pub id: u64,
    pub selection_type: SelectionType,
    pub priority_queue: TrackerModel,
}

impl View for Selection {
    type V = SelectionModel;

    open spec fn view(&self) -> SelectionModel {
        SelectionModel {
            id: self.id,
            selection_type: self.selection_type,
            priority_queue: self.priority_queue@,
        }
    }
}

/// The values of a sequence of selections.
pub open spec fn selections_view(selections: Seq<Selection>) -> Seq<SelectionModel> {
    selections.map_values(|s: Selection| s@)
}

/// The value of a bet.
pub struct BetModel {
    pub bet_id: u64,
    pub bettor: Address,
    pub sport: Sport,
    pub event: u64,
    pub selection: SelectionModel,
    pub stake_amount: u128,
    pub liability: u128,
    pub total_amount: u128,
    pub total_matched: u128,
    pub unmatched_amount: u128,
    pub matched_parts: Seq<MatchedPart>,
    pub potential_profit: u128,
    pub odd: u128,
    pub bet_type: BetType,
    pub status: BetStatus,
    pub payment_token: Seq<char>,
    pub payment_nonce: u64,
    pub nft_nonce: u64,
    pub created_at: u64,
}

impl View for Bet {
    type V = BetModel;

    open spec fn view(&self) -> BetModel {
        BetModel {
            bet_id: self.bet_id,
            bettor: self.bettor,
            sport: self.sport,
            event: self.event,
            selection: self.selection@,
            stake_amount: self.stake_amount,
            liability: self.liability,
            total_amount: self.total_amount,
            total_matched: self.total_matched,
            unmatched_amount: self.unmatched_amount,
            matched_parts: self.matched_parts@,
            potential_profit: self.potential_profit,
            odd: self.odd,
            bet_type: self.bet_type,
            status: self.status,
            payment_token: self.payment_token@,
            payment_nonce: self.payment_nonce,
            nft_nonce: self.nft_nonce,
            created_at: self.created_at,
        }
    }
}

/// The value of a market.
pub struct MarketModel {
    pub market_id: u64,
    pub event_id: u64,
    pub description: Seq<u8>,
    pub market_type: MarketType,
    pub selections: Seq<SelectionModel>,
    pub close_timestamp: u64,
    pub market_status: MarketStatus,
    pub total_matched_amount: u128,
    pub liquidity: u128,
    pub created_at: u64,
}

impl View for Market {
    type V = MarketModel;

    open spec fn view(&self) -> MarketModel {
        MarketModel {
            market_id: self.market_id,
            event_id: self.event_id,
            description: self.description@,
            market_type: self.market_type,
            selections: selections_view(self.selections@),
            close_timestamp: self.close_timestamp,
            market_status: self.market_status,
            total_matched_amount: self.total_matched_amount,
            liquidity: self.liquidity,
            created_at: self.created_at,
        }
    }
}

/// The first position of a selection with the given id, if any.
pub open spec fn selection_position(selections: Seq<SelectionModel>, id: u64) -> Option<int> {
    if exists|i: int| 0 <= i < selections.len() && selections[i].id == id {
        Some(
            choose|i: int|
                0 <= i < selections.len() && selections[i].id == id && forall|j: int|
                    0 <= j < i ==> selections[j].id != id,
        )
    } else {
        None
    }
}

proof fn lemma_first_selection(selections: Seq<SelectionModel>, id: u64, w: int)
    requires
        0 <= w < selections.len(),
        selections[w].id == id,
    ensures
        exists|i: int|
            0 <= i < selections.len() && selections[i].id == id && forall|j: int|
                0 <= j < i ==> selections[j].id != id,
    decreases w,
{
    if exists|j: int| 0 <= j < w && selections[j].id == id {
        let j = choose|j: int| 0 <= j < w && selections[j].id == id;
        lemma_first_selection(selections, id, j);
    }
}

pub proof fn lemma_selection_position(selections: Seq<SelectionModel>, id: u64)
    ensures
        match selection_position(selections, id) {
            Some(i) => 0 <= i < selections.len() && selections[i].id == id && forall|j: int|
                0 <= j < i ==> selections[j].id != id,
            None => forall|j: int| 0 <= j < selections.len() ==> selections[j].id != id,
        },
{
    if exists|i: int| 0 <= i < selections.len() && selections[i].id == id {
        let w = choose|i: int| 0 <= i < selections.len() && selections[i].id == id;
        lemma_first_selection(selections, id, w);
    }
}

pub proof fn lemma_selection_position_unique(selections: Seq<SelectionModel>, id: u64, i: int)
    requires
        0 <= i < selections.len(),
        selections[i].id == id,
        forall|j: int| 0 <= j < i ==> selections[j].id != id,
    ensures
        selection_position(selections, id) == Some(i),
{
    lemma_selection_position(selections, id);
    let k = selection_position(selections, id)->0;
    if k < i {
        assert(selections[k].id != id);
    } else if k > i {
        assert(selections[i].id != id);
    }
}

/// The position of the first selection with the given id.
pub fn find_selection(selections: &Vec<Selection>, id: u64) -> (r: Option<usize>)
    ensures
        match r {
            Some(i) => i < selections@.len() && selection_position(selections_view(selections@), id)
                == Some(i as int) && selections_view(selections@)[i as int] == selections@[i as int]@,
            None => selection_position(selections_view(selections@), id) is None,
        },
{
    let ghost sv = selections_view(selections@);
    let mut i: usize = 0;
    while i < selections.len()
        invariant
            sv == selections_view(selections@),
            0 <= i <= selections@.len(),
            forall|j: int| 0 <= j < i ==> #[trigger] sv[j].id != id,
        decreases selections.len() - i,
    {
        assert(sv[i as int] == selections@[i as int]@);
        if selections[i].id == id {
            proof {
                lemma_selection_position_unique(sv, id, i as int);
            }
            return Some(i);
        }
        i = i + 1;
    }
    proof {
        lemma_selection_position(sv, id);
        if selection_position(sv, id) is Some {
            let k = selection_position(sv, id)->0;
            assert(sv[k].id != id);
        }
    }
    None
}

/// `b` is the same bet as `a`.
pub open spec fn bet_copied(a: Bet, b: Bet) -> bool {
    a@ == b@
}

/// Copying a copy gives a copy.
pub proof fn lemma_bet_copied_trans(a: Bet, b: Bet, c: Bet)
    requires
        bet_copied(a, b),
        bet_copied(b, c),
    ensures
        bet_copied(a, c),
{
}

impl Clone for PriceLevel {
    fn clone(&self) -> (res: Self)
        ensures
            res@ == self@,
    {
        let nonces = self.bet_nonces.clone();
        assert(nonces@ =~= self.bet_nonces@);
        PriceLevel { odds: self.odds, total_stake: self.total_stake, bet_nonces: nonces }
    }
}

/// A clone of a vector of price levels holds the same levels.
pub fn clone_levels(levels: &Vec<PriceLevel>) -> (res: Vec<PriceLevel>)
    ensures
        levels_view(res@) == levels_view(levels@),
{
    let res = levels.clone();
    assert(levels_view(res@) =~= levels_view(levels@)) by {
        assert forall|i: int| 0 <= i < res@.len() implies #[trigger] res@[i]@ == levels@[i]@ by {
            assert(cloned::<PriceLevel>(levels[i], res[i]));
        }
    }
    res
}

impl Clone for Tracker {
    fn clone(&self) -> (res: Self)
        ensures
            res@ == self@,
    {
        Tracker {
            back_levels: clone_levels(&self.back_levels),
            lay_levels: clone_levels(&self.lay_levels),
            back_liquidity: self.back_liquidity,
            lay_liquidity: self.lay_liquidity,
            matched_count: self.matched_count,
            unmatched_count: self.unmatched_count,
            partially_matched_count: self.partially_matched_count,
            win_count: self.win_count,
            lost_count: self.lost_count,
            canceled_count: self.canceled_count,
        }
    }
}

impl Clone for Selection {
    fn clone(&self) -> (res: Self)
        ensures
            res@ == self@,
    {
        Selection {
            id: self.id,
            selection_type: self.selection_type,
            priority_queue: self.priority_queue.clone(),
        }
    }
}

/// A clone of a vector of selections holds the same selections.
pub fn clone_selections(selections: &Vec<Selection>) -> (res: Vec<Selection>)
    ensures
        selections_view(res@) == selections_view(selections@),
{
    let res = selections.clone();
    assert(selections_view(res@) =~= selections_view(selections@)) by {
        assert forall|i: int| 0 <= i < res@.len() implies #[trigger] res@[i]@ == selections@[i]@ by {
            assert(cloned::<Selection>(selections[i], res[i]));
        }
    }
    res
}

impl Clone for Market {
    fn clone(&self) -> (res: Self)
        ensures
            res@ == self@,
    {
        let description = self.description.clone();
        assert(description@ =~= self.description@);
        Market {
            market_id: self.market_id,
            event_id: self.event_id,
            description,
            market_type: self.market_type,
            selections: clone_selections(&self.selections),
            close_timestamp: self.close_timestamp,
            market_status: self.market_status,
            total_matched_amount: self.total_matched_amount,
            liquidity: self.liquidity,
            created_at: self.created_at,
        }
    }
}

impl Clone for Bet {
    fn clone(&self) -> (res: Self)
        ensures
            res@ == self@,
    {
        let parts = self.matched_parts.clone();
        assert(parts@ =~= self.matched_parts@);
        Bet {
            bet_id: self.bet_id,
            bettor: self.bettor,
            sport: self.sport,
            event: self.event,
            selection: self.selection.clone(),
            stake_amount: self.stake_amount,
            liability: self.liability,
            total_amount: self.total_amount,
            total_matched: self.total_matched,
            unmatched_amount: self.unmatched_amount,
            matched_parts: parts,
            potential_profit: self.potential_profit,
            odd: self.odd,
            bet_type: self.bet_type,
            status: self.status,
            payment_token: self.payment_token.clone(),
            payment_nonce: self.payment_nonce,
            nft_nonce: self.nft_nonce,
            created_at: self.created_at,
        }
    }
}

#[derive(Clone, Copy, PartialEq, Eq, Structural, Debug)]
pub enum MarketType {
    FullTimeResult,
    TotalGoals,
    BothTeamsToScore,
}

/// The numeric code of a market type.
pub open spec fn market_type_code(t: MarketType) -> u64 {
    match t {
        MarketType::FullTimeResult => 1,
        MarketType::TotalGoals => 2,
        MarketType::BothTeamsToScore => 3,
    }
}

/// The market type of a numeric code in 1..=3.
pub open spec fn market_type_of_code(value: u64) -> MarketType {
    if value == 1 {
        MarketType::FullTimeResult
    } else if value == 2 {
        MarketType::TotalGoals
    } else {
        MarketType::BothTeamsToScore
    }
}

/// The description that a market of each type is created with.
pub open spec fn market_type_description(t: MarketType) -> Seq<u8> {
    match t {
        MarketType::FullTimeResult => "Fulltime Result".spec_bytes(),
        MarketType::TotalGoals => "Over/Under 2.5 Goals".spec_bytes(),
        MarketType::BothTeamsToScore => "Both Teams To Score".spec_bytes(),
    }
}

impl MarketType {
    /// The market type of the codes 1, 2 and 3.
    pub fn from_u64(value: u64) -> (t: Self)
        requires
            1 <= value <= 3,
        ensures
            t == market_type_of_code(value),
    {
        if value == 1 {
            MarketType::FullTimeResult
        } else if value == 2 {
            MarketType::TotalGoals
        } else {
            MarketType::BothTeamsToScore
        }
    }

    pub fn to_u64(&self) -> (v: u64)
        ensures
            v == market_type_code(*self),
    {
        match self {
            MarketType::FullTimeResult => 1,
            MarketType::TotalGoals => 2,
            MarketType::BothTeamsToScore => 3,
        }
    }

    pub fn to_description(&self) -> (d: &'static [u8])
        ensures
            d@ == market_type_description(*self),
    {
        match self {
            MarketType::FullTimeResult => "Fulltime Result".as_bytes(),
            MarketType::TotalGoals => "Over/Under 2.5 Goals".as_bytes(),
            MarketType::BothTeamsToScore => "Both Teams To Score".as_bytes(),
        }
    }
}

/// Reading back the code of a market type gives the market type.
pub proof fn lemma_market_type_code_roundtrip(t: MarketType)
    ensures
        market_type_of_code(market_type_code(t)) == t,
        1 <= market_type_code(t) <= 3,
{
}

/// Every code in 1..=3 is the code of the market type read from it.
pub proof fn lemma_market_type_of_code_roundtrip(value: u64)
    requires
        1 <= value <= 3,
    ensures
        market_type_code(market_type_of_code(value)) == value,
{
}

#[derive(Clone, Copy, PartialEq, Eq, Structural, Debug)]
pub enum ProcessingStatus {
    InProgress,
    Completed,
}

#[derive(Clone, Copy, PartialEq, Eq, Structural, Debug)]
pub struct ProcessingProgress {
    pub market_id: u64,
    pub processed_bets: u64,
    pub status: ProcessingStatus,
}

pub struct BetMatchingState {
    pub bet_type: BetType,
    pub original_stake: u128,
    pub matched_amount: u128,
    pub unmatched_amount: u128,
    pub status: BetStatus,
    pub odds: u128,
}

pub struct MatchingDetails {
    pub back_levels: Vec<PriceLevelView>,
    pub lay_levels: Vec<PriceLevelView>,
    pub back_liquidity: u128,
    pub lay_liquidity: u128,
    pub matched_count: u64,
    pub unmatched_count: u64,
    pub partially_matched_count: u64,
}

pub struct PriceLevelView {
    pub odds: u128,
    pub total_stake: u128,
    pub bets: Vec<BetView>,
}

pub struct BetView {
    pub nonce: u64,
    pub bettor: Address,
    pub stake: u128,
    pub matched: u128,
    pub unmatched: u128,
    pub status: BetStatus,
}

#[derive(Debug)]
pub struct OrderbookView {
    pub price_level: u128,
    pub total_amount: u128,
    pub bet_count: u32,
}

pub struct DebugMatchedPart {
    pub amount: u128,
    pub odds: u128,
}

pub struct DebugBetState {
    pub bet_type: BetType,
    pub stake_amount: u128,
    pub matched_amount: u128,
    pub unmatched_amount: u128,
    pub status: BetStatus,
    pub current_odds: u128,
    pub potential_profit: u128,
    pub matched_parts: Vec<DebugMatchedPart>,
}

pub struct MarketStatsResponse {
    pub bet_counts: BetCounts,
    pub volumes: MarketVolumes,
    pub bets: Vec<BetDetailResponse>,
}

pub struct BetCounts {
    pub total: u32,
    pub matched: u32,
    pub unmatched: u32,
    pub partially_matched: u32,
}

pub struct MarketVolumes {
    pub back_matched: u128,
    pub lay_matched: u128,
    pub back_unmatched: u128,
    pub lay_unmatched: u128,
}

pub struct BetDetailResponse {
    pub nft_nonce: u64,
    pub selection_id: u64,
    pub bettor: Address,
    pub stake: BetAmounts,
    pub odds: u128,
    pub status: BetStatus,
    pub matched_info: BetMatchedInfo,
}

pub struct BetAmounts {
    pub stake_amount: u128,
    pub matched: u128,
    pub unmatched: u128,
    pub liability: u128,
}

pub struct BetMatchedInfo {
    pub matched_parts: Vec<MatchedPart>,
    pub potential_profit: u128,
}

pub struct BetStatusVerificationResponse {
    pub bet_type: BetType,
    pub selection_id: u64,
    pub status: BetStatus,
    pub winning_selection: u64,
}

pub struct BetStatusExplanation {
    pub bet_type: BetType,
    pub selection_id: u64,
    pub winning_selection: u64,
}

pub struct BetDetailsView {
    pub bettor: Address,
    pub event: u64,
    pub selection: Selection,
    pub bet_type: BetType,
    pub stake_amount: u128,
    pub liability: u128,
    pub total_matched: u128,
    pub potential_profit: u128,
    pub odd: u128,
    pub matched_parts: Vec<MatchedPart>,
    pub status: BetStatus,
    pub payment_token: String,
    pub payment_nonce: u64,
    pub nft_nonce: u64,
    pub created_at: u64,
}

pub struct SimpleBetView {
    pub bet_type: BetType,
    pub stake: u128,
    pub odds: u128,
    pub liability: u128,
    pub potential_profit: u128,
    pub selection_id: u64,
    pub status: BetStatus,
}

} // verus!
