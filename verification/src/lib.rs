//! A betting exchange: markets on sports events, back and lay bets matched
//! through per-selection price levels, settlement and payouts.
//!
//! Token amounts and odds are plain unsigned integers; odds carry two
//! decimals (`250` stands for 2.50). The contract's storage is modelled by
//! the state structs of this crate, and the operations of each module are
//! methods or functions over them.
use vstd::prelude::*;

pub mod types;
pub mod errors;
pub mod storage;
pub mod events;
pub mod orderbook;
pub mod tracker;
pub mod validation;
pub mod bet;
pub mod priority_queue;
pub mod utils;
pub mod encoding;
pub mod nft;
pub mod market;
pub mod fund;
pub mod cube;
pub mod slip;

verus! {

} // verus!
