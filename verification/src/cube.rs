//! The scheduled exchange: each selection keeps its bets in a scheduler,
//! queued by price and time, and a bet is placed by matching it against the
//! opposite queue.
pub mod types;
pub mod scheduler;
pub mod storage;
pub mod manager;
pub mod nft;
pub mod market;
