//! Betslips of combined bets and peer-to-peer bets.
pub mod types;
pub mod p2p;
pub mod betslip;
