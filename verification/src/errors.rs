//! The reasons for which an operation of the exchange is refused. A refused
//! operation leaves the storage as it was.
use vstd::prelude::*;

verus! {

#[derive(Clone, Copy, PartialEq, Eq, Structural, Debug)]
pub enum ContractError {
    /// A value was read from storage where nothing was written.
    StorageDecode,
    /// An amount would go below zero.
    NegativeAmount,
    /// An amount does not fit in 128 bits.
    AmountOverflow,
    /// A counter does not fit in 64 bits or would go below zero.
    CounterOverflow,
    StakeOutOfRange,
    OddsOutOfRange,
    InvalidMarket,
    MarketNotOpenForBetting,
    MarketNotOpen,
    MarketAlreadyClosed,
    MarketNotClosed,
    InvalidMarketTimestamp,
    InvalidSelection,
    SelectionNotFound,
    MarketsAlreadyExist,
    NoMarketsFoundForEventAndSport,
    NoMarketsFoundForEvent,
    NoMarketsFound,
    OddsTooLow,
    InvalidStake,
    InvalidLiability,
    InsufficientLayFunds,
    BetDoesNotExist,
    InvalidBetId,
    MustSendBetNftToCancel,
    MustSendBetNftToClaim,
    InvalidNftNonce,
    MustSendExactlyOneNft,
    NotBetOwnerCancel,
    NotBetOwnerClaim,
    BetCannotBeCancelled,
    InvalidBetStatusForCancellation,
    InsufficientLockedFunds,
    BetAlreadyClaimed,
    BetNotWon,
    InvalidMatchedAmount,
    NoUnmatchedAmount,
    TokenAlreadyIssued,
    TokenNotIssued,
    DivisionByZero,
    EsdtExpected,
    InvalidTokenId,
    InvalidSelectionId,
    /// A position past the end of a list was read.
    IndexOutOfRange,
    MarketDoesNotExist,
    CloseTimestampInPast,
    MarketAlreadyExists,
    MarketMissing,
    BetsClosed,
    LiabilityNotZero,
    LiabilityZero,
    LiabilityMismatch,
    InvalidRole,
    InvalidPayment,
    BetNotWinning,
    NoWinningsToDistribute,
    ZeroDeposit,
    TicketAlreadyPaid,
    NonceTooLarge,
    P2PBetExists,
    P2PBetNotActive,
    InvalidBettingOption,
    NotBetCreator,
    BetAlreadyFinalized,
    NoWinners,
    BetslipDoesNotExist,
}

/// The message that the contract reports for each error.
pub open spec fn error_message(e: ContractError) -> Seq<char> {
    match e {
        ContractError::StorageDecode => "storage decode error"@,
        ContractError::NegativeAmount => "cannot subtract because result would be negative"@,
        ContractError::AmountOverflow => "amount overflow"@,
        ContractError::CounterOverflow => "arithmetic overflow"@,
        ContractError::StakeOutOfRange => "Stake amount out of range"@,
        ContractError::OddsOutOfRange => "Odds out of range"@,
        ContractError::InvalidMarket => "Invalid market"@,
        ContractError::MarketNotOpenForBetting => "Market is not open for betting"@,
        ContractError::MarketNotOpen => "Market not open"@,
        ContractError::MarketAlreadyClosed => "Market already closed"@,
        ContractError::MarketNotClosed => "Market is not closed"@,
        ContractError::InvalidMarketTimestamp => "Invalid market timestamp"@,
        ContractError::InvalidSelection => "Invalid selection"@,
        ContractError::SelectionNotFound => "Selection not found"@,
        ContractError::MarketsAlreadyExist => "Markets already exist for this event"@,
        ContractError::NoMarketsFoundForEventAndSport => "No markets found for event and sport"@,
        ContractError::NoMarketsFoundForEvent => "No markets found for event"@,
        ContractError::NoMarketsFound => "No markets found"@,
        ContractError::OddsTooLow => "Odds must be greater than 1.00"@,
        ContractError::InvalidStake => "Invalid stake calculation for Lay bet"@,
        ContractError::InvalidLiability => "Invalid liability calculation for Lay bet"@,
        ContractError::InsufficientLayFunds => "Insufficient funds for lay bet liability"@,
        ContractError::BetDoesNotExist => "Bet does not exist"@,
        ContractError::InvalidBetId => "Invalid bet ID"@,
        ContractError::MustSendBetNftToCancel => "Must send the bet NFT to cancel"@,
        ContractError::MustSendBetNftToClaim => "Must send the bet NFT to claim"@,
        ContractError::InvalidNftNonce => "Invalid NFT nonce"@,
        ContractError::MustSendExactlyOneNft => "Must send exactly 1 NFT"@,
        ContractError::NotBetOwnerCancel => "Only the bet owner can cancel the bet"@,
        ContractError::NotBetOwnerClaim => "Only the bet owner can claim the win"@,
        ContractError::BetCannotBeCancelled => "Bet cannot be cancelled in this state"@,
        ContractError::InvalidBetStatusForCancellation => "Invalid bet status for cancellation"@,
        ContractError::InsufficientLockedFunds => "Insufficient locked funds to refund"@,
        ContractError::BetAlreadyClaimed => "Bet already claimed"@,
        ContractError::BetNotWon => "Bet must be in Won state to claim"@,
        ContractError::InvalidMatchedAmount => "Invalid matched amount"@,
        ContractError::NoUnmatchedAmount => "No unmatched amount to add to orderbook"@,
        ContractError::TokenAlreadyIssued => "Token already issued"@,
        ContractError::TokenNotIssued => "Token not issued"@,
        ContractError::DivisionByZero => "division by zero"@,
        ContractError::EsdtExpected => "ESDT expected"@,
        ContractError::InvalidTokenId => "Invalid token ID"@,
        ContractError::InvalidSelectionId => "Invalid selection ID"@,
        ContractError::IndexOutOfRange => "ManagedVec index out of range"@,
        ContractError::MarketDoesNotExist => "Market does not exist"@,
        ContractError::CloseTimestampInPast => "Close timestamp must be in the future"@,
        ContractError::MarketAlreadyExists => "Market already exists"@,
        ContractError::MarketMissing => "Market doesn't exist!"@,
        ContractError::BetsClosed => "Cannot place bets after event start time"@,
        ContractError::LiabilityNotZero => "Liability must be zero for Back bets"@,
        ContractError::LiabilityZero => "Liability must be greater than zero for Lay bets"@,
        ContractError::LiabilityMismatch => "Liability parameter doesn't match the required liability for the given total amount"@,
        ContractError::InvalidRole => "Invalid role"@,
        ContractError::InvalidPayment => "Invalid"@,
        ContractError::BetNotWinning => "Bet is not winning state"@,
        ContractError::NoWinningsToDistribute => "No winnings to distribute"@,
        ContractError::ZeroDeposit => "Deposit must be greater than zero"@,
        ContractError::TicketAlreadyPaid => "Ticket was already paid!"@,
        ContractError::NonceTooLarge => "value does not fit in 64 bits"@,
        ContractError::P2PBetExists => "Bet with this ID already exists!"@,
        ContractError::P2PBetNotActive => "Bet does not exist or is not active!"@,
        ContractError::InvalidBettingOption => "Invalid betting option!"@,
        ContractError::NotBetCreator => "Only the bet creator can finalize the bet!"@,
        ContractError::BetAlreadyFinalized => "Bet is already finalized!"@,
        ContractError::NoWinners => "No winners for this bet!"@,
        ContractError::BetslipDoesNotExist => "Betslip does not exist"@,
    }
}

impl ContractError {
    /// The message that the contract reports for this error.
    pub fn message(&self) -> (m: &'static str)
        ensures
            m@ == error_message(*self),
    {
        match self {
            ContractError::StorageDecode => "storage decode error",
            ContractError::NegativeAmount => "cannot subtract because result would be negative",
            ContractError::AmountOverflow => "amount overflow",
            ContractError::CounterOverflow => "arithmetic overflow",
            ContractError::StakeOutOfRange => "Stake amount out of range",
            ContractError::OddsOutOfRange => "Odds out of range",
            ContractError::InvalidMarket => "Invalid market",
            ContractError::MarketNotOpenForBetting => "Market is not open for betting",
            ContractError::MarketNotOpen => "Market not open",
            ContractError::MarketAlreadyClosed => "Market already closed",
            ContractError::MarketNotClosed => "Market is not closed",
            ContractError::InvalidMarketTimestamp => "Invalid market timestamp",
            ContractError::InvalidSelection => "Invalid selection",
            ContractError::SelectionNotFound => "Selection not found",
            ContractError::MarketsAlreadyExist => "Markets already exist for this event",
            ContractError::NoMarketsFoundForEventAndSport => "No markets found for event and sport",
            ContractError::NoMarketsFoundForEvent => "No markets found for event",
            ContractError::NoMarketsFound => "No markets found",
            ContractError::OddsTooLow => "Odds must be greater than 1.00",
            ContractError::InvalidStake => "Invalid stake calculation for Lay bet",
            ContractError::InvalidLiability => "Invalid liability calculation for Lay bet",
            ContractError::InsufficientLayFunds => "Insufficient funds for lay bet liability",
            ContractError::BetDoesNotExist => "Bet does not exist",
            ContractError::InvalidBetId => "Invalid bet ID",
            ContractError::MustSendBetNftToCancel => "Must send the bet NFT to cancel",
            ContractError::MustSendBetNftToClaim => "Must send the bet NFT to claim",
            ContractError::InvalidNftNonce => "Invalid NFT nonce",
            ContractError::MustSendExactlyOneNft => "Must send exactly 1 NFT",
            ContractError::NotBetOwnerCancel => "Only the bet owner can cancel the bet",
            ContractError::NotBetOwnerClaim => "Only the bet owner can claim the win",
            ContractError::BetCannotBeCancelled => "Bet cannot be cancelled in this state",
            ContractError::InvalidBetStatusForCancellation => "Invalid bet status for cancellation",
            ContractError::InsufficientLockedFunds => "Insufficient locked funds to refund",
            ContractError::BetAlreadyClaimed => "Bet already claimed",
            ContractError::BetNotWon => "Bet must be in Won state to claim",
            ContractError::InvalidMatchedAmount => "Invalid matched amount",
            ContractError::NoUnmatchedAmount => "No unmatched amount to add to orderbook",
            ContractError::TokenAlreadyIssued => "Token already issued",
            ContractError::TokenNotIssued => "Token not issued",
            ContractError::DivisionByZero => "division by zero",
            ContractError::EsdtExpected => "ESDT expected",
            ContractError::InvalidTokenId => "Invalid token ID",
            ContractError::InvalidSelectionId => "Invalid selection ID",
            ContractError::IndexOutOfRange => "ManagedVec index out of range",
            ContractError::MarketDoesNotExist => "Market does not exist",
            ContractError::CloseTimestampInPast => "Close timestamp must be in the future",
            ContractError::MarketAlreadyExists => "Market already exists",
            ContractError::MarketMissing => "Market doesn't exist!",
            ContractError::BetsClosed => "Cannot place bets after event start time",
            ContractError::LiabilityNotZero => "Liability must be zero for Back bets",
            ContractError::LiabilityZero => "Liability must be greater than zero for Lay bets",
            ContractError::LiabilityMismatch => "Liability parameter doesn't match the required liability for the given total amount",
            ContractError::InvalidRole => "Invalid role",
            ContractError::InvalidPayment => "Invalid",
            ContractError::BetNotWinning => "Bet is not winning state",
            ContractError::NoWinningsToDistribute => "No winnings to distribute",
            ContractError::ZeroDeposit => "Deposit must be greater than zero",
            ContractError::TicketAlreadyPaid => "Ticket was already paid!",
            ContractError::NonceTooLarge => "value does not fit in 64 bits",
            ContractError::P2PBetExists => "Bet with this ID already exists!",
            ContractError::P2PBetNotActive => "Bet does not exist or is not active!",
            ContractError::InvalidBettingOption => "Invalid betting option!",
            ContractError::NotBetCreator => "Only the bet creator can finalize the bet!",
            ContractError::BetAlreadyFinalized => "Bet is already finalized!",
            ContractError::NoWinners => "No winners for this bet!",
            ContractError::BetslipDoesNotExist => "Betslip does not exist",
        }
    }
}

} // verus!
