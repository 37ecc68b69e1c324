//! The reasons for which a request is refused.

use vstd::prelude::*;

verus! {

/// Why an operation was refused.
#[derive(Clone, Copy, Debug, PartialEq, Eq, Structural)]
pub enum ContractError {
    /// The contract has an administrator already.
    AlreadyInitialized,
    /// No administrator is set.
    AdminNotSet,
    /// No oracle is set.
    OracleNotSet,
    /// The administrator and the oracle must be two different addresses.
    AdminIsOracle,
    /// The contract is paused.
    ContractPaused,
    /// A price of zero.
    InvalidPrice,
    /// A round mode other than `0` (Up/Down) and `1` (Precision).
    InvalidMode,
    /// A window that is empty, or a betting window that does not close before the round ends.
    InvalidDuration,
    /// A window longer than the longest one allowed.
    WindowOutOfRange,
    /// The last round has not been resolved yet.
    RoundAlreadyActive,
    /// There is no round.
    NoActiveRound,
    /// The betting window has closed.
    RoundEnded,
    /// The round has not run its full length yet.
    RoundNotEnded,
    /// The round is of the other mode.
    WrongModeForPrediction,
    /// An amount that is not positive.
    InvalidBetAmount,
    /// A predicted price above the largest one allowed.
    InvalidPriceScale,
    /// The balance does not cover the amount.
    InsufficientBalance,
    /// The user takes part in this round already.
    AlreadyBet,
    /// The oracle's data is for another round.
    InvalidOracleRound,
    /// The oracle's data is dated after the current time.
    FutureOracleData,
    /// The oracle's data is too old.
    StaleOracleData,
    /// A number does not fit its type.
    Overflow,
}

} // verus!
