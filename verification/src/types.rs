//! Rounds, stakes, statistics and events.

use crate::address::Address;
use vstd::prelude::*;

verus! {

/// Length of the betting window, in ledgers, until the administrator sets another.
pub const DEFAULT_BET_WINDOW_LEDGERS: u32 = 6;

/// Length of a round, in ledgers, until the administrator sets another.
pub const DEFAULT_RUN_WINDOW_LEDGERS: u32 = 12;

/// The longest betting window, in ledgers.
pub const MAX_BET_WINDOW_LEDGERS: u32 = 1_440;

/// The longest round, in ledgers.
pub const MAX_RUN_WINDOW_LEDGERS: u32 = 2_880;

/// The largest price that can be predicted: 9999.9999 with four decimals.
pub const MAX_PREDICTED_PRICE: u128 = 99_999_999;

/// How old the oracle's data may be, in seconds.
pub const MAX_ORACLE_AGE_SECONDS: u64 = 300;

/// What a new user is given: 1000 tokens with seven decimals.
pub const INITIAL_MINT: i128 = 10_000_000_000;

/// The direction that a user bets on.
#[derive(Clone, Copy, Debug, PartialEq, Eq, Structural)]
pub enum BetSide {
    Up,
    Down,
}

impl BetSide {
    /// The number that stands for the side: `0` for up, `1` for down.
    pub open spec fn spec_code(self) -> u32 {
        match self {
            BetSide::Up => 0,
            BetSide::Down => 1,
        }
    }

    /// The number that stands for the side: `0` for up, `1` for down.
    pub fn code(self) -> (c: u32)
        ensures
            c == self.spec_code(),
    {
        match self {
            BetSide::Up => 0,
            BetSide::Down => 1,
        }
    }
}

/// The two kinds of round.
#[derive(Clone, Copy, Debug, PartialEq, Eq, Structural)]
pub enum RoundMode {
    /// Users bet that the price goes up or down.
    UpDown,
    /// Users predict the price; the closest prediction wins.
    Precision,
}

impl RoundMode {
    /// The number that stands for the mode: `0` for Up/Down, `1` for Precision.
    pub open spec fn spec_code(self) -> u32 {
        match self {
            RoundMode::UpDown => 0,
            RoundMode::Precision => 1,
        }
    }

    /// The number that stands for the mode: `0` for Up/Down, `1` for Precision.
    pub fn code(self) -> (c: u32)
        ensures
            c == self.spec_code(),
    {
        match self {
            RoundMode::UpDown => 0,
            RoundMode::Precision => 1,
        }
    }
}

/// A prediction round.
#[derive(Clone, Copy, Debug, PartialEq, Eq, Structural)]
pub struct Round {
    pub round_id: u64,
    /// The price at the start, with four decimals.
    pub price_start: u128,
    pub start_ledger: u32,
    /// The first ledger in which no bet is taken any more.
    pub bet_end_ledger: u32,
    /// The first ledger in which the round can be resolved.
    pub end_ledger: u32,
    /// What was bet on the price going up.
    pub pool_up: i128,
    /// What was bet on the price going down.
    pub pool_down: i128,
    pub mode: RoundMode,
}

impl Round {
    /// What was bet on a side.
    pub open spec fn pool(self, side: BetSide) -> i128 {
        match side {
            BetSide::Up => self.pool_up,
            BetSide::Down => self.pool_down,
        }
    }

    /// The round with one more bet in the pool of its side.
    pub open spec fn with_bet(self, amount: i128, side: BetSide) -> Round {
        match side {
            BetSide::Up => Round { pool_up: (self.pool_up + amount) as i128, ..self },
            BetSide::Down => Round { pool_down: (self.pool_down + amount) as i128, ..self },
        }
    }
}

/// A bet in an Up/Down round.
#[derive(Clone, Copy, Debug, PartialEq, Eq, Structural)]
pub struct UserPosition {
    pub amount: i128,
    pub side: BetSide,
}

/// A prediction in a Precision round.
#[derive(Clone, Copy, Debug, PartialEq, Eq, Structural)]
pub struct PrecisionPrediction {
    pub user: Address,
    /// The price with four decimals: 0.2297 is 2297.
    pub predicted_price: u128,
    pub amount: i128,
}

/// A user's record.
#[derive(Clone, Copy, Debug, PartialEq, Eq, Structural)]
pub struct UserStats {
    pub total_wins: u32,
    pub total_losses: u32,
    /// Wins since the last loss.
    pub current_streak: u32,
    /// The longest streak so far.
    pub best_streak: u32,
}

impl UserStats {
    /// The record of a user who has not played yet.
    pub open spec fn spec_new() -> UserStats {
        UserStats { total_wins: 0, total_losses: 0, current_streak: 0, best_streak: 0 }
    }

    /// The record of a user who has not played yet.
    pub fn new() -> (stats: UserStats)
        ensures
            stats == UserStats::spec_new(),
    {
        UserStats { total_wins: 0, total_losses: 0, current_streak: 0, best_streak: 0 }
    }

    /// Whether one more win can be counted.
    pub open spec fn can_win(self) -> bool {
        self.total_wins < u32::MAX && self.current_streak < u32::MAX
    }

    /// The record after one more win.
    pub open spec fn after_win(self) -> UserStats {
        let streak = (self.current_streak + 1) as u32;
        UserStats {
            total_wins: (self.total_wins + 1) as u32,
            current_streak: streak,
            best_streak: if streak > self.best_streak {
                streak
            } else {
                self.best_streak
            },
            ..self
        }
    }

    /// Whether one more loss can be counted.
    pub open spec fn can_lose(self) -> bool {
        self.total_losses < u32::MAX
    }

    /// The record after one more loss.
    pub open spec fn after_loss(self) -> UserStats {
        UserStats { total_losses: (self.total_losses + 1) as u32, current_streak: 0, ..self }
    }
}

/// The oracle's answer for a round.
#[derive(Clone, Copy, Debug, PartialEq, Eq, Structural)]
pub struct OraclePayload {
    pub price: u128,
    /// When the price was observed, in seconds.
    pub timestamp: u64,
    /// The ledger in which the round started.
    pub round_id: u32,
}

/// What an operation announces.
#[derive(Clone, Copy, Debug, PartialEq, Eq, Structural)]
pub enum Event {
    RoundCreated {
        round_id: u64,
        start_price: u128,
        start_ledger: u32,
        bet_end_ledger: u32,
        end_ledger: u32,
        mode: u32,
    },
    WindowsUpdated { bet_ledgers: u32, run_ledgers: u32 },
    BetPlaced { user: Address, round_id: u64, amount: i128, side: u32 },
    PricePredicted { user: Address, round_id: u64, predicted_price: u128, amount: i128 },
    RoundResolved { round_id: u64, final_price: u128, mode: u32 },
    WinningsClaimed { user: Address, amount: i128 },
    InitialMint { user: Address, amount: i128 },
}

} // verus!
