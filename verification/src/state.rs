//! The contract's state and what each request makes of it.

use crate::address::Address;
use crate::errors::ContractError;
use crate::settlement::{
    credited, pending_in, recorded, settle_precision, settle_updown, stats_in, Settlement,
};
use crate::types::{
    BetSide, Event, OraclePayload, PrecisionPrediction, Round, RoundMode, UserPosition, UserStats,
    DEFAULT_BET_WINDOW_LEDGERS, DEFAULT_RUN_WINDOW_LEDGERS, INITIAL_MINT, MAX_BET_WINDOW_LEDGERS,
    MAX_ORACLE_AGE_SECONDS, MAX_PREDICTED_PRICE, MAX_RUN_WINDOW_LEDGERS,
};
use vstd::prelude::*;

verus! {

/// Everything that a request can read or change.
#[verifier::ext_equal]
pub struct State {
    /// The number of the current ledger.
    pub sequence: u32,
    /// The current time, in seconds.
    pub timestamp: u64,
    /// Who has authorised the request.
    pub authorized: Seq<Address>,
    pub admin: Option<Address>,
    pub oracle: Option<Address>,
    pub paused: Option<bool>,
    pub bet_window_ledgers: Option<u32>,
    pub run_window_ledgers: Option<u32>,
    pub last_round_id: Option<u64>,
    pub active_round: Option<Round>,
    /// Bets that were stored before rounds had a mode.
    pub positions: Map<Address, UserPosition>,
    pub updown_positions: Map<Address, UserPosition>,
    pub precision_positions: Map<Address, PrecisionPrediction>,
    pub balances: Map<Address, i128>,
    pub pending_winnings: Map<Address, i128>,
    pub user_stats: Map<Address, UserStats>,
    /// What has been announced, in order.
    pub events: Seq<Event>,
}

/// The mode that a number stands for; Up/Down where there is none.
pub open spec fn requested_mode(mode: Option<u32>) -> Option<RoundMode> {
    match mode {
        None => Some(RoundMode::UpDown),
        Some(0) => Some(RoundMode::UpDown),
        Some(1) => Some(RoundMode::Precision),
        Some(_) => None,
    }
}

impl State {
    /// The state of a contract that nothing has been done with yet.
    pub open spec fn fresh(sequence: u32, timestamp: u64) -> State {
        State {
            sequence,
            timestamp,
            authorized: Seq::empty(),
            admin: None,
            oracle: None,
            paused: None,
            bet_window_ledgers: None,
            run_window_ledgers: None,
            last_round_id: None,
            active_round: None,
            positions: Map::empty(),
            updown_positions: Map::empty(),
            precision_positions: Map::empty(),
            balances: Map::empty(),
            pending_winnings: Map::empty(),
            user_stats: Map::empty(),
            events: Seq::empty(),
        }
    }

    /// Every stake is positive and stands under the user who made it, the pools are not
    /// negative, and all tables are finite.
    pub open spec fn wf(self) -> bool {
        &&& self.updown_positions.dom().finite()
        &&& self.precision_positions.dom().finite()
        &&& self.balances.dom().finite()
        &&& self.pending_winnings.dom().finite()
        &&& self.user_stats.dom().finite()
        &&& forall|u: Address| #[trigger]
            self.updown_positions.contains_key(u) ==> self.updown_positions[u].amount > 0
        &&& forall|u: Address| #[trigger]
            self.precision_positions.contains_key(u) ==> self.precision_positions[u].amount > 0
                && self.precision_positions[u].user == u
        &&& self.active_round matches Some(round) ==> round.pool_up >= 0 && round.pool_down >= 0
    }

    /// Whether an address has authorised the request.
    pub open spec fn authorizes(self, who: Address) -> bool {
        self.authorized.contains(who)
    }

    pub open spec fn is_paused(self) -> bool {
        self.paused == Some(true)
    }

    pub open spec fn balance_of(self, user: Address) -> i128 {
        if self.balances.contains_key(user) {
            self.balances[user]
        } else {
            0
        }
    }

    pub open spec fn pending_of(self, user: Address) -> i128 {
        pending_in(self.pending_winnings, user)
    }

    pub open spec fn stats_of(self, user: Address) -> UserStats {
        stats_in(self.user_stats, user)
    }

    /// A user's bet: the one in the current round, or else an old one.
    pub open spec fn position_of(self, user: Address) -> Option<UserPosition> {
        if self.updown_positions.contains_key(user) {
            Some(self.updown_positions[user])
        } else {
            self.positions.get(user)
        }
    }

    pub open spec fn bet_window(self) -> u32 {
        match self.bet_window_ledgers {
            Some(ledgers) => ledgers,
            None => DEFAULT_BET_WINDOW_LEDGERS,
        }
    }

    pub open spec fn run_window(self) -> u32 {
        match self.run_window_ledgers {
            Some(ledgers) => ledgers,
            None => DEFAULT_RUN_WINDOW_LEDGERS,
        }
    }

    pub open spec fn last_id(self) -> u64 {
        match self.last_round_id {
            Some(id) => id,
            None => 0,
        }
    }

    /// The state after one more event.
    pub open spec fn announcing(self, event: Event) -> State {
        State { events: self.events.push(event), ..self }
    }

    /// Sets the administrator and the oracle, once.
    pub open spec fn initialize(self, admin: Address, oracle: Address) -> Result<
        State,
        ContractError,
    > {
        if admin == oracle {
            Err(ContractError::AdminIsOracle)
        } else if self.admin is Some {
            Err(ContractError::AlreadyInitialized)
        } else {
            Ok(
                State {
                    admin: Some(admin),
                    oracle: Some(oracle),
                    paused: Some(false),
                    bet_window_ledgers: Some(DEFAULT_BET_WINDOW_LEDGERS),
                    run_window_ledgers: Some(DEFAULT_RUN_WINDOW_LEDGERS),
                    ..self
                },
            )
        }
    }

    /// Who has to authorise what only the administrator may do.
    pub open spec fn admin_authority(self) -> Result<Address, ContractError> {
        match self.admin {
            Some(admin) => Ok(admin),
            None => Err(ContractError::AdminNotSet),
        }
    }

    /// Pauses or resumes the contract.
    pub open spec fn set_paused(self, paused: bool) -> Result<State, ContractError> {
        match self.admin_authority() {
            Err(e) => Err(e),
            Ok(_) => Ok(State { paused: Some(paused), ..self }),
        }
    }

    /// Who has to authorise the creation of a round.
    pub open spec fn create_round_authority(self, start_price: u128, mode: Option<u32>) -> Result<
        Address,
        ContractError,
    > {
        if start_price == 0 {
            Err(ContractError::InvalidPrice)
        } else if requested_mode(mode) is None {
            Err(ContractError::InvalidMode)
        } else {
            self.admin_authority()
        }
    }

    /// The next round, where it can be numbered and ends in a ledger that can be numbered.
    pub open spec fn next_round(self, start_price: u128, mode: RoundMode) -> Option<Round> {
        if self.last_id() == u64::MAX || self.sequence + self.bet_window() > u32::MAX
            || self.sequence + self.run_window() > u32::MAX {
            None
        } else {
            Some(
                Round {
                    round_id: (self.last_id() + 1) as u64,
                    price_start: start_price,
                    start_ledger: self.sequence,
                    bet_end_ledger: (self.sequence + self.bet_window()) as u32,
                    end_ledger: (self.sequence + self.run_window()) as u32,
                    pool_up: 0,
                    pool_down: 0,
                    mode,
                },
            )
        }
    }

    /// Opens a round.
    pub open spec fn create_round(self, start_price: u128, mode: Option<u32>) -> Result<
        State,
        ContractError,
    > {
        match self.create_round_authority(start_price, mode) {
            Err(e) => Err(e),
            Ok(_) => if self.is_paused() {
                Err(ContractError::ContractPaused)
            } else if self.active_round is Some {
                Err(ContractError::RoundAlreadyActive)
            } else {
                match self.next_round(start_price, requested_mode(mode).unwrap()) {
                    None => Err(ContractError::Overflow),
                    Some(round) => Ok(
                        State {
                            last_round_id: Some(round.round_id),
                            active_round: Some(round),
                            ..self
                        }.announcing(
                            Event::RoundCreated {
                                round_id: round.round_id,
                                start_price,
                                start_ledger: round.start_ledger,
                                bet_end_ledger: round.bet_end_ledger,
                                end_ledger: round.end_ledger,
                                mode: round.mode.spec_code(),
                            },
                        ),
                    ),
                }
            },
        }
    }

    /// Sets how long betting is open and how long a round lasts.
    pub open spec fn set_windows(self, bet_ledgers: u32, run_ledgers: u32) -> Result<
        State,
        ContractError,
    > {
        match self.admin_authority() {
            Err(e) => Err(e),
            Ok(_) => if self.is_paused() {
                Err(ContractError::ContractPaused)
            } else if bet_ledgers == 0 || run_ledgers == 0 {
                Err(ContractError::InvalidDuration)
            } else if bet_ledgers > MAX_BET_WINDOW_LEDGERS || run_ledgers
                > MAX_RUN_WINDOW_LEDGERS {
                Err(ContractError::WindowOutOfRange)
            } else if bet_ledgers >= run_ledgers {
                Err(ContractError::InvalidDuration)
            } else {
                Ok(
                    State {
                        bet_window_ledgers: Some(bet_ledgers),
                        run_window_ledgers: Some(run_ledgers),
                        ..self
                    }.announcing(Event::WindowsUpdated { bet_ledgers, run_ledgers }),
                )
            },
        }
    }

    /// The round that takes a stake in a mode, or why there is none.
    pub open spec fn open_round(self, mode: RoundMode) -> Result<Round, ContractError> {
        match self.active_round {
            None => Err(ContractError::NoActiveRound),
            Some(round) => if round.mode != mode {
                Err(ContractError::WrongModeForPrediction)
            } else if self.sequence >= round.bet_end_ledger {
                Err(ContractError::RoundEnded)
            } else {
                Ok(round)
            },
        }
    }

    /// The state after an amount has left a user's balance.
    pub open spec fn debited(self, user: Address, amount: i128) -> State {
        State {
            balances: self.balances.insert(user, (self.balance_of(user) - amount) as i128),
            ..self
        }
    }

    /// Bets that the price goes up or down.
    pub open spec fn place_bet(self, user: Address, amount: i128, side: BetSide) -> Result<
        State,
        ContractError,
    > {
        if self.is_paused() {
            Err(ContractError::ContractPaused)
        } else if amount <= 0 {
            Err(ContractError::InvalidBetAmount)
        } else {
            match self.open_round(RoundMode::UpDown) {
                Err(e) => Err(e),
                Ok(round) => if self.balance_of(user) < amount {
                    Err(ContractError::InsufficientBalance)
                } else if self.updown_positions.contains_key(user) {
                    Err(ContractError::AlreadyBet)
                } else if round.pool(side) + amount > i128::MAX {
                    Err(ContractError::Overflow)
                } else {
                    Ok(
                        State {
                            updown_positions: self.updown_positions.insert(
                                user,
                                UserPosition { amount, side },
                            ),
                            active_round: Some(round.with_bet(amount, side)),
                            ..self.debited(user, amount)
                        }.announcing(
                            Event::BetPlaced {
                                user,
                                round_id: round.round_id,
                                amount,
                                side: side.spec_code(),
                            },
                        ),
                    )
                },
            }
        }
    }

    /// Stakes an amount on a price.
    pub open spec fn place_precision_prediction(
        self,
        user: Address,
        amount: i128,
        predicted_price: u128,
    ) -> Result<State, ContractError> {
        if self.is_paused() {
            Err(ContractError::ContractPaused)
        } else if amount <= 0 {
            Err(ContractError::InvalidBetAmount)
        } else if predicted_price > MAX_PREDICTED_PRICE {
            Err(ContractError::InvalidPriceScale)
        } else {
            match self.open_round(RoundMode::Precision) {
                Err(e) => Err(e),
                Ok(round) => if self.balance_of(user) < amount {
                    Err(ContractError::InsufficientBalance)
                } else if self.precision_positions.contains_key(user) {
                    Err(ContractError::AlreadyBet)
                } else {
                    Ok(
                        State {
                            precision_positions: self.precision_positions.insert(
                                user,
                                PrecisionPrediction { user, predicted_price, amount },
                            ),
                            ..self.debited(user, amount)
                        }.announcing(
                            Event::PricePredicted {
                                user,
                                round_id: round.round_id,
                                predicted_price,
                                amount,
                            },
                        ),
                    )
                },
            }
        }
    }

    /// The claims and the records after a settlement.
    pub open spec fn settled(self, settlement: Option<Settlement>) -> Result<State, ContractError> {
        match settlement {
            Some(settlement) => if settlement.applicable(self.pending_winnings, self.user_stats) {
                Ok(
                    State {
                        pending_winnings: credited(self.pending_winnings, settlement.payouts),
                        user_stats: recorded(self.user_stats, settlement.won, settlement.lost),
                        ..self
                    },
                )
            } else {
                Err(ContractError::Overflow)
            },
            None => Err(ContractError::Overflow),
        }
    }

    /// The outcome of a round at a price.
    pub open spec fn settlement(self, round: Round, final_price: u128) -> Option<Settlement> {
        match round.mode {
            RoundMode::UpDown => settle_updown(self.updown_positions, round, final_price),
            RoundMode::Precision => settle_precision(self.precision_positions, final_price),
        }
    }

    /// The state without a round and without stakes.
    pub open spec fn round_closed(self) -> State {
        State {
            active_round: None,
            positions: Map::empty(),
            updown_positions: Map::empty(),
            precision_positions: Map::empty(),
            ..self
        }
    }

    /// Who has to authorise the resolution of a round.
    pub open spec fn resolve_authority(self, payload: OraclePayload) -> Result<
        Address,
        ContractError,
    > {
        if payload.price == 0 {
            Err(ContractError::InvalidPrice)
        } else {
            match self.oracle {
                Some(oracle) => Ok(oracle),
                None => Err(ContractError::OracleNotSet),
            }
        }
    }

    /// The round that the oracle's data is for, where the data is not from the future.
    pub open spec fn addressed_round(self, payload: OraclePayload) -> Result<Round, ContractError> {
        match self.resolve_authority(payload) {
            Err(e) => Err(e),
            Ok(_) => if self.is_paused() {
                Err(ContractError::ContractPaused)
            } else {
                match self.active_round {
                    None => Err(ContractError::NoActiveRound),
                    Some(round) => if payload.round_id != round.start_ledger {
                        Err(ContractError::InvalidOracleRound)
                    } else if payload.timestamp > self.timestamp {
                        Err(ContractError::FutureOracleData)
                    } else {
                        Ok(round)
                    },
                }
            },
        }
    }

    /// Ends the round with the oracle's data.
    pub open spec fn resolve_round(self, payload: OraclePayload) -> Result<State, ContractError> {
        match self.addressed_round(payload) {
            Err(e) => Err(e),
            Ok(round) => if self.timestamp > payload.timestamp + MAX_ORACLE_AGE_SECONDS {
                Err(ContractError::StaleOracleData)
            } else if self.sequence < round.end_ledger {
                Err(ContractError::RoundNotEnded)
            } else {
                match self.settled(self.settlement(round, payload.price)) {
                    Err(e) => Err(e),
                    Ok(next) => Ok(
                        next.round_closed().announcing(
                            Event::RoundResolved {
                                round_id: round.round_id,
                                final_price: payload.price,
                                mode: round.mode.spec_code(),
                            },
                        ),
                    ),
                }
            },
        }
    }

    /// Moves what a user has won to the user's balance.
    pub open spec fn claim_winnings(self, user: Address) -> Result<State, ContractError> {
        let pending = self.pending_of(user);
        let balance = self.balance_of(user);
        if self.is_paused() {
            Err(ContractError::ContractPaused)
        } else if pending == 0 {
            Ok(self)
        } else if !(i128::MIN <= balance + pending <= i128::MAX) {
            Err(ContractError::Overflow)
        } else {
            Ok(
                State {
                    balances: self.balances.insert(user, (balance + pending) as i128),
                    pending_winnings: self.pending_winnings.remove(user),
                    ..self
                }.announcing(Event::WinningsClaimed { user, amount: pending }),
            )
        }
    }

    /// Gives a new user the first tokens.
    pub open spec fn mint_initial(self, user: Address) -> State {
        if self.balances.contains_key(user) {
            self
        } else {
            State { balances: self.balances.insert(user, INITIAL_MINT), ..self }.announcing(
                Event::InitialMint { user, amount: INITIAL_MINT },
            )
        }
    }
}

} // verus!
