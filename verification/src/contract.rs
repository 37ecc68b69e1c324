//! The market's operations.

use crate::address::Address;
use crate::errors::ContractError;
use crate::ledger::Ledger;
use crate::stakes::{lemma_lists, lists, Positions, Predictions};
use crate::state::State;
use crate::types::{
    BetSide, Event, OraclePayload, PrecisionPrediction, Round, RoundMode, UserPosition, UserStats,
    DEFAULT_BET_WINDOW_LEDGERS, DEFAULT_RUN_WINDOW_LEDGERS, INITIAL_MINT, MAX_BET_WINDOW_LEDGERS,
    MAX_ORACLE_AGE_SECONDS, MAX_PREDICTED_PRICE, MAX_RUN_WINDOW_LEDGERS,
};
use vstd::prelude::*;

verus! {

/// The prediction market.
pub struct VirtualTokenContract;

impl VirtualTokenContract {
    /// Sets the administrator and the oracle, once.
    pub fn initialize(ledger: &mut Ledger, admin: Address, oracle: Address) -> (result: Result<
        (),
        ContractError,
    >)
        requires
            old(ledger).wf(),
            old(ledger)@.authorizes(admin),
        ensures
            final(ledger).wf(),
            match old(ledger)@.initialize(admin, oracle) {
                Ok(next) => result == Ok::<(), ContractError>(()) && final(ledger)@ == next,
                Err(e) => result == Err::<(), ContractError>(e) && final(ledger)@ == old(ledger)@,
            },
    {
        if admin == oracle {
            return Err(ContractError::AdminIsOracle);
        }
        if ledger.storage.admin.is_some() {
            return Err(ContractError::AlreadyInitialized);
        }
        ledger.storage.admin = Some(admin);
        ledger.storage.oracle = Some(oracle);
        ledger.storage.paused = Some(false);
        ledger.storage.bet_window_ledgers = Some(DEFAULT_BET_WINDOW_LEDGERS);
        ledger.storage.run_window_ledgers = Some(DEFAULT_RUN_WINDOW_LEDGERS);
        Ok(())
    }

    /// Whether the contract is paused.
    pub fn is_paused(ledger: &Ledger) -> (paused: bool)
        ensures
            paused == ledger@.is_paused(),
    {
        match ledger.storage.paused {
            Some(paused) => paused,
            None => false,
        }
    }

    /// Who has to authorise what only the administrator may do.
    pub fn admin_authority(ledger: &Ledger) -> (result: Result<Address, ContractError>)
        ensures
            result == ledger@.admin_authority(),
    {
        match ledger.storage.admin {
            Some(admin) => Ok(admin),
            None => Err(ContractError::AdminNotSet),
        }
    }

    /// Pauses the contract, for the administrator only.
    pub fn pause_contract(ledger: &mut Ledger) -> (result: Result<(), ContractError>)
        requires
            old(ledger).wf(),
            old(ledger)@.admin_authority() matches Ok(admin) ==> old(ledger)@.authorizes(admin),
        ensures
            final(ledger).wf(),
            match old(ledger)@.set_paused(true) {
                Ok(next) => result == Ok::<(), ContractError>(()) && final(ledger)@ == next,
                Err(e) => result == Err::<(), ContractError>(e) && final(ledger)@ == old(ledger)@,
            },
    {
        match Self::admin_authority(ledger) {
            Ok(_) => {},
            Err(e) => return Err(e),
        }
        ledger.storage.paused = Some(true);
        Ok(())
    }

    /// Resumes the contract, for the administrator only.
    pub fn unpause_contract(ledger: &mut Ledger) -> (result: Result<(), ContractError>)
        requires
            old(ledger).wf(),
            old(ledger)@.admin_authority() matches Ok(admin) ==> old(ledger)@.authorizes(admin),
        ensures
            final(ledger).wf(),
            match old(ledger)@.set_paused(false) {
                Ok(next) => result == Ok::<(), ContractError>(()) && final(ledger)@ == next,
                Err(e) => result == Err::<(), ContractError>(e) && final(ledger)@ == old(ledger)@,
            },
    {
        match Self::admin_authority(ledger) {
            Ok(_) => {},
            Err(e) => return Err(e),
        }
        ledger.storage.paused = Some(false);
        Ok(())
    }

    /// Refuses a request while the contract is paused.
    fn _ensure_not_paused(ledger: &Ledger) -> (result: Result<(), ContractError>)
        ensures
            result == if ledger@.is_paused() {
                Err::<(), ContractError>(ContractError::ContractPaused)
            } else {
                Ok::<(), ContractError>(())
            },
    {
        if Self::is_paused(ledger) {
            return Err(ContractError::ContractPaused);
        }
        Ok(())
    }

    /// Who has to authorise the creation of a round.
    pub fn create_round_authority(ledger: &Ledger, start_price: u128, mode: Option<u32>) -> (result:
        Result<Address, ContractError>)
        ensures
            result == ledger@.create_round_authority(start_price, mode),
    {
        if start_price == 0 {
            return Err(ContractError::InvalidPrice);
        }
        let mode_value: u32 = match mode {
            Some(value) => value,
            None => 0,
        };
        if mode_value > 1 {
            return Err(ContractError::InvalidMode);
        }
        Self::admin_authority(ledger)
    }

    /// Opens a round, for the administrator only.
    ///
    /// The mode is `0` for Up/Down, which is also the default, or `1` for Precision.
    pub fn create_round(ledger: &mut Ledger, start_price: u128, mode: Option<u32>) -> (result:
        Result<(), ContractError>)
        requires
            old(ledger).wf(),
            old(ledger)@.create_round_authority(start_price, mode) matches Ok(admin) ==> old(
                ledger,
            )@.authorizes(admin),
        ensures
            final(ledger).wf(),
            match old(ledger)@.create_round(start_price, mode) {
                Ok(next) => result == Ok::<(), ContractError>(()) && final(ledger)@ == next,
                Err(e) => result == Err::<(), ContractError>(e) && final(ledger)@ == old(ledger)@,
            },
    {
        match Self::create_round_authority(ledger, start_price, mode) {
            Ok(_) => {},
            Err(e) => return Err(e),
        }
        let mode_value: u32 = match mode {
            Some(value) => value,
            None => 0,
        };
        let round_mode = if mode_value == 0 {
            RoundMode::UpDown
        } else {
            RoundMode::Precision
        };
        match Self::_ensure_not_paused(ledger) {
            Ok(()) => {},
            Err(e) => return Err(e),
        }
        if ledger.storage.active_round.is_some() {
            return Err(ContractError::RoundAlreadyActive);
        }
        let bet_ledgers: u32 = match ledger.storage.bet_window_ledgers {
            Some(ledgers) => ledgers,
            None => DEFAULT_BET_WINDOW_LEDGERS,
        };
        let run_ledgers: u32 = match ledger.storage.run_window_ledgers {
            Some(ledgers) => ledgers,
            None => DEFAULT_RUN_WINDOW_LEDGERS,
        };
        let round_id: u64 = match Self::get_last_round_id(ledger).checked_add(1) {
            Some(id) => id,
            None => return Err(ContractError::Overflow),
        };
        let start_ledger: u32 = ledger.sequence;
        let bet_end_ledger: u32 = match start_ledger.checked_add(bet_ledgers) {
            Some(end) => end,
            None => return Err(ContractError::Overflow),
        };
        let end_ledger: u32 = match start_ledger.checked_add(run_ledgers) {
            Some(end) => end,
            None => return Err(ContractError::Overflow),
        };
        let round = Round {
            round_id,
            price_start: start_price,
            start_ledger,
            bet_end_ledger,
            end_ledger,
            pool_up: 0,
            pool_down: 0,
            mode: round_mode,
        };
        ledger.storage.last_round_id = Some(round_id);
        ledger.storage.active_round = Some(round);
        ledger.events.push(
            Event::RoundCreated {
                round_id,
                start_price,
                start_ledger,
                bet_end_ledger,
                end_ledger,
                mode: mode_value,
            },
        );
        Ok(())
    }

    /// The round that is running, if any.
    pub fn get_active_round(ledger: &Ledger) -> (round: Option<Round>)
        ensures
            round == ledger@.active_round,
    {
        ledger.storage.active_round
    }

    /// The number of the last round that was opened; `0` where there was none.
    pub fn get_last_round_id(ledger: &Ledger) -> (id: u64)
        ensures
            id == ledger@.last_id(),
    {
        match ledger.storage.last_round_id {
            Some(id) => id,
            None => 0,
        }
    }

    /// The administrator.
    pub fn get_admin(ledger: &Ledger) -> (admin: Option<Address>)
        ensures
            admin == ledger@.admin,
    {
        ledger.storage.admin
    }

    /// The oracle.
    pub fn get_oracle(ledger: &Ledger) -> (oracle: Option<Address>)
        ensures
            oracle == ledger@.oracle,
    {
        ledger.storage.oracle
    }

    /// Sets how many ledgers betting is open and how many ledgers a round lasts, for the
    /// administrator only.
    pub fn set_windows(ledger: &mut Ledger, bet_ledgers: u32, run_ledgers: u32) -> (result: Result<
        (),
        ContractError,
    >)
        requires
            old(ledger).wf(),
            old(ledger)@.admin_authority() matches Ok(admin) ==> old(ledger)@.authorizes(admin),
        ensures
            final(ledger).wf(),
            match old(ledger)@.set_windows(bet_ledgers, run_ledgers) {
                Ok(next) => result == Ok::<(), ContractError>(()) && final(ledger)@ == next,
                Err(e) => result == Err::<(), ContractError>(e) && final(ledger)@ == old(ledger)@,
            },
    {
        match Self::admin_authority(ledger) {
            Ok(_) => {},
            Err(e) => return Err(e),
        }
        match Self::_ensure_not_paused(ledger) {
            Ok(()) => {},
            Err(e) => return Err(e),
        }
        if bet_ledgers == 0 || run_ledgers == 0 {
            return Err(ContractError::InvalidDuration);
        }
        // Lengths that are out of range are reported before the two are held against each other.
        if bet_ledgers > MAX_BET_WINDOW_LEDGERS || run_ledgers > MAX_RUN_WINDOW_LEDGERS {
            return Err(ContractError::WindowOutOfRange);
        }
        if bet_ledgers >= run_ledgers {
            return Err(ContractError::InvalidDuration);
        }
        ledger.storage.bet_window_ledgers = Some(bet_ledgers);
        ledger.storage.run_window_ledgers = Some(run_ledgers);
        ledger.events.push(Event::WindowsUpdated { bet_ledgers, run_ledgers });
        Ok(())
    }

    /// A user's record of wins, losses and streaks.
    pub fn get_user_stats(ledger: &Ledger, user: Address) -> (stats: UserStats)
        requires
            ledger.storage.wf(),
        ensures
            stats == ledger@.stats_of(user),
    {
        match ledger.storage.user_stats.get(&user) {
            Some(stats) => stats,
            None => UserStats::new(),
        }
    }

    /// What a user has won and not claimed yet.
    pub fn get_pending_winnings(ledger: &Ledger, user: Address) -> (pending: i128)
        requires
            ledger.storage.wf(),
        ensures
            pending == ledger@.pending_of(user),
    {
        match ledger.storage.pending_winnings.get(&user) {
            Some(pending) => pending,
            None => 0,
        }
    }

    /// Bets an amount on the price going up or down, in an Up/Down round.
    pub fn place_bet(ledger: &mut Ledger, user: Address, amount: i128, side: BetSide) -> (result:
        Result<(), ContractError>)
        requires
            old(ledger).wf(),
            old(ledger)@.authorizes(user),
            old(ledger)@.place_bet(user, amount, side) is Ok ==> old(
                ledger,
            )@.updown_positions.len() < u32::MAX,
        ensures
            final(ledger).wf(),
            match old(ledger)@.place_bet(user, amount, side) {
                Ok(next) => result == Ok::<(), ContractError>(()) && final(ledger)@ == next,
                Err(e) => result == Err::<(), ContractError>(e) && final(ledger)@ == old(ledger)@,
            },
    {
        match Self::_ensure_not_paused(ledger) {
            Ok(()) => {},
            Err(e) => return Err(e),
        }
        if amount <= 0 {
            return Err(ContractError::InvalidBetAmount);
        }
        let mut round = match ledger.storage.active_round {
            Some(round) => round,
            None => return Err(ContractError::NoActiveRound),
        };
        if round.mode != RoundMode::UpDown {
            return Err(ContractError::WrongModeForPrediction);
        }
        if ledger.sequence >= round.bet_end_ledger {
            return Err(ContractError::RoundEnded);
        }
        let user_balance: i128 = Self::balance(ledger, user);
        if user_balance < amount {
            return Err(ContractError::InsufficientBalance);
        }
        if ledger.storage.updown_positions.contains_key(&user) {
            return Err(ContractError::AlreadyBet);
        }
        let round_id: u64 = round.round_id;
        match side {
            BetSide::Up => match round.pool_up.checked_add(amount) {
                Some(pool) => round.pool_up = pool,
                None => return Err(ContractError::Overflow),
            },
            BetSide::Down => match round.pool_down.checked_add(amount) {
                Some(pool) => round.pool_down = pool,
                None => return Err(ContractError::Overflow),
            },
        }
        Self::_set_balance(ledger, user, user_balance - amount);
        ledger.storage.updown_positions.set(&user, UserPosition { amount, side });
        ledger.storage.active_round = Some(round);
        ledger.events.push(Event::BetPlaced { user, round_id, amount, side: side.code() });
        Ok(())
    }

    /// Stakes an amount on a price, in a Precision round.
    ///
    /// The price has four decimals: 0.2297 is 2297.
    pub fn place_precision_prediction(
        ledger: &mut Ledger,
        user: Address,
        amount: i128,
        predicted_price: u128,
    ) -> (result: Result<(), ContractError>)
        requires
            old(ledger).wf(),
            old(ledger)@.authorizes(user),
            old(ledger)@.place_precision_prediction(user, amount, predicted_price) is Ok ==> old(
                ledger,
            )@.precision_positions.len() < u32::MAX,
        ensures
            final(ledger).wf(),
            match old(ledger)@.place_precision_prediction(user, amount, predicted_price) {
                Ok(next) => result == Ok::<(), ContractError>(()) && final(ledger)@ == next,
                Err(e) => result == Err::<(), ContractError>(e) && final(ledger)@ == old(ledger)@,
            },
    {
        match Self::_ensure_not_paused(ledger) {
            Ok(()) => {},
            Err(e) => return Err(e),
        }
        if amount <= 0 {
            return Err(ContractError::InvalidBetAmount);
        }
        if predicted_price > MAX_PREDICTED_PRICE {
            return Err(ContractError::InvalidPriceScale);
        }
        let round = match ledger.storage.active_round {
            Some(round) => round,
            None => return Err(ContractError::NoActiveRound),
        };
        if round.mode != RoundMode::Precision {
            return Err(ContractError::WrongModeForPrediction);
        }
        if ledger.sequence >= round.bet_end_ledger {
            return Err(ContractError::RoundEnded);
        }
        let user_balance: i128 = Self::balance(ledger, user);
        if user_balance < amount {
            return Err(ContractError::InsufficientBalance);
        }
        if ledger.storage.precision_positions.contains_key(&user) {
            return Err(ContractError::AlreadyBet);
        }
        Self::_set_balance(ledger, user, user_balance - amount);
        ledger.storage.precision_positions.set(
            PrecisionPrediction { user, predicted_price, amount },
        );
        ledger.events.push(
            Event::PricePredicted { user, round_id: round.round_id, predicted_price, amount },
        );
        Ok(())
    }

    /// Stakes an amount on a price, in a Precision round: another name for
    /// [`VirtualTokenContract::place_precision_prediction`], with the price before the amount.
    pub fn predict_price(
        ledger: &mut Ledger,
        user: Address,
        guessed_price: u128,
        amount: i128,
    ) -> (result: Result<(), ContractError>)
        requires
            old(ledger).wf(),
            old(ledger)@.authorizes(user),
            old(ledger)@.place_precision_prediction(user, amount, guessed_price) is Ok ==> old(
                ledger,
            )@.precision_positions.len() < u32::MAX,
        ensures
            final(ledger).wf(),
            match old(ledger)@.place_precision_prediction(user, amount, guessed_price) {
                Ok(next) => result == Ok::<(), ContractError>(()) && final(ledger)@ == next,
                Err(e) => result == Err::<(), ContractError>(e) && final(ledger)@ == old(ledger)@,
            },
    {
        Self::place_precision_prediction(ledger, user, amount, guessed_price)
    }

    /// A user's bet in the current Up/Down round, or else one from before rounds had a mode.
    pub fn get_user_position(ledger: &Ledger, user: Address) -> (position: Option<UserPosition>)
        requires
            ledger.storage.wf(),
        ensures
            position == ledger@.position_of(user),
    {
        if let Some(position) = ledger.storage.updown_positions.get(&user) {
            return Some(position);
        }
        ledger.storage.positions.get(&user)
    }

    /// A user's prediction in the current Precision round.
    pub fn get_user_precision_prediction(ledger: &Ledger, user: Address) -> (prediction: Option<
        PrecisionPrediction,
    >)
        requires
            ledger.storage.wf(),
        ensures
            prediction == ledger@.precision_positions.get(user),
    {
        ledger.storage.precision_positions.get(&user)
    }

    /// All predictions of the current Precision round, in ascending order of their users.
    pub fn get_precision_predictions(ledger: &Ledger) -> (predictions: Vec<PrecisionPrediction>)
        requires
            ledger.storage.wf(),
        ensures
            lists(
                predictions@.map_values(|p: PrecisionPrediction| p.user),
                ledger@.precision_positions.dom(),
            ),
            forall|i: int|
                0 <= i < predictions@.len() ==> ledger@.precision_positions[(
                #[trigger] predictions@[i]).user] == predictions@[i],
            forall|u: Address| #[trigger]
                ledger@.precision_positions.contains_key(u) <==> exists|i: int|
                    0 <= i < predictions@.len() && (#[trigger] predictions@[i]).user == u,
            forall|i: int, j: int|
                0 <= i < j < predictions@.len() ==> {
                    let a = (#[trigger] predictions@[i]).user;
                    let b = (#[trigger] predictions@[j]).user;
                    ||| a.kind < b.kind
                    ||| a.kind == b.kind && a.upper < b.upper
                    ||| a.kind == b.kind && a.upper == b.upper && a.lower < b.lower
                },
    {
        let predictions = ledger.storage.precision_positions.values();
        proof {
            let users = predictions@.map_values(|p: PrecisionPrediction| p.user);
            lemma_lists(users, ledger@.precision_positions.dom());
            assert forall|u: Address| #[trigger]
                ledger@.precision_positions.contains_key(u) == exists|i: int|
                    0 <= i < predictions@.len() && (#[trigger] predictions@[i]).user == u by {
                if ledger@.precision_positions.contains_key(u) {
                    let i = choose|i: int| 0 <= i < users.len() && users[i] == u;
                    assert(predictions@[i].user == u);
                }
                if exists|i: int| 0 <= i < predictions@.len() && (#[trigger] predictions@[i]).user
                    == u {
                    let i = choose|i: int|
                        0 <= i < predictions@.len() && (#[trigger] predictions@[i]).user == u;
                    assert(users[i] == u);
                }
            }
            assert forall|i: int, j: int| 0 <= i < j < predictions@.len() implies (
            #[trigger] predictions@[i]).user.precedes((#[trigger] predictions@[j]).user) by {
                assert(users[i].precedes(users[j]));
            }
        }
        predictions
    }

    /// All bets of the current Up/Down round, in ascending order of their users.
    pub fn get_updown_positions(ledger: &Ledger) -> (positions: Vec<(Address, UserPosition)>)
        requires
            ledger.storage.wf(),
        ensures
            lists(
                positions@.map_values(|p: (Address, UserPosition)| p.0),
                ledger@.updown_positions.dom(),
            ),
            forall|i: int|
                0 <= i < positions@.len() ==> ledger@.updown_positions[(#[trigger] positions@[i]).0]
                    == positions@[i].1,
            forall|u: Address| #[trigger]
                ledger@.updown_positions.contains_key(u) <==> exists|i: int|
                    0 <= i < positions@.len() && (#[trigger] positions@[i]).0 == u,
            forall|i: int, j: int|
                0 <= i < j < positions@.len() ==> {
                    let a = (#[trigger] positions@[i]).0;
                    let b = (#[trigger] positions@[j]).0;
                    ||| a.kind < b.kind
                    ||| a.kind == b.kind && a.upper < b.upper
                    ||| a.kind == b.kind && a.upper == b.upper && a.lower < b.lower
                },
    {
        let users = ledger.storage.updown_positions.keys();
        let mut positions: Vec<(Address, UserPosition)> = Vec::new();
        let mut i: usize = 0;
        proof {
            lemma_lists(users@, ledger@.updown_positions.dom());
        }
        while i < users.len()
            invariant
                ledger.storage.wf(),
                i <= users@.len(),
                forall|j: int|
                    0 <= j < users@.len() ==> ledger@.updown_positions.contains_key(
                        #[trigger] users@[j],
                    ),
                positions@.len() == i,
                forall|j: int|
                    0 <= j < i ==> (#[trigger] positions@[j]).0 == users@[j]
                        && ledger@.updown_positions[users@[j]] == positions@[j].1,
            decreases users@.len() - i,
        {
            let user = users[i];
            assert(ledger@.updown_positions.contains_key(users@[i as int]));
            if let Some(position) = ledger.storage.updown_positions.get(&user) {
                positions.push((user, position));
            }
            i += 1;
        }
        assert(positions@.map_values(|p: (Address, UserPosition)| p.0) =~= users@);
        proof {
            assert forall|u: Address| #[trigger]
                ledger@.updown_positions.contains_key(u) == exists|i: int|
                    0 <= i < positions@.len() && (#[trigger] positions@[i]).0 == u by {
                if ledger@.updown_positions.contains_key(u) {
                    let i = choose|i: int| 0 <= i < users@.len() && users@[i] == u;
                    assert(positions@[i].0 == u);
                }
            }
            assert forall|i: int, j: int| 0 <= i < j < positions@.len() implies (
            #[trigger] positions@[i]).0.precedes((#[trigger] positions@[j]).0) by {
                assert(users@[i].precedes(users@[j]));
            }
        }
        positions
    }

    /// Who has to authorise the resolution of a round.
    pub fn resolve_authority(ledger: &Ledger, payload: &OraclePayload) -> (result: Result<
        Address,
        ContractError,
    >)
        ensures
            result == ledger@.resolve_authority(*payload),
    {
        if payload.price == 0 {
            return Err(ContractError::InvalidPrice);
        }
        match ledger.storage.oracle {
            Some(oracle) => Ok(oracle),
            None => Err(ContractError::OracleNotSet),
        }
    }

    /// Ends the round with the oracle's data, for the oracle only.
    ///
    /// In an Up/Down round the winners share the losers' pool in proportion to their bets, and
    /// everybody gets the bet back where the price has not moved. In a Precision round the
    /// closest prediction wins the pot, which is split evenly where several are equally close.
    pub fn resolve_round(ledger: &mut Ledger, payload: OraclePayload) -> (result: Result<
        (),
        ContractError,
    >)
        requires
            old(ledger).wf(),
            old(ledger)@.resolve_authority(payload) matches Ok(oracle) ==> old(
                ledger,
            )@.authorizes(oracle),
            old(ledger)@.addressed_round(payload) is Ok ==> payload.timestamp
                + MAX_ORACLE_AGE_SECONDS <= u64::MAX,
        ensures
            final(ledger).wf(),
            match old(ledger)@.resolve_round(payload) {
                Ok(next) => result == Ok::<(), ContractError>(()) && final(ledger)@ == next,
                Err(e) => result == Err::<(), ContractError>(e) && final(ledger)@ == old(ledger)@,
            },
    {
        match Self::resolve_authority(ledger, &payload) {
            Ok(_) => {},
            Err(e) => return Err(e),
        }
        match Self::_ensure_not_paused(ledger) {
            Ok(()) => {},
            Err(e) => return Err(e),
        }
        let round = match ledger.storage.active_round {
            Some(round) => round,
            None => return Err(ContractError::NoActiveRound),
        };
        if payload.round_id != round.start_ledger {
            return Err(ContractError::InvalidOracleRound);
        }
        if payload.timestamp > ledger.timestamp {
            return Err(ContractError::FutureOracleData);
        }
        if ledger.timestamp > payload.timestamp + MAX_ORACLE_AGE_SECONDS {
            return Err(ContractError::StaleOracleData);
        }
        if ledger.sequence < round.end_ledger {
            return Err(ContractError::RoundNotEnded);
        }
        // A settlement that fails half way is undone.
        let pending_winnings = ledger.storage.pending_winnings.duplicate();
        let user_stats = ledger.storage.user_stats.duplicate();
        let settled = match round.mode {
            RoundMode::UpDown => Self::_resolve_updown_mode(ledger, &round, payload.price),
            RoundMode::Precision => Self::_resolve_precision_mode(ledger, payload.price),
        };
        if let Err(e) = settled {
            ledger.storage.pending_winnings = pending_winnings;
            ledger.storage.user_stats = user_stats;
            return Err(e);
        }
        ledger.storage.active_round = None;
        ledger.storage.positions = Positions::new(&ledger.host);
        ledger.storage.updown_positions = Positions::new(&ledger.host);
        ledger.storage.precision_positions = Predictions::new(&ledger.host);
        ledger.events.push(
            Event::RoundResolved {
                round_id: round.round_id,
                final_price: payload.price,
                mode: round.mode.code(),
            },
        );
        proof {
            ledger.storage.pending_winnings.lemma_finite();
            ledger.storage.user_stats.lemma_finite();
        }
        Ok(())
    }

    /// Moves what a user has won to the user's balance, and says how much that was.
    pub fn claim_winnings(ledger: &mut Ledger, user: Address) -> (result: Result<
        i128,
        ContractError,
    >)
        requires
            old(ledger).wf(),
            old(ledger)@.authorizes(user),
        ensures
            final(ledger).wf(),
            match old(ledger)@.claim_winnings(user) {
                Ok(next) => result == Ok::<i128, ContractError>(old(ledger)@.pending_of(user))
                    && final(ledger)@ == next,
                Err(e) => result == Err::<i128, ContractError>(e) && final(ledger)@ == old(
                    ledger,
                )@,
            },
    {
        match Self::_ensure_not_paused(ledger) {
            Ok(()) => {},
            Err(e) => return Err(e),
        }
        let pending: i128 = Self::get_pending_winnings(ledger, user);
        if pending == 0 {
            return Ok(0);
        }
        let current_balance: i128 = Self::balance(ledger, user);
        let new_balance: i128 = match current_balance.checked_add(pending) {
            Some(sum) => sum,
            None => return Err(ContractError::Overflow),
        };
        Self::_set_balance(ledger, user, new_balance);
        ledger.storage.pending_winnings.remove(&user);
        ledger.events.push(Event::WinningsClaimed { user, amount: pending });
        Ok(pending)
    }

    /// Gives a new user the first tokens, once, and says what the user's balance is.
    pub fn mint_initial(ledger: &mut Ledger, user: Address) -> (balance: i128)
        requires
            old(ledger).wf(),
            old(ledger)@.authorizes(user),
            !old(ledger)@.is_paused(),
        ensures
            final(ledger).wf(),
            final(ledger)@ == old(ledger)@.mint_initial(user),
            balance == final(ledger)@.balance_of(user),
    {
        if let Some(existing_balance) = ledger.storage.balances.get(&user) {
            return existing_balance;
        }
        Self::_set_balance(ledger, user, INITIAL_MINT);
        ledger.events.push(Event::InitialMint { user, amount: INITIAL_MINT });
        INITIAL_MINT
    }

    /// A user's balance.
    pub fn balance(ledger: &Ledger, user: Address) -> (balance: i128)
        requires
            ledger.storage.wf(),
        ensures
            balance == ledger@.balance_of(user),
    {
        match ledger.storage.balances.get(&user) {
            Some(balance) => balance,
            None => 0,
        }
    }

    /// Stores a user's balance.
    pub(crate) fn _set_balance(ledger: &mut Ledger, user: Address, amount: i128)
        requires
            old(ledger).wf(),
        ensures
            final(ledger).wf(),
            final(ledger)@ == (State {
                balances: old(ledger)@.balances.insert(user, amount),
                ..old(ledger)@
            }),
    {
        ledger.storage.balances.set(user, amount);
    }
}

} // verus!
