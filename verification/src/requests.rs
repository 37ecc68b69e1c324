//! Laws on single requests: when each is granted, why it is refused otherwise, and what it
//! changes. They speak of what is stored and of nothing else.

use crate::address::Address;
use crate::errors::ContractError;
use crate::state::State;
use crate::types::{
    BetSide, Event, OraclePayload, PrecisionPrediction, Round, UserPosition, UserStats,
};
use vstd::prelude::*;

verus! {

/// In a new contract nothing is set, nobody owns anything and nothing has been announced.
pub proof fn law_new_contract_is_empty(sequence: u32, timestamp: u64)
    ensures
        ({
            let s = State::fresh(sequence, timestamp);
            &&& s.sequence == sequence
            &&& s.timestamp == timestamp
            &&& s.authorized.len() == 0
            &&& s.admin is None
            &&& s.oracle is None
            &&& s.paused is None
            &&& s.bet_window_ledgers is None
            &&& s.run_window_ledgers is None
            &&& s.last_round_id is None
            &&& s.active_round is None
            &&& s.events.len() == 0
            &&& forall|u: Address| !#[trigger] s.positions.contains_key(u)
            &&& forall|u: Address| !#[trigger] s.updown_positions.contains_key(u)
            &&& forall|u: Address| !#[trigger] s.precision_positions.contains_key(u)
            &&& forall|u: Address| !#[trigger] s.balances.contains_key(u)
            &&& forall|u: Address| !#[trigger] s.pending_winnings.contains_key(u)
            &&& forall|u: Address| !#[trigger] s.user_stats.contains_key(u)
        }),
{
}

/// A state is valid where the pools are not negative, every stake is positive, every prediction
/// stands under its user and all tables are finite, and in no other case.
pub proof fn law_valid_states(s: State)
    ensures
        s.wf() <==> {
            &&& s.updown_positions.dom().finite()
            &&& s.precision_positions.dom().finite()
            &&& s.balances.dom().finite()
            &&& s.pending_winnings.dom().finite()
            &&& s.user_stats.dom().finite()
            &&& forall|u: Address| #[trigger]
                s.updown_positions.contains_key(u) ==> s.updown_positions[u].amount > 0
            &&& forall|u: Address| #[trigger]
                s.precision_positions.contains_key(u) ==> s.precision_positions[u].amount > 0
                    && s.precision_positions[u].user == u
            &&& s.active_round is Some ==> s.active_round.unwrap().pool_up >= 0
                && s.active_round.unwrap().pool_down >= 0
        },
{
}

/// What is read is what is stored: a missing amount reads as zero, a missing record as an empty
/// one, a missing round number as zero, and a contract that was never paused is not paused. A
/// bet of the current round is read before an old one.
pub proof fn law_reads_show_what_is_stored(s: State, user: Address)
    ensures
        s.balances.contains_key(user) ==> s.balance_of(user) == s.balances[user],
        !s.balances.contains_key(user) ==> s.balance_of(user) == 0,
        s.pending_winnings.contains_key(user) ==> s.pending_of(user) == s.pending_winnings[user],
        !s.pending_winnings.contains_key(user) ==> s.pending_of(user) == 0,
        s.user_stats.contains_key(user) ==> s.stats_of(user) == s.user_stats[user],
        !s.user_stats.contains_key(user) ==> s.stats_of(user) == (UserStats {
            total_wins: 0,
            total_losses: 0,
            current_streak: 0,
            best_streak: 0,
        }),
        s.updown_positions.contains_key(user) ==> s.position_of(user) == Some(
            s.updown_positions[user],
        ),
        !s.updown_positions.contains_key(user) && s.positions.contains_key(user)
            ==> s.position_of(user) == Some(s.positions[user]),
        !s.updown_positions.contains_key(user) && !s.positions.contains_key(user)
            ==> s.position_of(user) is None,
        s.last_round_id is Some ==> s.last_id() == s.last_round_id.unwrap(),
        s.last_round_id is None ==> s.last_id() == 0,
        s.is_paused() <==> s.paused == Some(true),
        s.authorizes(user) <==> exists|i: int|
            0 <= i < s.authorized.len() && #[trigger] s.authorized[i] == user,
{
}

/// The administrator's requests are for the administrator to authorise, and a resolution is for
/// the oracle; a price of zero and an unknown mode are refused before anybody is asked.
pub proof fn law_authorities(s: State, start_price: u128, mode: Option<u32>, payload: OraclePayload)
    ensures
        s.admin is Some ==> s.admin_authority() == Ok::<Address, ContractError>(s.admin.unwrap()),
        s.admin is None ==> s.admin_authority() == Err::<Address, ContractError>(
            ContractError::AdminNotSet,
        ),
        start_price == 0 ==> s.create_round_authority(start_price, mode) == Err::<
            Address,
            ContractError,
        >(ContractError::InvalidPrice),
        start_price > 0 && mode is Some && mode.unwrap() > 1 ==> s.create_round_authority(
            start_price,
            mode,
        ) == Err::<Address, ContractError>(ContractError::InvalidMode),
        start_price > 0 && (mode is None || mode.unwrap() <= 1) && s.admin is None
            ==> s.create_round_authority(start_price, mode) == Err::<Address, ContractError>(
            ContractError::AdminNotSet,
        ),
        start_price > 0 && (mode is None || mode.unwrap() <= 1) && s.admin is Some
            ==> s.create_round_authority(start_price, mode) == Ok::<Address, ContractError>(
            s.admin.unwrap(),
        ),
        payload.price == 0 ==> s.resolve_authority(payload) == Err::<Address, ContractError>(
            ContractError::InvalidPrice,
        ),
        payload.price > 0 && s.oracle is None ==> s.resolve_authority(payload) == Err::<
            Address,
            ContractError,
        >(ContractError::OracleNotSet),
        payload.price > 0 && s.oracle is Some ==> s.resolve_authority(payload) == Ok::<
            Address,
            ContractError,
        >(s.oracle.unwrap()),
{
}

/// Two different addresses become administrator and oracle of a contract that has none. The
/// contract then runs, with a betting window of 6 ledgers and rounds of 12, and nothing else has
/// changed.
pub proof fn law_initialization(s: State, admin: Address, oracle: Address)
    ensures
        admin == oracle ==> s.initialize(admin, oracle) == Err::<State, ContractError>(
            ContractError::AdminIsOracle,
        ),
        admin != oracle && s.admin is Some ==> s.initialize(admin, oracle) == Err::<
            State,
            ContractError,
        >(ContractError::AlreadyInitialized),
        admin != oracle && s.admin is None ==> s.initialize(admin, oracle) is Ok,
        s.initialize(admin, oracle) matches Ok(t) ==> {
            &&& t.admin == Some(admin)
            &&& t.oracle == Some(oracle)
            &&& t.paused == Some(false)
            &&& t.bet_window_ledgers == Some(6u32)
            &&& t.run_window_ledgers == Some(12u32)
            &&& s == (State {
                admin: s.admin,
                oracle: s.oracle,
                paused: s.paused,
                bet_window_ledgers: s.bet_window_ledgers,
                run_window_ledgers: s.run_window_ledgers,
                ..t
            })
        },
{
}

/// Where there is an administrator the contract can be paused and resumed at any time, and
/// nothing else changes.
pub proof fn law_pausing(s: State, paused: bool)
    ensures
        s.admin is None ==> s.set_paused(paused) == Err::<State, ContractError>(
            ContractError::AdminNotSet,
        ),
        s.admin is Some ==> s.set_paused(paused) is Ok,
        s.set_paused(paused) matches Ok(t) ==> {
            &&& t.paused == Some(paused)
            &&& s == (State { paused: s.paused, ..t })
        },
{
}

/// Windows are set where the betting window is at least one ledger, at most 1440, and shorter
/// than the round, which is at most 2880 ledgers. Any other pair is refused; an empty window is
/// reported first, then one that is too long.
pub proof fn law_setting_windows(s: State, bet_ledgers: u32, run_ledgers: u32)
    ensures
        s.admin is None ==> s.set_windows(bet_ledgers, run_ledgers) == Err::<State, ContractError>(
            ContractError::AdminNotSet,
        ),
        s.admin is Some && s.paused == Some(true) ==> s.set_windows(bet_ledgers, run_ledgers)
            == Err::<State, ContractError>(ContractError::ContractPaused),
        s.admin is Some && s.paused != Some(true) ==> {
            let result = s.set_windows(bet_ledgers, run_ledgers);
            &&& bet_ledgers == 0 || run_ledgers == 0 ==> result == Err::<State, ContractError>(
                ContractError::InvalidDuration,
            )
            &&& bet_ledgers > 0 && run_ledgers > 0 && (bet_ledgers > 1440 || run_ledgers > 2880)
                ==> result == Err::<State, ContractError>(ContractError::WindowOutOfRange)
            &&& 0 < run_ledgers <= bet_ledgers <= 1440 ==> result == Err::<State, ContractError>(
                ContractError::InvalidDuration,
            )
            &&& 0 < bet_ledgers < run_ledgers && bet_ledgers <= 1440 && run_ledgers <= 2880
                ==> result is Ok
        },
        s.set_windows(bet_ledgers, run_ledgers) matches Ok(t) ==> {
            &&& t.bet_window_ledgers == Some(bet_ledgers)
            &&& t.run_window_ledgers == Some(run_ledgers)
            &&& t.events == s.events.push(Event::WindowsUpdated { bet_ledgers, run_ledgers })
            &&& s == (State {
                bet_window_ledgers: s.bet_window_ledgers,
                run_window_ledgers: s.run_window_ledgers,
                events: s.events,
                ..t
            })
        },
{
}

/// A round is opened where the price is positive, the mode is known, there is an administrator,
/// the contract runs, no round is running, and the round's number and ledgers can be counted.
pub proof fn law_round_is_opened_or_refused(s: State, start_price: u128, mode: Option<u32>)
    ensures
        start_price == 0 ==> s.create_round(start_price, mode) == Err::<State, ContractError>(
            ContractError::InvalidPrice,
        ),
        start_price > 0 && mode is Some && mode.unwrap() > 1 ==> s.create_round(start_price, mode)
            == Err::<State, ContractError>(ContractError::InvalidMode),
        start_price > 0 && (mode is None || mode.unwrap() <= 1) ==> {
            let result = s.create_round(start_price, mode);
            let bet_ledgers = if s.bet_window_ledgers is Some {
                s.bet_window_ledgers.unwrap()
            } else {
                6
            };
            let run_ledgers = if s.run_window_ledgers is Some {
                s.run_window_ledgers.unwrap()
            } else {
                12
            };
            let countable = s.last_round_id != Some(u64::MAX) && s.sequence + bet_ledgers
                <= u32::MAX && s.sequence + run_ledgers <= u32::MAX;
            &&& s.admin is None ==> result == Err::<State, ContractError>(
                ContractError::AdminNotSet,
            )
            &&& s.admin is Some && s.paused == Some(true) ==> result == Err::<
                State,
                ContractError,
            >(ContractError::ContractPaused)
            &&& s.admin is Some && s.paused != Some(true) && s.active_round is Some ==> result
                == Err::<State, ContractError>(ContractError::RoundAlreadyActive)
            &&& s.admin is Some && s.paused != Some(true) && s.active_round is None && !countable
                ==> result == Err::<State, ContractError>(ContractError::Overflow)
            &&& s.admin is Some && s.paused != Some(true) && s.active_round is None && countable
                ==> result is Ok
        },
{
}

/// A new round starts now, at the given price, with empty pools and in the mode that was asked
/// for. It takes stakes for as many ledgers as the betting window has, 6 where none was set, and
/// can be resolved after as many ledgers as the round has, 12 where none was set. It has the next
/// number, it is announced, and nothing else changes.
pub proof fn law_new_round(s: State, start_price: u128, mode: Option<u32>, t: State)
    requires
        s.create_round(start_price, mode) == Ok::<State, ContractError>(t),
    ensures
        ({
            let round = t.active_round.unwrap();
            &&& t.active_round is Some
            &&& round.price_start == start_price
            &&& round.start_ledger == s.sequence
            &&& s.bet_window_ledgers is Some ==> round.bet_end_ledger == s.sequence
                + s.bet_window_ledgers.unwrap()
            &&& s.bet_window_ledgers is None ==> round.bet_end_ledger == s.sequence + 6
            &&& s.run_window_ledgers is Some ==> round.end_ledger == s.sequence
                + s.run_window_ledgers.unwrap()
            &&& s.run_window_ledgers is None ==> round.end_ledger == s.sequence + 12
            &&& round.pool_up == 0
            &&& round.pool_down == 0
            &&& mode is None || mode == Some(0u32) ==> round.mode is UpDown
            &&& mode == Some(1u32) ==> round.mode is Precision
            &&& s.last_round_id is None ==> round.round_id == 1
            &&& s.last_round_id is Some ==> round.round_id == s.last_round_id.unwrap() + 1
            &&& t.last_round_id == Some(round.round_id)
            &&& t.events.len() == s.events.len() + 1
            &&& t.events.drop_last() == s.events
            &&& t.events.last() == (Event::RoundCreated {
                round_id: round.round_id,
                start_price: round.price_start,
                start_ledger: round.start_ledger,
                bet_end_ledger: round.bet_end_ledger,
                end_ledger: round.end_ledger,
                mode: if round.mode is UpDown {
                    0
                } else {
                    1
                },
            })
            &&& s == (State {
                active_round: s.active_round,
                last_round_id: s.last_round_id,
                events: s.events,
                ..t
            })
        }),
{
    assert(t.events.drop_last() =~= s.events);
}

/// The windows that were set last are those of the next round, whenever it is opened.
pub proof fn law_windows_shape_the_next_round(
    s: State,
    bet_ledgers: u32,
    run_ledgers: u32,
    t: State,
    sequence: u32,
    timestamp: u64,
    authorized: Seq<Address>,
    start_price: u128,
    mode: Option<u32>,
    u: State,
)
    requires
        s.set_windows(bet_ledgers, run_ledgers) == Ok::<State, ContractError>(t),
        (State { sequence, timestamp, authorized, ..t }).create_round(start_price, mode) == Ok::<
            State,
            ContractError,
        >(u),
    ensures
        ({
            let round = u.active_round.unwrap();
            &&& u.active_round is Some
            &&& round.start_ledger == sequence
            &&& round.bet_end_ledger - round.start_ledger == bet_ledgers
            &&& round.end_ledger - round.start_ledger == run_ledgers
        }),
{
}

/// A bet is taken where the contract runs, an Up/Down round takes stakes, the user can pay the
/// amount and has no bet yet, and the pool has room. Otherwise it is refused, for the first of
/// these that fails.
pub proof fn law_bet_is_taken_or_refused(s: State, user: Address, amount: i128, side: BetSide)
    ensures
        s.paused == Some(true) ==> s.place_bet(user, amount, side) == Err::<State, ContractError>(
            ContractError::ContractPaused,
        ),
        s.paused != Some(true) && amount <= 0 ==> s.place_bet(user, amount, side) == Err::<
            State,
            ContractError,
        >(ContractError::InvalidBetAmount),
        s.paused != Some(true) && amount > 0 && s.active_round is None ==> s.place_bet(
            user,
            amount,
            side,
        ) == Err::<State, ContractError>(ContractError::NoActiveRound),
        s.paused != Some(true) && amount > 0 && s.active_round is Some ==> {
            let result = s.place_bet(user, amount, side);
            let round = s.active_round.unwrap();
            let balance = if s.balances.contains_key(user) {
                s.balances[user] as int
            } else {
                0
            };
            let pool = if side is Up {
                round.pool_up as int
            } else {
                round.pool_down as int
            };
            let taken = s.updown_positions.contains_key(user);
            &&& round.mode is Precision ==> result == Err::<State, ContractError>(
                ContractError::WrongModeForPrediction,
            )
            &&& round.mode is UpDown && round.bet_end_ledger <= s.sequence ==> result == Err::<
                State,
                ContractError,
            >(ContractError::RoundEnded)
            &&& round.mode is UpDown && s.sequence < round.bet_end_ledger ==> {
                &&& balance < amount ==> result == Err::<State, ContractError>(
                    ContractError::InsufficientBalance,
                )
                &&& amount <= balance && taken ==> result == Err::<State, ContractError>(
                    ContractError::AlreadyBet,
                )
                &&& amount <= balance && !taken && pool + amount > i128::MAX ==> result == Err::<
                    State,
                    ContractError,
                >(ContractError::Overflow)
                &&& amount <= balance && !taken && pool + amount <= i128::MAX ==> result is Ok
            }
        },
{
}

/// A bet leaves the user's balance and enters the pool of its side, it is stored under the user
/// and announced, and nothing else changes.
pub proof fn law_bet_moves_the_amount(s: State, user: Address, amount: i128, side: BetSide, t: State)
    requires
        s.place_bet(user, amount, side) == Ok::<State, ContractError>(t),
    ensures
        ({
            let before = s.active_round.unwrap();
            let after = t.active_round.unwrap();
            &&& s.active_round is Some
            &&& t.active_round is Some
            &&& side is Up ==> after.pool_up == before.pool_up + amount && after.pool_down
                == before.pool_down
            &&& side is Down ==> after.pool_down == before.pool_down + amount && after.pool_up
                == before.pool_up
            &&& after == (Round { pool_up: after.pool_up, pool_down: after.pool_down, ..before })
            &&& t.updown_positions.contains_key(user)
            &&& t.updown_positions[user] == (UserPosition { amount, side })
            &&& t.updown_positions.remove(user) == s.updown_positions
            &&& t.balances.contains_key(user)
            &&& s.balances.contains_key(user)
            &&& t.balances[user] == s.balances[user] - amount
            &&& t.balances[user] >= 0
            &&& t.balances.remove(user) == s.balances.remove(user)
            &&& t.events == s.events.push(
                Event::BetPlaced {
                    user,
                    round_id: before.round_id,
                    amount,
                    side: if side is Up {
                        0
                    } else {
                        1
                    },
                },
            )
            &&& s == (State {
                active_round: s.active_round,
                updown_positions: s.updown_positions,
                balances: s.balances,
                events: s.events,
                ..t
            })
        }),
{
    assert(t.updown_positions.remove(user) =~= s.updown_positions);
    assert(t.balances.remove(user) =~= s.balances.remove(user));
}

/// A prediction is taken where the contract runs, the price is at most 9999.9999, a Precision
/// round takes stakes, and the user can pay the amount and has no prediction yet. Otherwise it is
/// refused, for the first of these that fails.
pub proof fn law_prediction_is_taken_or_refused(
    s: State,
    user: Address,
    amount: i128,
    predicted_price: u128,
)
    ensures
        s.paused == Some(true) ==> s.place_precision_prediction(user, amount, predicted_price)
            == Err::<State, ContractError>(ContractError::ContractPaused),
        s.paused != Some(true) && amount <= 0 ==> s.place_precision_prediction(
            user,
            amount,
            predicted_price,
        ) == Err::<State, ContractError>(ContractError::InvalidBetAmount),
        s.paused != Some(true) && amount > 0 && predicted_price > 99_999_999
            ==> s.place_precision_prediction(user, amount, predicted_price) == Err::<
            State,
            ContractError,
        >(ContractError::InvalidPriceScale),
        s.paused != Some(true) && amount > 0 && predicted_price <= 99_999_999
            && s.active_round is None ==> s.place_precision_prediction(
            user,
            amount,
            predicted_price,
        ) == Err::<State, ContractError>(ContractError::NoActiveRound),
        s.paused != Some(true) && amount > 0 && predicted_price <= 99_999_999
            && s.active_round is Some ==> {
            let result = s.place_precision_prediction(user, amount, predicted_price);
            let round = s.active_round.unwrap();
            let balance = if s.balances.contains_key(user) {
                s.balances[user] as int
            } else {
                0
            };
            let taken = s.precision_positions.contains_key(user);
            &&& round.mode is UpDown ==> result == Err::<State, ContractError>(
                ContractError::WrongModeForPrediction,
            )
            &&& round.mode is Precision && round.bet_end_ledger <= s.sequence ==> result == Err::<
                State,
                ContractError,
            >(ContractError::RoundEnded)
            &&& round.mode is Precision && s.sequence < round.bet_end_ledger ==> {
                &&& balance < amount ==> result == Err::<State, ContractError>(
                    ContractError::InsufficientBalance,
                )
                &&& amount <= balance && taken ==> result == Err::<State, ContractError>(
                    ContractError::AlreadyBet,
                )
                &&& amount <= balance && !taken ==> result is Ok
            }
        },
{
}

/// A stake on a price leaves the user's balance, the prediction is stored under the user and
/// announced, and nothing else changes.
pub proof fn law_prediction_moves_the_amount(
    s: State,
    user: Address,
    amount: i128,
    predicted_price: u128,
    t: State,
)
    requires
        s.place_precision_prediction(user, amount, predicted_price) == Ok::<State, ContractError>(
            t,
        ),
    ensures
        s.active_round is Some,
        t.precision_positions.contains_key(user),
        t.precision_positions[user] == (PrecisionPrediction { user, predicted_price, amount }),
        t.precision_positions.remove(user) == s.precision_positions,
        s.balances.contains_key(user),
        t.balances.contains_key(user),
        t.balances[user] == s.balances[user] - amount,
        t.balances[user] >= 0,
        t.balances.remove(user) == s.balances.remove(user),
        t.events == s.events.push(
            Event::PricePredicted {
                user,
                round_id: s.active_round.unwrap().round_id,
                predicted_price,
                amount,
            },
        ),
        s == (State {
            precision_positions: s.precision_positions,
            balances: s.balances,
            events: s.events,
            ..t
        }),
{
    assert(t.precision_positions.remove(user) =~= s.precision_positions);
    assert(t.balances.remove(user) =~= s.balances.remove(user));
}

/// A claim is granted where the contract runs and the new balance fits. It moves all that is
/// claimable to the balance and is announced; where nothing is claimable, nothing changes.
pub proof fn law_claim_moves_everything(s: State, user: Address)
    ensures
        ({
            let result = s.claim_winnings(user);
            let claim = if s.pending_winnings.contains_key(user) {
                s.pending_winnings[user]
            } else {
                0
            };
            let balance = if s.balances.contains_key(user) {
                s.balances[user]
            } else {
                0
            };
            let sum = balance + claim;
            &&& s.paused == Some(true) ==> result == Err::<State, ContractError>(
                ContractError::ContractPaused,
            )
            &&& s.paused != Some(true) && claim == 0 ==> result == Ok::<State, ContractError>(s)
            &&& s.paused != Some(true) && claim != 0 && (sum > i128::MAX || sum < i128::MIN)
                ==> result == Err::<State, ContractError>(ContractError::Overflow)
            &&& s.paused != Some(true) && claim != 0 && i128::MIN <= sum <= i128::MAX ==> {
                let t = result.unwrap();
                &&& result is Ok
                &&& t.balances.contains_key(user)
                &&& t.balances[user] == sum
                &&& t.balances.remove(user) == s.balances.remove(user)
                &&& !t.pending_winnings.contains_key(user)
                &&& t.pending_winnings == s.pending_winnings.remove(user)
                &&& t.events == s.events.push(Event::WinningsClaimed { user, amount: claim })
                &&& s == (State {
                    balances: s.balances,
                    pending_winnings: s.pending_winnings,
                    events: s.events,
                    ..t
                })
            }
        }),
{
    if let Ok(t) = s.claim_winnings(user) {
        assert(t.balances.remove(user) =~= s.balances.remove(user));
    }
}

/// A user without a balance is given 1000 tokens, which is announced; a user with one keeps it,
/// and nothing changes.
pub proof fn law_mint_gives_the_first_tokens(s: State, user: Address)
    ensures
        ({
            let t = s.mint_initial(user);
            &&& s.balances.contains_key(user) ==> t == s
            &&& !s.balances.contains_key(user) ==> {
                &&& t.balances.contains_key(user)
                &&& t.balances[user] == 10_000_000_000
                &&& t.balances.remove(user) == s.balances
                &&& t.events == s.events.push(
                    Event::InitialMint { user, amount: 10_000_000_000 },
                )
                &&& s == (State { balances: s.balances, events: s.events, ..t })
            }
        }),
{
    assert(!s.balances.contains_key(user) ==> s.mint_initial(user).balances.remove(user)
        =~= s.balances);
}

} // verus!
