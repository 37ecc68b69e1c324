//! Laws on requests: what every request keeps, and what one request means for the next.

use crate::address::Address;
use crate::errors::ContractError;
use crate::payouts::{
    law_refunds_return_every_bet, law_winners_share_the_pools, law_winners_take_the_pot,
};
use crate::settlement::{fits, pending_in, pot, prediction_amount, Settlement};
use crate::state::State;
use crate::sums::{lemma_sum_empty, lemma_sum_grows};
use crate::types::{
    BetSide, OraclePayload, PrecisionPrediction, Round, RoundMode, UserPosition, UserStats,
    INITIAL_MINT, MAX_BET_WINDOW_LEDGERS, MAX_RUN_WINDOW_LEDGERS,
};
use crate::worth::{
    amount_in, bets_on_side, lemma_bets_insert, lemma_money_credited, lemma_money_insert,
    lemma_money_remove, lemma_no_stakes, lemma_pot_insert, lemma_two_sides, money, paid_out,
    paid_to,
};
use vstd::prelude::*;

verus! {

/// A request that can change the state.
pub enum Request {
    Initialize { admin: Address, oracle: Address },
    Pause,
    Unpause,
    CreateRound { start_price: u128, mode: Option<u32> },
    SetWindows { bet_ledgers: u32, run_ledgers: u32 },
    PlaceBet { user: Address, amount: i128, side: BetSide },
    PredictPrice { user: Address, amount: i128, predicted_price: u128 },
    ResolveRound { payload: OraclePayload },
    ClaimWinnings { user: Address },
    MintInitial { user: Address },
}

/// The wins of the current streak are among those of the best one, which are among all wins.
pub open spec fn streaks_add_up(stats: UserStats) -> bool {
    stats.current_streak <= stats.best_streak <= stats.total_wins
}

impl State {
    /// What a request makes of the state, or why it is refused.
    pub open spec fn after(self, request: Request) -> Result<State, ContractError> {
        match request {
            Request::Initialize { admin, oracle } => self.initialize(admin, oracle),
            Request::Pause => self.set_paused(true),
            Request::Unpause => self.set_paused(false),
            Request::CreateRound { start_price, mode } => self.create_round(start_price, mode),
            Request::SetWindows { bet_ledgers, run_ledgers } => self.set_windows(
                bet_ledgers,
                run_ledgers,
            ),
            Request::PlaceBet { user, amount, side } => self.place_bet(user, amount, side),
            Request::PredictPrice { user, amount, predicted_price } =>
                self.place_precision_prediction(user, amount, predicted_price),
            Request::ResolveRound { payload } => self.resolve_round(payload),
            Request::ClaimWinnings { user } => self.claim_winnings(user),
            Request::MintInitial { user } => if self.is_paused() {
                Err(ContractError::ContractPaused)
            } else {
                Ok(self.mint_initial(user))
            },
        }
    }

    /// The same contract in another ledger, at another time or with other authorisations.
    pub open spec fn later(self, sequence: u32, timestamp: u64, authorized: Seq<Address>) -> State {
        State { sequence, timestamp, authorized, ..self }
    }

    /// The stakes are those of the round that is running: none where there is no round, none of
    /// the other mode, and in an Up/Down round the pools are what was bet on the two sides.
    pub open spec fn stakes_match_round(self) -> bool {
        match self.active_round {
            None => self.updown_positions.is_empty() && self.precision_positions.is_empty(),
            Some(round) => match round.mode {
                RoundMode::UpDown => {
                    &&& self.precision_positions.is_empty()
                    &&& round.pool_up == bets_on_side(self.updown_positions, BetSide::Up)
                    &&& round.pool_down == bets_on_side(self.updown_positions, BetSide::Down)
                },
                RoundMode::Precision => {
                    &&& self.updown_positions.is_empty()
                    &&& round.pool_up == 0
                    &&& round.pool_down == 0
                },
            },
        }
    }

    /// Whether a user has a stake in a round of a mode.
    pub open spec fn takes_part(self, mode: RoundMode, user: Address) -> bool {
        match mode {
            RoundMode::UpDown => self.updown_positions.contains_key(user),
            RoundMode::Precision => self.precision_positions.contains_key(user),
        }
    }

    /// What holds of every state that requests lead to.
    pub open spec fn consistent(self) -> bool {
        &&& self.wf()
        &&& self.stakes_match_round()
        &&& self.admin is Some <==> self.oracle is Some
        &&& self.admin is Some ==> self.admin != self.oracle
        &&& 0 < self.bet_window() < self.run_window()
        &&& self.bet_window() <= MAX_BET_WINDOW_LEDGERS
        &&& self.run_window() <= MAX_RUN_WINDOW_LEDGERS
        &&& self.active_round matches Some(round) ==> {
            &&& round.round_id == self.last_id()
            &&& round.round_id > 0
            &&& round.price_start > 0
            &&& round.start_ledger < round.bet_end_ledger < round.end_ledger
        }
        &&& forall|u: Address| #[trigger] self.balances.contains_key(u) ==> self.balances[u] >= 0
        &&& forall|u: Address| #[trigger]
            self.pending_winnings.contains_key(u) ==> self.pending_winnings[u] >= 0
        &&& forall|u: Address| #[trigger]
            self.user_stats.contains_key(u) ==> streaks_add_up(self.user_stats[u])
    }
}

/// A contract that nothing has been done with is consistent, and nobody owns anything.
pub proof fn law_fresh_is_consistent(sequence: u32, timestamp: u64)
    ensures
        State::fresh(sequence, timestamp).consistent(),
        State::fresh(sequence, timestamp).worth() == 0,
{
    lemma_no_stakes();
    lemma_sum_empty(amount_in(Map::empty()));
}

/// The passing of time does not make a state inconsistent, nor anybody richer or poorer.
pub proof fn law_time_keeps_consistency(
    s: State,
    sequence: u32,
    timestamp: u64,
    authorized: Seq<Address>,
)
    requires
        s.consistent(),
    ensures
        s.later(sequence, timestamp, authorized).consistent(),
        s.later(sequence, timestamp, authorized).worth() == s.worth(),
{
}

/// What a settlement pays is not negative, and only participants are paid or win or lose.
proof fn lemma_settlement_shape(s: State, round: Round, final_price: u128, settlement: Settlement)
    requires
        s.wf(),
        round.pool_up >= 0,
        round.pool_down >= 0,
        s.settlement(round, final_price) == Some(settlement),
    ensures
        settlement.payouts.dom().finite(),
        settlement.won.finite(),
        settlement.lost.finite(),
        settlement.won.disjoint(settlement.lost),
        forall|u: Address| #[trigger]
            settlement.payouts.contains_key(u) ==> settlement.payouts[u] >= 0,
        forall|u: Address| #[trigger]
            settlement.payouts.contains_key(u) ==> s.takes_part(round.mode, u),
        forall|u: Address| #[trigger] settlement.won.contains(u) ==> s.takes_part(round.mode, u),
        forall|u: Address| #[trigger] settlement.lost.contains(u) ==> s.takes_part(round.mode, u),
{
    let everybody = match round.mode {
        RoundMode::UpDown => s.updown_positions.dom(),
        RoundMode::Precision => s.precision_positions.dom(),
    };
    assert forall|u: Address| #[trigger] settlement.payouts.contains_key(u) implies
        settlement.payouts[u] >= 0 && everybody.contains(u) by {
        lemma_payout_not_negative(s, round, final_price, settlement, u);
    }
    assert(settlement.payouts.dom().subset_of(everybody));
    assert(settlement.won.subset_of(everybody));
    assert(settlement.lost.subset_of(everybody));
    vstd::set_lib::lemma_set_subset_finite(everybody, settlement.payouts.dom());
    vstd::set_lib::lemma_set_subset_finite(everybody, settlement.won);
    vstd::set_lib::lemma_set_subset_finite(everybody, settlement.lost);
}

proof fn lemma_payout_not_negative(
    s: State,
    round: Round,
    final_price: u128,
    settlement: Settlement,
    u: Address,
)
    requires
        s.wf(),
        round.pool_up >= 0,
        round.pool_down >= 0,
        s.settlement(round, final_price) == Some(settlement),
        settlement.payouts.contains_key(u),
    ensures
        settlement.payouts[u] >= 0,
        s.takes_part(round.mode, u),
{
    match round.mode {
        RoundMode::UpDown => {
            assert(s.updown_positions.contains_key(u));
            if final_price != round.price_start {
                let (winning, losing) = if final_price > round.price_start {
                    (round.pool_up, round.pool_down)
                } else {
                    (round.pool_down, round.pool_up)
                };
                let amount = s.updown_positions[u].amount as int;
                let w = winning as int;
                let l = losing as int;
                assert(amount * l >= 0) by (nonlinear_arith)
                    requires
                        amount > 0,
                        l >= 0,
                ;
                vstd::arithmetic::div_mod::lemma_div_pos_is_pos(amount * l, w);
            }
        },
        RoundMode::Precision => {
            let predictions = s.precision_positions;
            assert(predictions.contains_key(u));
            assert(predictions.dom().len() > 0) by {
                if predictions.dom().len() == 0 {
                    assert(predictions.dom() =~= Set::empty());
                }
            }
            law_winners_take_the_pot(predictions, final_price, settlement);
            let total = pot(predictions);
            let n = settlement.won.len() as int;
            lemma_sum_grows(Set::empty(), predictions.dom(), prediction_amount(predictions));
            vstd::arithmetic::div_mod::lemma_div_pos_is_pos(total, n);
            vstd::arithmetic::div_mod::lemma_mod_bound(total, n);
        },
    }
}

/// Every request that is granted leads from a consistent state to a consistent one.
pub proof fn law_requests_keep_consistency(s: State, request: Request, t: State)
    requires
        s.consistent(),
        s.after(request) == Ok::<State, ContractError>(t),
    ensures
        t.consistent(),
{
    lemma_no_stakes();
    if s.updown_positions.is_empty() {
        assert(s.updown_positions =~= Map::empty());
    }
    match request {
        Request::PlaceBet { user, amount, side } => {
            lemma_bets_insert(s.updown_positions, user, UserPosition { amount, side });
        },
        Request::PredictPrice { user, amount, predicted_price } => {},
        Request::ResolveRound { payload } => {
            let round = s.active_round.unwrap();
            let settlement = s.settlement(round, payload.price).unwrap();
            lemma_settlement_shape(s, round, payload.price, settlement);
            assert(t.pending_winnings.dom() =~= s.pending_winnings.dom().union(
                settlement.payouts.dom(),
            ));
            assert(t.user_stats.dom() =~= s.user_stats.dom().union(settlement.won).union(
                settlement.lost,
            ));
        },
        _ => {},
    }
}

/// Apart from a first mint, which adds the initial amount, and from the resolution of a round,
/// no request makes the users together richer or poorer.
pub proof fn law_requests_conserve_worth(s: State, request: Request, t: State)
    requires
        s.consistent(),
        s.after(request) == Ok::<State, ContractError>(t),
        !(request is ResolveRound),
    ensures
        t.worth() == s.worth() + match request {
            Request::MintInitial { user } => if s.balances.contains_key(user) {
                0
            } else {
                INITIAL_MINT as int
            },
            _ => 0,
        },
{
    match request {
        Request::PlaceBet { user, amount, side } => {
            lemma_bets_insert(s.updown_positions, user, UserPosition { amount, side });
            lemma_money_insert(s.balances, user, (s.balance_of(user) - amount) as i128);
        },
        Request::PredictPrice { user, amount, predicted_price } => {
            lemma_pot_insert(
                s.precision_positions,
                user,
                PrecisionPrediction { user, predicted_price, amount },
            );
            lemma_money_insert(s.balances, user, (s.balance_of(user) - amount) as i128);
        },
        Request::ClaimWinnings { user } => {
            if s.pending_of(user) != 0 {
                lemma_money_insert(
                    s.balances,
                    user,
                    (s.balance_of(user) + s.pending_of(user)) as i128,
                );
                lemma_money_remove(s.pending_winnings, user);
            }
        },
        Request::MintInitial { user } => {
            if !s.balances.contains_key(user) {
                lemma_money_insert(s.balances, user, INITIAL_MINT);
            }
        },
        _ => {},
    }
}

/// What the resolution of a round costs the users together. Nothing, where bets are given back
/// and in a Precision round. Where nobody has bet on the winning side, the losing pool is gone.
/// In any other Up/Down round less than one unit for each winner is lost to rounding.
pub proof fn law_resolution_conserves_worth(s: State, payload: OraclePayload, t: State)
    requires
        s.consistent(),
        s.resolve_round(payload) == Ok::<State, ContractError>(t),
    ensures
        ({
            let round = s.active_round.unwrap();
            let winners = s.settlement(round, payload.price).unwrap().won;
            let rising = payload.price > round.price_start;
            let winning_pool = if rising {
                round.pool_up
            } else {
                round.pool_down
            };
            let losing_pool = if rising {
                round.pool_down
            } else {
                round.pool_up
            };
            if round.mode == RoundMode::Precision || payload.price == round.price_start {
                t.worth() == s.worth()
            } else if winning_pool == 0 {
                t.worth() == s.worth() - losing_pool
            } else {
                t.worth() <= s.worth() < t.worth() + winners.len()
            }
        }),
{
    let round = s.active_round.unwrap();
    let settlement = s.settlement(round, payload.price).unwrap();
    lemma_no_stakes();
    lemma_settlement_shape(s, round, payload.price, settlement);
    lemma_money_credited(s.pending_winnings, settlement.payouts);
    assert(t.worth() == money(s.balances) + money(s.pending_winnings) + paid_out(
        settlement.payouts,
    ));
    match round.mode {
        RoundMode::UpDown => {
            assert(s.precision_positions =~= Map::empty());
            lemma_two_sides(s.updown_positions);
            if payload.price == round.price_start {
                law_refunds_return_every_bet(s.updown_positions);
            } else {
                let (side, winning_pool, losing_pool) = if payload.price > round.price_start {
                    (BetSide::Up, round.pool_up, round.pool_down)
                } else {
                    (BetSide::Down, round.pool_down, round.pool_up)
                };
                if winning_pool == 0 {
                    lemma_sum_empty(paid_to(Map::empty()));
                } else {
                    law_winners_share_the_pools(
                        s.updown_positions,
                        side,
                        winning_pool,
                        losing_pool,
                        settlement,
                    );
                }
            }
        },
        RoundMode::Precision => {
            assert(s.updown_positions =~= Map::empty());
            if s.precision_positions.dom().len() == 0 {
                assert(s.precision_positions.dom() =~= Set::empty());
                assert(s.precision_positions =~= Map::empty());
                lemma_sum_empty(paid_to(Map::empty()));
            } else {
                law_winners_take_the_pot(s.precision_positions, payload.price, settlement);
            }
        },
    }
}

/// While the contract is paused, everything is refused but initialising, pausing and resuming
/// it. What a user asks for is refused for that very reason.
pub proof fn law_paused_contract_refuses(s: State, request: Request)
    requires
        s.is_paused(),
        !(request is Initialize),
        !(request is Pause),
        !(request is Unpause),
    ensures
        s.after(request) is Err,
        request is PlaceBet || request is PredictPrice || request is ClaimWinnings
            || request is MintInitial ==> s.after(request) == Err::<State, ContractError>(
            ContractError::ContractPaused,
        ),
{
}

/// Resuming the contract undoes the pause, and nothing else has changed meanwhile.
pub proof fn law_unpausing_undoes_pausing(s: State, t: State, u: State)
    requires
        s.after(Request::Pause) == Ok::<State, ContractError>(t),
        t.after(Request::Unpause) == Ok::<State, ContractError>(u),
    ensures
        t.is_paused(),
        !u.is_paused(),
        u == (State { paused: Some(false), ..s }),
{
}

/// The administrator and the oracle are set once: no request changes them afterwards.
pub proof fn law_roles_are_set_once(s: State, request: Request, t: State)
    requires
        s.admin is Some,
        s.after(request) == Ok::<State, ContractError>(t),
    ensures
        !(request is Initialize),
        t.admin == s.admin,
        t.oracle == s.oracle,
{
}

/// Only the administrator's own requests change how the contract is set up.
pub proof fn law_settings_are_the_administrators(s: State, request: Request, t: State)
    requires
        s.after(request) == Ok::<State, ContractError>(t),
        !(request is Initialize),
    ensures
        request is Pause || request is Unpause || t.paused == s.paused,
        request is SetWindows || (t.bet_window() == s.bet_window() && t.run_window()
            == s.run_window()),
{
}

/// What only the administrator may do is refused while there is none, and a round is not
/// resolved while there is no oracle.
pub proof fn law_nothing_runs_before_initialization(s: State, request: Request)
    requires
        s.admin is None,
        s.oracle is None,
    ensures
        request is Pause || request is Unpause || request is CreateRound || request is SetWindows
            || request is ResolveRound ==> s.after(request) is Err,
{
}

/// A bet can be read back, it is paid from the user's balance, and it concerns nobody else.
pub proof fn law_bet_is_read_back(s: State, user: Address, amount: i128, side: BetSide, t: State)
    requires
        s.place_bet(user, amount, side) == Ok::<State, ContractError>(t),
    ensures
        t.position_of(user) == Some(UserPosition { amount, side }),
        t.balance_of(user) == s.balance_of(user) - amount,
        forall|v: Address| v != user ==> #[trigger] t.position_of(v) == s.position_of(v),
        forall|v: Address| v != user ==> #[trigger] t.balance_of(v) == s.balance_of(v),
{
}

/// A prediction can be read back, it is paid from the user's balance, and it concerns nobody
/// else.
pub proof fn law_prediction_is_read_back(
    s: State,
    user: Address,
    amount: i128,
    predicted_price: u128,
    t: State,
)
    requires
        s.place_precision_prediction(user, amount, predicted_price) == Ok::<State, ContractError>(
            t,
        ),
    ensures
        t.precision_positions.get(user) == Some(
            PrecisionPrediction { user, predicted_price, amount },
        ),
        t.balance_of(user) == s.balance_of(user) - amount,
        forall|v: Address|
            v != user ==> #[trigger] t.precision_positions.get(v) == s.precision_positions.get(v),
        forall|v: Address| v != user ==> #[trigger] t.balance_of(v) == s.balance_of(v),
{
}

/// A stake stays as it is until the round is resolved.
pub proof fn law_stakes_stay_until_resolution(s: State, request: Request, t: State)
    requires
        s.after(request) == Ok::<State, ContractError>(t),
        !(request is ResolveRound),
    ensures
        s.updown_positions.submap_of(t.updown_positions),
        s.precision_positions.submap_of(t.precision_positions),
        t.positions == s.positions,
{
}

/// A user who has a stake in the round cannot add another.
pub proof fn law_one_stake_per_round(
    s: State,
    user: Address,
    amount: i128,
    side: BetSide,
    predicted_price: u128,
)
    ensures
        s.updown_positions.contains_key(user) ==> s.place_bet(user, amount, side) is Err,
        s.precision_positions.contains_key(user) ==> s.place_precision_prediction(
            user,
            amount,
            predicted_price,
        ) is Err,
{
}

/// No stake can be made in a ledger in which the round can be resolved.
pub proof fn law_betting_is_over_before_resolution(
    s: State,
    payload: OraclePayload,
    user: Address,
    amount: i128,
    side: BetSide,
    predicted_price: u128,
)
    requires
        s.consistent(),
        s.resolve_round(payload) is Ok,
    ensures
        s.place_bet(user, amount, side) is Err,
        s.place_precision_prediction(user, amount, predicted_price) is Err,
{
}

/// A round is resolved only with data for that round, not from the future and not too old, and
/// only when it has run its full length.
pub proof fn law_resolution_needs_fresh_data(s: State, payload: OraclePayload)
    requires
        s.resolve_round(payload) is Ok,
    ensures
        s.active_round is Some,
        payload.round_id == s.active_round.unwrap().start_ledger,
        payload.price > 0,
        payload.timestamp <= s.timestamp <= payload.timestamp + 300,
        s.active_round.unwrap().end_ledger <= s.sequence,
{
}

/// A resolved round is over: no stake is left, and no data resolves it again.
pub proof fn law_resolved_round_is_over(s: State, payload: OraclePayload, t: State)
    requires
        s.resolve_round(payload) == Ok::<State, ContractError>(t),
    ensures
        t.active_round is None,
        forall|u: Address| #[trigger] t.position_of(u) is None,
        forall|u: Address| #[trigger] t.precision_positions.get(u) is None,
        forall|again: OraclePayload| #[trigger] t.resolve_round(again) is Err,
{
}

/// Data that has resolved one round does not resolve the next: where ledgers are numbered in
/// ascending order, the next round starts in a later ledger.
pub proof fn law_data_resolves_one_round_only(
    s: State,
    payload: OraclePayload,
    t: State,
    sequence: u32,
    timestamp: u64,
    authorized: Seq<Address>,
    start_price: u128,
    mode: Option<u32>,
    u: State,
)
    requires
        s.consistent(),
        s.resolve_round(payload) == Ok::<State, ContractError>(t),
        s.sequence <= sequence,
        t.later(sequence, timestamp, authorized).create_round(start_price, mode) == Ok::<
            State,
            ContractError,
        >(u),
    ensures
        forall|sequence2: u32, timestamp2: u64, authorized2: Seq<Address>|
            (#[trigger] u.later(sequence2, timestamp2, authorized2)).resolve_round(payload) is Err,
{
}

/// The resolution of a round changes no balance, and for a user without a stake in it neither
/// the claim nor the record.
pub proof fn law_resolution_leaves_bystanders_alone(
    s: State,
    payload: OraclePayload,
    t: State,
    user: Address,
)
    requires
        s.consistent(),
        s.resolve_round(payload) == Ok::<State, ContractError>(t),
        !s.takes_part(s.active_round.unwrap().mode, user),
    ensures
        t.balances == s.balances,
        t.pending_of(user) == s.pending_of(user),
        t.stats_of(user) == s.stats_of(user),
{
    let round = s.active_round.unwrap();
    lemma_settlement_shape(
        s,
        round,
        payload.price,
        s.settlement(round, payload.price).unwrap(),
    );
}

/// Where a round has winners, it counts for each participant as one win or one loss, and never
/// takes anything from a claim.
pub proof fn law_participants_are_counted_once(
    s: State,
    payload: OraclePayload,
    t: State,
    user: Address,
)
    requires
        s.consistent(),
        s.resolve_round(payload) == Ok::<State, ContractError>(t),
        s.takes_part(s.active_round.unwrap().mode, user),
    ensures
        ({
            let before = s.stats_of(user);
            let after = t.stats_of(user);
            let winners = s.settlement(s.active_round.unwrap(), payload.price).unwrap().won;
            &&& winners.contains(user) ==> after == before.after_win()
            &&& !winners.contains(user) && winners.len() > 0 ==> after == before.after_loss()
            &&& winners.len() == 0 ==> after == before
        }),
        t.pending_of(user) >= s.pending_of(user),
{
    let round = s.active_round.unwrap();
    let settlement = s.settlement(round, payload.price).unwrap();
    lemma_settlement_shape(s, round, payload.price, settlement);
    if settlement.won.len() == 0 {
        assert(settlement.won =~= Set::empty());
        if round.mode == RoundMode::Precision {
            assert(s.precision_positions.dom().len() > 0) by {
                if s.precision_positions.dom().len() == 0 {
                    assert(s.precision_positions.dom() =~= Set::empty());
                }
            }
            law_winners_take_the_pot(s.precision_positions, payload.price, settlement);
        } else if payload.price != round.price_start {
            let (side, winning_pool, losing_pool) = if payload.price > round.price_start {
                (BetSide::Up, round.pool_up, round.pool_down)
            } else {
                (BetSide::Down, round.pool_down, round.pool_up)
            };
            if winning_pool != 0 {
                law_winners_share_the_pools(
                    s.updown_positions,
                    side,
                    winning_pool,
                    losing_pool,
                    settlement,
                );
            }
        }
    }
    if settlement.payouts.contains_key(user) {
        assert(settlement.payouts[user] >= 0);
        assert(fits(pending_in(s.pending_winnings, user) + settlement.payouts[user]));
    }
}

/// A claim moves the whole amount to the balance; claiming again moves nothing and changes
/// nothing.
pub proof fn law_claim_is_final(s: State, user: Address, t: State)
    requires
        s.claim_winnings(user) == Ok::<State, ContractError>(t),
    ensures
        t.pending_of(user) == 0,
        t.balance_of(user) == s.balance_of(user) + s.pending_of(user),
        t.claim_winnings(user) == Ok::<State, ContractError>(t),
        forall|v: Address| v != user ==> #[trigger] t.balance_of(v) == s.balance_of(v),
        forall|v: Address| v != user ==> #[trigger] t.pending_of(v) == s.pending_of(v),
{
}

/// A new user gets the initial amount, and nobody gets it twice.
pub proof fn law_mint_is_final(s: State, user: Address)
    ensures
        !s.balances.contains_key(user) ==> s.mint_initial(user).balance_of(user) == INITIAL_MINT,
        s.balances.contains_key(user) ==> s.mint_initial(user) == s,
        s.mint_initial(user).mint_initial(user) == s.mint_initial(user),
        forall|v: Address|
            v != user ==> #[trigger] s.mint_initial(user).balance_of(v) == s.balance_of(v),
{
}

/// A user who was given the initial amount never becomes a new user again.
pub proof fn law_balances_stay(s: State, request: Request, t: State)
    requires
        s.after(request) == Ok::<State, ContractError>(t),
    ensures
        s.balances.dom().subset_of(t.balances.dom()),
{
}

/// Rounds are numbered in ascending order, and no number is given twice.
pub proof fn law_round_numbers_grow(s: State, request: Request, t: State)
    requires
        s.after(request) == Ok::<State, ContractError>(t),
    ensures
        request is CreateRound ==> t.last_id() == s.last_id() + 1 && t.active_round is Some
            && t.active_round.unwrap().round_id == t.last_id(),
        !(request is CreateRound) ==> t.last_id() == s.last_id(),
{
}

/// One round runs at a time.
pub proof fn law_one_round_at_a_time(s: State, start_price: u128, mode: Option<u32>)
    requires
        s.active_round is Some,
    ensures
        s.create_round(start_price, mode) is Err,
{
}

/// What has been announced stays announced.
pub proof fn law_events_are_kept(s: State, request: Request, t: State)
    requires
        s.after(request) == Ok::<State, ContractError>(t),
    ensures
        s.events.is_prefix_of(t.events),
        t.events.len() <= s.events.len() + 1,
{
}

} // verus!
