//! Laws on the resolution of a round: when it is granted, who wins, what everybody is owed
//! afterwards and whose record changes. They speak of what is stored and of nothing else.

use crate::address::Address;
use crate::errors::ContractError;
use crate::payouts::law_winners_take_the_pot;
use crate::settlement::{
    bets_on, closest, comes_first, fits, is_closest, payout_fits, pending_in, pot,
    prediction_amount, refunds, stats_in,
};
use crate::state::State;
use crate::sums::{adding, lemma_sum_grows};
use crate::types::{BetSide, Event, OraclePayload, Round, UserStats};
use vstd::prelude::*;

verus! {

/// A price of zero is refused, then a contract without an oracle, then a paused one, then one
/// without a round. Data for another round, from the future or more than 300 seconds old is
/// refused in this order, and last a round that has not reached its end.
pub proof fn law_resolution_is_refused(s: State, payload: OraclePayload)
    ensures
        payload.price == 0 ==> s.resolve_round(payload) == Err::<State, ContractError>(
            ContractError::InvalidPrice,
        ),
        payload.price > 0 && s.oracle is None ==> s.resolve_round(payload) == Err::<
            State,
            ContractError,
        >(ContractError::OracleNotSet),
        payload.price > 0 && s.oracle is Some && s.paused == Some(true) ==> s.resolve_round(payload)
            == Err::<State, ContractError>(ContractError::ContractPaused),
        payload.price > 0 && s.oracle is Some && s.paused != Some(true) && s.active_round is None
            ==> s.resolve_round(payload) == Err::<State, ContractError>(
            ContractError::NoActiveRound,
        ),
        payload.price > 0 && s.oracle is Some && s.paused != Some(true) && s.active_round is Some
            ==> {
            let result = s.resolve_round(payload);
            let round = s.active_round.unwrap();
            &&& payload.round_id != round.start_ledger ==> result == Err::<State, ContractError>(
                ContractError::InvalidOracleRound,
            )
            &&& payload.round_id == round.start_ledger && payload.timestamp > s.timestamp
                ==> result == Err::<State, ContractError>(ContractError::FutureOracleData)
            &&& payload.round_id == round.start_ledger && s.timestamp > payload.timestamp + 300
                ==> result == Err::<State, ContractError>(ContractError::StaleOracleData)
            &&& payload.round_id == round.start_ledger && payload.timestamp <= s.timestamp
                <= payload.timestamp + 300 && s.sequence < round.end_ledger ==> result == Err::<
                State,
                ContractError,
            >(ContractError::RoundNotEnded)
        },
{
}

/// Good data resolves a round in any ledger from its end on, unless an amount or a count does
/// not fit: then, and only then, the resolution is refused as an overflow. This is an Up/Down
/// round whose price has not moved.
pub proof fn law_unmoved_price_is_resolved(s: State, payload: OraclePayload, round: Round)
    requires
        payload.price > 0,
        s.oracle is Some,
        s.paused != Some(true),
        s.active_round == Some(round),
        payload.round_id == round.start_ledger,
        payload.timestamp <= s.timestamp <= payload.timestamp + 300,
        round.end_ledger <= s.sequence,
        round.mode is UpDown,
        payload.price == round.price_start,
        forall|u: Address| #[trigger]
            s.updown_positions.contains_key(u) ==> s.updown_positions[u].amount > 0,
    ensures
        ({
            let everything_fits = forall|u: Address| #[trigger]
                s.updown_positions.contains_key(u) ==> s.updown_positions[u].amount + (
                if s.pending_winnings.contains_key(u) {
                    s.pending_winnings[u] as int
                } else {
                    0
                }) <= i128::MAX;
            &&& everything_fits ==> s.resolve_round(payload) is Ok
            &&& !everything_fits ==> s.resolve_round(payload) == Err::<State, ContractError>(
                ContractError::Overflow,
            )
        }),
{
    let goal = refunds(s.updown_positions);
    assert forall|u: Address| #[trigger] s.updown_positions.contains_key(u) implies goal.payouts[u]
        == s.updown_positions[u].amount && (fits(
        pending_in(s.pending_winnings, u) + goal.payouts[u],
    ) <==> s.updown_positions[u].amount + pending_in(s.pending_winnings, u) <= i128::MAX) by {}
    if goal.applicable(s.pending_winnings, s.user_stats) {
        assert forall|u: Address| #[trigger] s.updown_positions.contains_key(u) implies
            s.updown_positions[u].amount + pending_in(s.pending_winnings, u) <= i128::MAX by {
            assert(goal.payouts.contains_key(u));
            assert(fits(pending_in(s.pending_winnings, u) + goal.payouts[u]));
        }
    } else {
        assert(exists|u: Address|
            goal.payouts.contains_key(u) && !fits(
                pending_in(s.pending_winnings, u) + #[trigger] goal.payouts[u],
            ));
        let u = choose|u: Address|
            goal.payouts.contains_key(u) && !fits(
                pending_in(s.pending_winnings, u) + #[trigger] goal.payouts[u],
            );
        assert(s.updown_positions.contains_key(u));
    }
}

/// Good data resolves a round in any ledger from its end on, unless an amount or a count does
/// not fit: then, and only then, the resolution is refused as an overflow. This is an Up/Down
/// round whose price has moved.
pub proof fn law_moved_price_is_resolved(s: State, payload: OraclePayload, round: Round)
    requires
        payload.price > 0,
        s.oracle is Some,
        s.paused != Some(true),
        s.active_round == Some(round),
        payload.round_id == round.start_ledger,
        payload.timestamp <= s.timestamp <= payload.timestamp + 300,
        round.end_ledger <= s.sequence,
        round.mode is UpDown,
        payload.price != round.price_start,
        round.pool_up >= 0,
        round.pool_down >= 0,
        forall|u: Address| #[trigger]
            s.updown_positions.contains_key(u) ==> s.updown_positions[u].amount > 0,
    ensures
        ({
            let rose = payload.price > round.price_start;
            let winning_pool = if rose {
                round.pool_up as int
            } else {
                round.pool_down as int
            };
            let losing_pool = if rose {
                round.pool_down as int
            } else {
                round.pool_up as int
            };
            let everything_fits = forall|u: Address| #[trigger]
                s.updown_positions.contains_key(u) ==> {
                    let amount = s.updown_positions[u].amount as int;
                    let claim = if s.pending_winnings.contains_key(u) {
                        s.pending_winnings[u] as int
                    } else {
                        0
                    };
                    if s.updown_positions[u].side is Up == rose {
                        &&& amount * losing_pool <= i128::MAX
                        &&& amount + amount * losing_pool / winning_pool <= i128::MAX
                        &&& claim + amount + amount * losing_pool / winning_pool <= i128::MAX
                        &&& s.user_stats.contains_key(u) ==> s.user_stats[u].total_wins < u32::MAX
                            && s.user_stats[u].current_streak < u32::MAX
                    } else {
                        s.user_stats.contains_key(u) ==> s.user_stats[u].total_losses < u32::MAX
                    }
                };
            &&& winning_pool == 0 || everything_fits ==> s.resolve_round(payload) is Ok
            &&& winning_pool > 0 && !everything_fits ==> s.resolve_round(payload) == Err::<
                State,
                ContractError,
            >(ContractError::Overflow)
        }),
{
    let rose = payload.price > round.price_start;
    let side = if rose {
        BetSide::Up
    } else {
        BetSide::Down
    };
    let winning_pool = if rose {
        round.pool_up as int
    } else {
        round.pool_down as int
    };
    let losing_pool = if rose {
        round.pool_down as int
    } else {
        round.pool_up as int
    };
    let positions = s.updown_positions;
    if winning_pool > 0 {
        assert forall|u: Address| #[trigger] positions.contains_key(u) implies positions[u].amount
            * losing_pool >= 0 && positions[u].amount * losing_pool / winning_pool >= 0 by {
            let amount = positions[u].amount as int;
            assert(amount * losing_pool >= 0) by (nonlinear_arith)
                requires
                    amount > 0,
                    losing_pool >= 0,
            ;
            vstd::arithmetic::div_mod::lemma_div_pos_is_pos(amount * losing_pool, winning_pool);
        }
        assert forall|u: Address| #[trigger] bets_on(positions, side, u) == (
        positions.contains_key(u) && positions[u].side is Up == rose) by {}
        let outcome = s.settlement(round, payload.price);
        if outcome is Some {
            let goal = outcome.unwrap();
            if goal.applicable(s.pending_winnings, s.user_stats) {
                assert forall|u: Address| #[trigger] positions.contains_key(u) implies if bets_on(
                    positions,
                    side,
                    u,
                ) {
                    payout_fits(positions[u].amount as int, winning_pool, losing_pool) && fits(
                        pending_in(s.pending_winnings, u) + goal.payouts[u],
                    ) && stats_in(s.user_stats, u).can_win()
                } else {
                    stats_in(s.user_stats, u).can_lose()
                } by {
                    if bets_on(positions, side, u) {
                        assert(goal.payouts.contains_key(u));
                        assert(goal.won.contains(u));
                    } else {
                        assert(goal.lost.contains(u));
                    }
                }
            } else {
                if exists|u: Address|
                    goal.payouts.contains_key(u) && !fits(
                        pending_in(s.pending_winnings, u) + #[trigger] goal.payouts[u],
                    ) {
                    let u = choose|u: Address|
                        goal.payouts.contains_key(u) && !fits(
                            pending_in(s.pending_winnings, u) + #[trigger] goal.payouts[u],
                        );
                    assert(positions.contains_key(u));
                } else if exists|u: Address| #[trigger]
                    goal.won.contains(u) && !stats_in(s.user_stats, u).can_win() {
                    let u = choose|u: Address| #[trigger]
                        goal.won.contains(u) && !stats_in(s.user_stats, u).can_win();
                    assert(positions.contains_key(u));
                } else {
                    let u = choose|u: Address| #[trigger]
                        goal.lost.contains(u) && !stats_in(s.user_stats, u).can_lose();
                    assert(positions.contains_key(u));
                }
            }
        } else {
            let u = choose|u: Address| #[trigger]
                bets_on(positions, side, u) && !payout_fits(
                    positions[u].amount as int,
                    winning_pool,
                    losing_pool,
                );
            assert(positions.contains_key(u));
        }
    }
}

/// Where the price has not moved, every bet is added to what its user can claim, and no record
/// changes.
pub proof fn law_unmoved_price_returns_the_bets(
    s: State,
    payload: OraclePayload,
    round: Round,
    t: State,
    user: Address,
)
    requires
        s.resolve_round(payload) == Ok::<State, ContractError>(t),
        s.active_round == Some(round),
        round.mode is UpDown,
        payload.price == round.price_start,
    ensures
        s.updown_positions.contains_key(user) ==> t.pending_winnings.contains_key(user)
            && t.pending_winnings[user] == s.updown_positions[user].amount + (
        if s.pending_winnings.contains_key(user) {
            s.pending_winnings[user] as int
        } else {
            0
        }),
        !s.updown_positions.contains_key(user) ==> t.pending_winnings.get(user)
            == s.pending_winnings.get(user),
        t.user_stats.get(user) == s.user_stats.get(user),
{
    let goal = refunds(s.updown_positions);
    if s.updown_positions.contains_key(user) {
        assert(goal.payouts.contains_key(user));
        assert(fits(pending_in(s.pending_winnings, user) + goal.payouts[user]));
    }
}

/// The side that the price has moved to wins: a price above the one at the start makes Up win,
/// and a price below it makes Down win. A bet on that side adds to its user's claim the bet and,
/// in proportion to the winning pool, a part of the losing pool, and it counts as a win. A bet on
/// the other side adds nothing and counts as a loss. Where nothing was bet on the winning side,
/// and for users without a bet, no claim and no record changes.
pub proof fn law_side_of_the_move_wins(
    s: State,
    payload: OraclePayload,
    round: Round,
    t: State,
    user: Address,
)
    requires
        s.resolve_round(payload) == Ok::<State, ContractError>(t),
        s.active_round == Some(round),
        round.mode is UpDown,
        payload.price != round.price_start,
        round.pool_up >= 0,
        round.pool_down >= 0,
    ensures
        ({
            let rose = payload.price > round.price_start;
            let winning_pool = if rose {
                round.pool_up as int
            } else {
                round.pool_down as int
            };
            let losing_pool = if rose {
                round.pool_down as int
            } else {
                round.pool_up as int
            };
            let plays = s.updown_positions.contains_key(user);
            let bet = s.updown_positions[user];
            let claim = if s.pending_winnings.contains_key(user) {
                s.pending_winnings[user] as int
            } else {
                0
            };
            let before = if s.user_stats.contains_key(user) {
                s.user_stats[user]
            } else {
                UserStats { total_wins: 0, total_losses: 0, current_streak: 0, best_streak: 0 }
            };
            let after = t.user_stats[user];
            &&& plays && winning_pool > 0 && bet.side is Up == rose ==> {
                &&& t.pending_winnings.contains_key(user)
                &&& t.pending_winnings[user] == claim + bet.amount + bet.amount * losing_pool
                    / winning_pool
                &&& t.user_stats.contains_key(user)
                &&& after.total_wins == before.total_wins + 1
                &&& after.total_losses == before.total_losses
                &&& after.current_streak == before.current_streak + 1
                &&& after.best_streak >= before.best_streak
                &&& after.best_streak >= after.current_streak
                &&& after.best_streak == before.best_streak || after.best_streak
                    == after.current_streak
            }
            &&& plays && winning_pool > 0 && bet.side is Up != rose ==> {
                &&& t.pending_winnings.get(user) == s.pending_winnings.get(user)
                &&& t.user_stats.contains_key(user)
                &&& after.total_wins == before.total_wins
                &&& after.total_losses == before.total_losses + 1
                &&& after.current_streak == 0
                &&& after.best_streak == before.best_streak
            }
            &&& !plays || winning_pool == 0 ==> {
                &&& t.pending_winnings.get(user) == s.pending_winnings.get(user)
                &&& t.user_stats.get(user) == s.user_stats.get(user)
            }
        }),
{
    let goal = s.settlement(round, payload.price).unwrap();
    if goal.payouts.contains_key(user) {
        assert(fits(pending_in(s.pending_winnings, user) + goal.payouts[user]));
    }
    assert(goal.won.contains(user) ==> stats_in(s.user_stats, user).can_win());
    assert(goal.lost.contains(user) ==> stats_in(s.user_stats, user).can_lose());
}

/// What the predictions of a round add up to, and who of a set of users wins.
proof fn lemma_precision(
    s: State,
    final_price: u128,
    winners: Set<Address>,
    total: int,
)
    requires
        s.precision_positions.dom().finite(),
        forall|u: Address| #[trigger]
            winners.contains(u) <==> s.precision_positions.contains_key(u) && forall|v: Address|
                #[trigger]
                s.precision_positions.contains_key(v) ==> (if s.precision_positions[u].predicted_price
                    - final_price >= 0 {
                    s.precision_positions[u].predicted_price - final_price
                } else {
                    final_price - s.precision_positions[u].predicted_price
                }) <= (if s.precision_positions[v].predicted_price - final_price >= 0 {
                    s.precision_positions[v].predicted_price - final_price
                } else {
                    final_price - s.precision_positions[v].predicted_price
                }),
        total == s.precision_positions.dom().fold(
            0int,
            |sum: int, u: Address| sum + s.precision_positions[u].amount,
        ),
    ensures
        winners == closest(s.precision_positions, final_price),
        total == pot(s.precision_positions),
{
    let predictions = s.precision_positions;
    assert forall|u: Address| #[trigger] winners.contains(u) == is_closest(
        predictions,
        final_price,
        u,
    ) by {}
    assert(winners =~= closest(predictions, final_price));
    assert((|sum: int, u: Address| sum + predictions[u].amount) =~= adding(
        prediction_amount(predictions),
    ));
}

/// Good data resolves a round in any ledger from its end on, unless an amount or a count does
/// not fit: then, and only then, the resolution is refused as an overflow. This is a Precision
/// round. The winners are the users whose distance from the final price nobody falls short of,
/// and the pot is everything that was staked.
pub proof fn law_precision_round_is_resolved(
    s: State,
    payload: OraclePayload,
    round: Round,
    winners: Set<Address>,
    total: int,
)
    requires
        payload.price > 0,
        s.oracle is Some,
        s.paused != Some(true),
        s.active_round == Some(round),
        payload.round_id == round.start_ledger,
        payload.timestamp <= s.timestamp <= payload.timestamp + 300,
        round.end_ledger <= s.sequence,
        round.mode is Precision,
        s.precision_positions.dom().finite(),
        forall|u: Address| #[trigger]
            s.precision_positions.contains_key(u) ==> s.precision_positions[u].amount > 0,
        forall|u: Address| #[trigger]
            winners.contains(u) <==> s.precision_positions.contains_key(u) && forall|v: Address|
                #[trigger]
                s.precision_positions.contains_key(v) ==> (if s.precision_positions[u].predicted_price
                    - payload.price >= 0 {
                    s.precision_positions[u].predicted_price - payload.price
                } else {
                    payload.price - s.precision_positions[u].predicted_price
                }) <= (if s.precision_positions[v].predicted_price - payload.price >= 0 {
                    s.precision_positions[v].predicted_price - payload.price
                } else {
                    payload.price - s.precision_positions[v].predicted_price
                }),
        total == s.precision_positions.dom().fold(
            0int,
            |sum: int, u: Address| sum + s.precision_positions[u].amount,
        ),
    ensures
        ({
            let everything_fits = total <= i128::MAX && forall|u: Address| #[trigger]
                s.precision_positions.contains_key(u) ==> {
                    let claim = if s.pending_winnings.contains_key(u) {
                        s.pending_winnings[u] as int
                    } else {
                        0
                    };
                    let first = forall|v: Address| #[trigger]
                        winners.contains(v) && v != u ==> {
                            ||| u.kind < v.kind
                            ||| u.kind == v.kind && u.upper < v.upper
                            ||| u.kind == v.kind && u.upper == v.upper && u.lower < v.lower
                        };
                    let n = winners.len() as int;
                    if winners.contains(u) {
                        &&& first ==> claim + total / n + total % n <= i128::MAX
                        &&& !first ==> claim + total / n <= i128::MAX
                        &&& s.user_stats.contains_key(u) ==> s.user_stats[u].total_wins < u32::MAX
                            && s.user_stats[u].current_streak < u32::MAX
                    } else {
                        s.user_stats.contains_key(u) ==> s.user_stats[u].total_losses < u32::MAX
                    }
                };
            &&& everything_fits ==> s.resolve_round(payload) is Ok
            &&& !everything_fits ==> s.resolve_round(payload) == Err::<State, ContractError>(
                ContractError::Overflow,
            )
        }),
{
    let predictions = s.precision_positions;
    lemma_precision(s, payload.price, winners, total);
    lemma_sum_grows(Set::empty(), predictions.dom(), prediction_amount(predictions));
    let outcome = s.settlement(round, payload.price);
    if predictions.dom() =~= Set::<Address>::empty() {
        assert forall|u: Address| !#[trigger] predictions.contains_key(u) by {
            assert(!predictions.dom().contains(u));
        }
        vstd::set::fold::lemma_fold_empty(0int, adding(prediction_amount(predictions)));
    } else if total <= i128::MAX {
        let goal = outcome.unwrap();
        assert(predictions.dom().len() > 0) by {
            if predictions.dom().len() == 0 {
                assert(predictions.dom() =~= Set::empty());
            }
        }
        law_winners_take_the_pot(predictions, payload.price, goal);
        let n = winners.len() as int;
        vstd::arithmetic::div_mod::lemma_div_pos_is_pos(total, n);
        vstd::arithmetic::div_mod::lemma_mod_bound(total, n);
        assert forall|u: Address| #[trigger] winners.contains(u) implies predictions.contains_key(u)
            && goal.payouts.contains_key(u) && goal.payouts[u] == total / n + if comes_first(
            winners,
            u,
        ) {
            total % n
        } else {
            0
        } by {}
        if goal.applicable(s.pending_winnings, s.user_stats) {
            assert forall|u: Address| #[trigger] predictions.contains_key(u) implies if winners.contains(
            u) {
                fits(pending_in(s.pending_winnings, u) + goal.payouts[u]) && stats_in(
                    s.user_stats,
                    u,
                ).can_win()
            } else {
                stats_in(s.user_stats, u).can_lose()
            } by {
                if winners.contains(u) {
                    assert(goal.payouts.contains_key(u));
                    assert(goal.won.contains(u));
                } else {
                    assert(goal.lost.contains(u));
                }
            }
        } else {
            if exists|u: Address|
                goal.payouts.contains_key(u) && !fits(
                    pending_in(s.pending_winnings, u) + #[trigger] goal.payouts[u],
                ) {
                let u = choose|u: Address|
                    goal.payouts.contains_key(u) && !fits(
                        pending_in(s.pending_winnings, u) + #[trigger] goal.payouts[u],
                    );
                assert(winners.contains(u));
                assert(predictions.contains_key(u));
            } else if exists|u: Address| #[trigger]
                goal.won.contains(u) && !stats_in(s.user_stats, u).can_win() {
                let u = choose|u: Address| #[trigger]
                    goal.won.contains(u) && !stats_in(s.user_stats, u).can_win();
                assert(predictions.contains_key(u));
            } else {
                let u = choose|u: Address| #[trigger]
                    goal.lost.contains(u) && !stats_in(s.user_stats, u).can_lose();
                assert(predictions.contains_key(u));
            }
        }
    }
}

/// The nearest predictions win: those from whose distance to the final price nobody's is smaller.
/// Each winner's claim grows by an even part of everything that was staked, and that of the
/// winner whose address comes first also by what is left over; it counts as a win. For everybody
/// else who has made a prediction it counts as a loss and the claim stays, and for all others
/// neither claim nor record changes.
pub proof fn law_nearest_predictions_win(
    s: State,
    payload: OraclePayload,
    round: Round,
    winners: Set<Address>,
    total: int,
    t: State,
    user: Address,
)
    requires
        s.resolve_round(payload) == Ok::<State, ContractError>(t),
        s.active_round == Some(round),
        round.mode is Precision,
        s.precision_positions.dom().finite(),
        forall|u: Address| #[trigger]
            winners.contains(u) <==> s.precision_positions.contains_key(u) && forall|v: Address|
                #[trigger]
                s.precision_positions.contains_key(v) ==> (if s.precision_positions[u].predicted_price
                    - payload.price >= 0 {
                    s.precision_positions[u].predicted_price - payload.price
                } else {
                    payload.price - s.precision_positions[u].predicted_price
                }) <= (if s.precision_positions[v].predicted_price - payload.price >= 0 {
                    s.precision_positions[v].predicted_price - payload.price
                } else {
                    payload.price - s.precision_positions[v].predicted_price
                }),
        total == s.precision_positions.dom().fold(
            0int,
            |sum: int, u: Address| sum + s.precision_positions[u].amount,
        ),
    ensures
        ({
            let plays = s.precision_positions.contains_key(user);
            let first = forall|v: Address| #[trigger]
                winners.contains(v) && v != user ==> {
                    ||| user.kind < v.kind
                    ||| user.kind == v.kind && user.upper < v.upper
                    ||| user.kind == v.kind && user.upper == v.upper && user.lower < v.lower
                };
            let n = winners.len() as int;
            let claim = if s.pending_winnings.contains_key(user) {
                s.pending_winnings[user] as int
            } else {
                0
            };
            let before = if s.user_stats.contains_key(user) {
                s.user_stats[user]
            } else {
                UserStats { total_wins: 0, total_losses: 0, current_streak: 0, best_streak: 0 }
            };
            let after = t.user_stats[user];
            &&& winners.contains(user) ==> {
                &&& n > 0
                &&& t.pending_winnings.contains_key(user)
                &&& first ==> t.pending_winnings[user] == claim + total / n + total % n
                &&& !first ==> t.pending_winnings[user] == claim + total / n
                &&& t.user_stats.contains_key(user)
                &&& after.total_wins == before.total_wins + 1
                &&& after.total_losses == before.total_losses
                &&& after.current_streak == before.current_streak + 1
                &&& after.best_streak >= before.best_streak
                &&& after.best_streak >= after.current_streak
                &&& after.best_streak == before.best_streak || after.best_streak
                    == after.current_streak
            }
            &&& plays && !winners.contains(user) ==> {
                &&& t.pending_winnings.get(user) == s.pending_winnings.get(user)
                &&& t.user_stats.contains_key(user)
                &&& after.total_wins == before.total_wins
                &&& after.total_losses == before.total_losses + 1
                &&& after.current_streak == 0
                &&& after.best_streak == before.best_streak
            }
            &&& !plays ==> {
                &&& t.pending_winnings.get(user) == s.pending_winnings.get(user)
                &&& t.user_stats.get(user) == s.user_stats.get(user)
            }
        }),
{
    let predictions = s.precision_positions;
    lemma_precision(s, payload.price, winners, total);
    let goal = s.settlement(round, payload.price).unwrap();
    if predictions.contains_key(user) {
        assert(predictions.dom().contains(user));
        assert(predictions.dom().len() > 0) by {
            if predictions.dom().len() == 0 {
                assert(predictions.dom() =~= Set::empty());
            }
        }
        law_winners_take_the_pot(predictions, payload.price, goal);
        if winners.contains(user) {
            assert(goal.payouts.contains_key(user));
            assert(fits(pending_in(s.pending_winnings, user) + goal.payouts[user]));
            assert(goal.won.contains(user));
            assert(stats_in(s.user_stats, user).can_win());
        } else {
            assert(goal.lost.contains(user));
            assert(stats_in(s.user_stats, user).can_lose());
        }
    } else {
        assert(!winners.contains(user));
    }
}

/// A prediction that lies between the final price and another one never loses to it: where the
/// farther one wins, so does the nearer one.
pub proof fn law_nearer_prediction_never_loses(
    s: State,
    payload: OraclePayload,
    round: Round,
    t: State,
    near: Address,
    far: Address,
)
    requires
        s.resolve_round(payload) == Ok::<State, ContractError>(t),
        s.active_round == Some(round),
        round.mode is Precision,
        s.precision_positions.dom().finite(),
        s.precision_positions.contains_key(near),
        s.precision_positions.contains_key(far),
        ({
            let x = s.precision_positions[near].predicted_price;
            let y = s.precision_positions[far].predicted_price;
            payload.price <= x <= y || y <= x <= payload.price
        }),
        t.user_stats.contains_key(far),
        t.user_stats[far].total_wins > (if s.user_stats.contains_key(far) {
            s.user_stats[far].total_wins as int
        } else {
            0
        }),
    ensures
        t.user_stats.contains_key(near),
        t.user_stats[near].total_wins == 1 + (if s.user_stats.contains_key(near) {
            s.user_stats[near].total_wins as int
        } else {
            0
        }),
{
    let predictions = s.precision_positions;
    let winners = closest(predictions, payload.price);
    let total = predictions.dom().fold(
        0int,
        |sum: int, u: Address| sum + s.precision_positions[u].amount,
    );
    assert forall|u: Address| #[trigger] winners.contains(u) == is_closest(
        predictions,
        payload.price,
        u,
    ) by {}
    law_nearest_predictions_win(s, payload, round, winners, total, t, near);
    law_nearest_predictions_win(s, payload, round, winners, total, t, far);
}

/// The resolution of a round removes the round and every stake and is announced, and apart from
/// claims and records nothing else changes.
pub proof fn law_resolution_closes_the_round(s: State, payload: OraclePayload, t: State)
    requires
        s.resolve_round(payload) == Ok::<State, ContractError>(t),
    ensures
        s.active_round is Some,
        t.active_round is None,
        forall|u: Address| !#[trigger] t.positions.contains_key(u),
        forall|u: Address| !#[trigger] t.updown_positions.contains_key(u),
        forall|u: Address| !#[trigger] t.precision_positions.contains_key(u),
        t.events == s.events.push(
            Event::RoundResolved {
                round_id: s.active_round.unwrap().round_id,
                final_price: payload.price,
                mode: if s.active_round.unwrap().mode is UpDown {
                    0
                } else {
                    1
                },
            },
        ),
        s == (State {
            active_round: s.active_round,
            positions: s.positions,
            updown_positions: s.updown_positions,
            precision_positions: s.precision_positions,
            pending_winnings: s.pending_winnings,
            user_stats: s.user_stats,
            events: s.events,
            ..t
        }),
{
}

} // verus!
