//! How a round is settled.

use crate::address::Address;
use crate::contract::VirtualTokenContract;
use crate::errors::ContractError;
use crate::ledger::Ledger;
use crate::settlement::{
    bets_on, closest, comes_first, credited, distance, fits, payout, payout_fits, pending_in, pot,
    prediction_amount, recorded, refunds, settle_precision, settle_updown, stats_in, winnings,
    Settlement,
};
use crate::shortlist::Shortlist;
use crate::stakes::{lemma_lists, lists};
use crate::state::State;
use crate::sums::{lemma_sum_empty, lemma_sum_insert, sum_over};
use crate::types::{BetSide, PrecisionPrediction, Round, UserStats};
use vstd::prelude::*;

verus! {

/// Whether two states differ in nothing but claims and records.
pub open spec fn same_but_claims(before: State, after: State) -> bool {
    after == (State {
        pending_winnings: after.pending_winnings,
        user_stats: after.user_stats,
        ..before
    })
}

/// Whether a list holds the predictions at given places, which are in ascending order.
pub open spec fn picks(
    predictions: Seq<PrecisionPrediction>,
    at: Seq<int>,
    picked: Seq<PrecisionPrediction>,
) -> bool {
    &&& at.len() == picked.len()
    &&& forall|k: int|
        0 <= k < at.len() ==> 0 <= (#[trigger] at[k]) < predictions.len() && picked[k]
            == predictions[at[k]]
    &&& forall|k: int, l: int|
        0 <= k < l < at.len() ==> (#[trigger] at[k]) < (#[trigger] at[l])
}

/// Whether no prediction of a list is closer to a price than the one at a given place.
pub open spec fn is_nearest(
    predictions: Seq<PrecisionPrediction>,
    final_price: u128,
    i: int,
) -> bool {
    forall|j: int|
        0 <= j < predictions.len() ==> distance(predictions[i].predicted_price, final_price)
            <= distance((#[trigger] predictions[j]).predicted_price, final_price)
}

/// Whether a list holds the predictions that are the closest to a price.
pub open spec fn picks_closest(
    predictions: Seq<PrecisionPrediction>,
    final_price: u128,
    at: Seq<int>,
    picked: Seq<PrecisionPrediction>,
) -> bool {
    &&& picks(predictions, at, picked)
    &&& forall|i: int|
        0 <= i < predictions.len() ==> #[trigger] at.contains(i) == is_nearest(
            predictions,
            final_price,
            i,
        )
}

/// Who made the predictions of a list.
pub open spec fn authors(predictions: Seq<PrecisionPrediction>) -> Seq<Address> {
    predictions.map_values(|p: PrecisionPrediction| p.user)
}

/// What was staked on the predictions of a list.
pub open spec fn staked(predictions: Seq<PrecisionPrediction>) -> int
    decreases predictions.len(),
{
    if predictions.len() == 0 {
        0
    } else {
        staked(predictions.drop_last()) + predictions.last().amount
    }
}

/// What was staked on the first predictions is not more than what was staked on all.
proof fn lemma_staked_grows(predictions: Seq<PrecisionPrediction>, n: int)
    requires
        0 <= n <= predictions.len(),
        forall|i: int| 0 <= i < predictions.len() ==> (#[trigger] predictions[i]).amount > 0,
    ensures
        staked(predictions.take(n)) <= staked(predictions),
    decreases predictions.len() - n,
{
    if n == predictions.len() {
        assert(predictions.take(n) =~= predictions);
    } else {
        lemma_staked_grows(predictions, n + 1);
        assert(predictions.take(n + 1).drop_last() =~= predictions.take(n));
    }
}

/// The predictions of a round, listed, make up its pot.
proof fn lemma_pot(
    all: Map<Address, PrecisionPrediction>,
    predictions: Seq<PrecisionPrediction>,
)
    requires
        lists(authors(predictions), all.dom()),
        forall|i: int|
            0 <= i < predictions.len() ==> all[(#[trigger] predictions[i]).user] == predictions[i],
    ensures
        staked(predictions) == pot(all),
{
    let users = authors(predictions);
    lemma_lists(users, all.dom());
    lemma_staked_is_sum(all, predictions, predictions.len() as int);
    assert(predictions.take(predictions.len() as int) =~= predictions);
    assert(users.take(predictions.len() as int) =~= users);
}

proof fn lemma_staked_is_sum(
    all: Map<Address, PrecisionPrediction>,
    predictions: Seq<PrecisionPrediction>,
    n: int,
)
    requires
        authors(predictions).no_duplicates(),
        forall|i: int|
            0 <= i < predictions.len() ==> all[(#[trigger] predictions[i]).user] == predictions[i],
        0 <= n <= predictions.len(),
    ensures
        staked(predictions.take(n)) == sum_over(
            authors(predictions).take(n).to_set(),
            prediction_amount(all),
        ),
    decreases n,
{
    let users = authors(predictions);
    let f = prediction_amount(all);
    if n == 0 {
        assert(users.take(0).to_set() =~= Set::empty());
        lemma_sum_empty(f);
    } else {
        lemma_staked_is_sum(all, predictions, n - 1);
        let u = users[n - 1];
        let fewer = users.take(n - 1);
        let rest = fewer.to_set();
        assert(predictions.take(n).drop_last() =~= predictions.take(n - 1));
        vstd::seq_lib::seq_to_set_is_finite(fewer);
        assert(!rest.contains(u));
        assert(users.take(n).to_set() =~= rest.insert(u)) by {
            assert forall|v: Address| users.take(n).to_set().contains(v) == rest.insert(
                u,
            ).contains(v) by {
                if users.take(n).to_set().contains(v) {
                    let i = choose|i: int| 0 <= i < n && users.take(n)[i] == v;
                    if i < n - 1 {
                        assert(fewer[i] == v);
                    }
                }
                if rest.contains(v) {
                    let i = choose|i: int| 0 <= i < fewer.len() && fewer[i] == v;
                    assert(users.take(n)[i] == v);
                }
                assert(users.take(n)[n - 1] == u);
            }
        }
        lemma_sum_insert(rest, f, u);
        assert(predictions[n - 1] == all[u]);
    }
}

/// The predictions that are picked are those of the closest users, in ascending order.
proof fn lemma_winners(
    all: Map<Address, PrecisionPrediction>,
    predictions: Seq<PrecisionPrediction>,
    final_price: u128,
    picked: Seq<PrecisionPrediction>,
)
    requires
        lists(authors(predictions), all.dom()),
        forall|i: int|
            0 <= i < predictions.len() ==> all[(#[trigger] predictions[i]).user] == predictions[i],
        exists|at: Seq<int>| picks_closest(predictions, final_price, at, picked),
    ensures
        lists(authors(picked), closest(all, final_price)),
{
    let at = choose|at: Seq<int>| picks_closest(predictions, final_price, at, picked);
    let users = authors(predictions);
    let chosen = authors(picked);
    let best = closest(all, final_price);
    lemma_lists(users, all.dom());
    assert forall|i: int| 0 <= i < predictions.len() implies best.contains(#[trigger] users[i])
        == is_nearest(predictions, final_price, i) by {
        if is_nearest(predictions, final_price, i) {
            assert forall|v: Address| #[trigger] all.contains_key(v) implies distance(
                all[users[i]].predicted_price,
                final_price,
            ) <= distance(all[v].predicted_price, final_price) by {
                let j = choose|j: int| 0 <= j < users.len() && users[j] == v;
                assert(predictions[j] == all[v]);
            }
        }
        if best.contains(users[i]) {
            assert forall|j: int| 0 <= j < predictions.len() implies distance(
                predictions[i].predicted_price,
                final_price,
            ) <= distance((#[trigger] predictions[j]).predicted_price, final_price) by {
                assert(all.contains_key(users[j]));
            }
        }
    }
    assert forall|u: Address| chosen.to_set().contains(u) == best.contains(u) by {
        if chosen.to_set().contains(u) {
            let k = choose|k: int| 0 <= k < chosen.len() && chosen[k] == u;
            assert(at.contains(at[k]));
            assert(users[at[k]] == u);
        }
        if best.contains(u) {
            let i = choose|i: int| 0 <= i < users.len() && users[i] == u;
            assert(best.contains(users[i]));
            assert(at.contains(i));
            let k = choose|k: int| 0 <= k < at.len() && at[k] == i;
            assert(chosen[k] == u);
        }
    }
    assert(chosen.to_set() =~= best);
    assert forall|k: int, l: int| 0 <= k < l < chosen.len() implies (
    #[trigger] chosen[k]).precedes(#[trigger] chosen[l]) by {
        assert(at[k] < at[l]);
        assert(users[at[k]].precedes(users[at[l]]));
    }
}

/// Of a set that is listed in ascending order, the first address is at the head of the list.
proof fn lemma_first(users: Seq<Address>, set: Set<Address>, i: int)
    requires
        lists(users, set),
        0 <= i < users.len(),
    ensures
        comes_first(set, users[i]) == (i == 0),
{
    lemma_lists(users, set);
    if i == 0 {
        assert forall|v: Address| #[trigger] set.contains(v) && v != users[0] implies users[0].precedes(
            v,
        ) by {
            let j = choose|j: int| 0 <= j < users.len() && users[j] == v;
            assert(users[0].precedes(users[j]));
        }
    } else {
        assert(users[0].precedes(users[i]));
        assert(set.contains(users[0]));
    }
}

impl VirtualTokenContract {
    /// Adds a payout to what a user can claim.
    fn _credit(ledger: &mut Ledger, user: Address, amount: i128) -> (result: Result<
        (),
        ContractError,
    >)
        requires
            old(ledger).storage.wf(),
        ensures
            final(ledger).storage.wf(),
            match result {
                Ok(()) => fits(old(ledger)@.pending_of(user) + amount) && final(ledger)@ == (State {
                    pending_winnings: old(ledger)@.pending_winnings.insert(
                        user,
                        (old(ledger)@.pending_of(user) + amount) as i128,
                    ),
                    ..old(ledger)@
                }),
                Err(e) => e == ContractError::Overflow && !fits(
                    old(ledger)@.pending_of(user) + amount,
                ) && final(ledger)@ == old(ledger)@,
            },
    {
        let existing: i128 = match ledger.storage.pending_winnings.get(&user) {
            Some(pending) => pending,
            None => 0,
        };
        match existing.checked_add(amount) {
            Some(pending) => {
                ledger.storage.pending_winnings.set(user, pending);
                Ok(())
            },
            None => Err(ContractError::Overflow),
        }
    }

    /// Counts one more win.
    pub(crate) fn _update_stats_win(ledger: &mut Ledger, user: Address) -> (result: Result<
        (),
        ContractError,
    >)
        requires
            old(ledger).storage.wf(),
        ensures
            final(ledger).storage.wf(),
            match result {
                Ok(()) => old(ledger)@.stats_of(user).can_win() && final(ledger)@ == (State {
                    user_stats: old(ledger)@.user_stats.insert(
                        user,
                        old(ledger)@.stats_of(user).after_win(),
                    ),
                    ..old(ledger)@
                }),
                Err(e) => e == ContractError::Overflow && !old(ledger)@.stats_of(user).can_win()
                    && final(ledger)@ == old(ledger)@,
            },
    {
        let mut stats: UserStats = match ledger.storage.user_stats.get(&user) {
            Some(stats) => stats,
            None => UserStats::new(),
        };
        match stats.total_wins.checked_add(1) {
            Some(total_wins) => stats.total_wins = total_wins,
            None => return Err(ContractError::Overflow),
        }
        match stats.current_streak.checked_add(1) {
            Some(current_streak) => stats.current_streak = current_streak,
            None => return Err(ContractError::Overflow),
        }
        if stats.current_streak > stats.best_streak {
            stats.best_streak = stats.current_streak;
        }
        ledger.storage.user_stats.set(user, stats);
        Ok(())
    }

    /// Counts one more loss, which ends the streak.
    pub(crate) fn _update_stats_loss(ledger: &mut Ledger, user: Address) -> (result: Result<
        (),
        ContractError,
    >)
        requires
            old(ledger).storage.wf(),
        ensures
            final(ledger).storage.wf(),
            match result {
                Ok(()) => old(ledger)@.stats_of(user).can_lose() && final(ledger)@ == (State {
                    user_stats: old(ledger)@.user_stats.insert(
                        user,
                        old(ledger)@.stats_of(user).after_loss(),
                    ),
                    ..old(ledger)@
                }),
                Err(e) => e == ContractError::Overflow && !old(ledger)@.stats_of(user).can_lose()
                    && final(ledger)@ == old(ledger)@,
            },
    {
        let mut stats: UserStats = match ledger.storage.user_stats.get(&user) {
            Some(stats) => stats,
            None => UserStats::new(),
        };
        match stats.total_losses.checked_add(1) {
            Some(total_losses) => stats.total_losses = total_losses,
            None => return Err(ContractError::Overflow),
        }
        stats.current_streak = 0;
        ledger.storage.user_stats.set(user, stats);
        Ok(())
    }

    /// Gives every bet back.
    fn _record_refunds(ledger: &mut Ledger) -> (result: Result<(), ContractError>)
        requires
            old(ledger).wf(),
        ensures
            final(ledger).storage.wf(),
            match old(ledger)@.settled(Some(refunds(old(ledger)@.updown_positions))) {
                Ok(next) => result == Ok::<(), ContractError>(()) && final(ledger)@ == next,
                Err(e) => result == Err::<(), ContractError>(e) && same_but_claims(
                    old(ledger)@,
                    final(ledger)@,
                ),
            },
    {
        let ghost start = ledger@;
        let ghost positions = start.updown_positions;
        let ghost goal = refunds(positions);
        let ghost mut paid = Map::<Address, int>::empty();
        let users = ledger.storage.updown_positions.keys();
        proof {
            lemma_lists(users@, positions.dom());
            assert(credited(start.pending_winnings, paid) =~= start.pending_winnings);
        }
        let mut i: usize = 0;
        while i < users.len()
            invariant
                ledger.storage.wf(),
                i <= users@.len(),
                start == old(ledger)@,
                positions == start.updown_positions,
                goal == refunds(positions),
                users@.no_duplicates(),
                forall|j: int| 0 <= j < users@.len() ==> positions.contains_key(#[trigger] users@[j]),
                forall|j: int| 0 <= j < i ==> paid.contains_key(#[trigger] users@[j]),
                forall|j: int| i <= j < users@.len() ==> !paid.contains_key(#[trigger] users@[j]),
                forall|u: Address| #[trigger]
                    paid.contains_key(u) ==> positions.contains_key(u) && paid[u]
                        == goal.payouts[u],
                forall|u: Address| #[trigger]
                    paid.contains_key(u) ==> fits(
                        pending_in(start.pending_winnings, u) + goal.payouts[u],
                    ),
                ledger@ == (State {
                    pending_winnings: credited(start.pending_winnings, paid),
                    ..start
                }),
            decreases users@.len() - i,
        {
            let user = users[i];
            assert(positions.contains_key(users@[i as int]));
            assert(!paid.contains_key(user));
            if let Some(position) = ledger.storage.updown_positions.get(&user) {
                let ghost before = ledger@;
                assert(goal.payouts.contains_key(user));
                assert(before.pending_of(user) == pending_in(start.pending_winnings, user));
                match Self::_credit(ledger, user, position.amount) {
                    Ok(()) => {},
                    Err(e) => {
                        proof {
                            assert(!fits(
                                pending_in(start.pending_winnings, user) + goal.payouts[user],
                            ));
                            assert(!goal.applicable(start.pending_winnings, start.user_stats));
                        }
                        return Err(e);
                    },
                }
                proof {
                    let more = paid.insert(user, position.amount as int);
                    assert(before.pending_winnings.insert(
                        user,
                        (before.pending_of(user) + position.amount) as i128,
                    ) =~= credited(start.pending_winnings, more));
                    paid = more;
                    assert(users@[i as int] == user);
                }
            }
            i += 1;
        }
        proof {
            assert forall|u: Address| paid.contains_key(u) == goal.payouts.contains_key(u) by {
                if positions.contains_key(u) {
                    let j = choose|j: int| 0 <= j < users@.len() && users@[j] == u;
                    assert(users@[j] == u);
                }
            }
            assert(paid =~= goal.payouts);
            assert(recorded(start.user_stats, Set::empty(), Set::empty()) =~= start.user_stats);
            assert(goal.applicable(start.pending_winnings, start.user_stats)) by {
                assert forall|u: Address| goal.payouts.contains_key(u) implies fits(
                    pending_in(start.pending_winnings, u) + #[trigger] goal.payouts[u],
                ) by {
                    assert(paid.contains_key(u));
                }
            }
        }
        Ok(())
    }

    /// Pays the winning side.
    ///
    /// Each winner gets the bet and a part of the losing pool that is to the losing pool as the
    /// bet is to the winning pool.
    fn _record_winnings(
        ledger: &mut Ledger,
        winning_side: BetSide,
        winning_pool: i128,
        losing_pool: i128,
    ) -> (result: Result<(), ContractError>)
        requires
            old(ledger).wf(),
            winning_pool >= 0,
            losing_pool >= 0,
        ensures
            final(ledger).storage.wf(),
            match old(ledger)@.settled(
                winnings(
                    old(ledger)@.updown_positions,
                    winning_side,
                    winning_pool,
                    losing_pool,
                ),
            ) {
                Ok(next) => result == Ok::<(), ContractError>(()) && final(ledger)@ == next,
                Err(e) => result == Err::<(), ContractError>(e) && same_but_claims(
                    old(ledger)@,
                    final(ledger)@,
                ),
            },
    {
        let ghost start = ledger@;
        let ghost positions = start.updown_positions;
        let ghost outcome = winnings(positions, winning_side, winning_pool, losing_pool);
        if winning_pool == 0 {
            proof {
                let nothing = Settlement::nothing();
                assert(credited(start.pending_winnings, nothing.payouts)
                    =~= start.pending_winnings);
                assert(recorded(start.user_stats, nothing.won, nothing.lost) =~= start.user_stats);
            }
            return Ok(());
        }
        let ghost mut paid = Map::<Address, int>::empty();
        let ghost mut won = Set::<Address>::empty();
        let ghost mut lost = Set::<Address>::empty();
        let users = ledger.storage.updown_positions.keys();
        proof {
            lemma_lists(users@, positions.dom());
            assert(credited(start.pending_winnings, paid) =~= start.pending_winnings);
            assert(recorded(start.user_stats, won, lost) =~= start.user_stats);
        }
        let mut i: usize = 0;
        while i < users.len()
            invariant
                ledger.storage.wf(),
                i <= users@.len(),
                winning_pool > 0,
                losing_pool >= 0,
                start.wf(),
                start == old(ledger)@,
                positions == start.updown_positions,
                outcome == winnings(positions, winning_side, winning_pool, losing_pool),
                users@.no_duplicates(),
                forall|j: int| 0 <= j < users@.len() ==> positions.contains_key(#[trigger] users@[j]),
                forall|j: int|
                    0 <= j < i ==> won.contains(#[trigger] users@[j]) || lost.contains(users@[j]),
                forall|j: int|
                    i <= j < users@.len() ==> !won.contains(#[trigger] users@[j])
                        && !lost.contains(users@[j]),
                forall|u: Address| #[trigger] won.contains(u) ==> bets_on(positions, winning_side, u),
                forall|u: Address| #[trigger]
                    lost.contains(u) ==> positions.contains_key(u) && positions[u].side
                        != winning_side,
                forall|u: Address| #[trigger] paid.contains_key(u) <==> won.contains(u),
                forall|u: Address| #[trigger]
                    paid.contains_key(u) ==> paid[u] == payout(
                        positions[u].amount as int,
                        winning_pool as int,
                        losing_pool as int,
                    ) && payout_fits(
                        positions[u].amount as int,
                        winning_pool as int,
                        losing_pool as int,
                    ) && fits(pending_in(start.pending_winnings, u) + paid[u]),
                forall|u: Address| #[trigger]
                    won.contains(u) ==> stats_in(start.user_stats, u).can_win(),
                forall|u: Address| #[trigger]
                    lost.contains(u) ==> stats_in(start.user_stats, u).can_lose(),
                ledger@ == (State {
                    pending_winnings: credited(start.pending_winnings, paid),
                    user_stats: recorded(start.user_stats, won, lost),
                    ..start
                }),
            decreases users@.len() - i,
        {
            let user = users[i];
            assert(positions.contains_key(users@[i as int]));
            assert(!won.contains(user) && !lost.contains(user));
            assert(!paid.contains_key(user));
            if let Some(position) = ledger.storage.updown_positions.get(&user) {
                let ghost before = ledger@;
                assert(before.pending_of(user) == pending_in(start.pending_winnings, user));
                assert(before.stats_of(user) == stats_in(start.user_stats, user));
                if position.side == winning_side {
                    assert(bets_on(positions, winning_side, user));
                    let ghost exact = payout(
                        position.amount as int,
                        winning_pool as int,
                        losing_pool as int,
                    );
                    let share_numerator: i128 = match position.amount.checked_mul(losing_pool) {
                        Some(product) => product,
                        None => {
                            assert(outcome is None);
                            return Err(ContractError::Overflow);
                        },
                    };
                    proof {
                        assert(position.amount > 0);
                        assert(share_numerator >= 0) by (nonlinear_arith)
                            requires
                                share_numerator == position.amount * losing_pool,
                                position.amount > 0,
                                losing_pool >= 0,
                        ;
                    }
                    let share: i128 = share_numerator / winning_pool;
                    let payout: i128 = match position.amount.checked_add(share) {
                        Some(sum) => sum,
                        None => {
                            assert(outcome is None);
                            return Err(ContractError::Overflow);
                        },
                    };
                    assert(payout == exact);
                    match Self::_credit(ledger, user, payout) {
                        Ok(()) => {},
                        Err(e) => {
                            proof {
                                if let Some(goal) = outcome {
                                    assert(goal.payouts.contains_key(user));
                                    assert(!fits(
                                        pending_in(start.pending_winnings, user)
                                            + goal.payouts[user],
                                    ));
                                }
                            }
                            return Err(e);
                        },
                    }
                    match Self::_update_stats_win(ledger, user) {
                        Ok(()) => {},
                        Err(e) => {
                            proof {
                                if let Some(goal) = outcome {
                                    assert(goal.won.contains(user));
                                }
                            }
                            return Err(e);
                        },
                    }
                    proof {
                        let more = paid.insert(user, exact);
                        assert(before.pending_winnings.insert(
                            user,
                            (before.pending_of(user) + exact) as i128,
                        ) =~= credited(start.pending_winnings, more));
                        assert(before.user_stats.insert(
                            user,
                            before.stats_of(user).after_win(),
                        ) =~= recorded(start.user_stats, won.insert(user), lost));
                        paid = more;
                        won = won.insert(user);
                        assert(users@[i as int] == user);
                    }
                } else {
                    match Self::_update_stats_loss(ledger, user) {
                        Ok(()) => {},
                        Err(e) => {
                            proof {
                                if let Some(goal) = outcome {
                                    assert(goal.lost.contains(user));
                                }
                            }
                            return Err(e);
                        },
                    }
                    proof {
                        assert(before.user_stats.insert(
                            user,
                            before.stats_of(user).after_loss(),
                        ) =~= recorded(start.user_stats, won, lost.insert(user)));
                        lost = lost.insert(user);
                        assert(users@[i as int] == user);
                    }
                }
            }
            i += 1;
        }
        proof {
            assert forall|u: Address| #[trigger] positions.contains_key(u) implies won.contains(u)
                || lost.contains(u) by {
                let j = choose|j: int| 0 <= j < users@.len() && users@[j] == u;
                assert(users@[j] == u);
            }
            assert forall|u: Address| #[trigger] bets_on(positions, winning_side, u) implies
                payout_fits(
                positions[u].amount as int,
                winning_pool as int,
                losing_pool as int,
            ) by {
                assert(positions.contains_key(u));
                assert(won.contains(u));
                assert(paid.contains_key(u));
            }
            let goal = outcome.unwrap();
            assert(goal.won =~= won);
            assert(goal.lost =~= lost);
            assert forall|u: Address| #[trigger]
                goal.payouts.dom().contains(u) == paid.dom().contains(u) && (paid.dom().contains(u)
                    ==> goal.payouts[u] == paid[u]) by {
                assert(goal.won.contains(u) == won.contains(u));
                assert(paid.contains_key(u) == won.contains(u));
            }
            assert(goal.payouts =~= paid);
        }
        Ok(())
    }

    /// Settles an Up/Down round.
    pub(crate) fn _resolve_updown_mode(ledger: &mut Ledger, round: &Round, final_price: u128) -> (result:
        Result<(), ContractError>)
        requires
            old(ledger).wf(),
            round.pool_up >= 0,
            round.pool_down >= 0,
        ensures
            final(ledger).storage.wf(),
            match old(ledger)@.settled(
                settle_updown(old(ledger)@.updown_positions, *round, final_price),
            ) {
                Ok(next) => result == Ok::<(), ContractError>(()) && final(ledger)@ == next,
                Err(e) => result == Err::<(), ContractError>(e) && same_but_claims(
                    old(ledger)@,
                    final(ledger)@,
                ),
            },
    {
        if final_price == round.price_start {
            Self::_record_refunds(ledger)
        } else if final_price > round.price_start {
            Self::_record_winnings(ledger, BetSide::Up, round.pool_up, round.pool_down)
        } else {
            Self::_record_winnings(ledger, BetSide::Down, round.pool_down, round.pool_up)
        }
    }

    /// The predictions that are the closest to a price, in the order in which they are given.
    fn _closest_predictions(
        host: &soroban_sdk::Env,
        predictions: &Vec<PrecisionPrediction>,
        final_price: u128,
    ) -> (winners: Shortlist)
        requires
            predictions@.len() <= u32::MAX,
        ensures
            winners.wf(),
            exists|at: Seq<int>| picks_closest(predictions@, final_price, at, winners@),
            predictions@.len() > 0 ==> winners@.len() > 0,
    {
        let mut min_diff: Option<u128> = None;
        let mut winners = Shortlist::new(host);
        let ghost mut at = Seq::<int>::empty();
        let mut i: usize = 0;
        while i < predictions.len()
            invariant
                i <= predictions@.len(),
                predictions@.len() <= u32::MAX,
                winners.wf(),
                winners@.len() <= i,
                min_diff is None <==> i == 0,
                picks(predictions@, at, winners@),
                forall|k: int| 0 <= k < at.len() ==> (#[trigger] at[k]) < i,
                min_diff matches Some(least) ==> {
                    &&& forall|k: int|
                        0 <= k < at.len() ==> distance(
                            predictions@[#[trigger] at[k]].predicted_price,
                            final_price,
                        ) == least
                    &&& forall|j: int|
                        0 <= j < i ==> least <= distance(
                            (#[trigger] predictions@[j]).predicted_price,
                            final_price,
                        )
                    &&& forall|j: int|
                        0 <= j < i && distance(
                            (#[trigger] predictions@[j]).predicted_price,
                            final_price,
                        ) == least ==> at.contains(j)
                    &&& at.len() > 0
                },
                min_diff is None ==> at.len() == 0,
            decreases predictions@.len() - i,
        {
            let prediction = predictions[i];
            let diff: u128 = if prediction.predicted_price >= final_price {
                prediction.predicted_price - final_price
            } else {
                final_price - prediction.predicted_price
            };
            let ghost before = at;
            match min_diff {
                None => {
                    min_diff = Some(diff);
                    winners.push_back(prediction);
                    proof {
                        at = at.push(i as int);
                        assert(at[0] == i);
                    }
                },
                Some(current_min) => {
                    if diff < current_min {
                        min_diff = Some(diff);
                        winners = Shortlist::new(host);
                        winners.push_back(prediction);
                        proof {
                            at = Seq::<int>::empty().push(i as int);
                            assert(at[0] == i);
                        }
                    } else if diff == current_min {
                        winners.push_back(prediction);
                        proof {
                            at = at.push(i as int);
                            assert(at[at.len() - 1] == i);
                            assert forall|j: int| before.contains(j) implies at.contains(j) by {
                                let k = choose|k: int| 0 <= k < before.len() && before[k] == j;
                                assert(at[k] == j);
                            }
                        }
                    }
                },
            }
            i += 1;
        }
        proof {
            assert forall|j: int| 0 <= j < predictions@.len() implies #[trigger] at.contains(j)
                == is_nearest(predictions@, final_price, j) by {
                let nearest = predictions@[at[0]];
                assert(distance(predictions@[j].predicted_price, final_price) >= distance(
                    nearest.predicted_price,
                    final_price,
                ));
                if at.contains(j) {
                    let k = choose|k: int| 0 <= k < at.len() && at[k] == j;
                    assert(at[k] == j);
                }
            }
            assert(picks_closest(predictions@, final_price, at, winners@));
        }
        winners
    }

    /// What was staked on predictions in all.
    fn _total_pot(predictions: &Vec<PrecisionPrediction>) -> (result: Result<i128, ContractError>)
        requires
            forall|i: int| 0 <= i < predictions@.len() ==> (#[trigger] predictions@[i]).amount > 0,
        ensures
            result == if fits(staked(predictions@)) {
                Ok::<i128, ContractError>(staked(predictions@) as i128)
            } else {
                Err::<i128, ContractError>(ContractError::Overflow)
            },
    {
        let mut total_pot: i128 = 0;
        let mut i: usize = 0;
        while i < predictions.len()
            invariant
                i <= predictions@.len(),
                forall|j: int|
                    0 <= j < predictions@.len() ==> (#[trigger] predictions@[j]).amount > 0,
                total_pot == staked(predictions@.take(i as int)),
                total_pot >= 0,
            decreases predictions@.len() - i,
        {
            proof {
                assert(predictions@.take(i + 1).drop_last() =~= predictions@.take(i as int));
                lemma_staked_grows(predictions@, i + 1);
            }
            match total_pot.checked_add(predictions[i].amount) {
                Some(total) => total_pot = total,
                None => return Err(ContractError::Overflow),
            }
            i += 1;
        }
        assert(predictions@.take(i as int) =~= predictions@);
        Ok(total_pot)
    }

    /// Whether a user is among the authors of a list of predictions.
    fn _is_winner(winners: &Shortlist, user: &Address) -> (found: bool)
        requires
            winners.wf(),
        ensures
            found == authors(winners@).contains(*user),
    {
        let mut i: u32 = 0;
        while i < winners.len()
            invariant
                winners.wf(),
                i <= winners@.len(),
                forall|j: int| 0 <= j < i ==> (#[trigger] winners@[j]).user != *user,
            decreases winners@.len() - i,
        {
            if let Some(winner) = winners.get(i) {
                if winner.user == *user {
                    assert(authors(winners@)[i as int] == *user);
                    return true;
                }
            }
            i += 1;
        }
        assert forall|j: int| 0 <= j < winners@.len() implies authors(winners@)[j] != *user by {
            assert(winners@[j].user != *user);
        }
        false
    }

    /// Settles a Precision round: the closest predictions share the pot evenly, and the first of
    /// them gets what is left over.
    pub(crate) fn _resolve_precision_mode(ledger: &mut Ledger, final_price: u128) -> (result: Result<
        (),
        ContractError,
    >)
        requires
            old(ledger).wf(),
        ensures
            final(ledger).storage.wf(),
            match old(ledger)@.settled(
                settle_precision(old(ledger)@.precision_positions, final_price),
            ) {
                Ok(next) => result == Ok::<(), ContractError>(()) && final(ledger)@ == next,
                Err(e) => result == Err::<(), ContractError>(e) && same_but_claims(
                    old(ledger)@,
                    final(ledger)@,
                ),
            },
    {
        let ghost start = ledger@;
        let ghost all = start.precision_positions;
        let ghost outcome = settle_precision(all, final_price);
        let predictions = ledger.storage.precision_positions.values();
        let ghost users = authors(predictions@);
        proof {
            assert(users =~= predictions@.map_values(|p: PrecisionPrediction| p.user));
            lemma_lists(users, all.dom());
            ledger.storage.precision_positions.lemma_shape();
            assert(credited(start.pending_winnings, Map::empty()) =~= start.pending_winnings);
            assert(recorded(start.user_stats, Set::empty(), Set::empty()) =~= start.user_stats);
        }
        if predictions.len() == 0 {
            assert(all.dom() =~= Set::empty());
            return Ok(());
        }
        proof {
            assert(all.contains_key(users[0]));
            assert forall|i: int| 0 <= i < predictions@.len() implies (
            #[trigger] predictions@[i]).amount > 0 by {
                assert(all.contains_key(users[i]));
            }
        }
        let winners = Self::_closest_predictions(&ledger.host, &predictions, final_price);
        let ghost best = closest(all, final_price);
        let ghost chosen = authors(winners@);
        proof {
            lemma_winners(all, predictions@, final_price, winners@);
            lemma_pot(all, predictions@);
        }
        let total_pot = match Self::_total_pot(&predictions) {
            Ok(total) => total,
            Err(e) => return Err(e),
        };
        proof {
            lemma_lists(chosen, best);
            lemma_staked_grows(predictions@, 1);
            assert(predictions@.take(1).drop_last() =~= Seq::empty());
            assert(staked(predictions@.take(1).drop_last()) == 0);
        }
        assert(total_pot > 0);
        let ghost goal = outcome.unwrap();
        let ghost mut paid = Map::<Address, int>::empty();
        let ghost mut won = Set::<Address>::empty();
        let ghost mut lost = Set::<Address>::empty();
        if winners.len() > 0 && total_pot > 0 {
            let winner_count: i128 = winners.len() as i128;
            let payout_per_winner: i128 = total_pot / winner_count;
            let remainder: i128 = total_pot % winner_count;
            proof {
                vstd::arithmetic::div_mod::lemma_fundamental_div_mod(
                    total_pot as int,
                    winner_count as int,
                );
                assert(payout_per_winner + remainder <= total_pot) by (nonlinear_arith)
                    requires
                        total_pot == winner_count * payout_per_winner + remainder,
                        winner_count >= 1,
                        payout_per_winner >= 0,
                ;
            }
            let mut i: u32 = 0;
            while i < winners.len()
                invariant
                    ledger.storage.wf(),
                    winners.wf(),
                    i <= winners@.len(),
                    winners@.len() > 0,
                    start == old(ledger)@,
                    all == start.precision_positions,
                    outcome == settle_precision(all, final_price),
                    outcome == Some(goal),
                    best == closest(all, final_price),
                    goal.won == best,
                    goal.payouts.dom() == best,
                    chosen == authors(winners@),
                    chosen.no_duplicates(),
                    lists(chosen, best),
                    total_pot == pot(all),
                    best.len() == winners@.len(),
                    payout_per_winner == total_pot as int / best.len() as int,
                    remainder == total_pot as int % best.len() as int,
                    0 <= payout_per_winner,
                    0 <= remainder,
                    payout_per_winner + remainder <= total_pot,
                    forall|j: int| 0 <= j < chosen.len() ==> best.contains(#[trigger] chosen[j]),
                    forall|j: int| 0 <= j < i ==> won.contains(#[trigger] chosen[j]),
                    forall|j: int| i <= j < chosen.len() ==> !won.contains(#[trigger] chosen[j]),
                    forall|u: Address| #[trigger]
                        won.contains(u) ==> best.contains(u) && stats_in(
                            start.user_stats,
                            u,
                        ).can_win(),
                    paid.dom() == won,
                    forall|u: Address| #[trigger]
                        paid.contains_key(u) ==> paid[u] == goal.payouts[u] && fits(
                            pending_in(start.pending_winnings, u) + paid[u],
                        ),
                    lost == Set::<Address>::empty(),
                    ledger@ == (State {
                        pending_winnings: credited(start.pending_winnings, paid),
                        user_stats: recorded(start.user_stats, won, lost),
                        ..start
                    }),
                decreases winners@.len() - i,
            {
                if let Some(winner) = winners.get(i) {
                    let user = winner.user;
                    let ghost before = ledger@;
                    proof {
                        assert(chosen[i as int] == user);
                        assert(!won.contains(user));
                        assert(!paid.contains_key(user));
                        assert(before.pending_of(user) == pending_in(start.pending_winnings, user));
                        assert(before.stats_of(user) == stats_in(start.user_stats, user));
                        assert(best.contains(user));
                        assert(comes_first(best, user) == (i == 0)) by {
                            lemma_first(chosen, best, i as int);
                        }
                    }
                    let payout: i128 = if i == 0 {
                        payout_per_winner + remainder
                    } else {
                        payout_per_winner
                    };
                    assert(goal.payouts[user] == payout);
                    match Self::_credit(ledger, user, payout) {
                        Ok(()) => {},
                        Err(e) => {
                            assert(goal.payouts.contains_key(user));
                            return Err(e);
                        },
                    }
                    match Self::_update_stats_win(ledger, user) {
                        Ok(()) => {},
                        Err(e) => {
                            assert(goal.won.contains(user));
                            return Err(e);
                        },
                    }
                    proof {
                        let more = paid.insert(user, payout as int);
                        assert(before.pending_winnings.insert(
                            user,
                            (before.pending_of(user) + payout) as i128,
                        ) =~= credited(start.pending_winnings, more));
                        assert(before.user_stats.insert(user, before.stats_of(user).after_win())
                            =~= recorded(start.user_stats, won.insert(user), lost));
                        paid = more;
                        won = won.insert(user);
                        assert(paid.dom() =~= won);
                    }
                }
                i += 1;
            }
            proof {
                assert forall|u: Address| best.contains(u) == won.contains(u) by {
                    if best.contains(u) {
                        let j = choose|j: int| 0 <= j < chosen.len() && chosen[j] == u;
                        assert(won.contains(chosen[j]));
                    }
                }
                assert(won =~= best);
                assert(paid =~= goal.payouts);
            }
            let mut k: usize = 0;
            while k < predictions.len()
                invariant
                    ledger.storage.wf(),
                    winners.wf(),
                    k <= predictions@.len(),
                    start == old(ledger)@,
                    all == start.precision_positions,
                    outcome == settle_precision(all, final_price),
                    outcome == Some(goal),
                    best == closest(all, final_price),
                    goal.won == best,
                    goal.lost == all.dom().difference(best),
                    won == best,
                    chosen == authors(winners@),
                    lists(chosen, best),
                    users == authors(predictions@),
                    users.no_duplicates(),
                    forall|j: int| 0 <= j < users.len() ==> all.contains_key(#[trigger] users[j]),
                    forall|j: int|
                        0 <= j < k ==> best.contains(#[trigger] users[j]) || lost.contains(users[j]),
                    forall|j: int| k <= j < users.len() ==> !lost.contains(#[trigger] users[j]),
                    forall|u: Address| #[trigger]
                        lost.contains(u) ==> goal.lost.contains(u) && stats_in(
                            start.user_stats,
                            u,
                        ).can_lose(),
                    ledger@ == (State {
                        pending_winnings: credited(start.pending_winnings, paid),
                        user_stats: recorded(start.user_stats, won, lost),
                        ..start
                    }),
                decreases predictions@.len() - k,
            {
                let user = predictions[k].user;
                let ghost before = ledger@;
                proof {
                    assert(users[k as int] == user);
                    assert(chosen.to_set().contains(user) == chosen.contains(user));
                }
                if !Self::_is_winner(&winners, &user) {
                    proof {
                        assert(!best.contains(user));
                        assert(all.contains_key(users[k as int]));
                        assert(goal.lost.contains(user));
                        assert(before.stats_of(user) == stats_in(start.user_stats, user));
                    }
                    match Self::_update_stats_loss(ledger, user) {
                        Ok(()) => {},
                        Err(e) => return Err(e),
                    }
                    proof {
                        assert(before.user_stats.insert(user, before.stats_of(user).after_loss())
                            =~= recorded(start.user_stats, won, lost.insert(user)));
                        lost = lost.insert(user);
                    }
                }
                k += 1;
            }
            proof {
                assert forall|u: Address| goal.lost.contains(u) == lost.contains(u) by {
                    if goal.lost.contains(u) {
                        let j = choose|j: int| 0 <= j < users.len() && users[j] == u;
                        assert(users[j] == u);
                    }
                }
                assert(lost =~= goal.lost);
                assert(goal.applicable(start.pending_winnings, start.user_stats)) by {
                    assert forall|u: Address| goal.payouts.contains_key(u) implies fits(
                        pending_in(start.pending_winnings, u) + #[trigger] goal.payouts[u],
                    ) by {
                        assert(paid.contains_key(u));
                    }
                }
            }
        }
        Ok(())
    }
}

} // verus!
