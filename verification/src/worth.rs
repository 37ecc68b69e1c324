//! What all users own together.

use crate::address::Address;
use crate::settlement::{credited, fits, pending_in, pot, prediction_amount};
use crate::state::State;
use crate::sums::{
    lemma_sum_add, lemma_sum_empty, lemma_sum_insert, lemma_sum_remove, lemma_sum_same,
    lemma_sum_support, sum_over,
};
use crate::types::{BetSide, PrecisionPrediction, UserPosition};
use vstd::prelude::*;

verus! {

/// The amount that a table holds for a user.
pub open spec fn amount_in(table: Map<Address, i128>) -> spec_fn(Address) -> int {
    |u: Address| table[u] as int
}

/// Everything that a table of amounts holds.
pub open spec fn money(table: Map<Address, i128>) -> int {
    sum_over(table.dom(), amount_in(table))
}

/// What a user has bet.
pub open spec fn bet_amount(positions: Map<Address, UserPosition>) -> spec_fn(Address) -> int {
    |u: Address| positions[u].amount as int
}

/// Everything that was bet.
pub open spec fn bets(positions: Map<Address, UserPosition>) -> int {
    sum_over(positions.dom(), bet_amount(positions))
}

/// What a user has bet on a side.
pub open spec fn bet_on_side(positions: Map<Address, UserPosition>, side: BetSide) -> spec_fn(
    Address,
) -> int {
    |u: Address|
        if positions[u].side == side {
            positions[u].amount as int
        } else {
            0
        }
}

/// Everything that was bet on a side.
pub open spec fn bets_on_side(positions: Map<Address, UserPosition>, side: BetSide) -> int {
    sum_over(positions.dom(), bet_on_side(positions, side))
}

/// What a user is paid.
pub open spec fn paid_to(payouts: Map<Address, int>) -> spec_fn(Address) -> int {
    |u: Address| payouts[u]
}

/// Everything that is paid.
pub open spec fn paid_out(payouts: Map<Address, int>) -> int {
    sum_over(payouts.dom(), paid_to(payouts))
}

impl State {
    /// All balances, all claims and all stakes.
    pub open spec fn worth(self) -> int {
        money(self.balances) + money(self.pending_winnings) + bets(self.updown_positions) + pot(
            self.precision_positions,
        )
    }
}

/// A new amount takes the place of the one before.
pub proof fn lemma_money_insert(table: Map<Address, i128>, user: Address, amount: i128)
    requires
        table.dom().finite(),
    ensures
        money(table.insert(user, amount)) == money(table) - pending_in(table, user) + amount,
{
    let after = table.insert(user, amount);
    let rest = table.dom().remove(user);
    assert(after.dom().remove(user) =~= rest);
    lemma_sum_remove(after.dom(), amount_in(after), user);
    lemma_sum_same(rest, amount_in(after), amount_in(table));
    if table.contains_key(user) {
        lemma_sum_remove(table.dom(), amount_in(table), user);
    } else {
        assert(rest =~= table.dom());
    }
}

/// What is removed is missing from the sum.
pub proof fn lemma_money_remove(table: Map<Address, i128>, user: Address)
    requires
        table.dom().finite(),
    ensures
        money(table.remove(user)) == money(table) - pending_in(table, user),
{
    let after = table.remove(user);
    let rest = table.dom().remove(user);
    assert(after.dom() =~= rest);
    lemma_sum_same(rest, amount_in(after), amount_in(table));
    if table.contains_key(user) {
        lemma_sum_remove(table.dom(), amount_in(table), user);
    } else {
        assert(rest =~= table.dom());
    }
}

/// A new bet adds its amount.
pub proof fn lemma_bets_insert(
    positions: Map<Address, UserPosition>,
    user: Address,
    position: UserPosition,
)
    requires
        positions.dom().finite(),
        !positions.contains_key(user),
    ensures
        bets(positions.insert(user, position)) == bets(positions) + position.amount,
        bets_on_side(positions.insert(user, position), position.side) == bets_on_side(
            positions,
            position.side,
        ) + position.amount,
        forall|side: BetSide|
            side != position.side ==> #[trigger] bets_on_side(
                positions.insert(user, position),
                side,
            ) == bets_on_side(positions, side),
{
    let after = positions.insert(user, position);
    assert(after.dom() =~= positions.dom().insert(user));
    lemma_sum_insert(positions.dom(), bet_amount(after), user);
    lemma_sum_same(positions.dom(), bet_amount(after), bet_amount(positions));
    assert forall|side: BetSide| true implies #[trigger] bets_on_side(after, side) == bets_on_side(
        positions,
        side,
    ) + if side == position.side {
        position.amount as int
    } else {
        0
    } by {
        lemma_sum_insert(positions.dom(), bet_on_side(after, side), user);
        lemma_sum_same(positions.dom(), bet_on_side(after, side), bet_on_side(positions, side));
    }
}

/// A new prediction adds its stake.
pub proof fn lemma_pot_insert(
    predictions: Map<Address, PrecisionPrediction>,
    user: Address,
    prediction: PrecisionPrediction,
)
    requires
        predictions.dom().finite(),
        !predictions.contains_key(user),
    ensures
        pot(predictions.insert(user, prediction)) == pot(predictions) + prediction.amount,
{
    let after = predictions.insert(user, prediction);
    assert(after.dom() =~= predictions.dom().insert(user));
    lemma_sum_insert(predictions.dom(), prediction_amount(after), user);
    lemma_sum_same(predictions.dom(), prediction_amount(after), prediction_amount(predictions));
}

/// Nothing is staked where there are no stakes.
pub proof fn lemma_no_stakes()
    ensures
        bets(Map::<Address, UserPosition>::empty()) == 0,
        pot(Map::<Address, PrecisionPrediction>::empty()) == 0,
        forall|side: BetSide| #[trigger]
            bets_on_side(Map::<Address, UserPosition>::empty(), side) == 0,
{
    let none = Map::<Address, UserPosition>::empty();
    lemma_sum_empty(bet_amount(none));
    lemma_sum_empty(prediction_amount(Map::<Address, PrecisionPrediction>::empty()));
    assert forall|side: BetSide| #[trigger] bets_on_side(none, side) == 0 by {
        lemma_sum_empty(bet_on_side(none, side));
    }
}

/// Every bet is on one of the two sides.
pub proof fn lemma_two_sides(positions: Map<Address, UserPosition>)
    requires
        positions.dom().finite(),
    ensures
        bets(positions) == bets_on_side(positions, BetSide::Up) + bets_on_side(
            positions,
            BetSide::Down,
        ),
{
    lemma_sum_add(
        positions.dom(),
        bet_on_side(positions, BetSide::Up),
        bet_on_side(positions, BetSide::Down),
        bet_amount(positions),
    );
}

/// The claims grow by what is paid.
pub proof fn lemma_money_credited(pending: Map<Address, i128>, payouts: Map<Address, int>)
    requires
        pending.dom().finite(),
        payouts.dom().finite(),
        forall|u: Address|
            payouts.contains_key(u) ==> fits(pending_in(pending, u) + #[trigger] payouts[u]),
    ensures
        money(credited(pending, payouts)) == money(pending) + paid_out(payouts),
{
    let after = credited(pending, payouts);
    let everybody = pending.dom().union(payouts.dom());
    let owed = |u: Address| pending_in(pending, u) as int;
    let added = |u: Address|
        if payouts.contains_key(u) {
            payouts[u]
        } else {
            0
        };
    assert(after.dom() =~= everybody);
    lemma_sum_add(everybody, owed, added, amount_in(after));
    lemma_sum_support(pending.dom(), everybody, owed);
    lemma_sum_same(pending.dom(), owed, amount_in(pending));
    lemma_sum_support(payouts.dom(), everybody, added);
    lemma_sum_same(payouts.dom(), added, paid_to(payouts));
}

} // verus!
