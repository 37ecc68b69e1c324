//! What a resolved round pays, to whom, and whose record it changes.

use crate::address::Address;
use crate::sums::sum_over;
use crate::types::{BetSide, PrecisionPrediction, Round, UserPosition, UserStats};
use vstd::prelude::*;

verus! {

/// Whether a number is one of the amounts that can be stored.
pub open spec fn fits(n: int) -> bool {
    i128::MIN <= n <= i128::MAX
}

/// What a user can claim: nothing where nothing is stored.
pub open spec fn pending_in(pending: Map<Address, i128>, user: Address) -> i128 {
    if pending.contains_key(user) {
        pending[user]
    } else {
        0
    }
}

/// A user's record: a new one where none is stored.
pub open spec fn stats_in(stats: Map<Address, UserStats>, user: Address) -> UserStats {
    if stats.contains_key(user) {
        stats[user]
    } else {
        UserStats::spec_new()
    }
}

/// The claims after each payout has been added to its user's.
pub open spec fn credited(pending: Map<Address, i128>, payouts: Map<Address, int>) -> Map<
    Address,
    i128,
> {
    Map::new(
        |u: Address| pending.contains_key(u) || payouts.contains_key(u),
        |u: Address|
            if payouts.contains_key(u) {
                (pending_in(pending, u) + payouts[u]) as i128
            } else {
                pending[u]
            },
    )
}

/// The records after one more win for each winner and one more loss for each loser.
pub open spec fn recorded(
    stats: Map<Address, UserStats>,
    won: Set<Address>,
    lost: Set<Address>,
) -> Map<Address, UserStats> {
    Map::new(
        |u: Address| stats.contains_key(u) || won.contains(u) || lost.contains(u),
        |u: Address|
            if won.contains(u) {
                stats_in(stats, u).after_win()
            } else if lost.contains(u) {
                stats_in(stats, u).after_loss()
            } else {
                stats[u]
            },
    )
}

/// The outcome of a round: what each user is paid, who has won and who has lost.
#[verifier::ext_equal]
pub struct Settlement {
    pub payouts: Map<Address, int>,
    pub won: Set<Address>,
    pub lost: Set<Address>,
}

impl Settlement {
    /// Nobody is paid, and nobody has won or lost.
    pub open spec fn nothing() -> Settlement {
        Settlement { payouts: Map::empty(), won: Set::empty(), lost: Set::empty() }
    }

    /// Whether every claim and every count still fits its type afterwards.
    pub open spec fn applicable(
        self,
        pending: Map<Address, i128>,
        stats: Map<Address, UserStats>,
    ) -> bool {
        &&& forall|u: Address|
            self.payouts.contains_key(u) ==> fits(
                pending_in(pending, u) + #[trigger] self.payouts[u],
            )
        &&& forall|u: Address| #[trigger] self.won.contains(u) ==> stats_in(stats, u).can_win()
        &&& forall|u: Address| #[trigger] self.lost.contains(u) ==> stats_in(stats, u).can_lose()
    }
}

/// A price that has not moved: everybody gets the bet back, and no record changes.
pub open spec fn refunds(positions: Map<Address, UserPosition>) -> Settlement {
    Settlement {
        payouts: positions.map_values(|p: UserPosition| p.amount as int),
        won: Set::empty(),
        lost: Set::empty(),
    }
}

/// A bet's part of the losing pool, in proportion to the winning pool and rounded down.
pub open spec fn share(amount: int, winning_pool: int, losing_pool: int) -> int {
    (amount * losing_pool) / winning_pool
}

/// The bet and its share of the losing pool.
pub open spec fn payout(amount: int, winning_pool: int, losing_pool: int) -> int {
    amount + share(amount, winning_pool, losing_pool)
}

/// Whether the payout of a bet can be computed.
pub open spec fn payout_fits(amount: int, winning_pool: int, losing_pool: int) -> bool {
    fits(amount * losing_pool) && fits(payout(amount, winning_pool, losing_pool))
}

/// Whether a user has bet on a side.
pub open spec fn bets_on(
    positions: Map<Address, UserPosition>,
    side: BetSide,
    user: Address,
) -> bool {
    positions.contains_key(user) && positions[user].side == side
}

/// The winners get their bets back and share the losing pool; nothing happens where nobody has
/// bet on the winning side. There is no settlement where a payout cannot be computed.
pub open spec fn winnings(
    positions: Map<Address, UserPosition>,
    side: BetSide,
    winning_pool: i128,
    losing_pool: i128,
) -> Option<Settlement> {
    if winning_pool == 0 {
        Some(Settlement::nothing())
    } else if !(forall|u: Address| #[trigger]
        bets_on(positions, side, u) ==> payout_fits(
            positions[u].amount as int,
            winning_pool as int,
            losing_pool as int,
        )) {
        None
    } else {
        Some(
            Settlement {
                payouts: Map::new(
                    |u: Address| bets_on(positions, side, u),
                    |u: Address|
                        payout(positions[u].amount as int, winning_pool as int, losing_pool as int),
                ),
                won: Set::new(|u: Address| bets_on(positions, side, u)),
                lost: Set::new(
                    |u: Address| positions.contains_key(u) && positions[u].side != side,
                ),
            },
        )
    }
}

/// The outcome of an Up/Down round.
pub open spec fn settle_updown(
    positions: Map<Address, UserPosition>,
    round: Round,
    final_price: u128,
) -> Option<Settlement> {
    if final_price == round.price_start {
        Some(refunds(positions))
    } else if final_price > round.price_start {
        winnings(positions, BetSide::Up, round.pool_up, round.pool_down)
    } else {
        winnings(positions, BetSide::Down, round.pool_down, round.pool_up)
    }
}

/// How far two prices are apart.
pub open spec fn distance(a: u128, b: u128) -> int {
    if a >= b {
        a - b
    } else {
        b - a
    }
}

/// Whether nobody's prediction is closer to the price than a user's.
pub open spec fn is_closest(
    predictions: Map<Address, PrecisionPrediction>,
    final_price: u128,
    user: Address,
) -> bool {
    &&& predictions.contains_key(user)
    &&& forall|v: Address| #[trigger]
        predictions.contains_key(v) ==> distance(predictions[user].predicted_price, final_price)
            <= distance(predictions[v].predicted_price, final_price)
}

/// The users whose predictions are the closest.
pub open spec fn closest(
    predictions: Map<Address, PrecisionPrediction>,
    final_price: u128,
) -> Set<Address> {
    Set::new(|u: Address| is_closest(predictions, final_price, u))
}

/// Whether a user is the one of a set whose address comes first.
pub open spec fn comes_first(set: Set<Address>, user: Address) -> bool {
    set.contains(user) && forall|v: Address| #[trigger]
        set.contains(v) && v != user ==> user.precedes(v)
}

/// What a user has staked on a prediction.
pub open spec fn prediction_amount(predictions: Map<Address, PrecisionPrediction>) -> spec_fn(
    Address,
) -> int {
    |u: Address| predictions[u].amount as int
}

/// Everything that was staked on predictions.
pub open spec fn pot(predictions: Map<Address, PrecisionPrediction>) -> int {
    sum_over(predictions.dom(), prediction_amount(predictions))
}

/// A winner's part of the pot: an even part, and for the first winner what is left over.
pub open spec fn pot_part(winners: Set<Address>, total: int, user: Address) -> int {
    total / (winners.len() as int) + if comes_first(winners, user) {
        total % (winners.len() as int)
    } else {
        0
    }
}

/// The outcome of a Precision round: the closest predictions win the pot, and everybody else
/// loses. There is no settlement where the pot does not fit.
pub open spec fn settle_precision(
    predictions: Map<Address, PrecisionPrediction>,
    final_price: u128,
) -> Option<Settlement> {
    let winners = closest(predictions, final_price);
    let total = pot(predictions);
    if predictions.dom() == Set::<Address>::empty() {
        Some(Settlement::nothing())
    } else if !fits(total) {
        None
    } else {
        Some(
            Settlement {
                payouts: Map::new(
                    |u: Address| winners.contains(u),
                    |u: Address| pot_part(winners, total, u),
                ),
                won: winners,
                lost: predictions.dom().difference(winners),
            },
        )
    }
}

} // verus!
