//! Laws on what a resolved round pays.

use crate::address::Address;
use crate::settlement::{
    closest, comes_first, distance, is_closest, payout, pot, refunds, settle_precision, share,
    winnings, Settlement,
};
use crate::sums::{
    lemma_sum_add, lemma_sum_empty, lemma_sum_remove, lemma_sum_same, lemma_sum_support, sum_over,
};
use crate::types::{BetSide, PrecisionPrediction, UserPosition};
use crate::worth::{bet_amount, bet_on_side, bets, bets_on_side, paid_out, paid_to};
use vstd::prelude::*;

verus! {

/// Where the price has not moved, exactly what was bet is given back.
pub proof fn law_refunds_return_every_bet(positions: Map<Address, UserPosition>)
    requires
        positions.dom().finite(),
    ensures
        paid_out(refunds(positions).payouts) == bets(positions),
        forall|u: Address| #[trigger]
            positions.contains_key(u) ==> refunds(positions).payouts.contains_key(u)
                && refunds(positions).payouts[u] == positions[u].amount,
{
    let payouts = refunds(positions).payouts;
    assert(payouts.dom() =~= positions.dom());
    lemma_sum_same(positions.dom(), paid_to(payouts), bet_amount(positions));
}

/// The share of a bet, in whole units, is its part of the losing pool rounded down.
proof fn lemma_share(amount: int, winning_pool: int, losing_pool: int)
    requires
        winning_pool > 0,
        amount >= 0,
        losing_pool >= 0,
    ensures
        winning_pool * share(amount, winning_pool, losing_pool) <= amount * losing_pool,
        winning_pool * (share(amount, winning_pool, losing_pool) + 1) > amount * losing_pool,
        share(amount, winning_pool, losing_pool) >= 0,
{
    let product = amount * losing_pool;
    let part = share(amount, winning_pool, losing_pool);
    assert(product >= 0) by (nonlinear_arith)
        requires
            product == amount * losing_pool,
            amount >= 0,
            losing_pool >= 0,
    ;
    vstd::arithmetic::div_mod::lemma_fundamental_div_mod(product, winning_pool);
    vstd::arithmetic::div_mod::lemma_mod_bound(product, winning_pool);
    vstd::arithmetic::div_mod::lemma_div_pos_is_pos(product, winning_pool);
    assert(winning_pool * (part + 1) == winning_pool * part + winning_pool) by (nonlinear_arith);
}

/// Shares of a set of bets add up to at most their part of the losing pool, and fall short of it
/// by less than one unit for each bet.
proof fn lemma_shares(
    set: Set<Address>,
    amounts: spec_fn(Address) -> int,
    shares: spec_fn(Address) -> int,
    winning_pool: int,
    losing_pool: int,
)
    requires
        set.finite(),
        winning_pool > 0,
        losing_pool >= 0,
        forall|u: Address| #[trigger]
            set.contains(u) ==> amounts(u) >= 0 && shares(u) == share(
                amounts(u),
                winning_pool,
                losing_pool,
            ),
    ensures
        winning_pool * sum_over(set, shares) <= losing_pool * sum_over(set, amounts),
        winning_pool * (sum_over(set, shares) + set.len()) >= losing_pool * sum_over(set, amounts),
        set.len() > 0 ==> winning_pool * (sum_over(set, shares) + set.len()) > losing_pool
            * sum_over(set, amounts),
    decreases set.len(),
{
    if set.len() == 0 {
        assert(set =~= Set::empty());
        lemma_sum_empty(amounts);
        lemma_sum_empty(shares);
        assert(winning_pool * 0 == 0 && losing_pool * 0 == 0);
    } else {
        let u = set.choose();
        let rest = set.remove(u);
        lemma_sum_remove(set, amounts, u);
        lemma_sum_remove(set, shares, u);
        lemma_shares(rest, amounts, shares, winning_pool, losing_pool);
        lemma_share(amounts(u), winning_pool, losing_pool);
        let a = amounts(u);
        let s = shares(u);
        let rest_amounts = sum_over(rest, amounts);
        let rest_shares = sum_over(rest, shares);
        let n = rest.len() as int;
        assert(winning_pool * (rest_shares + s) == winning_pool * rest_shares + winning_pool * s)
            by (nonlinear_arith);
        assert(losing_pool * (rest_amounts + a) == losing_pool * rest_amounts + a * losing_pool)
            by (nonlinear_arith);
        assert(winning_pool * (rest_shares + s + n + 1) == winning_pool * (rest_shares + n)
            + winning_pool * (s + 1)) by (nonlinear_arith);
    }
}

/// In an Up/Down round the winners are paid no more than everything that was bet, and less than
/// one unit for each winner is lost to rounding. No winner is paid less than the bet.
pub proof fn law_winners_share_the_pools(
    positions: Map<Address, UserPosition>,
    side: BetSide,
    winning_pool: i128,
    losing_pool: i128,
    settlement: Settlement,
)
    requires
        positions.dom().finite(),
        forall|u: Address| #[trigger] positions.contains_key(u) ==> positions[u].amount > 0,
        winning_pool == bets_on_side(positions, side),
        winning_pool > 0,
        losing_pool >= 0,
        winnings(positions, side, winning_pool, losing_pool) == Some(settlement),
    ensures
        settlement.won.finite(),
        paid_out(settlement.payouts) <= winning_pool + losing_pool,
        winning_pool + losing_pool < paid_out(settlement.payouts) + settlement.won.len(),
        forall|u: Address| #[trigger]
            settlement.won.contains(u) ==> settlement.payouts[u] >= positions[u].amount,
{
    let winners = settlement.won;
    let payouts = settlement.payouts;
    let w = winning_pool as int;
    let l = losing_pool as int;
    let amounts = bet_on_side(positions, side);
    let shares = |u: Address| share(positions[u].amount as int, w, l);
    assert(winners.subset_of(positions.dom()));
    vstd::set_lib::lemma_set_subset_finite(positions.dom(), winners);
    assert(payouts.dom() =~= winners);
    lemma_sum_support(winners, positions.dom(), amounts);
    assert(sum_over(winners, amounts) == w);
    assert forall|u: Address| #[trigger] winners.contains(u) implies amounts(u) >= 0 && shares(u)
        == share(amounts(u), w, l) by {
        assert(positions.contains_key(u));
    }
    lemma_shares(winners, amounts, shares, w, l);
    lemma_sum_add(winners, amounts, shares, paid_to(payouts));
    let total = sum_over(winners, shares);
    assert(paid_out(payouts) == w + total);
    assert(total <= l) by (nonlinear_arith)
        requires
            w > 0,
            w * total <= l * w,
    ;
    if winners.len() == 0 {
        assert(winners =~= Set::empty());
        lemma_sum_empty(amounts);
    }
    let n = winners.len() as int;
    assert(l < total + n) by (nonlinear_arith)
        requires
            w > 0,
            w * (total + n) > l * w,
    ;
    assert forall|u: Address| #[trigger] settlement.won.contains(u) implies payouts[u]
        >= positions[u].amount by {
        assert(positions.contains_key(u));
        lemma_share(positions[u].amount as int, w, l);
        assert(payouts.contains_key(u));
    }
}

/// A larger bet on the winning side is paid at least as much.
pub proof fn law_larger_bets_are_paid_more(
    amount: int,
    larger: int,
    winning_pool: int,
    losing_pool: int,
)
    requires
        winning_pool > 0,
        losing_pool >= 0,
        0 <= amount <= larger,
    ensures
        payout(amount, winning_pool, losing_pool) <= payout(larger, winning_pool, losing_pool),
{
    assert(amount * losing_pool <= larger * losing_pool) by (nonlinear_arith)
        requires
            0 <= amount <= larger,
            losing_pool >= 0,
    ;
    vstd::arithmetic::div_mod::lemma_div_is_ordered(
        amount * losing_pool,
        larger * losing_pool,
        winning_pool,
    );
}

/// Of finitely many predictions one is the closest.
proof fn lemma_some_prediction_is_closest(
    set: Set<Address>,
    predictions: Map<Address, PrecisionPrediction>,
    final_price: u128,
) -> (best: Address)
    requires
        set.finite(),
        set.len() > 0,
    ensures
        set.contains(best),
        forall|v: Address| #[trigger]
            set.contains(v) ==> distance(predictions[best].predicted_price, final_price)
                <= distance(predictions[v].predicted_price, final_price),
    decreases set.len(),
{
    let u = set.choose();
    let rest = set.remove(u);
    if rest.len() == 0 {
        assert(rest =~= Set::empty());
        assert forall|v: Address| #[trigger] set.contains(v) implies v == u by {
            if v != u {
                assert(rest.contains(v));
            }
        }
        u
    } else {
        let best = lemma_some_prediction_is_closest(rest, predictions, final_price);
        let winner = if distance(predictions[u].predicted_price, final_price) < distance(
            predictions[best].predicted_price,
            final_price,
        ) {
            u
        } else {
            best
        };
        assert forall|v: Address| #[trigger] set.contains(v) implies distance(
            predictions[winner].predicted_price,
            final_price,
        ) <= distance(predictions[v].predicted_price, final_price) by {
            if v != u {
                assert(rest.contains(v));
            }
        }
        winner
    }
}

/// Of finitely many addresses one comes first.
proof fn lemma_some_address_comes_first(set: Set<Address>) -> (first: Address)
    requires
        set.finite(),
        set.len() > 0,
    ensures
        comes_first(set, first),
    decreases set.len(),
{
    let u = set.choose();
    let rest = set.remove(u);
    if rest.len() == 0 {
        assert(rest =~= Set::empty());
        assert forall|v: Address| #[trigger] set.contains(v) && v != u implies u.precedes(v) by {
            assert(rest.contains(v));
        }
        u
    } else {
        let first = lemma_some_address_comes_first(rest);
        let head = if u.precedes(first) {
            u
        } else {
            first
        };
        assert forall|v: Address| #[trigger] set.contains(v) && v != head implies head.precedes(
            v,
        ) by {
            if v != u {
                assert(rest.contains(v));
            }
        }
        head
    }
}

/// The same amount for each address of a set.
proof fn lemma_sum_constant(set: Set<Address>, f: spec_fn(Address) -> int, c: int)
    requires
        set.finite(),
        forall|u: Address| set.contains(u) ==> #[trigger] f(u) == c,
    ensures
        sum_over(set, f) == c * set.len(),
    decreases set.len(),
{
    if set.len() == 0 {
        assert(set =~= Set::empty());
        lemma_sum_empty(f);
        assert(c * 0 == 0);
    } else {
        let u = set.choose();
        lemma_sum_remove(set, f, u);
        lemma_sum_constant(set.remove(u), f, c);
        let n = set.remove(u).len() as int;
        assert(c * (n + 1) == c * n + c) by (nonlinear_arith);
    }
}

/// In a Precision round with at least one prediction somebody wins, the winners are paid exactly
/// the pot, each of them an even part, and the one whose address comes first also what is left
/// over. Everybody else loses.
pub proof fn law_winners_take_the_pot(
    predictions: Map<Address, PrecisionPrediction>,
    final_price: u128,
    settlement: Settlement,
)
    requires
        predictions.dom().finite(),
        predictions.dom().len() > 0,
        settle_precision(predictions, final_price) == Some(settlement),
    ensures
        settlement.won.finite(),
        settlement.won.len() > 0,
        paid_out(settlement.payouts) == pot(predictions),
        forall|u: Address| #[trigger]
            settlement.won.contains(u) && !comes_first(settlement.won, u)
                ==> settlement.payouts[u] == pot(predictions) / settlement.won.len() as int,
        exists|first: Address| #[trigger]
            comes_first(settlement.won, first) && settlement.payouts[first] == pot(predictions)
                / settlement.won.len() as int + pot(predictions) % settlement.won.len() as int,
        settlement.won.disjoint(settlement.lost),
        settlement.won.union(settlement.lost) == predictions.dom(),
{
    let winners = closest(predictions, final_price);
    let total = pot(predictions);
    let payouts = settlement.payouts;
    assert(winners == settlement.won);
    assert(winners.subset_of(predictions.dom()));
    vstd::set_lib::lemma_set_subset_finite(predictions.dom(), winners);
    let best = lemma_some_prediction_is_closest(predictions.dom(), predictions, final_price);
    assert(is_closest(predictions, final_price, best)) by {
        assert forall|v: Address| #[trigger] predictions.contains_key(v) implies distance(
            predictions[best].predicted_price,
            final_price,
        ) <= distance(predictions[v].predicted_price, final_price) by {
            assert(predictions.dom().contains(v));
        }
    }
    assert(winners.contains(best));
    assert(winners.len() > 0) by {
        if winners.len() == 0 {
            assert(winners =~= Set::empty());
        }
    }
    let first = lemma_some_address_comes_first(winners);
    let n = winners.len() as int;
    let even = |u: Address| total / n;
    let extra = |u: Address|
        if comes_first(winners, u) {
            total % n
        } else {
            0
        };
    assert(payouts.dom() =~= winners);
    lemma_sum_add(winners, even, extra, paid_to(payouts));
    lemma_sum_constant(winners, even, total / n);
    lemma_sum_remove(winners, extra, first);
    let others = winners.remove(first);
    assert forall|u: Address| others.contains(u) implies #[trigger] extra(u) == 0 by {
        if comes_first(winners, u) {
            assert(u.precedes(first) && first.precedes(u));
        }
    }
    lemma_sum_constant(others, extra, 0);
    assert(0 * others.len() == 0);
    vstd::arithmetic::div_mod::lemma_fundamental_div_mod(total, n);
    assert((total / n) * n == n * (total / n)) by (nonlinear_arith);
    assert(payouts.contains_key(first));
    assert(settlement.won.union(settlement.lost) =~= predictions.dom());
}

} // verus!
