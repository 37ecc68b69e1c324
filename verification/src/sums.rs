//! Sums over finite sets of addresses.

use crate::address::Address;
use vstd::prelude::*;

verus! {

/// Adding one more term.
pub open spec fn adding(f: spec_fn(Address) -> int) -> spec_fn(int, Address) -> int {
    |sum: int, u: Address| sum + f(u)
}

/// The sum of `f` over a finite set.
pub open spec fn sum_over(set: Set<Address>, f: spec_fn(Address) -> int) -> int {
    set.fold(0int, adding(f))
}

/// The sum over no address.
pub proof fn lemma_sum_empty(f: spec_fn(Address) -> int)
    ensures
        sum_over(Set::<Address>::empty(), f) == 0,
{
    vstd::set::fold::lemma_fold_empty(0int, adding(f));
}

/// One more address adds its own term.
pub proof fn lemma_sum_insert(set: Set<Address>, f: spec_fn(Address) -> int, u: Address)
    requires
        set.finite(),
        !set.contains(u),
    ensures
        sum_over(set.insert(u), f) == sum_over(set, f) + f(u),
{
    vstd::set::fold::lemma_fold_insert(set, 0int, adding(f), u);
}

/// One address fewer takes away its own term.
pub proof fn lemma_sum_remove(set: Set<Address>, f: spec_fn(Address) -> int, u: Address)
    requires
        set.finite(),
        set.contains(u),
    ensures
        sum_over(set, f) == sum_over(set.remove(u), f) + f(u),
{
    assert(set.remove(u).insert(u) =~= set);
    lemma_sum_insert(set.remove(u), f, u);
}

/// Equal terms make equal sums.
pub proof fn lemma_sum_same(
    set: Set<Address>,
    f: spec_fn(Address) -> int,
    g: spec_fn(Address) -> int,
)
    requires
        set.finite(),
        forall|u: Address| set.contains(u) ==> #[trigger] f(u) == g(u),
    ensures
        sum_over(set, f) == sum_over(set, g),
    decreases set.len(),
{
    if set.len() == 0 {
        assert(set =~= Set::empty());
        lemma_sum_empty(f);
        lemma_sum_empty(g);
    } else {
        let u = set.choose();
        lemma_sum_remove(set, f, u);
        lemma_sum_remove(set, g, u);
        lemma_sum_same(set.remove(u), f, g);
    }
}

/// The sum of two functions is the sum of their sums.
pub proof fn lemma_sum_add(
    set: Set<Address>,
    f: spec_fn(Address) -> int,
    g: spec_fn(Address) -> int,
    h: spec_fn(Address) -> int,
)
    requires
        set.finite(),
        forall|u: Address| set.contains(u) ==> #[trigger] h(u) == f(u) + g(u),
    ensures
        sum_over(set, h) == sum_over(set, f) + sum_over(set, g),
    decreases set.len(),
{
    if set.len() == 0 {
        assert(set =~= Set::empty());
        lemma_sum_empty(f);
        lemma_sum_empty(g);
        lemma_sum_empty(h);
    } else {
        let u = set.choose();
        lemma_sum_remove(set, f, u);
        lemma_sum_remove(set, g, u);
        lemma_sum_remove(set, h, u);
        lemma_sum_add(set.remove(u), f, g, h);
    }
}

/// Addresses whose term is zero do not count.
pub proof fn lemma_sum_support(small: Set<Address>, large: Set<Address>, f: spec_fn(Address) -> int)
    requires
        large.finite(),
        small.subset_of(large),
        forall|u: Address| large.contains(u) && !small.contains(u) ==> #[trigger] f(u) == 0,
    ensures
        small.finite(),
        sum_over(small, f) == sum_over(large, f),
    decreases large.len(),
{
    vstd::set_lib::lemma_set_subset_finite(large, small);
    if small =~= large {
    } else {
        let u = choose|u: Address| large.contains(u) && !small.contains(u);
        lemma_sum_remove(large, f, u);
        lemma_sum_support(small, large.remove(u), f);
    }
}

/// More addresses make a larger sum, where no term is negative.
pub proof fn lemma_sum_grows(small: Set<Address>, large: Set<Address>, f: spec_fn(Address) -> int)
    requires
        large.finite(),
        small.subset_of(large),
        forall|u: Address| large.contains(u) ==> #[trigger] f(u) >= 0,
    ensures
        0 <= sum_over(small, f) <= sum_over(large, f),
    decreases large.len(),
{
    vstd::set_lib::lemma_set_subset_finite(large, small);
    if large.len() == 0 {
        assert(large =~= Set::empty());
        assert(small =~= Set::empty());
        lemma_sum_empty(f);
    } else if small =~= large {
        let u = large.choose();
        lemma_sum_remove(large, f, u);
        lemma_sum_grows(large.remove(u), large.remove(u), f);
    } else {
        let u = choose|u: Address| large.contains(u) && !small.contains(u);
        lemma_sum_remove(large, f, u);
        lemma_sum_grows(small, large.remove(u), f);
    }
}

} // verus!
