//! The host's list, of predictions.
//!
//! A list of the host is a value, as a map is: adding an item makes another list, to which the
//! handle is then turned. The functions here are the only ones that touch such a list. Their
//! contracts are believed, not proved.

use vstd::prelude::*;

verus! {

/// A handle to a list of the host: `soroban_sdk::Vec`. What it holds is said by [`vec_items`].
#[verifier::external_type_specification]
#[verifier::external_body]
#[verifier::reject_recursive_types(T)]
pub struct ExHostVec<T>(soroban_sdk::Vec<T>);

/// A list of predictions, each as an address, in its three integers, a price and an amount.
pub type HostVec = soroban_sdk::Vec<(u32, u128, u128, u128, i128)>;

/// The items of a list, in order.
pub uninterp spec fn vec_items(v: HostVec) -> Seq<(u32, u128, u128, u128, i128)>;

/// Whether every item of a list is of the list's own type. The host's lists are not bound to the
/// types of their handles, and reading an item of another type panics.
pub uninterp spec fn vec_typed(v: HostVec) -> bool;

/// `soroban_sdk::Vec::new`: a list without items.
#[verifier::external_body]
pub(crate) fn vec_new(env: &soroban_sdk::Env) -> (v: HostVec)
    ensures
        vec_typed(v),
        vec_items(v).len() == 0,
{
    soroban_sdk::Vec::new(env)
}

/// `soroban_sdk::Vec::push_back`: the handle is turned to a list that holds the same items, and
/// behind them one more. A list has room for `u32::MAX` items.
#[verifier::external_body]
pub(crate) fn vec_push_back(v: &mut HostVec, x: (u32, u128, u128, u128, i128))
    requires
        vec_typed(*old(v)),
        vec_items(*old(v)).len() < u32::MAX,
    ensures
        vec_typed(*final(v)),
        vec_items(*final(v)) == vec_items(*old(v)).push(x),
{
    v.push_back(x)
}

/// `soroban_sdk::Vec::len`: how many items the list holds.
#[verifier::external_body]
pub(crate) fn vec_len(v: &HostVec) -> (n: u32)
    ensures
        n == vec_items(*v).len(),
{
    v.len()
}

/// `soroban_sdk::Vec::get`: the item at a place, if the list reaches that far.
#[verifier::external_body]
pub(crate) fn vec_get(v: &HostVec, i: u32) -> (x: Option<(u32, u128, u128, u128, i128)>)
    requires
        vec_typed(*v),
    ensures
        i < vec_items(*v).len() ==> x == Some(vec_items(*v)[i as int]),
        i >= vec_items(*v).len() ==> x is None,
{
    v.get(i)
}

} // verus!
