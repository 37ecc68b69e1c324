//! The host's ordered map, from an address to a stake.
//!
//! A map of the host is a value: once made it never changes, and storing a pair makes another
//! map, to which the handle is then turned. The functions here are the only ones that touch such
//! a map. Their contracts are believed, not proved.
//!
//! The host meters what is done for a request. It ends a request that uses up its budget, in any
//! of these calls as anywhere else, and nothing of that request then remains.

use crate::address::key_less;
use vstd::prelude::*;

verus! {

/// A handle to the host: `soroban_sdk::Env`, of which nothing is said.
#[verifier::external_type_specification]
#[verifier::external_body]
pub struct ExHostEnv(soroban_sdk::Env);

/// A handle to a map of the host: `soroban_sdk::Map`. What it holds is said by [`map_pairs`].
#[verifier::external_type_specification]
#[verifier::external_body]
#[verifier::reject_recursive_types(K)]
#[verifier::reject_recursive_types(V)]
pub struct ExHostMap<K, V>(soroban_sdk::Map<K, V>);

/// A map from an address, as its three integers, to an amount and the number that it is staked
/// on.
pub type HostMap = soroban_sdk::Map<(u32, u128, u128), (i128, u128)>;

/// The pairs that a map holds.
pub uninterp spec fn map_pairs(m: HostMap) -> Map<(u32, u128, u128), (i128, u128)>;

/// Whether every key and every value in a map is of the map's own types. The host's maps are
/// not bound to the types of their handles, and reading a pair of other types panics.
pub uninterp spec fn map_typed(m: HostMap) -> bool;

/// `soroban_sdk::Map::new`: a map without pairs.
#[verifier::external_body]
pub(crate) fn map_new(env: &soroban_sdk::Env) -> (m: HostMap)
    ensures
        map_typed(m),
        map_pairs(m).dom() == Set::<(u32, u128, u128)>::empty(),
{
    soroban_sdk::Map::new(env)
}

/// `soroban_sdk::Map::contains_key`: whether the map holds a pair with the key.
#[verifier::external_body]
pub(crate) fn map_contains_key(m: &HostMap, k: (u32, u128, u128)) -> (found: bool)
    requires
        map_typed(*m),
    ensures
        found == map_pairs(*m).contains_key(k),
{
    m.contains_key(k)
}

/// `soroban_sdk::Map::get`: the value that the map holds for the key, if there is one.
#[verifier::external_body]
pub(crate) fn map_get(m: &HostMap, k: (u32, u128, u128)) -> (v: Option<(i128, u128)>)
    requires
        map_typed(*m),
    ensures
        v == map_pairs(*m).get(k),
{
    m.get(k)
}

/// `soroban_sdk::Map::set`: the handle is turned to a map that holds the same pairs, and the
/// value for the key in place of the one before. A map has room for `u32::MAX` pairs.
#[verifier::external_body]
pub(crate) fn map_set(m: &mut HostMap, k: (u32, u128, u128), v: (i128, u128))
    requires
        map_typed(*old(m)),
        map_pairs(*old(m)).contains_key(k) || map_pairs(*old(m)).len() < u32::MAX,
    ensures
        map_typed(*final(m)),
        map_pairs(*final(m)) == map_pairs(*old(m)).insert(k, v),
{
    m.set(k, v)
}

/// `soroban_sdk::Map::keys`: the keys of the map, each once, in ascending order. The host orders
/// tuples by their first components, then by their second, then by their third, and integers by
/// their values.
#[verifier::external_body]
pub(crate) fn map_keys(m: &HostMap) -> (ks: Vec<(u32, u128, u128)>)
    requires
        map_typed(*m),
    ensures
        ks@.to_set() == map_pairs(*m).dom(),
        forall|i: int, j: int|
            0 <= i < j < ks@.len() ==> key_less(#[trigger] ks@[i], #[trigger] ks@[j]),
{
    m.keys().iter().collect()
}

} // verus!
