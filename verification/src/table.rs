//! Hash tables keyed by integers, hashed with FNV.
//!
//! The tables are `fnv::FnvHashMap`, that is the standard hash map with the hasher of the `fnv`
//! crate. The functions here hand the map's operations to verified code, each with a contract
//! over the map's view.

use fnv::FnvHashMap;
use std::hash::BuildHasherDefault;
use std::hash::Hash;
use vstd::prelude::*;
use vstd::std_specs::hash::obeys_key_model;

verus! {

/// The hasher of the `fnv` crate. Nothing is known of a value of it.
#[verifier::external_type_specification]
#[verifier::external_body]
pub struct ExFnvHasher(fnv::FnvHasher);

/// The standard builder of hashers that start from their default. Nothing is known of a value
/// of it.
#[verifier::external_type_specification]
#[verifier::external_body]
#[verifier::reject_recursive_types(H)]
pub struct ExBuildHasherDefault<H>(BuildHasherDefault<H>);

/// Calls `default` of `FnvHashMap`: a table without entries.
#[verifier::external_body]
pub(crate) fn table_new<K: Eq + Hash, V>() -> (m: FnvHashMap<K, V>)
    ensures
        m@.dom() == Set::<K>::empty(),
{
    FnvHashMap::default()
}

/// Calls `len` of `FnvHashMap`: the number of entries.
#[verifier::external_body]
pub(crate) fn table_len<K: Eq + Hash, V>(m: &FnvHashMap<K, V>) -> (n: usize)
    requires
        obeys_key_model::<K>(),
    ensures
        n == m@.dom().len(),
{
    m.len()
}

/// Calls `contains_key` of `FnvHashMap`: whether the key has an entry.
#[verifier::external_body]
pub(crate) fn table_contains<K: Eq + Hash, V>(m: &FnvHashMap<K, V>, k: &K) -> (r: bool)
    requires
        obeys_key_model::<K>(),
    ensures
        r == m@.contains_key(*k),
{
    m.contains_key(k)
}

/// Calls `get` of `FnvHashMap`: the value stored under the key, if there is one.
#[verifier::external_body]
pub(crate) fn table_get<'a, K: Eq + Hash, V>(m: &'a FnvHashMap<K, V>, k: &K) -> (r: Option<&'a V>)
    requires
        obeys_key_model::<K>(),
    ensures
        match r {
            Some(v) => m@.contains_key(*k) && *v == m@[*k],
            None => !m@.contains_key(*k),
        },
{
    m.get(k)
}

/// Calls `get_mut` of `FnvHashMap`: a mutable reference to the value stored under the key, if
/// there is one. What is written through the reference becomes the value under that key; no
/// other entry changes.
#[verifier::external_body]
pub(crate) fn table_get_mut<'a, K: Eq + Hash, V>(m: &'a mut FnvHashMap<K, V>, k: &K) -> (r: Option<
    &'a mut V,
>)
    requires
        obeys_key_model::<K>(),
    ensures
        match r {
            Some(v) => old(m)@.contains_key(*k) && *v == old(m)@[*k] && final(m)@ == old(m)@.insert(
                *k,
                *final(v),
            ),
            None => !old(m)@.contains_key(*k) && final(m)@ == old(m)@,
        },
{
    m.get_mut(k)
}

/// Calls `insert` of `FnvHashMap`: the key maps to the value afterwards, and no other entry
/// changes.
#[verifier::external_body]
pub(crate) fn table_insert<K: Eq + Hash, V>(m: &mut FnvHashMap<K, V>, k: K, v: V)
    requires
        obeys_key_model::<K>(),
    ensures
        final(m)@ == old(m)@.insert(k, v),
{
    m.insert(k, v);
}

/// Calls `remove` of `FnvHashMap`: the key has no entry afterwards, and no other entry changes.
#[verifier::external_body]
pub(crate) fn table_remove<K: Eq + Hash, V>(m: &mut FnvHashMap<K, V>, k: &K)
    requires
        obeys_key_model::<K>(),
    ensures
        final(m)@ == old(m)@.remove(*k),
{
    m.remove(k);
}

} // verus!
