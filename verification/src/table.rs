//! Hash tables that hash with the Fx algorithm.
//!
//! vstd describes `HashMap` for any hash builder, but vouches only for std's
//! own. The two functions here are what this crate takes on trust of
//! `rustc_hash::FxBuildHasher`.
use rustc_hash::FxBuildHasher;
use rustc_hash::FxHashMap;
use std::hash::Hash;
use vstd::prelude::*;
use vstd::std_specs::hash::obeys_key_model;

verus! {

/// `rustc_hash::FxBuildHasher`, the hash builder of every table in this crate.
#[verifier::external_type_specification]
#[verifier::external_body]
pub struct ExFxBuildHasher(FxBuildHasher);

/// `HashMap::insert` on a table that hashes with `FxBuildHasher`.
///
/// Trusted: the table afterwards maps `k` to `v` and is otherwise as before.
/// This holds where equal keys hash alike, which `obeys_key_model` says of the
/// key type and which `FxBuildHasher` keeps, since every hasher it builds
/// starts from the same state.
#[verifier::external_body]
pub(crate) fn table_insert<K: Hash + Eq, V>(m: &mut FxHashMap<K, V>, k: K, v: V)
    ensures
        obeys_key_model::<K>() ==> final(m)@ == old(m)@.insert(k, v),
{
    m.insert(k, v);
}

/// `HashMap::get` on a table that hashes with `FxBuildHasher`.
///
/// Trusted: the result is a copy of the value filed under `k`, or `None`
/// where the table has no such key; on the same condition as
/// [`table_insert`].
#[verifier::external_body]
pub(crate) fn table_get<K: Hash + Eq, V: Copy>(m: &FxHashMap<K, V>, k: K) -> (r: Option<V>)
    ensures
        obeys_key_model::<K>() ==> r == (if m@.contains_key(k) {
            Some(m@[k])
        } else {
            None
        }),
{
    m.get(&k).copied()
}

/// An empty table.
pub(crate) fn table_new<K, V>() -> (m: FxHashMap<K, V>)
    ensures
        m@ == Map::<K, V>::empty(),
{
    FxHashMap::default()
}

} // verus!
