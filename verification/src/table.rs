//! A table from shard number to position, kept in a `dashmap::DashMap`.
//!
//! The table is handed to the functions that change it by exclusive reference,
//! so nothing else can change it meanwhile.

use dashmap::DashMap;
use vstd::prelude::*;

verus! {

#[verifier::external_type_specification]
#[verifier::external_body]
#[verifier::reject_recursive_types(K)]
#[verifier::reject_recursive_types(V)]
#[verifier::reject_recursive_types(S)]
pub struct ExDashMap<K, V, S>(dashmap::DashMap<K, V, S>);

/// What a table holds.
pub uninterp spec fn table_content(t: dashmap::DashMap<u64, usize>) -> Map<u64, usize>;

/// `dashmap::DashMap::new`: an empty table.
#[verifier::external_body]
pub(crate) fn table_new() -> (r: DashMap<u64, usize>)
    ensures
        table_content(r).dom() == Set::<u64>::empty(),
{
    DashMap::new()
}

/// `dashmap::DashMap::insert`: puts a value under a key, in place of the one that
/// is there, if any. No reference into the table is held.
#[verifier::external_body]
pub(crate) fn table_insert(t: &mut DashMap<u64, usize>, k: u64, v: usize)
    ensures
        table_content(*final(t)) == table_content(*old(t)).insert(k, v),
{
    t.insert(k, v);
}

/// `dashmap::DashMap::remove`: takes a key and its value out.
#[verifier::external_body]
pub(crate) fn table_remove(t: &mut DashMap<u64, usize>, k: u64)
    ensures
        table_content(*final(t)) == table_content(*old(t)).remove(k),
{
    t.remove(&k);
}

/// `dashmap::DashMap::get`: the value under a key, if any.
#[verifier::external_body]
pub(crate) fn table_get(t: &DashMap<u64, usize>, k: u64) -> (r: Option<usize>)
    ensures
        r == (if table_content(*t).contains_key(k) {
            Some(table_content(*t)[k])
        } else {
            None
        }),
{
    t.get(&k).map(|v| *v)
}

} // verus!
