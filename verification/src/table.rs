//! The table behind the set of shown chunks: the engine's hash map, keyed by
//! chunk keys, holding presentation handles.
//!
//! Verus does not look inside the engine's map. What the map holds is named by
//! [`table_entries`], and each operation states over that name what the map's
//! documentation says of it. These statements are believed, not proved.

use vstd::prelude::*;

verus! {

/// A hash map of the engine (`bevy::utils::HashMap`, which is
/// `hashbrown::HashMap` with the engine's hasher) from chunk keys to handles.
#[verifier::external_body]
pub struct ChunkTable {
    inner: bevy::utils::HashMap<u64, u64>,
}

/// The key-value pairs that a table holds.
pub uninterp spec fn table_entries(table: ChunkTable) -> Map<u64, u64>;

/// `HashMap::default`: a map without entries.
#[verifier::external_body]
pub(crate) fn table_new() -> (result: ChunkTable)
    ensures
        table_entries(result).dom() == Set::<u64>::empty(),
{
    ChunkTable { inner: bevy::utils::HashMap::default() }
}

/// `HashMap::get`: the value stored under a key, or nothing where the map has
/// no such key.
#[verifier::external_body]
pub(crate) fn table_get(table: &ChunkTable, key: u64) -> (value: Option<u64>)
    ensures
        table_entries(*table).contains_key(key) ==> value == Some(table_entries(*table)[key]),
        !table_entries(*table).contains_key(key) ==> value.is_none(),
{
    table.inner.get(&key).copied()
}

/// `HashMap::insert`: stores the value under the key, replacing what was there,
/// and returns the value that was there before, if any. Other keys keep their values.
#[verifier::external_body]
pub(crate) fn table_insert(table: &mut ChunkTable, key: u64, value: u64) -> (previous: Option<u64>)
    ensures
        table_entries(*final(table)) == table_entries(*old(table)).insert(key, value),
        table_entries(*old(table)).contains_key(key) ==> previous == Some(
            table_entries(*old(table))[key],
        ),
        !table_entries(*old(table)).contains_key(key) ==> previous.is_none(),
{
    table.inner.insert(key, value)
}

/// `HashMap::remove`: takes the key out of the map and returns the value that
/// was stored under it, if any. Other keys keep their values.
#[verifier::external_body]
pub(crate) fn table_remove(table: &mut ChunkTable, key: u64) -> (removed: Option<u64>)
    ensures
        table_entries(*final(table)) == table_entries(*old(table)).remove(key),
        table_entries(*old(table)).contains_key(key) ==> removed == Some(
            table_entries(*old(table))[key],
        ),
        !table_entries(*old(table)).contains_key(key) ==> removed.is_none(),
{
    table.inner.remove(&key)
}

/// `HashMap::keys`: every key of the map once, in an order that is not specified.
#[verifier::external_body]
pub(crate) fn table_keys(table: &ChunkTable) -> (keys: Vec<u64>)
    ensures
        keys@.no_duplicates(),
        forall|key: u64| #[trigger] keys@.contains(key) <==> table_entries(*table).contains_key(key),
{
    table.inner.keys().copied().collect()
}

} // verus!
