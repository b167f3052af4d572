//! The concurrent map (`dashmap::DashMap`) that holds per-stream counters,
//! with a contract for each operation the library performs on it.
use vstd::prelude::*;

verus! {

/// `dashmap::DashMap`, a concurrent hash map.
#[verifier::external_type_specification]
#[verifier::external_body]
#[verifier::reject_recursive_types(K)]
#[verifier::reject_recursive_types(V)]
#[verifier::reject_recursive_types(S)]
pub struct ExDashMap<K, V, S>(dashmap::DashMap<K, V, S>);

/// A per-stream table: stream id to a 16-bit counter.
pub type SeqTable = dashmap::DashMap<u8, u16>;

/// What a table holds, as a map from stream id to counter.
pub uninterp spec fn table_contents(m: SeqTable) -> Map<u8, u16>;

/// Relies on `DashMap::new`: a fresh map holds no entry.
#[verifier::external_body]
pub(crate) fn table_new() -> (r: SeqTable)
    ensures
        table_contents(r) =~= Map::empty(),
{
    dashmap::DashMap::new()
}

/// Relies on `DashMap::get`: the value stored under the key, if any.
#[verifier::external_body]
pub(crate) fn table_get(m: &SeqTable, k: u8) -> (r: Option<u16>)
    ensures
        r == (if table_contents(*m).contains_key(k) {
            Some(table_contents(*m)[k])
        } else {
            None::<u16>
        }),
{
    m.get(&k).map(|v| *v)
}

/// Relies on `DashMap::insert`: the key now maps to the value, the other
/// entries are unchanged.
#[verifier::external_body]
pub(crate) fn table_insert(m: &mut SeqTable, k: u8, v: u16)
    ensures
        table_contents(*final(m)) == table_contents(*old(m)).insert(k, v),
{
    m.insert(k, v);
}

/// Relies on `DashMap::remove`: the key is gone, the other entries are
/// unchanged.
#[verifier::external_body]
pub(crate) fn table_remove(m: &mut SeqTable, k: u8)
    ensures
        table_contents(*final(m)) == table_contents(*old(m)).remove(k),
{
    m.remove(&k);
}

} // verus!
