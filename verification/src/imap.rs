//! Trusted interface to `indexmap::IndexMap`, the hash map used by the
//! parameter assembler for its identifier and bond lookups. Each map
//! instantiation gets a name for its contents (as an unordered mathematical
//! map: the assembler keeps its own ordered vectors and never reads an
//! iteration order back out of the map) and wrappers for the three operations
//! the assembler calls.

use vstd::prelude::*;

verus! {

#[verifier::external_type_specification]
#[verifier::external_body]
#[verifier::reject_recursive_types(K)]
#[verifier::reject_recursive_types(V)]
#[verifier::reject_recursive_types(S)]
pub struct ExIndexMap<K, V, S>(indexmap::IndexMap<K, V, S>);

/// The entries held by a map from segment identifiers to indices.
pub uninterp spec fn id_map_view(m: indexmap::IndexMap<String, usize>) -> Map<Seq<char>, usize>;

/// The entries held by a map from ordered identifier pairs to parameter words.
pub uninterp spec fn pair_map_view(m: indexmap::IndexMap<(String, String), u64>) -> Map<(Seq<char>, Seq<char>), u64>;

/// The entries held by a map from bond index pairs to positions.
pub uninterp spec fn bond_map_view(m: indexmap::IndexMap<(usize, usize), usize>) -> Map<(usize, usize), usize>;

/// Relies on IndexMap::with_capacity. Nothing is assumed of the result: a
/// fresh map is cleared before use.
#[verifier::external_body]
pub(crate) fn id_map_with_capacity(capacity: usize) -> indexmap::IndexMap<String, usize> {
    indexmap::IndexMap::with_capacity(capacity)
}

/// Relies on IndexMap::clear: every key of the map is removed.
#[verifier::external_body]
pub(crate) fn id_map_clear(m: &mut indexmap::IndexMap<String, usize>)
    ensures
        id_map_view(*final(m)) == id_map_view(*old(m)).remove_keys(id_map_view(*old(m)).dom()),
{
    m.clear();
}

/// Relies on IndexMap::insert: the value under an existing key is replaced,
/// a missing key is added.
#[verifier::external_body]
pub(crate) fn id_map_insert(m: &mut indexmap::IndexMap<String, usize>, k: String, v: usize)
    ensures
        id_map_view(*final(m)) == id_map_view(*old(m)).insert(k@, v),
{
    m.insert(k, v);
}

/// Relies on IndexMap::get: the value stored under the key, if any.
#[verifier::external_body]
pub(crate) fn id_map_get(m: &indexmap::IndexMap<String, usize>, k: &String) -> (r: Option<usize>)
    ensures
        r == (if id_map_view(*m).dom().contains(k@) {
            Some(id_map_view(*m)[k@])
        } else {
            None::<usize>
        }),
{
    m.get(k).copied()
}

/// Relies on IndexMap::with_capacity. Nothing is assumed of the result: a
/// fresh map is cleared before use.
#[verifier::external_body]
pub(crate) fn pair_map_with_capacity(capacity: usize) -> indexmap::IndexMap<(String, String), u64> {
    indexmap::IndexMap::with_capacity(capacity)
}

/// Relies on IndexMap::clear: every key of the map is removed.
#[verifier::external_body]
pub(crate) fn pair_map_clear(m: &mut indexmap::IndexMap<(String, String), u64>)
    ensures
        pair_map_view(*final(m)) == pair_map_view(*old(m)).remove_keys(pair_map_view(*old(m)).dom()),
{
    m.clear();
}

/// Relies on IndexMap::insert: the value under an existing key is replaced,
/// a missing key is added.
#[verifier::external_body]
pub(crate) fn pair_map_insert(m: &mut indexmap::IndexMap<(String, String), u64>, k1: String, k2: String, v: u64)
    ensures
        pair_map_view(*final(m)) == pair_map_view(*old(m)).insert((k1@, k2@), v),
{
    m.insert((k1, k2), v);
}

/// Relies on IndexMap::get: the value stored under the key, if any.
#[verifier::external_body]
pub(crate) fn pair_map_get(m: &indexmap::IndexMap<(String, String), u64>, k1: &String, k2: &String) -> (r: Option<u64>)
    ensures
        r == (if pair_map_view(*m).dom().contains((k1@, k2@)) {
            Some(pair_map_view(*m)[(k1@, k2@)])
        } else {
            None::<u64>
        }),
{
    m.get(&(k1.clone(), k2.clone())).copied()
}

/// Relies on IndexMap::with_capacity. Nothing is assumed of the result: a
/// fresh map is cleared before use.
#[verifier::external_body]
pub(crate) fn bond_map_with_capacity(capacity: usize) -> indexmap::IndexMap<(usize, usize), usize> {
    indexmap::IndexMap::with_capacity(capacity)
}

/// Relies on IndexMap::clear: every key of the map is removed.
#[verifier::external_body]
pub(crate) fn bond_map_clear(m: &mut indexmap::IndexMap<(usize, usize), usize>)
    ensures
        bond_map_view(*final(m)) == bond_map_view(*old(m)).remove_keys(bond_map_view(*old(m)).dom()),
{
    m.clear();
}

/// Relies on IndexMap::insert: the value under an existing key is replaced,
/// a missing key is added.
#[verifier::external_body]
pub(crate) fn bond_map_insert(m: &mut indexmap::IndexMap<(usize, usize), usize>, k: (usize, usize), v: usize)
    ensures
        bond_map_view(*final(m)) == bond_map_view(*old(m)).insert(k, v),
{
    m.insert(k, v);
}

/// Relies on IndexMap::get: the value stored under the key, if any.
#[verifier::external_body]
pub(crate) fn bond_map_get(m: &indexmap::IndexMap<(usize, usize), usize>, k: (usize, usize)) -> (r: Option<usize>)
    ensures
        r == (if bond_map_view(*m).dom().contains(k) {
            Some(bond_map_view(*m)[k])
        } else {
            None::<usize>
        }),
{
    m.get(&k).copied()
}

} // verus!
