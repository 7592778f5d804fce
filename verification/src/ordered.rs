//! The insertion-ordered map that holds a store's entries, and what is
//! taken on trust about it.

use crate::order::keys_ascend;
use crate::pairs::{distinct_keys, has_key, pairs_of, removed, value_of, with_pair, Pair};
use crate::text::opt_text;
use indexmap::IndexMap;
use vstd::prelude::*;

verus! {

/// `indexmap::IndexMap`, the map that keeps its pairs in the order in which
/// their keys were first inserted. Nothing inside it is visible here.
#[verifier::external_type_specification]
#[verifier::external_body]
#[verifier::reject_recursive_types(K)]
#[verifier::reject_recursive_types(V)]
#[verifier::reject_recursive_types(S)]
pub struct ExIndexMap<K, V, S>(IndexMap<K, V, S>);

/// The pairs that a map holds, in the map's own order: that of `iter`,
/// oldest insertion first.
pub uninterp spec fn map_pairs(m: IndexMap<String, String>) -> Seq<Pair>;

/// `IndexMap::new`: a map without pairs.
#[verifier::external_body]
pub(crate) fn map_new() -> (m: IndexMap<String, String>)
    ensures
        map_pairs(m) == Seq::<Pair>::empty(),
{
    IndexMap::new()
}

/// `IndexMap::contains_key`: whether the map holds a pair with this key.
#[verifier::external_body]
pub(crate) fn map_contains_key(m: &IndexMap<String, String>, key: &str) -> (b: bool)
    ensures
        b == has_key(map_pairs(*m), key@),
{
    m.contains_key(key)
}

/// `IndexMap::get`: a copy of the value held under the key, if there is one.
#[verifier::external_body]
pub(crate) fn map_get(m: &IndexMap<String, String>, key: &str) -> (r: Option<String>)
    ensures
        opt_text(r) == value_of(map_pairs(*m), key@),
{
    m.get(key).cloned()
}

/// `IndexMap::insert`: an existing key keeps its place, takes the new value
/// and gives the old one back; a new key goes last and nothing comes back.
#[verifier::external_body]
pub(crate) fn map_insert(m: &mut IndexMap<String, String>, key: &str, value: &str) -> (r: Option<
    String,
>)
    ensures
        map_pairs(*final(m)) == with_pair(map_pairs(*old(m)), key@, value@),
        opt_text(r) == value_of(map_pairs(*old(m)), key@),
{
    m.insert(key.to_string(), value.to_string())
}

/// `IndexMap::shift_remove`: the pair with this key leaves and its value
/// comes back, the pairs behind it moving up in their order; no pair with
/// the key is held afterwards. Without the key nothing changes and nothing
/// comes back.
#[verifier::external_body]
pub(crate) fn map_shift_remove(m: &mut IndexMap<String, String>, key: &str) -> (r: Option<String>)
    ensures
        map_pairs(*final(m)) == removed(map_pairs(*old(m)), key@),
        !has_key(map_pairs(*final(m)), key@),
        opt_text(r) == value_of(map_pairs(*old(m)), key@),
{
    m.shift_remove(key)
}

/// `IndexMap::reverse`: the same pairs in the opposite order.
#[verifier::external_body]
pub(crate) fn map_reverse(m: &mut IndexMap<String, String>)
    ensures
        map_pairs(*final(m)) == map_pairs(*old(m)).reverse(),
{
    m.reverse()
}

/// `IndexMap::sort_keys`: the same pairs, ordered by key as strings are
/// ordered, which is by code point. A map holds no key twice, so neither
/// does the sorted one.
#[verifier::external_body]
pub(crate) fn map_sort_keys(m: &mut IndexMap<String, String>)
    ensures
        map_pairs(*final(m)).to_multiset() == map_pairs(*old(m)).to_multiset(),
        keys_ascend(map_pairs(*final(m))),
        distinct_keys(map_pairs(*final(m))),
{
    m.sort_keys()
}

/// `IndexMap::iter`: copies of the pairs held, oldest insertion first.
#[verifier::external_body]
pub(crate) fn map_entries(m: &IndexMap<String, String>) -> (list: Vec<(String, String)>)
    ensures
        pairs_of(list@) == map_pairs(*m),
{
    m.iter().map(|(k, v)| (k.clone(), v.clone())).collect()
}

} // verus!
