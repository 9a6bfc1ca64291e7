//! What the store means: the per-directory tables as a map of maps, and the
//! two ways of resolving keys along a chain of directories.

use crate::path::ancestor_chain;
use vstd::prelude::*;

verus! {

/// The table of one directory as a map.
pub type TableMap = Map<Seq<char>, Seq<char>>;

/// The whole store as a map from directory to table.
pub type StoreMap = Map<Seq<char>, Map<Seq<char>, Seq<char>>>;

/// The table that the store holds for `dir`: empty where it holds none.
pub open spec fn local(store: StoreMap, dir: Seq<char>) -> TableMap {
    if store.contains_key(dir) {
        store[dir]
    } else {
        Map::empty()
    }
}

/// The value of `key` in a table, if it defines one.
pub open spec fn lookup(table: TableMap, key: Seq<char>) -> Option<Seq<char>> {
    if table.contains_key(key) {
        Some(table[key])
    } else {
        None
    }
}

/// The value of `key` at the first directory of `chain` that defines it.
pub open spec fn resolve_in(store: StoreMap, chain: Seq<Seq<char>>, key: Seq<char>) -> Option<
    Seq<char>,
>
    decreases chain.len(),
{
    if chain.len() == 0 {
        None
    } else {
        match lookup(local(store, chain[0]), key) {
            Some(v) => Some(v),
            None => resolve_in(store, chain.drop_first(), key),
        }
    }
}

/// The tables of the directories of `chain` merged into one, an earlier
/// directory of the chain winning over a later one.
pub open spec fn merge_over(store: StoreMap, chain: Seq<Seq<char>>) -> TableMap
    decreases chain.len(),
{
    if chain.len() == 0 {
        Map::empty()
    } else {
        merge_over(store, chain.drop_first()).union_prefer_right(local(store, chain[0]))
    }
}

/// The value of `key` as seen from `dir`: that of the closest ancestor of
/// `dir`, itself included, that defines it.
pub open spec fn resolve_one(store: StoreMap, dir: Seq<char>, key: Seq<char>) -> Option<
    Seq<char>,
> {
    resolve_in(store, ancestor_chain(dir), key)
}

/// Every key visible from `dir`, each with the value of the closest
/// ancestor that defines it.
pub open spec fn resolve_all(store: StoreMap, dir: Seq<char>) -> TableMap {
    merge_over(store, ancestor_chain(dir))
}

/// The store after `key` is set to `value` at `dir`, and nowhere else.
pub open spec fn store_set(store: StoreMap, dir: Seq<char>, key: Seq<char>, value: Seq<char>) -> StoreMap {
    store.insert(dir, local(store, dir).insert(key, value))
}

/// The store after `key` is removed at `dir`, and nowhere else.
pub open spec fn store_remove(store: StoreMap, dir: Seq<char>, key: Seq<char>) -> StoreMap {
    if store.contains_key(dir) {
        store.insert(dir, store[dir].remove(key))
    } else {
        store
    }
}

} // verus!
