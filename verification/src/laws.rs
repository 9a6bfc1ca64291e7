//! What holds of resolution whatever the store and the directory.

use crate::path::{ancestor_chain, lemma_chain_shape};
use crate::resolve::{
    local,
    lookup,
    merge_over,
    resolve_all,
    resolve_in,
    resolve_one,
    store_remove,
    store_set,
    StoreMap,
};
use vstd::prelude::*;

verus! {

/// Along any chain of directories, looking a key up at the first directory
/// that defines it gives what the merged table holds for it.
pub proof fn lemma_resolve_in_is_merged_lookup(
    store: StoreMap,
    chain: Seq<Seq<char>>,
    key: Seq<char>,
)
    ensures
        resolve_in(store, chain, key) == lookup(merge_over(store, chain), key),
    decreases chain.len(),
{
    if chain.len() > 0 {
        lemma_resolve_in_is_merged_lookup(store, chain.drop_first(), key);
    }
}

/// Resolving one key from a directory gives what the table of all the keys
/// visible from that directory holds for it: the two ways of resolving
/// agree, for every store, directory and key.
pub proof fn lemma_resolve_one_agrees_with_resolve_all(
    store: StoreMap,
    dir: Seq<char>,
    key: Seq<char>,
)
    ensures
        resolve_one(store, dir, key) == lookup(resolve_all(store, dir), key),
{
    lemma_resolve_in_is_merged_lookup(store, ancestor_chain(dir), key);
}

/// A key set at a directory resolves from that directory to the value it
/// was set to, whatever the ancestors of the directory define for it.
pub proof fn lemma_set_then_resolve(
    store: StoreMap,
    dir: Seq<char>,
    key: Seq<char>,
    value: Seq<char>,
)
    ensures
        resolve_one(store_set(store, dir, key, value), dir, key) == Some(value),
{
    lemma_chain_shape(dir);
}

/// Stores that agree on every directory of a chain resolve every key
/// along it alike.
pub proof fn lemma_resolve_in_agrees(
    a: StoreMap,
    b: StoreMap,
    chain: Seq<Seq<char>>,
    key: Seq<char>,
)
    requires
        forall|i: int| 0 <= i < chain.len() ==> local(a, #[trigger] chain[i]) == local(b, chain[i]),
    ensures
        resolve_in(a, chain, key) == resolve_in(b, chain, key),
    decreases chain.len(),
{
    if chain.len() > 0 {
        let rest = chain.drop_first();
        assert forall|i: int| 0 <= i < rest.len() implies local(a, #[trigger] rest[i]) == local(
            b,
            rest[i],
        ) by {
            assert(rest[i] == chain[i + 1]);
        }
        lemma_resolve_in_agrees(a, b, rest, key);
        assert(local(a, chain[0]) == local(b, chain[0]));
    }
}

/// After a key is removed at a directory, it resolves from that directory
/// to what the proper ancestors of the directory define for it: the value
/// of the closest of them that defines it, which the removal reveals, or
/// nothing where none does.
pub proof fn lemma_remove_reveals_ancestor(store: StoreMap, dir: Seq<char>, key: Seq<char>)
    ensures
        resolve_one(store_remove(store, dir, key), dir, key) == resolve_in(
            store,
            ancestor_chain(dir).drop_first(),
            key,
        ),
{
    lemma_chain_shape(dir);
    let after = store_remove(store, dir, key);
    let chain = ancestor_chain(dir);
    let rest = chain.drop_first();
    assert(lookup(local(after, dir), key).is_none());
    assert forall|i: int| 0 <= i < rest.len() implies local(after, #[trigger] rest[i]) == local(
        store,
        rest[i],
    ) by {
        assert(rest[i] == chain[i + 1]);
        assert(chain[i + 1].len() < dir.len());
    }
    lemma_resolve_in_agrees(after, store, rest, key);
}

/// Where a proper ancestor of a directory defines a key and no ancestor
/// closer to the directory does, removing the key at the directory makes
/// it resolve to that ancestor's value.
pub proof fn lemma_remove_reveals_value_of(
    store: StoreMap,
    dir: Seq<char>,
    key: Seq<char>,
    i: int,
)
    requires
        1 <= i < ancestor_chain(dir).len(),
        lookup(local(store, ancestor_chain(dir)[i]), key).is_some(),
        forall|j: int| 1 <= j < i ==> lookup(local(store, #[trigger] ancestor_chain(dir)[j]), key).is_none(),
    ensures
        resolve_one(store_remove(store, dir, key), dir, key) == lookup(
            local(store, ancestor_chain(dir)[i]),
            key,
        ),
{
    lemma_remove_reveals_ancestor(store, dir, key);
    lemma_resolve_in_first(store, ancestor_chain(dir).drop_first(), key, i - 1);
}

/// Resolution along a chain gives the value of the first directory of the
/// chain that defines the key.
pub proof fn lemma_resolve_in_first(store: StoreMap, chain: Seq<Seq<char>>, key: Seq<char>, i: int)
    requires
        0 <= i < chain.len(),
        lookup(local(store, chain[i]), key).is_some(),
        forall|j: int| 0 <= j < i ==> lookup(local(store, #[trigger] chain[j]), key).is_none(),
    ensures
        resolve_in(store, chain, key) == lookup(local(store, chain[i]), key),
    decreases i,
{
    if i > 0 {
        let rest = chain.drop_first();
        assert(lookup(local(store, chain[0]), key).is_none());
        assert(rest[i - 1] == chain[i]);
        assert forall|j: int| 0 <= j < i - 1 implies lookup(
            local(store, #[trigger] rest[j]),
            key,
        ).is_none() by {
            assert(rest[j] == chain[j + 1]);
        }
        lemma_resolve_in_first(store, rest, key, i - 1);
    }
}

/// Removing a key at a directory that does not itself define it changes
/// nothing: the store is the same, and so is every lookup.
pub proof fn lemma_remove_absent_changes_nothing(store: StoreMap, dir: Seq<char>, key: Seq<char>)
    requires
        lookup(local(store, dir), key).is_none(),
    ensures
        store_remove(store, dir, key) == store,
        forall|from: Seq<char>, k: Seq<char>|
            resolve_one(store_remove(store, dir, key), from, k) == resolve_one(store, from, k),
        forall|from: Seq<char>|
            resolve_all(store_remove(store, dir, key), from) == resolve_all(store, from),
{
    if store.contains_key(dir) {
        assert(store[dir].remove(key) =~= store[dir]);
    }
    assert(store_remove(store, dir, key) =~= store);
}

} // verus!
