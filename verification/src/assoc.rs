//! The mathematical model shared by the two association lists of the store:
//! a sequence of distinct text keys beside a sequence of values, read as a map.

use vstd::prelude::*;

verus! {

/// The texts held by a sequence of strings.
pub open spec fn texts(v: Seq<String>) -> Seq<Seq<char>> {
    Seq::new(v.len(), |i: int| v[i]@)
}

/// The texts held by a sequence of string slices.
pub open spec fn slice_texts(v: Seq<&str>) -> Seq<Seq<char>> {
    Seq::new(v.len(), |i: int| v[i]@)
}

/// No key occurs twice.
pub open spec fn distinct(keys: Seq<Seq<char>>) -> bool {
    forall|i: int, j: int| 0 <= i < j < keys.len() ==> keys[i] != keys[j]
}

/// Slot `i` is one of the first `n` and holds key `k`.
pub open spec fn holds_at(keys: Seq<Seq<char>>, n: int, k: Seq<char>, i: int) -> bool {
    0 <= i < n && keys[i] == k
}

/// A slot among the first `n` that holds `k`, if there is one.
pub open spec fn slot_of(keys: Seq<Seq<char>>, n: int, k: Seq<char>) -> int {
    choose|i: int| holds_at(keys, n, k, i)
}

/// The map that the first `n` slots of `keys` and `vals` stand for.
pub open spec fn assoc_map<V>(keys: Seq<Seq<char>>, vals: Seq<V>, n: int) -> Map<Seq<char>, V> {
    Map::new(
        |k: Seq<char>| exists|i: int| holds_at(keys, n, k, i),
        |k: Seq<char>| vals[slot_of(keys, n, k)],
    )
}

/// With distinct keys, every slot is an entry of the map, and every entry
/// of the map has its slot.
pub proof fn lemma_assoc<V>(keys: Seq<Seq<char>>, vals: Seq<V>, n: int)
    requires
        distinct(keys),
        0 <= n <= keys.len(),
        keys.len() == vals.len(),
    ensures
        forall|i: int|
            0 <= i < n ==> assoc_map(keys, vals, n).contains_key(#[trigger] keys[i]) && assoc_map(
                keys,
                vals,
                n,
            )[keys[i]] == vals[i],
        forall|k: Seq<char>| #[trigger]
            assoc_map(keys, vals, n).contains_key(k) ==> holds_at(keys, n, k, slot_of(keys, n, k)),
{
    assert forall|i: int| 0 <= i < n implies assoc_map(keys, vals, n).contains_key(
        #[trigger] keys[i],
    ) && assoc_map(keys, vals, n)[keys[i]] == vals[i] by {
        assert(holds_at(keys, n, keys[i], i));
        let j = slot_of(keys, n, keys[i]);
        assert(holds_at(keys, n, keys[i], j));
        assert(j == i);
    }
}

/// A key that no slot holds is no key of the map.
pub proof fn lemma_assoc_absent<V>(keys: Seq<Seq<char>>, vals: Seq<V>, n: int, k: Seq<char>)
    requires
        forall|i: int| 0 <= i < n ==> keys[i] != k,
    ensures
        !assoc_map(keys, vals, n).contains_key(k),
{
    assert forall|i: int| !holds_at(keys, n, k, i) by {}
}

/// Taking one more slot into account adds that slot's entry.
pub proof fn lemma_assoc_step<V>(keys: Seq<Seq<char>>, vals: Seq<V>, n: int)
    requires
        distinct(keys),
        0 <= n < keys.len(),
        keys.len() == vals.len(),
    ensures
        assoc_map(keys, vals, n + 1) =~= assoc_map(keys, vals, n).insert(keys[n], vals[n]),
        !assoc_map(keys, vals, n).contains_key(keys[n]),
        assoc_map(keys, vals, 0) =~= Map::<Seq<char>, V>::empty(),
{
    lemma_assoc(keys, vals, n);
    lemma_assoc(keys, vals, n + 1);
    lemma_assoc_absent(keys, vals, n, keys[n]);
    let a = assoc_map(keys, vals, n + 1);
    let b = assoc_map(keys, vals, n).insert(keys[n], vals[n]);
    assert forall|k: Seq<char>| a.contains_key(k) == b.contains_key(k) by {
        if a.contains_key(k) {
            let i = slot_of(keys, n + 1, k);
            assert(holds_at(keys, n + 1, k, i));
            if i < n {
                assert(holds_at(keys, n, k, i));
            }
        }
        if b.contains_key(k) && k != keys[n] {
            let i = slot_of(keys, n, k);
            assert(holds_at(keys, n + 1, k, i));
        }
    }
    assert forall|k: Seq<char>| a.contains_key(k) implies a[k] == b[k] by {
        let i = slot_of(keys, n + 1, k);
        assert(holds_at(keys, n + 1, k, i));
        assert(k == keys[i]);
    }
    assert forall|i: int| !holds_at(keys, 0, keys[n], i) by {}
    assert forall|k: Seq<char>| !assoc_map(keys, vals, 0).contains_key(k) by {
        assert forall|i: int| !holds_at(keys, 0, k, i) by {}
    }
}

/// The map of the first `n` slots depends on those slots alone.
pub proof fn lemma_assoc_prefix<V>(
    keys: Seq<Seq<char>>,
    vals: Seq<V>,
    keys2: Seq<Seq<char>>,
    vals2: Seq<V>,
    n: int,
)
    requires
        distinct(keys),
        0 <= n <= keys.len(),
        keys.len() == vals.len(),
        n <= keys2.len(),
        keys2.len() == vals2.len(),
        forall|i: int| 0 <= i < n ==> keys[i] == keys2[i] && vals[i] == vals2[i],
    ensures
        assoc_map(keys, vals, n) == assoc_map(keys2, vals2, n),
{
    let a = assoc_map(keys, vals, n);
    let b = assoc_map(keys2, vals2, n);
    assert forall|k: Seq<char>| a.contains_key(k) == b.contains_key(k) by {
        if a.contains_key(k) {
            let i = choose|i: int| holds_at(keys, n, k, i);
            assert(holds_at(keys2, n, k, i));
        }
        if b.contains_key(k) {
            let i = choose|i: int| holds_at(keys2, n, k, i);
            assert(holds_at(keys, n, k, i));
        }
    }
    assert forall|k: Seq<char>| a.contains_key(k) implies a[k] == b[k] by {
        let i = slot_of(keys, n, k);
        let j = slot_of(keys2, n, k);
        assert(holds_at(keys, n, k, i));
        assert(holds_at(keys2, n, k, i));
        assert(holds_at(keys2, n, k, j));
        assert(keys[j] == k);
        assert(i == j);
    }
    assert(a =~= b);
}

/// With distinct keys, the map of the first `n` slots has `n` keys.
pub proof fn lemma_assoc_len<V>(keys: Seq<Seq<char>>, vals: Seq<V>, n: int)
    requires
        distinct(keys),
        0 <= n <= keys.len(),
        keys.len() == vals.len(),
    ensures
        assoc_map(keys, vals, n).dom().finite(),
        assoc_map(keys, vals, n).dom().len() == n,
    decreases n,
{
    if n == 0 {
        assert forall|k: Seq<char>| !assoc_map(keys, vals, 0).contains_key(k) by {
            lemma_assoc_absent(keys, vals, 0, k);
        }
        assert(assoc_map(keys, vals, 0).dom() =~= Set::<Seq<char>>::empty());
    } else {
        lemma_assoc_len(keys, vals, n - 1);
        lemma_assoc_step(keys, vals, n - 1);
        assert(assoc_map(keys, vals, n).dom() =~= assoc_map(keys, vals, n - 1).dom().insert(
            keys[n - 1],
        ));
    }
}

/// Whether two string slices hold the same text.
///
/// Wraps `str::eq` of the standard library. Trusted: the result is true
/// exactly where the two slices hold the same characters in the same order.
#[verifier::external_body]
pub(crate) fn same_text(a: &str, b: &str) -> (r: bool)
    ensures
        r == (a@ == b@),
{
    a == b
}

/// The first slot of `keys` that holds `key`.
pub(crate) fn position(keys: &Vec<String>, key: &str) -> (r: Option<usize>)
    ensures
        match r {
            Some(i) => holds_at(texts(keys@), keys@.len() as int, key@, i as int),
            None => forall|i: int| 0 <= i < keys@.len() ==> texts(keys@)[i] != key@,
        },
{
    let mut i: usize = 0;
    while i < keys.len()
        invariant
            i <= keys@.len(),
            forall|j: int| 0 <= j < i ==> texts(keys@)[j] != key@,
        decreases keys@.len() - i,
    {
        if same_text(keys[i].as_str(), key) {
            return Some(i);
        }
        i += 1;
    }
    None
}

} // verus!
