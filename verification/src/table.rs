//! The key-value table of one directory.

use crate::assoc::{
    assoc_map,
    distinct,
    holds_at,
    lemma_assoc,
    lemma_assoc_absent,
    lemma_assoc_len,
    lemma_assoc_prefix,
    lemma_assoc_step,
    position,
    slot_of,
    texts,
};
use vstd::prelude::*;

verus! {

/// A finite map from text keys to text values, in which each key occurs once.
#[derive(Debug)]
pub struct Table {
    keys: Vec<String>,
    vals: Vec<String>,
}

impl View for Table {
    type V = Map<Seq<char>, Seq<char>>;

    closed spec fn view(&self) -> Map<Seq<char>, Seq<char>> {
        self.upto(self.keys@.len() as int)
    }
}

impl Table {
    /// The map held by the first `n` slots.
    pub closed spec fn upto(&self, n: int) -> Map<Seq<char>, Seq<char>> {
        assoc_map(texts(self.keys@), texts(self.vals@), n)
    }

    /// Each key stands beside its value, and no key occurs twice.
    pub closed spec fn wf(&self) -> bool {
        self.keys@.len() == self.vals@.len() && distinct(texts(self.keys@))
    }

    /// The empty table.
    pub fn new() -> (r: Table)
        ensures
            r.wf(),
            r@ == Map::<Seq<char>, Seq<char>>::empty(),
    {
        let r = Table { keys: Vec::new(), vals: Vec::new() };
        proof {
            assert forall|k: Seq<char>| !r@.contains_key(k) by {
                lemma_assoc_absent(texts(r.keys@), texts(r.vals@), 0, k);
            }
            assert(r@ =~= Map::<Seq<char>, Seq<char>>::empty());
        }
        r
    }

    /// The value of `key`, if the table defines it.
    pub fn get(&self, key: &str) -> (r: Option<&String>)
        requires
            self.wf(),
        ensures
            match r {
                Some(v) => self@.contains_key(key@) && self@[key@] == v@,
                None => !self@.contains_key(key@),
            },
    {
        proof {
            lemma_assoc(texts(self.keys@), texts(self.vals@), self.keys@.len() as int);
        }
        match position(&self.keys, key) {
            Some(i) => {
                assert(texts(self.keys@)[i as int] == key@);
                Some(&self.vals[i])
            },
            None => {
                proof {
                    lemma_assoc_absent(
                        texts(self.keys@),
                        texts(self.vals@),
                        self.keys@.len() as int,
                        key@,
                    );
                }
                None
            },
        }
    }

    /// Sets `key` to `value`, replacing the value it had.
    pub fn insert(&mut self, key: String, value: String)
        requires
            old(self).wf(),
        ensures
            final(self).wf(),
            final(self)@ == old(self)@.insert(key@, value@),
    {
        let ghost k0 = texts(self.keys@);
        let ghost v0 = texts(self.vals@);
        let ghost n = self.keys@.len() as int;
        proof {
            lemma_assoc(k0, v0, n);
        }
        match position(&self.keys, key.as_str()) {
            Some(i) => {
                self.vals[i] = value;
                proof {
                    let v1 = texts(self.vals@);
                    assert(v1 =~= v0.update(i as int, value@));
                    lemma_assoc(k0, v1, n);
                    assert(k0[i as int] == key@);
                    assert forall|k: Seq<char>| self@.contains_key(k) implies #[trigger] self@[k]
                        == old(self)@.insert(key@, value@)[k] by {
                        assert(holds_at(k0, n, k, slot_of(k0, n, k)));
                    }
                    assert(self@ =~= old(self)@.insert(key@, value@));
                }
            },
            None => {
                proof {
                    lemma_assoc_absent(k0, v0, n, key@);
                }
                self.keys.push(key);
                self.vals.push(value);
                proof {
                    let k1 = texts(self.keys@);
                    let v1 = texts(self.vals@);
                    assert(k1 =~= k0.push(key@));
                    assert(v1 =~= v0.push(value@));
                    lemma_assoc_step(k1, v1, n);
                    assert forall|k: Seq<char>|
                        assoc_map(k1, v1, n).contains_key(k) == assoc_map(k0, v0, n).contains_key(
                            k,
                        ) by {
                        if assoc_map(k1, v1, n).contains_key(k) {
                            let i = choose|i: int| holds_at(k1, n, k, i);
                            assert(holds_at(k0, n, k, i));
                        }
                        if assoc_map(k0, v0, n).contains_key(k) {
                            let i = choose|i: int| holds_at(k0, n, k, i);
                            assert(holds_at(k1, n, k, i));
                        }
                    }
                    lemma_assoc(k1, v1, n);
                    assert forall|k: Seq<char>|
                        assoc_map(k1, v1, n).contains_key(k) implies #[trigger] assoc_map(
                        k1,
                        v1,
                        n,
                    )[k] == assoc_map(k0, v0, n)[k] by {
                        let i = slot_of(k1, n, k);
                        assert(holds_at(k1, n, k, i));
                        assert(k0[i] == k);
                    }
                    assert(assoc_map(k1, v1, n) =~= assoc_map(k0, v0, n));
                }
            },
        }
    }

    /// Removes `key`, if the table defines it.
    pub fn remove(&mut self, key: &str)
        requires
            old(self).wf(),
        ensures
            final(self).wf(),
            final(self)@ == old(self)@.remove(key@),
    {
        let ghost k0 = texts(self.keys@);
        let ghost v0 = texts(self.vals@);
        let ghost n = self.keys@.len() as int;
        proof {
            lemma_assoc(k0, v0, n);
        }
        match position(&self.keys, key) {
            Some(i) => {
                self.keys.remove(i);
                self.vals.remove(i);
                proof {
                    let k1 = texts(self.keys@);
                    let v1 = texts(self.vals@);
                    assert(k1 =~= k0.remove(i as int));
                    assert(v1 =~= v0.remove(i as int));
                    assert(distinct(k1)) by {
                        assert forall|a: int, b: int| 0 <= a < b < k1.len() implies k1[a]
                            != k1[b] by {
                            let a0 = if a < i { a } else { a + 1 };
                            let b0 = if b < i { b } else { b + 1 };
                            assert(k1[a] == k0[a0] && k1[b] == k0[b0]);
                        }
                    }
                    lemma_assoc(k1, v1, n - 1);
                    let goal = old(self)@.remove(key@);
                    assert forall|k: Seq<char>| self@.contains_key(k) == goal.contains_key(k) by {
                        if self@.contains_key(k) {
                            let j = slot_of(k1, n - 1, k);
                            assert(holds_at(k1, n - 1, k, j));
                            let j0 = if j < i { j } else { j + 1 };
                            assert(k0[j0] == k);
                        }
                        if goal.contains_key(k) {
                            let j0 = slot_of(k0, n, k);
                            assert(holds_at(k0, n, k, j0));
                            let j = if j0 < i { j0 } else { j0 - 1 };
                            assert(k1[j] == k);
                        }
                    }
                    assert forall|k: Seq<char>| self@.contains_key(k) implies #[trigger] self@[k]
                        == goal[k] by {
                        let j = slot_of(k1, n - 1, k);
                        assert(holds_at(k1, n - 1, k, j));
                        let j0 = if j < i { j } else { j + 1 };
                        assert(k0[j0] == k);
                        assert(v1[j] == v0[j0]);
                    }
                    assert(self@ =~= goal);
                }
            },
            None => {
                proof {
                    lemma_assoc_absent(k0, v0, n, key@);
                    assert(self@ =~= old(self)@.remove(key@));
                }
            },
        }
    }

    /// Takes over every entry of `other`, which wins where both define a key.
    pub fn extend(&mut self, other: &Table)
        requires
            old(self).wf(),
            other.wf(),
        ensures
            final(self).wf(),
            final(self)@ == old(self)@.union_prefer_right(other@),
    {
        let ghost ks = texts(other.keys@);
        let ghost vs = texts(other.vals@);
        let mut j: usize = 0;
        proof {
            if other.keys@.len() > 0 {
                lemma_assoc_step(ks, vs, 0);
            } else {
                assert forall|k: Seq<char>| !other.upto(0).contains_key(k) by {
                    lemma_assoc_absent(ks, vs, 0, k);
                }
            }
            assert(self@ =~= old(self)@.union_prefer_right(other.upto(0)));
        }
        while j < other.keys.len()
            invariant
                j <= other.keys@.len(),
                other.wf(),
                ks == texts(other.keys@),
                vs == texts(other.vals@),
                self.wf(),
                self@ == old(self)@.union_prefer_right(other.upto(j as int)),
            decreases other.keys@.len() - j,
        {
            let key = other.keys[j].clone();
            let value = other.vals[j].clone();
            proof {
                lemma_assoc_step(ks, vs, j as int);
                assert(ks[j as int] == key@ && vs[j as int] == value@);
            }
            self.insert(key, value);
            proof {
                assert(self@ =~= old(self)@.union_prefer_right(other.upto(j + 1)));
            }
            j += 1;
        }
    }

    /// The number of keys that the table defines.
    pub fn len(&self) -> (r: usize)
        requires
            self.wf(),
        ensures
            self@.dom().finite(),
            r == self@.dom().len(),
    {
        proof {
            lemma_assoc_len(texts(self.keys@), texts(self.vals@), self.keys@.len() as int);
        }
        self.keys.len()
    }

    /// The table that holds the given pairs of key and value. Where a key
    /// occurs more than once, its last pair wins.
    pub fn from_entries(entries: &Vec<(String, String)>) -> (r: Table)
        ensures
            r.wf(),
            r@ == entries_map(entries@),
    {
        let mut out = Table::new();
        let mut j: usize = 0;
        while j < entries.len()
            invariant
                j <= entries@.len(),
                out.wf(),
                out@ == entries_map(entries@.take(j as int)),
            decreases entries@.len() - j,
        {
            proof {
                assert(entries@.take(j + 1).drop_last() =~= entries@.take(j as int));
            }
            out.insert(entries[j].0.clone(), entries[j].1.clone());
            j += 1;
        }
        proof {
            assert(entries@.take(entries@.len() as int) =~= entries@);
        }
        out
    }

    /// The entries of the table, one pair of key and value for each key.
    pub fn entries(&self) -> (r: Vec<(String, String)>)
        requires
            self.wf(),
        ensures
            distinct(pair_keys(r@)),
            entries_assoc(r@) == self@,
    {
        let mut out: Vec<(String, String)> = Vec::new();
        let mut j: usize = 0;
        while j < self.keys.len()
            invariant
                j <= self.keys@.len(),
                self.wf(),
                out@.len() == j,
                forall|i: int|
                    0 <= i < j ==> (#[trigger] out@[i]).0@ == self.keys@[i]@ && out@[i].1@
                        == self.vals@[i]@,
            decreases self.keys@.len() - j,
        {
            out.push((self.keys[j].clone(), self.vals[j].clone()));
            j += 1;
        }
        proof {
            assert(pair_keys(out@) =~= texts(self.keys@));
            assert(pair_vals(out@) =~= texts(self.vals@));
        }
        out
    }
}

/// The map that a sequence of pairs of key and value builds when the pairs
/// are entered one after the other, a later pair replacing an earlier one
/// with the same key.
pub open spec fn entries_map(v: Seq<(String, String)>) -> Map<Seq<char>, Seq<char>>
    decreases v.len(),
{
    if v.len() == 0 {
        Map::empty()
    } else {
        entries_map(v.drop_last()).insert(v.last().0@, v.last().1@)
    }
}

/// The map that a sequence of pairs with distinct keys stands for.
pub open spec fn entries_assoc(v: Seq<(String, String)>) -> Map<Seq<char>, Seq<char>> {
    assoc_map(pair_keys(v), pair_vals(v), v.len() as int)
}

/// Pairs with distinct keys build the map that they stand for: entering
/// the entries of a table one after the other gives the table back.
pub proof fn lemma_entries_read_back(v: Seq<(String, String)>)
    requires
        distinct(pair_keys(v)),
    ensures
        entries_map(v) == entries_assoc(v),
    decreases v.len(),
{
    let keys = pair_keys(v);
    let vals = pair_vals(v);
    if v.len() == 0 {
        assert forall|k: Seq<char>| !entries_assoc(v).contains_key(k) by {
            lemma_assoc_absent(keys, vals, 0, k);
        }
        assert(entries_map(v) =~= entries_assoc(v));
    } else {
        let n = v.len() - 1;
        let w = v.drop_last();
        assert(distinct(pair_keys(w))) by {
            assert forall|a: int, b: int| 0 <= a < b < pair_keys(w).len() implies pair_keys(w)[a]
                != pair_keys(w)[b] by {
                assert(pair_keys(w)[a] == keys[a] && pair_keys(w)[b] == keys[b]);
            }
        }
        lemma_entries_read_back(w);
        lemma_assoc_step(keys, vals, n);
        lemma_assoc_prefix(keys, vals, pair_keys(w), pair_vals(w), n);
    }
}

/// The keys of a sequence of pairs of key and value.
pub open spec fn pair_keys(v: Seq<(String, String)>) -> Seq<Seq<char>> {
    Seq::new(v.len(), |i: int| v[i].0@)
}

/// The values of a sequence of pairs of key and value.
pub open spec fn pair_vals(v: Seq<(String, String)>) -> Seq<Seq<char>> {
    Seq::new(v.len(), |i: int| v[i].1@)
}

} // verus!
