//! The store: one table for each directory that has values.

use crate::assoc::{
    assoc_map,
    distinct,
    holds_at,
    lemma_assoc,
    lemma_assoc_absent,
    lemma_assoc_prefix,
    lemma_assoc_step,
    position,
    slice_texts,
    slot_of,
    texts,
};
use crate::resolve::{merge_over, resolve_in, store_remove, store_set, StoreMap, TableMap};
use crate::table::{entries_assoc, entries_map, lemma_entries_read_back, pair_keys, Table};
use vstd::prelude::*;

verus! {

/// The tables of the store, each under the directory it belongs to. A
/// directory occurs at most once.
#[derive(Debug)]
pub struct Data {
    dirs: Vec<String>,
    tables: Vec<Table>,
}

/// The maps held by a sequence of tables.
pub open spec fn table_maps(v: Seq<Table>) -> Seq<TableMap> {
    Seq::new(v.len(), |i: int| v[i]@)
}

/// The directories of a listing.
pub open spec fn listing_dirs(v: Seq<(String, Vec<(String, String)>)>) -> Seq<Seq<char>> {
    Seq::new(v.len(), |i: int| v[i].0@)
}

/// The tables that the entries of a listing stand for.
pub open spec fn listing_tables(v: Seq<(String, Vec<(String, String)>)>) -> Seq<TableMap> {
    Seq::new(v.len(), |i: int| entries_assoc(v[i].1@))
}

/// No directory occurs twice in the listing, and no key twice under one
/// directory.
pub open spec fn listing_distinct(v: Seq<(String, Vec<(String, String)>)>) -> bool {
    &&& distinct(listing_dirs(v))
    &&& forall|i: int| 0 <= i < v.len() ==> distinct(pair_keys((#[trigger] v[i]).1@))
}

/// The store that a listing without repetitions stands for.
pub open spec fn listing_assoc(v: Seq<(String, Vec<(String, String)>)>) -> StoreMap {
    assoc_map(listing_dirs(v), listing_tables(v), v.len() as int)
}

/// The store that a listing builds when its directories are entered one
/// after the other.
pub open spec fn listing_map(v: Seq<(String, Vec<(String, String)>)>) -> StoreMap
    decreases v.len(),
{
    if v.len() == 0 {
        Map::empty()
    } else {
        listing_map(v.drop_last()).insert(v.last().0@, entries_map(v.last().1@))
    }
}

/// A listing without repetitions builds the store that it stands for:
/// entering the listing of a store gives the store back.
pub proof fn lemma_listing_read_back(v: Seq<(String, Vec<(String, String)>)>)
    requires
        listing_distinct(v),
    ensures
        listing_map(v) == listing_assoc(v),
    decreases v.len(),
{
    let dirs = listing_dirs(v);
    let tables = listing_tables(v);
    if v.len() == 0 {
        assert forall|d: Seq<char>| !listing_assoc(v).contains_key(d) by {
            lemma_assoc_absent(dirs, tables, 0, d);
        }
        assert(listing_map(v) =~= listing_assoc(v));
    } else {
        let n = v.len() - 1;
        let w = v.drop_last();
        assert(listing_distinct(w)) by {
            assert forall|a: int, b: int| 0 <= a < b < listing_dirs(w).len() implies listing_dirs(
                w,
            )[a] != listing_dirs(w)[b] by {
                assert(listing_dirs(w)[a] == dirs[a] && listing_dirs(w)[b] == dirs[b]);
            }
            assert forall|i: int| 0 <= i < w.len() implies distinct(
                pair_keys((#[trigger] w[i]).1@),
            ) by {
                assert(w[i] == v[i]);
            }
        }
        lemma_listing_read_back(w);
        lemma_entries_read_back(v.last().1@);
        lemma_assoc_step(dirs, tables, n);
        lemma_assoc_prefix(dirs, tables, listing_dirs(w), listing_tables(w), n);
    }
}

impl View for Data {
    type V = StoreMap;

    closed spec fn view(&self) -> StoreMap {
        assoc_map(texts(self.dirs@), table_maps(self.tables@), self.dirs@.len() as int)
    }
}

/// The store that holds nothing.
pub fn default_data() -> (r: Data)
    ensures
        r.wf(),
        r@ == StoreMap::empty(),
{
    let r = Data { dirs: Vec::new(), tables: Vec::new() };
    proof {
        assert forall|d: Seq<char>| !r@.contains_key(d) by {
            lemma_assoc_absent(texts(r.dirs@), table_maps(r.tables@), 0, d);
        }
        assert(r@ =~= StoreMap::empty());
    }
    r
}

impl Data {
    /// Each directory stands beside its table, no directory occurs twice,
    /// and every table is well formed.
    pub closed spec fn wf(&self) -> bool {
        &&& self.dirs@.len() == self.tables@.len()
        &&& distinct(texts(self.dirs@))
        &&& forall|i: int| 0 <= i < self.tables@.len() ==> (#[trigger] self.tables@[i]).wf()
    }

    /// The table of `dir`, if the store holds one.
    pub fn get(&self, dir: &str) -> (r: Option<&Table>)
        requires
            self.wf(),
        ensures
            match r {
                Some(t) => t.wf() && self@.contains_key(dir@) && self@[dir@] == t@,
                None => !self@.contains_key(dir@),
            },
    {
        proof {
            lemma_assoc(texts(self.dirs@), table_maps(self.tables@), self.dirs@.len() as int);
        }
        match position(&self.dirs, dir) {
            Some(i) => {
                assert(texts(self.dirs@)[i as int] == dir@);
                Some(&self.tables[i])
            },
            None => {
                proof {
                    lemma_assoc_absent(
                        texts(self.dirs@),
                        table_maps(self.tables@),
                        self.dirs@.len() as int,
                        dir@,
                    );
                }
                None
            },
        }
    }

    /// Sets `key` to `value` in the table of `dir`, which is made if the
    /// store holds none. No other directory changes.
    pub fn set(&mut self, dir: &str, key: String, value: String)
        requires
            old(self).wf(),
        ensures
            final(self).wf(),
            final(self)@ == store_set(old(self)@, dir@, key@, value@),
    {
        let ghost d0 = texts(self.dirs@);
        let ghost t0 = table_maps(self.tables@);
        let ghost n = self.dirs@.len() as int;
        proof {
            lemma_assoc(d0, t0, n);
        }
        match position(&self.dirs, dir) {
            Some(i) => {
                assert(d0[i as int] == dir@);
                let mut table = self.tables.remove(i);
                table.insert(key, value);
                self.tables.insert(i, table);
                proof {
                    self.lemma_slot_changed(*old(self), i as int);
                }
            },
            None => {
                let mut table = Table::new();
                table.insert(key, value);
                self.dirs.push(dir.to_owned());
                self.tables.push(table);
                proof {
                    self.lemma_slot_added(*old(self));
                    assert(Map::<Seq<char>, Seq<char>>::empty().insert(key@, value@) == table@);
                }
            },
        }
    }

    /// Puts `table` under `dir`, in place of the table that the store held
    /// for it, if any. No other directory changes.
    pub fn insert_table(&mut self, dir: &str, table: Table)
        requires
            old(self).wf(),
            table.wf(),
        ensures
            final(self).wf(),
            final(self)@ == old(self)@.insert(dir@, table@),
    {
        let ghost d0 = texts(self.dirs@);
        let ghost t0 = table_maps(self.tables@);
        let ghost n = self.dirs@.len() as int;
        proof {
            lemma_assoc(d0, t0, n);
        }
        match position(&self.dirs, dir) {
            Some(i) => {
                assert(d0[i as int] == dir@);
                self.tables[i] = table;
                proof {
                    self.lemma_slot_changed(*old(self), i as int);
                }
            },
            None => {
                self.dirs.push(dir.to_owned());
                self.tables.push(table);
                proof {
                    self.lemma_slot_added(*old(self));
                }
            },
        }
    }

    /// Removes `key` from the table of `dir`. Nothing changes where the
    /// store holds no such directory or its table no such key.
    pub fn remove(&mut self, dir: &str, key: &str)
        requires
            old(self).wf(),
        ensures
            final(self).wf(),
            final(self)@ == store_remove(old(self)@, dir@, key@),
    {
        let ghost d0 = texts(self.dirs@);
        let ghost t0 = table_maps(self.tables@);
        let ghost n = self.dirs@.len() as int;
        proof {
            lemma_assoc(d0, t0, n);
        }
        match position(&self.dirs, dir) {
            Some(i) => {
                assert(d0[i as int] == dir@);
                let mut table = self.tables.remove(i);
                table.remove(key);
                self.tables.insert(i, table);
                proof {
                    self.lemma_slot_changed(*old(self), i as int);
                }
            },
            None => {
                proof {
                    lemma_assoc_absent(d0, t0, n, dir@);
                }
            },
        }
    }

    /// A store that is `before` with one more directory, which `before`
    /// did not hold, is `before` with that directory set to its table.
    proof fn lemma_slot_added(&self, before: Data)
        requires
            before.wf(),
            self.dirs@.len() == before.dirs@.len() + 1,
            self.tables@.len() == before.tables@.len() + 1,
            self.dirs@.drop_last() =~= before.dirs@,
            self.tables@.drop_last() =~= before.tables@,
            self.tables@.last().wf(),
            forall|i: int| 0 <= i < before.dirs@.len() ==> texts(before.dirs@)[i] != self.dirs@.last()@,
        ensures
            self.wf(),
            self@ == before@.insert(self.dirs@.last()@, self.tables@.last()@),
            !before@.contains_key(self.dirs@.last()@),
    {
        let d0 = texts(before.dirs@);
        let t0 = table_maps(before.tables@);
        let d1 = texts(self.dirs@);
        let t1 = table_maps(self.tables@);
        let n = before.dirs@.len() as int;
        assert(d1.drop_last() =~= d0);
        assert(t1.drop_last() =~= t0);
        assert forall|i: int| 0 <= i < self.tables@.len() implies (#[trigger] self.tables@[i]).wf() by {
            if i < n {
                assert(self.tables@[i] == self.tables@.drop_last()[i]);
            }
        }
        assert(distinct(d1)) by {
            assert forall|a: int, b: int| 0 <= a < b < d1.len() implies d1[a] != d1[b] by {
                assert(d1[a] == d0[a]);
                if b < n {
                    assert(d1[b] == d0[b]);
                }
            }
        }
        lemma_assoc(d0, t0, n);
        lemma_assoc_absent(d0, t0, n, self.dirs@.last()@);
        lemma_assoc_step(d1, t1, n);
        lemma_assoc(d1, t1, n);
        assert forall|k: Seq<char>|
            assoc_map(d1, t1, n).contains_key(k) == assoc_map(d0, t0, n).contains_key(k) by {
            if assoc_map(d1, t1, n).contains_key(k) {
                let j = choose|j: int| holds_at(d1, n, k, j);
                assert(holds_at(d0, n, k, j));
            }
            if assoc_map(d0, t0, n).contains_key(k) {
                let j = choose|j: int| holds_at(d0, n, k, j);
                assert(holds_at(d1, n, k, j));
            }
        }
        assert forall|k: Seq<char>| assoc_map(d1, t1, n).contains_key(k) implies #[trigger] assoc_map(
            d1,
            t1,
            n,
        )[k] == assoc_map(d0, t0, n)[k] by {
            let j = slot_of(d1, n, k);
            assert(holds_at(d1, n, k, j));
            assert(d0[j] == k);
            assert(t1[j] == t0[j]);
        }
        assert(assoc_map(d1, t1, n) =~= assoc_map(d0, t0, n));
    }

    /// A store that differs from `before` in the table of slot `i` alone
    /// is `before` with that directory set to the new table.
    proof fn lemma_slot_changed(&self, before: Data, i: int)
        requires
            before.wf(),
            0 <= i < before.dirs@.len(),
            self.dirs@ == before.dirs@,
            self.tables@.len() == before.tables@.len(),
            self.tables@[i].wf(),
            forall|j: int|
                0 <= j < self.tables@.len() && j != i ==> self.tables@[j] == before.tables@[j],
        ensures
            self.wf(),
            self@ == before@.insert(before.dirs@[i]@, self.tables@[i]@),
    {
        let d = texts(self.dirs@);
        let t0 = table_maps(before.tables@);
        let t1 = table_maps(self.tables@);
        let n = self.dirs@.len() as int;
        lemma_assoc(d, t0, n);
        lemma_assoc(d, t1, n);
        let goal = before@.insert(d[i], t1[i]);
        assert forall|k: Seq<char>| self@.contains_key(k) == goal.contains_key(k) by {
            if self@.contains_key(k) {
                assert(holds_at(d, n, k, slot_of(d, n, k)));
            }
            if before@.contains_key(k) {
                assert(holds_at(d, n, k, slot_of(d, n, k)));
            }
        }
        assert forall|k: Seq<char>| self@.contains_key(k) implies #[trigger] self@[k]
            == goal[k] by {
            let j = slot_of(d, n, k);
            assert(holds_at(d, n, k, j));
            assert(t1[j] == self.tables@[j]@);
            assert(t0[j] == before.tables@[j]@);
        }
        assert(self@ =~= goal);
    }

    /// The value of `key` at the first directory of `chain` whose table
    /// defines it.
    pub fn lookup_along(&self, chain: &Vec<&str>, key: &str) -> (r: Option<&String>)
        requires
            self.wf(),
        ensures
            match r {
                Some(v) => resolve_in(self@, slice_texts(chain@), key@) == Some(v@),
                None => resolve_in(self@, slice_texts(chain@), key@).is_none(),
            },
    {
        let ghost c = slice_texts(chain@);
        let mut i: usize = 0;
        proof {
            assert(c.subrange(0, c.len() as int) =~= c);
        }
        while i < chain.len()
            invariant
                i <= chain@.len(),
                self.wf(),
                c == slice_texts(chain@),
                resolve_in(self@, c, key@) == resolve_in(
                    self@,
                    c.subrange(i as int, c.len() as int),
                    key@,
                ),
            decreases chain@.len() - i,
        {
            proof {
                let rest = c.subrange(i as int, c.len() as int);
                assert(rest[0] == c[i as int]);
                assert(rest.drop_first() =~= c.subrange(i + 1, c.len() as int));
            }
            if let Some(table) = self.get(chain[i]) {
                if let Some(value) = table.get(key) {
                    return Some(value);
                }
            }
            i += 1;
        }
        None
    }

    /// The tables of the directories of `chain` merged into one, from the
    /// last directory of the chain to the first, so that an earlier
    /// directory wins over a later one.
    pub fn merge_along(&self, chain: &Vec<&str>) -> (r: Table)
        requires
            self.wf(),
        ensures
            r.wf(),
            r@ == merge_over(self@, slice_texts(chain@)),
    {
        let ghost c = slice_texts(chain@);
        let mut out = Table::new();
        let mut i: usize = chain.len();
        while i > 0
            invariant
                i <= chain@.len(),
                self.wf(),
                c == slice_texts(chain@),
                out.wf(),
                out@ == merge_over(self@, c.subrange(i as int, c.len() as int)),
            decreases i,
        {
            i -= 1;
            proof {
                let rest = c.subrange(i as int, c.len() as int);
                assert(rest[0] == c[i as int]);
                assert(rest.drop_first() =~= c.subrange(i + 1, c.len() as int));
            }
            let ghost before = out@;
            if let Some(table) = self.get(chain[i]) {
                out.extend(table);
            } else {
                proof {
                    assert(before.union_prefer_right(TableMap::empty()) =~= before);
                }
            }
        }
        proof {
            assert(c.subrange(0, c.len() as int) =~= c);
        }
        out
    }

    /// The store as a plain listing: each directory once, with the entries
    /// of its table.
    pub fn listing(&self) -> (r: Vec<(String, Vec<(String, String)>)>)
        requires
            self.wf(),
        ensures
            listing_distinct(r@),
            listing_assoc(r@) == self@,
    {
        let mut out: Vec<(String, Vec<(String, String)>)> = Vec::new();
        let mut j: usize = 0;
        while j < self.dirs.len()
            invariant
                j <= self.dirs@.len(),
                self.wf(),
                out@.len() == j,
                forall|i: int|
                    0 <= i < j ==> (#[trigger] out@[i]).0@ == self.dirs@[i]@ && distinct(
                        pair_keys(out@[i].1@),
                    ) && entries_assoc(out@[i].1@) == self.tables@[i]@,
            decreases self.dirs@.len() - j,
        {
            let entries = self.tables[j].entries();
            out.push((self.dirs[j].clone(), entries));
            j += 1;
        }
        proof {
            assert(listing_dirs(out@) =~= texts(self.dirs@));
            assert(listing_tables(out@) =~= table_maps(self.tables@));
        }
        out
    }

    /// The store that a listing builds when its directories are entered
    /// one after the other, a later one replacing an earlier one of the
    /// same name.
    pub fn from_listing(listing: &Vec<(String, Vec<(String, String)>)>) -> (r: Data)
        ensures
            r.wf(),
            r@ == listing_map(listing@),
    {
        let mut out = default_data();
        let mut j: usize = 0;
        while j < listing.len()
            invariant
                j <= listing@.len(),
                out.wf(),
                out@ == listing_map(listing@.take(j as int)),
            decreases listing@.len() - j,
        {
            proof {
                assert(listing@.take(j + 1).drop_last() =~= listing@.take(j as int));
            }
            let table = Table::from_entries(&listing[j].1);
            out.insert_table(listing[j].0.as_str(), table);
            j += 1;
        }
        proof {
            assert(listing@.take(listing@.len() as int) =~= listing@);
        }
        out
    }

    /// The directories for which the store holds a table.
    pub fn directories(&self) -> (r: Vec<String>)
        requires
            self.wf(),
        ensures
            distinct(texts(r@)),
            forall|d: Seq<char>|
                self@.contains_key(d) <==> exists|i: int| holds_at(texts(r@), r@.len() as int, d, i),
    {
        let mut out: Vec<String> = Vec::new();
        let mut j: usize = 0;
        while j < self.dirs.len()
            invariant
                j <= self.dirs@.len(),
                out@.len() == j,
                forall|i: int| 0 <= i < j ==> (#[trigger] out@[i])@ == self.dirs@[i]@,
            decreases self.dirs@.len() - j,
        {
            out.push(self.dirs[j].clone());
            j += 1;
        }
        proof {
            assert(texts(out@) =~= texts(self.dirs@));
        }
        out
    }
}

} // verus!
