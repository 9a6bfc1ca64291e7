//! The store as seen from one directory: lookups that walk up the ancestor
//! chain, and changes that touch that directory alone.

use crate::assoc::slice_texts;
use crate::data::{default_data, Data};
use crate::path::{ancestor_chain, ancestors, parent_dir, path_parent, step_up};
use crate::resolve::{
    local,
    lookup,
    resolve_all,
    resolve_in,
    resolve_one,
    store_remove,
    store_set,
    StoreMap,
};
use crate::table::Table;
use vstd::prelude::*;

verus! {

/// A store, the place it is kept at, and the directory it is used from.
#[derive(Debug)]
pub struct Projector {
    config: String,
    pwd: String,
    data: Data,
}

impl Projector {
    /// The store is well formed.
    pub closed spec fn wf(&self) -> bool {
        self.data.wf()
    }

    /// The place the store is kept at.
    pub closed spec fn location(&self) -> Seq<char> {
        self.config@
    }

    /// The directory that lookups and changes are made from.
    pub closed spec fn dir(&self) -> Seq<char> {
        self.pwd@
    }

    /// The store, as a map from directory to table.
    pub closed spec fn store(&self) -> StoreMap {
        self.data@
    }

    /// Every key visible from the current directory, each with the value
    /// of the closest ancestor that defines it.
    pub fn get_value_all(&self) -> (r: Table)
        requires
            self.wf(),
        ensures
            r.wf(),
            r@ == resolve_all(self.store(), self.dir()),
    {
        let chain = ancestors(self.pwd.as_str());
        proof {
            assert(slice_texts(chain@) =~= ancestor_chain(self.pwd@));
        }
        self.data.merge_along(&chain)
    }

    /// The value of `key` at the closest ancestor of the current directory,
    /// itself included, that defines it.
    pub fn get_value(&self, key: &str) -> (r: Option<&String>)
        requires
            self.wf(),
        ensures
            match r {
                Some(v) => resolve_one(self.store(), self.dir(), key@) == Some(v@),
                None => resolve_one(self.store(), self.dir(), key@).is_none(),
            },
    {
        let mut curr: Option<&str> = Some(self.pwd.as_str());
        loop
            invariant
                self.wf(),
                resolve_one(self.data@, self.pwd@, key@) == match curr {
                    Some(p) => resolve_one(self.data@, p@, key@),
                    None => None,
                },
            decreases
                match curr {
                    Some(p) => p@.len() + 1,
                    None => 0,
                },
        {
            match curr {
                Some(p) => {
                    if let Some(table) = self.data.get(p) {
                        if let Some(value) = table.get(key) {
                            return Some(value);
                        }
                    }
                    let next = parent_dir(p);
                    proof {
                        let c = ancestor_chain(p@);
                        assert(c[0] == p@);
                        assert(lookup(local(self.data@, p@), key@).is_none());
                        assert(resolve_in(self.data@, c, key@) == resolve_in(
                            self.data@,
                            c.drop_first(),
                            key@,
                        ));
                        match next {
                            Some(q) => {
                                assert(step_up(p@) == Some(q@));
                                assert(c.drop_first() =~= ancestor_chain(q@));
                            },
                            None => {
                                assert(c.drop_first() =~= Seq::<Seq<char>>::empty());
                                assert(resolve_in(self.data@, c.drop_first(), key@).is_none());
                            },
                        }
                    }
                    curr = next;
                },
                None => {
                    return None;
                },
            }
        }
    }

    /// Sets `key` to `value` at the current directory, and nowhere else.
    pub fn set_value(&mut self, key: String, value: String)
        requires
            old(self).wf(),
        ensures
            final(self).wf(),
            final(self).store() == store_set(old(self).store(), old(self).dir(), key@, value@),
            final(self).dir() == old(self).dir(),
            final(self).location() == old(self).location(),
    {
        self.data.set(self.pwd.as_str(), key, value);
    }

    /// Removes `key` at the current directory, and nowhere else. Nothing
    /// changes where the current directory does not define it.
    pub fn remove_value(&mut self, key: &str)
        requires
            old(self).wf(),
        ensures
            final(self).wf(),
            final(self).store() == store_remove(old(self).store(), old(self).dir(), key@),
            final(self).dir() == old(self).dir(),
            final(self).location() == old(self).location(),
    {
        self.data.remove(self.pwd.as_str(), key);
    }

    /// A projector at `pwd` over what was read from `config`: the stored
    /// data where there was some that could be read, else the empty store.
    pub fn from_config(config: String, pwd: String, stored: Option<Data>) -> (r: Projector)
        requires
            stored matches Some(d) ==> d.wf(),
        ensures
            r.wf(),
            r.location() == config@,
            r.dir() == pwd@,
            r.store() == match stored {
                Some(d) => d@,
                None => StoreMap::empty(),
            },
    {
        let data = match stored {
            Some(d) => d,
            None => default_data(),
        };
        Projector { config, pwd, data }
    }

    /// The store itself, for writing it out.
    pub fn data(&self) -> (r: &Data)
        requires
            self.wf(),
        ensures
            r.wf(),
            r@ == self.store(),
    {
        &self.data
    }

    /// The place the store is kept at.
    pub fn config(&self) -> (r: &str)
        ensures
            r@ == self.location(),
    {
        self.config.as_str()
    }

    /// The directory that lookups and changes are made from.
    pub fn pwd(&self) -> (r: &str)
        ensures
            r@ == self.dir(),
    {
        self.pwd.as_str()
    }

    /// The directory that has to exist before the store is written: the
    /// parent of the place it is kept at, if that has one.
    pub fn save_dir(&self) -> (r: Option<&str>)
        ensures
            match r {
                Some(p) => path_parent(self.location()) == Some(p@),
                None => path_parent(self.location()).is_none(),
            },
    {
        parent_dir(self.config.as_str())
    }
}

} // verus!
