//! Typed record stores: an ordered sequence per record kind, addressed by
//! positional handles, with identifier lookup for identifier-bearing kinds.

use vstd::prelude::*;

use crate::error::Error;

verus! {

/// A record kind whose values carry a caller-visible string identifier.
pub trait WithId {
    /// The identifier, as a mathematical sequence of characters.
    spec fn sid(&self) -> Seq<char>;

    /// The identifier of this record.
    fn id(&self) -> (r: &String)
        ensures
            r@ == self.sid(),
    ;
}

/// String equality, stated over the views.
pub fn ids_equal(a: &String, b: &String) -> (r: bool)
    ensures
        r == (a@ == b@),
{
    *a == *b
}

/// An ordered store of identifier-bearing records. Insertion order is
/// preserved and is the iteration order; positions are stable handles;
/// identifiers are unique across the store.
pub struct CollectionWithId<T> {
    items: Vec<T>,
}

/// Whether the record at position `j` repeats an identifier seen earlier.
pub open spec fn dup_at<T: WithId>(s: Seq<T>, j: int) -> bool {
    exists|i: int| 0 <= i < j && s[i].sid() == s[j].sid()
}

impl<T: WithId> CollectionWithId<T> {
    /// The records, in insertion order.
    pub closed spec fn records(&self) -> Seq<T> {
        self.items@
    }

    /// All identifiers are distinct.
    pub open spec fn wf(&self) -> bool {
        forall|i: int, j: int|
            0 <= i < j < self.records().len() ==> self.records()[i].sid() != self.records()[j].sid()
    }

    /// Whether some record carries this identifier.
    pub open spec fn contains_id(&self, id: Seq<char>) -> bool {
        exists|i: int| 0 <= i < self.records().len() && self.records()[i].sid() == id
    }

    /// The position of the record carrying this identifier.
    pub open spec fn index_of_id(&self, id: Seq<char>) -> int {
        choose|i: int| 0 <= i < self.records().len() && self.records()[i].sid() == id
    }

    /// An empty store.
    pub fn empty() -> (r: Self)
        ensures
            r.records().len() == 0,
            r.wf(),
    {
        CollectionWithId { items: Vec::new() }
    }

    /// Builds a store from records in input order; fails fast on the first
    /// identifier collision, and no partial store is observable.
    pub fn new(records: Vec<T>) -> (r: Result<Self, Error>)
        ensures
            match r {
                Ok(c) => {
                    &&& c.records() == records@
                    &&& c.wf()
                    &&& forall|j: int| 0 <= j < records@.len() ==> !dup_at(records@, j)
                },
                Err(e) => {
                    &&& exists|j: int| 0 <= j < records@.len() && dup_at(records@, j)
                    &&& (e matches Error::IdentifierAlreadyExists(id) && {
                        let j = choose|j: int|
                            0 <= j < records@.len() && dup_at(records@, j) && (forall|k: int|
                                0 <= k < j ==> !dup_at(records@, k));
                        id@ == records@[j].sid()
                    })
                },
            },
    {
        let n = records.len();
        for j in 0..n
            invariant
                n == records@.len(),
                forall|jj: int| 0 <= jj < j ==> !dup_at(records@, jj),
        {
            for i in 0..j
                invariant
                    j < n == records@.len(),
                    forall|jj: int| 0 <= jj < j ==> !dup_at(records@, jj),
                    forall|ii: int| 0 <= ii < i ==> records@[ii].sid() != records@[j as int].sid(),
            {
                if ids_equal(records[i].id(), records[j].id()) {
                    let id = records[j].id().clone();
                    assert(dup_at(records@, j as int));
                    return Err(Error::IdentifierAlreadyExists(id));
                }
            }
        }
        proof {
            assert forall|i: int, j: int|
                0 <= i < j < records@.len() implies records@[i].sid() != records@[j].sid() by {
                assert(!dup_at(records@, j));
            }
        }
        Ok(CollectionWithId { items: records })
    }

    /// Builds a store from records already known to carry distinct
    /// identifiers.
    pub fn from_vec_unique(records: Vec<T>) -> (r: Self)
        requires
            forall|i: int, j: int|
                0 <= i < j < records@.len() ==> records@[i].sid() != records@[j].sid(),
        ensures
            r.records() == records@,
            r.wf(),
    {
        CollectionWithId { items: records }
    }

    /// The number of records held.
    pub fn len(&self) -> (r: usize)
        ensures
            r == self.records().len(),
    {
        self.items.len()
    }

    /// Whether the store holds no record.
    pub fn is_empty(&self) -> (r: bool)
        ensures
            r == (self.records().len() == 0),
    {
        self.items.len() == 0
    }

    /// The record at a positional handle.
    pub fn get_by_idx(&self, idx: usize) -> (r: &T)
        requires
            idx < self.records().len(),
        ensures
            *r == self.records()[idx as int],
    {
        &self.items[idx]
    }

    /// The positional handle of the record with this identifier, if any.
    pub fn get_idx(&self, id: &String) -> (r: Option<usize>)
        requires
            self.wf(),
        ensures
            match r {
                Some(k) => {
                    &&& k < self.records().len()
                    &&& self.records()[k as int].sid() == id@
                    &&& self.contains_id(id@)
                    &&& k == self.index_of_id(id@)
                },
                None => !self.contains_id(id@),
            },
    {
        let n = self.items.len();
        for k in 0..n
            invariant
                n == self.records().len(),
                self.wf(),
                forall|kk: int| 0 <= kk < k ==> self.records()[kk].sid() != id@,
        {
            if ids_equal(self.items[k].id(), id) {
                assert(self.contains_id(id@));
                assert(self.index_of_id(id@) == k as int) by {
                    let w = self.index_of_id(id@);
                    assert(0 <= w < self.records().len() && self.records()[w].sid() == id@);
                }
                return Some(k);
            }
        }
        None
    }

    /// The record with this identifier, if any.
    pub fn get(&self, id: &String) -> (r: Option<&T>)
        requires
            self.wf(),
        ensures
            match r {
                Some(t) => {
                    &&& self.contains_id(id@)
                    &&& t.sid() == id@
                    &&& *t == self.records()[self.index_of_id(id@)]
                },
                None => !self.contains_id(id@),
            },
    {
        match self.get_idx(id) {
            Some(k) => Some(&self.items[k]),
            None => None,
        }
    }

    /// Appends a record; fails if its identifier already exists, and the
    /// store is then unchanged.
    pub fn push(&mut self, t: T) -> (r: Result<usize, Error>)
        requires
            old(self).wf(),
        ensures
            final(self).wf(),
            match r {
                Ok(k) => {
                    &&& !old(self).contains_id(t.sid())
                    &&& k == old(self).records().len()
                    &&& final(self).records() == old(self).records().push(t)
                },
                Err(e) => {
                    &&& old(self).contains_id(t.sid())
                    &&& *final(self) == *old(self)
                    &&& (e matches Error::IdentifierAlreadyExists(id) && id@ == t.sid())
                },
            },
    {
        match self.get_idx(t.id()) {
            Some(_) => Err(Error::IdentifierAlreadyExists(t.id().clone())),
            None => {
                let k = self.items.len();
                self.items.push(t);
                proof {
                    assert forall|i: int, j: int|
                        0 <= i < j < self.records().len() implies self.records()[i].sid()
                        != self.records()[j].sid() by {
                        if j == self.records().len() - 1 {
                            assert(!(exists|w: int|
                                0 <= w < old(self).records().len() && old(self).records()[w].sid()
                                    == t.sid()));
                        }
                    }
                }
                Ok(k)
            },
        }
    }

    /// A read-only view of all records, in insertion order.
    pub fn values(&self) -> (r: &Vec<T>)
        ensures
            r@ == self.records(),
    {
        &self.items
    }

    /// Takes the records out, leaving an empty store.
    pub fn take(&mut self) -> (r: Vec<T>)
        ensures
            r@ == old(self).records(),
            final(self).records().len() == 0,
    {
        let mut v: Vec<T> = Vec::new();
        core::mem::swap(&mut v, &mut self.items);
        v
    }
}

/// An ordered store of records without identifiers.
pub struct Collection<T> {
    items: Vec<T>,
}

impl<T> Collection<T> {
    /// The records, in insertion order.
    pub closed spec fn records(&self) -> Seq<T> {
        self.items@
    }

    /// An empty store.
    pub fn empty() -> (r: Self)
        ensures
            r.records().len() == 0,
    {
        Collection { items: Vec::new() }
    }

    /// Builds a store from records in input order.
    pub fn new(records: Vec<T>) -> (r: Self)
        ensures
            r.records() == records@,
    {
        Collection { items: records }
    }

    /// The number of records held.
    pub fn len(&self) -> (r: usize)
        ensures
            r == self.records().len(),
    {
        self.items.len()
    }

    /// The record at a positional handle.
    pub fn get_by_idx(&self, idx: usize) -> (r: &T)
        requires
            idx < self.records().len(),
        ensures
            *r == self.records()[idx as int],
    {
        &self.items[idx]
    }

    /// Appends a record.
    pub fn push(&mut self, t: T)
        ensures
            final(self).records() == old(self).records().push(t),
    {
        self.items.push(t);
    }

    /// A read-only view of all records, in insertion order.
    pub fn values(&self) -> (r: &Vec<T>)
        ensures
            r@ == self.records(),
    {
        &self.items
    }

    /// Takes the records out, leaving an empty store.
    pub fn take(&mut self) -> (r: Vec<T>)
        ensures
            r@ == old(self).records(),
            final(self).records().len() == 0,
    {
        let mut v: Vec<T> = Vec::new();
        core::mem::swap(&mut v, &mut self.items);
        v
    }
}

} // verus!
