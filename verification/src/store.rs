//! A keyed store of records: look up, list, insert or replace, archive.
//! Records are never removed.

use crate::error::EngineError;
use crate::model::Record;
use vstd::prelude::*;

verus! {

/// Which records a listing returns.
#[derive(Clone, Copy, Debug, PartialEq, Eq, Structural)]
pub enum ListFilter {
    /// Every record.
    All,
    /// Records that are not archived.
    Active,
    /// Archived records.
    Archived,
}

/// Whether a record with the given archive flag passes a filter.
pub open spec fn passes(filter: ListFilter, archived: bool) -> bool {
    match filter {
        ListFilter::All => true,
        ListFilter::Active => !archived,
        ListFilter::Archived => archived,
    }
}

/// The views of a sequence of records.
pub open spec fn views<T: View>(s: Seq<T>) -> Seq<T::V> {
    s.map_values(|t: T| t@)
}

/// Whether some record of `s` has the identifier `id`.
pub open spec fn has_id<T: Record>(s: Seq<T::V>, id: u64) -> bool {
    exists|i: int| 0 <= i < s.len() && T::spec_id(#[trigger] s[i]) == id
}

/// The index of the record with identifier `id`, where there is one.
pub open spec fn index_of<T: Record>(s: Seq<T::V>, id: u64) -> int {
    choose|i: int| 0 <= i < s.len() && T::spec_id(#[trigger] s[i]) == id
}

/// No two records share an identifier.
pub open spec fn unique_ids<T: Record>(s: Seq<T::V>) -> bool {
    forall|i: int, j: int|
        0 <= i < s.len() && 0 <= j < s.len() && T::spec_id(#[trigger] s[i]) == T::spec_id(
            #[trigger] s[j],
        ) ==> i == j
}

/// Every record is valid.
pub open spec fn all_valid<T: Record>(s: Seq<T::V>) -> bool {
    forall|i: int| 0 <= i < s.len() ==> T::spec_problem(#[trigger] s[i]) is None
}

/// The records after `v` was inserted, or put in the place of the record
/// with the same identifier.
pub open spec fn upserted<T: Record>(s: Seq<T::V>, v: T::V) -> Seq<T::V> {
    if has_id::<T>(s, T::spec_id(v)) {
        s.update(index_of::<T>(s, T::spec_id(v)), v)
    } else {
        s.push(v)
    }
}

/// The records that pass a filter, in their stored order.
pub open spec fn listed<T: Record>(s: Seq<T::V>, filter: ListFilter) -> Seq<T::V> {
    s.filter(|v: T::V| passes(filter, T::spec_archived(v)))
}

/// Filtering a sequence extended by one element.
pub proof fn lemma_filter_push<A>(s: Seq<A>, x: A, pred: spec_fn(A) -> bool)
    ensures
        s.push(x).filter(pred) == if pred(x) {
            s.filter(pred).push(x)
        } else {
            s.filter(pred)
        },
{
    reveal(Seq::filter);
    assert(s.push(x).drop_last() =~= s);
}

/// A store of records, in the order of their first insertion.
pub struct Store<T: Record> {
    items: Vec<T>,
}

impl<T: Record> View for Store<T> {
    type V = Seq<T::V>;

    closed spec fn view(&self) -> Seq<T::V> {
        views(self.items@)
    }
}

impl<T: Record> Store<T> {
    /// The store's invariant: identifiers are unique and every record is
    /// valid.
    pub open spec fn wf(&self) -> bool {
        unique_ids::<T>(self@) && all_valid::<T>(self@)
    }

    /// An empty store.
    pub fn new() -> (s: Self)
        ensures
            s@ == Seq::<T::V>::empty(),
            s.wf(),
    {
        let s = Store { items: Vec::new() };
        assert(s@ =~= Seq::<T::V>::empty());
        s
    }

    /// The number of records.
    pub fn len(&self) -> (n: usize)
        ensures
            n == self@.len(),
    {
        self.items.len()
    }

    /// The position of the record with the given identifier.
    pub fn position(&self, id: u64) -> (r: Option<usize>)
        ensures
            r is Some == has_id::<T>(self@, id),
            r matches Some(i) ==> i < self@.len() && T::spec_id(self@[i as int]) == id,
            r is Some && unique_ids::<T>(self@) ==> r->0 == index_of::<T>(self@, id),
    {
        let mut i: usize = 0;
        while i < self.items.len()
            invariant
                i <= self.items.len(),
                forall|j: int| 0 <= j < i ==> T::spec_id(#[trigger] self@[j]) != id,
            decreases self.items.len() - i,
        {
            if self.items[i].id() == id {
                assert(T::spec_id(self@[i as int]) == id);
                return Some(i);
            }
            i = i + 1;
        }
        None
    }

    /// The record at a position.
    pub fn at(&self, i: usize) -> (r: &T)
        requires
            i < self@.len(),
        ensures
            r@ == self@[i as int],
    {
        &self.items[i]
    }

    /// The stored records, in order.
    pub fn records(&self) -> (r: &Vec<T>)
        ensures
            views(r@) == self@,
    {
        &self.items
    }

    /// A copy of the record with the given identifier.
    pub fn get(&self, id: u64) -> (r: Result<T, EngineError>)
        requires
            self.wf(),
        ensures
            match r {
                Ok(t) => has_id::<T>(self@, id) && t@ == self@[index_of::<T>(self@, id)],
                Err(e) => !has_id::<T>(self@, id) && e == EngineError::NotFound,
            },
    {
        match self.position(id) {
            Some(i) => Ok(self.items[i].duplicate()),
            None => Err(EngineError::NotFound),
        }
    }

    /// Copies of the records that pass the filter, in their stored order.
    pub fn list(&self, filter: ListFilter) -> (r: Vec<T>)
        ensures
            views(r@) == listed::<T>(self@, filter),
    {
        let mut out: Vec<T> = Vec::new();
        let mut i: usize = 0;
        let ghost pred = |v: T::V| passes(filter, T::spec_archived(v));
        proof {
            reveal(Seq::filter);
            assert(self@.take(0) =~= Seq::<T::V>::empty());
            assert(views(out@) =~= Seq::<T::V>::empty());
        }
        while i < self.items.len()
            invariant
                i <= self.items.len(),
                pred == (|v: T::V| passes(filter, T::spec_archived(v))),
                views(out@) == self@.take(i as int).filter(pred),
            decreases self.items.len() - i,
        {
            let item = &self.items[i];
            let archived = item.is_archived();
            let keep = match filter {
                ListFilter::All => true,
                ListFilter::Active => !archived,
                ListFilter::Archived => archived,
            };
            proof {
                lemma_filter_push(self@.take(i as int), self@[i as int], pred);
                assert(self@.take(i as int).push(self@[i as int]) =~= self@.take(i + 1));
            }
            if keep {
                let copy = item.duplicate();
                let ghost before = out@;
                out.push(copy);
                assert(views(out@) =~= views(before).push(copy@));
            }
            i = i + 1;
        }
        assert(self@.take(self@.len() as int) =~= self@);
        out
    }

    /// Inserts a record, or replaces the record with the same identifier.
    /// An invalid record is rejected and nothing changes.
    pub fn upsert(&mut self, record: T) -> (r: Result<T, EngineError>)
        requires
            old(self).wf(),
        ensures
            final(self).wf(),
            match r {
                Ok(stored) => T::spec_problem(record@) is None && stored@ == record@ && final(self)@ == upserted::<T>(old(self)@, record@),
                Err(e) => T::spec_problem(record@) is Some && e == EngineError::Validation(
                    T::spec_problem(record@)->0,
                ) && final(self)@ == old(self)@,
            },
    {
        match record.problem() {
            Some(reason) => Err(EngineError::Validation(reason)),
            None => {
                let copy = record.duplicate();
                match self.position(record.id()) {
                    Some(i) => {
                        self.items.set(i, record);
                        assert(self@ =~= old(self)@.update(i as int, record@));
                    },
                    None => {
                        self.items.push(record);
                        assert(self@ =~= old(self)@.push(record@));
                    },
                }
                Ok(copy)
            },
        }
    }

    /// Archives the record with the given identifier.
    pub fn archive(&mut self, id: u64) -> (r: Result<(), EngineError>)
        requires
            old(self).wf(),
        ensures
            final(self).wf(),
            match r {
                Ok(_) => has_id::<T>(old(self)@, id) && final(self)@ == old(self)@.update(
                    index_of::<T>(old(self)@, id),
                    T::spec_archive(old(self)@[index_of::<T>(old(self)@, id)]),
                ),
                Err(e) => !has_id::<T>(old(self)@, id) && e == EngineError::NotFound && final(self)@ == old(self)@,
            },
    {
        match self.position(id) {
            Some(i) => {
                let archived = self.items[i].archived_copy();
                proof {
                    T::lemma_archive(self@[i as int]);
                }
                self.items.set(i, archived);
                assert(self@ =~= old(self)@.update(i as int, archived@));
                Ok(())
            },
            None => Err(EngineError::NotFound),
        }
    }
}

} // verus!
