use atomic_refcell::{AtomicRef, AtomicRefCell, AtomicRefMut};
use vstd::prelude::*;

use crate::access::Access;
use crate::cell::{cell_new, cell_try_borrow, cell_try_borrow_mut};
use crate::error::{Error, Result};

verus! {

/// A cell of the context with the identity of the type it holds.
#[verifier::reject_recursive_types(T)]
pub struct ErasedCell<T> {
    pub id: u64,
    pub cell: AtomicRefCell<T>,
}

impl<T> ErasedCell<T> {
    /// A cell, not borrowed, holding the value for the type `id`.
    pub fn new(id: u64, value: T) -> (r: ErasedCell<T>)
        ensures
            r.id == id,
    {
        ErasedCell { id, cell: cell_new(value) }
    }
}

/// The type identities of a list of cells.
pub open spec fn ids_of<T>(cells: Seq<ErasedCell<T>>) -> Seq<u64> {
    cells.map_values(|c: ErasedCell<T>| c.id)
}

/// The identities are in non-decreasing order.
pub open spec fn ids_sorted(ids: Seq<u64>) -> bool {
    forall|i: int, j: int| 0 <= i <= j < ids.len() ==> ids[i] <= ids[j]
}

/// The values that one run of a schedule works on, looked up by the
/// identity of their type.
#[verifier::reject_recursive_types(T)]
pub struct Context<T> {
    entries: Vec<ErasedCell<T>>,
}

impl<T> View for Context<T> {
    type V = Seq<u64>;

    /// The identities of the held types, in lookup order.
    open spec fn view(&self) -> Seq<u64> {
        ids_of(self.cells())
    }
}

/// The identities are in increasing order.
pub open spec fn ids_strictly_sorted(ids: Seq<u64>) -> bool {
    forall|i: int, j: int| 0 <= i < j < ids.len() ==> ids[i] < ids[j]
}

impl<T> Context<T> {
    /// The held cells, in lookup order.
    pub closed spec fn cells(&self) -> Seq<ErasedCell<T>> {
        self.entries@
    }

    /// The entries are ordered by identity, which lookup relies on.
    pub open spec fn wf(&self) -> bool {
        ids_sorted(self@)
    }

    /// A context over the given cells, ordered by type identity. Every cell
    /// is kept as it came; distinct identities end up strictly ordered.
    pub fn new(cells: Vec<ErasedCell<T>>) -> (r: Context<T>)
        ensures
            r.wf(),
            r.cells().to_multiset() == cells@.to_multiset(),
            r.cells().len() == cells@.len(),
            forall|id: u64| r@.contains(id) <==> ids_of(cells@).contains(id),
            ids_of(cells@).no_duplicates() ==> ids_strictly_sorted(r@),
    {
        broadcast use vstd::seq_lib::group_to_multiset_ensures;

        let ghost all = ids_of(cells@);
        let ghost orig = cells@;
        let mut input = cells;
        let mut sorted: Vec<ErasedCell<T>> = Vec::new();
        assert(ids_of(sorted@) =~= Seq::<u64>::empty());
        while input.len() > 0
            invariant
                ids_sorted(ids_of(sorted@)),
                sorted@.to_multiset().add(input@.to_multiset()) == orig.to_multiset(),
                ids_of(sorted@).to_multiset().add(ids_of(input@).to_multiset()) == all.to_multiset(),
                all == ids_of(orig),
                forall|id: u64|
                    ids_of(sorted@).contains(id) || ids_of(input@).contains(id) <==> all.contains(id),
            decreases input@.len(),
        {
            let ghost before_in = input@;
            let ghost before_sorted = sorted@;
            let c = match input.pop() {
                Some(c) => c,
                None => {
                    return Context { entries: sorted };
                },
            };
            assert(ids_of(input@) =~= ids_of(before_in).drop_last());
            assert(ids_of(before_in) =~= ids_of(input@).push(c.id));
            assert(before_in =~= input@.push(c));
            let ghost cc = c;
            let mut p: usize = 0;
            while p < sorted.len() && sorted[p].id <= c.id
                invariant
                    sorted@ == before_sorted,
                    p <= sorted@.len(),
                    forall|k: int| 0 <= k < p ==> sorted@[k].id <= c.id,
                decreases sorted@.len() - p,
            {
                p = p + 1;
            }
            let ghost cid = c.id;
            sorted.insert(p, c);
            let ghost ids = ids_of(sorted@);
            let ghost old_ids = ids_of(before_sorted);
            assert(ids =~= old_ids.insert(p as int, cid));
            assert(sorted@ =~= before_sorted.insert(p as int, cc));
            proof {
                vstd::seq_lib::to_multiset_insert(before_sorted, p as int, cc);
                vstd::seq_lib::to_multiset_build(input@, cc);
                vstd::seq_lib::to_multiset_insert(old_ids, p as int, cid);
                vstd::seq_lib::to_multiset_build(ids_of(input@), cid);
            }
            assert(sorted@.to_multiset() == before_sorted.to_multiset().insert(cc));
            assert(input@.push(cc).to_multiset() == input@.to_multiset().insert(cc));
            assert(before_in.to_multiset() == input@.to_multiset().insert(cc));
            assert(sorted@.to_multiset().add(input@.to_multiset()) =~= before_sorted.to_multiset().add(
                before_in.to_multiset(),
            ));
            assert(old_ids.insert(p as int, cid).to_multiset() == old_ids.to_multiset().insert(cid));
            assert(ids.to_multiset() == old_ids.to_multiset().insert(cid));
            assert(ids_of(input@).push(cid).to_multiset() == ids_of(input@).to_multiset().insert(cid));
            assert(ids_of(before_in).to_multiset() == ids_of(input@).to_multiset().insert(cid));
            assert(ids.to_multiset().add(ids_of(input@).to_multiset()) =~= old_ids.to_multiset().add(
                ids_of(before_in).to_multiset(),
            ));
            assert forall|i: int, j: int| 0 <= i <= j < ids.len() implies ids[i] <= ids[j] by {
                if i < p && j < p {
                    assert(ids[i] == old_ids[i] && ids[j] == old_ids[j]);
                } else if i < p && j == p {
                    assert(ids[i] == before_sorted[i].id);
                } else if i < p {
                    assert(ids[i] == old_ids[i] && ids[j] == old_ids[j - 1]);
                } else if i == p && j > p {
                    assert(ids[j] == old_ids[j - 1]);
                    assert(old_ids[p as int] == before_sorted[p as int].id);
                    assert(old_ids[p as int] <= old_ids[j - 1]);
                } else if i > p {
                    assert(ids[i] == old_ids[i - 1] && ids[j] == old_ids[j - 1]);
                }
            }
            assert forall|id: u64|
                ids.contains(id) || ids_of(input@).contains(id) <==> all.contains(id) by {
                if ids.contains(id) {
                    let k = choose|k: int| 0 <= k < ids.len() && ids[k] == id;
                    if k < p {
                        assert(old_ids[k] == id);
                    } else if k > p {
                        assert(old_ids[k - 1] == id);
                    } else {
                        assert(ids_of(before_in)[ids_of(input@).len() as int] == id);
                    }
                }
                if old_ids.contains(id) {
                    let k = choose|k: int| 0 <= k < old_ids.len() && old_ids[k] == id;
                    if k < p {
                        assert(ids[k] == id);
                    } else {
                        assert(ids[k + 1] == id);
                    }
                }
                if ids_of(before_in).contains(id) {
                    let k = choose|k: int| 0 <= k < ids_of(before_in).len() && ids_of(before_in)[k] == id;
                    if k < ids_of(input@).len() {
                        assert(ids_of(input@)[k] == id);
                    } else {
                        assert(ids[p as int] == id);
                    }
                }
                if ids_of(input@).contains(id) {
                    let k = choose|k: int| 0 <= k < ids_of(input@).len() && ids_of(input@)[k] == id;
                    assert(ids_of(before_in)[k] == id);
                }
            }
        }
        assert(ids_of(input@) =~= Seq::<u64>::empty());
        assert(input@ =~= Seq::<ErasedCell<T>>::empty());
        assert(sorted@.to_multiset() =~= orig.to_multiset());
        assert(sorted@.to_multiset().len() == sorted@.len());
        assert(orig.to_multiset().len() == orig.len());
        assert(ids_of(sorted@).to_multiset() =~= all.to_multiset());
        proof {
            if all.no_duplicates() {
                all.lemma_multiset_has_no_duplicates();
                ids_of(sorted@).lemma_multiset_has_no_duplicates_conv();
                let ids = ids_of(sorted@);
                assert forall|i: int, j: int| 0 <= i < j < ids.len() implies ids[i] < ids[j] by {
                    assert(ids[i] <= ids[j]);
                }
            }
        }
        Context { entries: sorted }
    }

    /// The position of the entry for the type `id`, by binary search.
    fn find(&self, id: u64) -> (r: Option<usize>)
        requires
            self.wf(),
        ensures
            match r {
                Some(i) => i < self.entries@.len() && self.entries@[i as int].id == id,
                None => !self@.contains(id),
            },
    {
        let mut lo: usize = 0;
        let mut hi: usize = self.entries.len();
        while lo < hi
            invariant
                lo <= hi <= self.entries@.len(),
                self.wf(),
                forall|k: int| 0 <= k < lo ==> self@[k] < id,
                forall|k: int| hi <= k < self@.len() ==> self@[k] > id,
            decreases hi - lo,
        {
            let mid = lo + (hi - lo) / 2;
            let m = self.entries[mid].id;
            assert(self@[mid as int] == m);
            if m < id {
                assert forall|k: int| 0 <= k <= mid implies self@[k] < id by {
                    assert(self@[k] <= self@[mid as int]);
                }
                lo = mid + 1;
            } else if m > id {
                assert forall|k: int| mid <= k < self@.len() implies self@[k] > id by {
                    assert(self@[mid as int] <= self@[k]);
                }
                hi = mid;
            } else {
                return Some(mid);
            }
        }
        proof {
            if self@.contains(id) {
                let k = choose|k: int| 0 <= k < self@.len() && self@[k] == id;
                assert(self@[k] == id);
            }
        }
        None
    }

    /// The cell that holds the value of the accessed type; `MissingData`
    /// when the context holds none.
    pub fn cell(&self, access: Access) -> (r: Result<&AtomicRefCell<T>>)
        requires
            self.wf(),
        ensures
            r is Ok <==> self@.contains(access.id),
            r matches Ok(c) ==> exists|i: int|
                0 <= i < self.cells().len() && self.cells()[i].id == access.id && *c
                    == self.cells()[i].cell,
            r is Err ==> r == Err::<&AtomicRefCell<T>, Error>(Error::MissingData(access.name)),
    {
        match self.find(access.id) {
            Some(i) => {
                assert(self@[i as int] == access.id);
                Ok(&self.entries[i].cell)
            },
            None => Err(Error::MissingData(access.name)),
        }
    }

    /// A shared borrow of the accessed value: `MissingData` when the context
    /// holds none, `Borrow` while it is borrowed exclusively.
    pub fn borrow_shared(&self, access: Access) -> (r: Result<AtomicRef<'_, T>>)
        requires
            self.wf(),
        ensures
            !self@.contains(access.id) ==> r == Err::<AtomicRef<'_, T>, Error>(Error::MissingData(access.name)),
            self@.contains(access.id) ==> (r is Ok || r == Err::<AtomicRef<'_, T>, Error>(Error::Borrow(access.name))),
    {
        let cell = self.cell(access)?;
        match cell_try_borrow(cell) {
            Ok(b) => Ok(b),
            Err(_) => Err(Error::Borrow(access.name)),
        }
    }

    /// An exclusive borrow of the accessed value: `MissingData` when the
    /// context holds none, `BorrowMut` while it is borrowed.
    pub fn borrow_unique(&self, access: Access) -> (r: Result<AtomicRefMut<'_, T>>)
        requires
            self.wf(),
        ensures
            !self@.contains(access.id) ==> r == Err::<AtomicRefMut<'_, T>, Error>(Error::MissingData(access.name)),
            self@.contains(access.id) ==> (r is Ok || r == Err::<AtomicRefMut<'_, T>, Error>(Error::BorrowMut(access.name))),
    {
        let cell = self.cell(access)?;
        match cell_try_borrow_mut(cell) {
            Ok(b) => Ok(b),
            Err(_) => Err(Error::BorrowMut(access.name)),
        }
    }

    /// Like `borrow_shared`, but a type the context does not hold gives
    /// `None` instead of an error.
    pub fn maybe_shared(&self, access: Access) -> (r: Result<Option<AtomicRef<'_, T>>>)
        requires
            self.wf(),
        ensures
            !self@.contains(access.id) ==> r == Ok::<Option<AtomicRef<'_, T>>, Error>(None),
            self@.contains(access.id) ==> (r matches Ok(Some(_)) || r == Err::<Option<AtomicRef<'_, T>>, Error>(Error::Borrow(access.name))),
    {
        match self.find(access.id) {
            None => Ok(None),
            Some(i) => {
                assert(self@[i as int] == access.id);
                match cell_try_borrow(&self.entries[i].cell) {
                    Ok(b) => Ok(Some(b)),
                    Err(_) => Err(Error::Borrow(access.name)),
                }
            },
        }
    }

    /// Like `borrow_unique`, but a type the context does not hold gives
    /// `None` instead of an error.
    pub fn maybe_unique(&self, access: Access) -> (r: Result<Option<AtomicRefMut<'_, T>>>)
        requires
            self.wf(),
        ensures
            !self@.contains(access.id) ==> r == Ok::<Option<AtomicRefMut<'_, T>>, Error>(None),
            self@.contains(access.id) ==> (r matches Ok(Some(_)) || r == Err::<Option<AtomicRefMut<'_, T>>, Error>(Error::BorrowMut(access.name))),
    {
        match self.find(access.id) {
            None => Ok(None),
            Some(i) => {
                assert(self@[i as int] == access.id);
                match cell_try_borrow_mut(&self.entries[i].cell) {
                    Ok(b) => Ok(Some(b)),
                    Err(_) => Err(Error::BorrowMut(access.name)),
                }
            },
        }
    }
}

} // verus!
