use smallvec::SmallVec;
use vstd::prelude::*;

use crate::access::Access;

verus! {

/// The list of accesses that a system or a query declares, kept in a small
/// vector that stores the usual handful of entries inline.
#[verifier::external_body]
pub struct Borrows {
    items: SmallVec<[Access; 8]>,
}

/// Upper bound on the length of one borrow list, far below what the small
/// vector could hold.
pub const BORROWS_LIMIT: usize = 1048576;

/// The accesses held by a borrow list, in order.
pub uninterp spec fn access_list(b: Borrows) -> Seq<Access>;

/// Relies on smallvec::SmallVec::new: the new vector is empty.
#[verifier::external_body]
pub(crate) fn borrows_empty() -> (r: Borrows)
    ensures
        access_list(r) == Seq::<Access>::empty(),
{
    Borrows { items: SmallVec::new() }
}

/// Relies on smallvec::SmallVec::push: the value is appended at the end.
#[verifier::external_body]
pub(crate) fn borrows_push(b: &mut Borrows, a: Access)
    requires
        access_list(*old(b)).len() < BORROWS_LIMIT,
    ensures
        access_list(*final(b)) == access_list(*old(b)).push(a),
{
    b.items.push(a)
}

/// Relies on smallvec::SmallVec::len: the number of stored values.
#[verifier::external_body]
pub(crate) fn borrows_len(b: &Borrows) -> (r: usize)
    ensures
        r == access_list(*b).len(),
{
    b.items.len()
}

/// Relies on indexing a smallvec::SmallVec: the value at a position below the
/// length.
#[verifier::external_body]
pub(crate) fn borrows_at(b: &Borrows, i: usize) -> (r: Access)
    requires
        i < access_list(*b).len(),
    ensures
        r == access_list(*b)[i as int],
{
    b.items[i]
}

impl View for Borrows {
    type V = Seq<Access>;

    open spec fn view(&self) -> Seq<Access> {
        access_list(*self)
    }
}

/// Some access of `set` covers a request of the type `id`.
pub open spec fn set_grants(set: Seq<Access>, id: u64, exclusive: bool) -> bool {
    exists|i: int| 0 <= i < set.len() && #[trigger] set[i].grants(id, exclusive)
}

/// Some access of `set` covers the request `a`.
pub open spec fn set_has(set: Seq<Access>, a: Access) -> bool {
    set_grants(set, a.id, a.exclusive)
}

/// Every request of `query` is covered by some access of `set`.
pub open spec fn set_includes(set: Seq<Access>, query: Seq<Access>) -> bool {
    forall|j: int| 0 <= j < query.len() ==> set_has(set, #[trigger] query[j])
}

impl Borrows {
    /// An empty borrow list.
    pub fn new() -> (r: Borrows)
        ensures
            r@ == Seq::<Access>::empty(),
    {
        borrows_empty()
    }

    /// The borrow list holding one access.
    pub fn single(a: Access) -> (r: Borrows)
        ensures
            r@ == seq![a],
    {
        let mut r = borrows_empty();
        borrows_push(&mut r, a);
        assert(r@ =~= seq![a]);
        r
    }

    /// Appends an access.
    pub fn push(&mut self, a: Access)
        requires
            old(self)@.len() < BORROWS_LIMIT,
        ensures
            final(self)@ == old(self)@.push(a),
    {
        borrows_push(self, a)
    }

    /// The number of accesses.
    pub fn len(&self) -> (r: usize)
        ensures
            r == self@.len(),
    {
        borrows_len(self)
    }

    /// The access at position `i`.
    pub fn get(&self, i: usize) -> (r: Access)
        requires
            i < self@.len(),
        ensures
            r == self@[i as int],
    {
        borrows_at(self, i)
    }

    /// A copy of the list.
    pub fn duplicate(&self) -> (r: Borrows)
        requires
            self@.len() <= BORROWS_LIMIT,
        ensures
            r@ == self@,
    {
        let mut r = borrows_empty();
        let n = borrows_len(self);
        let mut i: usize = 0;
        while i < n
            invariant
                n == self@.len(),
                n <= BORROWS_LIMIT,
                i <= n,
                r@ == self@.subrange(0, i as int),
            decreases n - i,
        {
            borrows_push(&mut r, borrows_at(self, i));
            assert(r@ =~= self@.subrange(0, i + 1));
            i = i + 1;
        }
        assert(r@ =~= self@);
        r
    }

    /// Appends every access of `other`, in order.
    pub fn extend_from(&mut self, other: &Borrows)
        requires
            old(self)@.len() + other@.len() <= BORROWS_LIMIT,
        ensures
            final(self)@ == old(self)@ + other@,
    {
        let n = borrows_len(other);
        let mut i: usize = 0;
        while i < n
            invariant
                n == other@.len(),
                old(self)@.len() + n <= BORROWS_LIMIT,
                i <= n,
                self@ == old(self)@ + other@.subrange(0, i as int),
            decreases n - i,
        {
            borrows_push(self, borrows_at(other, i));
            assert(self@ =~= old(self)@ + other@.subrange(0, i + 1));
            i = i + 1;
        }
        assert(other@.subrange(0, n as int) =~= other@);
    }

    /// True if some access of the list covers the request `u`.
    pub fn has(&self, u: &Access) -> (r: bool)
        ensures
            r == set_has(self@, *u),
    {
        self.has_dynamic(u.id, u.exclusive)
    }

    /// True if some access of the list covers a request of the type `id`,
    /// exclusive or not.
    pub fn has_dynamic(&self, id: u64, exclusive: bool) -> (r: bool)
        ensures
            r == set_grants(self@, id, exclusive),
    {
        let n = borrows_len(self);
        let mut i: usize = 0;
        while i < n
            invariant
                n == self@.len(),
                i <= n,
                forall|k: int| 0 <= k < i ==> !(#[trigger] self@[k]).grants(id, exclusive),
            decreases n - i,
        {
            let a = borrows_at(self, i);
            if a.id == id && (!exclusive || a.exclusive == exclusive) {
                assert(self@[i as int].grants(id, exclusive));
                return true;
            }
            i = i + 1;
        }
        false
    }

    /// True if every request of `query` is covered by the list.
    pub fn includes(&self, query: &Borrows) -> (r: bool)
        ensures
            r == set_includes(self@, query@),
    {
        let n = borrows_len(query);
        let mut j: usize = 0;
        while j < n
            invariant
                n == query@.len(),
                j <= n,
                forall|k: int| 0 <= k < j ==> set_has(self@, #[trigger] query@[k]),
            decreases n - j,
        {
            let q = borrows_at(query, j);
            if !self.has(&q) {
                return false;
            }
            j = j + 1;
        }
        true
    }
}

} // verus!
