use vstd::prelude::*;

verus! {

/// How a system reaches one type: the type's identity, a readable name and
/// whether the borrow is exclusive.
#[derive(Clone, Copy, Debug)]
pub struct Access {
    pub id: u64,
    pub name: &'static str,
    pub exclusive: bool,
}

impl Access {
    /// Two accesses conflict when they reach the same type and either of them
    /// is exclusive.
    pub open spec fn conflicts_with(self, other: Access) -> bool {
        self.id == other.id && (self.exclusive || other.exclusive)
    }

    /// `self` covers `other`: same type, and an exclusive request is only
    /// covered by an exclusive access.
    pub open spec fn covers(self, other: Access) -> bool {
        self.grants(other.id, other.exclusive)
    }

    /// `self` covers a request of the type `id`, exclusive or not.
    pub open spec fn grants(self, id: u64, exclusive: bool) -> bool {
        self.id == id && (!exclusive || self.exclusive == exclusive)
    }

    /// Creates the access of a type given by its identity and name.
    pub fn new(id: u64, name: &'static str, exclusive: bool) -> (r: Access)
        ensures
            r.id == id,
            r.name == name,
            r.exclusive == exclusive,
    {
        Access { id, name, exclusive }
    }

    /// The shared access `&T` of a type.
    pub fn shared(id: u64, name: &'static str) -> (r: Access)
        ensures
            r.id == id,
            r.name == name,
            !r.exclusive,
    {
        Access { id, name, exclusive: false }
    }

    /// The exclusive access `&mut T` of a type.
    pub fn unique(id: u64, name: &'static str) -> (r: Access)
        ensures
            r.id == id,
            r.name == name,
            r.exclusive,
    {
        Access { id, name, exclusive: true }
    }

    /// The identity of the accessed type.
    pub fn info(&self) -> (r: u64)
        ensures
            r == self.id,
    {
        self.id
    }

    /// Whether the access is exclusive.
    pub fn exclusive(&self) -> (r: bool)
        ensures
            r == self.exclusive,
    {
        self.exclusive
    }

    /// The identity of the accessed type.
    pub fn id(&self) -> (r: u64)
        ensures
            r == self.id,
    {
        self.id
    }

    /// The readable name of the accessed type.
    pub fn name(&self) -> (r: &'static str)
        ensures
            r == self.name,
    {
        self.name
    }

    /// True if `self` covers the request `other`.
    pub fn compatible(&self, other: &Access) -> (r: bool)
        ensures
            r == self.covers(*other),
    {
        self.id == other.id && (!other.exclusive || other.exclusive == self.exclusive)
    }

    /// True if the two accesses may not be held at the same time.
    pub fn conflicts(&self, other: &Access) -> (r: bool)
        ensures
            r == self.conflicts_with(*other),
    {
        self.id == other.id && (self.exclusive || other.exclusive)
    }

}

/// Marker for a view that may reach every component of the world.
pub struct AllAccess;

} // verus!
