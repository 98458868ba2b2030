use atomic_refcell::AtomicRef;
use hecs::{Entity, World};
use std::ops::Deref;
use vstd::prelude::*;

use crate::access::{Access, AllAccess};
use crate::borrows::{set_grants, set_has, set_includes, Borrows, BORROWS_LIMIT};
use crate::cell::ref_clone;
use crate::ecs::world_reserve_entity;
use crate::error::{Error, Result};

verus! {

/// A handle that can be duplicated although it does not implement `Clone`.
pub trait ExternalClone: Sized {
    /// Another handle to the same value.
    fn external_clone(&self) -> Self;
}

impl<'a, T> ExternalClone for &'a T {
    fn external_clone(&self) -> Self {
        *self
    }
}

impl<'b, T> ExternalClone for AtomicRef<'b, T> {
    fn external_clone(&self) -> Self {
        ref_clone(self)
    }
}

/// A view of the world restricted to a declared set of component accesses,
/// or to every component.
pub struct SubWorldRaw<A> {
    world: A,
    decl: Borrows,
    all: bool,
    name: &'static str,
}

impl<A> View for SubWorldRaw<A> {
    type V = (Seq<Access>, bool);

    /// The declared accesses, and whether every component may be reached.
    closed spec fn view(&self) -> (Seq<Access>, bool) {
        (self.decl@, self.all)
    }
}

/// A view with declaration `v` may run a query that asks for `q`.
pub open spec fn permits(v: (Seq<Access>, bool), q: Seq<Access>) -> bool {
    v.1 || set_includes(v.0, q)
}

/// The accesses a system holding such a view declares: the component
/// accesses and a shared access to the world.
pub open spec fn view_borrows(decl: Seq<Access>, world: Access) -> Seq<Access> {
    decl.push(world)
}

impl<A> SubWorldRaw<A> {
    /// The world handle the view restricts.
    pub closed spec fn spec_world(&self) -> A {
        self.world
    }

    /// The declaration's name, used in errors.
    pub closed spec fn spec_name(&self) -> &'static str {
        self.name
    }

    /// A view of `world` that may reach the components `decl` declares. No
    /// borrow is checked here.
    pub fn new(world: A, decl: Borrows, name: &'static str) -> (r: SubWorldRaw<A>)
        ensures
            r@ == (decl@, false),
            r.spec_name() == name,
    {
        SubWorldRaw { world, decl, all: false, name }
    }

    /// A view of `world` that may reach every component.
    pub fn with_all_access(world: A, marker: AllAccess, name: &'static str) -> (r: SubWorldRaw<A>)
        ensures
            r@ == (Seq::<Access>::empty(), true),
            r.spec_name() == name,
    {
        SubWorldRaw { world, decl: Borrows::new(), all: true, name }
    }

    /// True if the view may reach the request `u`.
    pub fn has(&self, u: &Access) -> (r: bool)
        ensures
            r == (self@.1 || set_has(self@.0, *u)),
    {
        self.all || self.decl.has(u)
    }

    /// True if the view may reach a request of the type `id`.
    pub fn has_dynamic(&self, id: u64, exclusive: bool) -> (r: bool)
        ensures
            r == (self@.1 || set_grants(self@.0, id, exclusive)),
    {
        self.all || self.decl.has_dynamic(id, exclusive)
    }

    /// True if the view may run a query that asks for `query`.
    pub fn has_all(&self, query: &Borrows) -> (r: bool)
        ensures
            r == permits(self@, query@),
    {
        self.all || self.decl.includes(query)
    }

    /// The accesses a system that holds a view declaring `decl` declares,
    /// given the access that stands for a shared borrow of the world.
    pub fn borrows(decl: &Borrows, world: Access) -> (r: Borrows)
        requires
            decl@.len() < BORROWS_LIMIT,
        ensures
            r@ == view_borrows(decl@, world),
    {
        let mut r = decl.duplicate();
        r.push(world);
        r
    }

    /// The world, for a query that asks for `query`; `IncompatibleSubworld`
    /// when the view does not declare it.
    pub fn try_query(&self, query: &Borrows, query_name: &'static str) -> (r: Result<&A>)
        ensures
            r is Ok <==> permits(self@, query@),
            r matches Ok(w) ==> *w == self.spec_world(),
            r is Err ==> r == Err::<&A, Error>(
                Error::IncompatibleSubworld { subworld: self.spec_name(), query: query_name },
            ),
    {
        if self.has_all(query) {
            Ok(&self.world)
        } else {
            Err(Error::IncompatibleSubworld { subworld: self.name, query: query_name })
        }
    }

    /// The world, for reading or writing one component of one entity as
    /// `access` says; `IncompatibleSubworld` when the view does not declare it.
    pub fn try_component(&self, access: &Access) -> (r: Result<&A>)
        ensures
            r is Ok <==> (self@.1 || set_has(self@.0, *access)),
            r matches Ok(w) ==> *w == self.spec_world(),
            r is Err ==> r == Err::<&A, Error>(
                Error::IncompatibleSubworld { subworld: self.spec_name(), query: access.name },
            ),
    {
        if self.has(access) {
            Ok(&self.world)
        } else {
            Err(Error::IncompatibleSubworld { subworld: self.name, query: access.name })
        }
    }
}

impl<A: ExternalClone> SubWorldRaw<A> {
    /// A narrower view over the same world; `IncompatibleSubworld` when `decl`
    /// asks for more than this view declares.
    pub fn split(&self, decl: Borrows, name: &'static str) -> (r: Result<SubWorldRaw<A>>)
        ensures
            r is Ok <==> permits(self@, decl@),
            r matches Ok(v) ==> v@ == (decl@, false) && v.spec_name() == name,
            r is Err ==> r == Err::<SubWorldRaw<A>, Error>(
                Error::IncompatibleSubworld { subworld: self.spec_name(), query: name },
            ),
    {
        if self.has_all(&decl) {
            Ok(SubWorldRaw::new(self.world.external_clone(), decl, name))
        } else {
            Err(Error::IncompatibleSubworld { subworld: self.name, query: name })
        }
    }

    /// A view over the same world that may reach every component;
    /// `IncompatibleSubworld` unless this view may too.
    pub fn split_all(&self, name: &'static str) -> (r: Result<SubWorldRaw<A>>)
        ensures
            r is Ok <==> self@.1,
            r matches Ok(v) ==> v@ == (Seq::<Access>::empty(), true) && v.spec_name() == name,
            r is Err ==> r == Err::<SubWorldRaw<A>, Error>(
                Error::IncompatibleSubworld { subworld: self.spec_name(), query: name },
            ),
    {
        if self.all {
            Ok(SubWorldRaw::with_all_access(self.world.external_clone(), AllAccess, name))
        } else {
            Err(Error::IncompatibleSubworld { subworld: self.name, query: name })
        }
    }

    /// A view over the same world that reaches no component, for work on
    /// entity handles alone.
    pub fn into_empty(&self) -> (r: SubWorldRaw<A>)
        ensures
            r@ == (Seq::<Access>::empty(), false),
    {
        SubWorldRaw::new(self.world.external_clone(), Borrows::new(), "()")
    }
}

impl<A: Deref<Target = World>> SubWorldRaw<A> {
    /// Reserves an entity handle; the entity is created when the deferred
    /// commands are applied.
    pub fn reserve(&self) -> Entity {
        world_reserve_entity(self.world.deref())
    }
}

} // verus!
