use anyhow::Error as Cause;
use hecs::{ComponentError, Entity, MissingComponent};

use crate::ecs::{component_error_missing, missing_of};
use vstd::prelude::*;

verus! {

/// What can go wrong while borrowing from a context, querying a sub-world or
/// running a system.
#[derive(Debug)]
pub enum Error {
    /// A query or a narrower view asked for more than a sub-world declares.
    IncompatibleSubworld { subworld: &'static str, query: &'static str },
    /// The entity does not exist in the world.
    NoSuchEntity(Entity),
    /// The entity lacks the component.
    MissingComponent(Entity, MissingComponent),
    /// The entity exists but does not satisfy the query.
    UnsatisfiedQuery(Entity, &'static str),
    /// The context holds no value of the type.
    MissingData(&'static str),
    /// A shared borrow was asked while the value is borrowed exclusively.
    Borrow(&'static str),
    /// An exclusive borrow was asked while the value is borrowed.
    BorrowMut(&'static str),
    /// A system failed; its name and the cause.
    SystemError(String, Cause),
}

/// The library's error for a failed component lookup on `entity`: the
/// entity does not exist, or it lacks the component the store names.
pub fn component_error(e: ComponentError, entity: Entity) -> (r: Error)
    ensures
        match missing_of(e) {
            None => r == Error::NoSuchEntity(entity),
            Some(m) => r == Error::MissingComponent(entity, m),
        },
{
    match component_error_missing(e) {
        None => Error::NoSuchEntity(entity),
        Some(m) => Error::MissingComponent(entity, m),
    }
}

/// The result of the library's fallible operations.
pub type Result<T> = std::result::Result<T, Error>;

} // verus!
