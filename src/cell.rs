use atomic_refcell::{AtomicRef, AtomicRefCell, AtomicRefMut, BorrowError, BorrowMutError};
use vstd::prelude::*;

verus! {

/// A value shared between threads behind an atomic reader/writer count.
#[verifier::external_type_specification]
#[verifier::external_body]
#[verifier::reject_recursive_types(T)]
pub struct ExAtomicRefCell<T: ?Sized>(AtomicRefCell<T>);

/// A shared borrow of an `AtomicRefCell`.
#[verifier::external_type_specification]
#[verifier::external_body]
#[verifier::reject_recursive_types(T)]
pub struct ExAtomicRef<'b, T: ?Sized>(AtomicRef<'b, T>);

/// An exclusive borrow of an `AtomicRefCell`.
#[verifier::external_type_specification]
#[verifier::external_body]
#[verifier::reject_recursive_types(T)]
pub struct ExAtomicRefMut<'b, T: ?Sized + 'b>(AtomicRefMut<'b, T>);

/// The cell is borrowed exclusively.
#[verifier::external_type_specification]
#[verifier::external_body]
pub struct ExBorrowError(BorrowError);

/// The cell is borrowed.
#[verifier::external_type_specification]
#[verifier::external_body]
pub struct ExBorrowMutError(BorrowMutError);

/// Relies on atomic_refcell::AtomicRefCell::new: a cell holding `value`,
/// not borrowed.
#[verifier::external_body]
pub(crate) fn cell_new<T>(value: T) -> (r: AtomicRefCell<T>) {
    AtomicRefCell::new(value)
}

/// Relies on atomic_refcell::AtomicRefCell::try_borrow: a shared borrow
/// unless the cell is borrowed exclusively, which depends on other threads.
/// The call panics only past `isize::MAX` shared borrows held at once.
#[verifier::external_body]
pub(crate) fn cell_try_borrow<'a, T>(c: &'a AtomicRefCell<T>) -> (r: Result<AtomicRef<'a, T>, BorrowError>) {
    c.try_borrow()
}

/// Relies on atomic_refcell::AtomicRefCell::try_borrow_mut: an exclusive
/// borrow unless the cell is borrowed, which depends on other threads.
#[verifier::external_body]
pub(crate) fn cell_try_borrow_mut<'a, T>(c: &'a AtomicRefCell<T>) -> (r: Result<AtomicRefMut<'a, T>, BorrowMutError>) {
    c.try_borrow_mut()
}

/// Relies on atomic_refcell::AtomicRef::clone: one more shared borrow of the
/// same value.
#[verifier::external_body]
pub(crate) fn ref_clone<'b, T>(r: &AtomicRef<'b, T>) -> (c: AtomicRef<'b, T>) {
    AtomicRef::clone(r)
}

} // verus!
