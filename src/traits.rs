use vstd::prelude::verus;

verus! {

/// A type that stands for a view or a subset of some other type.
pub trait View<'a>: Sized {
    /// The type the view is taken from.
    type Superset;

    /// Takes the view from the containing superset.
    fn split(orig: Self::Superset) -> Self;
}

impl<'a, T> View<'a> for &'a T {
    type Superset = Self;

    fn split(orig: Self::Superset) -> Self {
        orig
    }
}

impl<'a, T> View<'a> for &'a mut T {
    type Superset = Self;

    fn split(orig: Self::Superset) -> Self {
        orig
    }
}

} // verus!
