//! One-time initialization cell: a wrapped initializer runs at most
//! once, even under concurrent first accesses, and every caller observes
//! the single computed value.

use vstd::prelude::*;

use std::sync::OnceLock;

verus! {

#[verifier::external_type_specification]
#[verifier::external_body]
#[verifier::reject_recursive_types(T)]
pub struct ExOnceLock<T>(OnceLock<T>);

/// Relies on `std::sync::OnceLock::new`: an empty cell.
pub assume_specification<T>[ OnceLock::<T>::new ]() -> OnceLock<T>;

/// A value computed on first access by a stored initializer and cached
/// for every later access.
#[verifier::reject_recursive_types(T)]
pub struct Lazy<T, F> where F: Fn() -> T {
    init: F,
    cell: OnceLock<T>,
}

impl<T, F> Lazy<T, F> where F: Fn() -> T {
    /// The stored initializer.
    pub closed spec fn initializer(&self) -> F {
        self.init
    }

    /// A cell that will call `init` on first access.
    pub fn new(init: F) -> (r: Self)
        ensures
            r.initializer() == init,
    {
        Lazy { init, cell: OnceLock::new() }
    }

    /// Relies on `std::sync::OnceLock::get_or_init`: the initializer
    /// runs exactly once, even when many threads race on their first
    /// access, and every caller receives a reference to the one value it
    /// produced; later calls return the same stored value without
    /// running the initializer again.
    #[verifier::external_body]
    pub fn get(&self) -> (r: &T)
        requires
            call_requires(self.initializer(), ()),
        ensures
            call_ensures(self.initializer(), (), *r),
    {
        self.cell.get_or_init(|| (self.init)())
    }
}

} // verus!
