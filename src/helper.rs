//! A loader-agnostic holder for template-engine helpers.
use vstd::prelude::*;

verus! {

/// Holds a loader for a template engine's helper function.
pub struct FluentHelper<L> {
    loader: L,
}

impl<L> FluentHelper<L> {
    pub closed spec fn loader(&self) -> L {
        self.loader
    }

    /// Creates a new `FluentHelper`.
    pub fn new(loader: L) -> (r: Self)
        ensures
            r.loader() == loader,
    {
        FluentHelper { loader }
    }

    /// The loader.
    pub fn inner(&self) -> (r: &L)
        ensures
            *r == self.loader(),
    {
        &self.loader
    }
}

} // verus!
