//! A wrapper marking gadgets that may be sent to other threads.

use vstd::prelude::*;

verus! {

/// A gadget wrapped to be handed to another thread. Every gadget of this
/// library is made of plain field values, so wrapping asserts nothing beyond
/// what the type system already checks.
#[derive(Debug)]
pub struct Sendable<G>(G);

impl<G> Sendable<G> {
    /// The wrapped gadget.
    pub closed spec fn inner(&self) -> G {
        self.0
    }

    /// Wraps `gadget`.
    pub fn new(gadget: G) -> (r: Sendable<G>)
        ensures
            r.inner() == gadget,
    {
        Sendable(gadget)
    }

    /// Unwraps the gadget.
    pub fn into_inner(self) -> (r: G)
        ensures
            r == self.inner(),
    {
        self.0
    }

    /// Borrows the gadget.
    pub fn get(&self) -> (r: &G)
        ensures
            *r == self.inner(),
    {
        &self.0
    }
}

impl<G: Clone> Clone for Sendable<G> {
    fn clone(&self) -> (r: Sendable<G>) {
        Sendable(self.0.clone())
    }
}

} // verus!
