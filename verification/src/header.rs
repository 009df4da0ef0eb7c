//! Header suffixes: every header carries a suffix that distinguishes it from
//! headers of other kinds, whichever step produced it.

use vstd::prelude::*;

verus! {

/// The number of suffixes reserved for internal use: `0` for all circuits
/// with a fixed identity, used internally for recursion, and `1` for the
/// trivial header.
pub const NUM_INTERNAL_SUFFIXES: u8 = 2;

/// An internal or an application suffix, by its index among its kind.
#[derive(Clone, Copy, Debug, PartialEq, Eq, Structural, PartialOrd, Ord)]
pub enum HeaderSuffix {
    Internal(usize),
    Application(usize),
}

/// The unique suffix of a header.
#[derive(Clone, Copy, Debug, PartialEq, Eq, Structural, PartialOrd, Ord)]
pub struct Suffix {
    suffix: HeaderSuffix,
}

/// The value a suffix maps to: internal suffixes keep their index, and
/// application suffixes follow the internal ones.
pub open spec fn suffix_value(s: HeaderSuffix) -> nat {
    match s {
        HeaderSuffix::Internal(i) => i as nat,
        HeaderSuffix::Application(i) => (i + NUM_INTERNAL_SUFFIXES) as nat,
    }
}

impl Suffix {
    /// The kind and index of this suffix.
    pub closed spec fn kind(&self) -> HeaderSuffix {
        self.suffix
    }

    /// Creates the application-defined suffix `value`.
    pub fn new(value: usize) -> (r: Suffix)
        ensures
            r.kind() == HeaderSuffix::Application(value),
    {
        Suffix { suffix: HeaderSuffix::Application(value) }
    }

    /// This suffix's value: the index of an internal suffix, and the index
    /// of an application suffix shifted past the internal ones.
    pub fn get(&self) -> (r: u64)
        requires
            suffix_value(self.kind()) <= u64::MAX,
            suffix_value(self.kind()) <= usize::MAX,
        ensures
            r == suffix_value(self.kind()),
    {
        match self.suffix {
            HeaderSuffix::Internal(i) => i as u64,
            HeaderSuffix::Application(i) => (i + NUM_INTERNAL_SUFFIXES as usize) as u64,
        }
    }

    /// Creates the internal suffix `value`, which must be below
    /// [`NUM_INTERNAL_SUFFIXES`].
    pub fn internal(value: usize) -> (r: Suffix)
        requires
            value < NUM_INTERNAL_SUFFIXES,
        ensures
            r.kind() == HeaderSuffix::Internal(value),
    {
        Suffix { suffix: HeaderSuffix::Internal(value) }
    }
}

/// Distinct suffixes have distinct values: no application suffix collides
/// with an internal one, and within a kind the map is injective.
pub proof fn lemma_suffix_values_distinct(a: Suffix, b: Suffix)
    requires
        a.kind() matches HeaderSuffix::Internal(i) ==> i < NUM_INTERNAL_SUFFIXES,
        b.kind() matches HeaderSuffix::Internal(i) ==> i < NUM_INTERNAL_SUFFIXES,
    ensures
        suffix_value(a.kind()) == suffix_value(b.kind()) ==> a == b,
{
}

} // verus!
