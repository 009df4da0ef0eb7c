//! [`FixedVec`]: a vector whose length is fixed by a [`Len`] marker type.

use core::marker::PhantomData;
use vstd::prelude::*;

use crate::error::Error;

verus! {

/// A type that statically determines the length of a [`FixedVec`].
pub trait Len {
    /// The length this marker stands for.
    spec fn length() -> nat;

    /// Returns the length; the same value on every call.
    fn len() -> (r: usize)
        requires
            Self::length() <= usize::MAX,
        ensures
            r == Self::length(),
    ;

    /// Returns the range from `0` to [`Self::len()`].
    fn range() -> (r: core::ops::Range<usize>)
        requires
            Self::length() <= usize::MAX,
        ensures
            r.start == 0,
            r.end == Self::length(),
    {
        0..Self::len()
    }
}

/// A compile-time constant length.
pub struct ConstLen<const N: usize>;

impl<const N: usize> Len for ConstLen<N> {
    open spec fn length() -> nat {
        N as nat
    }

    fn len() -> (r: usize) {
        N
    }
}

/// A vector guaranteed to hold exactly `L::len()` elements.
pub struct FixedVec<T, L: Len> {
    v: Vec<T>,
    _marker: PhantomData<L>,
}

impl<T, L: Len> View for FixedVec<T, L> {
    type V = Seq<T>;

    closed spec fn view(&self) -> Seq<T> {
        self.v@
    }
}

impl<T, L: Len> FixedVec<T, L> {
    #[verifier::type_invariant]
    spec fn has_fixed_length(self) -> bool {
        self.v@.len() == L::length()
    }

    /// Creates a vector from `v`, failing unless it has exactly `L::len()`
    /// elements.
    pub fn new(v: Vec<T>) -> (r: Result<FixedVec<T, L>, Error>)
        requires
            L::length() <= usize::MAX,
        ensures
            r is Ok <==> v@.len() == L::length(),
            r matches Ok(f) ==> f@ == v@,
            r matches Err(e) ==> e == (Error::VectorLengthMismatch {
                expected: L::length() as usize,
                actual: v@.len() as usize,
            }),
    {
        let expected = L::len();
        if v.len() != expected {
            Err(Error::VectorLengthMismatch { expected, actual: v.len() })
        } else {
            Ok(FixedVec { v, _marker: PhantomData })
        }
    }

    /// Initializes each element from its index, as `core::array::from_fn`.
    pub fn from_fn<F: Fn(usize) -> T>(f: F) -> (r: FixedVec<T, L>)
        requires
            L::length() <= usize::MAX,
            forall|i: usize| i < L::length() ==> #[trigger] f.requires((i,)),
        ensures
            r@.len() == L::length(),
            forall|i: int| 0 <= i < L::length() ==> #[trigger] f.ensures((i as usize,), r@[i]),
    {
        let n = L::len();
        let mut v: Vec<T> = Vec::new();
        let mut i: usize = 0;
        while i < n
            invariant
                i <= n,
                n == L::length(),
                v@.len() == i,
                forall|j: usize| j < L::length() ==> #[trigger] f.requires((j,)),
                forall|j: int| 0 <= j < i ==> #[trigger] f.ensures((j as usize,), v@[j]),
            decreases n - i,
        {
            v.push(f(i));
            i = i + 1;
        }
        FixedVec { v, _marker: PhantomData }
    }

    /// Initializes each element from its index, stopping at the first error.
    pub fn try_from_fn<F: Fn(usize) -> Result<T, Error>>(f: F) -> (r: Result<FixedVec<T, L>, Error>)
        requires
            L::length() <= usize::MAX,
            forall|i: usize| i < L::length() ==> #[trigger] f.requires((i,)),
        ensures
            r matches Ok(fv) ==> fv@.len() == L::length(),
            r matches Ok(fv) ==> forall|i: int| 0 <= i < L::length() ==> #[trigger] f.ensures(
                (i as usize,),
                Ok::<T, Error>(fv@[i]),
            ),
            r matches Err(e) ==> exists|i: usize| i < L::length() && #[trigger] f.ensures(
                (i,),
                Err::<T, Error>(e),
            ),
    {
        let n = L::len();
        let mut v: Vec<T> = Vec::new();
        let mut i: usize = 0;
        while i < n
            invariant
                i <= n,
                n == L::length(),
                v@.len() == i,
                forall|j: usize| j < L::length() ==> #[trigger] f.requires((j,)),
                forall|j: int| 0 <= j < i ==> #[trigger] f.ensures((j as usize,), Ok::<T, Error>(v@[j])),
            decreases n - i,
        {
            match f(i) {
                Ok(x) => v.push(x),
                Err(e) => return Err(e),
            }
            i = i + 1;
        }
        Ok(FixedVec { v, _marker: PhantomData })
    }

    /// Consumes `self` and returns the inner vector, of length `L::len()`.
    pub fn into_inner(self) -> (r: Vec<T>)
        ensures
            r@ == self@,
            r@.len() == L::length(),
    {
        proof {
            use_type_invariant(&self);
        }
        self.v
    }

    /// The elements as a slice.
    pub fn as_slice(&self) -> (r: &[T])
        ensures
            r@ == self@,
            r@.len() == L::length(),
    {
        proof {
            use_type_invariant(self);
        }
        self.v.as_slice()
    }

    /// The number of elements, always `L::len()`.
    pub fn len(&self) -> (r: usize)
        ensures
            r == self@.len(),
            r == L::length(),
    {
        proof {
            use_type_invariant(self);
        }
        self.v.len()
    }

    /// The element at `i`.
    pub fn get(&self, i: usize) -> (r: &T)
        requires
            i < self@.len(),
        ensures
            *r == self@[i as int],
    {
        &self.v[i]
    }
}

impl<T: Copy, L: Len> Clone for FixedVec<T, L> {
    fn clone(&self) -> (r: FixedVec<T, L>)
        ensures
            r@ == self@,
            r@.len() == L::length(),
    {
        proof {
            use_type_invariant(self);
        }
        let mut v: Vec<T> = Vec::new();
        let mut i: usize = 0;
        while i < self.v.len()
            invariant
                i <= self.v@.len(),
                v@ == self.v@.take(i as int),
            decreases self.v@.len() - i,
        {
            v.push(self.v[i]);
            i = i + 1;
            proof {
                assert(v@ =~= self.v@.take(i as int));
            }
        }
        proof {
            assert(v@ =~= self.v@);
        }
        FixedVec { v, _marker: PhantomData }
    }
}

} // verus!
