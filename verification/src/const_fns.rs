//! Helpers for filling fixed-size tables slot by slot.

use vstd::prelude::*;

verus! {

/// Assigns `val` into the next slot, `slots[*c]`, and advances the counter.
pub fn push<T: Copy, const N: usize>(slots: &mut [Option<T>; N], c: &mut usize, val: T)
    requires
        *old(c) < N,
    ensures
        final(slots)@ == old(slots)@.update(*old(c) as int, Some(val)),
        *final(c) == *old(c) + 1,
{
    slots[*c] = Some(val);
    *c = *c + 1;
}

/// The array holding the elements of `v`, by std's
/// `TryFrom<Vec<T>> for [T; N]`, whose documentation says that it succeeds
/// exactly when the vector's length is `N` and then holds its elements.
#[verifier::external_body]
fn array_from_vec<T, const N: usize>(v: Vec<T>) -> (r: [T; N])
    requires
        v@.len() == N,
    ensures
        r@ == v@,
{
    <[T; N]>::try_from(v).ok().unwrap()
}

/// Unwraps every slot; each must be filled.
pub fn unwrap_all<T: Copy, const N: usize>(slots: [Option<T>; N]) -> (r: [T; N])
    requires
        forall|i: int| 0 <= i < N ==> #[trigger] slots@[i] is Some,
    ensures
        forall|i: int| 0 <= i < N ==> #[trigger] r@[i] == slots@[i]->0,
{
    let mut values: Vec<T> = Vec::new();
    let mut i: usize = 0;
    while i < N
        invariant
            i <= N,
            slots@.len() == N,
            forall|j: int| 0 <= j < N ==> #[trigger] slots@[j] is Some,
            values@.len() == i,
            forall|j: int| 0 <= j < i ==> #[trigger] values@[j] == slots@[j]->0,
        decreases N - i,
    {
        values.push(slots[i].unwrap());
        i = i + 1;
    }
    array_from_vec(values)
}

} // verus!
