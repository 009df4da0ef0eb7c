//! The stages of a fuse step that allocate the prover's data: the error
//! terms of the two folding layers with the `k(y)` values, and the
//! evaluations at `u` of the polynomials the step opens.

pub mod eval;
pub mod inner_error;
pub mod outer_error;

use vstd::prelude::*;

use crate::allocator::Allocator;
use crate::element::{all_consistent, allocate_all, vals, Element};
use crate::error::Error;
use crate::field::Fp;
use crate::fold_revdot::fp_vals;
use crate::simulator::Simulator;
use crate::vec::{FixedVec, Len};

verus! {

/// Allocates each value of `values`, one gate each.
pub(crate) fn allocate_fixed<L: Len>(dr: &mut Simulator, values: &FixedVec<Fp, L>) -> (r: Result<FixedVec<Element, L>, Error>)
    requires
        L::length() <= usize::MAX,
        old(dr).room(L::length(), 0),
    ensures
        r matches Ok(v) && {
            &&& v@.len() == L::length()
            &&& vals(v@) == fp_vals(values@)
            &&& all_consistent(v@)
            &&& old(dr).grew(*final(dr), L::length(), 0)
        },
{
    let data = values.as_slice();
    let allocator = &mut ();
    proof {
        assert(forall|a: ()| #[trigger] a.alloc_uses_gate());
    }
    let elems = allocate_all(dr, allocator, data)?;
    proof {
        assert(vals(elems@).len() == data@.len());
    }
    let v = FixedVec::new(elems)?;
    Ok(v)
}

} // verus!
