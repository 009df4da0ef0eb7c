//! The inner error stage: the error terms of the first layer of the revdot
//! reduction, `M^2 - M` for each of the `N` groups of claims.

use core::marker::PhantomData;
use vstd::prelude::*;

use super::allocate_fixed;
use crate::fold_revdot::fp_vals;
use crate::element::{all_consistent, vals, Element};
use crate::error::Error;
use crate::field::Fp;
use crate::fold_revdot::{NumErrorTerms, Parameters};
use crate::simulator::Simulator;
use crate::vec::{FixedVec, Len};

verus! {

/// The witness of the inner error stage: the error terms of the first
/// folding layer, `M^2 - M` for each of the `N` groups.
pub struct Witness<P: Parameters> {
    pub error_terms: FixedVec<FixedVec<Fp, NumErrorTerms<P::GroupSize>>, P::NumGroups>,
}

/// The output of the inner error stage.
pub struct Output<P: Parameters> {
    pub error_terms: FixedVec<FixedVec<Element, NumErrorTerms<P::GroupSize>>, P::NumGroups>,
}

/// The inner error stage: the error terms of the first folding layer.
pub struct Stage<P: Parameters> {
    _marker: PhantomData<P>,
}

impl<P: Parameters> Stage<P> {
    pub fn new() -> (r: Stage<P>) {
        Stage { _marker: PhantomData }
    }

    /// The number of values the stage allocates: `N (M^2 - M)`.
    pub fn values() -> (r: usize)
        requires
            P::GroupSize::length() * P::GroupSize::length() <= usize::MAX,
            P::NumGroups::length() * NumErrorTerms::<P::GroupSize>::length() <= usize::MAX,
        ensures
            r == P::NumGroups::length() * NumErrorTerms::<P::GroupSize>::length(),
    {
        proof {
            let m = P::GroupSize::length();
            assert(m <= m * m || m == 0) by (nonlinear_arith);
            assert(NumErrorTerms::<P::GroupSize>::length() <= usize::MAX);
            let n = P::NumGroups::length();
            if n > 0 {
                assert(n <= n * NumErrorTerms::<P::GroupSize>::length() || NumErrorTerms::<P::GroupSize>::length() == 0)
                    by (nonlinear_arith);
            }
        }
        let per_group = NumErrorTerms::<P::GroupSize>::len();
        if per_group == 0 {
            proof {
                assert(P::NumGroups::length() * 0 == 0);
            }
            return 0;
        }
        P::NumGroups::len() * per_group
    }

    /// Allocates the error terms of `witness`, one gate each.
    pub fn witness(&self, dr: &mut Simulator, witness: &Witness<P>) -> (r: Result<Output<P>, Error>)
        requires
            P::GroupSize::length() * P::GroupSize::length() <= usize::MAX,
            P::NumGroups::length() <= usize::MAX,
            old(dr).room(P::NumGroups::length() * NumErrorTerms::<P::GroupSize>::length(), 0),
        ensures
            r matches Ok(out) && {
                let n = P::NumGroups::length();
                let e = NumErrorTerms::<P::GroupSize>::length();
                &&& out.error_terms@.len() == n
                &&& forall|i: int|
                    0 <= i < n ==> vals((#[trigger] out.error_terms@[i])@) == fp_vals(witness.error_terms@[i]@)
                        && all_consistent(out.error_terms@[i]@) && out.error_terms@[i]@.len() == e
                &&& old(dr).grew(*final(dr), n * e, 0)
            },
    {
        let ghost d0 = *dr;
        let ghost e = NumErrorTerms::<P::GroupSize>::length();
        let ghost nn = P::NumGroups::length();
        proof {
            let m = P::GroupSize::length();
            assert(m <= m * m || m == 0) by (nonlinear_arith);
        }
        let n = witness.error_terms.len();
        let mut groups: Vec<FixedVec<Element, NumErrorTerms<P::GroupSize>>> = Vec::new();
        let mut i: usize = 0;
        while i < n
            invariant
                i <= n,
                n == nn,
                e == NumErrorTerms::<P::GroupSize>::length(),
                e <= usize::MAX,
                witness.error_terms@.len() == nn,
                groups@.len() == i,
                forall|j: int|
                    0 <= j < i ==> vals((#[trigger] groups@[j])@) == fp_vals(witness.error_terms@[j]@)
                        && all_consistent(groups@[j]@) && groups@[j]@.len() == e,
                d0.room(nn * e, 0),
                dr.gates() == d0.gates() + i * e,
                dr.constraints() == d0.constraints(),
            decreases n - i,
        {
            proof {
                assert(i * e + e <= nn * e) by (nonlinear_arith)
                    requires
                        i < nn,
            ;
            }
            let group = allocate_fixed(dr, witness.error_terms.get(i))?;
            groups.push(group);
            proof {
                assert((i + 1) * e == i * e + e) by (nonlinear_arith);
            }
            i = i + 1;
        }
        let error_terms = FixedVec::new(groups)?;
        Ok(Output { error_terms })
    }
}

} // verus!
