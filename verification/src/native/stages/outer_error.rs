//! The outer error stage: the error terms of the second layer of the revdot
//! reduction, the collapsed values of the first layer, the children's `k(y)`
//! values, and the sponge state that bridges the transcript between the two
//! hash circuits.

use core::marker::PhantomData;
use vstd::prelude::*;

use super::allocate_fixed;
use crate::fold_revdot::fp_vals;
use crate::element::{all_consistent, vals, Element};
use crate::error::Error;
use crate::field::Fp;
use crate::fold_revdot::{NumErrorTerms, Parameters};
use crate::simulator::Simulator;
use crate::vec::{FixedVec, Len};

verus! {

/// `k(Y)` evaluations for a single child proof.
pub struct ChildKyValues<F> {
    /// `k(y)` of the application circuit.
    pub application: F,
    /// `k(y)` of the unified circuit.
    pub unified: F,
    /// `k(y)` of the header-unified binding.
    pub unified_bridge: F,
}

/// `k(Y)` evaluations computed during a fuse operation.
pub struct KyValues<F> {
    /// The values of the left child proof.
    pub left: ChildKyValues<F>,
    /// The values of the right child proof.
    pub right: ChildKyValues<F>,
}

/// The `k(y)` gadgets of a single child proof.
#[derive(Clone, Copy, Debug)]
pub struct ChildKyOutputs {
    /// `k(y)` of the application circuit.
    pub application: Element,
    /// `k(y)` of the unified circuit.
    pub unified: Element,
    /// `k(y)` of the header-unified binding.
    pub unified_bridge: Element,
}

/// The witness of the outer error stage: the error terms of the second
/// folding layer, the `N` results of the first, the children's `k(y)`
/// values, and the saved sponge state that bridges the transcript.
pub struct Witness<P: Parameters, S: Len> {
    pub error_terms: FixedVec<Fp, NumErrorTerms<P::NumGroups>>,
    pub collapsed: FixedVec<Fp, P::NumGroups>,
    pub ky: KyValues<Fp>,
    pub sponge_state_elements: FixedVec<Fp, S>,
}

/// The output of the outer error stage.
pub struct Output<P: Parameters, S: Len> {
    pub error_terms: FixedVec<Element, NumErrorTerms<P::NumGroups>>,
    pub collapsed: FixedVec<Element, P::NumGroups>,
    pub left: ChildKyOutputs,
    pub right: ChildKyOutputs,
    pub sponge_state: FixedVec<Element, S>,
}

/// The values of a child's `k(y)` gadgets, in allocation order.
pub open spec fn ky_output_values(k: &ChildKyOutputs) -> Seq<nat> {
    seq![k.application.val(), k.unified.val(), k.unified_bridge.val()]
}

/// The values of a child's `k(y)` witness, in allocation order.
pub open spec fn ky_witness_values(k: &ChildKyValues<Fp>) -> Seq<nat> {
    seq![k.application@, k.unified@, k.unified_bridge@]
}

/// Whether all of a child's `k(y)` gadgets carry their values.
pub open spec fn ky_consistent(k: &ChildKyOutputs) -> bool {
    k.application.consistent() && k.unified.consistent() && k.unified_bridge.consistent()
}

/// Allocates a child's `k(y)` values, one gate each.
pub(crate) fn allocate_ky(dr: &mut Simulator, ky: &ChildKyValues<Fp>) -> (r: Result<ChildKyOutputs, Error>)
    requires
        old(dr).room(3, 0),
    ensures
        r matches Ok(k) && {
            &&& ky_output_values(&k) == ky_witness_values(ky)
            &&& ky_consistent(&k)
            &&& old(dr).grew(*final(dr), 3, 0)
        },
{
    let allocator = &mut ();
    let application = Element::allocate(dr, allocator, ky.application)?;
    let unified = Element::allocate(dr, allocator, ky.unified)?;
    let unified_bridge = Element::allocate(dr, allocator, ky.unified_bridge)?;
    Ok(ChildKyOutputs { application, unified, unified_bridge })
}

/// The outer error stage: the error terms of the second folding layer, the
/// results of the first, the `k(y)` values and the bridged sponge state.
pub struct Stage<P: Parameters, S: Len> {
    _marker: PhantomData<(P, S)>,
}

impl<P: Parameters, S: Len> Stage<P, S> {
    pub fn new() -> (r: Stage<P, S>) {
        Stage { _marker: PhantomData }
    }

    /// The number of values the stage allocates: `N^2 - N` error terms, `N`
    /// results, six `k(y)` values and the sponge state.
    pub fn values() -> (r: usize)
        requires
            P::NumGroups::length() * P::NumGroups::length() + 6 + S::length() <= usize::MAX,
        ensures
            r == NumErrorTerms::<P::NumGroups>::length() + P::NumGroups::length() + 6 + S::length(),
    {
        proof {
            let n = P::NumGroups::length();
            assert(n <= n * n || n == 0) by (nonlinear_arith);
        }
        NumErrorTerms::<P::NumGroups>::len() + P::NumGroups::len() + 6 + S::len()
    }

    /// Allocates the values of `witness`, one gate each.
    pub fn witness(&self, dr: &mut Simulator, witness: &Witness<P, S>) -> (r: Result<
        Output<P, S>,
        Error,
    >)
        requires
            P::NumGroups::length() * P::NumGroups::length() + 6 + S::length() <= usize::MAX,
            old(dr).room(NumErrorTerms::<P::NumGroups>::length() + P::NumGroups::length() + 6 + S::length(), 0),
        ensures
            r matches Ok(out) && {
                &&& out.error_terms@.len() == NumErrorTerms::<P::NumGroups>::length()
                &&& out.collapsed@.len() == P::NumGroups::length()
                &&& out.sponge_state@.len() == S::length()
                &&& vals(out.error_terms@) == fp_vals(witness.error_terms@)
                &&& vals(out.collapsed@) == fp_vals(witness.collapsed@)
                &&& ky_output_values(&out.left) == ky_witness_values(&witness.ky.left)
                &&& ky_output_values(&out.right) == ky_witness_values(&witness.ky.right)
                &&& vals(out.sponge_state@) == fp_vals(witness.sponge_state_elements@)
                &&& all_consistent(out.error_terms@)
                &&& all_consistent(out.collapsed@)
                &&& ky_consistent(&out.left)
                &&& ky_consistent(&out.right)
                &&& all_consistent(out.sponge_state@)
                &&& old(dr).grew(
                    *final(dr),
                    NumErrorTerms::<P::NumGroups>::length() + P::NumGroups::length() + 6 + S::length(),
                    0,
                )
            },
    {
        proof {
            let n = P::NumGroups::length();
            assert(n <= n * n || n == 0) by (nonlinear_arith);
        }
        let error_terms = allocate_fixed(dr, &witness.error_terms)?;
        let collapsed = allocate_fixed(dr, &witness.collapsed)?;
        let left = allocate_ky(dr, &witness.ky.left)?;
        let right = allocate_ky(dr, &witness.ky.right)?;
        let sponge_state = allocate_fixed(dr, &witness.sponge_state_elements)?;
        Ok(Output { error_terms, collapsed, left, right, sponge_state })
    }
}

} // verus!
