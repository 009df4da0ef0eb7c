//! The outer collapse circuit: the second layer of the revdot reduction,
//! checked against the claimed value `c` of the unified instance.

use vstd::prelude::*;

use crate::allocator::Allocator;
use crate::boolean::Boolean;
use crate::element::{all_consistent, vals, Element};
use crate::error::Error;
use crate::field::{fdiv, fmul, lemma_fp_bounded, Fp};
use crate::fold_revdot::{claim_fold, ClaimFolder, NumErrorTerms, Parameters};
use crate::fold_revdot::fp_vals;
use crate::native::stages::outer_error::{Output as OuterErrorOutput, Stage as OuterErrorStage, Witness as OuterErrorWitness};
use crate::simulator::Simulator;
use core::marker::PhantomData;
use crate::vec::Len;

verus! {

broadcast use lemma_fp_bounded;

/// The claim value that the second layer of the revdot reduction folds to:
/// the `N^2 - N` error terms and the `N` collapsed values of the first
/// layer, by `x = mu'^-1` and `y = mu' nu'`.
pub open spec fn folded_c<P: Parameters, S: Len>(outer: &OuterErrorOutput<P, S>, mu_prime: nat, nu_prime: nat) -> nat {
    claim_fold(
        vals(outer.error_terms@),
        vals(outer.collapsed@),
        P::NumGroups::length(),
        fdiv(1, mu_prime),
        fmul(mu_prime, nu_prime),
    )
}

/// Whether every element the outer collapse reads carries its value.
pub open spec fn outer_inputs_consistent<P: Parameters, S: Len>(
    mu_prime: &Element,
    nu_prime: &Element,
    outer: &OuterErrorOutput<P, S>,
    witnessed_c: &Element,
    is_base_case: &Boolean,
) -> bool {
    &&& mu_prime.consistent()
    &&& nu_prime.consistent()
    &&& all_consistent(outer.error_terms@)
    &&& all_consistent(outer.collapsed@)
    &&& witnessed_c.consistent()
    &&& is_base_case.consistent()
}

/// Checks the second layer of the revdot reduction on allocated values: the
/// folded claim of the layer's error terms and the first layer's collapsed
/// values must equal the witnessed `c`, except in the base case.
fn check_c<P: Parameters, S: Len, A: Allocator>(
    dr: &mut Simulator,
    allocator: &mut A,
    mu_prime: &Element,
    nu_prime: &Element,
    outer: &OuterErrorOutput<P, S>,
    witnessed_c: &Element,
    is_base_case: &Boolean,
) -> (r: Result<(), Error>)
    requires
        1 <= P::NumGroups::length(),
        P::NumGroups::length() * P::NumGroups::length() <= usize::MAX,
        old(dr).room(
            3 + P::NumGroups::length() * P::NumGroups::length(),
            7 + 2 * (P::NumGroups::length() * P::NumGroups::length()),
        ),
    ensures
        mu_prime.val() == 0 ==> r is Err,
        outer_inputs_consistent(mu_prime, nu_prime, outer, witnessed_c, is_base_case) ==> (r is Ok <==> mu_prime.val()
            != 0 && (is_base_case.val() || witnessed_c.val() == folded_c(outer, mu_prime.val(), nu_prime.val()))),
        r is Ok ==> {
            let n = P::NumGroups::length();
            old(dr).grew(*final(dr), n * n + 2, 2 * (n * n) + 5)
        },
{
    let ghost n = P::NumGroups::length();
    proof {
        assert(n <= n * n) by (nonlinear_arith)
            requires
                n >= 1,
        ;
        assert(2 * n * n == 2 * (n * n)) by (nonlinear_arith);
    }
    let folder = ClaimFolder::new(dr, mu_prime, nu_prime)?;
    let computed_c = folder.fold_outer::<P>(dr, &outer.error_terms, &outer.collapsed)?;
    let not_base = is_base_case.not(dr);
    not_base.conditional_enforce_equal(dr, allocator, witnessed_c, &computed_c)
}

/// The witness of the outer collapse circuit: the layer's challenges `mu'`
/// and `nu'`, the claimed value `c` of the unified instance, whether both
/// children are trivial proofs, and the witness of the outer error stage.
pub struct Witness<'a, P: Parameters, S: Len> {
    pub mu_prime: Fp,
    pub nu_prime: Fp,
    pub c: Fp,
    pub is_base_case: bool,
    pub outer_error_witness: &'a OuterErrorWitness<P, S>,
}

/// The value the second layer folds the witnessed error terms and collapsed
/// values to, by `mu'^-1` and `mu' nu'`.
pub open spec fn witness_folded_c<P: Parameters, S: Len>(w: &Witness<P, S>) -> nat {
    claim_fold(
        fp_vals(w.outer_error_witness.error_terms@),
        fp_vals(w.outer_error_witness.collapsed@),
        P::NumGroups::length(),
        fdiv(1, w.mu_prime@),
        fmul(w.mu_prime@, w.nu_prime@),
    )
}

/// The circuit that verifies the second layer of the two-layer revdot
/// reduction and the claimed value `c`.
pub struct Circuit<P: Parameters, S: Len> {
    _marker: PhantomData<(P, S)>,
}

impl<P: Parameters, S: Len> Circuit<P, S> {
    pub fn new() -> (r: Circuit<P, S>) {
        Circuit { _marker: PhantomData }
    }

    /// Allocates the outer error stage and the values of `witness` and
    /// checks the second layer: succeeds exactly when `mu'` is nonzero and,
    /// outside the base case, `c` is the folded claim. In the base case both
    /// children are trivial and the prover may choose any `c` to seed the
    /// recursion.
    pub fn witness(&self, dr: &mut Simulator, witness: &Witness<P, S>) -> (r: Result<(), Error>)
        requires
            1 <= P::NumGroups::length(),
            P::NumGroups::length() * P::NumGroups::length() + 6 + S::length() <= usize::MAX,
            old(dr).room(
                2 * (P::NumGroups::length() * P::NumGroups::length()) + 16 + S::length(),
                9 + 2 * (P::NumGroups::length() * P::NumGroups::length()),
            ),
        ensures
            r is Ok <==> witness.mu_prime@ != 0 && (witness.is_base_case || witness.c@ == witness_folded_c(witness)),
    {
        let ghost n = P::NumGroups::length();
        proof {
            assert(n <= n * n) by (nonlinear_arith)
                requires
                    n >= 1,
            ;
        }
        let outer = OuterErrorStage::<P, S>::new().witness(dr, witness.outer_error_witness)?;
        let allocator = &mut ();
        let mu_prime = Element::allocate(dr, allocator, witness.mu_prime)?;
        let nu_prime = Element::allocate(dr, allocator, witness.nu_prime)?;
        let c = Element::allocate(dr, allocator, witness.c)?;
        let is_base_case = Boolean::allocate(dr, allocator, witness.is_base_case)?;
        proof {
            assert(folded_c(&outer, mu_prime.val(), nu_prime.val()) == witness_folded_c(witness));
        }
        check_c::<P, S, ()>(dr, allocator, &mu_prime, &nu_prime, &outer, &c, &is_base_case)
    }
}

} // verus!
