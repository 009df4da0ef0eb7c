//! The prover's side of the outer error stage of a fuse step: the first
//! layer of the revdot reduction folded natively, the collapsed value of
//! each group computed in a simulated circuit, and the second layer's error
//! terms.

use vstd::prelude::*;

use crate::element::{vals, Element};
use crate::error::Error;
use crate::field::{fdiv, fmul, lemma_fp_bounded, Fp};
use crate::fold_revdot::{
    chunk_vectors, claim_fold, fold_inner, fp_vals, outer_error_terms as second_layer_errors, poly_coeffs, revdot_errors,
    size_of, sized, vfold, ClaimFolder, NumErrorTerms, Parameters,
};
use crate::native::circuits::inner_collapse::{
    collapses, ky_group, lemma_two_proof_ky_values, two_proof_ky, witness_ky, Witness as InnerCollapseWitness,
};
use crate::native::claims::{ky_values, TwoProofKySource};
use crate::polynomial::{coeff_vals, Polynomial};
use crate::native::stages::inner_error::Witness as InnerErrorWitness;
use crate::native::stages::outer_error::{allocate_ky, KyValues, Witness as OuterErrorWitness};
use crate::native::stages::allocate_fixed;
use crate::simulator::Simulator;
use crate::vec::{FixedVec, Len};

verus! {

broadcast use lemma_fp_bounded;

/// The collapsed value of group `g`: its error terms and `k(y)` values
/// folded by `mu^-1` and `mu nu`.
pub open spec fn collapsed_value<P: Parameters>(
    mu: nat,
    nu: nat,
    ky: Seq<nat>,
    inner_error_witness: &InnerErrorWitness<P>,
    g: int,
) -> nat {
    let m = P::GroupSize::length();
    claim_fold(fp_vals(inner_error_witness.error_terms@[g]@), ky_group(ky, m, g as nat), m, fdiv(1, mu), fmul(mu, nu))
}

/// Computes the witness of the outer error stage: the claims' `a` and `b`
/// polynomials folded in groups by `mu^-1` and `mu nu`, the revdots of the
/// off-diagonal pairs of those folds as the second layer's error terms, and each group's collapsed
/// value from the inner error terms and the `k(y)` values in claim order.
/// Returns the witness with the two first-layer folds.
#[verifier::rlimit(60)]
pub fn outer_error_terms<P: Parameters, S: Len>(
    mu: &Fp,
    nu: &Fp,
    left_c: &Fp,
    right_c: &Fp,
    ky: KyValues<Fp>,
    inner_error_witness: &InnerErrorWitness<P>,
    claims_a: &[Polynomial],
    claims_b: &[Polynomial],
    sponge_state_elements: FixedVec<Fp, S>,
) -> (r: Result<
    (OuterErrorWitness<P, S>, FixedVec<Polynomial, P::NumGroups>, FixedVec<Polynomial, P::NumGroups>),
    Error,
>)
    requires
        mu@ != 0,
        1 <= P::GroupSize::length(),
        1 <= P::NumGroups::length(),
        P::GroupSize::length() * P::GroupSize::length() <= usize::MAX,
        P::NumGroups::length() * P::NumGroups::length() <= usize::MAX,
        P::NumGroups::length() * P::GroupSize::length() <= usize::MAX,
        P::NumGroups::length() * (2 * (P::GroupSize::length() * P::GroupSize::length()) + 1) + 16 <= usize::MAX,
        claims_a@.len() == claims_b@.len(),
        claims_a@.len() <= P::GroupSize::length() * P::NumGroups::length(),
        sized(claims_a@, size_of(claims_a@)),
        sized(claims_b@, size_of(claims_a@)),
    ensures
        r matches Ok((w, a, b)) && {
            let m = P::GroupSize::length();
            let n = P::NumGroups::length();
            let kyv = witness_ky(left_c@, right_c@, &ky.left, &ky.right);
            let sz = size_of(claims_a@);
            &&& sized(a@, sz)
            &&& sized(b@, sz)
            &&& forall|g: int|
                0 <= g < n ==> coeff_vals((#[trigger] a@[g]).coeffs@) == vfold(
                    chunk_vectors(poly_coeffs(claims_a@), m, g as nat, sz),
                    sz,
                    fdiv(1, mu@),
                )
            &&& forall|g: int|
                0 <= g < n ==> coeff_vals((#[trigger] b@[g]).coeffs@) == vfold(
                    chunk_vectors(poly_coeffs(claims_b@), m, g as nat, sz),
                    sz,
                    fmul(mu@, nu@),
                )
            &&& fp_vals(w.error_terms@) == revdot_errors(poly_coeffs(a@), poly_coeffs(b@), n)
            &&& w.collapsed@.len() == n
            &&& forall|g: int|
                0 <= g < n ==> (#[trigger] w.collapsed@[g])@ == collapsed_value(mu@, nu@, kyv, inner_error_witness, g)
            &&& w.ky == ky
            &&& w.sponge_state_elements == sponge_state_elements
        },
{
    let ghost m = P::GroupSize::length();
    let ghost n = P::NumGroups::length();
    let ghost mm: nat = m * m;
    proof {
        assert(m <= m * m) by (nonlinear_arith)
            requires
                m >= 1,
        ;
        assert(n <= n * (2 * mm + 1)) by (nonlinear_arith)
            requires
                mm >= 1,
        ;
    }
    let mu_inv = mu.invert().unwrap();
    let mu_nu = mu.mul(nu);
    proof {
        crate::field::lemma_fmul_comm(mu@, mu_inv@);
        crate::field::lemma_fdiv_unique(1, mu@, mu_inv@, mu_inv@);
    }
    let a = fold_inner::<P>(claims_a, &mu_inv);
    proof {
        assert(size_of(claims_b@) == size_of(claims_a@));
    }
    let b = fold_inner::<P>(claims_b, &mu_nu);

    let mut dr = Simulator::new();
    let allocator = &mut ();
    let mu_e = Element::allocate(&mut dr, allocator, *mu)?;
    let nu_e = Element::allocate(&mut dr, allocator, *nu)?;
    let lc = Element::allocate(&mut dr, allocator, *left_c)?;
    let rc = Element::allocate(&mut dr, allocator, *right_c)?;
    let left_ky = allocate_ky(&mut dr, &ky.left)?;
    let right_ky = allocate_ky(&mut dr, &ky.right)?;
    let ky_source = TwoProofKySource::new(&mut dr, lc, rc, &left_ky, &right_ky);
    let gm = P::GroupSize::len();
    let groups = inner_error_witness.error_terms.len();
    let kys = ky_values(&ky_source, groups * gm);
    let folder = ClaimFolder::new(&mut dr, &mu_e, &nu_e)?;
    let ghost kyv = witness_ky(left_c@, right_c@, &ky.left, &ky.right);
    proof {
        assert(two_proof_ky(lc.val(), rc.val(), left_ky, right_ky) =~= kyv);
    }
    let ghost d0 = dr;
    let mut collapsed: Vec<Fp> = Vec::new();
    let mut i: usize = 0;
    while i < groups
        invariant
            i <= groups,
            groups == n,
            gm == m,
            m >= 1,
            m <= usize::MAX,
            m == P::GroupSize::length(),
            n == P::NumGroups::length(),
            mm == m * m,
            mm >= 1,
            m * m <= usize::MAX,
            n * m <= usize::MAX,
            inner_error_witness.error_terms@.len() == n,
            kys@.len() == n * m,
            forall|j: int| 0 <= j < n * m ==> #[trigger] kys@[j] == crate::native::claims::ky_at(&ky_source, j),
            ky_source.left_raw_c == lc,
            ky_source.right_raw_c == rc,
            ky_source.left_app == left_ky.application,
            ky_source.right_app == right_ky.application,
            ky_source.left_bridge == left_ky.unified_bridge,
            ky_source.right_bridge == right_ky.unified_bridge,
            ky_source.left_unified == left_ky.unified,
            ky_source.right_unified == right_ky.unified,
            ky_source.zero.val() == 0,
            ky_source.zero.consistent(),
            lc.consistent() && rc.consistent(),
            crate::native::stages::outer_error::ky_consistent(&left_ky),
            crate::native::stages::outer_error::ky_consistent(&right_ky),
            kyv == two_proof_ky(lc.val(), rc.val(), left_ky, right_ky),
            kyv == witness_ky(left_c@, right_c@, &ky.left, &ky.right),
            folder.mu_inv_val() == fdiv(1, mu@),
            folder.mu_nu_val() == fmul(mu@, nu@),
            folder.consistent(),
            collapsed@.len() == i,
            forall|g: int|
                0 <= g < i ==> (#[trigger] collapsed@[g])@ == collapsed_value(mu@, nu@, kyv, inner_error_witness, g),
            d0.room(n * (2 * mm + 1), n * (2 * mm + 1)),
            dr.gates() <= d0.gates() + i * (2 * mm),
            dr.constraints() == d0.constraints() + i * (2 * (mm - 1)),
        decreases n - i,
    {
        proof {
            assert((i + 1) * m <= n * m) by (nonlinear_arith)
                requires
                    i < n,
            ;
            assert(i * m + m == (i + 1) * m) by (nonlinear_arith);
            assert(i * (2 * mm) + 2 * mm <= n * (2 * mm + 1)) by (nonlinear_arith)
                requires
                    i < n,
            ;
            assert(i * (2 * (mm - 1)) + 2 * mm <= n * (2 * mm + 1)) by (nonlinear_arith)
                requires
                    i < n,
                    mm >= 1,
            ;
            assert(m <= m * m) by (nonlinear_arith)
                requires
                    m >= 1,
            ;
            assert(NumErrorTerms::<P::GroupSize>::length() == (m * m - m) as nat);
            assert(NumErrorTerms::<P::GroupSize>::length() <= mm);
        }
        let errors = allocate_fixed(&mut dr, inner_error_witness.error_terms.get(i))?;
        let mut chunk: Vec<Element> = Vec::new();
        let mut k: usize = 0;
        while k < gm
            invariant
                k <= m,
                gm == m,
                i < n,
                i * m + m <= n * m,
                n * m <= usize::MAX,
                kys@.len() == n * m,
                chunk@.len() == k,
                forall|t: int| 0 <= t < k ==> #[trigger] chunk@[t] == kys@[i * m + t],
            decreases m - k,
        {
            chunk.push(kys[i * gm + k]);
            k = k + 1;
        }
        let chunk = FixedVec::<Element, P::GroupSize>::new(chunk)?;
        proof {
            assert forall|t: int| 0 <= t < m implies #[trigger] vals(chunk@)[t] == ky_group(kyv, m, i as nat)[t]
                && chunk@[t].consistent() by {
                assert(0 <= i * m + t < n * m);
                lemma_two_proof_ky_values(ky_source, i * m + t);
            }
            assert(vals(chunk@) =~= ky_group(kyv, m, i as nat));
            assert(2 * m * m == 2 * mm) by (nonlinear_arith)
                requires
                    mm == m * m,
            ;
        }
        let folded = folder.fold_inner::<P>(&mut dr, &errors, &chunk)?;
        collapsed.push(folded.value());
        proof {
            assert((i + 1) * (2 * mm) == i * (2 * mm) + 2 * mm) by (nonlinear_arith);
            assert((i + 1) * (2 * (mm - 1)) == i * (2 * (mm - 1)) + 2 * (mm - 1)) by (nonlinear_arith);
        }
        i = i + 1;
    }
    let collapsed = FixedVec::new(collapsed)?;
    let fa = a.as_slice();
    let fb = b.as_slice();
    proof {
        assert(size_of(fa@) == size_of(claims_a@));
    }
    let error_terms = second_layer_errors::<P>(fa, fb);
    proof {
        let sz = size_of(claims_a@);
        assert(chunk_vectors(poly_coeffs(fa@), n, 0, sz) =~= poly_coeffs(fa@));
        assert(chunk_vectors(poly_coeffs(fb@), n, 0, sz) =~= poly_coeffs(fb@));
    }
    Ok((OuterErrorWitness { error_terms, collapsed, ky, sponge_state_elements }, a, b))
}

/// What the prover computes, the inner collapse circuit accepts: with the
/// collapsed values of [`outer_error_terms`], and the same challenges, `c`
/// values, `k(y)` values and inner error terms, every group collapses.
pub proof fn lemma_prover_collapsed_accepted<P: Parameters, S: Len>(w: &InnerCollapseWitness<P, S>)
    requires
        forall|g: int|
            0 <= g < P::NumGroups::length() ==> (#[trigger] w.outer_error_witness.collapsed@[g])@ == collapsed_value(
                w.mu@,
                w.nu@,
                witness_ky(w.left_c@, w.right_c@, &w.outer_error_witness.ky.left, &w.outer_error_witness.ky.right),
                w.inner_error_witness,
                g,
            ),
    ensures
        forall|g: int| 0 <= g < P::NumGroups::length() ==> #[trigger] collapses(w, g),
{
    assert forall|g: int| 0 <= g < P::NumGroups::length() implies #[trigger] collapses(w, g) by {
        assert(w.outer_error_witness.collapsed@[g]@ == collapsed_value(
            w.mu@,
            w.nu@,
            witness_ky(w.left_c@, w.right_c@, &w.outer_error_witness.ky.left, &w.outer_error_witness.ky.right),
            w.inner_error_witness,
            g,
        ));
    }
}

} // verus!
