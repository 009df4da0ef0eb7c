//! The inner collapse circuit: the first layer of the revdot reduction,
//! checked group by group against the collapsed values of the outer error
//! stage.

use vstd::prelude::*;

use crate::allocator::Allocator;
use crate::boolean::Boolean;
use crate::native::claims::{ky_at, ky_claims, ky_values, KySource, TwoProofKySource};
use crate::element::{all_consistent, vals, Element};
use crate::error::Error;
use crate::field::{fdiv, fmul, lemma_fp_bounded, Fp};
use crate::fold_revdot::{claim_fold, ClaimFolder, NumErrorTerms, Parameters};
use crate::simulator::Simulator;
use crate::fold_revdot::fp_vals;
use crate::native::stages::inner_error::{Output as InnerErrorOutput, Stage as InnerErrorStage, Witness as InnerErrorWitness};
use crate::native::stages::outer_error::{
    ky_consistent, ChildKyOutputs, ChildKyValues, Output as OuterErrorOutput, Stage as OuterErrorStage,
    Witness as OuterErrorWitness,
};
use core::marker::PhantomData;
use crate::vec::{FixedVec, Len};

verus! {

broadcast use lemma_fp_bounded;

/// The `k(y)` values of the circuit claims of a fuse of two proofs: the
/// children's `c`, their application values, their unified bridge values,
/// and their unified values once per unified circuit.
pub open spec fn two_proof_ky(left_c: nat, right_c: nat, left: ChildKyOutputs, right: ChildKyOutputs) -> Seq<nat> {
    let lu = left.unified.val();
    let ru = right.unified.val();
    seq![
        left_c,
        right_c,
        left.application.val(),
        right.application.val(),
        left.unified_bridge.val(),
        right.unified_bridge.val(),
        lu,
        ru,
        lu,
        ru,
        lu,
        ru,
        lu,
        ru,
    ]
}

/// The `k(y)` value of claim `j`: zero past the circuit claims.
pub open spec fn ky_value_at(ky: Seq<nat>, j: int) -> nat {
    if j < ky.len() {
        ky[j]
    } else {
        0
    }
}

/// The `k(y)` values of the `g`-th group of `m` claims.
pub open spec fn ky_group(ky: Seq<nat>, m: nat, g: nat) -> Seq<nat> {
    Seq::new(m, |k: int| ky_value_at(ky, g * m + k))
}

/// Whether the `g`-th group's error terms and `k(y)` values fold, by
/// `x = mu^-1` and `y = mu nu`, to the group's collapsed value.
pub open spec fn group_collapses<P: Parameters, S: Len>(
    inner: &InnerErrorOutput<P>,
    outer: &OuterErrorOutput<P, S>,
    ky: Seq<nat>,
    g: int,
    x: nat,
    y: nat,
) -> bool {
    let m = P::GroupSize::length();
    claim_fold(vals(inner.error_terms@[g]@), ky_group(ky, m, g as nat), m, x, y) == outer.collapsed@[g].val()
}

/// Whether every element the inner collapse reads carries its value.
pub open spec fn inner_inputs_consistent<P: Parameters, S: Len>(
    mu: &Element,
    nu: &Element,
    left_c: &Element,
    right_c: &Element,
    outer: &OuterErrorOutput<P, S>,
    inner: &InnerErrorOutput<P>,
) -> bool {
    &&& mu.consistent()
    &&& nu.consistent()
    &&& left_c.consistent()
    &&& right_c.consistent()
    &&& ky_consistent(&outer.left)
    &&& ky_consistent(&outer.right)
    &&& all_consistent(outer.collapsed@)
    &&& forall|g: int| 0 <= g < inner.error_terms@.len() ==> all_consistent(#[trigger] inner.error_terms@[g]@)
}

pub(crate) proof fn lemma_two_proof_ky_values(ky: TwoProofKySource, j: int)
    requires
        0 <= j,
        ky.zero.val() == 0,
    ensures
        ky_at(&ky, j).val() == ky_value_at(
            two_proof_ky(ky.left_raw_c.val(), ky.right_raw_c.val(), ChildKyOutputs {
                application: ky.left_app,
                unified: ky.left_unified,
                unified_bridge: ky.left_bridge,
            }, ChildKyOutputs { application: ky.right_app, unified: ky.right_unified, unified_bridge: ky.right_bridge }),
            j,
        ),
        ky.left_raw_c.consistent() && ky.right_raw_c.consistent() && ky.left_app.consistent() && ky.right_app.consistent()
            && ky.left_bridge.consistent() && ky.right_bridge.consistent() && ky.left_unified.consistent()
            && ky.right_unified.consistent() && ky.zero.consistent() ==> ky_at(&ky, j).consistent(),
{
    let c = ky_claims(&ky);
    assert(c =~= seq![
        ky.left_raw_c,
        ky.right_raw_c,
        ky.left_app,
        ky.right_app,
        ky.left_bridge,
        ky.right_bridge,
        ky.left_unified,
        ky.right_unified,
        ky.left_unified,
        ky.right_unified,
        ky.left_unified,
        ky.right_unified,
        ky.left_unified,
        ky.right_unified,
    ]);
}

/// Checks the first layer of the revdot reduction on allocated values: for
/// each of the `N` groups, the folded claim of its `M^2 - M` error terms and
/// its `M` `k(y)` values must equal the group's collapsed value. The `k(y)`
/// values come in claim order from the children's `c` values and the `k(y)`
/// values of the outer error stage.
#[verifier::rlimit(60)]
fn check_groups<P: Parameters, S: Len>(
    dr: &mut Simulator,
    mu: &Element,
    nu: &Element,
    left_c: &Element,
    right_c: &Element,
    outer: &OuterErrorOutput<P, S>,
    inner: &InnerErrorOutput<P>,
) -> (r: Result<(), Error>)
    requires
        1 <= P::GroupSize::length(),
        P::GroupSize::length() * P::GroupSize::length() <= usize::MAX,
        P::NumGroups::length() * P::GroupSize::length() <= usize::MAX,
        old(dr).room(
            2 + P::NumGroups::length() * (P::GroupSize::length() * P::GroupSize::length()),
            4 + P::NumGroups::length() * (2 * (P::GroupSize::length() * P::GroupSize::length()) + 1),
        ),
    ensures
        mu.val() == 0 ==> r is Err,
        r is Ok && inner_inputs_consistent(mu, nu, left_c, right_c, outer, inner) ==> forall|g: int|
            0 <= g < P::NumGroups::length() ==> #[trigger] group_collapses(
                inner,
                outer,
                two_proof_ky(left_c.val(), right_c.val(), outer.left, outer.right),
                g,
                fdiv(1, mu.val()),
                fmul(mu.val(), nu.val()),
            ),
        inner_inputs_consistent(mu, nu, left_c, right_c, outer, inner) && mu.val() != 0 && (forall|g: int|
            0 <= g < P::NumGroups::length() ==> #[trigger] group_collapses(
                inner,
                outer,
                two_proof_ky(left_c.val(), right_c.val(), outer.left, outer.right),
                g,
                fdiv(1, mu.val()),
                fmul(mu.val(), nu.val()),
            )) ==> r is Ok,
{
    let ghost m = P::GroupSize::length();
    let ghost nn = P::NumGroups::length();
    let ghost good = inner_inputs_consistent(mu, nu, left_c, right_c, outer, inner);
    let ghost kyv = two_proof_ky(left_c.val(), right_c.val(), outer.left, outer.right);
    let ghost x = fdiv(1, mu.val());
    let ghost y = fmul(mu.val(), nu.val());
    proof {
        assert(m <= m * m) by (nonlinear_arith)
            requires
                m >= 1,
        ;
        assert(2 <= 2 + nn * (m * m));
    }
    let folder = ClaimFolder::new(dr, mu, nu)?;
    let ky = TwoProofKySource::new(dr, *left_c, *right_c, &outer.left, &outer.right);
    let n = outer.collapsed.len();
    let groups = inner.error_terms.len();
    let gm = P::GroupSize::len();
    let kys = ky_values(&ky, n * gm);
    let ghost d0 = *dr;
    let ghost mm: nat = m * m;
    proof {
        assert(m <= m * m) by (nonlinear_arith)
            requires
                m >= 1,
        ;
    }
    let mut i: usize = 0;
    while i < n
        invariant
            i <= n,
            n == nn,
            groups == nn,
            gm == m,
            m >= 1,
            m <= usize::MAX,
            m == P::GroupSize::length(),
            nn == P::NumGroups::length(),
            m * m <= usize::MAX,
            nn * m <= usize::MAX,
            outer.collapsed@.len() == nn,
            inner.error_terms@.len() == nn,
            kys@.len() == nn * m,
            forall|j: int| 0 <= j < nn * m ==> #[trigger] kys@[j] == ky_at(&ky, j),
            ky.left_raw_c == *left_c,
            ky.right_raw_c == *right_c,
            ky.left_app == outer.left.application,
            ky.right_app == outer.right.application,
            ky.left_bridge == outer.left.unified_bridge,
            ky.right_bridge == outer.right.unified_bridge,
            ky.left_unified == outer.left.unified,
            ky.right_unified == outer.right.unified,
            ky.zero.val() == 0,
            ky.zero.consistent(),
            x == fdiv(1, mu.val()),
            y == fmul(mu.val(), nu.val()),
            folder.mu_nu_val() == y,
            folder.mu_inv_val() == x,
            folder.consistent(),
            good == inner_inputs_consistent(mu, nu, left_c, right_c, outer, inner),
            kyv == two_proof_ky(left_c.val(), right_c.val(), outer.left, outer.right),
            good ==> forall|g: int| 0 <= g < i ==> #[trigger] group_collapses(inner, outer, kyv, g, x, y),
            mm == m * m,
            mm >= 1,
            d0.room(nn * mm, nn * (2 * mm + 1)),
            dr.gates() == d0.gates() + i * (mm - 1),
            dr.constraints() == d0.constraints() + i * (2 * mm - 1),
        decreases n - i,
    {
        let mut chunk: Vec<Element> = Vec::new();
        let mut k: usize = 0;
        proof {
            assert((i + 1) * m <= nn * m) by (nonlinear_arith)
                requires
                    i < nn,
            ;
            assert(i * m + m == (i + 1) * m) by (nonlinear_arith);
        }
        while k < gm
            invariant
                k <= m,
                gm == m,
                i < nn,
                i * m + m <= nn * m,
                nn * m <= usize::MAX,
                kys@.len() == nn * m,
                chunk@.len() == k,
                forall|t: int| 0 <= t < k ==> #[trigger] chunk@[t] == kys@[i * m + t],
            decreases m - k,
        {
            chunk.push(kys[i * gm + k]);
            k = k + 1;
        }
        let chunk = FixedVec::<Element, P::GroupSize>::new(chunk)?;
        proof {
            assert forall|t: int| 0 <= t < m implies #[trigger] vals(chunk@)[t] == ky_group(kyv, m, i as nat)[t] && (
            good ==> chunk@[t].consistent()) by {
                assert(0 <= i * m + t < nn * m);
                lemma_two_proof_ky_values(ky, i * m + t);
            }
            assert(vals(chunk@) =~= ky_group(kyv, m, i as nat));
            assert(i * (mm - 1) + mm <= nn * mm) by (nonlinear_arith)
                requires
                    i < nn,
                    mm >= 1,
            ;
            assert(i * (2 * mm - 1) + 2 * mm <= nn * (2 * mm + 1)) by (nonlinear_arith)
                requires
                    i < nn,
                    mm >= 1,
            ;
            assert(2 * m * m == 2 * mm) by (nonlinear_arith)
                requires
                    mm == m * m,
            ;
        }
        let folded = folder.fold_inner::<P>(dr, inner.error_terms.get(i), &chunk)?;
        let ghost before = *dr;
        let check = folded.enforce_equal(dr, outer.collapsed.get(i));
        proof {
            if good {
                assert(all_consistent(inner.error_terms@[i as int]@));
                assert(all_consistent(chunk@));
                assert(outer.collapsed@[i as int].consistent());
                assert(folded.consistent());
            }
        }
        match check {
            Ok(()) => {},
            Err(e) => {
                proof {
                    assert(good ==> !group_collapses(inner, outer, kyv, i as int, x, y));
                }
                return Err(e);
            },
        }
        proof {
            assert((i + 1) * (mm - 1) == i * (mm - 1) + (mm - 1)) by (nonlinear_arith);
            assert((i + 1) * (2 * mm - 1) == i * (2 * mm - 1) + (2 * mm - 1)) by (nonlinear_arith);
        }
        i = i + 1;
    }
    Ok(())
}

/// The `k(y)` values of the circuit claims of a fuse of two proofs, from the
/// children's `c` values and the witnessed `k(y)` values.
pub open spec fn witness_ky(left_c: nat, right_c: nat, left: &ChildKyValues<Fp>, right: &ChildKyValues<Fp>) -> Seq<nat> {
    let lu = left.unified@;
    let ru = right.unified@;
    seq![
        left_c,
        right_c,
        left.application@,
        right.application@,
        left.unified_bridge@,
        right.unified_bridge@,
        lu,
        ru,
        lu,
        ru,
        lu,
        ru,
        lu,
        ru,
    ]
}

/// The witness of the inner collapse circuit: the layer's challenges `mu`
/// and `nu`, the children's `c` values, and the witnesses of the two error
/// stages.
pub struct Witness<'a, P: Parameters, S: Len> {
    pub mu: Fp,
    pub nu: Fp,
    pub left_c: Fp,
    pub right_c: Fp,
    pub inner_error_witness: &'a InnerErrorWitness<P>,
    pub outer_error_witness: &'a OuterErrorWitness<P, S>,
}

/// Whether the `g`-th group of the witness collapses: its error terms and
/// `k(y)` values fold, by `mu^-1` and `mu nu`, to its collapsed value.
pub open spec fn collapses<P: Parameters, S: Len>(w: &Witness<P, S>, g: int) -> bool {
    let m = P::GroupSize::length();
    let ky = witness_ky(w.left_c@, w.right_c@, &w.outer_error_witness.ky.left, &w.outer_error_witness.ky.right);
    claim_fold(
        fp_vals(w.inner_error_witness.error_terms@[g]@),
        ky_group(ky, m, g as nat),
        m,
        fdiv(1, w.mu@),
        fmul(w.mu@, w.nu@),
    ) == w.outer_error_witness.collapsed@[g]@
}

/// The circuit that verifies the first layer of the two-layer revdot
/// reduction.
pub struct Circuit<P: Parameters, S: Len> {
    _marker: PhantomData<(P, S)>,
}

impl<P: Parameters, S: Len> Circuit<P, S> {
    pub fn new() -> (r: Circuit<P, S>) {
        Circuit { _marker: PhantomData }
    }

    /// Allocates the error stages and the challenges of `witness` and checks
    /// every group's reduction: succeeds exactly when `mu` is nonzero and
    /// every group collapses.
    #[verifier::rlimit(40)]
    pub fn witness(&self, dr: &mut Simulator, witness: &Witness<P, S>) -> (r: Result<(), Error>)
        requires
            1 <= P::GroupSize::length(),
            P::GroupSize::length() * P::GroupSize::length() <= usize::MAX,
            P::NumGroups::length() * P::GroupSize::length() <= usize::MAX,
            P::NumGroups::length() * P::NumGroups::length() + 6 + S::length() <= usize::MAX,
            old(dr).room(
                P::NumGroups::length() * P::NumGroups::length() + 6 + S::length() + P::NumGroups::length()
                    * NumErrorTerms::<P::GroupSize>::length() + 6 + P::NumGroups::length() * (
                P::GroupSize::length() * P::GroupSize::length()),
                4 + P::NumGroups::length() * (2 * (P::GroupSize::length() * P::GroupSize::length()) + 1),
            ),
        ensures
            r is Ok <==> witness.mu@ != 0 && forall|g: int| 0 <= g < P::NumGroups::length() ==> #[trigger] collapses(witness, g),
    {
        let ghost m = P::GroupSize::length();
        let ghost n = P::NumGroups::length();
        proof {
            assert(n <= n * n || n == 0) by (nonlinear_arith);
            assert(NumErrorTerms::<P::NumGroups>::length() + n <= n * n) by (nonlinear_arith)
                requires
                    NumErrorTerms::<P::NumGroups>::length() == (n * n - n) as nat,
                    n <= n * n || n == 0,
            ;
        }
        let outer = OuterErrorStage::<P, S>::new().witness(dr, witness.outer_error_witness)?;
        let inner = InnerErrorStage::<P>::new().witness(dr, witness.inner_error_witness)?;
        let allocator = &mut ();
        let mu = Element::allocate(dr, allocator, witness.mu)?;
        let nu = Element::allocate(dr, allocator, witness.nu)?;
        let left_c = Element::allocate(dr, allocator, witness.left_c)?;
        let right_c = Element::allocate(dr, allocator, witness.right_c)?;
        proof {
            let kyv = two_proof_ky(left_c.val(), right_c.val(), outer.left, outer.right);
            let kyw = witness_ky(witness.left_c@, witness.right_c@, &witness.outer_error_witness.ky.left, &witness.outer_error_witness.ky.right);
            assert(crate::native::stages::outer_error::ky_output_values(&outer.left)[0] == outer.left.application.val());
            assert(kyv =~= kyw);
            assert(outer.collapsed@.len() == n);
            assert(vals(outer.collapsed@).len() == n);
            assert(fp_vals(witness.outer_error_witness.collapsed@).len() == n);
            assert(witness.outer_error_witness.collapsed@.len() == n);
            assert forall|g: int| 0 <= g < n implies #[trigger] group_collapses(&inner, &outer, kyv, g, fdiv(1, mu.val()), fmul(mu.val(), nu.val())) == collapses(witness, g) by {
                assert(vals(outer.collapsed@)[g] == fp_vals(witness.outer_error_witness.collapsed@)[g]);
                assert(outer.collapsed@[g].val() == witness.outer_error_witness.collapsed@[g]@);
                assert(vals(inner.error_terms@[g]@) == fp_vals(witness.inner_error_witness.error_terms@[g]@));
                assert(mu.val() == witness.mu@);
                assert(nu.val() == witness.nu@);
                assert(ky_group(kyv, m, g as nat) == ky_group(kyw, m, g as nat));
            }
            assert forall|g: int| 0 <= g < inner.error_terms@.len() implies all_consistent(#[trigger] inner.error_terms@[g]@) by {
            }
            assert(inner_inputs_consistent(&mu, &nu, &left_c, &right_c, &outer, &inner));
        }
        let r = check_groups::<P, S>(dr, &mu, &nu, &left_c, &right_c, &outer, &inner);
        proof {
            let kyv = two_proof_ky(left_c.val(), right_c.val(), outer.left, outer.right);
            if r is Ok {
                assert forall|g: int| 0 <= g < n implies #[trigger] collapses(witness, g) by {
                    assert(group_collapses(&inner, &outer, kyv, g, fdiv(1, mu.val()), fmul(mu.val(), nu.val())));
                }
            }
            if witness.mu@ != 0 && forall|g: int| 0 <= g < n ==> #[trigger] collapses(witness, g) {
                assert forall|g: int| 0 <= g < n implies #[trigger] group_collapses(&inner, &outer, kyv, g, fdiv(1, mu.val()), fmul(mu.val(), nu.val())) by {
                    assert(collapses(witness, g));
                }
            }
        }
        r
    }
}

} // verus!
