//! The circuit that computes the claimed value `v` of a fuse step: the
//! revdot claims rebuilt from the `rx` evaluations witnessed in the query
//! stage and folded in two layers into `a(xz)` and `b(x)`; the quotients of
//! the polynomial queries summed into `f(u)` over inverted denominators; and
//! `v` weighed from `f(u)` and the evaluation stage by the effective `beta`.

use vstd::prelude::*;

use crate::allocator::Allocator;
use crate::native::claims::{
    build, build_claims, chained, claim_views, components, internal_claims, is_circuit, lemma_build_entries, lemma_build_len,
    lemma_circuit_claim_traces, lemma_stage_claim_traces, Claim, ClaimKind, Source,
};
use crate::element::{all_consistent, fsum, horner, vals, wires, Element};
use crate::endoscalar::{extracted_lift, lift_value, Endoscalar};
use crate::error::{Error, WitnessError};
use crate::field::{fadd, fdiv, fmul, fsub, Fp};
use crate::fold_revdot::{
    fold_groups, fold_two_layer, lemma_two_layer_gates_bound, lemma_two_layer_ok_consistent, two_layer_gates,
    two_layer_groups, Parameters,
};
use crate::native::{
    internal_at, rx_at, InternalCircuitIndex, InternalCircuitValues, RxComponent, RxIndex, RxValues, NUM_INTERNAL,
};
use crate::inverter::Inverter;
use crate::simulator::Simulator;
use crate::native::stages::eval::Output as EvalOutput;
use core::marker::PhantomData;
use crate::vec::Len;

verus! {

broadcast use crate::field::lemma_fp_bounded;

/// The evaluations of a child proof's polynomials witnessed in the query
/// stage.
pub struct ChildQueryEvaluations {
    /// Each `rx` polynomial of the child at `xz`.
    pub rx: RxValues<Element>,
    /// The child's `a` polynomial at `xz`.
    pub a_poly_at_xz: Element,
    /// The child's `b` polynomial at `x`.
    pub b_poly_at_x: Element,
    /// The child's `m(W, x_i, y_i)` at the current `w`.
    pub child_registry_xy_at_current_w: Element,
    /// The current `m(w, X, y)` at the child's `x`.
    pub current_registry_wy_at_child_x: Element,
    /// The current `m(W, x, y)` at the child's circuit id.
    pub current_registry_xy_at_child_circuit_id: Element,
}

/// The output of the query stage.
pub struct QueryOutput {
    /// The left child's evaluations.
    pub left: ChildQueryEvaluations,
    /// The right child's evaluations.
    pub right: ChildQueryEvaluations,
    /// `m(w, x, y)`.
    pub registry_wxy: Element,
    /// The registry `s_y` evaluated at each internal circuit's point.
    pub fixed_registry: InternalCircuitValues<Element>,
}

/// The evaluations of both children, as a [`Source`] of claims.
pub struct EvaluationSource<'a> {
    pub left: &'a ChildQueryEvaluations,
    pub right: &'a ChildQueryEvaluations,
}

impl<'a> Source for EvaluationSource<'a> {
    type Rx = Element;

    /// For an application circuit: the registry evaluation at its id.
    type AppCircuitId = Element;

    open spec fn rx_seq(&self, component: RxComponent) -> Seq<Element> {
        match component {
            RxComponent::AbA => seq![self.left.a_poly_at_xz, self.right.a_poly_at_xz],
            RxComponent::AbB => seq![self.left.b_poly_at_x, self.right.b_poly_at_x],
            RxComponent::Rx(idx) => seq![self.left.rx.at(idx), self.right.rx.at(idx)],
        }
    }

    open spec fn app_seq(&self) -> Seq<Element> {
        seq![
            self.left.current_registry_xy_at_child_circuit_id,
            self.right.current_registry_xy_at_child_circuit_id,
        ]
    }

    fn rx(&self, component: RxComponent) -> (r: Vec<Element>) {
        match component {
            RxComponent::AbA => vec![self.left.a_poly_at_xz, self.right.a_poly_at_xz],
            RxComponent::AbB => vec![self.left.b_poly_at_x, self.right.b_poly_at_x],
            RxComponent::Rx(idx) => vec![*self.left.rx.get(idx), *self.right.rx.get(idx)],
        }
    }

    fn app_circuits(&self) -> (r: Vec<Element>) {
        vec![
            self.left.current_registry_xy_at_child_circuit_id,
            self.right.current_registry_xy_at_child_circuit_id,
        ]
    }
}

/// The entry of `ax` that a claim contributes: its `a` for a raw claim, its
/// trace for an application circuit, the sum of its traces for an internal
/// circuit, and the fold of its traces by `z` for a stage.
pub open spec fn ax_entry(c: (ClaimKind, Option<Element>, Seq<Element>), z: nat) -> nat {
    match c.0 {
        ClaimKind::Raw => c.2[0].val(),
        ClaimKind::Circuit => c.2[0].val(),
        ClaimKind::Internal(_) => fsum(vals(c.2)),
        ClaimKind::Bonding(_) => horner(vals(c.2), z),
    }
}

/// The entry of `bx` that a claim contributes: its `b` for a raw claim;
/// `rx + s_y + t(xz)` for a circuit, where `rx` is the (summed) trace and
/// `s_y` the registry evaluation of the circuit; `s_y` for a stage.
pub open spec fn bx_entry(c: (ClaimKind, Option<Element>, Seq<Element>), txz: nat, registry: Seq<nat>) -> nat {
    match c.0 {
        ClaimKind::Raw => c.2[1].val(),
        ClaimKind::Circuit => fadd(fadd(c.2[0].val(), c.1->Some_0.val()), txz),
        ClaimKind::Internal(id) => fadd(fadd(fsum(vals(c.2)), registry[id.position() as int]), txz),
        ClaimKind::Bonding(id) => registry[id.position() as int],
    }
}

/// Whether every element a claim holds carries its value.
pub open spec fn claim_consistent(c: (ClaimKind, Option<Element>, Seq<Element>)) -> bool {
    &&& all_consistent(c.2)
    &&& c.1 matches Some(app) ==> app.consistent()
}

/// The gates spent on a claim: a stage folds its `k` traces with `k - 1`
/// multiplications.
pub open spec fn claim_gates(c: (ClaimKind, Option<Element>, Seq<Element>)) -> nat {
    match c.0 {
        ClaimKind::Bonding(_) => if c.2.len() > 0 {
            (c.2.len() - 1) as nat
        } else {
            0
        },
        _ => 0,
    }
}

/// The gates spent on a sequence of claims.
pub open spec fn claims_gates(cs: Seq<(ClaimKind, Option<Element>, Seq<Element>)>) -> nat
    decreases cs.len(),
{
    if cs.len() == 0 {
        0
    } else {
        claims_gates(cs.drop_last()) + claim_gates(cs.last())
    }
}

/// Builds the vectors `ax` and `bx` whose two-layer folds are `a(xz)` and
/// `b(x)`, one entry per claim.
pub struct EvaluationProcessor<'a> {
    z: Element,
    txz: Element,
    fixed_registry: &'a InternalCircuitValues<Element>,
    ax: Vec<Element>,
    bx: Vec<Element>,
}

impl<'a> EvaluationProcessor<'a> {
    /// The entries of `ax` so far.
    pub closed spec fn ax_spec(&self) -> Seq<Element> {
        self.ax@
    }

    /// The entries of `bx` so far.
    pub closed spec fn bx_spec(&self) -> Seq<Element> {
        self.bx@
    }

    /// The value of `z`.
    pub closed spec fn z_spec(&self) -> Element {
        self.z
    }

    /// The value of `t(xz)`.
    pub closed spec fn txz_spec(&self) -> Element {
        self.txz
    }

    /// The registry evaluations at the internal circuits' points.
    pub closed spec fn registry_spec(&self) -> Seq<Element> {
        self.fixed_registry@
    }

    /// A processor with empty vectors.
    pub fn new(z: &Element, txz: &Element, fixed_registry: &'a InternalCircuitValues<Element>) -> (r:
        EvaluationProcessor<'a>)
        ensures
            r.ax_spec() == Seq::<Element>::empty(),
            r.bx_spec() == Seq::<Element>::empty(),
            r.z_spec() == *z,
            r.txz_spec() == *txz,
            r.registry_spec() == fixed_registry@,
    {
        EvaluationProcessor { z: *z, txz: *txz, fixed_registry, ax: Vec::new(), bx: Vec::new() }
    }

    /// The vectors `ax` and `bx`.
    pub fn build(self) -> (r: (Vec<Element>, Vec<Element>))
        ensures
            r.0@ == self.ax_spec(),
            r.1@ == self.bx_spec(),
    {
        (self.ax, self.bx)
    }

    /// A raw claim: `a` goes to `ax` and `b` to `bx`.
    pub fn raw_claim(&mut self, a: &Element, b: &Element)
        ensures
            final(self).ax_spec() == old(self).ax_spec().push(*a),
            final(self).bx_spec() == old(self).bx_spec().push(*b),
            final(self).z_spec() == old(self).z_spec(),
            final(self).txz_spec() == old(self).txz_spec(),
            final(self).registry_spec() == old(self).registry_spec(),
    {
        self.ax.push(*a);
        self.bx.push(*b);
    }

    /// An application circuit claim: `rx` goes to `ax`, `rx + s_y + t(xz)`
    /// to `bx`.
    pub fn circuit_claim(&mut self, dr: &mut Simulator, sy: &Element, rx: &Element)
        ensures
            final(self).ax_spec() == old(self).ax_spec().push(*rx),
            final(self).bx_spec().drop_last() == old(self).bx_spec(),
            final(self).bx_spec().len() == old(self).bx_spec().len() + 1,
            final(self).bx_spec().last().val() == fadd(fadd(rx.val(), sy.val()), old(self).txz_spec().val()),
            rx.consistent() && sy.consistent() && old(self).txz_spec().consistent()
                ==> final(self).bx_spec().last().consistent(),
            final(self).z_spec() == old(self).z_spec(),
            final(self).txz_spec() == old(self).txz_spec(),
            final(self).registry_spec() == old(self).registry_spec(),
            *final(dr) == *old(dr),
    {
        self.ax.push(*rx);
        let b = rx.add(dr, sy).add(dr, &self.txz);
        self.bx.push(b);
        proof {
            assert(self.bx@.drop_last() =~= old(self).bx@);
        }
    }

    /// An internal circuit claim over the sum of `rxs`: the sum goes to
    /// `ax`, the sum plus `s_y` of the circuit plus `t(xz)` to `bx`.
    pub fn internal_circuit_claim(&mut self, dr: &mut Simulator, id: InternalCircuitIndex, rxs: &[Element])
        ensures
            final(self).ax_spec().drop_last() == old(self).ax_spec(),
            final(self).bx_spec().drop_last() == old(self).bx_spec(),
            final(self).ax_spec().len() == old(self).ax_spec().len() + 1,
            final(self).bx_spec().len() == old(self).bx_spec().len() + 1,
            final(self).ax_spec().last().val() == fsum(vals(rxs@)),
            final(self).bx_spec().last().val() == fadd(
                fadd(fsum(vals(rxs@)), old(self).registry_spec()[id.position() as int].val()),
                old(self).txz_spec().val(),
            ),
            all_consistent(rxs@) ==> final(self).ax_spec().last().consistent(),
            all_consistent(rxs@) && old(self).registry_spec()[id.position() as int].consistent()
                && old(self).txz_spec().consistent() ==> final(self).bx_spec().last().consistent(),
            final(self).z_spec() == old(self).z_spec(),
            final(self).txz_spec() == old(self).txz_spec(),
            final(self).registry_spec() == old(self).registry_spec(),
            *final(dr) == *old(dr),
    {
        let sy = *self.fixed_registry.get(id);
        let sum = Element::sum(dr, rxs);
        proof {
            lemma_consistent_sums(rxs@);
        }
        self.ax.push(sum);
        let b = sum.add(dr, &sy).add(dr, &self.txz);
        self.bx.push(b);
        proof {
            assert(self.ax@.drop_last() =~= old(self).ax@);
            assert(self.bx@.drop_last() =~= old(self).bx@);
        }
    }

    /// A stage claim over the traces `rxs`, one per fold slot: the fold of
    /// `rxs` by `z` goes to `ax`, `s_y` of the stage to `bx`.
    pub fn bonding_claim(&mut self, dr: &mut Simulator, id: InternalCircuitIndex, rxs: &[Element]) -> (r: Result<
        (),
        Error,
    >)
        requires
            old(dr).room(rxs@.len(), 2 * rxs@.len()),
        ensures
            all_consistent(rxs@) && old(self).z_spec().consistent() ==> r is Ok,
            r is Err <==> rxs@.len() > 1 && !(old(self).z_spec().consistent() && all_consistent(rxs@.drop_last())),
            r matches Err(e) ==> e == Error::InvalidWitness(WitnessError::ConstraintFailed),
            r is Err ==> *final(self) == *old(self),
            r is Ok ==> {
                &&& final(self).ax_spec().drop_last() == old(self).ax_spec()
                &&& final(self).ax_spec().len() == old(self).ax_spec().len() + 1
                &&& final(self).ax_spec().last().val() == horner(vals(rxs@), old(self).z_spec().val())
                &&& all_consistent(rxs@) ==> final(self).ax_spec().last().consistent()
                &&& final(self).bx_spec() == old(self).bx_spec().push(
                    old(self).registry_spec()[id.position() as int],
                )
                &&& final(self).z_spec() == old(self).z_spec()
                &&& final(self).txz_spec() == old(self).txz_spec()
                &&& final(self).registry_spec() == old(self).registry_spec()
                &&& rxs@.len() == 0 ==> *final(dr) == *old(dr)
                &&& rxs@.len() > 0 ==> old(dr).grew(*final(dr), (rxs@.len() - 1) as nat, (2 * (rxs@.len() - 1)) as nat)
            },
    {
        let mut groups: Vec<Vec<Element>> = Vec::new();
        let mut i: usize = 0;
        while i < rxs.len()
            invariant
                i <= rxs@.len(),
                groups@.len() == i,
                forall|j: int| 0 <= j < i ==> (#[trigger] groups@[j])@ == seq![rxs@[j]],
            decreases rxs@.len() - i,
        {
            groups.push(vec![rxs[i]]);
            i = i + 1;
        }
        proof {
            assert(group_sums(groups@) =~= vals(rxs@)) by {
                assert forall|j: int| 0 <= j < rxs@.len() implies #[trigger] group_sums(groups@)[j] == vals(rxs@)[j] by {
                    let g = groups@[j]@;
                    assert(g == seq![rxs@[j]]);
                    rxs@[j].lemma_bounded();
                    assert(vals(g) =~= seq![rxs@[j].val()]);
                    assert(vals(g).drop_last() =~= Seq::<nat>::empty());
                    assert(fsum(vals(g).drop_last()) == 0);
                    assert(vals(g).last() == rxs@[j].val());
                    crate::field::lemma_fadd_zero(rxs@[j].val());
                    assert(fsum(vals(g)) == rxs@[j].val());
                }
            }
            assert forall|j: int| 0 <= j < groups@.len() implies #[trigger] all_consistent(groups@[j]@) == rxs@[j].consistent() by {
                assert(groups@[j]@ == seq![rxs@[j]]);
                assert(groups@[j]@[0] == rxs@[j]);
            }
            assert forall|j: int| 0 <= j < groups@.len() implies #[trigger] sum_consistent(groups@[j]@) == rxs@[j].consistent() by {
                let g = groups@[j]@;
                assert(g == seq![rxs@[j]]);
                rxs@[j].lemma_bounded();
                assert(wires(g) =~= seq![rxs@[j].wire_val()]);
                assert(vals(g) =~= seq![rxs@[j].val()]);
                assert(wires(g).drop_last() =~= Seq::<nat>::empty());
                assert(vals(g).drop_last() =~= Seq::<nat>::empty());
                crate::field::lemma_fadd_zero(rxs@[j].val());
                crate::field::lemma_fadd_zero(rxs@[j].wire_val());
            }
            if rxs@.len() > 1 {
                assert(all_consistent(rxs@.drop_last()) <==> forall|j: int|
                    0 <= j < groups@.len() - 1 ==> sum_consistent(#[trigger] groups@[j]@)) by {
                    if all_consistent(rxs@.drop_last()) {
                        assert forall|j: int| 0 <= j < groups@.len() - 1 implies sum_consistent(#[trigger] groups@[j]@) by {
                            assert(rxs@.drop_last()[j] == rxs@[j]);
                        }
                    }
                    if forall|j: int| 0 <= j < groups@.len() - 1 ==> sum_consistent(#[trigger] groups@[j]@) {
                        assert forall|j: int| 0 <= j < rxs@.drop_last().len() implies #[trigger] rxs@.drop_last()[j].consistent() by {
                            assert(rxs@.drop_last()[j] == rxs@[j]);
                            assert(sum_consistent(groups@[j]@));
                        }
                    }
                }
            }
        }
        self.grouped_bonding_claim(dr, id, &groups)
    }

    /// A stage claim over groups of traces, one group per fold slot: the
    /// fold by `z` of the group sums goes to `ax`, `s_y` of the stage to
    /// `bx`.
    pub fn grouped_bonding_claim(&mut self, dr: &mut Simulator, id: InternalCircuitIndex, groups: &Vec<Vec<Element>>) -> (r:
        Result<(), Error>)
        requires
            old(dr).room(groups@.len(), 2 * groups@.len()),
        ensures
            (forall|j: int| 0 <= j < groups@.len() ==> all_consistent(#[trigger] groups@[j]@)) && old(self).z_spec().consistent()
                ==> r is Ok,
            r is Err <==> groups@.len() > 1 && !(old(self).z_spec().consistent() && forall|j: int|
                0 <= j < groups@.len() - 1 ==> sum_consistent(#[trigger] groups@[j]@)),
            r matches Err(e) ==> e == Error::InvalidWitness(WitnessError::ConstraintFailed),
            r is Err ==> *final(self) == *old(self),
            r is Ok ==> {
                &&& final(self).ax_spec().drop_last() == old(self).ax_spec()
                &&& final(self).ax_spec().len() == old(self).ax_spec().len() + 1
                &&& final(self).ax_spec().last().val() == horner(group_sums(groups@), old(self).z_spec().val())
                &&& (forall|j: int| 0 <= j < groups@.len() ==> all_consistent(#[trigger] groups@[j]@))
                    ==> final(self).ax_spec().last().consistent()
                &&& final(self).bx_spec() == old(self).bx_spec().push(
                    old(self).registry_spec()[id.position() as int],
                )
                &&& final(self).z_spec() == old(self).z_spec()
                &&& final(self).txz_spec() == old(self).txz_spec()
                &&& final(self).registry_spec() == old(self).registry_spec()
                &&& groups@.len() == 0 ==> *final(dr) == *old(dr)
                &&& groups@.len() > 0 ==> old(dr).grew(*final(dr), (groups@.len() - 1) as nat, (2 * (groups@.len() - 1)) as nat)
            },
    {
        let sy = *self.fixed_registry.get(id);
        let mut sums: Vec<Element> = Vec::new();
        let mut i: usize = 0;
        while i < groups.len()
            invariant
                i <= groups@.len(),
                sums@.len() == i,
                *dr == *old(dr),
                forall|j: int| 0 <= j < i ==> (#[trigger] sums@[j]).val() == group_sums(groups@)[j],
                forall|j: int| 0 <= j < i ==> all_consistent(#[trigger] groups@[j]@) ==> sums@[j].consistent(),
                forall|j: int| 0 <= j < i ==> (sum_consistent(#[trigger] groups@[j]@) <==> sums@[j].consistent()),
            decreases groups@.len() - i,
        {
            let s = Element::sum(dr, groups[i].as_slice());
            proof {
                lemma_consistent_sums(groups@[i as int]@);
            }
            sums.push(s);
            i = i + 1;
        }
        proof {
            assert(vals(sums@) =~= group_sums(groups@));
            if groups@.len() > 1 {
                assert(all_consistent(sums@.drop_last()) <==> forall|j: int|
                    0 <= j < groups@.len() - 1 ==> sum_consistent(#[trigger] groups@[j]@)) by {
                    if all_consistent(sums@.drop_last()) {
                        assert forall|j: int| 0 <= j < groups@.len() - 1 implies sum_consistent(#[trigger] groups@[j]@) by {
                            assert(sums@.drop_last()[j] == sums@[j]);
                        }
                    }
                    if forall|j: int| 0 <= j < groups@.len() - 1 ==> sum_consistent(#[trigger] groups@[j]@) {
                        assert forall|j: int| 0 <= j < sums@.drop_last().len() implies #[trigger] sums@.drop_last()[j].consistent() by {
                            assert(sums@.drop_last()[j] == sums@[j]);
                            assert(sum_consistent(groups@[j]@));
                        }
                    }
                }
            }
        }
        let folded = Element::fold(dr, sums.as_slice(), &self.z)?;
        self.ax.push(folded);
        self.bx.push(sy);
        proof {
            assert(self.ax@.drop_last() =~= old(self).ax@);
        }
        Ok(())
    }
}

/// Whether the sum of `g`'s wires equals the sum of its values, that is,
/// whether the sum of `g` carries its value.
pub open spec fn sum_consistent(g: Seq<Element>) -> bool {
    fsum(wires(g)) == fsum(vals(g))
}

/// The sums of the groups.
pub open spec fn group_sums(groups: Seq<Vec<Element>>) -> Seq<nat> {
    Seq::new(groups.len(), |j: int| fsum(vals(groups[j]@)))
}

/// A sum of elements that carry their values carries its value.
proof fn lemma_consistent_sums(s: Seq<Element>)
    ensures
        all_consistent(s) ==> fsum(wires(s)) == fsum(vals(s)),
{
    if all_consistent(s) {
        assert forall|i: int| 0 <= i < s.len() implies #[trigger] wires(s)[i] == vals(s)[i] by {
            assert(s[i].consistent());
        }
        assert(wires(s) =~= vals(s));
    }
}

/// The `ax` entries of a sequence of claims.
pub open spec fn ax_entries(cs: Seq<(ClaimKind, Option<Element>, Seq<Element>)>, z: nat) -> Seq<nat> {
    Seq::new(cs.len(), |i: int| ax_entry(cs[i], z))
}

/// The `bx` entries of a sequence of claims.
pub open spec fn bx_entries(cs: Seq<(ClaimKind, Option<Element>, Seq<Element>)>, txz: nat, registry: Seq<nat>) -> Seq<nat> {
    Seq::new(cs.len(), |i: int| bx_entry(cs[i], txz, registry))
}

/// Whether processing claim `c` fails: a stage claim whose fold by `z`
/// multiplies an element that does not carry its value.
pub open spec fn bonding_fails(c: (ClaimKind, Option<Element>, Seq<Element>), z: Element) -> bool {
    c.0 is Bonding && c.2.len() > 1 && !(z.consistent() && all_consistent(c.2.drop_last()))
}

/// Whether claim `i` is the first of `cs` whose processing fails.
pub open spec fn first_bonding_failure(cs: Seq<(ClaimKind, Option<Element>, Seq<Element>)>, i: int, z: Element) -> bool {
    &&& 0 <= i < cs.len()
    &&& bonding_fails(cs[i], z)
    &&& forall|j: int| 0 <= j < i ==> !bonding_fails(#[trigger] cs[j], z)
}

/// Whether every element of every claim carries its value.
pub open spec fn claims_consistent(cs: Seq<(ClaimKind, Option<Element>, Seq<Element>)>) -> bool {
    forall|i: int| 0 <= i < cs.len() ==> claim_consistent(#[trigger] cs[i])
}

proof fn lemma_claims_gates_push(cs: Seq<(ClaimKind, Option<Element>, Seq<Element>)>, i: int)
    requires
        0 <= i < cs.len(),
    ensures
        claims_gates(cs.take(i + 1)) == claims_gates(cs.take(i)) + claim_gates(cs[i]),
        claims_gates(cs.take(i + 1)) <= claims_gates(cs),
{
    assert(cs.take(i + 1).drop_last() =~= cs.take(i));
    lemma_claims_gates_mono(cs, i + 1);
}

proof fn lemma_claims_gates_mono(cs: Seq<(ClaimKind, Option<Element>, Seq<Element>)>, k: int)
    requires
        0 <= k <= cs.len(),
    ensures
        claims_gates(cs.take(k)) <= claims_gates(cs),
    decreases cs.len() - k,
{
    if k < cs.len() {
        assert(cs.take(k + 1).drop_last() =~= cs.take(k));
        lemma_claims_gates_mono(cs, k + 1);
    } else {
        assert(cs.take(k) =~= cs);
    }
}

impl<'a> EvaluationProcessor<'a> {
    /// Whether `z`, `t(xz)` and every registry evaluation carry their values.
    pub open spec fn inputs_consistent(&self) -> bool {
        self.z_spec().consistent() && self.txz_spec().consistent() && all_consistent(self.registry_spec())
    }

    /// Processes `claims` in order, appending one entry per claim to `ax`
    /// and to `bx`. The first stage claim whose fold fails stops the
    /// processing with its error; the claims before it stay processed.
    #[verifier::rlimit(40)]
    pub fn process(&mut self, dr: &mut Simulator, claims: &Vec<Claim<Element, Element>>) -> (r: Result<(), Error>)
        requires
            old(dr).room(
                claims_gates(claim_views(claims@)) + claims@.len(),
                2 * (claims_gates(claim_views(claims@)) + claims@.len()),
            ),
        ensures
            old(self).inputs_consistent() && claims_consistent(claim_views(claims@)) ==> r is Ok,
            r is Ok <==> forall|i: int|
                0 <= i < claims@.len() ==> !bonding_fails(#[trigger] claim_views(claims@)[i], old(self).z_spec()),
            r matches Err(e) ==> e == Error::InvalidWitness(WitnessError::ConstraintFailed),
            r is Err ==> exists|i: int|
                #![trigger first_bonding_failure(claim_views(claims@), i, old(self).z_spec())]
                first_bonding_failure(claim_views(claims@), i, old(self).z_spec()) && vals(final(self).ax_spec())
                    == vals(old(self).ax_spec()) + ax_entries(claim_views(claims@).take(i), old(self).z_spec().val())
                    && vals(final(self).bx_spec()) == vals(old(self).bx_spec()) + bx_entries(
                    claim_views(claims@).take(i),
                    old(self).txz_spec().val(),
                    vals(old(self).registry_spec()),
                ),
            r is Ok ==> {
                let cs = claim_views(claims@);
                &&& vals(final(self).ax_spec()) == vals(old(self).ax_spec()) + ax_entries(cs, old(self).z_spec().val())
                &&& vals(final(self).bx_spec()) == vals(old(self).bx_spec()) + bx_entries(
                    cs,
                    old(self).txz_spec().val(),
                    vals(old(self).registry_spec()),
                )
                &&& final(self).ax_spec().len() == old(self).ax_spec().len() + cs.len()
                &&& final(self).bx_spec().len() == old(self).bx_spec().len() + cs.len()
                &&& old(self).inputs_consistent() && claims_consistent(cs) && all_consistent(old(self).ax_spec())
                    && all_consistent(old(self).bx_spec()) ==> all_consistent(final(self).ax_spec())
                    && all_consistent(final(self).bx_spec())
                &&& final(self).z_spec() == old(self).z_spec()
                &&& final(self).txz_spec() == old(self).txz_spec()
                &&& final(self).registry_spec() == old(self).registry_spec()
                &&& old(dr).grew(*final(dr), claims_gates(cs), 2 * claims_gates(cs))
            },
    {
        let ghost cs = claim_views(claims@);
        let ghost ax0 = self.ax@;
        let ghost bx0 = self.bx@;
        let ghost d0 = *dr;
        let ghost good = self.inputs_consistent() && claims_consistent(cs);
        let ghost z = self.z.val();
        let ghost txz = self.txz.val();
        let ghost reg = vals(self.fixed_registry@);
        proof {
            lemma_claims_gates_mono(cs, 0);
            assert(cs.take(0) =~= Seq::<(ClaimKind, Option<Element>, Seq<Element>)>::empty());
        }
        let mut i: usize = 0;
        while i < claims.len()
            invariant
                i <= claims@.len(),
                cs == claim_views(claims@),
                good == (self.inputs_consistent() && claims_consistent(cs)),
                z == self.z.val(),
                txz == self.txz.val(),
                reg == vals(self.fixed_registry@),
                self.z == old(self).z,
                self.txz == old(self).txz,
                self.fixed_registry@ == old(self).fixed_registry@,
                self.ax@.len() == ax0.len() + i,
                self.bx@.len() == bx0.len() + i,
                vals(self.ax@) == vals(ax0) + ax_entries(cs.take(i as int), z),
                vals(self.bx@) == vals(bx0) + bx_entries(cs.take(i as int), txz, reg),
                good && all_consistent(ax0) ==> all_consistent(self.ax@),
                good && all_consistent(bx0) ==> all_consistent(self.bx@),
                d0.grew(*dr, claims_gates(cs.take(i as int)), 2 * claims_gates(cs.take(i as int))),
                d0.room(claims_gates(cs) + cs.len(), 2 * (claims_gates(cs) + cs.len())),
                forall|j: int| 0 <= j < i ==> !bonding_fails(#[trigger] cs[j], old(self).z),
                ax0 == old(self).ax@,
                bx0 == old(self).bx@,
            decreases claims@.len() - i,
        {
            let ghost ax1 = self.ax@;
            let ghost bx1 = self.bx@;
            let ghost c = cs[i as int];
            proof {
                lemma_claims_gates_push(cs, i as int);
                if good {
                    assert(claim_consistent(cs[i as int]));
                }
            }
            match &claims[i] {
                Claim::Raw(a, b) => {
                    proof {
                        assert(c == claims@[i as int]@);
                    }
                    self.raw_claim(a, b);
                },
                Claim::Circuit(sy, rx) => {
                    proof {
                        assert(c == claims@[i as int]@);
                    }
                    self.circuit_claim(dr, sy, rx);
                },
                Claim::Internal(id, rxs) => {
                    proof {
                        assert(c == claims@[i as int]@);
                    }
                    let _count = self.fixed_registry.len();
                    self.internal_circuit_claim(dr, *id, rxs.as_slice());
                },
                Claim::Bonding(id, rxs) => {
                    let _count = self.fixed_registry.len();
                    proof {
                        assert(c == claims@[i as int]@);
                        assert(c.2 == rxs@);
                        assert(claim_gates(c) + 1 >= rxs@.len());
                        assert(claims_gates(cs.take(i as int)) + claim_gates(c) <= claims_gates(cs));
                        assert(dr.gates() + rxs@.len() <= d0.gates() + claims_gates(cs) + cs.len());
                        assert(dr.constraints() + 2 * rxs@.len() <= d0.constraints() + 2 * (claims_gates(cs) + cs.len()));
                    }
                    match self.bonding_claim(dr, *id, rxs.as_slice()) {
                        Ok(()) => {},
                        Err(e) => {
                            proof {
                                let ii = i as int;
                                assert(bonding_fails(cs[ii], old(self).z));
                                assert(vals(self.ax@) == vals(ax0) + ax_entries(cs.take(ii), z));
                                assert(vals(self.bx@) == vals(bx0) + bx_entries(cs.take(ii), txz, reg));
                                assert(first_bonding_failure(cs, ii, old(self).z));
                                assert(first_bonding_failure(claim_views(claims@), ii, old(self).z_spec()));
                            }
                            return Err(e);
                        },
                    }
                },
            }
            i = i + 1;
            proof {
                let t = cs.take(i as int);
                assert(t.drop_last() =~= cs.take(i - 1));
                assert(ax_entries(t, z) =~= ax_entries(cs.take(i - 1), z).push(ax_entry(c, z)));
                assert(bx_entries(t, txz, reg) =~= bx_entries(cs.take(i - 1), txz, reg).push(bx_entry(c, txz, reg)));
                assert(vals(self.ax@) =~= vals(ax1).push(ax_entry(c, z)));
                assert(vals(self.bx@) =~= vals(bx1).push(bx_entry(c, txz, reg)));
                if good && all_consistent(ax0) {
                    assert forall|j: int| 0 <= j < self.ax@.len() implies #[trigger] self.ax@[j].consistent() by {
                        if j < ax1.len() {
                            assert(self.ax@[j] == self.ax@.drop_last()[j]);
                        }
                    }
                }
                if good && all_consistent(bx0) {
                    assert forall|j: int| 0 <= j < self.bx@.len() implies #[trigger] self.bx@[j].consistent() by {
                        if j < bx1.len() {
                            assert(self.bx@[j] == self.bx@.drop_last()[j]);
                        }
                    }
                }
            }
        }
        proof {
            assert(cs.take(cs.len() as int) =~= cs);
        }
        Ok(())
    }
}

/// Whether every evaluation a child's claims read carries its value.
pub open spec fn child_consistent(c: &ChildQueryEvaluations) -> bool {
    &&& forall|id: RxIndex| #[trigger] c.rx.at(id).consistent()
    &&& c.a_poly_at_xz.consistent()
    &&& c.b_poly_at_x.consistent()
    &&& c.current_registry_xy_at_child_circuit_id.consistent()
}

/// Whether every evaluation the claims of the query stage read carries its
/// value.
pub open spec fn query_consistent(q: &QueryOutput) -> bool {
    child_consistent(&q.left) && child_consistent(&q.right) && all_consistent(q.fixed_registry@)
}

/// The claims of both children in unified order.
pub open spec fn axbx_claims(q: &QueryOutput) -> Seq<(ClaimKind, Option<Element>, Seq<Element>)> {
    build_claims(&EvaluationSource { left: &q.left, right: &q.right })
}

proof fn lemma_claims_gates_add(
    a: Seq<(ClaimKind, Option<Element>, Seq<Element>)>,
    b: Seq<(ClaimKind, Option<Element>, Seq<Element>)>,
)
    ensures
        claims_gates(a + b) == claims_gates(a) + claims_gates(b),
    decreases b.len(),
{
    if b.len() == 0 {
        assert(a + b =~= a);
    } else {
        assert((a + b).drop_last() =~= a + b.drop_last());
        lemma_claims_gates_add(a, b.drop_last());
    }
}

proof fn lemma_claims_gates_none(cs: Seq<(ClaimKind, Option<Element>, Seq<Element>)>)
    requires
        forall|i: int| 0 <= i < cs.len() ==> !((#[trigger] cs[i]).0 is Bonding),
    ensures
        claims_gates(cs) == 0,
    decreases cs.len(),
{
    if cs.len() > 0 {
        lemma_claims_gates_none(cs.drop_last());
    }
}

proof fn lemma_chained_len<S: Source>(s: &S, comps: Seq<RxComponent>, n: nat)
    requires
        forall|c: RxComponent| #[trigger] s.rx_seq(c).len() == n,
    ensures
        chained(s, comps).len() == n * comps.len(),
    decreases comps.len(),
{
    if comps.len() > 0 {
        lemma_chained_len(s, comps.drop_last(), n);
        assert(n * comps.len() == n * (comps.len() - 1) + n) by (nonlinear_arith);
    }
}

/// The claims of the query stage: `22` of them, whose stage folds cost `12`
/// gates.
proof fn lemma_axbx_shape(q: &QueryOutput)
    ensures
        axbx_claims(q).len() == 22,
        claims_gates(axbx_claims(q)) == 12,
{
    let src = EvaluationSource { left: &q.left, right: &q.right };
    assert forall|c: RxComponent| #[trigger] src.rx_seq(c).len() == 2 by {
    }
    lemma_build_len(&src, 2);
    let raw = crate::native::claims::raw_claims(&src);
    let app = crate::native::claims::app_claims(&src);
    let cl = Seq::new(13, |k: int| internal_claims(&src, internal_at(k as nat)));
    reveal_with_fuel(crate::native::claims::internal_claims_upto, 14);
    let up = crate::native::claims::internal_claims_upto(&src, NUM_INTERNAL as nat);
    assert(up =~= cl[0] + cl[1] + cl[2] + cl[3] + cl[4] + cl[5] + cl[6] + cl[7] + cl[8] + cl[9] + cl[10] + cl[11]
        + cl[12]);
    lemma_claims_gates_none(raw);
    lemma_claims_gates_none(app);
    assert forall|k: int| 0 <= k < 13 implies #[trigger] claims_gates(cl[k]) == if k == 11 {
        5nat
    } else if k < 5 {
        0nat
    } else {
        1nat
    } by {
        let id = internal_at(k as nat);
        if is_circuit(id) {
            lemma_claims_gates_none(cl[k]);
        } else {
            lemma_chained_len(&src, components(id), 2);
            assert(components(id).len() == if k == 11 { 3nat } else { 1nat });
            let c = cl[k][0];
            assert(cl[k] == seq![c]);
            assert(c.0 is Bonding);
            assert(c.2.len() == if k == 11 { 6nat } else { 2nat });
            assert(cl[k].drop_last() =~= Seq::<(ClaimKind, Option<Element>, Seq<Element>)>::empty());
            assert(claims_gates(cl[k]) == claims_gates(cl[k].drop_last()) + claim_gates(c));
        }
    }
    let mut acc = raw + app;
    lemma_claims_gates_add(raw, app);
    lemma_claims_gates_add(acc, cl[0]);
    acc = acc + cl[0];
    lemma_claims_gates_add(acc, cl[1]);
    acc = acc + cl[1];
    lemma_claims_gates_add(acc, cl[2]);
    acc = acc + cl[2];
    lemma_claims_gates_add(acc, cl[3]);
    acc = acc + cl[3];
    lemma_claims_gates_add(acc, cl[4]);
    acc = acc + cl[4];
    lemma_claims_gates_add(acc, cl[5]);
    acc = acc + cl[5];
    lemma_claims_gates_add(acc, cl[6]);
    acc = acc + cl[6];
    lemma_claims_gates_add(acc, cl[7]);
    acc = acc + cl[7];
    lemma_claims_gates_add(acc, cl[8]);
    acc = acc + cl[8];
    lemma_claims_gates_add(acc, cl[9]);
    acc = acc + cl[9];
    lemma_claims_gates_add(acc, cl[10]);
    acc = acc + cl[10];
    lemma_claims_gates_add(acc, cl[11]);
    acc = acc + cl[11];
    lemma_claims_gates_add(acc, cl[12]);
    acc = acc + cl[12];
    assert(acc =~= axbx_claims(q));
}

/// The claims of two child proofs in unified order, each over the named
/// evaluations it reads: the raw claims `(a(xz), b(x))` of the left then the
/// right child; their application circuits; then for each internal circuit
/// in canonical order its claims of the left and the right child over the
/// traces of the stages it reads; then one claim per stage over the traces
/// of both children, left before right.
pub proof fn lemma_axbx_claim_contents(q: &QueryOutput)
    ensures
        axbx_claims(q).len() == 22,
        axbx_claims(q)[0] == (ClaimKind::Raw, None::<Element>, seq![q.left.a_poly_at_xz, q.left.b_poly_at_x]),
        axbx_claims(q)[1] == (ClaimKind::Raw, None::<Element>, seq![q.right.a_poly_at_xz, q.right.b_poly_at_x]),
        axbx_claims(q)[2] == (ClaimKind::Circuit, Some(q.left.current_registry_xy_at_child_circuit_id), seq![q.left.rx.at(RxIndex::Application)]),
        axbx_claims(q)[3] == (ClaimKind::Circuit, Some(q.right.current_registry_xy_at_child_circuit_id), seq![q.right.rx.at(RxIndex::Application)]),
        axbx_claims(q)[4] == (ClaimKind::Internal(InternalCircuitIndex::Hashes1Circuit), None::<Element>, seq![q.left.rx.at(RxIndex::Hashes1), q.left.rx.at(RxIndex::Preamble), q.left.rx.at(RxIndex::OuterError)]),
        axbx_claims(q)[5] == (ClaimKind::Internal(InternalCircuitIndex::Hashes1Circuit), None::<Element>, seq![q.right.rx.at(RxIndex::Hashes1), q.right.rx.at(RxIndex::Preamble), q.right.rx.at(RxIndex::OuterError)]),
        axbx_claims(q)[6] == (ClaimKind::Internal(InternalCircuitIndex::Hashes2Circuit), None::<Element>, seq![q.left.rx.at(RxIndex::Hashes2), q.left.rx.at(RxIndex::OuterError)]),
        axbx_claims(q)[7] == (ClaimKind::Internal(InternalCircuitIndex::Hashes2Circuit), None::<Element>, seq![q.right.rx.at(RxIndex::Hashes2), q.right.rx.at(RxIndex::OuterError)]),
        axbx_claims(q)[8] == (ClaimKind::Internal(InternalCircuitIndex::InnerCollapseCircuit), None::<Element>, seq![q.left.rx.at(RxIndex::InnerCollapse), q.left.rx.at(RxIndex::Preamble), q.left.rx.at(RxIndex::InnerError), q.left.rx.at(RxIndex::OuterError)]),
        axbx_claims(q)[9] == (ClaimKind::Internal(InternalCircuitIndex::InnerCollapseCircuit), None::<Element>, seq![q.right.rx.at(RxIndex::InnerCollapse), q.right.rx.at(RxIndex::Preamble), q.right.rx.at(RxIndex::InnerError), q.right.rx.at(RxIndex::OuterError)]),
        axbx_claims(q)[10] == (ClaimKind::Internal(InternalCircuitIndex::OuterCollapseCircuit), None::<Element>, seq![q.left.rx.at(RxIndex::OuterCollapse), q.left.rx.at(RxIndex::Preamble), q.left.rx.at(RxIndex::OuterError)]),
        axbx_claims(q)[11] == (ClaimKind::Internal(InternalCircuitIndex::OuterCollapseCircuit), None::<Element>, seq![q.right.rx.at(RxIndex::OuterCollapse), q.right.rx.at(RxIndex::Preamble), q.right.rx.at(RxIndex::OuterError)]),
        axbx_claims(q)[12] == (ClaimKind::Internal(InternalCircuitIndex::ComputeVCircuit), None::<Element>, seq![q.left.rx.at(RxIndex::ComputeV), q.left.rx.at(RxIndex::Preamble), q.left.rx.at(RxIndex::Query), q.left.rx.at(RxIndex::Eval)]),
        axbx_claims(q)[13] == (ClaimKind::Internal(InternalCircuitIndex::ComputeVCircuit), None::<Element>, seq![q.right.rx.at(RxIndex::ComputeV), q.right.rx.at(RxIndex::Preamble), q.right.rx.at(RxIndex::Query), q.right.rx.at(RxIndex::Eval)]),
        axbx_claims(q)[14] == (ClaimKind::Bonding(InternalCircuitIndex::PreambleStage), None::<Element>, seq![q.left.rx.at(RxIndex::Preamble), q.right.rx.at(RxIndex::Preamble)]),
        axbx_claims(q)[15] == (ClaimKind::Bonding(InternalCircuitIndex::InnerErrorStage), None::<Element>, seq![q.left.rx.at(RxIndex::InnerError), q.right.rx.at(RxIndex::InnerError)]),
        axbx_claims(q)[16] == (ClaimKind::Bonding(InternalCircuitIndex::OuterErrorStage), None::<Element>, seq![q.left.rx.at(RxIndex::OuterError), q.right.rx.at(RxIndex::OuterError)]),
        axbx_claims(q)[17] == (ClaimKind::Bonding(InternalCircuitIndex::QueryStage), None::<Element>, seq![q.left.rx.at(RxIndex::Query), q.right.rx.at(RxIndex::Query)]),
        axbx_claims(q)[18] == (ClaimKind::Bonding(InternalCircuitIndex::EvalStage), None::<Element>, seq![q.left.rx.at(RxIndex::Eval), q.right.rx.at(RxIndex::Eval)]),
        axbx_claims(q)[19] == (ClaimKind::Bonding(InternalCircuitIndex::InnerErrorFinalStaged), None::<Element>, seq![q.left.rx.at(RxIndex::InnerCollapse), q.right.rx.at(RxIndex::InnerCollapse)]),
        axbx_claims(q)[20] == (ClaimKind::Bonding(InternalCircuitIndex::OuterErrorFinalStaged), None::<Element>, seq![q.left.rx.at(RxIndex::Hashes1), q.right.rx.at(RxIndex::Hashes1), q.left.rx.at(RxIndex::Hashes2), q.right.rx.at(RxIndex::Hashes2), q.left.rx.at(RxIndex::OuterCollapse), q.right.rx.at(RxIndex::OuterCollapse)]),
        axbx_claims(q)[21] == (ClaimKind::Bonding(InternalCircuitIndex::EvalFinalStaged), None::<Element>, seq![q.left.rx.at(RxIndex::ComputeV), q.right.rx.at(RxIndex::ComputeV)]),
{
    let src = EvaluationSource { left: &q.left, right: &q.right };
    lemma_circuit_claim_traces(&src, 0);
    lemma_circuit_claim_traces(&src, 1);
    lemma_stage_claim_traces(&src);
    let raw = crate::native::claims::raw_claims(&src);
    let app = crate::native::claims::app_claims(&src);
    let cl = Seq::new(13, |k: int| internal_claims(&src, internal_at(k as nat)));
    reveal_with_fuel(crate::native::claims::internal_claims_upto, 14);
    let up = crate::native::claims::internal_claims_upto(&src, NUM_INTERNAL as nat);
    assert(up =~= cl[0] + cl[1] + cl[2] + cl[3] + cl[4] + cl[5] + cl[6] + cl[7] + cl[8] + cl[9] + cl[10] + cl[11]
        + cl[12]);
    let all = seq![
        (ClaimKind::Raw, None::<Element>, seq![q.left.a_poly_at_xz, q.left.b_poly_at_x]),
        (ClaimKind::Raw, None::<Element>, seq![q.right.a_poly_at_xz, q.right.b_poly_at_x]),
        (ClaimKind::Circuit, Some(q.left.current_registry_xy_at_child_circuit_id), seq![q.left.rx.at(RxIndex::Application)]),
        (ClaimKind::Circuit, Some(q.right.current_registry_xy_at_child_circuit_id), seq![q.right.rx.at(RxIndex::Application)]),
        (ClaimKind::Internal(InternalCircuitIndex::Hashes1Circuit), None::<Element>, seq![q.left.rx.at(RxIndex::Hashes1), q.left.rx.at(RxIndex::Preamble), q.left.rx.at(RxIndex::OuterError)]),
        (ClaimKind::Internal(InternalCircuitIndex::Hashes1Circuit), None::<Element>, seq![q.right.rx.at(RxIndex::Hashes1), q.right.rx.at(RxIndex::Preamble), q.right.rx.at(RxIndex::OuterError)]),
        (ClaimKind::Internal(InternalCircuitIndex::Hashes2Circuit), None::<Element>, seq![q.left.rx.at(RxIndex::Hashes2), q.left.rx.at(RxIndex::OuterError)]),
        (ClaimKind::Internal(InternalCircuitIndex::Hashes2Circuit), None::<Element>, seq![q.right.rx.at(RxIndex::Hashes2), q.right.rx.at(RxIndex::OuterError)]),
        (ClaimKind::Internal(InternalCircuitIndex::InnerCollapseCircuit), None::<Element>, seq![q.left.rx.at(RxIndex::InnerCollapse), q.left.rx.at(RxIndex::Preamble), q.left.rx.at(RxIndex::InnerError), q.left.rx.at(RxIndex::OuterError)]),
        (ClaimKind::Internal(InternalCircuitIndex::InnerCollapseCircuit), None::<Element>, seq![q.right.rx.at(RxIndex::InnerCollapse), q.right.rx.at(RxIndex::Preamble), q.right.rx.at(RxIndex::InnerError), q.right.rx.at(RxIndex::OuterError)]),
        (ClaimKind::Internal(InternalCircuitIndex::OuterCollapseCircuit), None::<Element>, seq![q.left.rx.at(RxIndex::OuterCollapse), q.left.rx.at(RxIndex::Preamble), q.left.rx.at(RxIndex::OuterError)]),
        (ClaimKind::Internal(InternalCircuitIndex::OuterCollapseCircuit), None::<Element>, seq![q.right.rx.at(RxIndex::OuterCollapse), q.right.rx.at(RxIndex::Preamble), q.right.rx.at(RxIndex::OuterError)]),
        (ClaimKind::Internal(InternalCircuitIndex::ComputeVCircuit), None::<Element>, seq![q.left.rx.at(RxIndex::ComputeV), q.left.rx.at(RxIndex::Preamble), q.left.rx.at(RxIndex::Query), q.left.rx.at(RxIndex::Eval)]),
        (ClaimKind::Internal(InternalCircuitIndex::ComputeVCircuit), None::<Element>, seq![q.right.rx.at(RxIndex::ComputeV), q.right.rx.at(RxIndex::Preamble), q.right.rx.at(RxIndex::Query), q.right.rx.at(RxIndex::Eval)]),
        (ClaimKind::Bonding(InternalCircuitIndex::PreambleStage), None::<Element>, seq![q.left.rx.at(RxIndex::Preamble), q.right.rx.at(RxIndex::Preamble)]),
        (ClaimKind::Bonding(InternalCircuitIndex::InnerErrorStage), None::<Element>, seq![q.left.rx.at(RxIndex::InnerError), q.right.rx.at(RxIndex::InnerError)]),
        (ClaimKind::Bonding(InternalCircuitIndex::OuterErrorStage), None::<Element>, seq![q.left.rx.at(RxIndex::OuterError), q.right.rx.at(RxIndex::OuterError)]),
        (ClaimKind::Bonding(InternalCircuitIndex::QueryStage), None::<Element>, seq![q.left.rx.at(RxIndex::Query), q.right.rx.at(RxIndex::Query)]),
        (ClaimKind::Bonding(InternalCircuitIndex::EvalStage), None::<Element>, seq![q.left.rx.at(RxIndex::Eval), q.right.rx.at(RxIndex::Eval)]),
        (ClaimKind::Bonding(InternalCircuitIndex::InnerErrorFinalStaged), None::<Element>, seq![q.left.rx.at(RxIndex::InnerCollapse), q.right.rx.at(RxIndex::InnerCollapse)]),
        (ClaimKind::Bonding(InternalCircuitIndex::OuterErrorFinalStaged), None::<Element>, seq![q.left.rx.at(RxIndex::Hashes1), q.right.rx.at(RxIndex::Hashes1), q.left.rx.at(RxIndex::Hashes2), q.right.rx.at(RxIndex::Hashes2), q.left.rx.at(RxIndex::OuterCollapse), q.right.rx.at(RxIndex::OuterCollapse)]),
        (ClaimKind::Bonding(InternalCircuitIndex::EvalFinalStaged), None::<Element>, seq![q.left.rx.at(RxIndex::ComputeV), q.right.rx.at(RxIndex::ComputeV)]),
    ];
    assert(raw =~= all.subrange(0, 2));
    assert(app =~= all.subrange(2, 4));
    assert(cl[0] =~= all.subrange(4, 6));
    assert(cl[1] =~= all.subrange(6, 8));
    assert(cl[2] =~= all.subrange(8, 10));
    assert(cl[3] =~= all.subrange(10, 12));
    assert(cl[4] =~= all.subrange(12, 14));
    assert(cl[5] =~= all.subrange(14, 15));
    assert(cl[6] =~= all.subrange(15, 16));
    assert(cl[7] =~= all.subrange(16, 17));
    assert(cl[8] =~= all.subrange(17, 18));
    assert(cl[9] =~= all.subrange(18, 19));
    assert(cl[10] =~= all.subrange(19, 20));
    assert(cl[11][0].2 =~= all[20].2);
    assert(cl[11] =~= all.subrange(20, 21));
    assert(cl[12] =~= all.subrange(21, 22));
    assert(axbx_claims(q) =~= all);
}

/// Whether every element of the claims of the query stage carries its
/// value when the query stage's evaluations do.
proof fn lemma_axbx_consistent(q: &QueryOutput)
    requires
        query_consistent(q),
    ensures
        claims_consistent(axbx_claims(q)),
{
    let src = EvaluationSource { left: &q.left, right: &q.right };
    let p = |e: Element| e.consistent();
    assert forall|c: RxComponent, k: int| 0 <= k < src.rx_seq(c).len() implies #[trigger] p(src.rx_seq(c)[k]) by {
        if let RxComponent::Rx(idx) = c {
            assert(q.left.rx.at(idx).consistent());
            assert(q.right.rx.at(idx).consistent());
        }
    }
    lemma_build_entries(&src, p, p);
    let cs = axbx_claims(q);
    assert forall|i: int| 0 <= i < cs.len() implies claim_consistent(#[trigger] cs[i]) by {
        assert forall|j: int| 0 <= j < cs[i].2.len() implies #[trigger] cs[i].2[j].consistent() by {
            assert(p(cs[i].2[j]));
        }
    }
}

/// Computes `a(xz)` and `b(x)` from the evaluations of the query stage:
/// the claims of both children are built in unified order, turned into the
/// vectors `ax` and `bx`, and folded in two layers, `ax` by `mu^-1` and
/// `mu'^-1`, `bx` by `mu nu` and `mu' nu'`.
#[verifier::rlimit(40)]
pub fn compute_axbx<P: Parameters>(
    dr: &mut Simulator,
    query: &QueryOutput,
    z: &Element,
    txz: &Element,
    mu_inv: &Element,
    mu_prime_inv: &Element,
    munu: &Element,
    mu_prime_nu_prime: &Element,
) -> (r: Result<(Element, Element), Error>)
    requires
        0 < P::GroupSize::length() <= usize::MAX,
        P::NumGroups::length() <= usize::MAX,
        22 + P::GroupSize::length() <= usize::MAX,
        old(dr).room(
            34 + 2 * (22 + P::GroupSize::length() + two_layer_groups(22, P::GroupSize::length(), P::NumGroups::length())),
            2 * (34 + 2 * (22 + P::GroupSize::length() + two_layer_groups(
                22,
                P::GroupSize::length(),
                P::NumGroups::length(),
            ))),
        ),
    ensures
        query_consistent(query) && z.consistent() && txz.consistent() && mu_inv.consistent() && mu_prime_inv.consistent()
            && munu.consistent() && mu_prime_nu_prime.consistent() ==> r is Ok,
        r matches Ok((ax, bx)) ==> {
            let cs = axbx_claims(query);
            let m = P::GroupSize::length();
            let n = P::NumGroups::length();
            let groups = two_layer_groups(22, m, n);
            let gates = two_layer_gates(22, m, n);
            &&& ax.val() == horner(fold_groups(ax_entries(cs, z.val()), m, groups, mu_inv.val()), mu_prime_inv.val())
            &&& bx.val() == horner(
                fold_groups(bx_entries(cs, txz.val(), vals(query.fixed_registry@)), m, groups, munu.val()),
                mu_prime_nu_prime.val(),
            )
            &&& query_consistent(query) && z.consistent() && txz.consistent() ==> ax.consistent() && bx.consistent()
            &&& old(dr).grew(*final(dr), 12 + 2 * gates, 2 * (12 + 2 * gates))
        },
{
    let source = EvaluationSource { left: &query.left, right: &query.right };
    let claims = build(&source);
    proof {
        lemma_axbx_shape(query);
        if query_consistent(query) {
            lemma_axbx_consistent(query);
        }
    }
    let mut processor = EvaluationProcessor::new(z, txz, &query.fixed_registry);
    let ghost d0 = *dr;
    processor.process(dr, &claims)?;
    let (ax_sources, bx_sources) = processor.build();
    proof {
        let m = P::GroupSize::length();
        let n = P::NumGroups::length();
        lemma_two_layer_gates_bound(22, m, n);
        if query_consistent(query) && z.consistent() && txz.consistent() {
            assert(all_consistent(ax_sources@));
            assert(all_consistent(bx_sources@));
            if mu_inv.consistent() && mu_prime_inv.consistent() {
                lemma_two_layer_ok_consistent(ax_sources@, m, n, *mu_inv, *mu_prime_inv);
            }
            if munu.consistent() && mu_prime_nu_prime.consistent() {
                lemma_two_layer_ok_consistent(bx_sources@, m, n, *munu, *mu_prime_nu_prime);
            }
        }
    }
    let ax = fold_two_layer::<P>(dr, ax_sources.as_slice(), mu_inv, mu_prime_inv)?;
    let bx = fold_two_layer::<P>(dr, bx_sources.as_slice(), munu, mu_prime_nu_prime)?;
    proof {
        assert(vals(ax_sources@) =~= ax_entries(axbx_claims(query), z.val()));
    }
    Ok((ax, bx))
}

/// The parts of a child proof's unified instance that the evaluation reads.
#[derive(Clone, Copy, Debug)]
pub struct ChildUnified {
    pub u: Element,
    pub y: Element,
    pub x: Element,
    pub v: Element,
}

/// The parts of a child's preamble that the evaluation reads.
#[derive(Clone, Copy, Debug)]
pub struct ChildPreamble {
    pub unified: ChildUnified,
    pub circuit_id: Element,
}

/// The parts of the preamble stage that the evaluation reads.
#[derive(Clone, Copy, Debug)]
pub struct PreambleOutput {
    pub left: ChildPreamble,
    pub right: ChildPreamble,
}

/// The inverse denominators at a child proof's evaluation points.
#[derive(Clone, Copy, Debug)]
pub struct ChildDenominators {
    pub u: Element,
    pub y: Element,
    pub x: Element,
    pub circuit_id: Element,
}

/// The inverse denominators at the current step's challenge points.
#[derive(Clone, Copy, Debug)]
pub struct ChallengeDenominators {
    pub w: Element,
    pub x: Element,
    pub y: Element,
    pub xz: Element,
}

/// The inverse denominators `(u - x_i)^-1` of all quotient evaluations, by
/// the source of the point `x_i`: the children, the current challenges, and
/// the internal circuits' points `omega^j`.
pub struct Denominators {
    pub left: ChildDenominators,
    pub right: ChildDenominators,
    pub challenges: ChallengeDenominators,
    pub internal: InternalCircuitValues<Element>,
}

/// The points of a child's denominators: `u`, `y`, `x` and its circuit id.
pub open spec fn child_points(c: ChildPreamble) -> Seq<Element> {
    seq![c.unified.u, c.unified.y, c.unified.x, c.circuit_id]
}

/// The points `x_i` of the denominators, in order: the left child's, the
/// right child's, `w`, `x`, `y`, `xz`, and each internal circuit's point.
pub open spec fn denominator_points(
    w: &Element,
    x: &Element,
    y: &Element,
    z: &Element,
    preamble: &PreambleOutput,
    points: &InternalCircuitValues<Fp>,
) -> Seq<nat> {
    vals(child_points(preamble.left)) + vals(child_points(preamble.right)) + seq![
        w.val(),
        x.val(),
        y.val(),
        fmul(x.val(), z.val()),
    ] + points@.map_values(|f: Fp| f@)
}

/// Whether every element the denominators are computed from carries its
/// value.
pub open spec fn denominator_inputs_consistent(
    u: &Element,
    w: &Element,
    x: &Element,
    y: &Element,
    z: &Element,
    preamble: &PreambleOutput,
) -> bool {
    &&& u.consistent()
    &&& w.consistent()
    &&& x.consistent()
    &&& y.consistent()
    &&& z.consistent()
    &&& all_consistent(child_points(preamble.left))
    &&& all_consistent(child_points(preamble.right))
}

/// Whether each denominator of `d` is `(u - x_i)^-1` for its own point
/// `x_i`: each child's `u`, `y`, `x` and circuit id for the denominators of
/// that child, `w`, `x`, `y` and `x z` for those of the challenges, and the
/// point `omega^j` of internal circuit `j` for its denominator.
#[verifier::opaque]
pub open spec fn inverts_named_points(
    d: &Denominators,
    u: &Element,
    w: &Element,
    x: &Element,
    y: &Element,
    z: &Element,
    preamble: &PreambleOutput,
    points: &InternalCircuitValues<Fp>,
) -> bool {
    let inv = |pt: nat| fdiv(1, fsub(u.val(), pt));
    &&& d.left.u.val() == inv(preamble.left.unified.u.val())
    &&& d.left.y.val() == inv(preamble.left.unified.y.val())
    &&& d.left.x.val() == inv(preamble.left.unified.x.val())
    &&& d.left.circuit_id.val() == inv(preamble.left.circuit_id.val())
    &&& d.right.u.val() == inv(preamble.right.unified.u.val())
    &&& d.right.y.val() == inv(preamble.right.unified.y.val())
    &&& d.right.x.val() == inv(preamble.right.unified.x.val())
    &&& d.right.circuit_id.val() == inv(preamble.right.circuit_id.val())
    &&& d.challenges.w.val() == inv(w.val())
    &&& d.challenges.x.val() == inv(x.val())
    &&& d.challenges.y.val() == inv(y.val())
    &&& d.challenges.xz.val() == inv(fmul(x.val(), z.val()))
    &&& d.internal@.len() == points@.len()
    &&& forall|j: int| 0 <= j < points@.len() ==> (#[trigger] d.internal@[j]).val() == inv(points@[j]@)
}

impl Denominators {
    /// The denominators in the order of [`denominator_points`].
    pub open spec fn elements(&self) -> Seq<Element> {
        seq![
            self.left.u,
            self.left.y,
            self.left.x,
            self.left.circuit_id,
            self.right.u,
            self.right.y,
            self.right.x,
            self.right.circuit_id,
            self.challenges.w,
            self.challenges.x,
            self.challenges.y,
            self.challenges.xz,
        ] + self.internal@
    }

    /// Computes `(u - x_i)^-1` for every point `x_i` with one batch
    /// inversion; `points` holds the internal circuits' points `omega^j`.
    /// Fails when `u` is one of the points.
    #[verifier::rlimit(40)]
    pub fn new(
        dr: &mut Simulator,
        u: &Element,
        w: &Element,
        x: &Element,
        y: &Element,
        z: &Element,
        preamble: &PreambleOutput,
        points: &InternalCircuitValues<Fp>,
    ) -> (r: Result<Denominators, Error>)
        requires
            old(dr).room(26, 52),
        ensures
            r is Ok ==> forall|i: int|
                0 <= i < 25 ==> #[trigger] denominator_points(w, x, y, z, preamble, points)[i] != u.val(),
            denominator_inputs_consistent(u, w, x, y, z, preamble) ==> (r is Ok <==> forall|i: int|
                0 <= i < 25 ==> #[trigger] denominator_points(w, x, y, z, preamble, points)[i] != u.val()),
            r matches Ok(d) ==> {
                &&& d.elements().len() == 25
                &&& forall|i: int|
                    0 <= i < 25 ==> (#[trigger] d.elements()[i]).val() == fdiv(
                        1,
                        fsub(u.val(), denominator_points(w, x, y, z, preamble, points)[i]),
                    ) && d.elements()[i].consistent()
                &&& inverts_named_points(&d, u, w, x, y, z, preamble, points)
                &&& old(dr).grew(*final(dr), 26, 52)
            },
    {
        let ghost good = denominator_inputs_consistent(u, w, x, y, z, preamble);
        let ghost pts = denominator_points(w, x, y, z, preamble, points);
        let xz = x.mul(dr, z)?;
        let pl = &preamble.left;
        let pr = &preamble.right;
        let values = vec![
            pl.unified.u,
            pl.unified.y,
            pl.unified.x,
            pl.circuit_id,
            pr.unified.u,
            pr.unified.y,
            pr.unified.x,
            pr.circuit_id,
            *w,
            *x,
            *y,
            xz,
        ];
        let _count = points.len();
        let ghost pmap = points@.map_values(|f: Fp| f@);
        proof {
            assert(vals(values@) + pmap =~= pts);
            if good {
                assert forall|j: int| 0 <= j < 12 implies #[trigger] values@[j].consistent() by {
                    if j < 4 {
                        assert(values@[j] == child_points(preamble.left)[j]);
                    } else if j < 8 {
                        assert(values@[j] == child_points(preamble.right)[j - 4]);
                    }
                }
                lemma_consistent_wires(values@);
            }
        }
        let inverter = load_inverter(dr, u, values.as_slice(), points);
        let ghost diffs = inverter.differences_spec();
        proof {
            assert forall|j: int| 0 <= j < 25 implies #[trigger] pts[j] < crate::field::p() by {
                if j < 12 {
                    values@[j].lemma_bounded();
                }
            }
            lemma_nonzero_differences(*u, diffs, pts, wires(values@) + pmap);
        }
        let inverted = match inverter.invert(dr) {
            Ok(v) => v,
            Err(e) => {
                proof {
                    if good {
                        let j = choose|j: int| 0 <= j < 25 && !(#[trigger] diffs[j].val() != 0 && diffs[j].consistent());
                        assert(pts[j] == u.val());
                    }
                }
                return Err(e);
            },
        };
        proof {
            assert forall|j: int| 0 <= j < 25 implies #[trigger] pts[j] != u.val() by {
                assert(diffs[j].val() != 0);
            }
        }
        let d = assemble(inverted);
        proof {
            reveal(inverts_named_points);
            let els = d.elements();
            assert(els[0] == d.left.u && els[1] == d.left.y && els[2] == d.left.x && els[3] == d.left.circuit_id);
            assert(els[4] == d.right.u && els[5] == d.right.y && els[6] == d.right.x && els[7] == d.right.circuit_id);
            assert(els[8] == d.challenges.w && els[9] == d.challenges.x && els[10] == d.challenges.y);
            assert(els[11] == d.challenges.xz);
            assert forall|j: int| 0 <= j < points@.len() implies (#[trigger] d.internal@[j]).val() == fdiv(
                1,
                fsub(u.val(), points@[j]@),
            ) by {
                assert(els[12 + j] == d.internal@[j]);
                assert(pts[12 + j] == points@[j]@);
            }
        }
        Ok(d)
    }
}

/// The elements of a sequence that all carry their values have their values
/// on their wires.
proof fn lemma_consistent_wires(s: Seq<Element>)
    requires
        all_consistent(s),
    ensures
        wires(s) == vals(s),
{
    assert forall|i: int| 0 <= i < s.len() implies #[trigger] wires(s)[i] == vals(s)[i] by {
        assert(s[i].consistent());
    }
    assert(wires(s) =~= vals(s));
}

/// A difference `u - x_j` is nonzero exactly when `x_j` is not `u`, and it
/// carries its value when `u` does and each `x_j` is on its wire.
proof fn lemma_nonzero_differences(u: Element, diffs: Seq<Element>, pv: Seq<nat>, pw: Seq<nat>)
    requires
        diffs.len() == pv.len(),
        pw.len() == pv.len(),
        forall|j: int|
            0 <= j < diffs.len() ==> (#[trigger] diffs[j]).val() == fsub(u.val(), pv[j]) && diffs[j].wire_val() == fsub(
                u.wire_val(),
                pw[j],
            ),
        forall|j: int| 0 <= j < pv.len() ==> #[trigger] pv[j] < crate::field::p(),
    ensures
        forall|j: int| 0 <= j < diffs.len() ==> ((#[trigger] diffs[j]).val() != 0) == (pv[j] != u.val()),
        u.consistent() && pw == pv ==> forall|j: int| 0 <= j < diffs.len() ==> (#[trigger] diffs[j]).consistent(),
{
    assert forall|j: int| 0 <= j < diffs.len() implies ((#[trigger] diffs[j]).val() != 0) == (pv[j] != u.val()) by {
        u.lemma_bounded();
        crate::field::lemma_fsub_zero_iff(u.val(), pv[j]);
    }
}

/// Subtracts each of `values`, then each internal circuit's point, from
/// `u`, in order.
fn load_inverter(dr: &mut Simulator, u: &Element, values: &[Element], points: &InternalCircuitValues<Fp>) -> (r: Inverter)
    ensures
        r.base_spec() == *u,
        r.differences_spec().len() == values@.len() + NUM_INTERNAL,
        forall|j: int|
            0 <= j < r.differences_spec().len() ==> (#[trigger] r.differences_spec()[j]).val() == fsub(
                u.val(),
                (vals(values@) + points@.map_values(|f: Fp| f@))[j],
            ) && r.differences_spec()[j].wire_val() == fsub(
                u.wire_val(),
                (wires(values@) + points@.map_values(|f: Fp| f@))[j],
            ),
        *final(dr) == *old(dr),
{
    let ghost pv = vals(values@) + points@.map_values(|f: Fp| f@);
    let ghost pw = wires(values@) + points@.map_values(|f: Fp| f@);
    let n = values.len();
    let _count = points.len();
    let mut inverter = Inverter::with_base(*u);
    let mut i: usize = 0;
    while i < n
        invariant
            i <= n,
            n == values@.len(),
            points@.len() == NUM_INTERNAL,
            pv == vals(values@) + points@.map_values(|f: Fp| f@),
            pw == wires(values@) + points@.map_values(|f: Fp| f@),
            inverter.base_spec() == *u,
            inverter.differences_spec().len() == i,
            forall|j: int|
                0 <= j < i ==> (#[trigger] inverter.differences_spec()[j]).val() == fsub(u.val(), pv[j])
                    && inverter.differences_spec()[j].wire_val() == fsub(u.wire_val(), pw[j]),
            *dr == *old(dr),
        decreases n - i,
    {
        let ghost before = inverter.differences_spec();
        let _index = inverter.add(dr, &values[i]);
        proof {
            assert forall|j: int| 0 <= j < i implies #[trigger] inverter.differences_spec()[j] == before[j] by {
                assert(inverter.differences_spec().drop_last()[j] == inverter.differences_spec()[j]);
            }
        }
        i = i + 1;
    }
    let mut k: usize = 0;
    while k < NUM_INTERNAL
        invariant
            k <= NUM_INTERNAL,
            n == values@.len(),
            points@.len() == NUM_INTERNAL,
            pv == vals(values@) + points@.map_values(|f: Fp| f@),
            pw == wires(values@) + points@.map_values(|f: Fp| f@),
            inverter.base_spec() == *u,
            inverter.differences_spec().len() == n + k,
            forall|j: int|
                0 <= j < n + k ==> (#[trigger] inverter.differences_spec()[j]).val() == fsub(u.val(), pv[j])
                    && inverter.differences_spec()[j].wire_val() == fsub(u.wire_val(), pw[j]),
            *dr == *old(dr),
        decreases NUM_INTERNAL - k,
    {
        let ghost before = inverter.differences_spec();
        let _index = inverter.add_circuit(dr, InternalCircuitIndex::at(k), points);
        proof {
            assert forall|j: int| 0 <= j < n + k implies #[trigger] inverter.differences_spec()[j] == before[j] by {
                assert(inverter.differences_spec().drop_last()[j] == inverter.differences_spec()[j]);
            }
            assert(pv[n + k] == points@[k as int]@);
            assert(pw[n + k] == points@[k as int]@);
        }
        k = k + 1;
    }
    inverter
}

/// Arranges the `25` inverses in the order of [`Denominators::elements`].
fn assemble(inverted: Vec<Element>) -> (r: Denominators)
    requires
        inverted@.len() == 25,
    ensures
        r.elements() == inverted@,
{
    let mut internal: Vec<Element> = Vec::new();
    let mut t: usize = 12;
    while t < 25
        invariant
            12 <= t <= 25,
            inverted@.len() == 25,
            internal@ == inverted@.subrange(12, t as int),
        decreases 25 - t,
    {
        internal.push(inverted[t]);
        t = t + 1;
        proof {
            assert(internal@ =~= inverted@.subrange(12, t as int));
        }
    }
    let internal = InternalCircuitValues::from_vec(internal);
    let d = Denominators {
        left: ChildDenominators { u: inverted[0], y: inverted[1], x: inverted[2], circuit_id: inverted[3] },
        right: ChildDenominators { u: inverted[4], y: inverted[5], x: inverted[6], circuit_id: inverted[7] },
        challenges: ChallengeDenominators { w: inverted[8], x: inverted[9], y: inverted[10], xz: inverted[11] },
        internal,
    };
    proof {
        assert(d.elements() =~= inverted@);
    }
    d
}

/// The position in [`Denominators::elements`] of the denominator of each
/// polynomial query, in query order.
pub open spec fn query_denominators() -> Seq<nat> {
    seq![0nat, 4, 8, 8, 1, 5, 10, 10, 2, 6, 9, 8, 3, 7, 11, 9, 11, 9, 11, 9] + Seq::new(22, |k: int| 11nat) + Seq::new(
        13,
        |k: int| (12 + k) as nat,
    )
}

/// The point of each polynomial query is the point at which its polynomial
/// is opened: the children's `p` at their own `u`; their `registry_xy` at
/// `w`; `m(W, x_i, y_i)` at each child's own `y`, then against `m(w, x_i, Y)`
/// at `y`; `m(w, X, y)` at each child's own `x`, then against `s(W, x, y)`
/// at `x`; `m(W, x, y)` against it at `w`, and at each child's own circuit
/// id; the children's and the new `a` at `xz` and `b` at `x`; every `rx`
/// evaluation at `xz`; and `m(W, x, y)` at each internal circuit's point
/// `omega^j`.
pub proof fn lemma_query_opening_points(
    w: &Element,
    x: &Element,
    y: &Element,
    z: &Element,
    preamble: &PreambleOutput,
    points: &InternalCircuitValues<Fp>,
)
    requires
        points@.len() == NUM_INTERNAL,
    ensures
        ({
            let pts = denominator_points(w, x, y, z, preamble, points);
            let qd = query_denominators();
            &&& qd.len() == 55
            &&& pts[qd[0] as int] == preamble.left.unified.u.val()
            &&& pts[qd[1] as int] == preamble.right.unified.u.val()
            &&& pts[qd[2] as int] == w.val()
            &&& pts[qd[3] as int] == w.val()
            &&& pts[qd[4] as int] == preamble.left.unified.y.val()
            &&& pts[qd[5] as int] == preamble.right.unified.y.val()
            &&& pts[qd[6] as int] == y.val()
            &&& pts[qd[7] as int] == y.val()
            &&& pts[qd[8] as int] == preamble.left.unified.x.val()
            &&& pts[qd[9] as int] == preamble.right.unified.x.val()
            &&& pts[qd[10] as int] == x.val()
            &&& pts[qd[11] as int] == w.val()
            &&& pts[qd[12] as int] == preamble.left.circuit_id.val()
            &&& pts[qd[13] as int] == preamble.right.circuit_id.val()
            &&& pts[qd[14] as int] == fmul(x.val(), z.val())
            &&& pts[qd[15] as int] == x.val()
            &&& pts[qd[16] as int] == fmul(x.val(), z.val())
            &&& pts[qd[17] as int] == x.val()
            &&& pts[qd[18] as int] == fmul(x.val(), z.val())
            &&& pts[qd[19] as int] == x.val()
            &&& forall|k: int| 20 <= k < 42 ==> pts[#[trigger] qd[k] as int] == fmul(x.val(), z.val())
            &&& forall|k: int| 0 <= k < 13 ==> pts[#[trigger] qd[42 + k] as int] == points@[k]@
        }),
{
    let qd = query_denominators();
    let pts = denominator_points(w, x, y, z, preamble, points);
    let l = preamble.left;
    let r = preamble.right;
    assert(pts.len() == 25);
    assert(pts[0] == l.unified.u.val() && pts[1] == l.unified.y.val() && pts[2] == l.unified.x.val());
    assert(pts[3] == l.circuit_id.val() && pts[4] == r.unified.u.val() && pts[5] == r.unified.y.val());
    assert(pts[6] == r.unified.x.val() && pts[7] == r.circuit_id.val() && pts[8] == w.val());
    assert(pts[9] == x.val() && pts[10] == y.val() && pts[11] == fmul(x.val(), z.val()));
    assert forall|k: int| 20 <= k < 42 implies pts[#[trigger] qd[k] as int] == fmul(x.val(), z.val()) by {
        assert(qd[k] == 11);
    }
    assert forall|k: int| 0 <= k < 13 implies pts[#[trigger] qd[42 + k] as int] == points@[k]@ by {
        assert(qd[42 + k] == 12 + k);
        assert(pts[12 + k] == points@[k]@);
    }
}

/// The polynomial queries about the children and the registry, `(p(u), v)`:
/// the children's `p(u) = v` checks; the registry transitions
/// `m(W, x_i, y_i) -> m(w, x_i, Y) -> m(w, X, y) -> s(W, x, y)`;
/// `m(circuit_id_i, x, y)`; and the children's `a(xz)` and `b(x)`.
pub open spec fn child_query_pairs(eval: &EvalOutput, query: &QueryOutput, preamble: &PreambleOutput) -> Seq<
    (Element, Element),
> {
    let e = eval;
    let q = query;
    seq![
        (e.left.p_poly, preamble.left.unified.v),
        (e.right.p_poly, preamble.right.unified.v),
        (e.left.registry_xy_poly, q.left.child_registry_xy_at_current_w),
        (e.right.registry_xy_poly, q.right.child_registry_xy_at_current_w),
        (e.registry_wx0, q.left.child_registry_xy_at_current_w),
        (e.registry_wx1, q.right.child_registry_xy_at_current_w),
        (e.registry_wx0, q.left.current_registry_wy_at_child_x),
        (e.registry_wx1, q.right.current_registry_wy_at_child_x),
        (e.registry_wy, q.left.current_registry_wy_at_child_x),
        (e.registry_wy, q.right.current_registry_wy_at_child_x),
        (e.registry_wy, q.registry_wxy),
        (e.registry_xy, q.registry_wxy),
        (e.registry_xy, q.left.current_registry_xy_at_child_circuit_id),
        (e.registry_xy, q.right.current_registry_xy_at_child_circuit_id),
        (e.left.a_poly, q.left.a_poly_at_xz),
        (e.left.b_poly, q.left.b_poly_at_x),
        (e.right.a_poly, q.right.a_poly_at_xz),
        (e.right.b_poly, q.right.b_poly_at_x),
    ]
}

/// The queries of each child's `rx` evaluations at `xz`, then those of the
/// registry at each internal circuit's point, `m(omega^j, x, y)`.
pub open spec fn rx_query_pairs(eval: &EvalOutput, query: &QueryOutput) -> Seq<(Element, Element)> {
    let e = eval;
    let q = query;
    Seq::new(11, |k: int| (e.left.rx@[k], q.left.rx@[k])) + Seq::new(11, |k: int| (e.right.rx@[k], q.right.rx@[k]))
        + Seq::new(13, |k: int| (e.registry_xy, q.fixed_registry@[k]))
}

/// The polynomial queries `(p(u), v)` in prover order, with `a(xz)` and
/// `b(x)` of the new accumulator as computed by the verifier.
pub open spec fn query_pairs(
    eval: &EvalOutput,
    query: &QueryOutput,
    preamble: &PreambleOutput,
    ax: Element,
    bx: Element,
) -> Seq<(Element, Element)> {
    child_query_pairs(eval, query, preamble) + seq![(eval.a_poly, ax), (eval.b_poly, bx)] + rx_query_pairs(eval, query)
}

/// The values of pairs of elements.
pub open spec fn pair_vals(ps: Seq<(Element, Element)>) -> Seq<(nat, nat)> {
    ps.map_values(|pr: (Element, Element)| (pr.0.val(), pr.1.val()))
}

/// The values of the polynomial queries, with `axv` and `bxv` the values
/// of `a(xz)` and `b(x)`.
pub open spec fn query_values(
    eval: &EvalOutput,
    query: &QueryOutput,
    preamble: &PreambleOutput,
    axv: nat,
    bxv: nat,
) -> Seq<(nat, nat)> {
    pair_vals(child_query_pairs(eval, query, preamble)) + seq![(eval.a_poly.val(), axv), (eval.b_poly.val(), bxv)]
        + pair_vals(rx_query_pairs(eval, query))
}

/// The quotients `(p(u) - v) / (u - x_i)` of the queries `qv`, where `x_i`
/// is the query's point among `points`.
pub open spec fn quotient_terms(qv: Seq<(nat, nat)>, points: Seq<nat>, u: nat) -> Seq<nat> {
    Seq::new(
        qv.len(),
        |i: int| fmul(fsub(qv[i].0, qv[i].1), fdiv(1, fsub(u, points[query_denominators()[i] as int]))),
    )
}

/// Appends `(evals[k], claimed[k], den)` for each `k` to `out`.
fn push_rx_queries(out: &mut Vec<(Element, Element, Element)>, evals: &[Element], claimed: &[Element], den: &Element)
    requires
        evals@.len() == claimed@.len(),
    ensures
        final(out)@ == old(out)@ + Seq::new(evals@.len(), |k: int| (evals@[k], claimed@[k], *den)),
{
    let mut k: usize = 0;
    while k < evals.len()
        invariant
            k <= evals@.len(),
            evals@.len() == claimed@.len(),
            out@ == old(out)@ + Seq::new(k as nat, |t: int| (evals@[t], claimed@[t], *den)),
        decreases evals@.len() - k,
    {
        out.push((evals[k], claimed[k], *den));
        k = k + 1;
        proof {
            assert(out@ =~= old(out)@ + Seq::new(k as nat, |t: int| (evals@[t], claimed@[t], *den)));
        }
    }
}

/// The polynomial queries `(p(u), v, (u - x_i)^-1)` in prover order: the
/// order fixes the power of `alpha` that weighs each quotient in `f(u)`.
/// Each query's denominator is named by the point its polynomial is opened
/// at (see [`lemma_query_opening_points`]).
pub fn poly_queries(
    eval: &EvalOutput,
    query: &QueryOutput,
    preamble: &PreambleOutput,
    d: &Denominators,
    computed_ax: &Element,
    computed_bx: &Element,
) -> (r: Vec<(Element, Element, Element)>)
    ensures
        r@.len() == 55,
        forall|i: int|
            0 <= i < 55 ==> {
                let pair = query_pairs(eval, query, preamble, *computed_ax, *computed_bx)[i];
                &&& (#[trigger] r@[i]).0 == pair.0
                &&& r@[i].1 == pair.1
                &&& r@[i].2 == d.elements()[query_denominators()[i] as int]
            },
            r@[0].2 == d.left.u,
            r@[1].2 == d.right.u,
            r@[2].2 == d.challenges.w,
            r@[3].2 == d.challenges.w,
            r@[4].2 == d.left.y,
            r@[5].2 == d.right.y,
            r@[6].2 == d.challenges.y,
            r@[7].2 == d.challenges.y,
            r@[8].2 == d.left.x,
            r@[9].2 == d.right.x,
            r@[10].2 == d.challenges.x,
            r@[11].2 == d.challenges.w,
            r@[12].2 == d.left.circuit_id,
            r@[13].2 == d.right.circuit_id,
            r@[14].2 == d.challenges.xz,
            r@[15].2 == d.challenges.x,
            r@[16].2 == d.challenges.xz,
            r@[17].2 == d.challenges.x,
            r@[18].2 == d.challenges.xz,
            r@[19].2 == d.challenges.x,
            forall|k: int| 20 <= k < 42 ==> (#[trigger] r@[k]).2 == d.challenges.xz,
            forall|k: int| 0 <= k < 13 ==> (#[trigger] r@[42 + k]).2 == d.internal@[k],
            r@[0].0 == eval.left.p_poly && r@[0].1 == preamble.left.unified.v,
            r@[1].0 == eval.right.p_poly && r@[1].1 == preamble.right.unified.v,
            r@[2].0 == eval.left.registry_xy_poly && r@[2].1 == query.left.child_registry_xy_at_current_w,
            r@[3].0 == eval.right.registry_xy_poly && r@[3].1 == query.right.child_registry_xy_at_current_w,
            r@[4].0 == eval.registry_wx0 && r@[4].1 == query.left.child_registry_xy_at_current_w,
            r@[5].0 == eval.registry_wx1 && r@[5].1 == query.right.child_registry_xy_at_current_w,
            r@[6].0 == eval.registry_wx0 && r@[6].1 == query.left.current_registry_wy_at_child_x,
            r@[7].0 == eval.registry_wx1 && r@[7].1 == query.right.current_registry_wy_at_child_x,
            r@[8].0 == eval.registry_wy && r@[8].1 == query.left.current_registry_wy_at_child_x,
            r@[9].0 == eval.registry_wy && r@[9].1 == query.right.current_registry_wy_at_child_x,
            r@[10].0 == eval.registry_wy && r@[10].1 == query.registry_wxy,
            r@[11].0 == eval.registry_xy && r@[11].1 == query.registry_wxy,
            r@[12].0 == eval.registry_xy && r@[12].1 == query.left.current_registry_xy_at_child_circuit_id,
            r@[13].0 == eval.registry_xy && r@[13].1 == query.right.current_registry_xy_at_child_circuit_id,
            r@[14].0 == eval.left.a_poly && r@[14].1 == query.left.a_poly_at_xz,
            r@[15].0 == eval.left.b_poly && r@[15].1 == query.left.b_poly_at_x,
            r@[16].0 == eval.right.a_poly && r@[16].1 == query.right.a_poly_at_xz,
            r@[17].0 == eval.right.b_poly && r@[17].1 == query.right.b_poly_at_x,
            r@[18].0 == eval.a_poly && r@[18].1 == *computed_ax,
            r@[19].0 == eval.b_poly && r@[19].1 == *computed_bx,
            forall|k: int| 0 <= k < 11 ==> (#[trigger] r@[20 + k]).0 == eval.left.rx@[k] && r@[20 + k].1 == query.left.rx@[k],
            forall|k: int| 0 <= k < 11 ==> (#[trigger] r@[31 + k]).0 == eval.right.rx@[k] && r@[31 + k].1 == query.right.rx@[k],
            forall|k: int| 0 <= k < 13 ==> (#[trigger] r@[42 + k]).0 == eval.registry_xy && r@[42 + k].1 == query.fixed_registry@[k],
{
    let e = eval;
    let q = query;
    let c = &d.challenges;
    let mut out: Vec<(Element, Element, Element)> = vec![
        (e.left.p_poly, preamble.left.unified.v, d.left.u),
        (e.right.p_poly, preamble.right.unified.v, d.right.u),
        (e.left.registry_xy_poly, q.left.child_registry_xy_at_current_w, c.w),
        (e.right.registry_xy_poly, q.right.child_registry_xy_at_current_w, c.w),
        (e.registry_wx0, q.left.child_registry_xy_at_current_w, d.left.y),
        (e.registry_wx1, q.right.child_registry_xy_at_current_w, d.right.y),
        (e.registry_wx0, q.left.current_registry_wy_at_child_x, c.y),
        (e.registry_wx1, q.right.current_registry_wy_at_child_x, c.y),
        (e.registry_wy, q.left.current_registry_wy_at_child_x, d.left.x),
        (e.registry_wy, q.right.current_registry_wy_at_child_x, d.right.x),
        (e.registry_wy, q.registry_wxy, c.x),
        (e.registry_xy, q.registry_wxy, c.w),
        (e.registry_xy, q.left.current_registry_xy_at_child_circuit_id, d.left.circuit_id),
        (e.registry_xy, q.right.current_registry_xy_at_child_circuit_id, d.right.circuit_id),
        (e.left.a_poly, q.left.a_poly_at_xz, c.xz),
        (e.left.b_poly, q.left.b_poly_at_x, c.x),
        (e.right.a_poly, q.right.a_poly_at_xz, c.xz),
        (e.right.b_poly, q.right.b_poly_at_x, c.x),
        (e.a_poly, *computed_ax, c.xz),
        (e.b_poly, *computed_bx, c.x),
    ];
    let ghost head = out@;
    push_rx_queries(&mut out, e.left.rx.as_slice(), q.left.rx.as_slice(), &c.xz);
    push_rx_queries(&mut out, e.right.rx.as_slice(), q.right.rx.as_slice(), &c.xz);
    let registry = q.fixed_registry.as_slice();
    let internal = d.internal.as_slice();
    let mut k: usize = 0;
    while k < registry.len()
        invariant
            k <= registry@.len(),
            registry@ == q.fixed_registry@,
            internal@ == d.internal@,
            registry@.len() == 13,
            internal@.len() == 13,
            out@.len() == 42 + k,
            forall|j: int| 0 <= j < 42 ==> #[trigger] out@[j] == queries_before_registry(head, e, q, c.xz)[j],
            forall|j: int| 0 <= j < k ==> #[trigger] out@[42 + j] == (e.registry_xy, registry@[j], internal@[j]),
        decreases registry@.len() - k,
    {
        let ghost before = out@;
        out.push((e.registry_xy, registry[k], internal[k]));
        proof {
            assert forall|j: int| 0 <= j < 42 + k implies #[trigger] out@[j] == before[j] by {
            }
        }
        k = k + 1;
    }
    proof {
        let pairs = query_pairs(eval, query, preamble, *computed_ax, *computed_bx);
        let dens = query_denominators();
        let els = d.elements();
        assert forall|i: int| 0 <= i < 55 implies {
            let pair = pairs[i];
            &&& (#[trigger] out@[i]).0 == pair.0
            &&& out@[i].1 == pair.1
            &&& out@[i].2 == els[dens[i] as int]
        } by {
            if i >= 42 {
                assert(out@[42 + (i - 42)] == out@[i]);
            }
        }
        assert forall|k: int| 20 <= k < 42 implies (#[trigger] out@[k]).2 == d.challenges.xz by {
            assert(out@[k] == queries_before_registry(head, e, q, c.xz)[k]);
        }
        assert forall|k: int| 0 <= k < 13 implies (#[trigger] out@[42 + k]).2 == d.internal@[k] by {
        }
        assert(out@[0] == head[0] && out@[19] == head[19]);
        assert forall|k: int| 0 <= k < 11 implies (#[trigger] out@[20 + k]).0 == e.left.rx@[k] && out@[20 + k].1 == q.left.rx@[k] by {
            assert(out@[20 + k] == queries_before_registry(head, e, q, c.xz)[20 + k]);
        }
        assert forall|k: int| 0 <= k < 11 implies (#[trigger] out@[31 + k]).0 == e.right.rx@[k] && out@[31 + k].1 == q.right.rx@[k] by {
            assert(out@[31 + k] == queries_before_registry(head, e, q, c.xz)[31 + k]);
        }
    }
    out
}

/// The first `42` polynomial queries: the fixed ones and each child's `rx`
/// evaluations.
spec fn queries_before_registry(head: Seq<(Element, Element, Element)>, e: &EvalOutput, q: &QueryOutput, xz: Element) -> Seq<
    (Element, Element, Element),
> {
    head + Seq::new(11, |k: int| (e.left.rx@[k], q.left.rx@[k], xz)) + Seq::new(
        11,
        |k: int| (e.right.rx@[k], q.right.rx@[k], xz),
    )
}

/// The challenges of the unified instance that the computation of `v`
/// reads.
#[derive(Clone, Copy, Debug)]
pub struct VChallenges {
    pub w: Element,
    pub y: Element,
    pub z: Element,
    pub x: Element,
    pub mu: Element,
    pub nu: Element,
    pub mu_prime: Element,
    pub nu_prime: Element,
    pub alpha: Element,
    pub u: Element,
    pub pre_beta: Element,
}

/// Whether every challenge carries its value.
pub open spec fn challenges_consistent(ch: &VChallenges) -> bool {
    &&& ch.w.consistent()
    &&& ch.y.consistent()
    &&& ch.z.consistent()
    &&& ch.x.consistent()
    &&& ch.mu.consistent()
    &&& ch.nu.consistent()
    &&& ch.mu_prime.consistent()
    &&& ch.nu_prime.consistent()
    &&& ch.alpha.consistent()
    &&& ch.u.consistent()
    &&& ch.pre_beta.consistent()
}

/// Whether every evaluation the computation of `v` reads carries its value.
pub open spec fn evaluations_consistent(eval: &EvalOutput, query: &QueryOutput, preamble: &PreambleOutput) -> bool {
    &&& all_consistent(eval.elements())
    &&& query_consistent(query)
    &&& query.left.child_registry_xy_at_current_w.consistent()
    &&& query.right.child_registry_xy_at_current_w.consistent()
    &&& query.left.current_registry_wy_at_child_x.consistent()
    &&& query.right.current_registry_wy_at_child_x.consistent()
    &&& query.registry_wxy.consistent()
    &&& preamble.left.unified.v.consistent()
    &&& preamble.right.unified.v.consistent()
    &&& all_consistent(child_points(preamble.left))
    &&& all_consistent(child_points(preamble.right))
}

/// The value of `a(xz)`: the two-layer fold of the `ax` entries of the
/// query stage's claims by `mu^-1` and `mu'^-1`.
pub open spec fn ax_value<P: Parameters>(query: &QueryOutput, ch: &VChallenges) -> nat {
    let m = P::GroupSize::length();
    let groups = two_layer_groups(22, m, P::NumGroups::length());
    horner(
        fold_groups(ax_entries(axbx_claims(query), ch.z.val()), m, groups, fdiv(1, ch.mu.val())),
        fdiv(1, ch.mu_prime.val()),
    )
}

/// The value of `b(x)`: the two-layer fold of the `bx` entries of the
/// query stage's claims by `mu nu` and `mu' nu'`.
pub open spec fn bx_value<P: Parameters>(query: &QueryOutput, ch: &VChallenges, txz: nat) -> nat {
    let m = P::GroupSize::length();
    let groups = two_layer_groups(22, m, P::NumGroups::length());
    horner(
        fold_groups(
            bx_entries(axbx_claims(query), txz, vals(query.fixed_registry@)),
            m,
            groups,
            fmul(ch.mu.val(), ch.nu.val()),
        ),
        fmul(ch.mu_prime.val(), ch.nu_prime.val()),
    )
}

/// The value `v` that the fuse step claims: `f(u) + beta * eval`, by
/// Horner's rule in the effective `beta`, where `f(u)` is the `alpha`-
/// weighted sum of the quotients of the polynomial queries (the first
/// weighed most) and `eval` the stage's evaluations.
pub open spec fn expected_v<P: Parameters>(
    ch: &VChallenges,
    txz: nat,
    preamble: &PreambleOutput,
    query: &QueryOutput,
    eval: &EvalOutput,
    points: &InternalCircuitValues<Fp>,
) -> nat {
    let qv = query_values(eval, query, preamble, ax_value::<P>(query, ch), bx_value::<P>(query, ch, txz));
    let pts = denominator_points(&ch.w, &ch.x, &ch.y, &ch.z, preamble, points);
    let fu = horner(quotient_terms(qv, pts, ch.u.val()), ch.alpha.val());
    horner(seq![fu] + vals(eval.elements()), extracted_lift(ch.pre_beta.val()))
}

proof fn lemma_query_denominators()
    ensures
        query_denominators().len() == 55,
        forall|i: int| 0 <= i < 55 ==> #[trigger] query_denominators()[i] < 25,
{
}

proof fn lemma_query_values(
    eval: &EvalOutput,
    query: &QueryOutput,
    preamble: &PreambleOutput,
    ax: Element,
    bx: Element,
)
    requires
        eval.left.rx@.len() == 11,
        eval.right.rx@.len() == 11,
        query.left.rx@.len() == 11,
        query.right.rx@.len() == 11,
        query.fixed_registry@.len() == 13,
    ensures
        pair_vals(query_pairs(eval, query, preamble, ax, bx)) == query_values(eval, query, preamble, ax.val(), bx.val()),
        query_pairs(eval, query, preamble, ax, bx).len() == 55,
        evaluations_consistent(eval, query, preamble) && ax.consistent() && bx.consistent() ==> forall|i: int|
            0 <= i < 55 ==> (#[trigger] query_pairs(eval, query, preamble, ax, bx)[i]).0.consistent()
                && query_pairs(eval, query, preamble, ax, bx)[i].1.consistent(),
{
    let c = child_query_pairs(eval, query, preamble);
    let r = rx_query_pairs(eval, query);
    let mid = seq![(eval.a_poly, ax), (eval.b_poly, bx)];
    assert(pair_vals(c + mid + r) =~= pair_vals(c) + pair_vals(mid) + pair_vals(r));
    assert(pair_vals(mid) =~= seq![(eval.a_poly.val(), ax.val()), (eval.b_poly.val(), bx.val())]);
    if evaluations_consistent(eval, query, preamble) && ax.consistent() && bx.consistent() {
        let q = query_pairs(eval, query, preamble, ax, bx);
        let els = eval.elements();
        assert forall|i: int| 0 <= i < 55 implies (#[trigger] q[i]).0.consistent() && q[i].1.consistent() by {
            assert(els[14] == eval.left.p_poly);
            assert(els[29] == eval.right.p_poly);
            assert(els[13] == eval.left.registry_xy_poly);
            assert(els[28] == eval.right.registry_xy_poly);
            assert(els[11] == eval.left.a_poly);
            assert(els[12] == eval.left.b_poly);
            assert(els[26] == eval.right.a_poly);
            assert(els[27] == eval.right.b_poly);
            assert(els[30] == eval.registry_wx0);
            assert(els[31] == eval.registry_wx1);
            assert(els[32] == eval.registry_wy);
            assert(els[33] == eval.a_poly);
            assert(els[34] == eval.b_poly);
            assert(els[35] == eval.registry_xy);
            if 20 <= i < 31 {
                assert(els[i - 20] == eval.left.rx@[i - 20]);
                assert(query.left.rx@[i - 20] == query.left.rx.at(rx_at((i - 20) as nat)));
            } else if 31 <= i < 42 {
                assert(els[15 + (i - 31)] == eval.right.rx@[i - 31]);
                assert(query.right.rx@[i - 31] == query.right.rx.at(rx_at((i - 31) as nat)));
            }
        }
    }
}

/// The quotient of a query `(p(u), v, d)`: `(p(u) - v) * d`.
pub open spec fn quotient(q: (Element, Element, Element)) -> nat {
    fmul(fsub(q.0.val(), q.1.val()), q.2.val())
}

/// Whether the elements of a query carry their values.
pub open spec fn query_consistent_triple(q: (Element, Element, Element)) -> bool {
    q.0.consistent() && q.1.consistent() && q.2.consistent()
}

/// The `alpha`-weighted sum of the quotients of `queries`, by Horner's
/// rule: the first query is weighed by the highest power.
fn weighted_quotients(dr: &mut Simulator, queries: &Vec<(Element, Element, Element)>, alpha: &Element) -> (r: Result<
    Element,
    Error,
>)
    requires
        queries@.len() > 0,
        old(dr).room(2 * queries@.len(), 4 * queries@.len()),
    ensures
        alpha.consistent() && (forall|j: int| 0 <= j < queries@.len() ==> query_consistent_triple(#[trigger] queries@[j]))
            ==> r is Ok,
        r matches Ok(f) ==> {
            &&& f.val() == horner(Seq::new(queries@.len(), |j: int| quotient(queries@[j])), alpha.val())
            &&& (forall|j: int| 0 <= j < queries@.len() ==> query_consistent_triple(#[trigger] queries@[j]))
                ==> f.consistent()
            &&& old(dr).grew(*final(dr), (2 * queries@.len() - 1) as nat, (2 * (2 * queries@.len() - 1)) as nat)
        },
{
    let ghost good = forall|j: int| 0 <= j < queries@.len() ==> query_consistent_triple(#[trigger] queries@[j]);
    let ghost d0 = *dr;
    let n = queries.len();
    let mut terms: Vec<Element> = Vec::new();
    let mut i: usize = 0;
    while i < n
        invariant
            i <= n,
            n == queries@.len(),
            good == forall|j: int| 0 <= j < queries@.len() ==> query_consistent_triple(#[trigger] queries@[j]),
            terms@.len() == i,
            forall|j: int|
                0 <= j < i ==> (#[trigger] terms@[j]).val() == quotient(queries@[j]) && (good ==> terms@[j].consistent()),
            d0.grew(*dr, i as nat, 2 * i as nat),
            d0.room(2 * n as nat, 4 * n as nat),
        decreases n - i,
    {
        let (pu, v, den) = queries[i];
        let diff = pu.sub(dr, &v);
        let t = match diff.mul(dr, &den) {
            Ok(t) => t,
            Err(e) => {
                proof {
                    assert(!good) by {
                        if good {
                            assert(query_consistent_triple(queries@[i as int]));
                        }
                    }
                }
                return Err(e);
            },
        };
        proof {
            if good {
                assert(query_consistent_triple(queries@[i as int]));
            }
        }
        terms.push(t);
        i = i + 1;
    }
    proof {
        assert(vals(terms@) =~= Seq::new(queries@.len(), |j: int| quotient(queries@[j])));
        if good {
            assert(all_consistent(terms@.drop_last())) by {
                assert forall|j: int| 0 <= j < terms@.drop_last().len() implies #[trigger] terms@.drop_last()[j].consistent() by {
                    assert(terms@.drop_last()[j] == terms@[j]);
                }
            }
            assert(terms@.last() == terms@[n - 1]);
        }
    }
    Element::fold(dr, terms.as_slice(), alpha)
}

/// `f(u)` followed by the evaluation stage's values, weighed by powers of
/// `beta` by Horner's rule.
fn weigh_evaluations(dr: &mut Simulator, fu: &Element, eval: &EvalOutput, beta: &Element) -> (r: Result<Element, Error>)
    requires
        old(dr).room(37, 74),
        eval.elements().len() == 36,
    ensures
        beta.consistent() && fu.consistent() && all_consistent(eval.elements()) ==> r is Ok,
        r matches Ok(v) ==> {
            &&& v.val() == horner(seq![fu.val()] + vals(eval.elements()), beta.val())
            &&& old(dr).grew(*final(dr), 36, 72)
        },
{
    let written = eval.write();
    let mut weighted: Vec<Element> = vec![*fu];
    let mut k: usize = 0;
    while k < written.len()
        invariant
            k <= written@.len(),
            weighted@ == seq![*fu] + written@.take(k as int),
        decreases written@.len() - k,
    {
        weighted.push(written[k]);
        k = k + 1;
        proof {
            assert(weighted@ =~= seq![*fu] + written@.take(k as int));
        }
    }
    proof {
        assert(written@.take(written@.len() as int) =~= written@);
        assert(vals(weighted@) =~= seq![fu.val()] + vals(eval.elements()));
        if fu.consistent() && all_consistent(eval.elements()) {
            assert(all_consistent(weighted@.drop_last())) by {
                assert forall|j: int| 0 <= j < weighted@.drop_last().len() implies #[trigger] weighted@.drop_last()[j].consistent() by {
                    assert(weighted@.drop_last()[j] == weighted@[j]);
                    if j > 0 {
                        assert(weighted@[j] == eval.elements()[j - 1]);
                    }
                }
            }
        }
    }
    Element::fold(dr, weighted.as_slice(), beta)
}

/// The pieces of `v` once `a(xz)`, `b(x)` and the denominators are known:
/// `f(u)` from the polynomial queries, then `v` from `f(u)`, the
/// evaluations and the effective `beta`.
fn finish_v(
    dr: &mut Simulator,
    ch: &VChallenges,
    beta_endo: &Endoscalar,
    preamble: &PreambleOutput,
    query: &QueryOutput,
    eval: &EvalOutput,
    denominators: &Denominators,
    computed_ax: &Element,
    computed_bx: &Element,
) -> (r: Result<Element, Error>)
    requires
        beta_endo.consistent(),
        eval.left.rx@.len() == 11,
        eval.right.rx@.len() == 11,
        query.left.rx@.len() == 11,
        query.right.rx@.len() == 11,
        query.fixed_registry@.len() == 13,
        denominators.elements().len() == 25,
        forall|k: int| 0 <= k < 25 ==> (#[trigger] denominators.elements()[k]).consistent(),
        old(dr).room(210, 420),
    ensures
        ch.alpha.consistent() && evaluations_consistent(eval, query, preamble) && computed_ax.consistent()
            && computed_bx.consistent() ==> r is Ok,
        r matches Ok(v) ==> {
            let qv = query_values(eval, query, preamble, computed_ax.val(), computed_bx.val());
            let dens = query_denominators();
            let fu = horner(
                Seq::new(55, |j: int| fmul(fsub(qv[j].0, qv[j].1), denominators.elements()[dens[j] as int].val())),
                ch.alpha.val(),
            );
            &&& v.val() == horner(seq![fu] + vals(eval.elements()), lift_value(beta_endo.val()))
            &&& old(dr).grew(*final(dr), 209, 418)
        },
{
    let queries = poly_queries(eval, query, preamble, denominators, computed_ax, computed_bx);
    let ghost qp = query_pairs(eval, query, preamble, *computed_ax, *computed_bx);
    let ghost qv = query_values(eval, query, preamble, computed_ax.val(), computed_bx.val());
    let ghost els = denominators.elements();
    let ghost dens = query_denominators();
    proof {
        lemma_query_values(eval, query, preamble, *computed_ax, *computed_bx);
        lemma_query_denominators();
        if evaluations_consistent(eval, query, preamble) && computed_ax.consistent() && computed_bx.consistent() {
            assert forall|j: int| 0 <= j < queries@.len() implies query_consistent_triple(#[trigger] queries@[j]) by {
                assert(qp[j].0.consistent() && qp[j].1.consistent());
                assert(dens[j] < 25);
            }
        }
        assert(Seq::new(55, |j: int| quotient(queries@[j])) =~= Seq::new(
            55,
            |j: int| fmul(fsub(qv[j].0, qv[j].1), els[dens[j] as int].val()),
        )) by {
            assert forall|j: int| 0 <= j < 55 implies #[trigger] quotient(queries@[j]) == fmul(
                fsub(qv[j].0, qv[j].1),
                els[dens[j] as int].val(),
            ) by {
                assert(pair_vals(qp)[j] == qv[j]);
            }
        }
    }
    let fu = weighted_quotients(dr, &queries, &ch.alpha)?;
    let effective_beta = beta_endo.lift(dr)?;
    proof {
        assert(eval.left.elements().len() == 15);
        assert(eval.right.elements().len() == 15);
        if ch.alpha.consistent() && evaluations_consistent(eval, query, preamble) && computed_ax.consistent()
            && computed_bx.consistent() {
            assert(fu.consistent());
        }
    }
    weigh_evaluations(dr, &fu, eval, &effective_beta)
}

/// The witness of the circuit that computes `v`: the challenges read from
/// the unified instance, `t(xz)`, the outputs of the preamble, query and
/// evaluation stages, and the internal circuits' points `omega^j`.
pub struct Witness<'a> {
    pub unified: VChallenges,
    pub txz: Element,
    pub preamble: &'a PreambleOutput,
    pub query: &'a QueryOutput,
    pub eval: &'a EvalOutput,
    pub points: &'a InternalCircuitValues<Fp>,
}

/// The circuit that computes and checks the claimed evaluation `v`.
pub struct Circuit<P: Parameters> {
    _marker: PhantomData<P>,
}

impl<P: Parameters> Circuit<P> {
    pub fn new() -> (r: Circuit<P>) {
        Circuit { _marker: PhantomData }
    }

    /// Computes the value `v` that a fuse step claims.
    ///
    /// `a(xz)` and `b(x)` are recomputed from the query stage's evaluations
    /// by two-layer revdot folding; `f(u)` is the `alpha`-weighted sum of the
    /// quotients `(p(u) - v) / (u - x_i)` of the polynomial queries; and `v`
    /// is `f(u)` and the evaluation stage's values weighed by powers of the
    /// effective scalar of the endoscalar extracted from `beta`.
    #[verifier::rlimit(100)]
    #[verifier::spinoff_prover]
    pub fn witness<A: Allocator>(&self, dr: &mut Simulator, allocator: &mut A, witness: &Witness) -> (r: Result<
        Element,
        Error,
    >)
        requires
            0 < P::GroupSize::length() <= usize::MAX,
            P::NumGroups::length() <= usize::MAX,
            22 + P::GroupSize::length() <= usize::MAX,
            old(dr).room(
                1000 + 2 * (22 + P::GroupSize::length() + two_layer_groups(
                    22,
                    P::GroupSize::length(),
                    P::NumGroups::length(),
                )),
                2 * (1000 + 2 * (22 + P::GroupSize::length() + two_layer_groups(
                    22,
                    P::GroupSize::length(),
                    P::NumGroups::length(),
                ))),
            ),
        ensures
            ({
                let ch = witness.unified;
                ch.mu.val() == 0 || ch.mu_prime.val() == 0 ==> r is Err
            }),
            ({
                let ch = witness.unified;
                r is Ok ==> forall|i: int|
                    0 <= i < 25 ==> #[trigger] denominator_points(&ch.w, &ch.x, &ch.y, &ch.z, witness.preamble, witness.points)[i]
                        != ch.u.val()
            }),
            ({
                let ch = witness.unified;
                challenges_consistent(&ch) && witness.txz.consistent() && evaluations_consistent(
                    witness.eval,
                    witness.query,
                    witness.preamble,
                ) ==> (r is Ok <==> ch.mu.val() != 0 && ch.mu_prime.val() != 0
                    && forall|i: int|
                    0 <= i < 25 ==> #[trigger] denominator_points(&ch.w, &ch.x, &ch.y, &ch.z, witness.preamble, witness.points)[i]
                        != ch.u.val())
            }),
            r matches Ok(v) ==> {
                let g = 635 + 2 * two_layer_gates(22, P::GroupSize::length(), P::NumGroups::length());
                &&& v.val() == expected_v::<P>(
                    &witness.unified,
                    witness.txz.val(),
                    witness.preamble,
                    witness.query,
                    witness.eval,
                    witness.points,
                )
                &&& old(dr).grew(*final(dr), g, 2 * g)
            },
    {
        let ch = &witness.unified;
        let txz = &witness.txz;
        let preamble = witness.preamble;
        let query = witness.query;
        let eval = witness.eval;
        let points = witness.points;
        let ghost good = challenges_consistent(ch) && txz.consistent() && evaluations_consistent(eval, query, preamble);
        let ghost m = P::GroupSize::length();
        let ghost nn = P::NumGroups::length();
        proof {
            lemma_two_layer_gates_bound(22, m, nn);
        }
        let beta_endo = Endoscalar::extract(dr, allocator, ch.pre_beta)?;
        let mu_inv = ch.mu.invert(dr)?;
        let mu_prime_inv = ch.mu_prime.invert(dr)?;
        let munu = ch.mu.mul(dr, &ch.nu)?;
        let mu_prime_nu_prime = ch.mu_prime.mul(dr, &ch.nu_prime)?;
        let (computed_ax, computed_bx) = compute_axbx::<P>(
            dr,
            query,
            &ch.z,
            txz,
            &mu_inv,
            &mu_prime_inv,
            &munu,
            &mu_prime_nu_prime,
        )?;
        let denominators = Denominators::new(dr, &ch.u, &ch.w, &ch.x, &ch.y, &ch.z, preamble, points)?;
        let _l = eval.left.rx.len();
        let _r = eval.right.rx.len();
        let _ql = query.left.rx.len();
        let _qr = query.right.rx.len();
        let _reg = query.fixed_registry.len();
        let v = finish_v(dr, ch, &beta_endo, preamble, query, eval, &denominators, &computed_ax, &computed_bx)?;
        proof {
            let pts = denominator_points(&ch.w, &ch.x, &ch.y, &ch.z, preamble, points);
            let qv = query_values(eval, query, preamble, computed_ax.val(), computed_bx.val());
            let dens = query_denominators();
            let els = denominators.elements();
            lemma_query_denominators();
            crate::endoscalar::lemma_lift_extracted(beta_endo.val(), ch.pre_beta.val());
            assert(Seq::new(55, |j: int| fmul(fsub(qv[j].0, qv[j].1), els[dens[j] as int].val())) =~= quotient_terms(
                qv,
                pts,
                ch.u.val(),
            )) by {
                assert forall|j: int| 0 <= j < 55 implies #[trigger] els[dens[j] as int].val() == fdiv(
                    1,
                    fsub(ch.u.val(), pts[dens[j] as int]),
                ) by {
                    assert(dens[j] < 25);
                }
            }
        }
        Ok(v)
    }
}

} // verus!
