//! The accumulation of `p(X)`: every polynomial the fuse step opens at `u`,
//! folded by the effective `beta` in the order in which the evaluation
//! stage writes their evaluations, with their commitments collected for
//! the endoscaling that forms `p`'s commitment.

use vstd::prelude::*;

use crate::element::horner;
use crate::endoscalar::{extract_endoscalar, extracted_lift, lemma_lift_extracted, lift_endoscalar};
use crate::field::{fadd, fmul, Fp};
use crate::fold_revdot::fp_vals;
use crate::native::stages::eval::{child_witness_values, current_witness_values, ChildEvaluationsWitness};
use crate::native::{RxValues, NUM_RX};
use crate::polynomial::Polynomial;

verus! {

/// A polynomial with its commitment.
pub struct Committed<T> {
    pub poly: Polynomial,
    pub commitment: T,
}

/// The polynomials a child proof carries, with their commitments.
pub struct ChildProof<T> {
    pub rx: RxValues<Committed<T>>,
    pub a_poly: Committed<T>,
    pub b_poly: Committed<T>,
    pub registry_xy_poly: Committed<T>,
    pub p_poly: Committed<T>,
}

/// The polynomials committed in the current step that `p` accumulates.
pub struct CurrentStep<T> {
    pub registry_wx0: Committed<T>,
    pub registry_wx1: Committed<T>,
    pub registry_wy: Committed<T>,
    pub a_poly: Committed<T>,
    pub b_poly: Committed<T>,
    pub registry_xy: Committed<T>,
}

/// A child's polynomials in the order of the evaluation stage: the `rx`
/// polynomials, then `A`, `B`, `registry_xy` and `P`.
pub open spec fn child_polys<T>(c: &ChildProof<T>) -> Seq<Committed<T>> {
    c.rx@ + seq![c.a_poly, c.b_poly, c.registry_xy_poly, c.p_poly]
}

/// The current step's polynomials in the order of the evaluation stage.
pub open spec fn current_polys<T>(c: &CurrentStep<T>) -> Seq<Committed<T>> {
    seq![c.registry_wx0, c.registry_wx1, c.registry_wy, c.a_poly, c.b_poly, c.registry_xy]
}

/// The values at `x` of committed polynomials.
pub open spec fn values_at<T>(s: Seq<Committed<T>>, x: nat) -> Seq<nat> {
    s.map_values(|c: Committed<T>| c.poly.at(x))
}

/// The commitments of committed polynomials.
pub open spec fn commitments_of<T>(s: Seq<Committed<T>>) -> Seq<T> {
    s.map_values(|c: Committed<T>| c.commitment)
}

/// Every polynomial `p` accumulates, in order: `f`, the left child's, the
/// right child's, then the current step's.
pub open spec fn accumulated<T>(f: &Committed<T>, left: &ChildProof<T>, right: &ChildProof<T>, current: &CurrentStep<T>) -> Seq<
    Committed<T>,
> {
    seq![*f] + child_polys(left) + child_polys(right) + current_polys(current)
}

/// The polynomials `p` accumulates, by name: `f` first; then each child's
/// `rx` polynomials in table order followed by its `A`, `B`, `registry_xy`
/// and `P`, the left child before the right; then the current step's
/// `registry_wx0`, `registry_wx1`, `registry_wy`, `A`, `B` and
/// `registry_xy`. The first polynomial takes the highest power of `beta`.
pub proof fn lemma_accumulated_order<T>(
    f: &Committed<T>,
    left: &ChildProof<T>,
    right: &ChildProof<T>,
    current: &CurrentStep<T>,
)
    ensures
        ({
            let a = accumulated(f, left, right, current);
            let nl = left.rx@.len() as int;
            let nr = right.rx@.len() as int;
            let o = 5 + nl;
            let c = o + nr + 4;
            &&& a.len() == c + 6
            &&& a[0] == *f
            &&& forall|k: int| 0 <= k < nl ==> a[1 + k] == #[trigger] left.rx@[k]
            &&& a[1 + nl] == left.a_poly
            &&& a[2 + nl] == left.b_poly
            &&& a[3 + nl] == left.registry_xy_poly
            &&& a[4 + nl] == left.p_poly
            &&& forall|k: int| 0 <= k < nr ==> a[o + k] == #[trigger] right.rx@[k]
            &&& a[o + nr] == right.a_poly
            &&& a[o + nr + 1] == right.b_poly
            &&& a[o + nr + 2] == right.registry_xy_poly
            &&& a[o + nr + 3] == right.p_poly
            &&& a[c] == current.registry_wx0
            &&& a[c + 1] == current.registry_wx1
            &&& a[c + 2] == current.registry_wy
            &&& a[c + 3] == current.a_poly
            &&& a[c + 4] == current.b_poly
            &&& a[c + 5] == current.registry_xy
        }),
{
    let a = accumulated(f, left, right, current);
    let nl = left.rx@.len() as int;
    let nr = right.rx@.len() as int;
    let o = 5 + nl;
    assert forall|k: int| 0 <= k < nl implies a[1 + k] == #[trigger] left.rx@[k] by {
        assert(child_polys(left)[k] == left.rx@[k]);
    }
    assert forall|k: int| 0 <= k < nr implies a[o + k] == #[trigger] right.rx@[k] by {
        assert(child_polys(right)[k] == right.rx@[k]);
    }
}

impl ChildEvaluationsWitness<Fp> {
    /// The evaluations at `u` of a child proof's polynomials.
    pub fn from_proof<T>(proof: &ChildProof<T>, u: &Fp) -> (r: ChildEvaluationsWitness<Fp>)
        ensures
            child_witness_values(&r) == values_at(child_polys(proof), u@),
            r.rx@.len() == proof.rx@.len(),
            forall|k: int| 0 <= k < proof.rx@.len() ==> (#[trigger] r.rx@[k])@ == proof.rx@[k].poly.at(u@),
            r.a_poly@ == proof.a_poly.poly.at(u@),
            r.b_poly@ == proof.b_poly.poly.at(u@),
            r.registry_xy_poly@ == proof.registry_xy_poly.poly.at(u@),
            r.p_poly@ == proof.p_poly.poly.at(u@),
    {
        let rx = proof.rx.as_slice();
        let mut evals: Vec<Fp> = Vec::new();
        let mut i: usize = 0;
        while i < rx.len()
            invariant
                i <= rx@.len(),
                rx@ == proof.rx@,
                evals@.map_values(|f: Fp| f@) == values_at(rx@.take(i as int), u@),
            decreases rx@.len() - i,
        {
            let e = rx[i].poly.eval(u);
            let ghost before = evals@;
            evals.push(e);
            i = i + 1;
            proof {
                assert(evals@.map_values(|f: Fp| f@) =~= before.map_values(|f: Fp| f@).push(e@));
                assert(values_at(rx@.take(i as int), u@) =~= values_at(rx@.take(i - 1), u@).push(rx@[i - 1].poly.at(u@)));
            }
        }
        proof {
            assert(rx@.take(rx@.len() as int) =~= rx@);
        }
        let r = ChildEvaluationsWitness {
            rx: RxValues::from_vec(evals),
            a_poly: proof.a_poly.poly.eval(u),
            b_poly: proof.b_poly.poly.eval(u),
            registry_xy_poly: proof.registry_xy_poly.poly.eval(u),
            p_poly: proof.p_poly.poly.eval(u),
        };
        proof {
            assert(child_witness_values(&r) =~= values_at(child_polys(proof), u@));
            assert forall|k: int| 0 <= k < proof.rx@.len() implies (#[trigger] r.rx@[k])@ == proof.rx@[k].poly.at(u@) by {
                assert(fp_vals(r.rx@)[k] == values_at(rx@, u@)[k]);
            }
        }
        r
    }
}

/// Accumulates polynomials by Horner's rule in `beta`, collecting their
/// commitments.
pub struct Accumulator<T> {
    pub poly: Polynomial,
    pub commitments: Vec<T>,
    pub beta: Fp,
}

impl<T> Accumulator<T> {
    /// Scales the polynomial so far by `beta` and adds `poly`; records
    /// `commitment`.
    pub fn acc(&mut self, poly: &Polynomial, commitment: T)
        ensures
            forall|x: nat| #[trigger] final(self).poly.at(x) == fadd(fmul(old(self).poly.at(x), old(self).beta@), poly.at(x)),
            final(self).commitments@ == old(self).commitments@.push(commitment),
            final(self).beta == old(self).beta,
    {
        self.poly.scale(&self.beta);
        self.poly.add_assign(poly);
        self.commitments.push(commitment);
        proof {
            assert forall|x: nat| #[trigger] self.poly.at(x) == fadd(fmul(old(self).poly.at(x), old(self).beta@), poly.at(x)) by {
                crate::field::lemma_fmul_comm(old(self).beta@, old(self).poly.at(x));
            }
        }
    }
}

/// Folds `polys` into the accumulator in order.
fn acc_all<T: Copy>(acc: &mut Accumulator<T>, polys: &[Committed<T>])
    ensures
        forall|x: nat| #[trigger] final(acc).poly.at(x) == horner_from(old(acc).poly.at(x), values_at(polys@, x), old(acc).beta@),
        final(acc).commitments@ == old(acc).commitments@ + commitments_of(polys@),
        final(acc).beta == old(acc).beta,
{
    let mut i: usize = 0;
    while i < polys.len()
        invariant
            i <= polys@.len(),
            acc.beta == old(acc).beta,
            forall|x: nat| #[trigger] acc.poly.at(x) == horner_from(old(acc).poly.at(x), values_at(polys@.take(i as int), x), acc.beta@),
            acc.commitments@ == old(acc).commitments@ + commitments_of(polys@.take(i as int)),
        decreases polys@.len() - i,
    {
        acc.acc(&polys[i].poly, polys[i].commitment);
        i = i + 1;
        proof {
            assert forall|x: nat| #[trigger] acc.poly.at(x) == horner_from(old(acc).poly.at(x), values_at(polys@.take(i as int), x), acc.beta@) by {
                assert(values_at(polys@.take(i as int), x).drop_last() =~= values_at(polys@.take(i - 1), x));
            }
            assert(commitments_of(polys@.take(i as int)) =~= commitments_of(polys@.take(i - 1)).push(polys@[i - 1].commitment));
            assert(acc.commitments@ =~= old(acc).commitments@ + commitments_of(polys@.take(i as int)));
        }
    }
    proof {
        assert(polys@.take(polys@.len() as int) =~= polys@);
    }
}

/// Horner's rule in `x` over `s`, starting from `start` rather than zero.
pub open spec fn horner_from(start: nat, s: Seq<nat>, x: nat) -> nat
    decreases s.len(),
{
    if s.len() == 0 {
        start
    } else {
        fadd(fmul(horner_from(start, s.drop_last(), x), x), s.last())
    }
}

/// Starting from the first entry is Horner's rule over all of them.
proof fn lemma_horner_from(first: nat, s: Seq<nat>, x: nat)
    requires
        first < crate::field::p(),
    ensures
        horner_from(first, s, x) == horner(seq![first] + s, x),
    decreases s.len(),
{
    if s.len() == 0 {
        let t = seq![first];
        assert(seq![first] + s =~= t);
        assert(t.drop_last() =~= Seq::<nat>::empty());
        crate::field::lemma_fmul_zero(x);
        crate::field::lemma_fadd_zero(first);
        assert(horner(t.drop_last(), x) == 0);
        assert(horner(t, x) == fadd(fmul(0, x), first));
    } else {
        lemma_horner_from(first, s.drop_last(), x);
        assert((seq![first] + s).drop_last() =~= seq![first] + s.drop_last());
        assert((seq![first] + s).last() == s.last());
    }
}

/// Accumulates `p`: starting from `f`, the polynomials of both children and
/// of the current step, by Horner's rule in the effective `beta` of the
/// endoscalar extracted from `pre_beta`. Returns `p` with the commitments
/// in the same order, `f`'s first, which the endoscaling of `p`'s
/// commitment takes as its points.
pub fn compute_p<T: Copy>(
    pre_beta: &Fp,
    f: &Committed<T>,
    left: &ChildProof<T>,
    right: &ChildProof<T>,
    current: &CurrentStep<T>,
) -> (r: (Polynomial, Vec<T>))
    ensures
        forall|x: nat| #[trigger] r.0.at(x) == horner(values_at(accumulated(f, left, right, current), x), extracted_lift(pre_beta@)),
        r.1@ == commitments_of(accumulated(f, left, right, current)),
{
    let beta_endo = extract_endoscalar(*pre_beta);
    let effective_beta = lift_endoscalar(beta_endo);
    proof {
        lemma_lift_extracted(beta_endo, pre_beta@);
    }
    let mut acc = Accumulator { poly: f.poly.clone(), commitments: vec![f.commitment], beta: effective_beta };
    let ghost b = effective_beta@;
    proof {
        assert(acc.commitments@ =~= commitments_of(seq![*f]));
    }
    acc_child(&mut acc, left);
    acc_child(&mut acc, right);
    acc_current(&mut acc, current);
    proof {
        let all = accumulated(f, left, right, current);
        assert(all =~= seq![*f] + child_polys(left) + child_polys(right) + current_polys(current));
        assert(commitments_of(all) =~= commitments_of(seq![*f]) + commitments_of(child_polys(left)) + commitments_of(child_polys(right)) + commitments_of(current_polys(current)));
        assert forall|x: nat| #[trigger] acc.poly.at(x) == horner(values_at(all, x), b) by {
            let fv = f.poly.at(x);
            let l = values_at(child_polys(left), x);
            let r = values_at(child_polys(right), x);
            let c = values_at(current_polys(current), x);
            lemma_horner_from_concat(fv, l, r, b);
            lemma_horner_from_concat(fv, l + r, c, b);
            crate::polynomial::lemma_at_bounded(&f.poly, x);
            lemma_horner_from(fv, l + r + c, b);
            assert(values_at(all, x) =~= seq![fv] + (l + r + c));
        }
    }
    (acc.poly, acc.commitments)
}

/// Folds a child's polynomials into the accumulator, in the order of the
/// evaluation stage.
fn acc_child<T: Copy>(acc: &mut Accumulator<T>, child: &ChildProof<T>)
    ensures
        forall|x: nat| #[trigger] final(acc).poly.at(x) == horner_from(old(acc).poly.at(x), values_at(child_polys(child), x), old(acc).beta@),
        final(acc).commitments@ == old(acc).commitments@ + commitments_of(child_polys(child)),
        final(acc).beta == old(acc).beta,
{
    let ghost a0 = *acc;
    acc_all(acc, child.rx.as_slice());
    let ghost a1 = *acc;
    acc.acc(&child.a_poly.poly, child.a_poly.commitment);
    acc.acc(&child.b_poly.poly, child.b_poly.commitment);
    acc.acc(&child.registry_xy_poly.poly, child.registry_xy_poly.commitment);
    acc.acc(&child.p_poly.poly, child.p_poly.commitment);
    proof {
        let tail = seq![child.a_poly, child.b_poly, child.registry_xy_poly, child.p_poly];
        assert(child_polys(child) == child.rx@ + tail);
        assert(commitments_of(child_polys(child)) =~= commitments_of(child.rx@) + commitments_of(tail));
        assert(acc.commitments@ =~= a0.commitments@ + commitments_of(child_polys(child)));
        assert forall|x: nat| #[trigger] acc.poly.at(x) == horner_from(a0.poly.at(x), values_at(child_polys(child), x), a0.beta@) by {
            let v = values_at(child.rx@, x);
            let t = values_at(tail, x);
            assert(values_at(child_polys(child), x) =~= v + t);
            lemma_horner_from_concat(a0.poly.at(x), v, t, a0.beta@);
            reveal_with_fuel(horner_from, 5);
            assert(t.drop_last().drop_last().drop_last().drop_last() =~= Seq::<nat>::empty());
            assert(t.drop_last().drop_last().drop_last() =~= seq![child.a_poly.poly.at(x)]);
            assert(t.drop_last().drop_last() =~= seq![child.a_poly.poly.at(x), child.b_poly.poly.at(x)]);
        }
    }
}

/// Folds the current step's polynomials into the accumulator, in the order
/// of the evaluation stage.
fn acc_current<T: Copy>(acc: &mut Accumulator<T>, current: &CurrentStep<T>)
    ensures
        forall|x: nat| #[trigger] final(acc).poly.at(x) == horner_from(old(acc).poly.at(x), values_at(current_polys(current), x), old(acc).beta@),
        final(acc).commitments@ == old(acc).commitments@ + commitments_of(current_polys(current)),
        final(acc).beta == old(acc).beta,
{
    let ghost a0 = *acc;
    acc.acc(&current.registry_wx0.poly, current.registry_wx0.commitment);
    acc.acc(&current.registry_wx1.poly, current.registry_wx1.commitment);
    acc.acc(&current.registry_wy.poly, current.registry_wy.commitment);
    acc.acc(&current.a_poly.poly, current.a_poly.commitment);
    acc.acc(&current.b_poly.poly, current.b_poly.commitment);
    acc.acc(&current.registry_xy.poly, current.registry_xy.commitment);
    proof {
        assert(acc.commitments@ =~= a0.commitments@ + commitments_of(current_polys(current)));
        assert forall|x: nat| #[trigger] acc.poly.at(x) == horner_from(a0.poly.at(x), values_at(current_polys(current), x), a0.beta@) by {
            let t = values_at(current_polys(current), x);
            reveal_with_fuel(horner_from, 7);
            assert(t.drop_last().drop_last().drop_last().drop_last().drop_last().drop_last() =~= Seq::<nat>::empty());
        }
    }
}

/// Horner's rule over a concatenation continues from the first part.
proof fn lemma_horner_from_concat(start: nat, a: Seq<nat>, b: Seq<nat>, x: nat)
    ensures
        horner_from(start, a + b, x) == horner_from(horner_from(start, a, x), b, x),
    decreases b.len(),
{
    if b.len() == 0 {
        assert(a + b =~= a);
    } else {
        assert((a + b).drop_last() =~= a + b.drop_last());
        lemma_horner_from_concat(start, a, b.drop_last(), x);
    }
}

/// The prover's `p` opens at `u` to the value that the circuit computing
/// `v` checks: with the evaluation stage's values those at `u` of the
/// children's and the current step's polynomials, in the stage's order,
/// Horner's rule in the effective `beta` over `f(u)` and those values, as
/// [`crate::native::circuits::compute_v::Circuit::witness`] weighs them,
/// gives `p(u)`.
pub proof fn lemma_p_opens_to_v<T>(
    p: &Polynomial,
    f: &Committed<T>,
    left: &ChildProof<T>,
    right: &ChildProof<T>,
    current: &CurrentStep<T>,
    pre_beta: nat,
    u: nat,
    eval_values: Seq<nat>,
)
    requires
        p.at(u) == horner(values_at(accumulated(f, left, right, current), u), extracted_lift(pre_beta)),
        eval_values == values_at(child_polys(left), u) + values_at(child_polys(right), u) + values_at(
            current_polys(current),
            u,
        ),
    ensures
        p.at(u) == horner(seq![f.poly.at(u)] + eval_values, extracted_lift(pre_beta)),
{
    assert(values_at(accumulated(f, left, right, current), u) =~= seq![f.poly.at(u)] + eval_values);
}

} // verus!
