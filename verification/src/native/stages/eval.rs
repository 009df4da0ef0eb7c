//! The evaluation stage: the claimed evaluations at `u` of both children's
//! polynomials and of the current step's, committed so that they can be
//! accumulated together with the claim about `f(u)`.

use vstd::prelude::*;

use crate::fold_revdot::fp_vals;
use crate::allocator::Allocator;
use crate::element::{all_consistent, allocate_all, vals, Element};
use crate::error::Error;
use crate::field::Fp;
use crate::native::{RxValues, NUM_RX};
use crate::simulator::Simulator;

verus! {

/// Evaluations at `u` of a child proof's polynomials, supplied by the prover
/// for the evaluation stage.
pub struct ChildEvaluationsWitness<F> {
    /// The evaluations of the child proof's `rx` polynomials.
    pub rx: RxValues<F>,
    /// The evaluation of the child proof's `A` polynomial.
    pub a_poly: F,
    /// The evaluation of the child proof's `B` polynomial.
    pub b_poly: F,
    /// The evaluation of the child proof's `registry_xy` polynomial.
    pub registry_xy_poly: F,
    /// The evaluation of the child proof's `P` polynomial.
    pub p_poly: F,
}

/// Evaluations at `u` of the polynomials committed in the current step.
pub struct CurrentStepWitness<F> {
    /// `m(w, x_0, Y)` at `u`, with `x_0` from the left child proof.
    pub registry_wx0: F,
    /// `m(w, x_1, Y)` at `u`, with `x_1` from the right child proof.
    pub registry_wx1: F,
    /// `m(w, X, y)` at `u`.
    pub registry_wy: F,
    /// `a(X)` at `u`.
    pub a_poly: F,
    /// `b(X)` at `u`.
    pub b_poly: F,
    /// `m(W, x, y)` at `u`.
    pub registry_xy: F,
}

/// The values a child's evaluations are allocated from, in allocation
/// order: the `rx` evaluations, then `A`, `B`, `registry_xy` and `P`.
pub open spec fn child_witness_values(w: &ChildEvaluationsWitness<Fp>) -> Seq<nat> {
    fp_vals(w.rx@) + seq![w.a_poly@, w.b_poly@, w.registry_xy_poly@, w.p_poly@]
}

/// The values of the current step's evaluations, in allocation order.
pub open spec fn current_witness_values(w: &CurrentStepWitness<Fp>) -> Seq<nat> {
    seq![w.registry_wx0@, w.registry_wx1@, w.registry_wy@, w.a_poly@, w.b_poly@, w.registry_xy@]
}

/// Whether each allocated evaluation of a child carries the witnessed value
/// of the polynomial it is named after.
pub open spec fn child_matches(c: &ChildEvaluations, w: &ChildEvaluationsWitness<Fp>) -> bool {
    &&& c.rx@.len() == w.rx@.len()
    &&& forall|k: int| 0 <= k < w.rx@.len() ==> (#[trigger] c.rx@[k]).val() == w.rx@[k]@
    &&& c.a_poly.val() == w.a_poly@
    &&& c.b_poly.val() == w.b_poly@
    &&& c.registry_xy_poly.val() == w.registry_xy_poly@
    &&& c.p_poly.val() == w.p_poly@
}

/// Whether each allocated evaluation of the current step carries the
/// witnessed value of the polynomial it is named after.
pub open spec fn current_matches(o: &Output, w: &CurrentStepWitness<Fp>) -> bool {
    &&& o.registry_wx0.val() == w.registry_wx0@
    &&& o.registry_wx1.val() == w.registry_wx1@
    &&& o.registry_wy.val() == w.registry_wy@
    &&& o.a_poly.val() == w.a_poly@
    &&& o.b_poly.val() == w.b_poly@
    &&& o.registry_xy.val() == w.registry_xy@
}

/// The witness of the evaluation stage.
pub struct Witness<F> {
    /// The left child's evaluations at `u`.
    pub left: ChildEvaluationsWitness<F>,
    /// The right child's evaluations at `u`.
    pub right: ChildEvaluationsWitness<F>,
    /// The current step's evaluations at `u`.
    pub current: CurrentStepWitness<F>,
}

/// The claimed evaluations at `u` of a child proof's polynomials. Their
/// order is the order in which they enter the weighted sum for `v`.
pub struct ChildEvaluations {
    pub rx: RxValues<Element>,
    pub a_poly: Element,
    pub b_poly: Element,
    pub registry_xy_poly: Element,
    pub p_poly: Element,
}

impl ChildEvaluations {
    /// The evaluations in order.
    pub open spec fn elements(&self) -> Seq<Element> {
        self.rx@ + seq![self.a_poly, self.b_poly, self.registry_xy_poly, self.p_poly]
    }

    /// Allocates the evaluations of `witness` with `allocator`.
    pub fn allocate<A: Allocator>(dr: &mut Simulator, allocator: &mut A, witness: &ChildEvaluationsWitness<Fp>) -> (r:
        Result<ChildEvaluations, Error>)
        requires
            old(dr).room(15, 0),
        ensures
            old(allocator).reliable() ==> r is Ok && final(allocator).reliable(),
            r matches Ok(c) ==> {
                &&& vals(c.elements()) == child_witness_values(witness)
                &&& child_matches(&c, witness)
                &&& all_consistent(c.elements())
                &&& c.rx@.len() == NUM_RX
                &&& final(dr).gates() <= old(dr).gates() + 15
                &&& final(dr).constraints() == old(dr).constraints()
                &&& (forall|a: A| #[trigger] a.alloc_uses_gate()) ==> old(dr).grew(*final(dr), 15, 0)
            },
    {
        let rx_values = witness.rx.as_slice();
        let mut data: Vec<Fp> = Vec::new();
        let mut i: usize = 0;
        while i < rx_values.len()
            invariant
                i <= rx_values@.len(),
                data@ == rx_values@.take(i as int),
            decreases rx_values@.len() - i,
        {
            data.push(rx_values[i]);
            i = i + 1;
            proof {
                assert(data@ =~= rx_values@.take(i as int));
            }
        }
        data.push(witness.a_poly);
        data.push(witness.b_poly);
        data.push(witness.registry_xy_poly);
        data.push(witness.p_poly);
        proof {
            assert(rx_values@.take(rx_values@.len() as int) =~= rx_values@);
            assert(fp_vals(data@) =~= child_witness_values(witness));
        }
        let elems = allocate_all(dr, allocator, data.as_slice())?;
        let mut rx_elems: Vec<Element> = Vec::new();
        let mut k: usize = 0;
        while k < NUM_RX
            invariant
                k <= NUM_RX,
                elems@.len() == NUM_RX + 4,
                rx_elems@ == elems@.take(k as int),
            decreases NUM_RX - k,
        {
            rx_elems.push(elems[k]);
            k = k + 1;
            proof {
                assert(rx_elems@ =~= elems@.take(k as int));
            }
        }
        let rx = RxValues::from_vec(rx_elems);
        let c = ChildEvaluations {
            rx,
            a_poly: elems[NUM_RX],
            b_poly: elems[NUM_RX + 1],
            registry_xy_poly: elems[NUM_RX + 2],
            p_poly: elems[NUM_RX + 3],
        };
        proof {
            assert(c.elements() =~= elems@);
            let cw = child_witness_values(witness);
            assert(vals(c.elements()) == cw);
            assert forall|k: int| 0 <= k < witness.rx@.len() implies (#[trigger] c.rx@[k]).val() == witness.rx@[k]@ by {
                assert(c.elements()[k] == c.rx@[k]);
                assert(cw[k] == witness.rx@[k]@);
            }
            assert(c.elements()[NUM_RX as int] == c.a_poly && cw[NUM_RX as int] == witness.a_poly@);
            assert(c.elements()[NUM_RX + 1] == c.b_poly && cw[NUM_RX + 1] == witness.b_poly@);
            assert(c.elements()[NUM_RX + 2] == c.registry_xy_poly && cw[NUM_RX + 2] == witness.registry_xy_poly@);
            assert(c.elements()[NUM_RX + 3] == c.p_poly && cw[NUM_RX + 3] == witness.p_poly@);
        }
        Ok(c)
    }
}

/// The output of the evaluation stage.
pub struct Output {
    pub left: ChildEvaluations,
    pub right: ChildEvaluations,
    pub registry_wx0: Element,
    pub registry_wx1: Element,
    pub registry_wy: Element,
    pub a_poly: Element,
    pub b_poly: Element,
    pub registry_xy: Element,
}

impl Output {
    /// The evaluations in order: the left child's, the right child's, then
    /// the current step's.
    pub open spec fn elements(&self) -> Seq<Element> {
        self.left.elements() + self.right.elements() + seq![
            self.registry_wx0,
            self.registry_wx1,
            self.registry_wy,
            self.a_poly,
            self.b_poly,
            self.registry_xy,
        ]
    }

    /// The evaluations in order.
    pub fn write(&self) -> (r: Vec<Element>)
        ensures
            r@ == self.elements(),
    {
        let mut out: Vec<Element> = Vec::new();
        append_child(&mut out, &self.left);
        append_child(&mut out, &self.right);
        out.push(self.registry_wx0);
        out.push(self.registry_wx1);
        out.push(self.registry_wy);
        out.push(self.a_poly);
        out.push(self.b_poly);
        out.push(self.registry_xy);
        proof {
            assert(out@ =~= self.elements());
        }
        out
    }
}

/// Appends a child's evaluations to `out`.
fn append_child(out: &mut Vec<Element>, child: &ChildEvaluations)
    ensures
        final(out)@ == old(out)@ + child.elements(),
{
    let rx = child.rx.as_slice();
    let mut i: usize = 0;
    while i < rx.len()
        invariant
            i <= rx@.len(),
            out@ == old(out)@ + rx@.take(i as int),
        decreases rx@.len() - i,
    {
        out.push(rx[i]);
        i = i + 1;
        proof {
            assert(out@ =~= old(out)@ + rx@.take(i as int));
        }
    }
    out.push(child.a_poly);
    out.push(child.b_poly);
    out.push(child.registry_xy_poly);
    out.push(child.p_poly);
    proof {
        assert(rx@.take(rx@.len() as int) =~= rx@);
        assert(out@ =~= old(out)@ + child.elements());
    }
}

/// The evaluation stage: the claimed evaluations at `u` of both children's
/// polynomials and of the current step's.
pub struct Stage;

impl Stage {
    /// The number of values the stage allocates: fifteen per child and six
    /// for the current step.
    pub fn values() -> (r: usize)
        ensures
            r == 2 * (NUM_RX + 4) + 6,
    {
        2 * 15 + 6
    }

    /// Allocates the evaluations of `witness`, one gate each.
    pub fn witness(&self, dr: &mut Simulator, witness: &Witness<Fp>) -> (r: Result<Output, Error>)
        requires
            old(dr).room(36, 0),
        ensures
            r matches Ok(out) && {
                &&& vals(out.elements()) == child_witness_values(&witness.left) + child_witness_values(&witness.right)
                    + current_witness_values(&witness.current)
                &&& child_matches(&out.left, &witness.left)
                &&& child_matches(&out.right, &witness.right)
                &&& current_matches(&out, &witness.current)
                &&& all_consistent(out.elements())
                &&& old(dr).grew(*final(dr), 36, 0)
            },
    {
        let allocator = &mut ();
        let left = ChildEvaluations::allocate(dr, allocator, &witness.left)?;
        let right = ChildEvaluations::allocate(dr, allocator, &witness.right)?;
        let c = &witness.current;
        let data = vec![c.registry_wx0, c.registry_wx1, c.registry_wy, c.a_poly, c.b_poly, c.registry_xy];
        proof {
            assert(data@ =~= seq![c.registry_wx0, c.registry_wx1, c.registry_wy, c.a_poly, c.b_poly, c.registry_xy]);
        }
        let current = allocate_all(dr, allocator, data.as_slice())?;
        proof {
            assert(vals(current@).len() == 6);
        }
        let out = Output {
            left,
            right,
            registry_wx0: current[0],
            registry_wx1: current[1],
            registry_wy: current[2],
            a_poly: current[3],
            b_poly: current[4],
            registry_xy: current[5],
        };
        proof {
            assert(seq![c.registry_wx0, c.registry_wx1, c.registry_wy, c.a_poly, c.b_poly, c.registry_xy].map_values(
                |f: Fp| f@,
            ) =~= current_witness_values(c));
            assert(vals(out.elements()) =~= vals(left.elements()) + vals(right.elements()) + vals(current@));
            assert(out.elements() =~= left.elements() + right.elements() + current@);
            assert forall|i: int| 0 <= i < out.elements().len() implies #[trigger] out.elements()[i].consistent() by {
                if i < 15 {
                    assert(out.elements()[i] == left.elements()[i]);
                } else if i < 30 {
                    assert(out.elements()[i] == right.elements()[i - 15]);
                } else {
                    assert(out.elements()[i] == current@[i - 30]);
                }
            }
        }
        Ok(out)
    }
}

} // verus!
