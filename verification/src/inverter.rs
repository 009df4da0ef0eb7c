//! Batch inversion of the denominators `base - x_i` with Montgomery's trick:
//! the inverses are computed together natively and then enforced one by one
//! in the circuit.

use ff::PrimeField;
use vstd::prelude::*;

use crate::element::Element;
use crate::error::Error;
use crate::field::{fdiv, fmul, fsub, lemma_fdiv_unique, lemma_fp_bounded, Fp};
use crate::native::{InternalCircuitIndex, InternalCircuitValues};
use crate::simulator::Simulator;

verus! {

broadcast use lemma_fp_bounded;

/// The inverses of `values` by `ff::BatchInverter::invert_with_external_scratch`
/// on `pasta_curves::Fp`, whose documentation says that each nonzero element
/// is replaced by its inverse and each zero element is left as zero.
#[verifier::external_body]
fn batch_invert(values: &[Fp]) -> (r: Vec<Fp>)
    ensures
        r@.len() == values@.len(),
        forall|i: int|
            0 <= i < values@.len() ==> {
                &&& values@[i]@ == 0 ==> (#[trigger] r@[i])@ == 0
                &&& values@[i]@ != 0 ==> fmul(values@[i]@, r@[i]@) == 1
            },
{
    let mut xs: Vec<pasta_curves::Fp> = values.iter().map(|v| pasta_curves::Fp::from_repr(v.bytes).unwrap()).collect();
    let mut scratch = vec![<pasta_curves::Fp as ff::Field>::ZERO; xs.len()];
    ff::BatchInverter::invert_with_external_scratch(&mut xs, &mut scratch);
    xs.into_iter().map(|x| Fp { bytes: x.to_repr() }).collect()
}

/// Accumulates the differences `base - value` for a batch inversion; the
/// index returned for each difference finds its inverse after
/// [`Inverter::invert`].
pub struct Inverter {
    base: Element,
    differences: Vec<Element>,
}

impl Inverter {
    /// The element all values are subtracted from.
    pub closed spec fn base_spec(&self) -> Element {
        self.base
    }

    /// The accumulated differences, in the order they were added.
    pub closed spec fn differences_spec(&self) -> Seq<Element> {
        self.differences@
    }

    /// A batch inverter with base `base` and no differences yet.
    pub fn with_base(base: Element) -> (r: Inverter)
        ensures
            r.base_spec() == base,
            r.differences_spec() == Seq::<Element>::empty(),
    {
        Inverter { base, differences: Vec::new() }
    }

    /// Adds the difference `base - value`, returning its index.
    pub fn add(&mut self, dr: &mut Simulator, value: &Element) -> (r: Result<usize, Error>)
        ensures
            r matches Ok(index) && {
                let d = final(self).differences_spec().last();
                &&& index == old(self).differences_spec().len()
                &&& final(self).differences_spec().drop_last() == old(self).differences_spec()
                &&& final(self).differences_spec().len() == index + 1
                &&& d.val() == fsub(old(self).base_spec().val(), value.val())
                &&& d.wire_val() == fsub(old(self).base_spec().wire_val(), value.wire_val())
            },
            final(self).base_spec() == old(self).base_spec(),
            *final(dr) == *old(dr),
    {
        let index = self.differences.len();
        let diff = self.base.sub(dr, value);
        let ghost before = self.differences@;
        self.differences.push(diff);
        proof {
            assert(self.differences@.drop_last() == before);
        }
        Ok(index)
    }

    /// Adds the difference `base - value` for a constant `value`, returning
    /// its index.
    pub fn add_constant(&mut self, dr: &mut Simulator, value: Fp) -> (r: Result<usize, Error>)
        ensures
            r matches Ok(index) && {
                let d = final(self).differences_spec().last();
                &&& index == old(self).differences_spec().len()
                &&& final(self).differences_spec().drop_last() == old(self).differences_spec()
                &&& final(self).differences_spec().len() == index + 1
                &&& d.val() == fsub(old(self).base_spec().val(), value@)
                &&& d.wire_val() == fsub(old(self).base_spec().wire_val(), value@)
            },
            final(self).base_spec() == old(self).base_spec(),
            *final(dr) == *old(dr),
    {
        let constant = Element::constant(dr, value);
        self.add(dr, &constant)
    }

    /// Adds the difference `base - omega^j` for the point `omega^j` of the
    /// internal circuit `circuit`, taken from `points`, returning its index.
    pub fn add_circuit(
        &mut self,
        dr: &mut Simulator,
        circuit: InternalCircuitIndex,
        points: &InternalCircuitValues<Fp>,
    ) -> (r: Result<usize, Error>)
        ensures
            r matches Ok(index) && {
                let d = final(self).differences_spec().last();
                &&& index == old(self).differences_spec().len()
                &&& final(self).differences_spec().drop_last() == old(self).differences_spec()
                &&& final(self).differences_spec().len() == index + 1
                &&& d.val() == fsub(old(self).base_spec().val(), points.at(circuit)@)
                &&& d.wire_val() == fsub(old(self).base_spec().wire_val(), points.at(circuit)@)
            },
            final(self).base_spec() == old(self).base_spec(),
            *final(dr) == *old(dr),
    {
        self.add_constant(dr, *points.get(circuit))
    }

    /// Inverts all differences: their inverses are computed natively in one
    /// batch and enforced in the circuit, one gate and two constraints each.
    /// Fails unless every difference is nonzero and carries its value.
    pub fn invert(self, dr: &mut Simulator) -> (r: Result<Vec<Element>, Error>)
        requires
            old(dr).room(self.differences_spec().len(), 2 * self.differences_spec().len()),
        ensures
            r is Ok <==> forall|i: int|
                0 <= i < self.differences_spec().len() ==> (#[trigger] self.differences_spec()[i]).val() != 0
                    && self.differences_spec()[i].consistent(),
            r matches Ok(v) ==> {
                let n = self.differences_spec().len();
                &&& v@.len() == n
                &&& forall|i: int|
                    0 <= i < n ==> (#[trigger] v@[i]).val() == fdiv(1, self.differences_spec()[i].val())
                        && v@[i].consistent()
                &&& old(dr).grew(*final(dr), n, 2 * n)
            },
    {
        let ghost diffs = self.differences@;
        let ghost d0 = *dr;
        let n = self.differences.len();
        let mut values: Vec<Fp> = Vec::new();
        let mut i: usize = 0;
        while i < n
            invariant
                n == diffs.len(),
                diffs == self.differences@,
                i <= n,
                values@.len() == i,
                forall|j: int| 0 <= j < i ==> (#[trigger] values@[j])@ == diffs[j].val(),
            decreases n - i,
        {
            values.push(self.differences[i].value());
            i = i + 1;
        }
        let advice = batch_invert(values.as_slice());
        let mut out: Vec<Element> = Vec::new();
        let mut k: usize = 0;
        while k < n
            invariant
                n == diffs.len(),
                diffs == self.differences@,
                advice@.len() == n,
                values@.len() == n,
                forall|j: int| 0 <= j < n ==> (#[trigger] values@[j])@ == diffs[j].val(),
                forall|j: int|
                    0 <= j < n ==> {
                        &&& values@[j]@ == 0 ==> (#[trigger] advice@[j])@ == 0
                        &&& values@[j]@ != 0 ==> fmul(values@[j]@, advice@[j]@) == 1
                    },
                k <= n,
                out@.len() == k,
                forall|j: int|
                    0 <= j < k ==> (#[trigger] out@[j]).val() == fdiv(1, diffs[j].val()) && out@[j].consistent(),
                forall|j: int| 0 <= j < k ==> (#[trigger] diffs[j]).val() != 0 && diffs[j].consistent(),
                d0.room(n as nat, (2 * n) as nat),
                dr.gates() == d0.gates() + k,
                dr.constraints() == d0.constraints() + 2 * k,
            decreases n - k,
        {
            let d = self.differences[k];
            let a = advice[k];
            proof {
                assert(values@[k as int]@ == diffs[k as int].val());
                if d.val() == 0 {
                    assert(a@ == 0);
                    crate::field::lemma_fmul_zero(0);
                }
            }
            let inv = match d.invert_with(dr, a) {
                Ok(e) => e,
                Err(err) => {
                    proof {
                        if d.val() != 0 {
                            assert(fmul(d.val(), a@) == 1);
                        }
                        assert(!(self.differences_spec()[k as int].val() != 0
                            && self.differences_spec()[k as int].consistent()));
                    }
                    return Err(err);
                },
            };
            proof {
                crate::field::lemma_fmul_comm(a@, d.val());
                lemma_fdiv_unique(1, d.val(), a@, a@);
            }
            out.push(inv);
            k = k + 1;
        }
        Ok(out)
    }
}

} // verus!
