//! The simulating driver: it executes circuit synthesis on concrete field
//! values, rejects witnesses that violate a constraint, and counts the gates
//! and linear constraints it has been asked for.

use vstd::prelude::*;

use crate::error::{Error, WitnessError};
use crate::field::{fadd, fmul, fsub, lemma_fp_bounded, p, Fp};

verus! {

broadcast use lemma_fp_bounded;

/// A symbolic coefficient of a wire.
#[derive(Clone, Copy, Debug, PartialEq, Eq)]
pub enum Coeff {
    Zero,
    One,
    Two,
    NegativeOne,
    Arbitrary(Fp),
}

impl Coeff {
    /// The field value of this coefficient.
    pub open spec fn val(self) -> nat {
        match self {
            Coeff::Zero => 0,
            Coeff::One => 1,
            Coeff::Two => 2,
            Coeff::NegativeOne => (p() - 1) as nat,
            Coeff::Arbitrary(f) => f@,
        }
    }

    /// The field element this coefficient stands for.
    pub fn value(&self) -> (r: Fp)
        ensures
            r@ == self.val(),
    {
        match self {
            Coeff::Zero => Fp::from_u64(0),
            Coeff::One => Fp::from_u64(1),
            Coeff::Two => Fp::from_u64(2),
            Coeff::NegativeOne => {
                let r = Fp::from_u64(1).neg();
                proof {
                    vstd::arithmetic::div_mod::lemma_small_mod(1, p());
                    vstd::arithmetic::div_mod::lemma_small_mod((p() - 1) as nat, p());
                }
                r
            },
            Coeff::Arbitrary(f) => *f,
        }
    }
}

/// A linear combination evaluated directly: every term added is scaled by
/// the running gain.
#[derive(Clone, Copy, Debug)]
pub struct DirectSum {
    pub value: Fp,
    pub gain: Fp,
}

impl DirectSum {
    /// The empty combination, with gain one.
    pub fn new() -> (r: DirectSum)
        ensures
            r.value@ == 0,
            r.gain@ == 1,
    {
        DirectSum { value: Fp::from_u64(0), gain: Fp::from_u64(1) }
    }

    /// Adds `gain * wire`.
    pub fn add(self, wire: &Fp) -> (r: DirectSum)
        ensures
            r.value@ == fadd(self.value@, fmul(self.gain@, wire@)),
            r.gain == self.gain,
    {
        DirectSum { value: self.value.add(&self.gain.mul(wire)), gain: self.gain }
    }

    /// Subtracts `gain * wire`.
    pub fn sub(self, wire: &Fp) -> (r: DirectSum)
        ensures
            r.value@ == fsub(self.value@, fmul(self.gain@, wire@)),
            r.gain == self.gain,
    {
        DirectSum { value: self.value.sub(&self.gain.mul(wire)), gain: self.gain }
    }

    /// Adds `gain * coeff * wire`.
    pub fn add_term(self, wire: &Fp, coeff: Coeff) -> (r: DirectSum)
        ensures
            r.value@ == fadd(self.value@, fmul(fmul(self.gain@, coeff.val()), wire@)),
            r.gain == self.gain,
    {
        let c = coeff.value();
        DirectSum { value: self.value.add(&self.gain.mul(&c).mul(wire)), gain: self.gain }
    }

    /// Multiplies the gain applied to later terms by `coeff`.
    pub fn gain(self, coeff: Coeff) -> (r: DirectSum)
        ensures
            r.value == self.value,
            r.gain@ == fmul(self.gain@, coeff.val()),
    {
        let c = coeff.value();
        DirectSum { value: self.value, gain: self.gain.mul(&c) }
    }
}

/// A driver that fully simulates circuit synthesis, enforcing constraint
/// satisfaction and tracking gate and constraint counts.
#[derive(Clone, Copy, Debug)]
pub struct Simulator {
    num_gates: usize,
    num_constraints: usize,
}

impl Simulator {
    /// The number of gates created so far.
    pub closed spec fn gates(&self) -> nat {
        self.num_gates as nat
    }

    /// The number of linear constraints enforced so far.
    pub closed spec fn constraints(&self) -> nat {
        self.num_constraints as nat
    }

    /// Whether `g` more gates and `c` more constraints can still be counted.
    pub open spec fn room(&self, g: nat, c: nat) -> bool {
        self.gates() + g <= usize::MAX && self.constraints() + c <= usize::MAX
    }

    /// The counters always fit.
    pub proof fn lemma_room_zero(&self)
        ensures
            self.room(0, 0),
    {
    }

    /// Whether the counters of `after` are those of `self` plus `g` and `c`.
    pub open spec fn grew(self, after: Simulator, g: nat, c: nat) -> bool {
        after.gates() == self.gates() + g && after.constraints() == self.constraints() + c
    }

    /// Creates a new simulator with no gates and no constraints.
    pub fn new() -> (r: Simulator)
        ensures
            r.gates() == 0,
            r.constraints() == 0,
    {
        Simulator { num_gates: 0, num_constraints: 0 }
    }

    /// Resets the metrics of the simulator.
    pub fn reset(&mut self)
        ensures
            final(self).gates() == 0,
            final(self).constraints() == 0,
    {
        self.num_gates = 0;
        self.num_constraints = 0;
    }

    /// Returns the number of gates.
    pub fn num_gates(&self) -> (r: usize)
        ensures
            r == self.gates(),
    {
        self.num_gates
    }

    /// Returns the number of constraints.
    pub fn num_constraints(&self) -> (r: usize)
        ensures
            r == self.constraints(),
    {
        self.num_constraints
    }

    /// The wire that always carries one.
    pub fn one() -> (r: Fp)
        ensures
            r@ == 1,
    {
        Fp::from_u64(1)
    }

    /// Creates a gate `a * b = c` and returns its three wires, with a flag
    /// telling whether `c` is zero, in which case its `d` wire is unconstrained.
    pub fn gate(&mut self, a: Coeff, b: Coeff, c: Coeff) -> (r: Result<(Fp, Fp, Fp, bool), Error>)
        requires
            old(self).room(1, 0),
        ensures
            r is Ok <==> fmul(a.val(), b.val()) == c.val(),
            r matches Ok((wa, wb, wc, extra)) ==> {
                &&& wa@ == a.val()
                &&& wb@ == b.val()
                &&& wc@ == c.val()
                &&& extra == (c.val() == 0)
                &&& old(self).grew(*final(self), 1, 0)
            },
            r matches Err(e) ==> e == Error::InvalidWitness(WitnessError::GateCheckFailed)
                && *final(self) == *old(self),
    {
        let a = a.value();
        let b = b.value();
        let c = c.value();
        if !a.mul(&b).equals(&c) {
            return Err(Error::InvalidWitness(WitnessError::GateCheckFailed));
        }
        self.num_gates = self.num_gates + 1;
        let extra = c.equals(&Fp::from_u64(0));
        Ok((a, b, c, extra))
    }

    /// Assigns the spare `d` wire of a gate, which must be zero unless the
    /// gate's `c` is zero.
    pub fn assign_extra(&mut self, c_is_zero: bool, value: Coeff) -> (r: Result<Fp, Error>)
        ensures
            *final(self) == *old(self),
            r is Ok <==> (c_is_zero || value.val() == 0),
            r matches Ok(d) ==> d@ == value.val(),
            r matches Err(e) ==> e == Error::InvalidWitness(WitnessError::AuxiliaryConstraintFailed),
    {
        let d = value.value();
        if !c_is_zero && !d.equals(&Fp::from_u64(0)) {
            return Err(Error::InvalidWitness(WitnessError::AuxiliaryConstraintFailed));
        }
        Ok(d)
    }

    /// A wire carrying a constant.
    pub fn constant(&mut self, value: Coeff) -> (r: Fp)
        ensures
            *final(self) == *old(self),
            r@ == value.val(),
    {
        value.value()
    }

    /// A virtual wire carrying a linear combination.
    pub fn add(&mut self, lc: DirectSum) -> (r: Fp)
        ensures
            *final(self) == *old(self),
            r@ == lc.value@,
    {
        lc.value
    }

    /// Enforces that a linear combination is zero.
    pub fn enforce_zero(&mut self, lc: DirectSum) -> (r: Result<(), Error>)
        requires
            old(self).room(0, 1),
        ensures
            r is Ok <==> lc.value@ == 0,
            r is Ok ==> old(self).grew(*final(self), 0, 1),
            r matches Err(e) ==> e == Error::InvalidWitness(WitnessError::ConstraintFailed)
                && *final(self) == *old(self),
    {
        if !lc.value.equals(&Fp::from_u64(0)) {
            return Err(Error::InvalidWitness(WitnessError::ConstraintFailed));
        }
        self.num_constraints = self.num_constraints + 1;
        Ok(())
    }

    /// Creates a multiplication gate `a * b = c` and returns its three wires.
    pub fn mul(&mut self, a: Coeff, b: Coeff, c: Coeff) -> (r: Result<(Fp, Fp, Fp), Error>)
        requires
            old(self).room(1, 0),
        ensures
            r is Ok <==> fmul(a.val(), b.val()) == c.val(),
            r matches Ok((wa, wb, wc)) ==> {
                &&& wa@ == a.val()
                &&& wb@ == b.val()
                &&& wc@ == c.val()
                &&& old(self).grew(*final(self), 1, 0)
            },
            r matches Err(e) ==> e == Error::InvalidWitness(WitnessError::GateCheckFailed)
                && *final(self) == *old(self),
    {
        let (wa, wb, wc, _) = self.gate(a, b, c)?;
        Ok((wa, wb, wc))
    }

    /// Enforces that two wires carry the same value.
    pub fn enforce_equal(&mut self, x: &Fp, y: &Fp) -> (r: Result<(), Error>)
        requires
            old(self).room(0, 1),
        ensures
            r is Ok <==> x@ == y@,
            r is Ok ==> old(self).grew(*final(self), 0, 1),
            r matches Err(e) ==> e == Error::InvalidWitness(WitnessError::ConstraintFailed)
                && *final(self) == *old(self),
    {
        let lc = DirectSum::new().add(x).sub(y);
        proof {
            crate::field::lemma_fmul_one(x@);
            crate::field::lemma_fmul_one(y@);
            crate::field::lemma_fadd_zero(x@);
            crate::field::lemma_fsub_add(x@, y@);
            crate::field::lemma_fsub_zero_iff(x@, y@);
        }
        self.enforce_zero(lc)
    }
}

impl Default for Simulator {
    /// A simulator with no gates and no constraints.
    fn default() -> (r: Simulator)
        ensures
            r.gates() == 0,
            r.constraints() == 0,
    {
        Simulator::new()
    }
}

} // verus!
