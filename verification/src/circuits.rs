//! Small circuits and headers that exercise the gadgets end to end.

use vstd::prelude::*;

use crate::allocator::Standard;
use crate::element::{square_times, Element};
use crate::error::Error;
use crate::field::{fadd, fmul, fsub, Fp};
use crate::header::{HeaderSuffix, Suffix};
use crate::simulator::{DirectSum, Simulator};

verus! {

/// `a^5`, computed as `((a^2)^2) * a`.
pub open spec fn fifth_power(a: nat) -> nat {
    let a2 = fmul(a, a);
    fmul(fmul(a2, a2), a)
}

/// Proves knowledge of `a` and `b` with `a^5 = b^2`, and outputs `a + b` and
/// `a - b`.
pub struct MySimpleCircuit;

impl MySimpleCircuit {
    /// Allocates the public inputs `(c, d)`: one gate.
    pub fn instance(&self, dr: &mut Simulator, instance: (Fp, Fp)) -> (r: Result<(Element, Element), Error>)
        requires
            old(dr).room(2, 0),
        ensures
            r matches Ok((c, d)) && {
                &&& c.val() == instance.0@ && c.consistent()
                &&& d.val() == instance.1@ && d.consistent()
                &&& old(dr).grew(*final(dr), 1, 0)
            },
    {
        let mut allocator = Standard::<bool>::new();
        let c = Element::allocate(dr, &mut allocator, instance.0)?;
        let d = Element::allocate(dr, &mut allocator, instance.1)?;
        Ok((c, d))
    }

    /// Allocates the witness `(a, b)`, enforces `a^5 = b^2`, and outputs
    /// `(a + b, a - b)`: five gates and nine constraints.
    pub fn witness(&self, dr: &mut Simulator, witness: (Fp, Fp)) -> (r: Result<(Element, Element), Error>)
        requires
            old(dr).room(5, 9),
        ensures
            r is Ok <==> fifth_power(witness.0@) == fmul(witness.1@, witness.1@),
            r matches Ok((c, d)) ==> {
                &&& c.val() == fadd(witness.0@, witness.1@) && c.consistent()
                &&& d.val() == fsub(witness.0@, witness.1@) && d.consistent()
                &&& old(dr).grew(*final(dr), 5, 9)
            },
    {
        let mut allocator = Standard::<bool>::new();
        let a = Element::allocate(dr, &mut allocator, witness.0)?;
        let b = Element::allocate(dr, &mut allocator, witness.1)?;
        let a2 = a.square(dr)?;
        let a4 = a2.square(dr)?;
        let a5 = a4.mul(dr, &a)?;
        let b2 = b.square(dr)?;
        let lc = DirectSum::new().add(&a5.wire()).sub(&b2.wire());
        proof {
            a5.lemma_bounded();
            b2.lemma_bounded();
            crate::field::lemma_fmul_one(a5.val());
            crate::field::lemma_fmul_one(b2.val());
            crate::field::lemma_fadd_zero(a5.val());
            crate::field::lemma_fsub_zero_iff(a5.val(), b2.val());
        }
        dr.enforce_zero(lc)?;
        let c = a.add(dr, &b);
        let d = a.sub(dr, &b);
        Ok((c, d))
    }
}

/// Squares its input `times` times: `w^(2^times)`, one gate per squaring.
pub struct SquareCircuit {
    /// The number of squarings.
    pub times: usize,
}

impl SquareCircuit {
    /// Allocates the public input: one gate.
    pub fn instance(&self, dr: &mut Simulator, instance: Fp) -> (r: Result<Element, Error>)
        requires
            old(dr).room(1, 0),
        ensures
            r matches Ok(e) && e.val() == instance@ && e.consistent() && old(dr).grew(*final(dr), 1, 0),
    {
        let mut allocator = Standard::<bool>::new();
        Element::allocate(dr, &mut allocator, instance)
    }

    /// Allocates `w` and squares it `times` times: `times + 1` gates and
    /// `2 times` constraints.
    pub fn witness(&self, dr: &mut Simulator, witness: Fp) -> (r: Result<Element, Error>)
        requires
            old(dr).room((self.times + 1) as nat, (2 * self.times) as nat),
        ensures
            r matches Ok(e) && {
                &&& e.val() == square_times(witness@, self.times as nat)
                &&& e.consistent()
                &&& old(dr).grew(*final(dr), (self.times + 1) as nat, (2 * self.times) as nat)
            },
    {
        let ghost d0 = *dr;
        let mut allocator = Standard::<bool>::new();
        let mut a = Element::allocate(dr, &mut allocator, witness)?;
        let mut i: usize = 0;
        while i < self.times
            invariant
                i <= self.times,
                a.val() == square_times(witness@, i as nat),
                a.consistent(),
                d0.room((self.times + 1) as nat, (2 * self.times) as nat),
                dr.gates() == d0.gates() + 1 + i,
                dr.constraints() == d0.constraints() + 2 * i,
            decreases self.times - i,
        {
            a = match a.square(dr) {
                Ok(s) => s,
                Err(e) => {
                    proof {
                        assert(false);
                    }
                    return Err(e);
                },
            };
            i = i + 1;
        }
        Ok(a)
    }
}

/// A leaf of a tree of hashes: its header holds one element.
pub struct LeafNode;

/// An internal node of a tree of hashes: its header holds one element.
pub struct InternalNode;

impl LeafNode {
    /// The suffix of leaf headers: the first application suffix.
    pub fn suffix() -> (r: Suffix)
        ensures
            r.kind() == HeaderSuffix::Application(0),
    {
        Suffix::new(0)
    }

    /// Encodes the header data `witness` as one allocated element.
    pub fn encode(dr: &mut Simulator, allocator: &mut Standard<bool>, witness: Fp) -> (r: Result<Element, Error>)
        requires
            old(dr).room(1, 0),
        ensures
            r is Ok <==> old(allocator).pooled().len() == 0 || old(allocator).pooled().last() || witness@ == 0,
            r matches Ok(e) ==> e.val() == witness@ && e.consistent(),
    {
        Element::allocate(dr, allocator, witness)
    }
}

impl InternalNode {
    /// The suffix of internal-node headers: the second application suffix.
    pub fn suffix() -> (r: Suffix)
        ensures
            r.kind() == HeaderSuffix::Application(1),
    {
        Suffix::new(1)
    }

    /// Encodes the header data `witness` as one allocated element.
    pub fn encode(dr: &mut Simulator, allocator: &mut Standard<bool>, witness: Fp) -> (r: Result<Element, Error>)
        requires
            old(dr).room(1, 0),
        ensures
            r is Ok <==> old(allocator).pooled().len() == 0 || old(allocator).pooled().last() || witness@ == 0,
            r matches Ok(e) ==> e.val() == witness@ && e.consistent(),
    {
        Element::allocate(dr, allocator, witness)
    }
}

/// An opaque handle to an entry registered for a test registry: its
/// position in registration order.
#[derive(Clone, Copy, Debug)]
pub struct Handle {
    index: usize,
}

impl Handle {
    /// The position of the entry.
    pub closed spec fn position(&self) -> nat {
        self.index as nat
    }

    /// A handle for the entry registered at `index`.
    pub fn new(index: usize) -> (r: Handle)
        ensures
            r.position() == index,
    {
        Handle { index }
    }

    /// The position of the entry.
    pub fn index(&self) -> (r: usize)
        ensures
            r == self.position(),
    {
        self.index
    }
}

} // verus!
