//! Wire allocation.
//!
//! A gate's four wires `(A, B, C, D)` are constrained by `A * B = C` and
//! `C * D = 0`. When `B` and `C` are both zero the wires `A` and `D` are
//! unconstrained, so two independent values fit into one gate. An
//! [`Allocator`] decides whether to open a fresh gate or to reuse the spare
//! `D` wire of an earlier one.

use vstd::prelude::*;

use crate::error::Error;
use crate::simulator::{Coeff, Simulator};

verus! {

/// Allocates wires on behalf of a gadget.
pub trait Allocator: Sized {
    /// Whether allocating `value` from this state succeeds.
    spec fn alloc_ok(&self, value: nat) -> bool;

    /// Whether the next allocation opens a fresh gate.
    spec fn alloc_uses_gate(&self) -> bool;

    /// Whether `after` is the state that follows a successful allocation.
    spec fn alloc_post(&self, after: Self) -> bool;

    /// Whether `after` is the state that follows the donation of `extra`.
    spec fn donate_post(&self, extra: bool, after: Self) -> bool;

    /// Whether every allocation from this state succeeds, and so from the
    /// state that follows it or the donation of an unconstrained wire.
    spec fn reliable(&self) -> bool;

    /// A reliable state accepts every value and stays reliable.
    proof fn lemma_reliable(&self, value: nat, after: Self)
        requires
            self.reliable(),
        ensures
            self.alloc_ok(value),
            self.alloc_post(after) ==> after.reliable(),
            self.donate_post(true, after) ==> after.reliable(),
    ;

    /// Allocates a new wire carrying `value`.
    fn allocate(&mut self, dr: &mut Simulator, value: Coeff) -> (r: Result<crate::field::Fp, Error>)
        requires
            old(dr).room(1, 0),
        ensures
            r is Ok <==> old(self).alloc_ok(value.val()),
            r matches Ok(w) ==> {
                &&& w@ == value.val()
                &&& old(self).alloc_post(*final(self))
                &&& old(dr).grew(*final(dr), if old(self).alloc_uses_gate() { 1 } else { 0 }, 0)
            },
    ;

    /// Accepts the spare token of a gate whose `D` wire is unconstrained.
    fn donate(&mut self, extra: bool)
        ensures
            old(self).donate_post(extra, *final(self)),
    ;
}

/// Stateless allocator that uses one gate per allocation.
impl Allocator for () {
    open spec fn alloc_ok(&self, value: nat) -> bool {
        true
    }

    open spec fn alloc_uses_gate(&self) -> bool {
        true
    }

    open spec fn alloc_post(&self, after: ()) -> bool {
        true
    }

    open spec fn donate_post(&self, extra: bool, after: ()) -> bool {
        true
    }

    open spec fn reliable(&self) -> bool {
        true
    }

    proof fn lemma_reliable(&self, value: nat, after: ()) {
    }

    fn allocate(&mut self, dr: &mut Simulator, value: Coeff) -> (r: Result<crate::field::Fp, Error>) {
        proof {
            crate::field::lemma_fmul_zero(value.val());
        }
        let (a, _, _) = dr.mul(value, Coeff::Zero, Coeff::Zero)?;
        Ok(a)
    }

    fn donate(&mut self, extra: bool) {
    }
}

/// Allocator that pools spare tokens donated by other gadgets and pairs its
/// own allocations two to a gate.
pub struct Standard<E> {
    pool: Vec<E>,
}

impl<E> Standard<E> {
    /// The pooled tokens, oldest first.
    pub closed spec fn pooled(&self) -> Seq<E> {
        self.pool@
    }

    /// Creates a new `Standard` with an empty pool.
    pub fn new() -> (r: Standard<E>)
        ensures
            r.pooled() == Seq::<E>::empty(),
    {
        Standard { pool: Vec::new() }
    }
}

impl<E> Default for Standard<E> {
    fn default() -> (r: Standard<E>)
        ensures
            r.pooled() == Seq::<E>::empty(),
    {
        Standard::new()
    }
}

impl Allocator for Standard<bool> {
    /// A fresh gate always succeeds; a pooled token admits any value when its
    /// gate had `c = 0`, and only zero otherwise.
    open spec fn alloc_ok(&self, value: nat) -> bool {
        self.pooled().len() == 0 || self.pooled().last() || value == 0
    }

    open spec fn alloc_uses_gate(&self) -> bool {
        self.pooled().len() == 0
    }

    /// The newest token is redeemed; a fresh gate leaves its own spare token.
    open spec fn alloc_post(&self, after: Standard<bool>) -> bool {
        if self.pooled().len() == 0 {
            after.pooled() == seq![true]
        } else {
            after.pooled() == self.pooled().drop_last()
        }
    }

    open spec fn donate_post(&self, extra: bool, after: Standard<bool>) -> bool {
        after.pooled() == self.pooled().push(extra)
    }

    /// Every pooled token comes from a gate with `c = 0`.
    open spec fn reliable(&self) -> bool {
        forall|i: int| 0 <= i < self.pooled().len() ==> #[trigger] self.pooled()[i]
    }

    proof fn lemma_reliable(&self, value: nat, after: Standard<bool>) {
        if self.pooled().len() > 0 {
            assert(self.pooled()[self.pooled().len() - 1]);
        }
        if self.alloc_post(after) && self.pooled().len() > 0 {
            assert forall|i: int| 0 <= i < after.pooled().len() implies #[trigger] after.pooled()[i] by {
                assert(after.pooled()[i] == self.pooled()[i]);
            }
        }
        if self.donate_post(true, after) {
            assert forall|i: int| 0 <= i < after.pooled().len() implies #[trigger] after.pooled()[i] by {
                if i < self.pooled().len() {
                    assert(after.pooled()[i] == self.pooled()[i]);
                }
            }
        }
    }

    fn allocate(&mut self, dr: &mut Simulator, value: Coeff) -> (r: Result<crate::field::Fp, Error>) {
        if let Some(extra) = self.pool.pop() {
            dr.assign_extra(extra, value)
        } else {
            proof {
                crate::field::lemma_fmul_zero(value.val());
            }
            let (a, _, _, extra) = dr.gate(value, Coeff::Zero, Coeff::Zero)?;
            self.pool.push(extra);
            assert(self.pool@ =~= seq![true]);
            Ok(a)
        }
    }

    fn donate(&mut self, extra: bool) {
        self.pool.push(extra);
    }
}

} // verus!
